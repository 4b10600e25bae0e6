use code_prompt::patterns::PatternSet;

fn set(includes: Option<&str>, excludes: Option<&str>) -> PatternSet {
    PatternSet::build(
        &includes.map(|s| s.to_string()),
        &excludes.map(|s| s.to_string()),
    )
    .expect("patterns should compile")
}

#[test]
fn exclude_wins_over_matching_selection() {
    let ps = set(Some("important.log"), Some("*.log"));
    assert!(!ps.decide("important.log", None));
}

#[test]
fn default_accept_when_unconfigured() {
    let ps = set(None, None);
    assert!(!ps.has_patterns());
    assert!(ps.decide("anything/at/all.xyz", None));
    assert!(ps.decide("readme.md", None));
}

#[test]
fn exclude_only_boundary() {
    let ps = set(None, Some("*.tmp"));
    assert!(ps.has_patterns());
    assert!(!ps.decide("x.tmp", None));
    assert!(ps.decide("x.md", None));
    assert!(ps.decide("readme.md", None));
}

#[test]
fn selection_patterns_switch_to_whitelist() {
    let ps = set(Some("*.rs"), None);
    assert!(ps.decide("a.rs", None));
    assert!(!ps.decide("a.py", None));
}

#[test]
fn explicit_default_applies_when_unmatched() {
    let ps = set(None, Some("*.tmp"));
    assert!(!ps.decide("x.md", Some(false)));
    let ps2 = set(Some("*.rs"), None);
    assert!(ps2.decide("a.py", Some(true)));
    assert!(!ps2.decide("a.py", Some(false)));
}

#[test]
fn brace_alternation_matches() {
    let ps = set(Some("lib/{generated,l10n}*"), None);
    assert!(ps.decide("lib/generated_models.rs", None));
    assert!(ps.decide("lib/l10n_strings.rs", None));
    assert!(!ps.decide("lib/other.rs", None));
}

#[test]
fn glob_crosses_directories() {
    let ps = set(None, Some("*.png"));
    assert!(!ps.decide("assets/icons/b.png", None));
    assert!(ps.decide("assets/icons/b.svg", None));
}

#[test]
fn invalid_pattern_reports_the_offender() {
    let err = PatternSet::build(&Some("*.rs,a[".to_string()), &None)
        .err()
        .expect("an unclosed character class must not compile");
    assert_eq!(err.pattern, "a[");
}

#[test]
fn invalid_exclude_reported_after_valid_selection() {
    let err = PatternSet::build(&Some("*.rs".to_string()), &Some("b[".to_string()))
        .err()
        .expect("an unclosed character class must not compile");
    assert_eq!(err.pattern, "b[");
}

#[test]
fn over_long_pattern_is_rejected_not_compiled() {
    let long = "a".repeat(10_001);
    let err = PatternSet::build(&Some(long.clone()), &None)
        .err()
        .expect("an over-long pattern must be rejected");
    assert_eq!(err.pattern, long);
}

#[test]
fn pattern_at_the_length_bound_compiles_and_matches() {
    let long = "a".repeat(10_000);
    let ps = PatternSet::build(&Some(long.clone()), &None)
        .expect("a pattern at the bound must compile");
    assert!(ps.decide(&long, None));
    assert!(!ps.decide("b", None));
}

#[test]
fn star_heavy_pattern_comes_back_as_a_value() {
    // Star-heavy but within the length bound: whatever globset makes of its
    // regex form, the outcome must come back as a value, never as a panic.
    let pat = "*a".repeat(4_000);
    match PatternSet::build(&Some(pat.clone()), &None) {
        Ok(_) => {}
        Err(e) => assert_eq!(e.pattern, pat),
    }
}
