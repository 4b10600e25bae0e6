use code_prompt::utils::smart_pattern_split;

#[test]
fn brace_aware_split() {
    let parts = smart_pattern_split("*.png,*.ico,lib/{generated,l10n}*");
    assert_eq!(parts, vec!["*.png", "*.ico", "lib/{generated,l10n}*"]);
}

#[test]
fn unbalanced_closing_brace() {
    let parts = smart_pattern_split("a,b}");
    assert_eq!(parts, vec!["a", "b}"]);
}

#[test]
fn empty_input_yields_no_patterns() {
    let parts = smart_pattern_split("");
    assert!(parts.is_empty());
}

#[test]
fn empty_fragments_are_dropped() {
    let parts = smart_pattern_split(",,a,,");
    assert_eq!(parts, vec!["a"]);
}

#[test]
fn unclosed_opening_brace_swallows_commas() {
    let parts = smart_pattern_split("a,{b,c");
    assert_eq!(parts, vec!["a", "{b,c"]);
}

#[test]
fn nested_braces_keep_inner_commas() {
    let parts = smart_pattern_split("x{a,{b,c}},y");
    assert_eq!(parts, vec!["x{a,{b,c}}", "y"]);
}

#[test]
fn single_pattern_without_commas() {
    let parts = smart_pattern_split("src/**/*.rs");
    assert_eq!(parts, vec!["src/**/*.rs"]);
}
