use vstd::prelude::*;

use crate::utils::{smart_pattern_split, spec_pattern_split};

verus! {

#[verifier::external_type_specification]
#[verifier::external_body]
pub struct ExGlobSet(globset::GlobSet);

/// The longest pattern the library compiles, in characters: generous for
/// any hand-written glob.  Globset surfaces an over-large regex as an
/// error, but its literal prefix and suffix machinery builds an automaton
/// whose state space overflows only near gigabytes of pattern text; this
/// bound keeps every compiled pattern orders of magnitude below that, so
/// compilation always returns normally.
pub const MAX_PATTERN_LEN: usize = 10000;

/// Whether a pattern string compiles: it parses as glob syntax and its
/// regex form stays within globset's internal size limits.  With the build
/// options this crate pins, a function of the pattern text alone.
pub uninterp spec fn glob_syntax_ok(pattern: Seq<char>) -> bool;

/// The single pattern string that a compiled matcher was built from; every
/// matcher in this crate holds exactly one, with the pinned build options.
pub uninterp spec fn matcher_pattern(m: globset::GlobSet) -> Seq<char>;

/// Whether a glob pattern matches a path.  With the build options this
/// crate pins, matching is a function of the pattern and the path text
/// alone.
pub uninterp spec fn glob_match(pattern: Seq<char>, path: Seq<char>) -> bool;

/// Whether a pattern is accepted by `PatternSet::build`: not over-long,
/// and it compiles as a glob.
pub open spec fn pattern_ok(pattern: Seq<char>) -> bool {
    pattern.len() <= MAX_PATTERN_LEN && glob_syntax_ok(pattern)
}

/// Relies on `globset::GlobBuilder::{new, backslash_escape, build}` and
/// `globset::GlobSetBuilder::{new, add, build}`: with backslash escaping
/// pinned (the one platform-dependent default), a pattern compiles exactly
/// when it parses as glob syntax and its regex form stays within globset's
/// size limits — a function of the pattern text alone — and the compiled
/// matcher carries the pattern it was built from.  Compiling through
/// `GlobSetBuilder` returns a too-large regex as an error rather than
/// panicking; the length bound keeps the literal prefix and suffix
/// machinery far below its own limits, so the call returns normally.
#[verifier::external_body]
fn compile_glob(pattern: &str) -> (r: Option<globset::GlobSet>)
    requires
        pattern@.len() <= MAX_PATTERN_LEN,
    ensures
        r is Some <==> glob_syntax_ok(pattern@),
        r is Some ==> matcher_pattern(r->Some_0) == pattern@,
{
    let glob = match globset::GlobBuilder::new(pattern).backslash_escape(true).build() {
        Ok(g) => g,
        Err(_) => return None,
    };
    let mut builder = globset::GlobSetBuilder::new();
    builder.add(glob);
    builder.build().ok()
}

/// Relies on `globset::GlobSet::is_match`: whether a path matches is
/// decided by the matcher's single pattern and the path text.  A path free
/// of backslashes is read the same way on every platform, and every
/// matcher here was compiled by `compile_glob` with the same pinned
/// options, so the result is a function of the two strings.
#[verifier::external_body]
fn glob_is_match(m: &globset::GlobSet, path: &str) -> (r: bool)
    requires
        !path@.contains('\\'),
    ensures
        r == glob_match(matcher_pattern(*m), path@),
{
    m.is_match(path)
}

/// A user-supplied inclusion or exclusion pattern could not be compiled:
/// it is not valid glob syntax, its compiled form is too large, or it is
/// longer than `MAX_PATTERN_LEN`.  The run is aborted before any traversal
/// begins; `pattern` is the first offending pattern string.
#[derive(Debug, Clone)]
pub struct PatternCompileError {
    pub pattern: String,
}

/// Compiled inclusion and exclusion patterns, built once from the raw
/// comma-separated pattern strings and immutable thereafter.
pub struct PatternSet {
    included: Vec<globset::GlobSet>,
    excluded: Vec<globset::GlobSet>,
}

/// The pattern strings behind a sequence of compiled matchers.
pub open spec fn pats_view(ms: Seq<globset::GlobSet>) -> Seq<Seq<char>> {
    ms.map_values(|m: globset::GlobSet| matcher_pattern(m))
}

/// Whether any pattern of `pats` matches `path`.
pub open spec fn any_glob_match(pats: Seq<Seq<char>>, path: Seq<char>) -> bool {
    exists|i: int| 0 <= i < pats.len() && glob_match(pats[i], path)
}

/// The selection verdict for a path.  Exclusion patterns are checked first:
/// a path matching any of them is rejected unconditionally, even when an
/// inclusion pattern also matches.  Otherwise a path matching any inclusion
/// pattern is accepted.  Otherwise the caller-supplied default applies;
/// when none is given, unmatched paths are accepted exactly when no
/// inclusion patterns are configured, so exclusions alone carve files out
/// of an otherwise fully accepted tree, while the presence of inclusion
/// patterns turns selection into a whitelist.
pub open spec fn spec_decide(
    includes: Seq<Seq<char>>,
    excludes: Seq<Seq<char>>,
    path: Seq<char>,
    default_accept: Option<bool>,
) -> bool {
    if any_glob_match(excludes, path) {
        false
    } else if any_glob_match(includes, path) {
        true
    } else {
        match default_accept {
            Some(b) => b,
            None => includes.len() == 0,
        }
    }
}

/// The patterns split out of an optional raw comma-separated string.
pub open spec fn pats_of(raw: Option<Seq<char>>) -> Seq<Seq<char>> {
    match raw {
        Some(s) => spec_pattern_split(s),
        None => Seq::empty(),
    }
}

impl PatternSet {
    /// The inclusion pattern strings, in the order they were given.
    pub closed spec fn includes(&self) -> Seq<Seq<char>> {
        pats_view(self.included@)
    }

    /// The exclusion pattern strings, in the order they were given.
    pub closed spec fn excludes(&self) -> Seq<Seq<char>> {
        pats_view(self.excluded@)
    }

    /// Whether any inclusion or exclusion pattern is configured.
    pub fn has_patterns(&self) -> (r: bool)
        ensures
            r == (self.includes().len() > 0 || self.excludes().len() > 0),
    {
        self.included.len() > 0 || self.excluded.len() > 0
    }

    /// Compiles the comma-separated inclusion and exclusion pattern strings
    /// into a pattern set.  Fails on the first pattern that is not valid
    /// glob syntax or is longer than `MAX_PATTERN_LEN`, reporting that
    /// pattern; nothing is matched in that case, aborting the run before
    /// any traversal (partial filtering would be worse than no run).
    pub fn build(includes: &Option<String>, excludes: &Option<String>) -> (r: Result<
        PatternSet,
        PatternCompileError,
    >)
        ensures
            ({
                let inc = pats_of(includes.deep_view());
                let exc = pats_of(excludes.deep_view());
                let all = inc + exc;
                &&& (r is Ok <==> (forall|i: int|
                    0 <= i < all.len() ==> pattern_ok(#[trigger] all[i])))
                &&& r is Ok ==> r->Ok_0.includes() == inc && r->Ok_0.excludes() == exc
                &&& r is Err ==> (exists|i: int|
                    {
                        &&& 0 <= i < all.len()
                        &&& !pattern_ok(#[trigger] all[i])
                        &&& all[i] == r->Err_0.pattern@
                        &&& forall|j: int| 0 <= j < i ==> pattern_ok(#[trigger] all[j])
                    })
            }),
    {
        let ghost inc_pats = pats_of(includes.deep_view());
        let ghost exc_pats = pats_of(excludes.deep_view());
        let inc_raw: Vec<String> = match includes {
            Some(s) => smart_pattern_split(s.as_str()),
            None => Vec::new(),
        };
        let exc_raw: Vec<String> = match excludes {
            Some(s) => smart_pattern_split(s.as_str()),
            None => Vec::new(),
        };
        proof {
            assert(inc_raw.deep_view() =~= inc_pats);
            assert(exc_raw.deep_view() =~= exc_pats);
        }

        let mut inc_m: Vec<globset::GlobSet> = Vec::new();
        let mut i: usize = 0;
        while i < inc_raw.len()
            invariant
                inc_pats == pats_of(includes.deep_view()),
                exc_pats == pats_of(excludes.deep_view()),
                inc_pats == inc_raw.deep_view(),
                exc_pats == exc_raw.deep_view(),
                i <= inc_raw.len(),
                pats_view(inc_m@) =~= inc_pats
                    .subrange(0, i as int),
                forall|j: int| 0 <= j < i ==> pattern_ok(#[trigger] inc_pats[j]),
            decreases inc_raw.len() - i,
        {
            let ghost old_m = inc_m@;
            let plen = inc_raw[i].as_str().unicode_len();
            proof {
                assert(i < inc_raw@.len());
                assert(inc_pats.len() == inc_raw@.len());
                assert(inc_pats[i as int] == inc_raw@[i as int]@);
            }
            if plen > MAX_PATTERN_LEN {
                proof {
                    let all = inc_pats + exc_pats;
                    assert(all.len() == inc_pats.len() + exc_pats.len());
                    assert(all[i as int] == inc_pats[i as int]);
                    assert(!pattern_ok(inc_pats[i as int]));
                    assert(forall|j: int| 0 <= j < i ==> pattern_ok(#[trigger] all[j]));
                }
                return Err(PatternCompileError { pattern: inc_raw[i].clone() });
            }
            match compile_glob(inc_raw[i].as_str()) {
                Some(m) => {
                    let ghost mp = matcher_pattern(m);
                    inc_m.push(m);
                    proof {
                        assert(i < inc_raw@.len());
                        assert(inc_pats.len() == inc_raw@.len());
                        assert(pats_view(old_m).len() == old_m.len());
                        assert(inc_pats.subrange(0, i as int).len() == i as int);
                        assert(old_m.len() == i as int);
                        assert(inc_m@.len() == i + 1);
                        assert(inc_pats[i as int] == inc_raw@[i as int]@);
                        assert(matcher_pattern(inc_m@[i as int]) == inc_pats[i as int]);
                        assert(pattern_ok(inc_pats[i as int]));
                        assert forall|j: int| 0 <= j < i + 1 implies pats_view(inc_m@)[j]
                            == inc_pats.subrange(0, i as int + 1)[j] by {
                            assert(pats_view(inc_m@)[j] == matcher_pattern(inc_m@[j]));
                            if j < i {
                                assert(inc_m@[j] == old_m[j]);
                                assert(pats_view(old_m)[j] == matcher_pattern(old_m[j]));
                            }
                        }
                        assert(pats_view(inc_m@)
                            =~= inc_pats.subrange(0, i as int + 1));
                    }
                },
                None => {
                    proof {
                        let all = inc_pats + exc_pats;
                        assert(all.len() == inc_pats.len() + exc_pats.len());
                        assert(all[i as int] == inc_pats[i as int]);
                        assert(!pattern_ok(inc_pats[i as int]));
                        assert(forall|j: int| 0 <= j < i ==> pattern_ok(#[trigger] all[j]));
                    }
                    return Err(PatternCompileError { pattern: inc_raw[i].clone() });
                },
            }
            i = i + 1;
        }
        proof {
            assert(pats_view(inc_m@) =~= inc_pats);
        }

        let mut exc_m: Vec<globset::GlobSet> = Vec::new();
        let mut k: usize = 0;
        while k < exc_raw.len()
            invariant
                inc_pats == pats_of(includes.deep_view()),
                exc_pats == pats_of(excludes.deep_view()),
                inc_pats == inc_raw.deep_view(),
                exc_pats == exc_raw.deep_view(),
                k <= exc_raw.len(),
                pats_view(inc_m@) == inc_pats,
                forall|j: int| 0 <= j < inc_pats.len() ==> pattern_ok(#[trigger] inc_pats[j]),
                pats_view(exc_m@) =~= exc_pats
                    .subrange(0, k as int),
                forall|j: int| 0 <= j < k ==> pattern_ok(#[trigger] exc_pats[j]),
            decreases exc_raw.len() - k,
        {
            let ghost old_m = exc_m@;
            let plen = exc_raw[k].as_str().unicode_len();
            proof {
                assert(k < exc_raw@.len());
                assert(exc_pats.len() == exc_raw@.len());
                assert(exc_pats[k as int] == exc_raw@[k as int]@);
            }
            if plen > MAX_PATTERN_LEN {
                proof {
                    let all = inc_pats + exc_pats;
                    assert(all.len() == inc_pats.len() + exc_pats.len());
                    assert(all[inc_pats.len() + k] == exc_pats[k as int]);
                    assert(!pattern_ok(exc_pats[k as int]));
                    assert(forall|j: int|
                        0 <= j < inc_pats.len() + k ==> pattern_ok(#[trigger] all[j]));
                }
                return Err(PatternCompileError { pattern: exc_raw[k].clone() });
            }
            match compile_glob(exc_raw[k].as_str()) {
                Some(m) => {
                    let ghost mp = matcher_pattern(m);
                    exc_m.push(m);
                    proof {
                        assert(k < exc_raw@.len());
                        assert(exc_pats.len() == exc_raw@.len());
                        assert(pats_view(old_m).len() == old_m.len());
                        assert(exc_pats.subrange(0, k as int).len() == k as int);
                        assert(old_m.len() == k as int);
                        assert(exc_m@.len() == k + 1);
                        assert(exc_pats[k as int] == exc_raw@[k as int]@);
                        assert(matcher_pattern(exc_m@[k as int]) == exc_pats[k as int]);
                        assert(pattern_ok(exc_pats[k as int]));
                        assert forall|j: int| 0 <= j < k + 1 implies pats_view(exc_m@)[j]
                            == exc_pats.subrange(0, k as int + 1)[j] by {
                            assert(pats_view(exc_m@)[j] == matcher_pattern(exc_m@[j]));
                            if j < k {
                                assert(exc_m@[j] == old_m[j]);
                                assert(pats_view(old_m)[j] == matcher_pattern(old_m[j]));
                            }
                        }
                        assert(pats_view(exc_m@)
                            =~= exc_pats.subrange(0, k as int + 1));
                    }
                },
                None => {
                    proof {
                        let all = inc_pats + exc_pats;
                        assert(all.len() == inc_pats.len() + exc_pats.len());
                        assert(all[inc_pats.len() + k] == exc_pats[k as int]);
                        assert(!pattern_ok(exc_pats[k as int]));
                        assert(forall|j: int|
                            0 <= j < inc_pats.len() + k ==> pattern_ok(#[trigger] all[j]));
                    }
                    return Err(PatternCompileError { pattern: exc_raw[k].clone() });
                },
            }
            k = k + 1;
        }
        proof {
            assert(pats_view(exc_m@) =~= exc_pats);
            let all = inc_pats + exc_pats;
            assert(forall|i: int| 0 <= i < all.len() ==> pattern_ok(#[trigger] all[i]));
        }
        Ok(PatternSet { included: inc_m, excluded: exc_m })
    }

    /// Decides whether a normalized, forward-slash-separated relative path
    /// is selected: exclusion patterns first, then inclusion patterns, then
    /// the default rule.
    pub fn decide(&self, path: &str, default_accept: Option<bool>) -> (r: bool)
        requires
            !path@.contains('\\'),
        ensures
            r == spec_decide(self.includes(), self.excludes(), path@, default_accept),
    {
        let mut i: usize = 0;
        while i < self.excluded.len()
            invariant
                !path@.contains('\\'),
                i <= self.excluded@.len(),
                forall|j: int| 0 <= j < i ==> !glob_match(#[trigger] self.excludes()[j], path@),
            decreases self.excluded@.len() - i,
        {
            if glob_is_match(&self.excluded[i], path) {
                assert(self.excludes()[i as int] == matcher_pattern(self.excluded@[i as int]));
                return false;
            }
            i = i + 1;
        }
        assert(!any_glob_match(self.excludes(), path@));

        let mut k: usize = 0;
        while k < self.included.len()
            invariant
                !path@.contains('\\'),
                !any_glob_match(self.excludes(), path@),
                k <= self.included@.len(),
                forall|j: int| 0 <= j < k ==> !glob_match(#[trigger] self.includes()[j], path@),
            decreases self.included@.len() - k,
        {
            if glob_is_match(&self.included[k], path) {
                assert(self.includes()[k as int] == matcher_pattern(self.included@[k as int]));
                assert(any_glob_match(self.includes(), path@));
                return true;
            }
            k = k + 1;
        }
        assert(!any_glob_match(self.includes(), path@));

        match default_accept {
            Some(b) => b,
            None => self.included.len() == 0,
        }
    }
}

/// Exclusion patterns take precedence: a path that matches any of them is
/// rejected, whatever the inclusion patterns say and whatever the default
/// is.
pub proof fn lemma_exclude_precedence(
    includes: Seq<Seq<char>>,
    excludes: Seq<Seq<char>>,
    path: Seq<char>,
    default_accept: Option<bool>,
)
    requires
        any_glob_match(excludes, path),
    ensures
        !spec_decide(includes, excludes, path, default_accept),
{
}

/// With no patterns configured and no explicit default, every path is
/// accepted.
pub proof fn lemma_default_accept_unconfigured(path: Seq<char>)
    ensures
        spec_decide(Seq::empty(), Seq::empty(), path, None),
{
}

/// When no pattern matches a path and no explicit default is given, the
/// verdict depends only on whether inclusion patterns are configured:
/// exclusion patterns alone leave unmatched paths accepted, while any
/// inclusion pattern switches the default to rejection.
pub proof fn lemma_unmatched_default(
    includes: Seq<Seq<char>>,
    excludes: Seq<Seq<char>>,
    path: Seq<char>,
)
    requires
        !any_glob_match(includes, path),
        !any_glob_match(excludes, path),
    ensures
        spec_decide(includes, excludes, path, None) == (includes.len() == 0),
{
}

} // verus!
