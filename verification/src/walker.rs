use vstd::prelude::*;

use crate::patterns::{spec_decide, PatternSet};
use crate::utils::push_char;

verus! {

/// `path` with every backslash replaced by a forward slash, and a leading
/// `prefix` (such as `./`) stripped when present: the platform-independent,
/// root-relative form that patterns are matched against.
pub open spec fn spec_normalize(path: Seq<char>, prefix: Seq<char>) -> Seq<char> {
    let replaced = path.map_values(|c: char| if c == '\\' { '/' } else { c });
    if replaced.len() >= prefix.len() && replaced.subrange(0, prefix.len() as int) == prefix {
        replaced.subrange(prefix.len() as int, replaced.len() as int)
    } else {
        replaced
    }
}

/// A normalized path never holds a backslash.
pub proof fn lemma_normalize_no_backslash(path: Seq<char>, prefix: Seq<char>)
    ensures
        !spec_normalize(path, prefix).contains('\\'),
{
    let replaced = path.map_values(|c: char| if c == '\\' { '/' } else { c });
    assert(forall|k: int| 0 <= k < replaced.len() ==> #[trigger] replaced[k] != '\\');
    let r = spec_normalize(path, prefix);
    assert(forall|k: int| 0 <= k < r.len() ==> #[trigger] r[k] != '\\');
    if r.contains('\\') {
        let w = choose|w: int| 0 <= w < r.len() && r[w] == '\\';
        assert(r[w] != '\\');
    }
}

/// Converts a path to the platform-independent string form used for
/// matching: backslashes become forward slashes and a leading
/// `relative_prefix` is stripped when present.
pub fn normalize_path(path: &str, relative_prefix: &str) -> (r: String)
    ensures
        r@ == spec_normalize(path@, relative_prefix@),
{
    let n = path.unicode_len();
    let mut replaced = String::new();
    let mut i: usize = 0;
    while i < n
        invariant
            n == path@.len(),
            i <= n,
            replaced@ == path@.subrange(0, i as int).map_values(
                |c: char| if c == '\\' { '/' } else { c },
            ),
        decreases n - i,
    {
        let c = path.get_char(i);
        let mapped: char = if c == '\\' { '/' } else { c };
        push_char(&mut replaced, mapped);
        proof {
            assert(replaced@ =~= path@.subrange(0, i as int + 1).map_values(
                |c: char| if c == '\\' { '/' } else { c },
            ));
        }
        i = i + 1;
    }
    proof {
        assert(path@.subrange(0, n as int) =~= path@);
    }

    let plen = relative_prefix.unicode_len();
    if plen <= n {
        let head = replaced.as_str().substring_char(0, plen);
        if crate::utils::str_eq(head, relative_prefix) {
            return String::from_str(replaced.as_str().substring_char(plen, n));
        }
    }
    replaced
}

/// The normalized forms of the candidate paths that the pattern set
/// selects, in the candidates' order.
pub open spec fn spec_select(
    includes: Seq<Seq<char>>,
    excludes: Seq<Seq<char>>,
    candidates: Seq<Seq<char>>,
    prefix: Seq<char>,
    default_accept: Option<bool>,
) -> Seq<Seq<char>>
    decreases candidates.len(),
{
    if candidates.len() == 0 {
        Seq::empty()
    } else {
        let norm = spec_normalize(candidates[0], prefix);
        let rest = spec_select(includes, excludes, candidates.drop_first(), prefix, default_accept);
        if spec_decide(includes, excludes, norm, default_accept) {
            seq![norm] + rest
        } else {
            rest
        }
    }
}

/// Filters the candidate file paths that a directory walk produced: each is
/// normalized with `relative_prefix` stripped, then tested against the
/// pattern set; the selected paths come back normalized, in their original
/// order.
pub fn select_files(
    set: &PatternSet,
    candidates: &Vec<String>,
    relative_prefix: &str,
    default_accept: Option<bool>,
) -> (r: Vec<String>)
    ensures
        r.deep_view() == spec_select(
            set.includes(),
            set.excludes(),
            candidates.deep_view(),
            relative_prefix@,
            default_accept,
        ),
{
    let ghost inc = set.includes();
    let ghost exc = set.excludes();
    let ghost cands = candidates.deep_view();
    let ghost pfx = relative_prefix@;
    let ghost whole = spec_select(inc, exc, cands, pfx, default_accept);

    let mut r: Vec<String> = Vec::new();
    let mut i: usize = 0;
    proof {
        assert(cands.subrange(0, cands.len() as int) =~= cands);
        assert(r.deep_view() =~= Seq::<Seq<char>>::empty());
        assert(Seq::<Seq<char>>::empty() + whole =~= whole);
    }
    while i < candidates.len()
        invariant
            inc == set.includes(),
            exc == set.excludes(),
            cands == candidates.deep_view(),
            pfx == relative_prefix@,
            whole == spec_select(inc, exc, cands, pfx, default_accept),
            i <= candidates@.len(),
            cands.len() == candidates@.len(),
            r.deep_view() + spec_select(
                inc,
                exc,
                cands.subrange(i as int, cands.len() as int),
                pfx,
                default_accept,
            ) == whole,
        decreases candidates@.len() - i,
    {
        let ghost prev = r.deep_view();
        let ghost rest = cands.subrange(i as int, cands.len() as int);
        proof {
            assert(rest[0] == cands[i as int]);
            assert(rest.drop_first() =~= cands.subrange(i as int + 1, cands.len() as int));
        }
        let norm = normalize_path(candidates[i].as_str(), relative_prefix);
        proof {
            assert(cands[i as int] == candidates@[i as int]@);
            lemma_normalize_no_backslash(cands[i as int], pfx);
        }
        let keep = set.decide(norm.as_str(), default_accept);
        if keep {
            let ghost norm_view = norm@;
            r.push(norm);
            proof {
                assert(r.deep_view() =~= prev + seq![norm_view]);
                assert((prev + seq![norm_view]) + spec_select(
                    inc,
                    exc,
                    cands.subrange(i as int + 1, cands.len() as int),
                    pfx,
                    default_accept,
                ) =~= prev + (seq![norm_view] + spec_select(
                    inc,
                    exc,
                    cands.subrange(i as int + 1, cands.len() as int),
                    pfx,
                    default_accept,
                )));
            }
        }
        i = i + 1;
    }
    proof {
        assert(cands.subrange(cands.len() as int, cands.len() as int) =~= Seq::<Seq<char>>::empty());
        assert(r.deep_view() + Seq::<Seq<char>>::empty() =~= r.deep_view());
    }
    r
}

} // verus!
