use vstd::prelude::*;

verus! {

/// A sequence holding `cur` as its only element, or the empty sequence when
/// `cur` is empty.  The splitter never emits empty pattern fragments.
pub open spec fn emit_fragment(cur: Seq<char>) -> Seq<Seq<char>> {
    if cur.len() == 0 {
        Seq::empty()
    } else {
        seq![cur]
    }
}

/// One step of the brace-aware comma split: `s` is the input still to scan,
/// `depth` the number of `{` braces currently open (never negative; a stray
/// `}` leaves it at zero), and `cur` the fragment accumulated so far.
pub open spec fn split_rec(s: Seq<char>, depth: int, cur: Seq<char>) -> Seq<Seq<char>>
    decreases s.len(),
{
    if s.len() == 0 {
        emit_fragment(cur)
    } else {
        let c = s[0];
        let rest = s.drop_first();
        if c == ',' && depth == 0 {
            emit_fragment(cur) + split_rec(rest, 0, Seq::empty())
        } else if c == '{' {
            split_rec(rest, depth + 1, cur.push(c))
        } else if c == '}' {
            split_rec(rest, if depth > 0 { depth - 1 } else { 0 }, cur.push(c))
        } else {
            split_rec(rest, depth, cur.push(c))
        }
    }
}

/// The comma-separated fragments of `s`, where commas nested inside balanced
/// `{`/`}` braces do not split and empty fragments are dropped.
pub open spec fn spec_pattern_split(s: Seq<char>) -> Seq<Seq<char>> {
    split_rec(s, 0, Seq::empty())
}

/// Relies on `String::push`: appends the single character `c` at the end of
/// the string.
#[verifier::external_body]
pub(crate) fn push_char(s: &mut String, c: char)
    ensures
        final(s)@ == old(s)@.push(c),
{
    s.push(c);
}

/// Split patterns by commas while respecting glob brace expressions, so that
/// `*.png,*.ico,lib/{generated,l10n}*` yields three patterns, the comma
/// inside `{generated,l10n}` being part of the third.  A closing brace with
/// no matching opener is kept literally and does not drive the depth below
/// zero, so malformed input degrades gracefully instead of erroring.
pub fn smart_pattern_split(pattern_str: &str) -> (patterns: Vec<String>)
    ensures
        patterns.deep_view() == spec_pattern_split(pattern_str@),
{
    let n = pattern_str.unicode_len();
    let mut patterns: Vec<String> = Vec::new();
    let mut current_pattern = String::new();
    let mut brace_depth: usize = 0;
    let mut i: usize = 0;

    proof {
        assert(pattern_str@.subrange(0, n as int) =~= pattern_str@);
        assert(patterns.deep_view() =~= Seq::<Seq<char>>::empty());
        assert(Seq::<Seq<char>>::empty() + spec_pattern_split(pattern_str@)
            =~= spec_pattern_split(pattern_str@));
    }
    while i < n
        invariant
            n == pattern_str@.len(),
            i <= n,
            brace_depth <= i,
            patterns.deep_view() + split_rec(
                pattern_str@.subrange(i as int, n as int),
                brace_depth as int,
                current_pattern@,
            ) == spec_pattern_split(pattern_str@),
        decreases n - i,
    {
        let ghost prev_patterns = patterns.deep_view();
        let ghost cur_view = current_pattern@;
        let ghost ghost_depth = brace_depth as int;
        let c = pattern_str.get_char(i);
        proof {
            assert(pattern_str@.subrange(i as int, n as int)[0] == c);
            assert(pattern_str@.subrange(i as int, n as int).drop_first() =~= pattern_str@.subrange(
                i as int + 1,
                n as int,
            ));
        }
        if c == ',' && brace_depth == 0 {
            proof {
                assert(split_rec(pattern_str@.subrange(i as int, n as int), ghost_depth, cur_view)
                    == emit_fragment(cur_view) + split_rec(
                    pattern_str@.subrange(i as int + 1, n as int),
                    0,
                    Seq::empty(),
                ));
            }
            if !current_pattern.as_str().is_empty() {
                patterns.push(current_pattern);
                current_pattern = String::new();
                proof {
                    assert(patterns.deep_view() =~= prev_patterns + emit_fragment(cur_view));
                    assert((prev_patterns + emit_fragment(cur_view)) + split_rec(
                        pattern_str@.subrange(i as int + 1, n as int),
                        0,
                        Seq::empty(),
                    ) =~= prev_patterns + (emit_fragment(cur_view) + split_rec(
                        pattern_str@.subrange(i as int + 1, n as int),
                        0,
                        Seq::empty(),
                    )));
                }
            } else {
                proof {
                    assert(current_pattern@ =~= Seq::<char>::empty());
                    assert(prev_patterns + (emit_fragment(cur_view) + split_rec(
                        pattern_str@.subrange(i as int + 1, n as int),
                        0,
                        Seq::empty(),
                    )) =~= prev_patterns + split_rec(
                        pattern_str@.subrange(i as int + 1, n as int),
                        0,
                        Seq::empty(),
                    ));
                }
            }
        } else if c == '{' {
            brace_depth = brace_depth + 1;
            push_char(&mut current_pattern, c);
            proof {
                assert(split_rec(pattern_str@.subrange(i as int, n as int), ghost_depth, cur_view)
                    == split_rec(
                    pattern_str@.subrange(i as int + 1, n as int),
                    ghost_depth + 1,
                    cur_view.push(c),
                ));
            }
        } else if c == '}' {
            if brace_depth > 0 {
                brace_depth = brace_depth - 1;
            }
            push_char(&mut current_pattern, c);
            proof {
                assert(split_rec(pattern_str@.subrange(i as int, n as int), ghost_depth, cur_view)
                    == split_rec(
                    pattern_str@.subrange(i as int + 1, n as int),
                    if ghost_depth > 0 { ghost_depth - 1 } else { 0 },
                    cur_view.push(c),
                ));
            }
        } else {
            push_char(&mut current_pattern, c);
            proof {
                assert(split_rec(pattern_str@.subrange(i as int, n as int), ghost_depth, cur_view)
                    == split_rec(
                    pattern_str@.subrange(i as int + 1, n as int),
                    ghost_depth,
                    cur_view.push(c),
                ));
            }
        }
        proof {
            assert(patterns.deep_view() + split_rec(
                pattern_str@.subrange(i as int + 1, n as int),
                brace_depth as int,
                current_pattern@,
            ) == prev_patterns + split_rec(
                pattern_str@.subrange(i as int, n as int),
                ghost_depth,
                cur_view,
            ));
        }
        i = i + 1;
    }

    proof {
        assert(pattern_str@.subrange(n as int, n as int) =~= Seq::<char>::empty());
    }
    if !current_pattern.as_str().is_empty() {
        let ghost prev_patterns = patterns.deep_view();
        let ghost cur_view = current_pattern@;
        patterns.push(current_pattern);
        proof {
            assert(patterns.deep_view() =~= prev_patterns + emit_fragment(cur_view));
        }
    } else {
        proof {
            assert(patterns.deep_view() + emit_fragment(current_pattern@)
                =~= patterns.deep_view());
        }
    }
    patterns
}


proof fn lemma_split_rec_nonempty(s: Seq<char>, depth: int, cur: Seq<char>)
    ensures
        forall|i: int|
            0 <= i < split_rec(s, depth, cur).len() ==> #[trigger] split_rec(s, depth, cur)[i].len()
                > 0,
    decreases s.len(),
{
    if s.len() == 0 {
    } else {
        let c = s[0];
        let rest = s.drop_first();
        if c == ',' && depth == 0 {
            lemma_split_rec_nonempty(rest, 0, Seq::empty());
            let e = emit_fragment(cur);
            let r = split_rec(rest, 0, Seq::empty());
            assert(split_rec(s, depth, cur) == e + r);
            assert forall|i: int| 0 <= i < split_rec(s, depth, cur).len() implies #[trigger] split_rec(
                s,
                depth,
                cur,
            )[i].len() > 0 by {
                if i < e.len() {
                    assert((e + r)[i] == e[i]);
                } else {
                    assert((e + r)[i] == r[i - e.len()]);
                }
            }
        } else if c == '{' {
            lemma_split_rec_nonempty(rest, depth + 1, cur.push(c));
            assert(split_rec(s, depth, cur) == split_rec(rest, depth + 1, cur.push(c)));
        } else if c == '}' {
            let d = if depth > 0 { depth - 1 } else { 0 };
            lemma_split_rec_nonempty(rest, d, cur.push(c));
            assert(split_rec(s, depth, cur) == split_rec(rest, d, cur.push(c)));
        } else {
            lemma_split_rec_nonempty(rest, depth, cur.push(c));
            assert(split_rec(s, depth, cur) == split_rec(rest, depth, cur.push(c)));
        }
    }
}

/// The splitter discards empty fragments: every pattern it yields is
/// non-empty, so a matcher is never compiled from an empty string.
pub proof fn lemma_split_fragments_nonempty(s: Seq<char>)
    ensures
        forall|i: int|
            0 <= i < spec_pattern_split(s).len() ==> #[trigger] spec_pattern_split(s)[i].len() > 0,
{
    lemma_split_rec_nonempty(s, 0, Seq::empty());
}

/// Index of the last occurrence of `c` in `s`, or -1 when `s` does not
/// contain `c`.
pub open spec fn last_index_of(s: Seq<char>, c: char) -> int
    decreases s.len(),
{
    if s.len() == 0 {
        -1
    } else if s.last() == c {
        s.len() - 1
    } else {
        last_index_of(s.drop_last(), c)
    }
}

proof fn lemma_last_index_of_found(s: Seq<char>, c: char, i: int)
    requires
        0 <= i < s.len(),
        s[i] == c,
        forall|m: int| i < m < s.len() ==> s[m] != c,
    ensures
        last_index_of(s, c) == i,
    decreases s.len(),
{
    if i == s.len() - 1 {
    } else {
        assert(s.drop_last()[i] == c);
        lemma_last_index_of_found(s.drop_last(), c, i);
    }
}

proof fn lemma_last_index_of_absent(s: Seq<char>, c: char)
    requires
        forall|m: int| 0 <= m < s.len() ==> s[m] != c,
    ensures
        last_index_of(s, c) == -1,
    decreases s.len(),
{
    if s.len() > 0 {
        lemma_last_index_of_absent(s.drop_last(), c);
    }
}

/// The final path component of `p`: everything after the last forward slash,
/// or all of `p` when it has none.
pub open spec fn spec_file_name(p: Seq<char>) -> Seq<char> {
    p.subrange(last_index_of(p, '/') + 1, p.len() as int)
}

/// The extension of the file named by `p`: the text after the last dot of
/// its final component.  A name with no dot, or whose only dot leads it
/// (a hidden file such as `.gitignore`), has no extension.
pub open spec fn spec_extension(p: Seq<char>) -> Option<Seq<char>> {
    let name = spec_file_name(p);
    let j = last_index_of(name, '.');
    if j >= 1 {
        Some(name.subrange(j + 1, name.len() as int))
    } else {
        None
    }
}

/// The ASCII-lowercased form of `c`; characters outside `A`..`Z` are kept.
pub open spec fn lower_char(c: char) -> char {
    match c {
        'A' => 'a',
        'B' => 'b',
        'C' => 'c',
        'D' => 'd',
        'E' => 'e',
        'F' => 'f',
        'G' => 'g',
        'H' => 'h',
        'I' => 'i',
        'J' => 'j',
        'K' => 'k',
        'L' => 'l',
        'M' => 'm',
        'N' => 'n',
        'O' => 'o',
        'P' => 'p',
        'Q' => 'q',
        'R' => 'r',
        'S' => 's',
        'T' => 't',
        'U' => 'u',
        'V' => 'v',
        'W' => 'w',
        'X' => 'x',
        'Y' => 'y',
        'Z' => 'z',
        _ => c,
    }
}

pub open spec fn spec_lower(s: Seq<char>) -> Seq<char> {
    s.map_values(|c: char| lower_char(c))
}

fn char_lower(c: char) -> (r: char)
    ensures
        r == lower_char(c),
{
    match c {
        'A' => 'a',
        'B' => 'b',
        'C' => 'c',
        'D' => 'd',
        'E' => 'e',
        'F' => 'f',
        'G' => 'g',
        'H' => 'h',
        'I' => 'i',
        'J' => 'j',
        'K' => 'k',
        'L' => 'l',
        'M' => 'm',
        'N' => 'n',
        'O' => 'o',
        'P' => 'p',
        'Q' => 'q',
        'R' => 'r',
        'S' => 's',
        'T' => 't',
        'U' => 'u',
        'V' => 'v',
        'W' => 'w',
        'X' => 'x',
        'Y' => 'y',
        'Z' => 'z',
        _ => c,
    }
}

fn lowercase(s: &str) -> (r: String)
    ensures
        r@ == spec_lower(s@),
{
    let n = s.unicode_len();
    let mut r = String::new();
    let mut i: usize = 0;
    while i < n
        invariant
            n == s@.len(),
            i <= n,
            r@ == s@.subrange(0, i as int).map_values(|c: char| lower_char(c)),
        decreases n - i,
    {
        let ghost prev = r@;
        let c = char_lower(s.get_char(i));
        push_char(&mut r, c);
        proof {
            assert(r@ =~= s@.subrange(0, i as int + 1).map_values(|c: char| lower_char(c)));
        }
        i = i + 1;
    }
    proof {
        assert(s@.subrange(0, n as int) =~= s@);
    }
    r
}

/// Whether the views of `a` and `b` hold the same characters.
pub fn str_eq(a: &str, b: &str) -> (r: bool)
    ensures
        r == (a@ == b@),
{
    let n = a.unicode_len();
    let m = b.unicode_len();
    if n != m {
        return false;
    }
    let mut i: usize = 0;
    while i < n
        invariant
            n == a@.len(),
            n == b@.len(),
            i <= n,
            forall|j: int| 0 <= j < i ==> a@[j] == b@[j],
        decreases n - i,
    {
        if a.get_char(i) != b.get_char(i) {
            return false;
        }
        i = i + 1;
    }
    proof {
        assert(a@ =~= b@);
    }
    true
}

/// Index of the last occurrence of `c` at or after position `from`, if any.
fn rfind_from(s: &str, c: char, from: usize) -> (r: Option<usize>)
    requires
        from <= s@.len(),
    ensures
        match r {
            Some(k) => {
                &&& from <= k < s@.len()
                &&& s@[k as int] == c
                &&& forall|m: int| k < m < s@.len() ==> s@[m] != c
            },
            None => forall|m: int| from <= m < s@.len() ==> s@[m] != c,
        },
{
    let n = s.unicode_len();
    let mut i: usize = n;
    while i > from
        invariant
            n == s@.len(),
            from <= i <= n,
            forall|m: int| i <= m < s@.len() ==> s@[m] != c,
        decreases i,
    {
        i = i - 1;
        if s.get_char(i) == c {
            return Some(i);
        }
    }
    None
}

/// The extension of the file named by `path`, if it has one.
pub fn extension_of(path: &str) -> (r: Option<String>)
    ensures
        match r {
            Some(e) => spec_extension(path@) == Some(e@),
            None => spec_extension(path@) is None,
        },
{
    let n = path.unicode_len();
    let name_start: usize = match rfind_from(path, '/', 0) {
        Some(k) => {
            proof {
                lemma_last_index_of_found(path@, '/', k as int);
            }
            k + 1
        },
        None => {
            proof {
                lemma_last_index_of_absent(path@, '/');
            }
            0
        },
    };
    assert(name_start == last_index_of(path@, '/') + 1);
    let ghost name = spec_file_name(path@);
    match rfind_from(path, '.', name_start) {
        Some(d) => {
            proof {
                assert(name[d - name_start] == path@[d as int]);
                assert(forall|m: int| d - name_start < m < name.len() ==> name[m] == path@[
                    m + name_start
                ] && name[m] != '.');
                lemma_last_index_of_found(name, '.', d - name_start);
            }
            if d > name_start {
                let e = String::from_str(path.substring_char(d + 1, n));
                proof {
                    assert(name.subrange(
                        d - name_start + 1,
                        name.len() as int,
                    ) =~= path@.subrange(d as int + 1, n as int));
                }
                Some(e)
            } else {
                None
            }
        },
        None => {
            proof {
                assert(forall|m: int| 0 <= m < name.len() ==> name[m] == path@[m + name_start]
                    && name[m] != '.');
                lemma_last_index_of_absent(name, '.');
            }
            None
        },
    }
}

/// The syntax-highlighting tag for a lowercased file extension, or none for
/// an extension the table does not know.
pub open spec fn spec_lang_of_ext(e: Seq<char>) -> Option<Seq<char>> {
    if e == "rs"@ {
        Some("rust"@)
    } else if e == "go"@ {
        Some("go"@)
    } else if e == "swift"@ {
        Some("swift"@)
    } else if e == "dart"@ {
        Some("dart"@)
    } else if e == "js"@ {
        Some("javascript"@)
    } else if e == "ts"@ {
        Some("typescript"@)
    } else if e == "py"@ {
        Some("python"@)
    } else if e == "yaml"@ || e == "yml"@ {
        Some("yaml"@)
    } else if e == "xml"@ {
        Some("xml"@)
    } else if e == "toml"@ {
        Some("toml"@)
    } else if e == "java"@ {
        Some("java"@)
    } else if e == "sh"@ {
        Some("bash"@)
    } else if e == "html"@ || e == "htm"@ {
        Some("html"@)
    } else if e == "css"@ {
        Some("css"@)
    } else if e == "json"@ {
        Some("json"@)
    } else if e == "md"@ {
        Some("markdown"@)
    } else if e == "sql"@ {
        Some("sql"@)
    } else if e == "c"@ || e == "h"@ {
        Some("c"@)
    } else if e == "cpp"@ || e == "hpp"@ || e == "cc"@ || e == "cxx"@ {
        Some("cpp"@)
    } else if e == "kt"@ || e == "kts"@ {
        Some("kotlin"@)
    } else if e == "r"@ {
        Some("r"@)
    } else if e == "ex"@ || e == "exs"@ {
        Some("elixir"@)
    } else if e == "hs"@ {
        Some("haskell"@)
    } else if e == "pl"@ {
        Some("perl"@)
    } else if e == "cs"@ {
        Some("csharp"@)
    } else if e == "fs"@ || e == "fsx"@ {
        Some("fsharp"@)
    } else if e == "rb"@ {
        Some("ruby"@)
    } else if e == "php"@ {
        Some("php"@)
    } else if e == "csv"@ {
        Some("csv"@)
    } else if e == "bat"@ || e == "cmd"@ {
        Some("batch"@)
    } else if e == "ps1"@ || e == "psm1"@ || e == "psd1"@ || e == "ps1xml"@ {
        Some("powershell"@)
    } else if e == "vbs"@ {
        Some("vbscript"@)
    } else {
        None
    }
}

/// The language tag for `p`, keyed on its lowercased extension.
pub open spec fn spec_lang_of_path(p: Seq<char>) -> Option<Seq<char>> {
    match spec_extension(p) {
        Some(e) => spec_lang_of_ext(spec_lower(e)),
        None => None,
    }
}

fn lang_of_ext(e: &str) -> (r: Option<&'static str>)
    ensures
        r.deep_view() == spec_lang_of_ext(e@),
{
    if str_eq(e, "rs") {
        Some("rust")
    } else if str_eq(e, "go") {
        Some("go")
    } else if str_eq(e, "swift") {
        Some("swift")
    } else if str_eq(e, "dart") {
        Some("dart")
    } else if str_eq(e, "js") {
        Some("javascript")
    } else if str_eq(e, "ts") {
        Some("typescript")
    } else if str_eq(e, "py") {
        Some("python")
    } else if str_eq(e, "yaml") || str_eq(e, "yml") {
        Some("yaml")
    } else if str_eq(e, "xml") {
        Some("xml")
    } else if str_eq(e, "toml") {
        Some("toml")
    } else if str_eq(e, "java") {
        Some("java")
    } else if str_eq(e, "sh") {
        Some("bash")
    } else if str_eq(e, "html") || str_eq(e, "htm") {
        Some("html")
    } else if str_eq(e, "css") {
        Some("css")
    } else if str_eq(e, "json") {
        Some("json")
    } else if str_eq(e, "md") {
        Some("markdown")
    } else if str_eq(e, "sql") {
        Some("sql")
    } else if str_eq(e, "c") || str_eq(e, "h") {
        Some("c")
    } else if str_eq(e, "cpp") || str_eq(e, "hpp") || str_eq(e, "cc") || str_eq(e, "cxx") {
        Some("cpp")
    } else if str_eq(e, "kt") || str_eq(e, "kts") {
        Some("kotlin")
    } else if str_eq(e, "r") {
        Some("r")
    } else if str_eq(e, "ex") || str_eq(e, "exs") {
        Some("elixir")
    } else if str_eq(e, "hs") {
        Some("haskell")
    } else if str_eq(e, "pl") {
        Some("perl")
    } else if str_eq(e, "cs") {
        Some("csharp")
    } else if str_eq(e, "fs") || str_eq(e, "fsx") {
        Some("fsharp")
    } else if str_eq(e, "rb") {
        Some("ruby")
    } else if str_eq(e, "php") {
        Some("php")
    } else if str_eq(e, "csv") {
        Some("csv")
    } else if str_eq(e, "bat") || str_eq(e, "cmd") {
        Some("batch")
    } else if str_eq(e, "ps1") || str_eq(e, "psm1") || str_eq(e, "psd1") || str_eq(e, "ps1xml") {
        Some("powershell")
    } else if str_eq(e, "vbs") {
        Some("vbscript")
    } else {
        None
    }
}

/// Detects the syntax-highlighting language tag from a file's extension, so
/// that `src/main.rs` yields `rust`; the extension is compared after ASCII
/// lowercasing, and an unknown or missing extension yields none.
pub fn detect_language_from_path(path: &str) -> (r: Option<&'static str>)
    ensures
        r.deep_view() == spec_lang_of_path(path@),
{
    match extension_of(path) {
        Some(e) => {
            let low = lowercase(e.as_str());
            lang_of_ext(low.as_str())
        },
        None => None,
    }
}

/// The line-comment prefix customary for a lowercased file extension: `//`
/// for the C family, `#` for script-like languages, `--` for SQL and
/// Haskell; none for extensions whose comment syntax the table does not
/// know.
pub open spec fn spec_comment_prefix_of_ext(e: Seq<char>) -> Option<Seq<char>> {
    if e == "rs"@ || e == "go"@ || e == "swift"@ || e == "dart"@ || e == "js"@ || e == "ts"@
        || e == "java"@ || e == "c"@ || e == "h"@ || e == "cpp"@ || e == "hpp"@ || e == "cc"@
        || e == "cxx"@ || e == "kt"@ || e == "kts"@ || e == "cs"@ || e == "fs"@ || e == "fsx"@
        || e == "php"@ || e == "css"@ {
        Some("//"@)
    } else if e == "py"@ || e == "sh"@ || e == "yaml"@ || e == "yml"@ || e == "toml"@
        || e == "r"@ || e == "rb"@ || e == "pl"@ || e == "ex"@ || e == "exs"@ || e == "ps1"@
        || e == "psm1"@ || e == "psd1"@ {
        Some("#"@)
    } else if e == "sql"@ || e == "hs"@ {
        Some("--"@)
    } else {
        None
    }
}

/// The comment prefix for `p`, keyed on its lowercased extension.
pub open spec fn spec_comment_prefix_of_path(p: Seq<char>) -> Option<Seq<char>> {
    match spec_extension(p) {
        Some(e) => spec_comment_prefix_of_ext(spec_lower(e)),
        None => None,
    }
}

fn comment_prefix_of_ext(e: &str) -> (r: Option<&'static str>)
    ensures
        r.deep_view() == spec_comment_prefix_of_ext(e@),
{
    if str_eq(e, "rs") || str_eq(e, "go") || str_eq(e, "swift") || str_eq(e, "dart") || str_eq(
        e,
        "js",
    ) || str_eq(e, "ts") || str_eq(e, "java") || str_eq(e, "c") || str_eq(e, "h") || str_eq(
        e,
        "cpp",
    ) || str_eq(e, "hpp") || str_eq(e, "cc") || str_eq(e, "cxx") || str_eq(e, "kt") || str_eq(
        e,
        "kts",
    ) || str_eq(e, "cs") || str_eq(e, "fs") || str_eq(e, "fsx") || str_eq(e, "php") || str_eq(
        e,
        "css",
    ) {
        Some("//")
    } else if str_eq(e, "py") || str_eq(e, "sh") || str_eq(e, "yaml") || str_eq(e, "yml")
        || str_eq(e, "toml") || str_eq(e, "r") || str_eq(e, "rb") || str_eq(e, "pl") || str_eq(
        e,
        "ex",
    ) || str_eq(e, "exs") || str_eq(e, "ps1") || str_eq(e, "psm1") || str_eq(e, "psd1") {
        Some("#")
    } else if str_eq(e, "sql") || str_eq(e, "hs") {
        Some("--")
    } else {
        None
    }
}

/// Detects the line-comment prefix from a file's extension, used when
/// comment lines are to be dropped from the rendered output; an unknown or
/// missing extension disables comment filtering for that file.
pub fn get_comment_prefix(path: &str) -> (r: Option<&'static str>)
    ensures
        r.deep_view() == spec_comment_prefix_of_path(path@),
{
    match extension_of(path) {
        Some(e) => {
            let low = lowercase(e.as_str());
            comment_prefix_of_ext(low.as_str())
        },
        None => None,
    }
}

} // verus!
