use vstd::prelude::*;

use crate::utils::push_char;

verus! {

/// The formatting choices for rendering one file body: prefix each kept
/// line with its 1-based number and a tab; drop zero-length lines; drop
/// lines whose leading-whitespace-trimmed text starts with the file's
/// comment prefix.
#[derive(Clone, Copy)]
pub struct RenderOptions {
    pub line_number: bool,
    pub ignore_empty_lines: bool,
    pub ignore_comments: bool,
}

/// `line` without a final carriage return, if it has one: the text of a
/// line that was terminated by `\r\n` is the text before the `\r`.
pub open spec fn strip_trailing_cr(line: Seq<char>) -> Seq<char> {
    if line.len() > 0 && line.last() == '\r' {
        line.drop_last()
    } else {
        line
    }
}

/// One step of splitting text into lines: `s` is the text still to scan and
/// `cur` the current line accumulated so far.  A `\n` ends a line (a
/// preceding `\r` is dropped with it); text after the last `\n` forms a
/// final line, kept as it stands, and a trailing `\n` adds no empty final
/// line.
pub open spec fn lines_rec(s: Seq<char>, cur: Seq<char>) -> Seq<Seq<char>>
    decreases s.len(),
{
    if s.len() == 0 {
        if cur.len() == 0 {
            Seq::empty()
        } else {
            seq![cur]
        }
    } else if s[0] == '\n' {
        seq![strip_trailing_cr(cur)] + lines_rec(s.drop_first(), Seq::empty())
    } else {
        lines_rec(s.drop_first(), cur.push(s[0]))
    }
}

/// The lines of `s`, split at `\n` or `\r\n` terminators, the final
/// terminator optional.
pub open spec fn spec_lines(s: Seq<char>) -> Seq<Seq<char>> {
    lines_rec(s, Seq::empty())
}

fn finish_line(cur: String) -> (r: String)
    ensures
        r@ == strip_trailing_cr(cur@),
{
    let len = cur.as_str().unicode_len();
    if len > 0 && cur.as_str().get_char(len - 1) == '\r' {
        let r = String::from_str(cur.as_str().substring_char(0, len - 1));
        proof {
            assert(cur@.drop_last() =~= cur@.subrange(0, len - 1));
        }
        r
    } else {
        cur
    }
}

/// Splits text into its lines, as `spec_lines` describes.
fn split_into_lines(content: &str) -> (r: Vec<String>)
    ensures
        r.deep_view() == spec_lines(content@),
{
    let n = content.unicode_len();
    let mut lines: Vec<String> = Vec::new();
    let mut cur = String::new();
    let mut i: usize = 0;
    proof {
        assert(content@.subrange(0, n as int) =~= content@);
        assert(lines.deep_view() =~= Seq::<Seq<char>>::empty());
        assert(Seq::<Seq<char>>::empty() + spec_lines(content@) =~= spec_lines(content@));
    }
    while i < n
        invariant
            n == content@.len(),
            i <= n,
            lines.deep_view() + lines_rec(content@.subrange(i as int, n as int), cur@)
                == spec_lines(content@),
        decreases n - i,
    {
        let ghost prev = lines.deep_view();
        let ghost cur_view = cur@;
        let c = content.get_char(i);
        proof {
            assert(content@.subrange(i as int, n as int)[0] == c);
            assert(content@.subrange(i as int, n as int).drop_first() =~= content@.subrange(
                i as int + 1,
                n as int,
            ));
        }
        if c == '\n' {
            let line = finish_line(cur);
            lines.push(line);
            cur = String::new();
            proof {
                assert(lines.deep_view() =~= prev + seq![strip_trailing_cr(cur_view)]);
                assert((prev + seq![strip_trailing_cr(cur_view)]) + lines_rec(
                    content@.subrange(i as int + 1, n as int),
                    Seq::empty(),
                ) =~= prev + (seq![strip_trailing_cr(cur_view)] + lines_rec(
                    content@.subrange(i as int + 1, n as int),
                    Seq::empty(),
                )));
                assert(cur@ =~= Seq::<char>::empty());
            }
        } else {
            push_char(&mut cur, c);
        }
        i = i + 1;
    }
    proof {
        assert(content@.subrange(n as int, n as int) =~= Seq::<char>::empty());
    }
    if !cur.as_str().is_empty() {
        let ghost prev = lines.deep_view();
        let ghost cur_view = cur@;
        lines.push(cur);
        proof {
            assert(lines.deep_view() =~= prev + seq![cur_view]);
        }
    } else {
        proof {
            assert(lines.deep_view() + Seq::<Seq<char>>::empty() =~= lines.deep_view());
        }
    }
    lines
}

/// The decimal digit `d` as a character.
pub open spec fn digit_char(d: int) -> char {
    if d == 0 {
        '0'
    } else if d == 1 {
        '1'
    } else if d == 2 {
        '2'
    } else if d == 3 {
        '3'
    } else if d == 4 {
        '4'
    } else if d == 5 {
        '5'
    } else if d == 6 {
        '6'
    } else if d == 7 {
        '7'
    } else if d == 8 {
        '8'
    } else {
        '9'
    }
}

/// The usual decimal notation of `n`, most significant digit first, with no
/// leading zeros (a single `0` for zero).
pub open spec fn spec_dec(n: int) -> Seq<char>
    decreases n,
{
    if n < 10 {
        seq![digit_char(n)]
    } else {
        spec_dec(n / 10).push(digit_char(n % 10))
    }
}

fn digit_of(d: usize) -> (c: char)
    requires
        d < 10,
    ensures
        c == digit_char(d as int),
{
    if d == 0 {
        '0'
    } else if d == 1 {
        '1'
    } else if d == 2 {
        '2'
    } else if d == 3 {
        '3'
    } else if d == 4 {
        '4'
    } else if d == 5 {
        '5'
    } else if d == 6 {
        '6'
    } else if d == 7 {
        '7'
    } else if d == 8 {
        '8'
    } else {
        '9'
    }
}

/// Writes `n` in decimal notation.
fn format_line_number(n: usize) -> (r: String)
    ensures
        r@ == spec_dec(n as int),
    decreases n,
{
    if n < 10 {
        let mut r = String::new();
        push_char(&mut r, digit_of(n));
        proof {
            assert(r@ =~= seq![digit_char(n as int)]);
        }
        r
    } else {
        let mut r = format_line_number(n / 10);
        push_char(&mut r, digit_of(n % 10));
        r
    }
}

/// Whether `c` counts as leading whitespace when looking for a comment
/// prefix: a space or a tab.
pub open spec fn is_space(c: char) -> bool {
    c == ' ' || c == '\t'
}

/// `line` without its leading spaces and tabs.
pub open spec fn spec_trim_start(line: Seq<char>) -> Seq<char>
    decreases line.len(),
{
    if line.len() > 0 && is_space(line[0]) {
        spec_trim_start(line.drop_first())
    } else {
        line
    }
}

/// Whether `s` begins with `prefix`.
pub open spec fn starts_with(s: Seq<char>, prefix: Seq<char>) -> bool {
    s.len() >= prefix.len() && s.subrange(0, prefix.len() as int) == prefix
}

proof fn lemma_trim_start_at(s: Seq<char>, k: int)
    requires
        0 <= k <= s.len(),
        forall|j: int| 0 <= j < k ==> is_space(#[trigger] s[j]),
        k == s.len() || !is_space(s[k]),
    ensures
        spec_trim_start(s) == s.subrange(k, s.len() as int),
    decreases k,
{
    if k == 0 {
        assert(s.subrange(0, s.len() as int) =~= s);
    } else {
        assert(is_space(s[0]));
        lemma_trim_start_at(s.drop_first(), k - 1);
        assert(s.drop_first().subrange(k - 1, s.drop_first().len() as int) =~= s.subrange(
            k,
            s.len() as int,
        ));
    }
}

/// Whether the leading-whitespace-trimmed text of `line` starts with
/// `prefix`.
fn is_comment_line(line: &str, prefix: &str) -> (r: bool)
    ensures
        r == starts_with(spec_trim_start(line@), prefix@),
{
    let n = line.unicode_len();
    let mut i: usize = 0;
    while i < n && (line.get_char(i) == ' ' || line.get_char(i) == '\t')
        invariant
            n == line@.len(),
            i <= n,
            forall|j: int| 0 <= j < i ==> is_space(#[trigger] line@[j]),
        decreases n - i,
    {
        i = i + 1;
    }
    proof {
        lemma_trim_start_at(line@, i as int);
    }
    let ghost trimmed = spec_trim_start(line@);
    let plen = prefix.unicode_len();
    if n - i < plen {
        return false;
    }
    let mut j: usize = 0;
    while j < plen
        invariant
            n == line@.len(),
            plen == prefix@.len(),
            i <= n,
            plen <= n - i,
            trimmed == spec_trim_start(line@),
            trimmed == line@.subrange(i as int, n as int),
            j <= plen,
            forall|m: int| 0 <= m < j ==> trimmed[m] == prefix@[m],
        decreases plen - j,
    {
        if line.get_char(i + j) != prefix.get_char(j) {
            proof {
                assert(trimmed[j as int] == line@[i as int + j]);
                if starts_with(trimmed, prefix@) {
                    assert(trimmed.subrange(0, plen as int)[j as int] == prefix@[j as int]);
                }
            }
            return false;
        }
        proof {
            assert(trimmed[j as int] == line@[i as int + j]);
        }
        j = j + 1;
    }
    proof {
        assert(trimmed.subrange(0, plen as int) =~= prefix@);
    }
    true
}

/// Whether a line is kept in the rendered body under the given options and
/// comment prefix.
pub open spec fn line_kept(line: Seq<char>, cp: Option<Seq<char>>, opts: RenderOptions) -> bool {
    &&& !(opts.ignore_empty_lines && line.len() == 0)
    &&& !(opts.ignore_comments && match cp {
        Some(p) => starts_with(spec_trim_start(line), p),
        None => false,
    })
}

/// The rendered text of one kept line: optionally its 1-based number and a
/// tab, then the line, then exactly one newline.
pub open spec fn spec_rendered_line(line: Seq<char>, number: int, opts: RenderOptions) -> Seq<
    char,
> {
    (if opts.line_number {
        spec_dec(number) + "\t"@
    } else {
        Seq::empty()
    }) + line + "\n"@
}

/// The rendered body from line `i` on: each kept line in original order,
/// numbered by its position in the original content.
pub open spec fn spec_body_from(
    lines: Seq<Seq<char>>,
    i: int,
    cp: Option<Seq<char>>,
    opts: RenderOptions,
) -> Seq<char>
    decreases lines.len() - i,
{
    if i < 0 || i >= lines.len() {
        Seq::empty()
    } else {
        (if line_kept(lines[i], cp, opts) {
            spec_rendered_line(lines[i], i + 1, opts)
        } else {
            Seq::empty()
        }) + spec_body_from(lines, i + 1, cp, opts)
    }
}

/// The whole rendered body of a file's lines.
pub open spec fn spec_body(lines: Seq<Seq<char>>, cp: Option<Seq<char>>, opts: RenderOptions) -> Seq<
    char,
> {
    spec_body_from(lines, 0, cp, opts)
}

/// The path header line of a rendered block.
pub open spec fn spec_header(path: Seq<char>) -> Seq<char> {
    "## "@ + path + "\n\n"@
}

/// The opening fence, with the language tag appended when there is one.
pub open spec fn spec_fence_open(lang: Option<Seq<char>>) -> Seq<char> {
    "```"@ + (match lang {
        Some(l) => l,
        None => Seq::empty(),
    }) + "\n"@
}

/// The full rendered block for one file: path header, opening fence tagged
/// with the language detected from the path, the filtered body lines, and
/// the closing fence followed by a blank line.  A pure function of the
/// path, the content and the options.
pub open spec fn spec_render(path: Seq<char>, content: Seq<char>, opts: RenderOptions) -> Seq<
    char,
> {
    spec_header(path) + spec_fence_open(crate::utils::spec_lang_of_path(path)) + spec_body(
        spec_lines(content),
        crate::utils::spec_comment_prefix_of_path(path),
        opts,
    ) + "```\n\n"@
}

/// Renders one file into its output block, as `spec_render` describes: a
/// `## path` header, a code fence tagged with the language detected from
/// the path, the content's lines filtered and numbered per the options
/// (each emitted line ends in exactly one newline, whether or not the
/// source line did), and the closing fence with a trailing blank line.
/// The content is not mutated; empty content yields an empty body between
/// the fences.
pub fn render(path: &str, content: &str, options: &RenderOptions) -> (r: String)
    ensures
        r@ == spec_render(path@, content@, *options),
{
    let opts = *options;
    let mut out = String::new();
    out.append("## ");
    out.append(path);
    out.append("\n\n");
    out.append("```");
    let ghost lang_view = crate::utils::spec_lang_of_path(path@);
    match crate::utils::detect_language_from_path(path) {
        Some(l) => {
            proof {
                assert(lang_view == Some(l@));
            }
            out.append(l);
        },
        None => {
        },
    }
    out.append("\n");
    proof {
        assert(out@ =~= spec_header(path@) + spec_fence_open(lang_view));
    }
    let ghost head = out@;

    let ghost cp_view = crate::utils::spec_comment_prefix_of_path(path@);
    let cp = crate::utils::get_comment_prefix(path);
    proof {
        assert(match cp {
            Some(p) => cp_view == Some(p@),
            None => cp_view is None,
        });
    }

    let lines = split_into_lines(content);
    let ghost dv = lines.deep_view();

    let mut i: usize = 0;
    proof {
        assert(out@ + spec_body_from(dv, 0, cp_view, opts) == head + spec_body(
            dv,
            cp_view,
            opts,
        ));
    }
    while i < lines.len()
        invariant
            head == spec_header(path@) + spec_fence_open(crate::utils::spec_lang_of_path(path@)),
            cp_view == crate::utils::spec_comment_prefix_of_path(path@),
            match cp {
                Some(p) => cp_view == Some(p@),
                None => cp_view is None,
            },
            dv == lines.deep_view(),
            i <= lines@.len(),
            dv.len() == lines@.len(),
            opts == *options,
            out@ + spec_body_from(dv, i as int, cp_view, opts) == head + spec_body(
                dv,
                cp_view,
                opts,
            ),
        decreases lines@.len() - i,
    {
        let ghost prev_out = out@;
        proof {
            assert(dv[i as int] == lines@[i as int]@);
        }
        let ghost line_view = dv[i as int];

        let mut skip = false;
        if opts.ignore_empty_lines && lines[i].as_str().is_empty() {
            skip = true;
        }
        if !skip && opts.ignore_comments {
            match cp {
                Some(p) => {
                    if is_comment_line(lines[i].as_str(), p) {
                        skip = true;
                    }
                },
                None => {
                },
            }
        }
        proof {
            assert(skip == !line_kept(line_view, cp_view, opts));
        }

        if !skip {
            if opts.line_number {
                let num = format_line_number(i + 1);
                out.append(num.as_str());
                out.append("\t");
            }
            out.append(lines[i].as_str());
            out.append("\n");
            proof {
                assert(out@ =~= prev_out + spec_rendered_line(line_view, i as int + 1, opts));
            }
        }
        proof {
            assert(spec_body_from(dv, i as int, cp_view, opts) == (if line_kept(
                line_view,
                cp_view,
                opts,
            ) {
                spec_rendered_line(line_view, i as int + 1, opts)
            } else {
                Seq::empty()
            }) + spec_body_from(dv, i as int + 1, cp_view, opts));
            if skip {
                assert(out@ + spec_body_from(dv, i as int + 1, cp_view, opts) =~= prev_out + (
                Seq::<char>::empty() + spec_body_from(dv, i as int + 1, cp_view, opts)));
                assert(Seq::<char>::empty() + spec_body_from(dv, i as int + 1, cp_view, opts)
                    =~= spec_body_from(dv, i as int + 1, cp_view, opts));
            } else {
                assert((prev_out + spec_rendered_line(line_view, i as int + 1, opts))
                    + spec_body_from(dv, i as int + 1, cp_view, opts) =~= prev_out + (
                spec_rendered_line(line_view, i as int + 1, opts) + spec_body_from(
                    dv,
                    i as int + 1,
                    cp_view,
                    opts,
                )));
            }
        }
        i = i + 1;
    }
    proof {
        assert(spec_body_from(dv, dv.len() as int, cp_view, opts) =~= Seq::<char>::empty());
        assert(out@ + Seq::<char>::empty() =~= out@);
    }
    out.append("```\n\n");
    proof {
        assert(out@ =~= spec_render(path@, content@, opts));
    }
    out
}

proof fn lemma_lines_rec_trailing_newline(s: Seq<char>, cur: Seq<char>)
    requires
        s.len() > 0,
        s.last() != '\n',
        s.last() != '\r',
    ensures
        lines_rec(s.push('\n'), cur) == lines_rec(s, cur),
    decreases s.len(),
{
    let sp = s.push('\n');
    assert(sp[0] == s[0]);
    if s.len() == 1 {
        assert(s[0] == s.last());
        assert(sp.drop_first() =~= seq!['\n']);
        assert(s.drop_first() =~= Seq::<char>::empty());
        assert(seq!['\n'][0] == '\n');
        assert(seq!['\n'].drop_first() =~= Seq::<char>::empty());
        assert(strip_trailing_cr(cur.push(s[0])) == cur.push(s[0]));
        assert(lines_rec(sp, cur) == lines_rec(seq!['\n'], cur.push(s[0])));
        assert(lines_rec(seq!['\n'], cur.push(s[0])) == seq![strip_trailing_cr(cur.push(s[0]))]
            + lines_rec(Seq::<char>::empty(), Seq::<char>::empty()));
        assert(lines_rec(Seq::<char>::empty(), Seq::<char>::empty()) =~= Seq::<Seq<char>>::empty());
        assert(seq![cur.push(s[0])] + Seq::<Seq<char>>::empty() =~= seq![cur.push(s[0])]);
        assert(lines_rec(s, cur) == lines_rec(Seq::<char>::empty(), cur.push(s[0])));
        assert(cur.push(s[0]).len() > 0);
        assert(lines_rec(Seq::<char>::empty(), cur.push(s[0])) == seq![cur.push(s[0])]);
    } else {
        assert(sp.drop_first() =~= s.drop_first().push('\n'));
        assert(s.drop_first().last() == s.last());
        if s[0] == '\n' {
            lemma_lines_rec_trailing_newline(s.drop_first(), Seq::empty());
            assert(lines_rec(sp, cur) == seq![strip_trailing_cr(cur)] + lines_rec(
                s.drop_first().push('\n'),
                Seq::empty(),
            ));
            assert(lines_rec(s, cur) == seq![strip_trailing_cr(cur)] + lines_rec(
                s.drop_first(),
                Seq::empty(),
            ));
        } else {
            lemma_lines_rec_trailing_newline(s.drop_first(), cur.push(s[0]));
            assert(lines_rec(sp, cur) == lines_rec(s.drop_first().push('\n'), cur.push(s[0])));
            assert(lines_rec(s, cur) == lines_rec(s.drop_first(), cur.push(s[0])));
        }
    }
}

/// Newline normalization is idempotent: content with and without a final
/// newline renders to the same block, because every emitted line is
/// terminated by exactly one newline either way.  (Content whose last
/// character is itself a newline gains an extra empty line instead, and a
/// final carriage return is kept only when no newline follows it, so those
/// two characters are left out here.)
pub proof fn lemma_render_newline_normalization(
    path: Seq<char>,
    content: Seq<char>,
    opts: RenderOptions,
)
    requires
        content.len() > 0,
        content.last() != '\n',
        content.last() != '\r',
    ensures
        spec_render(path, content.push('\n'), opts) == spec_render(path, content, opts),
{
    lemma_lines_rec_trailing_newline(content, Seq::empty());
}

} // verus!
