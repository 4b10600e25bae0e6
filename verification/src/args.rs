use vstd::prelude::*;

use crate::patterns::{pats_of, pattern_ok, PatternCompileError, PatternSet};
use crate::render::{render, spec_render, RenderOptions};

verus! {

/// The configuration of one run, as the command line delivers it: where to
/// write, where to search, which comma-separated glob patterns select and
/// deselect files, and how each file body is rendered.  Built once at
/// startup and never mutated.
pub struct Args {
    /// Output file name.
    pub output: String,
    /// Directory to search for files.
    pub dir: String,
    /// Glob patterns to exclude files (comma separated).
    pub exclude: Option<String>,
    /// Glob patterns to select files (comma separated).
    pub includes: Option<String>,
    /// Prefix each kept line with its 1-based number and a tab.
    pub line_number: bool,
    /// Respect standard filters such as version-control ignore files.
    pub standard_filter: bool,
    /// Show matched files.
    pub show_matched: bool,
    /// Drop lines whose trimmed text starts with the file's comment prefix.
    pub ignore_comments: bool,
    /// Drop zero-length lines.
    pub ignore_empty_lines: bool,
    /// Skip confirmation for overwriting the output file.
    pub skip_confirm: bool,
    /// Relative path prefix to strip when normalizing walked paths.
    pub relative_prefix: String,
}

impl Default for Args {
    /// The defaults the command line would supply: write `code_prompt.md`,
    /// search the current directory with standard filters on, no patterns,
    /// and render bodies unfiltered and unnumbered.
    fn default() -> (d: Args)
        ensures
            d.output@ == "code_prompt.md"@,
            d.dir@ == "."@,
            d.exclude is None,
            d.includes is None,
            !d.line_number,
            d.standard_filter,
            !d.show_matched,
            !d.ignore_comments,
            !d.ignore_empty_lines,
            !d.skip_confirm,
            d.relative_prefix@ == "./"@,
    {
        Args {
            output: String::from_str("code_prompt.md"),
            dir: String::from_str("."),
            exclude: None,
            includes: None,
            line_number: false,
            standard_filter: true,
            show_matched: false,
            ignore_comments: false,
            ignore_empty_lines: false,
            skip_confirm: false,
            relative_prefix: String::from_str("./"),
        }
    }
}

impl Args {
    /// The rendering options these arguments ask for.
    pub open spec fn render_options(&self) -> RenderOptions {
        RenderOptions {
            line_number: self.line_number,
            ignore_empty_lines: self.ignore_empty_lines,
            ignore_comments: self.ignore_comments,
        }
    }

    /// Compiles the selection and exclusion pattern strings of these
    /// arguments into a pattern set, failing on the first pattern that is
    /// invalid or over-long.
    pub fn build_overrides(&self) -> (r: Result<PatternSet, PatternCompileError>)
        ensures
            ({
                let inc = pats_of(self.includes.deep_view());
                let exc = pats_of(self.exclude.deep_view());
                let all = inc + exc;
                &&& (r is Ok <==> (forall|i: int|
                    0 <= i < all.len() ==> pattern_ok(#[trigger] all[i])))
                &&& r is Ok ==> r->Ok_0.includes() == inc && r->Ok_0.excludes() == exc
                &&& r is Err ==> (exists|i: int|
                    {
                        &&& 0 <= i < all.len()
                        &&& !pattern_ok(#[trigger] all[i])
                        &&& all[i] == r->Err_0.pattern@
                        &&& forall|j: int| 0 <= j < i ==> pattern_ok(#[trigger] all[j])
                    })
            }),
    {
        PatternSet::build(&self.includes, &self.exclude)
    }

    /// Converts a path to the platform-independent string form used for
    /// matching and display: backslashes become forward slashes, and the
    /// configured relative prefix is stripped when present.
    pub fn path_to_normalized_string(&self, path: &str) -> (r: String)
        ensures
            r@ == crate::walker::spec_normalize(path@, self.relative_prefix@),
    {
        crate::walker::normalize_path(path, self.relative_prefix.as_str())
    }

    /// Writes the content of a file to a buffer: a `## path` header, a code
    /// fence tagged with the language detected from the path, the body
    /// lines filtered and numbered as these arguments ask, and the closing
    /// fence with a trailing blank line.
    pub fn write_buffer(&self, path: &str, content: &str) -> (r: String)
        ensures
            r@ == spec_render(path@, content@, self.render_options()),
    {
        let opts = RenderOptions {
            line_number: self.line_number,
            ignore_empty_lines: self.ignore_empty_lines,
            ignore_comments: self.ignore_comments,
        };
        render(path, content, &opts)
    }
}

} // verus!
