use code_prompt::render::{render, RenderOptions};
use code_prompt::utils::{detect_language_from_path, get_comment_prefix};

fn plain() -> RenderOptions {
    RenderOptions { line_number: false, ignore_empty_lines: false, ignore_comments: false }
}

#[test]
fn known_language_from_extension() {
    assert_eq!(detect_language_from_path("src/main.rs"), Some("rust"));
    assert_eq!(detect_language_from_path("a/b/c.py"), Some("python"));
    assert_eq!(detect_language_from_path("web/app.ts"), Some("typescript"));
}

#[test]
fn unknown_extension_has_no_tag() {
    assert_eq!(detect_language_from_path("file.unknownext"), None);
}

#[test]
fn uppercase_extension_is_lowercased() {
    assert_eq!(detect_language_from_path("deploy/A.YML"), Some("yaml"));
}

#[test]
fn hidden_and_extensionless_files_have_no_tag() {
    assert_eq!(detect_language_from_path(".gitignore"), None);
    assert_eq!(detect_language_from_path("Makefile"), None);
    assert_eq!(detect_language_from_path("dir.rs/plain"), None);
}

#[test]
fn comment_prefix_by_family() {
    assert_eq!(get_comment_prefix("x.rs"), Some("//"));
    assert_eq!(get_comment_prefix("x.py"), Some("#"));
    assert_eq!(get_comment_prefix("x.sql"), Some("--"));
    assert_eq!(get_comment_prefix("x.unknownext"), None);
}

#[test]
fn newline_normalization_is_idempotent() {
    let a = render("f.txt", "a\nb", &plain());
    let b = render("f.txt", "a\nb\n", &plain());
    assert_eq!(a, b);
}

#[test]
fn line_number_round_trip() {
    let opts = RenderOptions { line_number: true, ignore_empty_lines: false, ignore_comments: false };
    let out = render("f.txt", "x\n\ny\n", &opts);
    assert_eq!(out, "## f.txt\n\n```\n1\tx\n2\t\n3\ty\n```\n\n");
}

#[test]
fn empty_line_suppression() {
    let opts = RenderOptions { line_number: false, ignore_empty_lines: true, ignore_comments: false };
    let out = render("f.txt", "x\n\ny\n", &opts);
    assert_eq!(out, "## f.txt\n\n```\nx\ny\n```\n\n");
}

#[test]
fn empty_line_suppression_keeps_original_numbers() {
    let opts = RenderOptions { line_number: true, ignore_empty_lines: true, ignore_comments: false };
    let out = render("f.txt", "x\n\ny\n", &opts);
    assert_eq!(out, "## f.txt\n\n```\n1\tx\n3\ty\n```\n\n");
}

#[test]
fn unknown_extension_fence_is_bare() {
    let out = render("file.unknownext", "z", &plain());
    assert_eq!(out, "## file.unknownext\n\n```\nz\n```\n\n");
}

#[test]
fn rust_fence_is_tagged() {
    let out = render("a.rs", "fn main(){}", &plain());
    assert_eq!(out, "## a.rs\n\n```rust\nfn main(){}\n```\n\n");
}

#[test]
fn comment_lines_are_stripped() {
    let opts = RenderOptions { line_number: false, ignore_empty_lines: false, ignore_comments: true };
    let out = render("m.rs", "// top\nfn main(){}\n  // indented\n", &opts);
    assert_eq!(out, "## m.rs\n\n```rust\nfn main(){}\n```\n\n");
}

#[test]
fn comment_stripping_needs_a_known_prefix() {
    let opts = RenderOptions { line_number: false, ignore_empty_lines: false, ignore_comments: true };
    let out = render("notes.unknownext", "// kept\n", &opts);
    assert_eq!(out, "## notes.unknownext\n\n```\n// kept\n```\n\n");
}

#[test]
fn crlf_line_endings_are_normalized() {
    let out = render("f.txt", "a\r\nb", &plain());
    assert_eq!(out, "## f.txt\n\n```\na\nb\n```\n\n");
}

#[test]
fn lone_trailing_carriage_return_is_kept() {
    let out = render("f.txt", "a\r", &plain());
    assert_eq!(out, "## f.txt\n\n```\na\r\n```\n\n");
}

#[test]
fn empty_content_yields_empty_body() {
    let out = render("empty.txt", "", &plain());
    assert_eq!(out, "## empty.txt\n\n```\n```\n\n");
}

#[test]
fn large_line_numbers_format_in_decimal() {
    let opts = RenderOptions { line_number: true, ignore_empty_lines: false, ignore_comments: false };
    let mut content = String::new();
    for _ in 0..12 {
        content.push_str("l\n");
    }
    let out = render("f.txt", &content, &opts);
    assert!(out.contains("9\tl\n10\tl\n11\tl\n12\tl\n"));
}
