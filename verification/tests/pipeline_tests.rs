use code_prompt::args::Args;
use code_prompt::walker::{normalize_path, select_files};
use code_prompt::Summary;

#[test]
fn normalize_converts_separators_and_strips_prefix() {
    let args = Args::default();
    assert_eq!(args.path_to_normalized_string(".\\src\\main.rs"), "src/main.rs");
    assert_eq!(args.path_to_normalized_string("./a.rs"), "a.rs");
    assert_eq!(args.path_to_normalized_string("src/x.rs"), "src/x.rs");
}

#[test]
fn normalize_with_empty_prefix_only_replaces_separators() {
    assert_eq!(normalize_path("a\\b\\c.py", ""), "a/b/c.py");
    assert_eq!(normalize_path("plain/path.rs", ""), "plain/path.rs");
}

#[test]
fn selection_filters_and_normalizes_candidates() {
    let mut args = Args::default();
    args.exclude = Some("*.png".to_string());
    let ps = args.build_overrides().expect("patterns should compile");
    let candidates = vec!["./a.rs".to_string(), "./b.png".to_string()];
    let picked = select_files(&ps, &candidates, "./", None);
    assert_eq!(picked, vec!["a.rs"]);
}

#[test]
fn selection_keeps_walk_order() {
    let args = Args::default();
    let ps = args.build_overrides().expect("patterns should compile");
    let candidates = vec![
        "./z.rs".to_string(),
        "./a.rs".to_string(),
        "./m.py".to_string(),
    ];
    let picked = select_files(&ps, &candidates, "./", None);
    assert_eq!(picked, vec!["z.rs", "a.rs", "m.py"]);
}

#[test]
fn default_arguments_match_the_command_line_defaults() {
    let args = Args::default();
    assert_eq!(args.output, "code_prompt.md");
    assert_eq!(args.dir, ".");
    assert!(args.exclude.is_none());
    assert!(args.includes.is_none());
    assert!(!args.line_number);
    assert!(args.standard_filter);
    assert!(!args.show_matched);
    assert!(!args.ignore_comments);
    assert!(!args.ignore_empty_lines);
    assert!(!args.skip_confirm);
    assert_eq!(args.relative_prefix, "./");
}

#[test]
fn end_to_end_one_block_rendered_one_counted() {
    let mut args = Args::default();
    args.exclude = Some("*.png".to_string());
    let ps = args.build_overrides().expect("patterns should compile");

    let candidates = vec!["./a.rs".to_string(), "./b.png".to_string()];
    let picked = select_files(&ps, &candidates, "./", None);
    assert_eq!(picked, vec!["a.rs"]);

    let mut output = String::new();
    let mut summary = Summary::new();
    for path in &picked {
        let block = args.write_buffer(path, "fn main(){}");
        summary.record_rendered(block.len() as u64);
        output.push_str(&block);
    }

    assert_eq!(summary.rendered, 1);
    assert_eq!(summary.skipped, 0);
    assert_eq!(output, "## a.rs\n\n```rust\nfn main(){}\n```\n\n");
    assert_eq!(output.matches("```rust").count(), 1);
    assert_eq!(summary.bytes, output.len() as u64);
}

#[test]
fn skipped_files_are_counted_not_dropped_silently() {
    let mut summary = Summary::new();
    summary.record_rendered(10);
    summary.record_skipped();
    summary.record_skipped();
    assert_eq!(summary.rendered, 1);
    assert_eq!(summary.skipped, 2);
    assert_eq!(summary.bytes, 10);
}

#[test]
fn write_buffer_honors_the_argument_flags() {
    let mut args = Args::default();
    args.line_number = true;
    args.ignore_empty_lines = true;
    let out = args.write_buffer("f.txt", "x\n\ny\n");
    assert_eq!(out, "## f.txt\n\n```\n1\tx\n3\ty\n```\n\n");
}
