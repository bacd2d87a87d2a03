use markdown_ingest::paths::{is_markdown, output_path_for, relative_json_path};

#[test]
fn md_extension_is_recognized() {
    assert!(is_markdown("a.md"));
    assert!(is_markdown("b.MD"));
    assert!(is_markdown("c.Md"));
    assert!(is_markdown("notes/deep/dir/d.markdown"));
    assert!(is_markdown("e.MARKDOWN"));
    assert!(is_markdown("f.MarkDown"));
}

#[test]
fn other_extensions_are_rejected() {
    assert!(!is_markdown("a.txt"));
    assert!(!is_markdown("a"));
    assert!(!is_markdown("a.mdx"));
    assert!(!is_markdown("a.markdow"));
    assert!(!is_markdown("md"));
    assert!(!is_markdown("markdown"));
    assert!(!is_markdown(""));
}

#[test]
fn hidden_files_have_no_extension_from_their_leading_dot() {
    assert!(!is_markdown(".md"));
    assert!(!is_markdown("dir/.md"));
    assert!(is_markdown(".hidden.md"));
}

#[test]
fn relative_json_path_strips_the_base() {
    assert_eq!(relative_json_path("dist/a.json", "dist"), "a.json");
    assert_eq!(relative_json_path("dist/sub/a.json", "dist"), "sub/a.json");
    assert_eq!(relative_json_path("dist/a.json", "dist/"), "a.json");
    assert_eq!(relative_json_path("dist", "dist"), "");
}

#[test]
fn relative_json_path_leaves_other_paths_alone() {
    assert_eq!(relative_json_path("elsewhere/a.json", "dist"), "elsewhere/a.json");
    assert_eq!(relative_json_path("distant/a.json", "dist"), "distant/a.json");
    assert_eq!(relative_json_path("a.json", ""), "a.json");
}

#[test]
fn output_path_joins_and_replaces_extension() {
    assert_eq!(output_path_for("posts/a.md", "", "dist"), "dist/posts/a.json");
    assert_eq!(output_path_for("a.md", "", "dist"), "dist/a.json");
    assert_eq!(output_path_for("/cwd/c.md", "/cwd", "dist"), "dist/c.json");
    assert_eq!(output_path_for("b.markdown", "", "dist"), "dist/b.json");
}

#[test]
fn output_path_appends_json_when_no_extension() {
    assert_eq!(output_path_for("plain", "", "dist"), "dist/plain.json");
}

#[test]
fn absolute_path_outside_cwd_replaces_the_output_root() {
    assert_eq!(output_path_for("/abs/b.md", "/cwd", "dist"), "/abs/b.json");
}
