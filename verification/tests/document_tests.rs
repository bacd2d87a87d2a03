use markdown_ingest::document::{BuildError, Markdown};

const DOC: &str = "---\ntitle: T\nauthor: A\ntags: [x]\n---\n# Hi\n";

#[test]
fn build_produces_a_document_when_every_gate_passes() {
    let md = Markdown::build("p.md".to_string(), true, true, Some(42), DOC).expect("builds");
    assert_eq!(md.path(), "p.md");
    assert_eq!(md.modified_at_unix(), Some(42));
    assert_eq!(md.metadata().title, "T");
    assert_eq!(md.metadata().author, "A");
    assert_eq!(md.metadata().tags, vec!["x".to_string()]);
    assert_eq!(md.metadata().date, None);
    assert_eq!(md.content(), "<h1>Hi</h1>\n");
}

#[test]
fn content_excludes_the_front_matter_block() {
    let md = Markdown::build("p.md".to_string(), true, true, None, DOC).expect("builds");
    assert!(!md.content().contains("---"));
    assert!(!md.content().contains("author"));
}

#[test]
fn missing_path_fails_first() {
    let e = Markdown::build("p.md".to_string(), false, false, None, DOC).unwrap_err();
    assert!(matches!(e, BuildError::PathNotFound));
}

#[test]
fn non_file_fails_before_classification() {
    let e = Markdown::build("p.md".to_string(), true, false, None, DOC).unwrap_err();
    assert!(matches!(e, BuildError::NotAFile));
}

#[test]
fn non_markdown_path_is_never_parsed() {
    let e1 = Markdown::build("p.txt".to_string(), true, true, None, DOC).unwrap_err();
    let e2 = Markdown::build("p.txt".to_string(), true, true, None, "anything at all").unwrap_err();
    assert!(matches!(e1, BuildError::NotMarkdown));
    assert!(matches!(e2, BuildError::NotMarkdown));
}

#[test]
fn text_without_front_matter_fails() {
    let e = Markdown::build("p.md".to_string(), true, true, None, "# just a body\n").unwrap_err();
    assert!(matches!(e, BuildError::MissingFrontMatter));
}

#[test]
fn bad_front_matter_carries_cause_and_block() {
    let e = Markdown::build(
        "p.md".to_string(),
        true,
        true,
        None,
        "---\nauthor: A\ntags: [x]\n---\nbody\n",
    )
    .unwrap_err();
    match e {
        BuildError::InvalidFrontMatter(cause, raw) => {
            assert_eq!(cause.message(), "missing title");
            assert_eq!(raw, "author: A\ntags: [x]\n");
        },
        other => panic!("unexpected error {other:?}"),
    }
}

#[test]
fn error_messages_name_path_and_cause() {
    let e = Markdown::build("p.txt".to_string(), true, true, None, DOC).unwrap_err();
    assert_eq!(e.message("p.txt"), "not a markdown file: p.txt");
    let e2 = Markdown::build("p.md".to_string(), true, true, None, "x\n").unwrap_err();
    assert_eq!(e2.message("p.md"), "missing front matter in: p.md");
    assert_eq!(BuildError::ReadError.message("p.md"), "failed to read: p.md");
}

#[test]
fn markdown_rendering_goes_through_the_real_renderer() {
    let text = "---\ntitle: T\nauthor: A\ntags: []\n---\n*em* and [link](https://x.example)\n";
    let md = Markdown::build("p.md".to_string(), true, true, None, text).expect("builds");
    assert!(md.content().contains("<em>em</em>"));
    assert!(md.content().contains("<a href=\"https://x.example\">link</a>"));
}

#[test]
fn body_starting_with_a_dash_rule_renders_as_a_rule() {
    let text = "---\ntitle: T\nauthor: A\ntags: []\n---\n---\nafter\n";
    let md = Markdown::build("p.md".to_string(), true, true, None, text).expect("builds");
    assert!(md.content().contains("<hr />"));
    assert!(md.content().contains("<p>after</p>"));
}
