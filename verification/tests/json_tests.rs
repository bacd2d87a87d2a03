use markdown_ingest::document::Markdown;
use markdown_ingest::json::document_json;

fn build(path: &str, modified: Option<u64>, text: &str) -> Markdown {
    Markdown::build(path.to_string(), true, true, modified, text).expect("builds")
}

#[test]
fn document_json_exact_bytes() {
    let md = build("p.md", Some(42), "---\ntitle: T\nauthor: A\ntags: [x]\n---\nhi\n");
    assert_eq!(
        document_json(&md),
        "{\"path\":\"p.md\",\"modified_at_unix\":42,\"metadata\":{\"title\":\"T\",\"author\":\"A\",\"tags\":[\"x\"]},\"content\":\"<p>hi</p>\\n\"}"
    );
}

#[test]
fn document_json_omits_absent_members() {
    let md = build("p.md", None, "---\ntitle: T\nauthor: A\ntags: []\n---\n");
    let json = document_json(&md);
    assert!(!json.contains("modified_at_unix"));
    assert!(!json.contains("\"date\""));
}

#[test]
fn document_json_includes_date_when_present() {
    let md = build(
        "p.md",
        None,
        "---\ntitle: T\nauthor: A\ntags: []\ndate: 2024-02-29\n---\n",
    );
    assert!(document_json(&md).contains("\"date\":\"2024-02-29\""));
}

#[test]
fn document_json_handles_large_timestamps() {
    let md = build(
        "p.md",
        Some(u64::MAX),
        "---\ntitle: T\nauthor: A\ntags: []\n---\n",
    );
    assert!(document_json(&md).contains("\"modified_at_unix\":18446744073709551615"));
}

#[test]
fn document_json_is_valid_json_with_escaping() {
    let md = build(
        "dir/we ird.md",
        Some(7),
        "---\ntitle: \"Quote \\\" and tab\tend\"\nauthor: A\ntags: [one, two]\n---\nsay \"hi\"\n",
    );
    let json = document_json(&md);
    let v: serde_json::Value = serde_json::from_str(&json).expect("output parses as JSON");
    assert_eq!(v["path"], "dir/we ird.md");
    assert_eq!(v["modified_at_unix"], 7);
    assert_eq!(v["metadata"]["title"], "Quote \" and tab\tend");
    assert_eq!(v["metadata"]["tags"][1], "two");
    assert_eq!(v["content"], "<p>say &quot;hi&quot;</p>\n");
}

#[test]
fn control_characters_are_u_escaped() {
    let md = build(
        "p.md",
        None,
        "---\ntitle: a\u{1}b\u{1f}c\nauthor: A\ntags: []\n---\n",
    );
    let json = document_json(&md);
    assert!(json.contains("\\u0001"));
    assert!(json.contains("\\u001f"));
    let v: serde_json::Value = serde_json::from_str(&json).expect("parses");
    assert_eq!(v["metadata"]["title"], "a\u{1}b\u{1f}c");
}

#[test]
fn document_json_is_deterministic() {
    let text = "---\ntitle: T\nauthor: A\ntags: [a, b]\n---\nbody\n";
    let a = document_json(&build("p.md", Some(9), text));
    let b = document_json(&build("p.md", Some(9), text));
    assert_eq!(a, b);
}
