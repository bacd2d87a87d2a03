//! One whole batch over a small input set, end to end: a good
//! markdown file, an irrelevant text file, and a markdown file
//! without front matter.

use markdown_ingest::batch::{commit, prepare};
use markdown_ingest::document::BuildError;
use markdown_ingest::index::Index;
use markdown_ingest::paths::is_markdown;

/// Prepares one source and, as if its write had succeeded, commits it.
fn ingest_one(
    index: &mut Index,
    path: &str,
    text: &str,
) -> Result<(String, String), BuildError> {
    let doc = prepare(path, true, true, None, text, "dist", "")?;
    let written = (doc.out_path().clone(), doc.json().clone());
    commit(index, doc);
    Ok(written)
}

#[test]
fn batch_over_mixed_inputs_produces_the_expected_index() {
    let sources: &[(&str, &str)] = &[
        ("a.md", "---\ntitle: A\nauthor: X\ntags: [foo]\n---\nhello\n"),
        ("b.txt", "not markdown at all"),
        ("bad.md", "no front matter here\n"),
    ];
    let mut index = Index::new();
    let mut written: Vec<(String, String)> = Vec::new();
    let mut errors: Vec<String> = Vec::new();
    for (path, text) in sources {
        if !is_markdown(path) {
            continue;  // b.txt is ignored without a word
        }
        match ingest_one(&mut index, path, text) {
            Ok(pair) => written.push(pair),
            Err(e) => errors.push(e.message(path)),
        }
    }
    let index_json = index.index_json();

    // dist/a.json written, with the rendered body inside
    assert_eq!(written.len(), 1);
    assert_eq!(written[0].0, "dist/a.json");
    assert!(written[0].1.contains("<p>hello</p>"));

    // bad.md is reported and skipped; the run still succeeds
    assert_eq!(errors.len(), 1);
    assert_eq!(errors[0], "missing front matter in: bad.md");

    // the index covers a.md alone
    assert_eq!(
        index_json,
        "{\"paragraph_under_certain_topic\":{\"foo\":[\"A\"]},\"table_of_content\":[{\"title\":\"A\",\"path\":\"a.json\"}]}"
    );
}

#[test]
fn a_failing_document_does_not_abort_later_ones() {
    let mut index = Index::new();
    let e = prepare("bad.md", true, true, None, "nothing\n", "dist", "").unwrap_err();
    assert!(matches!(e, BuildError::MissingFrontMatter));
    ingest_one(
        &mut index,
        "good.md",
        "---\ntitle: G\nauthor: X\ntags: [t]\n---\nok\n",
    )
    .expect("later document still ingests");
    assert_eq!(index.table_of_content().len(), 1);
    assert_eq!(index.table_of_content()[0].title(), "G");
}
