use markdown_ingest::batch::{commit, prepare};
use markdown_ingest::document::{BuildError, Markdown};
use markdown_ingest::index::Index;

fn doc(title: &str, tags: &str) -> String {
    format!("---\ntitle: {title}\nauthor: X\ntags: {tags}\n---\nbody\n")
}

fn ingest_doc(index: &mut Index, path: &str, title: &str, tags: &str) -> (String, String) {
    let prepared =
        prepare(path, true, true, None, &doc(title, tags), "dist", "").expect("prepares");
    let written = (prepared.out_path().clone(), prepared.json().clone());
    commit(index, prepared);
    written
}

#[test]
fn title_appears_under_every_tag() {
    let mut index = Index::new();
    ingest_doc(&mut index, "t.md", "T", "[a, b]");
    let topics = index.topics();
    assert_eq!(topics.len(), 2);
    assert_eq!(topics[0].tag(), "a");
    assert_eq!(topics[0].titles(), &vec!["T".to_string()]);
    assert_eq!(topics[1].tag(), "b");
    assert_eq!(topics[1].titles(), &vec!["T".to_string()]);
}

#[test]
fn duplicate_tags_append_the_title_each_time() {
    let mut index = Index::new();
    ingest_doc(&mut index, "t.md", "T", "[a, a]");
    let topics = index.topics();
    assert_eq!(topics.len(), 1);
    assert_eq!(topics[0].titles(), &vec!["T".to_string(), "T".to_string()]);
}

#[test]
fn topics_keep_first_seen_order_and_grow_in_processing_order() {
    let mut index = Index::new();
    ingest_doc(&mut index, "one.md", "One", "[rust, verus]");
    ingest_doc(&mut index, "two.md", "Two", "[verus, proofs]");
    let topics = index.topics();
    assert_eq!(topics.len(), 3);
    assert_eq!(topics[0].tag(), "rust");
    assert_eq!(topics[1].tag(), "verus");
    assert_eq!(topics[2].tag(), "proofs");
    assert_eq!(topics[1].titles(), &vec!["One".to_string(), "Two".to_string()]);
}

#[test]
fn toc_gets_one_entry_per_document_regardless_of_tag_count() {
    let mut index = Index::new();
    ingest_doc(&mut index, "a.md", "A", "[x, y, z]");
    ingest_doc(&mut index, "b.md", "B", "[]");
    ingest_doc(&mut index, "c.md", "C", "[x]");
    assert_eq!(index.table_of_content().len(), 3);
    assert_eq!(index.markdowns().len(), 3);
    assert_eq!(index.table_of_content()[0].title(), "A");
    assert_eq!(index.table_of_content()[0].path(), "a.json");
    assert_eq!(index.table_of_content()[2].path(), "c.json");
}

#[test]
fn failed_sources_never_reach_the_index() {
    let mut index = Index::new();
    ingest_doc(&mut index, "a.md", "A", "[x]");
    let before = index.index_json();
    let e = prepare("bad.md", true, true, None, "no front matter", "dist", "").unwrap_err();
    assert!(matches!(e, BuildError::MissingFrontMatter));
    let e2 = prepare("gone.md", false, false, None, "", "dist", "").unwrap_err();
    assert!(matches!(e2, BuildError::PathNotFound));
    assert_eq!(index.index_json(), before);
    assert_eq!(index.table_of_content().len(), 1);
}

#[test]
fn unwritten_documents_never_reach_the_index() {
    // accumulation is all-or-nothing: a document whose output write
    // fails is simply never committed, and the index shows no trace
    // of it
    let mut index = Index::new();
    ingest_doc(&mut index, "a.md", "A", "[x]");
    let before = index.index_json();
    let prepared =
        prepare("b.md", true, true, None, &doc("B", "[x]"), "dist", "").expect("prepares");
    // the write of prepared.json() to prepared.out_path() fails here;
    // the document is dropped instead of committed
    drop(prepared);
    assert_eq!(index.index_json(), before);
    assert_eq!(index.table_of_content().len(), 1);
    assert_eq!(index.topics()[0].titles(), &vec!["A".to_string()]);
}

#[test]
fn index_json_exact_bytes() {
    let mut index = Index::new();
    ingest_doc(&mut index, "a.md", "A", "[foo, bar]");
    ingest_doc(&mut index, "b.md", "B", "[foo]");
    assert_eq!(
        index.index_json(),
        "{\"paragraph_under_certain_topic\":{\"foo\":[\"A\",\"B\"],\"bar\":[\"A\"]},\"table_of_content\":[{\"title\":\"A\",\"path\":\"a.json\"},{\"title\":\"B\",\"path\":\"b.json\"}]}"
    );
}

#[test]
fn empty_index_serializes_to_empty_aggregates() {
    let index = Index::new();
    assert_eq!(
        index.index_json(),
        "{\"paragraph_under_certain_topic\":{},\"table_of_content\":[]}"
    );
}

#[test]
fn index_json_parses_and_skips_documents() {
    let mut index = Index::new();
    ingest_doc(&mut index, "a.md", "A", "[foo]");
    let v: serde_json::Value = serde_json::from_str(&index.index_json()).expect("parses");
    assert_eq!(v["paragraph_under_certain_topic"]["foo"][0], "A");
    assert_eq!(v["table_of_content"][0]["path"], "a.json");
    assert!(v.get("markdowns").is_none());
}

#[test]
fn two_runs_over_the_same_inputs_give_identical_bytes() {
    let run = |mtime: Option<u64>| {
        let mut index = Index::new();
        let da = prepare("a.md", true, true, mtime, &doc("A", "[foo]"), "dist", "")
            .expect("prepares");
        let ja = da.json().clone();
        commit(&mut index, da);
        let db = prepare("b.md", true, true, mtime, &doc("B", "[foo, bar]"), "dist", "")
            .expect("prepares");
        let jb = db.json().clone();
        commit(&mut index, db);
        (ja, jb, index.index_json())
    };
    let first = run(Some(100));
    let second = run(Some(100));
    assert_eq!(first, second);
    // the index does not depend on modification times at all
    let third = run(Some(999));
    assert_eq!(first.2, third.2);
}

#[test]
fn add_document_records_title_path_and_document() {
    let mut index = Index::new();
    let md = Markdown::build(
        "x.md".to_string(),
        true,
        true,
        None,
        &doc("X", "[alpha]"),
    )
    .expect("builds");
    index.add_document(md, "x.json".to_string());
    assert_eq!(index.table_of_content().len(), 1);
    assert_eq!(index.table_of_content()[0].title(), "X");
    assert_eq!(index.table_of_content()[0].path(), "x.json");
    assert_eq!(index.markdowns()[0].metadata().title, "X");
    assert_eq!(index.topics()[0].tag(), "alpha");
}
