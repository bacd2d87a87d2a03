//! One batch step, in two halves that keep accumulation all-or-
//! nothing.  `prepare` builds a document, computes where its
//! serialized form goes and what bytes are written, and touches
//! nothing else; only after the caller has written those bytes
//! successfully does `commit` record the document in the index.  A
//! source that fails a gate, or whose output cannot be written, thus
//! leaves the index exactly as it was, and the batch goes on: a
//! table-of-contents entry whose file was never written can not be
//! observed.

use vstd::prelude::*;

use crate::document::{
    spec_build, BuildError, BuildErrorView, Markdown, MarkdownView,
};
use crate::index::{add_tags, index_json_of, index_wf, Index, IndexView, TocItemView};
use crate::json::{document_json, document_json_of};
use crate::paths::{
    output_path_for, relative_json_path, spec_output_path, spec_rel_path,
};

verus! {

/// One source to ingest, as the filesystem reported it, together
/// with whether the write of its output succeeded.
pub ghost struct SourceView {
    pub path: Seq<char>,
    pub exists: bool,
    pub is_file: bool,
    pub modified: Option<u64>,
    pub text: Seq<char>,
    pub write_ok: bool,
}

/// The index after recording one built document under its relative
/// output path.
pub open spec fn record_doc(iv: IndexView, md: MarkdownView, rel: Seq<char>) -> IndexView {
    IndexView {
        topics: add_tags(iv.topics, md.metadata.tags, md.metadata.title),
        toc: iv.toc.push(TocItemView { title: md.metadata.title, path: rel }),
        docs: iv.docs.push(md),
    }
}

/// The path, relative to the output directory, under which a source's
/// serialized form is referred to.
pub open spec fn rel_of(src: SourceView, dist: Seq<char>, cwd: Seq<char>) -> Seq<char> {
    spec_rel_path(spec_output_path(src.path, cwd, dist), dist)
}

/// What building one source yields.
pub open spec fn build_of(src: SourceView) -> Result<MarkdownView, BuildErrorView> {
    spec_build(src.path, src.exists, src.is_file, src.modified, src.text)
}

/// Whether one source ends up recorded: it passes every gate and its
/// own output file was written.
pub open spec fn src_recorded(src: SourceView) -> bool {
    build_of(src) is Ok && src.write_ok
}

/// The index after ingesting the sources in order: each source that
/// builds and whose output write succeeded is recorded; any other
/// changes nothing.
pub open spec fn spec_batch_index(
    inputs: Seq<SourceView>,
    iv: IndexView,
    dist: Seq<char>,
    cwd: Seq<char>,
) -> IndexView
    decreases inputs.len(),
{
    if inputs.len() == 0 {
        iv
    } else {
        let src = inputs[0];
        let next = if src_recorded(src) {
            record_doc(iv, build_of(src)->Ok_0, rel_of(src, dist, cwd))
        } else {
            iv
        };
        spec_batch_index(inputs.drop_first(), next, dist, cwd)
    }
}

/// How many of the sources are recorded: they pass every gate and
/// their output write succeeds.
pub open spec fn success_count(inputs: Seq<SourceView>) -> nat
    decreases inputs.len(),
{
    if inputs.len() == 0 {
        0
    } else {
        (if src_recorded(inputs[0]) {
            1nat
        } else {
            0nat
        }) + success_count(inputs.drop_first())
    }
}

/// A document built and serialized, but not yet recorded anywhere:
/// what to write, where, and what to hand to `commit` once the write
/// has succeeded.
#[derive(Debug)]
pub struct PreparedDoc {
    markdown: Markdown,
    out_path: String,
    rel_path: String,
    json: String,
}

/// Mathematical model of a `PreparedDoc`.
pub ghost struct PreparedDocView {
    pub markdown: MarkdownView,
    pub out_path: Seq<char>,
    pub rel_path: Seq<char>,
    pub json: Seq<char>,
}

impl View for PreparedDoc {
    type V = PreparedDocView;

    closed spec fn view(&self) -> PreparedDocView {
        PreparedDocView {
            markdown: self.markdown@,
            out_path: self.out_path@,
            rel_path: self.rel_path@,
            json: self.json@,
        }
    }
}

impl PreparedDoc {
    /// Where the document's serialized form is to be written.
    pub fn out_path(&self) -> (r: &String)
        ensures
            r@ == self@.out_path,
    {
        &self.out_path
    }

    /// The JSON bytes to write there.
    pub fn json(&self) -> (r: &String)
        ensures
            r@ == self@.json,
    {
        &self.json
    }

    /// The built document itself.
    pub fn markdown(&self) -> (r: &Markdown)
        ensures
            r@ == self@.markdown,
    {
        &self.markdown
    }

    /// The output path relative to the output directory, as the table
    /// of contents will refer to it.
    pub fn rel_path(&self) -> (r: &String)
        ensures
            r@ == self@.rel_path,
    {
        &self.rel_path
    }
}

/// Builds one source into a document ready to write: the document,
/// its output path, that path relative to the output directory, and
/// its JSON text.  Nothing is recorded anywhere; the error, when one
/// comes, says which gate refused the source.
pub fn prepare(
    path: &str,
    exists: bool,
    is_file: bool,
    modified_at_unix: Option<u64>,
    text: &str,
    dist: &str,
    cwd: &str,
) -> (r: Result<PreparedDoc, BuildError>)
    ensures
        match r {
            Ok(doc) => {
                &&& spec_build(path@, exists, is_file, modified_at_unix, text@) is Ok
                &&& doc@.markdown == spec_build(
                    path@,
                    exists,
                    is_file,
                    modified_at_unix,
                    text@,
                )->Ok_0
                &&& doc@.out_path == spec_output_path(path@, cwd@, dist@)
                &&& doc@.rel_path == spec_rel_path(doc@.out_path, dist@)
                &&& doc@.json == document_json_of(doc@.markdown)
            },
            Err(e) => spec_build(path@, exists, is_file, modified_at_unix, text@) == Err::<
                MarkdownView,
                BuildErrorView,
            >(e@),
        },
{
    let markdown = match Markdown::build(path.to_owned(), exists, is_file, modified_at_unix, text) {
        Err(e) => {
            return Err(e);
        },
        Ok(md) => md,
    };
    let out_path = output_path_for(path, cwd, dist);
    let rel_path = relative_json_path(out_path.as_str(), dist);
    let json = document_json(&markdown);
    Ok(PreparedDoc { markdown, out_path, rel_path, json })
}

/// Records a prepared document in the index.  The caller calls this
/// only once the document's own output file has been written, so the
/// index never refers to a file that is not there: for each source,
/// either the write, the table-of-contents entry and the per-tag
/// titles all happen, or none of them does.
pub fn commit(index: &mut Index, doc: PreparedDoc)
    ensures
        final(index)@ == record_doc(old(index)@, doc@.markdown, doc@.rel_path),
        index_wf(old(index)@) ==> index_wf(final(index)@),
{
    proof {
        if index_wf(old(index)@) {
            crate::index::lemma_add_document_preserves_wf(old(index)@, doc@.markdown, doc@.rel_path);
        }
    }
    let PreparedDoc { markdown, out_path: _, rel_path, json: _ } = doc;
    index.add_document(markdown, rel_path);
}

/// The table of contents, and the record of documents, grow by
/// exactly one entry per recorded source — it passed every gate and
/// its output was written — however many tags each document carries.
pub proof fn lemma_toc_counts_successes(
    inputs: Seq<SourceView>,
    iv: IndexView,
    dist: Seq<char>,
    cwd: Seq<char>,
)
    ensures
        spec_batch_index(inputs, iv, dist, cwd).toc.len() == iv.toc.len() + success_count(inputs),
        spec_batch_index(inputs, iv, dist, cwd).docs.len() == iv.docs.len() + success_count(
            inputs,
        ),
    decreases inputs.len(),
{
    if inputs.len() > 0 {
        let src = inputs[0];
        if src_recorded(src) {
            lemma_toc_counts_successes(
                inputs.drop_first(),
                record_doc(iv, build_of(src)->Ok_0, rel_of(src, dist, cwd)),
                dist,
                cwd,
            );
        } else {
            lemma_toc_counts_successes(inputs.drop_first(), iv, dist, cwd);
        }
    }
}

/// Ingesting any run of sources keeps the index invariant: the table
/// of contents stays in step with the recorded documents, and every
/// indexed title belongs to some table-of-contents entry.
pub proof fn lemma_batch_preserves_wf(
    inputs: Seq<SourceView>,
    iv: IndexView,
    dist: Seq<char>,
    cwd: Seq<char>,
)
    requires
        index_wf(iv),
    ensures
        index_wf(spec_batch_index(inputs, iv, dist, cwd)),
    decreases inputs.len(),
{
    if inputs.len() > 0 {
        let src = inputs[0];
        if src_recorded(src) {
            let md = build_of(src)->Ok_0;
            crate::index::lemma_add_document_preserves_wf(iv, md, rel_of(src, dist, cwd));
            lemma_batch_preserves_wf(
                inputs.drop_first(),
                record_doc(iv, md, rel_of(src, dist, cwd)),
                dist,
                cwd,
            );
        } else {
            lemma_batch_preserves_wf(inputs.drop_first(), iv, dist, cwd);
        }
    }
}

/// Two runs over sources that agree on paths, gates, text and write
/// outcomes — their modification times may differ — build the same
/// topic index and the same table of contents, and so byte-identical
/// index JSON: the batch output is a function of the inputs,
/// modification times aside.
pub proof fn lemma_batch_idempotent(
    inputs1: Seq<SourceView>,
    inputs2: Seq<SourceView>,
    iv1: IndexView,
    iv2: IndexView,
    dist: Seq<char>,
    cwd: Seq<char>,
)
    requires
        inputs1.len() == inputs2.len(),
        forall|i: int|
            0 <= i < inputs1.len() ==> {
                &&& (#[trigger] inputs1[i]).path == (#[trigger] inputs2[i]).path
                &&& inputs1[i].exists == inputs2[i].exists
                &&& inputs1[i].is_file == inputs2[i].is_file
                &&& inputs1[i].text == inputs2[i].text
                &&& inputs1[i].write_ok == inputs2[i].write_ok
            },
        iv1.topics == iv2.topics,
        iv1.toc == iv2.toc,
    ensures
        spec_batch_index(inputs1, iv1, dist, cwd).topics == spec_batch_index(
            inputs2,
            iv2,
            dist,
            cwd,
        ).topics,
        spec_batch_index(inputs1, iv1, dist, cwd).toc == spec_batch_index(
            inputs2,
            iv2,
            dist,
            cwd,
        ).toc,
        index_json_of(spec_batch_index(inputs1, iv1, dist, cwd)) == index_json_of(
            spec_batch_index(inputs2, iv2, dist, cwd),
        ),
    decreases inputs1.len(),
{
    if inputs1.len() > 0 {
        let s1 = inputs1[0];
        let s2 = inputs2[0];
        assert(build_of(s1) is Ok <==> build_of(s2) is Ok);
        if build_of(s1) is Ok {
            assert((build_of(s1)->Ok_0).metadata == (build_of(s2)->Ok_0).metadata);
        }
        let n1 = if src_recorded(s1) {
            record_doc(iv1, build_of(s1)->Ok_0, rel_of(s1, dist, cwd))
        } else {
            iv1
        };
        let n2 = if src_recorded(s2) {
            record_doc(iv2, build_of(s2)->Ok_0, rel_of(s2, dist, cwd))
        } else {
            iv2
        };
        assert(n1.topics == n2.topics && n1.toc == n2.toc);
        assert forall|i: int| 0 <= i < inputs1.drop_first().len() implies {
            &&& (#[trigger] inputs1.drop_first()[i]).path == (#[trigger] inputs2.drop_first()[i]).path
            &&& inputs1.drop_first()[i].exists == inputs2.drop_first()[i].exists
            &&& inputs1.drop_first()[i].is_file == inputs2.drop_first()[i].is_file
            &&& inputs1.drop_first()[i].text == inputs2.drop_first()[i].text
            &&& inputs1.drop_first()[i].write_ok == inputs2.drop_first()[i].write_ok
        } by {
            assert(inputs1[i + 1] == inputs1.drop_first()[i]);
            assert(inputs2[i + 1] == inputs2.drop_first()[i]);
        }
        lemma_batch_idempotent(inputs1.drop_first(), inputs2.drop_first(), n1, n2, dist, cwd);
    }
}

} // verus!
