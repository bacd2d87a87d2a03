//! The aggregate over one batch run: a topic index mapping each tag
//! to the titles carrying it, in insertion order, and an ordered
//! table of contents with one entry per processed document.

use vstd::prelude::*;

use crate::document::{Markdown, MarkdownView};
use crate::json::{join_tags, json_string, push_json_string, push_string_array_body};
use crate::text::push_char;

verus! {

/// One table-of-contents entry: a document's title and the path of
/// its serialized form, relative to the output directory.
#[derive(Debug)]
pub struct TableOfContentItem {
    title: String,
    path: String,
}

/// Mathematical model of a `TableOfContentItem`.
pub ghost struct TocItemView {
    pub title: Seq<char>,
    pub path: Seq<char>,
}

impl View for TableOfContentItem {
    type V = TocItemView;

    closed spec fn view(&self) -> TocItemView {
        TocItemView { title: self.title@, path: self.path@ }
    }
}

impl TableOfContentItem {
    /// Builds an entry from a title and a relative output path.
    pub fn new(title: String, path: String) -> (r: TableOfContentItem)
        ensures
            r@.title == title@,
            r@.path == path@,
    {
        TableOfContentItem { title, path }
    }

    /// The document's title.
    pub fn title(&self) -> (r: &String)
        ensures
            r@ == self@.title,
    {
        &self.title
    }

    /// The output path the entry points at.
    pub fn path(&self) -> (r: &String)
        ensures
            r@ == self@.path,
    {
        &self.path
    }
}

/// One topic of the index: a tag and the titles of the documents
/// carrying it, in processing order, repetitions kept.
#[derive(Debug)]
pub struct TopicEntry {
    tag: String,
    titles: Vec<String>,
}

/// Mathematical model of a `TopicEntry`.
pub ghost struct TopicEntryView {
    pub tag: Seq<char>,
    pub titles: Seq<Seq<char>>,
}

impl View for TopicEntry {
    type V = TopicEntryView;

    closed spec fn view(&self) -> TopicEntryView {
        TopicEntryView { tag: self.tag@, titles: self.titles.deep_view() }
    }
}

impl TopicEntry {
    /// The tag the entry gathers titles under.
    pub fn tag(&self) -> (r: &String)
        ensures
            r@ == self@.tag,
    {
        &self.tag
    }

    /// The titles gathered so far, in insertion order.
    pub fn titles(&self) -> (r: &Vec<String>)
        ensures
            r.deep_view() == self@.titles,
    {
        &self.titles
    }
}

/// Index of the first entry carrying `tag`, or `-1`.
pub open spec fn find_topic(topics: Seq<TopicEntryView>, tag: Seq<char>) -> int
    decreases topics.len(),
{
    if topics.len() == 0 {
        -1
    } else if topics[0].tag == tag {
        0
    } else {
        let r = find_topic(topics.drop_first(), tag);
        if r == -1 {
            -1
        } else {
            r + 1
        }
    }
}

pub proof fn lemma_find_topic(topics: Seq<TopicEntryView>, tag: Seq<char>)
    ensures
        -1 <= find_topic(topics, tag) < topics.len(),
        find_topic(topics, tag) >= 0 ==> topics[find_topic(topics, tag)].tag == tag,
        forall|j: int| 0 <= j < find_topic(topics, tag) ==> topics[j].tag != tag,
        find_topic(topics, tag) == -1 ==> forall|j: int|
            0 <= j < topics.len() ==> topics[j].tag != tag,
    decreases topics.len(),
{
    if topics.len() > 0 && topics[0].tag != tag {
        lemma_find_topic(topics.drop_first(), tag);
        assert(forall|j: int| 1 <= j < topics.len() ==> topics[j] == topics.drop_first()[j - 1]);
    }
}

/// The titles recorded under a tag; an absent tag has none.
pub open spec fn titles_under(topics: Seq<TopicEntryView>, tag: Seq<char>) -> Seq<Seq<char>> {
    let i = find_topic(topics, tag);
    if i == -1 {
        Seq::<Seq<char>>::empty()
    } else {
        topics[i].titles
    }
}

/// A title appended under one tag: the first entry carrying the tag
/// grows by the title, and a missing tag gains a new entry at the end.
pub open spec fn add_title_to_topic(
    topics: Seq<TopicEntryView>,
    tag: Seq<char>,
    title: Seq<char>,
) -> Seq<TopicEntryView> {
    let i = find_topic(topics, tag);
    if i == -1 {
        topics.push(TopicEntryView { tag, titles: seq![title] })
    } else {
        topics.update(i, TopicEntryView { tag, titles: topics[i].titles.push(title) })
    }
}

/// The title appended under every tag of the list, in order.
pub open spec fn add_tags(
    topics: Seq<TopicEntryView>,
    tags: Seq<Seq<char>>,
    title: Seq<char>,
) -> Seq<TopicEntryView>
    decreases tags.len(),
{
    if tags.len() == 0 {
        topics
    } else {
        add_tags(add_title_to_topic(topics, tags[0], title), tags.drop_first(), title)
    }
}

/// Appending a title under one tag pushes it onto that tag's titles
/// and leaves every other tag's titles alone.
pub proof fn lemma_add_title_to_topic(
    topics: Seq<TopicEntryView>,
    tag: Seq<char>,
    title: Seq<char>,
)
    ensures
        titles_under(add_title_to_topic(topics, tag, title), tag) == titles_under(
            topics,
            tag,
        ).push(title),
        forall|other: Seq<char>|
            other != tag ==> #[trigger] titles_under(add_title_to_topic(topics, tag, title), other)
                == titles_under(topics, other),
{
    let r = add_title_to_topic(topics, tag, title);
    let i = find_topic(topics, tag);
    lemma_find_topic(topics, tag);
    if i == -1 {
        lemma_find_topic_push_new(topics, tag, title);
        let e = TopicEntryView { tag, titles: seq![title] };
        assert(topics.push(e)[topics.len() as int] == e);
        assert(titles_under(r, tag) =~= titles_under(topics, tag).push(title));
        assert forall|other: Seq<char>| other != tag implies #[trigger] titles_under(r, other)
            == titles_under(topics, other) by {
            lemma_find_topic(topics, other);
            let f = find_topic(topics, other);
            if f >= 0 {
                assert(r[f] == topics[f]);
            }
        }
    } else {
        lemma_find_topic_update(topics, i, tag, title);
        assert forall|other: Seq<char>| other != tag implies #[trigger] titles_under(r, other)
            == titles_under(topics, other) by {
            lemma_find_topic(topics, other);
            let f = find_topic(topics, other);
            if f >= 0 {
                assert(topics[f].tag == other);
                assert(f != i);
                assert(r[f] == topics[f]);
            }
        }
    }
}

proof fn lemma_find_topic_push_new(topics: Seq<TopicEntryView>, tag: Seq<char>, title: Seq<char>)
    requires
        find_topic(topics, tag) == -1,
    ensures
        find_topic(topics.push(TopicEntryView { tag, titles: seq![title] }), tag)
            == topics.len(),
        forall|other: Seq<char>|
            other != tag ==> #[trigger] find_topic(
                topics.push(TopicEntryView { tag, titles: seq![title] }),
                other,
            ) == find_topic(topics, other),
    decreases topics.len(),
{
    let e = TopicEntryView { tag, titles: seq![title] };
    if topics.len() == 0 {
        assert(topics.push(e)[0] == e);
        assert(find_topic(topics.push(e), tag) == 0);
        assert forall|other: Seq<char>| other != tag implies #[trigger] find_topic(
            topics.push(e),
            other,
        ) == find_topic(topics, other) by {
            assert(topics.push(e).drop_first() =~= topics);
            assert(topics.push(e).len() == 1);
            assert(topics.push(e)[0] == e);
            assert(find_topic(topics.push(e).drop_first(), other) == find_topic(topics, other));
            assert(find_topic(topics, other) == -1);
            assert(find_topic(topics.push(e), other) == -1);
        }
    } else {
        assert(topics[0].tag != tag);
        lemma_find_topic(topics.drop_first(), tag);
        assert(find_topic(topics.drop_first(), tag) == -1);
        lemma_find_topic_push_new(topics.drop_first(), tag, title);
        assert(topics.push(e).drop_first() =~= topics.drop_first().push(e));
        assert(topics.push(e)[0] == topics[0]);
        assert(find_topic(topics.push(e), tag) == topics.len());
        assert forall|other: Seq<char>| other != tag implies #[trigger] find_topic(
            topics.push(e),
            other,
        ) == find_topic(topics, other) by {
            assert(find_topic(topics.drop_first().push(e), other) == find_topic(
                topics.drop_first(),
                other,
            ));
            lemma_find_topic(topics.drop_first(), other);
        }
    }
}

proof fn lemma_find_topic_update(
    topics: Seq<TopicEntryView>,
    i: int,
    tag: Seq<char>,
    title: Seq<char>,
)
    requires
        0 <= i < topics.len(),
        find_topic(topics, tag) == i,
        topics[i].tag == tag,
    ensures
        find_topic(topics.update(i, TopicEntryView { tag, titles: topics[i].titles.push(title) }),
            tag) == i,
        forall|other: Seq<char>|
            other != tag ==> #[trigger] find_topic(
                topics.update(i, TopicEntryView { tag, titles: topics[i].titles.push(title) }),
                other,
            ) == find_topic(topics, other),
    decreases topics.len(),
{
    let e = TopicEntryView { tag, titles: topics[i].titles.push(title) };
    let u = topics.update(i, e);
    if i == 0 {
        assert(u[0].tag == tag);
        assert(find_topic(u, tag) == 0);
        assert forall|other: Seq<char>| other != tag implies #[trigger] find_topic(u, other)
            == find_topic(topics, other) by {
            assert(u.drop_first() =~= topics.drop_first());
            assert(u[0] == e);
            assert(topics[0].tag == tag);
        }
    } else {
        assert(u[0] == topics[0]);
        assert(topics[0].tag != tag);
        lemma_find_topic(topics.drop_first(), tag);
        assert(find_topic(topics.drop_first(), tag) == i - 1);
        assert(topics.drop_first()[i - 1] == topics[i]);
        assert(u.drop_first() =~= topics.drop_first().update(i - 1, e));
        lemma_find_topic_update(topics.drop_first(), i - 1, tag, title);
        assert(find_topic(u, tag) == i);
        assert forall|other: Seq<char>| other != tag implies #[trigger] find_topic(u, other)
            == find_topic(topics, other) by {
            assert(find_topic(topics.drop_first().update(i - 1, e), other) == find_topic(
                topics.drop_first(),
                other,
            ));
            lemma_find_topic(topics.drop_first(), other);
        }
    }
}

/// How often a tag occurs in a tag list.
pub open spec fn count_occurrences(tags: Seq<Seq<char>>, tag: Seq<char>) -> nat
    decreases tags.len(),
{
    if tags.len() == 0 {
        0
    } else {
        (if tags[0] == tag {
            1nat
        } else {
            0nat
        }) + count_occurrences(tags.drop_first(), tag)
    }
}

/// Tag aggregation: recording a document appends its title under a
/// tag exactly as often as the tag occurs in its tag list, with no
/// deduplication, and titles under other tags are untouched.
pub proof fn lemma_tag_aggregation(
    topics: Seq<TopicEntryView>,
    tags: Seq<Seq<char>>,
    title: Seq<char>,
    tag: Seq<char>,
)
    ensures
        titles_under(add_tags(topics, tags, title), tag) == titles_under(topics, tag) + Seq::new(
            count_occurrences(tags, tag),
            |i: int| title,
        ),
    decreases tags.len(),
{
    if tags.len() == 0 {
        assert(titles_under(topics, tag) + Seq::new(0, |i: int| title) =~= titles_under(
            topics,
            tag,
        ));
    } else {
        let mid = add_title_to_topic(topics, tags[0], title);
        lemma_add_title_to_topic(topics, tags[0], title);
        lemma_tag_aggregation(mid, tags.drop_first(), title, tag);
        let k = count_occurrences(tags.drop_first(), tag);
        if tags[0] == tag {
            assert(titles_under(mid, tag) == titles_under(topics, tag).push(title));
            assert(titles_under(topics, tag).push(title) + Seq::new(k, |i: int| title)
                =~= titles_under(topics, tag) + Seq::new(k + 1, |i: int| title));
        } else {
            assert(titles_under(mid, tag) == titles_under(topics, tag));
        }
    }
}

/// The aggregate of one batch run.
#[derive(Debug)]
pub struct Index {
    paragraph_under_certain_topic: Vec<TopicEntry>,
    table_of_content: Vec<TableOfContentItem>,
    markdowns: Vec<Markdown>,
}

/// Mathematical model of an `Index`.
pub ghost struct IndexView {
    pub topics: Seq<TopicEntryView>,
    pub toc: Seq<TocItemView>,
    pub docs: Seq<MarkdownView>,
}

impl View for Index {
    type V = IndexView;

    closed spec fn view(&self) -> IndexView {
        IndexView {
            topics: Seq::new(
                self.paragraph_under_certain_topic.len() as nat,
                |i: int| self.paragraph_under_certain_topic[i]@,
            ),
            toc: Seq::new(
                self.table_of_content.len() as nat,
                |i: int| self.table_of_content[i]@,
            ),
            docs: Seq::new(self.markdowns.len() as nat, |i: int| self.markdowns[i]@),
        }
    }
}

/// Whether some table-of-contents entry carries the title.
pub open spec fn toc_has_title(toc: Seq<TocItemView>, title: Seq<char>) -> bool {
    exists|i: int| 0 <= i < toc.len() && toc[i].title == title
}

/// The index's standing invariant: one table-of-contents entry per
/// recorded document, and every title of the topic index is the title
/// of some table-of-contents entry.
pub open spec fn index_wf(iv: IndexView) -> bool {
    &&& iv.toc.len() == iv.docs.len()
    &&& forall|i: int, j: int|
        0 <= i < iv.topics.len() && 0 <= j < iv.topics[i].titles.len() ==> toc_has_title(
            iv.toc,
            #[trigger] iv.topics[i].titles[j],
        )
}

impl Index {
    /// An empty index.
    pub fn new() -> (r: Index)
        ensures
            r@.topics == Seq::<TopicEntryView>::empty(),
            r@.toc == Seq::<TocItemView>::empty(),
            r@.docs == Seq::<MarkdownView>::empty(),
            index_wf(r@),
    {
        let r = Index {
            paragraph_under_certain_topic: Vec::new(),
            table_of_content: Vec::new(),
            markdowns: Vec::new(),
        };
        proof {
            assert(r@.topics =~= Seq::<TopicEntryView>::empty());
            assert(r@.toc =~= Seq::<TocItemView>::empty());
            assert(r@.docs =~= Seq::<MarkdownView>::empty());
        }
        r
    }

    /// The topic entries, in first-seen order.
    pub fn topics(&self) -> (r: &Vec<TopicEntry>)
        ensures
            r.len() == self@.topics.len(),
            forall|i: int| 0 <= i < r.len() ==> r[i]@ == self@.topics[i],
    {
        &self.paragraph_under_certain_topic
    }

    /// The table of contents, in processing order.
    pub fn table_of_content(&self) -> (r: &Vec<TableOfContentItem>)
        ensures
            r.len() == self@.toc.len(),
            forall|i: int| 0 <= i < r.len() ==> r[i]@ == self@.toc[i],
    {
        &self.table_of_content
    }

    /// The documents recorded so far, in processing order.
    pub fn markdowns(&self) -> (r: &Vec<Markdown>)
        ensures
            r.len() == self@.docs.len(),
            forall|i: int| 0 <= i < r.len() ==> r[i]@ == self@.docs[i],
    {
        &self.markdowns
    }

    /// Records one processed document: appends `{title, rel_path}` to
    /// the table of contents, appends the title under each of the
    /// document's tags in order, and keeps the document.
    pub fn add_document(&mut self, md: Markdown, rel_path: String)
        ensures
            final(self)@.toc == old(self)@.toc.push(
                TocItemView { title: md@.metadata.title, path: rel_path@ },
            ),
            final(self)@.topics == add_tags(old(self)@.topics, md@.metadata.tags, md@.metadata.title),
            final(self)@.docs == old(self)@.docs.push(md@),
    {
        let title = md.metadata().title.clone();
        let n = md.metadata().tags.len();
        let ghost topics0 = self@.topics;
        let ghost tags_dv = md@.metadata.tags;
        proof {
            assert(n == tags_dv.len());
        }
        let mut i: usize = 0;
        while i < n
            invariant
                0 <= i <= n,
                n == tags_dv.len(),
                title@ == md@.metadata.title,
                tags_dv == md@.metadata.tags,
                self@.topics == add_tags(topics0, tags_dv.take(i as int), title@),
                self@.toc == old(self)@.toc,
                self@.docs == old(self)@.docs,
            decreases n - i,
        {
            let tag = &md.metadata().tags[i];
            proof {
                assert(tags_dv[i as int] == tag@);
            }
            self.push_title_under(tag, &title);
            proof {
                lemma_add_tags_snoc(topics0, tags_dv.take(i + 1 as int), title@);
                assert(tags_dv.take(i + 1 as int).drop_last() =~= tags_dv.take(i as int));
            }
            i = i + 1;
        }
        proof {
            assert(tags_dv.take(tags_dv.len() as int) =~= tags_dv);
        }
        let item = TableOfContentItem { title, path: rel_path };
        let ghost toc0 = self@.toc;
        let ghost docs0 = self@.docs;
        let ghost topics_done = self@.topics;
        self.table_of_content.push(item);
        self.markdowns.push(md);
        proof {
            assert(self@.toc =~= toc0.push(item@));
            assert(self@.docs =~= docs0.push(self.markdowns[self.markdowns.len() - 1]@));
            assert(self@.topics =~= topics_done);
        }
    }

    /// Appends the title under one tag, creating the entry if absent.
    fn push_title_under(&mut self, tag: &String, title: &String)
        ensures
            final(self)@.topics == add_title_to_topic(old(self)@.topics, tag@, title@),
            final(self)@.toc == old(self)@.toc,
            final(self)@.docs == old(self)@.docs,
    {
        proof {
            lemma_find_topic(self@.topics, tag@);
        }
        let n = self.paragraph_under_certain_topic.len();
        let mut i: usize = 0;
        while i < n
            invariant
                0 <= i <= n,
                n == self.paragraph_under_certain_topic.len(),
                forall|j: int| 0 <= j < i ==> self@.topics[j].tag != tag@,
                self@ == old(self)@,
            decreases n - i,
        {
            if self.paragraph_under_certain_topic[i].tag == *tag {
                proof {
                    lemma_find_topic(self@.topics, tag@);
                    assert(self@.topics[i as int].tag == tag@);
                    assert(find_topic(self@.topics, tag@) == i as int);
                }
                let ghost topics0 = self@.topics;
                let mut entry = self.paragraph_under_certain_topic.remove(i);
                entry.titles.push(title.clone());
                proof {
                    assert(entry@.titles =~= topics0[i as int].titles.push(title@));
                }
                self.paragraph_under_certain_topic.insert(i, entry);
                proof {
                    assert(self@.topics =~= topics0.update(
                        i as int,
                        TopicEntryView {
                            tag: tag@,
                            titles: topics0[i as int].titles.push(title@),
                        },
                    ));
                    assert(self@.toc =~= old(self)@.toc);
                    assert(self@.docs =~= old(self)@.docs);
                }
                return ;
            }
            i = i + 1;
        }
        proof {
            lemma_find_topic(self@.topics, tag@);
            assert(find_topic(self@.topics, tag@) == -1);
        }
        let ghost topics0 = self@.topics;
        let mut titles: Vec<String> = Vec::new();
        titles.push(title.clone());
        let entry = TopicEntry { tag: tag.clone(), titles };
        proof {
            assert(entry@.titles =~= seq![title@]);
        }
        self.paragraph_under_certain_topic.push(entry);
        proof {
            assert(self@.topics =~= topics0.push(
                TopicEntryView { tag: tag@, titles: seq![title@] },
            ));
            assert(self@.toc =~= old(self)@.toc);
            assert(self@.docs =~= old(self)@.docs);
        }
    }
}

/// The JSON member one topic entry serializes to: the tag as key,
/// the titles as an array.
pub open spec fn topic_entry_json_of(e: TopicEntryView) -> Seq<char> {
    json_string(e.tag) + ":["@ + join_tags(e.titles) + "]"@
}

/// The JSON object body of the topic index, comma separated.
pub open spec fn join_topics(topics: Seq<TopicEntryView>) -> Seq<char>
    decreases topics.len(),
{
    if topics.len() == 0 {
        Seq::<char>::empty()
    } else if topics.len() == 1 {
        topic_entry_json_of(topics[0])
    } else {
        join_topics(topics.drop_last()) + seq![','] + topic_entry_json_of(topics.last())
    }
}

/// The JSON object one table-of-contents entry serializes to.
pub open spec fn toc_item_json_of(t: TocItemView) -> Seq<char> {
    "{\"title\":"@ + json_string(t.title) + ",\"path\":"@ + json_string(t.path) + "}"@
}

/// The JSON array body of the table of contents, comma separated.
pub open spec fn join_toc(toc: Seq<TocItemView>) -> Seq<char>
    decreases toc.len(),
{
    if toc.len() == 0 {
        Seq::<char>::empty()
    } else if toc.len() == 1 {
        toc_item_json_of(toc[0])
    } else {
        join_toc(toc.drop_last()) + seq![','] + toc_item_json_of(toc.last())
    }
}

/// The JSON object an index serializes to: the topic index and the
/// table of contents; the recorded documents themselves are not part
/// of it.
pub open spec fn index_json_of(iv: IndexView) -> Seq<char> {
    "{\"paragraph_under_certain_topic\":{"@ + join_topics(iv.topics)
        + "},\"table_of_content\":["@ + join_toc(iv.toc) + "]}"@
}

impl Index {
    /// Serializes the index to its JSON text.
    pub fn index_json(&self) -> (r: String)
        ensures
            r@ == index_json_of(self@),
    {
        let mut out = String::new();
        out.append("{\"paragraph_under_certain_topic\":{");
        let ghost topics_v = self@.topics;
        let ghost base = out@;
        let mut i: usize = 0;
        while i < self.paragraph_under_certain_topic.len()
            invariant
                0 <= i <= self.paragraph_under_certain_topic.len(),
                topics_v == self@.topics,
                topics_v.len() == self.paragraph_under_certain_topic.len(),
                out@ == base + join_topics(topics_v.take(i as int)),
                i == 0 ==> out@ == base,
            decreases self.paragraph_under_certain_topic.len() - i,
        {
            if i > 0 {
                push_char(&mut out, ',');
            }
            let e = &self.paragraph_under_certain_topic[i];
            push_json_string(&mut out, e.tag.as_str());
            out.append(":[");
            push_string_array_body(&mut out, &e.titles);
            out.append("]");
            proof {
                assert(topics_v[i as int] == e@);
                assert(topics_v.take(i + 1 as int).drop_last() =~= topics_v.take(i as int));
                assert(topics_v.take(i + 1 as int).last() == topics_v[i as int]);
                if i == 0 {
                    assert(topics_v.take(1).len() == 1);
                    assert(out@ =~= base + join_topics(topics_v.take(1)));
                } else {
                    assert(out@ =~= base + join_topics(topics_v.take(i + 1 as int)));
                }
            }
            i = i + 1;
        }
        proof {
            assert(topics_v.take(topics_v.len() as int) =~= topics_v);
        }
        out.append("},\"table_of_content\":[");
        let ghost toc_v = self@.toc;
        let ghost base2 = out@;
        let mut j: usize = 0;
        while j < self.table_of_content.len()
            invariant
                0 <= j <= self.table_of_content.len(),
                toc_v == self@.toc,
                toc_v.len() == self.table_of_content.len(),
                out@ == base2 + join_toc(toc_v.take(j as int)),
                j == 0 ==> out@ == base2,
            decreases self.table_of_content.len() - j,
        {
            if j > 0 {
                push_char(&mut out, ',');
            }
            let t = &self.table_of_content[j];
            out.append("{\"title\":");
            push_json_string(&mut out, t.title.as_str());
            out.append(",\"path\":");
            push_json_string(&mut out, t.path.as_str());
            out.append("}");
            proof {
                assert(toc_v[j as int] == t@);
                assert(toc_v.take(j + 1 as int).drop_last() =~= toc_v.take(j as int));
                assert(toc_v.take(j + 1 as int).last() == toc_v[j as int]);
                if j == 0 {
                    assert(toc_v.take(1).len() == 1);
                    assert(out@ =~= base2 + join_toc(toc_v.take(1)));
                } else {
                    assert(out@ =~= base2 + join_toc(toc_v.take(j + 1 as int)));
                }
            }
            j = j + 1;
        }
        proof {
            assert(toc_v.take(toc_v.len() as int) =~= toc_v);
        }
        out.append("]}");
        proof {
            assert(out@ =~= index_json_of(self@));
        }
        out
    }
}

/// Serializing an index is a function of its topics and table of
/// contents alone: equal models give byte-identical JSON, and the
/// recorded documents' modification times play no part in it.
pub proof fn lemma_index_json_deterministic(a: IndexView, b: IndexView)
    requires
        a.topics == b.topics,
        a.toc == b.toc,
    ensures
        index_json_of(a) == index_json_of(b),
{
}

/// Adding the tags one list element at a time, from the right.
pub proof fn lemma_add_tags_snoc(
    topics: Seq<TopicEntryView>,
    tags: Seq<Seq<char>>,
    title: Seq<char>,
)
    requires
        tags.len() > 0,
    ensures
        add_tags(topics, tags, title) == add_title_to_topic(
            add_tags(topics, tags.drop_last(), title),
            tags.last(),
            title,
        ),
    decreases tags.len(),
{
    if tags.len() == 1 {
        assert(tags.drop_last() =~= Seq::<Seq<char>>::empty());
        assert(tags.drop_first() =~= Seq::<Seq<char>>::empty());
        let mid = add_title_to_topic(topics, tags[0], title);
        assert(add_tags(topics, tags, title) == add_tags(mid, tags.drop_first(), title));
        assert(add_tags(mid, tags.drop_first(), title) == mid);
        assert(add_tags(topics, tags.drop_last(), title) == topics);
        assert(tags.last() == tags[0]);
    } else {
        let mid = add_title_to_topic(topics, tags[0], title);
        lemma_add_tags_snoc(mid, tags.drop_first(), title);
        assert(tags.drop_first().drop_last() =~= tags.drop_last().drop_first());
        assert(tags.drop_first().last() == tags.last());
        assert(tags.drop_last()[0] == tags[0]);
        assert(add_tags(topics, tags.drop_last(), title) == add_tags(
            mid,
            tags.drop_last().drop_first(),
            title,
        ));
        assert(add_tags(topics, tags, title) == add_tags(mid, tags.drop_first(), title));
    }
}

/// Recording a document preserves the index invariant: the table of
/// contents grows by exactly the one entry whose title every newly
/// indexed title equals.
pub proof fn lemma_add_document_preserves_wf(iv: IndexView, md: MarkdownView, rel: Seq<char>)
    requires
        index_wf(iv),
    ensures
        index_wf(
            IndexView {
                topics: add_tags(iv.topics, md.metadata.tags, md.metadata.title),
                toc: iv.toc.push(TocItemView { title: md.metadata.title, path: rel }),
                docs: iv.docs.push(md),
            },
        ),
{
    let toc2 = iv.toc.push(TocItemView { title: md.metadata.title, path: rel });
    let topics2 = add_tags(iv.topics, md.metadata.tags, md.metadata.title);
    assert forall|i: int, j: int|
        0 <= i < topics2.len() && 0 <= j < topics2[i].titles.len() implies toc_has_title(
        toc2,
        #[trigger] topics2[i].titles[j],
    ) by {
        lemma_add_tags_membership(iv.topics, md.metadata.tags, md.metadata.title, i, j);
        let t = topics2[i].titles[j];
        if t == md.metadata.title {
            assert(toc2[toc2.len() - 1].title == t);
        } else {
            assert(toc_has_title(iv.toc, t));
            let w = choose|w: int| 0 <= w < iv.toc.len() && iv.toc[w].title == t;
            assert(toc2[w].title == t);
        }
    }
}

/// Every title in the topics after recording a document was either
/// already indexed or is the document's own title.
proof fn lemma_add_tags_membership(
    topics: Seq<TopicEntryView>,
    tags: Seq<Seq<char>>,
    title: Seq<char>,
    i: int,
    j: int,
)
    requires
        0 <= i < add_tags(topics, tags, title).len(),
        0 <= j < add_tags(topics, tags, title)[i].titles.len(),
    ensures
        add_tags(topics, tags, title)[i].titles[j] == title || exists|a: int, b: int|
            0 <= a < topics.len() && 0 <= b < topics[a].titles.len() && topics[a].titles[b]
                == add_tags(topics, tags, title)[i].titles[j],
    decreases tags.len(),
{
    if tags.len() == 0 {
    } else {
        let mid = add_title_to_topic(topics, tags[0], title);
        lemma_add_tags_membership(mid, tags.drop_first(), title, i, j);
        let t = add_tags(topics, tags, title)[i].titles[j];
        if t != title {
            let (a, b) = choose|a: int, b: int|
                0 <= a < mid.len() && 0 <= b < mid[a].titles.len() && mid[a].titles[b] == t;
            lemma_find_topic(topics, tags[0]);
            let f = find_topic(topics, tags[0]);
            if f == -1 {
                if a < topics.len() {
                    assert(mid[a] == topics[a]);
                } else {
                    assert(mid[a].titles =~= seq![title]);
                    assert(mid[a].titles[b] == title);
                }
            } else {
                if a == f {
                    assert(mid[a].titles == topics[a].titles.push(title));
                    if b < topics[a].titles.len() {
                        assert(topics[a].titles[b] == t);
                    } else {
                        assert(mid[a].titles[b] == title);
                    }
                } else {
                    assert(mid[a] == topics[a]);
                }
            }
        }
    }
}

} // verus!
