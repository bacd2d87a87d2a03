//! Front-matter handling: locating the fenced metadata block at the
//! top of a document, and decoding its key-value text into a
//! `FrontMatter` record.
//!
//! The block is delimited by a `---` fence line before and after it;
//! one byte-order mark may precede the opening fence.  Its text is a
//! key-value subset of YAML: one `key: value` entry per line, a
//! `tags` entry holding either a flow sequence `[a, b]` or a block
//! sequence of `- item` lines, blank lines ignored, unknown keys
//! skipped, duplicate recognized keys rejected.  A scalar may be
//! wrapped in one pair of quotes: double quotes resolve the
//! backslash escapes for backslash, quote, newline, tab and carriage
//! return, single quotes resolve a doubled quote, and a quoted flow
//! item may contain commas.

use vstd::prelude::*;

use crate::dates::{date_norm, normalize_date, spec_valid_date};
use crate::text::{
    find_char_in, find_from, first_nl, from_chars, lemma_find_from, lemma_find_from_skip,
    lemma_first_nl, next_newline, region_eq, sub_vec, to_chars, trim, trim_bounds,
};

verus! {

/// The decoded metadata of one document: `title` and `author` are
/// required, `tags` is a required (possibly empty) list, `date` is
/// optional and, when present, a calendar date held in its
/// zero-padded `YYYY-MM-DD` form.
#[derive(Debug)]
pub struct FrontMatter {
    pub title: String,
    pub author: String,
    pub tags: Vec<String>,
    pub date: Option<String>,
}

/// Mathematical model of a `FrontMatter` record.
pub ghost struct FrontMatterView {
    pub title: Seq<char>,
    pub author: Seq<char>,
    pub tags: Seq<Seq<char>>,
    pub date: Option<Seq<char>>,
}

impl View for FrontMatter {
    type V = FrontMatterView;

    open spec fn view(&self) -> FrontMatterView {
        FrontMatterView {
            title: self.title@,
            author: self.author@,
            tags: self.tags.deep_view(),
            date: match self.date {
                Some(d) => Some(d@),
                None => None,
            },
        }
    }
}

/// The fence that delimits a front-matter block.
pub open spec fn fence() -> Seq<char> {
    seq!['-', '-', '-']
}

/// Whether the line starting at `p` is a fence line: `---` once
/// whitespace is trimmed away.
pub open spec fn is_fence_line(s: Seq<char>, p: int) -> bool {
    trim(s.subrange(p, first_nl(s, p))) == fence()
}

/// Start index of the first fence line at or after `p`, or `-1`.
pub open spec fn find_fence(s: Seq<char>, p: int) -> int
    decreases s.len() - p,
    when 0 <= p
    via find_fence_decreases
{
    if p >= s.len() {
        -1
    } else if is_fence_line(s, p) {
        p
    } else if first_nl(s, p) >= s.len() {
        -1
    } else {
        find_fence(s, first_nl(s, p) + 1)
    }
}

#[via_fn]
proof fn find_fence_decreases(s: Seq<char>, p: int) {
    if 0 <= p < s.len() {
        lemma_first_nl(s, p);
    }
}

pub proof fn lemma_find_fence(s: Seq<char>, p: int)
    requires
        0 <= p <= s.len(),
    ensures
        find_fence(s, p) == -1 || (p <= find_fence(s, p) < s.len() && is_fence_line(
            s,
            find_fence(s, p),
        )),
    decreases s.len() - p,
{
    if p < s.len() && !is_fence_line(s, p) {
        lemma_first_nl(s, p);
        if first_nl(s, p) < s.len() {
            lemma_find_fence(s, first_nl(s, p) + 1);
        }
    }
}

/// Where the document proper starts: one leading byte-order mark is
/// tolerated before the opening fence.
pub open spec fn fm_start(s: Seq<char>) -> int {
    if s.len() > 0 && s[0] == '\u{feff}' {
        1
    } else {
        0
    }
}

/// Splits a document into its front-matter block and its body.  The
/// document must open with a fence line (an initial byte-order mark
/// aside); the block runs from the line after it to the next fence
/// line; the body is everything after that closing line.  `None` if
/// either fence is missing.
pub open spec fn spec_extract(s: Seq<char>) -> Option<(Seq<char>, Seq<char>)> {
    let b0 = fm_start(s);
    let e0 = first_nl(s, b0);
    if !is_fence_line(s, b0) || e0 >= s.len() {
        None
    } else {
        let c = find_fence(s, e0 + 1);
        if c < 0 {
            None
        } else {
            let ec = first_nl(s, c);
            let body_start = if ec < s.len() {
                ec + 1
            } else {
                s.len() as int
            };
            Some((s.subrange(e0 + 1, c), s.subrange(body_start, s.len() as int)))
        }
    }
}

/// Why a front-matter block failed to decode.
#[derive(Clone, Copy, Debug, PartialEq, Eq, Structural)]
pub enum DecodeError {
    /// A non-blank line is neither a `key: value` entry nor a
    /// sequence item in its place.
    MalformedLine,
    /// A recognized key occurs twice.
    DuplicateKey,
    /// A required key carries no value.
    NullValue,
    /// A `date` value is not a calendar date.
    InvalidDate,
    /// No `title` key.
    MissingTitle,
    /// No `author` key.
    MissingAuthor,
    /// No `tags` key.
    MissingTags,
}

/// The wording of each decode error.
pub open spec fn decode_error_text(e: DecodeError) -> Seq<char> {
    match e {
        DecodeError::MalformedLine => "malformed line"@,
        DecodeError::DuplicateKey => "duplicate key"@,
        DecodeError::NullValue => "empty value for a required key"@,
        DecodeError::InvalidDate => "invalid date"@,
        DecodeError::MissingTitle => "missing title"@,
        DecodeError::MissingAuthor => "missing author"@,
        DecodeError::MissingTags => "missing tags"@,
    }
}

impl DecodeError {
    /// A short description of the error.
    pub fn message(&self) -> (r: &'static str)
        ensures
            r@ == decode_error_text(*self),
    {
        match self {
            DecodeError::MalformedLine => "malformed line",
            DecodeError::DuplicateKey => "duplicate key",
            DecodeError::NullValue => "empty value for a required key",
            DecodeError::InvalidDate => "invalid date",
            DecodeError::MissingTitle => "missing title",
            DecodeError::MissingAuthor => "missing author",
            DecodeError::MissingTags => "missing tags",
        }
    }
}

/// Fields gathered while walking the block's lines.
pub ghost struct FmAcc {
    pub title: Option<Seq<char>>,
    pub author: Option<Seq<char>>,
    pub tags: Option<Seq<Seq<char>>>,
    pub date: Option<Seq<char>>,
    pub date_seen: bool,
}

pub open spec fn empty_acc() -> FmAcc {
    FmAcc { title: None, author: None, tags: None, date: None, date_seen: false }
}

pub open spec fn title_key() -> Seq<char> {
    seq!['t', 'i', 't', 'l', 'e']
}

pub open spec fn author_key() -> Seq<char> {
    seq!['a', 'u', 't', 'h', 'o', 'r']
}

pub open spec fn tags_key() -> Seq<char> {
    seq!['t', 'a', 'g', 's']
}

pub open spec fn date_key() -> Seq<char> {
    seq!['d', 'a', 't', 'e']
}

/// Whether a backslash escape inside a double-quoted scalar is
/// recognized.
pub open spec fn is_dq_escape(c: char) -> bool {
    c == '\\' || c == '"' || c == 'n' || c == 't' || c == 'r'
}

/// The character a recognized escape stands for.
pub open spec fn dq_escaped_char(c: char) -> char {
    if c == 'n' {
        '\n'
    } else if c == 't' {
        '\t'
    } else if c == 'r' {
        '\r'
    } else {
        c
    }
}

/// The body of a double-quoted scalar with its escapes resolved; an
/// unrecognized or trailing backslash is kept as written.
pub open spec fn unescape_dq(s: Seq<char>) -> Seq<char>
    decreases s.len(),
{
    if s.len() == 0 {
        Seq::<char>::empty()
    } else if s[0] == '\\' && s.len() >= 2 {
        if is_dq_escape(s[1]) {
            seq![dq_escaped_char(s[1])] + unescape_dq(s.skip(2))
        } else {
            seq![s[0], s[1]] + unescape_dq(s.skip(2))
        }
    } else {
        seq![s[0]] + unescape_dq(s.skip(1))
    }
}

/// The body of a single-quoted scalar: a doubled quote stands for one
/// quote.
pub open spec fn unescape_sq(s: Seq<char>) -> Seq<char>
    decreases s.len(),
{
    if s.len() == 0 {
        Seq::<char>::empty()
    } else if s[0] == '\'' && s.len() >= 2 && s[1] == '\'' {
        seq!['\''] + unescape_sq(s.skip(2))
    } else {
        seq![s[0]] + unescape_sq(s.skip(1))
    }
}

/// A scalar with one pair of matching single or double quotes
/// stripped and the quoting style's escapes resolved; an unquoted
/// scalar is returned as it is.
pub open spec fn unquote(s: Seq<char>) -> Seq<char> {
    if s.len() >= 2 && s[0] == '"' && s[s.len() - 1] == '"' {
        unescape_dq(s.subrange(1, s.len() - 1))
    } else if s.len() >= 2 && s[0] == '\'' && s[s.len() - 1] == '\'' {
        unescape_sq(s.subrange(1, s.len() - 1))
    } else {
        s
    }
}

/// Whether a trimmed line is a block-sequence item, `- ` then a value.
pub open spec fn is_dash_item(t: Seq<char>) -> bool {
    t.len() >= 2 && t[0] == '-' && t[1] == ' '
}

/// Start of the line after the one ending at `e`.
pub open spec fn next_line(s: Seq<char>, e: int) -> int {
    if e < s.len() {
        e + 1
    } else {
        s.len() as int
    }
}

/// Collects the run of block-sequence items that starts at line `p`;
/// returns the items and the position where the run stops.
pub open spec fn collect_items(s: Seq<char>, p: int) -> (Seq<Seq<char>>, int)
    decreases s.len() - p,
    when 0 <= p <= s.len()
    via collect_items_decreases
{
    if p >= s.len() {
        (Seq::<Seq<char>>::empty(), p)
    } else {
        let e = first_nl(s, p);
        let t = trim(s.subrange(p, e));
        if is_dash_item(t) && trim(t.skip(2)).len() > 0 {
            let item = unquote(trim(t.skip(2)));
            let rest = collect_items(s, next_line(s, e));
            (seq![item] + rest.0, rest.1)
        } else {
            (Seq::<Seq<char>>::empty(), p)
        }
    }
}

#[via_fn]
proof fn collect_items_decreases(s: Seq<char>, p: int) {
    if 0 <= p < s.len() {
        lemma_first_nl(s, p);
    }
}

pub proof fn lemma_collect_items_range(s: Seq<char>, p: int)
    requires
        0 <= p <= s.len(),
    ensures
        p <= collect_items(s, p).1 <= s.len(),
    decreases s.len() - p,
{
    if p < s.len() {
        lemma_first_nl(s, p);
        let e = first_nl(s, p);
        let t = trim(s.subrange(p, e));
        if is_dash_item(t) && trim(t.skip(2)).len() > 0 {
            lemma_collect_items_range(s, next_line(s, e));
        }
    }
}

/// Position of the next comma at or after `p` that stands outside any
/// quoted stretch, or the length of `s`; a quote that never closes
/// hides everything after it.
pub open spec fn flow_sep(s: Seq<char>, p: int) -> int
    decreases s.len() - p,
    when 0 <= p
    via flow_sep_decreases
{
    if p >= s.len() {
        s.len() as int
    } else if s[p] == ',' {
        p
    } else if s[p] == '"' || s[p] == '\'' {
        let q = find_from(s, s[p], p + 1);
        if q >= s.len() {
            s.len() as int
        } else {
            flow_sep(s, q + 1)
        }
    } else {
        flow_sep(s, p + 1)
    }
}

#[via_fn]
proof fn flow_sep_decreases(s: Seq<char>, p: int) {
    if 0 <= p < s.len() && s[p] != ',' && (s[p] == '"' || s[p] == '\'') {
        lemma_find_from(s, s[p], p + 1);
    }
}

pub proof fn lemma_flow_sep_range(s: Seq<char>, p: int)
    requires
        0 <= p <= s.len(),
    ensures
        p <= flow_sep(s, p) <= s.len(),
    decreases s.len() - p,
{
    if p < s.len() && s[p] != ',' {
        if s[p] == '"' || s[p] == '\'' {
            lemma_find_from(s, s[p], p + 1);
            let q = find_from(s, s[p], p + 1);
            if q < s.len() {
                lemma_flow_sep_range(s, q + 1);
            }
        } else {
            lemma_flow_sep_range(s, p + 1);
        }
    }
}

/// Items of a flow sequence body (the text between `[` and `]`),
/// split at the commas outside quotes; `None` if some item is empty.
pub open spec fn parse_flow_items(inner: Seq<char>, p: int) -> Option<Seq<Seq<char>>>
    decreases inner.len() - p,
    when 0 <= p <= inner.len()
    via parse_flow_items_decreases
{
    let ci = flow_sep(inner, p);
    let piece = trim(inner.subrange(p, ci));
    if piece.len() == 0 {
        None
    } else {
        let item = unquote(piece);
        if ci >= inner.len() {
            Some(seq![item])
        } else {
            match parse_flow_items(inner, ci + 1) {
                Some(rest) => Some(seq![item] + rest),
                None => None,
            }
        }
    }
}

#[via_fn]
proof fn parse_flow_items_decreases(inner: Seq<char>, p: int) {
    if 0 <= p <= inner.len() {
        lemma_flow_sep_range(inner, p);
    }
}

/// The record the gathered fields make, once the block is exhausted:
/// `title`, `author` and `tags` must all have been seen.
pub open spec fn spec_finalize(acc: FmAcc) -> Result<FrontMatterView, DecodeError> {
    match acc.title {
        None => Err(DecodeError::MissingTitle),
        Some(title) => match acc.author {
            None => Err(DecodeError::MissingAuthor),
            Some(author) => match acc.tags {
                None => Err(DecodeError::MissingTags),
                Some(tags) => Ok(FrontMatterView { title, author, tags, date: acc.date }),
            },
        },
    }
}

/// Decodes the block line by line from position `p` with the fields
/// gathered so far.
pub open spec fn spec_decode_from(s: Seq<char>, p: int, acc: FmAcc) -> Result<
    FrontMatterView,
    DecodeError,
>
    decreases s.len() - p,
    when 0 <= p <= s.len()
    via spec_decode_from_decreases
{
    if p >= s.len() {
        spec_finalize(acc)
    } else {
        let e = first_nl(s, p);
        let nx = next_line(s, e);
        let t = trim(s.subrange(p, e));
        if t.len() == 0 {
            spec_decode_from(s, nx, acc)
        } else if is_dash_item(t) {
            Err(DecodeError::MalformedLine)
        } else {
            let ci = find_from(t, ':', 0);
            if ci >= t.len() {
                Err(DecodeError::MalformedLine)
            } else {
                let key = trim(t.take(ci));
                let val = trim(t.skip(ci + 1));
                if key == title_key() {
                    if acc.title is Some {
                        Err(DecodeError::DuplicateKey)
                    } else if val.len() == 0 {
                        Err(DecodeError::NullValue)
                    } else {
                        spec_decode_from(
                            s,
                            nx,
                            FmAcc {
                                title: Some(unquote(val)),
                                author: acc.author,
                                tags: acc.tags,
                                date: acc.date,
                                date_seen: acc.date_seen,
                            },
                        )
                    }
                } else if key == author_key() {
                    if acc.author is Some {
                        Err(DecodeError::DuplicateKey)
                    } else if val.len() == 0 {
                        Err(DecodeError::NullValue)
                    } else {
                        spec_decode_from(
                            s,
                            nx,
                            FmAcc {
                                title: acc.title,
                                author: Some(unquote(val)),
                                tags: acc.tags,
                                date: acc.date,
                                date_seen: acc.date_seen,
                            },
                        )
                    }
                } else if key == date_key() {
                    if acc.date_seen {
                        Err(DecodeError::DuplicateKey)
                    } else if val.len() == 0 {
                        spec_decode_from(
                            s,
                            nx,
                            FmAcc {
                                title: acc.title,
                                author: acc.author,
                                tags: acc.tags,
                                date: acc.date,
                                date_seen: true,
                            },
                        )
                    } else if !spec_valid_date(unquote(val)) {
                        Err(DecodeError::InvalidDate)
                    } else {
                        spec_decode_from(
                            s,
                            nx,
                            FmAcc {
                                title: acc.title,
                                author: acc.author,
                                tags: acc.tags,
                                date: Some(date_norm(unquote(val))),
                                date_seen: true,
                            },
                        )
                    }
                } else if key == tags_key() {
                    if acc.tags is Some {
                        Err(DecodeError::DuplicateKey)
                    } else if val.len() == 0 {
                        let r = collect_items(s, nx);
                        if r.0.len() == 0 {
                            Err(DecodeError::NullValue)
                        } else {
                            spec_decode_from(
                                s,
                                r.1,
                                FmAcc {
                                    title: acc.title,
                                    author: acc.author,
                                    tags: Some(r.0),
                                    date: acc.date,
                                    date_seen: acc.date_seen,
                                },
                            )
                        }
                    } else if val.len() >= 2 && val[0] == '[' && val[val.len() - 1] == ']' {
                        let inner = val.subrange(1, val.len() - 1);
                        if trim(inner).len() == 0 {
                            spec_decode_from(
                                s,
                                nx,
                                FmAcc {
                                    title: acc.title,
                                    author: acc.author,
                                    tags: Some(Seq::<Seq<char>>::empty()),
                                    date: acc.date,
                                    date_seen: acc.date_seen,
                                },
                            )
                        } else {
                            match parse_flow_items(inner, 0) {
                                Some(items) => spec_decode_from(
                                    s,
                                    nx,
                                    FmAcc {
                                        title: acc.title,
                                        author: acc.author,
                                        tags: Some(items),
                                        date: acc.date,
                                        date_seen: acc.date_seen,
                                    },
                                ),
                                None => Err(DecodeError::MalformedLine),
                            }
                        }
                    } else {
                        Err(DecodeError::MalformedLine)
                    }
                } else {
                    spec_decode_from(s, nx, acc)
                }
            }
        }
    }
}

#[via_fn]
proof fn spec_decode_from_decreases(s: Seq<char>, p: int, acc: FmAcc) {
    if 0 <= p < s.len() {
        lemma_first_nl(s, p);
        let e = first_nl(s, p);
        lemma_collect_items_range(s, next_line(s, e));
    }
}

/// What decoding a front-matter block yields: the record, or the
/// first error its lines show.
pub open spec fn spec_decode(block: Seq<char>) -> Result<FrontMatterView, DecodeError> {
    spec_decode_from(block, 0, empty_acc())
}

/// The executable result agrees with the specified one.
pub open spec fn decode_result_matches(
    r: Result<FrontMatter, DecodeError>,
    s: Result<FrontMatterView, DecodeError>,
) -> bool {
    match r {
        Ok(fm) => match s {
            Ok(fv) => fm@ == fv,
            Err(_) => false,
        },
        Err(e) => match s {
            Ok(_) => false,
            Err(e2) => e == e2,
        },
    }
}

/// Fields gathered so far, executable form.
struct Partial {
    title: Option<String>,
    author: Option<String>,
    tags: Option<Vec<String>>,
    date: Option<String>,
    date_seen: bool,
}

impl View for Partial {
    type V = FmAcc;

    closed spec fn view(&self) -> FmAcc {
        FmAcc {
            title: match self.title {
                Some(t) => Some(t@),
                None => None,
            },
            author: match self.author {
                Some(t) => Some(t@),
                None => None,
            },
            tags: match self.tags {
                Some(t) => Some(t.deep_view()),
                None => None,
            },
            date: match self.date {
                Some(t) => Some(t@),
                None => None,
            },
            date_seen: self.date_seen,
        }
    }
}

fn title_key_vec() -> (r: Vec<char>)
    ensures
        r@ == title_key(),
{
    let mut r: Vec<char> = Vec::new();
    r.push('t');
    r.push('i');
    r.push('t');
    r.push('l');
    r.push('e');
    proof {
        assert(r@ =~= title_key());
    }
    r
}

fn author_key_vec() -> (r: Vec<char>)
    ensures
        r@ == author_key(),
{
    let mut r: Vec<char> = Vec::new();
    r.push('a');
    r.push('u');
    r.push('t');
    r.push('h');
    r.push('o');
    r.push('r');
    proof {
        assert(r@ =~= author_key());
    }
    r
}

fn tags_key_vec() -> (r: Vec<char>)
    ensures
        r@ == tags_key(),
{
    let mut r: Vec<char> = Vec::new();
    r.push('t');
    r.push('a');
    r.push('g');
    r.push('s');
    proof {
        assert(r@ =~= tags_key());
    }
    r
}

fn date_key_vec() -> (r: Vec<char>)
    ensures
        r@ == date_key(),
{
    let mut r: Vec<char> = Vec::new();
    r.push('d');
    r.push('a');
    r.push('t');
    r.push('e');
    proof {
        assert(r@ =~= date_key());
    }
    r
}

/// Resolves the escapes of a double-quoted scalar body `[a, b)`.
fn unescape_dq_copy(v: &Vec<char>, a: usize, b: usize) -> (r: Vec<char>)
    requires
        a <= b <= v.len(),
    ensures
        r@ == unescape_dq(v@.subrange(a as int, b as int)),
{
    let ghost inner = v@.subrange(a as int, b as int);
    let mut r: Vec<char> = Vec::new();
    let mut p: usize = a;
    while p < b
        invariant
            a <= p <= b <= v.len(),
            inner == v@.subrange(a as int, b as int),
            unescape_dq(inner) == r@ + unescape_dq(v@.subrange(p as int, b as int)),
        decreases b - p,
    {
        let ghost rest = v@.subrange(p as int, b as int);
        let ghost r0 = r@;
        let c = v[p];
        proof {
            assert(rest[0] == c);
        }
        if c == '\\' && p + 1 < b {
            let c2 = v[p + 1];
            proof {
                assert(rest[1] == c2);
                assert(rest.skip(2) =~= v@.subrange(p + 2 as int, b as int));
            }
            if c2 == '\\' || c2 == '"' {
                r.push(c2);
            } else if c2 == 'n' {
                r.push('\n');
            } else if c2 == 't' {
                r.push('\t');
            } else if c2 == 'r' {
                r.push('\r');
            } else {
                r.push('\\');
                r.push(c2);
            }
            proof {
                if is_dq_escape(c2) {
                    assert(r@ =~= r0 + seq![dq_escaped_char(c2)]);
                    assert(r0 + (seq![dq_escaped_char(c2)] + unescape_dq(rest.skip(2))) =~= r@
                        + unescape_dq(rest.skip(2)));
                } else {
                    assert(r@ =~= r0 + seq![c, c2]);
                    assert(r0 + (seq![c, c2] + unescape_dq(rest.skip(2))) =~= r@ + unescape_dq(
                        rest.skip(2),
                    ));
                }
            }
            p = p + 2;
        } else {
            r.push(c);
            proof {
                assert(rest.skip(1) =~= v@.subrange(p + 1 as int, b as int));
                assert(r@ =~= r0 + seq![c]);
                assert(r0 + (seq![c] + unescape_dq(rest.skip(1))) =~= r@ + unescape_dq(
                    rest.skip(1),
                ));
            }
            p = p + 1;
        }
    }
    proof {
        assert(v@.subrange(b as int, b as int).len() == 0);
        assert(r@ + unescape_dq(v@.subrange(b as int, b as int)) =~= r@);
    }
    r
}

/// Resolves the doubled quotes of a single-quoted scalar body `[a, b)`.
fn unescape_sq_copy(v: &Vec<char>, a: usize, b: usize) -> (r: Vec<char>)
    requires
        a <= b <= v.len(),
    ensures
        r@ == unescape_sq(v@.subrange(a as int, b as int)),
{
    let ghost inner = v@.subrange(a as int, b as int);
    let mut r: Vec<char> = Vec::new();
    let mut p: usize = a;
    while p < b
        invariant
            a <= p <= b <= v.len(),
            inner == v@.subrange(a as int, b as int),
            unescape_sq(inner) == r@ + unescape_sq(v@.subrange(p as int, b as int)),
        decreases b - p,
    {
        let ghost rest = v@.subrange(p as int, b as int);
        let ghost r0 = r@;
        let c = v[p];
        proof {
            assert(rest[0] == c);
        }
        if c == '\'' && p + 1 < b && v[p + 1] == '\'' {
            proof {
                assert(rest[1] == v@[p + 1]);
                assert(rest.skip(2) =~= v@.subrange(p + 2 as int, b as int));
            }
            r.push('\'');
            proof {
                assert(r@ =~= r0 + seq!['\'']);
                assert(r0 + (seq!['\''] + unescape_sq(rest.skip(2))) =~= r@ + unescape_sq(
                    rest.skip(2),
                ));
            }
            p = p + 2;
        } else {
            proof {
                if p + 1 < b {
                    assert(rest[1] == v@[p + 1]);
                }
                assert(rest.skip(1) =~= v@.subrange(p + 1 as int, b as int));
            }
            r.push(c);
            proof {
                assert(r@ =~= r0 + seq![c]);
                assert(r0 + (seq![c] + unescape_sq(rest.skip(1))) =~= r@ + unescape_sq(
                    rest.skip(1),
                ));
            }
            p = p + 1;
        }
    }
    proof {
        assert(v@.subrange(b as int, b as int).len() == 0);
        assert(r@ + unescape_sq(v@.subrange(b as int, b as int)) =~= r@);
    }
    r
}

/// Copies `[a, b)` of `v` with one pair of matching quotes stripped
/// and the quoting style's escapes resolved.
fn unquote_copy(v: &Vec<char>, a: usize, b: usize) -> (r: Vec<char>)
    requires
        a <= b <= v.len(),
    ensures
        r@ == unquote(v@.subrange(a as int, b as int)),
{
    let ghost s = v@.subrange(a as int, b as int);
    if b - a >= 2 {
        let c0 = v[a];
        let c1 = v[b - 1];
        proof {
            assert(s[0] == c0 && s[s.len() - 1] == c1);
            assert(v@.subrange(a + 1 as int, (b - 1) as int) =~= s.subrange(1, s.len() - 1));
        }
        if c0 == '"' && c1 == '"' {
            return unescape_dq_copy(v, a + 1, b - 1);
        }
        if c0 == '\'' && c1 == '\'' {
            return unescape_sq_copy(v, a + 1, b - 1);
        }
    }
    sub_vec(v, a, b)
}

/// Gathers a run of `- item` lines starting at line `start`.
fn parse_block_items(v: &Vec<char>, start: usize) -> (r: (Vec<String>, usize))
    requires
        start <= v.len(),
    ensures
        r.0.deep_view() == collect_items(v@, start as int).0,
        r.1 == collect_items(v@, start as int).1,
        start <= r.1 <= v.len(),
{
    let mut items: Vec<String> = Vec::new();
    let mut q: usize = start;
    loop
        invariant
            start <= q <= v.len(),
            collect_items(v@, start as int).0 == items.deep_view() + collect_items(
                v@,
                q as int,
            ).0,
            collect_items(v@, start as int).1 == collect_items(v@, q as int).1,
        ensures
            collect_items(v@, q as int).0 == Seq::<Seq<char>>::empty(),
            collect_items(v@, q as int).1 == q,
        decreases v.len() - q,
    {
        if q >= v.len() {
            break ;
        }
        let e2 = next_newline(v, q);
        let ghost t = trim(v@.subrange(q as int, e2 as int));
        let (ax, ay) = trim_bounds(v, q, e2);
        proof {
            assert(t == v@.subrange(ax as int, ay as int));
            if ay - ax >= 2 {
                assert(t[0] == v@[ax as int] && t[1] == v@[ax + 1]);
            }
        }
        if !(ay - ax >= 2 && v[ax] == '-' && v[ax + 1] == ' ') {
            proof {
                assert(!is_dash_item(t));
            }
            break ;
        }
        let (bx, by) = trim_bounds(v, ax + 2, ay);
        proof {
            assert(v@.subrange(ax + 2, ay as int) =~= t.skip(2));
        }
        if by == bx {
            proof {
                assert(trim(t.skip(2)).len() == 0);
            }
            break ;
        }
        let u = unquote_copy(v, bx, by);
        let item = from_chars(&u);
        let ghost dv0 = items.deep_view();
        items.push(item);
        let nx2: usize = if e2 < v.len() {
            e2 + 1
        } else {
            v.len()
        };
        proof {
            assert(items.deep_view() =~= dv0.push(u@));
            assert(collect_items(v@, q as int).0 == seq![u@] + collect_items(v@, nx2 as int).0);
            assert(collect_items(v@, q as int).1 == collect_items(v@, nx2 as int).1);
            assert(dv0 + (seq![u@] + collect_items(v@, nx2 as int).0) =~= dv0.push(u@)
                + collect_items(v@, nx2 as int).0);
        }
        q = nx2;
    }
    proof {
        assert(items.deep_view() + Seq::<Seq<char>>::empty() =~= items.deep_view());
    }
    (items, q)
}

/// `pre` prepended to a parse outcome.
pub open spec fn opt_cat(pre: Seq<Seq<char>>, o: Option<Seq<Seq<char>>>) -> Option<
    Seq<Seq<char>>,
> {
    match o {
        Some(r) => Some(pre + r),
        None => None,
    }
}

/// Scans for the next comma outside quotes; the executable
/// counterpart of `flow_sep`.
fn flow_sep_at(v: &Vec<char>, start: usize) -> (r: usize)
    requires
        start <= v.len(),
    ensures
        r == flow_sep(v@, start as int),
        start <= r <= v.len(),
{
    proof {
        lemma_flow_sep_range(v@, start as int);
    }
    let mut p: usize = start;
    loop
        invariant
            start <= p <= v.len(),
            flow_sep(v@, start as int) == flow_sep(v@, p as int),
        decreases v.len() - p,
    {
        if p >= v.len() {
            return p;
        }
        let c = v[p];
        if c == ',' {
            return p;
        }
        if c == '"' || c == '\'' {
            proof {
                lemma_find_from_skip(v@, c, p + 1 as int);
                assert(v@.skip(p + 1 as int) =~= v@.subrange(p + 1 as int, v@.len() as int));
            }
            let q = find_char_in(v, c, p + 1, v.len());
            proof {
                assert(find_from(v@, c, p + 1 as int) == q as int);
            }
            if q == v.len() {
                return v.len();
            }
            p = q + 1;
        } else {
            p = p + 1;
        }
    }
}

/// Splits a flow-sequence body at its commas outside quotes.
fn parse_flow(inner: &Vec<char>) -> (r: Option<Vec<String>>)
    ensures
        match r {
            Some(items) => parse_flow_items(inner@, 0) == Some(items.deep_view()),
            None => parse_flow_items(inner@, 0) is None,
        },
{
    let mut items: Vec<String> = Vec::new();
    let mut q: usize = 0;
    loop
        invariant
            q <= inner.len(),
            opt_cat(items.deep_view(), parse_flow_items(inner@, q as int)) == parse_flow_items(
                inner@,
                0,
            ),
        decreases inner.len() - q,
    {
        let ci = flow_sep_at(inner, q);
        let (px, py) = trim_bounds(inner, q, ci);
        if py == px {
            return None;
        }
        let u = unquote_copy(inner, px, py);
        let ghost dv0 = items.deep_view();
        items.push(from_chars(&u));
        proof {
            assert(items.deep_view() =~= dv0.push(u@));
        }
        if ci == inner.len() {
            proof {
                assert(parse_flow_items(inner@, q as int) == Some(seq![u@]));
                assert(dv0 + seq![u@] =~= items.deep_view());
            }
            return Some(items);
        }
        proof {
            assert(parse_flow_items(inner@, q as int) == opt_cat(
                seq![u@],
                parse_flow_items(inner@, ci + 1 as int),
            ));
            assert forall|rest: Seq<Seq<char>>|
                parse_flow_items(inner@, ci + 1 as int) == Some(rest) implies dv0 + (seq![u@]
                + rest) =~= items.deep_view() + rest by {}
        }
        q = ci + 1;
    }
}

/// Decodes a front-matter block into a `FrontMatter` record,
/// reporting exactly the error the block's lines show.
pub fn decode_front_matter(block: &str) -> (r: Result<FrontMatter, DecodeError>)
    ensures
        decode_result_matches(r, spec_decode(block@)),
{
    let v = to_chars(block);
    let tkey = title_key_vec();
    let akey = author_key_vec();
    let gkey = tags_key_vec();
    let dkey = date_key_vec();
    let mut acc = Partial { title: None, author: None, tags: None, date: None, date_seen: false };
    let mut p: usize = 0;
    while p < v.len()
        invariant
            0 <= p <= v.len(),
            v@ == block@,
            tkey@ == title_key(),
            akey@ == author_key(),
            gkey@ == tags_key(),
            dkey@ == date_key(),
            spec_decode(v@) == spec_decode_from(v@, p as int, acc@),
        decreases v.len() - p,
    {
        let e = next_newline(&v, p);
        let nx: usize = if e < v.len() {
            e + 1
        } else {
            v.len()
        };
        let ghost t = trim(v@.subrange(p as int, e as int));
        let (tx, ty) = trim_bounds(&v, p, e);
        proof {
            assert(t == v@.subrange(tx as int, ty as int));
            if ty - tx >= 2 {
                assert(t[0] == v@[tx as int] && t[1] == v@[tx + 1]);
            }
        }
        if ty == tx {
            p = nx;
        } else if ty - tx >= 2 && v[tx] == '-' && v[tx + 1] == ' ' {
            return Err(DecodeError::MalformedLine);
        } else {
            proof {
                assert(!is_dash_item(t));
            }
            let ci_abs = find_char_in(&v, ':', tx, ty);
            proof {
                assert(find_from(t, ':', 0) == ci_abs - tx);
            }
            if ci_abs == ty {
                return Err(DecodeError::MalformedLine);
            }
            let ghost key = trim(t.take(ci_abs - tx));
            let ghost val = trim(t.skip(ci_abs - tx + 1));
            let (kx, ky) = trim_bounds(&v, tx, ci_abs);
            let (vx, vy) = trim_bounds(&v, ci_abs + 1, ty);
            proof {
                assert(v@.subrange(tx as int, ci_abs as int) =~= t.take(ci_abs - tx));
                assert(v@.subrange(ci_abs + 1, ty as int) =~= t.skip(ci_abs - tx + 1));
                assert(key == v@.subrange(kx as int, ky as int));
                assert(val == v@.subrange(vx as int, vy as int));
            }
            if region_eq(&v, kx, ky, &tkey) {
                if acc.title.is_some() {
                    return Err(DecodeError::DuplicateKey);
                }
                if vy == vx {
                    return Err(DecodeError::NullValue);
                }
                let u = unquote_copy(&v, vx, vy);
                acc.title = Some(from_chars(&u));
                p = nx;
            } else if region_eq(&v, kx, ky, &akey) {
                if acc.author.is_some() {
                    return Err(DecodeError::DuplicateKey);
                }
                if vy == vx {
                    return Err(DecodeError::NullValue);
                }
                let u = unquote_copy(&v, vx, vy);
                acc.author = Some(from_chars(&u));
                p = nx;
            } else if region_eq(&v, kx, ky, &dkey) {
                if acc.date_seen {
                    return Err(DecodeError::DuplicateKey);
                }
                if vy == vx {
                    acc.date_seen = true;
                    p = nx;
                } else {
                    let u = unquote_copy(&v, vx, vy);
                    match normalize_date(&u) {
                        None => {
                            return Err(DecodeError::InvalidDate);
                        },
                        Some(nd) => {
                            acc.date = Some(from_chars(&nd));
                            acc.date_seen = true;
                            p = nx;
                        },
                    }
                }
            } else if region_eq(&v, kx, ky, &gkey) {
                if acc.tags.is_some() {
                    return Err(DecodeError::DuplicateKey);
                }
                if vy == vx {
                    let (items, cont) = parse_block_items(&v, nx);
                    if items.len() == 0 {
                        proof {
                            assert(collect_items(v@, nx as int).0.len() == 0);
                        }
                        return Err(DecodeError::NullValue);
                    }
                    proof {
                        assert(collect_items(v@, nx as int).0.len() > 0);
                    }
                    acc.tags = Some(items);
                    p = cont;
                } else {
                    proof {
                        assert(val[0] == v@[vx as int]);
                        assert(val[val.len() - 1] == v@[vy - 1]);
                    }
                    if !(vy - vx >= 2 && v[vx] == '[' && v[vy - 1] == ']') {
                        return Err(DecodeError::MalformedLine);
                    }
                    let ghost inner = val.subrange(1, val.len() - 1);
                    proof {
                        assert(inner =~= v@.subrange(vx + 1, (vy - 1) as int));
                    }
                    let (ix, iy) = trim_bounds(&v, vx + 1, vy - 1);
                    if iy == ix {
                        proof {
                            assert(trim(inner).len() == 0);
                        }
                        let no_tags: Vec<String> = Vec::new();
                        proof {
                            assert(no_tags.deep_view() =~= Seq::<Seq<char>>::empty());
                        }
                        acc.tags = Some(no_tags);
                        p = nx;
                    } else {
                        proof {
                            assert(trim(inner).len() > 0);
                        }
                        let inner_vec = sub_vec(&v, vx + 1, vy - 1);
                        proof {
                            assert(inner_vec@ == inner);
                        }
                        match parse_flow(&inner_vec) {
                            Some(items) => {
                                acc.tags = Some(items);
                                p = nx;
                            },
                            None => {
                                return Err(DecodeError::MalformedLine);
                            },
                        }
                    }
                }
            } else {
                proof {
                    assert(key != title_key() && key != author_key() && key != tags_key() && key
                        != date_key());
                }
                p = nx;
            }
        }
    }
    let ghost accv = acc@;
    proof {
        assert(spec_decode(v@) == spec_finalize(accv));
    }
    let title = match acc.title {
        Some(t) => t,
        None => {
            return Err(DecodeError::MissingTitle);
        },
    };
    let author = match acc.author {
        Some(t) => t,
        None => {
            return Err(DecodeError::MissingAuthor);
        },
    };
    let tags = match acc.tags {
        Some(t) => t,
        None => {
            return Err(DecodeError::MissingTags);
        },
    };
    let fm = FrontMatter { title, author, tags, date: acc.date };
    Ok(fm)
}

/// A fence vector for executable comparisons.
fn fence_vec() -> (r: Vec<char>)
    ensures
        r@ == fence(),
{
    let mut r: Vec<char> = Vec::new();
    r.push('-');
    r.push('-');
    r.push('-');
    proof {
        assert(r@ =~= fence());
    }
    r
}

/// Whether the line `[p, e)` of `v` is a fence line, where `e` is the
/// line's terminating position.
fn is_fence_at(v: &Vec<char>, p: usize, e: usize) -> (r: bool)
    requires
        p <= e <= v.len(),
        e == first_nl(v@, p as int),
    ensures
        r == is_fence_line(v@, p as int),
{
    let (x, y) = trim_bounds(v, p, e);
    let f = fence_vec();
    region_eq(v, x, y, &f)
}

/// Locates the front-matter block of `text` and returns it together
/// with the document body that follows its closing fence.
pub fn extract_front_matter(text: &str) -> (r: Option<(String, String)>)
    ensures
        match r {
            Some(pair) => spec_extract(text@) == Some((pair.0@, pair.1@)),
            None => spec_extract(text@) is None,
        },
{
    let v = to_chars(text);
    let b0: usize = if v.len() > 0 && v[0] == '\u{feff}' {
        1
    } else {
        0
    };
    let e0 = next_newline(&v, b0);
    if !is_fence_at(&v, b0, e0) || e0 == v.len() {
        return None;
    }
    let mut p: usize = e0 + 1;
    let mut close: Option<usize> = None;
    while p < v.len()
        invariant_except_break
            close is None,
            e0 + 1 <= p <= v.len(),
            find_fence(v@, e0 + 1 as int) == find_fence(v@, p as int),
        invariant
            e0 < v.len(),
            e0 + 1 <= v.len(),
        ensures
            match close {
                Some(c) => e0 + 1 <= c < v.len() && find_fence(v@, e0 + 1 as int) == c
                    && is_fence_line(v@, c as int),
                None => find_fence(v@, e0 + 1 as int) == -1,
            },
        decreases v.len() - p,
    {
        let e = next_newline(&v, p);
        if is_fence_at(&v, p, e) {
            close = Some(p);
            break ;
        }
        proof {
            lemma_first_nl(v@, p as int);
        }
        if e == v.len() {
            break ;
        }
        p = e + 1;
    }
    match close {
        None => {
            None
        },
        Some(c) => {
            let ec = next_newline(&v, c);
            let body_start = if ec < v.len() {
                ec + 1
            } else {
                v.len()
            };
            let block = sub_vec(&v, e0 + 1, c);
            let body = sub_vec(&v, body_start, v.len());
            proof {
                assert(find_fence(v@, c as int) == c);
            }
            Some((from_chars(&block), from_chars(&body)))
        },
    }
}

/// In a well-formed document the body handed to the renderer is a
/// suffix that begins strictly after the closing fence: the whole
/// front-matter block, both fence lines included, is excluded from it.
pub proof fn lemma_extract_excludes_block(s: Seq<char>)
    requires
        spec_extract(s) is Some,
    ensures
        ({
            let e0 = first_nl(s, fm_start(s));
            let c = find_fence(s, e0 + 1);
            let (block, body) = spec_extract(s).unwrap();
            &&& is_fence_line(s, fm_start(s))
            &&& 0 <= fm_start(s) <= e0 < c < s.len()
            &&& is_fence_line(s, c)
            &&& block == s.subrange(e0 + 1, c)
            &&& exists|k: int| c < k <= s.len() && body == s.skip(k)
        }),
{
    let e0 = first_nl(s, fm_start(s));
    lemma_first_nl(s, fm_start(s));
    let c = find_fence(s, e0 + 1);
    lemma_find_fence(s, e0 + 1);
    let ec = first_nl(s, c);
    lemma_first_nl(s, c);
    let body_start = if ec < s.len() {
        ec + 1
    } else {
        s.len() as int
    };
    assert(spec_extract(s).unwrap().1 == s.subrange(body_start, s.len() as int));
    assert(s.subrange(body_start, s.len() as int) =~= s.skip(body_start));
    assert(c < body_start <= s.len());
}

} // verus!
