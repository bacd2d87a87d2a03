//! Serialization of documents to JSON text.  The output is a pure
//! function of the document's values, so a batch writes the same
//! bytes whenever its inputs are the same.

use vstd::prelude::*;

use crate::document::{Markdown, MarkdownView};
use crate::front_matter::FrontMatterView;
use crate::text::push_char;

verus! {

/// Hexadecimal digit character for a value below sixteen.
pub open spec fn hex_digit(n: int) -> char {
    if n == 0 {
        '0'
    } else if n == 1 {
        '1'
    } else if n == 2 {
        '2'
    } else if n == 3 {
        '3'
    } else if n == 4 {
        '4'
    } else if n == 5 {
        '5'
    } else if n == 6 {
        '6'
    } else if n == 7 {
        '7'
    } else if n == 8 {
        '8'
    } else if n == 9 {
        '9'
    } else if n == 10 {
        'a'
    } else if n == 11 {
        'b'
    } else if n == 12 {
        'c'
    } else if n == 13 {
        'd'
    } else if n == 14 {
        'e'
    } else {
        'f'
    }
}

/// How one character appears inside a JSON string literal: quote,
/// backslash and the named control characters get a two-character
/// escape, other control characters a `\u00..` escape, and everything
/// else stands for itself.
pub open spec fn json_escape_char(c: char) -> Seq<char> {
    if c == '"' {
        seq!['\\', '"']
    } else if c == '\\' {
        seq!['\\', '\\']
    } else if c == '\n' {
        seq!['\\', 'n']
    } else if c == '\r' {
        seq!['\\', 'r']
    } else if c == '\t' {
        seq!['\\', 't']
    } else if c == '\u{08}' {
        seq!['\\', 'b']
    } else if c == '\u{0C}' {
        seq!['\\', 'f']
    } else if (c as u32) < 0x20 {
        seq!['\\', 'u', '0', '0', hex_digit(c as u32 as int / 16), hex_digit(c as u32 as int % 16)]
    } else {
        seq![c]
    }
}

/// A text with every character escaped for a JSON string literal.
pub open spec fn json_escape(s: Seq<char>) -> Seq<char>
    decreases s.len(),
{
    if s.len() == 0 {
        Seq::<char>::empty()
    } else {
        json_escape(s.drop_last()) + json_escape_char(s.last())
    }
}

/// A JSON string literal: the escaped text between double quotes.
pub open spec fn json_string(s: Seq<char>) -> Seq<char> {
    seq!['"'] + json_escape(s) + seq!['"']
}

/// Decimal digit character for a value below ten.
pub open spec fn digit_char(n: int) -> char {
    hex_digit(if 0 <= n < 10 {
        n
    } else {
        0
    })
}

/// Decimal notation of a number, most significant digit first.
pub open spec fn dec_of(n: nat) -> Seq<char>
    decreases n,
{
    if n < 10 {
        seq![digit_char(n as int)]
    } else {
        dec_of(n / 10) + seq![digit_char((n % 10) as int)]
    }
}

/// A JSON array body of string literals, comma separated.
pub open spec fn join_tags(tags: Seq<Seq<char>>) -> Seq<char>
    decreases tags.len(),
{
    if tags.len() == 0 {
        Seq::<char>::empty()
    } else if tags.len() == 1 {
        json_string(tags[0])
    } else {
        join_tags(tags.drop_last()) + seq![','] + json_string(tags.last())
    }
}

/// The JSON object a front-matter record serializes to; the `date`
/// member is present only when the record carries a date.
pub open spec fn front_matter_json_of(f: FrontMatterView) -> Seq<char> {
    "{\"title\":"@ + json_string(f.title) + ",\"author\":"@ + json_string(f.author)
        + ",\"tags\":["@ + join_tags(f.tags) + "]"@ + (match f.date {
        Some(d) => ",\"date\":"@ + json_string(d),
        None => Seq::<char>::empty(),
    }) + "}"@
}

/// The JSON object a document serializes to; the `modified_at_unix`
/// member is present only when the filesystem reported a time.
pub open spec fn document_json_of(m: MarkdownView) -> Seq<char> {
    "{\"path\":"@ + json_string(m.path) + (match m.modified_at_unix {
        Some(n) => ",\"modified_at_unix\":"@ + dec_of(n as nat),
        None => Seq::<char>::empty(),
    }) + ",\"metadata\":"@ + front_matter_json_of(m.metadata) + ",\"content\":"@ + json_string(
        m.content,
    ) + "}"@
}

/// Executable counterpart of `hex_digit`.
fn hex_digit_char(n: u32) -> (r: char)
    requires
        n < 16,
    ensures
        r == hex_digit(n as int),
{
    if n == 0 {
        '0'
    } else if n == 1 {
        '1'
    } else if n == 2 {
        '2'
    } else if n == 3 {
        '3'
    } else if n == 4 {
        '4'
    } else if n == 5 {
        '5'
    } else if n == 6 {
        '6'
    } else if n == 7 {
        '7'
    } else if n == 8 {
        '8'
    } else if n == 9 {
        '9'
    } else if n == 10 {
        'a'
    } else if n == 11 {
        'b'
    } else if n == 12 {
        'c'
    } else if n == 13 {
        'd'
    } else if n == 14 {
        'e'
    } else {
        'f'
    }
}

/// Appends the JSON escaping of `s` to `out`.
fn push_escaped(out: &mut String, s: &str)
    ensures
        final(out)@ == old(out)@ + json_escape(s@),
{
    let n = s.unicode_len();
    let mut i: usize = 0;
    while i < n
        invariant
            0 <= i <= n,
            n == s@.len(),
            out@ == old(out)@ + json_escape(s@.take(i as int)),
        decreases n - i,
    {
        let c = s.get_char(i);
        let ghost pre = out@;
        if c == '"' {
            push_char(out, '\\');
            push_char(out, '"');
        } else if c == '\\' {
            push_char(out, '\\');
            push_char(out, '\\');
        } else if c == '\n' {
            push_char(out, '\\');
            push_char(out, 'n');
        } else if c == '\r' {
            push_char(out, '\\');
            push_char(out, 'r');
        } else if c == '\t' {
            push_char(out, '\\');
            push_char(out, 't');
        } else if c == '\u{08}' {
            push_char(out, '\\');
            push_char(out, 'b');
        } else if c == '\u{0C}' {
            push_char(out, '\\');
            push_char(out, 'f');
        } else if (c as u32) < 0x20 {
            let code = c as u32;
            push_char(out, '\\');
            push_char(out, 'u');
            push_char(out, '0');
            push_char(out, '0');
            push_char(out, hex_digit_char(code / 16));
            push_char(out, hex_digit_char(code % 16));
        } else {
            push_char(out, c);
        }
        proof {
            assert(out@ =~= pre + json_escape_char(s@[i as int]));
            assert(s@.take(i + 1 as int).drop_last() =~= s@.take(i as int));
            assert(s@.take(i + 1 as int).last() == s@[i as int]);
            assert(out@ =~= old(out)@ + json_escape(s@.take(i + 1 as int)));
        }
        i = i + 1;
    }
    proof {
        assert(s@.take(n as int) =~= s@);
    }
}

/// Appends the JSON string literal for `s` to `out`.
pub(crate) fn push_json_string(out: &mut String, s: &str)
    ensures
        final(out)@ == old(out)@ + json_string(s@),
{
    push_char(out, '"');
    push_escaped(out, s);
    push_char(out, '"');
    proof {
        assert(old(out)@ + json_string(s@) =~= ((old(out)@.push('"')) + json_escape(s@)).push(
            '"',
        ));
    }
}

/// Appends the decimal notation of `n` to `out`.
fn push_u64_dec(out: &mut String, n: u64)
    ensures
        final(out)@ == old(out)@ + dec_of(n as nat),
    decreases n,
{
    if n < 10 {
        push_char(out, hex_digit_char(n as u32));
        proof {
            assert(old(out)@ + dec_of(n as nat) =~= old(out)@.push(digit_char(n as int)));
        }
    } else {
        push_u64_dec(out, n / 10);
        push_char(out, hex_digit_char((n % 10) as u32));
        proof {
            assert(old(out)@ + dec_of(n as nat) =~= (old(out)@ + dec_of((n / 10) as nat)).push(
                digit_char((n % 10) as int),
            ));
        }
    }
}

/// Appends the comma-separated JSON string literals of `items`.
pub(crate) fn push_string_array_body(out: &mut String, items: &Vec<String>)
    ensures
        final(out)@ == old(out)@ + join_tags(items.deep_view()),
{
    let ghost dv = items.deep_view();
    let ghost base = out@;
    let mut i: usize = 0;
    while i < items.len()
        invariant
            0 <= i <= items.len(),
            dv == items.deep_view(),
            out@ == base + join_tags(dv.take(i as int)),
            i == 0 ==> out@ == base,
        decreases items.len() - i,
    {
        if i > 0 {
            push_char(out, ',');
        }
        push_json_string(out, items[i].as_str());
        proof {
            assert(dv.take(i + 1 as int).drop_last() =~= dv.take(i as int));
            assert(dv.take(i + 1 as int).last() == dv[i as int]);
            assert(dv[i as int] == items[i as int]@);
            if i == 0 {
                assert(dv.take(1).len() == 1);
                assert(out@ =~= base + join_tags(dv.take(1)));
            } else {
                assert(out@ =~= base + join_tags(dv.take(i + 1 as int)));
            }
        }
        i = i + 1;
    }
    proof {
        assert(dv.take(items.len() as int) =~= dv);
        assert(base =~= base + join_tags(dv.take(0)));
    }
}

/// Serializes one document to its JSON text.
#[verifier::rlimit(40)]
pub fn document_json(md: &Markdown) -> (r: String)
    ensures
        r@ == document_json_of(md@),
{
    let mut out = String::new();
    out.append("{\"path\":");
    push_json_string(&mut out, md.path().as_str());
    match md.modified_at_unix() {
        Some(n) => {
            out.append(",\"modified_at_unix\":");
            push_u64_dec(&mut out, n);
        },
        None => {},
    }
    out.append(",\"metadata\":");
    let fm = md.metadata();
    out.append("{\"title\":");
    push_json_string(&mut out, fm.title.as_str());
    out.append(",\"author\":");
    push_json_string(&mut out, fm.author.as_str());
    out.append(",\"tags\":[");
    push_string_array_body(&mut out, &fm.tags);
    out.append("]");
    match &fm.date {
        Some(d) => {
            out.append(",\"date\":");
            push_json_string(&mut out, d.as_str());
        },
        None => {},
    }
    out.append("}");
    out.append(",\"content\":");
    push_json_string(&mut out, md.content().as_str());
    out.append("}");
    proof {
        assert(out@ =~= document_json_of(md@));
    }
    out
}

/// Serializing a document is a function of its value alone: two
/// documents with the same model serialize to the same bytes, so an
/// unchanged input tree yields byte-identical output on every run.
pub proof fn lemma_document_json_deterministic(a: MarkdownView, b: MarkdownView)
    requires
        a == b,
    ensures
        document_json_of(a) == document_json_of(b),
{
}

} // verus!
