//! Character-level text utilities shared by the parsing and
//! path-handling modules: whitespace trimming, newline scanning,
//! and conversions between `&str`, `String` and `Vec<char>`.

use vstd::prelude::*;

verus! {

/// Whitespace recognized when trimming: space, tab, carriage return.
pub open spec fn is_ws(c: char) -> bool {
    c == ' ' || c == '\t' || c == '\r'
}

/// The given text without its leading whitespace.
pub open spec fn trim_start(s: Seq<char>) -> Seq<char>
    decreases s.len(),
{
    if s.len() > 0 && is_ws(s[0]) {
        trim_start(s.drop_first())
    } else {
        s
    }
}

/// The given text without its trailing whitespace.
pub open spec fn trim_end(s: Seq<char>) -> Seq<char>
    decreases s.len(),
{
    if s.len() > 0 && is_ws(s[s.len() - 1]) {
        trim_end(s.drop_last())
    } else {
        s
    }
}

/// The given text without leading and trailing whitespace.
pub open spec fn trim(s: Seq<char>) -> Seq<char> {
    trim_start(trim_end(s))
}

pub proof fn lemma_trim_start_skip(s: Seq<char>, k: int)
    requires
        0 <= k <= s.len(),
        forall|j: int| 0 <= j < k ==> is_ws(s[j]),
    ensures
        trim_start(s) == trim_start(s.skip(k)),
    decreases k,
{
    if k == 0 {
        assert(s.skip(0) =~= s);
    } else {
        assert(is_ws(s[0]));
        assert(s.drop_first().skip(k - 1) =~= s.skip(k));
        lemma_trim_start_skip(s.drop_first(), k - 1);
    }
}

pub proof fn lemma_trim_end_take(s: Seq<char>, k: int)
    requires
        0 <= k <= s.len(),
        forall|j: int| k <= j < s.len() ==> is_ws(s[j]),
    ensures
        trim_end(s) == trim_end(s.take(k)),
    decreases s.len() - k,
{
    if k == s.len() {
        assert(s.take(k) =~= s);
    } else {
        assert(is_ws(s[s.len() - 1]));
        lemma_trim_end_take(s.drop_last(), k);
        assert(s.drop_last().take(k) =~= s.take(k));
    }
}

/// Index of the first newline at or after `p`, or the length of `s`
/// if there is none.
pub open spec fn first_nl(s: Seq<char>, p: int) -> int
    decreases s.len() - p,
{
    if p >= s.len() {
        s.len() as int
    } else if s[p] == '\n' {
        p
    } else {
        first_nl(s, p + 1)
    }
}

pub proof fn lemma_first_nl(s: Seq<char>, p: int)
    requires
        0 <= p <= s.len(),
    ensures
        p <= first_nl(s, p) <= s.len(),
        first_nl(s, p) < s.len() ==> s[first_nl(s, p)] == '\n',
        forall|j: int| p <= j < first_nl(s, p) ==> s[j] != '\n',
    decreases s.len() - p,
{
    if p < s.len() && s[p] != '\n' {
        lemma_first_nl(s, p + 1);
    }
}

/// Index of the first occurrence of `c` at or after `p`, or the
/// length of `s` if there is none.
pub open spec fn find_from(s: Seq<char>, c: char, p: int) -> int
    decreases s.len() - p,
{
    if p >= s.len() {
        s.len() as int
    } else if s[p] == c {
        p
    } else {
        find_from(s, c, p + 1)
    }
}

pub proof fn lemma_find_from(s: Seq<char>, c: char, p: int)
    requires
        0 <= p <= s.len(),
    ensures
        p <= find_from(s, c, p) <= s.len(),
        find_from(s, c, p) < s.len() ==> s[find_from(s, c, p)] == c,
        forall|j: int| p <= j < find_from(s, c, p) ==> s[j] != c,
    decreases s.len() - p,
{
    if p < s.len() && s[p] != c {
        lemma_find_from(s, c, p + 1);
    }
}

/// Searching from `p` is searching the suffix at `p` from its start.
pub proof fn lemma_find_from_skip(s: Seq<char>, c: char, p: int)
    requires
        0 <= p <= s.len(),
    ensures
        find_from(s, c, p) == p + find_from(s.skip(p), c, 0),
    decreases s.len() - p,
{
    if p >= s.len() {
        assert(s.skip(p).len() == 0);
    } else if s[p] == c {
        assert(s.skip(p)[0] == c);
    } else {
        assert(s.skip(p)[0] != c);
        lemma_find_from_skip(s, c, p + 1);
        lemma_find_from_skip(s.skip(p), c, 1);
        assert(s.skip(p).skip(1) =~= s.skip(p + 1));
    }
}

/// Scans `[a, b)` of `v` for the first occurrence of `c`, reported as
/// an offset into the subrange `[a, b)` of `v`.
pub fn find_char_in(v: &Vec<char>, c: char, a: usize, b: usize) -> (r: usize)
    requires
        a <= b <= v.len(),
    ensures
        a <= r <= b,
        r - a == find_from(v@.subrange(a as int, b as int), c, 0),
{
    let ghost t = v@.subrange(a as int, b as int);
    proof {
        lemma_find_from(t, c, 0);
    }
    let mut i: usize = a;
    while i < b
        invariant
            a <= i <= b <= v.len(),
            t == v@.subrange(a as int, b as int),
            forall|j: int| a <= j < i ==> v@[j] != c,
        decreases b - i,
    {
        if v[i] == c {
            proof {
                lemma_find_from(t, c, 0);
                assert(t[i - a] == c);
                assert forall|j: int| 0 <= j < i - a implies t[j] != c by {
                    assert(t[j] == v@[a + j]);
                }
            }
            return i;
        }
        i = i + 1;
    }
    proof {
        lemma_find_from(t, c, 0);
        assert forall|j: int| 0 <= j < t.len() implies t[j] != c by {
            assert(t[j] == v@[a + j]);
        }
    }
    b
}

/// Scans forward for the next newline; the executable counterpart of
/// `first_nl`.
pub fn next_newline(v: &Vec<char>, p: usize) -> (r: usize)
    requires
        p <= v.len(),
    ensures
        r == first_nl(v@, p as int),
        p <= r <= v.len(),
{
    proof {
        lemma_first_nl(v@, p as int);
    }
    let mut i: usize = p;
    while i < v.len() && v[i] != '\n'
        invariant
            p <= i <= v.len(),
            forall|j: int| p <= j < i ==> v@[j] != '\n',
        decreases v.len() - i,
    {
        i = i + 1;
    }
    i
}

/// Copies the characters of `v` between `a` and `b`.
pub fn sub_vec(v: &Vec<char>, a: usize, b: usize) -> (r: Vec<char>)
    requires
        a <= b <= v.len(),
    ensures
        r@ == v@.subrange(a as int, b as int),
{
    let mut r: Vec<char> = Vec::new();
    let mut i: usize = a;
    while i < b
        invariant
            a <= i <= b <= v.len(),
            r@ == v@.subrange(a as int, i as int),
        decreases b - i,
    {
        let c = v[i];
        r.push(c);
        proof {
            assert(v@.subrange(a as int, i + 1 as int) =~= v@.subrange(a as int, i as int).push(
                v@[i as int],
            ));
        }
        i = i + 1;
    }
    r
}

/// Narrows `[a, b)` to the bounds of its whitespace-trimmed interior.
pub fn trim_bounds(v: &Vec<char>, a: usize, b: usize) -> (r: (usize, usize))
    requires
        a <= b <= v.len(),
    ensures
        a <= r.0 <= r.1 <= b,
        v@.subrange(r.0 as int, r.1 as int) == trim(v@.subrange(a as int, b as int)),
{
    let ghost s = v@.subrange(a as int, b as int);
    let mut y: usize = b;
    while y > a && is_ws_char(v[y - 1])
        invariant
            a <= y <= b <= v.len(),
            forall|j: int| y <= j < b ==> is_ws(v@[j]),
        decreases y,
    {
        y = y - 1;
    }
    proof {
        lemma_trim_end_take(s, y - a);
        assert(s.take(y - a) =~= v@.subrange(a as int, y as int));
        if y > a {
            assert(!is_ws(v@.subrange(a as int, y as int)[y - a - 1]));
        }
        // trim_end of the narrowed range is itself
        assert(trim_end(v@.subrange(a as int, y as int)) == v@.subrange(a as int, y as int));
    }
    let mut x: usize = a;
    while x < y && is_ws_char(v[x])
        invariant
            a <= x <= y <= v.len(),
            forall|j: int| a <= j < x ==> is_ws(v@[j]),
        decreases y - x,
    {
        x = x + 1;
    }
    proof {
        let t = v@.subrange(a as int, y as int);
        lemma_trim_start_skip(t, x - a);
        assert(t.skip(x - a) =~= v@.subrange(x as int, y as int));
        if x < y {
            assert(!is_ws(v@.subrange(x as int, y as int)[0]));
        }
        assert(trim_start(v@.subrange(x as int, y as int)) == v@.subrange(x as int, y as int));
    }
    (x, y)
}

/// Executable whitespace test matching `is_ws`.
pub fn is_ws_char(c: char) -> (r: bool)
    ensures
        r == is_ws(c),
{
    c == ' ' || c == '\t' || c == '\r'
}

/// Whether the characters of `v` between `a` and `b` are exactly `w`.
pub fn region_eq(v: &Vec<char>, a: usize, b: usize, w: &Vec<char>) -> (r: bool)
    requires
        a <= b <= v.len(),
    ensures
        r == (v@.subrange(a as int, b as int) == w@),
{
    if b - a != w.len() {
        proof {
            assert(v@.subrange(a as int, b as int).len() == b - a);
        }
        return false;
    }
    let mut i: usize = 0;
    while i < w.len()
        invariant
            0 <= i <= w.len(),
            b - a == w.len(),
            a <= b <= v.len(),
            forall|j: int| 0 <= j < i ==> v@[a + j] == w@[j],
        decreases w.len() - i,
    {
        if v[a + i] != w[i] {
            proof {
                assert(v@.subrange(a as int, b as int)[i as int] == v@[a + i]);
            }
            return false;
        }
        i = i + 1;
    }
    proof {
        assert(v@.subrange(a as int, b as int) =~= w@);
    }
    true
}

/// Collects the characters of a string slice into a vector.
pub fn to_chars(s: &str) -> (r: Vec<char>)
    ensures
        r@ == s@,
{
    let n = s.unicode_len();
    let mut r: Vec<char> = Vec::new();
    let mut i: usize = 0;
    while i < n
        invariant
            0 <= i <= n,
            n == s@.len(),
            r@ == s@.take(i as int),
        decreases n - i,
    {
        let c = s.get_char(i);
        r.push(c);
        proof {
            assert(s@.take(i + 1 as int) =~= s@.take(i as int).push(s@[i as int]));
        }
        i = i + 1;
    }
    proof {
        assert(s@.take(n as int) =~= s@);
    }
    r
}

/// Relies on `String::push`: appends one character to the string.
#[verifier::external_body]
pub fn push_char(s: &mut String, c: char)
    ensures
        final(s)@ == old(s)@.push(c),
{
    s.push(c)
}

/// Builds a string from a vector of characters.
pub fn from_chars(v: &Vec<char>) -> (r: String)
    ensures
        r@ == v@,
{
    let mut r = String::new();
    let mut i: usize = 0;
    while i < v.len()
        invariant
            0 <= i <= v.len(),
            r@ == v@.take(i as int),
        decreases v.len() - i,
    {
        push_char(&mut r, v[i]);
        proof {
            assert(v@.take(i + 1 as int) =~= v@.take(i as int).push(v@[i as int]));
        }
        i = i + 1;
    }
    proof {
        assert(v@.take(v@.len() as int) =~= v@);
    }
    r
}

} // verus!
