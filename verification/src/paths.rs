//! Path classification and output-path computation, over paths
//! modeled as plain strings with `/` as the component separator.

use vstd::prelude::*;

use crate::text::{from_chars, region_eq, sub_vec, to_chars};

verus! {

/// The characters of the `json` extension.
pub open spec fn json_chars() -> Seq<char> {
    seq!['j', 's', 'o', 'n']
}

/// Index of the last occurrence of `c` in `s`, or `-1` if there is none.
pub open spec fn find_last(s: Seq<char>, c: char) -> int
    decreases s.len(),
{
    if s.len() == 0 {
        -1
    } else if s[s.len() - 1] == c {
        s.len() - 1
    } else {
        find_last(s.drop_last(), c)
    }
}

pub proof fn lemma_find_last(s: Seq<char>, c: char)
    ensures
        -1 <= find_last(s, c) < s.len(),
        find_last(s, c) >= 0 ==> s[find_last(s, c)] == c,
        forall|j: int| find_last(s, c) < j < s.len() ==> s[j] != c,
    decreases s.len(),
{
    if s.len() > 0 && s[s.len() - 1] != c {
        lemma_find_last(s.drop_last(), c);
        assert forall|j: int| find_last(s, c) < j < s.len() implies s[j] != c by {
            if j < s.len() - 1 {
                assert(s[j] == s.drop_last()[j]);
            }
        }
    }
}

/// Scans backward for the last occurrence of `c`; the executable
/// counterpart of `find_last`.
pub fn rfind_char(v: &Vec<char>, c: char) -> (r: Option<usize>)
    ensures
        match r {
            Some(i) => i == find_last(v@, c) && i < v.len(),
            None => find_last(v@, c) == -1,
        },
{
    proof {
        lemma_find_last(v@, c);
    }
    let mut i: usize = v.len();
    while i > 0
        invariant
            i <= v.len(),
            forall|j: int| i <= j < v.len() ==> v@[j] != c,
        decreases i,
    {
        i = i - 1;
        if v[i] == c {
            proof {
                lemma_find_last(v@, c);
            }
            return Some(i);
        }
    }
    None
}

/// The final component of a path: everything after its last `/`.
pub open spec fn last_component(p: Seq<char>) -> Seq<char> {
    p.subrange(find_last(p, '/') + 1, p.len() as int)
}

/// Start of the extension inside a file name: the position after the
/// last `.`, provided that dot is neither the leading character of
/// the name (a hidden file has no extension from its leading dot) nor
/// absent altogether.
pub open spec fn extension_start(name: Seq<char>) -> Option<int> {
    let d = find_last(name, '.');
    if d <= 0 {
        None
    } else {
        Some(d + 1)
    }
}

/// The extension of a path's file name, if it has one.
pub open spec fn extension_of(p: Seq<char>) -> Option<Seq<char>> {
    let name = last_component(p);
    match extension_start(name) {
        Some(d) => Some(name.subrange(d, name.len() as int)),
        None => None,
    }
}

/// Case-insensitive match against `md`.
pub open spec fn is_md_ext(e: Seq<char>) -> bool {
    e.len() == 2 && (e[0] == 'm' || e[0] == 'M') && (e[1] == 'd' || e[1] == 'D')
}

/// Case-insensitive match against `markdown`.
pub open spec fn is_markdown_ext(e: Seq<char>) -> bool {
    e.len() == 8 && (e[0] == 'm' || e[0] == 'M') && (e[1] == 'a' || e[1] == 'A') && (e[2] == 'r'
        || e[2] == 'R') && (e[3] == 'k' || e[3] == 'K') && (e[4] == 'd' || e[4] == 'D') && (e[5]
        == 'o' || e[5] == 'O') && (e[6] == 'w' || e[6] == 'W') && (e[7] == 'n' || e[7] == 'N')
}

/// Whether the path names a markdown file: its extension, compared
/// case-insensitively, is `md` or `markdown`.
pub open spec fn spec_is_markdown(p: Seq<char>) -> bool {
    match extension_of(p) {
        Some(e) => is_md_ext(e) || is_markdown_ext(e),
        None => false,
    }
}

/// Decides whether a path is a markdown file by its extension,
/// case-insensitively; a path without an extension never is.
pub fn is_markdown(path: &str) -> (r: bool)
    ensures
        r == spec_is_markdown(path@),
{
    let v = to_chars(path);
    let name_start: usize = match rfind_char(&v, '/') {
        Some(i) => i + 1,
        None => 0,
    };
    let name = sub_vec(&v, name_start, v.len());
    proof {
        assert(name@ =~= last_component(path@));
    }
    let d = match rfind_char(&name, '.') {
        Some(i) => i,
        None => return false,
    };
    if d == 0 {
        return false;
    }
    proof {
        lemma_find_last(name@, '.');
    }
    let ghost e = last_component(path@).subrange(d + 1, last_component(path@).len() as int);
    let elen = name.len() - (d + 1);
    if elen == 2 {
        let r = (name[d + 1] == 'm' || name[d + 1] == 'M') && (name[d + 2] == 'd' || name[d + 2]
            == 'D');
        proof {
            assert(e[0] == name@[d + 1]);
            assert(e[1] == name@[d + 2]);
        }
        r
    } else if elen == 8 {
        let r = (name[d + 1] == 'm' || name[d + 1] == 'M') && (name[d + 2] == 'a' || name[d + 2]
            == 'A') && (name[d + 3] == 'r' || name[d + 3] == 'R') && (name[d + 4] == 'k' || name[d
            + 4] == 'K') && (name[d + 5] == 'd' || name[d + 5] == 'D') && (name[d + 6] == 'o'
            || name[d + 6] == 'O') && (name[d + 7] == 'w' || name[d + 7] == 'W') && (name[d + 8]
            == 'n' || name[d + 8] == 'N');
        proof {
            assert(forall|k: int| 0 <= k < 8 ==> e[k] == name@[d + 1 + k]);
        }
        r
    } else {
        false
    }
}

/// The path made relative to a base: the base, as a component-wise
/// prefix, is removed together with the separator after it; a path
/// that the base does not prefix is returned unchanged.
pub open spec fn spec_rel_path(p: Seq<char>, d: Seq<char>) -> Seq<char> {
    if d.len() == 0 {
        p
    } else if p == d {
        Seq::<char>::empty()
    } else if d[d.len() - 1] == '/' && p.len() >= d.len() && p.take(d.len() as int) == d {
        p.skip(d.len() as int)
    } else if p.len() > d.len() && p.take(d.len() as int) == d && p[d.len() as int] == '/' {
        p.skip(d.len() as int + 1)
    } else {
        p
    }
}

/// Joining a relative path under a base directory; an absolute path
/// replaces the base entirely.
pub open spec fn spec_join(d: Seq<char>, r: Seq<char>) -> Seq<char> {
    if r.len() > 0 && r[0] == '/' {
        r
    } else if d.len() == 0 {
        r
    } else if d[d.len() - 1] == '/' {
        d + r
    } else {
        d + seq!['/'] + r
    }
}

/// The path with its extension replaced by `json`; a path without an
/// extension gets `.json` appended.
pub open spec fn spec_with_json_ext(p: Seq<char>) -> Seq<char> {
    let sl = find_last(p, '/');
    let name = last_component(p);
    match extension_start(name) {
        Some(ds) => p.take(sl + 1 + ds) + json_chars(),
        None => p + seq!['.'] + json_chars(),
    }
}

/// The output path of a document: its source path relative to `cwd`,
/// joined under `dist`, with the extension replaced by `json`.
pub open spec fn spec_output_path(p: Seq<char>, cwd: Seq<char>, dist: Seq<char>) -> Seq<char> {
    spec_with_json_ext(spec_join(dist, spec_rel_path(p, cwd)))
}

/// Appends the characters of `v` between `a` and `b` to `out`.
fn append_region(out: &mut Vec<char>, v: &Vec<char>, a: usize, b: usize)
    requires
        a <= b <= v.len(),
    ensures
        final(out)@ == old(out)@ + v@.subrange(a as int, b as int),
{
    let mut i: usize = a;
    while i < b
        invariant
            a <= i <= b <= v.len(),
            out@ == old(out)@ + v@.subrange(a as int, i as int),
        decreases b - i,
    {
        out.push(v[i]);
        proof {
            assert(old(out)@ + v@.subrange(a as int, i + 1 as int) =~= (old(out)@ + v@.subrange(
                a as int,
                i as int,
            )).push(v@[i as int]));
        }
        i = i + 1;
    }
    proof {
        assert(out@ =~= old(out)@ + v@.subrange(a as int, b as int));
    }
}

/// The relative form of `p` with respect to base `d`, as characters.
fn rel_chars(p: &Vec<char>, d: &Vec<char>) -> (r: Vec<char>)
    ensures
        r@ == spec_rel_path(p@, d@),
{
    if d.len() == 0 {
        return sub_vec(p, 0, p.len());
    }
    if p.len() == d.len() && region_eq(p, 0, p.len(), d) {
        proof {
            assert(p@.subrange(0, p@.len() as int) =~= p@);
        }
        return Vec::new();
    }
    proof {
        if p@.len() == d@.len() && p@.take(d@.len() as int) == d@ {
            assert(p@.take(d@.len() as int) =~= p@);
        }
    }
    if d[d.len() - 1] == '/' && p.len() >= d.len() && region_eq(p, 0, d.len(), d) {
        proof {
            assert(p@.subrange(0, d@.len() as int) =~= p@.take(d@.len() as int));
        }
        return sub_vec(p, d.len(), p.len());
    }
    if p.len() > d.len() && region_eq(p, 0, d.len(), d) && p[d.len()] == '/' {
        proof {
            assert(p@.subrange(0, d@.len() as int) =~= p@.take(d@.len() as int));
        }
        return sub_vec(p, d.len() + 1, p.len());
    }
    proof {
        if p@.len() >= d@.len() {
            assert(p@.subrange(0, d@.len() as int) =~= p@.take(d@.len() as int));
        }
        assert(p@.subrange(0, p@.len() as int) =~= p@);
    }
    sub_vec(p, 0, p.len())
}

/// The join of a relative path under a base, as characters.
fn join_chars(d: &Vec<char>, r: &Vec<char>) -> (out: Vec<char>)
    ensures
        out@ == spec_join(d@, r@),
{
    if r.len() > 0 && r[0] == '/' {
        return sub_vec(r, 0, r.len());
    }
    if d.len() == 0 {
        return sub_vec(r, 0, r.len());
    }
    let mut out: Vec<char> = Vec::new();
    append_region(&mut out, d, 0, d.len());
    proof {
        assert(d@.subrange(0, d@.len() as int) =~= d@);
        assert(Seq::<char>::empty() + d@ =~= d@);
    }
    if d[d.len() - 1] != '/' {
        out.push('/');
        proof {
            assert(d@.push('/') =~= d@ + seq!['/']);
        }
    }
    append_region(&mut out, r, 0, r.len());
    proof {
        assert(r@.subrange(0, r@.len() as int) =~= r@);
        assert(out@ =~= spec_join(d@, r@));
    }
    out
}

/// The path with its extension replaced by `json`, as characters.
fn with_json_ext_chars(v: &Vec<char>) -> (out: Vec<char>)
    ensures
        out@ == spec_with_json_ext(v@),
{
    let name_start: usize = match rfind_char(v, '/') {
        Some(i) => i + 1,
        None => 0,
    };
    let name = sub_vec(v, name_start, v.len());
    proof {
        assert(name@ =~= last_component(v@));
    }
    let mut out: Vec<char>;
    let mut has_ext = false;
    let mut keep: usize = 0;
    match rfind_char(&name, '.') {
        Some(d) => {
            if d > 0 {
                has_ext = true;
                keep = name_start + d + 1;
            }
        },
        None => {},
    }
    if has_ext {
        out = sub_vec(v, 0, keep);
        proof {
            assert(v@.subrange(0, keep as int) =~= v@.take(keep as int));
        }
    } else {
        out = sub_vec(v, 0, v.len());
        out.push('.');
        proof {
            assert(v@.subrange(0, v@.len() as int) =~= v@);
            assert(v@.push('.') =~= v@ + seq!['.']);
        }
    }
    let ghost base = out@;
    out.push('j');
    out.push('s');
    out.push('o');
    out.push('n');
    proof {
        assert(out@ =~= base + json_chars());
    }
    out
}

/// Computes the path, relative to a base directory, under which a
/// serialized document is referred to; a path the base does not
/// prefix stays as it is.
pub fn relative_json_path(path: &str, base: &str) -> (r: String)
    ensures
        r@ == spec_rel_path(path@, base@),
{
    let p = to_chars(path);
    let d = to_chars(base);
    let out = rel_chars(&p, &d);
    from_chars(&out)
}

/// Computes where a document discovered at `path` is written: the
/// path made relative to `cwd`, joined under the `dist` directory,
/// with its extension replaced by `json`.
pub fn output_path_for(path: &str, cwd: &str, dist: &str) -> (r: String)
    ensures
        r@ == spec_output_path(path@, cwd@, dist@),
{
    let p = to_chars(path);
    let c = to_chars(cwd);
    let d = to_chars(dist);
    let rel = rel_chars(&p, &c);
    let joined = join_chars(&d, &rel);
    let out = with_json_ext_chars(&joined);
    from_chars(&out)
}

} // verus!
