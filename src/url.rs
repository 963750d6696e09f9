//! Base URLs, the URLs built from them, and the last name of a path.
use crate::text::{chars_of, trim_bounds, trim_spec};
use vstd::prelude::*;

verus! {

/// `"/dldir.txt"`, the suffix that a base URL may carry.
pub open spec fn manifest_suffix() -> Seq<char> {
    seq!['/', 'd', 'l', 'd', 'i', 'r', '.', 't', 'x', 't']
}

/// `"dldir.txt"`.
pub open spec fn manifest_name() -> Seq<char> {
    manifest_suffix().drop_first()
}

/// `s` without its trailing `"/dldir.txt"`, if it ends in one.
pub open spec fn strip_manifest_suffix(s: Seq<char>) -> Seq<char> {
    if s.len() >= 10 && s.subrange(s.len() - 10, s.len() as int) == manifest_suffix() {
        s.subrange(0, s.len() - 10)
    } else {
        s
    }
}

/// `s` with every trailing `'/'` removed.
pub open spec fn strip_slashes(s: Seq<char>) -> Seq<char>
    decreases s.len(),
{
    if s.len() > 0 && s.last() == '/' {
        strip_slashes(s.drop_last())
    } else {
        s
    }
}

/// A base URL as the tool uses it: trimmed of white space, then of one
/// trailing `"/dldir.txt"`, then of every trailing slash.
pub open spec fn sanitized_spec(s: Seq<char>) -> Seq<char> {
    strip_slashes(strip_manifest_suffix(trim_spec(s)))
}

/// Whether `v[b - 10..b]` is `"/dldir.txt"`.
fn ends_with_manifest_suffix(v: &Vec<char>, b: usize) -> (r: bool)
    requires
        b <= v@.len(),
    ensures
        r == (b >= 10 && v@.subrange(b - 10, b as int) == manifest_suffix()),
{
    if b < 10 {
        return false;
    }
    let s = b - 10;
    let r = v[s] == '/' && v[s + 1] == 'd' && v[s + 2] == 'l' && v[s + 3] == 'd' && v[s + 4] == 'i'
        && v[s + 5] == 'r' && v[s + 6] == '.' && v[s + 7] == 't' && v[s + 8] == 'x' && v[s + 9]
        == 't';
    if r {
        assert(v@.subrange(s as int, b as int) =~= manifest_suffix());
    } else {
        assert(v@.subrange(s as int, b as int) != manifest_suffix()) by {
            if v@.subrange(s as int, b as int) == manifest_suffix() {
                assert(v@.subrange(s as int, b as int)[0] == v@[s as int]);
            }
        }
    }
    r
}

/// The base URL that the manifest and the files are fetched under: `url`
/// trimmed of white space, then of one trailing `"/dldir.txt"` if it has
/// one, then of every trailing `'/'`.
pub fn sanitized_url(url: &str) -> (r: &str)
    ensures
        r@ == sanitized_spec(url@),
{
    let v = chars_of(url);
    let (a, b0) = trim_bounds(&v);
    let mut b = b0;
    if ends_with_manifest_suffix(&v, b) && b - 10 >= a {
        assert(v@.subrange(a as int, b - 10) =~= v@.subrange(a as int, b as int).subrange(
            0,
            b - 10 - a,
        ));
        assert(v@.subrange(a as int, b as int).subrange(b - 10 - a, b - a) =~= v@.subrange(
            b - 10,
            b as int,
        ));
        b = b - 10;
    } else {
        proof {
            let u = v@.subrange(a as int, b as int);
            if u.len() >= 10 {
                assert(u.subrange(u.len() - 10, u.len() as int) =~= v@.subrange(b - 10, b as int));
            }
        }
    }
    let ghost m = v@.subrange(a as int, b as int);
    while b > a && v[b - 1] == '/'
        invariant
            a <= b <= v@.len(),
            strip_slashes(m) == strip_slashes(v@.subrange(a as int, b as int)),
        decreases b,
    {
        assert(v@.subrange(a as int, b - 1) =~= v@.subrange(a as int, b as int).drop_last());
        b = b - 1;
    }
    url.substring_char(a, b)
}

/// The URL of the manifest under the base URL `base`.
pub fn manifest_url(base: &str) -> (r: String)
    ensures
        r@ == base@ + manifest_suffix(),
{
    let mut r = base.to_owned();
    r.append("/dldir.txt");
    proof {
        reveal_strlit("/dldir.txt");
    }
    assert(r@ =~= base@ + manifest_suffix());
    r
}

/// The URL of the file at `path` under the base URL `base`.
pub fn file_url(base: &str, path: &str) -> (r: String)
    ensures
        r@ == base@ + seq!['/'] + path@,
{
    let mut r = base.to_owned();
    r.append("/");
    proof {
        reveal_strlit("/");
    }
    r.append(path);
    r
}

/// `s` without trailing separators and trailing `"."` components, the parts
/// that the last name of a path skips.
pub open spec fn strip_tail(s: Seq<char>) -> Seq<char>
    decreases s.len(),
{
    if s.len() > 0 && (s.last() == '/' || (s.last() == '.' && (s.len() == 1 || s[s.len() - 2]
        == '/'))) {
        strip_tail(s.drop_last())
    } else {
        s
    }
}

/// The text after the last `'/'` of `s`.
pub open spec fn last_piece(s: Seq<char>) -> Seq<char>
    decreases s.len(),
{
    if s.len() == 0 || s.last() == '/' {
        Seq::empty()
    } else {
        last_piece(s.drop_last()).push(s.last())
    }
}

/// The last name of a path, as `Path::file_name` gives it, or empty where the
/// path ends in no name (empty, a root, or `".."`).
pub open spec fn filename_spec(s: Seq<char>) -> Seq<char> {
    let p = last_piece(strip_tail(s));
    if p == seq!['.', '.'] {
        Seq::empty()
    } else {
        p
    }
}

/// The last name of `path`: trailing separators and `"."` components are
/// skipped; a path that ends in `".."` or has no name gives `""`.
pub fn filename(path: &str) -> (r: &str)
    ensures
        r@ == filename_spec(path@),
{
    let v = chars_of(path);
    let mut end: usize = v.len();
    assert(v@.subrange(0, end as int) =~= v@);
    while end > 0 && (v[end - 1] == '/' || (v[end - 1] == '.' && (end == 1 || v[end - 2] == '/')))
        invariant
            end <= v@.len(),
            strip_tail(v@) == strip_tail(v@.subrange(0, end as int)),
        decreases end,
    {
        assert(v@.subrange(0, end - 1) =~= v@.subrange(0, end as int).drop_last());
        end = end - 1;
    }
    assert(strip_tail(v@) == v@.subrange(0, end as int));
    let mut start: usize = end;
    while start > 0 && v[start - 1] != '/'
        invariant
            start <= end <= v@.len(),
            last_piece(v@.subrange(0, end as int)) == last_piece(v@.subrange(0, start as int))
                + v@.subrange(start as int, end as int),
        decreases start,
    {
        let ghost u = v@.subrange(0, start as int);
        assert(v@.subrange(0, start - 1) =~= u.drop_last());
        assert(v@.subrange(start - 1, end as int) =~= seq![u.last()] + v@.subrange(
            start as int,
            end as int,
        ));
        assert(last_piece(u) == last_piece(u.drop_last()).push(u.last()));
        assert(last_piece(u.drop_last()).push(u.last()) + v@.subrange(start as int, end as int)
            =~= last_piece(u.drop_last()) + v@.subrange(start - 1, end as int));
        start = start - 1;
    }
    assert(last_piece(v@.subrange(0, start as int)) =~= Seq::<char>::empty());
    assert(last_piece(v@.subrange(0, end as int)) =~= v@.subrange(start as int, end as int));
    if end - start == 2 && v[start] == '.' && v[start + 1] == '.' {
        assert(v@.subrange(start as int, end as int) =~= seq!['.', '.']);
        path.substring_char(0, 0)
    } else {
        proof {
            if v@.subrange(start as int, end as int) == seq!['.', '.'] {
                assert(v@.subrange(start as int, end as int)[0] == v@[start as int]);
                assert(v@.subrange(start as int, end as int)[1] == v@[start + 1]);
            }
        }
        path.substring_char(start, end)
    }
}

} // verus!
