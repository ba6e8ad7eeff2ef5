//! Unix paths as text.

use vstd::prelude::*;

use crate::text::{concat, from_chars, to_chars};

verus! {

/// The path of `rel` below `base`: `rel` itself where it is absolute, otherwise both with exactly
/// one separator added where `base` is not empty and does not end in one.
pub open spec fn joined(base: Seq<char>, rel: Seq<char>) -> Seq<char> {
    if rel.len() > 0 && rel[0] == '/' {
        rel
    } else if base.len() == 0 || base.last() == '/' {
        base + rel
    } else {
        base + seq!['/'] + rel
    }
}

/// The path of `rel` below `base`.
pub fn join(base: &str, rel: &str) -> (r: String)
    ensures
        r@ == joined(base@, rel@),
{
    let b = to_chars(base);
    let v = to_chars(rel);
    if v.len() > 0 && v[0] == '/' {
        rel.to_owned()
    } else if b.len() == 0 || b[b.len() - 1] == '/' {
        concat(base, rel)
    } else {
        let mut s = base.to_owned();
        s.push('/');
        s.append(rel);
        assert(s@ =~= base@ + seq!['/'] + rel@);
        s
    }
}

/// A path without the separators and the `.` components at its end, but for what is the whole
/// path.
pub open spec fn trimmed_path(s: Seq<char>) -> Seq<char>
    decreases s.len(),
{
    if s.len() > 1 && (s.last() == '/' || (s.last() == '.' && s[s.len() - 2] == '/')) {
        trimmed_path(s.drop_last())
    } else {
        s
    }
}

/// Where the part of a text behind the last occurrence of a character begins; at zero where the
/// character does not occur.
pub open spec fn after_last(s: Seq<char>, c: char) -> int
    decreases s.len(),
{
    if s.len() == 0 {
        0
    } else if s.last() == c {
        s.len() as int
    } else {
        after_last(s.drop_last(), c)
    }
}

/// The last component of a path, where it is a name: not the root, `.` or `..`.
pub open spec fn file_name_of(s: Seq<char>) -> Option<Seq<char>> {
    let t = trimmed_path(s);
    let name = t.skip(after_last(t, '/'));
    if name.len() == 0 || name == seq!['.'] || name == seq!['.', '.'] {
        None
    } else {
        Some(name)
    }
}

/// The last component of a path without its extension: what stands before the last dot, unless
/// there is none or the name only begins with it.
pub open spec fn file_stem_of(s: Seq<char>) -> Option<Seq<char>> {
    match file_name_of(s) {
        None => None,
        Some(name) => {
            let n = after_last(name, '.');
            if n <= 1 {
                Some(name)
            } else {
                Some(name.take(n - 1))
            }
        },
    }
}

/// The path without its last component; `None` for the root and the empty path.
pub open spec fn parent_of(s: Seq<char>) -> Option<Seq<char>> {
    let t = trimmed_path(s);
    if t.len() == 0 || t == seq!['/'] {
        None
    } else {
        Some(trimmed_path(t.take(after_last(t, '/'))))
    }
}

/// The length of a prefix of characters once it is trimmed as a path.
fn trimmed_len(v: &Vec<char>, len: usize) -> (n: usize)
    requires
        len <= v@.len(),
    ensures
        n <= len,
        trimmed_path(v@.take(len as int)) == v@.take(n as int),
{
    let mut n: usize = len;
    while n > 1 && (v[n - 1] == '/' || (v[n - 1] == '.' && v[n - 2] == '/'))
        invariant
            n <= len <= v@.len(),
            trimmed_path(v@.take(len as int)) == trimmed_path(v@.take(n as int)),
        decreases n,
    {
        assert(v@.take(n as int).drop_last() =~= v@.take(n as int - 1));
        n = n - 1;
    }
    n
}

/// Where the part of a range of characters behind the last occurrence of one begins, counted from
/// the start of the range.
fn find_after_last(v: &Vec<char>, lo: usize, hi: usize, c: char) -> (n: usize)
    requires
        lo <= hi <= v@.len(),
    ensures
        n == after_last(v@.subrange(lo as int, hi as int), c),
        n <= hi - lo,
{
    let mut n: usize = hi - lo;
    while n > 0 && v[lo + n - 1] != c
        invariant
            lo + n <= hi <= v@.len(),
            after_last(v@.subrange(lo as int, hi as int), c) == after_last(
                v@.subrange(lo as int, lo + n),
                c,
            ),
        decreases n,
    {
        assert(v@.subrange(lo as int, lo + n).drop_last() =~= v@.subrange(lo as int, lo + n - 1));
        n = n - 1;
    }
    n
}

/// The last component of a path without its extension.
pub fn file_stem(path: &str) -> (r: Option<String>)
    ensures
        match r {
            Some(stem) => file_stem_of(path@) == Some(stem@),
            None => file_stem_of(path@) is None,
        },
{
    let v = to_chars(path);
    assert(v@.take(v@.len() as int) =~= path@);
    let hi: usize = trimmed_len(&v, v.len());
    let ghost t = v@.take(hi as int);
    assert(t =~= v@.subrange(0, hi as int));
    let lo: usize = find_after_last(&v, 0, hi, '/');
    let ghost name = t.skip(lo as int);
    assert(name =~= v@.subrange(lo as int, hi as int));
    let len: usize = hi - lo;
    if len == 0 || (len == 1 && v[lo] == '.') || (len == 2 && v[lo] == '.' && v[lo + 1] == '.') {
        assert(name.len() == 0 || name =~= seq!['.'] || name =~= seq!['.', '.']);
        return None;
    }
    proof {
        if name == seq!['.'] {
            assert(name[0] == '.');
        }
        if name == seq!['.', '.'] {
            assert(name[0] == '.' && name[1] == '.');
        }
    }
    let dot: usize = find_after_last(&v, lo, hi, '.');
    if dot <= 1 {
        Some(from_chars(&v, lo, hi))
    } else {
        assert(name.take(dot as int - 1) =~= v@.subrange(lo as int, lo + dot - 1));
        Some(from_chars(&v, lo, lo + dot - 1))
    }
}

/// The path without its last component.
pub fn parent(path: &str) -> (r: Option<String>)
    ensures
        match r {
            Some(p) => parent_of(path@) == Some(p@),
            None => parent_of(path@) is None,
        },
{
    let v = to_chars(path);
    assert(v@.take(v@.len() as int) =~= path@);
    let hi: usize = trimmed_len(&v, v.len());
    let ghost t = v@.take(hi as int);
    assert(t =~= v@.subrange(0, hi as int));
    if hi == 0 || (hi == 1 && v[0] == '/') {
        assert(t.len() == 0 || t =~= seq!['/']);
        return None;
    }
    proof {
        if t == seq!['/'] {
            assert(t[0] == '/');
        }
    }
    let cut: usize = find_after_last(&v, 0, hi, '/');
    assert(t.take(cut as int) =~= v@.take(cut as int));
    let end: usize = trimmed_len(&v, cut);
    assert(v@.take(end as int) =~= v@.subrange(0, end as int));
    Some(from_chars(&v, 0, end))
}

/// A name directly below a directory that is not trimmed away has that directory as its parent.
pub proof fn law_parent_of_joined(base: Seq<char>, name: Seq<char>)
    requires
        base.len() > 0,
        trimmed_path(base) == base,
        base.last() != '/',
        name.len() > 0,
        forall|i: int| 0 <= i < name.len() ==> #[trigger] name[i] != '/',
        name != seq!['.'],
    ensures
        parent_of(joined(base, name)) == Some(base),
{
    let s = joined(base, name);
    assert(s =~= base + seq!['/'] + name);
    assert(s.last() == name.last());
    if s.last() == '.' && s[s.len() - 2] == '/' {
        if name.len() > 1 {
            assert(s[s.len() - 2] == name[name.len() - 2]);
        }
        assert(name =~= seq!['.']);
    }
    assert(trimmed_path(s) == s);
    lemma_after_last_join(base, name);
    assert(s.take(base.len() as int + 1) =~= base.push('/'));
    assert(base.push('/').drop_last() =~= base);
    if s == seq!['/'] {
        assert(s.len() == 1);
    }
}

proof fn lemma_after_last_join(base: Seq<char>, name: Seq<char>)
    requires
        forall|i: int| 0 <= i < name.len() ==> #[trigger] name[i] != '/',
    ensures
        after_last(base + seq!['/'] + name, '/') == base.len() + 1,
    decreases name.len(),
{
    let s = base + seq!['/'] + name;
    if name.len() > 0 {
        assert(s.drop_last() =~= base + seq!['/'] + name.drop_last());
        assert(s.last() == name.last());
        lemma_after_last_join(base, name.drop_last());
    }
}

}
