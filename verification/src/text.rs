//! Text primitives: lines, fields, trimming, substring search and replacement, decimal integers.
//!
//! Every function is specified over `Seq<char>`, the view that strings have in contracts.

use vstd::prelude::*;
use vstd::utf8::{decode_utf8, valid_utf8};

verus! {

/// `String::push` appends the given character to the end of the string.
pub assume_specification[ String::push ](s: &mut String, c: char)
    ensures
        final(s)@ == old(s)@.push(c),
;

/// The text that bytes are, where each maximal part that is no UTF-8 stands for a replacement
/// character.
pub uninterp spec fn lossy_text(bytes: Seq<u8>) -> Seq<char>;

/// The text that bytes are: `String::from_utf8_lossy`. Bytes that are UTF-8 are decoded as they
/// stand.
#[verifier::external_body]
pub(crate) fn text_from_bytes(bytes: &[u8]) -> (r: String)
    ensures
        r@ == lossy_text(bytes@),
        valid_utf8(bytes@) ==> r@ == decode_utf8(bytes@),
{
    String::from_utf8_lossy(bytes).to_string()
}

/// A text that may be missing, as a value.
pub open spec fn opt_view(s: Option<String>) -> Option<Seq<char>> {
    match s {
        Some(t) => Some(t@),
        None => None,
    }
}

/// The characters of a string, in order.
pub fn to_chars(s: &str) -> (v: Vec<char>)
    ensures
        v@ == s@,
{
    let mut v: Vec<char> = Vec::new();
    for c in it: s.chars()
        invariant
            it.seq() == s@,
            v@ == s@.take(it.index() as int),
    {
        v.push(c);
    }
    v
}

/// The string made of the characters of `v` from `lo` up to (not including) `hi`.
pub fn from_chars(v: &Vec<char>, lo: usize, hi: usize) -> (s: String)
    requires
        lo <= hi <= v@.len(),
    ensures
        s@ == v@.subrange(lo as int, hi as int),
{
    let mut s = String::new();
    let mut i: usize = lo;
    while i < hi
        invariant
            lo <= i <= hi <= v@.len(),
            s@ == v@.subrange(lo as int, i as int),
        decreases hi - i,
    {
        s.push(v[i]);
        i = i + 1;
    }
    s
}

/// Whether two strings hold the same characters.
pub fn str_eq(a: &str, b: &str) -> (same: bool)
    ensures
        same == (a@ == b@),
{
    let x = to_chars(a);
    let y = to_chars(b);
    if x.len() != y.len() {
        return false;
    }
    let mut i: usize = 0;
    while i < x.len()
        invariant
            i <= x.len(),
            x@.len() == y@.len(),
            x@ == a@,
            y@ == b@,
            forall|k: int| 0 <= k < i ==> x@[k] == y@[k],
        decreases x.len() - i,
    {
        if x[i] != y[i] {
            return false;
        }
        i = i + 1;
    }
    assert(x@ =~= y@);
    true
}

/// The concatenation of two strings.
pub fn concat(a: &str, b: &str) -> (s: String)
    ensures
        s@ == a@ + b@,
{
    let mut s = a.to_owned();
    s.append(b);
    s
}

/// The views of a sequence of strings.
pub open spec fn views(v: Seq<String>) -> Seq<Seq<char>> {
    v.map_values(|s: String| s@)
}

// ---------------------------------------------------------------------------
// Runs of characters
// ---------------------------------------------------------------------------

/// The characters with the Unicode `White_Space` property.
pub open spec fn is_white(c: char) -> bool {
    let u = c as u32;
    ||| 0x09 <= u <= 0x0d
    ||| u == 0x20
    ||| u == 0x85
    ||| u == 0xa0
    ||| u == 0x1680
    ||| 0x2000 <= u <= 0x200a
    ||| u == 0x2028
    ||| u == 0x2029
    ||| u == 0x202f
    ||| u == 0x205f
    ||| u == 0x3000
}

/// Whether a character is white space.
pub fn char_is_white(c: char) -> (r: bool)
    ensures
        r == is_white(c),
{
    let u: u32 = c as u32;
    (0x09 <= u && u <= 0x0d) || u == 0x20 || u == 0x85 || u == 0xa0 || u == 0x1680 || (0x2000 <= u
        && u <= 0x200a) || u == 0x2028 || u == 0x2029 || u == 0x202f || u == 0x205f || u == 0x3000
}

/// The length of the longest prefix of `s` all of whose characters satisfy `p`.
pub open spec fn run_len(s: Seq<char>, p: spec_fn(char) -> bool) -> nat
    decreases s.len(),
{
    if s.len() > 0 && p(s[0]) {
        1 + run_len(s.drop_first(), p)
    } else {
        0
    }
}

/// The run is a prefix of `s`, all of it satisfies `p`, and it cannot be extended.
pub proof fn lemma_run_len(s: Seq<char>, p: spec_fn(char) -> bool)
    ensures
        run_len(s, p) <= s.len(),
        forall|i: int| 0 <= i < run_len(s, p) ==> p(#[trigger] s[i]),
        run_len(s, p) < s.len() ==> !p(s[run_len(s, p) as int]),
    decreases s.len(),
{
    if s.len() > 0 && p(s[0]) {
        let t = s.drop_first();
        lemma_run_len(t, p);
        assert forall|i: int| 0 <= i < run_len(s, p) implies p(#[trigger] s[i]) by {
            if i > 0 {
                assert(s[i] == t[i - 1]);
            }
        }
        if run_len(s, p) < s.len() {
            assert(s[run_len(s, p) as int] == t[run_len(t, p) as int]);
        }
    }
}

/// Only one length has the properties of the longest run.
pub proof fn lemma_run_len_is(s: Seq<char>, p: spec_fn(char) -> bool, n: nat)
    requires
        n <= s.len(),
        forall|i: int| 0 <= i < n ==> p(#[trigger] s[i]),
        n < s.len() ==> !p(s[n as int]),
    ensures
        run_len(s, p) == n,
{
    lemma_run_len(s, p);
    let m = run_len(s, p);
    if m < n {
        assert(p(s[m as int]));
    } else if n < m {
        assert(p(s[n as int]));
    }
}

/// White space, as a predicate for runs.
pub open spec fn white() -> spec_fn(char) -> bool {
    |c: char| is_white(c)
}

/// Anything but white space, as a predicate for runs.
pub open spec fn dark() -> spec_fn(char) -> bool {
    |c: char| !is_white(c)
}

/// Anything but a line feed, as a predicate for runs.
pub open spec fn in_line() -> spec_fn(char) -> bool {
    |c: char| c != '\n'
}

// ---------------------------------------------------------------------------
// Trimming
// ---------------------------------------------------------------------------

/// `s` without its leading white space.
pub open spec fn trim_start(s: Seq<char>) -> Seq<char> {
    s.skip(run_len(s, white()) as int)
}

/// `s` without its trailing white space.
pub open spec fn trim_end(s: Seq<char>) -> Seq<char>
    decreases s.len(),
{
    if s.len() > 0 && is_white(s.last()) {
        trim_end(s.drop_last())
    } else {
        s
    }
}

/// `s` without leading and trailing white space.
pub open spec fn trimmed(s: Seq<char>) -> Seq<char> {
    trim_end(trim_start(s))
}

/// The string without leading and trailing white space.
pub fn trim(s: &str) -> (r: String)
    ensures
        r@ == trimmed(s@),
{
    let v = to_chars(s);
    let mut lo: usize = 0;
    while lo < v.len() && char_is_white(v[lo])
        invariant
            lo <= v@.len(),
            forall|k: int| 0 <= k < lo ==> is_white(#[trigger] v@[k]),
        decreases v.len() - lo,
    {
        lo = lo + 1;
    }
    proof {
        lemma_run_len_is(v@, white(), lo as nat);
    }
    let mut hi: usize = v.len();
    assert(v@.subrange(lo as int, hi as int) =~= v@.skip(lo as int));
    while hi > lo && char_is_white(v[hi - 1])
        invariant
            lo <= hi <= v@.len(),
            trim_end(v@.subrange(lo as int, hi as int)) == trim_end(v@.skip(lo as int)),
        decreases hi,
    {
        assert(v@.subrange(lo as int, hi as int).drop_last() =~= v@.subrange(
            lo as int,
            hi as int - 1,
        ));
        hi = hi - 1;
    }
    from_chars(&v, lo, hi)
}

// ---------------------------------------------------------------------------
// Lines and fields
// ---------------------------------------------------------------------------

/// `s` without one trailing carriage return.
pub open spec fn strip_cr(s: Seq<char>) -> Seq<char> {
    if s.len() > 0 && s.last() == '\r' {
        s.drop_last()
    } else {
        s
    }
}

/// The lines of a text: the pieces that end in a line feed, without it and without a carriage
/// return before it, and what follows the last line feed where that is not empty.
pub open spec fn lines_of(s: Seq<char>) -> Seq<Seq<char>>
    decreases s.len(),
{
    if s.len() == 0 {
        Seq::empty()
    } else {
        let n = run_len(s, in_line());
        if n >= s.len() {
            seq![s]
        } else {
            seq![strip_cr(s.take(n as int))] + lines_of(s.skip(n as int + 1))
        }
    }
}

/// The lines of a text.
pub fn lines(s: &str) -> (r: Vec<String>)
    ensures
        views(r@) == lines_of(s@),
{
    let v = to_chars(s);
    let mut out: Vec<String> = Vec::new();
    let mut pos: usize = 0;
    assert(v@.skip(0) =~= v@);
    assert(views(out@) =~= Seq::<Seq<char>>::empty());
    assert(views(out@) + lines_of(v@.skip(0)) =~= lines_of(s@));
    while pos < v.len()
        invariant
            pos <= v@.len(),
            v@ == s@,
            views(out@) + lines_of(v@.skip(pos as int)) == lines_of(s@),
        decreases v.len() - pos,
    {
        let mut end: usize = pos;
        while end < v.len() && v[end] != '\n'
            invariant
                pos <= end <= v@.len(),
                forall|k: int| pos <= k < end ==> #[trigger] v@[k] != '\n',
            decreases v.len() - end,
        {
            end = end + 1;
        }
        let ghost rest = v@.skip(pos as int);
        let ghost before = out@;
        proof {
            lemma_run_len_is(rest, in_line(), (end - pos) as nat);
        }
        if end == v.len() {
            let line = from_chars(&v, pos, end);
            out.push(line);
            proof {
                assert(line@ =~= rest);
                assert(views(out@) =~= views(before) + seq![rest]);
                assert(v@.skip(end as int) =~= Seq::<char>::empty());
                assert(views(out@) + lines_of(v@.skip(end as int)) =~= views(before) + lines_of(
                    rest,
                ));
            }
            pos = end;
        } else {
            let cut: usize = if end > pos && v[end - 1] == '\r' {
                end - 1
            } else {
                end
            };
            let line = from_chars(&v, pos, cut);
            out.push(line);
            proof {
                let n = (end - pos) as int;
                assert(rest.take(n) =~= v@.subrange(pos as int, end as int));
                assert(line@ =~= strip_cr(rest.take(n)));
                assert(views(out@) =~= views(before) + seq![line@]);
                assert(rest.skip(n + 1) =~= v@.skip(end as int + 1));
                assert(views(out@) + lines_of(v@.skip(end as int + 1)) =~= views(before) + (
                seq![line@] + lines_of(rest.skip(n + 1))));
            }
            pos = end + 1;
        }
    }
    proof {
        assert(v@.skip(pos as int) =~= Seq::<char>::empty());
        assert(views(out@) + lines_of(v@.skip(pos as int)) =~= views(out@));
    }
    out
}

/// The maximal pieces of a text without white space, in order.
pub open spec fn fields_of(s: Seq<char>) -> Seq<Seq<char>>
    decreases s.len(),
    via fields_of_decreases
{
    let start = run_len(s, white());
    let rest = s.skip(start as int);
    if rest.len() == 0 {
        Seq::empty()
    } else {
        let n = run_len(rest, dark());
        seq![rest.take(n as int)] + fields_of(rest.skip(n as int))
    }
}

#[via_fn]
proof fn fields_of_decreases(s: Seq<char>) {
    let start = run_len(s, white());
    let rest = s.skip(start as int);
    lemma_run_len(s, white());
    lemma_run_len(rest, dark());
    if rest.len() > 0 {
        assert(rest[0] == s[start as int]);
        assert(run_len(rest, dark()) >= 1);
    }
}

/// The fields of a text that white space separates.
pub fn fields(s: &str) -> (r: Vec<String>)
    ensures
        views(r@) == fields_of(s@),
{
    let v = to_chars(s);
    let mut out: Vec<String> = Vec::new();
    let mut pos: usize = 0;
    assert(v@.skip(0) =~= v@);
    assert(views(out@) =~= Seq::<Seq<char>>::empty());
    assert(views(out@) + fields_of(v@.skip(0)) =~= fields_of(s@));
    loop
        invariant
            pos <= v@.len(),
            v@ == s@,
            views(out@) + fields_of(v@.skip(pos as int)) == fields_of(s@),
        decreases v.len() - pos,
    {
        let ghost tail = v@.skip(pos as int);
        let mut lo: usize = pos;
        while lo < v.len() && char_is_white(v[lo])
            invariant
                pos <= lo <= v@.len(),
                forall|k: int| pos <= k < lo ==> is_white(#[trigger] v@[k]),
            decreases v.len() - lo,
        {
            lo = lo + 1;
        }
        proof {
            lemma_run_len_is(tail, white(), (lo - pos) as nat);
            assert(tail.skip((lo - pos) as int) =~= v@.skip(lo as int));
        }
        if lo == v.len() {
            assert(views(out@) + fields_of(tail) =~= views(out@));
            return out;
        }
        let mut hi: usize = lo;
        while hi < v.len() && !char_is_white(v[hi])
            invariant
                lo <= hi <= v@.len(),
                forall|k: int| lo <= k < hi ==> !is_white(#[trigger] v@[k]),
            decreases v.len() - hi,
        {
            hi = hi + 1;
        }
        let ghost rest = v@.skip(lo as int);
        let ghost before = out@;
        let word = from_chars(&v, lo, hi);
        out.push(word);
        proof {
            let n = (hi - lo) as int;
            lemma_run_len_is(rest, dark(), n as nat);
            assert(n >= 1) by {
                if hi == lo {
                    assert(is_white(v@[lo as int]));
                }
            }
            assert(word@ =~= rest.take(n));
            assert(views(out@) =~= views(before) + seq![word@]);
            assert(rest.skip(n) =~= v@.skip(hi as int));
            assert(views(out@) + fields_of(v@.skip(hi as int)) =~= views(before) + (seq![word@]
                + fields_of(rest.skip(n))));
        }
        pos = hi;
    }
}

}
