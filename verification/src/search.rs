//! Substrings: prefixes, occurrences and replacement.

use vstd::prelude::*;

use crate::text::{from_chars, to_chars};

verus! {

/// Whether `pat` stands in `s` at position `i`.
pub open spec fn occurs_at(s: Seq<char>, pat: Seq<char>, i: int) -> bool {
    0 <= i && i + pat.len() <= s.len() && s.subrange(i, i + pat.len()) == pat
}

/// Whether `pat` stands somewhere in `s`.
pub open spec fn occurs(s: Seq<char>, pat: Seq<char>) -> bool {
    exists|i: int| occurs_at(s, pat, i)
}

/// Whether `s` begins with `pat`.
pub open spec fn begins(s: Seq<char>, pat: Seq<char>) -> bool {
    occurs_at(s, pat, 0)
}

/// `s` with every occurrence of the non-empty `pat` replaced by `rep`, from left to right and
/// without overlap.
pub open spec fn replaced(s: Seq<char>, pat: Seq<char>, rep: Seq<char>) -> Seq<char>
    decreases s.len(),
{
    if s.len() == 0 || pat.len() == 0 {
        s
    } else if begins(s, pat) {
        rep + replaced(s.skip(pat.len() as int), pat, rep)
    } else {
        seq![s[0]] + replaced(s.drop_first(), pat, rep)
    }
}

fn stands_at(s: &Vec<char>, pat: &Vec<char>, i: usize) -> (r: bool)
    requires
        i <= s@.len(),
    ensures
        r == occurs_at(s@, pat@, i as int),
{
    let n: usize = s.len();
    if pat.len() > n - i {
        return false;
    }
    let mut k: usize = 0;
    while k < pat.len()
        invariant
            n == s@.len(),
            i + pat@.len() <= n,
            k <= pat@.len(),
            forall|j: int| 0 <= j < k ==> s@[i + j] == #[trigger] pat@[j],
        decreases pat.len() - k,
    {
        if s[i + k] != pat[k] {
            assert(s@.subrange(i as int, i + pat@.len())[k as int] != pat@[k as int]);
            return false;
        }
        k = k + 1;
    }
    assert(s@.subrange(i as int, i + pat@.len()) =~= pat@);
    true
}

/// Whether `s` begins with `pat`.
pub fn starts_with(s: &str, pat: &str) -> (r: bool)
    ensures
        r == begins(s@, pat@),
{
    let v = to_chars(s);
    let p = to_chars(pat);
    stands_at(&v, &p, 0)
}

/// What follows `pat` in `s`, where `s` begins with it.
pub fn strip_prefix(s: &str, pat: &str) -> (r: Option<String>)
    ensures
        match r {
            Some(rest) => begins(s@, pat@) && rest@ == s@.skip(pat@.len() as int),
            None => !begins(s@, pat@),
        },
{
    let v = to_chars(s);
    let p = to_chars(pat);
    if stands_at(&v, &p, 0) {
        let n: usize = v.len();
        let rest = from_chars(&v, p.len(), n);
        assert(rest@ =~= s@.skip(pat@.len() as int));
        Some(rest)
    } else {
        None
    }
}

/// Whether `pat` stands somewhere in `s`.
pub fn contains(s: &str, pat: &str) -> (r: bool)
    ensures
        r == occurs(s@, pat@),
{
    let v = to_chars(s);
    let p = to_chars(pat);
    let mut i: usize = 0;
    loop
        invariant
            v@ == s@,
            p@ == pat@,
            i <= v@.len(),
            forall|k: int| 0 <= k < i ==> !occurs_at(s@, pat@, k),
        decreases v.len() - i,
    {
        if stands_at(&v, &p, i) {
            return true;
        }
        if i == v.len() {
            assert forall|k: int| !occurs_at(s@, pat@, k) by {}
            return false;
        }
        i = i + 1;
    }
}

/// `s` with every occurrence of the non-empty `pat` replaced by `rep`.
pub fn replace(s: &str, pat: &str, rep: &str) -> (r: String)
    requires
        pat@.len() > 0,
    ensures
        r@ == replaced(s@, pat@, rep@),
{
    let v = to_chars(s);
    let p = to_chars(pat);
    let mut out = String::new();
    let mut i: usize = 0;
    assert(v@.skip(0) =~= v@);
    assert(out@ + replaced(v@.skip(0), pat@, rep@) =~= replaced(s@, pat@, rep@));
    while i < v.len()
        invariant
            v@ == s@,
            p@ == pat@,
            pat@.len() > 0,
            i <= v@.len(),
            out@ + replaced(v@.skip(i as int), pat@, rep@) == replaced(s@, pat@, rep@),
        decreases v.len() - i,
    {
        let ghost tail = v@.skip(i as int);
        let ghost before = out@;
        if stands_at(&v, &p, i) {
            assert(begins(tail, pat@)) by {
                assert(tail.subrange(0, pat@.len() as int) =~= v@.subrange(
                    i as int,
                    i + pat@.len(),
                ));
            }
            out.append(rep);
            i = i + p.len();
            proof {
                assert(tail.skip(pat@.len() as int) =~= v@.skip(i as int));
                assert(out@ + replaced(v@.skip(i as int), pat@, rep@) =~= before + (rep@
                    + replaced(v@.skip(i as int), pat@, rep@)));
            }
        } else {
            assert(!begins(tail, pat@)) by {
                if begins(tail, pat@) {
                    assert(tail.subrange(0, pat@.len() as int) =~= v@.subrange(
                        i as int,
                        i + pat@.len(),
                    ));
                }
            }
            out.push(v[i]);
            i = i + 1;
            proof {
                assert(tail.drop_first() =~= v@.skip(i as int));
                assert(out@ + replaced(v@.skip(i as int), pat@, rep@) =~= before + (seq![tail[0]]
                    + replaced(v@.skip(i as int), pat@, rep@)));
            }
        }
    }
    assert(v@.skip(i as int) =~= Seq::<char>::empty());
    assert(out@ + Seq::<char>::empty() =~= out@);
    out
}

}
