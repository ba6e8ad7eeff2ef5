//! Names and places of the groups of pods.

use vstd::prelude::*;

use crate::path::{join, joined};
use crate::search::{begins, occurs_at};
use crate::text::{concat, to_chars};

verus! {

/// The greatest length of the part of a group's name that comes from the pod's UID.
pub const MAX_UID_LEN: usize = 63;

/// The characters of a UID that a group's name keeps.
pub open spec fn is_uid_char(c: char) -> bool {
    ||| 'a' <= c <= 'z'
    ||| 'A' <= c <= 'Z'
    ||| '0' <= c <= '9'
    ||| c == '-'
    ||| c == '_'
}

/// The part of a group's name that comes from a pod's UID: the kept characters, cut at
/// [`MAX_UID_LEN`], or `unknown` where nothing is kept.
pub open spec fn sanitized(uid: Seq<char>) -> Seq<char> {
    let kept = uid.filter(|c: char| is_uid_char(c));
    if kept.len() == 0 {
        "unknown"@
    } else if kept.len() > MAX_UID_LEN {
        kept.take(MAX_UID_LEN as int)
    } else {
        kept
    }
}

/// The name of the group of a pod.
pub open spec fn group_name_of(prefix: Seq<char>, uid: Seq<char>) -> Seq<char> {
    prefix + sanitized(uid)
}

/// The directory of monitoring groups below the resctrl root.
pub open spec fn mon_groups_of(root: Seq<char>) -> Seq<char> {
    joined(root, "mon_groups"@)
}

/// The place of the group of a pod.
pub open spec fn group_path_of(root: Seq<char>, prefix: Seq<char>, uid: Seq<char>) -> Seq<char> {
    joined(mon_groups_of(root), group_name_of(prefix, uid))
}

fn keep(c: char) -> (r: bool)
    ensures
        r == is_uid_char(c),
{
    ('a' <= c && c <= 'z') || ('A' <= c && c <= 'Z') || ('0' <= c && c <= '9') || c == '-' || c
        == '_'
}

/// The part of a group's name that comes from a pod's UID.
pub fn sanitize_uid(uid: &str) -> (r: String)
    ensures
        r@ == sanitized(uid@),
{
    let v = to_chars(uid);
    let ghost p = |c: char| is_uid_char(c);
    let mut out = String::new();
    let mut n: usize = 0;
    let mut i: usize = 0;
    proof {
        assert(v@.take(0).filter(p) =~= Seq::<char>::empty()) by {
            reveal(Seq::filter);
        }
    }
    while i < v.len()
        invariant
            i <= v@.len(),
            p == (|c: char| is_uid_char(c)),
            v@ == uid@,
            n == out@.len(),
            n <= MAX_UID_LEN,
            n < MAX_UID_LEN ==> out@ == v@.take(i as int).filter(p),
            n == MAX_UID_LEN ==> {
                &&& v@.take(i as int).filter(p).len() >= MAX_UID_LEN
                &&& out@ == v@.take(i as int).filter(p).take(MAX_UID_LEN as int)
            },
        decreases v.len() - i,
    {
        let c: char = v[i];
        proof {
            reveal(Seq::filter);
            assert(v@.take(i as int + 1).drop_last() =~= v@.take(i as int));
        }
        if n < MAX_UID_LEN && keep(c) {
            out.push(c);
            n = n + 1;
            assert(n == MAX_UID_LEN ==> out@ =~= v@.take(i as int + 1).filter(p).take(
                MAX_UID_LEN as int,
            ));
        } else if n == MAX_UID_LEN {
            assert(v@.take(i as int + 1).filter(p).take(MAX_UID_LEN as int) =~= v@.take(
                i as int,
            ).filter(p).take(MAX_UID_LEN as int));
        }
        i = i + 1;
    }
    assert(v@.take(v@.len() as int) =~= v@);
    if n == 0 {
        "unknown".to_owned()
    } else {
        assert(n == MAX_UID_LEN ==> uid@.filter(p).take(uid@.filter(p).len() as int) =~= uid@.filter(
            p,
        ));
        out
    }
}

/// The name of the group of a pod.
pub fn group_name(prefix: &str, pod_uid: &str) -> (r: String)
    ensures
        r@ == group_name_of(prefix@, pod_uid@),
{
    let uid = sanitize_uid(pod_uid);
    concat(prefix, uid.as_str())
}

/// The directory of monitoring groups below the resctrl root.
pub fn mon_groups(root: &str) -> (r: String)
    ensures
        r@ == mon_groups_of(root@),
{
    join(root, "mon_groups")
}

/// The place of the group of a pod.
pub fn group_path(root: &str, prefix: &str, pod_uid: &str) -> (r: String)
    ensures
        r@ == group_path_of(root@, prefix@, pod_uid@),
{
    let dir = mon_groups(root);
    let name = group_name(prefix, pod_uid);
    join(dir.as_str(), name.as_str())
}

proof fn lemma_filter_all(s: Seq<char>, p: spec_fn(char) -> bool)
    ensures
        forall|i: int| 0 <= i < s.filter(p).len() ==> p(#[trigger] s.filter(p)[i]),
        (forall|i: int| 0 <= i < s.len() ==> p(#[trigger] s[i])) ==> s.filter(p) == s,
    decreases s.len(),
{
    reveal(Seq::filter);
    if s.len() > 0 {
        lemma_filter_all(s.drop_last(), p);
        if forall|i: int| 0 <= i < s.len() ==> p(#[trigger] s[i]) {
            assert forall|i: int| 0 <= i < s.drop_last().len() implies p(
                #[trigger] s.drop_last()[i],
            ) by {
                assert(p(s[i]));
            }
            assert(p(s[s.len() - 1]));
            assert(s.drop_last().push(s.last()) =~= s);
        }
    } else {
        assert(s.filter(p) =~= s);
    }
}

proof fn lemma_unknown()
    ensures
        "unknown"@.len() == 7,
        forall|i: int| 0 <= i < 7 ==> is_uid_char(#[trigger] "unknown"@[i]),
{
    reveal_strlit("unknown");
}

/// What comes from a UID has between one and [`MAX_UID_LEN`] characters, each a letter, a digit,
/// a hyphen or an underscore.
pub proof fn law_sanitized_form(uid: Seq<char>)
    ensures
        1 <= sanitized(uid).len() <= MAX_UID_LEN,
        forall|i: int| 0 <= i < sanitized(uid).len() ==> is_uid_char(#[trigger] sanitized(uid)[i]),
{
    lemma_unknown();
    lemma_filter_all(uid, |c: char| is_uid_char(c));
}

/// A UID that already has the form of a sanitized one is kept as it is.
pub proof fn law_sanitized_keeps_clean(uid: Seq<char>)
    requires
        1 <= uid.len() <= MAX_UID_LEN,
        forall|i: int| 0 <= i < uid.len() ==> is_uid_char(#[trigger] uid[i]),
    ensures
        sanitized(uid) == uid,
{
    lemma_filter_all(uid, |c: char| is_uid_char(c));
}

/// Sanitizing twice is sanitizing once.
pub proof fn law_sanitized_idempotent(uid: Seq<char>)
    ensures
        sanitized(sanitized(uid)) == sanitized(uid),
{
    law_sanitized_form(uid);
    law_sanitized_keeps_clean(sanitized(uid));
}

/// Characters that a group's name does not keep do not matter, wherever they stand in a UID; where
/// nothing else is left, the name says so.
pub proof fn law_other_characters_do_not_matter(a: Seq<char>, c: char, b: Seq<char>)
    requires
        !is_uid_char(c),
    ensures
        sanitized(a + seq![c] + b) == sanitized(a + b),
        sanitized(Seq::empty()) == "unknown"@,
{
    let p = |x: char| is_uid_char(x);
    reveal(Seq::filter);
    let none = Seq::<char>::empty();
    assert(none.filter(p) =~= none);
    let one = seq![c];
    assert(one.drop_last() =~= none);
    assert(one.last() == c);
    assert(one.filter(p) == one.drop_last().filter(p));
    Seq::filter_distributes_over_add(a + one, b, p);
    Seq::filter_distributes_over_add(a, one, p);
    Seq::filter_distributes_over_add(a, b, p);
    assert(a.filter(p) + one.filter(p) =~= a.filter(p));
}

/// A UID of characters that are kept is cut behind the sixty-third, and what stands behind that does
/// not matter.
pub proof fn law_long_uids_are_cut(uid: Seq<char>, more: Seq<char>)
    requires
        uid.len() == 63,
        forall|i: int| 0 <= i < uid.len() ==> is_uid_char(#[trigger] uid[i]),
    ensures
        sanitized(uid + more) == uid,
{
    let p = |x: char| is_uid_char(x);
    Seq::filter_distributes_over_add(uid, more, p);
    lemma_filter_all(uid, p);
    assert((uid + more.filter(p)).take(63) =~= uid);
    if more.filter(p).len() == 0 {
        assert(uid + more.filter(p) =~= uid);
    }
}

/// Letters and digits of the first hundred and twenty-eight characters are kept, and the hyphen and
/// the underscore, and no others.
pub proof fn law_which_characters_are_kept(c: char)
    ensures
        is_uid_char(c) <==> c == '-' || c == '_' || 48 <= c as u32 <= 57 || 65 <= c as u32 <= 90 || 97
            <= c as u32 <= 122,
{
}

/// Behind the prefix, the name of a group holds what comes from the UID.
pub proof fn law_group_name_holds_the_uid(prefix: Seq<char>, uid: Seq<char>)
    ensures
        group_name_of(prefix, uid).skip(prefix.len() as int) == sanitized(uid),
{
    assert(group_name_of(prefix, uid).skip(prefix.len() as int) =~= sanitized(uid));
}

/// The name of every group begins with the prefix that it was made with.
pub proof fn law_group_name_has_prefix(prefix: Seq<char>, uid: Seq<char>)
    ensures
        begins(group_name_of(prefix, uid), prefix),
{
    assert(group_name_of(prefix, uid).subrange(0, prefix.len() as int) =~= prefix);
    assert(occurs_at(group_name_of(prefix, uid), prefix, 0));
}

/// Where the prefix holds no separator, every group is an immediate child of the directory of
/// monitoring groups, whatever the UID holds.
pub proof fn law_group_path_is_child(root: Seq<char>, prefix: Seq<char>, uid: Seq<char>)
    requires
        forall|i: int| 0 <= i < prefix.len() ==> prefix[i] != '/',
    ensures
        group_path_of(root, prefix, uid) == mon_groups_of(root) + seq!['/'] + group_name_of(
            prefix,
            uid,
        ),
        forall|i: int|
            0 <= i < group_name_of(prefix, uid).len() ==> #[trigger] group_name_of(prefix, uid)[i]
                != '/',
{
    law_sanitized_form(uid);
    let name = group_name_of(prefix, uid);
    assert forall|i: int| 0 <= i < name.len() implies #[trigger] name[i] != '/' by {
        if i >= prefix.len() {
            assert(name[i] == sanitized(uid)[i - prefix.len()]);
        }
    }
    reveal_strlit("mon_groups");
    assert("mon_groups"@.last() == 's');
    assert(mon_groups_of(root).last() == 's');
}

}
