//! Laws of texts: trimming, lines, words, replacement and paths.

use vstd::prelude::*;

use crate::path::{
    after_last, file_name_of, file_stem_of, joined, parent_of, trimmed_path,
};
use crate::search::{begins, occurs, occurs_at, replaced};
use crate::text::{
    dark, fields_of, in_line, is_white, lemma_run_len, lemma_run_len_is, lines_of, run_len, strip_cr, trim_end,
    trim_start, trimmed, white,
};

verus! {

// ---------------------------------------------------------------------------
// White space
// ---------------------------------------------------------------------------

/// Whether all characters of a text are white space.
pub open spec fn all_white(s: Seq<char>) -> bool {
    forall|i: int| 0 <= i < s.len() ==> is_white(#[trigger] s[i])
}

/// Whether a text is a word: it is not empty, and holds no white space.
pub open spec fn is_word(s: Seq<char>) -> bool {
    s.len() > 0 && forall|i: int| 0 <= i < s.len() ==> !is_white(#[trigger] s[i])
}

/// Of the characters that one byte holds, the space and the five from the tab to the carriage return
/// are white.
pub proof fn law_ascii_white_space(c: char)
    requires
        (c as u32) < 128,
    ensures
        is_white(c) <==> c == ' ' || c == '\t' || c == '\n' || c == '\r' || c as u32 == 11
            || c as u32 == 12,
{
}

proof fn lemma_trim_end(s: Seq<char>)
    ensures
        trim_end(s).len() <= s.len(),
        trim_end(s) == s.take(trim_end(s).len() as int),
        forall|i: int| trim_end(s).len() <= i < s.len() ==> is_white(#[trigger] s[i]),
        trim_end(s).len() > 0 ==> !is_white(trim_end(s).last()),
    decreases s.len(),
{
    if s.len() > 0 && is_white(s.last()) {
        let t = s.drop_last();
        lemma_trim_end(t);
        assert(t.take(trim_end(t).len() as int) =~= s.take(trim_end(t).len() as int));
        assert forall|i: int| trim_end(s).len() <= i < s.len() implies is_white(
            #[trigger] s[i],
        ) by {
            if i < t.len() {
                assert(t[i] == s[i]);
            }
        }
    } else {
        assert(s.take(s.len() as int) =~= s);
    }
}

/// Trimming takes white space from both ends, all of it, and nothing else: what stands between is
/// kept.
pub proof fn law_trimming_takes_white_space_from_both_ends(
    a: Seq<char>,
    s: Seq<char>,
    b: Seq<char>,
)
    requires
        all_white(a),
        all_white(b),
        s.len() > 0,
        !is_white(s[0]),
        !is_white(s.last()),
    ensures
        trimmed(a + s + b) == s,
        trimmed(a).len() == 0,
        trimmed(s) == s,
{
    lemma_trimmed(a, s, b);
    let none = Seq::<char>::empty();
    lemma_trimmed(none, s, none);
    assert(none + s + none =~= s);
    lemma_run_len(a, white());
    if run_len(a, white()) < a.len() {
        assert(is_white(a[run_len(a, white()) as int]));
    }
    assert(trim_start(a) =~= none);
    assert(trim_end(none) =~= none);
}

proof fn lemma_trimmed(a: Seq<char>, s: Seq<char>, b: Seq<char>)
    requires
        all_white(a),
        all_white(b),
        s.len() > 0,
        !is_white(s[0]),
        !is_white(s.last()),
    ensures
        trimmed(a + s + b) == s,
{
    let all = a + s + b;
    lemma_run_len(all, white());
    let n = run_len(all, white()) as int;
    if n < a.len() {
        assert(all[n] == a[n]);
        assert(is_white(a[n]));
    }
    if n > a.len() {
        assert(all[a.len() as int] == s[0]);
        assert(white()(all[a.len() as int]));
    }
    let t = trim_start(all);
    assert(t =~= s + b);
    lemma_trim_end(t);
    let m = trim_end(t).len() as int;
    if m < s.len() {
        assert(t[s.len() - 1] == s.last());
    }
    if m > s.len() {
        assert(trim_end(t).last() == t[m - 1]);
        assert(t[m - 1] == b[m - 1 - s.len()]);
    }
    assert(t.take(s.len() as int) =~= s);
}

// ---------------------------------------------------------------------------
// Lines
// ---------------------------------------------------------------------------

/// Whether a text holds no line feed.
pub open spec fn is_line(s: Seq<char>) -> bool {
    forall|i: int| 0 <= i < s.len() ==> #[trigger] s[i] != '\n'
}

/// A text is cut at its line feeds, and at nothing else: what stands before the first is the first
/// line, but for one carriage return at its end, and the lines of the rest follow. What stands behind
/// the last is a line where it is not empty.
pub proof fn law_lines_are_cut_at_line_feeds(line: Seq<char>, rest: Seq<char>)
    requires
        is_line(line),
    ensures
        lines_of(line + seq!['\n'] + rest) == seq![strip_cr(line)] + lines_of(rest),
        line.len() > 0 ==> lines_of(line) == seq![line],
        lines_of(Seq::empty()).len() == 0,
{
    let all = line + seq!['\n'] + rest;
    lemma_run_len(all, in_line());
    let n = run_len(all, in_line()) as int;
    if n > line.len() {
        assert(all[line.len() as int] == '\n');
        assert(in_line()(all[line.len() as int]));
    }
    if n < line.len() {
        assert(all[n] == line[n]);
    }
    assert(all.take(n) =~= line);
    assert(all.skip(n + 1) =~= rest);
    lemma_run_len(line, in_line());
    if run_len(line, in_line()) < line.len() {
        assert(line[run_len(line, in_line()) as int] == '\n');
    }
}

/// One carriage return is taken from the end of a line, and only there.
pub proof fn law_one_carriage_return_is_taken(line: Seq<char>)
    ensures
        strip_cr(line.push('\r')) == line,
        line.len() == 0 || line.last() != '\r' ==> strip_cr(line) == line,
{
    assert(line.push('\r').drop_last() =~= line);
}

// ---------------------------------------------------------------------------
// Words
// ---------------------------------------------------------------------------

/// The words of a text stand between white space, however much: what stands before the first word
/// does not matter, a word ends at the first white space behind it, and the words of the rest follow.
pub proof fn law_words_stand_between_white_space(
    before: Seq<char>,
    word: Seq<char>,
    rest: Seq<char>,
)
    requires
        all_white(before),
        is_word(word),
        rest.len() > 0 ==> is_white(rest[0]),
    ensures
        fields_of(before + word + rest) == seq![word] + fields_of(rest),
        fields_of(before).len() == 0,
{
    let s = before + word + rest;
    assert forall|i: int| 0 <= i < before.len() implies white()(#[trigger] s[i]) by {
        assert(s[i] == before[i]);
    }
    assert(s[before.len() as int] == word[0]);
    lemma_run_len_is(s, white(), before.len());
    let tail = s.skip(before.len() as int);
    assert(tail =~= word + rest);
    assert forall|i: int| 0 <= i < word.len() implies dark()(#[trigger] tail[i]) by {
        assert(tail[i] == word[i]);
    }
    if rest.len() > 0 {
        assert(tail[word.len() as int] == rest[0]);
    }
    lemma_run_len_is(tail, dark(), word.len());
    assert(tail.take(word.len() as int) =~= word);
    assert(tail.skip(word.len() as int) =~= rest);
    assert forall|i: int| 0 <= i < before.len() implies white()(#[trigger] before[i]) by {
        assert(is_white(before[i]));
    }
    lemma_run_len_is(before, white(), before.len());
    assert(before.skip(before.len() as int).len() == 0);
}

// ---------------------------------------------------------------------------
// Replacement
// ---------------------------------------------------------------------------

/// A text stands at a place exactly where the whole is what stands before it, it, and what follows.
pub proof fn law_where_a_text_stands(a: Seq<char>, pat: Seq<char>, b: Seq<char>, s: Seq<char>, i: int)
    ensures
        occurs_at(a + pat + b, pat, a.len() as int),
        begins(pat + b, pat),
        occurs_at(s, pat, i) ==> 0 <= i && i + pat.len() <= s.len() && s == s.take(i) + pat + s.skip(
            i + pat.len(),
        ),
{
    assert((a + pat + b).subrange(a.len() as int, (a.len() + pat.len()) as int) =~= pat);
    assert((pat + b).subrange(0, pat.len() as int) =~= pat);
    if occurs_at(s, pat, i) {
        let t = s.take(i) + pat + s.skip(i + pat.len());
        assert forall|k: int| 0 <= k < s.len() implies t[k] == s[k] by {
            if i <= k < i + pat.len() {
                assert(s.subrange(i, i + pat.len())[k - i] == s[k]);
            }
        }
        assert(s =~= t);
    }
}

/// The first occurrence is replaced, what stands before it stays, and the rest is replaced in turn;
/// a text without an occurrence stays as it is.
pub proof fn law_every_occurrence_is_replaced(
    s: Seq<char>,
    pat: Seq<char>,
    rep: Seq<char>,
    i: int,
)
    requires
        pat.len() > 0,
    ensures
        occurs_at(s, pat, i) && (forall|k: int| 0 <= k < i ==> !occurs_at(s, pat, k)) ==> replaced(
            s,
            pat,
            rep,
        ) == s.take(i) + rep + replaced(s.skip(i + pat.len()), pat, rep),
        !occurs(s, pat) ==> replaced(s, pat, rep) == s,
    decreases s.len(),
{
    if s.len() > 0 && !begins(s, pat) {
        let t = s.drop_first();
        assert forall|k: int| occurs_at(t, pat, k) implies occurs_at(s, pat, k + 1) by {
            assert(t.subrange(k, k + pat.len()) =~= s.subrange(k + 1, k + 1 + pat.len()));
        }
        law_every_occurrence_is_replaced(t, pat, rep, i - 1);
        if occurs_at(s, pat, i) && (forall|k: int| 0 <= k < i ==> !occurs_at(s, pat, k)) {
            assert(i > 0);
            assert(t.subrange(i - 1, i - 1 + pat.len()) =~= s.subrange(i, i + pat.len()));
            assert(occurs_at(t, pat, i - 1));
            assert forall|k: int| 0 <= k < i - 1 implies !occurs_at(t, pat, k) by {
                assert(!occurs_at(s, pat, k + 1));
            }
            let tail = replaced(s.skip(i + pat.len()), pat, rep);
            assert(t.skip(i - 1 + pat.len()) =~= s.skip(i + pat.len()));
            assert(seq![s[0]] + (t.take(i - 1) + rep + tail) =~= s.take(i) + rep + tail);
        }
        if !occurs(s, pat) {
            assert forall|k: int| !occurs_at(t, pat, k) by {
                assert(!occurs_at(s, pat, k + 1));
            }
            assert(seq![s[0]] + t =~= s);
        }
    } else if s.len() > 0 {
        if occurs_at(s, pat, i) && (forall|k: int| 0 <= k < i ==> !occurs_at(s, pat, k)) {
            assert(i == 0) by {
                if i > 0 {
                    assert(!occurs_at(s, pat, 0));
                }
            }
            assert(s.take(0) + rep =~= rep);
        }
        assert(occurs_at(s, pat, 0));
    }
}

// ---------------------------------------------------------------------------
// Paths
// ---------------------------------------------------------------------------

/// A name that is not absolute stands below the directory, behind exactly one separator; one that is
/// absolute stands for itself.
pub proof fn law_names_stand_below_the_directory(base: Seq<char>, name: Seq<char>)
    ensures
        name.len() > 0 && name[0] == '/' ==> joined(base, name) == name,
        name.len() == 0 || name[0] != '/' ==> {
            let s = joined(base, name);
            &&& s.len() == base.len() + name.len() + if base.len() == 0 || base.last() == '/' {
                0int
            } else {
                1int
            }
            &&& s.take(base.len() as int) == base
            &&& s.skip(s.len() - name.len()) == name
            &&& base.len() > 0 ==> s[s.len() - name.len() - 1] == '/'
        },
{
    if name.len() == 0 || name[0] != '/' {
        let s = joined(base, name);
        assert(s.take(base.len() as int) =~= base);
        assert(s.skip(s.len() - name.len()) =~= name);
    }
}

/// Whether a text can be the name of a file: it is not empty, holds no separator, and is neither of
/// the two names that stand for directories.
pub open spec fn is_name(name: Seq<char>) -> bool {
    name.len() > 0 && name != seq!['.'] && name != seq!['.', '.'] && forall|i: int|
        0 <= i < name.len() ==> #[trigger] name[i] != '/'
}

proof fn lemma_after_last_without(s: Seq<char>, c: char)
    requires
        forall|i: int| 0 <= i < s.len() ==> #[trigger] s[i] != c,
    ensures
        after_last(s, c) == 0,
    decreases s.len(),
{
    if s.len() > 0 {
        assert(s[s.len() - 1] != c);
        lemma_after_last_without(s.drop_last(), c);
    }
}

proof fn lemma_after_last_behind(a: Seq<char>, c: char, b: Seq<char>)
    requires
        forall|i: int| 0 <= i < b.len() ==> #[trigger] b[i] != c,
    ensures
        after_last(a + seq![c] + b, c) == a.len() + 1,
    decreases b.len(),
{
    let s = a + seq![c] + b;
    if b.len() > 0 {
        assert(s.last() == b[b.len() - 1]);
        assert(s.drop_last() =~= a + seq![c] + b.drop_last());
        lemma_after_last_behind(a, c, b.drop_last());
    }
}

/// The name of a file in a directory is found again, wherever the directory is, and separators at the
/// end do not matter.
pub proof fn law_names_are_found_again(dir: Seq<char>, name: Seq<char>)
    requires
        is_name(name),
    ensures
        file_name_of(name) == Some(name),
        file_name_of(dir + seq!['/'] + name) == Some(name),
        file_name_of(dir + seq!['/'] + name + seq!['/']) == Some(name),
        file_name_of(seq!['/']) is None,
        file_name_of(Seq::empty()) is None,
        parent_of(seq!['/']) is None,
        parent_of(Seq::empty()) is None,
        parent_of(name) == Some(Seq::<char>::empty()),
{
    lemma_after_last_without(name, '/');
    assert(name[name.len() - 1] != '/');
    if name.len() > 1 {
        assert(name[name.len() - 2] != '/');
    }
    assert(trimmed_path(name) == name);
    assert(name.skip(0) =~= name);
    let s = dir + seq!['/'] + name;
    assert(s.last() == name.last());
    if s.last() == '.' && s[s.len() - 2] == '/' {
        if name.len() > 1 {
            assert(s[s.len() - 2] == name[name.len() - 2]);
        }
        assert(name =~= seq!['.']);
    }
    assert(trimmed_path(s) == s);
    lemma_after_last_behind(dir, '/', name);
    assert(s.skip(dir.len() as int + 1) =~= name);
    let t = s + seq!['/'];
    assert(t.drop_last() =~= s);
    assert(trimmed_path(t) == s);
    let root = seq!['/'];
    assert(root.last() == '/');
    assert(after_last(root, '/') == 1);
    assert(root.skip(1).len() == 0);
    if name == root {
        assert(name[0] == '/');
    }
    assert(name.take(0) =~= Seq::<char>::empty());
}

/// The stem of a name is what stands before its last dot; a name without one, or with none but its
/// first character, is its own stem.
pub proof fn law_stem_stands_before_the_last_dot(stem: Seq<char>, ext: Seq<char>)
    requires
        stem.len() > 0,
        is_name(stem + seq!['.'] + ext),
        forall|i: int| 0 <= i < ext.len() ==> #[trigger] ext[i] != '.',
    ensures
        file_stem_of(stem + seq!['.'] + ext) == Some(stem),
        is_name(ext) ==> file_stem_of(ext) == Some(ext),
        is_name(seq!['.'] + ext) ==> file_stem_of(seq!['.'] + ext) == Some(seq!['.'] + ext),
{
    let name = stem + seq!['.'] + ext;
    law_names_are_found_again(Seq::empty(), name);
    lemma_after_last_behind(stem, '.', ext);
    assert(name.take(stem.len() as int) =~= stem);
    if is_name(ext) {
        law_names_are_found_again(Seq::empty(), ext);
        lemma_after_last_without(ext, '.');
    }
    let hidden = seq!['.'] + ext;
    if is_name(hidden) {
        law_names_are_found_again(Seq::empty(), hidden);
        lemma_after_last_behind(Seq::empty(), '.', ext);
        assert(Seq::<char>::empty() + seq!['.'] + ext =~= hidden);
    }
}

}
