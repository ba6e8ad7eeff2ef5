//! Access to the filesystem.

use vstd::prelude::*;

use crate::resctrl::error::{IoError, IoErrorView};
use crate::text::views;

verus! {

/// One call of a filesystem provider, with its arguments and its answer.
#[allow(inconsistent_fields)]
pub enum FsEvent {
    PathExists { path: Seq<char>, found: bool },
    CreateDir { path: Seq<char>, answer: Result<(), IoErrorView> },
    RemoveDir { path: Seq<char>, answer: Result<(), IoErrorView> },
    WriteStr { path: Seq<char>, data: Seq<char>, answer: Result<(), IoErrorView> },
    ReadToString { path: Seq<char>, answer: Result<Seq<char>, IoErrorView> },
    CheckWritable { path: Seq<char>, answer: Result<(), IoErrorView> },
    ReadChildDirs { path: Seq<char>, answer: Result<Seq<Seq<char>>, IoErrorView> },
    Mount { target: Seq<char>, answer: Result<(), IoErrorView> },
}

/// What an answer without content says.
pub open spec fn unit_answer(r: Result<(), IoError>) -> Result<(), IoErrorView> {
    match r {
        Ok(()) => Ok(()),
        Err(e) => Err(e@),
    }
}

/// What an answer with a text says.
pub open spec fn text_answer(r: Result<String, IoError>) -> Result<Seq<char>, IoErrorView> {
    match r {
        Ok(s) => Ok(s@),
        Err(e) => Err(e@),
    }
}

/// What an answer with a list of names says.
pub open spec fn names_answer(r: Result<Vec<String>, IoError>) -> Result<
    Seq<Seq<char>>,
    IoErrorView,
> {
    match r {
        Ok(v) => Ok(views(v@)),
        Err(e) => Err(e@),
    }
}

/// The filesystem operations that resctrl needs. Paths are Unix paths.
///
/// `history` is the sequence of the calls made so far. No method promises anything of its
/// answer; each one adds itself, with its arguments and its answer, to the history.
///
/// An implementation that is verified gives `history` a body of its own. The default stands for
/// one that keeps no record: what is proved of its calls is then proved of a history that is only
/// thought of.
pub trait FsProvider: Clone + Send + Sync + 'static {
    /// The calls so far.
    open spec fn history(&self) -> Seq<FsEvent> {
        arbitrary()
    }

    /// Whether something exists at the path.
    fn path_exists(&mut self, p: &str) -> (found: bool)
        ensures
            final(self).history() == old(self).history().push(
                (FsEvent::PathExists { path: p@, found }),
            ),
    ;

    /// Creates a directory.
    fn create_dir(&mut self, p: &str) -> (r: Result<(), IoError>)
        ensures
            final(self).history() == old(self).history().push(
                (FsEvent::CreateDir { path: p@, answer: unit_answer(r) }),
            ),
    ;

    /// Removes a directory.
    fn remove_dir(&mut self, p: &str) -> (r: Result<(), IoError>)
        ensures
            final(self).history() == old(self).history().push(
                (FsEvent::RemoveDir { path: p@, answer: unit_answer(r) }),
            ),
    ;

    /// Writes a text to an existing file.
    fn write_str(&mut self, p: &str, data: &str) -> (r: Result<(), IoError>)
        ensures
            final(self).history() == old(self).history().push(
                (FsEvent::WriteStr { path: p@, data: data@, answer: unit_answer(r) }),
            ),
    ;

    /// Reads a file as text.
    fn read_to_string(&mut self, p: &str) -> (r: Result<String, IoError>)
        ensures
            final(self).history() == old(self).history().push(
                (FsEvent::ReadToString { path: p@, answer: text_answer(r) }),
            ),
    ;

    /// Whether a file can be opened for writing. Nothing is written.
    fn check_can_open_for_write(&mut self, p: &str) -> (r: Result<(), IoError>)
        ensures
            final(self).history() == old(self).history().push(
                (FsEvent::CheckWritable { path: p@, answer: unit_answer(r) }),
            ),
    ;

    /// The names of the directories directly below a directory.
    fn read_child_dirs(&mut self, p: &str) -> (r: Result<Vec<String>, IoError>)
        ensures
            final(self).history() == old(self).history().push(
                (FsEvent::ReadChildDirs { path: p@, answer: names_answer(r) }),
            ),
    ;

    /// Mounts the resctrl filesystem at a directory.
    fn mount_resctrl(&mut self, target: &str) -> (r: Result<(), IoError>)
        ensures
            final(self).history() == old(self).history().push(
                (FsEvent::Mount { target: target@, answer: unit_answer(r) }),
            ),
    ;
}

/// The calls made between two points of a history.
pub open spec fn since<T>(before: Seq<T>, after: Seq<T>) -> Seq<T> {
    after.skip(before.len() as int)
}

/// Whether one history continues another.
pub open spec fn continues<T>(before: Seq<T>, after: Seq<T>) -> bool {
    before.len() <= after.len() && after.take(before.len() as int) == before
}

/// Continuing is transitive, and the calls made add up.
pub proof fn lemma_continues<T>(a: Seq<T>, b: Seq<T>, c: Seq<T>)
    requires
        continues(a, b),
        continues(b, c),
    ensures
        continues(a, c),
        since(a, c) == since(a, b) + since(b, c),
{
    assert forall|i: int| 0 <= i < b.len() implies c[i] == b[i] by {
        assert(c.take(b.len() as int)[i] == b[i]);
    }
    assert forall|i: int| 0 <= i < a.len() implies b[i] == a[i] by {
        assert(b.take(a.len() as int)[i] == a[i]);
    }
    assert(c.take(a.len() as int) =~= a);
    assert(since(a, c) =~= since(a, b) + since(b, c));
}

/// A single call continues a history.
pub proof fn lemma_one_call<T>(a: Seq<T>, e: T)
    ensures
        continues(a, a.push(e)),
        since(a, a.push(e)) == seq![e],
{
    assert(a.push(e).take(a.len() as int) =~= a);
    assert(since(a, a.push(e)) =~= seq![e]);
}

/// A history continues itself by nothing.
pub proof fn lemma_no_call<T>(a: Seq<T>)
    ensures
        continues(a, a),
        since(a, a) == Seq::<T>::empty(),
{
    assert(a.take(a.len() as int) =~= a);
    assert(since(a, a) =~= Seq::<T>::empty());
}

}
