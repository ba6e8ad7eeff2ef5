//! Where the tasks come from that a group is to have.

use vstd::prelude::*;

use crate::resctrl::error::{Error, ErrorView};

verus! {

/// What an answer with tasks says.
pub open spec fn pids_answer(r: Result<Vec<i32>, Error>) -> Result<Seq<i32>, ErrorView> {
    match r {
        Ok(v) => Ok(v@),
        Err(e) => Err(e@),
    }
}

/// One time that a source was asked for tasks: what they are those of, and the answer.
pub struct PidQuery {
    pub about: Seq<char>,
    pub answer: Result<Seq<i32>, ErrorView>,
}

/// The answers of a source, in order.
pub open spec fn answers_in(asked: Seq<PidQuery>) -> Seq<Result<Seq<i32>, ErrorView>> {
    asked.map_values(|q: PidQuery| q.answer)
}

/// Whether a source was asked about one thing alone.
pub open spec fn all_about(asked: Seq<PidQuery>, about: Seq<char>) -> bool {
    forall|i: int| 0 <= i < asked.len() ==> (#[trigger] asked[i]).about == about
}

/// Source of the tasks that a group is to have. It is asked again and again, and may answer
/// otherwise each time.
///
/// `asked` is the sequence of the times that it was asked so far. Nothing is promised of an
/// answer; each time adds itself, with its answer, to the sequence.
///
/// An implementation that is verified gives `about` and `asked` bodies of their own. The defaults
/// stand for one that keeps no record: what is proved of its answers is then proved of a record
/// that is only thought of.
pub trait PidSource {
    /// What the tasks are those of.
    open spec fn about(&self) -> Seq<char> {
        arbitrary()
    }

    /// The times that the source was asked so far.
    open spec fn asked(&self) -> Seq<PidQuery> {
        arbitrary()
    }

    /// The tasks, as they are now.
    fn pids(&mut self) -> (r: Result<Vec<i32>, Error>)
        ensures
            final(self).about() == old(self).about(),
            final(self).asked() == old(self).asked().push(
                (PidQuery { about: old(self).about(), answer: pids_answer(r) }),
            ),
    ;
}

}
