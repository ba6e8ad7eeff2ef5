//! Where the tasks of a container come from.

use vstd::prelude::*;

use crate::resctrl::error::{raw_error, text_error, Error, ErrorKind, ErrorView, IoError, ENOENT};
use crate::resctrl::source::{pids_answer, PidQuery, PidSource};

verus! {

/// Source of the tasks of a container, by the path of its control group.
///
/// `asked` is the sequence of the times that it was asked so far. Nothing is promised of an
/// answer; each time adds itself, with the path and the answer, to the sequence.
///
/// An implementation that is verified gives `asked` a body of its own. The default stands for one
/// that keeps no record: what is proved of its answers is then proved of a record that is only
/// thought of.
pub trait CgroupPidSource: Send + Sync {
    /// The times that the source was asked so far.
    open spec fn asked(&self) -> Seq<PidQuery> {
        arbitrary()
    }

    /// The tasks of the control group at the path.
    fn pids_for_path(&mut self, cgroup_path: &str) -> (r: Result<Vec<i32>, Error>)
        ensures
            final(self).asked() == old(self).asked().push(
                (PidQuery { about: cgroup_path@, answer: pids_answer(r) }),
            ),
    ;
}

/// A source that is asked about the control group at one path at a time.
pub struct AtPath<S: CgroupPidSource> {
    pub source: S,
    pub path: String,
}

impl<S: CgroupPidSource> PidSource for AtPath<S> {
    open spec fn about(&self) -> Seq<char> {
        self.path@
    }

    open spec fn asked(&self) -> Seq<PidQuery> {
        self.source.asked()
    }

    fn pids(&mut self) -> (r: Result<Vec<i32>, Error>) {
        self.source.pids_for_path(self.path.as_str())
    }
}

/// What is wrong with the path of a control group, given whether something is there.
pub open spec fn cgroup_path_error(cgroup_path: Seq<char>, exists_there: bool) -> Option<ErrorView> {
    if cgroup_path.len() == 0 {
        Some(
            ErrorView::Io {
                path: "<cgroup path>"@,
                source: text_error(ErrorKind::InvalidInput, "empty cgroup path"@),
            },
        )
    } else if !exists_there {
        Some(ErrorView::Io { path: cgroup_path, source: raw_error(ENOENT) })
    } else {
        None
    }
}

/// Whether tasks can be read at the path of a control group.
pub fn check_cgroup_path(cgroup_path: &str, exists_there: bool) -> (r: Result<(), Error>)
    ensures
        match cgroup_path_error(cgroup_path@, exists_there) {
            Some(e) => r is Err && r->Err_0@ == e,
            None => r is Ok,
        },
{
    if cgroup_path.is_empty() {
        return Err(
            Error::Io {
                path: "<cgroup path>".to_string(),
                source: IoError::new(ErrorKind::InvalidInput, "empty cgroup path".to_string()),
            },
        );
    }
    if !exists_there {
        return Err(
            Error::Io {
                path: cgroup_path.to_string(),
                source: IoError::from_raw_os_error(ENOENT),
            },
        );
    }
    Ok(())
}

/// Tasks can be read exactly at a path that is not empty and where something is; the error of a path
/// where nothing is names that path.
pub proof fn law_tasks_are_read_where_something_is(cgroup_path: Seq<char>, exists_there: bool)
    ensures
        cgroup_path_error(cgroup_path, exists_there) is None <==> cgroup_path.len() > 0
            && exists_there,
        cgroup_path.len() > 0 && !exists_there ==> (cgroup_path_error(
            cgroup_path,
            exists_there,
        ) matches Some(ErrorView::Io { path, source }) && path == cgroup_path && source.code == Some(
            2i32,
        )),
        cgroup_path.len() == 0 ==> cgroup_path_error(cgroup_path, true) == cgroup_path_error(
            cgroup_path,
            false,
        ),
{
}

}
