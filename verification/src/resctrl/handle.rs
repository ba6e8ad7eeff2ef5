//! The handle on the resctrl filesystem.

use std::collections::HashSet;

use vstd::prelude::*;

use crate::decimal::{i32_to_string, parse_i32, parse_u64, usize_to_string, IntError};
use crate::path::join;
use crate::resctrl::error::{
    map_basic_fs_error, Error, ErrorKind, ErrorView, IoError, EACCES, EINVAL, ENODEV, ENOENT, ENOSPC,
    ENOSYS, ENOTSUP, EPERM, ESRCH,
};
use crate::resctrl::group::{group_path, mon_groups};
use crate::resctrl::provider::{
    continues, lemma_continues, lemma_no_call, lemma_one_call, since, FsEvent, FsProvider,
};
use crate::resctrl::runs::{
    assign_run, bad_line, cleanup_run, create_run, delete_run, detect_run, empty_report, ensure_run,
    group_occupancy_run, is_special, lemma_assign_frame, lemma_detect_frame, lemma_list_frame,
    lemma_sweep_frame, list_run, missing_of, mon_data_of, mount_in, mount_point_of, occupancy_run,
    pids_in, reconcile_run, root_groups, sat, sweep_run, tasks_of, ReportView, SupportView,
    L3_PREFIX,
};
use crate::resctrl::source::{all_about, answers_in, pids_answer, PidSource};
use crate::search::starts_with;
use crate::text::{fields, fields_of, lines, lines_of, str_eq, trim, views};

verus! {

/// Where resctrl is mounted by default.
pub const DEFAULT_ROOT: &'static str = "/sys/fs/resctrl";

/// What the names of groups begin with by default.
pub const DEFAULT_PREFIX: &'static str = "pod_";

/// How many tasks were assigned and how many are missing.
#[derive(Clone, Copy, Debug, PartialEq, Eq, Structural)]
pub struct AssignmentResult {
    pub assigned: usize,
    pub missing: usize,
}

impl AssignmentResult {
    /// A result with the given counts.
    pub fn new(assigned: usize, missing: usize) -> (r: AssignmentResult)
        ensures
            r.assigned == assigned,
            r.missing == missing,
    {
        AssignmentResult { assigned, missing }
    }
}

/// What an answer with counts says.
pub open spec fn counts_answer(r: Result<AssignmentResult, Error>) -> Result<
    (nat, nat),
    ErrorView,
> {
    match r {
        Ok(a) => Ok((a.assigned as nat, a.missing as nat)),
        Err(e) => Err(e@),
    }
}

/// What an answer with a path says.
pub open spec fn path_answer(r: Result<String, Error>) -> Result<Seq<char>, ErrorView> {
    match r {
        Ok(s) => Ok(s@),
        Err(e) => Err(e@),
    }
}

/// What an answer without content says.
pub open spec fn done_answer(r: Result<(), Error>) -> Result<(), ErrorView> {
    match r {
        Ok(()) => Ok(()),
        Err(e) => Err(e@),
    }
}

/// Where resctrl is mounted and what the names of this component's groups begin with.
#[derive(Clone, Debug)]
pub struct Config {
    pub root: String,
    pub group_prefix: String,
}

/// What a [`Config`] says.
pub struct ConfigView {
    pub root: Seq<char>,
    pub group_prefix: Seq<char>,
}

impl View for Config {
    type V = ConfigView;

    open spec fn view(&self) -> ConfigView {
        ConfigView { root: self.root@, group_prefix: self.group_prefix@ }
    }
}

impl Default for Config {
    fn default() -> (r: Config)
        ensures
            r.root@ == DEFAULT_ROOT@,
            r.group_prefix@ == DEFAULT_PREFIX@,
    {
        Config { root: DEFAULT_ROOT.to_owned(), group_prefix: DEFAULT_PREFIX.to_owned() }
    }
}

/// What is known of resctrl on the system.
#[derive(Clone, Debug, PartialEq, Eq)]
pub struct SupportInfo {
    /// Whether resctrl is mounted.
    pub mounted: bool,
    /// Where it is mounted.
    pub mount_point: Option<String>,
    /// Whether the tasks file at the mount point can be opened for writing.
    pub writable: bool,
}

impl View for SupportInfo {
    type V = SupportView;

    open spec fn view(&self) -> SupportView {
        SupportView {
            mounted: self.mounted,
            mount_point: match self.mount_point {
                Some(s) => Some(s@),
                None => None,
            },
            writable: self.writable,
        }
    }
}

/// What an answer about the support says.
pub open spec fn support_answer(r: Result<SupportInfo, Error>) -> Result<SupportView, ErrorView> {
    match r {
        Ok(info) => Ok(info@),
        Err(e) => Err(e@),
    }
}

/// What a cleanup did. A count stays at its greatest value once it has reached it.
#[derive(Clone, Copy, Debug, PartialEq, Eq, Structural)]
pub struct CleanupReport {
    pub removed: usize,
    pub removal_failures: usize,
    pub removal_race: usize,
    pub non_prefix_groups: usize,
}

impl View for CleanupReport {
    type V = ReportView;

    open spec fn view(&self) -> ReportView {
        ReportView {
            removed: self.removed as nat,
            removal_failures: self.removal_failures as nat,
            removal_race: self.removal_race as nat,
            non_prefix_groups: self.non_prefix_groups as nat,
        }
    }
}

impl Default for CleanupReport {
    fn default() -> (r: CleanupReport)
        ensures
            r@ == empty_report(),
    {
        CleanupReport { removed: 0, removal_failures: 0, removal_race: 0, non_prefix_groups: 0 }
    }
}

/// What an answer with a report says.
pub open spec fn report_answer(r: Result<CleanupReport, Error>) -> Result<ReportView, ErrorView> {
    match r {
        Ok(rep) => Ok(rep@),
        Err(e) => Err(e@),
    }
}

/// Where a mount table says that resctrl is mounted.
pub fn find_mount_point(mounts: &str) -> (r: Option<String>)
    ensures
        match r {
            Some(mp) => mount_point_of(mounts@) == Some(mp@),
            None => mount_point_of(mounts@) is None,
        },
{
    let ls = lines(mounts);
    let ghost all = lines_of(mounts@);
    let mut i: usize = 0;
    assert(all.skip(0) =~= all);
    while i < ls.len()
        invariant
            i <= ls@.len(),
            views(ls@) == all,
            all == lines_of(mounts@),
            mount_in(all.skip(i as int)) == mount_point_of(mounts@),
        decreases ls.len() - i,
    {
        let parts = fields(ls[i].as_str());
        proof {
            assert(all.skip(i as int)[0] == views(ls@)[i as int]);
            assert(all.skip(i as int).drop_first() =~= all.skip(i as int + 1));
        }
        if parts.len() >= 3 {
            assert(fields_of(ls@[i as int]@)[2] == parts@[2]@);
            assert(fields_of(ls@[i as int]@)[1] == parts@[1]@);
            if str_eq(parts[2].as_str(), "resctrl") {
                return Some(parts[1].clone());
            }
        }
        i = i + 1;
    }
    None
}

/// The tasks that a tasks file holds, blank lines aside, or the message about the first line that
/// holds none.
pub fn parse_tasks(text: &str) -> (r: Result<Vec<i32>, String>)
    ensures
        match r {
            Ok(pids) => pids_in(lines_of(text@)) == Ok::<Seq<i32>, Seq<char>>(pids@),
            Err(m) => pids_in(lines_of(text@)) == Err::<Seq<i32>, Seq<char>>(m@),
        },
{
    let ls = lines(text);
    let ghost all = lines_of(text@);
    let mut pids: Vec<i32> = Vec::new();
    let mut i: usize = 0;
    assert(all.take(0) =~= Seq::<Seq<char>>::empty());
    assert(pids@ =~= Seq::<i32>::empty());
    while i < ls.len()
        invariant
            i <= ls@.len(),
            views(ls@) == all,
            all == lines_of(text@),
            pids_in(all.take(i as int)) == Ok::<Seq<i32>, Seq<char>>(pids@),
        decreases ls.len() - i,
    {
        let t = trim(ls[i].as_str());
        proof {
            assert(all[i as int] == views(ls@)[i as int]);
            assert(all.take(i as int + 1).drop_last() =~= all.take(i as int));
            assert(all.take(i as int + 1).last() == ls@[i as int]@);
        }
        if !t.as_str().is_empty() {
            match parse_i32(t.as_str()) {
                Ok(pid) => {
                    pids.push(pid);
                },
                Err(e) => {
                    let m = bad_line_message(i + 1, t.as_str(), e);
                    proof {
                        lemma_first_bad_line(all, i as int + 1);
                    }
                    return Err(m);
                },
            }
        }
        i = i + 1;
    }
    assert(all.take(i as int) =~= all);
    Ok(pids)
}

/// The message about a line of a tasks file that holds no task.
fn bad_line_message(number: usize, text: &str, e: IntError) -> (m: String)
    ensures
        m@ == bad_line(number as nat, text@, e),
{
    let mut m = "invalid pid at line ".to_owned();
    m.append(usize_to_string(number).as_str());
    m.append(": '");
    m.append(text);
    m.append("': ");
    m.append(e.message().as_str());
    m
}

proof fn lemma_first_bad_line(lines: Seq<Seq<char>>, n: int)
    requires
        0 <= n <= lines.len(),
        pids_in(lines.take(n)) is Err,
    ensures
        pids_in(lines) == pids_in(lines.take(n)),
    decreases lines.len() - n,
{
    if n == lines.len() {
        assert(lines.take(n) =~= lines);
    } else {
        assert(lines.take(n + 1).drop_last() =~= lines.take(n));
        lemma_first_bad_line(lines, n + 1);
    }
}

/// The wanted tasks that are not among the current ones, each once, in the order of their first
/// occurrence.
pub fn missing_tasks(want: &Vec<i32>, current: &Vec<i32>) -> (m: Vec<i32>)
    ensures
        m@ == missing_of(want@, current@),
{
    broadcast use vstd::std_specs::hash::group_hash_axioms;

    let mut have: HashSet<i32> = HashSet::new();
    let mut i: usize = 0;
    while i < current.len()
        invariant
            i <= current@.len(),
            forall|p: i32| have@.contains(p) <==> current@.take(i as int).contains(p),
        decreases current.len() - i,
    {
        have.insert(current[i]);
        proof {
            let t = current@.take(i as int);
            let u = current@.take(i as int + 1);
            assert(u =~= t.push(current@[i as int]));
            assert forall|p: i32| have@.contains(p) <==> u.contains(p) by {
                if t.contains(p) {
                    let k = choose|k: int| 0 <= k < t.len() && t[k] == p;
                    assert(u[k] == p);
                }
                if p == current@[i as int] {
                    assert(u[i as int] == p);
                }
            }
        }
        i = i + 1;
    }
    assert(current@.take(i as int) =~= current@);
    let mut m: Vec<i32> = Vec::new();
    let mut j: usize = 0;
    assert(want@.take(0) =~= Seq::<i32>::empty());
    assert(m@ =~= Seq::<i32>::empty());
    while j < want.len()
        invariant
            j <= want@.len(),
            m@ == missing_of(want@.take(j as int), current@),
            forall|p: i32|
                have@.contains(p) <==> (current@.contains(p) || missing_of(
                    want@.take(j as int),
                    current@,
                ).contains(p)),
        decreases want.len() - j,
    {
        let p: i32 = want[j];
        let ghost before = m@;
        proof {
            assert(want@.take(j as int + 1).drop_last() =~= want@.take(j as int));
        }
        if !have.contains(&p) {
            have.insert(p);
            m.push(p);
            proof {
                assert forall|q: i32|
                    have@.contains(q) <==> (current@.contains(q) || before.push(p).contains(q)) by {
                    if before.contains(q) {
                        let k = choose|k: int| 0 <= k < before.len() && before[k] == q;
                        assert(before.push(p)[k] == q);
                    }
                    assert(before.push(p)[before.len() as int] == p);
                }
            }
        }
        j = j + 1;
    }
    assert(want@.take(j as int) =~= want@);
    m
}

/// The groups among the directories below the root.
fn without_special(names: &Vec<String>) -> (r: Vec<String>)
    ensures
        views(r@) == root_groups(views(names@)),
{
    let ghost all = views(names@);
    let ghost p = |n: Seq<char>| !is_special(n);
    let mut out: Vec<String> = Vec::new();
    let mut i: usize = 0;
    proof {
        reveal(Seq::filter);
        assert(all.take(0).filter(p) =~= Seq::<Seq<char>>::empty());
        assert(views(out@) =~= Seq::<Seq<char>>::empty());
    }
    while i < names.len()
        invariant
            i <= names@.len(),
            all == views(names@),
            p == (|n: Seq<char>| !is_special(n)),
            views(out@) == all.take(i as int).filter(p),
        decreases names.len() - i,
    {
        let n = names[i].as_str();
        let ghost before = out@;
        proof {
            reveal(Seq::filter);
            assert(all.take(i as int + 1).drop_last() =~= all.take(i as int));
            assert(all.take(i as int + 1).last() == n@);
        }
        if !str_eq(n, "info") && !str_eq(n, "mon_data") && !str_eq(n, "mon_groups") {
            out.push(n.to_owned());
            assert(views(out@) =~= views(before).push(n@));
        }
        i = i + 1;
    }
    assert(all.take(i as int) =~= all);
    out
}

/// A handle on the resctrl filesystem.
#[derive(Clone)]
pub struct Resctrl<P: FsProvider> {
    fs: P,
    cfg: Config,
}

impl<P: FsProvider> Resctrl<P> {
    /// The calls that were made of the provider.
    pub closed spec fn history(&self) -> Seq<FsEvent> {
        self.fs.history()
    }

    /// The configuration.
    pub closed spec fn config(&self) -> ConfigView {
        self.cfg@
    }

    /// The provider.
    pub closed spec fn provider(&self) -> P {
        self.fs
    }

    /// A handle that works through the given provider.
    pub fn with_provider(fs: P, cfg: Config) -> (r: Resctrl<P>)
        ensures
            r.provider() == fs,
            r.history() == fs.history(),
            r.config() == cfg@,
    {
        Resctrl { fs, cfg }
    }

    /// The provider.
    pub fn fs_provider(&self) -> (fs: &P)
        ensures
            *fs == self.provider(),
    {
        &self.fs
    }

    /// Describes the support of resctrl on the system.
    pub fn detect_support(&mut self) -> (r: Result<SupportInfo, Error>)
        ensures
            final(self).config() == old(self).config(),
            continues(old(self).history(), final(self).history()),
            detect_run(since(old(self).history(), final(self).history())) == Some(
                (support_answer(r), Seq::<FsEvent>::empty()),
            ),
    {
        let ghost h0 = self.fs.history();
        let answer = self.fs.read_to_string("/proc/mounts");
        let ghost h1 = self.fs.history();
        proof {
            lemma_one_call(h0, h1.last());
            assert(since(h0, h1).drop_first() =~= Seq::<FsEvent>::empty());
        }
        let mounts = match answer {
            Ok(s) => s,
            Err(e) => {
                return Err(Error::Io { path: "/proc/mounts".to_owned(), source: e });
            },
        };
        match find_mount_point(mounts.as_str()) {
            None => Ok(SupportInfo { mounted: false, mount_point: None, writable: false }),
            Some(mp) => {
                let tasks = join(mp.as_str(), "tasks");
                let check = self.fs.check_can_open_for_write(tasks.as_str());
                let writable = check.is_ok();
                proof {
                    let h2 = self.fs.history();
                    lemma_one_call(h1, h2.last());
                    lemma_continues(h0, h1, h2);
                    assert(since(h0, h2) =~= seq![h1.last(), h2.last()]);
                    assert(since(h0, h2).skip(2) =~= Seq::<FsEvent>::empty());
                }
                Ok(SupportInfo { mounted: true, mount_point: Some(mp), writable })
            },
        }
    }

    /// Makes sure that resctrl is mounted, by mounting it where `auto_mount` is set and it is not.
    pub fn ensure_mounted(&mut self, auto_mount: bool) -> (r: Result<(), Error>)
        ensures
            final(self).config() == old(self).config(),
            continues(old(self).history(), final(self).history()),
            ensure_run(
                auto_mount,
                old(self).config().root,
                since(old(self).history(), final(self).history()),
            ) == Some((done_answer(r), Seq::<FsEvent>::empty())),
    {
        let ghost h0 = self.fs.history();
        let info = match self.detect_support() {
            Ok(info) => info,
            Err(e) => {
                return Err(e);
            },
        };
        let ghost h1 = self.fs.history();
        if info.mounted {
            return Ok(());
        }
        if !auto_mount {
            return Err(Error::NotMounted { root: self.cfg.root.clone() });
        }
        let answer = self.fs.mount_resctrl(self.cfg.root.as_str());
        let ghost h2 = self.fs.history();
        proof {
            lemma_one_call(h1, h2.last());
            lemma_continues(h0, h1, h2);
            lemma_detect_frame(since(h0, h1), since(h1, h2));
            assert(since(h1, h2).drop_first() =~= Seq::<FsEvent>::empty());
        }
        match answer {
            Ok(()) => {
                let again = self.detect_support();
                proof {
                    let h3 = self.fs.history();
                    lemma_continues(h1, h2, h3);
                    lemma_continues(h0, h1, h3);
                    lemma_detect_frame(since(h0, h1), since(h1, h3));
                    assert(since(h1, h3)[0] == h2.last());
                    assert(since(h1, h3).drop_first() =~= since(h2, h3));
                }
                match again {
                    Err(e) => Err(e),
                    Ok(info2) => if info2.mounted {
                        Ok(())
                    } else {
                        Err(
                            Error::Io {
                                path: self.cfg.root.clone(),
                                source: IoError::new(
                                    ErrorKind::Other,
                                    "mount did not take effect".to_owned(),
                                ),
                            },
                        )
                    },
                }
            },
            Err(e) => {
                if let Some(code) = e.raw_os_error() {
                    if code == EACCES || code == EPERM {
                        return Err(Error::NoPermission { path: self.cfg.root.clone(), source: e });
                    }
                    if code == ENODEV || code == EINVAL || code == ENOTSUP || code == ENOSYS {
                        return Err(Error::Unsupported { source: e });
                    }
                }
                Err(Error::Io { path: self.cfg.root.clone(), source: e })
            },
        }
    }

    /// Creates the group of a pod and returns its path. A group that is already there counts as
    /// created.
    pub fn create_group(&mut self, pod_uid: &str) -> (r: Result<String, Error>)
        ensures
            final(self).config() == old(self).config(),
            continues(old(self).history(), final(self).history()),
            create_run(
                old(self).config().root,
                old(self).config().group_prefix,
                pod_uid@,
                since(old(self).history(), final(self).history()),
            ) == Some((path_answer(r), Seq::<FsEvent>::empty())),
    {
        let ghost h0 = self.fs.history();
        let found = self.fs.path_exists(self.cfg.root.as_str());
        let ghost h1 = self.fs.history();
        proof {
            lemma_one_call(h0, h1.last());
            assert(since(h0, h1).drop_first() =~= Seq::<FsEvent>::empty());
        }
        if !found {
            return Err(Error::NotMounted { root: self.cfg.root.clone() });
        }
        let path = group_path(self.cfg.root.as_str(), self.cfg.group_prefix.as_str(), pod_uid);
        let answer = self.fs.create_dir(path.as_str());
        proof {
            let h2 = self.fs.history();
            lemma_one_call(h1, h2.last());
            lemma_continues(h0, h1, h2);
            assert(since(h0, h2) =~= seq![h1.last(), h2.last()]);
            assert(since(h0, h2).skip(2) =~= Seq::<FsEvent>::empty());
        }
        match answer {
            Ok(()) => Ok(path),
            Err(e) => match map_basic_fs_error(path.as_str(), &e) {
                Error::Io { path: p, source } => if source.kind() == ErrorKind::AlreadyExists {
                    Ok(path)
                } else {
                    Err(Error::Io { path: p, source })
                },
                other => Err(other),
            },
        }
    }

    /// Deletes a group. A group that is not there counts as deleted.
    pub fn delete_group(&mut self, group_path: &str) -> (r: Result<(), Error>)
        ensures
            final(self).config() == old(self).config(),
            continues(old(self).history(), final(self).history()),
            delete_run(group_path@, since(old(self).history(), final(self).history())) == Some(
                (done_answer(r), Seq::<FsEvent>::empty()),
            ),
    {
        let ghost h0 = self.fs.history();
        let answer = self.fs.remove_dir(group_path);
        proof {
            let h1 = self.fs.history();
            lemma_one_call(h0, h1.last());
            assert(since(h0, h1).drop_first() =~= Seq::<FsEvent>::empty());
        }
        match answer {
            Ok(()) => Ok(()),
            Err(e) => {
                if let Some(code) = e.raw_os_error() {
                    if code == ENOENT {
                        return Ok(());
                    }
                }
                Err(map_basic_fs_error(group_path, &e))
            },
        }
    }

    /// Lists the tasks of a group.
    pub fn list_group_tasks(&mut self, group_path: &str) -> (r: Result<Vec<i32>, Error>)
        ensures
            final(self).config() == old(self).config(),
            continues(old(self).history(), final(self).history()),
            list_run(tasks_of(group_path@), since(old(self).history(), final(self).history()))
                == Some((pids_answer(r), Seq::<FsEvent>::empty())),
    {
        let ghost h0 = self.fs.history();
        let tasks = join(group_path, "tasks");
        let answer = self.fs.read_to_string(tasks.as_str());
        proof {
            let h1 = self.fs.history();
            lemma_one_call(h0, h1.last());
            assert(since(h0, h1).drop_first() =~= Seq::<FsEvent>::empty());
        }
        match answer {
            Err(e) => Err(map_basic_fs_error(tasks.as_str(), &e)),
            Ok(text) => match parse_tasks(text.as_str()) {
                Ok(pids) => Ok(pids),
                Err(m) => Err(
                    Error::Io { path: tasks, source: IoError::new(ErrorKind::InvalidData, m) },
                ),
            },
        }
    }

    /// Assigns tasks to a group one by one. Tasks that are gone are counted as missing.
    pub fn assign_tasks(&mut self, group_path: &str, pids: &[i32]) -> (r: Result<
        AssignmentResult,
        Error,
    >)
        ensures
            final(self).config() == old(self).config(),
            continues(old(self).history(), final(self).history()),
            assign_run(
                tasks_of(group_path@),
                pids@,
                since(old(self).history(), final(self).history()),
                0,
                0,
            ) == Some((counts_answer(r), Seq::<FsEvent>::empty())),
            r matches Ok(a) ==> a.assigned + a.missing == pids@.len(),
    {
        let ghost h0 = self.fs.history();
        let ghost cfg0 = self.cfg;
        let tasks_path = join(group_path, "tasks");
        let ghost tasks = tasks_of(group_path@);
        let n: usize = pids.len();
        let mut assigned: usize = 0;
        let mut missing: usize = 0;
        let mut i: usize = 0;
        proof {
            lemma_no_call(h0);
            assert(pids@.skip(0) =~= pids@);
            assert forall|t: Seq<FsEvent>|
                assign_run(tasks, pids@, #[trigger] (since(h0, h0) + t), 0, 0) == assign_run(
                    tasks,
                    pids@.skip(0),
                    t,
                    0,
                    0,
                ) by {
                assert(since(h0, h0) + t =~= t);
            }
        }
        while i < n
            invariant
                n == pids@.len(),
                i <= n,
                assigned + missing == i,
                tasks_path@ == tasks,
                tasks == tasks_of(group_path@),
                h0 == old(self).history(),
                cfg0@ == old(self).config(),
                self.cfg == cfg0,
                continues(h0, self.fs.history()),
                forall|t: Seq<FsEvent>|
                    assign_run(tasks, pids@, #[trigger] (since(h0, self.fs.history()) + t), 0, 0)
                        == assign_run(
                        tasks,
                        pids@.skip(i as int),
                        t,
                        assigned as nat,
                        missing as nat,
                    ),
            decreases n - i,
        {
            let ghost h1 = self.fs.history();
            let ghost a0 = assigned as nat;
            let ghost m0 = missing as nat;
            let s = i32_to_string(pids[i]);
            let answer = self.fs.write_str(tasks_path.as_str(), s.as_str());
            let ghost h2 = self.fs.history();
            let ghost e0 = h2.last();
            proof {
                lemma_one_call(h1, e0);
                lemma_continues(h0, h1, h2);
                assert(pids@.skip(i as int)[0] == pids@[i as int]);
                assert(pids@.skip(i as int).drop_first() =~= pids@.skip(i as int + 1));
                assert forall|t: Seq<FsEvent>|
                    assign_run(tasks, pids@, #[trigger] (since(h0, h2) + t), 0, 0) == assign_run(
                        tasks,
                        pids@.skip(i as int),
                        seq![e0] + t,
                        a0,
                        m0,
                    ) by {
                    assert(since(h0, h2) + t =~= since(h0, h1) + (seq![e0] + t));
                }
                assert forall|t: Seq<FsEvent>| (#[trigger] (seq![e0] + t)).drop_first() == t by {
                    assert((seq![e0] + t).drop_first() =~= t);
                }
                assert(since(h0, h2) + Seq::<FsEvent>::empty() =~= since(h0, h2));
            }
            match answer {
                Ok(()) => {
                    assigned = assigned + 1;
                },
                Err(e) => {
                    if let Some(code) = e.raw_os_error() {
                        if code == ESRCH {
                            missing = missing + 1;
                            i = i + 1;
                            continue;
                        }
                        if code == EACCES || code == EPERM {
                            return Err(Error::NoPermission { path: tasks_path, source: e });
                        }
                        if code == ENOSPC {
                            return Err(Error::Capacity { source: e });
                        }
                    }
                    return Err(Error::Io { path: tasks_path, source: e });
                },
            }
            i = i + 1;
        }
        proof {
            let tr = since(h0, self.fs.history());
            assert(tr + Seq::<FsEvent>::empty() =~= tr);
            assert(pids@.skip(n as int) =~= Seq::<i32>::empty());
        }
        Ok(AssignmentResult { assigned, missing })
    }

    /// Reconciles the tasks of a group with those that `pid_source` wants: in each pass asks for
    /// them anew, lists the group's tasks and assigns the missing ones, at most `max_passes` times,
    /// until none is missing. The result counts all assignments and the tasks of the last answer
    /// that are missing in the end.
    #[verifier::rlimit(40)]
    #[verifier::spinoff_prover]
    pub fn reconcile_group<S: PidSource>(
        &mut self,
        group_path: &str,
        pid_source: &mut S,
        max_passes: usize,
    ) -> (r: Result<AssignmentResult, Error>)
        ensures
            final(self).config() == old(self).config(),
            continues(old(self).history(), final(self).history()),
            final(pid_source).about() == old(pid_source).about(),
            continues(old(pid_source).asked(), final(pid_source).asked()),
            all_about(
                since(old(pid_source).asked(), final(pid_source).asked()),
                old(pid_source).about(),
            ),
            reconcile_run(
                tasks_of(group_path@),
                answers_in(since(old(pid_source).asked(), final(pid_source).asked())),
                since(old(self).history(), final(self).history()),
                max_passes as nat,
                0,
                Seq::empty(),
            ) == Some(counts_answer(r)),
    {
        let ghost h0 = self.fs.history();
        let ghost tasks = tasks_of(group_path@);
        let ghost none = Seq::<FsEvent>::empty();
        let ghost unasked = Seq::<Result<Seq<i32>, ErrorView>>::empty();
        let ghost a0 = pid_source.asked();
        let ghost about = pid_source.about();
        let ghost mut wants = unasked;
        let mut total: usize = 0;
        let mut last: Vec<i32> = Vec::new();
        let mut pass: usize = 0;
        proof {
            lemma_no_call(h0);
            lemma_no_call(a0);
            assert(answers_in(since(a0, a0)) =~= wants);
            assert forall|w: Seq<Result<Seq<i32>, ErrorView>>, t: Seq<FsEvent>|
                reconcile_run(
                    tasks,
                    #[trigger] (wants + w),
                    #[trigger] (since(h0, h0) + t),
                    max_passes as nat,
                    0,
                    Seq::empty(),
                ) == reconcile_run(tasks, w, t, max_passes as nat, 0, last@) by {
                assert(wants + w =~= w);
                assert(since(h0, h0) + t =~= t);
                assert(last@ =~= Seq::<i32>::empty());
            }
        }
        while pass < max_passes
            invariant
                pass <= max_passes,
                h0 == old(self).history(),
                self.config() == old(self).config(),
                continues(h0, self.fs.history()),
                tasks == tasks_of(group_path@),
                none == Seq::<FsEvent>::empty(),
                unasked == Seq::<Result<Seq<i32>, ErrorView>>::empty(),
                a0 == old(pid_source).asked(),
                about == old(pid_source).about(),
                pid_source.about() == about,
                continues(a0, pid_source.asked()),
                all_about(since(a0, pid_source.asked()), about),
                wants == answers_in(since(a0, pid_source.asked())),
                forall|w: Seq<Result<Seq<i32>, ErrorView>>, t: Seq<FsEvent>|
                    reconcile_run(
                        tasks,
                        #[trigger] (wants + w),
                        #[trigger] (since(h0, self.fs.history()) + t),
                        max_passes as nat,
                        0,
                        Seq::empty(),
                    ) == reconcile_run(
                        tasks,
                        w,
                        t,
                        (max_passes - pass) as nat,
                        total as nat,
                        last@,
                    ),
            decreases max_passes - pass,
        {
            let ghost h1 = self.fs.history();
            let ghost wants0 = wants;
            let ghost a1 = pid_source.asked();
            let answer = pid_source.pids();
            let ghost want0 = pids_answer(answer);
            proof {
                let a2 = pid_source.asked();
                lemma_one_call(a1, a2.last());
                lemma_continues(a0, a1, a2);
                assert(answers_in(since(a0, a2)) =~= wants0.push(want0));
                wants = wants0.push(want0);
                assert(wants =~= wants0 + seq![want0]);
                assert(since(h0, h1) + none =~= since(h0, h1));
                assert(reconcile_run(
                    tasks,
                    wants0 + seq![want0],
                    since(h0, h1) + none,
                    max_passes as nat,
                    0,
                    Seq::empty(),
                ) == reconcile_run(
                    tasks,
                    seq![want0],
                    none,
                    (max_passes - pass) as nat,
                    total as nat,
                    last@,
                ));
            }
            let want = match answer {
                Ok(v) => v,
                Err(e) => {
                    return Err(e);
                },
            };
            let listed = self.list_group_tasks(group_path);
            let ghost h2 = self.fs.history();
            proof {
                lemma_continues(h0, h1, h2);
                assert(reconcile_run(
                    tasks,
                    wants0 + seq![want0],
                    since(h0, h1) + since(h1, h2),
                    max_passes as nat,
                    0,
                    Seq::empty(),
                ) == reconcile_run(
                    tasks,
                    seq![want0],
                    since(h1, h2),
                    (max_passes - pass) as nat,
                    total as nat,
                    last@,
                ));
            }
            let current = match listed {
                Ok(v) => v,
                Err(e) => {
                    return Err(e);
                },
            };
            let missing = missing_tasks(&want, &current);
            if missing.len() == 0 {
                return Ok(AssignmentResult::new(total, 0));
            }
            let assigned = self.assign_tasks(group_path, missing.as_slice());
            let ghost h3 = self.fs.history();
            proof {
                lemma_continues(h1, h2, h3);
                lemma_continues(h0, h1, h3);
                lemma_list_frame(tasks, since(h1, h2), since(h2, h3));
                assert(reconcile_run(
                    tasks,
                    wants0 + seq![want0],
                    since(h0, h1) + since(h1, h3),
                    max_passes as nat,
                    0,
                    Seq::empty(),
                ) == reconcile_run(
                    tasks,
                    seq![want0],
                    since(h1, h3),
                    (max_passes - pass) as nat,
                    total as nat,
                    last@,
                ));
            }
            let res = match assigned {
                Ok(a) => a,
                Err(e) => {
                    return Err(e);
                },
            };
            proof {
                assert forall|w: Seq<Result<Seq<i32>, ErrorView>>, t: Seq<FsEvent>|
                    reconcile_run(
                        tasks,
                        #[trigger] (wants + w),
                        #[trigger] (since(h0, h3) + t),
                        max_passes as nat,
                        0,
                        Seq::empty(),
                    ) == reconcile_run(
                        tasks,
                        w,
                        t,
                        (max_passes - pass - 1) as nat,
                        sat(total as nat + res.assigned as nat),
                        want@,
                    ) by {
                    let w1 = seq![want0] + w;
                    let t1 = since(h1, h3) + t;
                    assert(wants + w =~= wants0 + w1);
                    assert(since(h0, h3) + t =~= since(h0, h1) + t1);
                    assert(t1 =~= since(h1, h2) + (since(h2, h3) + t));
                    lemma_list_frame(tasks, since(h1, h2), since(h2, h3) + t);
                    lemma_assign_frame(tasks, missing@, since(h2, h3), t, 0, 0);
                    assert(w1[0] == want0);
                    assert(w1.drop_first() =~= w);
                }
            }
            total = total.saturating_add(res.assigned);
            last = want;
            pass = pass + 1;
        }
        let ghost h4 = self.fs.history();
        let listed = self.list_group_tasks(group_path);
        proof {
            let h5 = self.fs.history();
            lemma_continues(h0, h4, h5);
            assert(wants + unasked =~= wants);
            assert(reconcile_run(
                tasks,
                wants + unasked,
                since(h0, h4) + since(h4, h5),
                max_passes as nat,
                0,
                Seq::empty(),
            ) == reconcile_run(tasks, unasked, since(h4, h5), 0, total as nat, last@));
        }
        match listed {
            Ok(current) => {
                let still = missing_tasks(&last, &current);
                Ok(AssignmentResult::new(total, still.len()))
            },
            Err(e) => Err(e),
        }
    }

    /// Removes the groups of this component that an earlier run left behind: the directories
    /// directly below the root and below its directory of monitoring groups whose names begin with
    /// the configured prefix. Failing to list one of the two ends the cleanup; a group that cannot
    /// be removed is counted.
    ///
    /// Assumes that resctrl is mounted.
    pub fn cleanup_all(&mut self) -> (r: Result<CleanupReport, Error>)
        ensures
            final(self).config() == old(self).config(),
            continues(old(self).history(), final(self).history()),
            cleanup_run(
                old(self).config().root,
                old(self).config().group_prefix,
                since(old(self).history(), final(self).history()),
            ) == Some((report_answer(r), Seq::<FsEvent>::empty())),
    {
        let ghost h0 = self.fs.history();
        let root = self.cfg.root.clone();
        let mon_groups_dir = mon_groups(root.as_str());
        let answer = self.fs.read_child_dirs(root.as_str());
        let ghost h1 = self.fs.history();
        proof {
            lemma_one_call(h0, h1.last());
            assert(since(h0, h1).drop_first() =~= Seq::<FsEvent>::empty());
        }
        let children = match answer {
            Ok(v) => v,
            Err(e) => {
                return Err(map_basic_fs_error(root.as_str(), &e));
            },
        };
        let groups = without_special(&children);
        let swept = self.cleanup_in_dir(root.as_str(), &groups, CleanupReport::default());
        let ghost h2 = self.fs.history();
        let answer2 = self.fs.read_child_dirs(mon_groups_dir.as_str());
        let ghost h3 = self.fs.history();
        proof {
            lemma_one_call(h2, h3.last());
            lemma_continues(h0, h1, h2);
            lemma_continues(h0, h2, h3);
            lemma_continues(h1, h2, h3);
            lemma_sweep_frame(
                root@,
                views(groups@),
                self.cfg.group_prefix@,
                since(h1, h2),
                since(h2, h3),
                empty_report(),
            );
            assert(since(h0, h3)[0] == h1.last());
            assert(since(h0, h3).drop_first() =~= since(h1, h2) + since(h2, h3));
            assert(since(h2, h3).drop_first() =~= Seq::<FsEvent>::empty());
        }
        let mon_children = match answer2 {
            Ok(v) => v,
            Err(e) => {
                return Err(map_basic_fs_error(mon_groups_dir.as_str(), &e));
            },
        };
        let report = self.cleanup_in_dir(mon_groups_dir.as_str(), &mon_children, swept);
        proof {
            let h4 = self.fs.history();
            lemma_continues(h0, h3, h4);
            lemma_continues(h2, h3, h4);
            lemma_continues(h1, h2, h4);
            lemma_continues(h0, h1, h4);
            lemma_sweep_frame(
                root@,
                views(groups@),
                self.cfg.group_prefix@,
                since(h1, h2),
                since(h2, h4),
                empty_report(),
            );
            assert(since(h0, h4)[0] == h1.last());
            assert(since(h0, h4).drop_first() =~= since(h1, h2) + since(h2, h4));
            assert(since(h2, h4)[0] == h3.last());
            assert(since(h2, h4).drop_first() =~= since(h3, h4));
        }
        Ok(report)
    }

    /// Removes, of the given directories below `parent`, those whose names begin with the
    /// configured prefix, and counts what came of each.
    fn cleanup_in_dir(&mut self, parent: &str, child_dirs: &Vec<String>, report: CleanupReport) -> (r:
        CleanupReport)
        ensures
            final(self).config() == old(self).config(),
            continues(old(self).history(), final(self).history()),
            sweep_run(
                parent@,
                views(child_dirs@),
                old(self).config().group_prefix,
                since(old(self).history(), final(self).history()),
                report@,
            ) == Some((r@, Seq::<FsEvent>::empty())),
    {
        let ghost h0 = self.fs.history();
        let ghost names = views(child_dirs@);
        let ghost prefix = self.cfg.group_prefix@;
        let ghost report0 = report@;
        let mut report = report;
        let mut i: usize = 0;
        proof {
            lemma_no_call(h0);
            assert(names.skip(0) =~= names);
            assert forall|t: Seq<FsEvent>|
                sweep_run(parent@, names, prefix, #[trigger] (since(h0, h0) + t), report0)
                    == sweep_run(parent@, names.skip(0), prefix, t, report@) by {
                assert(since(h0, h0) + t =~= t);
            }
        }
        while i < child_dirs.len()
            invariant
                i <= child_dirs@.len(),
                names == views(child_dirs@),
                h0 == old(self).history(),
                self.config() == old(self).config(),
                prefix == self.cfg.group_prefix@,
                continues(h0, self.fs.history()),
                forall|t: Seq<FsEvent>|
                    sweep_run(
                        parent@,
                        names,
                        prefix,
                        #[trigger] (since(h0, self.fs.history()) + t),
                        report0,
                    ) == sweep_run(parent@, names.skip(i as int), prefix, t, report@),
            decreases child_dirs.len() - i,
        {
            let ghost h1 = self.fs.history();
            let ghost report1 = report@;
            let name = child_dirs[i].as_str();
            proof {
                assert(names.skip(i as int)[0] == name@);
                assert(names.skip(i as int).drop_first() =~= names.skip(i as int + 1));
            }
            if starts_with(name, self.cfg.group_prefix.as_str()) {
                let p = join(parent, name);
                let answer = self.fs.remove_dir(p.as_str());
                let ghost h2 = self.fs.history();
                let ghost e0 = h2.last();
                proof {
                    lemma_one_call(h1, e0);
                    lemma_continues(h0, h1, h2);
                    assert forall|t: Seq<FsEvent>|
                        sweep_run(parent@, names, prefix, #[trigger] (since(h0, h2) + t), report0)
                            == sweep_run(
                            parent@,
                            names.skip(i as int),
                            prefix,
                            seq![e0] + t,
                            report1,
                        ) by {
                        assert(since(h0, h2) + t =~= since(h0, h1) + (seq![e0] + t));
                    }
                    assert forall|t: Seq<FsEvent>|
                        (#[trigger] (seq![e0] + t)).drop_first() == t by {
                        assert((seq![e0] + t).drop_first() =~= t);
                    }
                }
                match answer {
                    Ok(()) => {
                        report.removed = report.removed.saturating_add(1);
                    },
                    Err(e) => {
                        if e.raw_os_error() == Some(ENOENT) {
                            report.removal_race = report.removal_race.saturating_add(1);
                        } else {
                            report.removal_failures = report.removal_failures.saturating_add(1);
                        }
                    },
                }
            } else {
                report.non_prefix_groups = report.non_prefix_groups.saturating_add(1);
            }
            i = i + 1;
        }
        proof {
            let tr = since(h0, self.fs.history());
            assert(tr + Seq::<FsEvent>::empty() =~= tr);
            assert(names.skip(i as int) =~= Seq::<Seq<char>>::empty());
        }
        report
    }

    /// The occupancy of the last level cache by a group, in bytes, over all cache domains.
    pub fn llc_occupancy_total_bytes(&mut self, group_path: &str) -> (r: Result<u64, Error>)
        ensures
            final(self).config() == old(self).config(),
            continues(old(self).history(), final(self).history()),
            group_occupancy_run(
                mon_data_of(group_path@),
                since(old(self).history(), final(self).history()),
            ) == Some((bytes_answer(r), Seq::<FsEvent>::empty())),
    {
        let ghost h0 = self.fs.history();
        let mon_data = join(group_path, "mon_data");
        let answer = self.fs.read_child_dirs(mon_data.as_str());
        let ghost h1 = self.fs.history();
        let ghost e1 = h1.last();
        proof {
            lemma_one_call(h0, e1);
            assert(since(h0, h1).drop_first() =~= Seq::<FsEvent>::empty());
        }
        let names = match answer {
            Ok(v) => v,
            Err(e) => {
                return Err(map_basic_fs_error(mon_data.as_str(), &e));
            },
        };
        let r = self.domains_occupancy(mon_data.as_str(), &names);
        proof {
            let h2 = self.fs.history();
            lemma_continues(h0, h1, h2);
            assert(since(h0, h2).drop_first() =~= since(h1, h2));
            assert(since(h0, h2)[0] == e1);
        }
        r
    }

    /// Adds up the occupancy of the cache domains among the directories.
    fn domains_occupancy(&mut self, mon_data: &str, names: &Vec<String>) -> (r: Result<u64, Error>)
        ensures
            final(self).config() == old(self).config(),
            continues(old(self).history(), final(self).history()),
            occupancy_run(
                mon_data@,
                views(names@),
                since(old(self).history(), final(self).history()),
                0,
            ) == Some((bytes_answer(r), Seq::<FsEvent>::empty())),
    {
        let ghost h0 = self.fs.history();
        let ghost all = views(names@);
        let mut total: u64 = 0;
        let mut i: usize = 0;
        proof {
            lemma_no_call(h0);
            assert(all.skip(0) =~= all);
            assert forall|t: Seq<FsEvent>|
                occupancy_run(mon_data@, all, #[trigger] (since(h0, h0) + t), 0) == occupancy_run(
                    mon_data@,
                    all.skip(0),
                    t,
                    0,
                ) by {
                assert(since(h0, h0) + t =~= t);
            }
        }
        while i < names.len()
            invariant
                i <= names@.len(),
                all == views(names@),
                h0 == old(self).history(),
                self.config() == old(self).config(),
                continues(h0, self.fs.history()),
                forall|t: Seq<FsEvent>|
                    occupancy_run(
                        mon_data@,
                        all,
                        #[trigger] (since(h0, self.fs.history()) + t),
                        0,
                    ) == occupancy_run(mon_data@, all.skip(i as int), t, total as int),
            decreases names.len() - i,
        {
            let ghost h1 = self.fs.history();
            let name = names[i].as_str();
            proof {
                assert(all.skip(i as int)[0] == name@);
                assert(all.skip(i as int).drop_first() =~= all.skip(i as int + 1));
            }
            if starts_with(name, L3_PREFIX) {
                let dir = join(mon_data, name);
                let path = join(dir.as_str(), "llc_occupancy");
                let answer = self.fs.read_to_string(path.as_str());
                let ghost h2 = self.fs.history();
                let ghost e0 = h2.last();
                proof {
                    lemma_one_call(h1, e0);
                    lemma_continues(h0, h1, h2);
                    assert forall|t: Seq<FsEvent>|
                        occupancy_run(mon_data@, all, #[trigger] (since(h0, h2) + t), 0)
                            == occupancy_run(
                            mon_data@,
                            all.skip(i as int),
                            seq![e0] + t,
                            total as int,
                        ) by {
                        assert(since(h0, h2) + t =~= since(h0, h1) + (seq![e0] + t));
                    }
                    assert forall|t: Seq<FsEvent>|
                        (#[trigger] (seq![e0] + t)).drop_first() == t by {
                        assert((seq![e0] + t).drop_first() =~= t);
                    }
                    let none = Seq::<FsEvent>::empty();
                    assert(since(h0, h2) + none =~= since(h0, h2));
                }
                let text = match answer {
                    Ok(text) => text,
                    Err(e) => {
                        return Err(map_basic_fs_error(path.as_str(), &e));
                    },
                };
                let number = trim(text.as_str());
                let bytes: u64 = match parse_u64(number.as_str()) {
                    Ok(n) => n,
                    Err(e) => {
                        let source = IoError::new(ErrorKind::InvalidData, e.message());
                        return Err(Error::Io { path, source });
                    },
                };
                total = total.saturating_add(bytes);
            }
            i = i + 1;
        }
        proof {
            let tr = since(h0, self.fs.history());
            assert(tr + Seq::<FsEvent>::empty() =~= tr);
            assert(all.skip(i as int) =~= Seq::<Seq<char>>::empty());
        }
        Ok(total)
    }
}

/// What an answer with a number of bytes says.
pub open spec fn bytes_answer(r: Result<u64, Error>) -> Result<int, ErrorView> {
    match r {
        Ok(n) => Ok(n as int),
        Err(e) => Err(e@),
    }
}

}
