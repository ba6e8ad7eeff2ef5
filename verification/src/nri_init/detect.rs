//! Which runtime is there, and in which version.
//!
//! Versions are what programs print. A detector says which command is to be run next and takes in
//! what it printed.

use vstd::prelude::*;

use crate::nri_init::cmd::{CommandLine, CommandLineView};
use crate::nri_init::opts::Mode;
use crate::nri_init::version::{
    first_version, parse_first_semver, parse_version, parsed_version, version_of, version_view,
    Version, VersionView,
};
use crate::search::{begins, strip_prefix};
use crate::text::{lines, lines_of, opt_view, trim, trimmed, views};

verus! {

/// Which runtime is there.
#[derive(Debug, Clone)]
pub enum EnvKind {
    K3s { version: Option<Version> },
    Containerd,
}

/// Which runtime is there, as a value.
pub ghost enum EnvView {
    K3s(Option<VersionView>),
    Containerd,
}

impl View for EnvKind {
    type V = EnvView;

    open spec fn view(&self) -> EnvView {
        match *self {
            EnvKind::K3s { version } => EnvView::K3s(version_view(version)),
            EnvKind::Containerd => EnvView::Containerd,
        }
    }
}

/// Which runtime is there, and the version of containerd where it is known.
#[derive(Debug, Clone)]
pub struct Detection {
    pub env: EnvKind,
    pub containerd_version: Option<Version>,
}

/// A detection as a value.
pub ghost struct DetectionView {
    pub env: EnvView,
    pub containerd_version: Option<VersionView>,
}

impl View for Detection {
    type V = DetectionView;

    open spec fn view(&self) -> DetectionView {
        DetectionView {
            env: self.env@,
            containerd_version: version_view(self.containerd_version),
        }
    }
}

/// Whether the node runs K3s: as the mode says, or else where K3s is installed.
pub open spec fn runs_k3s(mode: Mode, k3s_installed: bool) -> bool {
    match mode {
        Mode::K3s => true,
        Mode::Containerd => false,
        Mode::Auto => k3s_installed,
    }
}

/// The version that a line of `ctr version` gives.
pub open spec fn line_version(line: Seq<char>) -> Option<VersionView> {
    let t = trimmed(line);
    if begins(t, "Version:"@) {
        version_of(parsed_version(trimmed(t.skip("Version:"@.len() as int))))
    } else {
        None
    }
}

/// The version that the first of the lines gives that gives one.
pub open spec fn lines_version(ls: Seq<Seq<char>>) -> Option<VersionView>
    decreases ls.len(),
{
    if ls.len() == 0 {
        None
    } else if line_version(ls[0]) is Some {
        line_version(ls[0])
    } else {
        lines_version(ls.drop_first())
    }
}

/// The version that `ctr version` prints: that of a line, or else the first in the text.
pub open spec fn ctr_version_of(out: Seq<char>) -> Option<VersionView> {
    match lines_version(lines_of(out)) {
        Some(v) => Some(v),
        None => first_version(out),
    }
}

/// The version that `ctr version` prints.
pub fn parse_ctr_version(out: &str) -> (r: Option<Version>)
    ensures
        version_view(r) == ctr_version_of(out@),
{
    let ls = lines(out);
    let ghost all = lines_of(out@);
    let mut i: usize = 0;
    assert(all.skip(0) =~= all);
    while i < ls.len()
        invariant
            i <= ls@.len(),
            all == views(ls@),
            all == lines_of(out@),
            lines_version(all) == lines_version(all.skip(i as int)),
        decreases ls.len() - i,
    {
        let ghost rest = all.skip(i as int);
        assert(rest[0] == ls@[i as int]@);
        let line = trim(ls[i].as_str());
        if let Some(stripped) = strip_prefix(line.as_str(), "Version:") {
            let text = trim(stripped.as_str());
            let version = parse_version(text.as_str());
            if version.is_some() {
                return version;
            }
        }
        assert(rest.drop_first() =~= all.skip(i as int + 1));
        i = i + 1;
    }
    assert(all.skip(i as int) =~= Seq::<Seq<char>>::empty());
    parse_first_semver(out)
}

/// What a detector is about to ask for.
#[derive(Debug, Clone, Copy, PartialEq, Eq, Structural)]
pub enum Stage {
    K3sVersion,
    ContainerdVersion,
    ContainerdV,
    CtrVersion,
    Done,
}

/// The command of a stage.
pub open spec fn command_of(stage: Stage) -> Option<CommandLineView> {
    match stage {
        Stage::K3sVersion => Some(CommandLineView { program: "k3s"@, args: seq!["--version"@] }),
        Stage::ContainerdVersion => Some(
            CommandLineView { program: "containerd"@, args: seq!["--version"@] },
        ),
        Stage::ContainerdV => Some(CommandLineView { program: "containerd"@, args: seq!["-v"@] }),
        Stage::CtrVersion => Some(CommandLineView { program: "ctr"@, args: seq!["version"@] }),
        Stage::Done => None,
    }
}

/// What a detector has found out, as a value.
pub ghost struct DetectorView {
    pub stage: Stage,
    pub k3s: bool,
    pub k3s_version: Option<VersionView>,
    pub containerd_version: Option<VersionView>,
}

/// A detector at its start.
pub open spec fn new_detector(k3s: bool) -> DetectorView {
    DetectorView {
        stage: if k3s {
            Stage::K3sVersion
        } else {
            Stage::ContainerdVersion
        },
        k3s,
        k3s_version: None,
        containerd_version: None,
    }
}

impl DetectorView {
    /// The detector once a command printed something, or failed. The version of containerd is
    /// asked for in three ways, until one does not fail.
    pub open spec fn after(self, out: Option<Seq<char>>) -> DetectorView {
        match self.stage {
            Stage::K3sVersion => DetectorView {
                stage: Stage::ContainerdVersion,
                k3s_version: match out {
                    Some(s) => first_version(s),
                    None => None,
                },
                ..self
            },
            Stage::ContainerdVersion => match out {
                Some(s) => DetectorView {
                    stage: Stage::Done,
                    containerd_version: first_version(s),
                    ..self
                },
                None => DetectorView { stage: Stage::ContainerdV, ..self },
            },
            Stage::ContainerdV => match out {
                Some(s) => DetectorView {
                    stage: Stage::Done,
                    containerd_version: first_version(s),
                    ..self
                },
                None => DetectorView { stage: Stage::CtrVersion, ..self },
            },
            Stage::CtrVersion => DetectorView {
                stage: Stage::Done,
                containerd_version: match out {
                    Some(s) => ctr_version_of(s),
                    None => None,
                },
                ..self
            },
            Stage::Done => self,
        }
    }

    /// What was found out.
    pub open spec fn detection(self) -> DetectionView {
        DetectionView {
            env: if self.k3s {
                EnvView::K3s(self.k3s_version)
            } else {
                EnvView::Containerd
            },
            containerd_version: self.containerd_version,
        }
    }
}

/// Finds out which runtime is there.
pub struct Detector {
    stage: Stage,
    k3s: bool,
    k3s_version: Option<Version>,
    containerd_version: Option<Version>,
}

impl View for Detector {
    type V = DetectorView;

    closed spec fn view(&self) -> DetectorView {
        DetectorView {
            stage: self.stage,
            k3s: self.k3s,
            k3s_version: version_view(self.k3s_version),
            containerd_version: version_view(self.containerd_version),
        }
    }
}

impl Detector {
    /// A detector for the mode that is asked for, given whether K3s is installed.
    pub fn new(mode: Mode, k3s_installed: bool) -> (r: Detector)
        ensures
            r@ == new_detector(runs_k3s(mode, k3s_installed)),
    {
        let k3s: bool = match mode {
            Mode::K3s => true,
            Mode::Containerd => false,
            Mode::Auto => k3s_installed,
        };
        let stage = if k3s {
            Stage::K3sVersion
        } else {
            Stage::ContainerdVersion
        };
        Detector { stage, k3s, k3s_version: None, containerd_version: None }
    }

    /// The command that is to be run next; `None` where all is found out.
    pub fn next_command(&self) -> (r: Option<CommandLine>)
        ensures
            match r {
                Some(c) => command_of(self@.stage) == Some(c@),
                None => command_of(self@.stage) is None,
            },
    {
        match self.stage {
            Stage::K3sVersion => Some(one_argument("k3s", "--version")),
            Stage::ContainerdVersion => Some(one_argument("containerd", "--version")),
            Stage::ContainerdV => Some(one_argument("containerd", "-v")),
            Stage::CtrVersion => Some(one_argument("ctr", "version")),
            Stage::Done => None,
        }
    }

    /// Takes in what the command printed; `None` where it failed.
    pub fn give(&mut self, out: Option<String>)
        ensures
            final(self)@ == old(self)@.after(opt_view(out)),
    {
        match self.stage {
            Stage::K3sVersion => {
                self.k3s_version = match out {
                    Some(s) => parse_first_semver(s.as_str()),
                    None => None,
                };
                self.stage = Stage::ContainerdVersion;
            },
            Stage::ContainerdVersion => match out {
                Some(s) => {
                    self.containerd_version = parse_first_semver(s.as_str());
                    self.stage = Stage::Done;
                },
                None => {
                    self.stage = Stage::ContainerdV;
                },
            },
            Stage::ContainerdV => match out {
                Some(s) => {
                    self.containerd_version = parse_first_semver(s.as_str());
                    self.stage = Stage::Done;
                },
                None => {
                    self.stage = Stage::CtrVersion;
                },
            },
            Stage::CtrVersion => {
                self.containerd_version = match out {
                    Some(s) => parse_ctr_version(s.as_str()),
                    None => None,
                };
                self.stage = Stage::Done;
            },
            Stage::Done => {},
        }
    }

    /// What was found out.
    pub fn detection(self) -> (r: Detection)
        ensures
            r@ == self@.detection(),
    {
        let env = if self.k3s {
            EnvKind::K3s { version: self.k3s_version }
        } else {
            EnvKind::Containerd
        };
        Detection { env, containerd_version: self.containerd_version }
    }
}

/// A program with one argument.
fn one_argument(program: &str, arg: &str) -> (r: CommandLine)
    ensures
        r@ == (CommandLineView { program: program@, args: seq![arg@] }),
{
    let mut args: Vec<String> = Vec::new();
    args.push(arg.to_string());
    assert(views(args@) =~= seq![arg@]);
    CommandLine { program: program.to_string(), args }
}

/// The detector once commands printed something, one after the other.
pub open spec fn after_all(d: DetectorView, outs: Seq<Option<Seq<char>>>) -> DetectorView
    decreases outs.len(),
{
    if outs.len() == 0 {
        d
    } else {
        after_all(d, outs.drop_last()).after(outs.last())
    }
}

/// How many commands are to be run at most from a stage.
pub open spec fn commands_left(stage: Stage) -> nat {
    match stage {
        Stage::K3sVersion => 4,
        Stage::ContainerdVersion => 3,
        Stage::ContainerdV => 2,
        Stage::CtrVersion => 1,
        Stage::Done => 0,
    }
}

/// Detection ends: each answer leaves fewer commands to be run, and at most four are run.
pub proof fn law_detection_ends(d: DetectorView, out: Option<Seq<char>>)
    requires
        d.stage != Stage::Done,
    ensures
        commands_left(d.after(out).stage) < commands_left(d.stage) <= 4,
{
}

/// Where containerd answers, nothing else is asked for its version.
pub proof fn law_first_answer_settles(k3s_out: Option<Seq<char>>, out: Seq<char>)
    ensures
        ({
            let d = after_all(new_detector(true), seq![k3s_out, Some(out)]);
            d.stage == Stage::Done && d.containerd_version == first_version(out)
        }),
        ({
            let d = after_all(new_detector(false), seq![Some(out)]);
            d.stage == Stage::Done && d.containerd_version == first_version(out)
        }),
{
    let two = seq![k3s_out, Some(out)];
    assert(two.drop_last() =~= seq![k3s_out]);
    assert(two.drop_last().drop_last() =~= Seq::<Option<Seq<char>>>::empty());
    let one = seq![Some(out)];
    assert(one.drop_last() =~= Seq::<Option<Seq<char>>>::empty());
    reveal_with_fuel(after_all, 3);
}

/// Where every command fails, no version is known.
pub proof fn law_no_answer_no_version()
    ensures
        ({
            let d = after_all(new_detector(false), seq![None, None, None]);
            d.stage == Stage::Done && d.containerd_version is None
        }),
{
    let three: Seq<Option<Seq<char>>> = seq![None, None, None];
    assert(three.drop_last() =~= seq![None, None]);
    assert(three.drop_last().drop_last() =~= seq![None]);
    assert(three.drop_last().drop_last().drop_last() =~= Seq::<Option<Seq<char>>>::empty());
    reveal_with_fuel(after_all, 4);
}

}
