//! Commands that are run on the node or, from inside a container, on its host.

use vstd::prelude::*;

use crate::decimal::{dec_int, i32_to_string};
use crate::nri_init::error::{NriError, NriErrorView};
use crate::nri_init::opts::Nsenter;
use crate::text::{concat, lossy_text, text_from_bytes, views};

verus! {

/// Where commands are run.
#[derive(Clone, Debug)]
pub enum Runner {
    Local,
    Nsenter(Nsenter),
}

/// A program with its arguments.
#[derive(Debug)]
pub struct CommandLine {
    pub program: String,
    pub args: Vec<String>,
}

/// A program with its arguments, as a value.
pub ghost struct CommandLineView {
    pub program: Seq<char>,
    pub args: Seq<Seq<char>>,
}

impl View for CommandLine {
    type V = CommandLineView;

    open spec fn view(&self) -> CommandLineView {
        CommandLineView { program: self.program@, args: views(self.args@) }
    }
}

/// The arguments that enter all namespaces of the first process before a program is run there.
pub open spec fn enter_args(program: Seq<char>) -> Seq<Seq<char>> {
    seq![
        "--target"@,
        "1"@,
        "--mount"@,
        "--uts"@,
        "--ipc"@,
        "--net"@,
        "--pid"@,
        "--"@,
        program,
    ]
}

impl Runner {
    /// What is run to run a command there.
    pub open spec fn line_of(&self, cmd: CommandLineView) -> CommandLineView {
        match *self {
            Runner::Local => cmd,
            Runner::Nsenter(ns) => CommandLineView {
                program: ns.path@,
                args: enter_args(cmd.program) + cmd.args,
            },
        }
    }

    /// What is run to run a command there.
    pub fn command_line(&self, cmd: CommandLine) -> (r: CommandLine)
        ensures
            r@ == self.line_of(cmd@),
    {
        match self {
            Runner::Local => cmd,
            Runner::Nsenter(ns) => {
                let ghost before = cmd@;
                let mut args: Vec<String> = Vec::new();
                args.push("--target".to_string());
                args.push("1".to_string());
                args.push("--mount".to_string());
                args.push("--uts".to_string());
                args.push("--ipc".to_string());
                args.push("--net".to_string());
                args.push("--pid".to_string());
                args.push("--".to_string());
                args.push(cmd.program);
                assert(views(args@) =~= enter_args(before.program));
                let ghost first = args@;
                let mut rest = cmd.args;
                args.append(&mut rest);
                assert(views(args@) =~= views(first) + before.args);
                CommandLine { program: ns.path.clone(), args }
            },
        }
    }
}

/// The runner that the options ask for.
pub fn default_runner(nsenter: &Option<Nsenter>) -> (r: Runner)
    ensures
        match (*nsenter, r) {
            (None, Runner::Local) => true,
            (Some(n), Runner::Nsenter(m)) => m.path@ == n.path@,
            _ => false,
        },
{
    match nsenter {
        Some(ns) => Runner::Nsenter(Nsenter { path: ns.path.clone() }),
        None => Runner::Local,
    }
}

/// How a command ended: with an exit code, where it has one, and what it wrote; or it could not be
/// run, because the program is missing or for another reason.
#[derive(Debug)]
pub enum CommandEnd {
    Exited { code: Option<i32>, stdout: Vec<u8>, stderr: Vec<u8> },
    ProgramMissing(String),
    NotRun(String),
}

/// An exit code and what was written.
#[derive(Debug)]
pub struct Captured {
    pub code: i32,
    pub stdout: String,
    pub stderr: String,
}

/// An exit code and what was written, as a value.
pub ghost struct CapturedView {
    pub code: i32,
    pub stdout: Seq<char>,
    pub stderr: Seq<char>,
}

impl View for Captured {
    type V = CapturedView;

    open spec fn view(&self) -> CapturedView {
        CapturedView { code: self.code, stdout: self.stdout@, stderr: self.stderr@ }
    }
}

/// What a command that ended gives. A missing program counts as one that exits with 127, and one
/// without an exit code as one that exits with -1.
pub open spec fn capture_of(end: CommandEnd) -> Result<CapturedView, NriErrorView> {
    match end {
        CommandEnd::Exited { code, stdout, stderr } => Ok(
            captured_with(code, lossy_text(stdout@), lossy_text(stderr@)),
        ),
        CommandEnd::ProgramMissing(text) => Ok(
            CapturedView { code: 127, stdout: Seq::empty(), stderr: text@ },
        ),
        CommandEnd::NotRun(text) => Err(NriErrorView::Io(text@)),
    }
}

/// What an exit code and the written texts give.
pub open spec fn captured_with(
    code: Option<i32>,
    stdout: Seq<char>,
    stderr: Seq<char>,
) -> CapturedView {
    CapturedView {
        code: match code {
            Some(c) => c,
            None => -1i32,
        },
        stdout,
        stderr,
    }
}

/// What an exit code and the written texts give.
pub fn capture_texts(code: Option<i32>, stdout: String, stderr: String) -> (r: Captured)
    ensures
        r@ == captured_with(code, stdout@, stderr@),
{
    let code: i32 = match code {
        Some(c) => c,
        None => -1,
    };
    Captured { code, stdout, stderr }
}

/// A list of texts as `Debug` shows it.
pub uninterp spec fn debug_list(items: Seq<Seq<char>>) -> Seq<char>;

/// A list of texts as text: `Debug` of `Vec<String>`.
#[verifier::external_body]
pub(crate) fn show_list(items: &Vec<String>) -> (r: String)
    ensures
        r@ == debug_list(views(items@)),
{
    format!("{:?}", items)
}

/// What a failed command is reported with, given its arguments as text.
pub open spec fn failure_text(program: Seq<char>, args: Seq<char>, c: CapturedView) -> Seq<char> {
    program + " "@ + args + " -> "@ + dec_int(c.code as int) + ": "@ + c.stderr
}

/// What a command wrote that exited with zero; any other is an error.
pub open spec fn ok_output(program: Seq<char>, args: Seq<char>, c: CapturedView) -> Result<
    Seq<char>,
    NriErrorView,
> {
    if c.code == 0 {
        Ok(c.stdout)
    } else {
        Err(NriErrorView::CommandFailed(failure_text(program, args, c)))
    }
}

/// What a command wrote that exited with zero, given its arguments as text.
pub fn checked_output(program: &str, args: &str, captured: Captured) -> (r: Result<String, NriError>)
    ensures
        match ok_output(program@, args@, captured@) {
            Ok(s) => r is Ok && r->Ok_0@ == s,
            Err(e) => r is Err && r->Err_0@ == e,
        },
{
    if captured.code == 0 {
        return Ok(captured.stdout);
    }
    let mut text = concat(program, " ");
    text.append(args);
    text.append(" -> ");
    let code = i32_to_string(captured.code);
    text.append(code.as_str());
    text.append(": ");
    text.append(captured.stderr.as_str());
    assert(text@ =~= failure_text(program@, args@, captured@));
    Err(NriError::CommandFailed(text))
}

impl Runner {
    /// What a command that ended gives.
    pub fn run_capture(&self, end: CommandEnd) -> (r: Result<Captured, NriError>)
        ensures
            match capture_of(end) {
                Ok(c) => r is Ok && r->Ok_0@ == c,
                Err(e) => r is Err && r->Err_0@ == e,
            },
    {
        match end {
            CommandEnd::Exited { code, stdout, stderr } => {
                let out = text_from_bytes(stdout.as_slice());
                let err = text_from_bytes(stderr.as_slice());
                Ok(capture_texts(code, out, err))
            },
            CommandEnd::ProgramMissing(text) => {
                let none = String::new();
                assert(none@ =~= Seq::<char>::empty());
                Ok(Captured { code: 127, stdout: none, stderr: text })
            },
            CommandEnd::NotRun(text) => Err(NriError::Io(text)),
        }
    }

    /// What a command wrote that ended with exit code zero.
    pub fn run_ok(&self, cmd: &CommandLine, end: CommandEnd) -> (r: Result<String, NriError>)
        ensures
            match capture_of(end) {
                Err(e) => r is Err && r->Err_0@ == e,
                Ok(c) => match ok_output(cmd@.program, debug_list(cmd@.args), c) {
                    Ok(s) => r is Ok && r->Ok_0@ == s,
                    Err(e) => r is Err && r->Err_0@ == e,
                },
            },
    {
        let captured = match self.run_capture(end) {
            Ok(c) => c,
            Err(e) => {
                return Err(e);
            },
        };
        let args = show_list(&cmd.args);
        checked_output(cmd.program.as_str(), args.as_str(), captured)
    }
}

}
