//! Laws of what is asked for, detected, run, configured and restarted.

use vstd::prelude::*;

use crate::decimal::{dec, parse_u128_of};
use crate::nri_init::cmd::{capture_of, ok_output, CapturedView, CommandEnd, CommandLineView, Runner};
use crate::nri_init::containerd::{configured, configuring_changes, law_configuring_is_idempotent};
use crate::nri_init::course::{actions_from, outcome, CourseActionView, NodeAnswers, StageView};
use crate::nri_init::detect::{
    after_all, command_of, ctr_version_of, line_version, lines_version, new_detector, runs_k3s,
    DetectorView, EnvView, Stage,
};
use crate::nri_init::error::NriErrorView;
use crate::nri_init::opts::{
    level_filter, level_named, says_yes, takes_value, whole, LogLevel, Mode,
    OptionsView,
};
use crate::nri_init::run::{
    configuration_of, socket_of, too_old, ConfigurationView, OutcomeView,
};
use crate::nri_init::toml_util::{
    below, enabled, enabled_section, enabling_changes, item_of, law_enabling_is_idempotent,
    law_settled_section_stays, with_below, with_item, with_table, with_version, Items, Node, NRI_KEY,
};
use crate::nri_init::verify::{
    action_of, follows, line_start, lines_start, observed, ActionView, RestartAnswer,
    RestartResult, RestartStage, Service,
};
use crate::nri_init::version::{first_version, parsed_version, version_of, VersionView};
use crate::search::begins;
use crate::text::{lines_of, lossy_text, trimmed};

verus! {

// ---------------------------------------------------------------------------
// Options
// ---------------------------------------------------------------------------

proof fn lemma_value_flags()
    ensures
        "--mode"@.len() == 6,
        "--nsenter-path"@.len() == 14,
        "--containerd-config"@.len() == 19,
        "--socket-path"@.len() == 13,
        "--k3s-template-dir"@.len() == 18,
        "--log-level"@.len() == 11,
        "--dry-run"@.len() == 9,
        "--restart"@.len() == 9,
        "--dry-run"@[2] == 'd',
        "--restart"@[2] == 'r',
        "--configure"@.len() == 11,
        "--configure"@[2] == 'c',
        "--log-level"@[2] == 'l',
        "--no-configure"@.len() == 14,
        "--no-configure"@[3] == 'o',
        "--nsenter-path"@[3] == 's',
        "--no-restart"@.len() == 12,
        "--fail-if-unavailable"@.len() == 21,
        "--no-fail-if-unavailable"@.len() == 24,
{
    reveal_strlit("--mode");
    reveal_strlit("--nsenter-path");
    reveal_strlit("--containerd-config");
    reveal_strlit("--socket-path");
    reveal_strlit("--k3s-template-dir");
    reveal_strlit("--log-level");
    reveal_strlit("--dry-run");
    reveal_strlit("--restart");
    reveal_strlit("--configure");
    reveal_strlit("--no-configure");
    reveal_strlit("--no-restart");
    reveal_strlit("--fail-if-unavailable");
    reveal_strlit("--no-fail-if-unavailable");
}

proof fn lemma_args_then_value(
    o: OptionsView,
    args: Seq<Seq<char>>,
    flag: Seq<char>,
    value: Seq<char>,
)
    requires
        whole(args),
        takes_value(flag),
    ensures
        o.with_args(args.push(flag).push(value)) == o.with_args(args).with_value(flag, value),
        o.with_args(args.push(flag)) == o.with_args(args),
    decreases args.len(),
{
    let all = args.push(flag).push(value);
    let short = args.push(flag);
    if args.len() == 0 {
        assert(all.skip(2) =~= Seq::<Seq<char>>::empty());
        reveal_with_fuel(OptionsView::with_args, 2);
    } else {
        assert(all[0] == args[0]);
        assert(short[0] == args[0]);
        if takes_value(args[0]) {
            assert(all[1] == args[1]);
            assert(short[1] == args[1]);
            assert(all.skip(2) =~= args.skip(2).push(flag).push(value));
            assert(short.skip(2) =~= args.skip(2).push(flag));
            lemma_args_then_value(o.with_value(args[0], args[1]), args.skip(2), flag, value);
        } else {
            assert(all.skip(1) =~= args.skip(1).push(flag).push(value));
            assert(short.skip(1) =~= args.skip(1).push(flag));
            lemma_args_then_value(o.with_flag(args[0]), args.skip(1), flag, value);
        }
    }
}

/// A flag with a value decides its own setting, whatever was said before, and no other; without the
/// value it decides nothing.
pub proof fn law_values_decide_their_own_setting(
    o: OptionsView,
    args: Seq<Seq<char>>,
    flag: Seq<char>,
    value: Seq<char>,
)
    requires
        whole(args),
        takes_value(flag),
    ensures
        o.with_args(args.push(flag)) == o.with_args(args),
        ({
            let s = o.with_args(args);
            let t = o.with_args(args.push(flag).push(value));
            &&& t.configure == s.configure && t.restart == s.restart && t.dry_run == s.dry_run
                && t.fail_if_unavailable == s.fail_if_unavailable
            &&& t.nsenter == if flag == "--nsenter-path"@ { Some(value) } else { s.nsenter }
            &&& t.socket_path == if flag == "--socket-path"@ { Some(value) } else { s.socket_path }
            &&& t.containerd_config_path == if flag == "--containerd-config"@ {
                Some(value)
            } else {
                s.containerd_config_path
            }
            &&& t.k3s_template_dir == if flag == "--k3s-template-dir"@ {
                Some(value)
            } else {
                s.k3s_template_dir
            }
            &&& flag != "--mode"@ ==> t.mode == s.mode
            &&& flag == "--mode"@ && value == "k3s"@ ==> t.mode == Mode::K3s
            &&& flag == "--mode"@ && value == "containerd"@ ==> t.mode == Mode::Containerd
            &&& flag == "--mode"@ && value != "k3s"@ && value != "containerd"@ ==> t.mode
                == Mode::Auto
            &&& flag != "--log-level"@ ==> t.log_level == s.log_level
            &&& forall|l: LogLevel|
                flag == "--log-level"@ && value == #[trigger] level_filter(l) ==> t.log_level == l
        }),
{
    lemma_args_then_value(o, args, flag, value);
    lemma_value_flags();
    law_levels_have_their_names(LogLevel::Info);
    reveal_strlit("k3s");
    reveal_strlit("containerd");
    assert("k3s"@.len() == 3);
    assert("containerd"@.len() == 10);
    assert forall|l: LogLevel|
        flag == "--log-level"@ && value == #[trigger] level_filter(l) implies o.with_args(
        args.push(flag).push(value),
    ).log_level == l by {
        law_levels_have_their_names(l);
    }
}

/// A flag without a value touches no setting that takes one, and `--dry-run` is the only one that
/// asks for a dry run.
pub proof fn law_flags_leave_values_alone(o: OptionsView, flag: Seq<char>)
    requires
        !takes_value(flag),
    ensures
        ({
            let t = o.with_args(seq![flag]);
            &&& t.mode == o.mode
            &&& t.nsenter == o.nsenter
            &&& t.log_level == o.log_level
            &&& t.containerd_config_path == o.containerd_config_path
            &&& t.socket_path == o.socket_path
            &&& t.k3s_template_dir == o.k3s_template_dir
            &&& t.dry_run == (o.dry_run || flag == "--dry-run"@)
        }),
{
    lemma_value_flags();
    assert(seq![flag].skip(1) =~= Seq::<Seq<char>>::empty());
    reveal_with_fuel(OptionsView::with_args, 2);
}

/// The environment decides the three settings that it names, each for itself, and nothing else.
pub proof fn law_environment_decides_for_itself(
    o: OptionsView,
    configure: Option<Seq<char>>,
    restart: Option<Seq<char>>,
    fail_if_unavailable: Option<Seq<char>>,
)
    ensures
        ({
            let t = o.with_env(configure, restart, fail_if_unavailable);
            &&& configure is None ==> t.configure == o.configure
            &&& restart is None ==> t.restart == o.restart
            &&& fail_if_unavailable is None ==> t.fail_if_unavailable == o.fail_if_unavailable
            &&& configure matches Some(v) ==> t.configure == says_yes(v)
            &&& restart matches Some(v) ==> t.restart == says_yes(v)
            &&& fail_if_unavailable matches Some(v) ==> t.fail_if_unavailable == says_yes(v)
            &&& t.mode == o.mode && t.nsenter == o.nsenter && t.log_level == o.log_level
                && t.dry_run == o.dry_run && t.socket_path == o.socket_path
            &&& t.containerd_config_path == o.containerd_config_path && t.k3s_template_dir
                == o.k3s_template_dir
        }),
{
}

/// The words that say yes, with or without white space round them.
pub proof fn law_words_that_say_yes(s: Seq<char>)
    ensures
        says_yes(s) <==> seq!["1"@, "true"@, "TRUE"@, "True"@, "yes"@, "on"@].contains(trimmed(s)),
{
    let words = seq!["1"@, "true"@, "TRUE"@, "True"@, "yes"@, "on"@];
    assert(words[0] == "1"@ && words[1] == "true"@ && words[2] == "TRUE"@ && words[3] == "True"@
        && words[4] == "yes"@ && words[5] == "on"@);
}

/// Every level is found again under its own name.
pub proof fn law_levels_have_their_names(level: LogLevel)
    ensures
        level_named(level_filter(level)) == level,
{
    reveal_strlit("error");
    reveal_strlit("warn");
    reveal_strlit("info");
    reveal_strlit("debug");
    reveal_strlit("trace");
    assert("error"@[0] == 'e' && "warn"@[0] == 'w' && "info"@[0] == 'i' && "debug"@[0] == 'd'
        && "trace"@[0] == 't');
}

/// The host's namespaces are entered where they are there, with a program of the default name unless
/// another was given; nothing else depends on them.
pub proof fn law_host_decides_how_to_enter(o: OptionsView, host_namespaces: bool)
    ensures
        ({
            let t = o.with_host(host_namespaces);
            &&& o.nsenter is Some ==> t == o
            &&& !host_namespaces ==> t == o
            &&& o.nsenter is None && host_namespaces ==> t.nsenter == Some("nsenter"@)
            &&& t.configure == o.configure && t.restart == o.restart && t.dry_run == o.dry_run
                && t.fail_if_unavailable == o.fail_if_unavailable && t.mode == o.mode
            &&& t.log_level == o.log_level && t.socket_path == o.socket_path
                && t.containerd_config_path == o.containerd_config_path && t.k3s_template_dir
                == o.k3s_template_dir
        }),
{
}

// ---------------------------------------------------------------------------
// Detection
// ---------------------------------------------------------------------------

/// A mode that is asked for is what is detected; what is installed decides where none is.
pub proof fn law_mode_goes_before_what_is_installed(installed: bool)
    ensures
        runs_k3s(Mode::K3s, installed),
        !runs_k3s(Mode::Containerd, installed),
        runs_k3s(Mode::Auto, installed) == installed,
{
}

/// The version of containerd is that of the first of the three commands that does not fail, whatever
/// the others would say; the version of K3s is what K3s says of itself.
pub proof fn law_first_command_that_answers_decides(
    k3s_out: Option<Seq<char>>,
    first: Option<Seq<char>>,
    second: Option<Seq<char>>,
    third: Option<Seq<char>>,
)
    ensures
        ({
            let d = after_all(new_detector(true), seq![k3s_out, first, second, third]);
            let c = after_all(new_detector(false), seq![first, second, third]);
            let version = if first is Some {
                first_version(first.unwrap())
            } else if second is Some {
                first_version(second.unwrap())
            } else if third is Some {
                ctr_version_of(third.unwrap())
            } else {
                None
            };
            &&& d.stage == Stage::Done && c.stage == Stage::Done
            &&& d.detection().containerd_version == version
            &&& c.detection().containerd_version == version
            &&& c.detection().env is Containerd
            &&& d.detection().env == EnvView::K3s(
                if k3s_out is Some {
                    first_version(k3s_out.unwrap())
                } else {
                    None
                },
            )
        }),
{
    let four = seq![k3s_out, first, second, third];
    assert(four.drop_last() =~= seq![k3s_out, first, second]);
    assert(four.drop_last().drop_last() =~= seq![k3s_out, first]);
    assert(four.drop_last().drop_last().drop_last() =~= seq![k3s_out]);
    assert(seq![k3s_out].drop_last() =~= Seq::<Option<Seq<char>>>::empty());
    let three = seq![first, second, third];
    assert(three.drop_last() =~= seq![first, second]);
    assert(three.drop_last().drop_last() =~= seq![first]);
    assert(seq![first].drop_last() =~= Seq::<Option<Seq<char>>>::empty());
    reveal_with_fuel(after_all, 5);
}

/// The commands of a detection, in the order in which they are tried while each fails.
pub proof fn law_commands_of_a_detection(d: DetectorView)
    ensures
        command_of(new_detector(true).stage) == Some(
            CommandLineView { program: "k3s"@, args: seq!["--version"@] },
        ),
        command_of(new_detector(false).stage) == Some(
            CommandLineView { program: "containerd"@, args: seq!["--version"@] },
        ),
        command_of(new_detector(true).after(None).stage) == command_of(new_detector(false).stage),
        command_of(new_detector(false).after(None).stage) == Some(
            CommandLineView { program: "containerd"@, args: seq!["-v"@] },
        ),
        command_of(new_detector(false).after(None).after(None).stage) == Some(
            CommandLineView { program: "ctr"@, args: seq!["version"@] },
        ),
        command_of(d.stage) is None ==> forall|out: Option<Seq<char>>| #[trigger] d.after(out) == d,
{
}

/// The version that `ctr version` prints is that of its first line that gives one, and that of the
/// text only where no line does.
pub proof fn law_first_line_with_a_version_decides(ls: Seq<Seq<char>>)
    ensures
        match lines_version(ls) {
            Some(v) => exists|i: int|
                0 <= i < ls.len() && line_version(#[trigger] ls[i]) == Some(v) && forall|j: int|
                    0 <= j < i ==> line_version(#[trigger] ls[j]) is None,
            None => forall|i: int| 0 <= i < ls.len() ==> line_version(#[trigger] ls[i]) is None,
        },
    decreases ls.len(),
{
    if ls.len() > 0 {
        let rest = ls.drop_first();
        law_first_line_with_a_version_decides(rest);
        if line_version(ls[0]) is None {
            match lines_version(rest) {
                Some(v) => {
                    let i = choose|i: int|
                        0 <= i < rest.len() && line_version(#[trigger] rest[i]) == Some(v)
                            && forall|j: int|
                            0 <= j < i ==> line_version(#[trigger] rest[j]) is None;
                    assert(ls[i + 1] == rest[i]);
                    assert forall|j: int| 0 <= j < i + 1 implies line_version(
                        #[trigger] ls[j],
                    ) is None by {
                        if j > 0 {
                            assert(ls[j] == rest[j - 1]);
                        }
                    }
                },
                None => {
                    assert forall|i: int| 0 <= i < ls.len() implies line_version(
                        #[trigger] ls[i],
                    ) is None by {
                        if i > 0 {
                            assert(ls[i] == rest[i - 1]);
                        }
                    }
                },
            }
        } else {
            assert(line_version(ls[0]) == lines_version(ls));
        }
    }
}

/// Versions are ordered by their numbers, the first that differs first, and a pre-release comes right
/// before its release.
pub proof fn law_versions_are_ordered(v: VersionView, major: u64, minor: u64, patch: u64)
    ensures
        v.pre.len() == 0 && v.major != major ==> (v.before(major, minor, patch) <==> v.major
            < major),
        v.pre.len() == 0 && v.major == major && v.minor != minor ==> (v.before(major, minor, patch)
            <==> v.minor < minor),
        v.pre.len() == 0 && v.major == major && v.minor == minor ==> (v.before(major, minor, patch)
            <==> v.patch < patch),
        v.pre.len() > 0 ==> v.before(v.major, v.minor, v.patch),
        v.pre.len() > 0 && (v.major, v.minor, v.patch) != (major, minor, patch) ==> (v.before(
            major,
            minor,
            patch,
        ) <==> (VersionView { pre: Seq::empty(), ..v }).before(major, minor, patch)),
{
}

/// The text of a version: its numbers with dots between them, and the other parts behind their
/// marks, where there are any.
pub proof fn law_text_of_a_version(v: VersionView)
    ensures
        v.pre.len() == 0 && v.build.len() == 0 ==> v.text() == dec(v.major as nat) + "."@ + dec(
            v.minor as nat,
        ) + "."@ + dec(v.patch as nat),
        v.pre.len() > 0 && v.build.len() == 0 ==> v.text() == (VersionView {
            pre: Seq::empty(),
            ..v
        }).text() + "-"@ + v.pre,
        v.build.len() > 0 ==> v.text() == (VersionView { build: Seq::empty(), ..v }).text() + "+"@
            + v.build,
{
}

// ---------------------------------------------------------------------------
// Commands
// ---------------------------------------------------------------------------

/// A command is run as it is on the node; on the host it is the last thing that the entering program
/// is given, with all its arguments, behind those that name all namespaces of the first process.
pub proof fn law_commands_are_run_as_they_are(runner: Runner, cmd: CommandLineView)
    ensures
        runner is Local ==> runner.line_of(cmd) == cmd,
        runner matches Runner::Nsenter(ns) ==> {
            let line = runner.line_of(cmd);
            &&& line.program == ns.path@
            &&& line.args.len() == 9 + cmd.args.len()
            &&& line.args.skip(9) == cmd.args
            &&& line.args[8] == cmd.program
            &&& line.args.take(8) == seq![
                "--target"@,
                "1"@,
                "--mount"@,
                "--uts"@,
                "--ipc"@,
                "--net"@,
                "--pid"@,
                "--"@,
            ]
        },
{
    if let Runner::Nsenter(ns) = runner {
        let line = runner.line_of(cmd);
        assert(line.args.skip(9) =~= cmd.args);
        assert(line.args.take(8) =~= seq![
            "--target"@,
            "1"@,
            "--mount"@,
            "--uts"@,
            "--ipc"@,
            "--net"@,
            "--pid"@,
            "--"@,
        ]);
    }
}

/// A command has succeeded exactly where it was run and exited with zero, and then what it wrote is
/// what it gives; a program that is missing never has, nor has one without an exit code.
pub proof fn law_success_is_exit_with_zero(program: Seq<char>, args: Seq<char>, end: CommandEnd)
    ensures
        (capture_of(end) matches Ok(c) && ok_output(program, args, c) is Ok) <==> (
        end matches CommandEnd::Exited { code, .. } && code == Some(0i32)),
        end matches CommandEnd::NotRun(text) ==> capture_of(end) == Err::<
            CapturedView,
            NriErrorView,
        >(NriErrorView::Io(text@)),
        end matches CommandEnd::Exited { code, stdout, stderr } ==> (capture_of(end) matches Ok(c)
            && c.stdout == lossy_text(stdout@) && c.stderr == lossy_text(
            stderr@,
        ) && (code is Some ==> c.code == code.unwrap())),
        end matches CommandEnd::ProgramMissing(text) ==> (capture_of(end) matches Ok(c) && c.stderr
            == text@ && c.stdout.len() == 0),
        forall|c: CapturedView| #[trigger]
            ok_output(program, args, c) is Ok ==> ok_output(program, args, c) == Ok::<
                Seq<char>,
                NriErrorView,
            >(c.stdout),
{
}

// ---------------------------------------------------------------------------
// Configuration of containerd
// ---------------------------------------------------------------------------

proof fn lemma_section_keys()
    ensures
        "disable"@.len() == 7,
        "disable_connections"@.len() == 19,
        "plugin_config_path"@.len() == 18,
        "plugin_path"@.len() == 11,
        "plugin_registration_timeout"@.len() == 27,
        "plugin_request_timeout"@.len() == 22,
        "socket_path"@.len() == 11,
        "plugin_path"@[0] == 'p',
        "socket_path"@[0] == 's',
{
    reveal_strlit("disable");
    reveal_strlit("disable_connections");
    reveal_strlit("plugin_config_path");
    reveal_strlit("plugin_path");
    reveal_strlit("plugin_registration_timeout");
    reveal_strlit("plugin_request_timeout");
    reveal_strlit("socket_path");
}

/// What holds for a setting that is given if it is, and else by default.
pub open spec fn given_or(item: Option<Node>, otherwise: Node) -> Option<Node> {
    match item {
        Some(n) => Some(n),
        None => Some(otherwise),
    }
}

/// Enabling turns off what disables, sets the socket, gives every other setting its default where it
/// is missing, and keeps what is given. Nothing else in the section changes.
pub proof fn law_section_gets_what_it_lacks(t: Items, socket_path: Seq<char>, other: Seq<char>)
    requires
        other != "disable"@,
        other != "disable_connections"@,
        other != "plugin_config_path"@,
        other != "plugin_path"@,
        other != "plugin_registration_timeout"@,
        other != "plugin_request_timeout"@,
        other != "socket_path"@,
    ensures
        ({
            let s = enabled_section(t, socket_path);
            &&& item_of(s, "socket_path"@) == Some(Node::Str(socket_path))
            &&& item_of(s, "disable_connections"@) == given_or(
                item_of(t, "disable_connections"@),
                Node::Bool(false),
            )
            &&& item_of(s, "plugin_config_path"@) == given_or(
                item_of(t, "plugin_config_path"@),
                Node::Str("/etc/nri/conf.d"@),
            )
            &&& item_of(s, "plugin_path"@) == given_or(
                item_of(t, "plugin_path"@),
                Node::Str("/opt/nri/plugins"@),
            )
            &&& item_of(s, "plugin_registration_timeout"@) == given_or(
                item_of(t, "plugin_registration_timeout"@),
                Node::Str("5s"@),
            )
            &&& item_of(s, "plugin_request_timeout"@) == given_or(
                item_of(t, "plugin_request_timeout"@),
                Node::Str("2s"@),
            )
            &&& item_of(s, other) == item_of(t, other)
            &&& item_of(s, "disable"@) != Some(Node::Bool(true))
            &&& item_of(t, "disable"@) is None ==> item_of(s, "disable"@) == Some(
                Node::Bool(false),
            )
            &&& item_of(t, "disable"@) == Some(Node::Bool(true)) ==> item_of(s, "disable"@) == Some(
                Node::Bool(false),
            )
            &&& item_of(t, "disable"@) == Some(Node::Bool(false)) ==> item_of(s, "disable"@) == Some(
                Node::Bool(false),
            )
            &&& (item_of(t, "disable"@) matches Some(n) && (n is Table || n is ArrayOfTables))
                ==> item_of(s, "disable"@) == Some(Node::Bool(false))
            &&& (item_of(t, "disable"@) matches Some(n) && (n is Str || n is Int || n is OtherValue))
                ==> item_of(s, "disable"@) == item_of(t, "disable"@)
        }),
{
    lemma_section_keys();
    assert forall|m: Items, key: Seq<char>, node: Node, k: Seq<char>| #[trigger]
        item_of(with_item(m, key, node), k) == if k == key {
            Some(node)
        } else {
            item_of(m, k)
        } by {
        assert(seq![key][0] == key);
        assert(seq![k][0] == k);
    }
}

/// The section that enables the plugin interface stands in its place in the configuration, and comes
/// of the one that stood there, or of an empty one.
pub proof fn law_section_stands_in_its_place(m: Items, socket_path: Seq<char>, key: Seq<char>)
    ensures
        ({
            let c = configured(m, socket_path);
            let p = seq!["plugins"@, NRI_KEY@, key];
            let old = if item_of(m, "plugins"@) == Some(Node::Table) && m.dom().contains(
                seq!["plugins"@, NRI_KEY@],
            ) && m[seq!["plugins"@, NRI_KEY@]] == Node::Table {
                below(below(m, "plugins"@), NRI_KEY@)
            } else {
                Map::empty()
            };
            &&& item_of(c, "plugins"@) == Some(Node::Table)
            &&& c.dom().contains(seq!["plugins"@, NRI_KEY@]) && c[seq!["plugins"@, NRI_KEY@]]
                == Node::Table
            &&& c.dom().contains(p) <==> item_of(enabled_section(old, socket_path), key) is Some
            &&& c.dom().contains(p) ==> Some(c[p]) == item_of(
                enabled_section(old, socket_path),
                key,
            )
            &&& item_of(c, "version"@) == given_or(item_of(m, "version"@), Node::Int(2))
        }),
{
    reveal_strlit("version");
    reveal_strlit("plugins");
    assert("version"@[0] == 'v');
    assert("plugins"@[0] == 'p');
    let v = with_version(m);
    let m1 = with_table(v, "plugins"@);
    let plugins = with_table(below(m1, "plugins"@), NRI_KEY@);
    let section = enabled_section(below(plugins, NRI_KEY@), socket_path);
    let filled = with_below(plugins, NRI_KEY@, section);
    let c = configured(m, socket_path);
    let p = seq!["plugins"@, NRI_KEY@, key];
    let place = seq!["plugins"@, NRI_KEY@];
    assert(p.drop_first() =~= seq![NRI_KEY@, key]);
    assert(p.drop_first().drop_first() =~= seq![key]);
    assert(place.drop_first() =~= seq![NRI_KEY@]);
    assert(seq!["plugins"@] + seq![NRI_KEY@] =~= place);
    assert(seq!["plugins"@][0] == "plugins"@);
    assert(seq!["version"@][0] == "version"@);
    assert(seq![NRI_KEY@][0] == NRI_KEY@);
    assert(item_of(v, "plugins"@) == item_of(m, "plugins"@));
    assert(v.dom().contains(place) == m.dom().contains(place));
    if item_of(m, "plugins"@) == Some(Node::Table) && m.dom().contains(place) && m[place]
        == Node::Table {
        assert(below(plugins, NRI_KEY@) =~= below(below(m, "plugins"@), NRI_KEY@));
    } else {
        assert(below(plugins, NRI_KEY@) =~= Map::<Seq<Seq<char>>, Node>::empty());
    }
}

/// A change is told exactly where there is one.
pub proof fn law_changes_are_told(m: Items, socket_path: Seq<char>)
    ensures
        enabling_changes(m, socket_path) <==> enabled(m, socket_path) != m,
        configuring_changes(m, socket_path) <==> configured(m, socket_path) != m,
{
    law_enabling_is_idempotent(m, socket_path);
    law_configuring_is_idempotent(m, socket_path);
    if !enabling_changes(m, socket_path) {
        lemma_unchanged(m, socket_path);
    }
    if !configuring_changes(m, socket_path) {
        lemma_unchanged(m, socket_path);
    }
}

proof fn lemma_unchanged(m: Items, socket_path: Seq<char>)
    requires
        !enabling_changes(m, socket_path),
    ensures
        enabled(m, socket_path) == m,
{
    let plugins = below(m, "plugins"@);
    let section = below(plugins, NRI_KEY@);
    law_settled_section_stays(section, socket_path);
    assert forall|p: Seq<Seq<char>>| p.len() > 1 implies seq![p[0]] + p.drop_first() == p by {
        assert(seq![p[0]] + p.drop_first() =~= p);
    }
    assert(with_below(plugins, NRI_KEY@, section) =~= plugins);
    assert(with_below(m, "plugins"@, plugins) =~= m);
}

// ---------------------------------------------------------------------------
// Restart
// ---------------------------------------------------------------------------

/// The service that a stage is about, and when its main process was started before.
pub open spec fn about(stage: RestartStage) -> Option<(Service, Option<u128>)> {
    match stage {
        RestartStage::Systemctl(svc, before) => Some((svc, before)),
        RestartStage::ServiceCommand(svc, before) => Some((svc, before)),
        RestartStage::Clock(svc, before) => Some((svc, before)),
        RestartStage::Active(svc, before) => Some((svc, before)),
        RestartStage::Show(svc, before) => Some((svc, before)),
        RestartStage::Pause(svc, before) => Some((svc, before)),
        _ => None,
    }
}

/// Whether an answer answers what a stage asks.
pub open spec fn fits(stage: RestartStage, answer: RestartAnswer) -> bool {
    match action_of(stage) {
        ActionView::Output(_) => answer is Output,
        ActionView::Exit(_) => answer is Exit,
        ActionView::Clock => answer is TimeLeft,
        ActionView::Pause => answer is Paused,
        ActionView::Finished => false,
    }
}

/// Every answer to what was asked brings a restart on, and no other answer does. Once a service was
/// chosen it stays the same, and so does what is known of its start before, until the end.
pub proof fn law_answers_bring_a_restart_on(
    stage: RestartStage,
    answer: RestartAnswer,
    next: RestartStage,
)
    requires
        follows(stage, answer, next),
    ensures
        fits(stage, answer) <==> next != stage,
        about(stage) is Some && !(next is Done) && !(next is Failed) ==> about(next) == about(stage),
        about(stage) is Some ==> !(next is Observe),
{
}

/// A restart ends for its reasons alone: no time is left, both commands exited with another code than
/// zero, the service was started later, or a command could not be run.
pub proof fn law_restart_ends_for_its_reasons(
    stage: RestartStage,
    answer: RestartAnswer,
    next: RestartStage,
)
    requires
        follows(stage, answer, next),
        next != stage,
    ensures
        match next {
            RestartStage::Done(RestartResult::NotRequested) => false,
            RestartStage::Done(RestartResult::NotSupported) => stage is ServiceCommand && (
            answer matches RestartAnswer::Exit(Ok(c)) && c != 0),
            RestartStage::Done(RestartResult::Issued) => stage is Clock && answer
                == RestartAnswer::TimeLeft(false),
            RestartStage::Done(RestartResult::Verified) => stage is Show && answer is Output,
            RestartStage::Failed => (stage is Systemctl || stage is ServiceCommand)
                && answer matches RestartAnswer::Exit(Err(_)),
            RestartStage::ServiceCommand(_, _) => stage is Systemctl && (
            answer matches RestartAnswer::Exit(Ok(c)) && c != 0),
            RestartStage::Clock(_, _) => stage is Pause || (answer matches RestartAnswer::Exit(Ok(c))
                && c == 0),
            _ => true,
        },
{
}

/// A restart is waited for until the service says that it is active and its main process was started
/// after it was known to be: the one is asked before the other, and either may be asked again.
pub proof fn law_restart_is_seen_by_a_later_start(
    svc: Service,
    before: Option<u128>,
    out: Option<String>,
    next: RestartStage,
)
    ensures
        follows(RestartStage::Active(svc, before), RestartAnswer::Output(out), next) ==> (next is Show
            <==> (out matches Some(s) && trimmed(s@) == "active"@)),
        follows(RestartStage::Active(svc, before), RestartAnswer::Output(out), next) ==> next is Show
            || next is Pause,
        follows(RestartStage::Show(svc, before), RestartAnswer::Output(out), next) ==> (next is Done
            <==> (before matches Some(b) && (out matches Some(s) && (lines_start(
            lines_of(s@),
        ) matches Some(a) && a > b)))),
        follows(RestartStage::Show(svc, before), RestartAnswer::Output(out), next) ==> next is Pause
            || next == RestartStage::Done(RestartResult::Verified),
        follows(RestartStage::Pause(svc, before), RestartAnswer::Paused, next) ==> next is Clock,
        follows(RestartStage::Clock(svc, before), RestartAnswer::TimeLeft(true), next)
            ==> next is Active,
        follows(RestartStage::Observe(svc), RestartAnswer::Output(out), next) && (
        next matches RestartStage::Systemctl(_, Some(_))) ==> (next matches RestartStage::Systemctl(
            chosen,
            Some(b),
        ) && chosen == svc && (out matches Some(s) && lines_start(lines_of(s@)) == Some(b as int))),
{
}

/// A line gives the start that stands behind the key, with or without white space round it, and
/// nothing where another key stands there or no number follows.
pub proof fn law_start_stands_behind_its_key(rest: Seq<char>, line: Seq<char>)
    ensures
        line_start("ExecMainStartTimestampMonotonic="@ + rest) == match parse_u128_of(
            trimmed(rest),
        ) {
            Ok(n) => Some(n),
            Err(_) => None,
        },
        !begins(line, "ExecMainStartTimestampMonotonic="@) ==> line_start(line) is None,
{
    let key = "ExecMainStartTimestampMonotonic="@;
    assert((key + rest).subrange(0, key.len() as int) =~= key);
    assert((key + rest).skip(key.len() as int) =~= rest);
}

/// A line of `ctr version` gives the version that stands behind its label, and nothing where it has
/// another one or no version follows.
pub proof fn law_version_stands_behind_its_label(line: Seq<char>, rest: Seq<char>)
    requires
        trimmed(line) == "Version:"@ + rest,
    ensures
        line_version(line) == version_of(parsed_version(trimmed(rest))),
{
    let key = "Version:"@;
    assert((key + rest).subrange(0, key.len() as int) =~= key);
    assert((key + rest).skip(key.len() as int) =~= rest);
}

/// Other lines of `ctr version` give no version, and the text as a whole counts only where no line
/// gives one.
pub proof fn law_other_lines_give_no_version(line: Seq<char>, out: Seq<char>)
    ensures
        !begins(trimmed(line), "Version:"@) ==> line_version(line) is None,
        lines_version(lines_of(out)) is Some ==> ctr_version_of(out) == lines_version(
            lines_of(out),
        ),
        lines_version(lines_of(out)) is None ==> ctr_version_of(out) == first_version(out),
{
}

/// The service that is restarted is the first that was seen to run; where none does, it is that of
/// K3s, or containerd's where only that was looked at.
pub proof fn law_running_service_is_restarted(svc: Service, start: u128)
    ensures
        observed(svc, Some(start)) == RestartStage::Systemctl(svc, Some(start)),
        observed(Service::K3s, None) == RestartStage::Observe(Service::K3sAgent),
        observed(Service::K3sAgent, None) == RestartStage::Systemctl(Service::K3s, None),
        observed(Service::Containerd, None) == RestartStage::Systemctl(Service::Containerd, None),
{
}

/// The name under which a service is known.
pub open spec fn known_as(svc: Service) -> Seq<char> {
    match svc {
        Service::K3s => "k3s"@,
        Service::K3sAgent => "k3s-agent"@,
        Service::Containerd => "containerd"@,
    }
}

/// The commands of a restart are about the service that the stage is about.
pub proof fn law_commands_of_a_restart(svc: Service, before: Option<u128>)
    ensures
        action_of(RestartStage::Systemctl(svc, before)) == ActionView::Exit(
            CommandLineView { program: "systemctl"@, args: seq!["restart"@, known_as(svc)] },
        ),
        action_of(RestartStage::ServiceCommand(svc, before)) == ActionView::Exit(
            CommandLineView { program: "service"@, args: seq![known_as(svc), "restart"@] },
        ),
        action_of(RestartStage::Active(svc, before)) == ActionView::Output(
            CommandLineView { program: "systemctl"@, args: seq!["is-active"@, known_as(svc)] },
        ),
        action_of(RestartStage::Show(svc, before)) == action_of(RestartStage::Observe(svc)),
        action_of(RestartStage::Observe(svc)) == ActionView::Output(
            CommandLineView {
                program: "systemctl"@,
                args: seq!["show"@, known_as(svc), "-p"@, "ExecMainStartTimestampMonotonic"@],
            },
        ),
{
}

/// The start of a service is that of the first line that gives one.
pub proof fn law_first_line_with_a_start_decides(ls: Seq<Seq<char>>)
    ensures
        match lines_start(ls) {
            Some(v) => exists|i: int|
                0 <= i < ls.len() && line_start(#[trigger] ls[i]) == Some(v) && forall|j: int|
                    0 <= j < i ==> line_start(#[trigger] ls[j]) is None,
            None => forall|i: int| 0 <= i < ls.len() ==> line_start(#[trigger] ls[i]) is None,
        },
    decreases ls.len(),
{
    if ls.len() > 0 {
        let rest = ls.drop_first();
        law_first_line_with_a_start_decides(rest);
        if line_start(ls[0]) is None {
            match lines_start(rest) {
                Some(v) => {
                    let i = choose|i: int|
                        0 <= i < rest.len() && line_start(#[trigger] rest[i]) == Some(v)
                            && forall|j: int| 0 <= j < i ==> line_start(#[trigger] rest[j]) is None;
                    assert(ls[i + 1] == rest[i]);
                    assert forall|j: int| 0 <= j < i + 1 implies line_start(
                        #[trigger] ls[j],
                    ) is None by {
                        if j > 0 {
                            assert(ls[j] == rest[j - 1]);
                        }
                    }
                },
                None => {
                    assert forall|i: int| 0 <= i < ls.len() implies line_start(
                        #[trigger] ls[i],
                    ) is None by {
                        if i > 0 {
                            assert(ls[i] == rest[i - 1]);
                        }
                    }
                },
            }
        } else {
            assert(line_start(ls[0]) == lines_start(ls));
        }
    }
}

// ---------------------------------------------------------------------------
// Outcome
// ---------------------------------------------------------------------------

/// A version is too old exactly where it is known and comes before 1.7.0.
pub proof fn law_what_is_too_old(v: VersionView)
    ensures
        !too_old(None),
        v.pre.len() == 0 ==> (too_old(Some(v)) <==> v.major == 0 || (v.major == 1 && v.minor < 7)),
        v.pre.len() > 0 && v.major == 1 && v.minor == 7 && v.patch == 0 ==> too_old(Some(v)),
        v.major > 1 ==> !too_old(Some(v)),
{
}

/// What is configured is what runs, in the place that was given or else in the usual one, and
/// nothing where that was not asked for.
pub proof fn law_what_runs_is_configured(o: OptionsView, version: Option<VersionView>)
    ensures
        !o.configure ==> configuration_of(o, EnvView::Containerd) is Nothing && configuration_of(
            o,
            EnvView::K3s(version),
        ) is Nothing,
        o.configure ==> (configuration_of(o, EnvView::K3s(version)) matches ConfigurationView::K3s {
            dir,
        } && dir == match o.k3s_template_dir {
            Some(d) => d,
            None => "/var/lib/rancher/k3s/agent/etc/containerd"@,
        }),
        o.configure ==> (configuration_of(
            o,
            EnvView::Containerd,
        ) matches ConfigurationView::Containerd { path, socket_path } && socket_path == socket_of(o)
            && path == match o.containerd_config_path {
            Some(p) => p,
            None => "/etc/containerd/config.toml"@,
        }),
        socket_of(o) == match o.socket_path {
            Some(p) => p,
            None => "/var/run/nri/nri.sock"@,
        },
{
}

/// An outcome tells what happened on the node: whether the configuration was changed, whether the
/// runtime was restarted and that was seen, and whether the socket is there.
pub proof fn law_outcome_tells_what_happened(o: OptionsView, n: NodeAnswers)
    ensures
        outcome(o, n) matches Ok(out) ==> {
            let old = too_old(n.detection.containerd_version);
            &&& out.detection == n.detection
            &&& out.configured == (!old && o.configure && n.configured == Ok::<bool, NriErrorView>(
                true,
            ))
            &&& out.restarted == (out.configured && o.restart && (n.restarted == Ok::<
                RestartResult,
                NriErrorView,
            >(RestartResult::Issued) || n.restarted == Ok::<RestartResult, NriErrorView>(
                RestartResult::Verified,
            )))
            &&& out.restart_verified == (out.restarted && (n.restarted == Ok::<
                RestartResult,
                NriErrorView,
            >(RestartResult::Verified) || n.socket_appeared))
            &&& out.socket_available == if old {
                n.socket_before
            } else {
                n.socket_after
            }
        },
        !o.fail_if_unavailable && n.configured is Ok && n.restarted is Ok ==> outcome(o, n) is Ok,
        o.configure && !too_old(n.detection.containerd_version) && n.configured is Err
            ==> outcome(o, n) == Err::<OutcomeView, NriErrorView>(n.configured->Err_0),
        o.configure && o.restart && !too_old(n.detection.containerd_version) && n.configured == Ok::<
            bool,
            NriErrorView,
        >(true) && n.restarted is Err ==> outcome(o, n) == Err::<OutcomeView, NriErrorView>(
            n.restarted->Err_0,
        ),
{
}

/// Whether an action on a node is the right one of its kind: what runs there is configured and
/// restarted, and the socket that was asked for is looked for.
pub open spec fn is_right(o: OptionsView, n: NodeAnswers, a: CourseActionView) -> bool {
    match a {
        CourseActionView::Detect => true,
        CourseActionView::LookForSocket(p) => p == socket_of(o),
        CourseActionView::Configure(c) => o.configure && c == configuration_of(o, n.detection.env),
        CourseActionView::Restart { k3s } => o.restart && (k3s <==> n.detection.env is K3s),
        CourseActionView::WaitForSocket(p) => p == socket_of(o),
        CourseActionView::Finished => false,
    }
}

/// Every action of a course is the right one of its kind. Where all is asked for and succeeds, they
/// come in this order: the runtime is detected, the socket looked for, what runs is configured and
/// restarted, and the socket is waited for and looked for at last.
pub proof fn law_actions_of_a_course(o: OptionsView, n: NodeAnswers)
    ensures
        forall|i: int|
            0 <= i < actions_from(o, n, StageView::Start).len() ==> is_right(
                o,
                n,
                #[trigger] actions_from(o, n, StageView::Start)[i],
            ),
        o.configure && o.restart && !too_old(n.detection.containerd_version) && n.configured == Ok::<
            bool,
            NriErrorView,
        >(true) && (n.restarted == Ok::<RestartResult, NriErrorView>(RestartResult::Issued)
            || n.restarted == Ok::<RestartResult, NriErrorView>(RestartResult::Verified))
            ==> actions_from(o, n, StageView::Start) == seq![
            CourseActionView::Detect,
            CourseActionView::LookForSocket(socket_of(o)),
            CourseActionView::Configure(configuration_of(o, n.detection.env)),
            CourseActionView::Restart { k3s: n.detection.env is K3s },
            CourseActionView::WaitForSocket(socket_of(o)),
            CourseActionView::LookForSocket(socket_of(o)),
        ],
{
    reveal_with_fuel(actions_from, 8);
    if o.configure && o.restart && !too_old(n.detection.containerd_version) && n.configured == Ok::<
        bool,
        NriErrorView,
    >(true) && (n.restarted == Ok::<RestartResult, NriErrorView>(RestartResult::Issued)
        || n.restarted == Ok::<RestartResult, NriErrorView>(RestartResult::Verified)) {
        assert(actions_from(o, n, StageView::Start) =~= seq![
            CourseActionView::Detect,
            CourseActionView::LookForSocket(socket_of(o)),
            CourseActionView::Configure(configuration_of(o, n.detection.env)),
            CourseActionView::Restart { k3s: n.detection.env is K3s },
            CourseActionView::WaitForSocket(socket_of(o)),
            CourseActionView::LookForSocket(socket_of(o)),
        ]);
    }
}

}
