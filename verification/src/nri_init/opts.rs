//! What the environment and the command line ask for.

use vstd::prelude::*;

use crate::text::{opt_view, str_eq, trim, trimmed, views};

verus! {

/// Which runtime is configured.
#[derive(Debug, Clone, Copy, PartialEq, Eq, Structural)]
pub enum Mode {
    Auto,
    K3s,
    Containerd,
}

/// How much is logged.
#[derive(Debug, Clone, Copy, PartialEq, Eq, Structural)]
pub enum LogLevel {
    Error,
    Warn,
    Info,
    Debug,
    Trace,
}

/// The program that enters the namespaces of the host.
#[derive(Debug, Clone)]
pub struct Nsenter {
    pub path: String,
}

/// What is asked for.
#[derive(Debug, Clone)]
pub struct Options {
    pub configure: bool,
    pub restart: bool,
    pub fail_if_unavailable: bool,
    pub mode: Mode,
    pub nsenter: Option<Nsenter>,
    pub log_level: LogLevel,
    pub dry_run: bool,
    pub containerd_config_path: Option<String>,
    pub socket_path: Option<String>,
    pub k3s_template_dir: Option<String>,
}

/// What is asked for, as a value.
pub ghost struct OptionsView {
    pub configure: bool,
    pub restart: bool,
    pub fail_if_unavailable: bool,
    pub mode: Mode,
    pub nsenter: Option<Seq<char>>,
    pub log_level: LogLevel,
    pub dry_run: bool,
    pub containerd_config_path: Option<Seq<char>>,
    pub socket_path: Option<Seq<char>>,
    pub k3s_template_dir: Option<Seq<char>>,
}

impl View for Options {
    type V = OptionsView;

    open spec fn view(&self) -> OptionsView {
        OptionsView {
            configure: self.configure,
            restart: self.restart,
            fail_if_unavailable: self.fail_if_unavailable,
            mode: self.mode,
            nsenter: match self.nsenter {
                Some(n) => Some(n.path@),
                None => None,
            },
            log_level: self.log_level,
            dry_run: self.dry_run,
            containerd_config_path: opt_view(self.containerd_config_path),
            socket_path: opt_view(self.socket_path),
            k3s_template_dir: opt_view(self.k3s_template_dir),
        }
    }
}

/// What is asked for where nothing is said.
pub open spec fn default_options() -> OptionsView {
    OptionsView {
        configure: false,
        restart: false,
        fail_if_unavailable: false,
        mode: Mode::Auto,
        nsenter: None,
        log_level: LogLevel::Info,
        dry_run: false,
        containerd_config_path: None,
        socket_path: None,
        k3s_template_dir: None,
    }
}

impl Default for Options {
    fn default() -> (r: Options)
        ensures
            r@ == default_options(),
    {
        Options {
            configure: false,
            restart: false,
            fail_if_unavailable: false,
            mode: Mode::Auto,
            nsenter: None,
            log_level: LogLevel::Info,
            dry_run: false,
            containerd_config_path: None,
            socket_path: None,
            k3s_template_dir: None,
        }
    }
}

/// Whether a text says yes.
pub open spec fn says_yes(s: Seq<char>) -> bool {
    let t = trimmed(s);
    t == "1"@ || t == "true"@ || t == "TRUE"@ || t == "True"@ || t == "yes"@ || t == "on"@
}

/// Whether a text says yes.
pub fn parse_bool(s: &str) -> (r: bool)
    ensures
        r == says_yes(s@),
{
    let t = trim(s);
    let u = t.as_str();
    str_eq(u, "1") || str_eq(u, "true") || str_eq(u, "TRUE") || str_eq(u, "True") || str_eq(u, "yes")
        || str_eq(u, "on")
}

/// The mode of the given name; automatic for any other.
pub open spec fn mode_named(s: Seq<char>) -> Mode {
    if s == "k3s"@ {
        Mode::K3s
    } else if s == "containerd"@ {
        Mode::Containerd
    } else {
        Mode::Auto
    }
}

fn parse_mode(s: &str) -> (r: Mode)
    ensures
        r == mode_named(s@),
{
    if str_eq(s, "k3s") {
        Mode::K3s
    } else if str_eq(s, "containerd") {
        Mode::Containerd
    } else {
        Mode::Auto
    }
}

/// The level of the given name; `info` for any other.
pub open spec fn level_named(s: Seq<char>) -> LogLevel {
    if s == "error"@ {
        LogLevel::Error
    } else if s == "warn"@ {
        LogLevel::Warn
    } else if s == "debug"@ {
        LogLevel::Debug
    } else if s == "trace"@ {
        LogLevel::Trace
    } else {
        LogLevel::Info
    }
}

fn parse_level(s: &str) -> (r: LogLevel)
    ensures
        r == level_named(s@),
{
    if str_eq(s, "error") {
        LogLevel::Error
    } else if str_eq(s, "warn") {
        LogLevel::Warn
    } else if str_eq(s, "debug") {
        LogLevel::Debug
    } else if str_eq(s, "trace") {
        LogLevel::Trace
    } else {
        LogLevel::Info
    }
}

/// The filter of a log level.
pub open spec fn level_filter(level: LogLevel) -> Seq<char> {
    match level {
        LogLevel::Error => "error"@,
        LogLevel::Warn => "warn"@,
        LogLevel::Info => "info"@,
        LogLevel::Debug => "debug"@,
        LogLevel::Trace => "trace"@,
    }
}

/// The filter of a log level.
pub fn log_filter(level: LogLevel) -> (r: String)
    ensures
        r@ == level_filter(level),
{
    match level {
        LogLevel::Error => "error".to_string(),
        LogLevel::Warn => "warn".to_string(),
        LogLevel::Info => "info".to_string(),
        LogLevel::Debug => "debug".to_string(),
        LogLevel::Trace => "trace".to_string(),
    }
}

/// Whether a flag takes the argument that follows it as its value.
pub open spec fn takes_value(flag: Seq<char>) -> bool {
    flag == "--mode"@ || flag == "--nsenter-path"@ || flag == "--containerd-config"@ || flag
        == "--socket-path"@ || flag == "--k3s-template-dir"@ || flag == "--log-level"@
}

impl OptionsView {
    /// The options once a flag without a value was given. Unknown flags change nothing.
    pub open spec fn with_flag(self, flag: Seq<char>) -> OptionsView {
        if flag == "--configure"@ {
            OptionsView { configure: true, ..self }
        } else if flag == "--no-configure"@ {
            OptionsView { configure: false, ..self }
        } else if flag == "--restart"@ {
            OptionsView { restart: true, ..self }
        } else if flag == "--no-restart"@ {
            OptionsView { restart: false, ..self }
        } else if flag == "--fail-if-unavailable"@ {
            OptionsView { fail_if_unavailable: true, ..self }
        } else if flag == "--no-fail-if-unavailable"@ {
            OptionsView { fail_if_unavailable: false, ..self }
        } else if flag == "--dry-run"@ {
            OptionsView { dry_run: true, ..self }
        } else {
            self
        }
    }

    /// The options once a flag with a value was given.
    pub open spec fn with_value(self, flag: Seq<char>, value: Seq<char>) -> OptionsView {
        if flag == "--mode"@ {
            OptionsView { mode: mode_named(value), ..self }
        } else if flag == "--nsenter-path"@ {
            OptionsView { nsenter: Some(value), ..self }
        } else if flag == "--containerd-config"@ {
            OptionsView { containerd_config_path: Some(value), ..self }
        } else if flag == "--socket-path"@ {
            OptionsView { socket_path: Some(value), ..self }
        } else if flag == "--k3s-template-dir"@ {
            OptionsView { k3s_template_dir: Some(value), ..self }
        } else {
            OptionsView { log_level: level_named(value), ..self }
        }
    }

    /// The options once arguments were given, one after the other. A flag without the value that
    /// it takes changes nothing.
    pub open spec fn with_args(self, args: Seq<Seq<char>>) -> OptionsView
        decreases args.len(),
    {
        if args.len() == 0 {
            self
        } else if takes_value(args[0]) {
            if args.len() == 1 {
                self
            } else {
                self.with_value(args[0], args[1]).with_args(args.skip(2))
            }
        } else {
            self.with_flag(args[0]).with_args(args.skip(1))
        }
    }

    /// The options once the environment was read.
    pub open spec fn with_env(
        self,
        configure: Option<Seq<char>>,
        restart: Option<Seq<char>>,
        fail_if_unavailable: Option<Seq<char>>,
    ) -> OptionsView {
        OptionsView {
            configure: match configure {
                Some(v) => says_yes(v),
                None => self.configure,
            },
            restart: match restart {
                Some(v) => says_yes(v),
                None => self.restart,
            },
            fail_if_unavailable: match fail_if_unavailable {
                Some(v) => says_yes(v),
                None => self.fail_if_unavailable,
            },
            ..self
        }
    }

    /// The options once it is known whether the host's namespaces are there: they are then entered
    /// by default.
    pub open spec fn with_host(self, host_namespaces: bool) -> OptionsView {
        if self.nsenter is None && host_namespaces {
            OptionsView { nsenter: Some("nsenter"@), ..self }
        } else {
            self
        }
    }
}

impl Options {
    /// Takes in a flag without a value.
    fn apply_flag(&mut self, flag: &str)
        ensures
            final(self)@ == old(self)@.with_flag(flag@),
    {
        if str_eq(flag, "--configure") {
            self.configure = true;
        } else if str_eq(flag, "--no-configure") {
            self.configure = false;
        } else if str_eq(flag, "--restart") {
            self.restart = true;
        } else if str_eq(flag, "--no-restart") {
            self.restart = false;
        } else if str_eq(flag, "--fail-if-unavailable") {
            self.fail_if_unavailable = true;
        } else if str_eq(flag, "--no-fail-if-unavailable") {
            self.fail_if_unavailable = false;
        } else if str_eq(flag, "--dry-run") {
            self.dry_run = true;
        }
    }

    /// Takes in a flag with a value.
    fn apply_value(&mut self, flag: &str, value: &str)
        ensures
            final(self)@ == old(self)@.with_value(flag@, value@),
    {
        if str_eq(flag, "--mode") {
            self.mode = parse_mode(value);
        } else if str_eq(flag, "--nsenter-path") {
            self.nsenter = Some(Nsenter { path: value.to_string() });
        } else if str_eq(flag, "--containerd-config") {
            self.containerd_config_path = Some(value.to_string());
        } else if str_eq(flag, "--socket-path") {
            self.socket_path = Some(value.to_string());
        } else if str_eq(flag, "--k3s-template-dir") {
            self.k3s_template_dir = Some(value.to_string());
        } else {
            self.log_level = parse_level(value);
        }
    }
}

fn flag_takes_value(flag: &str) -> (r: bool)
    ensures
        r == takes_value(flag@),
{
    str_eq(flag, "--mode") || str_eq(flag, "--nsenter-path") || str_eq(flag, "--containerd-config")
        || str_eq(flag, "--socket-path") || str_eq(flag, "--k3s-template-dir") || str_eq(
        flag,
        "--log-level",
    )
}

/// What the environment and the command line ask for: the values of the variables
/// `NRI_CONFIGURE`, `NRI_RESTART` and `NRI_FAIL_IF_UNAVAILABLE`, the arguments behind the
/// program's name, which override them, and whether the host's namespaces are there.
pub fn from_env_and_args(
    configure: Option<&str>,
    restart: Option<&str>,
    fail_if_unavailable: Option<&str>,
    args: &Vec<String>,
    host_namespaces: bool,
) -> (r: Options)
    ensures
        r@ == default_options().with_env(
            str_view(configure),
            str_view(restart),
            str_view(fail_if_unavailable),
        ).with_args(views(args@)).with_host(host_namespaces),
{
    let mut opts = Options::default();
    if let Some(v) = configure {
        opts.configure = parse_bool(v);
    }
    if let Some(v) = restart {
        opts.restart = parse_bool(v);
    }
    if let Some(v) = fail_if_unavailable {
        opts.fail_if_unavailable = parse_bool(v);
    }
    let ghost start = opts@;
    let ghost all = views(args@);
    let mut i: usize = 0;
    assert(all.skip(0) =~= all);
    while i < args.len()
        invariant
            i <= args@.len(),
            all == views(args@),
            start.with_args(all) == opts@.with_args(all.skip(i as int)),
        decreases args.len() - i,
    {
        let ghost rest = all.skip(i as int);
        assert(rest[0] == args@[i as int]@);
        if flag_takes_value(args[i].as_str()) {
            if i + 1 < args.len() {
                assert(rest[1] == args@[i as int + 1]@);
                opts.apply_value(args[i].as_str(), args[i + 1].as_str());
                assert(rest.skip(2) =~= all.skip(i as int + 2));
                i = i + 2;
            } else {
                assert(rest.len() == 1);
                assert(all.skip(i as int + 1) =~= Seq::<Seq<char>>::empty());
                i = i + 1;
            }
        } else {
            opts.apply_flag(args[i].as_str());
            assert(rest.skip(1) =~= all.skip(i as int + 1));
            i = i + 1;
        }
    }
    assert(all.skip(i as int) =~= Seq::<Seq<char>>::empty());
    if opts.nsenter.is_none() && host_namespaces {
        opts.nsenter = Some(Nsenter { path: "nsenter".to_string() });
    }
    opts
}

/// A text that may be missing, as a value.
pub open spec fn str_view(s: Option<&str>) -> Option<Seq<char>> {
    match s {
        Some(t) => Some(t@),
        None => None,
    }
}

/// Arguments that are no flag change nothing.
pub proof fn law_other_arguments_change_nothing(o: OptionsView, arg: Seq<char>)
    requires
        !takes_value(arg),
        arg != "--configure"@,
        arg != "--no-configure"@,
        arg != "--restart"@,
        arg != "--no-restart"@,
        arg != "--fail-if-unavailable"@,
        arg != "--no-fail-if-unavailable"@,
        arg != "--dry-run"@,
    ensures
        o.with_args(seq![arg]) == o,
{
    assert(seq![arg].skip(1) =~= Seq::<Seq<char>>::empty());
    reveal_with_fuel(OptionsView::with_args, 2);
}

/// Flags override the environment: what `--configure` or `--no-configure` says last holds, whatever
/// the environment says, and so does what is said last of `--restart` and of
/// `--fail-if-unavailable`.
pub proof fn law_last_flag_overrides(
    o: OptionsView,
    configure: Option<Seq<char>>,
    restart: Option<Seq<char>>,
    fail_if_unavailable: Option<Seq<char>>,
    args: Seq<Seq<char>>,
)
    requires
        whole(args),
    ensures
        ({
            let s = o.with_env(configure, restart, fail_if_unavailable);
            &&& s.with_args(args.push("--configure"@)).configure
            &&& !s.with_args(args.push("--no-configure"@)).configure
            &&& s.with_args(args.push("--restart"@)).restart
            &&& !s.with_args(args.push("--no-restart"@)).restart
            &&& s.with_args(args.push("--fail-if-unavailable"@)).fail_if_unavailable
            &&& !s.with_args(args.push("--no-fail-if-unavailable"@)).fail_if_unavailable
        }),
{
    let s = o.with_env(configure, restart, fail_if_unavailable);
    lemma_flags_differ();
    lemma_args_then(s, args, "--configure"@);
    lemma_args_then(s, args, "--no-configure"@);
    lemma_args_then(s, args, "--restart"@);
    lemma_args_then(s, args, "--no-restart"@);
    lemma_args_then(s, args, "--fail-if-unavailable"@);
    lemma_args_then(s, args, "--no-fail-if-unavailable"@);
}

/// A flag of one setting does not change what was said of another.
pub proof fn law_flags_do_not_mix(o: OptionsView, args: Seq<Seq<char>>, flag: Seq<char>)
    requires
        whole(args),
        !takes_value(flag),
    ensures
        ({
            let s = o.with_args(args);
            let t = o.with_args(args.push(flag));
            &&& flag != "--configure"@ && flag != "--no-configure"@ ==> t.configure == s.configure
            &&& flag != "--restart"@ && flag != "--no-restart"@ ==> t.restart == s.restart
            &&& flag != "--fail-if-unavailable"@ && flag != "--no-fail-if-unavailable"@
                ==> t.fail_if_unavailable == s.fail_if_unavailable
        }),
{
    lemma_args_then(o, args, flag);
}

proof fn lemma_flags_differ()
    ensures
        !takes_value("--configure"@),
        !takes_value("--no-configure"@),
        !takes_value("--restart"@),
        !takes_value("--no-restart"@),
        !takes_value("--fail-if-unavailable"@),
        !takes_value("--no-fail-if-unavailable"@),
        "--configure"@.len() == 11,
        "--no-configure"@.len() == 14,
        "--restart"@.len() == 9,
        "--no-restart"@.len() == 12,
        "--fail-if-unavailable"@.len() == 21,
        "--no-fail-if-unavailable"@.len() == 24,
{
    reveal_strlit("--configure");
    reveal_strlit("--no-configure");
    reveal_strlit("--restart");
    reveal_strlit("--no-restart");
    reveal_strlit("--fail-if-unavailable");
    reveal_strlit("--no-fail-if-unavailable");
    reveal_strlit("--mode");
    reveal_strlit("--nsenter-path");
    reveal_strlit("--containerd-config");
    reveal_strlit("--socket-path");
    reveal_strlit("--k3s-template-dir");
    reveal_strlit("--log-level");
    assert("--configure"@[2] == 'c');
    assert("--no-configure"@[3] == 'o');
    assert("--nsenter-path"@[3] == 's' && "--nsenter-path"@.len() == 14);
    assert("--log-level"@[2] == 'l' && "--log-level"@.len() == 11);
    assert("--mode"@.len() == 6);
    assert("--containerd-config"@.len() == 19);
    assert("--socket-path"@.len() == 13);
    assert("--k3s-template-dir"@.len() == 18);
}

/// Whether no argument is a flag that lacks its value.
pub open spec fn whole(args: Seq<Seq<char>>) -> bool
    decreases args.len(),
{
    if args.len() == 0 {
        true
    } else if takes_value(args[0]) {
        args.len() > 1 && whole(args.skip(2))
    } else {
        whole(args.skip(1))
    }
}

proof fn lemma_args_then(o: OptionsView, args: Seq<Seq<char>>, flag: Seq<char>)
    requires
        whole(args),
        !takes_value(flag),
    ensures
        o.with_args(args.push(flag)) == o.with_args(args).with_flag(flag),
    decreases args.len(),
{
    let all = args.push(flag);
    if args.len() == 0 {
        assert(all.skip(1) =~= Seq::<Seq<char>>::empty());
        reveal_with_fuel(OptionsView::with_args, 2);
    } else {
        assert(all[0] == args[0]);
        if takes_value(args[0]) {
            assert(all[1] == args[1]);
            assert(all.skip(2) =~= args.skip(2).push(flag));
            lemma_args_then(o.with_value(args[0], args[1]), args.skip(2), flag);
        } else {
            assert(all.skip(1) =~= args.skip(1).push(flag));
            lemma_args_then(o.with_flag(args[0]), args.skip(1), flag);
        }
    }
}

}
