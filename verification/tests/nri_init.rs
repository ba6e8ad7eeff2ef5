use toml_edit::DocumentMut;

use collector::nri_init::cmd::{
    capture_texts, checked_output, default_runner, CommandEnd, CommandLine, Runner,
};
use collector::nri_init::containerd::{configure_containerd, MINIMAL_CONFIG};
use collector::nri_init::course::{Course, CourseAction, CourseAnswer};
use collector::nri_init::detect::{parse_ctr_version, Detector};
use collector::nri_init::k3s::{
    configure_k3s_templates_in, patch_template, TemplateFile, BASE_V2, BASE_V3, NRI_SECTION,
};
use collector::nri_init::opts::{from_env_and_args, log_filter, parse_bool};
use collector::nri_init::run::{
    after_restart, conclude, plan_configuration, restarts_k3s, socket_path, version_gate,
    waits_for_socket, wants_restart, Configuration,
};
use collector::nri_init::toml_util::{ensure_nri_section, ensure_version2};
use collector::nri_init::verify::{
    is_active, service_monotonic_start, wait_for_socket, Restart, RestartAction, RestartAnswer,
    Service,
};
use collector::nri_init::version::{parse_first_semver, Version};
use collector::nri_init::{
    Detection, EnvKind, LogLevel, Mode, NriError, Nsenter, Options, RestartResult,
};

#[test]
fn add_nri_to_minimal() {
    let mut d: DocumentMut = "".parse().unwrap();
    let mut changed = ensure_version2(&mut d);
    changed |= ensure_nri_section(&mut d, "/var/run/nri/nri.sock");
    assert!(changed);
    let s = d.to_string();
    assert!(s.contains("version = 2"));
    assert!(s.contains("plugins.\"io.containerd.nri.v1.nri\""));
    assert!(s.contains("disable = false"));
}

#[test]
fn idempotent_add_twice() {
    let mut d: DocumentMut = "".parse().unwrap();
    let _ = ensure_version2(&mut d);
    let _ = ensure_nri_section(&mut d, "/var/run/nri/nri.sock");
    let first = d.to_string();
    let _ = ensure_version2(&mut d);
    let changed = ensure_nri_section(&mut d, "/var/run/nri/nri.sock");
    assert!(!changed);
    let second = d.to_string();
    assert_eq!(first, second);
}

#[test]
fn given_settings_are_kept() {
    let text = "version = 3\n[other]\nx = 1\n[plugins.\"io.containerd.nri.v1.nri\"]\ndisable = true\nplugin_path = \"/mine\"\nsocket_path = \"/old.sock\"\n";
    let mut d: DocumentMut = text.parse().unwrap();
    assert!(!ensure_version2(&mut d));
    assert!(ensure_nri_section(&mut d, "/new.sock"));
    let section = &d["plugins"]["io.containerd.nri.v1.nri"];
    assert_eq!(section["disable"].as_bool(), Some(false));
    assert_eq!(section["disable_connections"].as_bool(), Some(false));
    assert_eq!(section["plugin_config_path"].as_str(), Some("/etc/nri/conf.d"));
    assert_eq!(section["plugin_path"].as_str(), Some("/mine"));
    assert_eq!(section["plugin_registration_timeout"].as_str(), Some("5s"));
    assert_eq!(section["plugin_request_timeout"].as_str(), Some("2s"));
    assert_eq!(section["socket_path"].as_str(), Some("/new.sock"));
    assert_eq!(d["version"].as_integer(), Some(3));
    assert_eq!(d["other"]["x"].as_integer(), Some(1));
}

#[test]
fn plugins_that_are_no_table_are_replaced() {
    let mut d: DocumentMut = "plugins = 1\n".parse().unwrap();
    assert!(ensure_nri_section(&mut d, "/s"));
    assert_eq!(d["plugins"]["io.containerd.nri.v1.nri"]["socket_path"].as_str(), Some("/s"));
}

#[test]
fn containerd_config_minimal_is_created_and_patched() {
    let plan = configure_containerd(None, "/tmp/var/run/nri/nri.sock", false).expect("run ok");
    assert!(plan.changed);
    assert!(plan.create);
    let content = plan.write.unwrap();
    assert!(content.contains("version = 2"));
    assert!(content.contains("plugins.\"io.containerd.nri.v1.nri\""));
    assert!(content.contains("disable = false"));
}

#[test]
fn containerd_config_idempotent() {
    // First run creates and patches
    let first = configure_containerd(None, "/var/run/nri/nri.sock", false).expect("first run ok");
    assert!(first.changed);

    // Second run should find no changes to apply
    let written = first.write.unwrap();
    let second = configure_containerd(Some(&written), "/var/run/nri/nri.sock", false)
        .expect("second run ok");
    assert!(!second.changed, "second run should be idempotent (no changes)");
    assert!(second.write.is_none());
    assert!(!second.create);
}

#[test]
fn other_values_are_kept() {
    let text = concat_lines(&[
        "version = 2",
        "ratio = 1.50",
        "since = 1979-05-27T07:32:00Z",
        "list = [1, \"two\", 3.0]",
        "inline = { a = 1, b = [true] }",
        "[plugins.\"io.containerd.nri.v1.nri\"]",
        "disable = 0.5",
        "[[stream]]",
        "x = 2.25",
    ]);
    let plan = configure_containerd(Some(&text), "/s", false).unwrap();
    let written = plan.write.unwrap();
    for line in [
        "ratio = 1.50",
        "since = 1979-05-27T07:32:00Z",
        "list = [1, \"two\", 3.0]",
        "inline = { a = 1, b = [true] }",
        "disable = 0.5",
        "x = 2.25",
    ] {
        assert!(written.lines().any(|l| l == line), "{}", line);
    }
    assert!(!configure_containerd(Some(&written), "/s", false).unwrap().changed);
}

fn concat_lines(lines: &[&str]) -> String {
    lines.iter().map(|l| format!("{}\n", l)).collect()
}

#[test]
fn containerd_dry_run_writes_nothing() {
    let plan = configure_containerd(None, "/s", true).unwrap();
    assert!(plan.changed && !plan.create && plan.write.is_none());
    let plan = configure_containerd(Some(MINIMAL_CONFIG), "/s", true).unwrap();
    assert!(plan.changed && plan.write.is_none());
}

#[test]
fn containerd_config_that_is_no_toml_is_an_error() {
    match configure_containerd(Some("= ="), "/s", false) {
        Err(e) => assert!(e.message().starts_with("TOML mutation failed: parse error: ")),
        Ok(_) => panic!("not a document"),
    }
}

#[test]
fn k3s_templates_created_and_patched() {
    let plan = configure_k3s_templates_in(None, None, false);
    assert!(plan.changed);
    assert!(plan.create_dir);
    let mut c2 = String::new();
    let mut c3 = String::new();
    for w in &plan.writes {
        match w.file {
            TemplateFile::V2 => c2 = w.content.clone(),
            TemplateFile::V3 => c3 = w.content.clone(),
        }
    }
    assert!(c2.contains("plugins.\"io.containerd.nri.v1.nri\""));
    assert!(c3.contains("plugins.\"io.containerd.nri.v1.nri\""));
    assert_eq!(c2, format!("{}{}", BASE_V2, NRI_SECTION));
    assert_eq!(c3, format!("{}{}", BASE_V3, NRI_SECTION));
    assert_eq!(plan.writes.len(), 4);

    // What was written is left alone
    let again = configure_k3s_templates_in(Some(&c2), Some(&c3), false);
    assert!(!again.changed && !again.create_dir && again.writes.is_empty());
}

#[test]
fn k3s_templates_are_enabled() {
    let disabled = "[plugins.\"io.containerd.nri.v1.nri\"]\n  disable = true\n  disable = true\n";
    assert_eq!(
        patch_template(disabled).unwrap(),
        "[plugins.\"io.containerd.nri.v1.nri\"]\n  disable = false\n  disable = false\n"
    );
    let enabled = patch_template(disabled).unwrap();
    assert!(patch_template(&enabled).is_none());
    // Only the template that is there is patched
    let plan = configure_k3s_templates_in(None, Some(disabled), false);
    assert_eq!(plan.writes.len(), 1);
    assert_eq!(plan.writes[0].file, TemplateFile::V3);
    // A dry run tells and writes nothing
    let plan = configure_k3s_templates_in(Some(disabled), None, true);
    assert!(plan.changed && plan.writes.is_empty());
    let plan = configure_k3s_templates_in(None, None, true);
    assert!(plan.changed && plan.writes.is_empty() && !plan.create_dir);
}

fn args(list: &[&str]) -> Vec<String> {
    list.iter().map(|s| s.to_string()).collect()
}

#[test]
fn truth_values() {
    for yes in ["1", "true", "TRUE", "True", "yes", "on", " on\n"] {
        assert!(parse_bool(yes), "{}", yes);
    }
    for no in ["0", "false", "YES", "On", "", "tRUE"] {
        assert!(!parse_bool(no), "{}", no);
    }
}

#[test]
fn options_by_default() {
    let o = from_env_and_args(None, None, None, &vec![], false);
    assert!(!o.configure && !o.restart && !o.fail_if_unavailable && !o.dry_run);
    assert_eq!(o.mode, Mode::Auto);
    assert_eq!(o.log_level, LogLevel::Info);
    assert!(o.nsenter.is_none());
    assert!(o.containerd_config_path.is_none() && o.socket_path.is_none());
    assert!(o.k3s_template_dir.is_none());
    let o = from_env_and_args(None, None, None, &vec![], true);
    assert_eq!(o.nsenter.unwrap().path, "nsenter");
}

#[test]
fn arguments_override_the_environment() {
    let o = from_env_and_args(
        Some("1"),
        Some("yes"),
        Some("on"),
        &args(&["--no-configure", "--restart", "--no-fail-if-unavailable", "--dry-run", "--what"]),
        false,
    );
    assert!(!o.configure && o.restart && !o.fail_if_unavailable && o.dry_run);
    let o = from_env_and_args(
        Some("0"),
        None,
        None,
        &args(&["--configure", "--no-restart", "--fail-if-unavailable"]),
        false,
    );
    assert!(o.configure && !o.restart && o.fail_if_unavailable);
}

#[test]
fn arguments_with_values() {
    let o = from_env_and_args(
        None,
        None,
        None,
        &args(&[
            "--mode", "k3s", "--mode", "containerd", "--nsenter-path", "/bin/nsenter",
            "--containerd-config", "/c.toml", "--socket-path", "/s.sock", "--k3s-template-dir",
            "/t", "--log-level", "trace",
        ]),
        true,
    );
    assert_eq!(o.mode, Mode::Containerd);
    assert_eq!(o.nsenter.as_ref().unwrap().path, "/bin/nsenter");
    assert_eq!(o.containerd_config_path.as_deref(), Some("/c.toml"));
    assert_eq!(o.socket_path.as_deref(), Some("/s.sock"));
    assert_eq!(o.k3s_template_dir.as_deref(), Some("/t"));
    assert_eq!(o.log_level, LogLevel::Trace);
    assert_eq!(log_filter(o.log_level), "trace");
    // A flag without its value changes nothing
    let o = from_env_and_args(None, None, None, &args(&["--mode"]), false);
    assert_eq!(o.mode, Mode::Auto);
    // The value of a flag is no flag
    let o = from_env_and_args(None, None, None, &args(&["--socket-path", "--configure"]), false);
    assert!(!o.configure);
    assert_eq!(o.socket_path.as_deref(), Some("--configure"));
}

#[test]
fn commands_enter_the_host() {
    let cmd = || CommandLine { program: "ctr".to_string(), args: args(&["version"]) };
    let local = default_runner(&None).command_line(cmd());
    assert_eq!(local.program, "ctr");
    assert_eq!(local.args, args(&["version"]));
    let host = default_runner(&Some(Nsenter { path: "/n".to_string() })).command_line(cmd());
    assert_eq!(host.program, "/n");
    assert_eq!(
        host.args,
        args(&[
            "--target", "1", "--mount", "--uts", "--ipc", "--net", "--pid", "--", "ctr", "version"
        ])
    );
}

#[test]
fn ends_of_commands() {
    let runner = Runner::Local;
    let cmd = CommandLine { program: "prog".to_string(), args: args(&["a \"b\"", "c"]) };
    let ended = |code: Option<i32>| CommandEnd::Exited {
        code,
        stdout: b"out\xff".to_vec(),
        stderr: b"err".to_vec(),
    };
    let captured = runner.run_capture(ended(Some(3))).unwrap();
    assert_eq!(captured.code, 3);
    assert_eq!(captured.stdout, "out\u{fffd}");
    assert_eq!(captured.stderr, "err");
    assert_eq!(runner.run_capture(ended(None)).unwrap().code, -1);
    assert_eq!(runner.run_ok(&cmd, ended(Some(0))).unwrap(), "out\u{fffd}");
    assert_eq!(
        runner.run_ok(&cmd, ended(Some(3))).unwrap_err().message(),
        "Command failed: prog [\"a \\\"b\\\"\", \"c\"] -> 3: err"
    );
    let missing = runner.run_capture(CommandEnd::ProgramMissing("gone".to_string())).unwrap();
    assert_eq!((missing.code, missing.stderr.as_str()), (127, "gone"));
    assert_eq!(
        runner.run_ok(&cmd, CommandEnd::NotRun("denied".to_string())).unwrap_err().message(),
        "I/O error: denied"
    );
    let captured = capture_texts(Some(-2), "o".to_string(), "e".to_string());
    assert_eq!(
        checked_output("p", "[]", captured).unwrap_err().message(),
        "Command failed: p [] -> -2: e"
    );
}

#[test]
fn versions_in_texts() {
    let v = parse_first_semver("containerd containerd.io 1.7.22 7f7fdf5").unwrap();
    assert_eq!((v.major, v.minor, v.patch), (1, 7, 22));
    assert!(parse_first_semver("no version").is_none());
    assert!(parse_first_semver("v1.7.2").is_none());
    let v = parse_first_semver("k3s version (1.30.4)").unwrap();
    assert_eq!(v.to_text(), "1.30.4");
    assert!(parse_first_semver("01.2.3").is_none());
    assert!(!v.is_before(1, 7, 0));
    assert!(v.is_before(1, 30, 5));
    assert!(v.is_before(2, 0, 0));
    assert!(!v.is_before(1, 30, 4));
}

#[test]
fn pre_releases_come_before_their_release() {
    let v = parse_ctr_version("Client:\n  Version:  1.7.0-rc.1+meta\n").unwrap();
    assert_eq!((v.pre.as_str(), v.build.as_str()), ("rc.1", "meta"));
    assert_eq!(v.to_text(), "1.7.0-rc.1+meta");
    assert!(v.is_before(1, 7, 0));
    assert!(!v.is_before(1, 6, 9));
    // A line that gives no version is passed over, and the text searched at last
    let v = parse_ctr_version("Version: v1.7.2\nServer: (2.0.1)\n").unwrap();
    assert_eq!(v.to_text(), "2.0.1");
    assert!(parse_ctr_version("").is_none());
}

#[test]
fn detection_asks_in_turn() {
    let mut d = Detector::new(Mode::Auto, true);
    let c = d.next_command().unwrap();
    assert_eq!((c.program.as_str(), c.args), ("k3s", args(&["--version"])));
    d.give(Some("k3s (1.30.1)".to_string()));
    let c = d.next_command().unwrap();
    assert_eq!((c.program.as_str(), c.args), ("containerd", args(&["--version"])));
    d.give(None);
    let c = d.next_command().unwrap();
    assert_eq!((c.program.as_str(), c.args), ("containerd", args(&["-v"])));
    d.give(None);
    let c = d.next_command().unwrap();
    assert_eq!((c.program.as_str(), c.args), ("ctr", args(&["version"])));
    d.give(Some("Version: 1.6.8".to_string()));
    assert!(d.next_command().is_none());
    let found = d.detection();
    match &found.env {
        EnvKind::K3s { version } => assert_eq!(version.as_ref().unwrap().to_text(), "1.30.1"),
        EnvKind::Containerd => panic!("K3s is installed"),
    }
    assert_eq!(found.containerd_version.unwrap().to_text(), "1.6.8");
}

#[test]
fn detection_follows_the_mode() {
    let mut d = Detector::new(Mode::Containerd, true);
    d.give(Some("containerd 2.1.0".to_string()));
    assert!(d.next_command().is_none());
    let found = d.detection();
    assert!(matches!(found.env, EnvKind::Containerd));
    assert_eq!(found.containerd_version.unwrap().to_text(), "2.1.0");
    let d = Detector::new(Mode::K3s, false);
    assert_eq!(d.next_command().unwrap().program, "k3s");
    let d = Detector::new(Mode::Auto, false);
    assert_eq!(d.next_command().unwrap().program, "containerd");
    let mut d = Detector::new(Mode::Containerd, false);
    d.give(None);
    d.give(None);
    d.give(None);
    assert!(d.next_command().is_none());
    assert!(d.detection().containerd_version.is_none());
}

fn show(start: &str) -> RestartAnswer {
    RestartAnswer::Output(Some(format!("ExecMainStartTimestampMonotonic={}\n", start)))
}

fn command(action: RestartAction) -> String {
    match action {
        RestartAction::Output(c) | RestartAction::Exit(c) => {
            format!("{} {}", c.program, c.args.join(" "))
        }
        RestartAction::Clock => "clock".to_string(),
        RestartAction::Pause => "pause".to_string(),
        RestartAction::Finished => "finished".to_string(),
    }
}

#[test]
fn restart_is_verified_by_a_later_start() {
    let mut r = Restart::new(true, false);
    assert_eq!(
        command(r.next_action()),
        "systemctl show containerd -p ExecMainStartTimestampMonotonic"
    );
    r.give(show("100"));
    assert_eq!(command(r.next_action()), "systemctl restart containerd");
    r.give(RestartAnswer::Exit(Ok(0)));
    assert_eq!(command(r.next_action()), "clock");
    r.give(RestartAnswer::TimeLeft(true));
    assert_eq!(command(r.next_action()), "systemctl is-active containerd");
    r.give(RestartAnswer::Output(Some("activating\n".to_string())));
    assert_eq!(command(r.next_action()), "pause");
    r.give(RestartAnswer::Paused);
    r.give(RestartAnswer::TimeLeft(true));
    r.give(RestartAnswer::Output(Some("active\n".to_string())));
    r.give(show("100"));
    assert_eq!(command(r.next_action()), "pause");
    r.give(RestartAnswer::Paused);
    r.give(RestartAnswer::TimeLeft(true));
    r.give(RestartAnswer::Output(Some("active\n".to_string())));
    r.give(show("101"));
    assert_eq!(command(r.next_action()), "finished");
    assert_eq!(r.result().unwrap().unwrap(), RestartResult::Verified);
}

#[test]
fn restart_falls_back_and_gives_up() {
    let mut r = Restart::new(true, true);
    assert_eq!(command(r.next_action()), "systemctl show k3s -p ExecMainStartTimestampMonotonic");
    r.give(RestartAnswer::Output(None));
    assert_eq!(
        command(r.next_action()),
        "systemctl show k3s-agent -p ExecMainStartTimestampMonotonic"
    );
    r.give(show("5"));
    assert_eq!(command(r.next_action()), "systemctl restart k3s-agent");
    r.give(RestartAnswer::Exit(Ok(1)));
    assert_eq!(command(r.next_action()), "service k3s-agent restart");
    r.give(RestartAnswer::Exit(Ok(1)));
    assert_eq!(r.result().unwrap().unwrap(), RestartResult::NotSupported);

    // Where no service runs, the first one is restarted, and never verified
    let mut r = Restart::new(true, true);
    r.give(RestartAnswer::Output(None));
    r.give(RestartAnswer::Output(Some("".to_string())));
    assert_eq!(command(r.next_action()), "systemctl restart k3s");
    r.give(RestartAnswer::Exit(Ok(0)));
    r.give(RestartAnswer::TimeLeft(true));
    r.give(RestartAnswer::Output(Some("active".to_string())));
    r.give(show("7"));
    r.give(RestartAnswer::Paused);
    r.give(RestartAnswer::TimeLeft(false));
    assert_eq!(r.result().unwrap().unwrap(), RestartResult::Issued);
}

#[test]
fn restart_not_requested_or_failed() {
    let r = Restart::new(false, true);
    assert_eq!(command(r.next_action()), "finished");
    assert_eq!(r.result().unwrap().unwrap(), RestartResult::NotRequested);
    let mut r = Restart::new(true, false);
    r.give(show("1"));
    r.give(RestartAnswer::Exit(Err(NriError::Io("no".to_string()))));
    assert_eq!(command(r.next_action()), "finished");
    assert_eq!(r.result().unwrap().unwrap_err().message(), "I/O error: no");
    assert!(Restart::new(true, false).result().is_none());
}

#[test]
fn what_systemctl_prints() {
    assert_eq!(
        service_monotonic_start(Some("Id=x\nExecMainStartTimestampMonotonic= 42 \n")),
        Some(42)
    );
    assert_eq!(service_monotonic_start(Some("ExecMainStartTimestampMonotonic=\n")), None);
    assert_eq!(service_monotonic_start(None), None);
    assert!(is_active(Some(" active\n")));
    assert!(!is_active(Some("inactive")));
    assert!(!is_active(None));
    assert_eq!(Service::K3sAgent.name(), "k3s-agent");
}

#[test]
fn waiting_for_the_socket() {
    assert_eq!(wait_for_socket(true, true), Some(true));
    assert_eq!(wait_for_socket(true, false), None);
    assert_eq!(wait_for_socket(false, true), Some(false));
}

fn version(major: u64, minor: u64, patch: u64) -> Version {
    Version { major, minor, patch, pre: String::new(), build: String::new() }
}

fn found(v: Option<Version>) -> Detection {
    Detection { env: EnvKind::Containerd, containerd_version: v }
}

#[test]
fn old_versions_end_it() {
    let mut opts = Options::default();
    let end = version_gate(&opts, found(Some(version(1, 6, 99))), true).unwrap_err().unwrap();
    assert!(!end.configured && !end.restarted && !end.restart_verified && end.socket_available);
    opts.fail_if_unavailable = true;
    let end = version_gate(&opts, found(Some(version(1, 6, 99))), true).unwrap_err();
    assert_eq!(end.unwrap_err().message(), "Unsupported version: 1.6.99");
    assert!(version_gate(&opts, found(Some(version(1, 7, 0))), false).is_ok());
    assert!(version_gate(&opts, found(None), false).is_ok());
}

#[test]
fn what_is_configured() {
    let mut opts = Options::default();
    assert!(matches!(plan_configuration(&opts, &EnvKind::Containerd), Configuration::Nothing));
    opts.configure = true;
    match plan_configuration(&opts, &EnvKind::Containerd) {
        Configuration::Containerd { path, socket_path } => {
            assert_eq!(path, "/etc/containerd/config.toml");
            assert_eq!(socket_path, "/var/run/nri/nri.sock");
        }
        other => panic!("unexpected: {:?}", other),
    }
    match plan_configuration(&opts, &EnvKind::K3s { version: None }) {
        Configuration::K3s { dir } => assert_eq!(dir, "/var/lib/rancher/k3s/agent/etc/containerd"),
        other => panic!("unexpected: {:?}", other),
    }
    opts.socket_path = Some("/s".to_string());
    assert_eq!(socket_path(&opts), "/s");
}

#[test]
fn how_it_ends() {
    let mut opts = Options::default();
    assert!(!wants_restart(&opts, true));
    opts.restart = true;
    assert!(wants_restart(&opts, true));
    assert!(!wants_restart(&opts, false));
    assert!(restarts_k3s(&EnvKind::K3s { version: None }));
    assert!(!restarts_k3s(&EnvKind::Containerd));
    assert!(waits_for_socket(RestartResult::Issued));
    assert!(!waits_for_socket(RestartResult::NotSupported));
    assert_eq!(after_restart(RestartResult::Issued, false), (true, false));
    assert_eq!(after_restart(RestartResult::Issued, true), (true, true));
    assert_eq!(after_restart(RestartResult::Verified, false), (true, true));
    assert_eq!(after_restart(RestartResult::NotSupported, true), (false, false));
    let end = conclude(&opts, found(None), true, (true, false), false).unwrap();
    assert!(end.configured && end.restarted && !end.restart_verified && !end.socket_available);
    opts.fail_if_unavailable = true;
    assert_eq!(
        conclude(&opts, found(None), true, (true, true), false).unwrap_err().message(),
        "Verification failed: NRI socket unavailable"
    );
    assert!(conclude(&opts, found(None), true, (true, true), true).is_ok());
}

#[test]
fn course_with_a_restart() {
    let mut opts = Options::default();
    opts.configure = true;
    opts.restart = true;
    opts.fail_if_unavailable = true;
    let mut course = Course::new(opts);
    assert!(matches!(course.next_action(), CourseAction::Detect));
    // An answer to another question changes nothing
    course.give(CourseAnswer::Socket(true));
    assert!(matches!(course.next_action(), CourseAction::Detect));
    course.give(CourseAnswer::Detected(found(Some(version(1, 7, 1)))));
    match course.next_action() {
        CourseAction::LookForSocket(path) => assert_eq!(path, "/var/run/nri/nri.sock"),
        other => panic!("unexpected: {:?}", other),
    }
    course.give(CourseAnswer::Socket(false));
    match course.next_action() {
        CourseAction::Configure(Configuration::Containerd { path, .. }) => {
            assert_eq!(path, "/etc/containerd/config.toml")
        }
        other => panic!("unexpected: {:?}", other),
    }
    course.give(CourseAnswer::Configured(Ok(true)));
    assert!(matches!(course.next_action(), CourseAction::Restart { k3s: false }));
    course.give(CourseAnswer::Restarted(Ok(RestartResult::Issued)));
    assert!(matches!(course.next_action(), CourseAction::WaitForSocket(_)));
    course.give(CourseAnswer::Socket(true));
    assert!(matches!(course.next_action(), CourseAction::LookForSocket(_)));
    course.give(CourseAnswer::Socket(true));
    assert!(matches!(course.next_action(), CourseAction::Finished));
    let end = course.result().unwrap().unwrap();
    assert!(end.configured && end.restarted && end.restart_verified && end.socket_available);
}

#[test]
fn course_of_detection_alone() {
    let mut opts = Options::default();
    opts.restart = true;
    let mut course = Course::new(opts);
    course.give(CourseAnswer::Detected(found(None)));
    course.give(CourseAnswer::Socket(false));
    assert!(matches!(course.next_action(), CourseAction::LookForSocket(_)));
    course.give(CourseAnswer::Socket(false));
    let end = course.result().unwrap().unwrap();
    assert!(!end.configured && !end.restarted && !end.restart_verified && !end.socket_available);
}

#[test]
fn courses_that_end_early() {
    let mut opts = Options::default();
    opts.configure = true;
    opts.restart = true;
    // Too old a version is left alone
    let mut course = Course::new(opts.clone());
    course.give(CourseAnswer::Detected(found(Some(version(1, 6, 0)))));
    course.give(CourseAnswer::Socket(true));
    let end = course.result().unwrap().unwrap();
    assert!(!end.configured && !end.restarted && end.socket_available);
    // What cannot be configured is an error
    let mut course = Course::new(opts.clone());
    course.give(CourseAnswer::Detected(found(None)));
    course.give(CourseAnswer::Socket(true));
    course.give(CourseAnswer::Configured(Err(NriError::Io("gone".to_string()))));
    assert_eq!(course.result().unwrap().unwrap_err().message(), "I/O error: gone");
    // What was not changed is not restarted
    let mut course = Course::new(opts.clone());
    course.give(CourseAnswer::Detected(found(None)));
    course.give(CourseAnswer::Socket(true));
    course.give(CourseAnswer::Configured(Ok(false)));
    assert!(matches!(course.next_action(), CourseAction::LookForSocket(_)));
    assert!(course.result().is_none());
    // A restart that is not supported is not waited for
    let mut course = Course::new(opts.clone());
    course.give(CourseAnswer::Detected(found(None)));
    course.give(CourseAnswer::Socket(true));
    course.give(CourseAnswer::Configured(Ok(true)));
    course.give(CourseAnswer::Restarted(Ok(RestartResult::NotSupported)));
    assert!(matches!(course.next_action(), CourseAction::LookForSocket(_)));
    course.give(CourseAnswer::Socket(true));
    let end = course.result().unwrap().unwrap();
    assert!(end.configured && !end.restarted && !end.restart_verified);
    // One that fails is an error
    let mut course = Course::new(opts);
    course.give(CourseAnswer::Detected(found(None)));
    course.give(CourseAnswer::Socket(true));
    course.give(CourseAnswer::Configured(Ok(true)));
    course.give(CourseAnswer::Restarted(Err(NriError::Io("no".to_string()))));
    assert_eq!(course.result().unwrap().unwrap_err().message(), "I/O error: no");
}

#[test]
fn error_texts() {
    let texts = [
        (NriError::Io("x".to_string()), "I/O error: x"),
        (NriError::CommandFailed("x".to_string()), "Command failed: x"),
        (NriError::VersionUnsupported("x".to_string()), "Unsupported version: x"),
        (NriError::VerificationFailed("x".to_string()), "Verification failed: x"),
        (NriError::TomlMutation("x".to_string()), "TOML mutation failed: x"),
    ];
    for (e, text) in texts {
        assert_eq!(e.message(), text);
    }
}
