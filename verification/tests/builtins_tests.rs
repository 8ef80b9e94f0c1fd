use rsh::builtins::{handle_builtin, BuiltinAction, ExecMode};

fn run(line: &str, mode: ExecMode) -> (BuiltinAction, ExecMode) {
    let mut m = mode;
    let a = handle_builtin(line, &mut m);
    (a, m)
}

#[test]
fn non_builtin_leaves_mode() {
    let (a, m) = run("ls -al", ExecMode::Thread);
    assert!(matches!(a, BuiltinAction::NotBuiltin));
    assert_eq!(m, ExecMode::Thread);
    let (a, _) = run("   ", ExecMode::Process);
    assert!(matches!(a, BuiltinAction::NotBuiltin));
    let (a, _) = run("exitnow", ExecMode::Process);
    assert!(matches!(a, BuiltinAction::NotBuiltin));
}

#[test]
fn exit_and_help() {
    assert!(matches!(run("exit", ExecMode::Process).0, BuiltinAction::Exit));
    assert!(matches!(run("  exit 3 ", ExecMode::Process).0, BuiltinAction::Exit));
    assert!(matches!(run("help", ExecMode::Process).0, BuiltinAction::Help));
}

#[test]
fn cd_with_and_without_argument() {
    match run("cd /tmp extra", ExecMode::Process).0 {
        BuiltinAction::ChangeDir(Some(d)) => assert_eq!(d, "/tmp"),
        other => panic!("{:?}", other),
    }
    assert!(matches!(run("cd", ExecMode::Process).0, BuiltinAction::ChangeDir(None)));
}

#[test]
fn jobs_builtin() {
    assert!(matches!(run("jobs", ExecMode::Process).0, BuiltinAction::ListJobs));
}

#[test]
fn kill_parses_job_id() {
    assert!(matches!(run("kill %3", ExecMode::Process).0, BuiltinAction::Kill(3)));
    assert!(matches!(run("kill %+12", ExecMode::Process).0, BuiltinAction::Kill(12)));
    assert!(matches!(run("kill %007", ExecMode::Process).0, BuiltinAction::Kill(7)));
}

#[test]
fn kill_usage_errors() {
    assert!(matches!(run("kill", ExecMode::Process).0, BuiltinAction::KillUsage));
    assert!(matches!(run("kill 3", ExecMode::Process).0, BuiltinAction::KillUsage));
    assert!(matches!(run("kill %", ExecMode::Process).0, BuiltinAction::KillUsage));
    assert!(matches!(run("kill %x", ExecMode::Process).0, BuiltinAction::KillUsage));
    assert!(matches!(run("kill %-1", ExecMode::Process).0, BuiltinAction::KillUsage));
    assert!(matches!(run("kill %99999999999999999999999", ExecMode::Process).0, BuiltinAction::KillUsage));
}

#[test]
fn mode_switches() {
    let (a, m) = run("mode thread", ExecMode::Process);
    assert!(matches!(a, BuiltinAction::ModeSwitched(ExecMode::Thread)));
    assert_eq!(m, ExecMode::Thread);
    let (a, m) = run("mode process", ExecMode::Thread);
    assert!(matches!(a, BuiltinAction::ModeSwitched(ExecMode::Process)));
    assert_eq!(m, ExecMode::Process);
}

#[test]
fn mode_usage_keeps_mode() {
    let (a, m) = run("mode", ExecMode::Thread);
    assert!(matches!(a, BuiltinAction::ModeUsage(ExecMode::Thread)));
    assert_eq!(m, ExecMode::Thread);
    let (a, m) = run("mode fast", ExecMode::Process);
    assert!(matches!(a, BuiltinAction::ModeUsage(ExecMode::Process)));
    assert_eq!(m, ExecMode::Process);
}
