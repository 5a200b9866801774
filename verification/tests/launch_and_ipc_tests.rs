use rinit_core::ctl::has_duplicates;
use rinit_core::graph::Node;
use rinit_core::ipc::{frame_line, take_line, Error, Request};
use rinit_core::launch::{exec_args, merge_env, resolve_identity, LaunchError};
use rinit_core::live_service::{LiveService, ServiceStatus};
use rinit_core::types::{
    Oneshot, RunLevel, Script, ScriptEnvironment, ScriptPrefix, Service, service_eq_exec,
};

fn script(prefix: ScriptPrefix, execute: &str) -> Script {
    Script { prefix, execute: execute.to_string(), user: None, group: None }
}

#[test]
fn bash_prefix_runs_the_shell() {
    let (exe, args) = exec_args(&script(ScriptPrefix::Bash, "echo hi; sleep 1"));
    assert_eq!(exe, "bash");
    assert_eq!(args, vec!["-c".to_string(), "echo hi; sleep 1".to_string()]);
}

#[test]
fn sh_prefix_runs_the_shell() {
    let (exe, args) = exec_args(&script(ScriptPrefix::Sh, "true"));
    assert_eq!(exe, "sh");
    assert_eq!(args, vec!["-c".to_string(), "true".to_string()]);
}

#[test]
fn path_prefix_splits_tokens() {
    let (exe, args) = exec_args(&script(ScriptPrefix::Path, "echo hello  world"));
    assert_eq!(exe, "echo");
    assert_eq!(args, vec!["hello".to_string(), "world".to_string()]);
}

#[test]
fn path_prefix_rejects_non_alphabetic_executable() {
    // A path with slashes is not all-alphabetic: the executable becomes
    // empty (and the spawn will fail), the arguments stay verbatim.
    let (exe, args) = exec_args(&script(ScriptPrefix::Path, "/bin/echo hi"));
    assert_eq!(exe, "");
    assert_eq!(args, vec!["hi".to_string()]);
}

#[test]
fn path_prefix_on_empty_line() {
    let (exe, args) = exec_args(&script(ScriptPrefix::Path, "   "));
    assert_eq!(exe, "");
    assert!(args.is_empty());
}

#[test]
fn merged_environment_lets_service_override() {
    let process = vec![
        ("PATH".to_string(), "/bin".to_string()),
        ("HOME".to_string(), "/root".to_string()),
    ];
    let service = vec![("PATH".to_string(), "/svc/bin".to_string())];
    let merged = merge_env(&process, &service);
    // Later entries win: the last binding of PATH is the service's.
    let last_path = merged.iter().rev().find(|(k, _)| k == "PATH").unwrap();
    assert_eq!(last_path.1, "/svc/bin");
    let last_home = merged.iter().rev().find(|(k, _)| k == "HOME").unwrap();
    assert_eq!(last_home.1, "/root");
    assert_eq!(merged.len(), 3);
}

#[test]
fn identity_without_names_asks_nothing() {
    let s = script(ScriptPrefix::Sh, "true");
    assert!(matches!(resolve_identity(&s), Ok((None, None))));
}

#[test]
fn identity_resolves_root() {
    let mut s = script(ScriptPrefix::Sh, "true");
    s.user = Some("root".to_string());
    match resolve_identity(&s) {
        Ok((Some(uid), None)) => assert_eq!(uid, 0),
        other => panic!("unexpected identity: {:?}", other),
    }
}

#[test]
fn identity_reports_unknown_user_and_group() {
    let mut s = script(ScriptPrefix::Sh, "true");
    s.user = Some("no-such-user-here".to_string());
    match resolve_identity(&s) {
        Err(LaunchError::UserUnknown { user }) => assert_eq!(user, "no-such-user-here"),
        other => panic!("unexpected identity: {:?}", other),
    }
    let mut s2 = script(ScriptPrefix::Sh, "true");
    s2.group = Some("no-such-group-here".to_string());
    match resolve_identity(&s2) {
        Err(LaunchError::GroupUnknown { group }) => assert_eq!(group, "no-such-group-here"),
        other => panic!("unexpected identity: {:?}", other),
    }
}

#[test]
fn duplicate_detection() {
    let dup = vec!["a".to_string(), "b".to_string(), "a".to_string()];
    assert!(has_duplicates(&dup));
    let ok = vec!["a".to_string(), "b".to_string()];
    assert!(!has_duplicates(&ok));
    assert!(!has_duplicates(&Vec::new()));
}

#[test]
fn framing_round_trip() {
    let payload: Vec<u8> = b"status".to_vec();
    let framed = frame_line(&payload);
    assert_eq!(framed, b"status\n".to_vec());
    let (line, rest) = take_line(&framed).expect("one full record");
    assert_eq!(line, payload);
    assert!(rest.is_empty());
}

#[test]
fn framing_splits_only_the_first_record() {
    let buf: Vec<u8> = b"one\ntwo\n".to_vec();
    let (line, rest) = take_line(&buf).expect("one full record");
    assert_eq!(line, b"one".to_vec());
    assert_eq!(rest, b"two\n".to_vec());
    assert!(take_line(&b"incomplete".to_vec()).is_none());
}

#[test]
fn requests_and_errors_exist_for_every_command() {
    let reqs = vec![
        Request::ReloadGraph,
        Request::ServiceStatus { service: "a".to_string() },
        Request::StartService { service: "a".to_string() },
        Request::StopService { service: "a".to_string() },
    ];
    assert_eq!(reqs.len(), 4);
    let errs = vec![
        Error::ConnectionFailed { socket: "/run/sock".to_string() },
        Error::ReadFailed,
        Error::WriteFailed,
    ];
    assert_eq!(errs.len(), 3);
}

#[test]
fn change_status_records_only_terminal_statuses() {
    let svc = Service::Oneshot(Oneshot {
        name: "a".to_string(),
        dependencies: Vec::new(),
        runlevel: RunLevel::Default,
        start: script(ScriptPrefix::Sh, "true"),
        stop: None,
        environment: ScriptEnvironment { contents: Vec::new() },
    });
    let dependencies = svc.dependencies().clone();
    let mut cell = LiveService::new(Node { service: svc, dependencies });
    assert_eq!(cell.last_status, None);
    cell.change_status(ServiceStatus::Starting);
    // Reset is not terminal: nothing is recorded.
    assert_eq!(cell.last_status, None);
    cell.change_status(ServiceStatus::Up);
    assert_eq!(cell.last_status, None);
    cell.change_status(ServiceStatus::Stopping);
    // Up was terminal: it is the answer to "what was this service doing?".
    assert_eq!(cell.last_status, Some(ServiceStatus::Up));
    cell.change_status(ServiceStatus::Down);
    assert_eq!(cell.last_status, Some(ServiceStatus::Up));
    cell.change_status(ServiceStatus::Starting);
    assert_eq!(cell.last_status, Some(ServiceStatus::Down));
    assert_eq!(cell.get_status(), None);
}

#[test]
fn service_equality_sees_every_field() {
    let a = Service::Oneshot(Oneshot {
        name: "a".to_string(),
        dependencies: vec!["b".to_string()],
        runlevel: RunLevel::Default,
        start: script(ScriptPrefix::Sh, "true"),
        stop: None,
        environment: ScriptEnvironment { contents: Vec::new() },
    });
    let same = Service::Oneshot(Oneshot {
        name: "a".to_string(),
        dependencies: vec!["b".to_string()],
        runlevel: RunLevel::Default,
        start: script(ScriptPrefix::Sh, "true"),
        stop: None,
        environment: ScriptEnvironment { contents: Vec::new() },
    });
    let changed = Service::Oneshot(Oneshot {
        name: "a".to_string(),
        dependencies: vec!["b".to_string()],
        runlevel: RunLevel::Default,
        start: script(ScriptPrefix::Sh, "false"),
        stop: None,
        environment: ScriptEnvironment { contents: Vec::new() },
    });
    assert!(service_eq_exec(&a, &same));
    assert!(!service_eq_exec(&a, &changed));
}
