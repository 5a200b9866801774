use rinit_core::ctl::{CtlError, DisableCommand, EnableCommand};
use rinit_core::graph::{DependencyGraph, GraphError, Node};
use rinit_core::types::{
    Bundle, Oneshot, RunLevel, Script, ScriptEnvironment, ScriptPrefix, Service,
};

fn oneshot(name: &str, deps: &[&str], runlevel: RunLevel) -> Service {
    Service::Oneshot(Oneshot {
        name: name.to_string(),
        dependencies: deps.iter().map(|d| d.to_string()).collect(),
        runlevel,
        start: Script {
            prefix: ScriptPrefix::Sh,
            execute: "true".to_string(),
            user: None,
            group: None,
        },
        stop: None,
        environment: ScriptEnvironment { contents: Vec::new() },
    })
}

fn bundle(name: &str, deps: &[&str]) -> Service {
    Service::Bundle(Bundle {
        name: name.to_string(),
        dependencies: deps.iter().map(|d| d.to_string()).collect(),
        runlevel: RunLevel::Default,
    })
}

fn node(service: Service) -> Node {
    let dependencies = service.dependencies().clone();
    Node { service, dependencies }
}

fn names(v: &[&str]) -> Vec<String> {
    v.iter().map(|s| s.to_string()).collect()
}

#[test]
fn validate_accepts_well_formed_graph() {
    let g = DependencyGraph {
        nodes: vec![
            node(oneshot("a", &["b"], RunLevel::Default)),
            node(oneshot("b", &[], RunLevel::Default)),
        ],
    };
    assert!(g.validate());
}

#[test]
fn validate_rejects_duplicate_names() {
    let g = DependencyGraph {
        nodes: vec![
            node(oneshot("a", &[], RunLevel::Default)),
            node(oneshot("a", &[], RunLevel::Default)),
        ],
    };
    assert!(!g.validate());
}

#[test]
fn validate_rejects_unresolved_dependency() {
    let g = DependencyGraph {
        nodes: vec![node(oneshot("a", &["ghost"], RunLevel::Default))],
    };
    assert!(!g.validate());
}

#[test]
fn add_services_merges_and_checks_dependencies() {
    let mut g = DependencyGraph::new();
    let batch = vec![oneshot("a", &["b"], RunLevel::Default), oneshot("b", &[], RunLevel::Default)];
    assert!(g.add_services(&batch).is_ok());
    assert_eq!(g.nodes.len(), 2);
    assert!(g.lookup(&"a".to_string()).is_some());

    let bad = vec![oneshot("c", &["nowhere"], RunLevel::Default)];
    assert_eq!(g.add_services(&bad), Err(GraphError::UnresolvedDependency));
}

#[test]
fn add_services_replaces_same_name() {
    let mut g = DependencyGraph::new();
    assert!(g.add_services(&vec![oneshot("a", &[], RunLevel::Default)]).is_ok());
    assert!(g.add_services(&vec![oneshot("a", &[], RunLevel::Boot)]).is_ok());
    assert_eq!(g.nodes.len(), 1);
    assert_eq!(g.nodes[0].service.runlevel(), RunLevel::Boot);
}

#[test]
fn remove_node_forgets_exactly_one_name() {
    let mut g = DependencyGraph::new();
    let batch = vec![oneshot("a", &[], RunLevel::Default), oneshot("b", &[], RunLevel::Default)];
    assert!(g.add_services(&batch).is_ok());
    assert!(g.remove_node(&"a".to_string()));
    assert!(g.lookup(&"a".to_string()).is_none());
    assert!(g.lookup(&"b".to_string()).is_some());
    assert!(!g.remove_node(&"a".to_string()));
}

#[test]
fn enable_rejects_duplicated_request() {
    let mut g = DependencyGraph::new();
    let cmd = EnableCommand { services: names(&["a", "b", "a"]) };
    let r = cmd.run(&mut g, &vec![oneshot("a", &[], RunLevel::Default)]);
    assert!(matches!(r, Err(CtlError::DuplicatedService)));
    assert_eq!(g.nodes.len(), 0);
}

#[test]
fn enable_adds_parsed_services() {
    let mut g = DependencyGraph::new();
    let cmd = EnableCommand { services: names(&["a"]) };
    let parsed = vec![oneshot("a", &["dep"], RunLevel::Default), oneshot("dep", &[], RunLevel::Default)];
    assert!(cmd.run(&mut g, &parsed).is_ok());
    assert!(g.lookup(&"a".to_string()).is_some());
    assert!(g.lookup(&"dep".to_string()).is_some());
}

#[test]
fn enable_reports_unresolved_dependency() {
    let mut g = DependencyGraph::new();
    let cmd = EnableCommand { services: names(&["a"]) };
    let parsed = vec![oneshot("a", &["missing"], RunLevel::Default)];
    let r = cmd.run(&mut g, &parsed);
    assert!(matches!(r, Err(CtlError::UnresolvedDependency)));
}

#[test]
fn disable_rejects_unknown_service() {
    let mut g = DependencyGraph::new();
    assert!(g.add_services(&vec![oneshot("a", &[], RunLevel::Default)]).is_ok());
    let cmd = DisableCommand {
        services: names(&["zzz"]),
        atomic_changes: false,
        runlevel: RunLevel::Default,
    };
    match cmd.run(&mut g) {
        Err(CtlError::ServiceNotEnabled { service }) => assert_eq!(service, "zzz"),
        other => panic!("unexpected result: {:?}", other),
    }
    assert_eq!(g.nodes.len(), 1);
}

#[test]
fn disable_rejects_wrong_runlevel() {
    let mut g = DependencyGraph::new();
    assert!(g.add_services(&vec![oneshot("a", &[], RunLevel::Boot)]).is_ok());
    let cmd = DisableCommand {
        services: names(&["a"]),
        atomic_changes: true,
        runlevel: RunLevel::Default,
    };
    match cmd.run(&mut g) {
        Err(CtlError::RunLevelMismatch { service }) => assert_eq!(service, "a"),
        other => panic!("unexpected result: {:?}", other),
    }
    assert_eq!(g.nodes.len(), 1);
}

#[test]
fn disable_removes_services() {
    let mut g = DependencyGraph::new();
    let batch = vec![
        oneshot("a", &["b"], RunLevel::Default),
        oneshot("b", &[], RunLevel::Default),
        oneshot("c", &[], RunLevel::Default),
    ];
    assert!(g.add_services(&batch).is_ok());
    let cmd = DisableCommand {
        services: names(&["a", "c"]),
        atomic_changes: true,
        runlevel: RunLevel::Default,
    };
    assert!(cmd.run(&mut g).is_ok());
    assert!(g.lookup(&"a".to_string()).is_none());
    assert!(g.lookup(&"c".to_string()).is_none());
    assert!(g.lookup(&"b".to_string()).is_some());
}

#[test]
fn disable_reports_dangling_dependency() {
    let mut g = DependencyGraph::new();
    let batch = vec![
        oneshot("a", &["b"], RunLevel::Default),
        oneshot("b", &[], RunLevel::Default),
    ];
    assert!(g.add_services(&batch).is_ok());
    let cmd = DisableCommand {
        services: names(&["b"]),
        atomic_changes: false,
        runlevel: RunLevel::Default,
    };
    let r = cmd.run(&mut g);
    assert!(matches!(r, Err(CtlError::UnresolvedDependency)));
}

#[test]
fn disable_rejects_duplicates_before_touching_the_graph() {
    let mut g = DependencyGraph::new();
    assert!(g.add_services(&vec![oneshot("a", &[], RunLevel::Default)]).is_ok());
    let cmd = DisableCommand {
        services: names(&["a", "a"]),
        atomic_changes: false,
        runlevel: RunLevel::Default,
    };
    assert!(matches!(cmd.run(&mut g), Err(CtlError::DuplicatedService)));
    assert!(g.lookup(&"a".to_string()).is_some());
}

#[test]
fn bundles_never_start_on_their_own() {
    let b = bundle("base", &[]);
    assert!(!b.should_start());
    assert!(oneshot("a", &[], RunLevel::Default).should_start());
}
