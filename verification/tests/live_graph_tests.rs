use rinit_core::graph::{DependencyGraph, Node};
use rinit_core::live_graph::{LaunchOutcome, LiveServiceGraph, RunnerKind, StopAction};
use rinit_core::live_service::{DownReason, ServiceStatus};
use rinit_core::types::{
    Longrun, Oneshot, RunLevel, Script, ScriptEnvironment, ScriptPrefix, Service, Virtual,
};

fn script(text: &str) -> Script {
    Script {
        prefix: ScriptPrefix::Sh,
        execute: text.to_string(),
        user: None,
        group: None,
    }
}

fn longrun(name: &str, deps: &[&str], finish: bool) -> Service {
    Service::Longrun(Longrun {
        name: name.to_string(),
        dependencies: deps.iter().map(|d| d.to_string()).collect(),
        runlevel: RunLevel::Default,
        run: script("true"),
        finish: if finish { Some(script("true")) } else { None },
        environment: ScriptEnvironment { contents: Vec::new() },
    })
}

fn oneshot_with_stop(name: &str) -> Service {
    Service::Oneshot(Oneshot {
        name: name.to_string(),
        dependencies: Vec::new(),
        runlevel: RunLevel::Default,
        start: script("true"),
        stop: Some(script("true")),
        environment: ScriptEnvironment { contents: Vec::new() },
    })
}

fn virtual_svc(name: &str, deps: &[&str]) -> Service {
    Service::Virtual(Virtual {
        name: name.to_string(),
        dependencies: deps.iter().map(|d| d.to_string()).collect(),
        runlevel: RunLevel::Default,
    })
}

fn graph_of(services: Vec<Service>) -> DependencyGraph {
    let nodes = services
        .into_iter()
        .map(|service| {
            let dependencies = service.dependencies().clone();
            Node { service, dependencies }
        })
        .collect();
    let g = DependencyGraph { nodes };
    assert!(g.validate());
    g
}

fn drive_start(g: &mut LiveServiceGraph, schedule: &[usize], fail: &[&str]) {
    let mut pid = 100u64;
    for &idx in schedule {
        let name = g.services[idx].node.service.name().clone();
        if let Some(plan) = g.resolve_start(idx) {
            assert_eq!(plan.name, name);
            if fail.contains(&name.as_str()) {
                g.apply_launch(idx, LaunchOutcome::Failed);
            } else {
                match plan.runner {
                    RunnerKind::Longrun => {
                        g.apply_launch(idx, LaunchOutcome::Ready { pid });
                        pid += 1;
                    }
                    RunnerKind::Oneshot => g.apply_launch(idx, LaunchOutcome::Completed),
                }
            }
        }
    }
}

fn status_of(g: &LiveServiceGraph, name: &str) -> ServiceStatus {
    g.get_status(&name.to_string()).expect("service must exist")
}

#[test]
fn linear_chain_starts_dependencies_first() {
    let dep = graph_of(vec![
        longrun("a", &["b"], false),
        longrun("b", &["c"], false),
        longrun("c", &[], false),
    ]);
    let mut g = LiveServiceGraph::new(dep);
    let schedule = g.start_all_services();
    // Dependencies come earlier in the schedule than their dependents.
    let pos = |name: &str| {
        schedule
            .iter()
            .position(|&i| g.services[i].node.service.name() == name)
            .unwrap()
    };
    assert!(pos("c") < pos("b"));
    assert!(pos("b") < pos("a"));
    drive_start(&mut g, &schedule, &[]);
    assert_eq!(status_of(&g, "a"), ServiceStatus::Up);
    assert_eq!(status_of(&g, "b"), ServiceStatus::Up);
    assert_eq!(status_of(&g, "c"), ServiceStatus::Up);
    let stamp = |name: &str| {
        let idx = g.lookup(&name.to_string()).unwrap();
        g.services[idx].status_changed.unwrap()
    };
    assert!(stamp("c") <= stamp("b"));
    assert!(stamp("b") <= stamp("a"));
}

#[test]
fn diamond_orders_shared_dependency_first() {
    let dep = graph_of(vec![
        longrun("a", &["b", "c"], false),
        longrun("b", &["d"], false),
        longrun("c", &["d"], false),
        longrun("d", &[], false),
    ]);
    let mut g = LiveServiceGraph::new(dep);
    let schedule = g.start_all_services();
    let pos = |name: &str| {
        schedule
            .iter()
            .position(|&i| g.services[i].node.service.name() == name)
            .unwrap()
    };
    assert!(pos("d") < pos("b"));
    assert!(pos("d") < pos("c"));
    assert!(pos("b") < pos("a"));
    assert!(pos("c") < pos("a"));
    drive_start(&mut g, &schedule, &[]);
    for name in ["a", "b", "c", "d"] {
        assert_eq!(status_of(&g, name), ServiceStatus::Up);
    }
}

#[test]
fn failing_leaf_takes_dependent_down_without_launch() {
    let dep = graph_of(vec![longrun("a", &["b"], false), longrun("b", &[], false)]);
    let mut g = LiveServiceGraph::new(dep);
    let schedule = g.start_all_services();
    drive_start(&mut g, &schedule, &["b"]);
    assert_eq!(status_of(&g, "b"), ServiceStatus::Down);
    // The dependent was resolved after its dependency went down: no plan was
    // issued for it and it is down as well.
    assert_eq!(status_of(&g, "a"), ServiceStatus::Down);
    let a = g.lookup(&"a".to_string()).unwrap();
    assert_eq!(g.services[a].supervisor, None);
    // The query names the failure without re-reporting the root cause.
    assert_eq!(
        g.status_report(&"a".to_string()),
        Some((ServiceStatus::Down, Some(DownReason::DependencyFailed)))
    );
    assert_eq!(
        g.status_report(&"b".to_string()),
        Some((ServiceStatus::Down, Some(DownReason::LaunchFailed)))
    );
}

#[test]
fn stop_skips_the_script_of_a_service_that_never_ran() {
    let dep = graph_of(vec![oneshot_with_stop("a")]);
    let mut g = LiveServiceGraph::new(dep);
    // Never started: a stop claims the cell straight from `Reset`, and its
    // stop script has nothing to undo.
    let mut schedule = Vec::new();
    g.stop_service(0, &mut schedule);
    assert_eq!(g.resolve_stop(0), StopAction::Finished);
    assert_eq!(status_of(&g, "a"), ServiceStatus::Down);
}

#[test]
fn successful_restart_clears_the_failure_record() {
    let dep = graph_of(vec![longrun("a", &[], false)]);
    let mut g = LiveServiceGraph::new(dep);
    let schedule = g.start_all_services();
    drive_start(&mut g, &schedule, &["a"]);
    assert_eq!(
        g.status_report(&"a".to_string()),
        Some((ServiceStatus::Down, Some(DownReason::LaunchFailed)))
    );
    let mut second = Vec::new();
    g.start_service(0, &mut second);
    drive_start(&mut g, &second, &[]);
    assert_eq!(g.status_report(&"a".to_string()), Some((ServiceStatus::Up, None)));
}

#[test]
fn second_start_request_is_idempotent() {
    let dep = graph_of(vec![longrun("a", &[], false)]);
    let mut g = LiveServiceGraph::new(dep);
    let mut schedule = Vec::new();
    g.start_service(0, &mut schedule);
    assert_eq!(schedule, vec![0]);
    // A second request arriving while the cell is already claimed schedules
    // nothing: the start wave skips cells that are not startable.
    let second = g.start_all_services();
    assert!(second.is_empty());
    let plan = g.resolve_start(0).expect("launch plan expected");
    assert_eq!(plan.runner, RunnerKind::Longrun);
    g.apply_launch(0, LaunchOutcome::Ready { pid: 7 });
    assert_eq!(status_of(&g, "a"), ServiceStatus::Up);
    assert_eq!(g.services[0].supervisor, Some(7));
}

#[test]
fn virtual_services_rise_without_launch() {
    let dep = graph_of(vec![longrun("a", &["v"], false), virtual_svc("v", &[])]);
    let mut g = LiveServiceGraph::new(dep);
    let schedule = g.start_all_services();
    // Only `a` should start on its own; `v` is claimed as its dependency.
    drive_start(&mut g, &schedule, &[]);
    assert_eq!(status_of(&g, "v"), ServiceStatus::Up);
    assert_eq!(status_of(&g, "a"), ServiceStatus::Up);
    let v = g.lookup(&"v".to_string()).unwrap();
    assert_eq!(g.services[v].supervisor, None);
}

#[test]
fn start_then_stop_parks_every_cell() {
    let dep = graph_of(vec![
        longrun("a", &["b"], true),
        longrun("b", &[], false),
        virtual_svc("v", &[]),
    ]);
    let mut g = LiveServiceGraph::new(dep);
    let schedule = g.start_all_services();
    drive_start(&mut g, &schedule, &[]);
    let actions = g.stop_wave();
    for cell in &g.services {
        assert_eq!(cell.status, ServiceStatus::Down);
        assert_eq!(cell.supervisor, None);
    }
    // `a` has a finish script; `b` only a supervised child.
    let a = g.lookup(&"a".to_string()).unwrap();
    let b = g.lookup(&"b".to_string()).unwrap();
    assert!(actions.contains(&(a, StopAction::RunStopScript)));
    assert!(actions
        .iter()
        .any(|&(i, act)| i == b && matches!(act, StopAction::SignalSupervisor { .. })));
    // The dependent's stop action comes before its dependency's.
    let pos_a = actions.iter().position(|&(i, _)| i == a).unwrap();
    let pos_b = actions.iter().position(|&(i, _)| i == b).unwrap();
    assert!(pos_a < pos_b);
}

#[test]
fn stop_single_service_stops_dependents_first() {
    let dep = graph_of(vec![longrun("a", &["b"], false), longrun("b", &[], false)]);
    let mut g = LiveServiceGraph::new(dep);
    let schedule = g.start_all_services();
    drive_start(&mut g, &schedule, &[]);
    // Stop only `b`: its dependent `a` is claimed first.
    let b = g.lookup(&"b".to_string()).unwrap();
    let mut stop_schedule = Vec::new();
    g.stop_service(b, &mut stop_schedule);
    let a = g.lookup(&"a".to_string()).unwrap();
    assert_eq!(stop_schedule, vec![a, b]);
    for &idx in &stop_schedule {
        match g.resolve_stop(idx) {
            StopAction::Blocked => panic!("stop must not be blocked"),
            StopAction::Finished => {}
            _ => g.finish_stop(idx),
        }
    }
    assert_eq!(status_of(&g, "a"), ServiceStatus::Down);
    assert_eq!(status_of(&g, "b"), ServiceStatus::Down);
}

#[test]
fn stop_script_withheld_while_dependent_up() {
    let dep = graph_of(vec![longrun("a", &["b"], false), longrun("b", &[], true)]);
    let mut g = LiveServiceGraph::new(dep);
    let schedule = g.start_all_services();
    drive_start(&mut g, &schedule, &[]);
    let a = g.lookup(&"a".to_string()).unwrap();
    let b = g.lookup(&"b".to_string()).unwrap();
    // A stop claim on `b` that has not reached its dependent yet (statuses
    // written as the claiming transition would): the stop script is
    // withheld while `a` is still up.
    g.services[b].status = ServiceStatus::Stopping;
    g.services[b].last_status = Some(ServiceStatus::Up);
    assert_eq!(g.resolve_stop(b), StopAction::Blocked);
    assert_eq!(status_of(&g, "a"), ServiceStatus::Up);
    // Once the dependent is claimed too, the script may run.
    g.services[a].status = ServiceStatus::Stopping;
    g.services[a].last_status = Some(ServiceStatus::Up);
    assert_eq!(g.resolve_stop(b), StopAction::RunStopScript);
}

#[test]
fn reload_unchanged_graph_is_noop() {
    let dep = graph_of(vec![longrun("a", &["b"], false), longrun("b", &[], false)]);
    let dep_again = graph_of(vec![longrun("a", &["b"], false), longrun("b", &[], false)]);
    let mut g = LiveServiceGraph::new(dep);
    let schedule = g.start_all_services();
    drive_start(&mut g, &schedule, &[]);
    let stamps: Vec<_> = g.services.iter().map(|c| c.status_changed).collect();
    let to_stop = g.reload(&dep_again);
    assert!(to_stop.is_empty());
    assert_eq!(g.services.len(), 2);
    for (cell, stamp) in g.services.iter().zip(stamps) {
        assert_eq!(cell.status, ServiceStatus::Up);
        assert_eq!(cell.status_changed, stamp);
        assert!(cell.updated_node.is_none());
        assert!(!cell.remove);
    }
}

#[test]
fn reload_adds_new_service_at_reset() {
    let dep = graph_of(vec![longrun("a", &[], false), longrun("b", &[], false)]);
    let wider = graph_of(vec![
        longrun("a", &[], false),
        longrun("b", &[], false),
        longrun("c", &[], false),
    ]);
    let mut g = LiveServiceGraph::new(dep);
    let schedule = g.start_all_services();
    drive_start(&mut g, &schedule, &[]);
    let stamps: Vec<_> = g.services.iter().map(|c| c.status_changed).collect();
    let to_stop = g.reload(&wider);
    assert!(to_stop.is_empty());
    assert_eq!(g.services.len(), 3);
    assert_eq!(status_of(&g, "a"), ServiceStatus::Up);
    assert_eq!(status_of(&g, "b"), ServiceStatus::Up);
    assert_eq!(g.services[0].status_changed, stamps[0]);
    assert_eq!(g.services[1].status_changed, stamps[1]);
    let c = g.lookup(&"c".to_string()).unwrap();
    assert_eq!(g.services[c].status, ServiceStatus::Reset);
}

#[test]
fn reload_removes_service_after_stop() {
    let dep = graph_of(vec![longrun("a", &[], false), longrun("b", &[], false)]);
    let narrower = graph_of(vec![longrun("a", &[], false)]);
    let mut g = LiveServiceGraph::new(dep);
    let schedule = g.start_all_services();
    drive_start(&mut g, &schedule, &[]);
    let to_stop = g.reload(&narrower);
    let b = g.lookup(&"b".to_string()).unwrap();
    assert_eq!(to_stop, vec![b]);
    assert!(g.services[b].remove);
    let mut stop_schedule = Vec::new();
    g.stop_service(b, &mut stop_schedule);
    for &idx in &stop_schedule {
        match g.resolve_stop(idx) {
            StopAction::Finished | StopAction::Blocked => {}
            _ => g.finish_stop(idx),
        }
    }
    assert_eq!(status_of(&g, "b"), ServiceStatus::Down);
    g.remove_downed();
    assert!(g.lookup(&"b".to_string()).is_none());
    assert_eq!(g.services.len(), 1);
    assert_eq!(status_of(&g, "a"), ServiceStatus::Up);
}

#[test]
fn reload_changed_definition_is_parked_and_applied() {
    let dep = graph_of(vec![longrun("a", &[], false)]);
    let changed = graph_of(vec![longrun("a", &[], true)]);
    let mut g = LiveServiceGraph::new(dep);
    let to_stop = g.reload(&changed);
    assert!(to_stop.is_empty());
    assert!(g.services[0].updated_node.is_some());
    // The cell is at Reset, a quiescent point: the swap applies.
    g.apply_update(0);
    assert!(g.services[0].updated_node.is_none());
    match &g.services[0].node.service {
        Service::Longrun(l) => assert!(l.finish.is_some()),
        _ => panic!("expected a longrun"),
    }
}

#[test]
fn status_query_distinguishes_unknown_names() {
    let dep = graph_of(vec![longrun("a", &[], false)]);
    let g = LiveServiceGraph::new(dep);
    assert_eq!(g.get_status(&"a".to_string()), Some(ServiceStatus::Reset));
    assert_eq!(g.get_status(&"zzz".to_string()), None);
    assert!(g.deps_resolve_live());
}
