//! The live service graph: the runtime collection of service cells, indexed
//! by name, with the dependency-ordered start and stop algorithms and hot
//! reload. Start and stop are split into decision steps: marking waves that
//! plan a dependency-ordered schedule, resolution steps that decide what the
//! surrounding daemon must launch or signal, and application steps that fold
//! the outcome of that outside work back into the graph. Every decision is
//! taken here; the daemon only executes them.

use vstd::prelude::*;
use crate::graph::{has_name, node_eq, clone_node, DependencyGraph, Node};
use crate::live_service::{DownReason, LiveService, ServiceStatus};
use crate::types::{service_eq_exec, string_eq, strvec_eq, strvec_eq_exec, Service};

verus! {

/// A cell a start wave may still claim: never started, or back at `Down`.
pub open spec fn startable(st: ServiceStatus) -> bool {
    st == ServiceStatus::Reset || st == ServiceStatus::Down
}

/// The startable predicate as a spec-level function value.
pub open spec fn startable_pred() -> spec_fn(ServiceStatus) -> bool {
    |st: ServiceStatus| startable(st)
}

/// A cell a stop wave may still claim: running, starting, or never started.
pub open spec fn stoppable(st: ServiceStatus) -> bool {
    st == ServiceStatus::Reset || st == ServiceStatus::Up || st == ServiceStatus::Starting
}

/// The stoppable predicate as a spec-level function value.
pub open spec fn stoppable_pred() -> spec_fn(ServiceStatus) -> bool {
    |st: ServiceStatus| stoppable(st)
}

/// The number of cells whose status satisfies `p`; the termination measure
/// of the marking recursions, which claim one such cell per call.
pub closed spec fn count_pred(s: Seq<LiveService>, p: spec_fn(ServiceStatus) -> bool) -> nat
    decreases s.len(),
{
    if s.len() == 0 {
        0
    } else {
        count_pred(s.drop_last(), p) + if p(s.last().status) {
            1nat
        } else {
            0nat
        }
    }
}

proof fn lemma_count_update(s: Seq<LiveService>, i: int, c: LiveService, p: spec_fn(ServiceStatus) -> bool)
    requires
        0 <= i < s.len(),
    ensures
        count_pred(s.update(i, c), p) + (if p(s[i].status) {
            1nat
        } else {
            0nat
        }) == count_pred(s, p) + (if p(c.status) {
            1nat
        } else {
            0nat
        }),
    decreases s.len(),
{
    let t = s.update(i, c);
    if i == s.len() - 1 {
        assert(t.drop_last() =~= s.drop_last());
        assert(t.last() == c);
    } else {
        assert(t.drop_last() =~= s.drop_last().update(i, c));
        assert(t.last() == s.last());
        lemma_count_update(s.drop_last(), i, c, p);
    }
}

/// Some cell carries the name `name`.
pub open spec fn live_has_name(s: Seq<LiveService>, name: Seq<char>) -> bool {
    exists|i: int| 0 <= i < s.len() && s[i].spec_name() == name
}

/// The cell named `name` is in status `st`. With unique names this pins the
/// status of that service.
pub open spec fn name_has_status(s: Seq<LiveService>, name: Seq<char>, st: ServiceStatus) -> bool {
    exists|i: int| 0 <= i < s.len() && s[i].spec_name() == name && s[i].status == st
}

/// No two cells share a name.
pub open spec fn live_names_unique(s: Seq<LiveService>) -> bool {
    forall|i: int, j: int| 0 <= i < j < s.len() ==> s[i].spec_name() != s[j].spec_name()
}

/// Every dependency name of every cell resolves to a cell.
pub open spec fn live_deps_resolve(s: Seq<LiveService>) -> bool {
    forall|i: int, k: int|
        0 <= i < s.len() && 0 <= k < s[i].node.dependencies@.len() ==> live_has_name(
            s,
            s[i].node.dependencies@[k]@,
        )
}

/// `name` occurs in the name sequence `deps`.
pub open spec fn seq_contains_name(deps: Seq<String>, name: Seq<char>) -> bool {
    exists|k: int| 0 <= k < deps.len() && deps[k]@ == name
}

/// Cell index `j` appears in `sched` at or after position `from`.
pub open spec fn scheduled_in(sched: Seq<usize>, from: int, j: int) -> bool {
    exists|k: int| from <= k < sched.len() && sched[k] as int == j
}

/// A schedule entry survives appending further entries.
proof fn lemma_scheduled_in_extend(s1: Seq<usize>, s2: Seq<usize>, from: int, j: int)
    requires
        0 <= from,
        s1.len() <= s2.len(),
        forall|k: int| 0 <= k < s1.len() ==> #[trigger] s2[k] == s1[k],
        scheduled_in(s1, from, j),
    ensures
        scheduled_in(s2, from, j),
{
    let k = choose|k: int| from <= k < s1.len() && s1[k] as int == j;
    assert(s2[k] == s1[k]);
}

/// The service named `name` needs no further claim from a start request:
/// its cell is already started, starting or being torn down.
pub open spec fn name_not_startable(s: Seq<LiveService>, name: Seq<char>) -> bool {
    exists|w: int|
        0 <= w < s.len() && (#[trigger] s[w]).spec_name() == name && !startable(s[w].status)
}

/// Every declared dependency of the cell at `i` is `Up`.
pub open spec fn deps_up(s: Seq<LiveService>, i: int) -> bool {
    forall|k: int|
        0 <= k < s[i].node.dependencies@.len() ==> name_has_status(
            s,
            s[i].node.dependencies@[k]@,
            ServiceStatus::Up,
        )
}

/// No cell depending on `name` is `Up` or `Starting`: the condition under
/// which a stop wave may act on the service named `name`.
pub open spec fn dependents_quiet(s: Seq<LiveService>, name: Seq<char>) -> bool {
    forall|j: int|
        0 <= j < s.len() && seq_contains_name(#[trigger] s[j].node.dependencies@, name) ==> !(
        s[j].status == ServiceStatus::Up || s[j].status == ServiceStatus::Starting)
}

/// The service of this cell carries a stop (or finish) script.
pub open spec fn has_stop_script(s: Service) -> bool {
    match s {
        Service::Oneshot(o) => o.stop is Some,
        Service::Longrun(l) => l.finish is Some,
        Service::Bundle(_) => false,
        Service::Virtual(_) => false,
    }
}

/// What a claimed (`Stopping`) cell asks of the daemon when it is resolved
/// with no dependent in the way: its stop script if it has one and the
/// service has run, else a signal to the supervised child, else nothing.
pub open spec fn claimed_action(c: LiveService) -> Option<StopAction> {
    if has_stop_script(c.node.service) && c.last_status is Some {
        Option::Some(StopAction::RunStopScript)
    } else {
        match c.supervisor {
            Option::Some(pid) => Option::Some(StopAction::SignalSupervisor { pid }),
            Option::None => Option::None,
        }
    }
}

/// The outside action a stop wave owes for a cell, given its state when the
/// wave began. A cell already `Down` is not claimed and owes nothing; for
/// the rest the claim records a terminal status, so the script condition is
/// evaluated over the state before the claim.
pub open spec fn wave_action(o: LiveService) -> Option<StopAction> {
    if o.status == ServiceStatus::Down {
        Option::None
    } else if has_stop_script(o.node.service) && (o.status.is_terminal() || o.last_status
        is Some) {
        Option::Some(StopAction::RunStopScript)
    } else {
        match o.supervisor {
            Option::Some(pid) => Option::Some(StopAction::SignalSupervisor { pid }),
            Option::None => Option::None,
        }
    }
}

/// A start-wave marking either left a cell alone or claimed a startable cell
/// and moved it to `Starting`; nothing else.
pub open spec fn start_marked_or_same(o: LiveService, f: LiveService) -> bool {
    f == o || (startable(o.status) && f.status == ServiceStatus::Starting && f.same_shape(o)
        && f.down_reason == o.down_reason && f.last_status == if o.status.is_terminal() {
        Option::Some(o.status)
    } else {
        o.last_status
    } && f.status_changed is Some)
}

/// A stop-wave marking either left a cell alone or claimed a stoppable cell
/// and moved it to `Stopping`; nothing else.
pub open spec fn stop_marked_or_same(o: LiveService, f: LiveService) -> bool {
    f == o || (stoppable(o.status) && f.status == ServiceStatus::Stopping && f.same_shape(o)
        && f.down_reason == o.down_reason && f.last_status == if o.status.is_terminal() {
        Option::Some(o.status)
    } else {
        o.last_status
    } && f.status_changed is Some)
}

/// `c` is one of the cells of `s`.
pub open spec fn cell_in(c: LiveService, s: Seq<LiveService>) -> bool {
    exists|i: int| 0 <= i < s.len() && s[i] == c
}

/// A cell appended by reload: at `Reset`, carrying the definition of one of
/// the new graph's nodes, with nothing recorded yet.
pub open spec fn fresh_cell(f: LiveService, new_nodes: Seq<Node>) -> bool {
    &&& f.status == ServiceStatus::Reset
    &&& f.status_changed is None
    &&& f.last_status is None
    &&& f.updated_node is None
    &&& f.supervisor is None
    &&& f.down_reason is None
    &&& f.remove == false
    &&& exists|k: int|
        0 <= k < new_nodes.len() && node_eq(f.node, #[trigger] new_nodes[k]) && f.spec_name()
            == new_nodes[k].spec_name()
}

/// `f` is `o` with only the tombstone raised.
pub open spec fn same_but_remove(o: LiveService, f: LiveService) -> bool {
    &&& f.node == o.node
    &&& f.updated_node == o.updated_node
    &&& f.status == o.status
    &&& f.status_changed == o.status_changed
    &&& f.last_status == o.last_status
    &&& f.config == o.config
    &&& f.environment == o.environment
    &&& f.down_reason == o.down_reason
    &&& f.supervisor == o.supervisor
    &&& f.remove == true
}

/// `f` is `o` with only a pending replacement definition equal to `n`.
pub open spec fn same_but_updated(o: LiveService, f: LiveService, n: Node) -> bool {
    &&& f.node == o.node
    &&& (match f.updated_node {
        Option::Some(u) => node_eq(u, n) && u.spec_name() == n.spec_name(),
        Option::None => false,
    })
    &&& f.status == o.status
    &&& f.status_changed == o.status_changed
    &&& f.last_status == o.last_status
    &&& f.config == o.config
    &&& f.environment == o.environment
    &&& f.down_reason == o.down_reason
    &&& f.supervisor == o.supervisor
    &&& f.remove == o.remove
}

/// What reload does to a cell that existed before it: untouched when the
/// new graph carries an equal definition under its name, a pending update
/// when the definition changed, a tombstone when the name is gone.
pub open spec fn reload_cell(o: LiveService, f: LiveService, new_nodes: Seq<Node>) -> bool {
    &&& (!has_name(new_nodes, o.spec_name()) ==> same_but_remove(o, f))
    &&& forall|k: int|
        0 <= k < new_nodes.len() && (#[trigger] new_nodes[k]).spec_name() == o.spec_name() ==> (
        if node_eq(new_nodes[k], o.node) {
            f == o
        } else {
            same_but_updated(o, f, new_nodes[k])
        })
}

/// The persisted graph and the live graph declare the same services with
/// the same definitions: the premise under which reload is a no-op.
pub open spec fn graph_matches_live(s: Seq<LiveService>, new_nodes: Seq<Node>) -> bool {
    &&& forall|j: int| 0 <= j < s.len() ==> has_name(new_nodes, (#[trigger] s[j]).spec_name())
    &&& forall|k: int|
        0 <= k < new_nodes.len() ==> live_has_name(s, (#[trigger] new_nodes[k]).spec_name())
    &&& forall|j: int, k: int|
        0 <= j < s.len() && 0 <= k < new_nodes.len() && (#[trigger] new_nodes[k]).spec_name() == (
        #[trigger] s[j]).spec_name() ==> node_eq(new_nodes[k], s[j].node)
}

/// What the daemon must launch for a resolved start: the executor helper
/// kind and the service name whose runtime directory it reads.
pub struct LaunchPlan {
    pub runner: RunnerKind,
    pub name: String,
}

#[derive(Clone, Copy, Debug, PartialEq, Eq, Structural)]
pub enum RunnerKind {
    Oneshot,
    Longrun,
}

/// The outside outcome of a launch, reported back by the daemon.
#[derive(Clone, Copy, Debug, PartialEq, Eq, Structural)]
pub enum LaunchOutcome {
    /// A longrun signalled readiness; the child stays under supervision.
    Ready { pid: u64 },
    /// A oneshot exited 0; no child remains.
    Completed,
    /// The launch failed or the child died before readiness.
    Failed,
}

/// What the daemon must do to stop a resolved cell.
#[derive(Clone, Copy, Debug, PartialEq, Eq, Structural)]
pub enum StopAction {
    /// Run the service's stop (or finish) script, then report back.
    RunStopScript,
    /// No stop script: signal the supervised child's process group and wait
    /// for it, then report back.
    SignalSupervisor { pid: u64 },
    /// Nothing was running; the cell has already been moved to `Down`.
    Finished,
    /// A dependent is still `Up` or `Starting`; the cell was left alone.
    Blocked,
}

/// The live service graph. It owns one cell per declared service; `lookup`
/// is the name index over the sequence.
pub struct LiveServiceGraph {
    pub services: Vec<LiveService>,
}

impl LiveServiceGraph {
    /// Graph invariant: names are unique (so the name index is a bijection
    /// with positions), every dependency resolves, and each cell is
    /// well-formed.
    pub open spec fn wf(self) -> bool {
        &&& live_names_unique(self.services@)
        &&& forall|i: int| 0 <= i < self.services@.len() ==> (#[trigger] self.services@[i]).wf()
    }

    /// Every dependency of every cell resolves. This holds from construction
    /// and through every start, stop and reload; only dropping tombstoned
    /// cells can orphan the stale dependency of a cell whose definition has
    /// not been refreshed yet, so the start side asks for it explicitly and
    /// `deps_resolve_live` re-checks it.
    pub open spec fn deps_ok(self) -> bool {
        live_deps_resolve(self.services@)
    }

    /// Builds the live graph from a validated persisted graph: one cell per
    /// node, in iteration order, every cell at `Reset`. No side effects on
    /// the filesystem or on child processes.
    pub fn new(graph: DependencyGraph) -> (r: Self)
        requires
            graph.wf(),
        ensures
            r.wf(),
            r.deps_ok(),
            r.services@.len() == graph.nodes@.len(),
            forall|i: int|
                0 <= i < graph.nodes@.len() ==> (#[trigger] r.services@[i]).node
                    == graph.nodes@[i] && r.services@[i].status == ServiceStatus::Reset
                    && r.services@[i].supervisor is None && r.services@[i].remove == false
                    && r.services@[i].updated_node is None && r.services@[i].last_status is None
                    && r.services@[i].down_reason is None,
    {
        let ghost nodes = graph.nodes@;
        let mut services: Vec<LiveService> = Vec::new();
        let mut nodes_vec = graph.nodes;
        while nodes_vec.len() > 0
            invariant
                services@.len() + nodes_vec@.len() == nodes.len(),
                nodes_vec@ =~= nodes.skip(services@.len() as int),
                forall|j: int|
                    0 <= j < services@.len() ==> (#[trigger] services@[j]).node == nodes[j]
                        && services@[j].status == ServiceStatus::Reset
                        && services@[j].supervisor is None && services@[j].remove == false
                        && services@[j].updated_node is None && services@[j].last_status is None
                        && services@[j].down_reason is None && services@[j].wf(),
            decreases nodes_vec@.len(),
        {
            let node = nodes_vec.remove(0);
            proof {
                assert(node == nodes[services@.len() as int]);
                assert(nodes_vec@ =~= nodes.skip(services@.len() as int + 1));
            }
            services.push(LiveService::new(node));
        }
        let r = LiveServiceGraph { services };
        proof {
            assert forall|i: int, k: int|
                0 <= i < r.services@.len() && 0 <= k
                    < r.services@[i].node.dependencies@.len() implies live_has_name(
                r.services@,
                r.services@[i].node.dependencies@[k]@,
            ) by {
                assert(r.services@[i].node == nodes[i]);
                assert(has_name(nodes, nodes[i].dependencies@[k]@));
                let w = choose|w: int|
                    0 <= w < nodes.len() && nodes[w].spec_name() == nodes[i].dependencies@[k]@;
                assert(r.services@[w].spec_name() == nodes[i].dependencies@[k]@);
            }
        }
        r
    }

    /// The position of the cell named `name`, if any: the name index.
    /// Either the answer refers to a live cell carrying exactly `name`, or
    /// `name` is absent from the graph.
    pub fn lookup(&self, name: &String) -> (r: Option<usize>)
        ensures
            match r {
                Option::Some(i) => i < self.services@.len() && self.services@[i as int].spec_name()
                    == name@,
                Option::None => !live_has_name(self.services@, name@),
            },
    {
        let mut i: usize = 0;
        while i < self.services.len()
            invariant
                i <= self.services@.len(),
                forall|j: int| 0 <= j < i ==> self.services@[j].spec_name() != name@,
            decreases self.services@.len() - i,
        {
            if string_eq(self.services[i].node.service.name(), name) {
                return Option::Some(i);
            }
            i += 1;
        }
        Option::None
    }

    /// The recursive half of a start request: claim the cell (move it to
    /// `Starting`), then claim every dependency that is not already started,
    /// starting or stopping, dependencies first. The cells claimed are
    /// appended to `schedule`, dependencies before their dependents, for the
    /// daemon to resolve in order. Marking a cell before visiting its
    /// dependencies is what bounds the recursion: every call claims one
    /// startable cell, even on a malformed cyclic graph.
    #[verifier::loop_isolation(false)]
    pub fn start_service(&mut self, idx: usize, schedule: &mut Vec<usize>)
        requires
            old(self).wf(),
            old(self).deps_ok(),
            idx < old(self).services@.len(),
            startable(old(self).services@[idx as int].status),
        ensures
            final(self).wf(),
            final(self).deps_ok(),
            final(self).services@.len() == old(self).services@.len(),
            forall|j: int|
                0 <= j < final(self).services@.len() ==> start_marked_or_same(
                    old(self).services@[j],
                    #[trigger] final(self).services@[j],
                ),
            final(self).services@[idx as int].status == ServiceStatus::Starting,
            forall|dk: int|
                0 <= dk < old(self).services@[idx as int].node.dependencies@.len()
                    ==> name_not_startable(
                    final(self).services@,
                    (#[trigger] old(self).services@[idx as int].node.dependencies@[dk])@,
                ),
            count_pred(final(self).services@, startable_pred()) < count_pred(
                old(self).services@,
                startable_pred(),
            ),
            old(schedule)@.len() <= final(schedule)@.len(),
            forall|k: int|
                0 <= k < old(schedule)@.len() ==> #[trigger] final(schedule)@[k] == old(schedule)@[k],
            forall|k: int|
                old(schedule)@.len() <= k < final(schedule)@.len() ==> (
                #[trigger] final(schedule)@[k] as int) < final(self).services@.len() && final(self).services@[final(schedule)@[k] as int].status == ServiceStatus::Starting,
            forall|j: int|
                0 <= j < final(self).services@.len() && (#[trigger] final(self).services@[j])
                    != old(self).services@[j] ==> scheduled_in(
                    final(schedule)@,
                    old(schedule)@.len() as int,
                    j,
                ),
        decreases count_pred(old(self).services@, startable_pred()),
    {
        let ghost orig = self.services@;
        {
            let cell = &mut self.services[idx];
            cell.change_status(ServiceStatus::Starting);
        }
        proof {
            assert(self.services@ =~= orig.update(idx as int, self.services@[idx as int]));
            lemma_count_update(orig, idx as int, self.services@[idx as int], startable_pred());
            lemma_same_nodes_unique(orig, self.services@);
            lemma_same_nodes_deps(orig, self.services@);
        }
        let n_deps = self.services[idx].node.dependencies.len();
        let mut k: usize = 0;
        while k < n_deps
            invariant
                self.wf(),
                self.deps_ok(),
                self.services@.len() == orig.len(),
                idx < orig.len(),
                forall|j: int|
                    0 <= j < orig.len() ==> start_marked_or_same(
                        orig[j],
                        #[trigger] self.services@[j],
                    ),
                self.services@[idx as int].status == ServiceStatus::Starting,
                self.services@[idx as int].node == orig[idx as int].node,
                n_deps == self.services@[idx as int].node.dependencies@.len(),
                forall|dk: int|
                    0 <= dk < k ==> name_not_startable(
                        self.services@,
                        (#[trigger] orig[idx as int].node.dependencies@[dk])@,
                    ),
                count_pred(self.services@, startable_pred()) < count_pred(orig, startable_pred()),
                old(schedule)@.len() <= schedule@.len(),
                forall|k2: int|
                    0 <= k2 < old(schedule)@.len() ==> #[trigger] schedule@[k2] == old(schedule)@[k2],
                forall|k2: int|
                    old(schedule)@.len() <= k2 < schedule@.len() ==> (#[trigger] schedule@[k2]
                        as int) < orig.len() && self.services@[schedule@[k2] as int].status
                        == ServiceStatus::Starting,
                forall|j: int|
                    0 <= j < orig.len() && (#[trigger] self.services@[j]) != orig[j] && j != idx
                        ==> scheduled_in(schedule@, old(schedule)@.len() as int, j),
            decreases n_deps - k,
        {
            let ghost pre = self.services@;
            let opt = {
                let name = &self.services[idx].node.dependencies[k];
                proof {
                    assert(live_has_name(self.services@, name@));
                }
                self.lookup(name)
            };
            let dep_idx: usize = match opt {
                Option::Some(j) => j,
                Option::None => vstd::pervasive::unreached(),
            };
            let dep_startable = match self.services[dep_idx].status {
                ServiceStatus::Reset => true,
                ServiceStatus::Down => true,
                _ => false,
            };
            if dep_startable {
                let ghost mid = self.services@;
                let ghost sched_mid = schedule@;
                self.start_service(dep_idx, schedule);
                proof {
                    assert forall|j: int|
                        0 <= j < orig.len() implies start_marked_or_same(
                        orig[j],
                        #[trigger] self.services@[j],
                    ) by {
                        assert(start_marked_or_same(orig[j], mid[j]));
                        assert(start_marked_or_same(mid[j], self.services@[j]));
                        if self.services@[j] != mid[j] {
                            assert(startable(mid[j].status));
                            assert(mid[j] == orig[j]);
                        }
                    }
                    assert forall|k2: int|
                        old(schedule)@.len() <= k2 < schedule@.len() implies (
                    #[trigger] schedule@[k2] as int) < orig.len()
                        && self.services@[schedule@[k2] as int].status
                        == ServiceStatus::Starting by {
                        if k2 < sched_mid.len() {
                            assert(schedule@[k2] == sched_mid[k2]);
                            let m: int = sched_mid[k2] as int;
                            assert(mid[m].status == ServiceStatus::Starting);
                            assert(start_marked_or_same(mid[m], self.services@[m]));
                        }
                    }
                    assert forall|j: int|
                        0 <= j < orig.len() && (#[trigger] self.services@[j]) != orig[j] && j
                            != idx implies scheduled_in(
                        schedule@,
                        old(schedule)@.len() as int,
                        j,
                    ) by {
                        if self.services@[j] != mid[j] {
                            assert(scheduled_in(schedule@, sched_mid.len() as int, j));
                            let w = choose|w: int|
                                sched_mid.len() <= w < schedule@.len() && schedule@[w] as int
                                    == j;
                            assert(old(schedule)@.len() <= sched_mid.len());
                        } else {
                            lemma_scheduled_in_extend(
                                sched_mid,
                                schedule@,
                                old(schedule)@.len() as int,
                                j,
                            );
                        }
                    }
                }
            }
            proof {
                let d = orig[idx as int].node.dependencies@[k as int]@;
                assert(pre[dep_idx as int].spec_name() == d);
                assert forall|dk: int|
                    0 <= dk < k + 1 implies name_not_startable(
                    self.services@,
                    (#[trigger] orig[idx as int].node.dependencies@[dk])@,
                ) by {
                    if dk == k as int {
                        assert(start_marked_or_same(pre[dep_idx as int], self.services@[dep_idx as int]));
                        assert(self.services@[dep_idx as int].spec_name() == d);
                        assert(!startable(self.services@[dep_idx as int].status));
                    } else {
                        let dn = orig[idx as int].node.dependencies@[dk]@;
                        let w = choose|w: int|
                            0 <= w < pre.len() && (#[trigger] pre[w]).spec_name() == dn
                                && !startable(pre[w].status);
                        assert(start_marked_or_same(pre[w], self.services@[w]));
                        assert(self.services@[w].spec_name() == dn);
                        assert(!startable(self.services@[w].status));
                    }
                }
            }
            k += 1;
        }
        let ghost sched_before = schedule@;
        schedule.push(idx);
        proof {
            assert(sched_before =~= schedule@.subrange(0, sched_before.len() as int));
            assert(schedule@[sched_before.len() as int] == idx);
            assert forall|j: int|
                0 <= j < orig.len() && (#[trigger] self.services@[j]) != orig[j] implies
                scheduled_in(schedule@, old(schedule)@.len() as int, j) by {
                if j == idx as int {
                    assert(schedule@[sched_before.len() as int] as int == j);
                } else {
                    lemma_scheduled_in_extend(
                        sched_before,
                        schedule@,
                        old(schedule)@.len() as int,
                        j,
                    );
                }
            }
        }
    }

    /// Enumerates every cell, and claims each one that its service's
    /// `should_start` admits (bundles and virtual services never start on
    /// their own) and that is not already started or in transition, together
    /// with its dependencies. Returns the combined dependency-ordered
    /// schedule of claimed cells for the daemon to resolve.
    pub fn start_all_services(&mut self) -> (schedule: Vec<usize>)
        requires
            old(self).wf(),
            old(self).deps_ok(),
        ensures
            final(self).wf(),
            final(self).deps_ok(),
            final(self).services@.len() == old(self).services@.len(),
            forall|j: int|
                0 <= j < final(self).services@.len() ==> start_marked_or_same(
                    old(self).services@[j],
                    #[trigger] final(self).services@[j],
                ),
            forall|j: int|
                0 <= j < final(self).services@.len() && old(self).services@[j].node.service.spec_should_start() && startable(old(self).services@[j].status) ==> (#[trigger] final(self).services@[j]).status == ServiceStatus::Starting,
            forall|k: int|
                0 <= k < schedule@.len() ==> (#[trigger] schedule@[k] as int) < final(self).services@.len() && final(self).services@[schedule@[k] as int].status
                    == ServiceStatus::Starting,
            forall|j: int|
                0 <= j < final(self).services@.len() && (#[trigger] final(self).services@[j])
                    != old(self).services@[j] ==> scheduled_in(schedule@, 0, j),
    {
        let ghost orig = self.services@;
        let mut schedule: Vec<usize> = Vec::new();
        let mut i: usize = 0;
        while i < self.services.len()
            invariant
                self.wf(),
                self.deps_ok(),
                self.services@.len() == orig.len(),
                i <= orig.len(),
                forall|j: int|
                    0 <= j < orig.len() ==> start_marked_or_same(
                        orig[j],
                        #[trigger] self.services@[j],
                    ),
                forall|j: int|
                    0 <= j < i && orig[j].node.service.spec_should_start() && startable(
                        orig[j].status,
                    ) ==> (#[trigger] self.services@[j]).status == ServiceStatus::Starting,
                forall|k: int|
                    0 <= k < schedule@.len() ==> (#[trigger] schedule@[k] as int) < orig.len()
                        && self.services@[schedule@[k] as int].status == ServiceStatus::Starting,
                forall|j: int|
                    0 <= j < orig.len() && (#[trigger] self.services@[j]) != orig[j]
                        ==> scheduled_in(schedule@, 0, j),
            decreases orig.len() - i,
        {
            let should = self.services[i].node.service.should_start();
            let st_ok = match self.services[i].status {
                ServiceStatus::Reset => true,
                ServiceStatus::Down => true,
                _ => false,
            };
            if should && st_ok {
                let ghost mid = self.services@;
                let ghost sched_mid = schedule@;
                self.start_service(i, &mut schedule);
                proof {
                    assert forall|j: int|
                        0 <= j < orig.len() implies start_marked_or_same(
                        orig[j],
                        #[trigger] self.services@[j],
                    ) by {
                        assert(start_marked_or_same(orig[j], mid[j]));
                        assert(start_marked_or_same(mid[j], self.services@[j]));
                        if self.services@[j] != mid[j] {
                            assert(startable(mid[j].status));
                            assert(mid[j] == orig[j]);
                        }
                    }
                    assert forall|k2: int|
                        0 <= k2 < schedule@.len() implies (#[trigger] schedule@[k2] as int)
                        < orig.len() && self.services@[schedule@[k2] as int].status
                        == ServiceStatus::Starting by {
                        if k2 < sched_mid.len() {
                            assert(schedule@[k2] == sched_mid[k2]);
                            let m: int = sched_mid[k2] as int;
                            assert(mid[m].status == ServiceStatus::Starting);
                            assert(start_marked_or_same(mid[m], self.services@[m]));
                        }
                    }
                    assert forall|j: int|
                        0 <= j < orig.len() && (#[trigger] self.services@[j]) != orig[j]
                            implies scheduled_in(schedule@, 0, j) by {
                        if self.services@[j] != mid[j] {
                            assert(scheduled_in(schedule@, sched_mid.len() as int, j));
                            let w = choose|w: int|
                                sched_mid.len() <= w < schedule@.len() && schedule@[w] as int
                                    == j;
                        } else {
                            lemma_scheduled_in_extend(sched_mid, schedule@, 0, j);
                        }
                    }
                }
            }
            i += 1;
        }
        schedule
    }

    /// The decision step of a start: once a claimed cell's dependencies have
    /// finished their transitions, decide what happens to it. If every
    /// declared dependency is `Up`, a service with scripts yields the launch
    /// plan the daemon must execute, and a bundle or virtual service goes
    /// `Up` outright; if any dependency is not `Up`, the cell goes `Down`
    /// without launching. A launch plan is returned only when every declared
    /// dependency has been observed `Up` in this cycle.
    pub fn resolve_start(&mut self, idx: usize) -> (r: Option<LaunchPlan>)
        requires
            old(self).wf(),
            old(self).deps_ok(),
            idx < old(self).services@.len(),
            old(self).services@[idx as int].status == ServiceStatus::Starting,
        ensures
            final(self).wf(),
            final(self).deps_ok(),
            final(self).services@.len() == old(self).services@.len(),
            forall|j: int|
                0 <= j < final(self).services@.len() && j != idx ==> #[trigger] final(self).services@[j] == old(self).services@[j],
            r is Some ==> deps_up(old(self).services@, idx as int),
            deps_up(old(self).services@, idx as int) ==> match old(self).services@[idx as int].node.service {
                Service::Oneshot(_) => *final(self) == *old(self) && (match r {
                    Option::Some(p) => p.runner == RunnerKind::Oneshot && p.name@ == old(self).services@[idx as int].spec_name(),
                    Option::None => false,
                }),
                Service::Longrun(_) => *final(self) == *old(self) && (match r {
                    Option::Some(p) => p.runner == RunnerKind::Longrun && p.name@ == old(self).services@[idx as int].spec_name(),
                    Option::None => false,
                }),
                _ => r is None && final(self).services@[idx as int].status == ServiceStatus::Up
                    && final(self).services@[idx as int].same_shape(
                    old(self).services@[idx as int],
                ) && final(self).services@[idx as int].last_status == old(self).services@[idx as int].last_status
                    && final(self).services@[idx as int].down_reason is None,
            },
            !deps_up(old(self).services@, idx as int) ==> r is None && final(self).services@[idx as int].status == ServiceStatus::Down && final(self).services@[idx as int].same_shape(old(self).services@[idx as int]) && final(self).services@[idx as int].last_status == old(self).services@[idx as int].last_status
                && final(self).services@[idx as int].down_reason == Option::Some(
                DownReason::DependencyFailed,
            ),
    {
        let ghost orig = self.services@;
        let n_deps = self.services[idx].node.dependencies.len();
        let mut all_up = true;
        let mut k: usize = 0;
        while k < n_deps
            invariant
                self.wf(),
                self.deps_ok(),
                self.services@ == orig,
                idx < orig.len(),
                n_deps == orig[idx as int].node.dependencies@.len(),
                k <= n_deps,
                all_up <==> forall|k2: int|
                    0 <= k2 < k ==> name_has_status(
                        orig,
                        orig[idx as int].node.dependencies@[k2]@,
                        ServiceStatus::Up,
                    ),
            decreases n_deps - k,
        {
            let opt = {
                let name = &self.services[idx].node.dependencies[k];
                proof {
                    assert(live_has_name(self.services@, name@));
                }
                self.lookup(name)
            };
            let dep_idx: usize = match opt {
                Option::Some(j) => j,
                Option::None => vstd::pervasive::unreached(),
            };
            let dep_up = match self.services[dep_idx].status {
                ServiceStatus::Up => true,
                _ => false,
            };
            proof {
                let d = orig[idx as int].node.dependencies@[k as int]@;
                if dep_up {
                    assert(name_has_status(orig, d, ServiceStatus::Up));
                } else {
                    if name_has_status(orig, d, ServiceStatus::Up) {
                        let w = choose|w: int|
                            0 <= w < orig.len() && orig[w].spec_name() == d && orig[w].status
                                == ServiceStatus::Up;
                        lemma_name_unique_index(orig, w, dep_idx as int);
                    }
                }
            }
            if !dep_up {
                all_up = false;
            }
            k += 1;
        }
        proof {
            assert(all_up == deps_up(orig, idx as int));
        }
        if !all_up {
            let cell = &mut self.services[idx];
            cell.change_status(ServiceStatus::Down);
            cell.down_reason = Option::Some(DownReason::DependencyFailed);
            proof {
                assert(self.services@ =~= orig.update(idx as int, self.services@[idx as int]));
                lemma_same_nodes_unique(orig, self.services@);
                lemma_same_nodes_deps(orig, self.services@);
            }
            return Option::None;
        }
        let kind: Option<RunnerKind> = match &self.services[idx].node.service {
            Service::Oneshot(_) => Option::Some(RunnerKind::Oneshot),
            Service::Longrun(_) => Option::Some(RunnerKind::Longrun),
            _ => Option::None,
        };
        match kind {
            Option::Some(runner) => {
                let name = crate::types::clone_string(self.services[idx].node.service.name());
                Option::Some(LaunchPlan { runner, name })
            },
            Option::None => {
                let cell = &mut self.services[idx];
                cell.change_status(ServiceStatus::Up);
                cell.down_reason = Option::None;
                proof {
                    assert(self.services@ =~= orig.update(idx as int, self.services@[idx as int]));
                    lemma_same_nodes_unique(orig, self.services@);
                    lemma_same_nodes_deps(orig, self.services@);
                }
                Option::None
            },
        }
    }

    /// Folds the outside outcome of a launch back into the claimed cell:
    /// readiness of a longrun keeps the child under supervision, completion
    /// of a oneshot ends with no child, and a failure takes the cell `Down`.
    /// A handle is installed only into a cell that holds none: the claimed
    /// cell was `Starting`, so no child was associated with it.
    pub fn apply_launch(&mut self, idx: usize, outcome: LaunchOutcome)
        requires
            old(self).wf(),
            idx < old(self).services@.len(),
            old(self).services@[idx as int].status == ServiceStatus::Starting,
            outcome != LaunchOutcome::Failed ==> deps_up(old(self).services@, idx as int),
        ensures
            final(self).wf(),
            final(self).services@.len() == old(self).services@.len(),
            forall|j: int|
                0 <= j < final(self).services@.len() && j != idx ==> #[trigger] final(self).services@[j] == old(self).services@[j],
            old(self).services@[idx as int].supervisor is None,
            final(self).services@[idx as int].node == old(self).services@[idx as int].node,
            final(self).services@[idx as int].updated_node == old(self).services@[idx as int].updated_node,
            final(self).services@[idx as int].remove == old(self).services@[idx as int].remove,
            final(self).services@[idx as int].last_status == old(self).services@[idx as int].last_status,
            match outcome {
                LaunchOutcome::Ready { pid } => final(self).services@[idx as int].status
                    == ServiceStatus::Up && final(self).services@[idx as int].supervisor
                    == Option::Some(pid) && final(self).services@[idx as int].down_reason is None,
                LaunchOutcome::Completed => final(self).services@[idx as int].status
                    == ServiceStatus::Up && final(self).services@[idx as int].supervisor is None
                    && final(self).services@[idx as int].down_reason is None,
                LaunchOutcome::Failed => final(self).services@[idx as int].status
                    == ServiceStatus::Down && final(self).services@[idx as int].supervisor
                    is None && final(self).services@[idx as int].down_reason == Option::Some(
                    DownReason::LaunchFailed,
                ),
            },
    {
        let ghost orig = self.services@;
        let cell = &mut self.services[idx];
        match outcome {
            LaunchOutcome::Ready { pid } => {
                cell.change_status(ServiceStatus::Up);
                cell.supervisor = Option::Some(pid);
                cell.down_reason = Option::None;
            },
            LaunchOutcome::Completed => {
                cell.change_status(ServiceStatus::Up);
                cell.down_reason = Option::None;
            },
            LaunchOutcome::Failed => {
                cell.change_status(ServiceStatus::Down);
                cell.down_reason = Option::Some(DownReason::LaunchFailed);
            },
        }
        proof {
            assert(self.services@ =~= orig.update(idx as int, self.services@[idx as int]));
            lemma_same_nodes_unique(orig, self.services@);
        }
    }

    /// The recursive half of a stop request: claim the cell (move it to
    /// `Stopping`), then claim every cell that depends on it and is still
    /// running, starting or unclaimed, so that dependents are scheduled
    /// before the services they rely on. Marking the cell before visiting
    /// dependents bounds the recursion, as in `start_service`.
    #[verifier::loop_isolation(false)]
    pub fn stop_service(&mut self, idx: usize, schedule: &mut Vec<usize>)
        requires
            old(self).wf(),
            idx < old(self).services@.len(),
            stoppable(old(self).services@[idx as int].status),
        ensures
            final(self).wf(),
            final(self).services@.len() == old(self).services@.len(),
            forall|j: int|
                0 <= j < final(self).services@.len() ==> stop_marked_or_same(
                    old(self).services@[j],
                    #[trigger] final(self).services@[j],
                ),
            final(self).services@[idx as int].status == ServiceStatus::Stopping,
            forall|j: int|
                0 <= j < final(self).services@.len() && seq_contains_name(
                    (#[trigger] final(self).services@[j]).node.dependencies@,
                    old(self).services@[idx as int].spec_name(),
                ) ==> !stoppable(final(self).services@[j].status),
            count_pred(final(self).services@, stoppable_pred()) < count_pred(
                old(self).services@,
                stoppable_pred(),
            ),
            old(schedule)@.len() <= final(schedule)@.len(),
            forall|k: int|
                0 <= k < old(schedule)@.len() ==> #[trigger] final(schedule)@[k] == old(schedule)@[k],
            forall|k: int|
                old(schedule)@.len() <= k < final(schedule)@.len() ==> (
                #[trigger] final(schedule)@[k] as int) < final(self).services@.len() && final(self).services@[final(schedule)@[k] as int].status == ServiceStatus::Stopping,
            forall|j: int|
                0 <= j < final(self).services@.len() && (#[trigger] final(self).services@[j])
                    != old(self).services@[j] ==> scheduled_in(
                    final(schedule)@,
                    old(schedule)@.len() as int,
                    j,
                ),
        decreases count_pred(old(self).services@, stoppable_pred()),
    {
        let ghost orig = self.services@;
        let my_name = crate::types::clone_string(self.services[idx].node.service.name());
        {
            let cell = &mut self.services[idx];
            cell.change_status(ServiceStatus::Stopping);
        }
        proof {
            assert(self.services@ =~= orig.update(idx as int, self.services@[idx as int]));
            lemma_count_update(orig, idx as int, self.services@[idx as int], stoppable_pred());
            lemma_same_nodes_unique(orig, self.services@);
        }
        let n = self.services.len();
        let mut j: usize = 0;
        while j < n
            invariant
                self.wf(),
                self.services@.len() == orig.len(),
                n == orig.len(),
                idx < orig.len(),
                forall|j2: int|
                    0 <= j2 < orig.len() ==> stop_marked_or_same(
                        orig[j2],
                        #[trigger] self.services@[j2],
                    ),
                self.services@[idx as int].status == ServiceStatus::Stopping,
                my_name@ == orig[idx as int].spec_name(),
                forall|j2: int|
                    0 <= j2 < j && seq_contains_name(
                        (#[trigger] self.services@[j2]).node.dependencies@,
                        my_name@,
                    ) ==> !stoppable(self.services@[j2].status),
                count_pred(self.services@, stoppable_pred()) < count_pred(orig, stoppable_pred()),
                old(schedule)@.len() <= schedule@.len(),
                forall|k2: int|
                    0 <= k2 < old(schedule)@.len() ==> #[trigger] schedule@[k2] == old(schedule)@[k2],
                forall|j2: int|
                    0 <= j2 < orig.len() && (#[trigger] self.services@[j2]) != orig[j2] && j2
                        != idx ==> scheduled_in(schedule@, old(schedule)@.len() as int, j2),
                forall|k2: int|
                    old(schedule)@.len() <= k2 < schedule@.len() ==> (#[trigger] schedule@[k2]
                        as int) < orig.len() && self.services@[schedule@[k2] as int].status
                        == ServiceStatus::Stopping,
            decreases n - j,
        {
            let ghost pre = self.services@;
            let is_dependent = contains_name(&self.services[j].node.dependencies, &my_name);
            let st_ok = match self.services[j].status {
                ServiceStatus::Reset => true,
                ServiceStatus::Up => true,
                ServiceStatus::Starting => true,
                _ => false,
            };
            if is_dependent && st_ok {
                let ghost mid = self.services@;
                let ghost sched_mid = schedule@;
                self.stop_service(j, schedule);
                proof {
                    assert forall|j2: int|
                        0 <= j2 < orig.len() implies stop_marked_or_same(
                        orig[j2],
                        #[trigger] self.services@[j2],
                    ) by {
                        assert(stop_marked_or_same(orig[j2], mid[j2]));
                        assert(stop_marked_or_same(mid[j2], self.services@[j2]));
                        if self.services@[j2] != mid[j2] {
                            assert(stoppable(mid[j2].status));
                            assert(mid[j2] == orig[j2]);
                        }
                    }
                    assert forall|k2: int|
                        old(schedule)@.len() <= k2 < schedule@.len() implies (
                    #[trigger] schedule@[k2] as int) < orig.len()
                        && self.services@[schedule@[k2] as int].status
                        == ServiceStatus::Stopping by {
                        if k2 < sched_mid.len() {
                            assert(schedule@[k2] == sched_mid[k2]);
                            let m: int = sched_mid[k2] as int;
                            assert(mid[m].status == ServiceStatus::Stopping);
                            assert(stop_marked_or_same(mid[m], self.services@[m]));
                        }
                    }
                    assert forall|j2: int|
                        0 <= j2 < orig.len() && (#[trigger] self.services@[j2]) != orig[j2]
                            && j2 != idx implies scheduled_in(
                        schedule@,
                        old(schedule)@.len() as int,
                        j2,
                    ) by {
                        if self.services@[j2] != mid[j2] {
                            assert(scheduled_in(schedule@, sched_mid.len() as int, j2));
                            let w = choose|w: int|
                                sched_mid.len() <= w < schedule@.len() && schedule@[w] as int
                                    == j2;
                            assert(old(schedule)@.len() <= sched_mid.len());
                        } else {
                            lemma_scheduled_in_extend(
                                sched_mid,
                                schedule@,
                                old(schedule)@.len() as int,
                                j2,
                            );
                        }
                    }
                }
            }
            proof {
                assert forall|j2: int|
                    0 <= j2 < j + 1 && seq_contains_name(
                    (#[trigger] self.services@[j2]).node.dependencies@,
                    my_name@,
                ) implies !stoppable(self.services@[j2].status) by {
                    assert(stop_marked_or_same(pre[j2], self.services@[j2]));
                    if j2 < j as int {
                        assert(seq_contains_name(pre[j2].node.dependencies@, my_name@));
                        assert(!stoppable(pre[j2].status));
                    }
                }
            }
            j += 1;
        }
        let ghost sched_before = schedule@;
        schedule.push(idx);
        proof {
            assert(schedule@[sched_before.len() as int] == idx);
            assert forall|j2: int|
                0 <= j2 < orig.len() && (#[trigger] self.services@[j2]) != orig[j2] implies
                scheduled_in(schedule@, old(schedule)@.len() as int, j2) by {
                if j2 == idx as int {
                    assert(schedule@[sched_before.len() as int] as int == j2);
                } else {
                    lemma_scheduled_in_extend(
                        sched_before,
                        schedule@,
                        old(schedule)@.len() as int,
                        j2,
                    );
                }
            }
        }
    }

    /// Claims every cell that is running, starting or unclaimed for the stop
    /// wave, dependents scheduled before the services they rely on. After
    /// this, every cell is `Stopping` or `Down`.
    pub fn stop_all_services(&mut self) -> (schedule: Vec<usize>)
        requires
            old(self).wf(),
        ensures
            final(self).wf(),
            final(self).services@.len() == old(self).services@.len(),
            forall|j: int|
                0 <= j < final(self).services@.len() ==> stop_marked_or_same(
                    old(self).services@[j],
                    #[trigger] final(self).services@[j],
                ),
            forall|j: int|
                0 <= j < final(self).services@.len() ==> (#[trigger] final(self).services@[j]).status
                    == ServiceStatus::Stopping || final(self).services@[j].status
                    == ServiceStatus::Down,
            forall|k: int|
                0 <= k < schedule@.len() ==> (#[trigger] schedule@[k] as int) < final(self).services@.len() && final(self).services@[schedule@[k] as int].status
                    == ServiceStatus::Stopping,
            forall|j: int|
                0 <= j < final(self).services@.len() && (#[trigger] final(self).services@[j])
                    != old(self).services@[j] ==> scheduled_in(schedule@, 0, j),
    {
        let ghost orig = self.services@;
        let mut schedule: Vec<usize> = Vec::new();
        let mut i: usize = 0;
        while i < self.services.len()
            invariant
                self.wf(),
                self.services@.len() == orig.len(),
                i <= orig.len(),
                forall|j: int|
                    0 <= j < orig.len() ==> stop_marked_or_same(
                        orig[j],
                        #[trigger] self.services@[j],
                    ),
                forall|j: int|
                    0 <= j < i ==> (#[trigger] self.services@[j]).status == ServiceStatus::Stopping
                        || self.services@[j].status == ServiceStatus::Down,
                forall|k: int|
                    0 <= k < schedule@.len() ==> (#[trigger] schedule@[k] as int) < orig.len()
                        && self.services@[schedule@[k] as int].status == ServiceStatus::Stopping,
                forall|j: int|
                    0 <= j < orig.len() && (#[trigger] self.services@[j]) != orig[j]
                        ==> scheduled_in(schedule@, 0, j),
            decreases orig.len() - i,
        {
            let st_ok = match self.services[i].status {
                ServiceStatus::Reset => true,
                ServiceStatus::Up => true,
                ServiceStatus::Starting => true,
                _ => false,
            };
            if st_ok {
                let ghost mid = self.services@;
                let ghost sched_mid = schedule@;
                self.stop_service(i, &mut schedule);
                proof {
                    assert forall|j: int|
                        0 <= j < orig.len() implies stop_marked_or_same(
                        orig[j],
                        #[trigger] self.services@[j],
                    ) by {
                        assert(stop_marked_or_same(orig[j], mid[j]));
                        assert(stop_marked_or_same(mid[j], self.services@[j]));
                        if self.services@[j] != mid[j] {
                            assert(stoppable(mid[j].status));
                            assert(mid[j] == orig[j]);
                        }
                    }
                    assert forall|j: int|
                        0 <= j < i + 1 implies (#[trigger] self.services@[j]).status
                        == ServiceStatus::Stopping || self.services@[j].status
                        == ServiceStatus::Down by {
                        if j < i {
                            assert(stop_marked_or_same(mid[j], self.services@[j]));
                        }
                    }
                    assert forall|k2: int|
                        0 <= k2 < schedule@.len() implies (#[trigger] schedule@[k2] as int)
                        < orig.len() && self.services@[schedule@[k2] as int].status
                        == ServiceStatus::Stopping by {
                        if k2 < sched_mid.len() {
                            assert(schedule@[k2] == sched_mid[k2]);
                            let m: int = sched_mid[k2] as int;
                            assert(mid[m].status == ServiceStatus::Stopping);
                            assert(stop_marked_or_same(mid[m], self.services@[m]));
                        }
                    }
                    assert forall|j: int|
                        0 <= j < orig.len() && (#[trigger] self.services@[j]) != orig[j]
                            implies scheduled_in(schedule@, 0, j) by {
                        if self.services@[j] != mid[j] {
                            assert(scheduled_in(schedule@, sched_mid.len() as int, j));
                            let w = choose|w: int|
                                sched_mid.len() <= w < schedule@.len() && schedule@[w] as int
                                    == j;
                        } else {
                            lemma_scheduled_in_extend(sched_mid, schedule@, 0, j);
                        }
                    }
                }
            }
            i += 1;
        }
        schedule
    }

    /// The decision step of a stop: what the daemon must do for a claimed
    /// cell. A stop script is handed out only while no dependent of the
    /// service is `Up` or `Starting`, and only for a service that has
    /// reached a terminal status before (a cell claimed straight from
    /// `Reset` never ran, so there is nothing for its stop script to undo);
    /// without a script the supervised child is signalled; with nothing
    /// running the cell goes `Down` at once.
    pub fn resolve_stop(&mut self, idx: usize) -> (r: StopAction)
        requires
            old(self).wf(),
            idx < old(self).services@.len(),
            old(self).services@[idx as int].status == ServiceStatus::Stopping,
        ensures
            final(self).wf(),
            final(self).services@.len() == old(self).services@.len(),
            forall|j: int|
                0 <= j < final(self).services@.len() && j != idx ==> #[trigger] final(self).services@[j] == old(self).services@[j],
            r == StopAction::RunStopScript ==> dependents_quiet(
                old(self).services@,
                old(self).services@[idx as int].spec_name(),
            ),
            !dependents_quiet(old(self).services@, old(self).services@[idx as int].spec_name())
                ==> r == StopAction::Blocked && *final(self) == *old(self),
            dependents_quiet(old(self).services@, old(self).services@[idx as int].spec_name())
                ==> if has_stop_script(old(self).services@[idx as int].node.service) && old(self).services@[idx as int].last_status is Some {
                r == StopAction::RunStopScript && *final(self) == *old(self)
            } else {
                match old(self).services@[idx as int].supervisor {
                    Option::Some(pid) => r == (StopAction::SignalSupervisor { pid }) && *final(self) == *old(self),
                    Option::None => r == StopAction::Finished && final(self).services@[idx as int].status == ServiceStatus::Down && final(self).services@[idx as int].same_shape(old(self).services@[idx as int]) && final(self).services@[idx as int].last_status == old(self).services@[idx as int].last_status && final(self).services@[idx as int].down_reason == old(self).services@[idx as int].down_reason,
                }
            },
    {
        let ghost orig = self.services@;
        let my_name = crate::types::clone_string(self.services[idx].node.service.name());
        let n = self.services.len();
        let mut quiet = true;
        let mut j: usize = 0;
        while j < n
            invariant
                self.wf(),
                self.services@ == orig,
                n == orig.len(),
                idx < orig.len(),
                my_name@ == orig[idx as int].spec_name(),
                j <= n,
                quiet <==> forall|j2: int|
                    0 <= j2 < j && seq_contains_name(
                        #[trigger] orig[j2].node.dependencies@,
                        my_name@,
                    ) ==> !(orig[j2].status == ServiceStatus::Up || orig[j2].status
                        == ServiceStatus::Starting),
            decreases n - j,
        {
            let is_dependent = contains_name(&self.services[j].node.dependencies, &my_name);
            let busy = match self.services[j].status {
                ServiceStatus::Up => true,
                ServiceStatus::Starting => true,
                _ => false,
            };
            if is_dependent && busy {
                quiet = false;
            }
            j += 1;
        }
        if !quiet {
            return StopAction::Blocked;
        }
        let script = match &self.services[idx].node.service {
            Service::Oneshot(o) => o.stop.is_some(),
            Service::Longrun(l) => l.finish.is_some(),
            _ => false,
        };
        let ran_before = self.services[idx].last_status.is_some();
        if script && ran_before {
            return StopAction::RunStopScript;
        }
        match self.services[idx].supervisor {
            Option::Some(pid) => StopAction::SignalSupervisor { pid },
            Option::None => {
                let cell = &mut self.services[idx];
                cell.change_status(ServiceStatus::Down);
                proof {
                    assert(self.services@ =~= orig.update(idx as int, self.services@[idx as int]));
                    lemma_same_nodes_unique(orig, self.services@);
                }
                StopAction::Finished
            },
        }
    }

    /// Folds the end of a stop back into the claimed cell: the stop script
    /// completed or the supervised child exited, so the child is no longer
    /// associated with the cell and the cell goes `Down`.
    pub fn finish_stop(&mut self, idx: usize)
        requires
            old(self).wf(),
            idx < old(self).services@.len(),
            old(self).services@[idx as int].status == ServiceStatus::Stopping,
        ensures
            final(self).wf(),
            final(self).services@.len() == old(self).services@.len(),
            forall|j: int|
                0 <= j < final(self).services@.len() && j != idx ==> #[trigger] final(self).services@[j] == old(self).services@[j],
            final(self).services@[idx as int].status == ServiceStatus::Down,
            final(self).services@[idx as int].supervisor is None,
            final(self).services@[idx as int].node == old(self).services@[idx as int].node,
            final(self).services@[idx as int].updated_node == old(self).services@[idx as int].updated_node,
            final(self).services@[idx as int].remove == old(self).services@[idx as int].remove,
            final(self).services@[idx as int].config == old(self).services@[idx as int].config,
            final(self).services@[idx as int].environment == old(self).services@[idx as int].environment,
            final(self).services@[idx as int].last_status == old(self).services@[idx as int].last_status,
            final(self).services@[idx as int].down_reason == old(self).services@[idx as int].down_reason,
    {
        let ghost orig = self.services@;
        let cell = &mut self.services[idx];
        cell.supervisor = Option::None;
        cell.change_status(ServiceStatus::Down);
        proof {
            assert(self.services@ =~= orig.update(idx as int, self.services@[idx as int]));
            lemma_same_nodes_unique(orig, self.services@);
        }
    }

    /// A complete stop wave: claims every cell, dependents before the
    /// services they rely on, resolves each claimed cell and folds its end
    /// back in. Returns, in that order, the stop scripts to run and the
    /// children to signal; by the time any of them is executed no service is
    /// `Up` or `Starting` any more. Whatever the graph looked like before —
    /// in particular right after a completed start wave — every cell ends
    /// `Down` with no supervised child: start-everything followed by
    /// stop-everything parks the whole graph.
    pub fn stop_wave(&mut self) -> (actions: Vec<(usize, StopAction)>)
        requires
            old(self).wf(),
        ensures
            final(self).wf(),
            final(self).services@.len() == old(self).services@.len(),
            forall|j: int|
                0 <= j < final(self).services@.len() ==> (#[trigger] final(self).services@[j]).status == ServiceStatus::Down && final(self).services@[j].supervisor is None,
            forall|j: int|
                0 <= j < final(self).services@.len() ==> (#[trigger] final(self).services@[j]).node
                    == old(self).services@[j].node && final(self).services@[j].remove == old(self).services@[j].remove && final(self).services@[j].updated_node == old(self).services@[j].updated_node,
            forall|j: int|
                0 <= j < old(self).services@.len() ==> match wave_action(
                    #[trigger] old(self).services@[j],
                ) {
                    Option::Some(a) => exists|m: int|
                        0 <= m < actions@.len() && (#[trigger] actions@[m]).0 as int == j
                            && actions@[m].1 == a,
                    Option::None => true,
                },
            forall|m: int|
                0 <= m < actions@.len() ==> ((#[trigger] actions@[m]).0 as int) < old(self).services@.len() && wave_action(old(self).services@[actions@[m].0 as int])
                    == Option::Some(actions@[m].1),
    {
        let ghost orig = self.services@;
        let schedule = self.stop_all_services();
        proof {
            assert forall|j: int|
                0 <= j < orig.len() && self.services@[j].status
                    == ServiceStatus::Stopping implies claimed_action(#[trigger] self.services@[j])
                == wave_action(orig[j]) && orig[j].status != ServiceStatus::Down by {
                assert(stop_marked_or_same(orig[j], self.services@[j]));
            }
            assert forall|j: int|
                0 <= j < orig.len() && self.services@[j].status
                    == ServiceStatus::Down implies wave_action(#[trigger] orig[j])
                is None by {
                assert(stop_marked_or_same(orig[j], self.services@[j]));
                assert(orig[j].status == ServiceStatus::Down);
                assert(orig[j].wf());
            }
        }
        let ghost marked = self.services@;
        let mut actions: Vec<(usize, StopAction)> = Vec::new();
        let mut m: usize = 0;
        while m < schedule.len()
            invariant
                self.wf(),
                self.services@.len() == orig.len(),
                forall|j: int|
                    0 <= j < orig.len() ==> (#[trigger] self.services@[j]).status
                        == ServiceStatus::Stopping || (self.services@[j].status
                        == ServiceStatus::Down),
                forall|j: int|
                    0 <= j < orig.len() ==> (#[trigger] self.services@[j]).node == orig[j].node
                        && self.services@[j].remove == orig[j].remove
                        && self.services@[j].updated_node == orig[j].updated_node,
                forall|k: int|
                    0 <= k < schedule@.len() ==> (#[trigger] schedule@[k] as int) < orig.len(),
                forall|j: int|
                    0 <= j < orig.len() && self.services@[j].status == ServiceStatus::Stopping
                        ==> claimed_action(#[trigger] self.services@[j]) == wave_action(orig[j]),
                forall|j: int|
                    0 <= j < orig.len() && self.services@[j].status == ServiceStatus::Down
                        ==> match wave_action(#[trigger] orig[j]) {
                        Option::Some(a) => exists|m2: int|
                            0 <= m2 < actions@.len() && (#[trigger] actions@[m2]).0 as int == j
                                && actions@[m2].1 == a,
                        Option::None => true,
                    },
                forall|m2: int|
                    0 <= m2 < actions@.len() ==> ((#[trigger] actions@[m2]).0 as int)
                        < orig.len() && wave_action(orig[actions@[m2].0 as int])
                        == Option::Some(actions@[m2].1),
            decreases schedule@.len() - m,
        {
            let i = schedule[m];
            let claimed = match self.services[i].status {
                ServiceStatus::Stopping => true,
                _ => false,
            };
            if claimed {
                let ghost pre = self.services@;
                let ghost acts_pre = actions@;
                self.stop_one(i, &mut actions);
                proof {
                    assert forall|j: int|
                        0 <= j < orig.len() && self.services@[j].status
                            == ServiceStatus::Down implies match wave_action(#[trigger] orig[j]) {
                        Option::Some(a) => exists|m2: int|
                            0 <= m2 < actions@.len() && (#[trigger] actions@[m2]).0 as int == j
                                && actions@[m2].1 == a,
                        Option::None => true,
                    } by {
                        if j == i as int {
                            assert(claimed_action(pre[j]) == wave_action(orig[j]));
                            if wave_action(orig[j]) is Some {
                                assert(actions@[acts_pre.len() as int].0 as int == j);
                            }
                        } else {
                            if pre[j].status == ServiceStatus::Down && wave_action(orig[j])
                                is Some {
                                let m0 = choose|m0: int|
                                    0 <= m0 < acts_pre.len() && (#[trigger] acts_pre[m0]).0
                                        as int == j && acts_pre[m0].1
                                        == wave_action(orig[j]).unwrap();
                                assert(actions@[m0] == acts_pre[m0]);
                            }
                        }
                    }
                }
            }
            m += 1;
        }
        // Park any cell the schedule did not cover; on a graph whose cells
        // were all claimed by the marking this loop only re-checks them.
        let mut i: usize = 0;
        while i < self.services.len()
            invariant
                self.wf(),
                self.services@.len() == orig.len(),
                i <= orig.len(),
                forall|j: int|
                    0 <= j < orig.len() ==> (#[trigger] self.services@[j]).status
                        == ServiceStatus::Stopping || (self.services@[j].status
                        == ServiceStatus::Down),
                forall|j: int|
                    0 <= j < i ==> (#[trigger] self.services@[j]).status == ServiceStatus::Down,
                forall|j: int|
                    0 <= j < orig.len() ==> (#[trigger] self.services@[j]).node == orig[j].node
                        && self.services@[j].remove == orig[j].remove
                        && self.services@[j].updated_node == orig[j].updated_node,
                forall|j: int|
                    0 <= j < orig.len() && self.services@[j].status == ServiceStatus::Stopping
                        ==> claimed_action(#[trigger] self.services@[j]) == wave_action(orig[j]),
                forall|j: int|
                    0 <= j < orig.len() && self.services@[j].status == ServiceStatus::Down
                        ==> match wave_action(#[trigger] orig[j]) {
                        Option::Some(a) => exists|m2: int|
                            0 <= m2 < actions@.len() && (#[trigger] actions@[m2]).0 as int == j
                                && actions@[m2].1 == a,
                        Option::None => true,
                    },
                forall|m2: int|
                    0 <= m2 < actions@.len() ==> ((#[trigger] actions@[m2]).0 as int)
                        < orig.len() && wave_action(orig[actions@[m2].0 as int])
                        == Option::Some(actions@[m2].1),
            decreases orig.len() - i,
        {
            let claimed = match self.services[i].status {
                ServiceStatus::Stopping => true,
                _ => false,
            };
            if claimed {
                let ghost pre = self.services@;
                let ghost acts_pre = actions@;
                self.stop_one(i, &mut actions);
                proof {
                    assert forall|j: int|
                        0 <= j < orig.len() && self.services@[j].status
                            == ServiceStatus::Down implies match wave_action(#[trigger] orig[j]) {
                        Option::Some(a) => exists|m2: int|
                            0 <= m2 < actions@.len() && (#[trigger] actions@[m2]).0 as int == j
                                && actions@[m2].1 == a,
                        Option::None => true,
                    } by {
                        if j == i as int {
                            assert(claimed_action(pre[j]) == wave_action(orig[j]));
                            if wave_action(orig[j]) is Some {
                                assert(actions@[acts_pre.len() as int].0 as int == j);
                            }
                        } else {
                            if pre[j].status == ServiceStatus::Down && wave_action(orig[j])
                                is Some {
                                let m0 = choose|m0: int|
                                    0 <= m0 < acts_pre.len() && (#[trigger] acts_pre[m0]).0
                                        as int == j && acts_pre[m0].1
                                        == wave_action(orig[j]).unwrap();
                                assert(actions@[m0] == acts_pre[m0]);
                            }
                        }
                    }
                }
            }
            proof {
                assert(self.services@[i as int].status == ServiceStatus::Down);
            }
            i += 1;
        }
        proof {
            assert forall|j: int| 0 <= j < orig.len() implies (
            #[trigger] self.services@[j]).supervisor is None by {
                assert(self.services@[j].wf());
                assert(self.services@[j].status == ServiceStatus::Down);
            }
        }
        actions
    }

    /// One claimed cell of a stop wave: resolve it while no service is
    /// `Up` or `Starting` (so the decision is never blocked), record the
    /// outside action it asks for, and park the cell.
    fn stop_one(&mut self, i: usize, actions: &mut Vec<(usize, StopAction)>)
        requires
            old(self).wf(),
            i < old(self).services@.len(),
            old(self).services@[i as int].status == ServiceStatus::Stopping,
            forall|j: int|
                0 <= j < old(self).services@.len() ==> (#[trigger] old(self).services@[j]).status
                    == ServiceStatus::Stopping || old(self).services@[j].status
                    == ServiceStatus::Down,
        ensures
            final(self).wf(),
            final(self).services@.len() == old(self).services@.len(),
            forall|j: int|
                0 <= j < final(self).services@.len() && j != i ==> #[trigger] final(self).services@[j] == old(self).services@[j],
            final(self).services@[i as int].status == ServiceStatus::Down,
            final(self).services@[i as int].node == old(self).services@[i as int].node,
            final(self).services@[i as int].remove == old(self).services@[i as int].remove,
            final(self).services@[i as int].updated_node == old(self).services@[i as int].updated_node,
            old(actions)@.len() <= final(actions)@.len(),
            forall|m: int|
                0 <= m < old(actions)@.len() ==> #[trigger] final(actions)@[m] == old(actions)@[m],
            match claimed_action(old(self).services@[i as int]) {
                Option::Some(a) => final(actions)@.len() == old(actions)@.len() + 1 && final(actions)@[old(actions)@.len() as int] == (i, a),
                Option::None => final(actions)@ == old(actions)@,
            },
    {
        proof {
            assert forall|j: int|
                0 <= j < old(self).services@.len() && seq_contains_name(
                    #[trigger] old(self).services@[j].node.dependencies@,
                    old(self).services@[i as int].spec_name(),
                ) implies !(old(self).services@[j].status == ServiceStatus::Up || old(self).services@[j].status == ServiceStatus::Starting) by {}
        }
        let action = self.resolve_stop(i);
        match action {
            StopAction::Finished => {},
            StopAction::Blocked => {},
            _ => {
                actions.push((i, action));
                self.finish_stop(i);
            },
        }
    }

    /// Merges a newly-loaded persisted graph into the live graph without
    /// disturbing running services. A service present in both keeps its cell:
    /// untouched when its definition is unchanged, with the new definition
    /// parked in `updated_node` otherwise. A service no longer in the new
    /// graph is tombstoned (`remove`) and its index is returned for the
    /// daemon to schedule a stop. A service only in the new graph gets a
    /// fresh cell at `Reset`, which is not started until requested. Reload
    /// of an unchanged graph is a no-op: no cell changes and nothing is
    /// scheduled for stopping.
    pub fn reload(&mut self, new_graph: &DependencyGraph) -> (to_stop: Vec<usize>)
        requires
            old(self).wf(),
            old(self).deps_ok(),
            new_graph.wf(),
        ensures
            final(self).wf(),
            final(self).deps_ok(),
            final(self).services@.len() >= old(self).services@.len(),
            forall|j: int|
                0 <= j < old(self).services@.len() ==> reload_cell(
                    old(self).services@[j],
                    #[trigger] final(self).services@[j],
                    new_graph.nodes@,
                ),
            forall|j: int|
                old(self).services@.len() <= j < final(self).services@.len() ==> fresh_cell(
                    #[trigger] final(self).services@[j],
                    new_graph.nodes@,
                ),
            forall|m: int|
                0 <= m < to_stop@.len() ==> (#[trigger] to_stop@[m] as int) < old(self).services@.len() && final(self).services@[to_stop@[m] as int].remove,
            forall|j: int|
                0 <= j < old(self).services@.len() && !has_name(
                    new_graph.nodes@,
                    (#[trigger] old(self).services@[j]).spec_name(),
                ) ==> scheduled_in(to_stop@, 0, j),
            graph_matches_live(old(self).services@, new_graph.nodes@) ==> final(self).services@
                == old(self).services@ && to_stop@.len() == 0,
    {
        let ghost orig = self.services@;
        let ghost new_nodes = new_graph.nodes@;
        let mut to_stop: Vec<usize> = Vec::new();
        let n = self.services.len();
        let mut i: usize = 0;
        while i < n
            invariant
                self.services@.len() == orig.len(),
                n == orig.len(),
                i <= n,
                new_graph.wf(),
                new_nodes == new_graph.nodes@,
                live_names_unique(orig),
                live_deps_resolve(orig),
                forall|j: int| 0 <= j < orig.len() ==> (#[trigger] orig[j]).wf(),
                forall|j: int|
                    0 <= j < i ==> reload_cell(orig[j], #[trigger] self.services@[j], new_nodes),
                forall|j: int| i <= j < orig.len() ==> #[trigger] self.services@[j] == orig[j],
                forall|j: int|
                    0 <= j < orig.len() ==> (#[trigger] self.services@[j]).node == orig[j].node
                        && self.services@[j].status == orig[j].status && self.services@[j].wf(),
                forall|m: int|
                    0 <= m < to_stop@.len() ==> (#[trigger] to_stop@[m] as int) < i
                        && self.services@[to_stop@[m] as int].remove,
                forall|j: int|
                    0 <= j < i && !has_name(new_nodes, (#[trigger] orig[j]).spec_name())
                        ==> scheduled_in(to_stop@, 0, j),
                graph_matches_live(orig, new_nodes) ==> self.services@ == orig && to_stop@.len()
                    == 0,
            decreases n - i,
        {
            let found = new_graph.lookup(self.services[i].node.service.name());
            match found {
                Option::Some(k) => {
                    let same = {
                        let cell_node = &self.services[i].node;
                        let new_node = &new_graph.nodes[k];
                        service_eq_exec(&new_node.service, &cell_node.service) && strvec_eq_exec(
                            &new_node.dependencies,
                            &cell_node.dependencies,
                        )
                    };
                    proof {
                        assert forall|k2: int|
                            0 <= k2 < new_nodes.len() && new_nodes[k2].spec_name()
                                == orig[i as int].spec_name() implies k2 == k by {
                            if k2 != k {
                                assert(new_nodes[k2].spec_name() != new_nodes[k as int].spec_name());
                            }
                        }
                    }
                    if !same {
                        let nn = clone_node(&new_graph.nodes[k]);
                        let cell = &mut self.services[i];
                        cell.updated_node = Option::Some(nn);
                    }
                },
                Option::None => {
                    proof {
                        if graph_matches_live(orig, new_nodes) {
                            assert(has_name(new_nodes, orig[i as int].spec_name()));
                            assert(false);
                        }
                    }
                    let cell = &mut self.services[i];
                    cell.remove = true;
                    let ghost stops_before = to_stop@;
                    to_stop.push(i);
                    proof {
                        assert(to_stop@[stops_before.len() as int] == i);
                        assert forall|j2: int|
                            0 <= j2 < i + 1 && !has_name(
                                new_nodes,
                                (#[trigger] orig[j2]).spec_name(),
                            ) implies scheduled_in(to_stop@, 0, j2) by {
                            if j2 == i as int {
                                assert(to_stop@[stops_before.len() as int] as int == j2);
                            } else {
                                lemma_scheduled_in_extend(stops_before, to_stop@, 0, j2);
                            }
                        }
                    }
                },
            }
            i += 1;
        }
        let ghost phase1 = self.services@;
        let n_new = new_graph.nodes.len();
        let mut k: usize = 0;
        while k < n_new
            invariant
                n_new == new_nodes.len(),
                k <= n_new,
                new_graph.wf(),
                new_nodes == new_graph.nodes@,
                phase1.len() == orig.len(),
                self.services@.len() >= orig.len(),
                forall|j: int| 0 <= j < orig.len() ==> #[trigger] self.services@[j] == phase1[j],
                live_names_unique(self.services@),
                forall|j: int|
                    0 <= j < self.services@.len() ==> (#[trigger] self.services@[j]).wf(),
                forall|j: int|
                    0 <= j < orig.len() ==> (#[trigger] self.services@[j]).node == orig[j].node,
                forall|j: int|
                    orig.len() <= j < self.services@.len() ==> fresh_cell(
                        #[trigger] self.services@[j],
                        new_nodes,
                    ),
                forall|k2: int|
                    0 <= k2 < k ==> live_has_name(
                        self.services@,
                        #[trigger] new_nodes[k2].spec_name(),
                    ),
                graph_matches_live(orig, new_nodes) ==> self.services@ == orig,
            decreases n_new - k,
        {
            let found = {
                let name = new_graph.nodes[k].service.name();
                self.lookup(name)
            };
            match found {
                Option::Some(at) => {
                    proof {
                        assert(self.services@[at as int].spec_name()
                            == new_nodes[k as int].spec_name());
                    }
                },
                Option::None => {
                    proof {
                        if graph_matches_live(orig, new_nodes) {
                            assert(live_has_name(orig, new_nodes[k as int].spec_name()));
                            let w = choose|w: int|
                                0 <= w < orig.len() && orig[w].spec_name()
                                    == new_nodes[k as int].spec_name();
                            assert(self.services@[w].spec_name()
                                == new_nodes[k as int].spec_name());
                            assert(false);
                        }
                    }
                    let ghost before = self.services@;
                    let nn = clone_node(&new_graph.nodes[k]);
                    self.services.push(LiveService::new(nn));
                    proof {
                        let last: int = before.len() as int;
                        assert(self.services@[last].spec_name()
                            == new_nodes[k as int].spec_name());
                        assert(fresh_cell(self.services@[last], new_nodes));
                        assert forall|j1: int, j2: int|
                            0 <= j1 < j2 < self.services@.len() implies self.services@[j1].spec_name() != self.services@[j2].spec_name() by {
                            if j2 == last {
                                assert(self.services@[j1] == before[j1]);
                                assert(!live_has_name(before, new_nodes[k as int].spec_name()));
                            }
                        }
                        assert forall|k2: int|
                            0 <= k2 < k + 1 implies live_has_name(
                            self.services@,
                            #[trigger] new_nodes[k2].spec_name(),
                        ) by {
                            if k2 < k {
                                let w = choose|w: int|
                                    0 <= w < before.len() && before[w].spec_name()
                                        == new_nodes[k2].spec_name();
                                assert(self.services@[w].spec_name()
                                    == new_nodes[k2].spec_name());
                            } else {
                                assert(self.services@[last].spec_name()
                                    == new_nodes[k2].spec_name());
                            }
                        }
                    }
                },
            }
            k += 1;
        }
        proof {
            assert forall|i2: int, k2: int|
                0 <= i2 < self.services@.len() && 0 <= k2
                    < self.services@[i2].node.dependencies@.len() implies live_has_name(
                self.services@,
                self.services@[i2].node.dependencies@[k2]@,
            ) by {
                let d = self.services@[i2].node.dependencies@[k2]@;
                if i2 < orig.len() {
                    assert(self.services@[i2].node == orig[i2].node);
                    assert(live_has_name(orig, d));
                    let w = choose|w: int| 0 <= w < orig.len() && orig[w].spec_name() == d;
                    assert(self.services@[w].spec_name() == d);
                } else {
                    assert(fresh_cell(self.services@[i2], new_nodes));
                    let k0 = choose|k0: int|
                        0 <= k0 < new_nodes.len() && node_eq(
                            self.services@[i2].node,
                            new_nodes[k0],
                        ) && self.services@[i2].spec_name() == new_nodes[k0].spec_name();
                    assert(strvec_eq(
                        self.services@[i2].node.dependencies@,
                        new_nodes[k0].dependencies@,
                    ));
                    assert(new_nodes[k0].dependencies@[k2]@ == d);
                    assert(has_name(new_nodes, d));
                    let w0 = choose|w0: int|
                        0 <= w0 < new_nodes.len() && new_nodes[w0].spec_name() == d;
                    assert(live_has_name(self.services@, new_nodes[w0].spec_name()));
                }
            }
        }
        to_stop
    }

    /// Drops every tombstoned cell that has reached `Down`. The name index
    /// forgets exactly the dropped services; every other cell survives
    /// unchanged (possibly at a different position).
    pub fn remove_downed(&mut self)
        requires
            old(self).wf(),
        ensures
            final(self).wf(),
            forall|j: int|
                0 <= j < final(self).services@.len() ==> cell_in(
                    #[trigger] final(self).services@[j],
                    old(self).services@,
                ) && !(final(self).services@[j].remove && final(self).services@[j].status
                    == ServiceStatus::Down),
            forall|i: int|
                0 <= i < old(self).services@.len() && !(old(self).services@[i].remove && old(self).services@[i].status == ServiceStatus::Down) ==> cell_in(
                    #[trigger] old(self).services@[i],
                    final(self).services@,
                ),
    {
        let ghost orig = self.services@;
        let mut kept: Vec<LiveService> = Vec::new();
        while self.services.len() > 0
            invariant
                self.services@.len() <= orig.len(),
                self.services@ =~= orig.subrange(0, self.services@.len() as int),
                live_names_unique(orig),
                forall|i: int| 0 <= i < orig.len() ==> (#[trigger] orig[i]).wf(),
                forall|j: int|
                    0 <= j < kept@.len() ==> !((#[trigger] kept@[j]).remove && kept@[j].status
                        == ServiceStatus::Down),
                forall|j: int|
                    0 <= j < kept@.len() ==> exists|i: int|
                        self.services@.len() <= i < orig.len() && #[trigger] kept@[j] == orig[i],
                forall|i: int|
                    self.services@.len() <= i < orig.len() && !(orig[i].remove && orig[i].status
                        == ServiceStatus::Down) ==> cell_in(#[trigger] orig[i], kept@),
                live_names_unique(kept@),
                forall|j: int| 0 <= j < kept@.len() ==> (#[trigger] kept@[j]).wf(),
            decreases self.services@.len(),
        {
            let ghost head_len = self.services@.len() as int;
            let popped = self.services.pop();
            let cell = match popped {
                Option::Some(c) => c,
                Option::None => vstd::pervasive::unreached(),
            };
            let ghost before_len = self.services@.len() as int;
            proof {
                assert(cell == orig[before_len]);
            }
            let drop_it = cell.remove && match cell.status {
                ServiceStatus::Down => true,
                _ => false,
            };
            if !drop_it {
                proof {
                    assert forall|j1: int|
                        0 <= j1 < kept@.len() implies kept@[j1].spec_name()
                        != cell.spec_name() by {
                        let w = choose|w: int|
                            head_len <= w < orig.len() && kept@[j1] == orig[w];
                        assert(orig[before_len].spec_name() != orig[w].spec_name());
                    }
                    assert(cell.wf());
                }
                let ghost kept_old = kept@;
                kept.push(cell);
                proof {
                    assert forall|i: int|
                        self.services@.len() <= i < orig.len() && !(orig[i].remove
                            && orig[i].status == ServiceStatus::Down) implies cell_in(
                        #[trigger] orig[i],
                        kept@,
                    ) by {
                        if i == before_len {
                            assert(kept@[kept_old.len() as int] == orig[i]);
                        } else {
                            let w = choose|w: int|
                                0 <= w < kept_old.len() && kept_old[w] == orig[i];
                            assert(kept@[w] == orig[i]);
                        }
                    }
                }
            }
        }
        self.services = kept;
    }

    /// Applies a pending definition installed by reload, at the quiescent
    /// point of the cell's cycle: a service that is not running swaps its
    /// definition for the updated one.
    pub fn apply_update(&mut self, idx: usize)
        requires
            old(self).wf(),
            idx < old(self).services@.len(),
            startable(old(self).services@[idx as int].status),
        ensures
            final(self).wf(),
            final(self).services@.len() == old(self).services@.len(),
            forall|j: int|
                0 <= j < final(self).services@.len() && j != idx ==> #[trigger] final(self).services@[j] == old(self).services@[j],
            final(self).services@[idx as int].updated_node is None,
            final(self).services@[idx as int].spec_name() == old(self).services@[idx as int].spec_name(),
            match old(self).services@[idx as int].updated_node {
                Option::Some(u) => final(self).services@[idx as int].node == u,
                Option::None => final(self).services@ == old(self).services@,
            },
    {
        let ghost orig = self.services@;
        let cell = &mut self.services[idx];
        let pending = cell.updated_node.take();
        match pending {
            Option::Some(u) => {
                cell.node = u;
            },
            Option::None => {},
        }
        proof {
            assert(self.services@ =~= orig.update(idx as int, self.services@[idx as int]));
            assert(self.services@[idx as int].spec_name() == orig[idx as int].spec_name());
            assert forall|i: int, j: int|
                0 <= i < j < self.services@.len() implies self.services@[i].spec_name()
                    != self.services@[j].spec_name() by {
                assert(orig[i].spec_name() != orig[j].spec_name());
            }
            if orig[idx as int].updated_node is None {
                assert(self.services@[idx as int] == orig[idx as int]);
                assert(self.services@ =~= orig);
            }
        }
    }

    /// Non-blocking status query by name: the current status of the named
    /// service, or nothing when the name is not in the graph.
    pub fn get_status(&self, name: &String) -> (r: Option<ServiceStatus>)
        ensures
            match r {
                Option::Some(st) => name_has_status(self.services@, name@, st),
                Option::None => !live_has_name(self.services@, name@),
            },
    {
        match self.lookup(name) {
            Option::Some(i) => Option::Some(self.services[i].status),
            Option::None => Option::None,
        }
    }

    /// Status query with the failure record: the named service's current
    /// status and, when its last start cycle ended `Down`, why. A service
    /// downed by a failed dependency answers with that indication, without
    /// re-reporting the dependency's own cause.
    pub fn status_report(&self, name: &String) -> (r: Option<(ServiceStatus, Option<DownReason>)>)
        ensures
            match r {
                Option::Some((st, why)) => exists|i: int|
                    0 <= i < self.services@.len() && (#[trigger] self.services@[i]).spec_name()
                        == name@ && self.services@[i].status == st
                        && self.services@[i].down_reason == why,
                Option::None => !live_has_name(self.services@, name@),
            },
    {
        match self.lookup(name) {
            Option::Some(i) => Option::Some((self.services[i].status, self.services[i].down_reason)),
            Option::None => Option::None,
        }
    }
}

impl LiveServiceGraph {
    /// Re-checks that every dependency of every cell still resolves; the
    /// daemon runs this before a start wave after cells have been dropped.
    pub fn deps_resolve_live(&self) -> (r: bool)
        ensures
            r == self.deps_ok(),
    {
        let mut i: usize = 0;
        while i < self.services.len()
            invariant
                i <= self.services@.len(),
                forall|a: int, k: int|
                    0 <= a < i && 0 <= k < self.services@[a].node.dependencies@.len()
                        ==> live_has_name(
                        self.services@,
                        self.services@[a].node.dependencies@[k]@,
                    ),
            decreases self.services@.len() - i,
        {
            let mut k: usize = 0;
            while k < self.services[i].node.dependencies.len()
                invariant
                    i < self.services@.len(),
                    k <= self.services@[i as int].node.dependencies@.len(),
                    forall|k2: int|
                        0 <= k2 < k ==> live_has_name(
                            self.services@,
                            self.services@[i as int].node.dependencies@[k2]@,
                        ),
                decreases self.services@[i as int].node.dependencies@.len() - k,
            {
                if self.lookup(&self.services[i].node.dependencies[k]).is_none() {
                    return false;
                }
                k += 1;
            }
            i += 1;
        }
        true
    }
}

/// Whether `name` occurs in a list of dependency names.
pub fn contains_name(v: &Vec<String>, name: &String) -> (r: bool)
    ensures
        r == seq_contains_name(v@, name@),
{
    let mut k: usize = 0;
    while k < v.len()
        invariant
            k <= v@.len(),
            forall|k2: int| 0 <= k2 < k ==> v@[k2]@ != name@,
        decreases v@.len() - k,
    {
        if string_eq(&v[k], name) {
            return true;
        }
        k += 1;
    }
    false
}

/// Two cell sequences with the same definitions pointwise have the same
/// name index.
proof fn lemma_same_nodes_unique(a: Seq<LiveService>, b: Seq<LiveService>)
    requires
        a.len() == b.len(),
        live_names_unique(a),
        forall|j: int| 0 <= j < b.len() ==> (#[trigger] b[j]).node == a[j].node,
    ensures
        live_names_unique(b),
{
    assert forall|i: int, j: int| 0 <= i < j < b.len() implies b[i].spec_name()
        != b[j].spec_name() by {
        assert(b[i].spec_name() == a[i].spec_name());
        assert(b[j].spec_name() == a[j].spec_name());
    }
}

/// Two cell sequences with the same definitions pointwise resolve the same
/// dependencies.
proof fn lemma_same_nodes_deps(a: Seq<LiveService>, b: Seq<LiveService>)
    requires
        a.len() == b.len(),
        live_deps_resolve(a),
        forall|j: int| 0 <= j < b.len() ==> (#[trigger] b[j]).node == a[j].node,
    ensures
        live_deps_resolve(b),
{
    assert forall|i: int, k: int|
        0 <= i < b.len() && 0 <= k < b[i].node.dependencies@.len() implies live_has_name(
        b,
        b[i].node.dependencies@[k]@,
    ) by {
        assert(live_has_name(a, a[i].node.dependencies@[k]@));
        let w = choose|w: int|
            0 <= w < a.len() && a[w].spec_name() == a[i].node.dependencies@[k]@;
        assert(b[w].spec_name() == a[i].node.dependencies@[k]@);
    }
}

/// With unique names, two positions carrying the same name coincide.
proof fn lemma_name_unique_index(s: Seq<LiveService>, i: int, j: int)
    requires
        live_names_unique(s),
        0 <= i < s.len(),
        0 <= j < s.len(),
        s[i].spec_name() == s[j].spec_name(),
    ensures
        i == j,
{
}

} // verus!
