//! The compute half of the control tool's enable and disable commands:
//! duplicate detection over the requested names, the runlevel discipline,
//! and the graph edits. Reading and writing the graph file and notifying
//! the daemon stay with the tool's binary.

use vstd::prelude::*;
use crate::graph::{
    deps_resolve, has_name, names_unique, node_from_batch, node_in, DependencyGraph, GraphError,
};
use crate::live_graph::seq_contains_name;
use crate::types::{clone_string, string_eq, RunLevel, Service};

verus! {

/// Why an enable or disable request was rejected.
#[derive(Debug)]
pub enum CtlError {
    /// The same service was named twice in one request.
    DuplicatedService,
    /// A service to disable is not in the graph.
    ServiceNotEnabled { service: String },
    /// A service to disable is enabled under another runlevel.
    RunLevelMismatch { service: String },
    /// The edit would leave a dependency that no node carries.
    UnresolvedDependency,
}

/// Some name occurs twice in the request.
pub open spec fn has_dup(s: Seq<String>) -> bool {
    exists|i: int, j: int| 0 <= i < j < s.len() && s[i]@ == s[j]@
}

/// Whether a request names the same service twice.
pub fn has_duplicates(v: &Vec<String>) -> (r: bool)
    ensures
        r == has_dup(v@),
{
    let mut i: usize = 0;
    while i < v.len()
        invariant
            i <= v@.len(),
            forall|a: int, b: int| 0 <= a < b < v@.len() && a < i ==> v@[a]@ != v@[b]@,
        decreases v@.len() - i,
    {
        let mut j: usize = i + 1;
        while j < v.len()
            invariant
                i < j <= v@.len(),
                forall|b: int| i < b < j ==> v@[i as int]@ != v@[b]@,
            decreases v@.len() - j,
        {
            if string_eq(&v[i], &v[j]) {
                return true;
            }
            j += 1;
        }
        i += 1;
    }
    false
}

/// The node named `name` is enabled under runlevel `rl`.
pub open spec fn svc_ok(nodes: Seq<crate::graph::Node>, name: Seq<char>, rl: RunLevel) -> bool {
    &&& has_name(nodes, name)
    &&& forall|i: int|
        0 <= i < nodes.len() && (#[trigger] nodes[i]).spec_name() == name
            ==> nodes[i].service.spec_runlevel() == rl
}

/// Adds services to the persisted graph. The tool parses the requested
/// services and their transitive dependencies into definitions; this command
/// rejects a duplicated request and merges the batch into the graph.
pub struct EnableCommand {
    pub services: Vec<String>,
}

impl EnableCommand {
    /// Rejects a request that names a service twice, then merges the parsed
    /// definitions into the graph. The edit succeeds exactly when every
    /// dependency of the merged graph resolves; on failure the caller
    /// discards the graph instead of writing it back.
    pub fn run(&self, graph: &mut DependencyGraph, parsed: &Vec<Service>) -> (r: Result<
        (),
        CtlError,
    >)
        requires
            names_unique(old(graph).nodes@),
        ensures
            names_unique(final(graph).nodes@),
            has_dup(self.services@) ==> (r matches Result::Err(CtlError::DuplicatedService))
                && *final(graph) == *old(graph),
            !has_dup(self.services@) ==> {
                &&& (r is Ok <==> final(graph).wf())
                &&& (r is Err ==> r matches Result::Err(CtlError::UnresolvedDependency))
                &&& forall|k: int|
                    0 <= k < parsed@.len() ==> has_name(
                        final(graph).nodes@,
                        #[trigger] parsed@[k].spec_name(),
                    )
                &&& forall|n: Seq<char>|
                    has_name(old(graph).nodes@, n) ==> #[trigger] has_name(final(graph).nodes@, n)
                &&& forall|j: int|
                    0 <= j < final(graph).nodes@.len() ==> node_in(
                        #[trigger] final(graph).nodes@[j],
                        old(graph).nodes@,
                    ) || node_from_batch(final(graph).nodes@[j], parsed@)
            },
    {
        if has_duplicates(&self.services) {
            return Result::Err(CtlError::DuplicatedService);
        }
        match graph.add_services(parsed) {
            Result::Ok(()) => Result::Ok(()),
            Result::Err(GraphError::UnresolvedDependency) => Result::Err(
                CtlError::UnresolvedDependency,
            ),
        }
    }
}

/// Removes services from the persisted graph. Every named service must be
/// enabled and carry the requested runlevel; afterwards no remaining node
/// may depend on a removed one.
pub struct DisableCommand {
    pub services: Vec<String>,
    pub atomic_changes: bool,
    pub runlevel: RunLevel,
}

impl DisableCommand {
    /// Checks the request (no duplicates; every service enabled, under the
    /// requested runlevel, in request order), removes the named nodes, and
    /// re-checks that every remaining dependency resolves. The graph is
    /// untouched when a check fails; after the removals a dangling
    /// dependency is reported and the caller discards the graph. With
    /// distinct names, checking everything first and removing afterwards
    /// decides exactly as interleaving per service would, so both request
    /// modes share this path and differ only in the tool's reporting.
    pub fn run(&self, graph: &mut DependencyGraph) -> (r: Result<(), CtlError>)
        requires
            names_unique(old(graph).nodes@),
        ensures
            names_unique(final(graph).nodes@),
            match r {
                Result::Ok(()) => !has_dup(self.services@) && final(graph).wf() && (forall|
                    k: int,
                |
                    0 <= k < self.services@.len() ==> svc_ok(
                        old(graph).nodes@,
                        (#[trigger] self.services@[k])@,
                        self.runlevel,
                    ) && !has_name(final(graph).nodes@, self.services@[k]@)) && (forall|j: int|
                    0 <= j < final(graph).nodes@.len() ==> node_in(
                        #[trigger] final(graph).nodes@[j],
                        old(graph).nodes@,
                    )) && (forall|n: Seq<char>|
                    #[trigger] has_name(final(graph).nodes@, n) <==> has_name(
                        old(graph).nodes@,
                        n,
                    ) && !seq_contains_name(self.services@, n)),
                Result::Err(CtlError::DuplicatedService) => has_dup(self.services@) && *final(graph) == *old(graph),
                Result::Err(CtlError::ServiceNotEnabled { service }) => !has_dup(self.services@)
                    && *final(graph) == *old(graph) && !has_name(old(graph).nodes@, service@)
                    && exists|k: int|
                    0 <= k < self.services@.len() && service@ == (
                    #[trigger] self.services@[k])@,
                Result::Err(CtlError::RunLevelMismatch { service }) => !has_dup(self.services@)
                    && *final(graph) == *old(graph) && has_name(old(graph).nodes@, service@)
                    && !svc_ok(old(graph).nodes@, service@, self.runlevel) && exists|k: int|
                    0 <= k < self.services@.len() && service@ == (
                    #[trigger] self.services@[k])@,
                Result::Err(CtlError::UnresolvedDependency) => !has_dup(self.services@)
                    && !deps_resolve(final(graph).nodes@) && (forall|k: int|
                    0 <= k < self.services@.len() ==> svc_ok(
                        old(graph).nodes@,
                        (#[trigger] self.services@[k])@,
                        self.runlevel,
                    ) && !has_name(final(graph).nodes@, self.services@[k]@)) && (forall|j: int|
                    0 <= j < final(graph).nodes@.len() ==> node_in(
                        #[trigger] final(graph).nodes@[j],
                        old(graph).nodes@,
                    )) && (forall|n: Seq<char>|
                    #[trigger] has_name(final(graph).nodes@, n) <==> has_name(
                        old(graph).nodes@,
                        n,
                    ) && !seq_contains_name(self.services@, n)),
            },
    {
        if has_duplicates(&self.services) {
            return Result::Err(CtlError::DuplicatedService);
        }
        let mut k: usize = 0;
        while k < self.services.len()
            invariant
                k <= self.services@.len(),
                !has_dup(self.services@),
                names_unique(graph.nodes@),
                *graph == *old(graph),
                forall|k2: int|
                    0 <= k2 < k ==> svc_ok(
                        graph.nodes@,
                        (#[trigger] self.services@[k2])@,
                        self.runlevel,
                    ),
            decreases self.services@.len() - k,
        {
            match graph.lookup(&self.services[k]) {
                Option::None => {
                    let service = clone_string(&self.services[k]);
                    proof {
                        assert(graph.nodes@ == old(graph).nodes@);
                        assert(service@ == (#[trigger] self.services@[k as int])@);
                        assert(!has_name(old(graph).nodes@, service@));
                    }
                    return Result::Err(CtlError::ServiceNotEnabled { service });
                },
                Option::Some(i) => {
                    let rl = graph.nodes[i].service.runlevel();
                    if !(rl == self.runlevel) {
                        let service = clone_string(&self.services[k]);
                        proof {
                            assert(graph.nodes@ == old(graph).nodes@);
                            assert(service@ == (#[trigger] self.services@[k as int])@);
                            assert(graph.nodes@[i as int].spec_name() == service@);
                            assert(has_name(old(graph).nodes@, service@));
                            assert(!svc_ok(old(graph).nodes@, service@, self.runlevel)) by {
                                assert(old(graph).nodes@[i as int].service.spec_runlevel()
                                    != self.runlevel);
                            }
                        }
                        return Result::Err(CtlError::RunLevelMismatch { service });
                    }
                    proof {
                        assert forall|i2: int|
                            0 <= i2 < graph.nodes@.len() && (
                            #[trigger] graph.nodes@[i2]).spec_name()
                                == self.services@[k as int]@ implies graph.nodes@[i2].service.spec_runlevel() == self.runlevel by {
                            if i2 != i {
                                assert(graph.nodes@[i2].spec_name()
                                    != graph.nodes@[i as int].spec_name());
                            }
                        }
                    }
                },
            }
            k += 1;
        }
        let mut k2: usize = 0;
        while k2 < self.services.len()
            invariant
                k2 <= self.services@.len(),
                names_unique(graph.nodes@),
                !has_dup(self.services@),
                forall|m: int|
                    0 <= m < k2 ==> !has_name(graph.nodes@, (#[trigger] self.services@[m])@),
                forall|m: int|
                    k2 <= m < self.services@.len() ==> has_name(
                        graph.nodes@,
                        (#[trigger] self.services@[m])@,
                    ),
                forall|m: int|
                    0 <= m < self.services@.len() ==> svc_ok(
                        old(graph).nodes@,
                        (#[trigger] self.services@[m])@,
                        self.runlevel,
                    ),
                forall|j: int|
                    0 <= j < graph.nodes@.len() ==> node_in(
                        #[trigger] graph.nodes@[j],
                        old(graph).nodes@,
                    ),
                forall|n: Seq<char>|
                    #[trigger] has_name(graph.nodes@, n) <==> has_name(old(graph).nodes@, n) && (
                    forall|m: int| 0 <= m < k2 ==> n != (#[trigger] self.services@[m])@),
            decreases self.services@.len() - k2,
        {
            let ghost before = graph.nodes@;
            graph.remove_node(&self.services[k2]);
            proof {
                assert forall|m: int|
                    k2 + 1 <= m < self.services@.len() implies has_name(
                    graph.nodes@,
                    (#[trigger] self.services@[m])@,
                ) by {
                    assert(self.services@[k2 as int]@ != self.services@[m]@);
                    assert(has_name(before, self.services@[m]@));
                }
                assert forall|j: int|
                    0 <= j < graph.nodes@.len() implies node_in(
                    #[trigger] graph.nodes@[j],
                    old(graph).nodes@,
                ) by {
                    assert(node_in(graph.nodes@[j], before));
                    let w = choose|w: int| 0 <= w < before.len() && before[w] == graph.nodes@[j];
                    assert(node_in(before[w], old(graph).nodes@));
                    let w0 = choose|w0: int|
                        0 <= w0 < old(graph).nodes@.len() && old(graph).nodes@[w0] == before[w];
                    assert(old(graph).nodes@[w0] == graph.nodes@[j]);
                }
                assert forall|n: Seq<char>|
                    #[trigger] has_name(graph.nodes@, n) <==> has_name(old(graph).nodes@, n) && (
                forall|m: int| 0 <= m < k2 + 1 ==> n != (#[trigger] self.services@[m])@) by {
                    assert(has_name(graph.nodes@, n) <==> has_name(before, n) && n
                        != self.services@[k2 as int]@);
                }
            }
            k2 += 1;
        }
        if graph.validate() {
            Result::Ok(())
        } else {
            Result::Err(CtlError::UnresolvedDependency)
        }
    }
}

} // verus!
