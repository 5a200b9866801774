//! The persisted dependency graph: a collection of nodes, each holding a
//! service definition and its resolved dependency names. Well-formedness
//! (unique names, every dependency resolves) is the precondition the live
//! graph relies on; `validate` decides it, and the edit operations used by
//! the control tool preserve the name uniqueness half of it.

use vstd::prelude::*;
use crate::types::{
    clone_service, clone_strvec, lemma_service_eq_name, service_eq, string_eq, strvec_eq, Service,
};

verus! {

/// One node of the persisted graph: the service plus its resolved
/// dependency names.
pub struct Node {
    pub service: Service,
    pub dependencies: Vec<String>,
}

impl Node {
    pub open spec fn spec_name(self) -> Seq<char> {
        self.service.spec_name()
    }
}

/// Spec equality of graph nodes.
pub open spec fn node_eq(a: Node, b: Node) -> bool {
    service_eq(a.service, b.service) && strvec_eq(a.dependencies@, b.dependencies@)
}

/// A deep copy of a node, equal to the original under [`node_eq`].
pub fn clone_node(n: &Node) -> (r: Node)
    ensures
        node_eq(r, *n),
        r.spec_name() == n.spec_name(),
{
    let r = Node { service: clone_service(&n.service), dependencies: clone_strvec(&n.dependencies) };
    proof {
        lemma_service_eq_name(r.service, n.service);
    }
    r
}

/// Some node in `nodes` carries the name `name`.
pub open spec fn has_name(nodes: Seq<Node>, name: Seq<char>) -> bool {
    exists|i: int| 0 <= i < nodes.len() && nodes[i].spec_name() == name
}

/// No two nodes share a name.
pub open spec fn names_unique(nodes: Seq<Node>) -> bool {
    forall|i: int, j: int|
        0 <= i < j < nodes.len() ==> nodes[i].spec_name() != nodes[j].spec_name()
}

/// Every dependency name of every node resolves to a node.
pub open spec fn deps_resolve(nodes: Seq<Node>) -> bool {
    forall|i: int, k: int|
        0 <= i < nodes.len() && 0 <= k < nodes[i].dependencies@.len()
            ==> has_name(nodes, nodes[i].dependencies@[k]@)
}

/// `n` is one of the nodes of `nodes`.
pub open spec fn node_in(n: Node, nodes: Seq<Node>) -> bool {
    exists|i: int| 0 <= i < nodes.len() && nodes[i] == n
}

/// `n` carries the definition of one of the services in `batch`.
pub open spec fn node_from_batch(n: Node, batch: Seq<Service>) -> bool {
    exists|k: int|
        0 <= k < batch.len() && service_eq(n.service, batch[k]) && strvec_eq(
            n.dependencies@,
            batch[k].spec_dependencies(),
        )
}

/// The failure of a graph edit: the resulting graph would hold a dependency
/// name that no node carries.
#[derive(Clone, Copy, Debug, PartialEq, Eq, Structural)]
pub enum GraphError {
    UnresolvedDependency,
}

/// The persisted dependency graph.
pub struct DependencyGraph {
    pub nodes: Vec<Node>,
}

impl DependencyGraph {
    /// The graph invariant the live graph relies on: unique names and
    /// resolving dependencies. The control tool enforces it when writing
    /// the graph file; the daemon checks it with `validate` at boot.
    pub open spec fn wf(self) -> bool {
        names_unique(self.nodes@) && deps_resolve(self.nodes@)
    }

    pub fn new() -> (r: Self)
        ensures
            r.nodes@.len() == 0,
            r.wf(),
    {
        DependencyGraph { nodes: Vec::new() }
    }

    /// The position of the node named `name`, if any.
    pub fn lookup(&self, name: &String) -> (r: Option<usize>)
        ensures
            match r {
                Option::Some(i) => i < self.nodes@.len() && self.nodes@[i as int].spec_name()
                    == name@,
                Option::None => !has_name(self.nodes@, name@),
            },
    {
        let mut i: usize = 0;
        while i < self.nodes.len()
            invariant
                i <= self.nodes@.len(),
                forall|j: int| 0 <= j < i ==> self.nodes@[j].spec_name() != name@,
            decreases self.nodes@.len() - i,
        {
            if string_eq(self.nodes[i].service.name(), name) {
                return Option::Some(i);
            }
            i += 1;
        }
        Option::None
    }

    fn names_unique_exec(&self) -> (r: bool)
        ensures
            r == names_unique(self.nodes@),
    {
        let mut i: usize = 0;
        while i < self.nodes.len()
            invariant
                i <= self.nodes@.len(),
                forall|a: int, b: int|
                    0 <= a < b < self.nodes@.len() && a < i ==> self.nodes@[a].spec_name()
                        != self.nodes@[b].spec_name(),
            decreases self.nodes@.len() - i,
        {
            let mut j: usize = i + 1;
            while j < self.nodes.len()
                invariant
                    i < j <= self.nodes@.len(),
                    forall|b: int| i < b < j ==> self.nodes@[i as int].spec_name()
                        != self.nodes@[b].spec_name(),
                decreases self.nodes@.len() - j,
            {
                if string_eq(self.nodes[i].service.name(), self.nodes[j].service.name()) {
                    return false;
                }
                j += 1;
            }
            i += 1;
        }
        true
    }

    fn deps_resolve_exec(&self) -> (r: bool)
        ensures
            r == deps_resolve(self.nodes@),
    {
        let mut i: usize = 0;
        while i < self.nodes.len()
            invariant
                i <= self.nodes@.len(),
                forall|a: int, k: int|
                    0 <= a < i && 0 <= k < self.nodes@[a].dependencies@.len()
                        ==> has_name(self.nodes@, self.nodes@[a].dependencies@[k]@),
            decreases self.nodes@.len() - i,
        {
            let mut k: usize = 0;
            while k < self.nodes[i].dependencies.len()
                invariant
                    i < self.nodes@.len(),
                    k <= self.nodes@[i as int].dependencies@.len(),
                    forall|k2: int|
                        0 <= k2 < k ==> has_name(
                            self.nodes@,
                            self.nodes@[i as int].dependencies@[k2]@,
                        ),
                decreases self.nodes@[i as int].dependencies@.len() - k,
            {
                if self.lookup(&self.nodes[i].dependencies[k]).is_none() {
                    return false;
                }
                k += 1;
            }
            i += 1;
        }
        true
    }

    /// Decides the graph invariant. A graph read from disk is checked with
    /// this before the daemon builds the live graph from it; a violation is
    /// fatal.
    pub fn validate(&self) -> (r: bool)
        ensures
            r == self.wf(),
    {
        self.names_unique_exec() && self.deps_resolve_exec()
    }

    /// Inserts a node, replacing any node of the same name.
    fn add_node(&mut self, node: Node)
        requires
            names_unique(old(self).nodes@),
        ensures
            names_unique(final(self).nodes@),
            forall|n: Seq<char>|
                #[trigger] has_name(final(self).nodes@, n) <==> has_name(old(self).nodes@, n)
                    || n == node.spec_name(),
            node_in(node, final(self).nodes@),
            forall|j: int|
                0 <= j < final(self).nodes@.len() ==> final(self).nodes@[j] == node || (node_in(
                    #[trigger] final(self).nodes@[j],
                    old(self).nodes@,
                ) && final(self).nodes@[j].spec_name() != node.spec_name()),
    {
        let ghost olds = self.nodes@;
        let pos = self.lookup(node.service.name());
        match pos {
            Option::Some(i) => {
                let slot = &mut self.nodes[i];
                *slot = node;
                proof {
                    assert(self.nodes@ =~= olds.update(i as int, node));
                    assert(self.nodes@[i as int] == node);
                    assert forall|j: int|
                        0 <= j < self.nodes@.len() && j != i implies self.nodes@[j] == olds[j] by {}
                    assert forall|n: Seq<char>|
                        has_name(olds, n) || n == node.spec_name() implies #[trigger] has_name(
                        self.nodes@,
                        n,
                    ) by {
                        if n == node.spec_name() {
                            assert(self.nodes@[i as int].spec_name() == n);
                        } else {
                            let m = choose|m: int|
                                0 <= m < olds.len() && olds[m].spec_name() == n;
                            assert(m != i);
                            assert(self.nodes@[m].spec_name() == n);
                        }
                    }
                    assert forall|j: int|
                        0 <= j < self.nodes@.len() && self.nodes@[j] != node implies node_in(
                        #[trigger] self.nodes@[j],
                        olds,
                    ) && self.nodes@[j].spec_name() != node.spec_name() by {
                        assert(j != i);
                        assert(self.nodes@[j] == olds[j]);
                        assert(olds[j].spec_name() != olds[i as int].spec_name());
                    }
                }
            },
            Option::None => {
                self.nodes.push(node);
                proof {
                    assert(self.nodes@ =~= olds.push(node));
                    assert(self.nodes@[olds.len() as int] == node);
                    assert forall|j: int|
                        0 <= j < self.nodes@.len() && self.nodes@[j] != node implies node_in(
                        #[trigger] self.nodes@[j],
                        olds,
                    ) && self.nodes@[j].spec_name() != node.spec_name() by {
                        assert(j != olds.len());
                        assert(self.nodes@[j] == olds[j]);
                        assert(has_name(olds, olds[j].spec_name()));
                    }
                    assert forall|n: Seq<char>|
                        has_name(olds, n) || n == node.spec_name() implies #[trigger] has_name(
                        self.nodes@,
                        n,
                    ) by {
                        if n == node.spec_name() {
                            assert(self.nodes@[olds.len() as int].spec_name() == n);
                        } else {
                            let m = choose|m: int|
                                0 <= m < olds.len() && olds[m].spec_name() == n;
                            assert(self.nodes@[m].spec_name() == n);
                        }
                    }
                    assert forall|j1: int, j2: int|
                        0 <= j1 < j2 < self.nodes@.len() implies self.nodes@[j1].spec_name()
                            != self.nodes@[j2].spec_name() by {
                        if j2 == olds.len() {
                            assert(self.nodes@[j1] == olds[j1]);
                            assert(!has_name(olds, node.spec_name()));
                            assert(has_name(olds, olds[j1].spec_name()));
                        }
                    }
                }
            },
        }
    }

    /// Adds (or updates) a batch of parsed service definitions, then checks
    /// that every dependency of the resulting graph resolves. On failure
    /// the graph may hold part of the batch; the caller discards it.
    pub fn add_services(&mut self, services: &Vec<Service>) -> (r: Result<(), GraphError>)
        requires
            names_unique(old(self).nodes@),
        ensures
            names_unique(final(self).nodes@),
            r is Ok <==> final(self).wf(),
            r is Err ==> r == Result::<(), GraphError>::Err(GraphError::UnresolvedDependency),
            forall|k: int|
                0 <= k < services@.len() ==> has_name(
                    final(self).nodes@,
                    #[trigger] services@[k].spec_name(),
                ),
            forall|n: Seq<char>|
                has_name(old(self).nodes@, n) ==> #[trigger] has_name(final(self).nodes@, n),
            forall|j: int|
                0 <= j < final(self).nodes@.len() ==> node_in(
                    #[trigger] final(self).nodes@[j],
                    old(self).nodes@,
                ) || node_from_batch(final(self).nodes@[j], services@),
    {
        let mut k: usize = 0;
        while k < services.len()
            invariant
                k <= services@.len(),
                names_unique(self.nodes@),
                forall|k2: int|
                    0 <= k2 < k ==> has_name(self.nodes@, #[trigger] services@[k2].spec_name()),
                forall|n: Seq<char>|
                    has_name(old(self).nodes@, n) ==> #[trigger] has_name(self.nodes@, n),
                forall|j: int|
                    0 <= j < self.nodes@.len() ==> node_in(
                        #[trigger] self.nodes@[j],
                        old(self).nodes@,
                    ) || node_from_batch(self.nodes@[j], services@),
            decreases services@.len() - k,
        {
            let service = clone_service(&services[k]);
            let dependencies = clone_strvec(service.dependencies());
            proof {
                lemma_service_eq_name(service, services@[k as int]);
            }
            let node = Node { service, dependencies };
            assert(node_from_batch(node, services@)) by {
                assert(service_eq(node.service, services@[k as int]));
            }
            self.add_node(node);
            k += 1;
        }
        if self.deps_resolve_exec() {
            Result::Ok(())
        } else {
            Result::Err(GraphError::UnresolvedDependency)
        }
    }

    /// Removes the node named `name`. Returns whether it was present.
    /// The caller re-validates afterwards: removal can leave another node's
    /// dependency unresolved.
    pub fn remove_node(&mut self, name: &String) -> (r: bool)
        requires
            names_unique(old(self).nodes@),
        ensures
            r == has_name(old(self).nodes@, name@),
            names_unique(final(self).nodes@),
            forall|n: Seq<char>|
                #[trigger] has_name(final(self).nodes@, n) <==> has_name(old(self).nodes@, n)
                    && n != name@,
            forall|j: int|
                0 <= j < final(self).nodes@.len() ==> node_in(
                    #[trigger] final(self).nodes@[j],
                    old(self).nodes@,
                ),
            !r ==> *final(self) == *old(self),
    {
        let ghost olds = self.nodes@;
        let pos = self.lookup(name);
        match pos {
            Option::Some(i) => {
                self.nodes.remove(i);
                proof {
                    assert(self.nodes@ =~= olds.remove(i as int));
                    assert forall|j: int| 0 <= j < self.nodes@.len() implies node_in(
                        #[trigger] self.nodes@[j],
                        olds,
                    ) && self.nodes@[j].spec_name() != name@ by {
                        let m: int = if j < i { j } else { j + 1 };
                        assert(self.nodes@[j] == olds[m]);
                        assert(m != i);
                        if m < i {
                            assert(olds[m].spec_name() != olds[i as int].spec_name());
                        } else {
                            assert(olds[i as int].spec_name() != olds[m].spec_name());
                        }
                    }
                    assert forall|j1: int, j2: int|
                        0 <= j1 < j2 < self.nodes@.len() implies self.nodes@[j1].spec_name()
                            != self.nodes@[j2].spec_name() by {
                        let m1: int = if j1 < i { j1 } else { j1 + 1 };
                        let m2: int = if j2 < i { j2 } else { j2 + 1 };
                        assert(self.nodes@[j1] == olds[m1]);
                        assert(self.nodes@[j2] == olds[m2]);
                        assert(olds[m1].spec_name() != olds[m2].spec_name());
                    }
                    assert forall|n: Seq<char>|
                        has_name(olds, n) && n != name@ implies #[trigger] has_name(
                        self.nodes@,
                        n,
                    ) by {
                        let m = choose|m: int| 0 <= m < olds.len() && olds[m].spec_name() == n;
                        assert(m != i);
                        let j: int = if m < i { m } else { m - 1 };
                        assert(self.nodes@[j] == olds[m]);
                        assert(self.nodes@[j].spec_name() == n);
                    }
                    assert forall|n: Seq<char>| #[trigger]
                        has_name(self.nodes@, n) implies has_name(olds, n) && n != name@ by {
                        let j = choose|j: int|
                            0 <= j < self.nodes@.len() && self.nodes@[j].spec_name() == n;
                        assert(node_in(self.nodes@[j], olds) && self.nodes@[j].spec_name()
                            != name@);
                        let m = choose|m: int| 0 <= m < olds.len() && olds[m] == self.nodes@[j];
                        assert(olds[m].spec_name() == n);
                    }
                }
                true
            },
            Option::None => false,
        }
    }
}

} // verus!
