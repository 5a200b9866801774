//! The runtime cell for one service: its current status, the last terminal
//! status, the timestamp of the latest transition and the supervisor handle
//! of the currently running child, together with the status state machine.

use vstd::prelude::*;
use crate::graph::Node;
use crate::types::ScriptConfig;

verus! {

/// Status of a live service. `Starting` and `Stopping` are transient;
/// `Up` and `Down` are the terminal statuses of a request cycle and
/// `Reset` is the initial state.
#[derive(Clone, Copy, Debug, PartialEq, Eq, Structural)]
pub enum ServiceStatus {
    Reset,
    Up,
    Down,
    Starting,
    Stopping,
}

impl ServiceStatus {
    /// A terminal status ends a start or stop cycle.
    pub open spec fn is_terminal(self) -> bool {
        self == ServiceStatus::Up || self == ServiceStatus::Down
    }
}

/// Why a service is `Down` after a start cycle, surfaced on status queries.
/// A dependency failure does not re-report the dependency's own cause.
#[derive(Clone, Copy, Debug, PartialEq, Eq, Structural)]
pub enum DownReason {
    /// A declared dependency ended `Down`, so this service never launched.
    DependencyFailed,
    /// The launch itself failed or the child died before readiness.
    LaunchFailed,
}

/// Relies on std's `SystemTime::now` for the wall-clock timestamp of a
/// status transition, in microseconds relative to the Unix epoch. The value
/// depends on the machine's clock alone, so nothing is promised of it; a
/// clock set before the epoch yields a negative stamp instead of a panic.
#[verifier::external_body]
fn timestamp_now() -> i64 {
    match std::time::SystemTime::now().duration_since(std::time::UNIX_EPOCH) {
        Ok(since) => since.as_micros() as i64,
        Err(before) => -(before.duration().as_micros() as i64),
    }
}

/// The runtime record of one service inside the live service graph.
pub struct LiveService {
    /// The current definition.
    pub node: Node,
    /// A pending replacement installed by reload; applied at the next
    /// quiescent point (`apply_update`).
    pub updated_node: Option<Node>,
    pub status: ServiceStatus,
    /// Wall-clock timestamp of the most recent transition.
    pub status_changed: Option<i64>,
    /// The last terminal status; never `Starting` or `Stopping`.
    pub last_status: Option<ServiceStatus>,
    /// Resolved (start, stop) script configurations.
    pub config: Option<(ScriptConfig, ScriptConfig)>,
    pub environment: Option<(ScriptConfig, ScriptConfig)>,
    /// Why the most recent start cycle ended `Down`, if it did.
    pub down_reason: Option<DownReason>,
    /// Tombstone set by reload when the service left the graph; the cell is
    /// dropped once its status reaches `Down`.
    pub remove: bool,
    /// Pid of the child currently associated with this cell, if any.
    pub supervisor: Option<u64>,
}

impl LiveService {
    /// The declared name of the service this cell supervises.
    pub open spec fn spec_name(self) -> Seq<char> {
        self.node.spec_name()
    }

    /// Cell invariant: the last recorded status is terminal; a child is
    /// associated with the cell only while it is running (`Up`) or being
    /// torn down (`Stopping`); and a pending replacement definition keeps
    /// the service's name, so applying it cannot collide with another cell.
    pub open spec fn wf(self) -> bool {
        &&& match self.last_status {
            Option::None => true,
            Option::Some(s) => s.is_terminal(),
        }
        &&& (self.supervisor is Some ==> self.status == ServiceStatus::Up || self.status
            == ServiceStatus::Stopping)
        &&& match self.updated_node {
            Option::None => true,
            Option::Some(u) => u.spec_name() == self.spec_name(),
        }
    }

    /// Everything but the transition fields (status, its timestamp and the
    /// last terminal status) is the same in both cells.
    pub open spec fn same_shape(self, other: LiveService) -> bool {
        &&& self.node == other.node
        &&& self.updated_node == other.updated_node
        &&& self.config == other.config
        &&& self.environment == other.environment
        &&& self.remove == other.remove
        &&& self.supervisor == other.supervisor
    }

    pub fn new(node: Node) -> (r: Self)
        ensures
            r.node == node,
            r.updated_node is None,
            r.status == ServiceStatus::Reset,
            r.status_changed is None,
            r.last_status is None,
            r.config is None,
            r.environment is None,
            r.down_reason is None,
            r.remove == false,
            r.supervisor is None,
            r.wf(),
    {
        LiveService {
            node,
            updated_node: Option::None,
            status: ServiceStatus::Reset,
            status_changed: Option::None,
            last_status: Option::None,
            config: Option::None,
            environment: Option::None,
            down_reason: Option::None,
            remove: false,
            supervisor: Option::None,
        }
    }

    /// The state machine's single step: record the old status as the last
    /// terminal status if it was terminal, move to `new_status`, and stamp
    /// the transition time. Observers asking what the service was doing
    /// before the current transition never see a transition as the answer.
    pub fn change_status(&mut self, new_status: ServiceStatus)
        requires
            old(self).wf(),
            (new_status == ServiceStatus::Reset || new_status == ServiceStatus::Starting
                || new_status == ServiceStatus::Down) ==> old(self).supervisor is None,
        ensures
            final(self).status == new_status,
            final(self).last_status == if old(self).status.is_terminal() {
                Option::Some(old(self).status)
            } else {
                old(self).last_status
            },
            final(self).status_changed is Some,
            final(self).down_reason == old(self).down_reason,
            final(self).same_shape(*old(self)),
            final(self).wf(),
    {
        let terminal = match self.status {
            ServiceStatus::Up => true,
            ServiceStatus::Down => true,
            _ => false,
        };
        if terminal {
            self.last_status = Option::Some(self.status);
        }
        self.status = new_status;
        self.status_changed = Option::Some(timestamp_now());
    }

    /// Non-blocking status read: the current status if it is terminal,
    /// otherwise nothing (the observer should wait on the notifier).
    pub fn get_status(&self) -> (r: Option<ServiceStatus>)
        ensures
            r == if self.status.is_terminal() {
                Option::Some(self.status)
            } else {
                Option::None::<ServiceStatus>
            },
    {
        match self.status {
            ServiceStatus::Up => Option::Some(ServiceStatus::Up),
            ServiceStatus::Down => Option::Some(ServiceStatus::Down),
            _ => Option::None,
        }
    }

    /// At most one child is associated with a cell: a well-formed cell that
    /// is not running and not being torn down holds no supervisor handle at
    /// all, so installing a handle (which only happens on the way to `Up`)
    /// never displaces a live one.
    pub proof fn lemma_supervisor_exclusive(self)
        requires
            self.wf(),
            !(self.status == ServiceStatus::Up || self.status == ServiceStatus::Stopping),
        ensures
            self.supervisor is None,
    {
    }

    /// The last terminal status is never `Starting` or `Stopping`: every
    /// well-formed cell answers "what was this service doing before the
    /// current transition?" with a terminal status or with nothing.
    pub proof fn lemma_last_status_terminal(self)
        requires
            self.wf(),
        ensures
            self.last_status is None || self.last_status == Option::Some(ServiceStatus::Up)
                || self.last_status == Option::Some(ServiceStatus::Down),
    {
    }
}

} // verus!
