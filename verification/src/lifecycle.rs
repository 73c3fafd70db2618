//! How the start of the node's networking is reported and followed.

use vstd::prelude::*;

verus! {

/// The outcome of bringing up the onion service, reported once.
#[derive(Debug, Clone, Copy, PartialEq, Eq, Structural)]
pub enum TorTriggerEvent {
    /// The service is published and the bridge forwards.
    Running,
    /// A step of the start failed.
    Failed,
}

/// What a look at the event channel found.
#[derive(Debug, Clone, Copy, PartialEq, Eq, Structural)]
pub enum StartupPoll {
    /// The event has arrived.
    Event(TorTriggerEvent),
    /// Nothing has arrived yet.
    Empty,
    /// The sender is gone and sent nothing.
    Closed,
}

/// What an observer knows of the node's networking.
#[derive(Debug, Clone, Copy, PartialEq, Eq, Structural)]
pub enum NodeStatus {
    /// No outcome has been seen yet.
    Starting,
    /// The node is reachable.
    Running,
    /// The start failed; nothing retries it from within.
    Failed,
}

/// The status after a look at the channel: an outcome is taken once and
/// kept; a channel that closed without an event counts as failure.
pub open spec fn next_status(status: NodeStatus, poll: StartupPoll) -> NodeStatus {
    match status {
        NodeStatus::Starting => match poll {
            StartupPoll::Event(TorTriggerEvent::Running) => NodeStatus::Running,
            StartupPoll::Event(TorTriggerEvent::Failed) => NodeStatus::Failed,
            StartupPoll::Empty => NodeStatus::Starting,
            StartupPoll::Closed => NodeStatus::Failed,
        },
        _ => status,
    }
}

/// An outcome, once seen, is never replaced by a later look.
pub proof fn lemma_outcome_is_final(status: NodeStatus, poll: StartupPoll)
    requires
        status != NodeStatus::Starting,
    ensures
        next_status(status, poll) == status,
{
}

impl NodeStatus {
    /// Whether the channel still has to be looked at.
    pub fn is_pending(&self) -> (pending: bool)
        ensures
            pending == (*self == NodeStatus::Starting),
    {
        match self {
            NodeStatus::Starting => true,
            _ => false,
        }
    }

    /// The status after a look at the channel.
    pub fn observe(self, poll: StartupPoll) -> (status: NodeStatus)
        ensures
            status == next_status(self, poll),
    {
        match self {
            NodeStatus::Starting => match poll {
                StartupPoll::Event(TorTriggerEvent::Running) => NodeStatus::Running,
                StartupPoll::Event(TorTriggerEvent::Failed) => NodeStatus::Failed,
                StartupPoll::Empty => NodeStatus::Starting,
                StartupPoll::Closed => NodeStatus::Failed,
            },
            other => other,
        }
    }
}

/// The event to report for a start whose steps all succeeded or not.
pub fn startup_event(published: bool) -> (event: TorTriggerEvent)
    ensures
        event == if published {
            TorTriggerEvent::Running
        } else {
            TorTriggerEvent::Failed
        },
{
    if published {
        TorTriggerEvent::Running
    } else {
        TorTriggerEvent::Failed
    }
}

} // verus!
