//! The states of a client's connection, and the channel and timer handles
//! that go with them.

use vstd::prelude::*;
use crate::message::Message;
use tokio::sync::mpsc::UnboundedSender;
use tokio::task::JoinHandle;

verus! {

/// `tokio::sync::mpsc::UnboundedSender`, the sending half of a connection's
/// outbound channel. Its inside is not visible to proofs.
#[verifier::external_type_specification]
#[verifier::external_body]
#[verifier::reject_recursive_types(T)]
pub struct ExUnboundedSender<T>(tokio::sync::mpsc::UnboundedSender<T>);

/// `tokio::task::JoinHandle`, the handle of a spawned eviction timer. Its
/// inside is not visible to proofs.
#[verifier::external_type_specification]
#[verifier::external_body]
#[verifier::reject_recursive_types(T)]
pub struct ExJoinHandle<T>(tokio::task::JoinHandle<T>);

/// `tokio::task::JoinError`, which a `JoinHandle` yields when it is awaited.
/// Nothing here awaits one; the type is declared because `JoinHandle` names it.
#[verifier::external_type_specification]
#[verifier::external_body]
pub struct ExJoinError(tokio::task::JoinError);

/// Where a registered client stands in the life of its connection.
pub enum Link {
    /// Registered; no connection was ever attached.
    Registered,
    /// A live connection is attached; messages go to `outbound`.
    Connected { outbound: UnboundedSender<Message> },
    /// The connection is gone and eviction timer number `timer` is pending.
    /// `task` is the handle of the running timer once it has been deposited.
    Grace { timer: u64, task: Option<JoinHandle<()>> },
}

/// Mathematical content of a [`Link`]: the same three states, with the timer
/// number as an unbounded natural number.
pub enum LinkModel {
    Registered,
    Connected { outbound: UnboundedSender<Message> },
    Grace { timer: nat, task: Option<JoinHandle<()>> },
}

impl View for Link {
    type V = LinkModel;

    open spec fn view(&self) -> LinkModel {
        match *self {
            Link::Registered => LinkModel::Registered,
            Link::Connected { outbound } => LinkModel::Connected { outbound },
            Link::Grace { timer, task } => LinkModel::Grace { timer: timer as nat, task },
        }
    }
}

/// The connection state of a client without the handles that go with it.
#[derive(Clone, Copy, Debug, PartialEq, Eq, Structural)]
pub enum Presence {
    /// Registered and never connected.
    Registered,
    /// A live connection is attached.
    Connected,
    /// Disconnected, with an eviction timer pending.
    Grace,
}

impl LinkModel {
    /// The state without its handles.
    pub open spec fn presence(self) -> Presence {
        match self {
            LinkModel::Registered => Presence::Registered,
            LinkModel::Connected { .. } => Presence::Connected,
            LinkModel::Grace { .. } => Presence::Grace,
        }
    }
}

impl Link {
    /// The state without its handles.
    pub fn presence(&self) -> (presence: Presence)
        ensures
            presence == self@.presence(),
    {
        match self {
            Link::Registered => Presence::Registered,
            Link::Connected { .. } => Presence::Connected,
            Link::Grace { .. } => Presence::Grace,
        }
    }
}

/// Calls `UnboundedSender::send`, which hands `message` to the channel
/// without waiting. Returns whether the channel took it; it refuses only when
/// the receiving half is closed or dropped, which depends on the other end, so
/// nothing is claimed about the result. The call ends the process if the
/// channel's count of waiting messages overflows a `usize`.
#[verifier::external_body]
pub(crate) fn submit(outbound: &UnboundedSender<Message>, message: Message) -> (accepted: bool) {
    outbound.send(message).is_ok()
}

/// Calls `JoinHandle::abort`, which asks the runtime to cancel the task. The
/// call returns at once and has no result.
#[verifier::external_body]
pub(crate) fn cancel(task: &JoinHandle<()>) {
    task.abort()
}

} // verus!
