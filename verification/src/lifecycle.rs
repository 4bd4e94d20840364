//! The life of a client's connection: attaching it, the grace period after
//! it closes, and eviction when the grace period runs out unanswered.

use vstd::prelude::*;
use crate::error::RelayError;
use crate::laws::law_grace_keeps_the_entry;
use crate::link::{cancel, Link, Presence};
use crate::message::Message;
use crate::registry::Registry;
use tokio::sync::mpsc::UnboundedSender;
use tokio::task::JoinHandle;

verus! {

/// Seconds that a client's entry outlives its connection.
pub const GRACE_PERIOD_SECS: u64 = 10;

impl Registry {
    /// Decides whether a connection may be opened with `credential`: it may
    /// exactly when a registered client holds the credential.
    pub fn authorize_upgrade(&self, credential: &str) -> (result: Result<(), RelayError>)
        ensures
            self@.wf(),
            result == self@.upgrade_outcome(credential@),
    {
        match self.position_of_credential(credential) {
            Some(_) => Ok(()),
            None => Err(RelayError::UpgradeRejected),
        }
    }

    /// Attaches a live connection to the client that holds `credential`.
    ///
    /// Succeeds exactly when the credential is registered. The client is then
    /// connected through `outbound`, whatever its state was, and a timer that
    /// was pending for it is withdrawn and its task cancelled: that timer can
    /// no longer evict the client. With an unknown credential nothing changes
    /// and the result is `UpgradeRejected`.
    pub fn attach(&mut self, credential: &str, outbound: UnboundedSender<Message>) -> (result:
        Result<(), RelayError>)
        ensures
            old(self)@.wf(),
            final(self)@.wf(),
            final(self)@ == old(self)@.attached(credential@, outbound),
            result == old(self)@.upgrade_outcome(credential@),
    {
        match self.install(credential, outbound) {
            Ok(Some(task)) => {
                cancel(&task);
                Ok(())
            },
            Ok(None) => Ok(()),
            Err(error) => Err(error),
        }
    }

    /// Records that the connection opened with `credential` has closed.
    ///
    /// A connected client enters its grace period: its connection is dropped
    /// and the number of a new eviction timer is returned. The caller starts
    /// that timer for `GRACE_PERIOD_SECS` seconds, deposits its task with
    /// [`Registry::arm`] and reports its running out with
    /// [`Registry::expire`]. For a client that is not connected, or an unknown
    /// credential, nothing changes and no timer is to be started.
    ///
    /// Timer numbers are never handed out twice, so the caller must not have
    /// used them up; [`Registry::disconnect`] does without this condition.
    pub fn detach(&mut self, credential: &str) -> (ticket: Option<u64>)
        requires
            old(self)@.timers < u64::MAX,
        ensures
            old(self)@.wf(),
            final(self)@.wf(),
            final(self)@ == old(self)@.detached(credential@),
            match ticket {
                Some(timer) => old(self)@.detach_ticket(credential@) == Some(timer as nat),
                None => old(self)@.detach_ticket(credential@).is_none(),
            },
            final(self)@.keeps_identity_of(old(self)@, credential@),
    {
        let found = self.position_of_credential(credential);
        proof {
            law_grace_keeps_the_entry(self@, credential@);
        }
        match found {
            None => None,
            Some(i) => match self.client_at(i).presence() {
                Presence::Connected => {
                    let timer = self.timers();
                    let _ = self.set_link(i, Link::Grace { timer, task: None }, timer + 1);
                    Some(timer)
                },
                _ => None,
            },
        }
    }

    /// Records that the connection opened with `credential` has closed, for
    /// callers that do not know how many timers were handed out.
    ///
    /// While timer numbers are left this is [`Registry::detach`]. Once they
    /// are used up, a new timer could not be told from an old one: the
    /// registry stays as it is and no timer is to be started. Either way the
    /// entry is still there afterwards, with its name and its credential.
    pub fn disconnect(&mut self, credential: &str) -> (ticket: Option<u64>)
        ensures
            old(self)@.wf(),
            final(self)@.wf(),
            final(self)@ == (if old(self)@.timers < u64::MAX {
                old(self)@.detached(credential@)
            } else {
                old(self)@
            }),
            match ticket {
                Some(timer) => old(self)@.timers < u64::MAX && old(self)@.detach_ticket(
                    credential@,
                ) == Some(timer as nat),
                None => old(self)@.timers >= u64::MAX || old(self)@.detach_ticket(
                    credential@,
                ).is_none(),
            },
            final(self)@.keeps_identity_of(old(self)@, credential@),
    {
        if self.timers() < u64::MAX {
            self.detach(credential)
        } else {
            proof {
                self@.lemma_keeps_own_identity(credential@);
            }
            None
        }
    }

    /// Deposits the task of eviction timer number `timer`, started for the
    /// client that holds `credential`.
    ///
    /// The task is kept with the client if that timer is the pending one and
    /// no task was deposited for it. Otherwise the timer has been cancelled
    /// or superseded since its number was handed out: the registry does not
    /// change and the task is cancelled.
    pub fn arm(&mut self, credential: &str, timer: u64, task: JoinHandle<()>)
        ensures
            old(self)@.wf(),
            final(self)@.wf(),
            final(self)@ == old(self)@.armed(credential@, timer as nat, task),
    {
        match self.deposit(credential, timer, task) {
            Some(refused) => {
                cancel(&refused);
            },
            None => {},
        }
    }

    /// Reports that eviction timer number `timer`, started for the client
    /// that holds `credential`, has run out.
    ///
    /// The entry is deleted, and `true` returned, exactly when that timer is
    /// still the pending one. A timer that was cancelled by a new connection,
    /// or superseded by a later one, changes nothing.
    pub fn expire(&mut self, credential: &str, timer: u64) -> (evicted: bool)
        ensures
            old(self)@.wf(),
            final(self)@.wf(),
            final(self)@ == old(self)@.expired(credential@, timer as nat),
            evicted == old(self)@.is_pending(credential@, timer as nat),
    {
        match self.position_of_credential(credential) {
            None => false,
            Some(i) => {
                let pending = match self.client_at(i).link() {
                    Link::Grace { timer: pending, .. } => *pending == timer,
                    _ => false,
                };
                if pending {
                    self.delete(i);
                }
                pending
            },
        }
    }

    /// Installs `outbound` as the connection of the client that holds
    /// `credential` and hands back the task that is to be cancelled: that of
    /// the timer that was pending for the client, if one was deposited.
    fn install(&mut self, credential: &str, outbound: UnboundedSender<Message>) -> (result: Result<
        Option<JoinHandle<()>>,
        RelayError,
    >)
        ensures
            old(self)@.wf(),
            final(self)@.wf(),
            final(self)@ == old(self)@.attached(credential@, outbound),
            result == (match old(self)@.upgrade_outcome(credential@) {
                Ok(_) => Ok::<Option<JoinHandle<()>>, RelayError>(
                    old(self)@.cancelled_by_attach(credential@),
                ),
                Err(error) => Err::<Option<JoinHandle<()>>, RelayError>(error),
            }),
    {
        match self.position_of_credential(credential) {
            None => Err(RelayError::UpgradeRejected),
            Some(i) => {
                let timers = self.timers();
                match self.set_link(i, Link::Connected { outbound }, timers) {
                    Link::Grace { timer: _, task } => Ok(task),
                    _ => Ok(None),
                }
            },
        }
    }

    /// Keeps `task` with the client that holds `credential` if timer number
    /// `timer` is the pending one and has no task yet; otherwise hands the
    /// task back, to be cancelled.
    fn deposit(&mut self, credential: &str, timer: u64, task: JoinHandle<()>) -> (refused: Option<
        JoinHandle<()>,
    >)
        ensures
            old(self)@.wf(),
            final(self)@.wf(),
            final(self)@ == old(self)@.armed(credential@, timer as nat, task),
            refused == (if old(self)@.awaits_task(credential@, timer as nat) {
                None
            } else {
                Some(task)
            }),
    {
        match self.position_of_credential(credential) {
            None => Some(task),
            Some(i) => {
                let awaited = match self.client_at(i).link() {
                    Link::Grace { timer: pending, task: None } => *pending == timer,
                    _ => false,
                };
                if awaited {
                    let timers = self.timers();
                    let _ = self.set_link(i, Link::Grace { timer, task: Some(task) }, timers);
                    None
                } else {
                    Some(task)
                }
            },
        }
    }
}

} // verus!
