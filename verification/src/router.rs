//! Point-to-point routing of a message from a sender to a connected
//! recipient.

use vstd::prelude::*;
use crate::error::RelayError;
use crate::link::{submit, Link};
use crate::message::Message;
use crate::registry::Registry;
use tokio::sync::mpsc::UnboundedSender;

verus! {

impl Registry {
    /// Decides where a message goes and what it says, without sending it.
    ///
    /// The sender must hold a registered credential, else `Unauthorized`; the
    /// recipient must be registered under `recipient`, compared without
    /// regard to case, else `RecipientNotFound`; the recipient must be
    /// connected, else `RecipientOffline`. On success the result is the
    /// recipient's outbound channel and the message to hand to it, which
    /// carries the sender's display name and `body` untouched.
    pub fn plan_route(&self, sender: &str, recipient: &str, body: String) -> (plan: Result<
        (&UnboundedSender<Message>, Message),
        RelayError,
    >)
        ensures
            self@.wf(),
            match plan {
                Ok((outbound, message)) => {
                    &&& self@.route_outcome(sender@, recipient@) == Ok::<(), RelayError>(())
                    &&& self@.route_target(recipient@) == Some(*outbound)
                    &&& message@ == self@.routed_message(sender@, body@)
                },
                Err(error) => self@.route_outcome(sender@, recipient@) == Err::<(), RelayError>(
                    error,
                ),
            },
    {
        let from = match self.position_of_credential(sender) {
            None => {
                return Err(RelayError::Unauthorized);
            },
            Some(i) => self.client_at(i).name().to_owned(),
        };
        match self.position_of_name(recipient) {
            None => Err(RelayError::RecipientNotFound),
            Some(j) => match self.client_at(j).link() {
                Link::Connected { outbound } => Ok((outbound, Message { from, body })),
                _ => Err(RelayError::RecipientOffline),
            },
        }
    }

    /// Routes `body` from the client that holds the credential `sender` to
    /// the client that goes by `recipient`.
    ///
    /// The outcome is that of [`Registry::plan_route`]. On success the
    /// message has been handed to the recipient's outbound channel; whether
    /// the channel took it does not change the outcome, so a message to a
    /// connection that closed a moment ago is lost without an error.
    pub fn route(&self, sender: &str, recipient: &str, body: String) -> (outcome: Result<
        (),
        RelayError,
    >)
        ensures
            self@.wf(),
            outcome == self@.route_outcome(sender@, recipient@),
    {
        match self.plan_route(sender, recipient, body) {
            Ok((outbound, message)) => {
                let _ = submit(outbound, message);
                Ok(())
            },
            Err(error) => Err(error),
        }
    }
}

} // verus!
