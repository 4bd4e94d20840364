//! The message that travels from a sender to a recipient's connection.

use vstd::prelude::*;

verus! {

/// A message on its way to a recipient's connection. It is never stored.
#[derive(Debug)]
pub struct Message {
    /// Display name of the sender, in the casing it was registered with.
    pub from: String,
    /// Payload, passed through untouched.
    pub body: String,
}

/// Mathematical content of a [`Message`].
pub struct MessageModel {
    pub from: Seq<char>,
    pub body: Seq<char>,
}

impl View for Message {
    type V = MessageModel;

    open spec fn view(&self) -> MessageModel {
        MessageModel { from: self.from@, body: self.body@ }
    }
}

} // verus!
