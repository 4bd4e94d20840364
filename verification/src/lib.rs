//! A presence and direct-messaging relay: a registry of named clients, the
//! lifecycle of each client's push connection, and point-to-point routing of
//! messages between connected clients.
//!
//! [`Registry`] is the executable registry; `model` says what each of its
//! operations does to the registry as contracts see it, and `laws` states
//! what follows for every sequence of operations.

pub mod credential;
pub mod error;
pub mod laws;
pub mod lifecycle;
pub mod link;
pub mod message;
pub mod model;
pub mod name;
pub mod registry;
pub mod router;
pub mod wellformed;

pub use crate::error::RelayError;
pub use crate::lifecycle::GRACE_PERIOD_SECS;
pub use crate::link::Presence;
pub use crate::message::Message;
pub use crate::registry::{Client, ClientInfo, Registry};
