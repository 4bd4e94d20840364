//! The outcomes that turn a request down.

use vstd::prelude::*;

verus! {

/// Why a request to the relay was turned down. Every variant is an expected
/// outcome that the caller can recover from.
#[derive(Clone, Copy, Debug, PartialEq, Eq, Structural)]
pub enum RelayError {
    /// The name is already registered, compared without regard to case.
    NameConflict,
    /// The sender's credential is not recognized.
    Unauthorized,
    /// No client is registered under the recipient's name.
    RecipientNotFound,
    /// The recipient is registered but has no live connection.
    RecipientOffline,
    /// A connection was requested with a credential that is not recognized.
    UpgradeRejected,
}

} // verus!
