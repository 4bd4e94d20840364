//! Credentials: their shape, and the generator that issues them.

use vstd::prelude::*;
use crate::model::padded;

verus! {

/// Number of characters in a credential.
pub const CREDENTIAL_LEN: usize = 32;

/// `c` is one of `0`..`9`, `a`..`f`.
pub open spec fn is_lower_hex(c: char) -> bool {
    ('0' as u32 <= c as u32 && c as u32 <= '9' as u32)
        || ('a' as u32 <= c as u32 && c as u32 <= 'f' as u32)
}

/// `s` is made of lowercase hexadecimal digits.
pub open spec fn is_lower_hex_string(s: Seq<char>) -> bool {
    forall|i: int| 0 <= i < s.len() ==> is_lower_hex(#[trigger] s[i])
}

/// The shape of every generated credential: 128 bits written as 32
/// lowercase hexadecimal digits, without separators.
pub open spec fn is_credential(s: Seq<char>) -> bool {
    s.len() == CREDENTIAL_LEN && is_lower_hex_string(s)
}

/// A generated credential followed by zeros is made of at least 32
/// lowercase hexadecimal digits.
pub proof fn lemma_padded_credential(generated: Seq<char>, credential: Seq<char>)
    requires
        is_credential(generated),
        exists|pad: nat| credential == padded(generated, pad),
    ensures
        is_lower_hex_string(credential),
        credential.len() >= CREDENTIAL_LEN,
{
    let pad = choose|pad: nat| credential == padded(generated, pad);
    assert forall|i: int| 0 <= i < credential.len() implies is_lower_hex(
        #[trigger] credential[i],
    ) by {
        if i < generated.len() {
            assert(credential[i] == generated[i]);
        } else {
            assert(credential[i] == '0');
        }
    }
}

/// Calls `uuid::Uuid::new_v4` and formats the identifier with
/// `Uuid::as_simple`. The value is drawn from the operating system's random
/// source, so the contract states only its shape, which holds of every
/// outcome: 32 lowercase hexadecimal digits. Nothing is claimed about two
/// calls returning different values. The call panics if the operating system
/// cannot supply random bytes.
#[verifier::external_body]
pub(crate) fn fresh_credential() -> (credential: String)
    ensures
        is_credential(credential@),
{
    uuid::Uuid::new_v4().as_simple().to_string()
}

} // verus!
