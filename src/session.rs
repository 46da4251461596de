use vstd::prelude::*;

verus! {

/// An account identifier: a 32-byte public key.
pub type AccountId = [u8; 32];

/// A session key: a 32-byte public key.
pub type SessionKey = [u8; 32];

/// Turns an account identifier into the session key with the same bytes.
pub struct SessionKeyConversion;

impl SessionKeyConversion {
    pub fn convert(a: AccountId) -> (r: SessionKey)
        ensures
            r == a,
    {
        a
    }
}

} // verus!
