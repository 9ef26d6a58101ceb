//! The claims carried by an authentication token.

use vstd::prelude::*;

use crate::domain::Id;

verus! {

/// How long a sign-in token stays valid: one day of seconds.
pub const TOKEN_LIFETIME_SECS: u64 = 60 * 60 * 24;

/// The claims of an authentication token: who, and until when.
#[derive(Clone, Copy, PartialEq, Eq, Structural, Debug)]
pub struct Auth {
    pub id: Id,
    pub exp: u64,
}

/// The expiry moment of a token issued at `now_secs`.
pub fn token_expiry(now_secs: u64) -> (r: u64)
    requires
        now_secs + TOKEN_LIFETIME_SECS <= u64::MAX,
    ensures
        r == now_secs + TOKEN_LIFETIME_SECS,
{
    now_secs + TOKEN_LIFETIME_SECS
}

} // verus!
