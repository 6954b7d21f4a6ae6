//! Authorization of requests that change the `vod-meta` state: they bear a
//! token whose hash the server is configured with.

use vstd::prelude::*;

use crate::restreamer::api::{password_check, verify_password};

verus! {

/// Answer to a check of a bearer token.
#[derive(Clone, Copy, Debug, PartialEq, Eq, Structural)]
pub enum TokenCheck {
    /// The token matches the hash.
    Valid,
    /// The token does not match the hash.
    Invalid,
    /// The hash cannot be decoded: the server is misconfigured.
    Broken,
}

/// Answer to a check of the token `token` against the encoded hash `hash`.
pub open spec fn token_check(hash: Seq<char>, token: Seq<char>) -> TokenCheck {
    match password_check(hash, token) {
        Some(true) => TokenCheck::Valid,
        Some(false) => TokenCheck::Invalid,
        None => TokenCheck::Broken,
    }
}

/// Checks the bearer token of a request against the encoded hash of the
/// token that the server is configured with.
pub fn verify_auth_token(hash: &str, token: &str) -> (res: TokenCheck)
    ensures
        res == token_check(hash@, token@),
{
    match verify_password(hash, token) {
        Some(true) => TokenCheck::Valid,
        Some(false) => TokenCheck::Invalid,
        None => TokenCheck::Broken,
    }
}

} // verus!
