//! Access guard: gates a protected operation by validating the bearer token
//! of its authorization header. No store is consulted: an access token's
//! standing is decided by the token, the key and the clock alone, which
//! keeps guarded requests independent of persistence and means a session's
//! revocation cannot reach tokens already issued.

use vstd::prelude::*;
use crate::claims::AccessClaims;
use crate::codec::{check_access, spec_check_access, KeyConfig, TokenCheck};
use crate::hexfmt::str_eq;
use crate::session::AuthError;
use vstd::string::StrSliceExecFns;

verus! {

/// The scheme label a credential-bearing header starts with.
pub open spec fn bearer_prefix() -> Seq<char> {
    seq!['B', 'e', 'a', 'r', 'e', 'r', ' ']
}

/// The token of a bearer header: everything after the scheme label, or
/// nothing when the label is absent.
pub open spec fn bearer_of(h: Seq<char>) -> Option<Seq<char>> {
    if h.len() >= 7 && h.subrange(0, 7) == bearer_prefix() {
        Some(h.skip(7))
    } else {
        None
    }
}

/// Splits the token out of a bearer header.
pub fn bearer_token(header: &str) -> (r: Option<&str>)
    ensures
        match r {
            Some(t) => bearer_of(header@) == Some(t@),
            None => bearer_of(header@) is None,
        },
{
    proof {
        reveal_strlit("Bearer ");
        assert("Bearer "@ =~= bearer_prefix());
    }
    let n = header.unicode_len();
    if n < 7 {
        return None;
    }
    let scheme = header.substring_char(0, 7);
    if !str_eq(scheme, "Bearer ") {
        return None;
    }
    let t = header.substring_char(7, n);
    proof {
        assert(t@ =~= header@.skip(7));
    }
    Some(t)
}

/// Gate of every protected operation: absent or unlabelled credentials are
/// refused as missing, a present token is validated against the access key
/// and the clock, and only a token in good standing hands its claims to the
/// caller.
pub fn authorize(header: Option<&str>, keys: &KeyConfig, now: u64) -> (r: Result<
    AccessClaims,
    AuthError,
>)
    ensures
        header is None ==> (r matches Err(e) && e == AuthError::MissingCredentials),
        header matches Some(h) ==> match bearer_of(h@) {
            Option::None => r matches Err(e) && e == AuthError::MissingCredentials,
            Option::Some(t) => match spec_check_access(t, keys.access_key@, now) {
                TokenCheck::Valid(c) => r matches Ok(cl) && cl@ == c,
                TokenCheck::Expired => r matches Err(e) && e == AuthError::InvalidToken,
                TokenCheck::Malformed => r matches Err(e) && e == AuthError::InvalidToken,
            },
        },
{
    match header {
        Option::None => Err(AuthError::MissingCredentials),
        Option::Some(h) => {
            match bearer_token(h) {
                Option::None => Err(AuthError::MissingCredentials),
                Option::Some(t) => {
                    match check_access(t, &keys.access_key, now) {
                        TokenCheck::Valid(c) => Ok(c),
                        TokenCheck::Expired => Err(AuthError::InvalidToken),
                        TokenCheck::Malformed => Err(AuthError::InvalidToken),
                    }
                },
            }
        },
    }
}

} // verus!
