//! The authentication middleware decision: a request either carries a
//! well-formed `Bearer` credential that validates, and is handed on with
//! the caller's identity bound, or it is rejected with 401 before any
//! handler — and so before any store access — runs.

use vstd::prelude::*;
use vstd::slice::slice_subrange;
use vstd::slice::slice_to_vec;

use crate::token::decode_jwt;
use crate::token::decode_token_spec;
use crate::types::ApiError;

verus! {

/// The bytes of the required `Bearer ` prefix.
pub open spec fn bearer_prefix() -> Seq<u8> {
    seq![66u8, 101u8, 97u8, 114u8, 101u8, 114u8, 32u8]
}

/// The token carried by an Authorization header value: everything after
/// the `Bearer ` prefix, which must be present exactly once.
pub open spec fn bearer_token(h: Seq<u8>) -> Option<Seq<u8>> {
    if h.len() >= 7 && h.subrange(0, 7) == bearer_prefix() {
        Some(h.subrange(7, h.len() as int))
    } else {
        None
    }
}

/// The middleware's two-way decision for one request: the authenticated
/// user, or a rejection.  A missing header, a header without the
/// `Bearer ` form, and a token that fails validation all reject.
pub open spec fn authorize_spec(header: Option<Seq<u8>>, secret: Seq<u8>, now: u64) -> Result<
    u128,
    ApiError,
> {
    match header {
        None => Err(ApiError::Unauthorized),
        Some(h) => match bearer_token(h) {
            None => Err(ApiError::Unauthorized),
            Some(tok) => decode_token_spec(tok, secret, now),
        },
    }
}

/// The factory the protected routes are wrapped with; it closes over the
/// signing secret.
pub struct Auth;

impl Auth {
    /// Builds the per-request middleware around the signing secret.
    pub fn new_transform(&self, secret: Vec<u8>) -> (m: AuthMiddleware)
        ensures
            m.secret@ == secret@,
    {
        AuthMiddleware { secret }
    }
}

/// The per-request authentication step.
pub struct AuthMiddleware {
    pub secret: Vec<u8>,
}

impl AuthMiddleware {
    /// Decides one request from its Authorization header alone: it takes
    /// no store handle, so a rejected request can never reach
    /// persistence.  Returns the authenticated user identifier, or the
    /// credential error the route answers 401 with.
    pub fn call(&self, header: Option<&Vec<u8>>, now: u64) -> (r: Result<u128, ApiError>)
        ensures
            r == authorize_spec(
                match header {
                    Some(h) => Some(h@),
                    None => None,
                },
                self.secret@,
                now,
            ),
            r is Err ==> r == Err::<u128, ApiError>(ApiError::Unauthorized),
    {
        let h = match header {
            Some(h) => h,
            None => {
                return Err(ApiError::Unauthorized);
            },
        };
        let n = h.len();
        if n < 7 {
            return Err(ApiError::Unauthorized);
        }
        if h[0] != 66 || h[1] != 101 || h[2] != 97 || h[3] != 114 || h[4] != 101 || h[5] != 114
            || h[6] != 32 {
            proof {
                let p = h@.subrange(0, 7);
                assert(p != bearer_prefix()) by {
                    if p == bearer_prefix() {
                        assert(h@[0] == p[0] && h@[1] == p[1] && h@[2] == p[2] && h@[3] == p[3]
                            && h@[4] == p[4] && h@[5] == p[5] && h@[6] == p[6]);
                    }
                }
            }
            return Err(ApiError::Unauthorized);
        }
        proof {
            assert(h@.subrange(0, 7) =~= bearer_prefix());
        }
        let tok = slice_to_vec(slice_subrange(h.as_slice(), 7, n));
        assert(tok@ == h@.subrange(7, n as int));
        decode_jwt(&tok, &self.secret, now)
    }
}

} // verus!
