//! Session tokens: a signed, time-boxed credential binding a user
//! identifier.
//!
//! A token is `<sub>.<exp>.<sig>`: the user identifier as 32 hex digits,
//! the expiry as canonical decimal seconds since the epoch, and an
//! HMAC-SHA256 signature of everything before the second separator.  The
//! framing, parsing and expiry check are verified; only the two HMAC
//! calls are trusted.

use vstd::prelude::*;
use vstd::slice::slice_subrange;

use crate::codec::DOT;
use crate::codec::lemma_dec_round_trip;
use crate::codec::lemma_dec_shape;
use crate::codec::lemma_hex_no_dot;
use crate::codec::lemma_hex_round_trip;
use crate::codec::parse_dec64;
use crate::codec::parse_hex32;
use crate::codec::push_dec64;
use crate::codec::push_hex32;
use crate::codec::scan_dec64;
use crate::codec::scan_hex32;
use crate::codec::u128_hex;
use crate::codec::u64_dec;
use crate::types::ApiError;

verus! {

/// Tokens expire this many seconds after issue.
pub const TOKEN_TTL_SECONDS: u64 = 86400;

/// The claims a token binds: the subject (a user identifier) and the
/// expiry time in seconds since the epoch.
#[derive(Clone, Copy, Debug, PartialEq, Eq, Structural)]
pub struct Claims {
    pub sub: u128,
    pub exp: u64,
}

/// The base64 form of the HMAC-SHA256 signature of `msg` under `secret`,
/// as jsonwebtoken's signer produces it.
pub uninterp spec fn hmac_sig(msg: Seq<u8>, secret: Seq<u8>) -> Seq<u8>;

/// Whether jsonwebtoken's verifier accepts `sig` as a signature of `msg`
/// under `secret`.
pub uninterp spec fn hmac_ok(sig: Seq<u8>, msg: Seq<u8>, secret: Seq<u8>) -> bool;

/// Relies on jsonwebtoken::crypto::sign with HS256 and a secret key: the
/// signature is a function of message and secret alone, and
/// jsonwebtoken::crypto::verify accepts it for that message and secret
/// (the verifier recomputes the same MAC and compares).  HMAC signing
/// with a secret key cannot fail; the error arm is unreachable and only
/// keeps the body total.
#[verifier::external_body]
fn hmac_sign(msg: &[u8], secret: &[u8]) -> (r: Vec<u8>)
    ensures
        r@ == hmac_sig(msg@, secret@),
        hmac_ok(r@, msg@, secret@),
{
    let key = jsonwebtoken::EncodingKey::from_secret(secret);
    match jsonwebtoken::crypto::sign(msg, &key, jsonwebtoken::Algorithm::HS256) {
        Ok(s) => s.into_bytes(),
        Err(_) => Vec::new(),
    }
}

/// Relies on jsonwebtoken::crypto::verify with HS256 and a secret key:
/// the outcome is a function of signature, message and secret alone; a
/// signature that is not valid base64 (or not UTF-8) is a mismatch,
/// never an abort.
#[verifier::external_body]
fn hmac_verify(sig: &[u8], msg: &[u8], secret: &[u8]) -> (r: bool)
    ensures
        r == hmac_ok(sig@, msg@, secret@),
{
    let key = jsonwebtoken::DecodingKey::from_secret(secret);
    match core::str::from_utf8(sig) {
        Ok(s) => match jsonwebtoken::crypto::verify(s, msg, &key, jsonwebtoken::Algorithm::HS256) {
            Ok(b) => b,
            Err(_) => false,
        },
        Err(_) => false,
    }
}

/// The byte form of the claims: `<sub as 32 hex digits>.<exp as decimal>`.
pub open spec fn claims_bytes(sub: u128, exp: u64) -> Seq<u8> {
    u128_hex(sub) + seq![DOT] + u64_dec(exp)
}

/// The byte form of a whole token: the claims, a separator, and the
/// signature of the claims.
pub open spec fn token_bytes(sub: u128, exp: u64, secret: Seq<u8>) -> Seq<u8> {
    claims_bytes(sub, exp) + seq![DOT] + hmac_sig(claims_bytes(sub, exp), secret)
}

/// The first separator position at or after `from`, if any.
pub open spec fn find_dot_from(s: Seq<u8>, from: int) -> Option<int>
    decreases s.len() - from when 0 <= from
{
    if from >= s.len() {
        None
    } else if s[from] == DOT {
        Some(from)
    } else {
        find_dot_from(s, from + 1)
    }
}

/// Strict parse of a token into subject, expiry, the signed part, and
/// the signature.
pub open spec fn parse_token(s: Seq<u8>) -> Option<(u128, u64, Seq<u8>, Seq<u8>)> {
    if s.len() < 33 || s[32] != DOT {
        None
    } else {
        match parse_hex32(s.subrange(0, 32)) {
            None => None,
            Some(sub) => match find_dot_from(s, 33) {
                None => None,
                Some(j) => match parse_dec64(s.subrange(33, j)) {
                    None => None,
                    Some(exp) => Some((sub, exp, s.subrange(0, j), s.subrange(j + 1, s.len() as int))),
                },
            },
        }
    }
}

/// What validating a token at time `now` yields: the subject, exactly
/// when the token parses, its signature verifies, and it is not yet
/// expired; a credential error otherwise.
pub open spec fn decode_token_spec(s: Seq<u8>, secret: Seq<u8>, now: u64) -> Result<u128, ApiError> {
    match parse_token(s) {
        None => Err(ApiError::Unauthorized),
        Some((sub, exp, signed, sig)) => if hmac_ok(sig, signed, secret) && now < exp {
            Ok(sub)
        } else {
            Err(ApiError::Unauthorized)
        },
    }
}

/// If no separator occurs in `[from, j)` and one stands at `j`, the scan
/// finds `j`.
proof fn lemma_find_dot(s: Seq<u8>, from: int, j: int)
    requires
        0 <= from <= j < s.len(),
        forall|k: int| from <= k < j ==> s[k] != DOT,
        s[j] == DOT,
    ensures
        find_dot_from(s, from) == Some(j),
    decreases j - from,
{
    if from < j {
        lemma_find_dot(s, from + 1, j);
    }
}

/// If no separator occurs at or after `from`, the scan finds none.
proof fn lemma_find_no_dot(s: Seq<u8>, from: int)
    requires
        0 <= from,
        forall|k: int| from <= k < s.len() ==> s[k] != DOT,
    ensures
        find_dot_from(s, from) is None,
    decreases s.len() - from,
{
    if from < s.len() {
        lemma_find_no_dot(s, from + 1);
    }
}

/// Issues a token for `sub` at time `now`: it carries the expiry
/// `now + TOKEN_TTL_SECONDS`, and every validation before that expiry,
/// with the same secret, accepts it and yields `sub` back.
pub fn sign_jwt(sub: u128, now: u64, secret: &Vec<u8>) -> (token: Vec<u8>)
    requires
        now + TOKEN_TTL_SECONDS <= u64::MAX,
    ensures
        token@ == token_bytes(sub, (now + TOKEN_TTL_SECONDS) as u64, secret@),
        forall|t: u64| t < now + TOKEN_TTL_SECONDS ==> decode_token_spec(token@, secret@, t) == Result::<u128, ApiError>::Ok(sub),
{
    let exp: u64 = now + TOKEN_TTL_SECONDS;
    let mut claims: Vec<u8> = Vec::new();
    push_hex32(sub, &mut claims);
    claims.push(DOT);
    push_dec64(exp, &mut claims);
    assert(claims@ =~= claims_bytes(sub, exp));

    let sig = hmac_sign(claims.as_slice(), secret.as_slice());
    let mut token = claims;
    token.push(DOT);
    let mut i: usize = 0;
    let n = sig.len();
    while i < n
        invariant
            0 <= i <= n == sig@.len(),
            token@ == claims_bytes(sub, exp) + seq![DOT] + sig@.take(i as int),
        decreases n - i,
    {
        let b = sig[i];
        token.push(b);
        assert(token@ =~= claims_bytes(sub, exp) + seq![DOT] + sig@.take(i + 1));
        i += 1;
    }
    assert(sig@.take(n as int) =~= sig@);
    assert(token@ =~= token_bytes(sub, exp, secret@));

    proof {
        lemma_token_decodes(sub, exp, secret@);
    }
    token
}

/// A well-formed token parses back into exactly the claims and the
/// signature it was built from.
pub proof fn lemma_parse_token_bytes(sub: u128, exp: u64, secret: Seq<u8>)
    ensures
        parse_token(token_bytes(sub, exp, secret)) == Some(
            (
                sub,
                exp,
                claims_bytes(sub, exp),
                hmac_sig(claims_bytes(sub, exp), secret),
            ),
        ),
{
    let s = token_bytes(sub, exp, secret);
    let c = claims_bytes(sub, exp);
    let j = 33 + u64_dec(exp).len() as int;
    lemma_hex_no_dot(sub);
    lemma_hex_round_trip(sub);
    lemma_dec_round_trip(exp);
    lemma_dec_shape(exp);
    assert(s[32] == DOT);
    assert(s.subrange(0, 32) =~= u128_hex(sub));
    assert(forall|k: int| 33 <= k < j ==> s[k] == u64_dec(exp)[k - 33]);
    assert(s[j] == DOT);
    lemma_find_dot(s, 33, j);
    assert(s.subrange(33, j) =~= u64_dec(exp));
    assert(s.subrange(0, j) =~= c);
    assert(s.subrange(j + 1, s.len() as int) =~= hmac_sig(c, secret));
}

/// A well-formed, correctly signed token validates to its subject at
/// every time before its expiry.
proof fn lemma_token_decodes(sub: u128, exp: u64, secret: Seq<u8>)
    ensures
        forall|t: u64| t < exp && hmac_ok(hmac_sig(claims_bytes(sub, exp), secret), claims_bytes(sub, exp), secret)
            ==> decode_token_spec(token_bytes(sub, exp, secret), secret, t) == Result::<u128, ApiError>::Ok(sub),
{
    lemma_parse_token_bytes(sub, exp, secret);
}

/// What inspecting a token yields, expiry aside: its claims, exactly
/// when it parses and its signature verifies.
pub open spec fn decode_claims_spec(s: Seq<u8>, secret: Seq<u8>) -> Option<Claims> {
    match parse_token(s) {
        None => None,
        Some((sub, exp, signed, sig)) => if hmac_ok(sig, signed, secret) {
            Some(Claims { sub, exp })
        } else {
            None
        },
    }
}

/// Parses a token and verifies its signature, yielding the claims it
/// binds; the expiry is reported, not judged.
pub fn decode_claims(token: &Vec<u8>, secret: &Vec<u8>) -> (r: Option<Claims>)
    ensures
        r == decode_claims_spec(token@, secret@),
{
    let n = token.len();
    if n < 33 {
        return None;
    }
    if token[32] != DOT {
        return None;
    }
    let sub = match scan_hex32(token, 0) {
        Some(sub) => sub,
        None => {
            assert(token@.subrange(0, 32) =~= token@.subrange(0int, 32int));
            return None;
        },
    };
    assert(token@.subrange(0, 32) =~= token@.subrange(0int, 32int));

    let mut j: usize = 33;
    while j < n && token[j] != DOT
        invariant
            33 <= j <= n == token@.len(),
            forall|k: int| 33 <= k < j ==> token@[k] != DOT,
        decreases n - j,
    {
        j += 1;
    }
    if j == n {
        proof {
            lemma_find_no_dot(token@, 33);
        }
        return None;
    }
    proof {
        lemma_find_dot(token@, 33, j as int);
    }
    let exp = match scan_dec64(token, 33, j) {
        Some(exp) => exp,
        None => {
            return None;
        },
    };

    let signed = slice_subrange(token.as_slice(), 0, j);
    let sig = slice_subrange(token.as_slice(), j + 1, n);
    if hmac_verify(sig, signed, secret.as_slice()) {
        Some(Claims { sub, exp })
    } else {
        None
    }
}

/// Validates a token at time `now`: verifies the signature and the
/// expiry, and returns the embedded user identifier, or a credential
/// error for anything malformed, forged, or expired.
pub fn decode_jwt(token: &Vec<u8>, secret: &Vec<u8>, now: u64) -> (r: Result<u128, ApiError>)
    ensures
        r == decode_token_spec(token@, secret@, now),
{
    match decode_claims(token, secret) {
        Some(c) => if now < c.exp {
            Ok(c.sub)
        } else {
            Err(ApiError::Unauthorized)
        },
        None => Err(ApiError::Unauthorized),
    }
}

} // verus!
