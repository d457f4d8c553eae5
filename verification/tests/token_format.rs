use budget_api::codec::push_dec64;
use budget_api::codec::push_hex32;
use budget_api::codec::scan_dec64;
use budget_api::codec::scan_hex32;
use budget_api::token::decode_claims;
use budget_api::token::decode_jwt;
use budget_api::token::sign_jwt;
use budget_api::token::Claims;

#[test]
fn decimal_rendering_is_canonical() {
    let mut out: Vec<u8> = Vec::new();
    push_dec64(0, &mut out);
    assert_eq!(out, b"0".to_vec());

    let mut out: Vec<u8> = Vec::new();
    push_dec64(1_700_086_400, &mut out);
    assert_eq!(out, b"1700086400".to_vec());

    let mut out: Vec<u8> = Vec::new();
    push_dec64(u64::MAX, &mut out);
    assert_eq!(out, b"18446744073709551615".to_vec());
}

#[test]
fn hex_rendering_is_fixed_width_lowercase() {
    let mut out: Vec<u8> = Vec::new();
    push_hex32(0xdeadbeef, &mut out);
    assert_eq!(out, b"000000000000000000000000deadbeef".to_vec());
    assert_eq!(out.len(), 32);
}

#[test]
fn scanners_accept_exactly_what_the_renderers_produce() {
    let mut out: Vec<u8> = Vec::new();
    push_hex32(0x0123456789abcdef0011223344556677, &mut out);
    assert_eq!(scan_hex32(&out, 0), Some(0x0123456789abcdef0011223344556677));

    let upper = b"000000000000000000000000DEADBEEF".to_vec();
    assert_eq!(scan_hex32(&upper, 0), None);

    let digits = b"90210".to_vec();
    assert_eq!(scan_dec64(&digits, 0, 5), Some(90210));
    let leading_zero = b"0123".to_vec();
    assert_eq!(scan_dec64(&leading_zero, 0, 4), None);
    let too_big = b"18446744073709551616".to_vec();
    assert_eq!(scan_dec64(&too_big, 0, 20), None);
    let not_digits = b"12a4".to_vec();
    assert_eq!(scan_dec64(&not_digits, 0, 4), None);
}

#[test]
fn tokens_carry_their_claims_and_a_real_signature() {
    let secret = b"another-secret".to_vec();
    let now: u64 = 1_700_000_000;
    let token = sign_jwt(7, now, &secret);

    // The token opens with the subject in hex, then the expiry in decimal.
    let text = String::from_utf8(token.clone()).unwrap();
    let mut parts = text.splitn(3, '.');
    assert_eq!(parts.next(), Some("00000000000000000000000000000007"));
    assert_eq!(parts.next(), Some("1700086400"));
    let sig = parts.next().unwrap();
    assert!(!sig.is_empty());

    assert_eq!(decode_claims(&token, &secret), Some(Claims { sub: 7, exp: now + 86_400 }));
    assert_eq!(decode_jwt(&token, &secret, now), Ok(7));
    assert_eq!(decode_jwt(&token, &secret, now + 86_399), Ok(7));
    assert!(decode_jwt(&token, &secret, now + 86_400).is_err());
    let other = b"a-different-secret".to_vec();
    assert!(decode_jwt(&token, &other, now).is_err());

    // A forged signature over the same claims must be rejected.
    let mut forged = text.as_bytes().to_vec();
    let last = forged.len() - 1;
    forged[last] = if forged[last] == b'A' { b'B' } else { b'A' };
    assert!(decode_jwt(&forged, &secret, now).is_err());
}
