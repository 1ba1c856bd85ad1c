//! The token service end to end: signing, verifying, expiry, wrong secrets,
//! the canonical claims JSON, and interoperability with the jsonwebtoken
//! crate's own decoder.

use auth_core::decimal::i64_to_dec;
use auth_core::decimal::u64_to_dec;
use auth_core::error::AppError;
use auth_core::jwt::claims_to_json;
use auth_core::jwt::parse_claims;
use auth_core::jwt::sign;
use auth_core::jwt::verify;
use auth_core::jwt::Claims;
use auth_core::jwt::TOKEN_LIFETIME_SECS;

const SECRET: &str = "a-test-signing-secret";
const NOW: i64 = 1_700_000_000;

#[test]
fn sign_then_verify_returns_signed_claims() {
    let token = sign(42, NOW, SECRET);
    let claims = verify(&token, NOW + 1, SECRET).expect("fresh token verifies");
    assert_eq!(claims.sub, 42);
    assert_eq!(claims.iat, NOW);
    assert_eq!(claims.exp, NOW + TOKEN_LIFETIME_SECS);
}

#[test]
fn verify_fails_under_other_secret() {
    let token = sign(7, NOW, SECRET);
    let r = verify(&token, NOW + 1, "some-other-secret");
    assert_eq!(r, Err(AppError::Unauthenticated));
}

#[test]
fn verify_fails_at_and_after_expiry() {
    let token = sign(7, NOW, SECRET);
    assert!(verify(&token, NOW + TOKEN_LIFETIME_SECS - 1, SECRET).is_ok());
    assert_eq!(
        verify(&token, NOW + TOKEN_LIFETIME_SECS, SECRET),
        Err(AppError::Unauthenticated)
    );
    assert_eq!(
        verify(&token, NOW + TOKEN_LIFETIME_SECS + 1, SECRET),
        Err(AppError::Unauthenticated)
    );
}

#[test]
fn verify_rejects_malformed_tokens() {
    assert!(verify("", NOW, SECRET).is_err());
    assert!(verify("justonepart", NOW, SECRET).is_err());
    assert!(verify("two.parts", NOW, SECRET).is_err());
    assert!(verify("t.o.o.many", NOW, SECRET).is_err());
    assert!(verify("..", NOW, SECRET).is_err());
}

#[test]
fn verify_rejects_tampered_payload() {
    let token = sign(42, NOW, SECRET);
    let mut parts: Vec<&str> = token.split('.').collect();
    assert_eq!(parts.len(), 3);
    // Another subject's payload under the original signature.
    let other = sign(43, NOW, SECRET);
    let other_parts: Vec<&str> = other.split('.').collect();
    let forged = format!("{}.{}.{}", parts[0], other_parts[1], parts[2]);
    assert!(verify(&forged, NOW + 1, SECRET).is_err());
    // A truncated signature.
    let sig = parts[2];
    parts[2] = &sig[..sig.len() - 1];
    let clipped = parts.join(".");
    assert!(verify(&clipped, NOW + 1, SECRET).is_err());
}

#[test]
fn token_carries_the_standard_header() {
    // base64url of `{"typ":"JWT","alg":"HS256"}`: wrong if the encoder
    // handed its input back unchanged.
    let token = sign(1, NOW, SECRET);
    assert!(token.starts_with("eyJ0eXAiOiJKV1QiLCJhbGciOiJIUzI1NiJ9."));
}

#[test]
fn token_decodes_with_jsonwebtoken_itself() {
    let token = sign(42, NOW, SECRET);
    let key = jsonwebtoken::DecodingKey::from_secret(SECRET.as_bytes());
    let mut validation = jsonwebtoken::Validation::new(jsonwebtoken::Algorithm::HS256);
    validation.validate_exp = false;
    let data = jsonwebtoken::decode::<serde_json::Value>(&token, &key, &validation)
        .expect("jsonwebtoken accepts the token");
    assert_eq!(
        data.claims.get("sub").and_then(|v| v.as_str()),
        Some("42")
    );
    assert_eq!(data.claims.get("iat").and_then(|v| v.as_i64()), Some(NOW));
    assert_eq!(
        data.claims.get("exp").and_then(|v| v.as_i64()),
        Some(NOW + TOKEN_LIFETIME_SECS)
    );
}

#[test]
fn jsonwebtoken_rejects_the_token_under_other_secret() {
    let token = sign(42, NOW, SECRET);
    let key = jsonwebtoken::DecodingKey::from_secret(b"some-other-secret");
    let mut validation = jsonwebtoken::Validation::new(jsonwebtoken::Algorithm::HS256);
    validation.validate_exp = false;
    assert!(jsonwebtoken::decode::<serde_json::Value>(&token, &key, &validation).is_err());
}

#[test]
fn claims_json_roundtrip() {
    let c = Claims { sub: 0, iat: -1, exp: i64::MAX };
    let json = claims_to_json(&c);
    assert_eq!(json, "{\"sub\":\"0\",\"iat\":-1,\"exp\":9223372036854775807}");
    let back = parse_claims(&json).expect("canonical json parses");
    assert_eq!(back, c);
}

#[test]
fn claims_parser_accepts_only_the_canonical_form() {
    assert_eq!(
        parse_claims("{\"sub\":\"5\",\"iat\":10,\"exp\":20}"),
        Some(Claims { sub: 5, iat: 10, exp: 20 })
    );
    // leading zero
    assert_eq!(parse_claims("{\"sub\":\"05\",\"iat\":10,\"exp\":20}"), None);
    // negative zero
    assert_eq!(parse_claims("{\"sub\":\"5\",\"iat\":-0,\"exp\":20}"), None);
    // whitespace
    assert_eq!(parse_claims("{\"sub\": \"5\",\"iat\":10,\"exp\":20}"), None);
    // reordered fields
    assert_eq!(parse_claims("{\"iat\":10,\"sub\":\"5\",\"exp\":20}"), None);
    // trailing content
    assert_eq!(parse_claims("{\"sub\":\"5\",\"iat\":10,\"exp\":20} "), None);
    // subject beyond 64 bits
    assert_eq!(
        parse_claims("{\"sub\":\"18446744073709551616\",\"iat\":10,\"exp\":20}"),
        None
    );
    // largest subject
    assert_eq!(
        parse_claims("{\"sub\":\"18446744073709551615\",\"iat\":10,\"exp\":20}"),
        Some(Claims { sub: u64::MAX, iat: 10, exp: 20 })
    );
}

#[test]
fn tokens_carry_negative_timestamps_too() {
    let token = sign(5, -100, SECRET);
    let claims = verify(&token, -50, SECRET).expect("verifies before expiry");
    assert_eq!(claims.iat, -100);
    assert_eq!(claims.exp, -100 + TOKEN_LIFETIME_SECS);
}

#[test]
fn decimal_parsing_inverts_rendering() {
    let values: Vec<u64> = vec![0, 1, 9, 10, 99, 100, 12345678901234567, u64::MAX];
    for v in values {
        let s = u64_to_dec(v);
        let chars: Vec<char> = s.chars().collect();
        assert_eq!(auth_core::decimal::parse_u64(&chars, 0), Some((v, chars.len())));
    }
    let signed: Vec<i64> = vec![0, -1, 1, i64::MIN, i64::MAX, -42];
    for v in signed {
        let s = i64_to_dec(v);
        let chars: Vec<char> = s.chars().collect();
        assert_eq!(auth_core::decimal::parse_i64(&chars, 0), Some((v, chars.len())));
    }
    // A run that leaves the 64-bit range is refused.
    let big: Vec<char> = "18446744073709551616".chars().collect();
    assert_eq!(auth_core::decimal::parse_u64(&big, 0), None);
    // A leading zero is not canonical.
    let padded: Vec<char> = "007".chars().collect();
    assert_eq!(auth_core::decimal::parse_u64(&padded, 0), None);
}

#[test]
fn decimal_rendering_exact_values() {
    assert_eq!(u64_to_dec(0), "0");
    assert_eq!(u64_to_dec(10), "10");
    assert_eq!(u64_to_dec(u64::MAX), "18446744073709551615");
    assert_eq!(i64_to_dec(0), "0");
    assert_eq!(i64_to_dec(-7), "-7");
    assert_eq!(i64_to_dec(i64::MIN), "-9223372036854775808");
    assert_eq!(i64_to_dec(i64::MAX), "9223372036854775807");
}
