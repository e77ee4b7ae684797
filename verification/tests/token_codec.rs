use finance_core::claims::Claims;
use finance_core::token::{issue, issue_claims, verify, check_owner_id, TokenError};

const SECRET: &[u8] = b"finance_secret_key";
const OWNER: &str = "0123456789abcdef01234567";

#[test]
fn issue_then_verify_returns_owner() {
    let owner = String::from(OWNER);
    let token = issue(&owner, 1000, 3600, SECRET);
    assert_eq!(verify(&token, SECRET, 1000), Ok(owner.clone()));
    assert_eq!(verify(&token, SECRET, 4599), Ok(owner));
}

#[test]
fn verify_after_ttl_is_expired() {
    let owner = String::from(OWNER);
    let token = issue(&owner, 1000, 3600, SECRET);
    assert_eq!(verify(&token, SECRET, 4600), Err(TokenError::Expired));
    assert_eq!(verify(&token, SECRET, u64::MAX), Err(TokenError::Expired));
}

#[test]
fn tampered_signature_is_malformed() {
    let owner = String::from(OWNER);
    let token = issue(&owner, 1000, 3600, SECRET);
    let mut chars: Vec<char> = token.chars().collect();
    let last = chars.len() - 1;
    // replace the final signature character with a different alphabet character
    chars[last] = if chars[last] == 'A' { 'B' } else { 'A' };
    let tampered: String = chars.into_iter().collect();
    assert_ne!(tampered, token);
    assert_eq!(verify(&tampered, SECRET, 1000), Err(TokenError::Malformed));
}

#[test]
fn wrong_secret_is_malformed() {
    let owner = String::from(OWNER);
    let token = issue(&owner, 1000, 3600, SECRET);
    assert_eq!(verify(&token, b"another_secret", 1000), Err(TokenError::Malformed));
}

#[test]
fn garbage_tokens_are_malformed() {
    assert_eq!(verify("", SECRET, 0), Err(TokenError::Malformed));
    assert_eq!(verify("abc", SECRET, 0), Err(TokenError::Malformed));
    assert_eq!(verify("a.b", SECRET, 0), Err(TokenError::Malformed));
    assert_eq!(verify("a.b.c.d", SECRET, 0), Err(TokenError::Malformed));
    assert_eq!(verify("\u{00e9}.b.c", SECRET, 0), Err(TokenError::Malformed));
}

#[test]
fn non_owner_subject_is_invalid() {
    let c = Claims { sub: String::from("not-an-owner-id"), exp: 9999 };
    let token = issue_claims(&c, SECRET);
    assert_eq!(verify(&token, SECRET, 1000), Err(TokenError::InvalidSubject));
}

#[test]
fn expired_wins_over_subject_check() {
    let c = Claims { sub: String::from("not-an-owner-id"), exp: 10 };
    let token = issue_claims(&c, SECRET);
    assert_eq!(verify(&token, SECRET, 1000), Err(TokenError::Expired));
}

#[test]
fn owner_id_shape() {
    assert!(check_owner_id(&String::from(OWNER)));
    assert!(check_owner_id(&String::from("0123456789ABCDEF01234567")));
    assert!(!check_owner_id(&String::from("0123456789abcdef0123456"))); // 23 digits
    assert!(!check_owner_id(&String::from("0123456789abcdef012345678"))); // 25 digits
    assert!(!check_owner_id(&String::from("0123456789abcdef0123456g")));
    assert!(!check_owner_id(&String::from("")));
}

#[test]
fn issued_token_is_a_standard_compact_token() {
    // the real jsonwebtoken decoder, given the same secret, accepts the
    // token, validates its signature, and reads the same claims back
    let owner = String::from(OWNER);
    let token = issue(&owner, 1000, 3600, SECRET);
    assert_eq!(token.split('.').count(), 3);
    let key = jsonwebtoken::DecodingKey::from_secret(SECRET);
    let mut validation = jsonwebtoken::Validation::new(jsonwebtoken::Algorithm::HS256);
    validation.validate_exp = false;
    let data = jsonwebtoken::decode::<serde_json::Value>(&token, &key, &validation).unwrap();
    assert_eq!(data.claims["sub"], OWNER);
    assert_eq!(data.claims["exp"], 4600);
    assert_eq!(data.header.alg, jsonwebtoken::Algorithm::HS256);
}
