use finance_core::guard::{authenticate, AuthError};
use finance_core::token::issue;

const SECRET: &[u8] = b"finance_secret_key";
const OWNER: &str = "0123456789abcdef01234567";

fn header(name: &str, value: &str) -> (String, String) {
    (String::from(name), String::from(value))
}

#[test]
fn no_authorization_header_is_missing_credentials() {
    let headers: Vec<(String, String)> = Vec::new();
    assert_eq!(authenticate(&headers, SECRET, 1000), Err(AuthError::MissingCredentials));
    let headers = vec![header("Content-Type", "application/json")];
    assert_eq!(authenticate(&headers, SECRET, 1000), Err(AuthError::MissingCredentials));
}

#[test]
fn bearer_token_authenticates() {
    let owner = String::from(OWNER);
    let token = issue(&owner, 1000, 3600, SECRET);
    let headers = vec![header("Authorization", &format!("Bearer {}", token))];
    assert_eq!(authenticate(&headers, SECRET, 1000), Ok(owner));
}

#[test]
fn header_name_lookup_ignores_case() {
    let owner = String::from(OWNER);
    let token = issue(&owner, 1000, 3600, SECRET);
    let headers = vec![header("AUTHORIZATION", &format!("Bearer {}", token))];
    assert_eq!(authenticate(&headers, SECRET, 1000), Ok(owner.clone()));
    let headers = vec![header("authorization", &format!("Bearer {}", token))];
    assert_eq!(authenticate(&headers, SECRET, 1000), Ok(owner));
}

#[test]
fn scheme_must_be_bearer_with_space() {
    let owner = String::from(OWNER);
    let token = issue(&owner, 1000, 3600, SECRET);
    let headers = vec![header("Authorization", &format!("Token {}", token))];
    assert_eq!(authenticate(&headers, SECRET, 1000), Err(AuthError::MalformedCredentials));
    let headers = vec![header("Authorization", &format!("bearer {}", token))];
    assert_eq!(authenticate(&headers, SECRET, 1000), Err(AuthError::MalformedCredentials));
    let headers = vec![header("Authorization", "Bearer")];
    assert_eq!(authenticate(&headers, SECRET, 1000), Err(AuthError::MalformedCredentials));
}

#[test]
fn bad_or_expired_token_is_invalid_credentials() {
    let owner = String::from(OWNER);
    let token = issue(&owner, 1000, 3600, SECRET);
    let headers = vec![header("Authorization", "Bearer not.a.token")];
    assert_eq!(authenticate(&headers, SECRET, 1000), Err(AuthError::InvalidCredentials));
    let headers = vec![header("Authorization", &format!("Bearer {}", token))];
    assert_eq!(authenticate(&headers, SECRET, 999_999), Err(AuthError::InvalidCredentials));
}

#[test]
fn first_authorization_header_wins() {
    let owner = String::from(OWNER);
    let token = issue(&owner, 1000, 3600, SECRET);
    let headers = vec![
        header("Authorization", "Bearer junk"),
        header("Authorization", &format!("Bearer {}", token)),
    ];
    assert_eq!(authenticate(&headers, SECRET, 1000), Err(AuthError::InvalidCredentials));
}
