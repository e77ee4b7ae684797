//! The plain request and response shapes the service speaks, besides the
//! order query itself.
use vstd::prelude::*;

verus! {

/// Credentials as a user submits them.
pub struct UserIn {
    pub username: String,
    pub password: String,
}

/// The registration request body.
pub struct RegisterPayload {
    pub username: String,
    pub password: String,
}

/// The login request body.
pub struct LoginPayload {
    pub username: String,
    pub password: String,
}

/// The body returned by registration and login: the issued bearer token.
pub struct TokenResponse {
    pub token: String,
}

/// The body of a rejection: one human-readable message.
pub struct ErrorMsg {
    pub message: String,
}

/// A handler failure surfaced to the caller.
pub struct ApiError {
    pub message: String,
}

/// The category creation request body.
pub struct CreateCategory {
    pub name: String,
    pub parent_id: Option<String>,
    pub category_type: String,
}

/// The order deletion request body: the record key as display text.
pub struct DeleteOrderPayload {
    pub id: String,
}

} // verus!
