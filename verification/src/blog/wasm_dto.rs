//! The requests and user record of the blog's browser front end.
use vstd::prelude::*;

verus! {

/// A request to register a user.
pub struct RegisterRequest {
    pub username: String,
    pub email: String,
    pub password: String,
}

/// A request to log in.
pub struct LoginRequest {
    pub username: String,
    pub password: String,
}

/// A user as the front end keeps it.
pub struct UserDto {
    id: i64,
    pub username: String,
    email: String,
}

} // verus!
