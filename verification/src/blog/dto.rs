//! The requests of the blog's web layer.
use vstd::prelude::*;

verus! {

/// A request to register a user.
#[derive(Debug)]
pub struct RegisterRequest {
    pub username: String,
    pub email: String,
    pub password: String,
}

/// A request to log in.
#[derive(Debug)]
pub struct LoginRequest {
    pub username: String,
    pub password: String,
}

/// A request to create a post.
#[derive(Debug)]
pub struct CreatePostRequest {
    pub title: String,
    pub content: String,
}

/// A request to change a post; a field left out stays.
#[derive(Debug)]
pub struct UpdatePostRequest {
    pub title: Option<String>,
    pub content: Option<String>,
}

/// The page asked for when listing posts.
#[derive(Debug)]
pub struct PaginationQuery {
    pub limit: Option<i64>,
    pub offset: Option<i64>,
}

/// The page size used for a requested limit: 10 when none is given, and
/// never below 1 or above 100.
pub open spec fn page_limit(limit: Option<i64>) -> i64 {
    let l = match limit {
        Some(l) => l,
        None => 10,
    };
    if l > 100 {
        100
    } else if l < 1 {
        1
    } else {
        l
    }
}

impl PaginationQuery {
    /// The limit and offset of the page: the limit as `page_limit` says,
    /// the offset 0 when none is given.
    pub fn resolve(&self) -> (r: (i64, i64))
        ensures
            r.0 == page_limit(self.limit),
            r.1 == match self.offset {
                Some(o) => o,
                None => 0,
            },
    {
        let requested: i64 = match self.limit {
            Some(l) => l,
            None => 10,
        };
        let capped: i64 = if requested < 100 {
            requested
        } else {
            100
        };
        let limit: i64 = if capped > 1 {
            capped
        } else {
            1
        };
        let offset: i64 = match self.offset {
            Some(o) => o,
            None => 0,
        };
        (limit, offset)
    }
}

/// The user behind an authorised request.
#[derive(Debug, Clone)]
pub struct AuthenticatedUser {
    pub user_id: i64,
}

} // verus!
