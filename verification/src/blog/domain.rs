//! The blog's domain errors, the errors its web layer answers with, and
//! the post requests of the domain.
use vstd::prelude::*;
use crate::chars::{signed_decimal, push_signed_decimal};
use crate::strings::push_str;

verus! {

/// What can go wrong in the blog's domain.
#[derive(Debug)]
pub enum DomainError {
    Validation(String),
    UserAlreadyExists(String),
    UserNotFound(String),
    InvalidCredentials,
    PostNotFound(i64),
    Forbidden,
    Internal(String),
}

/// A `DomainError` with its texts as character sequences.
pub enum DomainErrorModel {
    Validation(Seq<char>),
    UserAlreadyExists(Seq<char>),
    UserNotFound(Seq<char>),
    InvalidCredentials,
    PostNotFound(int),
    Forbidden,
    Internal(Seq<char>),
}

impl View for DomainError {
    type V = DomainErrorModel;

    open spec fn view(&self) -> DomainErrorModel {
        match self {
            DomainError::Validation(s) => DomainErrorModel::Validation(s@),
            DomainError::UserAlreadyExists(s) => DomainErrorModel::UserAlreadyExists(s@),
            DomainError::UserNotFound(s) => DomainErrorModel::UserNotFound(s@),
            DomainError::InvalidCredentials => DomainErrorModel::InvalidCredentials,
            DomainError::PostNotFound(id) => DomainErrorModel::PostNotFound(*id as int),
            DomainError::Forbidden => DomainErrorModel::Forbidden,
            DomainError::Internal(s) => DomainErrorModel::Internal(s@),
        }
    }
}

/// What the blog answers a request with when it fails.
#[derive(Debug)]
pub enum BlogError {
    Validation(String),
    NotFound(String),
    Unauthorized,
    Forbidden,
    Conflict(String),
    Internal(String),
}

/// A `BlogError` with its texts as character sequences.
pub enum BlogErrorModel {
    Validation(Seq<char>),
    NotFound(Seq<char>),
    Unauthorized,
    Forbidden,
    Conflict(Seq<char>),
    Internal(Seq<char>),
}

impl View for BlogError {
    type V = BlogErrorModel;

    open spec fn view(&self) -> BlogErrorModel {
        match self {
            BlogError::Validation(s) => BlogErrorModel::Validation(s@),
            BlogError::NotFound(s) => BlogErrorModel::NotFound(s@),
            BlogError::Unauthorized => BlogErrorModel::Unauthorized,
            BlogError::Forbidden => BlogErrorModel::Forbidden,
            BlogError::Conflict(s) => BlogErrorModel::Conflict(s@),
            BlogError::Internal(s) => BlogErrorModel::Internal(s@),
        }
    }
}

/// The text of a domain error.
pub open spec fn domain_message(e: DomainErrorModel) -> Seq<char> {
    match e {
        DomainErrorModel::Validation(s) => "validation failed: "@ + s,
        DomainErrorModel::UserAlreadyExists(s) => "user already exists: "@ + s,
        DomainErrorModel::UserNotFound(s) => "user not found: "@ + s,
        DomainErrorModel::InvalidCredentials => "invalid credentials"@,
        DomainErrorModel::PostNotFound(id) => "post not found: "@ + signed_decimal(id),
        DomainErrorModel::Forbidden => "forbidden: user is not the author of the post"@,
        DomainErrorModel::Internal(s) => "internal error: "@ + s,
    }
}

/// The text of a blog error.
pub open spec fn blog_message(e: BlogErrorModel) -> Seq<char> {
    match e {
        BlogErrorModel::Validation(s) => "validation error: "@ + s,
        BlogErrorModel::NotFound(s) => "not found: "@ + s,
        BlogErrorModel::Unauthorized => "unauthorized"@,
        BlogErrorModel::Forbidden => "forbidden"@,
        BlogErrorModel::Conflict(s) => "conflict: "@ + s,
        BlogErrorModel::Internal(s) => "internal server error: "@ + s,
    }
}

/// The HTTP status that answers a blog error.
pub open spec fn status_of(e: BlogErrorModel) -> u16 {
    match e {
        BlogErrorModel::Validation(_) => 400,
        BlogErrorModel::NotFound(_) => 404,
        BlogErrorModel::Unauthorized => 401,
        BlogErrorModel::Forbidden => 403,
        BlogErrorModel::Conflict(_) => 409,
        BlogErrorModel::Internal(_) => 500,
    }
}

/// The blog error that a domain error becomes.
pub open spec fn blog_error_of(e: DomainErrorModel) -> BlogErrorModel {
    match e {
        DomainErrorModel::Validation(s) => BlogErrorModel::Validation(s),
        DomainErrorModel::UserAlreadyExists(_) => BlogErrorModel::Conflict("user already exists"@),
        DomainErrorModel::UserNotFound(_) => BlogErrorModel::NotFound("user not found"@),
        DomainErrorModel::InvalidCredentials => BlogErrorModel::Unauthorized,
        DomainErrorModel::PostNotFound(id) => BlogErrorModel::NotFound("post "@ + signed_decimal(id)),
        DomainErrorModel::Forbidden => BlogErrorModel::Forbidden,
        DomainErrorModel::Internal(s) => BlogErrorModel::Internal(s),
    }
}

/// The key and value of the details that an error answer carries, if any.
pub open spec fn detail_of(e: BlogErrorModel) -> Option<(Seq<char>, Seq<char>)> {
    match e {
        BlogErrorModel::Validation(m) => Some(("message"@, m)),
        BlogErrorModel::NotFound(r) => Some(("resource"@, r)),
        BlogErrorModel::Conflict(m) => Some(("message"@, m)),
        _ => None,
    }
}

/// A `String` holding the text of a literal.
fn owned(s: &str) -> (r: String)
    ensures
        r@ == s@,
{
    s.to_owned()
}

/// A `String` holding `prefix` followed by `s`.
fn prefixed(prefix: &str, s: &str) -> (r: String)
    ensures
        r@ == prefix@ + s@,
{
    let mut r = owned(prefix);
    push_str(&mut r, s);
    r
}

impl DomainError {
    /// The text of the error.
    pub fn message(&self) -> (r: String)
        ensures
            r@ == domain_message(self@),
    {
        match self {
            DomainError::Validation(s) => prefixed("validation failed: ", s.as_str()),
            DomainError::UserAlreadyExists(s) => prefixed("user already exists: ", s.as_str()),
            DomainError::UserNotFound(s) => prefixed("user not found: ", s.as_str()),
            DomainError::InvalidCredentials => owned("invalid credentials"),
            DomainError::PostNotFound(id) => {
                let mut r = owned("post not found: ");
                push_signed_decimal(&mut r, *id);
                r
            },
            DomainError::Forbidden => owned("forbidden: user is not the author of the post"),
            DomainError::Internal(s) => prefixed("internal error: ", s.as_str()),
        }
    }
}

impl BlogError {
    /// The text of the error.
    pub fn message(&self) -> (r: String)
        ensures
            r@ == blog_message(self@),
    {
        match self {
            BlogError::Validation(s) => prefixed("validation error: ", s.as_str()),
            BlogError::NotFound(s) => prefixed("not found: ", s.as_str()),
            BlogError::Unauthorized => owned("unauthorized"),
            BlogError::Forbidden => owned("forbidden"),
            BlogError::Conflict(s) => prefixed("conflict: ", s.as_str()),
            BlogError::Internal(s) => prefixed("internal server error: ", s.as_str()),
        }
    }

    /// The HTTP status code that answers the error.
    pub fn status_code(&self) -> (r: u16)
        ensures
            r == status_of(self@),
    {
        match self {
            BlogError::Validation(_) => 400,
            BlogError::NotFound(_) => 404,
            BlogError::Unauthorized => 401,
            BlogError::Forbidden => 403,
            BlogError::Conflict(_) => 409,
            BlogError::Internal(_) => 500,
        }
    }

    /// The blog error that answers a domain error.
    pub fn from_domain_error(err: DomainError) -> (r: BlogError)
        ensures
            r@ == blog_error_of(err@),
    {
        match err {
            DomainError::Validation(msg) => BlogError::Validation(msg),
            DomainError::UserAlreadyExists(_) => BlogError::Conflict(owned("user already exists")),
            DomainError::UserNotFound(_) => BlogError::NotFound(owned("user not found")),
            DomainError::InvalidCredentials => BlogError::Unauthorized,
            DomainError::PostNotFound(id) => {
                let mut r = owned("post ");
                push_signed_decimal(&mut r, id);
                BlogError::NotFound(r)
            },
            DomainError::Forbidden => BlogError::Forbidden,
            DomainError::Internal(msg) => BlogError::Internal(msg),
        }
    }

    /// The key and value of the details carried beside the message in the
    /// error answer, if any.
    pub fn error_detail(&self) -> (r: Option<(String, String)>)
        ensures
            match detail_of(self@) {
                Some((k, v)) => r matches Some((rk, rv)) && rk@ == k && rv@ == v,
                None => r is None,
            },
    {
        match self {
            BlogError::Validation(msg) => Some((owned("message"), msg.clone())),
            BlogError::NotFound(resource) => Some((owned("resource"), resource.clone())),
            BlogError::Conflict(msg) => Some((owned("message"), msg.clone())),
            _ => None,
        }
    }
}

/// A request of the domain to create a post.
#[derive(Debug)]
pub struct CreatePostRequest {
    pub title: String,
    pub content: String,
}

/// A request of the domain to change a post; a field left out stays.
#[derive(Debug)]
pub struct UpdatePostRequest {
    pub title: Option<String>,
    pub content: Option<String>,
}

} // verus!
