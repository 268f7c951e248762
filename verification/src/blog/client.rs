//! The blog client: its errors, its transports, the addresses it asks and
//! what it makes of each answer's status.
use vstd::prelude::*;
use crate::chars::{decimal, signed_decimal, push_decimal, push_signed_decimal};
use crate::strings::push_str;

verus! {

/// What can go wrong for the blog client.
#[derive(Debug)]
pub enum BlogClientError {
    NetworkError(String),
    SerializationError(String),
    InitializationError(String),
    UserAlreadyExists,
    InvalidCredentials,
    Unauthorized,
    Forbidden,
    PostNotFound(i64),
    ValidationError(String),
    UnexpectedStatus(u16),
    UnsupportedTransport(String),
    InvalidState(String),
}

/// A `BlogClientError` with its texts as character sequences.
pub enum ClientErrorModel {
    NetworkError(Seq<char>),
    SerializationError(Seq<char>),
    InitializationError(Seq<char>),
    UserAlreadyExists,
    InvalidCredentials,
    Unauthorized,
    Forbidden,
    PostNotFound(int),
    ValidationError(Seq<char>),
    UnexpectedStatus(u16),
    UnsupportedTransport(Seq<char>),
    InvalidState(Seq<char>),
}

impl View for BlogClientError {
    type V = ClientErrorModel;

    open spec fn view(&self) -> ClientErrorModel {
        match self {
            BlogClientError::NetworkError(s) => ClientErrorModel::NetworkError(s@),
            BlogClientError::SerializationError(s) => ClientErrorModel::SerializationError(s@),
            BlogClientError::InitializationError(s) => ClientErrorModel::InitializationError(s@),
            BlogClientError::UserAlreadyExists => ClientErrorModel::UserAlreadyExists,
            BlogClientError::InvalidCredentials => ClientErrorModel::InvalidCredentials,
            BlogClientError::Unauthorized => ClientErrorModel::Unauthorized,
            BlogClientError::Forbidden => ClientErrorModel::Forbidden,
            BlogClientError::PostNotFound(id) => ClientErrorModel::PostNotFound(*id as int),
            BlogClientError::ValidationError(s) => ClientErrorModel::ValidationError(s@),
            BlogClientError::UnexpectedStatus(c) => ClientErrorModel::UnexpectedStatus(*c),
            BlogClientError::UnsupportedTransport(s) => ClientErrorModel::UnsupportedTransport(s@),
            BlogClientError::InvalidState(s) => ClientErrorModel::InvalidState(s@),
        }
    }
}

/// The text of a client error.
pub open spec fn client_message(e: ClientErrorModel) -> Seq<char> {
    match e {
        ClientErrorModel::NetworkError(s) => "Network error: "@ + s,
        ClientErrorModel::SerializationError(s) => "Serialization error: "@ + s,
        ClientErrorModel::InitializationError(s) => "Initialization error: "@ + s,
        ClientErrorModel::UserAlreadyExists => "User already exists"@,
        ClientErrorModel::InvalidCredentials => "Invalid credentials"@,
        ClientErrorModel::Unauthorized => "Unauthorized access"@,
        ClientErrorModel::Forbidden => "Forbidden"@,
        ClientErrorModel::PostNotFound(id) => "Post not found: "@ + signed_decimal(id),
        ClientErrorModel::ValidationError(s) => "Validation error: "@ + s,
        ClientErrorModel::UnexpectedStatus(c) => "Unexpected status code: "@ + decimal(c as nat),
        ClientErrorModel::UnsupportedTransport(s) => "Unsupported transport: "@ + s,
        ClientErrorModel::InvalidState(s) => "Invalid state: "@ + s,
    }
}

/// A `String` holding `prefix` followed by `s`.
fn prefixed(prefix: &str, s: &str) -> (r: String)
    ensures
        r@ == prefix@ + s@,
{
    let mut r = prefix.to_owned();
    push_str(&mut r, s);
    r
}

impl BlogClientError {
    /// The text of the error.
    pub fn message(&self) -> (r: String)
        ensures
            r@ == client_message(self@),
    {
        match self {
            BlogClientError::NetworkError(s) => prefixed("Network error: ", s.as_str()),
            BlogClientError::SerializationError(s) => prefixed("Serialization error: ", s.as_str()),
            BlogClientError::InitializationError(s) => prefixed(
                "Initialization error: ",
                s.as_str(),
            ),
            BlogClientError::UserAlreadyExists => "User already exists".to_owned(),
            BlogClientError::InvalidCredentials => "Invalid credentials".to_owned(),
            BlogClientError::Unauthorized => "Unauthorized access".to_owned(),
            BlogClientError::Forbidden => "Forbidden".to_owned(),
            BlogClientError::PostNotFound(id) => {
                let mut r = "Post not found: ".to_owned();
                push_signed_decimal(&mut r, *id);
                r
            },
            BlogClientError::ValidationError(s) => prefixed("Validation error: ", s.as_str()),
            BlogClientError::UnexpectedStatus(c) => {
                let mut r = "Unexpected status code: ".to_owned();
                push_decimal(&mut r, *c as u64);
                r
            },
            BlogClientError::UnsupportedTransport(s) => prefixed(
                "Unsupported transport: ",
                s.as_str(),
            ),
            BlogClientError::InvalidState(s) => prefixed("Invalid state: ", s.as_str()),
        }
    }
}

/// How the client reaches the server, with the server's address.
#[derive(Debug, Clone)]
pub enum Transport {
    Http(String),
    Grpc(String),
}

/// A request the HTTP client makes, with the post it is about.
pub enum Endpoint {
    Register,
    Login,
    CreatePost,
    GetPost(i64),
    UpdatePost(i64),
    DeletePost(i64),
    ListPosts,
}

/// What the client does with an answer, by its status: read the body as
/// the result, read the body as the text of a validation error, or fail.
pub enum ResponseAction {
    Accept,
    ReadValidationText,
    Fail(BlogClientError),
}

/// A `ResponseAction` with its error as a value.
pub enum ActionModel {
    Accept,
    ReadValidationText,
    Fail(ClientErrorModel),
}

impl View for ResponseAction {
    type V = ActionModel;

    open spec fn view(&self) -> ActionModel {
        match self {
            ResponseAction::Accept => ActionModel::Accept,
            ResponseAction::ReadValidationText => ActionModel::ReadValidationText,
            ResponseAction::Fail(e) => ActionModel::Fail(e@),
        }
    }
}

/// The status that a successful answer to the request carries.
pub open spec fn success_status(e: Endpoint) -> u16 {
    match e {
        Endpoint::Register => 201,
        Endpoint::CreatePost => 201,
        Endpoint::DeletePost(_) => 204,
        _ => 200,
    }
}

/// What the client does with an answer of status `status` to the request.
pub open spec fn action_of(e: Endpoint, status: u16) -> ActionModel {
    if status == success_status(e) {
        ActionModel::Accept
    } else {
        match e {
            Endpoint::Register => if status == 409 {
                ActionModel::Fail(ClientErrorModel::UserAlreadyExists)
            } else if status == 400 {
                ActionModel::ReadValidationText
            } else {
                ActionModel::Fail(ClientErrorModel::UnexpectedStatus(status))
            },
            Endpoint::Login => if status == 401 {
                ActionModel::Fail(ClientErrorModel::InvalidCredentials)
            } else if status == 400 {
                ActionModel::ReadValidationText
            } else {
                ActionModel::Fail(ClientErrorModel::UnexpectedStatus(status))
            },
            Endpoint::CreatePost => if status == 401 {
                ActionModel::Fail(ClientErrorModel::Unauthorized)
            } else if status == 403 {
                ActionModel::Fail(ClientErrorModel::Forbidden)
            } else if status == 400 {
                ActionModel::ReadValidationText
            } else {
                ActionModel::Fail(ClientErrorModel::UnexpectedStatus(status))
            },
            Endpoint::GetPost(id) => if status == 404 {
                ActionModel::Fail(ClientErrorModel::PostNotFound(id as int))
            } else {
                ActionModel::Fail(ClientErrorModel::UnexpectedStatus(status))
            },
            Endpoint::UpdatePost(id) => if status == 401 {
                ActionModel::Fail(ClientErrorModel::Unauthorized)
            } else if status == 403 {
                ActionModel::Fail(ClientErrorModel::Forbidden)
            } else if status == 404 {
                ActionModel::Fail(ClientErrorModel::PostNotFound(id as int))
            } else if status == 400 {
                ActionModel::ReadValidationText
            } else {
                ActionModel::Fail(ClientErrorModel::UnexpectedStatus(status))
            },
            Endpoint::DeletePost(id) => if status == 401 {
                ActionModel::Fail(ClientErrorModel::Unauthorized)
            } else if status == 403 {
                ActionModel::Fail(ClientErrorModel::Forbidden)
            } else if status == 404 {
                ActionModel::Fail(ClientErrorModel::PostNotFound(id as int))
            } else {
                ActionModel::Fail(ClientErrorModel::UnexpectedStatus(status))
            },
            Endpoint::ListPosts => if status == 400 {
                ActionModel::ReadValidationText
            } else {
                ActionModel::Fail(ClientErrorModel::UnexpectedStatus(status))
            },
        }
    }
}

/// Decides what to do with an answer of status `status` to the request.
pub fn response_action(endpoint: &Endpoint, status: u16) -> (r: ResponseAction)
    ensures
        r@ == action_of(*endpoint, status),
{
    match endpoint {
        Endpoint::Register => {
            if status == 201 {
                ResponseAction::Accept
            } else if status == 409 {
                ResponseAction::Fail(BlogClientError::UserAlreadyExists)
            } else if status == 400 {
                ResponseAction::ReadValidationText
            } else {
                ResponseAction::Fail(BlogClientError::UnexpectedStatus(status))
            }
        },
        Endpoint::Login => {
            if status == 200 {
                ResponseAction::Accept
            } else if status == 401 {
                ResponseAction::Fail(BlogClientError::InvalidCredentials)
            } else if status == 400 {
                ResponseAction::ReadValidationText
            } else {
                ResponseAction::Fail(BlogClientError::UnexpectedStatus(status))
            }
        },
        Endpoint::CreatePost => {
            if status == 201 {
                ResponseAction::Accept
            } else if status == 401 {
                ResponseAction::Fail(BlogClientError::Unauthorized)
            } else if status == 403 {
                ResponseAction::Fail(BlogClientError::Forbidden)
            } else if status == 400 {
                ResponseAction::ReadValidationText
            } else {
                ResponseAction::Fail(BlogClientError::UnexpectedStatus(status))
            }
        },
        Endpoint::GetPost(id) => {
            if status == 200 {
                ResponseAction::Accept
            } else if status == 404 {
                ResponseAction::Fail(BlogClientError::PostNotFound(*id))
            } else {
                ResponseAction::Fail(BlogClientError::UnexpectedStatus(status))
            }
        },
        Endpoint::UpdatePost(id) => {
            if status == 200 {
                ResponseAction::Accept
            } else if status == 401 {
                ResponseAction::Fail(BlogClientError::Unauthorized)
            } else if status == 403 {
                ResponseAction::Fail(BlogClientError::Forbidden)
            } else if status == 404 {
                ResponseAction::Fail(BlogClientError::PostNotFound(*id))
            } else if status == 400 {
                ResponseAction::ReadValidationText
            } else {
                ResponseAction::Fail(BlogClientError::UnexpectedStatus(status))
            }
        },
        Endpoint::DeletePost(id) => {
            if status == 204 {
                ResponseAction::Accept
            } else if status == 401 {
                ResponseAction::Fail(BlogClientError::Unauthorized)
            } else if status == 403 {
                ResponseAction::Fail(BlogClientError::Forbidden)
            } else if status == 404 {
                ResponseAction::Fail(BlogClientError::PostNotFound(*id))
            } else {
                ResponseAction::Fail(BlogClientError::UnexpectedStatus(status))
            }
        },
        Endpoint::ListPosts => {
            if status == 200 {
                ResponseAction::Accept
            } else if status == 400 {
                ResponseAction::ReadValidationText
            } else {
                ResponseAction::Fail(BlogClientError::UnexpectedStatus(status))
            }
        },
    }
}

/// The validation error for an answer whose body was read as `text`, or
/// could not be read (`None`).
pub fn validation_error(text: Option<String>) -> (r: BlogClientError)
    ensures
        r@ == ClientErrorModel::ValidationError(
            match text {
                Some(t) => t@,
                None => "Bad request"@,
            },
        ),
{
    match text {
        Some(t) => BlogClientError::ValidationError(t),
        None => BlogClientError::ValidationError("Bad request".to_owned()),
    }
}

/// The address of an API path on the server.
pub fn build_full_url(base_url: &str, path: &str) -> (r: String)
    ensures
        r@ == base_url@ + "/api"@ + path@,
{
    let mut r = base_url.to_owned();
    push_str(&mut r, "/api");
    push_str(&mut r, path);
    r
}

/// The path of one post.
pub fn post_path(id: i64) -> (r: String)
    ensures
        r@ == "/posts/"@ + signed_decimal(id as int),
{
    let mut r = "/posts/".to_owned();
    push_signed_decimal(&mut r, id);
    r
}

/// The value of the `Authorization` header for a token.
pub fn bearer_header(token: &str) -> (r: String)
    ensures
        r@ == "Bearer "@ + token@,
{
    let mut r = "Bearer ".to_owned();
    push_str(&mut r, token);
    r
}

/// The query of a post listing: `limit` and `offset` as given, joined by
/// `&` after a `?`, or nothing when neither is given.
pub open spec fn list_query_text(limit: Option<i64>, offset: Option<i64>) -> Seq<char> {
    match (limit, offset) {
        (None, None) => Seq::empty(),
        (Some(l), None) => "?limit="@ + signed_decimal(l as int),
        (None, Some(o)) => "?offset="@ + signed_decimal(o as int),
        (Some(l), Some(o)) => "?limit="@ + signed_decimal(l as int) + "&offset="@
            + signed_decimal(o as int),
    }
}

/// The query string of a post listing.
pub fn list_posts_query(limit_opt: Option<i64>, offset_opt: Option<i64>) -> (r: String)
    ensures
        r@ == list_query_text(limit_opt, offset_opt),
{
    let mut r = String::new();
    if let Some(limit) = limit_opt {
        push_str(&mut r, "?limit=");
        push_signed_decimal(&mut r, limit);
    }
    if let Some(offset) = offset_opt {
        if limit_opt.is_some() {
            push_str(&mut r, "&offset=");
        } else {
            push_str(&mut r, "?offset=");
        }
        push_signed_decimal(&mut r, offset);
    }
    assert(r@ =~= list_query_text(limit_opt, offset_opt));
    r
}

/// The statuses the client knows, per request: each request is accepted on
/// its one success status (201 for registering and creating a post, 204
/// for deleting one, 200 for every other request) and on no other; the
/// error statuses give their errors; and a status no request knows is an
/// unexpected status.
pub proof fn law_response_table(e: Endpoint, id: i64, s: u16)
    ensures
        action_of(Endpoint::Register, s) is Accept <==> s == 201,
        action_of(Endpoint::Login, s) is Accept <==> s == 200,
        action_of(Endpoint::CreatePost, s) is Accept <==> s == 201,
        action_of(Endpoint::GetPost(id), s) is Accept <==> s == 200,
        action_of(Endpoint::UpdatePost(id), s) is Accept <==> s == 200,
        action_of(Endpoint::DeletePost(id), s) is Accept <==> s == 204,
        action_of(Endpoint::ListPosts, s) is Accept <==> s == 200,
        action_of(Endpoint::Register, 409) == ActionModel::Fail(ClientErrorModel::UserAlreadyExists),
        action_of(Endpoint::Login, 401) == ActionModel::Fail(ClientErrorModel::InvalidCredentials),
        action_of(Endpoint::CreatePost, 401) == ActionModel::Fail(ClientErrorModel::Unauthorized),
        action_of(Endpoint::UpdatePost(id), 401) == ActionModel::Fail(ClientErrorModel::Unauthorized),
        action_of(Endpoint::DeletePost(id), 401) == ActionModel::Fail(ClientErrorModel::Unauthorized),
        action_of(Endpoint::CreatePost, 403) == ActionModel::Fail(ClientErrorModel::Forbidden),
        action_of(Endpoint::UpdatePost(id), 403) == ActionModel::Fail(ClientErrorModel::Forbidden),
        action_of(Endpoint::DeletePost(id), 403) == ActionModel::Fail(ClientErrorModel::Forbidden),
        action_of(Endpoint::GetPost(id), 404) == ActionModel::Fail(
            ClientErrorModel::PostNotFound(id as int),
        ),
        action_of(Endpoint::UpdatePost(id), 404) == ActionModel::Fail(
            ClientErrorModel::PostNotFound(id as int),
        ),
        action_of(Endpoint::DeletePost(id), 404) == ActionModel::Fail(
            ClientErrorModel::PostNotFound(id as int),
        ),
        action_of(Endpoint::Register, 400) is ReadValidationText,
        action_of(Endpoint::Login, 400) is ReadValidationText,
        action_of(Endpoint::CreatePost, 400) is ReadValidationText,
        action_of(Endpoint::UpdatePost(id), 400) is ReadValidationText,
        action_of(Endpoint::ListPosts, 400) is ReadValidationText,
        s != 200 && s != 201 && s != 204 && s != 400 && s != 401 && s != 403 && s != 404 && s
            != 409 ==> action_of(e, s) == ActionModel::Fail(ClientErrorModel::UnexpectedStatus(s)),
{
}

} // verus!
