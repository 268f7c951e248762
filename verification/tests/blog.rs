use parser::blog::client::{
    build_full_url, bearer_header, list_posts_query, post_path, response_action, validation_error,
    BlogClientError, Endpoint, ResponseAction, Transport,
};
use parser::blog::domain::{BlogError, DomainError};
use parser::blog::dto::{AuthenticatedUser, PaginationQuery};
use parser::blog::service::{clamp_limit, ensure_author, validate_new_post, validate_registration};

#[test]
fn domain_errors_map_to_blog_errors() {
    let e = BlogError::from_domain_error(DomainError::PostNotFound(42));
    assert_eq!(e.message(), "not found: post 42");
    assert_eq!(e.status_code(), 404);
    let e = BlogError::from_domain_error(DomainError::UserAlreadyExists("bob".to_string()));
    assert_eq!(e.message(), "conflict: user already exists");
    assert_eq!(e.status_code(), 409);
    let e = BlogError::from_domain_error(DomainError::InvalidCredentials);
    assert_eq!(e.status_code(), 401);
    assert_eq!(e.message(), "unauthorized");
    let e = BlogError::from_domain_error(DomainError::Validation("bad".to_string()));
    assert_eq!(e.status_code(), 400);
    assert_eq!(e.error_detail(), Some(("message".to_string(), "bad".to_string())));
    let e = BlogError::from_domain_error(DomainError::Internal("db".to_string()));
    assert_eq!(e.status_code(), 500);
    assert_eq!(e.error_detail(), None);
    let e = BlogError::from_domain_error(DomainError::Forbidden);
    assert_eq!(e.status_code(), 403);
    assert_eq!(e.message(), "forbidden");
    let e = BlogError::from_domain_error(DomainError::UserNotFound("x".to_string()));
    assert_eq!(e.error_detail(), Some(("resource".to_string(), "user not found".to_string())));
}

#[test]
fn domain_error_messages() {
    assert_eq!(DomainError::PostNotFound(-3).message(), "post not found: -3");
    assert_eq!(DomainError::Validation("x".to_string()).message(), "validation failed: x");
    assert_eq!(
        DomainError::Forbidden.message(),
        "forbidden: user is not the author of the post"
    );
}

#[test]
fn registration_checks_in_order() {
    assert!(validate_registration("bob", "b@x", "12345678").is_ok());
    match validate_registration("bo", "nope", "1") {
        Err(BlogError::Validation(m)) => {
            assert_eq!(m, "Имя пользователя должно быть от 3 до 50 символов")
        },
        _ => panic!("expected a validation error"),
    }
    match validate_registration("bob", "nope", "1") {
        Err(BlogError::Validation(m)) => assert_eq!(m, "Неверный формат e-mail"),
        _ => panic!("expected a validation error"),
    }
    match validate_registration("bob", "b@x", "1234567") {
        Err(BlogError::Validation(m)) => assert_eq!(m, "Длина пароля - не менее 8 символов"),
        _ => panic!("expected a validation error"),
    }
    // Lengths are in bytes: two Cyrillic letters take four.
    assert!(validate_registration("юя", "a@b", "12345678").is_ok());
}

#[test]
fn post_checks() {
    assert!(validate_new_post("t", "c").is_ok());
    match validate_new_post("", "") {
        Err(BlogError::Validation(m)) => assert_eq!(m, "Пустой заголовок поста"),
        _ => panic!("expected a validation error"),
    }
    match validate_new_post("t", "") {
        Err(BlogError::Validation(m)) => assert_eq!(m, "Пустой контент поста"),
        _ => panic!("expected a validation error"),
    }
    assert!(ensure_author(1, 1).is_ok());
    assert!(matches!(ensure_author(1, 2), Err(BlogError::Forbidden)));
}

#[test]
fn page_limits() {
    assert_eq!(clamp_limit(0), 1);
    assert_eq!(clamp_limit(50), 50);
    assert_eq!(clamp_limit(1000), 100);
    assert_eq!(PaginationQuery { limit: None, offset: None }.resolve(), (10, 0));
    assert_eq!(PaginationQuery { limit: Some(-5), offset: Some(7) }.resolve(), (1, 7));
    let user = AuthenticatedUser { user_id: 5 };
    assert_eq!(user.clone().user_id, 5);
}

#[test]
fn client_status_decisions() {
    assert!(matches!(response_action(&Endpoint::Register, 201), ResponseAction::Accept));
    assert!(matches!(
        response_action(&Endpoint::Register, 409),
        ResponseAction::Fail(BlogClientError::UserAlreadyExists)
    ));
    assert!(matches!(response_action(&Endpoint::Login, 400), ResponseAction::ReadValidationText));
    assert!(matches!(
        response_action(&Endpoint::Login, 401),
        ResponseAction::Fail(BlogClientError::InvalidCredentials)
    ));
    assert!(matches!(
        response_action(&Endpoint::GetPost(9), 404),
        ResponseAction::Fail(BlogClientError::PostNotFound(9))
    ));
    assert!(matches!(response_action(&Endpoint::DeletePost(9), 204), ResponseAction::Accept));
    assert!(matches!(
        response_action(&Endpoint::DeletePost(9), 200),
        ResponseAction::Fail(BlogClientError::UnexpectedStatus(200))
    ));
    assert!(matches!(
        response_action(&Endpoint::UpdatePost(1), 403),
        ResponseAction::Fail(BlogClientError::Forbidden)
    ));
    assert!(matches!(
        response_action(&Endpoint::CreatePost, 401),
        ResponseAction::Fail(BlogClientError::Unauthorized)
    ));
    assert!(matches!(response_action(&Endpoint::ListPosts, 200), ResponseAction::Accept));
}

#[test]
fn client_messages_and_addresses() {
    assert_eq!(validation_error(None).message(), "Validation error: Bad request");
    assert_eq!(
        validation_error(Some("too short".to_string())).message(),
        "Validation error: too short"
    );
    assert_eq!(BlogClientError::UnexpectedStatus(502).message(), "Unexpected status code: 502");
    assert_eq!(BlogClientError::PostNotFound(3).message(), "Post not found: 3");
    assert_eq!(BlogClientError::Unauthorized.message(), "Unauthorized access");
    assert_eq!(build_full_url("http://h:3000", "/posts"), "http://h:3000/api/posts");
    assert_eq!(post_path(12), "/posts/12");
    assert_eq!(bearer_header("abc"), "Bearer abc");
    assert_eq!(list_posts_query(None, None), "");
    assert_eq!(list_posts_query(Some(5), None), "?limit=5");
    assert_eq!(list_posts_query(None, Some(10)), "?offset=10");
    assert_eq!(list_posts_query(Some(5), Some(10)), "?limit=5&offset=10");
    let t = Transport::Http("http://localhost:3000".to_string());
    assert!(matches!(t.clone(), Transport::Http(_)));
}
