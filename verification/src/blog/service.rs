//! The checks the blog server makes before it touches its store.
use vstd::prelude::*;
use vstd::utf8::encode_utf8;
use crate::blog::domain::BlogError;
use crate::blog::dto::page_limit;
use crate::strings::chars_of;

verus! {

/// Why a registration is refused before the store is asked, if it is: the
/// username must have 3 to 50 bytes, the e-mail an `@`, the password at
/// least 8 bytes, checked in that order.
pub open spec fn registration_problem(username: Seq<char>, email: Seq<char>, password: Seq<char>) -> Option<
    Seq<char>,
> {
    if encode_utf8(username).len() < 3 || encode_utf8(username).len() > 50 {
        Some("Имя пользователя должно быть от 3 до 50 символов"@)
    } else if !email.contains('@') {
        Some("Неверный формат e-mail"@)
    } else if encode_utf8(password).len() < 8 {
        Some("Длина пароля - не менее 8 символов"@)
    } else {
        None
    }
}

/// Whether `s` holds the character `c`.
pub fn contains_char(s: &str, c: char) -> (r: bool)
    ensures
        r == s@.contains(c),
{
    let cs = chars_of(s);
    let mut i: usize = 0;
    while i < cs.len()
        invariant
            i <= cs@.len(),
            cs@ == s@,
            forall|j: int| 0 <= j < i ==> cs@[j] != c,
        decreases cs@.len() - i,
    {
        if cs[i] == c {
            assert(s@[i as int] == c);
            return true;
        }
        i = i + 1;
    }
    false
}

/// Checks the fields of a registration: `Validation` with the reason when
/// `registration_problem` finds one.
pub fn validate_registration(username: &str, email: &str, password: &str) -> (r: Result<
    (),
    BlogError,
>)
    ensures
        match registration_problem(username@, email@, password@) {
            Some(m) => r matches Err(BlogError::Validation(x)) && x@ == m,
            None => r is Ok,
        },
{
    let username_len = username.as_bytes().len();
    if username_len < 3 || username_len > 50 {
        return Err(BlogError::Validation("Имя пользователя должно быть от 3 до 50 символов".to_owned()));
    }
    if !contains_char(email, '@') {
        return Err(BlogError::Validation("Неверный формат e-mail".to_owned()));
    }
    if password.as_bytes().len() < 8 {
        return Err(BlogError::Validation("Длина пароля - не менее 8 символов".to_owned()));
    }
    Ok(())
}

/// Why a new post is refused, if it is: an empty title, then empty content.
pub open spec fn new_post_problem(title: Seq<char>, content: Seq<char>) -> Option<Seq<char>> {
    if title.len() == 0 {
        Some("Пустой заголовок поста"@)
    } else if content.len() == 0 {
        Some("Пустой контент поста"@)
    } else {
        None
    }
}

/// Checks a new post: `Validation` with the reason when `new_post_problem`
/// finds one.
pub fn validate_new_post(title: &str, content: &str) -> (r: Result<(), BlogError>)
    ensures
        match new_post_problem(title@, content@) {
            Some(m) => r matches Err(BlogError::Validation(x)) && x@ == m,
            None => r is Ok,
        },
{
    if title.is_empty() {
        return Err(BlogError::Validation("Пустой заголовок поста".to_owned()));
    }
    if content.is_empty() {
        return Err(BlogError::Validation("Пустой контент поста".to_owned()));
    }
    Ok(())
}

/// Only the author of a post may change or delete it: `Forbidden` for
/// anyone else.
pub fn ensure_author(post_author_id: i64, author_id: i64) -> (r: Result<(), BlogError>)
    ensures
        post_author_id == author_id ==> r is Ok,
        post_author_id != author_id ==> r matches Err(BlogError::Forbidden),
{
    if post_author_id != author_id {
        return Err(BlogError::Forbidden);
    }
    Ok(())
}

/// The page size for a requested limit, kept between 1 and 100.
pub fn clamp_limit(limit: i64) -> (r: i64)
    ensures
        r == page_limit(Some(limit)),
{
    let capped: i64 = if limit < 100 {
        limit
    } else {
        100
    };
    if capped > 1 {
        capped
    } else {
        1
    }
}

} // verus!
