//! Raw extraction of the sensitive `Authorization` field.
//!
//! Besides raw field extraction, the Bearer and Basic schemes are routed to
//! borrowed credential strings. Tokens are not validated, Basic credentials
//! are not decoded, and nothing is authenticated (RFC 9110 Section 11,
//! RFC 6750 Section 2.1, RFC 7617 Section 2). Returned values are sensitive
//! and errors never contain them.

use vstd::prelude::*;

use http::{HeaderMap, Request};

use crate::error::Error;
use crate::header::{extract_single_header_text, single_field_text, text_result_view, FieldName};
use crate::outside::{header_fields, request_headers};
use crate::text::{chars_eq_ignore_ascii_case, eq_ignore_ascii_case};

verus! {

/// The Bearer scheme.
pub const BEARER_SCHEME: &'static str = "Bearer";

/// The Basic scheme.
pub const BASIC_SCHEME: &'static str = "Basic";

/// The space character that separates the scheme from the credentials.
pub const SCHEME_SEPARATOR: char = ' ';

/// The `Authorization` field name.
pub open spec fn authorization_name() -> Seq<char> {
    "authorization"@
}

/// The credentials that follow `scheme` in `value`: the scheme must open the
/// value up to ASCII case and be followed by one space, which is consumed;
/// everything after it is returned unchanged.
pub open spec fn scheme_credentials(value: Seq<char>, scheme: Seq<char>) -> Option<Seq<char>> {
    if value.len() > scheme.len() && (forall|i: int|
        0 <= i < scheme.len() ==> eq_ignore_ascii_case(#[trigger] value[i], scheme[i]))
        && value[scheme.len() as int] == ' ' {
        Some(value.skip(scheme.len() as int + 1))
    } else {
        None
    }
}

/// Routed credentials are exactly what follows the scheme and its single
/// separating space: the value is the scheme (up to ASCII case), one space,
/// then the credentials unchanged, further spaces included.
pub proof fn law_credentials_follow_scheme_and_one_space(value: Seq<char>, scheme: Seq<char>)
    ensures
        scheme_credentials(value, scheme) matches Some(c) ==> {
            &&& value == value.take(scheme.len() as int) + seq![' '] + c
            &&& forall|i: int|
                0 <= i < scheme.len() ==> eq_ignore_ascii_case(#[trigger] value[i], scheme[i])
        },
{
    if let Some(c) = scheme_credentials(value, scheme) {
        assert(value =~= value.take(scheme.len() as int) + seq![' '] + c);
    }
}

/// Whenever a value is the scheme (up to ASCII case), one space and then any
/// text, routing yields exactly that text: nothing in the credentials is
/// validated or dropped.
pub proof fn law_scheme_and_space_route_the_rest(
    head: Seq<char>,
    rest: Seq<char>,
    scheme: Seq<char>,
)
    requires
        head.len() == scheme.len(),
        forall|i: int| 0 <= i < scheme.len() ==> eq_ignore_ascii_case(#[trigger] head[i], scheme[i]),
    ensures
        scheme_credentials(head + seq![' '] + rest, scheme) == Some(rest),
{
    let value = head + seq![' '] + rest;
    assert forall|i: int| 0 <= i < scheme.len() implies eq_ignore_ascii_case(
        #[trigger] value[i],
        scheme[i],
    ) by {
        assert(value[i] == head[i]);
    }
    assert(value[scheme.len() as int] == ' ');
    assert(value.skip(scheme.len() as int + 1) =~= rest);
}

/// The credentials of `scheme` in an `Authorization` field: absent when the
/// field is absent or another scheme, an error when the field is duplicate or
/// not text.
pub open spec fn scheme_field_credentials(
    fields: Map<Seq<char>, Seq<Seq<u8>>>,
    scheme: Seq<char>,
) -> Result<Option<Seq<char>>, crate::error::ErrorView> {
    match single_field_text(fields, authorization_name()) {
        Err(e) => Err(e),
        Ok(None) => Ok(None),
        Ok(Some(value)) => Ok(scheme_credentials(value, scheme)),
    }
}

/// Route `value` to the raw credentials of `scheme`.
///
/// Matching is ASCII case-insensitive and needs one space after the scheme;
/// only that space is consumed, so further spaces stay in the result.
pub fn extract_scheme_credentials<'a>(value: &'a str, scheme: &str) -> (credentials: Option<
    &'a str,
>)
    ensures
        credentials is Some <==> scheme_credentials(value@, scheme@) is Some,
        credentials matches Some(c) ==> c@ == scheme_credentials(value@, scheme@)->0,
{
    let n = value.unicode_len();
    let m = scheme.unicode_len();
    if n <= m {
        return None;
    }
    let mut i: usize = 0;
    while i < m
        invariant
            n == value@.len(),
            m == scheme@.len(),
            m < n,
            i <= m,
            forall|j: int| 0 <= j < i ==> eq_ignore_ascii_case(#[trigger] value@[j], scheme@[j]),
        decreases m - i,
    {
        if !chars_eq_ignore_ascii_case(value.get_char(i), scheme.get_char(i)) {
            return None;
        }
        i = i + 1;
    }
    if value.get_char(m) != SCHEME_SEPARATOR {
        return None;
    }
    let rest = value.substring_char(m + 1, n);
    assert(rest@ =~= value@.skip(m + 1));
    Some(rest)
}

fn authorization_field() -> (name: FieldName)
    ensures
        name@ == authorization_name(),
{
    proof {
        reveal_strlit("authorization");
    }
    FieldName::from_static("authorization")
}

/// Extract the singular `Authorization` field as text.
///
/// A missing field returns `None`; the value is returned unchanged, including
/// an empty value. Duplicate lines or a value that is not text return an
/// error that does not contain the value.
pub fn extract_header_authorization(headers: &HeaderMap) -> (value: Result<Option<&str>, Error>)
    ensures
        text_result_view(value) == single_field_text(header_fields(*headers), authorization_name()),
{
    extract_single_header_text(headers, &authorization_field())
}

/// Extract the raw `Authorization` field from a complete request, by
/// [`extract_header_authorization`] on `request.headers()`.
pub fn extract_request_authorization<B>(request: &Request<B>) -> (value: Result<
    Option<&str>,
    Error,
>)
    ensures
        exists|h: HeaderMap|
            text_result_view(value) == single_field_text(header_fields(h), authorization_name()),
{
    let headers = request_headers(request);
    extract_header_authorization(headers)
}

/// The view of optional credentials or an error.
pub open spec fn credentials_view(r: Result<Option<&str>, Error>) -> Result<
    Option<Seq<char>>,
    crate::error::ErrorView,
> {
    text_result_view(r)
}

fn scheme_from_field<'a>(headers: &'a HeaderMap, scheme: &str) -> (credentials: Result<
    Option<&'a str>,
    Error,
>)
    ensures
        text_result_view(credentials) == scheme_field_credentials(header_fields(*headers), scheme@),
{
    match extract_header_authorization(headers) {
        Err(e) => Err(e),
        Ok(None) => Ok(None),
        Ok(Some(value)) => Ok(extract_scheme_credentials(value, scheme)),
    }
}

/// Extract raw Bearer credentials from the `Authorization` field.
///
/// `Bearer ` produces `Some("")`; another scheme, a scheme without the space,
/// or a missing field produce `None`; a duplicate or non-text field is an
/// error before any scheme matching.
pub fn extract_header_bearer_token(headers: &HeaderMap) -> (token: Result<Option<&str>, Error>)
    ensures
        text_result_view(token) == scheme_field_credentials(header_fields(*headers), "Bearer"@),
{
    proof {
        reveal_strlit("Bearer");
    }
    scheme_from_field(headers, BEARER_SCHEME)
}

/// Extract raw Bearer credentials from a complete request, by
/// [`extract_header_bearer_token`] on `request.headers()`.
pub fn extract_request_bearer_token<B>(request: &Request<B>) -> (token: Result<
    Option<&str>,
    Error,
>)
    ensures
        exists|h: HeaderMap|
            text_result_view(token) == scheme_field_credentials(header_fields(h), "Bearer"@),
{
    extract_header_bearer_token(request_headers(request))
}

/// Extract raw Basic credentials from the `Authorization` field.
///
/// `Basic ` produces `Some("")`; the credentials are neither validated nor
/// decoded.
pub fn extract_header_basic_credentials(headers: &HeaderMap) -> (credentials: Result<
    Option<&str>,
    Error,
>)
    ensures
        text_result_view(credentials) == scheme_field_credentials(
            header_fields(*headers),
            "Basic"@,
        ),
{
    scheme_from_field(headers, BASIC_SCHEME)
}

/// Extract raw Basic credentials from a complete request, by
/// [`extract_header_basic_credentials`] on `request.headers()`.
pub fn extract_request_basic_credentials<B>(request: &Request<B>) -> (credentials: Result<
    Option<&str>,
    Error,
>)
    ensures
        exists|h: HeaderMap|
            text_result_view(credentials) == scheme_field_credentials(header_fields(h), "Basic"@),
{
    extract_header_basic_credentials(request_headers(request))
}

} // verus!
