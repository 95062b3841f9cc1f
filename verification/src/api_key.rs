//! API-key extraction from the fixed `X-API-Key` and `Api-Key` fields.
//!
//! `X-API-Key` takes precedence; `Api-Key` is consulted only when it is
//! absent. The selected value is returned unchanged, including an empty value.
//! Keys are neither validated nor authenticated; they are sensitive, and
//! errors never include them.

use vstd::prelude::*;

use http::{HeaderMap, Request};

use crate::error::Error;
use crate::header::{extract_single_header_text, preferred_field_text, text_result_view, FieldName};
use crate::outside::{header_fields, request_headers};

verus! {

/// The `X-API-Key` field name.
pub open spec fn x_api_key_name() -> Seq<char> {
    "x-api-key"@
}

/// The `Api-Key` field name.
pub open spec fn api_key_name() -> Seq<char> {
    "api-key"@
}

/// The API key of a field map: `X-API-Key`, else `Api-Key`.
pub open spec fn api_key_spec(fields: Map<Seq<char>, Seq<Seq<u8>>>) -> Result<
    Option<Seq<char>>,
    crate::error::ErrorView,
> {
    preferred_field_text(fields, x_api_key_name(), api_key_name())
}

/// Extract an API key from request fields.
///
/// `X-API-Key` takes precedence over `Api-Key`, which is inspected only when
/// `X-API-Key` is absent. An empty selected field produces `Some("")`. A
/// selected field that occurs more than once or is not text produces an error
/// without its value.
pub fn extract_header_api_key(headers: &HeaderMap) -> (key: Result<Option<&str>, Error>)
    ensures
        text_result_view(key) == api_key_spec(header_fields(*headers)),
{
    proof {
        reveal_strlit("x-api-key");
        reveal_strlit("api-key");
    }
    let preferred = FieldName::from_static("x-api-key");
    match extract_single_header_text(headers, &preferred) {
        Ok(None) => {},
        selected => return selected,
    }
    let fallback = FieldName::from_static("api-key");
    extract_single_header_text(headers, &fallback)
}

/// Extract an API key from a complete request, by [`extract_header_api_key`]
/// on `request.headers()`.
pub fn extract_request_api_key<B>(request: &Request<B>) -> (key: Result<Option<&str>, Error>)
    ensures
        exists|h: HeaderMap| text_result_view(key) == api_key_spec(header_fields(h)),
{
    extract_header_api_key(request_headers(request))
}

} // verus!
