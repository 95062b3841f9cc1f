//! Request ID extraction with fixed field precedence.
//!
//! `X-Request-Id` is preferred and `Request-Id` is used only as a fallback.
//! These are field names configured by this crate, not universal standard
//! request ID fields. Identifiers are neither generated nor validated.

use vstd::prelude::*;

use http::{HeaderMap, Request};

use crate::error::Error;
use crate::header::{extract_single_header_text, preferred_field_text, text_result_view, FieldName};
use crate::outside::{header_fields, request_headers};

verus! {

/// The preferred `X-Request-Id` field name.
pub const X_REQUEST_ID: &'static str = "x-request-id";

/// The fallback `Request-Id` field name.
pub const REQUEST_ID: &'static str = "request-id";

/// The request ID of a field map: `X-Request-Id`, else `Request-Id`.
pub open spec fn request_id_spec(fields: Map<Seq<char>, Seq<Seq<u8>>>) -> Result<
    Option<Seq<char>>,
    crate::error::ErrorView,
> {
    preferred_field_text(fields, X_REQUEST_ID@, REQUEST_ID@)
}

/// Extract a request ID from request fields.
///
/// `X-Request-Id` takes precedence over `Request-Id`, which is inspected only
/// when `X-Request-Id` is absent. The selected value is returned unchanged,
/// so an empty field produces `Some("")`. A selected field that occurs more
/// than once or is not text produces an error without its value.
pub fn extract_header_request_id(headers: &HeaderMap) -> (id: Result<Option<&str>, Error>)
    ensures
        text_result_view(id) == request_id_spec(header_fields(*headers)),
{
    proof {
        reveal_strlit("x-request-id");
        reveal_strlit("request-id");
    }
    let preferred = FieldName::from_static(X_REQUEST_ID);
    match extract_single_header_text(headers, &preferred) {
        Ok(None) => {},
        selected => return selected,
    }
    let fallback = FieldName::from_static(REQUEST_ID);
    extract_single_header_text(headers, &fallback)
}

/// Extract a request ID from a complete request, by
/// [`extract_header_request_id`] on `request.headers()`.
pub fn extract_request_request_id<B>(request: &Request<B>) -> (id: Result<Option<&str>, Error>)
    ensures
        exists|h: HeaderMap| text_result_view(id) == request_id_spec(header_fields(h)),
{
    extract_header_request_id(request_headers(request))
}

} // verus!
