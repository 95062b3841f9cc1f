//! `Content-Type` extraction (RFC 9110, Section 8.3).
//!
//! The declared media type is parsed with the `mime` crate. The body is not
//! inspected and no media type is inferred when the field is absent.

use vstd::prelude::*;

use http::{HeaderMap, Request};

use crate::error::{Error, ErrorView};
use crate::header::{extract_single_header_text, single_field_text, FieldName};
use crate::outside::{header_fields, parse_media_type, parsed_media_type, request_headers};

verus! {

/// The `Content-Type` field name.
pub open spec fn content_type_name() -> Seq<char> {
    "content-type"@
}

/// The media type of a field map's `Content-Type`: absent when the field is
/// absent, the type that `mime` reads from the single text line, or an
/// error when the line is duplicate, not text, or not a media type.
pub open spec fn content_type_spec(fields: Map<Seq<char>, Seq<Seq<u8>>>) -> Result<
    Option<mime::Mime>,
    ErrorView,
> {
    match single_field_text(fields, content_type_name()) {
        Err(e) => Err(e),
        Ok(None) => Ok(None),
        Ok(Some(text)) => match parsed_media_type(text) {
            Some(m) => Ok(Some(m)),
            None => Err(ErrorView::InvalidHeader(content_type_name())),
        },
    }
}

/// The view of an optional media type or an error.
pub open spec fn media_type_result_view(r: Result<Option<mime::Mime>, Error>) -> Result<
    Option<mime::Mime>,
    ErrorView,
> {
    match r {
        Ok(m) => Ok(m),
        Err(e) => Err(e@),
    }
}

/// The media type of a `Content-Type` value once `mime` has parsed it: the
/// parsed type, or an invalid `Content-Type` error when parsing failed.
pub fn media_type_or_invalid(parsed: Option<mime::Mime>) -> (media_type: Result<mime::Mime, Error>)
    ensures
        parsed matches Some(m) ==> media_type == Ok::<mime::Mime, Error>(m),
        parsed is None ==> (media_type matches Err(e) && e@ == ErrorView::InvalidHeader(
            content_type_name(),
        )),
{
    proof {
        reveal_strlit("content-type");
    }
    match parsed {
        Some(m) => Ok(m),
        None => Err(Error::invalid_header(FieldName::from_static("content-type"))),
    }
}

/// Extract and parse a singular `Content-Type` field as a media type.
///
/// A missing field returns `None`. Duplicate lines, non-text values and
/// invalid or empty media types return an error. The body is not inspected
/// and the declared type is not checked for truth.
pub fn extract_header_content_type(headers: &HeaderMap) -> (media_type: Result<
    Option<mime::Mime>,
    Error,
>)
    ensures
        media_type_result_view(media_type) == content_type_spec(header_fields(*headers)),
{
    proof {
        reveal_strlit("content-type");
    }
    let name = FieldName::from_static("content-type");
    match extract_single_header_text(headers, &name) {
        Err(e) => Err(e),
        Ok(None) => Ok(None),
        Ok(Some(text)) => match media_type_or_invalid(parse_media_type(text)) {
            Ok(m) => Ok(Some(m)),
            Err(e) => Err(e),
        },
    }
}

/// Extract and parse `Content-Type` from a complete request, by
/// [`extract_header_content_type`] on `request.headers()`.
pub fn extract_request_content_type<B>(request: &Request<B>) -> (media_type: Result<
    Option<mime::Mime>,
    Error,
>)
    ensures
        exists|h: HeaderMap|
            media_type_result_view(media_type) == content_type_spec(header_fields(h)),
{
    extract_header_content_type(request_headers(request))
}

} // verus!
