//! The `http` and `mime` items that the extractors use, and the few standard
//! string operations that have no specification in `vstd`.
//!
//! Everything here is trusted: each contract below states what the called
//! function does according to its source or documentation, and nothing in
//! this crate proves it.

use vstd::prelude::*;

use http::{HeaderMap, HeaderValue, Request};

use crate::text::{ascii_lower_code, is_alpha, is_digit};

verus! {

#[verifier::external_type_specification]
#[verifier::external_body]
#[verifier::reject_recursive_types(T)]
pub struct ExHeaderMap<T>(http::HeaderMap<T>);

#[verifier::external_type_specification]
#[verifier::external_body]
pub struct ExHeaderValue(http::HeaderValue);

#[verifier::external_type_specification]
#[verifier::external_body]
#[verifier::reject_recursive_types(B)]
pub struct ExRequest<B>(http::Request<B>);

#[verifier::external_type_specification]
#[verifier::external_body]
pub struct ExMime(mime::Mime);

// ---------------------------------------------------------------------------
// Field names
// ---------------------------------------------------------------------------

/// A `tchar` of RFC 9110: the characters allowed in a field name or token.
pub open spec fn is_token_char(c: char) -> bool {
    ||| is_alpha(c)
    ||| is_digit(c)
    ||| c == '!' || c == '#' || c == '$' || c == '%' || c == '&' || c == '\''
    ||| c == '*' || c == '+' || c == '-' || c == '.' || c == '^' || c == '_'
    ||| c == '`' || c == '|' || c == '~'
}

/// The longest field name that `http` accepts.
pub open spec fn max_field_name_len() -> nat {
    65535
}

/// `s` is a field name as `http` stores it: one to 65535 token characters
/// with no ASCII upper case.
pub open spec fn is_field_name(s: Seq<char>) -> bool {
    &&& 0 < s.len() <= max_field_name_len()
    &&& forall|i: int| 0 <= i < s.len() ==> is_token_char(#[trigger] s[i]) && !('A' <= s[i] <= 'Z')
}

/// `c` with ASCII upper case mapped to lower case.
pub open spec fn ascii_lower(c: char) -> char {
    ascii_lower_code(c) as char
}

/// The normalized field name that `HeaderName::from_bytes` makes of `s`:
/// present when `s` is one to 65535 token characters, then lower-cased.
pub open spec fn normalized_field_name(s: Seq<char>) -> Option<Seq<char>> {
    if 0 < s.len() <= max_field_name_len() && forall|i: int|
        0 <= i < s.len() ==> is_token_char(#[trigger] s[i]) {
        Some(Seq::new(s.len(), |i: int| ascii_lower(s[i])))
    } else {
        None
    }
}

/// Validates and normalizes a field name with `http::HeaderName::from_bytes`.
///
/// The contract restates `from_bytes` from the `http` source: the input is
/// accepted when it has 1 to 65535 bytes that are all token characters, and
/// the stored name is the input with ASCII upper case lowered. Non-ASCII
/// characters are never token characters, so bytes and characters coincide
/// on accepted input.
#[verifier::external_body]
pub fn normalize_field_name(source: &str) -> (name: Option<String>)
    ensures
        name is Some <==> normalized_field_name(source@) is Some,
        name matches Some(n) ==> n@ == normalized_field_name(source@)->0,
{
    http::HeaderName::from_bytes(source.as_bytes()).ok().map(|n| n.as_str().to_string())
}

// ---------------------------------------------------------------------------
// Field maps
// ---------------------------------------------------------------------------

/// What a `HeaderMap` holds: for each stored field name, its field values in
/// the order in which they were added, each as its raw bytes.
pub uninterp spec fn header_fields(map: HeaderMap) -> Map<Seq<char>, Seq<Seq<u8>>>;

/// The field values stored under `name`, empty when there is none.
pub open spec fn lines_of(fields: Map<Seq<char>, Seq<Seq<u8>>>, name: Seq<char>) -> Seq<Seq<u8>> {
    if fields.dom().contains(name) {
        fields[name]
    } else {
        Seq::empty()
    }
}

/// A byte that `HeaderValue::from_bytes` accepts in a field value.
pub open spec fn is_field_value_byte(b: u8) -> bool {
    (b >= 32 && b != 127) || b == 9
}

/// Lists the values stored under `name` with `HeaderMap::get_all`, each as
/// `HeaderValue::as_bytes`.
///
/// The contract states what the `http` source shows: `get_all` yields every
/// value of the key in insertion order, and `as_bytes` returns the stored
/// bytes unchanged.
#[verifier::external_body]
pub fn field_values<'a>(headers: &'a HeaderMap, name: &str) -> (values: Vec<&'a [u8]>)
    requires
        is_field_name(name@),
    ensures
        values@.len() == lines_of(header_fields(*headers), name@).len(),
        forall|i: int|
            0 <= i < values@.len() ==> #[trigger] values@[i]@ == lines_of(
                header_fields(*headers),
                name@,
            )[i],
{
    headers.get_all(name).iter().map(HeaderValue::as_bytes).collect()
}

/// The number of distinct names in a `HeaderMap`, from `HeaderMap::keys_len`.
///
/// `keys_len` counts the map's entries, one per stored name.
#[verifier::external_body]
pub fn field_name_count(headers: &HeaderMap) -> (count: usize)
    ensures
        count == header_fields(*headers).dom().len(),
{
    headers.keys_len()
}

/// Adds one value after the existing values of `name` with
/// `HeaderMap::append`, and tells whether `name` already had a value.
///
/// `append` panics when the map's table cannot grow further. With fewer than
/// 6554 distinct names the table never needs to grow past its maximum size,
/// so the `requires` leaves out every input on which it could panic; it also
/// leaves out some on which it would not, which depend on the map's internal
/// layout and are not stated here.
#[verifier::external_body]
pub fn append_field_value(headers: &mut HeaderMap, name: &str, value: &[u8]) -> (existed: bool)
    requires
        is_field_name(name@),
        forall|i: int| 0 <= i < value@.len() ==> is_field_value_byte(#[trigger] value@[i]),
        header_fields(*old(headers)).dom().len() < 6554,
    ensures
        existed == (lines_of(header_fields(*old(headers)), name@).len() > 0),
        header_fields(*final(headers)) == header_fields(*old(headers)).insert(
            name@,
            lines_of(header_fields(*old(headers)), name@).push(value@),
        ),
{
    headers.append(
        http::HeaderName::from_bytes(name.as_bytes()).unwrap(),
        HeaderValue::from_bytes(value).unwrap(),
    )
}

/// The field map of a request, from `Request::headers`.
///
/// No contract ties the map to the request: a name for it would have to be
/// generic over the body type, which the rules for names do not allow.
#[verifier::external_body]
pub fn request_headers<B>(request: &Request<B>) -> &HeaderMap {
    request.headers()
}

// ---------------------------------------------------------------------------
// Authority and media type
// ---------------------------------------------------------------------------

/// Whether `http::uri::Authority::from_str` accepts `s`.
pub uninterp spec fn authority_accepts(s: Seq<char>) -> bool;

/// Tests `text` with `http::uri::Authority::from_str`.
///
/// The `http` source shows that a parsed authority keeps the input text
/// unchanged, so acceptance is all that the parse decides.
#[verifier::external_body]
pub fn is_authority(text: &str) -> (accepted: bool)
    ensures
        accepted == authority_accepts(text@),
{
    text.parse::<http::uri::Authority>().is_ok()
}

/// The authority component of a request's URI, from `Request::uri` and
/// `Uri::authority`, as its text.
///
/// No contract ties the result to the request: a name for it would have to
/// be generic over the body type.
#[verifier::external_body]
pub fn request_uri_authority<B>(request: &Request<B>) -> Option<String> {
    request.uri().authority().map(|a| a.as_str().to_string())
}

/// The media type that `mime::Mime::from_str` reads from `s`, or `None` when
/// it refuses `s`.
pub uninterp spec fn parsed_media_type(s: Seq<char>) -> Option<mime::Mime>;

/// Parses `text` with `mime::Mime::from_str`.
///
/// `from_str` reads its argument only, so its result is named by
/// [`parsed_media_type`] of the text; the media-type grammar itself is not
/// stated.
#[verifier::external_body]
pub fn parse_media_type(text: &str) -> (media_type: Option<mime::Mime>)
    ensures
        media_type == parsed_media_type(text@),
{
    text.parse::<mime::Mime>().ok()
}

// ---------------------------------------------------------------------------
// Standard string operations
// ---------------------------------------------------------------------------

/// Every byte of `bytes` is ASCII.
pub open spec fn all_ascii(bytes: Seq<u8>) -> bool {
    forall|i: int| 0 <= i < bytes.len() ==> #[trigger] bytes[i] < 128
}

/// Reads ASCII bytes as text with `std::str::from_utf8`.
///
/// Bytes below 128 are valid UTF-8 and each stands for the character with
/// the same code.
#[verifier::external_body]
pub fn ascii_str(bytes: &[u8]) -> (text: Option<&str>)
    ensures
        all_ascii(bytes@) ==> text is Some,
        all_ascii(bytes@) ==> text.unwrap()@ == bytes@.map_values(|b: u8| b as char),
{
    std::str::from_utf8(bytes).ok()
}

/// Appends `c` to `s` with `String::push`.
#[verifier::external_body]
pub fn push_char(s: &mut String, c: char)
    ensures
        final(s)@ == old(s)@.push(c),
{
    s.push(c)
}

} // verus!
