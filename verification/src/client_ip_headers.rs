//! Direct extraction of common single-value client IP fields.
//!
//! Each function parses exactly one provider or proxy field and returns its
//! raw asserted address. `CF-Connecting-IP`, `CloudFront-Viewer-Address`,
//! `Fly-Client-IP`, `True-Client-IP`, `X-Envoy-External-Address` and
//! `X-Real-IP` are vendor or de facto conventions, not IETF standards. The
//! values are untrusted: no proxy is authenticated. Every extractor treats
//! its field as singular: absence returns `None`, while duplicate, non-text,
//! empty or malformed values return an error that does not hold the value.

use vstd::prelude::*;

use http::{HeaderMap, Request};

use crate::error::{Error, ErrorView};
use crate::header::{extract_single_header_text, single_field_text, FieldName};
use crate::ip::{
    ip_address_spec, ip_result_view, is_u16_text, socket_address_spec, u16_text, IpAddress,
    IpAddressView,
};
use crate::outside::{header_fields, request_headers};
use crate::text::{trim_whitespace, trim_whitespace_spec};

verus! {

/// The `CF-Connecting-IP` field name.
pub const CF_CONNECTING_IP: &'static str = "cf-connecting-ip";

/// The `CloudFront-Viewer-Address` field name.
pub const CLOUDFRONT_VIEWER_ADDRESS: &'static str = "cloudfront-viewer-address";

/// The `Fly-Client-IP` field name.
pub const FLY_CLIENT_IP: &'static str = "fly-client-ip";

/// The `True-Client-IP` field name.
pub const TRUE_CLIENT_IP: &'static str = "true-client-ip";

/// The `X-Envoy-External-Address` field name.
pub const X_ENVOY_EXTERNAL_ADDRESS: &'static str = "x-envoy-external-address";

/// The `X-Real-IP` field name.
pub const X_REAL_IP: &'static str = "x-real-ip";

/// The address of a singular field whose value, trimmed of whitespace, is an
/// IP address.
pub open spec fn single_ip_spec(fields: Map<Seq<char>, Seq<Seq<u8>>>, name: Seq<char>) -> Result<
    Option<IpAddressView>,
    ErrorView,
> {
    match single_field_text(fields, name) {
        Err(e) => Err(e),
        Ok(None) => Ok(None),
        Ok(Some(text)) => match ip_address_spec(trim_whitespace_spec(text)) {
            Some(a) => Ok(Some(a)),
            None => Err(ErrorView::InvalidHeader(name)),
        },
    }
}

/// The last index `k < n` with `s[k] == c`.
pub open spec fn last_char_index_before(s: Seq<char>, c: char, n: int) -> Option<int>
    decreases n,
{
    if n <= 0 {
        None
    } else if s[n - 1] == c {
        Some(n - 1)
    } else {
        last_char_index_before(s, c, n - 1)
    }
}

/// The address of a `CloudFront-Viewer-Address` value, trimmed of
/// whitespace: a socket address, or otherwise an IP address and a 16-bit
/// port around the last `:`, which covers CloudFront's unbracketed
/// IPv6-with-port form.
pub open spec fn cloudfront_address(s: Seq<char>) -> Option<IpAddressView> {
    let v = trim_whitespace_spec(s);
    match socket_address_spec(v) {
        Some(a) => Some(a),
        None => match last_char_index_before(v, ':', v.len() as int) {
            None => None,
            Some(p) => if u16_text(v.skip(p + 1)) {
                ip_address_spec(v.take(p))
            } else {
                None
            },
        },
    }
}

/// The `CloudFront-Viewer-Address` address of a field map.
pub open spec fn cloudfront_spec(fields: Map<Seq<char>, Seq<Seq<u8>>>) -> Result<
    Option<IpAddressView>,
    ErrorView,
> {
    match single_field_text(fields, CLOUDFRONT_VIEWER_ADDRESS@) {
        Err(e) => Err(e),
        Ok(None) => Ok(None),
        Ok(Some(text)) => match cloudfront_address(text) {
            Some(a) => Ok(Some(a)),
            None => Err(ErrorView::InvalidHeader(CLOUDFRONT_VIEWER_ADDRESS@)),
        },
    }
}

fn find_last_char(value: &str, c: char) -> (index: Option<usize>)
    ensures
        index matches Some(k) ==> last_char_index_before(value@, c, value@.len() as int) == Some(
            k as int,
        ) && k < value@.len(),
        index is None ==> last_char_index_before(value@, c, value@.len() as int) is None,
{
    let n = value.unicode_len();
    let mut i: usize = n;
    while i > 0
        invariant
            n == value@.len(),
            i <= n,
            last_char_index_before(value@, c, n as int) == last_char_index_before(
                value@,
                c,
                i as int,
            ),
        decreases i,
    {
        if value.get_char(i - 1) == c {
            return Some(i - 1);
        }
        i = i - 1;
    }
    None
}

fn parse_cloudfront_viewer_address(value: &str) -> (address: Option<IpAddress>)
    ensures
        address is Some <==> cloudfront_address(value@) is Some,
        address matches Some(a) ==> a@ == cloudfront_address(value@)->0,
{
    let v = trim_whitespace(value);
    match IpAddress::parse_socket_address(v) {
        Some(a) => return Some(a),
        None => {},
    }
    let p = match find_last_char(v, ':') {
        Some(p) => p,
        None => return None,
    };
    let n = v.unicode_len();
    let port = v.substring_char(p + 1, n);
    assert(port@ =~= v@.skip(p + 1));
    if !is_u16_text(port) {
        return None;
    }
    let address = v.substring_char(0, p);
    assert(address@ =~= v@.take(p as int));
    IpAddress::parse(address)
}

/// Extract the address of a singular field whose trimmed value is an IP.
fn extract_single_ip(headers: &HeaderMap, name: &FieldName) -> (address: Result<
    Option<IpAddress>,
    Error,
>)
    ensures
        ip_result_view(address) == single_ip_spec(header_fields(*headers), name@),
{
    match extract_single_header_text(headers, name) {
        Err(e) => Err(e),
        Ok(None) => Ok(None),
        Ok(Some(text)) => match IpAddress::parse(trim_whitespace(text)) {
            Some(a) => Ok(Some(a)),
            None => Err(Error::invalid_header(name.clone())),
        },
    }
}

/// Extract the raw, untrusted IP asserted by `CF-Connecting-IP`.
///
/// A missing field returns `None`; duplicate, non-text, empty or non-IP
/// values return an error. Surrounding whitespace is ignored. Cloudflare is
/// not authenticated.
pub fn extract_header_cf_connecting_ip(headers: &HeaderMap) -> (address: Result<
    Option<IpAddress>,
    Error,
>)
    ensures
        ip_result_view(address) == single_ip_spec(header_fields(*headers), CF_CONNECTING_IP@),
{
    proof {
        reveal_strlit("cf-connecting-ip");
    }
    extract_single_ip(headers, &FieldName::from_static(CF_CONNECTING_IP))
}

/// Extract `CF-Connecting-IP` from a complete request, by
/// [`extract_header_cf_connecting_ip`] on `request.headers()`.
pub fn extract_request_cf_connecting_ip<B>(request: &Request<B>) -> (address: Result<
    Option<IpAddress>,
    Error,
>)
    ensures
        exists|h: HeaderMap|
            ip_result_view(address) == single_ip_spec(header_fields(h), CF_CONNECTING_IP@),
{
    extract_header_cf_connecting_ip(request_headers(request))
}

/// Extract an untrusted client IP from AWS CloudFront's
/// `CloudFront-Viewer-Address` `IP:port` value.
///
/// IPv4 and CloudFront's unbracketed IPv6-with-port forms are supported, and
/// bracketed IPv6 socket addresses are accepted too. A missing field returns
/// `None`; duplicate, non-text, empty, missing-port, invalid-port or
/// invalid-IP values return an error. Surrounding whitespace is ignored.
pub fn extract_header_cloudfront_viewer_address(headers: &HeaderMap) -> (address: Result<
    Option<IpAddress>,
    Error,
>)
    ensures
        ip_result_view(address) == cloudfront_spec(header_fields(*headers)),
{
    proof {
        reveal_strlit("cloudfront-viewer-address");
    }
    let name = FieldName::from_static(CLOUDFRONT_VIEWER_ADDRESS);
    match extract_single_header_text(headers, &name) {
        Err(e) => Err(e),
        Ok(None) => Ok(None),
        Ok(Some(text)) => match parse_cloudfront_viewer_address(text) {
            Some(a) => Ok(Some(a)),
            None => Err(Error::invalid_header(name)),
        },
    }
}

/// Extract `CloudFront-Viewer-Address` from a complete request, by
/// [`extract_header_cloudfront_viewer_address`] on `request.headers()`.
pub fn extract_request_cloudfront_viewer_address<B>(request: &Request<B>) -> (address: Result<
    Option<IpAddress>,
    Error,
>)
    ensures
        exists|h: HeaderMap| ip_result_view(address) == cloudfront_spec(header_fields(h)),
{
    extract_header_cloudfront_viewer_address(request_headers(request))
}

/// Extract the raw, untrusted IP asserted by `Fly-Client-IP`.
///
/// A missing field returns `None`; duplicate, non-text, empty or non-IP
/// values return an error. Surrounding whitespace is ignored.
pub fn extract_header_fly_client_ip(headers: &HeaderMap) -> (address: Result<
    Option<IpAddress>,
    Error,
>)
    ensures
        ip_result_view(address) == single_ip_spec(header_fields(*headers), FLY_CLIENT_IP@),
{
    proof {
        reveal_strlit("fly-client-ip");
    }
    extract_single_ip(headers, &FieldName::from_static(FLY_CLIENT_IP))
}

/// Extract `Fly-Client-IP` from a complete request, by
/// [`extract_header_fly_client_ip`] on `request.headers()`.
pub fn extract_request_fly_client_ip<B>(request: &Request<B>) -> (address: Result<
    Option<IpAddress>,
    Error,
>)
    ensures
        exists|h: HeaderMap|
            ip_result_view(address) == single_ip_spec(header_fields(h), FLY_CLIENT_IP@),
{
    extract_header_fly_client_ip(request_headers(request))
}

/// Extract an untrusted client IP asserted by `True-Client-IP`.
///
/// A missing field returns `None`; duplicate, non-text, empty or non-IP
/// values return an error. Surrounding whitespace is ignored.
pub fn extract_header_true_client_ip(headers: &HeaderMap) -> (address: Result<
    Option<IpAddress>,
    Error,
>)
    ensures
        ip_result_view(address) == single_ip_spec(header_fields(*headers), TRUE_CLIENT_IP@),
{
    proof {
        reveal_strlit("true-client-ip");
    }
    extract_single_ip(headers, &FieldName::from_static(TRUE_CLIENT_IP))
}

/// Extract `True-Client-IP` from a complete request, by
/// [`extract_header_true_client_ip`] on `request.headers()`.
pub fn extract_request_true_client_ip<B>(request: &Request<B>) -> (address: Result<
    Option<IpAddress>,
    Error,
>)
    ensures
        exists|h: HeaderMap|
            ip_result_view(address) == single_ip_spec(header_fields(h), TRUE_CLIENT_IP@),
{
    extract_header_true_client_ip(request_headers(request))
}

/// Extract an untrusted client IP asserted by Envoy's
/// `X-Envoy-External-Address`.
///
/// A missing field returns `None`; duplicate, non-text, empty or non-IP
/// values return an error. Surrounding whitespace is ignored.
pub fn extract_header_x_envoy_external_address(headers: &HeaderMap) -> (address: Result<
    Option<IpAddress>,
    Error,
>)
    ensures
        ip_result_view(address) == single_ip_spec(
            header_fields(*headers),
            X_ENVOY_EXTERNAL_ADDRESS@,
        ),
{
    proof {
        reveal_strlit("x-envoy-external-address");
    }
    extract_single_ip(headers, &FieldName::from_static(X_ENVOY_EXTERNAL_ADDRESS))
}

/// Extract `X-Envoy-External-Address` from a complete request, by
/// [`extract_header_x_envoy_external_address`] on `request.headers()`.
pub fn extract_request_x_envoy_external_address<B>(request: &Request<B>) -> (address: Result<
    Option<IpAddress>,
    Error,
>)
    ensures
        exists|h: HeaderMap|
            ip_result_view(address) == single_ip_spec(header_fields(h), X_ENVOY_EXTERNAL_ADDRESS@),
{
    extract_header_x_envoy_external_address(request_headers(request))
}

/// Extract the raw, untrusted IP asserted by `X-Real-IP`.
///
/// A missing field returns `None`; duplicate, non-text, empty or non-IP
/// values return an error. Surrounding whitespace is ignored.
pub fn extract_header_x_real_ip(headers: &HeaderMap) -> (address: Result<
    Option<IpAddress>,
    Error,
>)
    ensures
        ip_result_view(address) == single_ip_spec(header_fields(*headers), X_REAL_IP@),
{
    proof {
        reveal_strlit("x-real-ip");
    }
    extract_single_ip(headers, &FieldName::from_static(X_REAL_IP))
}

/// Extract `X-Real-IP` from a complete request, by
/// [`extract_header_x_real_ip`] on `request.headers()`.
pub fn extract_request_x_real_ip<B>(request: &Request<B>) -> (address: Result<
    Option<IpAddress>,
    Error,
>)
    ensures
        exists|h: HeaderMap| ip_result_view(address) == single_ip_spec(header_fields(h), X_REAL_IP@),
{
    extract_header_x_real_ip(request_headers(request))
}

} // verus!
