//! Strict, trust-aware extraction of HTTP request metadata.
//!
//! The extractors read `http` field maps and return ordinary values. Field
//! assertions such as `Forwarded`, `X-Forwarded-*` and provider client-IP
//! fields are parsed strictly and never trusted implicitly: parsing an
//! address does not authenticate whoever sent it. Errors identify the field
//! and the category of failure, never the field value.
//!
//! The text grammars (quoted strings and parameters of `Forwarded`, IP and
//! socket addresses, comma lists, authorization schemes) are implemented and
//! specified here; field maps, URI authorities and media types come from the
//! `http` and `mime` crates.

pub mod api_key;
pub mod authority;
pub mod authorization;
pub mod client_ip;
pub mod client_ip_headers;
pub mod content_type;
pub mod error;
pub mod forwarded;
pub mod header;
pub mod ip;
pub mod outside;
pub mod request_id;
pub mod text;
pub mod x_forwarded;

pub use api_key::{extract_header_api_key, extract_request_api_key};
pub use authority::{
    extract_header_authority, extract_request_authority, host_authority, select_request_authority,
    Authority,
};
pub use authorization::{
    extract_header_authorization, extract_header_basic_credentials, extract_header_bearer_token,
    extract_request_authorization, extract_request_basic_credentials,
    extract_request_bearer_token, extract_scheme_credentials, BASIC_SCHEME, BEARER_SCHEME,
    SCHEME_SEPARATOR,
};
pub use client_ip::{
    extract_client_ip, extract_client_ip_with_headers, extract_proxy_client_ip,
    select_proxy_client_ip, select_socket_ip, ClientIpHeader, CLIENT_IP_HEADERS,
};
pub use client_ip_headers::{
    extract_header_cf_connecting_ip, extract_header_cloudfront_viewer_address,
    extract_header_fly_client_ip, extract_header_true_client_ip,
    extract_header_x_envoy_external_address, extract_header_x_real_ip,
    extract_request_cf_connecting_ip, extract_request_cloudfront_viewer_address,
    extract_request_fly_client_ip, extract_request_true_client_ip,
    extract_request_x_envoy_external_address, extract_request_x_real_ip, CF_CONNECTING_IP,
    CLOUDFRONT_VIEWER_ADDRESS, FLY_CLIENT_IP, TRUE_CLIENT_IP, X_ENVOY_EXTERNAL_ADDRESS, X_REAL_IP,
};
pub use content_type::{
    extract_header_content_type, extract_request_content_type, media_type_or_invalid,
};
pub use error::Error;
pub use forwarded::{
    extract_header_forwarded_for, extract_request_forwarded_for, extract_rightmost_forwarded,
    is_obfuscated_byte, is_quoted_pair_character, is_quoted_text_character, is_token_byte,
    parse_parameter_value, split_quoted, validate_node_port, FORWARDED,
};
pub use header::{
    append_header_value, extract_single_header_text, extract_single_header_value,
    try_append_header_value, FieldName,
};
pub use ip::IpAddress;
pub use request_id::{extract_header_request_id, extract_request_request_id, REQUEST_ID, X_REQUEST_ID};
pub use text::trim_ows;
pub use x_forwarded::{
    extract_header_x_forwarded_for, extract_header_x_forwarded_proto,
    extract_request_x_forwarded_for, extract_request_x_forwarded_proto,
    extract_rightmost_x_forwarded_for, is_scheme, X_FORWARDED_FOR, X_FORWARDED_PROTO,
};

pub use http::{HeaderMap, HeaderName, HeaderValue, Request};
