use http::{header::HOST, HeaderMap, HeaderValue, Request};
use http_extract::{extract_header_authority, extract_request_authority, host_authority, Error};

#[test]
fn extracts_host_authority_only() {
    let mut headers = HeaderMap::new();
    assert_eq!(extract_header_authority(&headers).unwrap(), None);

    headers.insert(HOST, "example.com:8443".parse().unwrap());
    assert_eq!(
        extract_header_authority(&headers)
            .unwrap()
            .unwrap()
            .as_str(),
        "example.com:8443"
    );
}

#[test]
fn host_authority_rejects_invalid_duplicate_and_non_text_fields() {
    let mut invalid = HeaderMap::new();
    invalid.insert(HOST, "not a valid authority".parse().unwrap());
    assert!(matches!(
        extract_header_authority(&invalid),
        Err(Error::InvalidHeader { .. })
    ));

    let mut duplicate = HeaderMap::new();
    duplicate.append(HOST, "one.example".parse().unwrap());
    duplicate.append(HOST, "two.example".parse().unwrap());
    assert!(matches!(
        extract_header_authority(&duplicate),
        Err(Error::DuplicateHeader { .. })
    ));

    let mut non_text = HeaderMap::new();
    non_text.insert(HOST, HeaderValue::from_bytes(&[0xff]).unwrap());
    assert!(matches!(
        extract_header_authority(&non_text),
        Err(Error::InvalidHeader { .. })
    ));
}

#[test]
fn request_uri_authority_ignores_invalid_host() {
    let request = Request::builder()
        .uri("https://example.com/items")
        .header(HOST, "not a valid authority")
        .body(())
        .unwrap();
    assert_eq!(
        extract_request_authority(&request)
            .unwrap()
            .unwrap()
            .as_str(),
        "example.com"
    );
}

#[test]
fn request_uri_authority_ignores_duplicate_host() {
    let mut request = Request::builder()
        .uri("https://example.com/items")
        .body(())
        .unwrap();
    request
        .headers_mut()
        .append(HOST, "one.example".parse().unwrap());
    request
        .headers_mut()
        .append(HOST, "two.example".parse().unwrap());

    assert_eq!(
        extract_request_authority(&request)
            .unwrap()
            .unwrap()
            .as_str(),
        "example.com"
    );
}

#[test]
fn request_falls_back_to_host_without_uri_authority() {
    let request = Request::builder()
        .uri("/items")
        .header(HOST, "fallback.example:8443")
        .body(())
        .unwrap();

    assert_eq!(
        extract_request_authority(&request)
            .unwrap()
            .unwrap()
            .as_str(),
        "fallback.example:8443"
    );
}

#[test]
fn request_without_uri_or_host_authority_returns_none() {
    let request = Request::builder().uri("/items").body(()).unwrap();

    assert_eq!(extract_request_authority(&request).unwrap(), None);
}

#[test]
fn empty_host_is_invalid() {
    let mut headers = HeaderMap::new();
    headers.insert(HOST, HeaderValue::from_static(""));
    assert_eq!(
        extract_header_authority(&headers).unwrap_err().to_string(),
        "invalid header host"
    );
}

#[test]
fn host_authority_keeps_user_info_and_ipv6_literals() {
    let mut headers = HeaderMap::new();
    headers.insert(HOST, "[::1]:8080".parse().unwrap());
    assert_eq!(
        extract_header_authority(&headers).unwrap().unwrap().as_str(),
        "[::1]:8080"
    );
}

#[test]
fn host_authority_follows_the_acceptance_of_http() {
    assert_eq!(host_authority("example.com", true).unwrap().as_str(), "example.com");
    assert_eq!(
        host_authority("example.com", false).unwrap_err().to_string(),
        "invalid header host"
    );
}

#[test]
fn authorities_compare_ignoring_ascii_case() {
    let mut upper = HeaderMap::new();
    upper.insert(HOST, "Example.COM:8080".parse().unwrap());
    let mut lower = HeaderMap::new();
    lower.insert(HOST, "example.com:8080".parse().unwrap());
    let mut other = HeaderMap::new();
    other.insert(HOST, "example.org:8080".parse().unwrap());

    let upper = extract_header_authority(&upper).unwrap().unwrap();
    let lower = extract_header_authority(&lower).unwrap().unwrap();
    let other = extract_header_authority(&other).unwrap().unwrap();
    assert_eq!(upper.as_str(), "Example.COM:8080");
    assert_eq!(upper, lower);
    assert_ne!(upper, other);
}
