use http::{HeaderMap, HeaderValue, Request};
use http_extract::{extract_header_api_key, extract_request_api_key, Error};

#[test]
fn uses_x_api_key_before_api_key_fallback() {
    let mut headers = HeaderMap::new();
    assert_eq!(extract_header_api_key(&headers).unwrap(), None);

    headers.insert("api-key", "fallback".parse().unwrap());
    assert_eq!(extract_header_api_key(&headers).unwrap(), Some("fallback"));

    headers.insert("x-api-key", "preferred".parse().unwrap());
    assert_eq!(extract_header_api_key(&headers).unwrap(), Some("preferred"));
}

#[test]
fn preserves_empty_selected_values_without_falling_back() {
    let mut headers = HeaderMap::new();
    headers.insert("api-key", "fallback".parse().unwrap());
    headers.insert("x-api-key", "".parse().unwrap());
    assert_eq!(extract_header_api_key(&headers).unwrap(), Some(""));

    headers.remove("x-api-key");
    headers.insert("api-key", "".parse().unwrap());
    assert_eq!(extract_header_api_key(&headers).unwrap(), Some(""));
}

#[test]
fn api_key_rejects_duplicate_and_non_text_values_without_echoing_them() {
    let mut duplicate = HeaderMap::new();
    duplicate.append("x-api-key", "first-secret".parse().unwrap());
    duplicate.append("x-api-key", "second-secret".parse().unwrap());
    let error = extract_header_api_key(&duplicate).unwrap_err();
    assert!(matches!(error, Error::DuplicateHeader { .. }));
    assert!(!format!("{error:?}").contains("secret"));

    let mut duplicate_fallback = HeaderMap::new();
    duplicate_fallback.append("api-key", "first-secret".parse().unwrap());
    duplicate_fallback.append("api-key", "second-secret".parse().unwrap());
    assert!(matches!(
        extract_header_api_key(&duplicate_fallback),
        Err(Error::DuplicateHeader { .. })
    ));

    let mut headers = HeaderMap::new();
    headers.insert("x-api-key", HeaderValue::from_bytes(&[0xff]).unwrap());
    assert!(matches!(
        extract_header_api_key(&headers),
        Err(Error::InvalidHeader { .. })
    ));
}

#[test]
fn api_key_request_entry_point_delegates_to_headers() {
    let request = Request::builder()
        .header("api-key", "fallback")
        .body(())
        .unwrap();

    assert_eq!(extract_request_api_key(&request).unwrap(), Some("fallback"));
}

#[test]
fn preferred_api_key_errors_do_not_fall_back() {
    let mut headers = HeaderMap::new();
    headers.insert("api-key", "fallback".parse().unwrap());
    headers.append("x-api-key", "a".parse().unwrap());
    headers.append("x-api-key", "b".parse().unwrap());
    assert_eq!(
        extract_header_api_key(&headers).unwrap_err().to_string(),
        "header x-api-key occurs more than once"
    );
}
