use http::{HeaderMap, HeaderValue, Request};
use http_extract::{
    extract_header_request_id, extract_request_request_id, Error, REQUEST_ID, X_REQUEST_ID,
};

#[test]
fn missing_fallback_and_preferred_values_are_distinguished() {
    let mut headers = HeaderMap::new();
    assert_eq!(extract_header_request_id(&headers), Ok(None));

    headers.insert("request-id", "fallback".parse().unwrap());
    assert_eq!(extract_header_request_id(&headers), Ok(Some("fallback")));

    headers.insert("x-request-id", "preferred".parse().unwrap());
    assert_eq!(extract_header_request_id(&headers), Ok(Some("preferred")));
}

#[test]
fn preserves_empty_x_request_id_value_without_falling_back() {
    let mut headers = HeaderMap::new();
    headers.insert("request-id", "fallback".parse().unwrap());
    headers.insert("x-request-id", "".parse().unwrap());
    assert_eq!(extract_header_request_id(&headers), Ok(Some("")));
}

#[test]
fn rejects_duplicate_and_non_text_selected_fields_without_echoing_values() {
    let mut headers = HeaderMap::new();
    headers.append("x-request-id", "first-secret".parse().unwrap());
    headers.append("x-request-id", "second-secret".parse().unwrap());
    let error = extract_header_request_id(&headers).unwrap_err();
    assert!(matches!(error, Error::DuplicateHeader { .. }));
    assert!(!error.to_string().contains("secret"));

    headers.clear();
    headers.insert("x-request-id", HeaderValue::from_bytes(&[0xff]).unwrap());
    assert!(matches!(
        extract_header_request_id(&headers),
        Err(Error::InvalidHeader { .. })
    ));
}

#[test]
fn request_id_request_entry_point_delegates_to_headers() {
    let request = Request::builder()
        .header("request-id", "fallback")
        .body(())
        .unwrap();
    assert_eq!(extract_request_request_id(&request), Ok(Some("fallback")));
}

#[test]
fn request_id_field_names() {
    assert_eq!(X_REQUEST_ID, "x-request-id");
    assert_eq!(REQUEST_ID, "request-id");
    let mut headers = HeaderMap::new();
    headers.insert(REQUEST_ID, HeaderValue::from_bytes(&[0xff]).unwrap());
    assert_eq!(
        extract_header_request_id(&headers).unwrap_err().to_string(),
        "invalid header request-id"
    );
}
