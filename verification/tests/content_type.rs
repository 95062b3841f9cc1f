use http::{header::CONTENT_TYPE, HeaderMap, HeaderValue, Request};
use http_extract::{
    extract_header_content_type, extract_request_content_type, media_type_or_invalid, Error,
};

#[test]
fn extracts_a_singular_media_type() {
    let mut headers = HeaderMap::new();
    headers.insert(
        CONTENT_TYPE,
        "application/json; charset=utf-8".parse().unwrap(),
    );

    let value = extract_header_content_type(&headers).unwrap().unwrap();
    assert_eq!(value.type_(), "application");
    assert_eq!(value.subtype(), "json");
}

#[test]
fn rejects_duplicate_content_type() {
    let mut headers = HeaderMap::new();
    headers.append(CONTENT_TYPE, "application/json".parse().unwrap());
    headers.append(CONTENT_TYPE, "text/plain".parse().unwrap());

    assert!(matches!(
        extract_header_content_type(&headers),
        Err(Error::DuplicateHeader { .. })
    ));
}

#[test]
fn content_type_request_entry_point_delegates_to_headers() {
    let request = Request::builder()
        .header(CONTENT_TYPE, "application/json")
        .body(())
        .unwrap();
    assert_eq!(
        extract_request_content_type(&request).unwrap(),
        Some(mime::APPLICATION_JSON)
    );
}

#[test]
fn missing_content_type_is_none_and_invalid_is_an_error() {
    let mut headers = HeaderMap::new();
    assert_eq!(extract_header_content_type(&headers), Ok(None));

    for value in ["", "json"] {
        headers.insert(CONTENT_TYPE, value.parse().unwrap());
        assert_eq!(
            extract_header_content_type(&headers).unwrap_err().to_string(),
            "invalid header content-type",
            "{value:?}"
        );
    }

    headers.insert(CONTENT_TYPE, HeaderValue::from_bytes(&[0xff]).unwrap());
    assert!(matches!(
        extract_header_content_type(&headers),
        Err(Error::InvalidHeader { .. })
    ));
}

#[test]
fn media_type_or_invalid_keeps_the_parsed_type() {
    assert_eq!(
        media_type_or_invalid(Some(mime::TEXT_PLAIN)),
        Ok(mime::TEXT_PLAIN)
    );
    assert_eq!(
        media_type_or_invalid(None).unwrap_err().to_string(),
        "invalid header content-type"
    );
}

#[test]
fn the_returned_media_type_is_the_parse_of_the_field_text() {
    let mut headers = HeaderMap::new();
    headers.insert(CONTENT_TYPE, "text/html; charset=utf-8".parse().unwrap());
    let value = extract_header_content_type(&headers).unwrap().unwrap();
    assert_eq!(value, "text/html; charset=utf-8".parse::<mime::Mime>().unwrap());
    assert_eq!(value.essence_str(), "text/html");
}
