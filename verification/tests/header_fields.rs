use http::{header::USER_AGENT, HeaderMap, HeaderValue};
use http_extract::{
    append_header_value, extract_single_header_text, extract_single_header_value,
    try_append_header_value, Error, FieldName,
};

fn user_agent() -> FieldName {
    FieldName::from_static("user-agent")
}

#[test]
fn distinguishes_missing_invalid_and_duplicate() {
    let name = user_agent();
    let mut headers = HeaderMap::new();
    assert_eq!(extract_single_header_text(&headers, &name), Ok(None));

    headers.insert(USER_AGENT, HeaderValue::from_bytes(&[0xff]).unwrap());
    assert!(matches!(
        extract_single_header_text(&headers, &name),
        Err(Error::InvalidHeader { .. })
    ));

    headers.clear();
    headers.append(USER_AGENT, HeaderValue::from_static("one"));
    headers.append(USER_AGENT, HeaderValue::from_static("two"));
    assert!(matches!(
        extract_single_header_text(&headers, &name),
        Err(Error::DuplicateHeader { .. })
    ));
}

#[test]
fn append_preserves_existing_values() {
    let mut headers = HeaderMap::new();
    let name = FieldName::from_static("x-example");
    assert!(!append_header_value(&mut headers, &name, b"first"));
    assert!(append_header_value(&mut headers, &name, b"second"));
    assert_eq!(
        headers
            .get_all("x-example")
            .iter()
            .map(HeaderValue::to_str)
            .collect::<Result<Vec<_>, _>>()
            .unwrap(),
        vec!["first", "second"]
    );
}

#[test]
fn single_value_is_returned_raw() {
    let name = user_agent();
    let mut headers = HeaderMap::new();
    headers.insert(USER_AGENT, HeaderValue::from_bytes(b"agent/1.0 \xfa").unwrap());
    assert_eq!(
        extract_single_header_value(&headers, &name),
        Ok(Some(&b"agent/1.0 \xfa"[..]))
    );
    assert_eq!(extract_single_header_value(&HeaderMap::new(), &name), Ok(None));
}

#[test]
fn empty_text_is_kept() {
    let name = user_agent();
    let mut headers = HeaderMap::new();
    headers.insert(USER_AGENT, HeaderValue::from_static(""));
    assert_eq!(extract_single_header_text(&headers, &name), Ok(Some("")));
}

#[test]
fn appended_value_reads_back_until_duplicated() {
    let mut headers = HeaderMap::new();
    let name = FieldName::from_static("x-example");
    append_header_value(&mut headers, &name, b"only");
    assert_eq!(extract_single_header_text(&headers, &name), Ok(Some("only")));
    append_header_value(&mut headers, &name, b"again");
    assert!(matches!(
        extract_single_header_text(&headers, &name),
        Err(Error::DuplicateHeader { .. })
    ));
}

#[test]
fn field_names_are_normalized_or_refused() {
    assert_eq!(
        FieldName::parse("X-Real-IP").map(|n| n.as_str().to_owned()),
        Some("x-real-ip".to_owned())
    );
    assert!(FieldName::parse("not a header").is_none());
    assert!(FieldName::parse("").is_none());
}

#[test]
fn error_messages_name_the_field_only() {
    let name = FieldName::from_static("x-example");
    assert_eq!(
        Error::InvalidHeader { name: name.clone() }.to_string(),
        "invalid header x-example"
    );
    assert_eq!(
        Error::DuplicateHeader { name }.to_string(),
        "header x-example occurs more than once"
    );
    assert_eq!(
        Error::UnsupportedHeaderName { name: "bogus".to_owned() }.to_string(),
        "unsupported header bogus"
    );
}

#[test]
fn try_append_refuses_bytes_that_a_field_value_cannot_hold() {
    let mut headers = HeaderMap::new();
    let name = FieldName::from_static("x-example");
    assert_eq!(try_append_header_value(&mut headers, &name, b"one\ttab"), Some(false));
    assert_eq!(try_append_header_value(&mut headers, &name, b"bad\nline"), None);
    assert_eq!(try_append_header_value(&mut headers, &name, &[0x7f]), None);
    assert_eq!(try_append_header_value(&mut headers, &name, &[0x80]), Some(true));
    assert_eq!(headers.get_all("x-example").iter().count(), 2);
}

#[test]
fn http_types_are_re_exported() {
    let name = http_extract::HeaderName::from_static("x-example");
    let request = http_extract::Request::builder()
        .uri("https://example.com/items")
        .header(name.clone(), http_extract::HeaderValue::from_static("metadata"))
        .body(())
        .unwrap();
    let field = FieldName::parse(name.as_str()).unwrap();
    assert_eq!(
        extract_single_header_text(request.headers(), &field),
        Ok(Some("metadata"))
    );
}
