use http::{HeaderMap, HeaderValue, Request};
use http_extract::{
    extract_header_x_forwarded_for, extract_header_x_forwarded_proto,
    extract_request_x_forwarded_for, extract_request_x_forwarded_proto,
    extract_rightmost_x_forwarded_for, is_scheme, Error, IpAddress, X_FORWARDED_FOR,
    X_FORWARDED_PROTO,
};

fn v4(a: u8, b: u8, c: u8, d: u8) -> IpAddress {
    IpAddress::V4([a, b, c, d])
}

#[test]
fn extracts_x_forwarded_for_across_field_lines() {
    let mut headers = HeaderMap::new();
    headers.append(X_FORWARDED_FOR, "192.0.2.1, 198.51.100.2".parse().unwrap());
    headers.append(X_FORWARDED_FOR, "203.0.113.3".parse().unwrap());

    assert_eq!(
        extract_header_x_forwarded_for(&headers).unwrap().unwrap(),
        vec![v4(192, 0, 2, 1), v4(198, 51, 100, 2), v4(203, 0, 113, 3)]
    );
}

#[test]
fn rejects_invalid_x_forwarded_for_values() {
    let mut headers = HeaderMap::new();
    for value in [
        "[2001:db8::1]",
        "[2001:db8::1]junk",
        "[2001:db8::1]:65536",
        "[2001:db8::1]:99999",
    ] {
        headers.insert(X_FORWARDED_FOR, value.parse().unwrap());
        assert!(
            matches!(
                extract_header_x_forwarded_for(&headers),
                Err(Error::InvalidHeader { .. })
            ),
            "unexpectedly accepted {value:?}",
        );
    }

    headers.insert(X_FORWARDED_FOR, HeaderValue::from_bytes(&[0xff]).unwrap());
    assert!(matches!(
        extract_header_x_forwarded_for(&headers),
        Err(Error::InvalidHeader { .. })
    ));
}

#[test]
fn accepts_bracketed_ipv6_with_valid_port() {
    let mut headers = HeaderMap::new();
    headers.insert(X_FORWARDED_FOR, "[2001:db8::1]:65535".parse().unwrap());
    assert_eq!(
        extract_header_x_forwarded_for(&headers).unwrap(),
        Some(vec![IpAddress::parse("2001:db8::1").unwrap()]),
    );
}

#[test]
fn extracts_and_normalizes_x_forwarded_proto() {
    let mut headers = HeaderMap::new();
    assert_eq!(extract_header_x_forwarded_proto(&headers).unwrap(), None);

    headers.append(X_FORWARDED_PROTO, "HTTPS, Web+TLS".parse().unwrap());
    assert_eq!(
        extract_header_x_forwarded_proto(&headers).unwrap().unwrap(),
        vec!["https".to_owned(), "web+tls".to_owned()]
    );

    headers.insert(X_FORWARDED_PROTO, "http_2".parse().unwrap());
    assert!(matches!(
        extract_header_x_forwarded_proto(&headers),
        Err(Error::InvalidHeader { .. })
    ));
}

#[test]
fn x_forwarded_request_entry_points_delegate_to_headers() {
    let request = Request::builder()
        .header(X_FORWARDED_FOR, "192.0.2.1")
        .header(X_FORWARDED_PROTO, "HTTPS")
        .body(())
        .unwrap();
    assert_eq!(
        extract_request_x_forwarded_for(&request).unwrap(),
        Some(vec![IpAddress::parse("192.0.2.1").unwrap()])
    );
    assert_eq!(
        extract_request_x_forwarded_proto(&request).unwrap(),
        Some(vec!["https".to_owned()])
    );
}

#[test]
fn rightmost_x_forwarded_for_is_the_last_item_of_the_last_line() {
    let mut headers = HeaderMap::new();
    assert_eq!(extract_rightmost_x_forwarded_for(&headers), Ok(None));
    headers.append(X_FORWARDED_FOR, "192.0.2.1, 198.51.100.2".parse().unwrap());
    headers.append(X_FORWARDED_FOR, " 203.0.113.3 ".parse().unwrap());
    assert_eq!(
        extract_rightmost_x_forwarded_for(&headers),
        Ok(Some(v4(203, 0, 113, 3)))
    );
}

#[test]
fn x_forwarded_for_accepts_ports_and_brackets_only_in_socket_form() {
    let mut headers = HeaderMap::new();
    headers.insert(X_FORWARDED_FOR, "192.0.2.1:8080, [::1]".parse().unwrap());
    assert!(matches!(
        extract_header_x_forwarded_for(&headers),
        Err(Error::InvalidHeader { .. })
    ));
    headers.insert(X_FORWARDED_FOR, "192.0.2.1:8080, ::1".parse().unwrap());
    assert_eq!(
        extract_header_x_forwarded_for(&headers).unwrap().unwrap(),
        vec![v4(192, 0, 2, 1), IpAddress::V6([0, 0, 0, 0, 0, 0, 0, 1])]
    );
}

#[test]
fn x_forwarded_for_rejects_empty_items() {
    let mut headers = HeaderMap::new();
    for value in ["", "192.0.2.1,", ",192.0.2.1", "192.0.2.1,,198.51.100.2"] {
        headers.insert(X_FORWARDED_FOR, value.parse().unwrap());
        assert!(
            matches!(
                extract_header_x_forwarded_for(&headers),
                Err(Error::InvalidHeader { .. })
            ),
            "unexpectedly accepted {value:?}",
        );
    }
}

#[test]
fn scheme_grammar() {
    assert!(is_scheme("https"));
    assert!(is_scheme("web+tls"));
    assert!(is_scheme("a1.-+"));
    assert!(!is_scheme(""));
    assert!(!is_scheme("1http"));
    assert!(!is_scheme("http_2"));
}
