use http::{HeaderMap, HeaderValue, Request};
use http_extract::{
    extract_header_forwarded_for, extract_request_forwarded_for, extract_rightmost_forwarded,
    parse_parameter_value, split_quoted, validate_node_port, Error, IpAddress, FORWARDED,
};

fn v4(a: u8, b: u8, c: u8, d: u8) -> IpAddress {
    IpAddress::V4([a, b, c, d])
}

#[test]
fn returns_none_when_forwarded_is_absent() {
    assert_eq!(extract_header_forwarded_for(&HeaderMap::new()).unwrap(), None);
}

#[test]
fn extracts_every_for_ip_in_wire_order() {
    let mut headers = HeaderMap::new();
    headers.insert(
        FORWARDED,
        "for=192.0.2.60;proto=https, For=\"[2001:db8:cafe::17]:4711\";by=_edge, for=\"198.51.100.4:_port\";ext=\"a,b;c\""
            .parse()
            .unwrap(),
    );

    assert_eq!(
        extract_header_forwarded_for(&headers).unwrap().unwrap(),
        vec![
            v4(192, 0, 2, 60),
            IpAddress::V6([0x2001, 0xdb8, 0xcafe, 0, 0, 0, 0, 0x17]),
            v4(198, 51, 100, 4),
        ]
    );
}

#[test]
fn extracts_for_ip_without_parsing_other_parameters() {
    let mut headers = HeaderMap::new();
    headers.insert(
        FORWARDED,
        "for=52.159.243.17;host=example.vercel.app;proto=https;sig=c2lnbmF0dXJlCg==;exp=1786417338"
            .parse()
            .unwrap(),
    );

    assert_eq!(
        extract_header_forwarded_for(&headers).unwrap().unwrap(),
        vec![v4(52, 159, 243, 17)]
    );
}

#[test]
fn forwarded_request_entry_point_delegates_to_headers() {
    let request = Request::builder()
        .header(FORWARDED, "for=192.0.2.1")
        .body(())
        .unwrap();
    assert_eq!(
        extract_request_forwarded_for(&request).unwrap(),
        Some(vec![v4(192, 0, 2, 1)])
    );
}

#[test]
fn rejects_a_duplicate_or_non_text_field() {
    let mut headers = HeaderMap::new();
    headers.append(FORWARDED, "for=192.0.2.1".parse().unwrap());
    headers.append(FORWARDED, "for=198.51.100.2".parse().unwrap());
    assert!(matches!(
        extract_header_forwarded_for(&headers),
        Err(Error::DuplicateHeader { .. })
    ));

    headers.clear();
    headers.insert(FORWARDED, HeaderValue::from_bytes(&[0xff]).unwrap());
    assert!(matches!(
        extract_header_forwarded_for(&headers),
        Err(Error::InvalidHeader { .. })
    ));
}

#[test]
fn rejects_any_element_that_cannot_extend_a_continuous_ip_chain() {
    for value in [
        "",
        "for=192.0.2.1,",
        "for=192.0.2.1,,for=198.51.100.2",
        "proto=https",
        "for=unknown",
        "for=_hidden",
        "for=example.com",
        "for=192.0.2.1:443",
        "for=\"[not-an-ip]\"",
        "for=192.0.2.1;for=198.51.100.2",
        "for=192.0.2.1;broken",
        "for=192.0.2.1;proto=\"unterminated",
    ] {
        let mut headers = HeaderMap::new();
        headers.insert(FORWARDED, value.parse().unwrap());
        assert!(
            matches!(
                extract_header_forwarded_for(&headers),
                Err(Error::InvalidHeader { .. })
            ),
            "unexpectedly accepted {value:?}"
        );
    }
}

#[test]
fn rightmost_forwarded_is_the_last_element() {
    let mut headers = HeaderMap::new();
    assert_eq!(extract_rightmost_forwarded(&headers), Ok(None));
    headers.insert(FORWARDED, "for=192.0.2.1, for=198.51.100.2".parse().unwrap());
    assert_eq!(
        extract_rightmost_forwarded(&headers),
        Ok(Some(v4(198, 51, 100, 2)))
    );
}

#[test]
fn quoted_ipv4_node_with_port_and_bracketed_ipv6_without_port() {
    let mut headers = HeaderMap::new();
    headers.insert(
        FORWARDED,
        "for=\"192.0.2.1:8080\", for=\"[::1]\"".parse().unwrap(),
    );
    assert_eq!(
        extract_header_forwarded_for(&headers).unwrap().unwrap(),
        vec![v4(192, 0, 2, 1), IpAddress::V6([0, 0, 0, 0, 0, 0, 0, 1])]
    );
}

#[test]
fn split_quoted_ignores_quoted_delimiters_and_rejects_open_quotes() {
    assert_eq!(
        split_quoted("a;\"b;c\";d", ';').unwrap(),
        vec!["a", "\"b;c\"", "d"]
    );
    assert_eq!(split_quoted("x\"\\\"\"y,z", ',').unwrap(), vec!["x\"\\\"\"y", "z"]);
    assert_eq!(split_quoted("", ',').unwrap(), vec![""]);
    assert!(split_quoted("\"open", ',').is_err());
    assert!(split_quoted("\"esc\\", ',').is_err());
    assert_eq!(split_quoted("a\\,b", ',').unwrap(), vec!["a\\", "b"]);
}

#[test]
fn parameter_values_are_tokens_or_quoted_strings() {
    assert_eq!(
        parse_parameter_value(" token ").unwrap(),
        ("token".to_owned(), false)
    );
    assert_eq!(
        parse_parameter_value("\"a\\\"b\"").unwrap(),
        ("a\"b".to_owned(), true)
    );
    assert_eq!(parse_parameter_value("\"\"").unwrap(), (String::new(), true));
    assert!(parse_parameter_value("").is_err());
    assert!(parse_parameter_value("\"").is_err());
    assert!(parse_parameter_value("a b").is_err());
    assert!(parse_parameter_value("\"a\"b\"").is_err());
    assert!(parse_parameter_value("\"a\\\"").is_err());
}

#[test]
fn node_ports_are_numeric_or_obfuscated() {
    assert!(validate_node_port("4711").is_ok());
    assert!(validate_node_port("_port").is_ok());
    assert!(validate_node_port("").is_err());
    assert!(validate_node_port("123456").is_err());
    assert!(validate_node_port("_").is_err());
    assert!(validate_node_port("_a!").is_err());
}

#[test]
fn forwarded_accepts_the_node_forms_of_the_strict_profile() {
    for (value, expected) in [
        ("For = 192.0.2.1", vec![v4(192, 0, 2, 1)]),
        ("for=\"192.0.2.1\"", vec![v4(192, 0, 2, 1)]),
        ("for=\"192.0.2.1:99999\"", vec![v4(192, 0, 2, 1)]),
        (
            "for=\"[::1]:_abc\"",
            vec![IpAddress::V6([0, 0, 0, 0, 0, 0, 0, 1])],
        ),
        ("by=x;for=192.0.2.1;host=\"a;b\"", vec![v4(192, 0, 2, 1)]),
        ("for=\"\\1\\9\\2.0.2.1\"", vec![v4(192, 0, 2, 1)]),
        (
            "for=192.0.2.1 ,\tfor=198.51.100.2",
            vec![v4(192, 0, 2, 1), v4(198, 51, 100, 2)],
        ),
    ] {
        let mut headers = HeaderMap::new();
        headers.insert(FORWARDED, value.parse().unwrap());
        assert_eq!(
            extract_header_forwarded_for(&headers).unwrap(),
            Some(expected),
            "{value:?}"
        );
    }
}

#[test]
fn forwarded_rejects_nodes_outside_the_strict_profile() {
    for value in [
        "for=\"2001:db8::1\"",
        "for=\"192.0.2.1:123456\"",
        "for=\"[::1]x\"",
        "for=\"192.0.2.1:\"",
        "for=192.0.2.1;",
        " , for=192.0.2.1",
        "for=[::1]",
        "for=\"[::1]:\"",
        "for=\"[192.0.2.1]\"",
        "for=",
        "for=\"\"",
    ] {
        let mut headers = HeaderMap::new();
        headers.insert(FORWARDED, value.parse().unwrap());
        assert_eq!(
            extract_header_forwarded_for(&headers).unwrap_err().to_string(),
            "invalid header forwarded",
            "{value:?}"
        );
    }
}
