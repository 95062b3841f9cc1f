use http::{HeaderMap, HeaderValue, Request};
use http_extract::{
    extract_client_ip, extract_client_ip_with_headers, extract_proxy_client_ip,
    select_proxy_client_ip, select_socket_ip, ClientIpHeader, Error, IpAddress, CLIENT_IP_HEADERS, FORWARDED,
    X_FORWARDED_FOR,
};

fn ip(text: &str) -> IpAddress {
    IpAddress::parse(text).unwrap()
}

fn peer() -> IpAddress {
    IpAddress::parse_socket_address("203.0.113.8:443").unwrap()
}

#[test]
fn proxy_client_ip_prefers_a_header_over_the_peer() {
    let mut request = Request::new(());
    request
        .headers_mut()
        .insert(FORWARDED, "for=198.51.100.10".parse().unwrap());

    assert_eq!(
        extract_proxy_client_ip(&request, Some(peer())).unwrap(),
        Some(ip("198.51.100.10"))
    );
}

#[test]
fn proxy_client_ip_falls_back_to_the_peer_when_headers_are_absent() {
    let request = Request::new(());
    assert_eq!(
        extract_proxy_client_ip(&request, Some(peer())).unwrap(),
        Some(ip("203.0.113.8"))
    );
}

#[test]
fn proxy_client_ip_does_not_fall_back_after_an_invalid_header() {
    let mut request = Request::new(());
    request
        .headers_mut()
        .insert(FORWARDED, "for=not-an-ip".parse().unwrap());

    assert!(extract_proxy_client_ip(&request, Some(peer())).is_err());
}

#[test]
fn proxy_client_ip_returns_none_without_headers_or_peer() {
    assert_eq!(extract_proxy_client_ip(&Request::new(()), None).unwrap(), None);
}

#[test]
fn default_order_is_stable_and_first_present_header_wins() {
    assert_eq!(
        CLIENT_IP_HEADERS,
        [
            ClientIpHeader::Forwarded,
            ClientIpHeader::XForwardedFor,
            ClientIpHeader::XRealIp,
            ClientIpHeader::CfConnectingIp,
        ]
    );

    let mut headers = HeaderMap::new();
    headers.insert("cf-connecting-ip", "192.0.2.1".parse().unwrap());
    headers.insert("x-real-ip", "192.0.2.2".parse().unwrap());
    headers.insert(FORWARDED, "for=192.0.2.3".parse().unwrap());
    headers.insert(X_FORWARDED_FOR, "192.0.2.4".parse().unwrap());

    assert_eq!(extract_client_ip(&headers).unwrap(), Some(ip("192.0.2.3")));
}

#[test]
fn default_order_falls_through_only_when_a_header_is_absent() {
    let mut headers = HeaderMap::new();
    headers.insert(FORWARDED, "for=192.0.2.3".parse().unwrap());
    headers.insert(X_FORWARDED_FOR, "192.0.2.4".parse().unwrap());

    assert_eq!(extract_client_ip(&headers).unwrap(), Some(ip("192.0.2.3")));

    headers.insert("x-real-ip", "not-an-ip".parse().unwrap());
    assert_eq!(extract_client_ip(&headers).unwrap(), Some(ip("192.0.2.3")));

    headers.insert(FORWARDED, "for=unknown".parse().unwrap());
    assert!(matches!(
        extract_client_ip(&headers),
        Err(Error::InvalidHeader { .. })
    ));
}

#[test]
fn chain_headers_return_the_rightmost_address() {
    let mut headers = HeaderMap::new();
    headers.insert(FORWARDED, "for=192.0.2.1, for=198.51.100.2".parse().unwrap());
    assert_eq!(
        extract_client_ip_with_headers(&headers, &[ClientIpHeader::Forwarded]).unwrap(),
        Some(ip("198.51.100.2"))
    );

    headers.remove(FORWARDED);
    headers.insert(X_FORWARDED_FOR, "192.0.2.1, 198.51.100.3".parse().unwrap());
    assert_eq!(
        extract_client_ip_with_headers(&headers, &[ClientIpHeader::XForwardedFor]).unwrap(),
        Some(ip("198.51.100.3"))
    );
}

#[test]
fn custom_order_changes_precedence() {
    let mut headers = HeaderMap::new();
    headers.insert("cf-connecting-ip", "192.0.2.1".parse().unwrap());
    headers.insert("x-real-ip", "192.0.2.2".parse().unwrap());
    let custom_headers = [ClientIpHeader::XRealIp, ClientIpHeader::CfConnectingIp];

    assert_eq!(
        extract_client_ip_with_headers(&headers, &custom_headers).unwrap(),
        Some(ip("192.0.2.2"))
    );
    assert_eq!(extract_client_ip_with_headers(&headers, &[]).unwrap(), None);
}

#[test]
fn custom_order_supports_every_documented_single_value_header() {
    for (source, header) in [
        (ClientIpHeader::CfConnectingIp, "cf-connecting-ip"),
        (ClientIpHeader::XRealIp, "x-real-ip"),
        (ClientIpHeader::FlyClientIp, "fly-client-ip"),
        (ClientIpHeader::TrueClientIp, "true-client-ip"),
        (
            ClientIpHeader::XEnvoyExternalAddress,
            "x-envoy-external-address",
        ),
    ] {
        let mut headers = HeaderMap::new();
        headers.insert(header, "192.0.2.10".parse().unwrap());

        assert_eq!(
            extract_client_ip_with_headers(&headers, &[source]).unwrap(),
            Some(ip("192.0.2.10")),
            "source {header}",
        );
    }

    let mut headers = HeaderMap::new();
    headers.insert("cloudfront-viewer-address", "192.0.2.10:443".parse().unwrap());
    assert_eq!(
        extract_client_ip_with_headers(&headers, &[ClientIpHeader::CloudFrontViewerAddress])
            .unwrap(),
        Some(ip("192.0.2.10"))
    );
}

#[test]
fn parses_supported_header_names() {
    for (name, expected) in [
        ("cf-connecting-ip", ClientIpHeader::CfConnectingIp),
        ("X-Real-IP", ClientIpHeader::XRealIp),
        ("forwarded", ClientIpHeader::Forwarded),
        ("x-forwarded-for", ClientIpHeader::XForwardedFor),
        (
            "cloudfront-viewer-address",
            ClientIpHeader::CloudFrontViewerAddress,
        ),
        ("fly-client-ip", ClientIpHeader::FlyClientIp),
        ("true-client-ip", ClientIpHeader::TrueClientIp),
        (
            "x-envoy-external-address",
            ClientIpHeader::XEnvoyExternalAddress,
        ),
    ] {
        assert_eq!(ClientIpHeader::try_from(name).unwrap(), expected);
        assert_eq!(name.parse::<ClientIpHeader>().unwrap(), expected);
    }

    for header in ["forwarded-for", "not a header"] {
        let error = header.parse::<ClientIpHeader>().unwrap_err();
        assert!(matches!(error, Error::UnsupportedHeaderName { .. }));
        assert!(error.to_string().contains(header));
    }
}

#[test]
fn malformed_selected_source_does_not_fall_through() {
    let mut headers = HeaderMap::new();
    headers.insert(FORWARDED, "for=unknown".parse().unwrap());
    headers.insert(X_FORWARDED_FOR, "192.0.2.4".parse().unwrap());

    assert!(matches!(
        extract_client_ip_with_headers(
            &headers,
            &[ClientIpHeader::Forwarded, ClientIpHeader::XForwardedFor],
        ),
        Err(Error::InvalidHeader { .. })
    ));
}

#[test]
fn selected_source_errors_name_that_source() {
    let mut headers = HeaderMap::new();
    headers.insert("x-real-ip", HeaderValue::from_bytes(&[0xff]).unwrap());
    let error = extract_client_ip(&headers).unwrap_err();
    assert_eq!(error.to_string(), "invalid header x-real-ip");
}

#[test]
fn proxy_selection_uses_the_peer_only_when_fields_are_absent() {
    let headers = HeaderMap::new();
    assert_eq!(select_proxy_client_ip(&headers, Some(peer())), Ok(Some(peer())));
    assert_eq!(select_proxy_client_ip(&headers, None), Ok(None));

    let mut headers = HeaderMap::new();
    headers.insert("fly-client-ip", "192.0.2.10".parse().unwrap());
    assert_eq!(select_proxy_client_ip(&headers, Some(peer())), Ok(Some(peer())));

    headers.insert("cf-connecting-ip", "192.0.2.11".parse().unwrap());
    assert_eq!(
        select_proxy_client_ip(&headers, Some(peer())),
        Ok(Some(ip("192.0.2.11")))
    );
}

#[test]
fn repeated_names_parse_to_the_same_source() {
    assert_eq!(
        ClientIpHeader::try_from("CF-Connecting-IP"),
        ClientIpHeader::try_from("cf-connecting-ip")
    );
    assert!(matches!(
        ClientIpHeader::try_from(""),
        Err(Error::UnsupportedHeaderName { .. })
    ));
}

#[test]
fn axum_peer_takes_precedence_over_the_request_peer() {
    let axum_peer = ip("198.51.100.10");
    assert_eq!(select_socket_ip(Some(axum_peer), Some(peer())), Some(axum_peer));
    assert_eq!(select_socket_ip(None, Some(peer())), Some(peer()));
    assert_eq!(select_socket_ip(Some(axum_peer), None), Some(axum_peer));
    assert_eq!(select_socket_ip(None, None), None);
}
