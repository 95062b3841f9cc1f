//! Proxy-aware client IP selection over the supported client-IP fields.
//!
//! [`extract_client_ip`] checks the fields in [`CLIENT_IP_HEADERS`] order,
//! while [`extract_client_ip_with_headers`] takes an explicit order of
//! [`ClientIpHeader`] values. The first present field wins; a present but
//! malformed field is an error and lower-priority fields are not consulted.
//! [`extract_proxy_client_ip`] uses the default order and falls back to the
//! transport peer only when every default field is absent. None of these
//! selectors authenticates the sender: field-derived results stay raw and
//! untrusted. RFC 7239 standardizes `Forwarded`; the other fields are de
//! facto conventions, and no standard defines a precedence between them.

use vstd::prelude::*;

use http::{HeaderMap, Request};

use crate::client_ip_headers::{
    cloudfront_spec, extract_header_cf_connecting_ip, extract_header_cloudfront_viewer_address,
    extract_header_fly_client_ip, extract_header_true_client_ip,
    extract_header_x_envoy_external_address, extract_header_x_real_ip, single_ip_spec,
    CF_CONNECTING_IP, CLOUDFRONT_VIEWER_ADDRESS, FLY_CLIENT_IP, TRUE_CLIENT_IP,
    X_ENVOY_EXTERNAL_ADDRESS, X_REAL_IP,
};
use crate::error::{Error, ErrorView};
use crate::forwarded::{extract_rightmost_forwarded, forwarded_field_spec, FORWARDED};
use crate::header::FieldName;
use crate::ip::{ip_result_view, rightmost, IpAddress, IpAddressView};
use crate::outside::{header_fields, normalized_field_name, request_headers};
use crate::text::str_equal;
use crate::x_forwarded::{extract_rightmost_x_forwarded_for, x_forwarded_for_spec, X_FORWARDED_FOR};

verus! {

/// A supported client IP field and its parsing rule.
///
/// Choosing a variant does not authenticate the sender or make the extracted
/// value trustworthy.
#[derive(Clone, Copy, Debug, Eq, PartialEq)]
pub enum ClientIpHeader {
    /// `CF-Connecting-IP`.
    CfConnectingIp,
    /// `X-Real-IP`.
    XRealIp,
    /// RFC 7239 `Forwarded`, rightmost `for=` address.
    Forwarded,
    /// `X-Forwarded-For`, rightmost address.
    XForwardedFor,
    /// `CloudFront-Viewer-Address`.
    CloudFrontViewerAddress,
    /// `Fly-Client-IP`.
    FlyClientIp,
    /// `True-Client-IP`.
    TrueClientIp,
    /// `X-Envoy-External-Address`.
    XEnvoyExternalAddress,
}

/// The effective field order of [`extract_client_ip`]: the standardized
/// `Forwarded` first, then `X-Forwarded-For`, `X-Real-IP` and
/// `CF-Connecting-IP`. This order is a library convention, not an
/// RFC-defined precedence or trust policy.
pub const CLIENT_IP_HEADERS: [ClientIpHeader; 4] = [
    ClientIpHeader::Forwarded,
    ClientIpHeader::XForwardedFor,
    ClientIpHeader::XRealIp,
    ClientIpHeader::CfConnectingIp,
];

/// The default order as a sequence.
pub open spec fn default_sources() -> Seq<ClientIpHeader> {
    seq![
        ClientIpHeader::Forwarded,
        ClientIpHeader::XForwardedFor,
        ClientIpHeader::XRealIp,
        ClientIpHeader::CfConnectingIp,
    ]
}

/// The field name of each supported source.
pub open spec fn source_name(source: ClientIpHeader) -> Seq<char> {
    match source {
        ClientIpHeader::CfConnectingIp => CF_CONNECTING_IP@,
        ClientIpHeader::XRealIp => X_REAL_IP@,
        ClientIpHeader::Forwarded => FORWARDED@,
        ClientIpHeader::XForwardedFor => X_FORWARDED_FOR@,
        ClientIpHeader::CloudFrontViewerAddress => CLOUDFRONT_VIEWER_ADDRESS@,
        ClientIpHeader::FlyClientIp => FLY_CLIENT_IP@,
        ClientIpHeader::TrueClientIp => TRUE_CLIENT_IP@,
        ClientIpHeader::XEnvoyExternalAddress => X_ENVOY_EXTERNAL_ADDRESS@,
    }
}

/// The address that one source asserts in a field map. `Forwarded` and
/// `X-Forwarded-For` contribute their rightmost address.
pub open spec fn source_spec(fields: Map<Seq<char>, Seq<Seq<u8>>>, source: ClientIpHeader) -> Result<
    Option<IpAddressView>,
    ErrorView,
> {
    match source {
        ClientIpHeader::Forwarded => rightmost(forwarded_field_spec(fields)),
        ClientIpHeader::XForwardedFor => rightmost(x_forwarded_for_spec(fields)),
        ClientIpHeader::CloudFrontViewerAddress => cloudfront_spec(fields),
        _ => single_ip_spec(fields, source_name(source)),
    }
}

/// The address selected by `sources` in order: the result of the first
/// source that is not absent, or absent when every source is.
pub open spec fn client_ip_spec(
    fields: Map<Seq<char>, Seq<Seq<u8>>>,
    sources: Seq<ClientIpHeader>,
) -> Result<Option<IpAddressView>, ErrorView>
    decreases sources.len(),
{
    if sources.len() == 0 {
        Ok(None)
    } else {
        match source_spec(fields, sources[0]) {
            Ok(None) => client_ip_spec(fields, sources.drop_first()),
            selected => selected,
        }
    }
}

/// The result of a source or a selection that asserts nothing.
pub open spec fn absent() -> Result<Option<IpAddressView>, ErrorView> {
    Ok(None)
}

/// The default order is the order of [`CLIENT_IP_HEADERS`].
pub proof fn law_default_sources_are_the_constant()
    ensures
        default_sources() == CLIENT_IP_HEADERS@,
{
    assert(default_sources() =~= CLIENT_IP_HEADERS@);
}

/// The default selection consults `Forwarded`, then `X-Forwarded-For`, then
/// `X-Real-IP`, then `CF-Connecting-IP`, and the first of them that is not
/// absent decides.
pub proof fn law_default_order_is_standard_first(fields: Map<Seq<char>, Seq<Seq<u8>>>)
    ensures
        client_ip_spec(fields, CLIENT_IP_HEADERS@) == (match source_spec(
            fields,
            ClientIpHeader::Forwarded,
        ) {
            Ok(None) => match source_spec(fields, ClientIpHeader::XForwardedFor) {
                Ok(None) => match source_spec(fields, ClientIpHeader::XRealIp) {
                    Ok(None) => source_spec(fields, ClientIpHeader::CfConnectingIp),
                    selected => selected,
                },
                selected => selected,
            },
            selected => selected,
        }),
{
    let order = CLIENT_IP_HEADERS@;
    assert(order.len() == 4);
    assert(order[0] == ClientIpHeader::Forwarded);
    assert(order[1] == ClientIpHeader::XForwardedFor);
    assert(order[2] == ClientIpHeader::XRealIp);
    assert(order[3] == ClientIpHeader::CfConnectingIp);
    let o1 = order.drop_first();
    let o2 = o1.drop_first();
    let o3 = o2.drop_first();
    let o4 = o3.drop_first();
    assert(o4.len() == 0);
    assert(o1[0] == ClientIpHeader::XForwardedFor);
    assert(o2[0] == ClientIpHeader::XRealIp);
    assert(o3[0] == ClientIpHeader::CfConnectingIp);
    assert(client_ip_spec(fields, o4) == absent());
    assert(client_ip_spec(fields, o3) == source_spec(fields, ClientIpHeader::CfConnectingIp));
    assert(client_ip_spec(fields, o2) == (match source_spec(fields, ClientIpHeader::XRealIp) {
        Ok(None) => client_ip_spec(fields, o3),
        selected => selected,
    }));
    assert(client_ip_spec(fields, o1) == (match source_spec(fields, ClientIpHeader::XForwardedFor) {
        Ok(None) => client_ip_spec(fields, o2),
        selected => selected,
    }));
    assert(client_ip_spec(fields, order) == (match source_spec(fields, ClientIpHeader::Forwarded) {
        Ok(None) => client_ip_spec(fields, o1),
        selected => selected,
    }));
}

/// The first source that is not absent decides the selection: its address,
/// or its error, is the result, and later sources are not consulted.
pub proof fn law_first_present_source_decides(
    fields: Map<Seq<char>, Seq<Seq<u8>>>,
    sources: Seq<ClientIpHeader>,
    i: int,
)
    requires
        0 <= i < sources.len(),
        forall|j: int| 0 <= j < i ==> source_spec(fields, #[trigger] sources[j]) == absent(),
        source_spec(fields, sources[i]) != absent(),
    ensures
        client_ip_spec(fields, sources) == source_spec(fields, sources[i]),
    decreases i,
{
    if i > 0 {
        let rest = sources.drop_first();
        assert(source_spec(fields, sources[0]) == absent());
        assert forall|j: int| 0 <= j < i - 1 implies source_spec(fields, #[trigger] rest[j])
            == absent() by {
            assert(rest[j] == sources[j + 1]);
        }
        assert(rest[i - 1] == sources[i]);
        law_first_present_source_decides(fields, rest, i - 1);
    }
}

/// When no source asserts anything, including when there is no source, the
/// selection asserts nothing.
pub proof fn law_all_absent_sources_select_nothing(
    fields: Map<Seq<char>, Seq<Seq<u8>>>,
    sources: Seq<ClientIpHeader>,
)
    requires
        forall|j: int| 0 <= j < sources.len() ==> source_spec(fields, #[trigger] sources[j]) == absent(),
    ensures
        client_ip_spec(fields, sources) == absent(),
    decreases sources.len(),
{
    if sources.len() > 0 {
        let rest = sources.drop_first();
        assert(source_spec(fields, sources[0]) == absent());
        assert forall|j: int| 0 <= j < rest.len() implies source_spec(fields, #[trigger] rest[j])
            == absent() by {
            assert(rest[j] == sources[j + 1]);
        }
        law_all_absent_sources_select_nothing(fields, rest);
    }
}

/// Orders compose: the order `a` followed by `b` consults `b` only when `a`
/// selects nothing.
pub proof fn law_order_concatenation(
    fields: Map<Seq<char>, Seq<Seq<u8>>>,
    a: Seq<ClientIpHeader>,
    b: Seq<ClientIpHeader>,
)
    ensures
        client_ip_spec(fields, a + b) == (match client_ip_spec(fields, a) {
            Ok(None) => client_ip_spec(fields, b),
            selected => selected,
        }),
    decreases a.len(),
{
    if a.len() == 0 {
        assert(a + b =~= b);
    } else {
        assert((a + b).drop_first() =~= a.drop_first() + b);
        assert((a + b)[0] == a[0]);
        law_order_concatenation(fields, a.drop_first(), b);
    }
}

/// An error of one source names that source's field and its category only.
pub proof fn lemma_source_errors_name_the_source(
    fields: Map<Seq<char>, Seq<Seq<u8>>>,
    source: ClientIpHeader,
)
    ensures
        source_spec(fields, source) matches Err(e) ==> e == ErrorView::InvalidHeader(
            source_name(source),
        ) || e == ErrorView::DuplicateHeader(source_name(source)),
{
}

/// An error of a selection names one of the selected fields and its
/// category, never a value.
pub proof fn law_selection_errors_name_a_source(
    fields: Map<Seq<char>, Seq<Seq<u8>>>,
    sources: Seq<ClientIpHeader>,
)
    ensures
        client_ip_spec(fields, sources) matches Err(e) ==> exists|j: int|
            0 <= j < sources.len() && (e == ErrorView::InvalidHeader(
                source_name(#[trigger] sources[j]),
            ) || e == ErrorView::DuplicateHeader(source_name(sources[j]))),
    decreases sources.len(),
{
    if sources.len() > 0 {
        lemma_source_errors_name_the_source(fields, sources[0]);
        let rest = sources.drop_first();
        law_selection_errors_name_a_source(fields, rest);
        if let Err(e) = client_ip_spec(fields, sources) {
            if source_spec(fields, sources[0]) == absent() {
                let j = choose|j: int|
                    0 <= j < rest.len() && (e == ErrorView::InvalidHeader(
                        source_name(#[trigger] rest[j]),
                    ) || e == ErrorView::DuplicateHeader(source_name(rest[j])));
                assert(rest[j] == sources[j + 1]);
            } else {
                assert(sources[0] == sources[0]);
            }
        }
    }
}

/// The source that a normalized field name designates.
pub open spec fn source_named(name: Seq<char>) -> Option<ClientIpHeader> {
    if name == CF_CONNECTING_IP@ {
        Some(ClientIpHeader::CfConnectingIp)
    } else if name == X_REAL_IP@ {
        Some(ClientIpHeader::XRealIp)
    } else if name == FORWARDED@ {
        Some(ClientIpHeader::Forwarded)
    } else if name == X_FORWARDED_FOR@ {
        Some(ClientIpHeader::XForwardedFor)
    } else if name == CLOUDFRONT_VIEWER_ADDRESS@ {
        Some(ClientIpHeader::CloudFrontViewerAddress)
    } else if name == FLY_CLIENT_IP@ {
        Some(ClientIpHeader::FlyClientIp)
    } else if name == TRUE_CLIENT_IP@ {
        Some(ClientIpHeader::TrueClientIp)
    } else if name == X_ENVOY_EXTERNAL_ADDRESS@ {
        Some(ClientIpHeader::XEnvoyExternalAddress)
    } else {
        None
    }
}

/// The source that a configured name designates after field-name
/// normalization, or an unsupported-name error holding the name as given.
pub open spec fn parse_source_spec(source: Seq<char>) -> Result<ClientIpHeader, ErrorView> {
    match normalized_field_name(source) {
        None => Err(ErrorView::UnsupportedHeaderName(source)),
        Some(name) => match source_named(name) {
            Some(header) => Ok(header),
            None => Err(ErrorView::UnsupportedHeaderName(source)),
        },
    }
}

/// The view of a parsed source or an error.
pub open spec fn source_result_view(r: Result<ClientIpHeader, Error>) -> Result<
    ClientIpHeader,
    ErrorView,
> {
    match r {
        Ok(h) => Ok(h),
        Err(e) => Err(e@),
    }
}

impl ClientIpHeader {
    /// Parse a configured field name: it is normalized as a field name and
    /// must then name one of the supported sources.
    pub fn parse_name(source: &str) -> (header: Result<ClientIpHeader, Error>)
        ensures
            source_result_view(header) == parse_source_spec(source@),
    {
        let name = match FieldName::parse(source) {
            Some(name) => name,
            None => return Err(Error::unsupported_header_name(source)),
        };
        let text = name.as_str();
        if str_equal(text, CF_CONNECTING_IP) {
            Ok(ClientIpHeader::CfConnectingIp)
        } else if str_equal(text, X_REAL_IP) {
            Ok(ClientIpHeader::XRealIp)
        } else if str_equal(text, FORWARDED) {
            Ok(ClientIpHeader::Forwarded)
        } else if str_equal(text, X_FORWARDED_FOR) {
            Ok(ClientIpHeader::XForwardedFor)
        } else if str_equal(text, CLOUDFRONT_VIEWER_ADDRESS) {
            Ok(ClientIpHeader::CloudFrontViewerAddress)
        } else if str_equal(text, FLY_CLIENT_IP) {
            Ok(ClientIpHeader::FlyClientIp)
        } else if str_equal(text, TRUE_CLIENT_IP) {
            Ok(ClientIpHeader::TrueClientIp)
        } else if str_equal(text, X_ENVOY_EXTERNAL_ADDRESS) {
            Ok(ClientIpHeader::XEnvoyExternalAddress)
        } else {
            Err(Error::unsupported_header_name(source))
        }
    }

    /// Parse a configured field name, as [`ClientIpHeader::parse_name`].
    pub fn try_from(source: &str) -> (header: Result<ClientIpHeader, Error>)
        ensures
            source_result_view(header) == parse_source_spec(source@),
    {
        ClientIpHeader::parse_name(source)
    }

    /// The address this source asserts in `headers`.
    pub fn extract(self, headers: &HeaderMap) -> (address: Result<Option<IpAddress>, Error>)
        ensures
            ip_result_view(address) == source_spec(header_fields(*headers), self),
    {
        match self {
            ClientIpHeader::CfConnectingIp => extract_header_cf_connecting_ip(headers),
            ClientIpHeader::XRealIp => extract_header_x_real_ip(headers),
            ClientIpHeader::Forwarded => extract_rightmost_forwarded(headers),
            ClientIpHeader::XForwardedFor => extract_rightmost_x_forwarded_for(headers),
            ClientIpHeader::CloudFrontViewerAddress => extract_header_cloudfront_viewer_address(
                headers,
            ),
            ClientIpHeader::FlyClientIp => extract_header_fly_client_ip(headers),
            ClientIpHeader::TrueClientIp => extract_header_true_client_ip(headers),
            ClientIpHeader::XEnvoyExternalAddress => extract_header_x_envoy_external_address(
                headers,
            ),
        }
    }
}

impl core::str::FromStr for ClientIpHeader {
    type Err = Error;

    fn from_str(source: &str) -> (header: Result<ClientIpHeader, Error>)
        ensures
            source_result_view(header) == parse_source_spec(source@),
    {
        ClientIpHeader::parse_name(source)
    }
}

/// Extract a raw client IP assertion using caller-defined fields and order.
///
/// Sources are checked from left to right and the first present value wins.
/// An empty order, or no value in any source, returns `None`. A present but
/// malformed, duplicate or non-text source returns its error at once,
/// without falling through. Results stay raw and untrusted.
pub fn extract_client_ip_with_headers(headers: &HeaderMap, sources: &[ClientIpHeader]) -> (address:
    Result<Option<IpAddress>, Error>)
    ensures
        ip_result_view(address) == client_ip_spec(header_fields(*headers), sources@),
{
    let ghost fields = header_fields(*headers);
    let n = sources.len();
    let mut i: usize = 0;
    assert(sources@.skip(0) =~= sources@);
    while i < n
        invariant
            n == sources@.len(),
            fields == header_fields(*headers),
            i <= n,
            client_ip_spec(fields, sources@) == client_ip_spec(fields, sources@.skip(i as int)),
        decreases n - i,
    {
        let source = sources[i];
        assert(sources@.skip(i as int).drop_first() =~= sources@.skip(i + 1));
        assert(sources@.skip(i as int)[0] == source);
        match source.extract(headers) {
            Ok(None) => {},
            selected => return selected,
        }
        i = i + 1;
    }
    Ok(None)
}

/// Extract a raw client IP assertion in the [`CLIENT_IP_HEADERS`] order.
///
/// For `Forwarded` and `X-Forwarded-For` the rightmost address is used. The
/// result is untrusted; no transport peer or trusted-proxy configuration is
/// involved.
pub fn extract_client_ip(headers: &HeaderMap) -> (address: Result<Option<IpAddress>, Error>)
    ensures
        ip_result_view(address) == client_ip_spec(header_fields(*headers), default_sources()),
        ip_result_view(address) == client_ip_spec(header_fields(*headers), CLIENT_IP_HEADERS@),
{
    let order = CLIENT_IP_HEADERS;
    assert(order@ =~= default_sources());
    extract_client_ip_with_headers(headers, &order)
}

/// The socket peer of a request, without looking at any field: the peer
/// that Axum's `ConnectInfo` recorded takes precedence over a socket address
/// stored directly in the request; `None` when neither is present.
pub fn select_socket_ip(axum_peer: Option<IpAddress>, request_peer: Option<IpAddress>) -> (peer:
    Option<IpAddress>)
    ensures
        peer == (match axum_peer {
            Some(a) => Some(a),
            None => request_peer,
        }),
{
    match axum_peer {
        Some(a) => Some(a),
        None => request_peer,
    }
}

/// The proxy-aware client IP: the field-derived result in the default order,
/// or the transport peer when every default field is absent.
pub open spec fn proxy_client_ip_spec(
    fields: Map<Seq<char>, Seq<Seq<u8>>>,
    peer: Option<IpAddressView>,
) -> Result<Option<IpAddressView>, ErrorView> {
    match client_ip_spec(fields, default_sources()) {
        Ok(None) => Ok(peer),
        selected => selected,
    }
}

/// The peer is used exactly when every default source is absent; otherwise
/// the field-derived result, an address or an error, is returned and the peer
/// is not consulted.
pub proof fn law_proxy_peer_only_when_fields_absent(
    fields: Map<Seq<char>, Seq<Seq<u8>>>,
    peer: Option<IpAddressView>,
)
    ensures
        (forall|j: int|
            0 <= j < 4 ==> source_spec(fields, #[trigger] default_sources()[j]) == absent())
            ==> proxy_client_ip_spec(fields, peer) == Ok::<Option<IpAddressView>, ErrorView>(peer),
        client_ip_spec(fields, default_sources()) != absent() ==> proxy_client_ip_spec(fields, peer)
            == client_ip_spec(fields, default_sources()),
{
    if forall|j: int|
        0 <= j < 4 ==> source_spec(fields, #[trigger] default_sources()[j]) == absent() {
        law_all_absent_sources_select_nothing(fields, default_sources());
    }
}

/// The view of an optional peer address.
pub open spec fn peer_view(peer: Option<IpAddress>) -> Option<IpAddressView> {
    match peer {
        Some(a) => Some(a@),
        None => None,
    }
}

/// Select a proxy-aware client IP from `headers`, falling back to `peer`.
///
/// The default field order is applied first; only when every field in
/// [`CLIENT_IP_HEADERS`] is absent does `peer` come back. A malformed,
/// duplicate or non-text first-present field is an error and the peer is not
/// consulted. Field-derived addresses stay raw assertions.
pub fn select_proxy_client_ip(headers: &HeaderMap, peer: Option<IpAddress>) -> (address: Result<
    Option<IpAddress>,
    Error,
>)
    ensures
        ip_result_view(address) == proxy_client_ip_spec(header_fields(*headers), peer_view(peer)),
{
    match extract_client_ip(headers) {
        Ok(None) => Ok(peer),
        selected => selected,
    }
}

/// Extract a proxy-aware client IP from a request, falling back to the
/// transport peer `peer` that the server adapter recorded, by
/// [`select_proxy_client_ip`] on `request.headers()`.
///
/// This does not verify trusted proxy addresses; use it only where trusted
/// proxies remove or overwrite every supported client-IP field.
pub fn extract_proxy_client_ip<B>(request: &Request<B>, peer: Option<IpAddress>) -> (address:
    Result<Option<IpAddress>, Error>)
    ensures
        exists|h: HeaderMap|
            ip_result_view(address) == proxy_client_ip_spec(header_fields(h), peer_view(peer)),
{
    select_proxy_client_ip(request_headers(request), peer)
}

} // verus!
