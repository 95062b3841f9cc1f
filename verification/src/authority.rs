//! Request authority and `Host` field extraction (RFC 9110, Section 7.2).
//!
//! The authority is syntax-checked with `http`'s URI authority parser; no DNS
//! resolution, origin authorization or proxy trust decision is made.

use vstd::prelude::*;

use http::{HeaderMap, Request};

use crate::error::{Error, ErrorView};
use crate::header::{extract_single_header_text, single_field_text, FieldName};
use crate::text::{chars_eq_ignore_ascii_case, eq_ignore_ascii_case};
use crate::outside::{authority_accepts, header_fields, is_authority, request_headers, request_uri_authority};

verus! {

/// A request authority (`host[:port]`, possibly with user information), as
/// its text. Two authorities are equal when their texts are equal up to
/// ASCII case, as `http::uri::Authority` compares them.
#[derive(Clone, Debug, Eq)]
pub struct Authority {
    text: String,
}

impl View for Authority {
    type V = Seq<char>;

    closed spec fn view(&self) -> Seq<char> {
        self.text@
    }
}

impl Authority {
    /// The authority's text.
    pub fn as_str(&self) -> (text: &str)
        ensures
            text@ == self@,
    {
        self.text.as_str()
    }
}

/// Two authority texts are equal up to ASCII case.
pub open spec fn same_authority_text(a: Seq<char>, b: Seq<char>) -> bool {
    &&& a.len() == b.len()
    &&& forall|i: int| 0 <= i < a.len() ==> eq_ignore_ascii_case(#[trigger] a[i], b[i])
}

impl PartialEq for Authority {
    fn eq(&self, other: &Self) -> (equal: bool) {
        let a = self.text.as_str();
        let b = other.text.as_str();
        let n = a.unicode_len();
        if n != b.unicode_len() {
            return false;
        }
        let mut i: usize = 0;
        while i < n
            invariant
                n == a@.len(),
                n == b@.len(),
                a@ == self@,
                b@ == other@,
                i <= n,
                forall|j: int| 0 <= j < i ==> eq_ignore_ascii_case(#[trigger] a@[j], b@[j]),
            decreases n - i,
        {
            if !chars_eq_ignore_ascii_case(a.get_char(i), b.get_char(i)) {
                return false;
            }
            i = i + 1;
        }
        true
    }
}

impl vstd::std_specs::cmp::PartialEqSpecImpl for Authority {
    open spec fn obeys_eq_spec() -> bool {
        true
    }

    open spec fn eq_spec(&self, other: &Self) -> bool {
        same_authority_text(self@, other@)
    }
}

/// The `Host` field name.
pub open spec fn host_name() -> Seq<char> {
    "host"@
}

/// The `Host` authority of a field map: absent when `Host` is absent, its
/// text when the single line is a syntactically valid authority, an
/// invalid-field error when it is not (an empty value included).
pub open spec fn host_authority_spec(fields: Map<Seq<char>, Seq<Seq<u8>>>) -> Result<
    Option<Seq<char>>,
    ErrorView,
> {
    match single_field_text(fields, host_name()) {
        Err(e) => Err(e),
        Ok(None) => Ok(None),
        Ok(Some(text)) => if authority_accepts(text) {
            Ok(Some(text))
        } else {
            Err(ErrorView::InvalidHeader(host_name()))
        },
    }
}

/// The authority of a request: the URI authority when there is one, without
/// looking at `Host`; otherwise the `Host` authority.
pub open spec fn request_authority_spec(
    uri_authority: Option<Seq<char>>,
    fields: Map<Seq<char>, Seq<Seq<u8>>>,
) -> Result<Option<Seq<char>>, ErrorView> {
    match uri_authority {
        Some(a) => Ok(Some(a)),
        None => host_authority_spec(fields),
    }
}

/// A URI authority takes precedence: when the request URI has one, it is
/// the result whatever the `Host` field holds, even a duplicate or invalid
/// `Host`.
pub proof fn law_uri_authority_ignores_host(a: Seq<char>, fields: Map<Seq<char>, Seq<Seq<u8>>>)
    ensures
        request_authority_spec(Some(a), fields) == Ok::<Option<Seq<char>>, ErrorView>(Some(a)),
{
}

/// The view of an optional authority or an error.
pub open spec fn authority_result_view(r: Result<Option<Authority>, Error>) -> Result<
    Option<Seq<char>>,
    ErrorView,
> {
    match r {
        Ok(Some(a)) => Ok(Some(a@)),
        Ok(None) => Ok(None),
        Err(e) => Err(e@),
    }
}

/// The authority of a `Host` value, once `http` has said whether `text` is a
/// syntactically valid authority: the text itself when it is, an invalid
/// `Host` error when it is not.
pub fn host_authority(text: &str, accepted: bool) -> (authority: Result<Authority, Error>)
    ensures
        accepted ==> (authority matches Ok(a) && a@ == text@),
        !accepted ==> (authority matches Err(e) && e@ == ErrorView::InvalidHeader(host_name())),
{
    proof {
        reveal_strlit("host");
    }
    if accepted {
        Ok(Authority { text: String::from_str(text) })
    } else {
        Err(Error::invalid_header(FieldName::from_static("host")))
    }
}

/// Extract a strict, singular, syntactically valid `Host` authority.
///
/// A missing field returns `None`. Duplicate, non-text and syntactically
/// invalid fields, an empty value included, return an error without the
/// value. Only the field map is read.
pub fn extract_header_authority(headers: &HeaderMap) -> (authority: Result<
    Option<Authority>,
    Error,
>)
    ensures
        authority_result_view(authority) == host_authority_spec(header_fields(*headers)),
{
    proof {
        reveal_strlit("host");
    }
    let name = FieldName::from_static("host");
    match extract_single_header_text(headers, &name) {
        Err(e) => Err(e),
        Ok(None) => Ok(None),
        Ok(Some(text)) => match host_authority(text, is_authority(text)) {
            Ok(a) => Ok(Some(a)),
            Err(e) => Err(e),
        },
    }
}

/// Choose a request's authority: `uri_authority` when present, returned
/// without inspecting or validating `Host`; otherwise
/// [`extract_header_authority`], whose errors apply only to this fallback.
pub fn select_request_authority(uri_authority: Option<Authority>, headers: &HeaderMap) -> (authority:
    Result<Option<Authority>, Error>)
    ensures
        authority_result_view(authority) == request_authority_spec(
            match uri_authority {
                Some(a) => Some(a@),
                None => None,
            },
            header_fields(*headers),
        ),
{
    match uri_authority {
        Some(a) => Ok(Some(a)),
        None => extract_header_authority(headers),
    }
}

/// Extract the authority from a complete request: the parsed URI authority
/// when the URI has one, else the `Host` authority, by
/// [`select_request_authority`].
pub fn extract_request_authority<B>(request: &Request<B>) -> (authority: Result<
    Option<Authority>,
    Error,
>)
    ensures
        exists|u: Option<Seq<char>>, h: HeaderMap|
            authority_result_view(authority) == request_authority_spec(u, header_fields(h)),
{
    let uri_authority = match request_uri_authority(request) {
        Some(text) => Some(Authority { text }),
        None => None,
    };
    select_request_authority(uri_authority, request_headers(request))
}

} // verus!
