//! Parsing of the untrusted `X-Forwarded-*` field conventions.
//!
//! These fields are widely deployed de facto conventions, not IETF standards.
//! The functions here only parse raw assertions; they do not establish trust
//! or select an effective client IP or request scheme. RFC 7239 `Forwarded`
//! is the standardized alternative.

use vstd::prelude::*;

use http::{HeaderMap, Request};

use crate::error::{Error, ErrorView};
use crate::header::{all_visible_ascii, ascii_text, field_line_text, FieldName};
use crate::ip::{
    chain_result_view, ip_address_spec, ip_result_view, ips_view, last_address, rightmost,
    socket_address_spec, IpAddress, IpAddressView,
};
use crate::outside::{
    ascii_lower, field_values, header_fields, lines_of, request_headers,
};
use crate::text::{
    ascii_lowercase, is_alpha, is_alphanumeric, split_char, split_char_spec, trim_whitespace,
    trim_whitespace_spec,
};

verus! {

/// The de facto, non-IETF `X-Forwarded-For` field name.
pub const X_FORWARDED_FOR: &'static str = "x-forwarded-for";

/// The de facto, non-IETF `X-Forwarded-Proto` field name.
pub const X_FORWARDED_PROTO: &'static str = "x-forwarded-proto";

// ---------------------------------------------------------------------------
// Comma-separated items across field lines
// ---------------------------------------------------------------------------

/// The items of one line: the pieces between commas, trimmed of whitespace.
pub open spec fn line_items(line: Seq<char>) -> Seq<Seq<char>> {
    split_char_spec(line, ',').map_values(|p: Seq<char>| trim_whitespace_spec(p))
}

/// The items of the first `n` lines in wire order; absent when one of those
/// lines is not text or holds an empty item.
pub open spec fn comma_items_upto(lines: Seq<Seq<u8>>, n: int) -> Option<Seq<Seq<char>>>
    decreases n,
{
    if n <= 0 {
        Some(seq![])
    } else {
        match comma_items_upto(lines, n - 1) {
            None => None,
            Some(acc) => {
                let line = lines[n - 1];
                if !all_visible_ascii(line) {
                    None
                } else {
                    let items = line_items(ascii_text(line));
                    if exists|k: int| 0 <= k < items.len() && #[trigger] items[k].len() == 0 {
                        None
                    } else {
                        Some(acc + items)
                    }
                }
            },
        }
    }
}

/// Once a line fails, the items of any longer prefix of lines fail too.
proof fn lemma_comma_items_none(lines: Seq<Seq<u8>>, k: int, m: int)
    requires
        k <= m,
        comma_items_upto(lines, k) is None,
    ensures
        comma_items_upto(lines, m) is None,
    decreases m - k,
{
    if k < m {
        lemma_comma_items_none(lines, k, m - 1);
    }
}

/// The items of all lines, in wire order.
pub open spec fn comma_items(lines: Seq<Seq<u8>>) -> Option<Seq<Seq<char>>> {
    comma_items_upto(lines, lines.len() as int)
}

/// Items of the first `n` lines depend on those lines only.
proof fn lemma_comma_items_same_lines(s: Seq<Seq<u8>>, t: Seq<Seq<u8>>, n: int)
    requires
        0 <= n <= s.len(),
        n <= t.len(),
        forall|i: int| 0 <= i < n ==> s[i] == t[i],
    ensures
        comma_items_upto(s, n) == comma_items_upto(t, n),
    decreases n,
{
    if n > 0 {
        lemma_comma_items_same_lines(s, t, n - 1);
    }
}

/// The items of `first` followed by the first `k` lines of `second`.
proof fn lemma_comma_items_append(first: Seq<Seq<u8>>, second: Seq<Seq<u8>>, k: int)
    requires
        0 <= k <= second.len(),
    ensures
        comma_items_upto(first + second, first.len() + k) == match (
            comma_items(first),
            comma_items_upto(second, k),
        ) {
            (Some(x), Some(y)) => Some(x + y),
            _ => None::<Seq<Seq<char>>>,
        },
    decreases k,
{
    let all = first + second;
    if k == 0 {
        lemma_comma_items_same_lines(all, first, first.len() as int);
        if let Some(x) = comma_items(first) {
            assert(x + seq![] =~= x);
        }
    } else {
        lemma_comma_items_append(first, second, k - 1);
        assert(all[first.len() + k - 1] == second[k - 1]);
        if let (Some(x), Some(y)) = (comma_items(first), comma_items_upto(second, k - 1)) {
            let line = second[k - 1];
            if all_visible_ascii(line) {
                let items = line_items(ascii_text(line));
                assert((x + y) + items =~= x + (y + items));
            }
        }
    }
}

/// Repeated field lines are read in wire order: the items of two runs of
/// lines are the items of the first run followed by those of the second, and
/// a line that is not text or holds an empty item in either run makes the
/// whole field invalid.
pub proof fn law_lines_join_in_wire_order(first: Seq<Seq<u8>>, second: Seq<Seq<u8>>)
    ensures
        comma_items(first + second) == match (comma_items(first), comma_items(second)) {
            (Some(x), Some(y)) => Some(x + y),
            _ => None::<Seq<Seq<char>>>,
        },
{
    lemma_comma_items_append(first, second, second.len() as int);
    assert((first + second).len() == first.len() + second.len());
}

/// The items of a field that may span lines: absent when the field is
/// absent, an invalid-field error when a line is not text or an item is
/// empty.
pub open spec fn comma_field_items(fields: Map<Seq<char>, Seq<Seq<u8>>>, name: Seq<char>) -> Result<
    Option<Seq<Seq<char>>>,
    ErrorView,
> {
    let lines = lines_of(fields, name);
    if lines.len() == 0 {
        Ok(None)
    } else {
        match comma_items(lines) {
            Some(items) => Ok(Some(items)),
            None => Err(ErrorView::InvalidHeader(name)),
        }
    }
}

/// The view of optional items or an error.
pub open spec fn items_result_view(r: Result<Option<Vec<&str>>, Error>) -> Result<
    Option<Seq<Seq<char>>>,
    ErrorView,
> {
    match r {
        Ok(Some(items)) => Ok(Some(items@.map_values(|t: &str| t@))),
        Ok(None) => Ok(None),
        Err(e) => Err(e@),
    }
}

/// Collect the trimmed comma-separated items of every line of `name`, in
/// wire order.
fn extract_comma_items<'a>(headers: &'a HeaderMap, name: &FieldName) -> (items: Result<
    Option<Vec<&'a str>>,
    Error,
>)
    ensures
        items_result_view(items) == comma_field_items(header_fields(*headers), name@),
        items matches Err(e) ==> e@ == ErrorView::InvalidHeader(name@),
{
    let lines = field_values(headers, name.as_str());
    let ghost spec_lines = lines_of(header_fields(*headers), name@);
    let n = lines.len();
    if n == 0 {
        return Ok(None);
    }
    let mut output: Vec<&'a str> = Vec::new();
    let mut i: usize = 0;
    assert(output@.map_values(|t: &str| t@) =~= Seq::<Seq<char>>::empty());
    while i < n
        invariant
            n == lines@.len(),
            n == spec_lines.len(),
            spec_lines == lines_of(header_fields(*headers), name@),
            forall|k: int| 0 <= k < n ==> #[trigger] lines@[k]@ == spec_lines[k],
            i <= n,
            comma_items_upto(spec_lines, i as int) == Some(output@.map_values(|t: &str| t@)),
        decreases n - i,
    {
        let text = match field_line_text(lines[i]) {
            Some(t) => t,
            None => {
                proof {
                    lemma_comma_items_none(spec_lines, i + 1, n as int);
                }
                return Err(Error::invalid_header(name.clone()));
            },
        };
        let parts = split_char(text, ',');
        let ghost items = line_items(text@);
        let ghost before = output@.map_values(|t: &str| t@);
        let m = parts.len();
        let mut j: usize = 0;
        while j < m
            invariant
                m == parts@.len(),
                m == items.len(),
                items == line_items(text@),
                forall|k: int| 0 <= k < m ==> #[trigger] parts@[k]@ == split_char_spec(text@, ',')[k],
                j <= m,
                forall|k: int| 0 <= k < j ==> #[trigger] items[k].len() != 0,
                i < n,
                n == spec_lines.len(),
                spec_lines == lines_of(header_fields(*headers), name@),
                comma_items_upto(spec_lines, i as int) == Some(before),
                all_visible_ascii(spec_lines[i as int]),
                text@ == ascii_text(spec_lines[i as int]),
                output@.map_values(|t: &str| t@) == before + items.take(j as int),
            decreases m - j,
        {
            let item = trim_whitespace(parts[j]);
            assert(items[j as int] == item@);
            if item.unicode_len() == 0 {
                assert(items[j as int].len() == 0);
                proof {
                    assert(comma_items_upto(spec_lines, i + 1) is None);
                    lemma_comma_items_none(spec_lines, i + 1, n as int);
                }
                return Err(Error::invalid_header(name.clone()));
            }
            let ghost old_view = output@.map_values(|t: &str| t@);
            output.push(item);
            assert(output@.map_values(|t: &str| t@) =~= old_view.push(item@));
            assert(before + items.take(j + 1) =~= (before + items.take(j as int)).push(items[j as int]));
            j = j + 1;
        }
        assert(items.take(m as int) =~= items);
        i = i + 1;
    }
    Ok(Some(output))
}

// ---------------------------------------------------------------------------
// X-Forwarded-For
// ---------------------------------------------------------------------------

/// An `X-Forwarded-For` item: an IP address, or a socket address whose IP is
/// taken.
pub open spec fn xff_address(s: Seq<char>) -> Option<IpAddressView> {
    match ip_address_spec(s) {
        Some(a) => Some(a),
        None => socket_address_spec(s),
    }
}

/// The `X-Forwarded-For` chain of a field map.
pub open spec fn x_forwarded_for_spec(fields: Map<Seq<char>, Seq<Seq<u8>>>) -> Result<
    Option<Seq<IpAddressView>>,
    ErrorView,
> {
    match comma_field_items(fields, X_FORWARDED_FOR@) {
        Err(e) => Err(e),
        Ok(None) => Ok(None),
        Ok(Some(items)) => if forall|k: int|
            0 <= k < items.len() ==> xff_address(#[trigger] items[k]) is Some {
            Ok(Some(Seq::new(items.len(), |k: int| xff_address(items[k])->0)))
        } else {
            Err(ErrorView::InvalidHeader(X_FORWARDED_FOR@))
        },
    }
}

/// Repeated `X-Forwarded-For` lines are read in wire order: when the field
/// holds the lines of `first` followed by those of `second`, its chain is the
/// chain of `first` alone followed by that of `second` alone, and the field
/// is invalid exactly when either part is.
pub proof fn law_forwarded_for_lines_join_in_wire_order(
    fields: Map<Seq<char>, Seq<Seq<u8>>>,
    first: Seq<Seq<u8>>,
    second: Seq<Seq<u8>>,
)
    requires
        first.len() > 0,
        second.len() > 0,
    ensures
        x_forwarded_for_spec(fields.insert(X_FORWARDED_FOR@, first + second)) == match (
            x_forwarded_for_spec(fields.insert(X_FORWARDED_FOR@, first)),
            x_forwarded_for_spec(fields.insert(X_FORWARDED_FOR@, second)),
        ) {
            (Ok(Some(x)), Ok(Some(y))) => Ok(Some(x + y)),
            _ => Err(ErrorView::InvalidHeader(X_FORWARDED_FOR@)),
        },
{
    let name = X_FORWARDED_FOR@;
    let both = first + second;
    law_lines_join_in_wire_order(first, second);
    assert(lines_of(fields.insert(name, both), name) == both);
    assert(lines_of(fields.insert(name, first), name) == first);
    assert(lines_of(fields.insert(name, second), name) == second);
    if let (Some(x), Some(y)) = (comma_items(first), comma_items(second)) {
        let xy = x + y;
        assert(comma_items(both) == Some(xy));
        if forall|k: int| 0 <= k < xy.len() ==> xff_address(#[trigger] xy[k]) is Some {
            assert forall|k: int| 0 <= k < x.len() implies xff_address(#[trigger] x[k]) is Some by {
                assert(xy[k] == x[k]);
            }
            assert forall|k: int| 0 <= k < y.len() implies xff_address(#[trigger] y[k]) is Some by {
                assert(xy[x.len() + k] == y[k]);
            }
            assert(Seq::new(xy.len(), |k: int| xff_address(xy[k])->0) =~= Seq::new(
                x.len(),
                |k: int| xff_address(x[k])->0,
            ) + Seq::new(y.len(), |k: int| xff_address(y[k])->0));
        } else {
            let k = choose|k: int| 0 <= k < xy.len() && !(xff_address(#[trigger] xy[k]) is Some);
            if k < x.len() {
                assert(xy[k] == x[k]);
            } else {
                assert(xy[k] == y[k - x.len()]);
            }
        }
    }
}

/// Parse an IP address, or a socket address reduced to its IP.
fn parse_xff_address(value: &str) -> (address: Option<IpAddress>)
    ensures
        address is Some <==> xff_address(value@) is Some,
        address matches Some(a) ==> a@ == xff_address(value@)->0,
{
    match IpAddress::parse(value) {
        Some(a) => Some(a),
        None => IpAddress::parse_socket_address(value),
    }
}

fn x_forwarded_for_field() -> (name: FieldName)
    ensures
        name@ == X_FORWARDED_FOR@,
{
    proof {
        reveal_strlit("x-forwarded-for");
    }
    FieldName::from_static(X_FORWARDED_FOR)
}

/// Extract all `X-Forwarded-For` field lines as an untrusted asserted IP
/// chain.
///
/// Addresses come in field order, from the remotest assertion to the one
/// nearest the server. A missing field returns `None`. Repeated lines are
/// accepted in wire order, but a non-text line, an empty comma-separated
/// item, or an item that is neither an IP address nor a socket address is an
/// error. Parsing does not make the values trustworthy.
pub fn extract_header_x_forwarded_for(headers: &HeaderMap) -> (chain: Result<
    Option<Vec<IpAddress>>,
    Error,
>)
    ensures
        chain_result_view(chain) == x_forwarded_for_spec(header_fields(*headers)),
{
    let name = x_forwarded_for_field();
    let items = match extract_comma_items(headers, &name) {
        Err(e) => return Err(e),
        Ok(None) => return Ok(None),
        Ok(Some(items)) => items,
    };
    let ghost spec_items = items@.map_values(|t: &str| t@);
    let n = items.len();
    let mut ips: Vec<IpAddress> = Vec::new();
    let mut i: usize = 0;
    while i < n
        invariant
            n == items@.len(),
            spec_items == items@.map_values(|t: &str| t@),
            name@ == X_FORWARDED_FOR@,
            comma_field_items(header_fields(*headers), X_FORWARDED_FOR@) == Ok::<
                Option<Seq<Seq<char>>>,
                ErrorView,
            >(Some(spec_items)),
            i <= n,
            ips@.len() == i,
            forall|k: int| 0 <= k < i ==> xff_address(#[trigger] spec_items[k]) == Some(ips@[k]@),
        decreases n - i,
    {
        assert(spec_items[i as int] == items@[i as int]@);
        match parse_xff_address(items[i]) {
            Some(a) => ips.push(a),
            None => {
                assert(xff_address(spec_items[i as int]) is None);
                assert(!(forall|k: int|
                    0 <= k < spec_items.len() ==> xff_address(#[trigger] spec_items[k]) is Some));
                assert(x_forwarded_for_spec(header_fields(*headers)) == Err::<
                    Option<Seq<IpAddressView>>,
                    ErrorView,
                >(ErrorView::InvalidHeader(X_FORWARDED_FOR@)));
                return Err(Error::invalid_header(name));
            },
        }
        i = i + 1;
    }
    assert(ips_view(ips@) =~= Seq::new(spec_items.len(), |k: int| xff_address(spec_items[k])->0));
    Ok(Some(ips))
}

/// Extract the untrusted `X-Forwarded-For` chain from a complete request, by
/// [`extract_header_x_forwarded_for`] on `request.headers()`.
pub fn extract_request_x_forwarded_for<B>(request: &Request<B>) -> (chain: Result<
    Option<Vec<IpAddress>>,
    Error,
>)
    ensures
        exists|h: HeaderMap| chain_result_view(chain) == x_forwarded_for_spec(header_fields(h)),
{
    extract_header_x_forwarded_for(request_headers(request))
}

/// Extract the rightmost `X-Forwarded-For` address, the assertion nearest the
/// server, with the missing and error behavior of
/// [`extract_header_x_forwarded_for`].
pub fn extract_rightmost_x_forwarded_for(headers: &HeaderMap) -> (address: Result<
    Option<IpAddress>,
    Error,
>)
    ensures
        ip_result_view(address) == rightmost(x_forwarded_for_spec(header_fields(*headers))),
{
    last_address(extract_header_x_forwarded_for(headers))
}

// ---------------------------------------------------------------------------
// X-Forwarded-Proto
// ---------------------------------------------------------------------------

/// A URI scheme token: an ASCII letter followed by letters, digits, `+`, `-`
/// or `.`.
pub open spec fn is_scheme_spec(s: Seq<char>) -> bool {
    &&& s.len() > 0
    &&& is_alpha(s[0])
    &&& forall|i: int|
        1 <= i < s.len() ==> is_alphanumeric(#[trigger] s[i]) || s[i] == '+' || s[i] == '-' || s[i]
            == '.'
}

/// Whether `value` is a URI scheme token.
pub fn is_scheme(value: &str) -> (scheme: bool)
    ensures
        scheme == is_scheme_spec(value@),
{
    let n = value.unicode_len();
    if n == 0 {
        return false;
    }
    let first = value.get_char(0);
    if !(('a' <= first && first <= 'z') || ('A' <= first && first <= 'Z')) {
        return false;
    }
    let mut i: usize = 1;
    while i < n
        invariant
            n == value@.len(),
            1 <= i <= n,
            forall|j: int|
                1 <= j < i ==> is_alphanumeric(#[trigger] value@[j]) || value@[j] == '+'
                    || value@[j] == '-' || value@[j] == '.',
        decreases n - i,
    {
        let c = value.get_char(i);
        if !(('a' <= c && c <= 'z') || ('A' <= c && c <= 'Z') || ('0' <= c && c <= '9') || c
            == '+' || c == '-' || c == '.') {
            return false;
        }
        i = i + 1;
    }
    true
}

/// `s` with ASCII letters lowered.
pub open spec fn lowercase_spec(s: Seq<char>) -> Seq<char> {
    s.map_values(|c: char| ascii_lower(c))
}

/// The `X-Forwarded-Proto` tokens of a field map, lower-cased.
pub open spec fn x_forwarded_proto_spec(fields: Map<Seq<char>, Seq<Seq<u8>>>) -> Result<
    Option<Seq<Seq<char>>>,
    ErrorView,
> {
    match comma_field_items(fields, X_FORWARDED_PROTO@) {
        Err(e) => Err(e),
        Ok(None) => Ok(None),
        Ok(Some(items)) => if forall|k: int|
            0 <= k < items.len() ==> is_scheme_spec(#[trigger] items[k]) {
            Ok(Some(items.map_values(|t: Seq<char>| lowercase_spec(t))))
        } else {
            Err(ErrorView::InvalidHeader(X_FORWARDED_PROTO@))
        },
    }
}

/// Repeated `X-Forwarded-Proto` lines are read in wire order: when the field
/// holds the lines of `first` followed by those of `second`, its tokens are
/// the tokens of `first` alone followed by those of `second` alone, and the
/// field is invalid exactly when either part is.
pub proof fn law_proto_lines_join_in_wire_order(
    fields: Map<Seq<char>, Seq<Seq<u8>>>,
    first: Seq<Seq<u8>>,
    second: Seq<Seq<u8>>,
)
    requires
        first.len() > 0,
        second.len() > 0,
    ensures
        x_forwarded_proto_spec(fields.insert(X_FORWARDED_PROTO@, first + second)) == match (
            x_forwarded_proto_spec(fields.insert(X_FORWARDED_PROTO@, first)),
            x_forwarded_proto_spec(fields.insert(X_FORWARDED_PROTO@, second)),
        ) {
            (Ok(Some(x)), Ok(Some(y))) => Ok(Some(x + y)),
            _ => Err(ErrorView::InvalidHeader(X_FORWARDED_PROTO@)),
        },
{
    let name = X_FORWARDED_PROTO@;
    let both = first + second;
    law_lines_join_in_wire_order(first, second);
    assert(lines_of(fields.insert(name, both), name) == both);
    assert(lines_of(fields.insert(name, first), name) == first);
    assert(lines_of(fields.insert(name, second), name) == second);
    if let (Some(x), Some(y)) = (comma_items(first), comma_items(second)) {
        let xy = x + y;
        assert(comma_items(both) == Some(xy));
        if forall|k: int| 0 <= k < xy.len() ==> is_scheme_spec(#[trigger] xy[k]) {
            assert forall|k: int| 0 <= k < x.len() implies is_scheme_spec(#[trigger] x[k]) by {
                assert(xy[k] == x[k]);
            }
            assert forall|k: int| 0 <= k < y.len() implies is_scheme_spec(#[trigger] y[k]) by {
                assert(xy[x.len() + k] == y[k]);
            }
            assert(xy.map_values(|t: Seq<char>| lowercase_spec(t)) =~= x.map_values(
                |t: Seq<char>| lowercase_spec(t),
            ) + y.map_values(|t: Seq<char>| lowercase_spec(t)));
        } else {
            let k = choose|k: int| 0 <= k < xy.len() && !is_scheme_spec(#[trigger] xy[k]);
            if k < x.len() {
                assert(xy[k] == x[k]);
            } else {
                assert(xy[k] == y[k - x.len()]);
            }
        }
    }
}

/// Protocol tokens come back normalized: no token holds an ASCII upper-case
/// letter, and each has the length of the item it came from.
pub proof fn law_proto_tokens_are_lowercase(fields: Map<Seq<char>, Seq<Seq<u8>>>)
    ensures
        x_forwarded_proto_spec(fields) matches Ok(Some(tokens)) ==> forall|k: int, i: int|
            0 <= k < tokens.len() && 0 <= i < tokens[k].len() ==> !('A' <= #[trigger] tokens[k][i]
                <= 'Z'),
{
    if let Ok(Some(tokens)) = x_forwarded_proto_spec(fields) {
        assert forall|k: int, i: int|
            0 <= k < tokens.len() && 0 <= i < tokens[k].len() implies !('A' <= #[trigger] tokens[k][i]
            <= 'Z') by {
            let c = tokens[k][i];
            assert(c == ascii_lower(comma_field_items(fields, X_FORWARDED_PROTO@)->Ok_0->0[k][i]));
        }
    }
}

/// The view of optional owned strings or an error.
pub open spec fn strings_result_view(r: Result<Option<Vec<String>>, Error>) -> Result<
    Option<Seq<Seq<char>>>,
    ErrorView,
> {
    match r {
        Ok(Some(v)) => Ok(Some(v@.map_values(|s: String| s@))),
        Ok(None) => Ok(None),
        Err(e) => Err(e@),
    }
}

fn x_forwarded_proto_field() -> (name: FieldName)
    ensures
        name@ == X_FORWARDED_PROTO@,
{
    proof {
        reveal_strlit("x-forwarded-proto");
    }
    FieldName::from_static(X_FORWARDED_PROTO)
}

/// Extract all `X-Forwarded-Proto` field lines as untrusted protocol tokens.
///
/// A missing field returns `None`. Repeated lines are accepted in wire order.
/// Each comma-separated item must be a non-empty URI-scheme token; non-text
/// lines and invalid items are errors. Valid tokens are lower-cased. No
/// effective scheme is selected and nothing is trusted.
pub fn extract_header_x_forwarded_proto(headers: &HeaderMap) -> (protocols: Result<
    Option<Vec<String>>,
    Error,
>)
    ensures
        strings_result_view(protocols) == x_forwarded_proto_spec(header_fields(*headers)),
{
    let name = x_forwarded_proto_field();
    let items = match extract_comma_items(headers, &name) {
        Err(e) => return Err(e),
        Ok(None) => return Ok(None),
        Ok(Some(items)) => items,
    };
    let ghost spec_items = items@.map_values(|t: &str| t@);
    let n = items.len();
    let mut output: Vec<String> = Vec::new();
    let mut i: usize = 0;
    while i < n
        invariant
            n == items@.len(),
            spec_items == items@.map_values(|t: &str| t@),
            name@ == X_FORWARDED_PROTO@,
            comma_field_items(header_fields(*headers), X_FORWARDED_PROTO@) == Ok::<
                Option<Seq<Seq<char>>>,
                ErrorView,
            >(Some(spec_items)),
            i <= n,
            output@.len() == i,
            forall|k: int| 0 <= k < i ==> is_scheme_spec(#[trigger] spec_items[k]),
            forall|k: int|
                0 <= k < i ==> #[trigger] output@[k]@ == lowercase_spec(spec_items[k]),
        decreases n - i,
    {
        assert(spec_items[i as int] == items@[i as int]@);
        if !is_scheme(items[i]) {
            return Err(Error::invalid_header(name));
        }
        output.push(ascii_lowercase(items[i]));
        i = i + 1;
    }
    assert(output@.map_values(|s: String| s@) =~= spec_items.map_values(
        |t: Seq<char>| lowercase_spec(t),
    ));
    Ok(Some(output))
}

/// Extract untrusted `X-Forwarded-Proto` tokens from a complete request, by
/// [`extract_header_x_forwarded_proto`] on `request.headers()`.
pub fn extract_request_x_forwarded_proto<B>(request: &Request<B>) -> (protocols: Result<
    Option<Vec<String>>,
    Error,
>)
    ensures
        exists|h: HeaderMap|
            strings_result_view(protocols) == x_forwarded_proto_spec(header_fields(h)),
{
    extract_header_x_forwarded_proto(request_headers(request))
}

} // verus!
