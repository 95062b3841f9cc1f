//! Strict extraction of untrusted client IP assertions from `Forwarded`.
//!
//! [`extract_header_forwarded_for`] implements a deliberately narrow use of
//! the standardized field: every field element must contain exactly one
//! usable `for=` IP address, and the resulting chain remains untrusted. The
//! field grammar is RFC 7239 Section 4, the `for` parameter Section 5.2, node
//! identifiers Section 6 and the trust limits Section 8; only the subset
//! needed for a continuous IP chain is implemented.

use vstd::prelude::*;

use http::{HeaderMap, Request};

use crate::error::{Error, ErrorView};
use crate::header::{extract_single_header_text, single_field_text, FieldName};
use crate::ip::{
    chain_result_view, ip_result_view, ips_view, last_address, rightmost, char_index_from, find_char, ipv4_octets, ipv6_segments, parse_ipv4, parse_ipv6, IpAddress,
    IpAddressView,
};
use crate::outside::{ascii_lower, header_fields, is_token_char, push_char, request_headers};
use crate::text::{
    all_digits, chars_eq_ignore_ascii_case, eq_ignore_ascii_case, is_alphanumeric, is_digit_char,
    join_with, lemma_segments_join, segment, segments, trim_ows, trim_ows_spec, valid_cuts,
};

verus! {

/// The standardized `Forwarded` field name (RFC 7239, Section 4).
pub const FORWARDED: &'static str = "forwarded";

// ---------------------------------------------------------------------------
// Character classes
// ---------------------------------------------------------------------------

/// A character of an obfuscated node port: ASCII alphanumeric, `.`, `_`, `-`.
pub open spec fn is_obfuscated_char(c: char) -> bool {
    is_alphanumeric(c) || c == '.' || c == '_' || c == '-'
}

/// A `qdtext` character of a quoted string: tab, space, `!`, and `#` to `~`
/// except the backslash.
pub open spec fn is_qdtext_char(c: char) -> bool {
    c == '\t' || c == ' ' || c == '!' || ('#' <= c <= '[') || (']' <= c <= '~')
}

/// A character that a backslash may escape in a quoted string: tab, or
/// visible ASCII including space.
pub open spec fn is_quoted_pair_char(c: char) -> bool {
    c == '\t' || (' ' <= c <= '~')
}

/// Whether `byte` is an RFC 9110 token byte.
pub fn is_token_byte(byte: u8) -> (token: bool)
    ensures
        token == is_token_char(byte as char),
{
    // a-z, A-Z, 0-9, then ! # $ % & ' * + - . ^ _ ` | ~
    (97 <= byte && byte <= 122) || (65 <= byte && byte <= 90) || (48 <= byte && byte <= 57)
        || byte == 33 || byte == 35 || byte == 36 || byte == 37 || byte == 38 || byte == 39 || byte
        == 42 || byte == 43 || byte == 45 || byte == 46 || byte == 94 || byte == 95 || byte == 96
        || byte == 124 || byte == 126
}

/// Whether `byte` may appear in an obfuscated node port.
pub fn is_obfuscated_byte(byte: u8) -> (obfuscated: bool)
    ensures
        obfuscated == is_obfuscated_char(byte as char),
{
    // a-z, A-Z, 0-9, then . _ -
    (97 <= byte && byte <= 122) || (65 <= byte && byte <= 90) || (48 <= byte && byte <= 57)
        || byte == 46 || byte == 95 || byte == 45
}

/// Whether `character` is `qdtext` inside a quoted string.
pub fn is_quoted_text_character(character: char) -> (qdtext: bool)
    ensures
        qdtext == is_qdtext_char(character),
{
    character == '\t' || character == ' ' || character == '!' || ('#' <= character && character
        <= '[') || (']' <= character && character <= '~')
}

/// Whether a backslash may escape `character` inside a quoted string.
pub fn is_quoted_pair_character(character: char) -> (pair: bool)
    ensures
        pair == is_quoted_pair_char(character),
{
    character == '\t' || (' ' <= character && character <= '~')
}

fn is_token_char_exec(c: char) -> (token: bool)
    ensures
        token == is_token_char(c),
{
    ('a' <= c && c <= 'z') || ('A' <= c && c <= 'Z') || ('0' <= c && c <= '9') || c == '!' || c
        == '#' || c == '$' || c == '%' || c == '&' || c == '\'' || c == '*' || c == '+' || c == '-'
        || c == '.' || c == '^' || c == '_' || c == '`' || c == '|' || c == '~'
}

fn is_obfuscated_char_exec(c: char) -> (obfuscated: bool)
    ensures
        obfuscated == is_obfuscated_char(c),
{
    ('a' <= c && c <= 'z') || ('A' <= c && c <= 'Z') || ('0' <= c && c <= '9') || c == '.' || c
        == '_' || c == '-'
}

/// The error of every malformed `Forwarded` field.
pub open spec fn forwarded_invalid() -> ErrorView {
    ErrorView::InvalidHeader(FORWARDED@)
}

fn invalid() -> (e: Error)
    ensures
        e@ == forwarded_invalid(),
{
    proof {
        reveal_strlit("forwarded");
    }
    Error::invalid_header(FieldName::from_static(FORWARDED))
}

// ---------------------------------------------------------------------------
// Quote-aware splitting
// ---------------------------------------------------------------------------

/// The scanner state after the first `n` characters of `s`: whether it is
/// inside a quoted string, and whether the last character was an escaping
/// backslash inside one.
pub open spec fn quote_state(s: Seq<char>, n: int) -> (bool, bool)
    decreases n,
{
    if n <= 0 {
        (false, false)
    } else {
        let (quoted, escaped) = quote_state(s, n - 1);
        let c = s[n - 1];
        if escaped {
            (quoted, false)
        } else if quoted && c == '\\' {
            (quoted, true)
        } else if c == '"' {
            (!quoted, false)
        } else {
            (quoted, false)
        }
    }
}

/// Position `i` holds `delimiter` outside any quoted string.
pub open spec fn is_split_point(s: Seq<char>, delimiter: char, i: int) -> bool {
    s[i] == delimiter && delimiter != '"' && !quote_state(s, i).0 && !quote_state(s, i).1
}

/// The split points among the first `n` characters, in order.
pub open spec fn split_points_before(s: Seq<char>, delimiter: char, n: int) -> Seq<int>
    decreases n,
{
    if n <= 0 {
        seq![]
    } else {
        let p = split_points_before(s, delimiter, n - 1);
        if is_split_point(s, delimiter, n - 1) {
            p.push(n - 1)
        } else {
            p
        }
    }
}

/// `s` cut at every `delimiter` outside quoted strings; absent when a quoted
/// string or an escape is left open at the end.
pub open spec fn split_quoted_spec(s: Seq<char>, delimiter: char) -> Option<Seq<Seq<char>>> {
    let (quoted, escaped) = quote_state(s, s.len() as int);
    if quoted || escaped {
        None
    } else {
        Some(segments(s, split_points_before(s, delimiter, s.len() as int)))
    }
}

/// The split points before `n` are increasing positions below `n` that hold
/// the delimiter.
pub proof fn lemma_split_points_bounds(s: Seq<char>, delimiter: char, n: int)
    requires
        0 <= n <= s.len(),
    ensures
        valid_cuts(s, split_points_before(s, delimiter, n)),
        forall|k: int|
            0 <= k < split_points_before(s, delimiter, n).len() ==> #[trigger] split_points_before(
                s,
                delimiter,
                n,
            )[k] < n,
        forall|k: int|
            0 <= k < split_points_before(s, delimiter, n).len() ==> is_split_point(
                s,
                delimiter,
                #[trigger] split_points_before(s, delimiter, n)[k],
            ),
    decreases n,
{
    if n > 0 {
        lemma_split_points_bounds(s, delimiter, n - 1);
    }
}

/// Quote-aware splitting loses nothing: when `split_quoted` succeeds, joining
/// its pieces with the delimiter gives the input back.
pub proof fn law_split_quoted_rejoins(s: Seq<char>, delimiter: char)
    ensures
        split_quoted_spec(s, delimiter) matches Some(parts) ==> join_with(parts, delimiter) == s,
{
    let pts = split_points_before(s, delimiter, s.len() as int);
    lemma_split_points_bounds(s, delimiter, s.len() as int);
    assert forall|k: int| 0 <= k < pts.len() implies s[#[trigger] pts[k]] == delimiter by {
        assert(is_split_point(s, delimiter, pts[k]));
    }
    lemma_segments_join(s, pts, delimiter);
}

/// Split `value` at `delimiter`, ignoring delimiters inside quoted strings.
///
/// Backslash escapes inside quoted strings are honored. An unterminated
/// quoted string or escape is an error.
pub fn split_quoted(value: &str, delimiter: char) -> (parts: Result<Vec<&str>, Error>)
    ensures
        parts is Ok <==> split_quoted_spec(value@, delimiter) is Some,
        parts matches Ok(p) ==> p@.len() == split_quoted_spec(value@, delimiter)->0.len() && forall|
            k: int,
        |
            0 <= k < p@.len() ==> #[trigger] p@[k]@ == split_quoted_spec(value@, delimiter)->0[k],
        parts matches Err(e) ==> e@ == forwarded_invalid(),
{
    let n = value.unicode_len();
    let mut output: Vec<&str> = Vec::new();
    let mut quoted = false;
    let mut escaped = false;
    let mut start: usize = 0;
    let mut i: usize = 0;
    while i < n
        invariant
            n == value@.len(),
            start <= i <= n,
            (quoted, escaped) == quote_state(value@, i as int),
            output@.len() == split_points_before(value@, delimiter, i as int).len(),
            start == (if output@.len() == 0 {
                0
            } else {
                split_points_before(value@, delimiter, i as int).last() + 1
            }),
            forall|k: int|
                0 <= k < output@.len() ==> #[trigger] output@[k]@ == segment(
                    value@,
                    split_points_before(value@, delimiter, i as int),
                    k,
                ),
        decreases n - i,
    {
        let ghost pts = split_points_before(value@, delimiter, i as int);
        proof {
            lemma_split_points_bounds(value@, delimiter, i as int);
        }
        let character = value.get_char(i);
        if escaped {
            escaped = false;
        } else if quoted && character == '\\' {
            escaped = true;
        } else if character == '"' {
            quoted = !quoted;
        } else if !quoted && character == delimiter {
            output.push(value.substring_char(start, i));
            start = i + 1;
            proof {
                let npts = split_points_before(value@, delimiter, i + 1);
                assert(npts == pts.push(i as int));
                assert forall|k: int| 0 <= k < output@.len() implies #[trigger] output@[k]@
                    == segment(value@, npts, k) by {
                    if k < pts.len() {
                        assert(segment(value@, npts, k) == segment(value@, pts, k));
                    }
                }
            }
        }
        i = i + 1;
    }
    if quoted || escaped {
        return Err(invalid());
    }
    output.push(value.substring_char(start, n));
    proof {
        let pts = split_points_before(value@, delimiter, n as int);
        lemma_split_points_bounds(value@, delimiter, n as int);
        assert forall|k: int| 0 <= k < output@.len() implies #[trigger] output@[k]@
            == split_quoted_spec(value@, delimiter)->0[k] by {
            assert(split_quoted_spec(value@, delimiter)->0[k] == segment(value@, pts, k));
        }
    }
    Ok(output)
}


// ---------------------------------------------------------------------------
// Parameter values
// ---------------------------------------------------------------------------

/// Every character of `s` is a token character.
pub open spec fn all_token_chars(s: Seq<char>) -> bool {
    forall|i: int| 0 <= i < s.len() ==> is_token_char(#[trigger] s[i])
}

/// The content of a quoted string without its quotes: `qdtext` characters
/// stand for themselves and a backslash escapes the next `quoted-pair`
/// character; anything else, including a final lone backslash, is refused.
pub open spec fn unquote(s: Seq<char>) -> Option<Seq<char>>
    decreases s.len(),
{
    if s.len() == 0 {
        Some(seq![])
    } else if s[0] == '\\' {
        if s.len() >= 2 && is_quoted_pair_char(s[1]) {
            match unquote(s.skip(2)) {
                Some(r) => Some(seq![s[1]] + r),
                None => None,
            }
        } else {
            None
        }
    } else if is_qdtext_char(s[0]) {
        match unquote(s.drop_first()) {
            Some(r) => Some(seq![s[0]] + r),
            None => None,
        }
    } else {
        None
    }
}

/// `prefix` followed by the result `r`, if there is one.
pub open spec fn prefixed(prefix: Seq<char>, r: Option<Seq<char>>) -> Option<Seq<char>> {
    match r {
        Some(x) => Some(prefix + x),
        None => None,
    }
}

/// A parameter value after optional whitespace is trimmed: a non-empty token,
/// returned as is and marked unquoted, or a quoted string, returned unquoted
/// and marked quoted.
pub open spec fn parameter_value_spec(value: Seq<char>) -> Option<(Seq<char>, bool)> {
    let v = trim_ows_spec(value);
    if !(v.len() > 0 && v[0] == '"') {
        if v.len() > 0 && all_token_chars(v) {
            Some((v, false))
        } else {
            None
        }
    } else if v.len() < 2 || v.last() != '"' {
        None
    } else {
        match unquote(v.subrange(1, v.len() - 1)) {
            Some(u) => Some((u, true)),
            None => None,
        }
    }
}

proof fn lemma_unquote_step(inner: Seq<char>, i: int)
    requires
        0 <= i < inner.len(),
        inner[i] != '\\',
    ensures
        unquote(inner.skip(i)) == (if is_qdtext_char(inner[i]) {
            prefixed(seq![inner[i]], unquote(inner.skip(i + 1)))
        } else {
            None
        }),
{
    assert(inner.skip(i).drop_first() =~= inner.skip(i + 1));
}

proof fn lemma_unquote_escape(inner: Seq<char>, i: int)
    requires
        0 < i < inner.len(),
        inner[i - 1] == '\\',
    ensures
        unquote(inner.skip(i - 1)) == (if is_quoted_pair_char(inner[i]) {
            prefixed(seq![inner[i]], unquote(inner.skip(i + 1)))
        } else {
            None
        }),
{
    assert(inner.skip(i - 1).skip(2) =~= inner.skip(i + 1));
}

/// Unquotes the quoted string `quoted`, which starts and ends with `"`.
fn unquote_string(quoted: &str) -> (content: Option<String>)
    requires
        quoted@.len() >= 2,
    ensures
        content is Some <==> unquote(quoted@.subrange(1, quoted@.len() - 1)) is Some,
        content matches Some(c) ==> c@ == unquote(quoted@.subrange(1, quoted@.len() - 1))->0,
{
    let n = quoted.unicode_len();
    let ghost inner = quoted@.subrange(1, n - 1);
    let mut output = String::new();
    let mut escaped = false;
    let mut i: usize = 0;
    assert(inner.skip(0) =~= inner);
    assert(output@ + unquote(inner)->0 =~= unquote(inner)->0);
    while i < n - 2
        invariant
            n == quoted@.len(),
            n >= 2,
            inner == quoted@.subrange(1, n - 1),
            i <= n - 2,
            escaped ==> i > 0 && inner[i - 1] == '\\',
            unquote(inner) == prefixed(
                output@,
                unquote(
                    inner.skip(
                        if escaped {
                            i - 1
                        } else {
                            i as int
                        },
                    ),
                ),
            ),
        decreases n - 2 - i,
    {
        let character = quoted.get_char(i + 1);
        assert(character == inner[i as int]);
        if escaped {
            proof {
                lemma_unquote_escape(inner, i as int);
            }
            if !is_quoted_pair_character(character) {
                return None;
            }
            let ghost before = output@;
            push_char(&mut output, character);
            assert(before + (seq![character] + unquote(inner.skip(i + 1))->0) =~= output@
                + unquote(inner.skip(i + 1))->0);
            escaped = false;
        } else if character == '\\' {
            escaped = true;
        } else {
            proof {
                lemma_unquote_step(inner, i as int);
            }
            if !is_quoted_text_character(character) {
                return None;
            }
            let ghost before = output@;
            push_char(&mut output, character);
            assert(before + (seq![character] + unquote(inner.skip(i + 1))->0) =~= output@
                + unquote(inner.skip(i + 1))->0);
        }
        i = i + 1;
    }
    if escaped {
        proof {
            assert(inner.skip(i - 1) =~= seq!['\\']);
        }
        return None;
    }
    proof {
        assert(inner.skip(i as int) =~= Seq::<char>::empty());
        assert(output@ + Seq::<char>::empty() =~= output@);
    }
    Some(output)
}

/// Whether every character of `text` is a token character.
fn is_token(text: &str) -> (token: bool)
    ensures
        token == all_token_chars(text@),
{
    let n = text.unicode_len();
    let mut i: usize = 0;
    while i < n
        invariant
            n == text@.len(),
            i <= n,
            forall|j: int| 0 <= j < i ==> is_token_char(#[trigger] text@[j]),
        decreases n - i,
    {
        if !is_token_char_exec(text.get_char(i)) {
            assert(!is_token_char(text@[i as int]));
            return false;
        }
        i = i + 1;
    }
    true
}

/// Parse a `Forwarded` parameter value: a token, or a quoted string whose
/// escapes are removed. The flag tells whether the value was quoted.
pub fn parse_parameter_value(value: &str) -> (parsed: Result<(String, bool), Error>)
    ensures
        parsed is Ok <==> parameter_value_spec(value@) is Some,
        parsed matches Ok((text, quoted)) ==> parameter_value_spec(value@) == Some((text@, quoted)),
        parsed matches Err(e) ==> e@ == forwarded_invalid(),
{
    let v = trim_ows(value);
    let n = v.unicode_len();
    if !(n > 0 && v.get_char(0) == '"') {
        if n == 0 || !is_token(v) {
            return Err(invalid());
        }
        return Ok((String::from_str(v), false));
    }
    if n < 2 || v.get_char(n - 1) != '"' {
        return Err(invalid());
    }
    match unquote_string(v) {
        Some(content) => Ok((content, true)),
        None => Err(invalid()),
    }
}


// ---------------------------------------------------------------------------
// Nodes
// ---------------------------------------------------------------------------

/// Every character of `s` may appear in an obfuscated port.
pub open spec fn all_obfuscated_chars(s: Seq<char>) -> bool {
    forall|i: int| 0 <= i < s.len() ==> is_obfuscated_char(#[trigger] s[i])
}

/// A node port (RFC 7239, Section 6): one to five digits, or an obfuscated
/// port of `_` followed by at least one more permitted character.
pub open spec fn node_port_spec(s: Seq<char>) -> bool {
    ||| 0 < s.len() <= 5 && all_digits(s)
    ||| s.len() > 1 && s[0] == '_' && all_obfuscated_chars(s)
}

/// Check a node port: numeric with at most five digits, or obfuscated.
pub fn validate_node_port(value: &str) -> (valid: Result<(), Error>)
    ensures
        valid is Ok <==> node_port_spec(value@),
        valid matches Err(e) ==> e@ == forwarded_invalid(),
{
    let n = value.unicode_len();
    let mut numeric = n > 0 && n <= 5;
    let mut obfuscated = n > 1 && value.get_char(0) == '_';
    let mut i: usize = 0;
    while i < n
        invariant
            n == value@.len(),
            i <= n,
            numeric == (0 < n <= 5 && forall|j: int|
                0 <= j < i ==> crate::text::is_digit(#[trigger] value@[j])),
            obfuscated == (n > 1 && value@[0] == '_' && forall|j: int|
                0 <= j < i ==> is_obfuscated_char(#[trigger] value@[j])),
        decreases n - i,
    {
        let c = value.get_char(i);
        numeric = numeric && is_digit_char(c);
        obfuscated = obfuscated && is_obfuscated_char_exec(c);
        i = i + 1;
    }
    if numeric || obfuscated {
        Ok(())
    } else {
        Err(invalid())
    }
}

/// The address of a `for` node. An unquoted node is a bare IPv4 address; a
/// quoted node is `[v6]` or `[v6]:port`, or an IPv4 address with an optional
/// `:port`, where the port is a node port.
pub open spec fn forwarded_node_spec(value: Seq<char>, quoted: bool) -> Option<IpAddressView> {
    if !quoted {
        match ipv4_octets(value) {
            Some(o) => Some(IpAddressView::V4(o)),
            None => None,
        }
    } else if value.len() > 0 && value[0] == '[' {
        let rest = value.drop_first();
        match char_index_from(rest, ']', 0) {
            None => None,
            Some(j) => {
                let suffix = rest.skip(j + 1);
                if suffix.len() == 0 || (suffix[0] == ':' && node_port_spec(suffix.drop_first())) {
                    match ipv6_segments(rest.take(j)) {
                        Some(g) => Some(IpAddressView::V6(g)),
                        None => None,
                    }
                } else {
                    None
                }
            },
        }
    } else {
        let (address, port_ok) = match char_index_from(value, ':', 0) {
            None => (value, true),
            Some(p) => (value.take(p), node_port_spec(value.skip(p + 1))),
        };
        if port_ok {
            match ipv4_octets(address) {
                Some(o) => Some(IpAddressView::V4(o)),
                None => None,
            }
        } else {
            None
        }
    }
}

/// Parse the value of a `for` parameter into an IP address.
pub fn parse_forwarded_node(value: &str, quoted: bool) -> (node: Result<IpAddress, Error>)
    ensures
        node is Ok <==> forwarded_node_spec(value@, quoted) is Some,
        node matches Ok(a) ==> a@ == forwarded_node_spec(value@, quoted)->0,
        node matches Err(e) ==> e@ == forwarded_invalid(),
{
    let n = value.unicode_len();
    if !quoted {
        return match parse_ipv4(value) {
            Some(o) => Ok(IpAddress::V4(o)),
            None => Err(invalid()),
        };
    }
    if n > 0 && value.get_char(0) == '[' {
        let rest = value.substring_char(1, n);
        assert(rest@ =~= value@.drop_first());
        let j = match find_char(rest, ']') {
            Some(j) => j,
            None => return Err(invalid()),
        };
        let m = rest.unicode_len();
        let suffix = rest.substring_char(j + 1, m);
        assert(suffix@ =~= rest@.skip(j + 1));
        let k = suffix.unicode_len();
        if k > 0 {
            if suffix.get_char(0) != ':' {
                return Err(invalid());
            }
            let port = suffix.substring_char(1, k);
            assert(port@ =~= suffix@.drop_first());
            match validate_node_port(port) {
                Ok(()) => {},
                Err(e) => return Err(e),
            }
        }
        let address = rest.substring_char(0, j);
        assert(address@ =~= rest@.take(j as int));
        return match parse_ipv6(address) {
            Some(g) => Ok(IpAddress::V6(g)),
            None => Err(invalid()),
        };
    }
    let address = match find_char(value, ':') {
        None => value,
        Some(p) => {
            let port = value.substring_char(p + 1, n);
            assert(port@ =~= value@.skip(p + 1));
            match validate_node_port(port) {
                Ok(()) => {},
                Err(e) => return Err(e),
            }
            let a = value.substring_char(0, p);
            assert(a@ =~= value@.take(p as int));
            a
        },
    };
    match parse_ipv4(address) {
        Some(o) => Ok(IpAddress::V4(o)),
        None => Err(invalid()),
    }
}


// ---------------------------------------------------------------------------
// Elements and the field
// ---------------------------------------------------------------------------

/// A parameter trimmed of optional whitespace and cut at its first `=` into
/// name and value; absent when it is empty or has no `=`.
pub open spec fn parameter_parts(p: Seq<char>) -> Option<(Seq<char>, Seq<char>)> {
    let t = trim_ows_spec(p);
    if t.len() == 0 {
        None
    } else {
        match char_index_from(t, '=', 0) {
            None => None,
            Some(k) => Some((t.take(k), t.skip(k + 1))),
        }
    }
}

/// The parameter name is `for` in any ASCII case, around optional whitespace.
pub open spec fn is_for_name(name: Seq<char>) -> bool {
    let n = trim_ows_spec(name);
    &&& n.len() == 3
    &&& eq_ignore_ascii_case(n[0], 'f')
    &&& eq_ignore_ascii_case(n[1], 'o')
    &&& eq_ignore_ascii_case(n[2], 'r')
}

/// A parameter name is `for` exactly when, with optional whitespace trimmed
/// from both ends and ASCII letters lowered, it reads `for`.
pub proof fn law_for_name_ignores_ascii_case(name: Seq<char>)
    ensures
        is_for_name(name) <==> trim_ows_spec(name).map_values(|c: char| ascii_lower(c)) == "for"@,
{
    reveal_strlit("for");
    let n = trim_ows_spec(name);
    let lowered = n.map_values(|c: char| ascii_lower(c));
    if is_for_name(name) {
        assert(lowered =~= "for"@);
    }
    if lowered == "for"@ {
        assert(lowered[0] == 'f' && lowered[1] == 'o' && lowered[2] == 'r');
        assert("for"@.len() == 3);
        assert(lowered.len() == 3);
        assert(lowered.len() == n.len());
        assert(n.len() == 3);
        assert forall|k: int| 0 <= k < 3 implies (ascii_lower(#[trigger] n[k]) as int)
            == crate::text::ascii_lower_code(n[k]) by {
            crate::text::lemma_ascii_lower_code_is_a_char(n[k]);
        }
        assert(ascii_lower(n[0]) == lowered[0]);
        assert(ascii_lower(n[1]) == lowered[1]);
        assert(ascii_lower(n[2]) == lowered[2]);
    }
}

/// The well-formed `for` parameters among the first `n`, by position.
pub open spec fn for_indices(params: Seq<Seq<char>>, n: int) -> Seq<int>
    decreases n,
{
    if n <= 0 {
        seq![]
    } else {
        let p = for_indices(params, n - 1);
        match parameter_parts(params[n - 1]) {
            Some((name, _)) => if is_for_name(name) {
                p.push(n - 1)
            } else {
                p
            },
            None => p,
        }
    }
}

/// The address that the `for` parameter `p` designates.
pub open spec fn for_parameter_node(p: Seq<char>) -> Option<IpAddressView> {
    match parameter_parts(p) {
        Some((_, raw)) => match parameter_value_spec(raw) {
            Some((v, q)) => forwarded_node_spec(v, q),
            None => None,
        },
        None => None,
    }
}

/// The address of one field element: the element is not blank, its
/// parameters split cleanly at `;`, each parameter is non-empty with an `=`,
/// exactly one of them is `for`, and its value is a usable IP node. Other
/// parameters are ignored.
pub open spec fn forwarded_element_spec(element: Seq<char>) -> Option<IpAddressView> {
    if trim_ows_spec(element).len() == 0 {
        None
    } else {
        match split_quoted_spec(element, ';') {
            None => None,
            Some(params) => {
                let fors = for_indices(params, params.len() as int);
                if (forall|k: int|
                    0 <= k < params.len() ==> parameter_parts(#[trigger] params[k]) is Some)
                    && fors.len() == 1 {
                    for_parameter_node(params[fors[0]])
                } else {
                    None
                }
            },
        }
    }
}

/// The IP chain of a `Forwarded` value: the elements split at `,` outside
/// quoted strings, each of which must yield an address.
pub open spec fn forwarded_for_spec(value: Seq<char>) -> Option<Seq<IpAddressView>> {
    match split_quoted_spec(value, ',') {
        None => None,
        Some(elements) => if forall|k: int|
            0 <= k < elements.len() ==> forwarded_element_spec(#[trigger] elements[k]) is Some {
            Some(Seq::new(elements.len(), |k: int| forwarded_element_spec(elements[k])->0))
        } else {
            None
        },
    }
}


proof fn lemma_for_indices_prefix(params: Seq<Seq<char>>, n: int, m: int)
    requires
        0 <= n <= m,
    ensures
        for_indices(params, n).len() <= for_indices(params, m).len(),
        for_indices(params, m).take(for_indices(params, n).len() as int) == for_indices(params, n),
    decreases m - n,
{
    if n < m {
        lemma_for_indices_prefix(params, n, m - 1);
        let a = for_indices(params, n);
        let b = for_indices(params, m - 1);
        let c = for_indices(params, m);
        assert(c.take(a.len() as int) =~= b.take(a.len() as int));
    } else {
        assert(for_indices(params, m).take(for_indices(params, m).len() as int) =~= for_indices(
            params,
            m,
        ));
    }
}

fn is_for(name: &str) -> (is: bool)
    ensures
        is == is_for_name(name@),
{
    let t = trim_ows(name);
    t.unicode_len() == 3 && chars_eq_ignore_ascii_case(t.get_char(0), 'f')
        && chars_eq_ignore_ascii_case(t.get_char(1), 'o') && chars_eq_ignore_ascii_case(
        t.get_char(2),
        'r',
    )
}

/// Parse one `Forwarded` element into the address of its single `for`
/// parameter.
pub fn parse_forwarded_element_for(element: &str) -> (address: Result<IpAddress, Error>)
    ensures
        address is Ok <==> forwarded_element_spec(element@) is Some,
        address matches Ok(a) ==> a@ == forwarded_element_spec(element@)->0,
        address matches Err(e) ==> e@ == forwarded_invalid(),
{
    if trim_ows(element).unicode_len() == 0 {
        return Err(invalid());
    }
    let params = match split_quoted(element, ';') {
        Ok(p) => p,
        Err(e) => return Err(e),
    };
    let ghost sp = split_quoted_spec(element@, ';')->0;
    let n = params.len();
    let mut found: Option<IpAddress> = None;
    let mut i: usize = 0;
    while i < n
        invariant
            n == params@.len(),
            n == sp.len(),
            split_quoted_spec(element@, ';') == Some(sp),
            trim_ows_spec(element@).len() != 0,
            forall|k: int| 0 <= k < n ==> #[trigger] params@[k]@ == sp[k],
            i <= n,
            forall|k: int| 0 <= k < i ==> parameter_parts(#[trigger] sp[k]) is Some,
            for_indices(sp, i as int).len() == (if found is Some {
                1int
            } else {
                0
            }),
            found matches Some(a) ==> for_parameter_node(sp[for_indices(sp, i as int)[0]]) == Some(
                a@,
            ),
        decreases n - i,
    {
        proof {
            lemma_for_indices_prefix(sp, i + 1, n as int);
        }
        let parameter = trim_ows(params[i]);
        let m = parameter.unicode_len();
        if m == 0 {
            return Err(invalid());
        }
        let k = match find_char(parameter, '=') {
            Some(k) => k,
            None => return Err(invalid()),
        };
        let name = parameter.substring_char(0, k);
        let value = parameter.substring_char(k + 1, m);
        assert(name@ =~= parameter@.take(k as int));
        assert(value@ =~= parameter@.skip(k + 1));
        assert(parameter_parts(sp[i as int]) == Some((name@, value@)));
        if is_for(name) {
            if found.is_some() {
                return Err(invalid());
            }
            assert(for_indices(sp, i + 1) =~= seq![i as int]);
            proof {
                let fors = for_indices(sp, n as int);
                assert(fors.take(1) == seq![i as int]);
                if fors.len() == 1 {
                    assert(fors[0] == fors.take(1)[0]);
                }
            }
            let (text, quoted) = match parse_parameter_value(value) {
                Ok(parsed) => parsed,
                Err(e) => {
                    assert(for_parameter_node(sp[i as int]) is None);
                    return Err(e);
                },
            };
            let node = match parse_forwarded_node(text.as_str(), quoted) {
                Ok(node) => node,
                Err(e) => {
                    assert(for_parameter_node(sp[i as int]) is None);
                    return Err(e);
                },
            };
            found = Some(node);
        }
        i = i + 1;
    }
    match found {
        Some(a) => Ok(a),
        None => Err(invalid()),
    }
}

/// Parse a `Forwarded` field value into its IP chain, in wire order.
pub fn parse_forwarded_for(value: &str) -> (chain: Result<Vec<IpAddress>, Error>)
    ensures
        chain is Ok <==> forwarded_for_spec(value@) is Some,
        chain matches Ok(ips) ==> ips_view(ips@) == forwarded_for_spec(value@)->0,
        chain matches Err(e) ==> e@ == forwarded_invalid(),
{
    let elements = match split_quoted(value, ',') {
        Ok(e) => e,
        Err(e) => return Err(e),
    };
    let ghost se = split_quoted_spec(value@, ',')->0;
    let n = elements.len();
    let mut ips: Vec<IpAddress> = Vec::new();
    let mut i: usize = 0;
    while i < n
        invariant
            n == elements@.len(),
            n == se.len(),
            split_quoted_spec(value@, ',') == Some(se),
            forall|k: int| 0 <= k < n ==> #[trigger] elements@[k]@ == se[k],
            i <= n,
            ips@.len() == i,
            forall|k: int|
                0 <= k < i ==> forwarded_element_spec(#[trigger] se[k]) == Some(ips@[k]@),
        decreases n - i,
    {
        match parse_forwarded_element_for(elements[i]) {
            Ok(a) => ips.push(a),
            Err(e) => return Err(e),
        }
        i = i + 1;
    }
    assert(ips_view(ips@) =~= forwarded_for_spec(value@)->0);
    Ok(ips)
}


/// The chain keeps one address per field element, in wire order: no
/// element is skipped, so the chain is never shorter than the field.
pub proof fn law_one_address_per_element(value: Seq<char>)
    ensures
        forwarded_for_spec(value) matches Some(ips) ==> {
            &&& split_quoted_spec(value, ',') matches Some(elements)
            &&& ips.len() == elements.len()
            &&& ips.len() >= 1
            &&& forall|k: int|
                0 <= k < ips.len() ==> forwarded_element_spec(elements[k]) == Some(#[trigger] ips[k])
        },
{
}

/// The `Forwarded` chain of a field map: absent when the field is absent,
/// the chain when the single field line parses, an error otherwise.
pub open spec fn forwarded_field_spec(fields: Map<Seq<char>, Seq<Seq<u8>>>) -> Result<
    Option<Seq<IpAddressView>>,
    ErrorView,
> {
    match single_field_text(fields, FORWARDED@) {
        Err(e) => Err(e),
        Ok(None) => Ok(None),
        Ok(Some(text)) => match forwarded_for_spec(text) {
            Some(ips) => Ok(Some(ips)),
            None => Err(forwarded_invalid()),
        },
    }
}

/// Extract RFC 7239 `Forwarded` `for=` values as an untrusted IP chain.
///
/// Addresses come in wire order, from the remotest assertion to the one
/// nearest the server. A missing field returns `None`; an empty field is
/// invalid. The field must be a single text line, and every element must hold
/// exactly one usable IP `for=` parameter; unknown, obfuscated or non-IP nodes
/// are errors, never skipped. Parameters other than `for` are ignored.
/// Parsing does not make any address trustworthy.
pub fn extract_header_forwarded_for(headers: &HeaderMap) -> (chain: Result<
    Option<Vec<IpAddress>>,
    Error,
>)
    ensures
        chain_result_view(chain) == forwarded_field_spec(header_fields(*headers)),
{
    let name = {
        proof {
            reveal_strlit("forwarded");
        }
        FieldName::from_static(FORWARDED)
    };
    match extract_single_header_text(headers, &name) {
        Err(e) => Err(e),
        Ok(None) => Ok(None),
        Ok(Some(text)) => match parse_forwarded_for(text) {
            Ok(ips) => Ok(Some(ips)),
            Err(e) => Err(e),
        },
    }
}

/// Extract the untrusted `Forwarded` chain from a complete request, by
/// [`extract_header_forwarded_for`] on `request.headers()`.
pub fn extract_request_forwarded_for<B>(request: &Request<B>) -> (chain: Result<
    Option<Vec<IpAddress>>,
    Error,
>)
    ensures
        exists|h: HeaderMap| chain_result_view(chain) == forwarded_field_spec(header_fields(h)),
{
    extract_header_forwarded_for(request_headers(request))
}

/// Extract the rightmost `Forwarded` `for=` address, the assertion nearest
/// the server, with the missing and error behavior of
/// [`extract_header_forwarded_for`].
pub fn extract_rightmost_forwarded(headers: &HeaderMap) -> (address: Result<
    Option<IpAddress>,
    Error,
>)
    ensures
        ip_result_view(address) == rightmost(forwarded_field_spec(header_fields(*headers))),
{
    last_address(extract_header_forwarded_for(headers))
}

} // verus!
