//! IP addresses and their textual forms.
//!
//! The grammar is the one accepted by Rust's standard address parsers: IPv4 in
//! strict dotted-decimal form (four octets of one to three digits, no leading
//! zeros), IPv6 in the RFC 4291 text form with at most one `::` and an
//! optional trailing dotted IPv4 part, and socket addresses `a.b.c.d:port` and
//! `[v6]:port` or `[v6%scope]:port`.

use vstd::prelude::*;

use crate::error::{Error, ErrorView};
use crate::text::{
    all_digits, all_hex_digits, bounded_decimal, decimal_value, hex_value, parse_bounded_decimal,
    parse_hex_group, split_char, split_char_spec,
};

verus! {

/// An IP address as four octets or eight 16-bit segments, most significant
/// first.
#[derive(Clone, Copy, Debug, PartialEq, Eq, Hash)]
pub enum IpAddress {
    /// An IPv4 address.
    V4([u8; 4]),
    /// An IPv6 address.
    V6([u16; 8]),
}

/// The mathematical value of an [`IpAddress`].
pub enum IpAddressView {
    /// The four octets.
    V4(Seq<u8>),
    /// The eight segments.
    V6(Seq<u16>),
}

impl View for IpAddress {
    type V = IpAddressView;

    open spec fn view(&self) -> IpAddressView {
        match self {
            IpAddress::V4(octets) => IpAddressView::V4(octets@),
            IpAddress::V6(segments) => IpAddressView::V6(segments@),
        }
    }
}

// ---------------------------------------------------------------------------
// Grammar
// ---------------------------------------------------------------------------

/// One dotted-decimal octet: one to three digits, no leading zero, at most 255.
pub open spec fn dec_octet(s: Seq<char>) -> Option<u8> {
    if 0 < s.len() <= 3 && all_digits(s) && (s.len() == 1 || s[0] != '0') && decimal_value(s)
        <= 255 {
        Some(decimal_value(s) as u8)
    } else {
        None
    }
}

/// The octets of a dotted-decimal IPv4 address.
pub open spec fn ipv4_octets(s: Seq<char>) -> Option<Seq<u8>> {
    let parts = split_char_spec(s, '.');
    if parts.len() == 4 && forall|k: int| 0 <= k < 4 ==> dec_octet(#[trigger] parts[k]) is Some {
        Some(Seq::new(4, |k: int| dec_octet(parts[k])->0))
    } else {
        None
    }
}

/// One IPv6 segment: one to four hexadecimal digits.
pub open spec fn hex_group(s: Seq<char>) -> Option<u16> {
    if 0 < s.len() <= 4 && all_hex_digits(s) {
        Some(hex_value(s) as u16)
    } else {
        None
    }
}

/// The two segments that an embedded IPv4 address stands for.
pub open spec fn ipv4_as_segments(o: Seq<u8>) -> Seq<u16> {
    seq![(o[0] * 256 + o[1]) as u16, (o[2] * 256 + o[3]) as u16]
}

/// The segments written by the `:`-separated `parts`; only the last part may
/// be an embedded IPv4 address, and only when `ipv4_last` holds.
pub open spec fn ipv6_pieces(parts: Seq<Seq<char>>, ipv4_last: bool) -> Option<Seq<u16>> {
    let n = parts.len();
    if n == 0 || !(forall|k: int| 0 <= k < n - 1 ==> hex_group(#[trigger] parts[k]) is Some) {
        None
    } else {
        let head = Seq::new((n - 1) as nat, |k: int| hex_group(parts[k])->0);
        match hex_group(parts[n - 1]) {
            Some(g) => Some(head.push(g)),
            None => if ipv4_last {
                match ipv4_octets(parts[n - 1]) {
                    Some(o) => Some(head + ipv4_as_segments(o)),
                    None => None,
                }
            } else {
                None
            },
        }
    }
}

/// The first index `k >= i` where `s` holds `::`.
pub open spec fn double_colon_from(s: Seq<char>, i: int) -> Option<int>
    decreases s.len() - i,
{
    if i < 0 || i + 1 >= s.len() {
        None
    } else if s[i] == ':' && s[i + 1] == ':' {
        Some(i)
    } else {
        double_colon_from(s, i + 1)
    }
}

/// `n` zero segments.
pub open spec fn zero_segments(n: nat) -> Seq<u16> {
    Seq::new(n, |i: int| 0u16)
}

/// The segments of an IPv6 address in text form.
///
/// Without `::` the text holds eight segments (an embedded IPv4 address
/// counting as two). With `::` the parts before and after it hold at most
/// seven segments together and `::` stands for the missing zero segments;
/// an embedded IPv4 address may end only the part after `::`.
pub open spec fn ipv6_segments(s: Seq<char>) -> Option<Seq<u16>> {
    match double_colon_from(s, 0) {
        None => match ipv6_pieces(split_char_spec(s, ':'), true) {
            Some(g) => if g.len() == 8 {
                Some(g)
            } else {
                None
            },
            None => None,
        },
        Some(k) => {
            let head_text = s.take(k);
            let tail_text = s.skip(k + 2);
            let head = if head_text.len() == 0 {
                Some(Seq::<u16>::empty())
            } else {
                ipv6_pieces(split_char_spec(head_text, ':'), false)
            };
            let tail = if tail_text.len() == 0 {
                Some(Seq::<u16>::empty())
            } else {
                ipv6_pieces(split_char_spec(tail_text, ':'), true)
            };
            match (head, tail) {
                (Some(h), Some(t)) => if h.len() + t.len() <= 7 {
                    Some(h + zero_segments((8 - h.len() - t.len()) as nat) + t)
                } else {
                    None
                },
                _ => None,
            }
        },
    }
}

/// The address written by `s`, IPv4 or IPv6.
pub open spec fn ip_address_spec(s: Seq<char>) -> Option<IpAddressView> {
    match ipv4_octets(s) {
        Some(o) => Some(IpAddressView::V4(o)),
        None => match ipv6_segments(s) {
            Some(g) => Some(IpAddressView::V6(g)),
            None => None,
        },
    }
}

/// The first index `k >= i` with `s[k] == c`.
pub open spec fn char_index_from(s: Seq<char>, c: char, i: int) -> Option<int>
    decreases s.len() - i,
{
    if i < 0 || i >= s.len() {
        None
    } else if s[i] == c {
        Some(i)
    } else {
        char_index_from(s, c, i + 1)
    }
}

/// A socket port: one or more decimal digits with a value that fits in 16 bits.
pub open spec fn port_text(s: Seq<char>) -> bool {
    bounded_decimal(s, 65535)
}

/// The address of a socket address in text form: `a.b.c.d:port`,
/// `[v6]:port`, or `[v6%scope]:port` with a 32-bit decimal scope.
pub open spec fn socket_address_spec(s: Seq<char>) -> Option<IpAddressView> {
    if s.len() > 0 && s[0] == '[' {
        match char_index_from(s, ']', 0) {
            None => None,
            Some(j) => {
                let inner = s.subrange(1, j);
                let after = s.skip(j + 1);
                let (addr, scope_ok) = match char_index_from(inner, '%', 0) {
                    None => (inner, true),
                    Some(p) => (inner.take(p), bounded_decimal(inner.skip(p + 1), 0xffff_ffff)),
                };
                if scope_ok && after.len() > 0 && after[0] == ':' && port_text(after.skip(1)) {
                    match ipv6_segments(addr) {
                        Some(g) => Some(IpAddressView::V6(g)),
                        None => None,
                    }
                } else {
                    None
                }
            },
        }
    } else {
        match char_index_from(s, ':', 0) {
            None => None,
            Some(p) => if port_text(s.skip(p + 1)) {
                match ipv4_octets(s.take(p)) {
                    Some(o) => Some(IpAddressView::V4(o)),
                    None => None,
                }
            } else {
                None
            },
        }
    }
}

/// The text of an unsigned 16-bit integer as `u16::from_str` reads it: an
/// optional `+`, then one or more decimal digits with a value below 65536.
pub open spec fn u16_text(s: Seq<char>) -> bool {
    let digits = if s.len() > 0 && s[0] == '+' {
        s.drop_first()
    } else {
        s
    };
    bounded_decimal(digits, 65535)
}

// ---------------------------------------------------------------------------
// Parsers
// ---------------------------------------------------------------------------

/// Reads one dotted-decimal octet.
pub fn parse_dec_octet(value: &str) -> (octet: Option<u8>)
    ensures
        octet == dec_octet(value@),
{
    let n = value.unicode_len();
    if n == 0 || n > 3 {
        return None;
    }
    if n > 1 && value.get_char(0) == '0' {
        return None;
    }
    match parse_bounded_decimal(value, 255) {
        Some(v) => Some(v as u8),
        None => None,
    }
}

/// Reads a dotted-decimal IPv4 address.
pub fn parse_ipv4(value: &str) -> (octets: Option<[u8; 4]>)
    ensures
        octets is Some <==> ipv4_octets(value@) is Some,
        octets matches Some(o) ==> o@ == ipv4_octets(value@)->0,
{
    let parts = split_char(value, '.');
    let ghost spec_parts = split_char_spec(value@, '.');
    if parts.len() != 4 {
        return None;
    }
    let o0 = match parse_dec_octet(parts[0]) {
        Some(o) => o,
        None => return None,
    };
    let o1 = match parse_dec_octet(parts[1]) {
        Some(o) => o,
        None => return None,
    };
    let o2 = match parse_dec_octet(parts[2]) {
        Some(o) => o,
        None => return None,
    };
    let o3 = match parse_dec_octet(parts[3]) {
        Some(o) => o,
        None => return None,
    };
    proof {
        assert(parts@[0]@ == spec_parts[0]);
        assert(parts@[1]@ == spec_parts[1]);
        assert(parts@[2]@ == spec_parts[2]);
        assert(parts@[3]@ == spec_parts[3]);
        assert forall|k: int| 0 <= k < 4 implies dec_octet(#[trigger] spec_parts[k]) is Some by {
            if k == 0 {
            } else if k == 1 {
            } else if k == 2 {
            } else {
            }
        }
    }
    let octets = [o0, o1, o2, o3];
    assert(octets@ =~= ipv4_octets(value@)->0);
    Some(octets)
}


/// The texts of a sequence of string slices.
pub open spec fn views_of(parts: Seq<&str>) -> Seq<Seq<char>> {
    parts.map_values(|p: &str| p@)
}

/// Reads the segments written by `parts`, as [`ipv6_pieces`] describes.
fn parse_ipv6_pieces(parts: &Vec<&str>, ipv4_last: bool) -> (segments: Option<Vec<u16>>)
    ensures
        segments is Some <==> ipv6_pieces(views_of(parts@), ipv4_last) is Some,
        segments matches Some(g) ==> g@ == ipv6_pieces(views_of(parts@), ipv4_last)->0,
{
    let ghost texts = views_of(parts@);
    let n = parts.len();
    if n == 0 {
        return None;
    }
    let mut out: Vec<u16> = Vec::new();
    let mut k: usize = 0;
    while k < n - 1
        invariant
            n == parts@.len(),
            n > 0,
            texts == views_of(parts@),
            k <= n - 1,
            out@.len() == k,
            forall|j: int| 0 <= j < k ==> hex_group(#[trigger] texts[j]) == Some(out@[j]),
        decreases n - 1 - k,
    {
        match parse_hex_group(parts[k], 4) {
            Some(g) => {
                out.push(g);
            },
            None => {
                assert(hex_group(texts[k as int]) is None);
                return None;
            },
        }
        k = k + 1;
    }
    let ghost head = Seq::new((n - 1) as nat, |j: int| hex_group(texts[j])->0);
    assert(out@ =~= head);
    match parse_hex_group(parts[n - 1], 4) {
        Some(g) => {
            out.push(g);
            return Some(out);
        },
        None => {},
    }
    if !ipv4_last {
        return None;
    }
    match parse_ipv4(parts[n - 1]) {
        Some(o) => {
            let hi: u16 = o[0] as u16 * 256 + o[1] as u16;
            let lo: u16 = o[2] as u16 * 256 + o[3] as u16;
            out.push(hi);
            out.push(lo);
            assert(out@ =~= head + ipv4_as_segments(o@));
            Some(out)
        },
        None => None,
    }
}

/// Finds the first `::` in `value`.
fn find_double_colon(value: &str) -> (index: Option<usize>)
    ensures
        index matches Some(k) ==> double_colon_from(value@, 0) == Some(k as int) && k + 1
            < value@.len(),
        index is None ==> double_colon_from(value@, 0) is None,
{
    let n = value.unicode_len();
    let mut i: usize = 0;
    while n > 0 && i < n - 1
        invariant
            n == value@.len(),
            double_colon_from(value@, 0) == double_colon_from(value@, i as int),
        decreases n - i,
    {
        if value.get_char(i) == ':' && value.get_char(i + 1) == ':' {
            return Some(i);
        }
        i = i + 1;
    }
    None
}

proof fn lemma_split_views<'a>(parts: Seq<&'a str>, s: Seq<char>, c: char)
    requires
        parts.len() == split_char_spec(s, c).len(),
        forall|k: int| 0 <= k < parts.len() ==> #[trigger] parts[k]@ == split_char_spec(s, c)[k],
    ensures
        views_of(parts) == split_char_spec(s, c),
{
    assert(views_of(parts) =~= split_char_spec(s, c));
}

/// Reads the eight segments of an IPv6 address in text form.
pub fn parse_ipv6(value: &str) -> (segments: Option<[u16; 8]>)
    ensures
        segments is Some <==> ipv6_segments(value@) is Some,
        segments matches Some(g) ==> g@ == ipv6_segments(value@)->0,
{
    let n = value.unicode_len();
    let groups: Vec<u16> = match find_double_colon(value) {
        None => {
            let parts = split_char(value, ':');
            proof {
                lemma_split_views(parts@, value@, ':');
            }
            match parse_ipv6_pieces(&parts, true) {
                Some(g) => {
                    if g.len() != 8 {
                        return None;
                    }
                    g
                },
                None => return None,
            }
        },
        Some(k) => {
            let head_text = value.substring_char(0, k);
            let tail_text = value.substring_char(k + 2, n);
            assert(head_text@ =~= value@.take(k as int));
            assert(tail_text@ =~= value@.skip(k + 2));
            let head: Vec<u16> = if k == 0 {
                Vec::new()
            } else {
                let parts = split_char(head_text, ':');
                proof {
                    lemma_split_views(parts@, head_text@, ':');
                }
                match parse_ipv6_pieces(&parts, false) {
                    Some(g) => g,
                    None => return None,
                }
            };
            let tail: Vec<u16> = if k + 2 == n {
                Vec::new()
            } else {
                let parts = split_char(tail_text, ':');
                proof {
                    lemma_split_views(parts@, tail_text@, ':');
                }
                match parse_ipv6_pieces(&parts, true) {
                    Some(g) => g,
                    None => return None,
                }
            };
            if head.len() > 7 || tail.len() > 7 - head.len() {
                return None;
            }
            let mut out = head;
            let zeros = 8 - out.len() - tail.len();
            let ghost before_zeros = out@;
            let mut z: usize = 0;
            while z < zeros
                invariant
                    z <= zeros,
                    out@ == before_zeros + zero_segments(z as nat),
                decreases zeros - z,
            {
                out.push(0);
                z = z + 1;
                assert(out@ =~= before_zeros + zero_segments(z as nat));
            }
            let mut t: usize = 0;
            let ghost before_tail = out@;
            while t < tail.len()
                invariant
                    t <= tail@.len(),
                    out@ == before_tail + tail@.take(t as int),
                decreases tail@.len() - t,
            {
                out.push(tail[t]);
                t = t + 1;
                assert(out@ =~= before_tail + tail@.take(t as int));
            }
            assert(tail@.take(tail@.len() as int) =~= tail@);
            out
        },
    };
    let segments = [
        groups[0],
        groups[1],
        groups[2],
        groups[3],
        groups[4],
        groups[5],
        groups[6],
        groups[7],
    ];
    assert(segments@ =~= groups@);
    Some(segments)
}


/// Finds the first `c` in `value`.
pub fn find_char(value: &str, c: char) -> (index: Option<usize>)
    ensures
        index matches Some(k) ==> char_index_from(value@, c, 0) == Some(k as int) && k
            < value@.len() && value@[k as int] == c,
        index is None ==> char_index_from(value@, c, 0) is None,
{
    let n = value.unicode_len();
    let mut i: usize = 0;
    while i < n
        invariant
            n == value@.len(),
            i <= n,
            char_index_from(value@, c, 0) == char_index_from(value@, c, i as int),
        decreases n - i,
    {
        if value.get_char(i) == c {
            return Some(i);
        }
        i = i + 1;
    }
    None
}

impl IpAddress {
    /// Reads an IPv4 or IPv6 address in text form.
    pub fn parse(value: &str) -> (address: Option<IpAddress>)
        ensures
            address is Some <==> ip_address_spec(value@) is Some,
            address matches Some(a) ==> a@ == ip_address_spec(value@)->0,
    {
        match parse_ipv4(value) {
            Some(o) => Some(IpAddress::V4(o)),
            None => match parse_ipv6(value) {
                Some(g) => Some(IpAddress::V6(g)),
                None => None,
            },
        }
    }

    /// Reads a socket address in text form and returns its IP address.
    pub fn parse_socket_address(value: &str) -> (address: Option<IpAddress>)
        ensures
            address is Some <==> socket_address_spec(value@) is Some,
            address matches Some(a) ==> a@ == socket_address_spec(value@)->0,
    {
        let n = value.unicode_len();
        if n > 0 && value.get_char(0) == '[' {
            let j = match find_char(value, ']') {
                Some(j) => j,
                None => return None,
            };
            let inner = value.substring_char(1, j);
            let after = value.substring_char(j + 1, n);
            assert(after@ =~= value@.skip(j + 1));
            let addr = match find_char(inner, '%') {
                None => inner,
                Some(p) => {
                    let scope = inner.substring_char(p + 1, inner.unicode_len());
                    assert(scope@ =~= inner@.skip(p + 1));
                    if parse_bounded_decimal(scope, 0xffff_ffff).is_none() {
                        return None;
                    }
                    let a = inner.substring_char(0, p);
                    assert(a@ =~= inner@.take(p as int));
                    a
                },
            };
            let m = after.unicode_len();
            if m == 0 || after.get_char(0) != ':' {
                return None;
            }
            let port = after.substring_char(1, m);
            assert(port@ =~= after@.skip(1));
            if parse_bounded_decimal(port, 65535).is_none() {
                return None;
            }
            match parse_ipv6(addr) {
                Some(g) => Some(IpAddress::V6(g)),
                None => None,
            }
        } else {
            let p = match find_char(value, ':') {
                Some(p) => p,
                None => return None,
            };
            let port = value.substring_char(p + 1, n);
            assert(port@ =~= value@.skip(p + 1));
            if parse_bounded_decimal(port, 65535).is_none() {
                return None;
            }
            let host = value.substring_char(0, p);
            assert(host@ =~= value@.take(p as int));
            match parse_ipv4(host) {
                Some(o) => Some(IpAddress::V4(o)),
                None => None,
            }
        }
    }
}

/// Whether `value` is the text of a `u16`, as `u16::from_str` accepts it.
pub fn is_u16_text(value: &str) -> (accepted: bool)
    ensures
        accepted == u16_text(value@),
{
    let n = value.unicode_len();
    let digits = if n > 0 && value.get_char(0) == '+' {
        let d = value.substring_char(1, n);
        assert(d@ =~= value@.drop_first());
        d
    } else {
        value
    };
    parse_bounded_decimal(digits, 65535).is_some()
}


/// The views of a list of addresses.
pub open spec fn ips_view(ips: Seq<IpAddress>) -> Seq<IpAddressView> {
    ips.map_values(|a: IpAddress| a@)
}

/// The view of an optional address chain or an error.
pub open spec fn chain_result_view(r: Result<Option<Vec<IpAddress>>, Error>) -> Result<
    Option<Seq<IpAddressView>>,
    ErrorView,
> {
    match r {
        Ok(Some(ips)) => Ok(Some(ips_view(ips@))),
        Ok(None) => Ok(None),
        Err(e) => Err(e@),
    }
}

/// The view of an optional address or an error.
pub open spec fn ip_result_view(r: Result<Option<IpAddress>, Error>) -> Result<
    Option<IpAddressView>,
    ErrorView,
> {
    match r {
        Ok(Some(a)) => Ok(Some(a@)),
        Ok(None) => Ok(None),
        Err(e) => Err(e@),
    }
}

/// The last address of a chain result: the assertion nearest the server.
pub open spec fn rightmost(r: Result<Option<Seq<IpAddressView>>, ErrorView>) -> Result<
    Option<IpAddressView>,
    ErrorView,
> {
    match r {
        Err(e) => Err(e),
        Ok(None) => Ok(None),
        Ok(Some(ips)) => if ips.len() > 0 {
            Ok(Some(ips.last()))
        } else {
            Ok(None)
        },
    }
}

/// The last address of a chain, which is found by the rightmost selection.
pub fn last_address(chain: Result<Option<Vec<IpAddress>>, Error>) -> (address: Result<
    Option<IpAddress>,
    Error,
>)
    ensures
        ip_result_view(address) == rightmost(chain_result_view(chain)),
{
    match chain {
        Err(e) => Err(e),
        Ok(None) => Ok(None),
        Ok(Some(ips)) => {
            if ips.len() > 0 {
                Ok(Some(ips[ips.len() - 1]))
            } else {
                Ok(None)
            }
        },
    }
}

} // verus!
