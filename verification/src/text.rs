//! Character-level building blocks shared by the field grammars: trimming,
//! splitting at marked positions, ASCII classes and digit values.

use vstd::prelude::*;

use crate::outside::push_char;

verus! {

// ---------------------------------------------------------------------------
// Trimming
// ---------------------------------------------------------------------------

/// Optional whitespace (`OWS`) as used by HTTP field grammars: space or tab.
pub open spec fn is_ows(c: char) -> bool {
    c == ' ' || c == '\t'
}

/// Unicode `White_Space`, the class that `str::trim` removes.
pub open spec fn is_unicode_whitespace(c: char) -> bool {
    ||| '\t' <= c <= '\r'
    ||| c == ' '
    ||| c == '\u{85}'
    ||| c == '\u{a0}'
    ||| c == '\u{1680}'
    ||| '\u{2000}' <= c <= '\u{200a}'
    ||| c == '\u{2028}'
    ||| c == '\u{2029}'
    ||| c == '\u{202f}'
    ||| c == '\u{205f}'
    ||| c == '\u{3000}'
}

/// `s` without its longest prefix of characters satisfying `p`.
pub open spec fn strip_leading(s: Seq<char>, p: spec_fn(char) -> bool) -> Seq<char>
    decreases s.len(),
{
    if s.len() > 0 && p(s[0]) {
        strip_leading(s.drop_first(), p)
    } else {
        s
    }
}

/// `s` without its longest suffix of characters satisfying `p`.
pub open spec fn strip_trailing(s: Seq<char>, p: spec_fn(char) -> bool) -> Seq<char>
    decreases s.len(),
{
    if s.len() > 0 && p(s.last()) {
        strip_trailing(s.drop_last(), p)
    } else {
        s
    }
}

/// `s` with characters satisfying `p` removed from both ends.
pub open spec fn trim_by(s: Seq<char>, p: spec_fn(char) -> bool) -> Seq<char> {
    strip_trailing(strip_leading(s, p), p)
}

/// `s` trimmed of optional whitespace.
pub open spec fn trim_ows_spec(s: Seq<char>) -> Seq<char> {
    trim_by(s, |c: char| is_ows(c))
}

/// `s` trimmed of Unicode whitespace.
pub open spec fn trim_whitespace_spec(s: Seq<char>) -> Seq<char> {
    trim_by(s, |c: char| is_unicode_whitespace(c))
}

proof fn lemma_strip_leading_skip(s: Seq<char>, p: spec_fn(char) -> bool, i: int)
    requires
        0 <= i < s.len(),
        p(s[i]),
    ensures
        strip_leading(s.skip(i), p) == strip_leading(s.skip(i + 1), p),
{
    assert(s.skip(i).drop_first() =~= s.skip(i + 1));
}

proof fn lemma_strip_trailing_take(s: Seq<char>, p: spec_fn(char) -> bool, j: int)
    requires
        0 < j <= s.len(),
        p(s[j - 1]),
    ensures
        strip_trailing(s.take(j), p) == strip_trailing(s.take(j - 1), p),
{
    assert(s.take(j).drop_last() =~= s.take(j - 1));
}

/// Removes optional whitespace (space and tab) from both ends of `value`.
pub fn trim_ows(value: &str) -> (trimmed: &str)
    ensures
        trimmed@ == trim_ows_spec(value@),
{
    let ghost p = |c: char| is_ows(c);
    let n = value.unicode_len();
    let mut start: usize = 0;
    assert(value@.skip(0) =~= value@);
    while start < n
        invariant
            n == value@.len(),
            start <= n,
            strip_leading(value@, p) == strip_leading(value@.skip(start as int), p),
            forall|c: char| #[trigger] p(c) == is_ows(c),
        ensures
            start < n ==> !is_ows(value@[start as int]),
        decreases n - start,
    {
        let c = value.get_char(start);
        if c != ' ' && c != '\t' {
            break;
        }
        proof {
            lemma_strip_leading_skip(value@, p, start as int);
        }
        start = start + 1;
    }
    let ghost rest = value@.skip(start as int);
    assert(strip_leading(rest, p) == rest) by {
        if start < n {
            assert(rest[0] == value@[start as int]);
        }
    }
    let mut end: usize = n;
    assert(rest.take(n - start) =~= rest);
    while end > start
        invariant
            n == value@.len(),
            start <= end <= n,
            rest == value@.skip(start as int),
            strip_trailing(rest, p) == strip_trailing(rest.take(end - start), p),
            forall|c: char| #[trigger] p(c) == is_ows(c),
        ensures
            end > start ==> !is_ows(value@[end - 1]),
        decreases end - start,
    {
        let c = value.get_char(end - 1);
        if c != ' ' && c != '\t' {
            break;
        }
        proof {
            assert(rest[end - start - 1] == c);
            lemma_strip_trailing_take(rest, p, end - start);
        }
        end = end - 1;
    }
    let trimmed = value.substring_char(start, end);
    proof {
        let t = rest.take(end - start);
        assert(t =~= trimmed@);
        if end > start {
            assert(t.last() == value@[end - 1]);
        }
        assert(strip_trailing(t, p) == t);
    }
    trimmed
}

/// Removes Unicode whitespace from both ends of `value`, as `str::trim` does.
pub fn trim_whitespace(value: &str) -> (trimmed: &str)
    ensures
        trimmed@ == trim_whitespace_spec(value@),
{
    let ghost p = |c: char| is_unicode_whitespace(c);
    let n = value.unicode_len();
    let mut start: usize = 0;
    assert(value@.skip(0) =~= value@);
    while start < n
        invariant
            n == value@.len(),
            start <= n,
            strip_leading(value@, p) == strip_leading(value@.skip(start as int), p),
            forall|c: char| #[trigger] p(c) == is_unicode_whitespace(c),
        ensures
            start < n ==> !is_unicode_whitespace(value@[start as int]),
        decreases n - start,
    {
        let c = value.get_char(start);
        if !is_whitespace_char(c) {
            break;
        }
        proof {
            lemma_strip_leading_skip(value@, p, start as int);
        }
        start = start + 1;
    }
    let ghost rest = value@.skip(start as int);
    assert(strip_leading(rest, p) == rest) by {
        if start < n {
            assert(rest[0] == value@[start as int]);
        }
    }
    let mut end: usize = n;
    assert(rest.take(n - start) =~= rest);
    while end > start
        invariant
            n == value@.len(),
            start <= end <= n,
            rest == value@.skip(start as int),
            strip_trailing(rest, p) == strip_trailing(rest.take(end - start), p),
            forall|c: char| #[trigger] p(c) == is_unicode_whitespace(c),
        ensures
            end > start ==> !is_unicode_whitespace(value@[end - 1]),
        decreases end - start,
    {
        let c = value.get_char(end - 1);
        if !is_whitespace_char(c) {
            break;
        }
        proof {
            assert(rest[end - start - 1] == c);
            lemma_strip_trailing_take(rest, p, end - start);
        }
        end = end - 1;
    }
    let trimmed = value.substring_char(start, end);
    proof {
        let t = rest.take(end - start);
        assert(t =~= trimmed@);
        if end > start {
            assert(t.last() == value@[end - 1]);
        }
        assert(strip_trailing(t, p) == t);
    }
    trimmed
}

/// Whether `c` has the Unicode `White_Space` property.
pub fn is_whitespace_char(c: char) -> (b: bool)
    ensures
        b == is_unicode_whitespace(c),
{
    ('\t' <= c && c <= '\r') || c == ' ' || c == '\u{85}' || c == '\u{a0}' || c == '\u{1680}'
        || ('\u{2000}' <= c && c <= '\u{200a}') || c == '\u{2028}' || c == '\u{2029}' || c
        == '\u{202f}' || c == '\u{205f}' || c == '\u{3000}'
}


// ---------------------------------------------------------------------------
// Splitting at marked positions
// ---------------------------------------------------------------------------

/// The piece number `k` of `s` when `s` is cut at the increasing positions
/// `pts`; the characters at the cut positions belong to no piece.
pub open spec fn segment(s: Seq<char>, pts: Seq<int>, k: int) -> Seq<char> {
    let start = if k == 0 {
        0
    } else {
        pts[k - 1] + 1
    };
    let end = if k == pts.len() {
        s.len() as int
    } else {
        pts[k]
    };
    s.subrange(start, end)
}

/// All pieces of `s` cut at `pts`: one more piece than there are cuts.
pub open spec fn segments(s: Seq<char>, pts: Seq<int>) -> Seq<Seq<char>> {
    Seq::new((pts.len() + 1) as nat, |k: int| segment(s, pts, k))
}

/// Positions `pts` are strictly increasing indices of `s`.
pub open spec fn valid_cuts(s: Seq<char>, pts: Seq<int>) -> bool {
    &&& forall|k: int| 0 <= k < pts.len() ==> 0 <= #[trigger] pts[k] < s.len()
    &&& forall|j: int, k: int| 0 <= j < k < pts.len() ==> #[trigger] pts[j] < #[trigger] pts[k]
}

/// The pieces `parts` joined with `d` between consecutive pieces.
pub open spec fn join_with(parts: Seq<Seq<char>>, d: char) -> Seq<char>
    decreases parts.len(),
{
    if parts.len() == 0 {
        seq![]
    } else if parts.len() == 1 {
        parts[0]
    } else {
        join_with(parts.drop_last(), d) + seq![d] + parts.last()
    }
}

/// Cutting `s` at increasing positions that all hold `d` loses nothing:
/// joining the pieces with `d` gives `s` back.
pub proof fn lemma_segments_join(s: Seq<char>, pts: Seq<int>, d: char)
    requires
        valid_cuts(s, pts),
        forall|k: int| 0 <= k < pts.len() ==> s[#[trigger] pts[k]] == d,
    ensures
        join_with(segments(s, pts), d) == s,
    decreases pts.len(),
{
    if pts.len() == 0 {
        assert(segments(s, pts)[0] =~= s);
    } else {
        let m = pts.len() - 1;
        let p = pts[m];
        let prefix = s.take(p);
        let inner = pts.drop_last();
        assert forall|k: int| 0 <= k < inner.len() implies 0 <= #[trigger] inner[k] < prefix.len() by {
            assert(pts[k] < pts[m]);
        }
        assert forall|k: int| 0 <= k < inner.len() implies prefix[#[trigger] inner[k]] == d by {
            assert(pts[k] < pts[m]);
            assert(s[pts[k]] == d);
        }
        lemma_segments_join(prefix, inner, d);
        let all = segments(s, pts);
        assert forall|k: int| 0 <= k <= m implies #[trigger] segment(s, pts, k) == segment(
            prefix,
            inner,
            k,
        ) by {
            let start = if k == 0 {
                0
            } else {
                pts[k - 1] + 1
            };
            let end = if k == m {
                p
            } else {
                pts[k]
            };
            if k > 0 {
                assert(pts[k - 1] < pts[m]);
                if k < m {
                    assert(pts[k - 1] < pts[k]);
                    assert(pts[k] < pts[m]);
                }
            } else if k < m {
                assert(pts[k] < pts[m]);
            }
            assert(s.subrange(start, end) =~= prefix.subrange(start, end));
        }
        assert(all.drop_last() =~= segments(prefix, inner));
        assert(all.last() =~= s.subrange(p + 1, s.len() as int));
        assert(prefix + seq![d] + s.subrange(p + 1, s.len() as int) =~= s);
    }
}

/// Increasing positions `i < n` with `s[i] == c`.
pub open spec fn char_positions_before(s: Seq<char>, c: char, n: int) -> Seq<int>
    decreases n,
{
    if n <= 0 {
        seq![]
    } else {
        let p = char_positions_before(s, c, n - 1);
        if s[n - 1] == c {
            p.push(n - 1)
        } else {
            p
        }
    }
}

/// The pieces of `s` between occurrences of `c`, as `str::split` yields them.
pub open spec fn split_char_spec(s: Seq<char>, c: char) -> Seq<Seq<char>> {
    segments(s, char_positions_before(s, c, s.len() as int))
}

/// The cut positions before `n` are increasing indices below `n`.
pub proof fn lemma_char_positions_bounds(s: Seq<char>, c: char, n: int)
    requires
        0 <= n <= s.len(),
    ensures
        valid_cuts(s, char_positions_before(s, c, n)),
        forall|k: int|
            0 <= k < char_positions_before(s, c, n).len() ==> #[trigger] char_positions_before(
                s,
                c,
                n,
            )[k] < n,
        forall|k: int|
            0 <= k < char_positions_before(s, c, n).len() ==> s[#[trigger] char_positions_before(
                s,
                c,
                n,
            )[k]] == c,
    decreases n,
{
    if n > 0 {
        lemma_char_positions_bounds(s, c, n - 1);
    }
}

/// Splitting at a character and joining the pieces with it gives the text
/// back.
pub proof fn law_split_char_rejoins(s: Seq<char>, c: char)
    ensures
        join_with(split_char_spec(s, c), c) == s,
{
    lemma_char_positions_bounds(s, c, s.len() as int);
    lemma_segments_join(s, char_positions_before(s, c, s.len() as int), c);
}

/// Splits `value` at every occurrence of `delimiter`, keeping empty pieces.
pub fn split_char<'a>(value: &'a str, delimiter: char) -> (parts: Vec<&'a str>)
    ensures
        parts@.len() == split_char_spec(value@, delimiter).len(),
        forall|k: int|
            0 <= k < parts@.len() ==> #[trigger] parts@[k]@ == split_char_spec(value@, delimiter)[k],
{
    let n = value.unicode_len();
    let mut parts: Vec<&'a str> = Vec::new();
    let mut start: usize = 0;
    let mut i: usize = 0;
    while i < n
        invariant
            n == value@.len(),
            start <= i <= n,
            parts@.len() == char_positions_before(value@, delimiter, i as int).len(),
            start == (if parts@.len() == 0 {
                0
            } else {
                char_positions_before(value@, delimiter, i as int).last() + 1
            }),
            forall|k: int|
                0 <= k < parts@.len() ==> #[trigger] parts@[k]@ == segment(
                    value@,
                    char_positions_before(value@, delimiter, i as int),
                    k,
                ),
        decreases n - i,
    {
        let ghost pts = char_positions_before(value@, delimiter, i as int);
        proof {
            lemma_char_positions_bounds(value@, delimiter, i as int);
        }
        if value.get_char(i) == delimiter {
            let piece = value.substring_char(start, i);
            parts.push(piece);
            start = i + 1;
            proof {
                let npts = char_positions_before(value@, delimiter, i + 1);
                assert(npts == pts.push(i as int));
                assert forall|k: int| 0 <= k < parts@.len() implies #[trigger] parts@[k]@ == segment(
                    value@,
                    npts,
                    k,
                ) by {
                    if k < pts.len() {
                        assert(segment(value@, npts, k) == segment(value@, pts, k));
                    }
                }
            }
        }
        i = i + 1;
    }
    let last = value.substring_char(start, n);
    parts.push(last);
    proof {
        let pts = char_positions_before(value@, delimiter, n as int);
        lemma_char_positions_bounds(value@, delimiter, n as int);
        assert forall|k: int| 0 <= k < parts@.len() implies #[trigger] parts@[k]@
            == split_char_spec(value@, delimiter)[k] by {
            assert(split_char_spec(value@, delimiter)[k] == segment(value@, pts, k));
        }
    }
    parts
}

/// Whether two strings hold the same characters.
pub fn str_equal(a: &str, b: &str) -> (equal: bool)
    ensures
        equal == (a@ == b@),
{
    let n = a.unicode_len();
    if n != b.unicode_len() {
        return false;
    }
    let mut i: usize = 0;
    while i < n
        invariant
            n == a@.len(),
            n == b@.len(),
            i <= n,
            forall|j: int| 0 <= j < i ==> #[trigger] a@[j] == b@[j],
        decreases n - i,
    {
        if a.get_char(i) != b.get_char(i) {
            return false;
        }
        i = i + 1;
    }
    assert(a@ =~= b@);
    true
}

// ---------------------------------------------------------------------------
// ASCII classes and digit values
// ---------------------------------------------------------------------------

/// An ASCII decimal digit.
pub open spec fn is_digit(c: char) -> bool {
    '0' <= c <= '9'
}

/// An ASCII hexadecimal digit, either case.
pub open spec fn is_hex_digit(c: char) -> bool {
    ||| '0' <= c <= '9'
    ||| 'a' <= c <= 'f'
    ||| 'A' <= c <= 'F'
}

/// An ASCII letter.
pub open spec fn is_alpha(c: char) -> bool {
    ||| 'a' <= c <= 'z'
    ||| 'A' <= c <= 'Z'
}

/// An ASCII letter or digit.
pub open spec fn is_alphanumeric(c: char) -> bool {
    is_alpha(c) || is_digit(c)
}

/// The code of `c` after ASCII lowercasing; other characters are unchanged.
pub open spec fn ascii_lower_code(c: char) -> int {
    if 'A' <= c <= 'Z' {
        c as int + 32
    } else {
        c as int
    }
}

/// Lowering an ASCII letter gives a character again, whose code is the
/// lowered code.
pub proof fn lemma_ascii_lower_code_is_a_char(c: char)
    ensures
        (ascii_lower_code(c) as char) as int == ascii_lower_code(c),
{
    if 'A' <= c <= 'Z' {
        let x: int = c as int + 32;
        assert(65 + 32 <= x <= 90 + 32);
        assert((x as char) as int == x);
    }
}

/// `a` and `b` are equal up to ASCII case.
pub open spec fn eq_ignore_ascii_case(a: char, b: char) -> bool {
    ascii_lower_code(a) == ascii_lower_code(b)
}

/// The value of a decimal digit.
pub open spec fn digit_value(c: char) -> nat {
    (c as int - '0' as int) as nat
}

/// The value of a hexadecimal digit.
pub open spec fn hex_digit_value(c: char) -> nat {
    if '0' <= c <= '9' {
        (c as int - '0' as int) as nat
    } else if 'a' <= c <= 'f' {
        (c as int - 'a' as int + 10) as nat
    } else {
        (c as int - 'A' as int + 10) as nat
    }
}

/// Every character of `s` is a decimal digit.
pub open spec fn all_digits(s: Seq<char>) -> bool {
    forall|i: int| 0 <= i < s.len() ==> is_digit(#[trigger] s[i])
}

/// Every character of `s` is a hexadecimal digit.
pub open spec fn all_hex_digits(s: Seq<char>) -> bool {
    forall|i: int| 0 <= i < s.len() ==> is_hex_digit(#[trigger] s[i])
}

/// The number written by the decimal digits `s`, most significant first.
pub open spec fn decimal_value(s: Seq<char>) -> nat
    decreases s.len(),
{
    if s.len() == 0 {
        0
    } else {
        decimal_value(s.drop_last()) * 10 + digit_value(s.last())
    }
}

/// The number written by the hexadecimal digits `s`, most significant first.
pub open spec fn hex_value(s: Seq<char>) -> nat
    decreases s.len(),
{
    if s.len() == 0 {
        0
    } else {
        hex_value(s.drop_last()) * 16 + hex_digit_value(s.last())
    }
}

/// A non-empty run of decimal digits whose value is at most `limit`; leading
/// zeros are allowed.
pub open spec fn bounded_decimal(s: Seq<char>, limit: nat) -> bool {
    s.len() > 0 && all_digits(s) && decimal_value(s) <= limit
}

/// Extending a digit string never lowers its value.
pub proof fn lemma_decimal_value_monotone(s: Seq<char>, i: int)
    requires
        0 <= i <= s.len(),
    ensures
        decimal_value(s.take(i)) <= decimal_value(s),
    decreases s.len() - i,
{
    if i < s.len() {
        lemma_decimal_value_monotone(s, i + 1);
        assert(s.take(i + 1).drop_last() =~= s.take(i));
    } else {
        assert(s.take(i) =~= s);
    }
}

/// Extending a hexadecimal digit string never lowers its value.
pub proof fn lemma_hex_value_monotone(s: Seq<char>, i: int)
    requires
        0 <= i <= s.len(),
    ensures
        hex_value(s.take(i)) <= hex_value(s),
    decreases s.len() - i,
{
    if i < s.len() {
        lemma_hex_value_monotone(s, i + 1);
        assert(s.take(i + 1).drop_last() =~= s.take(i));
    } else {
        assert(s.take(i) =~= s);
    }
}

/// Whether `c` is an ASCII decimal digit.
pub fn is_digit_char(c: char) -> (b: bool)
    ensures
        b == is_digit(c),
{
    '0' <= c && c <= '9'
}

/// Whether `c` is an ASCII hexadecimal digit.
pub fn is_hex_digit_char(c: char) -> (b: bool)
    ensures
        b == is_hex_digit(c),
{
    ('0' <= c && c <= '9') || ('a' <= c && c <= 'f') || ('A' <= c && c <= 'F')
}

/// Whether `a` and `b` are equal up to ASCII case.
pub fn chars_eq_ignore_ascii_case(a: char, b: char) -> (eq: bool)
    ensures
        eq == eq_ignore_ascii_case(a, b),
{
    let x: u32 = if 'A' <= a && a <= 'Z' {
        a as u32 + 32
    } else {
        a as u32
    };
    let y: u32 = if 'A' <= b && b <= 'Z' {
        b as u32 + 32
    } else {
        b as u32
    };
    x == y
}

/// `c` with an ASCII upper-case letter lowered; every other character is
/// kept.
pub fn ascii_lower_char(c: char) -> (lowered: char)
    ensures
        lowered as int == ascii_lower_code(c),
{
    if 'A' <= c && c <= 'Z' {
        let code: u8 = (c as u32 + 32) as u8;
        code as char
    } else {
        c
    }
}

/// `value` with every ASCII upper-case letter lowered, as
/// `str::to_ascii_lowercase` does.
pub fn ascii_lowercase(value: &str) -> (lowered: String)
    ensures
        lowered@ == value@.map_values(|c: char| ascii_lower_code(c) as char),
{
    let n = value.unicode_len();
    let mut out = String::new();
    let mut i: usize = 0;
    while i < n
        invariant
            n == value@.len(),
            i <= n,
            out@ == value@.take(i as int).map_values(|c: char| ascii_lower_code(c) as char),
        decreases n - i,
    {
        let c = ascii_lower_char(value.get_char(i));
        let ghost before = out@;
        push_char(&mut out, c);
        assert(value@.take(i + 1).map_values(|c: char| ascii_lower_code(c) as char) =~= before.push(
            c,
        ));
        i = i + 1;
    }
    assert(value@.take(n as int) =~= value@);
    out
}

/// Reads `value` as a non-empty decimal number not above `limit`.
///
/// Returns `None` for an empty value, a non-digit, or a value above `limit`.
pub fn parse_bounded_decimal(value: &str, limit: u32) -> (parsed: Option<u32>)
    ensures
        parsed is Some <==> bounded_decimal(value@, limit as nat),
        parsed matches Some(v) ==> v == decimal_value(value@),
{
    let n = value.unicode_len();
    let mut acc: u64 = 0;
    let mut i: usize = 0;
    assert(value@.take(0) =~= Seq::<char>::empty());
    while i < n
        invariant
            n == value@.len(),
            i <= n,
            acc == decimal_value(value@.take(i as int)),
            acc <= limit,
            all_digits(value@.take(i as int)),
        decreases n - i,
    {
        let c = value.get_char(i);
        if !is_digit_char(c) {
            assert(!all_digits(value@)) by {
                assert(value@[i as int] == c);
            }
            return None;
        }
        proof {
            assert(value@.take(i + 1).drop_last() =~= value@.take(i as int));
            assert(value@.take(i + 1).last() == c);
        }
        acc = acc * 10 + (c as u32 - '0' as u32) as u64;
        i = i + 1;
        assert(all_digits(value@.take(i as int))) by {
            assert forall|j: int| 0 <= j < i implies is_digit(#[trigger] value@.take(i as int)[j]) by {
                if j < i - 1 {
                    assert(value@.take(i as int)[j] == value@.take(i - 1)[j]);
                }
            }
        }
        if acc > limit as u64 {
            proof {
                lemma_decimal_value_monotone(value@, i as int);
            }
            return None;
        }
    }
    assert(value@.take(n as int) =~= value@);
    if n == 0 {
        None
    } else {
        Some(acc as u32)
    }
}

/// Reads `value` as a hexadecimal number of one to `max_digits` digits.
pub fn parse_hex_group(value: &str, max_digits: usize) -> (parsed: Option<u16>)
    requires
        max_digits <= 4,
    ensures
        parsed is Some <==> (0 < value@.len() <= max_digits && all_hex_digits(value@)),
        parsed matches Some(v) ==> v == hex_value(value@),
{
    let n = value.unicode_len();
    if n == 0 || n > max_digits {
        return None;
    }
    let mut acc: u32 = 0;
    let mut i: usize = 0;
    assert(value@.take(0) =~= Seq::<char>::empty());
    while i < n
        invariant
            n == value@.len(),
            n <= 4,
            i <= n,
            acc == hex_value(value@.take(i as int)),
            acc < pow16(i as nat),
            all_hex_digits(value@.take(i as int)),
        decreases n - i,
    {
        let c = value.get_char(i);
        if !is_hex_digit_char(c) {
            assert(!all_hex_digits(value@)) by {
                assert(value@[i as int] == c);
            }
            return None;
        }
        proof {
            assert(value@.take(i + 1).drop_last() =~= value@.take(i as int));
            assert(value@.take(i + 1).last() == c);
        }
        let d: u32 = if '0' <= c && c <= '9' {
            c as u32 - '0' as u32
        } else if 'a' <= c && c <= 'f' {
            c as u32 - 'a' as u32 + 10
        } else {
            c as u32 - 'A' as u32 + 10
        };
        proof {
            assert(pow16((i + 1) as nat) == 16 * pow16(i as nat));
            assert(pow16(3) == 4096) by { reveal_with_fuel(pow16, 4); }
            if i < 3 {
                lemma_pow16_monotone(i as nat, 3);
            }
        }
        acc = acc * 16 + d;
        i = i + 1;
        assert(all_hex_digits(value@.take(i as int))) by {
            assert forall|j: int| 0 <= j < i implies is_hex_digit(
                #[trigger] value@.take(i as int)[j],
            ) by {
                if j < i - 1 {
                    assert(value@.take(i as int)[j] == value@.take(i - 1)[j]);
                }
            }
        }
    }
    assert(value@.take(n as int) =~= value@);
    proof {
        assert(pow16(4) == 65536) by { reveal_with_fuel(pow16, 5); }
        if n < 4 {
            lemma_pow16_monotone(n as nat, 4);
        }
    }
    Some(acc as u16)
}

proof fn lemma_pow16_monotone(a: nat, b: nat)
    requires
        a <= b,
    ensures
        pow16(a) <= pow16(b),
    decreases b - a,
{
    if a < b {
        lemma_pow16_monotone(a, (b - 1) as nat);
    }
}

/// `16^n`.
pub open spec fn pow16(n: nat) -> nat
    decreases n,
{
    if n == 0 {
        1
    } else {
        16 * pow16((n - 1) as nat)
    }
}

} // verus!
