//! Strict building blocks for HTTP field maps.
//!
//! These helpers implement the field-line handling used by the higher-level
//! extractors. They do not combine repeated lines unless the field-specific
//! extractor owns that grammar (RFC 9110, Section 5).

use vstd::prelude::*;

use http::HeaderMap;

use crate::error::{Error, ErrorView};
use crate::outside::{
    append_field_value, ascii_str, field_name_count, field_values, header_fields, is_field_name,
    is_field_value_byte, lines_of, normalize_field_name, normalized_field_name,
};

verus! {

/// A validated field name in the normalized form that `http` stores: one to
/// 65535 token characters, without ASCII upper case.
#[derive(Debug, PartialEq, Eq, Hash)]
pub struct FieldName {
    text: String,
}

impl View for FieldName {
    type V = Seq<char>;

    closed spec fn view(&self) -> Seq<char> {
        self.text@
    }
}

impl Clone for FieldName {
    fn clone(&self) -> (copy: Self)
        ensures
            copy@ == self@,
    {
        proof {
            use_type_invariant(self);
        }
        FieldName { text: self.text.clone() }
    }
}

impl FieldName {
    #[verifier::type_invariant]
    spec fn is_valid(self) -> bool {
        is_field_name(self.text@)
    }

    /// A name that is already in normalized form, such as a literal.
    pub fn from_static(name: &'static str) -> (field: FieldName)
        requires
            is_field_name(name@),
        ensures
            field@ == name@,
    {
        FieldName { text: String::from_str(name) }
    }

    /// Validates and normalizes `source` as `http::HeaderName::from_bytes`
    /// does: ASCII upper case is lowered, and anything but one to 65535 token
    /// characters is refused.
    pub fn parse(source: &str) -> (field: Option<FieldName>)
        ensures
            field is Some <==> normalized_field_name(source@) is Some,
            field matches Some(f) ==> f@ == normalized_field_name(source@)->0,
    {
        match normalize_field_name(source) {
            Some(text) => {
                assert(is_field_name(text@));
                Some(FieldName { text })
            },
            None => None,
        }
    }

    /// The name as text.
    pub fn as_str(&self) -> (text: &str)
        ensures
            text@ == self@,
            is_field_name(text@),
    {
        proof {
            use_type_invariant(self);
        }
        self.text.as_str()
    }
}

/// A byte that `HeaderValue::to_str` accepts: visible ASCII or tab.
pub open spec fn is_visible_ascii(b: u8) -> bool {
    (b >= 32 && b < 127) || b == 9
}

/// Every byte of `bytes` is visible ASCII or tab.
pub open spec fn all_visible_ascii(bytes: Seq<u8>) -> bool {
    forall|i: int| 0 <= i < bytes.len() ==> is_visible_ascii(#[trigger] bytes[i])
}

/// The text of visible-ASCII bytes.
pub open spec fn ascii_text(bytes: Seq<u8>) -> Seq<char> {
    bytes.map_values(|b: u8| b as char)
}

/// A field with at most one line: absent, or its single raw value.
pub open spec fn single_field_value(
    fields: Map<Seq<char>, Seq<Seq<u8>>>,
    name: Seq<char>,
) -> Result<Option<Seq<u8>>, ErrorView> {
    let lines = lines_of(fields, name);
    if lines.len() > 1 {
        Err(ErrorView::DuplicateHeader(name))
    } else if lines.len() == 0 {
        Ok(None)
    } else {
        Ok(Some(lines[0]))
    }
}

/// A field with at most one line, as text: absent, its text, a duplicate
/// error, or an invalid-field error when the value is not visible ASCII.
pub open spec fn single_field_text(
    fields: Map<Seq<char>, Seq<Seq<u8>>>,
    name: Seq<char>,
) -> Result<Option<Seq<char>>, ErrorView> {
    match single_field_value(fields, name) {
        Err(e) => Err(e),
        Ok(None) => Ok(None),
        Ok(Some(bytes)) => if all_visible_ascii(bytes) {
            Ok(Some(ascii_text(bytes)))
        } else {
            Err(ErrorView::InvalidHeader(name))
        },
    }
}

/// The text of `preferred`, or of `fallback` when `preferred` is absent; an
/// error of the selected field is returned as is.
pub open spec fn preferred_field_text(
    fields: Map<Seq<char>, Seq<Seq<u8>>>,
    preferred: Seq<char>,
    fallback: Seq<char>,
) -> Result<Option<Seq<char>>, ErrorView> {
    match single_field_text(fields, preferred) {
        Ok(None) => single_field_text(fields, fallback),
        selected => selected,
    }
}

/// An error of a singular field names that field and its category only: it
/// is an invalid-field or a duplicate-field error for `name`, and no field
/// value is part of it.
pub proof fn law_field_errors_name_only_the_field(
    fields: Map<Seq<char>, Seq<Seq<u8>>>,
    name: Seq<char>,
)
    ensures
        single_field_text(fields, name) matches Err(e) ==> e == ErrorView::InvalidHeader(name)
            || e == ErrorView::DuplicateHeader(name),
{
}

/// The preferred field decides whenever it is present: its text, even when
/// empty, or its error is the result, whatever the fallback holds; the
/// fallback is read only when the preferred field is absent.
pub proof fn law_preferred_field_decides(
    fields: Map<Seq<char>, Seq<Seq<u8>>>,
    preferred: Seq<char>,
    fallback: Seq<char>,
)
    ensures
        lines_of(fields, preferred).len() > 0 ==> preferred_field_text(fields, preferred, fallback)
            == single_field_text(fields, preferred),
        lines_of(fields, preferred).len() == 0 ==> preferred_field_text(fields, preferred, fallback)
            == single_field_text(fields, fallback),
{
}

/// What one append writes, a singular read gives back: after appending `v`
/// under `name`, the single value is `v` when `name` had no value before, and
/// the field is a duplicate when it had one.
pub proof fn law_append_then_read(fields: Map<Seq<char>, Seq<Seq<u8>>>, name: Seq<char>, v: Seq<u8>)
    ensures
        ({
            let after = fields.insert(name, lines_of(fields, name).push(v));
            single_field_value(after, name) == if lines_of(fields, name).len() == 0 {
                Ok::<Option<Seq<u8>>, ErrorView>(Some(v))
            } else {
                Err(ErrorView::DuplicateHeader(name))
            }
        }),
{
    let after = fields.insert(name, lines_of(fields, name).push(v));
    assert(lines_of(after, name) == lines_of(fields, name).push(v));
}

/// Appending under one name leaves every other name's values unchanged.
pub proof fn law_append_keeps_other_fields(
    fields: Map<Seq<char>, Seq<Seq<u8>>>,
    name: Seq<char>,
    v: Seq<u8>,
    other: Seq<char>,
)
    requires
        other != name,
    ensures
        lines_of(fields.insert(name, lines_of(fields, name).push(v)), other) == lines_of(
            fields,
            other,
        ),
{
}

/// The view of an optional raw value or an error.
pub open spec fn value_result_view(r: Result<Option<&[u8]>, Error>) -> Result<
    Option<Seq<u8>>,
    ErrorView,
> {
    match r {
        Ok(Some(v)) => Ok(Some(v@)),
        Ok(None) => Ok(None),
        Err(e) => Err(e@),
    }
}

/// The view of optional text or an error.
pub open spec fn text_result_view(r: Result<Option<&str>, Error>) -> Result<
    Option<Seq<char>>,
    ErrorView,
> {
    match r {
        Ok(Some(t)) => Ok(Some(t@)),
        Ok(None) => Ok(None),
        Err(e) => Err(e@),
    }
}

/// Append one field value without replacing existing values.
///
/// Existing values for `name` remain and `value` is added after them. The
/// result is `true` when the map already held at least one value for `name`.
/// The value must consist of bytes that a field value may hold; the helper
/// does not inspect or log it otherwise.
pub fn append_header_value(headers: &mut HeaderMap, name: &FieldName, value: &[u8]) -> (existed:
    bool)
    requires
        forall|i: int| 0 <= i < value@.len() ==> is_field_value_byte(#[trigger] value@[i]),
        header_fields(*old(headers)).dom().len() < 6554,
    ensures
        existed == (lines_of(header_fields(*old(headers)), name@).len() > 0),
        header_fields(*final(headers)) == header_fields(*old(headers)).insert(
            name@,
            lines_of(header_fields(*old(headers)), name@).push(value@),
        ),
{
    append_field_value(headers, name.as_str(), value)
}

/// Append like [`append_header_value`] when `value` holds only bytes that a
/// field value may hold and the map has fewer than 6554 distinct names, the
/// bound under which the map's table is sure to have room; otherwise the map
/// is left unchanged and the result is `None`.
pub fn try_append_header_value(headers: &mut HeaderMap, name: &FieldName, value: &[u8]) -> (existed:
    Option<bool>)
    ensures
        existed matches Some(e) ==> {
            &&& e == (lines_of(header_fields(*old(headers)), name@).len() > 0)
            &&& header_fields(*final(headers)) == header_fields(*old(headers)).insert(
                name@,
                lines_of(header_fields(*old(headers)), name@).push(value@),
            )
        },
        existed is None ==> header_fields(*final(headers)) == header_fields(*old(headers)),
        existed is None <==> (header_fields(*old(headers)).dom().len() >= 6554 || exists|i: int|
            0 <= i < value@.len() && !is_field_value_byte(#[trigger] value@[i])),
{
    let n = value.len();
    let mut i: usize = 0;
    while i < n
        invariant
            n == value@.len(),
            i <= n,
            forall|j: int| 0 <= j < i ==> is_field_value_byte(#[trigger] value@[j]),
        decreases n - i,
    {
        let b = value[i];
        if !((b >= 32 && b != 127) || b == 9) {
            assert(!is_field_value_byte(value@[i as int]));
            return None;
        }
        i = i + 1;
    }
    if field_name_count(headers) >= 6554 {
        return None;
    }
    Some(append_header_value(headers, name, value))
}

/// Extract a field value only when the field has at most one field line.
///
/// A missing field returns `None`, more than one line returns
/// [`Error::DuplicateHeader`], and otherwise the raw value bytes come back
/// undecoded and unvalidated.
pub fn extract_single_header_value<'a>(headers: &'a HeaderMap, name: &FieldName) -> (value:
    Result<Option<&'a [u8]>, Error>)
    ensures
        value_result_view(value) == single_field_value(header_fields(*headers), name@),
{
    let values = field_values(headers, name.as_str());
    if values.len() > 1 {
        return Err(Error::duplicate_header(name.clone()));
    }
    if values.len() == 0 {
        Ok(None)
    } else {
        Ok(Some(values[0]))
    }
}

/// Extract a singular field as text without discarding invalid bytes.
///
/// A missing field returns `None`, duplicate lines return
/// [`Error::DuplicateHeader`], and a value with a byte that is not visible
/// ASCII or tab returns [`Error::InvalidHeader`]. Empty text is kept as
/// `Some("")`; no other validation is performed.
pub fn extract_single_header_text<'a>(headers: &'a HeaderMap, name: &FieldName) -> (text: Result<
    Option<&'a str>,
    Error,
>)
    ensures
        text_result_view(text) == single_field_text(header_fields(*headers), name@),
{
    let value = match extract_single_header_value(headers, name) {
        Ok(Some(v)) => v,
        Ok(None) => return Ok(None),
        Err(e) => return Err(e),
    };
    match field_line_text(value) {
        Some(t) => Ok(Some(t)),
        None => Err(Error::invalid_header(name.clone())),
    }
}

/// A field line as text: present when every byte is visible ASCII or tab, as
/// `HeaderValue::to_str` requires.
pub fn field_line_text<'a>(line: &'a [u8]) -> (text: Option<&'a str>)
    ensures
        text is Some <==> all_visible_ascii(line@),
        text matches Some(t) ==> t@ == ascii_text(line@),
{
    let n = line.len();
    let mut i: usize = 0;
    while i < n
        invariant
            n == line@.len(),
            i <= n,
            forall|j: int| 0 <= j < i ==> is_visible_ascii(#[trigger] line@[j]),
        decreases n - i,
    {
        let b = line[i];
        if !((b >= 32 && b < 127) || b == 9) {
            assert(!is_visible_ascii(line@[i as int]));
            return None;
        }
        i = i + 1;
    }
    match ascii_str(line) {
        Some(t) => {
            assert(t@ =~= ascii_text(line@));
            Some(t)
        },
        None => {
            assert(false);
            None
        },
    }
}

} // verus!
