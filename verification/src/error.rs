//! Crate-wide, value-redacting extraction errors.
//!
//! Errors identify the HTTP field when possible while deliberately excluding
//! field values and parser details, so formatting an error cannot disclose a
//! credential carried by the failed field.

use vstd::prelude::*;

use crate::header::FieldName;

verus! {

/// An error produced while extracting request metadata.
///
/// Parser details, field values and credentials are absent from every
/// variant.
#[derive(Clone, Debug, PartialEq, Eq)]
#[non_exhaustive]
pub enum Error {
    /// A field is malformed or cannot be decoded; its value is omitted.
    InvalidHeader {
        /// The malformed field name.
        name: FieldName,
    },
    /// A field defined by an extractor as singular occurred more than once.
    DuplicateHeader {
        /// The duplicated field name.
        name: FieldName,
    },
    /// A configured field name is unsupported by the selected operation.
    UnsupportedHeaderName {
        /// The unsupported name, as given.
        name: String,
    },
}

/// The mathematical value of an [`Error`]: its category and the name it
/// identifies.
pub enum ErrorView {
    /// See [`Error::InvalidHeader`].
    InvalidHeader(Seq<char>),
    /// See [`Error::DuplicateHeader`].
    DuplicateHeader(Seq<char>),
    /// See [`Error::UnsupportedHeaderName`].
    UnsupportedHeaderName(Seq<char>),
}

impl View for Error {
    type V = ErrorView;

    open spec fn view(&self) -> ErrorView {
        match self {
            Error::InvalidHeader { name } => ErrorView::InvalidHeader(name@),
            Error::DuplicateHeader { name } => ErrorView::DuplicateHeader(name@),
            Error::UnsupportedHeaderName { name } => ErrorView::UnsupportedHeaderName(name@),
        }
    }
}

/// The message of an error: its category and the name, never a value.
pub open spec fn error_message(e: ErrorView) -> Seq<char> {
    match e {
        ErrorView::InvalidHeader(n) => "invalid header "@ + n,
        ErrorView::DuplicateHeader(n) => "header "@ + n + " occurs more than once"@,
        ErrorView::UnsupportedHeaderName(n) => "unsupported header "@ + n,
    }
}

impl Error {
    /// An [`Error::InvalidHeader`] for `name`.
    pub fn invalid_header(name: FieldName) -> (e: Error)
        ensures
            e@ == ErrorView::InvalidHeader(name@),
    {
        Error::InvalidHeader { name }
    }

    /// An [`Error::DuplicateHeader`] for `name`.
    pub fn duplicate_header(name: FieldName) -> (e: Error)
        ensures
            e@ == ErrorView::DuplicateHeader(name@),
    {
        Error::DuplicateHeader { name }
    }

    /// An [`Error::UnsupportedHeaderName`] for the configured `name`.
    pub fn unsupported_header_name(name: &str) -> (e: Error)
        ensures
            e@ == ErrorView::UnsupportedHeaderName(name@),
    {
        Error::UnsupportedHeaderName { name: String::from_str(name) }
    }

    /// The error's message, which names the field but never holds its value.
    pub fn to_string(&self) -> (text: String)
        ensures
            text@ == error_message(self@),
    {
        match self {
            Error::InvalidHeader { name } => {
                let mut text = String::from_str("invalid header ");
                text.append(name.as_str());
                proof {
                    reveal_strlit("invalid header ");
                }
                text
            },
            Error::DuplicateHeader { name } => {
                let mut text = String::from_str("header ");
                text.append(name.as_str());
                text.append(" occurs more than once");
                text
            },
            Error::UnsupportedHeaderName { name } => {
                let mut text = String::from_str("unsupported header ");
                text.append(name.as_str());
                text
            },
        }
    }
}

} // verus!
