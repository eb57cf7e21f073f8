//! The failures of parsing, lookup and mapping configuration.
use vstd::prelude::*;

use crate::text::{chars_of, message};

verus! {

/// The content of an error, as sequences of characters.
pub enum ErrorView {
    InvalidFormat(Seq<char>),
    MappingNotFound(Seq<char>, Seq<char>),
    InvalidMapping(Seq<char>),
    ConfigSource(Seq<char>),
}

/// Why a reference could not be resolved or a mapping not be registered.
#[derive(Debug, Clone)]
pub enum UncPathError {
    /// The reference matches none of the notations, or is malformed within one;
    /// carries a message that names the notation and the reference.
    InvalidFormat(String),
    /// No entry of the table has the host and share; carries both.
    MappingNotFound(String, String),
    /// A `host:share:mount_point` text does not have exactly three parts;
    /// carries a message that holds the text.
    InvalidMapping(String),
    /// A mapping source could not be read or decoded; carries the cause.
    ConfigSource(String),
}

impl View for UncPathError {
    type V = ErrorView;

    open spec fn view(&self) -> ErrorView {
        match self {
            UncPathError::InvalidFormat(m) => ErrorView::InvalidFormat(m@),
            UncPathError::MappingNotFound(h, s) => ErrorView::MappingNotFound(h@, s@),
            UncPathError::InvalidMapping(m) => ErrorView::InvalidMapping(m@),
            UncPathError::ConfigSource(m) => ErrorView::ConfigSource(m@),
        }
    }
}

impl UncPathError {
    /// The human-readable description of the error.
    pub fn message(&self) -> (r: String)
        ensures
            self is InvalidFormat ==> r@ == self->InvalidFormat_0@,
            self is InvalidMapping ==> r@ == self->InvalidMapping_0@,
            self is ConfigSource ==> r@ == self->ConfigSource_0@,
            self is MappingNotFound ==> r@ == "No mapping found for host/share: "@
                + self->MappingNotFound_0@ + seq!['/'] + self->MappingNotFound_1@,
    {
        match self {
            UncPathError::InvalidFormat(m) => m.clone(),
            UncPathError::MappingNotFound(h, s) => {
                let mut v = chars_of(h.as_str());
                v.push('/');
                let mut tail = chars_of(s.as_str());
                v.append(&mut tail);
                assert(v@ =~= h@ + seq!['/'] + s@);
                message("No mapping found for host/share: ", &v)
            },
            UncPathError::InvalidMapping(m) => m.clone(),
            UncPathError::ConfigSource(m) => m.clone(),
        }
    }
}

} // verus!
