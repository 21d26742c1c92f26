//! Terminal errors of ingestion and of snapshot decoding.

use vstd::prelude::*;

verus! {

/// A classification axis, named in vocabulary errors.
#[derive(Clone, Copy, Debug, PartialEq, Eq)]
pub enum Axis {
    Category,
    SubCategory,
    Case,
    Script,
    Direction,
}

/// Why an element could not yield a record.
#[derive(Clone, Copy, Debug, PartialEq, Eq)]
pub enum InvalidReason {
    /// The element has no non-empty `name` attribute.
    MissingName,
    /// The element has no `category` attribute.
    MissingCategory,
    /// The element's `category` attribute holds an unknown spelling.
    UnknownCategory,
    /// A non-empty description was demanded and the element has none.
    MissingDescription,
}

/// A terminal failure of ingestion or of snapshot decoding.
#[derive(Clone, Debug, PartialEq, Eq)]
pub enum IngestError {
    /// An optional classification attribute holds a spelling outside its
    /// vocabulary; this aborts the run, unlike an invalid record.
    UnknownVocabularyValue { axis: Axis, value: String },
    /// An element could not yield a record; in lenient mode the element is
    /// skipped instead.
    InvalidRecord { reason: InvalidReason },
    /// A second record with the same name inside one source buffer, refused
    /// only when strict duplicate handling is asked for.
    DuplicateName { name: String },
    /// The source buffer is not well-formed XML.
    MalformedSource,
    /// The snapshot bytes do not decode to a record sequence.
    CorruptSnapshot,
}

/// The mathematical image of an [`IngestError`].
pub enum ErrorView {
    UnknownVocabularyValue { axis: Axis, value: Seq<char> },
    InvalidRecord { reason: InvalidReason },
    DuplicateName { name: Seq<char> },
    MalformedSource,
    CorruptSnapshot,
}

impl View for IngestError {
    type V = ErrorView;

    open spec fn view(&self) -> ErrorView {
        match self {
            IngestError::UnknownVocabularyValue { axis, value } => ErrorView::UnknownVocabularyValue { axis: *axis, value: value@ },
            IngestError::InvalidRecord { reason } => ErrorView::InvalidRecord { reason: *reason },
            IngestError::DuplicateName { name } => ErrorView::DuplicateName { name: name@ },
            IngestError::MalformedSource => ErrorView::MalformedSource,
            IngestError::CorruptSnapshot => ErrorView::CorruptSnapshot,
        }
    }
}

} // verus!
