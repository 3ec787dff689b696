//! The ways in which an extraction fails.

use vstd::prelude::*;

verus! {

/// Why a document does not have the shape that extraction relies on.
#[derive(Debug, Clone, Copy, PartialEq, Eq)]
pub enum DocumentFault {
    /// The markup could not be parsed at all.
    Unparsable,
    /// No `html` element stands at the top of the document.
    NoHtmlElement,
    /// The `html` element has no `body` element among its children.
    NoBodyElement,
    /// No line opens the dictionary table.
    NoStartMarker,
    /// No line closes the dictionary table.
    NoEndMarker,
    /// The line that closes the dictionary table stands before the one that
    /// opens it.
    MarkersReversed,
}

/// A fatal extraction error. Nothing is retried and no partial result is
/// handed out.
#[derive(Debug, PartialEq, Eq)]
pub enum ExtractError {
    /// The document deviates from the layout that extraction relies on.
    MalformedDocument(DocumentFault),
    /// The dictionary has no entry named `field` that lists `report`.
    UnresolvedFieldLookup { field: String, report: String },
    /// The regular-expression engine refused one of the library's patterns.
    PatternRejected,
}

/// The mathematical content of an [`ExtractError`].
pub enum Failure {
    MalformedDocument(DocumentFault),
    UnresolvedFieldLookup { field: Seq<char>, report: Seq<char> },
    PatternRejected,
}

impl View for ExtractError {
    type V = Failure;

    open spec fn view(&self) -> Failure {
        match *self {
            ExtractError::MalformedDocument(fault) => Failure::MalformedDocument(fault),
            ExtractError::UnresolvedFieldLookup { field, report } => Failure::UnresolvedFieldLookup {
                field: field@,
                report: report@,
            },
            ExtractError::PatternRejected => Failure::PatternRejected,
        }
    }
}

} // verus!
