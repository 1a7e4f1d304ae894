//! Composition errors and hints, with deterministic message text.
//!
//! Every stage of the pipeline reports its failures as [`CompositionError`]
//! values; nothing is silently dropped. A [`Hint`] is an advisory diagnostic
//! for a non-fatal composition decision.

use vstd::prelude::*;
use vstd::string::StringExecFns;

verus! {

/// An error found during composition. Each variant carries a human-readable
/// message; subgraph-stage failures are wrapped into the same list type as
/// merge-stage failures, so a caller always sees one kind of error list.
#[derive(Debug)]
pub enum CompositionError {
    /// An engine-internal or cross-subgraph consistency failure.
    InternalError { message: String },
    /// A type declaration that cannot be merged or is structurally invalid.
    TypeDefinitionInvalid { message: String },
    /// An `@link` import that does not name a federation directive.
    InvalidLinkDirective { message: String },
    /// A `@key`, `@requires` or `@provides` selection that is not valid.
    InvalidFieldSet { message: String },
    /// A composed field with no resolution path through the subgraphs.
    SatisfiabilityError { message: String },
}

/// Mathematical view of a [`CompositionError`].
pub ghost enum CompositionErrorView {
    InternalError { message: Seq<char> },
    TypeDefinitionInvalid { message: Seq<char> },
    InvalidLinkDirective { message: Seq<char> },
    InvalidFieldSet { message: Seq<char> },
    SatisfiabilityError { message: Seq<char> },
}

impl View for CompositionError {
    type V = CompositionErrorView;

    open spec fn view(&self) -> CompositionErrorView {
        match self {
            CompositionError::InternalError { message } => CompositionErrorView::InternalError {
                message: message@,
            },
            CompositionError::TypeDefinitionInvalid {
                message,
            } => CompositionErrorView::TypeDefinitionInvalid { message: message@ },
            CompositionError::InvalidLinkDirective {
                message,
            } => CompositionErrorView::InvalidLinkDirective { message: message@ },
            CompositionError::InvalidFieldSet { message } => CompositionErrorView::InvalidFieldSet {
                message: message@,
            },
            CompositionError::SatisfiabilityError {
                message,
            } => CompositionErrorView::SatisfiabilityError { message: message@ },
        }
    }
}

impl CompositionErrorView {
    /// The message carried by the error, whatever its variant.
    pub open spec fn message(self) -> Seq<char> {
        match self {
            CompositionErrorView::InternalError { message } => message,
            CompositionErrorView::TypeDefinitionInvalid { message } => message,
            CompositionErrorView::InvalidLinkDirective { message } => message,
            CompositionErrorView::InvalidFieldSet { message } => message,
            CompositionErrorView::SatisfiabilityError { message } => message,
        }
    }
}

impl CompositionError {
    /// The human-readable message of this error.
    pub fn message(&self) -> (r: &String)
        ensures
            r@ == self@.message(),
    {
        match self {
            CompositionError::InternalError { message } => message,
            CompositionError::TypeDefinitionInvalid { message } => message,
            CompositionError::InvalidLinkDirective { message } => message,
            CompositionError::InvalidFieldSet { message } => message,
            CompositionError::SatisfiabilityError { message } => message,
        }
    }

    /// The message as an owned string, for reporting.
    pub fn to_display_string(&self) -> (r: String)
        ensures
            r@ == self@.message(),
    {
        self.message().clone()
    }
}

/// An advisory diagnostic describing a non-fatal composition decision.
#[derive(Debug)]
pub struct Hint {
    pub message: String,
}

impl View for Hint {
    type V = Seq<char>;

    open spec fn view(&self) -> Seq<char> {
        self.message@
    }
}

impl Hint {
    /// The text of the hint.
    pub fn message(&self) -> (r: &String)
        ensures
            r@ == self@,
    {
        &self.message
    }
}

/// Message reported when composition is attempted on no subgraphs at all.
pub open spec fn empty_subgraphs_message() -> Seq<char> {
    "Cannot compose with empty subgraphs list"@
}

/// Builds the message of [`empty_subgraphs_message`].
pub fn make_empty_subgraphs_message() -> (r: String)
    ensures
        r@ == empty_subgraphs_message(),
{
    String::from_str("Cannot compose with empty subgraphs list")
}

/// Message reported when two subgraphs share the name `n`.
pub open spec fn duplicate_name_message(n: Seq<char>) -> Seq<char> {
    "Duplicate subgraph name: "@ + n
}

/// Builds the message of [`duplicate_name_message`].
pub fn make_duplicate_name_message(n: &String) -> (r: String)
    ensures
        r@ == duplicate_name_message(n@),
{
    String::from_str("Duplicate subgraph name: ").concat(n.as_str())
}

/// Message reported for an `@link` import that is not a federation directive.
pub open spec fn invalid_link_import_message(import: Seq<char>) -> Seq<char> {
    "Invalid @link import: "@ + import
}

/// Builds the message of [`invalid_link_import_message`].
pub fn make_invalid_link_import_message(import: &String) -> (r: String)
    ensures
        r@ == invalid_link_import_message(import@),
{
    String::from_str("Invalid @link import: ").concat(import.as_str())
}

} // verus!
