//! The failures of range parsing and of reconciliation.

use vstd::prelude::*;

verus! {

/// Why a range string was rejected.
#[derive(Clone, Copy, Debug, PartialEq, Eq, Structural, Hash)]
pub enum ParseError {
    /// The string has the wrong shape: an unrecognised leading character,
    /// too many or too few components, or a component that is not a number.
    InvalidFormat,
    /// A component is a number above 255.
    ComponentOverflow,
    /// The range string is empty.
    Empty,
}

impl ParseError {
    /// The name of the category, for reports.
    pub open spec fn category_name(self) -> Seq<char> {
        match self {
            ParseError::InvalidFormat => "InvalidFormat"@,
            ParseError::ComponentOverflow => "ComponentOverflow"@,
            ParseError::Empty => "Empty"@,
        }
    }

    /// The name of the category, for reports.
    pub fn category(&self) -> (name: &'static str)
        ensures
            name@ == self.category_name(),
    {
        match self {
            ParseError::InvalidFormat => "InvalidFormat",
            ParseError::ComponentOverflow => "ComponentOverflow",
            ParseError::Empty => "Empty",
        }
    }
}

/// A range string that could not be parsed, with the place where it
/// stands.
#[derive(Debug, PartialEq, Eq)]
pub struct ReconcileError {
    /// The name of the manifest that holds the range.
    pub manifest: String,
    /// The name of the dependency that the range is asked of.
    pub dependency: String,
    /// The range string as it was written.
    pub range: String,
    /// Why it was rejected.
    pub kind: ParseError,
}

/// What a [`ReconcileError`] is to the contracts.
pub ghost struct ReconcileErrorView {
    pub manifest: Seq<char>,
    pub dependency: Seq<char>,
    pub range: Seq<char>,
    pub kind: ParseError,
}

impl View for ReconcileError {
    type V = ReconcileErrorView;

    open spec fn view(&self) -> ReconcileErrorView {
        ReconcileErrorView {
            manifest: self.manifest@,
            dependency: self.dependency@,
            range: self.range@,
            kind: self.kind,
        }
    }
}

} // verus!
