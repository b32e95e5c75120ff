use vstd::prelude::*;
use vstd::string::StringExecFns;

verus! {

/// Mathematical image of a [`StoreError`]: string payloads become character
/// sequences so that contracts can state exactly which error is returned.
#[verifier::ext_equal]
pub enum StoreErrorV {
    /// A lookup by experiment id or name matched nothing.
    ExperimentNotFound,
    /// A snapshot lookup matched nothing.
    SnapshotNotFound,
    /// `SnapshotType::name` was asked of a variant that carries no name.
    NameNotSupported,
    /// A timestamp could not be read as RFC 3339.
    TimeNotParsable,
    /// The content hasher could not hash the repository or directory.
    HashUnavailable,
    /// The user's home directory could not be determined.
    HomeUnavailable,
    /// A JSON document was malformed; `text` is the offending input and
    /// `at` how many of its characters were left unread.
    JsonSyntax { at: int, text: Seq<char> },
    /// A JSON document was well-formed but does not encode a store.
    NotAStore,
    /// A field-match payload was not a JSON object; `given` is the payload.
    FieldsNotAnObject { given: Seq<char> },
    /// A filter expression could not be parsed; `expr` is the expression.
    FilterSyntax { expr: Seq<char> },
    /// A filter expression failed while being evaluated; `expr` names it.
    FilterEval { expr: Seq<char> },
    /// The typed resolver was handed a query kind only the generic
    /// resolver supports.
    GenericOnly,
}

/// Everything that can go wrong in the store, its resolvers and its codec.
#[derive(Debug, PartialEq, Eq)]
pub enum StoreError {
    ExperimentNotFound,
    SnapshotNotFound,
    NameNotSupported,
    TimeNotParsable,
    HashUnavailable,
    HomeUnavailable,
    JsonSyntax { at: usize, text: String },
    NotAStore,
    FieldsNotAnObject { given: String },
    FilterSyntax { expr: String },
    FilterEval { expr: String },
    GenericOnly,
}

impl View for StoreError {
    type V = StoreErrorV;

    open spec fn view(&self) -> StoreErrorV {
        match self {
            StoreError::ExperimentNotFound => StoreErrorV::ExperimentNotFound,
            StoreError::SnapshotNotFound => StoreErrorV::SnapshotNotFound,
            StoreError::NameNotSupported => StoreErrorV::NameNotSupported,
            StoreError::TimeNotParsable => StoreErrorV::TimeNotParsable,
            StoreError::HashUnavailable => StoreErrorV::HashUnavailable,
            StoreError::HomeUnavailable => StoreErrorV::HomeUnavailable,
            StoreError::JsonSyntax { at, text } => StoreErrorV::JsonSyntax {
                at: *at as int,
                text: text@,
            },
            StoreError::NotAStore => StoreErrorV::NotAStore,
            StoreError::FieldsNotAnObject { given } => StoreErrorV::FieldsNotAnObject { given: given@ },
            StoreError::FilterSyntax { expr } => StoreErrorV::FilterSyntax { expr: expr@ },
            StoreError::FilterEval { expr } => StoreErrorV::FilterEval { expr: expr@ },
            StoreError::GenericOnly => StoreErrorV::GenericOnly,
        }
    }
}

impl StoreError {
    /// A short human-readable account of the failure.
    pub fn describe(&self) -> String {
        match self {
            StoreError::ExperimentNotFound => String::from_str("no experiment with that id or name"),
            StoreError::SnapshotNotFound => String::from_str("no snapshot with that hash or time"),
            StoreError::NameNotSupported => String::from_str("this snapshot kind carries no name"),
            StoreError::TimeNotParsable => String::from_str("timestamp is not valid RFC 3339"),
            StoreError::HashUnavailable => String::from_str("could not hash the repository or directory"),
            StoreError::HomeUnavailable => String::from_str("could not determine the home directory"),
            StoreError::JsonSyntax { at: _, text } => {
                String::from_str("malformed JSON document: ").concat(text.as_str())
            },
            StoreError::NotAStore => String::from_str("JSON document does not encode a store"),
            StoreError::FieldsNotAnObject { given } => {
                String::from_str("field-match payload is not a JSON object: ").concat(given.as_str())
            },
            StoreError::FilterSyntax { expr } => {
                String::from_str("malformed filter expression: ").concat(expr.as_str())
            },
            StoreError::FilterEval { expr } => {
                String::from_str("filter expression failed to evaluate: ").concat(expr.as_str())
            },
            StoreError::GenericOnly => String::from_str(
                "this query kind is answered only by the generic resolver",
            ),
        }
    }
}

} // verus!
