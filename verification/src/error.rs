use vstd::prelude::*;

verus! {

/// Mathematical model of a failure while decoding one field of an element:
/// a required child missing, a child without extractable text, or text that
/// does not parse as the field's type.
pub enum SpecFieldError {
    /// The named child element exists but carries no text.
    EmptyTag(Seq<char>),
    /// A required child element with the given name is absent.
    MissingTag(Seq<char>),
    /// A usage qualifier text outside the closed set of recognized tokens.
    UnknownUsageVariant(Seq<char>),
    /// Text that does not parse as a numeric literal, or whose value does
    /// not fit the value type.
    InvalidNumber(Seq<char>),
    /// Text that is neither of the literal boolean tokens.
    InvalidBool(Seq<char>),
}

/// Mathematical model of a decode failure of a whole element: either a
/// malformed field of the element itself, or a failure propagated from the
/// i-th enumerated-value child (0-based, counted among enumerated-value
/// children only).
pub enum SpecSvdError {
    Field(SpecFieldError),
    InEnumeratedValue(nat, SpecFieldError),
}

/// A failure while decoding one field of an element.
#[derive(Clone, Debug)]
pub enum FieldError {
    EmptyTag(String),
    MissingTag(String),
    UnknownUsageVariant(String),
    InvalidNumber(String),
    InvalidBool(String),
}

impl View for FieldError {
    type V = SpecFieldError;

    open spec fn view(&self) -> SpecFieldError {
        match self {
            FieldError::EmptyTag(s) => SpecFieldError::EmptyTag(s@),
            FieldError::MissingTag(s) => SpecFieldError::MissingTag(s@),
            FieldError::UnknownUsageVariant(s) => SpecFieldError::UnknownUsageVariant(s@),
            FieldError::InvalidNumber(s) => SpecFieldError::InvalidNumber(s@),
            FieldError::InvalidBool(s) => SpecFieldError::InvalidBool(s@),
        }
    }
}

/// A decode failure of a whole element.
#[derive(Clone, Debug)]
pub enum SvdError {
    /// A malformed field of the element itself.
    Field(FieldError),
    /// A failure while decoding the i-th enumerated-value child, counted
    /// 0-based among the children named "enumeratedValue" only.
    InEnumeratedValue(usize, FieldError),
}

impl View for SvdError {
    type V = SpecSvdError;

    open spec fn view(&self) -> SpecSvdError {
        match self {
            SvdError::Field(f) => SpecSvdError::Field(f@),
            SvdError::InEnumeratedValue(i, f) => SpecSvdError::InEnumeratedValue(*i as nat, f@),
        }
    }
}

} // verus!
