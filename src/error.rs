//! Errors raised while building a speech request.
use vstd::prelude::*;
use vstd::string::*;

verus! {

/// A field of a speech request was given a value that its rule rejects.
#[derive(Debug, Clone)]
pub enum ValidationError {
    /// The pitch value, as given, is not in the pitch grammar.
    InvalidPitch(String),
    /// The rate value, as given, is not in the rate grammar.
    InvalidRate(String),
    /// The style degree lies outside `[0.01, 2]`.
    StyleDegreeOutOfRange,
    /// The named field was given a value of the wrong kind.
    WrongType(String),
}

/// What an error holds, as plain values.
pub ghost enum ErrorView {
    InvalidPitch(Seq<char>),
    InvalidRate(Seq<char>),
    StyleDegreeOutOfRange,
    WrongType(Seq<char>),
}

impl View for ValidationError {
    type V = ErrorView;

    open spec fn view(&self) -> ErrorView {
        match self {
            ValidationError::InvalidPitch(s) => ErrorView::InvalidPitch(s@),
            ValidationError::InvalidRate(s) => ErrorView::InvalidRate(s@),
            ValidationError::StyleDegreeOutOfRange => ErrorView::StyleDegreeOutOfRange,
            ValidationError::WrongType(f) => ErrorView::WrongType(f@),
        }
    }
}

/// The name of the field that an error is about.
pub open spec fn error_field(e: ValidationError) -> Seq<char> {
    match e {
        ValidationError::InvalidPitch(_) => "pitch"@,
        ValidationError::InvalidRate(_) => "rate"@,
        ValidationError::StyleDegreeOutOfRange => "style_degree"@,
        ValidationError::WrongType(f) => f@,
    }
}

/// The human-readable text of an error.
pub open spec fn error_message(e: ValidationError) -> Seq<char> {
    match e {
        ValidationError::InvalidPitch(s) => "Invalid pitch `"@ + s@
            + "`: expected e.g. -20%, 0.2, +3st, +10Hz, default, medium, high"@,
        ValidationError::InvalidRate(s) => "Invalid rate `"@ + s@
            + "`: expected e.g. -20%, 0.2, 1.5f, default, slow, fast"@,
        ValidationError::StyleDegreeOutOfRange => "Style degree out of range [0.01, 2]"@,
        ValidationError::WrongType(f) => "Wrong type of value for "@ + f@,
    }
}

impl ValidationError {
    /// The name of the offending field.
    pub fn field(&self) -> (r: String)
        ensures
            r@ == error_field(*self),
    {
        match self {
            ValidationError::InvalidPitch(_) => String::from_str("pitch"),
            ValidationError::InvalidRate(_) => String::from_str("rate"),
            ValidationError::StyleDegreeOutOfRange => String::from_str("style_degree"),
            ValidationError::WrongType(f) => f.clone(),
        }
    }

    /// The error as text.
    pub fn message(&self) -> (r: String)
        ensures
            r@ == error_message(*self),
    {
        match self {
            ValidationError::InvalidPitch(s) => {
                let mut r = String::from_str("Invalid pitch `");
                r.append(s.as_str());
                r.append("`: expected e.g. -20%, 0.2, +3st, +10Hz, default, medium, high");
                r
            },
            ValidationError::InvalidRate(s) => {
                let mut r = String::from_str("Invalid rate `");
                r.append(s.as_str());
                r.append("`: expected e.g. -20%, 0.2, 1.5f, default, slow, fast");
                r
            },
            ValidationError::StyleDegreeOutOfRange => String::from_str(
                "Style degree out of range [0.01, 2]",
            ),
            ValidationError::WrongType(f) => {
                let mut r = String::from_str("Wrong type of value for ");
                r.append(f.as_str());
                r
            },
        }
    }
}

} // verus!
