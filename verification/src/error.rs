//! Errors of the conversions from foreign-language values to Rust types.

use vstd::prelude::*;

verus! {

/// Errors produced when converting foreign-language values to Rust types.
///
/// Errors nest with `in_context`, which builds a path to the problematic
/// field: `"in `User`: in `age`: expected number"`.
#[derive(Debug, PartialEq, Eq)]
pub enum Error {
    /// The value had the wrong type (e.g. got a string, expected a number).
    UnexpectedType { expected: &'static str },
    /// A required field was missing from an object.
    MissingField { field: &'static str },
    /// An enum variant name didn't match any known variant.
    UnknownVariant { variant: String },
    /// The value had the right type but an invalid content.
    InvalidValue { message: String },
    /// A numeric value was outside the range of the target type.
    OutOfRange,
    /// No variant of an untagged enum matched the input.
    NoMatchingVariant,
    /// A free-form error message.
    Custom(String),
    /// An inner error, with the name of the enclosing type or field.
    Context { context: String, source: Box<Error> },
}

/// The message of an error.
pub open spec fn message(e: Error) -> Seq<char>
    decreases e,
{
    match e {
        Error::UnexpectedType { expected } => "expected "@ + expected@,
        Error::MissingField { field } => "missing field `"@ + field@ + "`"@,
        Error::UnknownVariant { variant } => "unknown variant `"@ + variant@ + "`"@,
        Error::InvalidValue { message } => "invalid value: "@ + message@,
        Error::OutOfRange => "out of range"@,
        Error::NoMatchingVariant => "no matching variant"@,
        Error::Custom(m) => m@,
        Error::Context { context, source } => "in `"@ + context@ + "`: "@ + message(*source),
    }
}

impl Error {
    /// Wraps this error with the name of the type or field where it
    /// occurred.
    pub fn in_context(self, context: &str) -> (r: Error)
        ensures
            r == (Error::Context { context: r->context, source: Box::new(self) }),
            r->context@ == context@,
    {
        Error::Context { context: String::from_str(context), source: Box::new(self) }
    }

    /// The error's message.
    pub fn to_string(&self) -> (r: String)
        ensures
            r@ == message(*self),
        decreases self,
    {
        match self {
            Error::UnexpectedType { expected } => {
                let mut s = String::from_str("expected ");
                s.append(expected);
                s
            },
            Error::MissingField { field } => {
                let mut s = String::from_str("missing field `");
                s.append(field);
                s.append("`");
                s
            },
            Error::UnknownVariant { variant } => {
                let mut s = String::from_str("unknown variant `");
                s.append(variant.as_str());
                s.append("`");
                s
            },
            Error::InvalidValue { message } => {
                let mut s = String::from_str("invalid value: ");
                s.append(message.as_str());
                s
            },
            Error::OutOfRange => String::from_str("out of range"),
            Error::NoMatchingVariant => String::from_str("no matching variant"),
            Error::Custom(m) => m.clone(),
            Error::Context { context, source } => {
                let inner = source.to_string();
                let mut s = String::from_str("in `");
                s.append(context.as_str());
                s.append("`: ");
                s.append(inner.as_str());
                s
            },
        }
    }
}

/// The message of an error put in a context is the context's name, then
/// the message of the error inside it.
pub proof fn lemma_context_message(e: Error, context: Seq<char>, wrapped: Error)
    requires
        wrapped == (Error::Context { context: wrapped->context, source: Box::new(e) }),
        wrapped->context@ == context,
    ensures
        message(wrapped) == "in `"@ + context + "`: "@ + message(e),
{
}

} // verus!
