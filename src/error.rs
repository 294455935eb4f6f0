//! Errors of an encode call. Every one of them ends the call.
use vstd::prelude::*;

verus! {

/// What went wrong.
#[derive(Debug, PartialEq)]
pub enum ErrorInner {
    /// A message raised by the code that describes a value.
    Message(String),
    /// The top-level value is not shaped like a set of key-value pairs; names its shape.
    NotAnObject(&'static str),
    /// A map key is not a scalar or a string; names its shape.
    KeyMustBeAString(&'static str),
    /// A map key is a non-finite float.
    FloatKeyMustBeFinite,
    /// The destination refused a write.
    Fmt,
}

/// An error of an encode call.
#[derive(Debug)]
pub struct Error {
    pub inner: ErrorInner,
}

/// The mathematical content of an [`Error`].
pub enum ErrorKind {
    Message(Seq<char>),
    NotAnObject(Seq<char>),
    KeyMustBeAString(Seq<char>),
    FloatKeyMustBeFinite,
    Fmt,
}

impl View for Error {
    type V = ErrorKind;

    open spec fn view(&self) -> ErrorKind {
        match self.inner {
            ErrorInner::Message(m) => ErrorKind::Message(m@),
            ErrorInner::NotAnObject(s) => ErrorKind::NotAnObject(s@),
            ErrorInner::KeyMustBeAString(s) => ErrorKind::KeyMustBeAString(s@),
            ErrorInner::FloatKeyMustBeFinite => ErrorKind::FloatKeyMustBeFinite,
            ErrorInner::Fmt => ErrorKind::Fmt,
        }
    }
}

/// The text of an error, as shown to a person.
pub open spec fn message_of(k: ErrorKind) -> Seq<char> {
    match k {
        ErrorKind::Message(m) => m,
        ErrorKind::NotAnObject(t) => "Top-level value must be a struct or map, but got "@ + t,
        ErrorKind::KeyMustBeAString(t) => "Map key must be a string, but got "@ + t,
        ErrorKind::FloatKeyMustBeFinite => "Map key must be finite"@,
        ErrorKind::Fmt => "Error writing to the underlying write"@,
    }
}

impl Error {
    /// An error carrying a message of the caller's own.
    pub fn custom(msg: &str) -> (r: Error)
        ensures
            r@ == ErrorKind::Message(msg@),
    {
        Error { inner: ErrorInner::Message(msg.to_owned()) }
    }

    /// The error for a destination that refused a write.
    pub fn sink_failure() -> (r: Error)
        ensures
            r@ == ErrorKind::Fmt,
    {
        Error { inner: ErrorInner::Fmt }
    }

    /// The text of the error.
    pub fn message(&self) -> (r: String)
        ensures
            r@ == message_of(self@),
    {
        match &self.inner {
            ErrorInner::Message(m) => m.clone(),
            ErrorInner::NotAnObject(t) => {
                let mut s = String::new();
                s.push_str("Top-level value must be a struct or map, but got ");
                s.push_str(t);
                s
            },
            ErrorInner::KeyMustBeAString(t) => {
                let mut s = String::new();
                s.push_str("Map key must be a string, but got ");
                s.push_str(t);
                s
            },
            ErrorInner::FloatKeyMustBeFinite => "Map key must be finite".to_owned(),
            ErrorInner::Fmt => "Error writing to the underlying write".to_owned(),
        }
    }
}

/// The error for a top-level value of the named shape.
pub fn top_level_must_be_object(got: &'static str) -> (r: Error)
    ensures
        r@ == ErrorKind::NotAnObject(got@),
{
    Error { inner: ErrorInner::NotAnObject(got) }
}

/// The error for a map key of the named shape.
pub fn key_must_be_string(got: &'static str) -> (r: Error)
    ensures
        r@ == ErrorKind::KeyMustBeAString(got@),
{
    Error { inner: ErrorInner::KeyMustBeAString(got) }
}

/// The error for a non-finite float used as a map key.
pub fn float_key_must_be_finite() -> (r: Error)
    ensures
        r@ == ErrorKind::FloatKeyMustBeFinite,
{
    Error { inner: ErrorInner::FloatKeyMustBeFinite }
}

} // verus!
