//! Errors of the store and of reconciliation.
use vstd::prelude::*;

verus! {

/// What went wrong, by category.
#[derive(Clone, Copy, Debug, PartialEq, Eq, Structural)]
pub enum ErrorKind {
    /// A referenced id is absent.
    NotFound,
    /// An id resolved to an entity of the other kind.
    KindMismatch,
    /// The index references a slot that holds nothing.
    Corruption,
    /// Reading or writing a file failed.
    IoFailure,
    /// A manifest could not be parsed.
    ParseFailure,
    /// Any other refusal, described by the message.
    Invalid,
}

/// An error: its category and a human-readable message.
#[derive(Debug)]
pub struct Error {
    pub kind: ErrorKind,
    pub message: String,
}

impl Error {
    /// An error of the given kind.
    pub fn new(kind: ErrorKind, message: &str) -> (r: Error)
        ensures
            r.kind == kind,
            r.message@ == message@,
    {
        Error { kind, message: message.to_owned() }
    }

    /// A general error that carries only a message.
    pub fn from_str(value: &str) -> (r: Error)
        ensures
            r.kind == ErrorKind::Invalid,
            r.message@ == value@,
    {
        Error::new(ErrorKind::Invalid, value)
    }

    /// A boxed general error.
    pub fn new_boxed(value: &str) -> (r: Box<Error>)
        ensures
            r.kind == ErrorKind::Invalid,
            r.message@ == value@,
    {
        Box::new(Error::from_str(value))
    }

    /// A failed result that carries a general error.
    pub fn new_res<T>(value: &str) -> (r: Result<T, Error>)
        ensures
            r matches Err(e) && e.kind == ErrorKind::Invalid && e.message@ == value@,
    {
        Err(Error::from_str(value))
    }

    /// The message, as text.
    pub fn to_text(&self) -> (r: String)
        ensures
            r@ == self.message@,
    {
        self.message.clone()
    }
}

} // verus!
