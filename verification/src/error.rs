//! The errors of the library.
use vstd::prelude::*;
use vstd::string::*;

verus! {

/// What went wrong.
#[derive(Debug, PartialEq, Eq)]
pub enum XmpError {
    /// Output could not be written, or an element inside another could not be.
    IoError(String),
    /// A property path that names no registered namespace.
    BadXPath(String),
    /// A value that an operation cannot work with.
    BadValue(String),
    /// Data that cannot be written.
    NotSupported(String),
    /// Output that is not a text.
    SerializationError(String),
}

/// The result of an operation that can fail.
pub type XmpResult<T> = Result<T, XmpError>;

/// The kinds of [`XmpError`].
#[derive(Debug, Clone, Copy, PartialEq, Eq, Structural)]
pub enum ErrorKind {
    IoError,
    BadXPath,
    BadValue,
    NotSupported,
    SerializationError,
}

/// An error as a mathematical value: its kind and the characters of its message.
pub struct Failure {
    pub kind: ErrorKind,
    pub message: Seq<char>,
}

impl View for XmpError {
    type V = Failure;

    open spec fn view(&self) -> Failure {
        match self {
            XmpError::IoError(m) => Failure { kind: ErrorKind::IoError, message: m@ },
            XmpError::BadXPath(m) => Failure { kind: ErrorKind::BadXPath, message: m@ },
            XmpError::BadValue(m) => Failure { kind: ErrorKind::BadValue, message: m@ },
            XmpError::NotSupported(m) => Failure { kind: ErrorKind::NotSupported, message: m@ },
            XmpError::SerializationError(m) => Failure {
                kind: ErrorKind::SerializationError,
                message: m@,
            },
        }
    }
}

/// What an error says before its message.
pub open spec fn label(kind: ErrorKind) -> Seq<char> {
    match kind {
        ErrorKind::IoError => "IO error: "@,
        ErrorKind::BadXPath => "Bad XPath: "@,
        ErrorKind::BadValue => "Bad value: "@,
        ErrorKind::NotSupported => "Not supported: "@,
        ErrorKind::SerializationError => "Serialization error: "@,
    }
}

impl Failure {
    /// The error in words.
    pub open spec fn words(self) -> Seq<char> {
        label(self.kind) + self.message
    }

    /// The error that an enclosing element reports when this one came up inside it.
    pub open spec fn enclosed(self) -> Failure {
        Failure { kind: ErrorKind::IoError, message: self.words() }
    }
}

impl XmpError {
    /// The error in words: a label for its kind, then its message.
    pub fn to_string(&self) -> (r: String)
        ensures
            r@ == self@.words(),
    {
        let (label, message): (&str, &String) = match self {
            XmpError::IoError(m) => ("IO error: ", m),
            XmpError::BadXPath(m) => ("Bad XPath: ", m),
            XmpError::BadValue(m) => ("Bad value: ", m),
            XmpError::NotSupported(m) => ("Not supported: ", m),
            XmpError::SerializationError(m) => ("Serialization error: ", m),
        };
        let mut r: String = label.to_owned();
        r.append(message.as_str());
        r
    }

    /// The error that an enclosing element reports when this one came up inside it:
    /// an output error that quotes it.
    pub(crate) fn enclosed(&self) -> (r: XmpError)
        ensures
            r@ == self@.enclosed(),
    {
        XmpError::IoError(self.to_string())
    }
}

} // verus!
