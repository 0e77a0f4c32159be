//! [Error] impl.

use vstd::prelude::*;

verus! {

/// Error of array expressions.
#[derive(Debug)]
pub enum Error {
    /// Error is an owned string.
    Owned(String),
    /// Error is a static string slice.
    Borrowed(&'static str),
    /// Error is a failed variable access.
    NoVar(String),
    /// Error is a syntax error, with its message.
    Syn(String),
}

/// Mathematical form of an [Error]: which kind, and its text.
pub ghost enum ErrorV {
    /// An owned message.
    Owned(Seq<char>),
    /// A static message.
    Borrowed(Seq<char>),
    /// A missing variable, with its key.
    NoVar(Seq<char>),
    /// A syntax error, with its message.
    Syn(Seq<char>),
}

impl View for Error {
    type V = ErrorV;

    open spec fn view(&self) -> ErrorV {
        match self {
            Error::Owned(s) => ErrorV::Owned(s@),
            Error::Borrowed(s) => ErrorV::Borrowed(s@),
            Error::NoVar(s) => ErrorV::NoVar(s@),
            Error::Syn(s) => ErrorV::Syn(s@),
        }
    }
}

/// The text an error displays.
pub open spec fn error_message(e: ErrorV) -> Seq<char> {
    match e {
        ErrorV::Owned(s) => s,
        ErrorV::Borrowed(s) => s,
        ErrorV::Syn(s) => s,
        ErrorV::NoVar(key) => "could not find variable '"@ + key + "'"@,
    }
}

impl Error {
    /// Convert the text of any displayed value to self.
    pub fn from_display(err: String) -> (r: Self)
        ensures
            r@ == ErrorV::Owned(err@),
    {
        Error::Owned(err)
    }

    /// The text this error displays.
    pub fn message(&self) -> (r: String)
        ensures
            r@ == error_message(self@),
    {
        match self {
            Error::Owned(s) => s.clone(),
            Error::Borrowed(s) => String::from_str(s),
            Error::Syn(s) => s.clone(),
            Error::NoVar(key) => {
                let mut out = String::from_str("could not find variable '");
                out.append(key.as_str());
                out.append("'");
                out
            },
        }
    }
}

} // verus!
