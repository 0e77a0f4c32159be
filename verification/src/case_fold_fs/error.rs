//! [Error] impl: errors of the file system, and the raw error numbers FUSE is answered with.

use vstd::prelude::*;

verus! {

/// Error type.
#[derive(Debug)]
pub enum Error {
    /// Raw os error.
    Raw(i32),
    /// An error number reported by a system call.
    Errno(i32),
    /// Sqlite error, by its message.
    Sqlite(String),
}

/// The error number of an input/output error (`EIO`).
pub open spec fn eio_code() -> i32 {
    5
}

/// Trusted: reads `libc::EIO`, which is 5 on Linux.
#[verifier::external_body]
pub(crate) fn libc_eio() -> (r: i32)
    ensures
        r == eio_code(),
{
    libc::EIO
}

/// The raw error number of an error; sqlite errors count as input/output errors.
pub open spec fn raw_of(e: Error) -> i32 {
    match e {
        Error::Raw(raw) => raw,
        Error::Errno(raw) => raw,
        Error::Sqlite(_) => eio_code(),
    }
}

impl Error {
    /// Run a function if the value is not a raw i32.
    pub fn inspect_not_raw<F: FnOnce(&Error)>(self, f: F) -> (r: Self)
        requires
            !(self is Raw) ==> f.requires((&self,)),
        ensures
            r == self,
            !(self is Raw) ==> f.ensures((&self,), ()),
    {
        match self {
            Error::Raw(_) => {},
            _ => f(&self),
        }
        self
    }

    /// Convert into a raw error, sqlite errors become `EIO`.
    pub fn into_raw(self) -> (r: i32)
        ensures
            r == raw_of(self),
    {
        match self {
            Error::Raw(raw) => raw,
            Error::Errno(raw) => raw,
            Error::Sqlite(_) => libc_eio(),
        }
    }

    /// Get an eio error.
    pub fn eio() -> (r: Self)
        ensures
            r == Error::Raw(eio_code()),
    {
        Error::Raw(libc_eio())
    }

    /// A raw os error.
    pub fn from_raw(raw: i32) -> (r: Self)
        ensures
            r == Error::Raw(raw),
    {
        Error::Raw(raw)
    }

    /// Whether the error is a raw os error.
    pub fn is_raw(&self) -> (r: bool)
        ensures
            r == (*self is Raw),
    {
        match self {
            Error::Raw(_) => true,
            _ => false,
        }
    }
}

/// An error made raw gives its number back.
pub proof fn law_raw_roundtrip(raw: i32)
    ensures
        raw_of(Error::Raw(raw)) == raw,
{
}

} // verus!
