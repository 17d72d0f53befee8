//! Decode errors.
use vstd::prelude::*;

verus! {

/// What went wrong in decoding bytes, apart from the transport.
#[derive(Debug, Clone, Copy, PartialEq, Eq, Structural)]
pub enum ErrorKind {
    /// Well-formed bytes with an unexpected meaning.
    InvalidResponse,
    /// Malformed bytes: a missing prefix or line, a bad number, or bytes
    /// that are not UTF-8 text where text is required.
    Parse,
    /// A value does not fit the fixed capacity that holds it.
    CapacityExceeded,
}

/// The error of a command's decoder: a decode error, or the transport error
/// that was handed to it in place of a response.
#[derive(Debug, Clone, PartialEq, Eq)]
pub enum Error<E> {
    InvalidResponse,
    Parse,
    CapacityExceeded,
    Transport(E),
}

impl<E> Error<E> {
    pub open spec fn of_kind(k: ErrorKind) -> Error<E> {
        match k {
            ErrorKind::InvalidResponse => Error::InvalidResponse,
            ErrorKind::Parse => Error::Parse,
            ErrorKind::CapacityExceeded => Error::CapacityExceeded,
        }
    }

    pub fn from_kind(k: ErrorKind) -> (r: Error<E>)
        ensures
            r == Self::of_kind(k),
    {
        match k {
            ErrorKind::InvalidResponse => Error::InvalidResponse,
            ErrorKind::Parse => Error::Parse,
            ErrorKind::CapacityExceeded => Error::CapacityExceeded,
        }
    }
}

/// A decode outcome with its error carried over to `Error<E>`.
pub open spec fn lifted<T, E>(r: Result<T, ErrorKind>) -> Result<T, Error<E>> {
    match r {
        Ok(v) => Ok(v),
        Err(k) => Err(Error::of_kind(k)),
    }
}

/// Carries a decode outcome over to `Error<E>`.
pub fn lift<T, E>(r: Result<T, ErrorKind>) -> (out: Result<T, Error<E>>)
    ensures
        out == lifted::<T, E>(r),
{
    match r {
        Ok(v) => Ok(v),
        Err(k) => Err(Error::from_kind(k)),
    }
}

} // verus!
