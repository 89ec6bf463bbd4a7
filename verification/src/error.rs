//! The errors of the web API and the HTTP status each one answers with.
use vstd::prelude::*;
use vstd::std_specs::convert::FromSpec;

verus! {

/// An error of the web API.
#[derive(Debug, PartialEq, Eq, Structural)]
pub enum Error {
    /// An HTTP request to another service failed
    Reqwest {},
    /// A JSON document could not be read or written
    SerdeJson {},
    /// A database query failed
    Diesel {},
    /// A value that had to be present was missing
    Yeet {},
    NotFound {},
    Unauthorized {},
    BadRequest {},
    InternalServerError {},
    /// Decoded text was no UTF-8
    FromUtf8Error {},
    Teapot,
}

/// The HTTP status that answers `e`.
pub open spec fn status_of(e: Error) -> u16 {
    match e {
        Error::Unauthorized {} => 401,
        Error::NotFound {} => 404,
        Error::BadRequest {} => 400,
        Error::InternalServerError {} => 500,
        Error::FromUtf8Error {} => 400,
        Error::Teapot => 418,
        _ => 500,
    }
}

impl Error {
    /// The HTTP status that answers this error: 401, 404 and 400 for the
    /// errors of those names, 400 for undecodable text, 418 for the teapot,
    /// and 500 for everything else.
    pub fn status_code(&self) -> (r: u16)
        ensures
            r == status_of(*self),
    {
        match self {
            Error::Unauthorized {} => 401,
            Error::NotFound {} => 404,
            Error::BadRequest {} => 400,
            Error::InternalServerError {} => 500,
            Error::FromUtf8Error {} => 400,
            Error::Teapot => 418,
            _ => 500,
        }
    }

    /// Fails with [`Error::Unauthorized`].
    pub fn unauthorized<T>() -> (r: Result<T, Error>)
        ensures
            r == Err::<T, Error>(Error::Unauthorized {}),
    {
        Err(Error::Unauthorized {})
    }

    /// Fails with [`Error::NotFound`].
    pub fn not_found<T>() -> (r: Result<T, Error>)
        ensures
            r == Err::<T, Error>(Error::NotFound {}),
    {
        Err(Error::NotFound {})
    }
}

/// Turns the error of a result into an [`Error`].
pub trait MapRre<T>: Sized {
    fn map_rre(self) -> Result<T, Error>;
}

impl<T, E> MapRre<T> for Result<T, E> where Error: From<E> {
    /// Keeps a success, and converts a failure with `Error::from`.
    fn map_rre(self) -> (r: Result<T, Error>)
        ensures
            self matches Ok(t) ==> r == Ok::<T, Error>(t),
            self matches Err(e) ==> (r is Err && (<Error as FromSpec<E>>::obeys_from_spec() ==> r == Err::<T, Error>(<Error as FromSpec<E>>::from_spec(e)))),
    {
        match self {
            Ok(t) => Ok(t),
            Err(e) => Err(Error::from(e)),
        }
    }
}

} // verus!
