use vstd::prelude::*;

verus! {

/// Declares bcrypt's error type so that it can travel inside [`Error`].
#[verifier::external_type_specification]
#[verifier::external_body]
pub struct ExBcryptError(bcrypt::BcryptError);

/// Media types that a response body can carry.
#[derive(Debug, Clone, Copy, PartialEq, Eq)]
pub enum ContentType {
    Plain,
}

/// A response with a textual body.
#[derive(Debug)]
pub struct TextResponse {
    pub status: u16,
    pub content_type: ContentType,
    pub body: String,
}

/// Everything a request can fail with.
#[derive(Debug)]
pub enum Error {
    /// No database connection could be taken from the pool.
    PoolError(String),
    /// The database refused or failed a query.
    DBError(String),
    /// Hashing or checking a password failed.
    BcryptError(bcrypt::BcryptError),
    /// The requested object does not exist.
    NotFound(String),
    /// The data broke an invariant the service relies on.
    Internal(String),
    /// The caller is not allowed to do what it asked.
    Forbidden(String),
}

/// HTTP status of a missing object.
pub const STATUS_NOT_FOUND: u16 = 404;

/// HTTP status of every other failure.
pub const STATUS_INTERNAL_SERVER_ERROR: u16 = 500;

impl Error {
    /// How the error is answered: a missing object gets a 404 whose plain
    /// text body is the error's message; every other error is a bare 500.
    pub fn respond_to(self) -> (r: Result<TextResponse, u16>)
        ensures
            match self {
                Error::NotFound(msg) => r == Ok::<TextResponse, u16>(
                    TextResponse { status: STATUS_NOT_FOUND, content_type: ContentType::Plain, body: msg },
                ),
                _ => r == Err::<TextResponse, u16>(STATUS_INTERNAL_SERVER_ERROR),
            },
    {
        match self {
            Error::NotFound(msg) => Ok(
                TextResponse { status: STATUS_NOT_FOUND, content_type: ContentType::Plain, body: msg },
            ),
            _ => Err(STATUS_INTERNAL_SERVER_ERROR),
        }
    }
}

} // verus!
