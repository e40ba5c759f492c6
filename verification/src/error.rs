//! The failures that the service shows to its clients.

use vstd::prelude::*;

verus! {

/// Why a request was not served. `Sqlx` and `Other` carry a description of
/// the cause, which is never shown to the client.
#[derive(Debug)]
pub enum HttpError {
    /// The channel asked for is not registered.
    NotFound,
    /// A channel of that name is registered already.
    AlreadyExists,
    /// The store failed.
    Sqlx(String),
    /// Anything else went wrong inside the service.
    Other(String),
}

/// The kinds of failure that the service tells apart.
#[derive(Clone, Copy, Debug, PartialEq, Eq, Structural)]
pub enum ErrorKind {
    NotFound,
    Conflict,
    UpstreamFailure,
    StorageFailure,
    Internal,
}

/// The HTTP status that a failure of the given kind is answered with.
pub open spec fn status_of(kind: ErrorKind) -> u16 {
    match kind {
        ErrorKind::NotFound => 404,
        ErrorKind::Conflict => 409,
        ErrorKind::UpstreamFailure => 500,
        ErrorKind::StorageFailure => 500,
        ErrorKind::Internal => 500,
    }
}

impl ErrorKind {
    /// The HTTP status for this kind: 404 for a missing channel, 409 for a
    /// name that is taken, 500 for every failure on the service's side.
    pub fn status(self) -> (code: u16)
        ensures
            code == status_of(self),
    {
        match self {
            ErrorKind::NotFound => 404,
            ErrorKind::Conflict => 409,
            ErrorKind::UpstreamFailure => 500,
            ErrorKind::StorageFailure => 500,
            ErrorKind::Internal => 500,
        }
    }
}

impl HttpError {
    /// The kind of this failure.
    pub open spec fn spec_kind(&self) -> ErrorKind {
        match self {
            HttpError::NotFound => ErrorKind::NotFound,
            HttpError::AlreadyExists => ErrorKind::Conflict,
            HttpError::Sqlx(_) => ErrorKind::StorageFailure,
            HttpError::Other(_) => ErrorKind::Internal,
        }
    }

    /// The text shown to the client.
    pub open spec fn spec_message(&self) -> Seq<char> {
        match self {
            HttpError::NotFound => "not found"@,
            HttpError::AlreadyExists => "already exists"@,
            HttpError::Sqlx(_) => "a database error occurred"@,
            HttpError::Other(_) => "internal server error"@,
        }
    }

    /// The kind of this failure.
    pub fn kind(&self) -> (kind: ErrorKind)
        ensures
            kind == self.spec_kind(),
    {
        match self {
            HttpError::NotFound => ErrorKind::NotFound,
            HttpError::AlreadyExists => ErrorKind::Conflict,
            HttpError::Sqlx(_) => ErrorKind::StorageFailure,
            HttpError::Other(_) => ErrorKind::Internal,
        }
    }

    /// The text shown to the client. It never holds the cause that `Sqlx`
    /// and `Other` carry.
    pub fn to_string(&self) -> (text: String)
        ensures
            text@ == self.spec_message(),
    {
        match self {
            HttpError::NotFound => "not found".to_owned(),
            HttpError::AlreadyExists => "already exists".to_owned(),
            HttpError::Sqlx(_) => "a database error occurred".to_owned(),
            HttpError::Other(_) => "internal server error".to_owned(),
        }
    }

    /// The answer to the client: the HTTP status and the body's text.
    pub fn into_response(self) -> (response: (u16, String))
        ensures
            response.0 == status_of(self.spec_kind()),
            response.1@ == self.spec_message(),
    {
        let text = self.to_string();
        (self.kind().status(), text)
    }
}

} // verus!
