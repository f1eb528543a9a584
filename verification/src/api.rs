//! The errors that the engine reports to its callers.

use vstd::prelude::*;

verus! {

/// Why a request could not be answered. Each kind carries a message for the caller.
#[derive(Debug, Clone, PartialEq, Eq)]
#[non_exhaustive]
pub enum ApiError<'a> {
    AuthError(&'a str),
    UserCreationError(&'a str),
    SavedPlacesError(&'a str),
    ServerError(&'a str),
    ScraperUploadError(&'a str),
    RequestError(&'a str),
}

impl<'a> ApiError<'a> {
    /// The message that the error carries.
    pub open spec fn message(&self) -> &'a str {
        match *self {
            ApiError::AuthError(text) => text,
            ApiError::UserCreationError(text) => text,
            ApiError::SavedPlacesError(text) => text,
            ApiError::ServerError(text) => text,
            ApiError::ScraperUploadError(text) => text,
            ApiError::RequestError(text) => text,
        }
    }

    /// The message that the error carries.
    pub fn text(&self) -> (text: &'a str)
        ensures
            text == self.message(),
    {
        match *self {
            ApiError::AuthError(text) => text,
            ApiError::UserCreationError(text) => text,
            ApiError::SavedPlacesError(text) => text,
            ApiError::ServerError(text) => text,
            ApiError::ScraperUploadError(text) => text,
            ApiError::RequestError(text) => text,
        }
    }
}

} // verus!
