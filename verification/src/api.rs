//! Client for the backend that readings are posted to.
//!
//! Posting is not implemented yet: every call fails, so firmware that enables
//! the service cannot silently run with it half-configured.

use vstd::prelude::*;

verus! {

/// Why a call to the backend failed.
#[derive(Debug, Clone, Copy, PartialEq, Eq)]
pub enum ApiError {
    /// Posting readings is not implemented yet.
    NotImplemented,
}

/// Handle for the API client service.
pub struct ApiClient {
    base_url: String,
}

impl ApiClient {
    /// The backend URL the client targets.
    pub closed spec fn target(&self) -> Seq<char> {
        self.base_url@
    }

    /// A client targeting `base_url`. Opens no connection.
    pub fn new(base_url: &str) -> (client: ApiClient)
        ensures
            client.target() == base_url@,
    {
        ApiClient { base_url: base_url.to_owned() }
    }

    /// The backend URL the client targets.
    pub fn base_url(&self) -> (url: &str)
        ensures
            url@ == self.target(),
    {
        self.base_url.as_str()
    }

    /// Posts a reading to the backend. Not implemented yet: always fails.
    pub fn post_reading<R>(&self, _reading: &R) -> (res: Result<(), ApiError>)
        ensures
            res == Err::<(), ApiError>(ApiError::NotImplemented),
    {
        Err(ApiError::NotImplemented)
    }
}

} // verus!
