use vstd::prelude::*;

verus! {

/// Every way a fetch, a poll or a normalization can fail.
#[derive(Debug, PartialEq, Eq)]
pub enum FeedError {
    /// The transport could not complete the request (connection, timeout).
    NetworkError(String),
    /// The server answered with a status other than OK.
    HttpStatusError(u16),
    /// The body did not have the shape of the expected document.
    DeserializationError(String),
    /// A direction referenced a stop tag that no stop of the response has.
    MissingJoinKey(String),
    /// A vehicle reported more seconds since its last report than the
    /// feed's update time can take away.
    EpochUnderflow { updated_time: u64, seconds_since_report: u32 },
}

impl FeedError {
    /// Whether a polling loop may absorb this error and try again later.
    pub open spec fn recoverable(&self) -> bool {
        self is NetworkError || self is HttpStatusError
    }

    pub fn is_recoverable(&self) -> (r: bool)
        ensures
            r == self.recoverable(),
    {
        match self {
            FeedError::NetworkError(_) => true,
            FeedError::HttpStatusError(_) => true,
            _ => false,
        }
    }
}

} // verus!
