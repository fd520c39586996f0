use vstd::prelude::*;

use crate::error::FeedError;
use crate::location::Locations;
use crate::prediction::PredictionsList;
use crate::routes::Routes;
use crate::schedule::Schedule;
use crate::stops::RouteConfig;

verus! {

/// The endpoint of the public feed; a command and its parameters follow it
/// as a query.
pub const FEED_URL: &'static str = "https://retro.umoiq.com/service/publicXMLFeed";

/// The status code of an HTTP answer that carries a document.
pub const STATUS_OK: u16 = 200;

/// A decoded feed document that knows whether it holds any record.
pub trait Contents: Sized {
    /// The document holds no record: nothing new is available yet.
    spec fn holds_no_records(&self) -> bool;

    fn is_empty(&self) -> (r: bool)
        ensures
            r == self.holds_no_records(),
    ;
}

/// A decoded document of any of the feed's kinds.
pub enum Document {
    Locations(Locations),
    Predictions(PredictionsList),
    Schedule(Schedule),
    RouteConfig(RouteConfig),
    RouteList(Routes),
}

impl Contents for Document {
    open spec fn holds_no_records(&self) -> bool {
        match self {
            Document::Locations(d) => d.holds_no_records(),
            Document::Predictions(d) => d.holds_no_records(),
            Document::Schedule(d) => d.holds_no_records(),
            Document::RouteConfig(d) => d.holds_no_records(),
            Document::RouteList(d) => d.holds_no_records(),
        }
    }

    fn is_empty(&self) -> (r: bool) {
        match self {
            Document::Locations(d) => d.is_empty(),
            Document::Predictions(d) => d.is_empty(),
            Document::Schedule(d) => d.is_empty(),
            Document::RouteConfig(d) => d.is_empty(),
            Document::RouteList(d) => d.is_empty(),
        }
    }
}

/// Decides on the status of an answer, before its body is looked at: only an
/// OK answer goes on to be decoded.
pub fn check_status(status: u16) -> (r: Result<(), FeedError>)
    ensures
        status == STATUS_OK ==> r is Ok,
        status != STATUS_OK ==> r == Err::<(), FeedError>(FeedError::HttpStatusError(status)),
{
    if status == STATUS_OK {
        Ok(())
    } else {
        Err(FeedError::HttpStatusError(status))
    }
}

/// Turns the result of decoding an OK answer into the fetch outcome: a
/// document with records, `None` for a document without any, or a
/// deserialization error carrying the decoder's message.
pub fn accept_decoded<D: Contents>(decoded: Result<D, String>) -> (r: Result<Option<D>, FeedError>)
    ensures
        match decoded {
            Err(m) => r == Err::<Option<D>, FeedError>(FeedError::DeserializationError(m)),
            Ok(d) => if d.holds_no_records() {
                r == Ok::<Option<D>, FeedError>(None)
            } else {
                r == Ok::<Option<D>, FeedError>(Some(d))
            },
        },
{
    match decoded {
        Err(m) => Err(FeedError::DeserializationError(m)),
        Ok(d) => {
            if d.is_empty() {
                Ok(None)
            } else {
                Ok(Some(d))
            }
        },
    }
}

} // verus!
