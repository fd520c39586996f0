use vstd::prelude::*;

use crate::client::{Contents, FEED_URL};

verus! {

/// The published schedule of a route: one entry per service class and
/// direction.
pub struct Schedule {
    pub routes: Vec<Route>,
}

pub struct Route {
    pub tag: String,
    pub title: String,
    pub schedule_class: String,
    pub service_class: String,
    pub direction: String,
    pub blocks: Vec<VehicleBlock>,
}

/// A scheduled vehicle run and its stop times, in order.
pub struct VehicleBlock {
    pub block_id: String,
    pub stops: Vec<VehicleStop>,
}

/// A stop of a run; a stop that the run does not serve has no time in the
/// feed, and keeps the default of zero.
pub struct VehicleStop {
    pub tag: String,
    pub epoch_time: i64,
}

impl Contents for Schedule {
    open spec fn holds_no_records(&self) -> bool {
        self.routes@.len() == 0
    }

    fn is_empty(&self) -> (r: bool) {
        self.routes.len() == 0
    }
}

/// The request for the schedule of a route.
pub open spec fn schedule_url(agency: Seq<char>, route: Seq<char>) -> Seq<char> {
    FEED_URL@ + "?command=schedule&a="@ + agency + "&r="@ + route
}

pub fn get_schedule_url(agency: &String, route: &String) -> (r: String)
    ensures
        r@ == schedule_url(agency@, route@),
{
    let mut url = String::from_str(FEED_URL);
    url.append("?command=schedule&a=");
    url.append(agency.as_str());
    url.append("&r=");
    url.append(route.as_str());
    url
}

} // verus!
