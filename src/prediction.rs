use vstd::prelude::*;

use crate::client::{Contents, FEED_URL};
use crate::text::texts;

verus! {

/// The predictions document: one entry per requested stop.
pub struct PredictionsList {
    pub predictions: Vec<Predictions>,
}

/// The predictions for one stop of one route, by direction.
pub struct Predictions {
    pub directions: Vec<Direction>,
    pub agency_title: String,
    pub route_title: String,
    pub route_tag: String,
    pub stop_tag: String,
}

/// The arrivals predicted in one direction, soonest first.
pub struct Direction {
    pub title: String,
    pub prediction: Vec<Prediction>,
}

/// One predicted arrival or departure. The slowness is kept as the decimal
/// text of the feed's number.
pub struct Prediction {
    pub epoch: u64,
    pub seconds: u64,
    pub minutes: u64,
    pub is_departure: bool,
    pub dir_tag: String,
    pub affected_by_layover: bool,
    pub delayed: bool,
    pub slowness: String,
    pub vehicle: String,
    pub vehicles_in_consist: u32,
    pub block: String,
    pub trip_tag: String,
}

impl Contents for PredictionsList {
    /// No stop has a direction with predictions.
    open spec fn holds_no_records(&self) -> bool {
        forall|i: int|
            0 <= i < self.predictions@.len() ==> (#[trigger] self.predictions@[i]).directions@.len() == 0
    }

    fn is_empty(&self) -> (r: bool) {
        let mut i: usize = 0;
        while i < self.predictions.len()
            invariant
                i <= self.predictions.len(),
                forall|m: int| 0 <= m < i ==> (#[trigger] self.predictions@[m]).directions@.len() == 0,
            decreases self.predictions.len() - i,
        {
            if self.predictions[i].directions.len() > 0 {
                return false;
            }
            i = i + 1;
        }
        true
    }
}

/// The `stops` parameters of a request: `route|stop` for each stop, joined
/// by `&stops=`.
pub open spec fn stop_params(route: Seq<char>, stops: Seq<Seq<char>>) -> Seq<char>
    decreases stops.len(),
{
    if stops.len() == 0 {
        Seq::empty()
    } else if stops.len() == 1 {
        route + "|"@ + stops[0]
    } else {
        stop_params(route, stops.drop_last()) + "&stops="@ + route + "|"@ + stops.last()
    }
}

/// The request for the predictions at some stops of a route.
pub open spec fn predictions_url(agency: Seq<char>, route: Seq<char>, stops: Seq<Seq<char>>) -> Seq<char> {
    FEED_URL@ + "?command=predictionsForMultiStops&a="@ + agency + "&stops="@ + stop_params(route, stops)
}

pub fn get_predictions_url(agency: &String, route: &String, stops: &Vec<String>) -> (r: String)
    ensures
        r@ == predictions_url(agency@, route@, texts(stops@)),
{
    let ghost tags = texts(stops@);
    let mut url = String::from_str(FEED_URL);
    url.append("?command=predictionsForMultiStops&a=");
    url.append(agency.as_str());
    url.append("&stops=");
    let ghost prefix = url@;
    let mut k: usize = 0;
    assert(tags.subrange(0, 0).len() == 0);
    assert(url@ =~= prefix + stop_params(route@, tags.subrange(0, 0)));
    while k < stops.len()
        invariant
            k <= stops.len(),
            tags == texts(stops@),
            url@ == prefix + stop_params(route@, tags.subrange(0, k as int)),
        decreases stops.len() - k,
    {
        if k > 0 {
            url.append("&stops=");
        }
        url.append(route.as_str());
        url.append("|");
        url.append(stops[k].as_str());
        proof {
            let next = tags.subrange(0, k + 1);
            assert(next.drop_last() =~= tags.subrange(0, k as int));
            assert(next.last() == stops@[k as int]@);
            assert(url@ =~= prefix + stop_params(route@, next));
        }
        k = k + 1;
    }
    assert(tags.subrange(0, k as int) =~= tags);
    url
}

} // verus!
