use vstd::prelude::*;

use crate::client::{Contents, FEED_URL};
use crate::error::FeedError;
use crate::text::{decimal, push_decimal};

verus! {

/// A vehicle as the locations feed reports it. Coordinates are kept as the
/// feed's text; a missing direction or leading vehicle is an empty text.
pub struct Vehicle {
    pub id: String,
    pub route_tag: String,
    pub dir_tag: String,
    pub lat: String,
    pub lon: String,
    pub secs_since_report: u32,
    pub predictable: bool,
    pub heading: i16,
    pub speed_km_hr: u32,
    pub leading_vehicle_id: String,
}

/// The locations document: the vehicles and the feed's update time, in
/// milliseconds since the epoch.
pub struct Locations {
    pub vehicles: Vec<Vehicle>,
    pub updated_time: u64,
}

impl Contents for Locations {
    open spec fn holds_no_records(&self) -> bool {
        self.vehicles@.len() == 0
    }

    fn is_empty(&self) -> (r: bool) {
        self.vehicles.len() == 0
    }
}

/// A vehicle with the absolute time of its last report.
pub struct VehicleTime {
    pub id: String,
    pub route_tag: String,
    pub dir_tag: String,
    pub lat: String,
    pub lon: String,
    pub epoch: u64,
    pub predictable: bool,
    pub heading: i16,
    pub speed_km_hr: u32,
    pub leading_vehicle_id: String,
}

/// The time of a report made `seconds_since_report` seconds before the
/// feed's update time.
pub open spec fn epoch_of(updated_time: u64, seconds_since_report: u32) -> int {
    updated_time - seconds_since_report * 1000
}

/// The report time lies at or after the epoch.
pub open spec fn epoch_fits(updated_time: u64, seconds_since_report: u32) -> bool {
    seconds_since_report * 1000 <= updated_time
}

/// `t` is `v` with the absolute time of its last report.
pub open spec fn stamps(t: VehicleTime, v: Vehicle, updated_time: u64) -> bool {
    &&& t.id@ == v.id@
    &&& t.route_tag@ == v.route_tag@
    &&& t.dir_tag@ == v.dir_tag@
    &&& t.lat@ == v.lat@
    &&& t.lon@ == v.lon@
    &&& t.epoch == epoch_of(updated_time, v.secs_since_report)
    &&& t.predictable == v.predictable
    &&& t.heading == v.heading
    &&& t.speed_km_hr == v.speed_km_hr
    &&& t.leading_vehicle_id@ == v.leading_vehicle_id@
}

/// Vehicle `i` is the first whose report time would fall before the epoch.
pub open spec fn first_underflow(locations: &Locations, i: int) -> bool {
    &&& 0 <= i < locations.vehicles@.len()
    &&& !epoch_fits(locations.updated_time, locations.vehicles@[i].secs_since_report)
    &&& forall|m: int|
        0 <= m < i ==> epoch_fits(locations.updated_time, (#[trigger] locations.vehicles@[m]).secs_since_report)
}

/// The absolute time of a report, or an error where it would fall before the
/// epoch.
pub fn vehicle_epoch(updated_time: u64, seconds_since_report: u32) -> (r: Result<u64, FeedError>)
    ensures
        match r {
            Ok(e) => epoch_fits(updated_time, seconds_since_report) && e == epoch_of(
                updated_time,
                seconds_since_report,
            ),
            Err(e) => !epoch_fits(updated_time, seconds_since_report) && e == FeedError::EpochUnderflow {
                updated_time,
                seconds_since_report,
            },
        },
{
    let back = seconds_since_report as u64 * 1000;
    if back > updated_time {
        Err(FeedError::EpochUnderflow { updated_time, seconds_since_report })
    } else {
        Ok(updated_time - back)
    }
}

/// Gives every vehicle of the document the absolute time of its last report,
/// in the document's order; fails on the first vehicle whose report time
/// would fall before the epoch.
pub fn parse_locations(locations: &Locations) -> (r: Result<Vec<VehicleTime>, FeedError>)
    ensures
        r is Ok <==> forall|i: int|
            0 <= i < locations.vehicles@.len() ==> epoch_fits(
                locations.updated_time,
                (#[trigger] locations.vehicles@[i]).secs_since_report,
            ),
        match r {
            Ok(v) => v@.len() == locations.vehicles@.len() && forall|i: int|
                0 <= i < v@.len() ==> stamps(
                    #[trigger] v@[i],
                    locations.vehicles@[i],
                    locations.updated_time,
                ),
            Err(e) => exists|i: int|
                first_underflow(locations, i) && e == FeedError::EpochUnderflow {
                    updated_time: locations.updated_time,
                    seconds_since_report: (#[trigger] locations.vehicles@[i]).secs_since_report,
                },
        },
{
    let updated_time = locations.updated_time;
    let mut out: Vec<VehicleTime> = Vec::new();
    let mut i: usize = 0;
    while i < locations.vehicles.len()
        invariant
            i <= locations.vehicles.len(),
            updated_time == locations.updated_time,
            out@.len() == i,
            forall|m: int|
                0 <= m < i ==> epoch_fits(updated_time, (#[trigger] locations.vehicles@[m]).secs_since_report),
            forall|m: int| 0 <= m < i ==> stamps(#[trigger] out@[m], locations.vehicles@[m], updated_time),
        decreases locations.vehicles.len() - i,
    {
        let v = &locations.vehicles[i];
        let epoch = match vehicle_epoch(updated_time, v.secs_since_report) {
            Ok(e) => e,
            Err(e) => {
                assert(first_underflow(locations, i as int));
                return Err(e);
            },
        };
        out.push(
            VehicleTime {
                id: v.id.clone(),
                route_tag: v.route_tag.clone(),
                dir_tag: v.dir_tag.clone(),
                lat: v.lat.clone(),
                lon: v.lon.clone(),
                epoch,
                predictable: v.predictable,
                heading: v.heading,
                speed_km_hr: v.speed_km_hr,
                leading_vehicle_id: v.leading_vehicle_id.clone(),
            },
        );
        i = i + 1;
    }
    Ok(out)
}

/// The request for the vehicles of a route that reported after `epoch`.
pub open spec fn locations_url(agency: Seq<char>, route: Seq<char>, epoch: nat) -> Seq<char> {
    FEED_URL@ + "?command=vehicleLocations&a="@ + agency + "&r="@ + route + "&t="@ + decimal(epoch)
}

pub fn get_locations_url(agency: &String, route: &String, epoch: &u64) -> (r: String)
    ensures
        r@ == locations_url(agency@, route@, *epoch as nat),
{
    let mut url = String::from_str(FEED_URL);
    url.append("?command=vehicleLocations&a=");
    url.append(agency.as_str());
    url.append("&r=");
    url.append(route.as_str());
    url.append("&t=");
    push_decimal(&mut url, *epoch);
    url
}

} // verus!
