use nextbus::error::FeedError;
use nextbus::location::{get_locations_url, parse_locations, vehicle_epoch, Locations, Vehicle};

fn vehicle(id: &str, secs: u32) -> Vehicle {
    Vehicle {
        id: id.to_string(),
        route_tag: "N".to_string(),
        dir_tag: String::new(),
        lat: "37.76".to_string(),
        lon: "-122.43".to_string(),
        secs_since_report: secs,
        predictable: true,
        heading: -1,
        speed_km_hr: 0,
        leading_vehicle_id: "1501".to_string(),
    }
}

#[test]
fn epoch_subtracts_report_age() {
    assert_eq!(vehicle_epoch(1700000000000, 0), Ok(1700000000000));
    assert_eq!(vehicle_epoch(1700000000000, 5), Ok(1699999995000));
    assert_eq!(vehicle_epoch(1700000000000, 10), Ok(1699999990000));
}

#[test]
fn epoch_at_the_boundary_is_zero() {
    assert_eq!(vehicle_epoch(5000, 5), Ok(0));
}

#[test]
fn epoch_underflow_is_rejected() {
    assert_eq!(
        vehicle_epoch(4999, 5),
        Err(FeedError::EpochUnderflow { updated_time: 4999, seconds_since_report: 5 })
    );
    assert_eq!(
        vehicle_epoch(0, 1),
        Err(FeedError::EpochUnderflow { updated_time: 0, seconds_since_report: 1 })
    );
}

#[test]
fn epoch_of_the_largest_report_age() {
    let updated = u64::MAX;
    assert_eq!(vehicle_epoch(updated, u32::MAX), Ok(u64::MAX - (u32::MAX as u64) * 1000));
}

#[test]
fn vehicles_are_stamped_in_order() {
    let doc = Locations {
        vehicles: vec![vehicle("1500", 0), vehicle("1501", 5), vehicle("1502", 10)],
        updated_time: 1700000000000,
    };
    let stamped = match parse_locations(&doc) {
        Ok(v) => v,
        Err(e) => panic!("unexpected {:?}", e),
    };
    assert_eq!(stamped.len(), 3);
    assert_eq!(stamped[0].id, "1500");
    assert_eq!(stamped[0].epoch, 1700000000000);
    assert_eq!(stamped[1].id, "1501");
    assert_eq!(stamped[1].epoch, 1699999995000);
    assert_eq!(stamped[2].id, "1502");
    assert_eq!(stamped[2].epoch, 1699999990000);
    assert_eq!(stamped[1].route_tag, "N");
    assert_eq!(stamped[1].dir_tag, "");
    assert_eq!(stamped[1].lat, "37.76");
    assert_eq!(stamped[1].lon, "-122.43");
    assert!(stamped[1].predictable);
    assert_eq!(stamped[1].heading, -1);
    assert_eq!(stamped[1].leading_vehicle_id, "1501");
}

#[test]
fn first_vehicle_out_of_range_is_reported() {
    let doc = Locations {
        vehicles: vec![vehicle("a", 1), vehicle("b", 7), vehicle("c", 9)],
        updated_time: 6000,
    };
    assert!(matches!(
        parse_locations(&doc),
        Err(FeedError::EpochUnderflow { updated_time: 6000, seconds_since_report: 7 })
    ));
}

#[test]
fn no_vehicles_stamp_to_nothing() {
    let doc = Locations { vehicles: vec![], updated_time: 0 };
    assert!(matches!(parse_locations(&doc), Ok(ref v) if v.is_empty()));
}

#[test]
fn locations_url_carries_the_cursor() {
    let url = get_locations_url(&"sf-muni".to_string(), &"N".to_string(), &0);
    assert_eq!(
        url,
        "https://retro.umoiq.com/service/publicXMLFeed?command=vehicleLocations&a=sf-muni&r=N&t=0"
    );
    let url = get_locations_url(&"sf-muni".to_string(), &"N".to_string(), &1700000000000);
    assert_eq!(
        url,
        "https://retro.umoiq.com/service/publicXMLFeed?command=vehicleLocations&a=sf-muni&r=N&t=1700000000000"
    );
}

#[test]
fn locations_url_with_the_largest_cursor() {
    let url = get_locations_url(&"ttc".to_string(), &"".to_string(), &u64::MAX);
    assert_eq!(
        url,
        "https://retro.umoiq.com/service/publicXMLFeed?command=vehicleLocations&a=ttc&r=&t=18446744073709551615"
    );
}
