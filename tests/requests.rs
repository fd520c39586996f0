use nextbus::prediction::get_predictions_url;
use nextbus::routes::{get_route_tags, get_routes_url, Route, Routes};
use nextbus::schedule::get_schedule_url;
use nextbus::text::push_decimal;

#[test]
fn predictions_url_lists_route_and_stop_pairs() {
    let stops = vec!["5205".to_string(), "4448".to_string()];
    assert_eq!(
        get_predictions_url(&"sf-muni".to_string(), &"N".to_string(), &stops),
        "https://retro.umoiq.com/service/publicXMLFeed?command=predictionsForMultiStops&a=sf-muni&stops=N|5205&stops=N|4448"
    );
}

#[test]
fn predictions_url_with_one_stop() {
    let stops = vec!["6997".to_string()];
    assert_eq!(
        get_predictions_url(&"sf-muni".to_string(), &"KT".to_string(), &stops),
        "https://retro.umoiq.com/service/publicXMLFeed?command=predictionsForMultiStops&a=sf-muni&stops=KT|6997"
    );
}

#[test]
fn predictions_url_without_stops() {
    assert_eq!(
        get_predictions_url(&"sf-muni".to_string(), &"N".to_string(), &vec![]),
        "https://retro.umoiq.com/service/publicXMLFeed?command=predictionsForMultiStops&a=sf-muni&stops="
    );
}

#[test]
fn routes_url() {
    assert_eq!(
        get_routes_url(&"sf-muni".to_string()),
        "https://retro.umoiq.com/service/publicXMLFeed?command=routeList&a=sf-muni"
    );
}

#[test]
fn schedule_url() {
    assert_eq!(
        get_schedule_url(&"sf-muni".to_string(), &"N".to_string()),
        "https://retro.umoiq.com/service/publicXMLFeed?command=schedule&a=sf-muni&r=N"
    );
}

#[test]
fn route_tags_in_list_order() {
    let list = Routes {
        routes: vec![
            Route { tag: "N".to_string(), title: "N-Judah".to_string() },
            Route { tag: "F".to_string(), title: "F-Market".to_string() },
            Route { tag: "J".to_string(), title: "J-Church".to_string() },
        ],
    };
    assert_eq!(get_route_tags(&list), vec!["N".to_string(), "F".to_string(), "J".to_string()]);
    assert!(get_route_tags(&Routes { routes: vec![] }).is_empty());
}

#[test]
fn decimal_digits() {
    let mut s = "t=".to_string();
    push_decimal(&mut s, 0);
    assert_eq!(s, "t=0");
    let mut s = String::new();
    push_decimal(&mut s, 9);
    assert_eq!(s, "9");
    let mut s = String::new();
    push_decimal(&mut s, 10);
    assert_eq!(s, "10");
    let mut s = String::new();
    push_decimal(&mut s, 1700000000000);
    assert_eq!(s, "1700000000000");
    let mut s = String::new();
    push_decimal(&mut s, u64::MAX);
    assert_eq!(s, u64::MAX.to_string());
}
