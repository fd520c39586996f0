use nextbus::error::FeedError;
use nextbus::stops::{flatten_routes, get_stop_tags, get_stops_url, Direction, FlatRoute, Route, RouteConfig, Stop};
use nextbus::text::{sorted_unique, text_precedes};

fn stop(tag: &str, title: &str) -> Stop {
    Stop {
        tag: tag.to_string(),
        title: title.to_string(),
        lat: "37.7".to_string(),
        lon: "-122.4".to_string(),
        stop_id: format!("1{}", tag),
    }
}

fn direction(tag: &str, tags: &[&str]) -> Direction {
    Direction {
        tag: tag.to_string(),
        title: format!("{} title", tag),
        name: "Outbound".to_string(),
        use_for_ui: true,
        stop_tags: tags.iter().map(|t| t.to_string()).collect(),
    }
}

fn route(tag: &str, stops: Vec<Stop>, directions: Vec<Direction>) -> Route {
    Route {
        tag: tag.to_string(),
        title: format!("{} line", tag),
        lat_min: "37.7".to_string(),
        lat_max: "37.8".to_string(),
        lon_min: "-122.5".to_string(),
        lon_max: "-122.3".to_string(),
        stops,
        directions,
    }
}

fn flat(config: &RouteConfig) -> Vec<FlatRoute> {
    match flatten_routes(config) {
        Ok(f) => f,
        Err(e) => panic!("unexpected {:?}", e),
    }
}

fn strings(v: &[&str]) -> Vec<String> {
    v.iter().map(|s| s.to_string()).collect()
}

#[test]
fn flattening_keeps_direction_order() {
    let config = RouteConfig {
        routes: vec![route(
            "N",
            vec![stop("a", "A"), stop("b", "B"), stop("c", "C")],
            vec![direction("out", &["b", "a", "c"])],
        )],
    };
    let f = flat(&config);
    assert_eq!(f.len(), 1);
    assert_eq!(f[0].tag, "N");
    assert_eq!(f[0].title, "N line");
    assert_eq!(f[0].lat_min, "37.7");
    assert_eq!(f[0].lon_max, "-122.3");
    let d = &f[0].directions[0];
    assert_eq!(d.tag, "out");
    assert_eq!(d.title, "out title");
    assert_eq!(d.name, "Outbound");
    assert!(d.use_for_ui);
    let titles: Vec<&str> = d.stops.iter().map(|s| s.title.as_str()).collect();
    assert_eq!(titles, vec!["B", "A", "C"]);
    let tags: Vec<&str> = d.stops.iter().map(|s| s.tag.as_str()).collect();
    assert_eq!(tags, vec!["b", "a", "c"]);
    assert_eq!(d.stops[0].stop_id, "1b");
}

#[test]
fn every_direction_is_flattened() {
    let config = RouteConfig {
        routes: vec![route(
            "N",
            vec![stop("a", "A"), stop("b", "B")],
            vec![direction("out", &["a", "b"]), direction("in", &["b", "a", "b"])],
        )],
    };
    let f = flat(&config);
    let inbound: Vec<&str> = f[0].directions[1].stops.iter().map(|s| s.title.as_str()).collect();
    assert_eq!(inbound, vec!["B", "A", "B"]);
}

#[test]
fn unknown_tag_is_a_missing_join_key() {
    let config = RouteConfig {
        routes: vec![route("N", vec![stop("a", "A"), stop("b", "B")], vec![direction("out", &["a", "x", "b"])])],
    };
    assert_eq!(flatten_routes(&config).err(), Some(FeedError::MissingJoinKey("x".to_string())));
}

#[test]
fn first_unknown_tag_is_named() {
    let config = RouteConfig {
        routes: vec![
            route("N", vec![stop("a", "A")], vec![direction("out", &["a"]), direction("in", &["y", "z"])]),
            route("J", vec![], vec![direction("out", &["w"])]),
        ],
    };
    assert_eq!(flatten_routes(&config).err(), Some(FeedError::MissingJoinKey("y".to_string())));
}

#[test]
fn stops_resolve_across_routes_last_one_wins() {
    let config = RouteConfig {
        routes: vec![
            route("N", vec![stop("a", "first A"), stop("s", "S")], vec![direction("out", &["s", "t"])]),
            route("J", vec![stop("a", "second A"), stop("t", "T")], vec![direction("out", &["a"])]),
        ],
    };
    let f = flat(&config);
    assert_eq!(f.len(), 2);
    assert_eq!(f[0].directions[0].stops[1].title, "T");
    assert_eq!(f[1].directions[0].stops[0].title, "second A");
}

#[test]
fn routes_without_directions_flatten() {
    let config = RouteConfig { routes: vec![route("N", vec![stop("a", "A")], vec![])] };
    let f = flat(&config);
    assert_eq!(f.len(), 1);
    assert!(f[0].directions.is_empty());
}

#[test]
fn default_stops_are_sorted_and_unique() {
    let config = RouteConfig {
        routes: vec![route(
            "N",
            vec![stop("7", "S7"), stop("10", "S10"), stop("3", "S3")],
            vec![direction("out", &["7", "10", "3"]), direction("in", &["3", "10", "7"])],
        )],
    };
    assert_eq!(get_stop_tags(&flat(&config)), strings(&["10", "3", "7"]));
}

#[test]
fn default_stops_ignore_order_and_repetition() {
    let stops = vec![stop("b", "B"), stop("a", "A"), stop("c", "C")];
    let one = RouteConfig { routes: vec![route("N", stops, vec![direction("out", &["b", "a", "c"])])] };
    let stops = vec![stop("b", "B"), stop("a", "A"), stop("c", "C")];
    let other = RouteConfig {
        routes: vec![route("N", stops, vec![direction("out", &["c", "c", "a"]), direction("in", &["b", "a"])])],
    };
    let first = get_stop_tags(&flat(&one));
    let second = get_stop_tags(&flat(&other));
    assert_eq!(first, strings(&["a", "b", "c"]));
    assert_eq!(first, second);
}

#[test]
fn aggregation_is_idempotent() {
    let once = sorted_unique(&strings(&["5205", "3", "5205", "17", "3"]));
    assert_eq!(once, strings(&["17", "3", "5205"]));
    assert_eq!(sorted_unique(&once), once);
}

#[test]
fn no_stops_aggregate_to_nothing() {
    assert!(get_stop_tags(&vec![]).is_empty());
    assert!(sorted_unique(&vec![]).is_empty());
}

#[test]
fn text_order_is_lexicographic() {
    assert!(text_precedes("a", "b"));
    assert!(text_precedes("ab", "b"));
    assert!(text_precedes("a", "ab"));
    assert!(text_precedes("", "a"));
    assert!(!text_precedes("b", "a"));
    assert!(!text_precedes("ab", "ab"));
    assert!(!text_precedes("", ""));
    assert!(text_precedes("Z", "a"));
    assert!(text_precedes("é", "ü"));
    assert!(!text_precedes("ü", "é"));
}

#[test]
fn aggregation_orders_like_str() {
    let tags = strings(&["ü", "b", "é", "B", "ba", "", "b"]);
    let mut expected = tags.clone();
    expected.sort();
    expected.dedup();
    assert_eq!(sorted_unique(&tags), expected);
}

#[test]
fn stops_url() {
    assert_eq!(
        get_stops_url(&"sf-muni".to_string(), &"N".to_string()),
        "https://retro.umoiq.com/service/publicXMLFeed?command=routeConfig&a=sf-muni&r=N"
    );
}
