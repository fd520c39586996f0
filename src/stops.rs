use vstd::prelude::*;

use crate::client::{Contents, FEED_URL};
use crate::error::FeedError;
use crate::text::{lemma_sorted_set_unique, sorted_set_of, sorted_unique, texts};

verus! {

/// A canonical stop of a route-config document.
pub struct Stop {
    pub tag: String,
    pub title: String,
    pub lat: String,
    pub lon: String,
    pub stop_id: String,
}

pub struct StopView {
    pub tag: Seq<char>,
    pub title: Seq<char>,
    pub lat: Seq<char>,
    pub lon: Seq<char>,
    pub stop_id: Seq<char>,
}

impl View for Stop {
    type V = StopView;

    open spec fn view(&self) -> StopView {
        StopView {
            tag: self.tag@,
            title: self.title@,
            lat: self.lat@,
            lon: self.lon@,
            stop_id: self.stop_id@,
        }
    }
}

impl Stop {
    pub fn duplicate(&self) -> (r: Stop)
        ensures
            r@ == self@,
    {
        Stop {
            tag: self.tag.clone(),
            title: self.title.clone(),
            lat: self.lat.clone(),
            lon: self.lon.clone(),
            stop_id: self.stop_id.clone(),
        }
    }
}

/// One travel direction of a route, with its stops as bare tags in the
/// order in which a vehicle serves them.
pub struct Direction {
    pub tag: String,
    pub title: String,
    pub name: String,
    pub use_for_ui: bool,
    pub stop_tags: Vec<String>,
}

pub struct DirectionView {
    pub tag: Seq<char>,
    pub title: Seq<char>,
    pub name: Seq<char>,
    pub use_for_ui: bool,
    pub stop_tags: Seq<Seq<char>>,
}

impl View for Direction {
    type V = DirectionView;

    open spec fn view(&self) -> DirectionView {
        DirectionView {
            tag: self.tag@,
            title: self.title@,
            name: self.name@,
            use_for_ui: self.use_for_ui,
            stop_tags: self.stop_tags@.map_values(|t: String| t@),
        }
    }
}

/// A route of a route-config document: its canonical stops and its
/// directions.
pub struct Route {
    pub tag: String,
    pub title: String,
    pub lat_min: String,
    pub lat_max: String,
    pub lon_min: String,
    pub lon_max: String,
    pub stops: Vec<Stop>,
    pub directions: Vec<Direction>,
}

pub struct RouteView {
    pub tag: Seq<char>,
    pub title: Seq<char>,
    pub lat_min: Seq<char>,
    pub lat_max: Seq<char>,
    pub lon_min: Seq<char>,
    pub lon_max: Seq<char>,
    pub stops: Seq<StopView>,
    pub directions: Seq<DirectionView>,
}

impl View for Route {
    type V = RouteView;

    open spec fn view(&self) -> RouteView {
        RouteView {
            tag: self.tag@,
            title: self.title@,
            lat_min: self.lat_min@,
            lat_max: self.lat_max@,
            lon_min: self.lon_min@,
            lon_max: self.lon_max@,
            stops: stop_views(self.stops@),
            directions: self.directions@.map_values(|d: Direction| d@),
        }
    }
}

/// The route-config document: one or more routes.
pub struct RouteConfig {
    pub routes: Vec<Route>,
}

impl View for RouteConfig {
    type V = Seq<RouteView>;

    open spec fn view(&self) -> Seq<RouteView> {
        self.routes@.map_values(|r: Route| r@)
    }
}

impl Contents for RouteConfig {
    open spec fn holds_no_records(&self) -> bool {
        self.routes@.len() == 0
    }

    fn is_empty(&self) -> (r: bool) {
        self.routes.len() == 0
    }
}

/// A direction whose stop tags are replaced by the stops they name.
pub struct FlatDirection {
    pub tag: String,
    pub title: String,
    pub name: String,
    pub use_for_ui: bool,
    pub stops: Vec<Stop>,
}

pub struct FlatDirectionView {
    pub tag: Seq<char>,
    pub title: Seq<char>,
    pub name: Seq<char>,
    pub use_for_ui: bool,
    pub stops: Seq<StopView>,
}

impl View for FlatDirection {
    type V = FlatDirectionView;

    open spec fn view(&self) -> FlatDirectionView {
        FlatDirectionView {
            tag: self.tag@,
            title: self.title@,
            name: self.name@,
            use_for_ui: self.use_for_ui,
            stops: stop_views(self.stops@),
        }
    }
}

/// A route whose directions are flattened.
pub struct FlatRoute {
    pub tag: String,
    pub title: String,
    pub lat_min: String,
    pub lat_max: String,
    pub lon_min: String,
    pub lon_max: String,
    pub directions: Vec<FlatDirection>,
}

pub struct FlatRouteView {
    pub tag: Seq<char>,
    pub title: Seq<char>,
    pub lat_min: Seq<char>,
    pub lat_max: Seq<char>,
    pub lon_min: Seq<char>,
    pub lon_max: Seq<char>,
    pub directions: Seq<FlatDirectionView>,
}

impl View for FlatRoute {
    type V = FlatRouteView;

    open spec fn view(&self) -> FlatRouteView {
        FlatRouteView {
            tag: self.tag@,
            title: self.title@,
            lat_min: self.lat_min@,
            lat_max: self.lat_max@,
            lon_min: self.lon_min@,
            lon_max: self.lon_max@,
            directions: self.directions@.map_values(|d: FlatDirection| d@),
        }
    }
}

pub open spec fn stop_views(s: Seq<Stop>) -> Seq<StopView> {
    s.map_values(|x: Stop| x@)
}

pub open spec fn flat_route_views(s: Seq<FlatRoute>) -> Seq<FlatRouteView> {
    s.map_values(|x: FlatRoute| x@)
}

/// Every route's stops, route after route, each route's in its own order.
pub open spec fn stop_table(routes: Seq<RouteView>) -> Seq<StopView>
    decreases routes.len(),
{
    if routes.len() == 0 {
        Seq::empty()
    } else {
        stop_table(routes.drop_last()) + routes.last().stops
    }
}

/// The stop that a tag names in a table: the last one with that tag, so that
/// a later route's stop wins over an earlier one's.
pub open spec fn lookup_stop(table: Seq<StopView>, tag: Seq<char>) -> Option<StopView>
    decreases table.len(),
{
    if table.len() == 0 {
        None
    } else if table.last().tag == tag {
        Some(table.last())
    } else {
        lookup_stop(table.drop_last(), tag)
    }
}

pub open spec fn resolves(table: Seq<StopView>, tag: Seq<char>) -> bool {
    lookup_stop(table, tag) is Some
}

pub open spec fn direction_resolves(table: Seq<StopView>, d: DirectionView) -> bool {
    forall|k: int| 0 <= k < d.stop_tags.len() ==> resolves(table, #[trigger] d.stop_tags[k])
}

pub open spec fn route_resolves(table: Seq<StopView>, r: RouteView) -> bool {
    forall|j: int| 0 <= j < r.directions.len() ==> direction_resolves(table, #[trigger] r.directions[j])
}

pub open spec fn routes_resolve(table: Seq<StopView>, routes: Seq<RouteView>) -> bool {
    forall|i: int| 0 <= i < routes.len() ==> route_resolves(table, #[trigger] routes[i])
}

/// `tag` is the first tag of `tags` that the table does not resolve.
pub open spec fn first_missing_tag(table: Seq<StopView>, tags: Seq<Seq<char>>, tag: Seq<char>) -> bool {
    exists|k: int|
        0 <= k < tags.len() && #[trigger] tags[k] == tag && !resolves(table, tag) && forall|m: int|
            0 <= m < k ==> resolves(table, #[trigger] tags[m])
}

/// `tag` is the first unresolved tag of the route, direction by direction.
pub open spec fn first_missing_in_route(table: Seq<StopView>, r: RouteView, tag: Seq<char>) -> bool {
    exists|j: int|
        0 <= j < r.directions.len() && first_missing_tag(table, #[trigger] r.directions[j].stop_tags, tag)
            && forall|m: int| 0 <= m < j ==> direction_resolves(table, #[trigger] r.directions[m])
}

/// `tag` is the first unresolved tag of the routes, route by route.
pub open spec fn first_missing_in_routes(table: Seq<StopView>, routes: Seq<RouteView>, tag: Seq<char>) -> bool {
    exists|i: int|
        0 <= i < routes.len() && first_missing_in_route(table, #[trigger] routes[i], tag) && forall|m: int|
            0 <= m < i ==> route_resolves(table, #[trigger] routes[m])
}

pub open spec fn flatten_direction(table: Seq<StopView>, d: DirectionView) -> FlatDirectionView {
    FlatDirectionView {
        tag: d.tag,
        title: d.title,
        name: d.name,
        use_for_ui: d.use_for_ui,
        stops: d.stop_tags.map_values(|t: Seq<char>| lookup_stop(table, t).unwrap()),
    }
}

pub open spec fn flatten_route(table: Seq<StopView>, r: RouteView) -> FlatRouteView {
    FlatRouteView {
        tag: r.tag,
        title: r.title,
        lat_min: r.lat_min,
        lat_max: r.lat_max,
        lon_min: r.lon_min,
        lon_max: r.lon_max,
        directions: r.directions.map_values(|d: DirectionView| flatten_direction(table, d)),
    }
}

/// The request for the configuration of a route: its stops and directions.
pub open spec fn stops_url(agency: Seq<char>, route: Seq<char>) -> Seq<char> {
    FEED_URL@ + "?command=routeConfig&a="@ + agency + "&r="@ + route
}

pub fn get_stops_url(agency: &String, route: &String) -> (r: String)
    ensures
        r@ == stops_url(agency@, route@),
{
    let mut url = String::from_str(FEED_URL);
    url.append("?command=routeConfig&a=");
    url.append(agency.as_str());
    url.append("&r=");
    url.append(route.as_str());
    url
}

/// Copies every route's stops into one table, route after route.
fn build_stop_table(routes: &Vec<Route>) -> (r: Vec<Stop>)
    ensures
        stop_views(r@) == stop_table(routes@.map_values(|x: Route| x@)),
{
    let ghost views = routes@.map_values(|x: Route| x@);
    let mut table: Vec<Stop> = Vec::new();
    let mut i: usize = 0;
    while i < routes.len()
        invariant
            i <= routes.len(),
            views == routes@.map_values(|x: Route| x@),
            stop_views(table@) == stop_table(views.subrange(0, i as int)),
        decreases routes.len() - i,
    {
        let stops = &routes[i].stops;
        let ghost start = stop_views(table@);
        let mut k: usize = 0;
        while k < stops.len()
            invariant
                k <= stops.len(),
                stop_views(table@) == start + stop_views(stops@).subrange(0, k as int),
            decreases stops.len() - k,
        {
            let ghost before = table@;
            let s = stops[k].duplicate();
            table.push(s);
            assert(stop_views(table@) =~= stop_views(before).push(stop_views(stops@)[k as int]));
            assert(stop_views(table@) =~= start + stop_views(stops@).subrange(0, k + 1));
            k = k + 1;
        }
        assert(stop_views(stops@).subrange(0, k as int) =~= stop_views(stops@));
        assert(views.subrange(0, i + 1).drop_last() =~= views.subrange(0, i as int));
        i = i + 1;
    }
    assert(views.subrange(0, i as int) =~= views);
    table
}

/// The stop that `tag` names in `table`, as `lookup_stop` gives it.
fn find_stop(table: &Vec<Stop>, tag: &String) -> (r: Option<Stop>)
    ensures
        match r {
            Some(s) => lookup_stop(stop_views(table@), tag@) == Some(s@),
            None => lookup_stop(stop_views(table@), tag@) is None,
        },
{
    let ghost views = stop_views(table@);
    let mut i: usize = table.len();
    assert(views.subrange(0, i as int) =~= views);
    while i > 0
        invariant
            i <= table.len(),
            views == stop_views(table@),
            lookup_stop(views, tag@) == lookup_stop(views.subrange(0, i as int), tag@),
        decreases i,
    {
        let ghost prefix = views.subrange(0, i as int);
        assert(prefix.last() == table@[i - 1]@);
        if table[i - 1].tag == *tag {
            return Some(table[i - 1].duplicate());
        }
        assert(prefix.drop_last() =~= views.subrange(0, i - 1));
        i = i - 1;
    }
    None
}

/// Resolves each stop tag of a direction, in order.
fn resolve_direction(table: &Vec<Stop>, d: &Direction) -> (r: Result<FlatDirection, FeedError>)
    ensures
        match r {
            Ok(f) => direction_resolves(stop_views(table@), d@) && f@ == flatten_direction(
                stop_views(table@),
                d@,
            ),
            Err(FeedError::MissingJoinKey(t)) => first_missing_tag(
                stop_views(table@),
                d@.stop_tags,
                t@,
            ),
            Err(_) => false,
        },
{
    let ghost views = stop_views(table@);
    let ghost tags = d@.stop_tags;
    let mut stops: Vec<Stop> = Vec::new();
    let mut k: usize = 0;
    while k < d.stop_tags.len()
        invariant
            k <= d.stop_tags.len(),
            views == stop_views(table@),
            tags == d@.stop_tags,
            stops@.len() == k,
            forall|m: int| 0 <= m < k ==> resolves(views, #[trigger] tags[m]),
            forall|m: int| 0 <= m < k ==> #[trigger] stops@[m]@ == lookup_stop(views, tags[m]).unwrap(),
        decreases d.stop_tags.len() - k,
    {
        assert(tags[k as int] == d.stop_tags@[k as int]@);
        match find_stop(table, &d.stop_tags[k]) {
            Some(s) => {
                stops.push(s);
            },
            None => {
                let missing = d.stop_tags[k].clone();
                assert(first_missing_tag(views, tags, missing@)) by {
                    assert(tags[k as int] == missing@);
                }
                return Err(FeedError::MissingJoinKey(missing));
            },
        }
        k = k + 1;
    }
    let f = FlatDirection {
        tag: d.tag.clone(),
        title: d.title.clone(),
        name: d.name.clone(),
        use_for_ui: d.use_for_ui,
        stops,
    };
    assert(f@.stops =~= flatten_direction(views, d@).stops);
    Ok(f)
}

/// Resolves each direction of a route, in order.
fn resolve_route(table: &Vec<Stop>, r: &Route) -> (res: Result<FlatRoute, FeedError>)
    ensures
        match res {
            Ok(f) => route_resolves(stop_views(table@), r@) && f@ == flatten_route(stop_views(table@), r@),
            Err(FeedError::MissingJoinKey(t)) => first_missing_in_route(stop_views(table@), r@, t@),
            Err(_) => false,
        },
{
    let ghost views = stop_views(table@);
    let ghost dirs = r@.directions;
    let mut flat: Vec<FlatDirection> = Vec::new();
    let mut j: usize = 0;
    while j < r.directions.len()
        invariant
            j <= r.directions.len(),
            views == stop_views(table@),
            dirs == r@.directions,
            flat@.len() == j,
            forall|m: int| 0 <= m < j ==> direction_resolves(views, #[trigger] dirs[m]),
            forall|m: int| 0 <= m < j ==> #[trigger] flat@[m]@ == flatten_direction(views, dirs[m]),
        decreases r.directions.len() - j,
    {
        assert(dirs[j as int] == r.directions@[j as int]@);
        match resolve_direction(table, &r.directions[j]) {
            Ok(f) => {
                flat.push(f);
            },
            Err(e) => {
                proof {
                    if e is MissingJoinKey {
                        let t = e->MissingJoinKey_0;
                        assert(first_missing_tag(views, dirs[j as int].stop_tags, t@));
                        assert(first_missing_in_route(views, r@, t@));
                    }
                }
                return Err(e);
            },
        }
        j = j + 1;
    }
    let f = FlatRoute {
        tag: r.tag.clone(),
        title: r.title.clone(),
        lat_min: r.lat_min.clone(),
        lat_max: r.lat_max.clone(),
        lon_min: r.lon_min.clone(),
        lon_max: r.lon_max.clone(),
        directions: flat,
    };
    assert(f@.directions =~= flatten_route(views, r@).directions);
    Ok(f)
}

proof fn lemma_missing_breaks_resolution(table: Seq<StopView>, routes: Seq<RouteView>, tag: Seq<char>)
    requires
        first_missing_in_routes(table, routes, tag),
    ensures
        !routes_resolve(table, routes),
{
    let i = choose|i: int|
        0 <= i < routes.len() && first_missing_in_route(table, #[trigger] routes[i], tag) && forall|m: int|
            0 <= m < i ==> route_resolves(table, #[trigger] routes[m]);
    let r = routes[i];
    let j = choose|j: int|
        0 <= j < r.directions.len() && first_missing_tag(table, #[trigger] r.directions[j].stop_tags, tag)
            && forall|m: int| 0 <= m < j ==> direction_resolves(table, #[trigger] r.directions[m]);
    let tags = r.directions[j].stop_tags;
    let k = choose|k: int|
        0 <= k < tags.len() && #[trigger] tags[k] == tag && !resolves(table, tag) && forall|m: int|
            0 <= m < k ==> resolves(table, #[trigger] tags[m]);
    assert(!direction_resolves(table, r.directions[j]));
    assert(!route_resolves(table, r));
}

/// Resolves the stop tags of every direction of every route against the
/// stops of the whole document. Each flattened direction lists the stops in
/// the order of its tags. A tag that no stop of the document has is an
/// error that names the first such tag.
pub fn flatten_routes(config: &RouteConfig) -> (res: Result<Vec<FlatRoute>, FeedError>)
    ensures
        res is Ok <==> routes_resolve(stop_table(config@), config@),
        match res {
            Ok(flat) => flat_route_views(flat@) == config@.map_values(
                |r: RouteView| flatten_route(stop_table(config@), r),
            ),
            Err(FeedError::MissingJoinKey(t)) => first_missing_in_routes(stop_table(config@), config@, t@),
            Err(_) => false,
        },
{
    let table = build_stop_table(&config.routes);
    let ghost views = stop_views(table@);
    let ghost routes = config@;
    let mut flat: Vec<FlatRoute> = Vec::new();
    let mut i: usize = 0;
    while i < config.routes.len()
        invariant
            i <= config.routes.len(),
            views == stop_views(table@),
            views == stop_table(routes),
            routes == config@,
            flat@.len() == i,
            forall|m: int| 0 <= m < i ==> route_resolves(views, #[trigger] routes[m]),
            forall|m: int| 0 <= m < i ==> #[trigger] flat@[m]@ == flatten_route(views, routes[m]),
        decreases config.routes.len() - i,
    {
        assert(routes[i as int] == config.routes@[i as int]@);
        match resolve_route(&table, &config.routes[i]) {
            Ok(f) => {
                flat.push(f);
            },
            Err(e) => {
                proof {
                    if e is MissingJoinKey {
                        let t = e->MissingJoinKey_0;
                        assert(first_missing_in_route(views, routes[i as int], t@));
                        assert(first_missing_in_routes(views, routes, t@));
                        lemma_missing_breaks_resolution(views, routes, t@);
                    }
                }
                return Err(e);
            },
        }
        i = i + 1;
    }
    assert(flat_route_views(flat@) =~= routes.map_values(|r: RouteView| flatten_route(views, r)));
    Ok(flat)
}

/// The concatenation of a sequence of tag lists, in order.
pub open spec fn joined(parts: Seq<Seq<Seq<char>>>) -> Seq<Seq<char>>
    decreases parts.len(),
{
    if parts.len() == 0 {
        Seq::empty()
    } else {
        joined(parts.drop_last()) + parts.last()
    }
}

/// The tags of a flattened route's stops, direction after direction.
pub open spec fn route_stop_tags(r: FlatRouteView) -> Seq<Seq<char>> {
    joined(r.directions.map_values(|d: FlatDirectionView| d.stops.map_values(|s: StopView| s.tag)))
}

/// The tags of the stops of flattened routes, route after route.
pub open spec fn all_stop_tags(routes: Seq<FlatRouteView>) -> Seq<Seq<char>> {
    joined(routes.map_values(|r: FlatRouteView| route_stop_tags(r)))
}

/// Appends the tags of a flattened direction's stops to `out`.
fn push_direction_tags(out: &mut Vec<String>, d: &FlatDirection)
    ensures
        texts(final(out)@) == texts(old(out)@) + d@.stops.map_values(|s: StopView| s.tag),
{
    let ghost start = texts(out@);
    let ghost tags = d@.stops.map_values(|s: StopView| s.tag);
    let mut k: usize = 0;
    while k < d.stops.len()
        invariant
            k <= d.stops.len(),
            tags == d@.stops.map_values(|s: StopView| s.tag),
            texts(out@) == start + tags.subrange(0, k as int),
        decreases d.stops.len() - k,
    {
        let ghost before = out@;
        let t = d.stops[k].tag.clone();
        assert(t@ == tags[k as int]);
        out.push(t);
        assert(texts(out@) =~= texts(before).push(tags[k as int]));
        assert(texts(out@) =~= start + tags.subrange(0, k + 1));
        k = k + 1;
    }
    assert(tags.subrange(0, k as int) =~= tags);
}

/// Appends the tags of a flattened route's stops to `out`.
fn push_route_tags(out: &mut Vec<String>, r: &FlatRoute)
    ensures
        texts(final(out)@) == texts(old(out)@) + route_stop_tags(r@),
{
    let ghost start = texts(out@);
    let ghost parts = r@.directions.map_values(|d: FlatDirectionView| d.stops.map_values(|s: StopView| s.tag));
    let mut j: usize = 0;
    assert(parts.subrange(0, 0) =~= Seq::<Seq<Seq<char>>>::empty());
    assert(start + joined(parts.subrange(0, 0)) =~= start);
    while j < r.directions.len()
        invariant
            j <= r.directions.len(),
            parts == r@.directions.map_values(|d: FlatDirectionView| d.stops.map_values(|s: StopView| s.tag)),
            texts(out@) == start + joined(parts.subrange(0, j as int)),
        decreases r.directions.len() - j,
    {
        assert(parts[j as int] == r.directions@[j as int]@.stops.map_values(|s: StopView| s.tag));
        push_direction_tags(out, &r.directions[j]);
        assert(parts.subrange(0, j + 1).drop_last() =~= parts.subrange(0, j as int));
        assert(texts(out@) =~= start + joined(parts.subrange(0, j + 1)));
        j = j + 1;
    }
    assert(parts.subrange(0, j as int) =~= parts);
}

/// The stop tags that flattened routes serve, each once, in ascending order:
/// the default stops of a predictions request.
pub fn get_stop_tags(routes: &Vec<FlatRoute>) -> (r: Vec<String>)
    ensures
        sorted_set_of(texts(r@), all_stop_tags(flat_route_views(routes@)).to_set()),
{
    let ghost views = flat_route_views(routes@);
    let ghost parts = views.map_values(|r: FlatRouteView| route_stop_tags(r));
    let mut tags: Vec<String> = Vec::new();
    let mut i: usize = 0;
    assert(joined(parts.subrange(0, 0)) =~= texts(tags@));
    while i < routes.len()
        invariant
            i <= routes.len(),
            views == flat_route_views(routes@),
            parts == views.map_values(|r: FlatRouteView| route_stop_tags(r)),
            texts(tags@) == joined(parts.subrange(0, i as int)),
        decreases routes.len() - i,
    {
        assert(parts[i as int] == route_stop_tags(routes@[i as int]@));
        push_route_tags(&mut tags, &routes[i]);
        assert(parts.subrange(0, i + 1).drop_last() =~= parts.subrange(0, i as int));
        i = i + 1;
    }
    assert(parts.subrange(0, i as int) =~= parts);
    sorted_unique(&tags)
}

proof fn lemma_lookup_has_tag(table: Seq<StopView>, tag: Seq<char>)
    requires
        resolves(table, tag),
    ensures
        lookup_stop(table, tag).unwrap().tag == tag,
    decreases table.len(),
{
    if table.last().tag != tag {
        lemma_lookup_has_tag(table.drop_last(), tag);
    }
}

/// Flattening keeps a direction's stop order: the k-th stop of the flattened
/// direction is the stop that the k-th tag names, never a re-sorted list.
pub proof fn lemma_flatten_keeps_stop_order(table: Seq<StopView>, d: DirectionView)
    requires
        direction_resolves(table, d),
    ensures
        flatten_direction(table, d).stops.len() == d.stop_tags.len(),
        forall|k: int|
            0 <= k < d.stop_tags.len() ==> (#[trigger] flatten_direction(table, d).stops[k]).tag
                == d.stop_tags[k] && flatten_direction(table, d).stops[k] == lookup_stop(
                table,
                d.stop_tags[k],
            ).unwrap(),
{
    assert forall|k: int| 0 <= k < d.stop_tags.len() implies (#[trigger] flatten_direction(
        table,
        d,
    ).stops[k]).tag == d.stop_tags[k] by {
        lemma_lookup_has_tag(table, d.stop_tags[k]);
    }
}

/// The default stops do not depend on the order of the tags nor on their
/// repetitions: two tag lists with the same tags aggregate to the same list.
pub proof fn lemma_stop_tags_order_independent(
    a: Seq<Seq<char>>,
    b: Seq<Seq<char>>,
    ra: Seq<Seq<char>>,
    rb: Seq<Seq<char>>,
)
    requires
        a.to_set() == b.to_set(),
        sorted_set_of(ra, a.to_set()),
        sorted_set_of(rb, b.to_set()),
    ensures
        ra == rb,
{
    lemma_sorted_set_unique(ra, rb, a.to_set());
}

/// Aggregating the default stops is idempotent: aggregating an aggregated
/// list gives that list back.
pub proof fn lemma_stop_tags_idempotent(s: Set<Seq<char>>, r: Seq<Seq<char>>, again: Seq<Seq<char>>)
    requires
        sorted_set_of(r, s),
        sorted_set_of(again, r.to_set()),
    ensures
        again == r,
{
    lemma_sorted_set_unique(again, r, r.to_set());
}

} // verus!
