use vstd::prelude::*;

use crate::client::{Contents, FEED_URL};
use crate::text::texts;

verus! {

/// The route-list document of an agency.
pub struct Routes {
    pub routes: Vec<Route>,
}

/// A route as the route list names it.
pub struct Route {
    pub tag: String,
    pub title: String,
}

impl Contents for Routes {
    open spec fn holds_no_records(&self) -> bool {
        self.routes@.len() == 0
    }

    fn is_empty(&self) -> (r: bool) {
        self.routes.len() == 0
    }
}

/// The request for the routes of an agency.
pub open spec fn routes_url(agency: Seq<char>) -> Seq<char> {
    FEED_URL@ + "?command=routeList&a="@ + agency
}

pub fn get_routes_url(agency: &String) -> (r: String)
    ensures
        r@ == routes_url(agency@),
{
    let mut url = String::from_str(FEED_URL);
    url.append("?command=routeList&a=");
    url.append(agency.as_str());
    url
}

/// The tags of the routes of a route list, in its order.
pub fn get_route_tags(route_list: &Routes) -> (r: Vec<String>)
    ensures
        texts(r@) == route_list.routes@.map_values(|x: Route| x.tag@),
{
    let mut tags: Vec<String> = Vec::new();
    let mut i: usize = 0;
    while i < route_list.routes.len()
        invariant
            i <= route_list.routes.len(),
            texts(tags@) == route_list.routes@.subrange(0, i as int).map_values(|x: Route| x.tag@),
        decreases route_list.routes.len() - i,
    {
        let ghost before = tags@;
        tags.push(route_list.routes[i].tag.clone());
        assert(texts(tags@) =~= texts(before).push(route_list.routes@[i as int].tag@));
        assert(route_list.routes@.subrange(0, i + 1).map_values(|x: Route| x.tag@) =~= route_list.routes@.subrange(
            0,
            i as int,
        ).map_values(|x: Route| x.tag@).push(route_list.routes@[i as int].tag@));
        i = i + 1;
    }
    assert(route_list.routes@.subrange(0, i as int) =~= route_list.routes@);
    tags
}

} // verus!
