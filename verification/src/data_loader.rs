//! The loaded dataset: departments, stops and routes, and simple queries
//! over them.

use vstd::prelude::*;
use crate::geometry::GeoPoint;
use crate::model::{
    BusStop, Department, GeoJsonCrs, GeoJsonCrsProperties, GeoJsonFeatureCollection,
    GeoJsonGeometry, Route, RouteProperties, RouteSubtype,
};
use crate::route_index::stops_of;

verus! {

/// Holds the three collections of a dataset.
pub struct DataLoader {
    pub data_dir: String,
    pub departments: GeoJsonFeatureCollection<Department>,
    pub bus_stops: GeoJsonFeatureCollection<BusStop>,
    pub routes: GeoJsonFeatureCollection<Route>,
}

/// A collection without a name and without features.
pub fn empty_collection<T>() -> (r: GeoJsonFeatureCollection<T>)
    ensures
        r.kind@.len() == 0,
        r.name@.len() == 0,
        r.crs.kind@.len() == 0,
        r.crs.properties.name@.len() == 0,
        r.features@.len() == 0,
{
    GeoJsonFeatureCollection {
        kind: String::new(),
        name: String::new(),
        crs: GeoJsonCrs { kind: String::new(), properties: GeoJsonCrsProperties { name: String::new() } },
        features: Vec::new(),
    }
}

/// Those of the first `k` routes that belong to `department`, in order.
pub open spec fn routes_in_department(routes: Seq<Route>, department: Seq<char>, k: int) -> Seq<Route>
    decreases k,
{
    if k <= 0 {
        Seq::empty()
    } else if routes[k - 1].properties.department@ == department {
        routes_in_department(routes, department, k - 1).push(routes[k - 1])
    } else {
        routes_in_department(routes, department, k - 1)
    }
}

/// The properties of those of the first `k` routes that run between
/// departments, in order.
pub open spec fn interdepartmental_among(routes: Seq<Route>, k: int) -> Seq<RouteProperties>
    decreases k,
{
    if k <= 0 {
        Seq::empty()
    } else if routes[k - 1].properties.subtype == RouteSubtype::Interdepartmental {
        interdepartmental_among(routes, k - 1).push(routes[k - 1].properties)
    } else {
        interdepartmental_among(routes, k - 1)
    }
}

/// The subtype that the text of a route's record names: between departments
/// for `INTERDEPARTAMENTAL`, between towns for `INTERURBANO`, and within a
/// town for any other text and for none.
pub open spec fn subtype_spec(text: Option<String>) -> RouteSubtype {
    match text {
        Some(t) => if t@ == "INTERDEPARTAMENTAL"@ {
            RouteSubtype::Interdepartmental
        } else if t@ == "INTERURBANO"@ {
            RouteSubtype::Interurban
        } else {
            RouteSubtype::Urban
        },
        None => RouteSubtype::Urban,
    }
}

/// The subtype that the text of a route's record names.
pub fn subtype_of(text: &Option<String>) -> (r: RouteSubtype)
    ensures
        r == subtype_spec(*text),
{
    match text {
        Some(t) => {
            if *t == String::from_str("INTERDEPARTAMENTAL") {
                RouteSubtype::Interdepartmental
            } else if *t == String::from_str("INTERURBANO") {
                RouteSubtype::Interurban
            } else {
                RouteSubtype::Urban
            }
        },
        None => RouteSubtype::Urban,
    }
}

/// The characters of a text, none for no text.
pub open spec fn text_or_empty(text: Option<String>) -> Seq<char> {
    match text {
        Some(t) => t@,
        None => Seq::empty(),
    }
}

/// The text, or the empty text for none.
pub fn or_empty(text: Option<String>) -> (r: String)
    ensures
        r@ == text_or_empty(text),
        text matches Some(t) ==> r == t,
{
    match text {
        Some(t) => t,
        None => String::new(),
    }
}

/// The stop of a record: none without a route code, and none without a
/// location.
pub open spec fn stop_spec(
    route_code: Option<String>,
    location: Option<GeoPoint>,
    name: Option<String>,
) -> Option<BusStop> {
    match (route_code, location) {
        (Some(code), Some(at)) => Some(BusStop { route_code: code, location: at, name }),
        _ => None,
    }
}

/// The stop of a record that names its route and has a location; records
/// without either are left out of the dataset.
pub fn stop_from_record(
    route_code: Option<String>,
    location: Option<GeoPoint>,
    name: Option<String>,
) -> (r: Option<BusStop>)
    ensures
        r == stop_spec(route_code, location, name),
{
    match (route_code, location) {
        (Some(code), Some(at)) => Some(BusStop { route_code: code, location: at, name }),
        _ => None,
    }
}

/// The route of a record that has a code, with the empty text for a missing
/// name or department; records without a code are left out of the dataset.
pub fn route_from_record(
    code: Option<String>,
    name: Option<String>,
    department: Option<String>,
    subtype: &Option<String>,
    geometry: GeoJsonGeometry,
) -> (r: Option<Route>)
    ensures
        r is Some <==> code is Some,
        r matches Some(route) ==> route.properties.code == code->0 && route.properties.name@
            == text_or_empty(name) && route.properties.department@ == text_or_empty(department)
            && route.properties.subtype == subtype_spec(*subtype) && route.geometry == geometry,
{
    match code {
        Some(code) => Some(
            Route {
                properties: RouteProperties {
                    code,
                    name: or_empty(name),
                    department: or_empty(department),
                    subtype: subtype_of(subtype),
                },
                geometry,
            },
        ),
        None => None,
    }
}

/// The features of the first `k` of `parts`, one part after the other.
pub open spec fn all_features(parts: Seq<GeoJsonFeatureCollection<Route>>, k: int) -> Seq<Route>
    decreases k,
{
    if k <= 0 {
        Seq::empty()
    } else {
        all_features(parts, k - 1) + parts[k - 1].features@
    }
}

impl DataLoader {
    /// Takes a whole dataset: the departments, the stops, and the routes of
    /// all `route_files` together, in the order of the files.
    pub fn load_all(
        &mut self,
        departments: GeoJsonFeatureCollection<Department>,
        bus_stops: GeoJsonFeatureCollection<BusStop>,
        route_files: Vec<GeoJsonFeatureCollection<Route>>,
    )
        ensures
            final(self).data_dir == old(self).data_dir,
            final(self).departments == departments,
            final(self).bus_stops == bus_stops,
            final(self).routes.features@ == all_features(route_files@, route_files@.len() as int),
            final(self).routes.name@.len() == 0,
    {
        let mut routes: GeoJsonFeatureCollection<Route> = empty_collection();
        let ghost parts = route_files@;
        let count: usize = route_files.len();
        let mut files = route_files;
        let mut rest: Vec<GeoJsonFeatureCollection<Route>> = Vec::new();
        // turn the files round, so that they can be taken off the end in order
        while files.len() > 0
            invariant
                files@.len() + rest@.len() == parts.len(),
                forall|i: int| 0 <= i < files@.len() ==> #[trigger] files@[i] == parts[i],
                forall|i: int|
                    0 <= i < rest@.len() ==> #[trigger] rest@[i] == parts[parts.len() - 1 - i],
            decreases files@.len(),
        {
            match files.pop() {
                Some(part) => {
                    rest.push(part);
                },
                None => {},
            }
        }
        let mut k: usize = 0;
        while rest.len() > 0
            invariant
                parts.len() == count,
                k + rest@.len() == parts.len(),
                forall|i: int|
                    0 <= i < rest@.len() ==> #[trigger] rest@[i] == parts[parts.len() - 1 - i],
                routes.features@ == all_features(parts, k as int),
                routes.name@.len() == 0,
            decreases rest@.len(),
        {
            match rest.pop() {
                Some(part) => {
                    let mut part = part;
                    assert(part == parts[k as int]);
                    routes.features.append(&mut part.features);
                },
                None => {},
            }
            k = k + 1;
        }
        self.departments = departments;
        self.bus_stops = bus_stops;
        self.routes = routes;
    }

    /// A loader for the dataset under `data_dir`, with nothing loaded yet.
    pub fn new(data_dir: &str) -> (r: Self)
        ensures
            r.data_dir@ == data_dir@,
            r.departments.features@.len() == 0,
            r.bus_stops.features@.len() == 0,
            r.routes.features@.len() == 0,
    {
        DataLoader {
            data_dir: data_dir.to_owned(),
            departments: empty_collection(),
            bus_stops: empty_collection(),
            routes: empty_collection(),
        }
    }

    /// The departments loaded.
    pub fn departments(&self) -> (r: &GeoJsonFeatureCollection<Department>)
        ensures
            *r == self.departments,
    {
        &self.departments
    }

    /// The stops loaded.
    pub fn bus_stops(&self) -> (r: &GeoJsonFeatureCollection<BusStop>)
        ensures
            *r == self.bus_stops,
    {
        &self.bus_stops
    }

    /// The routes loaded.
    pub fn routes(&self) -> (r: &GeoJsonFeatureCollection<Route>)
        ensures
            *r == self.routes,
    {
        &self.routes
    }

    /// The routes that belong to `department`, in order.
    pub fn find_routes_by_department(&self, department: &str) -> (r: Vec<&Route>)
        ensures
            r@.map_values(|x: &Route| *x) == routes_in_department(
                self.routes.features@,
                department@,
                self.routes.features@.len() as int,
            ),
    {
        let wanted: String = department.to_owned();
        let features = &self.routes.features;
        let mut out: Vec<&Route> = Vec::new();
        let mut k: usize = 0;
        assert(out@.map_values(|x: &Route| *x) =~= routes_in_department(features@, department@, 0));
        while k < features.len()
            invariant
                k <= features.len(),
                wanted@ == department@,
                out@.map_values(|x: &Route| *x) == routes_in_department(
                    features@,
                    department@,
                    k as int,
                ),
            decreases features.len() - k,
        {
            let ghost before = out@.map_values(|x: &Route| *x);
            if features[k].properties.department == wanted {
                out.push(&features[k]);
                assert(out@.map_values(|x: &Route| *x) =~= before.push(features@[k as int]));
            }
            k = k + 1;
        }
        out
    }

    /// The stops that belong to the route `route_code`, in order.
    pub fn find_stops_by_route(&self, route_code: &str) -> (r: Vec<&BusStop>)
        ensures
            r@.map_values(|x: &BusStop| *x) == stops_of(
                self.bus_stops.features@,
                route_code@,
                self.bus_stops.features@.len() as int,
            ),
    {
        let wanted: String = route_code.to_owned();
        let features = &self.bus_stops.features;
        let mut out: Vec<&BusStop> = Vec::new();
        let mut k: usize = 0;
        assert(out@.map_values(|x: &BusStop| *x) =~= stops_of(features@, route_code@, 0));
        while k < features.len()
            invariant
                k <= features.len(),
                wanted@ == route_code@,
                out@.map_values(|x: &BusStop| *x) == stops_of(
                    features@,
                    route_code@,
                    k as int,
                ),
            decreases features.len() - k,
        {
            let ghost before = out@.map_values(|x: &BusStop| *x);
            if features[k].route_code == wanted {
                out.push(&features[k]);
                assert(out@.map_values(|x: &BusStop| *x) =~= before.push(features@[k as int]));
            }
            k = k + 1;
        }
        out
    }

    /// The properties of the routes that run between departments, in order.
    pub fn find_interdepartmental_routes(&self) -> (r: Vec<&RouteProperties>)
        ensures
            r@.map_values(|x: &RouteProperties| *x) == interdepartmental_among(
                self.routes.features@,
                self.routes.features@.len() as int,
            ),
    {
        let features = &self.routes.features;
        let mut out: Vec<&RouteProperties> = Vec::new();
        let mut k: usize = 0;
        assert(out@.map_values(|x: &RouteProperties| *x) =~= interdepartmental_among(features@, 0));
        while k < features.len()
            invariant
                k <= features.len(),
                out@.map_values(|x: &RouteProperties| *x) == interdepartmental_among(
                    features@,
                    k as int,
                ),
            decreases features.len() - k,
        {
            let ghost before = out@.map_values(|x: &RouteProperties| *x);
            if features[k].properties.subtype == RouteSubtype::Interdepartmental {
                out.push(&features[k].properties);
                assert(out@.map_values(|x: &RouteProperties| *x) =~= before.push(
                    features@[k as int].properties,
                ));
            }
            k = k + 1;
        }
        out
    }
}

} // verus!
