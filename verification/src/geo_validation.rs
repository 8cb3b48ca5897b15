//! Which department a point lies in, and how near it is to one.

use vstd::prelude::*;
use crate::errors::ValidationError;
use crate::geometry::{
    coords, isqrt, isqrt_spec, lemma_isqrt_within_globe, min_int, strictly_within, within,
    GeoPoint, MAX_DIST, MAX_DIST_SQ, NO_DISTANCE,
};
use crate::model::{clone_points, Department, GeoJsonFeatureCollection, GeoJsonGeometry, Route};
use crate::polygon::{boundary_dist_sq_spec, shape_contains, Polygon, Shape};
use crate::route_index::line_of;

verus! {

/// A point outside every department but less than this far from one, in
/// micro-degrees, is taken as near the edge (about 1 km).
pub const NEAR_BOUNDARY_THRESHOLD: u64 = 10_000;

/// Whether a position, in micro-degrees, lies in the rectangle from 13.0 to
/// 14.5 degrees north and from 90.2 to 87.5 degrees west, which holds the
/// country.
pub open spec fn in_country_bounds(lat: int, lng: int) -> bool {
    13_000_000 <= lat <= 14_500_000 && -90_200_000 <= lng <= -87_500_000
}

/// Whether a position, in micro-degrees, lies in the rectangle that holds
/// the country.
pub fn is_valid_coordinates(lat: i64, lng: i64) -> (r: bool)
    ensures
        r == in_country_bounds(lat as int, lng as int),
{
    lat >= 13_000_000 && lat <= 14_500_000 && lng >= -90_200_000 && lng <= -87_500_000
}

/// A department with its area as polygons.
#[derive(Debug)]
pub struct DepartmentBoundary {
    pub name: String,
    pub boundary: Vec<Polygon>,
}

/// A department boundary as a mathematical value.
pub struct BoundaryView {
    pub name: String,
    pub shapes: Seq<Shape>,
}

impl View for DepartmentBoundary {
    type V = BoundaryView;

    open spec fn view(&self) -> BoundaryView {
        BoundaryView { name: self.name, shapes: self.boundary@.map_values(|p: Polygon| p@) }
    }
}

/// Classifies points by the department that contains them.
pub struct GeoValidator {
    departments: Vec<DepartmentBoundary>,
}

/// What the validation of an origin and a destination found.
#[derive(Debug)]
pub struct ValidationResult {
    pub is_valid: bool,
    pub origin_department: Option<String>,
    pub destination_department: Option<String>,
    pub is_interdepartmental: bool,
    /// Distance from the origin to the nearest ring of any department,
    /// rounded down, whether the origin lies inside a department or not.
    pub distance_to_boundary: u64,
}

/// The vertices of a list of rings.
pub open spec fn ring_views(rings: Seq<Vec<GeoPoint>>) -> Seq<Seq<GeoPoint>> {
    rings.map_values(|r: Vec<GeoPoint>| r@)
}

/// The polygon with the first of `rings` as its outer ring and the others
/// as its holes (for at least one ring).
pub open spec fn shape_of_rings(rings: Seq<Seq<GeoPoint>>) -> Shape {
    Shape { exterior: rings[0], interiors: rings.skip(1) }
}

/// The polygons among the first `k` of `polys`: one for each that has a
/// ring.
pub open spec fn multi_shapes(polys: Seq<Vec<Vec<GeoPoint>>>, k: int) -> Seq<Shape>
    decreases k,
{
    if k <= 0 {
        Seq::empty()
    } else if polys[k - 1]@.len() == 0 {
        multi_shapes(polys, k - 1)
    } else {
        multi_shapes(polys, k - 1).push(shape_of_rings(ring_views(polys[k - 1]@)))
    }
}

/// The polygons of a geometry: that of a polygon, those of a multi-polygon,
/// none of anything else.
pub open spec fn shapes_of(g: GeoJsonGeometry) -> Seq<Shape> {
    match g {
        GeoJsonGeometry::Polygon { coordinates } => if coordinates@.len() == 0 {
            Seq::empty()
        } else {
            seq![shape_of_rings(ring_views(coordinates@))]
        },
        GeoJsonGeometry::MultiPolygon { coordinates } => multi_shapes(
            coordinates@,
            coordinates@.len() as int,
        ),
        _ => Seq::empty(),
    }
}

/// Whether one of `shapes` contains `p`.
pub open spec fn shapes_contain(shapes: Seq<Shape>, p: (int, int)) -> bool {
    exists|k: int| 0 <= k < shapes.len() && shape_contains(#[trigger] shapes[k], p)
}

/// Least squared distance from `p` to the boundaries of the first `k` of
/// `shapes`; `NO_DISTANCE` where there is none to measure to.
pub open spec fn shapes_boundary_dist_sq(shapes: Seq<Shape>, p: (int, int), k: int) -> int
    decreases k,
{
    if k <= 0 {
        NO_DISTANCE as int
    } else {
        min_int(shapes_boundary_dist_sq(shapes, p, k - 1), boundary_dist_sq_spec(shapes[k - 1], p))
    }
}

/// Squared distance from `p` to the boundary of a department: to the
/// nearest of its rings, wherever `p` lies.
pub open spec fn department_boundary_dist_sq(d: BoundaryView, p: (int, int)) -> int {
    shapes_boundary_dist_sq(d.shapes, p, d.shapes.len() as int)
}

/// Squared distance from `p` to the area of a department: nothing inside
/// it, else the distance to its boundary.
pub open spec fn department_area_dist_sq(d: BoundaryView, p: (int, int)) -> int {
    if shapes_contain(d.shapes, p) {
        0
    } else {
        department_boundary_dist_sq(d, p)
    }
}

/// `i` is the first department that contains `p`.
pub open spec fn is_first_containing(ds: Seq<BoundaryView>, p: (int, int), i: int) -> bool {
    &&& 0 <= i < ds.len()
    &&& shapes_contain(ds[i].shapes, p)
    &&& forall|j: int| 0 <= j < i ==> !shapes_contain((#[trigger] ds[j]).shapes, p)
}

/// The first department that contains `p`.
pub open spec fn first_containing(ds: Seq<BoundaryView>, p: (int, int)) -> Option<int> {
    if exists|i: int| is_first_containing(ds, p, i) {
        Some(choose|i: int| is_first_containing(ds, p, i))
    } else {
        None
    }
}

/// Least squared distance from `p` to the boundaries of the first `k`
/// departments; `NO_DISTANCE` where there is none to measure to.
pub open spec fn nearest_boundary_dist_sq(ds: Seq<BoundaryView>, p: (int, int), k: int) -> int
    decreases k,
{
    if k <= 0 {
        NO_DISTANCE as int
    } else {
        min_int(nearest_boundary_dist_sq(ds, p, k - 1), department_boundary_dist_sq(ds[k - 1], p))
    }
}

/// The distance that belongs to a squared distance: its root rounded down,
/// and `NO_DISTANCE` for `NO_DISTANCE`.
pub open spec fn root_or_none(d_sq: int) -> int {
    if d_sq == NO_DISTANCE {
        NO_DISTANCE as int
    } else {
        isqrt_spec(d_sq)
    }
}

/// What a point is taken for: the department that contains it; near the
/// edge where none does but a boundary is less than `threshold` away; else
/// outside the country.
pub open spec fn classify_spec(containing: Option<String>, nearest_sq: int, threshold: int) -> Result<
    Option<String>,
    ValidationError,
> {
    match containing {
        Some(name) => Ok(Some(name)),
        None => if nearest_sq != NO_DISTANCE && nearest_sq < threshold * threshold {
            Ok(None)
        } else {
            Err(ValidationError::OutsideCountry)
        },
    }
}

/// What `validate_point` returns for `p` among the departments `ds`.
pub open spec fn validate_point_spec(ds: Seq<BoundaryView>, p: (int, int)) -> Result<
    Option<String>,
    ValidationError,
> {
    classify_spec(
        match first_containing(ds, p) {
            Some(i) => Some(ds[i].name),
            None => None,
        },
        nearest_boundary_dist_sq(ds, p, ds.len() as int),
        NEAR_BOUNDARY_THRESHOLD as int,
    )
}

/// What a point is taken for, given the department that contains it and the
/// squared distance to the nearest boundary.
pub fn classify_point(containing: Option<String>, nearest_sq: u64, threshold: u64) -> (r: Result<
    Option<String>,
    ValidationError,
>)
    ensures
        r == classify_spec(containing, nearest_sq as int, threshold as int),
{
    match containing {
        Some(name) => Ok(Some(name)),
        None => {
            if nearest_sq != NO_DISTANCE && strictly_within(nearest_sq, threshold) {
                Ok(None)
            } else {
                Err(ValidationError::OutsideCountry)
            }
        },
    }
}

/// The distance that belongs to a squared distance.
pub fn root_of(d_sq: u64) -> (r: u64)
    ensures
        r == root_or_none(d_sq as int),
        d_sq <= MAX_DIST_SQ ==> r <= MAX_DIST,
{
    if d_sq == NO_DISTANCE {
        NO_DISTANCE
    } else {
        let r: u64 = isqrt(d_sq);
        proof {
            if d_sq <= MAX_DIST_SQ {
                lemma_isqrt_within_globe(d_sq as int, r as int);
            }
        }
        r
    }
}

/// The polygon with the first of `rings` as its outer ring and the others
/// as its holes.
pub fn make_polygon(rings: &Vec<Vec<GeoPoint>>) -> (r: Polygon)
    requires
        rings@.len() > 0,
    ensures
        r@ == shape_of_rings(ring_views(rings@)),
{
    let exterior: Vec<GeoPoint> = clone_points(&rings[0]);
    let mut interiors: Vec<Vec<GeoPoint>> = Vec::new();
    let mut k: usize = 1;
    while k < rings.len()
        invariant
            1 <= k <= rings.len(),
            interiors@.len() == k - 1,
            forall|j: int| 0 <= j < k - 1 ==> (#[trigger] interiors@[j])@ == rings@[j + 1]@,
        decreases rings.len() - k,
    {
        interiors.push(clone_points(&rings[k]));
        k = k + 1;
    }
    let out: Polygon = Polygon { exterior, interiors };
    assert(out@.interiors =~= ring_views(rings@).skip(1));
    out
}

/// The views of a list of polygons.
pub open spec fn shape_views(polys: Seq<Polygon>) -> Seq<Shape> {
    polys.map_values(|p: Polygon| p@)
}

/// The polygons of a geometry.
pub fn boundary_of(g: &GeoJsonGeometry) -> (r: Vec<Polygon>)
    ensures
        shape_views(r@) == shapes_of(*g),
{
    let mut out: Vec<Polygon> = Vec::new();
    match g {
        GeoJsonGeometry::Polygon { coordinates } => {
            if coordinates.len() > 0 {
                out.push(make_polygon(coordinates));
            }
            assert(shape_views(out@) =~= shapes_of(*g));
        },
        GeoJsonGeometry::MultiPolygon { coordinates } => {
            let mut k: usize = 0;
            assert(shape_views(out@) =~= multi_shapes(coordinates@, 0));
            while k < coordinates.len()
                invariant
                    k <= coordinates.len(),
                    shape_views(out@) == multi_shapes(coordinates@, k as int),
                decreases coordinates.len() - k,
            {
                let ghost before = shape_views(out@);
                if coordinates[k].len() > 0 {
                    let poly: Polygon = make_polygon(&coordinates[k]);
                    out.push(poly);
                    assert(shape_views(out@) =~= before.push(poly@));
                }
                k = k + 1;
            }
        },
        _ => {
            assert(shape_views(out@) =~= shapes_of(*g));
        },
    }
    out
}

/// The views of a list of department boundaries.
pub open spec fn boundary_views(ds: Seq<DepartmentBoundary>) -> Seq<BoundaryView> {
    ds.map_values(|d: DepartmentBoundary| d@)
}

/// Whether one of `polys` contains `p`.
pub fn any_contains(polys: &Vec<Polygon>, p: GeoPoint) -> (r: bool)
    ensures
        r == shapes_contain(shape_views(polys@), p@),
{
    let mut k: usize = 0;
    while k < polys.len()
        invariant
            k <= polys.len(),
            forall|j: int| 0 <= j < k ==> !shape_contains(#[trigger] shape_views(polys@)[j], p@),
        decreases polys.len() - k,
    {
        if polys[k].contains(p) {
            assert(shape_contains(shape_views(polys@)[k as int], p@));
            return true;
        }
        k = k + 1;
    }
    false
}

/// Squared distance from `p` to the area of `polys`: nothing where one of
/// them contains `p`, else the distance to the nearest boundary.
pub fn area_dist_sq(polys: &Vec<Polygon>, p: GeoPoint) -> (r: u64)
    ensures
        r == if shapes_contain(shape_views(polys@), p@) {
            0
        } else {
            shapes_boundary_dist_sq(shape_views(polys@), p@, polys@.len() as int)
        },
        r <= MAX_DIST_SQ || r == NO_DISTANCE,
{
    if any_contains(polys, p) {
        0
    } else {
        boundary_dist_sq(polys, p)
    }
}

/// Least squared distance from `p` to the boundaries of `polys`.
pub fn boundary_dist_sq(polys: &Vec<Polygon>, p: GeoPoint) -> (r: u64)
    ensures
        r == shapes_boundary_dist_sq(shape_views(polys@), p@, polys@.len() as int),
        r <= MAX_DIST_SQ || r == NO_DISTANCE,
{
    let mut best: u64 = NO_DISTANCE;
    let mut k: usize = 0;
    while k < polys.len()
        invariant
            k <= polys.len(),
            best == shapes_boundary_dist_sq(shape_views(polys@), p@, k as int),
            best <= MAX_DIST_SQ || best == NO_DISTANCE,
        decreases polys.len() - k,
    {
        let d: u64 = polys[k].boundary_dist_sq(p);
        if d < best {
            best = d;
        }
        k = k + 1;
    }
    best
}

impl GeoValidator {
    /// The departments held, in order.
    pub closed spec fn boundaries(&self) -> Seq<BoundaryView> {
        boundary_views(self.departments@)
    }

    /// The validator for the departments of `department_collection`, each
    /// with the polygons of its geometry.
    pub fn new(department_collection: &GeoJsonFeatureCollection<Department>) -> (r: Self)
        ensures
            r.boundaries().len() == department_collection.features@.len(),
            forall|i: int|
                0 <= i < r.boundaries().len() ==> (#[trigger] r.boundaries()[i]).name
                    == department_collection.features@[i].name && r.boundaries()[i].shapes
                    == shapes_of(department_collection.features@[i].geometry),
    {
        let mut out: Vec<DepartmentBoundary> = Vec::new();
        let mut k: usize = 0;
        let features = &department_collection.features;
        while k < features.len()
            invariant
                k <= features.len(),
                out@.len() == k,
                forall|i: int|
                    0 <= i < k ==> (#[trigger] out@[i])@.name == features@[i].name && out@[i]@.shapes
                        == shapes_of(features@[i].geometry),
            decreases features.len() - k,
        {
            let boundary: Vec<Polygon> = boundary_of(&features[k].geometry);
            out.push(DepartmentBoundary { name: features[k].name.clone(), boundary });
            k = k + 1;
        }
        GeoValidator { departments: out }
    }

    /// The number of departments held.
    pub fn department_count(&self) -> (r: usize)
        ensures
            r == self.boundaries().len(),
    {
        self.departments.len()
    }

    /// The first department that contains `point`.
    pub fn find_containing(&self, point: GeoPoint) -> (r: Option<usize>)
        ensures
            match r {
                Some(i) => first_containing(self.boundaries(), point@) == Some(i as int) && i
                    < self.boundaries().len(),
                None => first_containing(self.boundaries(), point@) is None,
            },
    {
        let ghost ds = self.boundaries();
        let mut k: usize = 0;
        while k < self.departments.len()
            invariant
                k <= self.departments.len(),
                ds == self.boundaries(),
                forall|j: int| 0 <= j < k ==> !shapes_contain((#[trigger] ds[j]).shapes, point@),
            decreases self.departments.len() - k,
        {
            assert(ds[k as int] == self.departments@[k as int]@);
            if any_contains(&self.departments[k].boundary, point) {
                proof {
                    assert(is_first_containing(ds, point@, k as int));
                    let c = choose|i: int| is_first_containing(ds, point@, i);
                    assert(is_first_containing(ds, point@, c));
                    assert(c == k);
                }
                return Some(k);
            }
            k = k + 1;
        }
        proof {
            assert forall|i: int| !is_first_containing(ds, point@, i) by {
                if 0 <= i < ds.len() {
                    assert(!shapes_contain(ds[i].shapes, point@));
                }
            }
        }
        None
    }

    /// Least squared distance from `point` to the boundary of a department,
    /// inside a department as outside; `NO_DISTANCE` where there is none to
    /// measure to.
    pub fn nearest_boundary_sq(&self, point: GeoPoint) -> (r: u64)
        ensures
            r == nearest_boundary_dist_sq(self.boundaries(), point@, self.boundaries().len() as int),
            r <= MAX_DIST_SQ || r == NO_DISTANCE,
    {
        let ghost ds = self.boundaries();
        let mut best: u64 = NO_DISTANCE;
        let mut k: usize = 0;
        while k < self.departments.len()
            invariant
                k <= self.departments.len(),
                ds == self.boundaries(),
                best == nearest_boundary_dist_sq(ds, point@, k as int),
                best <= MAX_DIST_SQ || best == NO_DISTANCE,
            decreases self.departments.len() - k,
        {
            assert(ds[k as int] == self.departments@[k as int]@);
            let d: u64 = boundary_dist_sq(&self.departments[k].boundary, point);
            if d < best {
                best = d;
            }
            k = k + 1;
        }
        best
    }

    /// The department that contains `point`; nothing where none does but a
    /// boundary is less than the near-boundary threshold away; else the
    /// point is outside the country.
    pub fn validate_point(&self, point: GeoPoint) -> (r: Result<Option<String>, ValidationError>)
        ensures
            r == validate_point_spec(self.boundaries(), point@),
    {
        let containing: Option<String> = match self.find_containing(point) {
            Some(i) => {
                assert(self.boundaries()[i as int] == self.departments@[i as int]@);
                Some(self.departments[i].name.clone())
            },
            None => None,
        };
        let nearest: u64 = self.nearest_boundary_sq(point);
        classify_point(containing, nearest, NEAR_BOUNDARY_THRESHOLD)
    }

    /// Validates both points, the origin first, and says whether they lie in
    /// different departments and how far the origin is from the nearest
    /// boundary.
    pub fn validate_route(&self, origin: GeoPoint, destination: GeoPoint) -> (r: Result<
        ValidationResult,
        ValidationError,
    >)
        ensures
            match validate_point_spec(self.boundaries(), origin@) {
                Err(e) => r == Err::<ValidationResult, ValidationError>(e),
                Ok(o) => match validate_point_spec(self.boundaries(), destination@) {
                    Err(e) => r == Err::<ValidationResult, ValidationError>(e),
                    Ok(d) => r is Ok && r->Ok_0.origin_department == o
                        && r->Ok_0.destination_department == d && r->Ok_0.is_valid == (o is Some
                        && d is Some) && r->Ok_0.is_interdepartmental == differ(o, d)
                        && r->Ok_0.distance_to_boundary == root_or_none(
                        nearest_boundary_dist_sq(self.boundaries(), origin@, self.boundaries().len() as int),
                    ),
                },
            },
    {
        let origin_dept: Option<String> = match self.validate_point(origin) {
            Ok(o) => o,
            Err(e) => {
                return Err(e);
            },
        };
        let dest_dept: Option<String> = match self.validate_point(destination) {
            Ok(d) => d,
            Err(e) => {
                return Err(e);
            },
        };
        let distance_to_boundary: u64 = root_of(self.nearest_boundary_sq(origin));
        let is_interdepartmental: bool = match (&origin_dept, &dest_dept) {
            (Some(o), Some(d)) => !(*o == *d),
            _ => false,
        };
        let is_valid: bool = origin_dept.is_some() && dest_dept.is_some();
        Ok(
            ValidationResult {
                is_valid,
                origin_department: origin_dept,
                destination_department: dest_dept,
                is_interdepartmental,
                distance_to_boundary,
            },
        )
    }

    /// Whether the boundary of some department is at most `max_distance`
    /// from `point`.
    pub fn is_near_boundary(&self, point: GeoPoint, max_distance: u64) -> (r: bool)
        ensures
            r == near_some(self.boundaries(), point@, max_distance as int),
    {
        let nearest: u64 = self.nearest_boundary_sq(point);
        nearest != NO_DISTANCE && within(nearest, max_distance)
    }

    /// The name of the department whose area is nearest to `point`, the
    /// first of several equally near; `DepartmentNotFound` where there is no
    /// department.
    pub fn get_nearest_department(&self, point: GeoPoint) -> (r: Result<String, ValidationError>)
        ensures
            self.boundaries().len() == 0 ==> r == Err::<String, ValidationError>(
                ValidationError::DepartmentNotFound,
            ),
            self.boundaries().len() > 0 ==> r is Ok && exists|i: int|
                is_nearest_department(self.boundaries(), point@, i) && r->Ok_0
                    == self.boundaries()[i].name,
    {
        let ghost ds = self.boundaries();
        if self.departments.len() == 0 {
            return Err(ValidationError::DepartmentNotFound);
        }
        let mut best: usize = 0;
        assert(ds[0] == self.departments@[0]@);
        let mut best_d: u64 = area_dist_sq(&self.departments[0].boundary, point);
        let mut k: usize = 1;
        while k < self.departments.len()
            invariant
                1 <= k <= self.departments.len(),
                ds == self.boundaries(),
                best < k,
                best_d == department_area_dist_sq(ds[best as int], point@),
                forall|j: int|
                    0 <= j < k ==> best_d <= department_area_dist_sq(#[trigger] ds[j], point@),
                forall|j: int|
                    0 <= j < best ==> best_d < department_area_dist_sq(#[trigger] ds[j], point@),
            decreases self.departments.len() - k,
        {
            assert(ds[k as int] == self.departments@[k as int]@);
            let d: u64 = area_dist_sq(&self.departments[k].boundary, point);
            if d < best_d {
                best = k;
                best_d = d;
            }
            k = k + 1;
        }
        assert(is_nearest_department(ds, point@, best as int));
        assert(ds[best as int] == self.departments@[best as int]@);
        Ok(self.departments[best].name.clone())
    }

    /// The departments, in order, that contain a vertex of `line`.
    pub fn departments_touched(&self, line: &Vec<GeoPoint>) -> (r: Vec<String>)
        ensures
            r@ == touched_upto(self.boundaries(), coords(line@), self.boundaries().len() as int),
    {
        let ghost ds = self.boundaries();
        let mut out: Vec<String> = Vec::new();
        let mut k: usize = 0;
        while k < self.departments.len()
            invariant
                k <= self.departments.len(),
                ds == self.boundaries(),
                out@ == touched_upto(ds, coords(line@), k as int),
            decreases self.departments.len() - k,
        {
            assert(ds[k as int] == self.departments@[k as int]@);
            let mut touched: bool = false;
            let mut j: usize = 0;
            while j < line.len() && !touched
                invariant
                    j <= line.len(),
                    k < self.departments.len(),
                    ds == self.boundaries(),
                    ds[k as int] == self.departments@[k as int]@,
                    touched ==> touches(ds[k as int].shapes, coords(line@)),
                    !touched ==> forall|m: int|
                        0 <= m < j ==> !shapes_contain(ds[k as int].shapes, #[trigger] coords(line@)[m]),
                decreases line.len() - j + if touched { 0int } else { 1int },
            {
                if any_contains(&self.departments[k].boundary, line[j]) {
                    assert(shapes_contain(ds[k as int].shapes, coords(line@)[j as int]));
                    touched = true;
                } else {
                    j = j + 1;
                }
            }
            if touched {
                out.push(self.departments[k].name.clone());
            }
            k = k + 1;
        }
        out
    }

    /// The departments that contain a vertex of the route's line.
    pub fn get_route_departments(&self, route: &Route) -> (r: Vec<String>)
        ensures
            r@ == touched_upto(
                self.boundaries(),
                coords(line_of(route.geometry)),
                self.boundaries().len() as int,
            ),
    {
        match &route.geometry {
            GeoJsonGeometry::LineString { coordinates } => self.departments_touched(coordinates),
            _ => {
                let none: Vec<GeoPoint> = Vec::new();
                self.departments_touched(&none)
            },
        }
    }
}

/// Whether two resolved departments differ; unresolved ones never do.
pub open spec fn differ(o: Option<String>, d: Option<String>) -> bool {
    match (o, d) {
        (Some(a), Some(b)) => a@ != b@,
        _ => false,
    }
}

/// Whether the boundary of some department is at most `max_distance` from
/// `p`.
pub open spec fn near_some(ds: Seq<BoundaryView>, p: (int, int), max_distance: int) -> bool {
    let nearest = nearest_boundary_dist_sq(ds, p, ds.len() as int);
    nearest != NO_DISTANCE && nearest <= max_distance * max_distance
}

/// `i` is the first department among those whose area is nearest to `p`:
/// the first that contains `p`, where one does.
pub open spec fn is_nearest_department(ds: Seq<BoundaryView>, p: (int, int), i: int) -> bool {
    &&& 0 <= i < ds.len()
    &&& forall|j: int|
        0 <= j < ds.len() ==> department_area_dist_sq(ds[i], p) <= department_area_dist_sq(
            #[trigger] ds[j],
            p,
        )
    &&& forall|j: int|
        0 <= j < i ==> department_area_dist_sq(ds[i], p) < department_area_dist_sq(
            #[trigger] ds[j],
            p,
        )
}

/// Whether one of `shapes` contains a vertex of `line`.
pub open spec fn touches(shapes: Seq<Shape>, line: Seq<(int, int)>) -> bool {
    exists|m: int| 0 <= m < line.len() && shapes_contain(shapes, #[trigger] line[m])
}

/// The names of those of the first `k` departments that contain a vertex of
/// `line`.
pub open spec fn touched_upto(ds: Seq<BoundaryView>, line: Seq<(int, int)>, k: int) -> Seq<String>
    decreases k,
{
    if k <= 0 {
        Seq::empty()
    } else if touches(ds[k - 1].shapes, line) {
        touched_upto(ds, line, k - 1).push(ds[k - 1].name)
    } else {
        touched_upto(ds, line, k - 1)
    }
}

/// The least distance to the first `k` departments is that of one of them,
/// or `NO_DISTANCE`, and no department among them is nearer.
pub proof fn lemma_nearest_is_least(ds: Seq<BoundaryView>, p: (int, int), k: int)
    requires
        0 <= k <= ds.len(),
    ensures
        forall|i: int|
            0 <= i < k ==> nearest_boundary_dist_sq(ds, p, k) <= department_boundary_dist_sq(#[trigger] ds[i], p),
        nearest_boundary_dist_sq(ds, p, k) == NO_DISTANCE || exists|i: int|
            0 <= i < k && nearest_boundary_dist_sq(ds, p, k) == department_boundary_dist_sq(#[trigger] ds[i], p),
    decreases k,
{
    if k > 0 {
        lemma_nearest_is_least(ds, p, k - 1);
        let prev = nearest_boundary_dist_sq(ds, p, k - 1);
        let here = department_boundary_dist_sq(ds[k - 1], p);
        if prev != NO_DISTANCE && prev <= here {
            let i = choose|i: int| 0 <= i < k - 1 && prev == department_boundary_dist_sq(#[trigger] ds[i], p);
            assert(0 <= i < k && nearest_boundary_dist_sq(ds, p, k) == department_boundary_dist_sq(ds[i], p));
        } else if nearest_boundary_dist_sq(ds, p, k) != NO_DISTANCE {
            assert(nearest_boundary_dist_sq(ds, p, k) == department_boundary_dist_sq(ds[k - 1], p));
        }
    }
}

/// A point that no department contains, and that is at least the
/// near-boundary threshold away from each, is outside the country.
pub proof fn lemma_far_outside_is_outside_country(ds: Seq<BoundaryView>, p: (int, int))
    requires
        forall|i: int| 0 <= i < ds.len() ==> !shapes_contain((#[trigger] ds[i]).shapes, p),
        forall|i: int|
            0 <= i < ds.len() ==> department_boundary_dist_sq(#[trigger] ds[i], p)
                >= NEAR_BOUNDARY_THRESHOLD * NEAR_BOUNDARY_THRESHOLD,
    ensures
        validate_point_spec(ds, p) == Err::<Option<String>, ValidationError>(
            ValidationError::OutsideCountry,
        ),
{
    lemma_nearest_is_least(ds, p, ds.len() as int);
    assert forall|i: int| !is_first_containing(ds, p, i) by {
        if 0 <= i < ds.len() {
            assert(!shapes_contain(ds[i].shapes, p));
        }
    }
}

/// A point that exactly one department contains is in that department.
pub proof fn lemma_inside_one_department(ds: Seq<BoundaryView>, p: (int, int), i: int)
    requires
        0 <= i < ds.len(),
        shapes_contain(ds[i].shapes, p),
        forall|j: int| 0 <= j < ds.len() && j != i ==> !shapes_contain((#[trigger] ds[j]).shapes, p),
    ensures
        validate_point_spec(ds, p) == Ok::<Option<String>, ValidationError>(Some(ds[i].name)),
{
    assert(is_first_containing(ds, p, i));
    let c = choose|c: int| is_first_containing(ds, p, c);
    assert(is_first_containing(ds, p, c));
    assert(c == i);
}

/// A point that some department contains is in the first that does, however
/// many do.
pub proof fn lemma_inside_first_department(ds: Seq<BoundaryView>, p: (int, int), i: int)
    requires
        is_first_containing(ds, p, i),
    ensures
        validate_point_spec(ds, p) == Ok::<Option<String>, ValidationError>(Some(ds[i].name)),
{
    let c = choose|c: int| is_first_containing(ds, p, c);
    assert(is_first_containing(ds, p, c));
    assert(c == i);
}

} // verus!
