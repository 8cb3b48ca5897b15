//! What validation, search and planning can report.

use vstd::prelude::*;
use vstd::std_specs::convert::FromSpecImpl;

verus! {

/// A query point that cannot be used, or a department set that cannot answer.
#[derive(Debug, PartialEq, Eq)]
pub enum ValidationError {
    /// The coordinates do not name a position that can be planned from.
    InvalidCoordinates,
    /// The point is in no department and not near any.
    OutsideCountry,
    /// There is no department to choose from.
    DepartmentNotFound,
    /// A geometry could not be used.
    GeometryError(String),
}

/// An outcome of the search that is not a list of plans.
#[derive(Debug, PartialEq, Eq)]
pub enum SearchError {
    /// No route has a vertex within reach of the origin.
    NoRoutesNearOrigin,
    /// No route has a vertex within reach of the destination.
    NoRoutesNearDestination,
    /// Routes are near both ends, but no chain of transfers joins them.
    NoValidPath,
    /// More transfers would be needed than allowed.
    MaxTransfersExceeded,
    /// A distance could not be computed.
    DistanceError(String),
    /// The stored adjacency could not be used.
    CacheError(String),
}

/// What a caller of the planner can be told.
#[derive(Debug, PartialEq, Eq)]
pub enum PlanningError {
    /// A query point was refused.
    ValidationError(ValidationError),
    /// The search found nothing.
    SearchError(SearchError),
    /// The configuration cannot be used.
    ConfigError(String),
    /// The search returned no plan.
    NoValidRoutes,
}

impl From<ValidationError> for PlanningError {
    fn from(e: ValidationError) -> (r: PlanningError) {
        PlanningError::ValidationError(e)
    }
}

impl FromSpecImpl<ValidationError> for PlanningError {
    open spec fn obeys_from_spec() -> bool {
        true
    }

    open spec fn from_spec(e: ValidationError) -> PlanningError {
        PlanningError::ValidationError(e)
    }
}

impl From<SearchError> for PlanningError {
    fn from(e: SearchError) -> (r: PlanningError) {
        PlanningError::SearchError(e)
    }
}

impl FromSpecImpl<SearchError> for PlanningError {
    open spec fn obeys_from_spec() -> bool {
        true
    }

    open spec fn from_spec(e: SearchError) -> PlanningError {
        PlanningError::SearchError(e)
    }
}

/// `prefix` followed by `detail`.
fn prefixed(prefix: &str, detail: &String) -> (r: String)
    ensures
        r@ == prefix@ + detail@,
{
    let mut out: String = String::from_str(prefix);
    out.append(detail.as_str());
    out
}

impl ValidationError {
    /// The message of this error.
    pub fn message(&self) -> (r: String)
        ensures
            r@ == validation_message(*self),
    {
        match self {
            ValidationError::InvalidCoordinates => String::from_str("Invalid coordinates"),
            ValidationError::OutsideCountry => String::from_str("Point outside country boundaries"),
            ValidationError::DepartmentNotFound => String::from_str("Department not found"),
            ValidationError::GeometryError(d) => prefixed("Geometry error: ", d),
        }
    }
}

impl SearchError {
    /// The message of this error.
    pub fn message(&self) -> (r: String)
        ensures
            r@ == search_message(*self),
    {
        match self {
            SearchError::NoRoutesNearOrigin => String::from_str("No routes found near origin"),
            SearchError::NoRoutesNearDestination => String::from_str("No routes found near destination"),
            SearchError::NoValidPath => String::from_str("No valid path found"),
            SearchError::MaxTransfersExceeded => String::from_str("Max transfers exceeded"),
            SearchError::DistanceError(d) => prefixed("Distance calculation error: ", d),
            SearchError::CacheError(d) => prefixed("Cache error: ", d),
        }
    }
}

impl PlanningError {
    /// The message of this error.
    pub fn message(&self) -> (r: String)
        ensures
            r@ == planning_message(*self),
    {
        match self {
            PlanningError::ValidationError(e) => {
                let m: String = e.message();
                prefixed("Geographic validation error: ", &m)
            },
            PlanningError::SearchError(e) => {
                let m: String = e.message();
                prefixed("Search error: ", &m)
            },
            PlanningError::ConfigError(d) => prefixed("Configuration error: ", d),
            PlanningError::NoValidRoutes => String::from_str("No valid routes found"),
        }
    }
}

/// The text of a validation error.
pub open spec fn validation_message(e: ValidationError) -> Seq<char> {
    match e {
        ValidationError::InvalidCoordinates => "Invalid coordinates"@,
        ValidationError::OutsideCountry => "Point outside country boundaries"@,
        ValidationError::DepartmentNotFound => "Department not found"@,
        ValidationError::GeometryError(d) => "Geometry error: "@ + d@,
    }
}

/// The text of a search error.
pub open spec fn search_message(e: SearchError) -> Seq<char> {
    match e {
        SearchError::NoRoutesNearOrigin => "No routes found near origin"@,
        SearchError::NoRoutesNearDestination => "No routes found near destination"@,
        SearchError::NoValidPath => "No valid path found"@,
        SearchError::MaxTransfersExceeded => "Max transfers exceeded"@,
        SearchError::DistanceError(d) => "Distance calculation error: "@ + d@,
        SearchError::CacheError(d) => "Cache error: "@ + d@,
    }
}

/// The text of a planning error.
pub open spec fn planning_message(e: PlanningError) -> Seq<char> {
    match e {
        PlanningError::ValidationError(v) => "Geographic validation error: "@ + validation_message(v),
        PlanningError::SearchError(v) => "Search error: "@ + search_message(v),
        PlanningError::ConfigError(d) => "Configuration error: "@ + d@,
        PlanningError::NoValidRoutes => "No valid routes found"@,
    }
}

} // verus!
