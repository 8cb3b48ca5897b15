//! Multi-leg bus itinerary planning between two points of a country that is
//! divided into departments.
//!
//! Positions are whole micro-degrees, read as planar coordinates; distances
//! are whole micro-degrees rounded down, and every comparison of distances
//! is made on exact squares. A query is a function of the two points, the
//! dataset and the configuration: nothing is kept between queries.
//!
//! - [`geometry`], [`polygon`]: points, distances to points, segments, lines
//!   and polygons, bounding boxes. Whether a polygon contains a point is
//!   asked of the `geo` crate; everything else is computed here.
//! - [`model`], [`errors`]: the values that are planned with, and what can
//!   go wrong.
//! - [`geo_validation`]: the department of a point, or that it is near one,
//!   or outside the country.
//! - [`route_index`], [`transfers`], [`adjacency`]: the routes by code, the
//!   best transfer between two routes, and the adjacency that they make.
//! - [`walk`], [`ranking`], [`spatial_search`]: the bounded walk over the
//!   adjacency, the order of its plans, and the search engine.
//! - [`chains`]: that the walk finds the plans of all chains of transfers
//!   between the two ends, and no others.
//! - [`planner`]: validation, widening, search and scoring together.
//! - [`wire`], [`cache`]: the adjacency as bytes, read back as written.
//! - [`data_loader`]: the loaded dataset and simple queries over it.

pub mod adjacency;
pub mod cache;
pub mod chains;
pub mod data_loader;
pub mod errors;
pub mod geo_validation;
pub mod geometry;
pub mod model;
pub mod planner;
pub mod polygon;
pub mod ranking;
pub mod route_index;
pub mod spatial_search;
pub mod transfers;
pub mod walk;
pub mod wire;
