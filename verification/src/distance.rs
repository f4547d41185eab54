//! Geodesic distance between two fixed-point coordinates.
//!
//! The distance itself is computed by the `geo` crate on an ellipsoidal
//! earth model; the library names its result and reasons about it as an
//! opaque function of the two coordinates.

use vstd::prelude::*;
use crate::osm_data::Coordinate;

verus! {

/// The geodesic distance, in whole millimeters, between the coordinate
/// (`a_lat`, `a_lon`) and the coordinate (`b_lat`, `b_lon`), both given in
/// decimicro-degrees. Named, not defined: the value is whatever the geodesic
/// computation of the `geo` crate returns, which depends on the four
/// arguments alone.
pub uninterp spec fn geo_dist(a_lat: int, a_lon: int, b_lat: int, b_lon: int) -> u64;

/// `geo_dist` applied to two `Coordinate` values.
pub open spec fn spec_dist(a: Coordinate, b: Coordinate) -> u64 {
    geo_dist(
        a.decimicro_lat as int,
        a.decimicro_lon as int,
        b.decimicro_lat as int,
        b.decimicro_lon as int,
    )
}

/// Relies on `geo::Geodesic.distance` (Karney's geodesic algorithm on the
/// WGS84 ellipsoid), a pure function of the two points that returns meters.
/// The fixed-point inputs are scaled to the degrees the call expects, and its
/// result to whole millimeters, the unit every distance in this library uses.
#[verifier::external_body]
pub(crate) fn geodesic_distance_mm(a: &Coordinate, b: &Coordinate) -> (r: u64)
    ensures
        r == geo_dist(
            a.decimicro_lat as int,
            a.decimicro_lon as int,
            b.decimicro_lat as int,
            b.decimicro_lon as int,
        ),
{
    let per_degree = 10_000_000i32;
    let pa = geo::Point::new(From::from(a.decimicro_lon), From::from(a.decimicro_lat))
        / From::from(per_degree);
    let pb = geo::Point::new(From::from(b.decimicro_lon), From::from(b.decimicro_lat))
        / From::from(per_degree);
    let meters = geo::Distance::distance(&geo::Geodesic, pa, pb);
    let millimeters = meters.mul_add(From::from(1000i32), From::from(0i32));
    millimeters.round() as u64
}

} // verus!
