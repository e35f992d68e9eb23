use vstd::prelude::*;

verus! {

/// A position on the sphere, in units of 1e-7 degree.
#[derive(Clone, Copy, Debug, PartialEq, Eq)]
pub struct Coordinate {
    pub lat: i64,
    pub lng: i64,
}

/// The axis-aligned envelope of a village boundary, in units of 1e-7 degree.
/// Only villages have one.
#[derive(Clone, Copy, Debug, PartialEq, Eq)]
pub struct BoundingBox {
    pub min_lat: i64,
    pub max_lat: i64,
    pub min_lng: i64,
    pub max_lng: i64,
}

impl BoundingBox {
    /// The box holds a point when both coordinates lie within its closed ranges.
    pub open spec fn holds(self, p: Coordinate) -> bool {
        &&& self.min_lat <= p.lat <= self.max_lat
        &&& self.min_lng <= p.lng <= self.max_lng
    }

    pub fn contains(&self, p: Coordinate) -> (r: bool)
        ensures
            r == self.holds(p),
    {
        self.min_lat <= p.lat && p.lat <= self.max_lat && self.min_lng <= p.lng && p.lng
            <= self.max_lng
    }
}

/// A village joined with the names of its district, regency and province.
///
/// `C` is the type of its centroid, the representative point that is shown to
/// callers. It is carried through as it is: nothing here computes with it.
#[derive(Debug)]
pub struct Village<C> {
    pub id: String,
    pub name: String,
    pub district: String,
    pub regency: String,
    pub province: String,
    pub centroid: C,
}

/// The names of a village and of the regions above it.
#[derive(Debug)]
pub struct LocationDetail {
    pub province: String,
    pub regency: String,
    pub district: String,
    pub village: String,
}

/// A resolved region, as handed to callers.
#[derive(Debug)]
pub struct LocationInfo<C> {
    pub level: String,
    pub id: String,
    pub name: String,
    pub location_detail: LocationDetail,
    pub full_name: String,
    pub centroid: C,
    pub distance_meters: Option<i64>,
}

} // verus!
