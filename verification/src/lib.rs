//! Resolution of points and free-text queries to administrative regions.
//!
//! Regions form a four-level hierarchy (province, regency, district, village).
//! Villages are the leaves: each carries a centroid, an encoded boundary and
//! the axis-aligned envelope of that boundary.
//!
//! A point is resolved in two phases: the envelopes select candidates, and an
//! exact test of each candidate's boundary, made by the caller, decides. Query
//! points and envelopes are fixed-point integers, in units of one
//! ten-millionth of a degree. A text query is split into lowercase keywords;
//! the villages whose names hold every keyword are ranked by distance or by
//! the length of their names.
pub mod model;
pub mod progress;
pub mod rank;
pub mod resolve;
pub mod search;
pub mod spatial;
pub mod text;
