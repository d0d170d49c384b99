//! The types of the `las` crate that a tile carries. Nothing is known here
//! of what such a value holds: it is handed on as it was read.

use las::Point as CloudPoint;
use vstd::prelude::*;

verus! {

/// A point of a point cloud, as the `las` crate reads it.
#[verifier::external_type_specification]
#[verifier::external_body]
pub struct ExLasPoint(CloudPoint);

/// The bounding box of a point cloud, as the `las` crate reads it.
#[verifier::external_type_specification]
#[verifier::external_body]
pub struct ExLasBounds(las::Bounds);

/// The reason why the `las` crate could not read a point cloud.
#[verifier::external_type_specification]
#[verifier::external_body]
pub struct ExLasError(las::Error);

} // verus!
