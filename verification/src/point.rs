use vstd::prelude::*;
use crate::math::Vec3;

verus! {

/// A position in space; same representation as a vector.
pub type Point = Vec3;

} // verus!
