//! Values split into independent scalar components (for springs and inertia
//! over several dimensions).
use vstd::prelude::*;

verus! {

/// Seals the set of value types that can be split into components: a scalar
/// and arrays of two, three or four scalars. Nothing outside the animation
/// crates implements it.
pub trait Sealed {}

} // verus!
