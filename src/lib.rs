use vstd::prelude::*;

pub mod linear;
pub mod non_linear;
pub mod stack;

verus! {

/// Errors reported by the position-based containers.
///
/// - `IndexErr`: the position is zero or outside the valid range.
/// - `FullErr`: a fixed-capacity container has no room left.
#[derive(Debug, PartialEq, Eq, Structural)]
pub enum Error {
    IndexErr,
    FullErr,
}

} // verus!
