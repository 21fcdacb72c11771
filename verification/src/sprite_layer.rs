//! Settings of a sprite layer.
use vstd::prelude::*;

verus! {

/// The axis that a sprite layer is drawn along.
#[derive(Clone, Copy, Debug, PartialEq, Eq, Structural)]
pub enum Axis {
    X,
    Y,
    Z,
}

} // verus!
