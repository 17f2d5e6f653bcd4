//! Cuts: regions of one or two dimensions that a value lies in or not.

pub mod cut_1d;
pub mod cut_2d;
pub mod wide;

pub use crate::cut::cut_1d::{Cut1d, Cut1dAbove, Cut1dBelow, Cut1dBetween};
pub use crate::cut::cut_2d::{Cut2d, Cut2dCirc, Cut2dEllipse, Cut2dModel, Cut2dPoly, Cut2dRect};
use vstd::prelude::*;
use vstd::std_specs::convert::FromSpecImpl;

verus! {

/// A cut of either dimension.
#[derive(Debug)]
pub enum Cut {
    Cut1d(Cut1d),
    Cut2d(Cut2d),
}

impl Clone for Cut {
    fn clone(&self) -> (r: Self)
        ensures
            match (*self, r) {
                (Cut::Cut1d(c), Cut::Cut1d(d)) => d == c,
                (Cut::Cut2d(c), Cut::Cut2d(d)) => forall|x: int, y: int|
                    d.holds(x, y) == c.holds(x, y),
                _ => false,
            },
    {
        match self {
            Cut::Cut1d(c) => Cut::Cut1d(c.clone()),
            Cut::Cut2d(c) => Cut::Cut2d(c.clone()),
        }
    }
}

impl From<Cut1d> for Cut {
    fn from(c: Cut1d) -> (r: Self) {
        Cut::Cut1d(c)
    }
}

impl FromSpecImpl<Cut1d> for Cut {
    open spec fn obeys_from_spec() -> bool {
        true
    }

    open spec fn from_spec(c: Cut1d) -> Self {
        Cut::Cut1d(c)
    }
}

impl From<Cut2d> for Cut {
    fn from(c: Cut2d) -> (r: Self) {
        Cut::Cut2d(c)
    }
}

impl FromSpecImpl<Cut2d> for Cut {
    open spec fn obeys_from_spec() -> bool {
        true
    }

    open spec fn from_spec(c: Cut2d) -> Self {
        Cut::Cut2d(c)
    }
}

} // verus!
