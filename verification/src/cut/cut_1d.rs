//! Cuts in one dimension: open intervals and their complements.

use std::ops::Not;
use vstd::prelude::*;
use vstd::std_specs::convert::FromSpecImpl;
use vstd::std_specs::ops::NotSpecImpl;

verus! {

/// A cut in one dimension.
#[derive(Debug)]
pub enum Cut1d {
    Cut1dAbove(Cut1dAbove),
    Cut1dBelow(Cut1dBelow),
    Cut1dBetween(Cut1dBetween),
    Not(Box<Cut1d>),
}

/// The values above `min`.
#[derive(Copy, Clone, Debug, PartialEq, Eq, Structural)]
pub struct Cut1dAbove {
    pub min: i64,
}

/// The values below `max`.
#[derive(Copy, Clone, Debug, PartialEq, Eq, Structural)]
pub struct Cut1dBelow {
    pub max: i64,
}

/// The values above `min` and below `max`.
#[derive(Copy, Clone, Debug, PartialEq, Eq, Structural)]
pub struct Cut1dBetween {
    pub min: i64,
    pub max: i64,
}

impl Cut1dAbove {
    /// `x` lies strictly above `min`.
    pub open spec fn holds(self, x: int) -> bool {
        x > self.min
    }

    /// Tells whether `x` lies in the cut.
    pub fn contains(&self, x: i64) -> (r: bool)
        ensures
            r == self.holds(x as int),
    {
        x > self.min
    }
}

impl Cut1dBelow {
    /// `x` lies strictly below `max`.
    pub open spec fn holds(self, x: int) -> bool {
        x < self.max
    }

    /// Tells whether `x` lies in the cut.
    pub fn contains(&self, x: i64) -> (r: bool)
        ensures
            r == self.holds(x as int),
    {
        x < self.max
    }
}

impl Cut1dBetween {
    /// `x` lies strictly between `min` and `max`.
    pub open spec fn holds(self, x: int) -> bool {
        self.min < x < self.max
    }

    /// Tells whether `x` lies in the cut.
    pub fn contains(&self, x: i64) -> (r: bool)
        ensures
            r == self.holds(x as int),
    {
        (x > self.min) && (x < self.max)
    }
}

impl Cut1d {
    /// `x` lies in the cut. `Not` holds exactly the values that the cut
    /// inside it does not.
    pub open spec fn holds(self, x: int) -> bool
        decreases self,
    {
        match self {
            Cut1d::Cut1dAbove(c) => c.holds(x),
            Cut1d::Cut1dBelow(c) => c.holds(x),
            Cut1d::Cut1dBetween(c) => c.holds(x),
            Cut1d::Not(c) => !c.holds(x),
        }
    }

    /// The complement of the cut: a `Not` is unwrapped, any other cut is
    /// wrapped in one.
    pub open spec fn negated(self) -> Cut1d {
        match self {
            Cut1d::Not(c) => *c,
            _ => Cut1d::Not(Box::new(self)),
        }
    }

    /// Tells whether `x` lies in the cut.
    pub fn contains(&self, x: i64) -> (r: bool)
        ensures
            r == self.holds(x as int),
        decreases self,
    {
        match self {
            Cut1d::Cut1dAbove(c) => c.contains(x),
            Cut1d::Cut1dBelow(c) => c.contains(x),
            Cut1d::Cut1dBetween(c) => c.contains(x),
            Cut1d::Not(c) => !c.contains(x),
        }
    }
}

impl Clone for Cut1d {
    fn clone(&self) -> (r: Self)
        ensures
            r == *self,
        decreases self,
    {
        match self {
            Cut1d::Cut1dAbove(c) => Cut1d::Cut1dAbove(*c),
            Cut1d::Cut1dBelow(c) => Cut1d::Cut1dBelow(*c),
            Cut1d::Cut1dBetween(c) => Cut1d::Cut1dBetween(*c),
            Cut1d::Not(c) => {
                let inner: Cut1d = (**c).clone();
                Cut1d::Not(Box::new(inner))
            },
        }
    }
}

impl Not for Cut1d {
    type Output = Self;

    fn not(self) -> (r: Self) {
        match self {
            Cut1d::Not(c) => *c,
            _ => Cut1d::Not(Box::new(self)),
        }
    }
}

impl NotSpecImpl for Cut1d {
    open spec fn obeys_not_spec() -> bool {
        true
    }

    open spec fn not_req(self) -> bool {
        true
    }

    open spec fn not_spec(self) -> Self {
        self.negated()
    }
}

impl From<Cut1dAbove> for Cut1d {
    fn from(c: Cut1dAbove) -> (r: Self) {
        Cut1d::Cut1dAbove(c)
    }
}

impl FromSpecImpl<Cut1dAbove> for Cut1d {
    open spec fn obeys_from_spec() -> bool {
        true
    }

    open spec fn from_spec(c: Cut1dAbove) -> Self {
        Cut1d::Cut1dAbove(c)
    }
}

impl From<Cut1dBelow> for Cut1d {
    fn from(c: Cut1dBelow) -> (r: Self) {
        Cut1d::Cut1dBelow(c)
    }
}

impl FromSpecImpl<Cut1dBelow> for Cut1d {
    open spec fn obeys_from_spec() -> bool {
        true
    }

    open spec fn from_spec(c: Cut1dBelow) -> Self {
        Cut1d::Cut1dBelow(c)
    }
}

impl From<Cut1dBetween> for Cut1d {
    fn from(c: Cut1dBetween) -> (r: Self) {
        Cut1d::Cut1dBetween(c)
    }
}

impl FromSpecImpl<Cut1dBetween> for Cut1d {
    open spec fn obeys_from_spec() -> bool {
        true
    }

    open spec fn from_spec(c: Cut1dBetween) -> Self {
        Cut1d::Cut1dBetween(c)
    }
}

/// The complement of a cut holds the values that the cut does not.
pub proof fn lemma_negated_1d(c: Cut1d, x: int)
    ensures
        c.negated().holds(x) == !c.holds(x),
{
}

/// Negating a cut twice gives a cut that holds the same values.
pub proof fn lemma_double_negation_1d(c: Cut1d, x: int)
    ensures
        c.negated().negated().holds(x) == c.holds(x),
        Cut1d::Not(Box::new(Cut1d::Not(Box::new(c)))).holds(x) == c.holds(x),
{
    lemma_negated_1d(c, x);
    lemma_negated_1d(c.negated(), x);
    let inner = Cut1d::Not(Box::new(c));
    assert(inner.holds(x) == !c.holds(x));
    assert(Cut1d::Not(Box::new(inner)).holds(x) == !inner.holds(x));
}

} // verus!
