//! Integrating a histogram over a cut.

use crate::cut::{Cut1d, Cut2d};
use crate::hist::{Hist, Hist1d, Hist2d, HistAxis};
use vstd::prelude::*;

verus! {

/// The sum of those of the first `upto` counts whose bins have their
/// middle value in `cut`.
pub open spec fn integral_1d(axes: HistAxis, counts: Seq<u64>, cut: Cut1d, upto: int) -> int
    decreases upto,
{
    if upto <= 0 {
        0
    } else {
        integral_1d(axes, counts, cut, upto - 1) + if cut.holds(
            Hist1d::val_of(axes, Hist1d::bin_at(axes, upto - 1)) as int,
        ) {
            counts[upto - 1] as int
        } else {
            0
        }
    }
}

/// The sum of those of the first `upto` counts whose bins have their
/// middle value in `cut`.
pub open spec fn integral_2d(
    axes: (HistAxis, HistAxis),
    counts: Seq<u64>,
    cut: Cut2d,
    upto: int,
) -> int
    decreases upto,
{
    if upto <= 0 {
        0
    } else {
        let val = Hist2d::val_of(axes, Hist2d::bin_at(axes, upto - 1));
        integral_2d(axes, counts, cut, upto - 1) + if cut.holds(val.0 as int, val.1 as int) {
            counts[upto - 1] as int
        } else {
            0
        }
    }
}

/// The integral grows with the number of counts it takes in.
pub proof fn lemma_integral_1d_grows(
    axes: HistAxis,
    counts: Seq<u64>,
    cut: Cut1d,
    a: int,
    b: int,
)
    requires
        a <= b,
    ensures
        0 <= integral_1d(axes, counts, cut, a) <= integral_1d(axes, counts, cut, b),
    decreases b,
{
    if b > 0 && a < b {
        lemma_integral_1d_grows(axes, counts, cut, a, b - 1);
    } else if b > 0 {
        lemma_integral_1d_grows(axes, counts, cut, a - 1, b - 1);
    }
}

/// The integral grows with the number of counts it takes in.
pub proof fn lemma_integral_2d_grows(
    axes: (HistAxis, HistAxis),
    counts: Seq<u64>,
    cut: Cut2d,
    a: int,
    b: int,
)
    requires
        a <= b,
    ensures
        0 <= integral_2d(axes, counts, cut, a) <= integral_2d(axes, counts, cut, b),
    decreases b,
{
    if b > 0 && a < b {
        lemma_integral_2d_grows(axes, counts, cut, a, b - 1);
    } else if b > 0 {
        lemma_integral_2d_grows(axes, counts, cut, a - 1, b - 1);
    }
}

impl Hist1d {
    /// Returns the number of counts contained by `cut`: the sum of the
    /// counts of the bins whose middle value lies in `cut`.
    pub fn integrate(&self, cut: &Cut1d) -> (sum: u64)
        requires
            self.wf(),
            integral_1d(
                self.spec_axes(),
                self.spec_counts(),
                *cut,
                self.spec_counts().len() as int,
            ) <= u64::MAX,
        ensures
            sum == integral_1d(
                self.spec_axes(),
                self.spec_counts(),
                *cut,
                self.spec_counts().len() as int,
            ),
    {
        proof {
            lemma_integral_1d_grows(
                self.spec_axes(),
                self.spec_counts(),
                *cut,
                0,
                self.spec_counts().len() as int,
            );
        }
        match self.try_integrate(cut) {
            Some(sum) => sum,
            None => 0,
        }
    }

    /// Returns the number of counts contained by `cut`, if it is at most
    /// `u64::MAX`.
    pub fn try_integrate(&self, cut: &Cut1d) -> (r: Option<u64>)
        requires
            self.wf(),
        ensures
            r == if integral_1d(
                self.spec_axes(),
                self.spec_counts(),
                *cut,
                self.spec_counts().len() as int,
            ) <= u64::MAX {
                Some(
                    integral_1d(
                        self.spec_axes(),
                        self.spec_counts(),
                        *cut,
                        self.spec_counts().len() as int,
                    ) as u64,
                )
            } else {
                None
            },
    {
        let n: usize = self.counts().len();
        let mut sum: u64 = 0;
        let mut idx: usize = 0;
        while idx < n
            invariant
                idx <= n,
                n == self.spec_counts().len(),
                self.wf(),
                sum == integral_1d(self.spec_axes(), self.spec_counts(), *cut, idx as int),
            decreases n - idx,
        {
            let val = self.val_at_idx(idx);
            proof {
                lemma_integral_1d_grows(
                    self.spec_axes(),
                    self.spec_counts(),
                    *cut,
                    idx + 1,
                    n as int,
                );
            }
            if cut.contains(val) {
                let c: u64 = self.counts_at_idx(idx);
                if c > u64::MAX - sum {
                    return None;
                }
                sum += c;
            }
            idx += 1;
        }
        Some(sum)
    }
}

impl Hist2d {
    /// Returns the number of counts contained by `cut`: the sum of the
    /// counts of the bins whose middle value lies in `cut`.
    pub fn integrate(&self, cut: &Cut2d) -> (sum: u64)
        requires
            self.wf(),
            integral_2d(
                self.spec_axes(),
                self.spec_counts(),
                *cut,
                self.spec_counts().len() as int,
            ) <= u64::MAX,
        ensures
            sum == integral_2d(
                self.spec_axes(),
                self.spec_counts(),
                *cut,
                self.spec_counts().len() as int,
            ),
    {
        proof {
            lemma_integral_2d_grows(
                self.spec_axes(),
                self.spec_counts(),
                *cut,
                0,
                self.spec_counts().len() as int,
            );
        }
        match self.try_integrate(cut) {
            Some(sum) => sum,
            None => 0,
        }
    }

    /// Returns the number of counts contained by `cut`, if it is at most
    /// `u64::MAX`.
    pub fn try_integrate(&self, cut: &Cut2d) -> (r: Option<u64>)
        requires
            self.wf(),
        ensures
            r == if integral_2d(
                self.spec_axes(),
                self.spec_counts(),
                *cut,
                self.spec_counts().len() as int,
            ) <= u64::MAX {
                Some(
                    integral_2d(
                        self.spec_axes(),
                        self.spec_counts(),
                        *cut,
                        self.spec_counts().len() as int,
                    ) as u64,
                )
            } else {
                None
            },
    {
        let n: usize = self.counts().len();
        let mut sum: u64 = 0;
        let mut idx: usize = 0;
        while idx < n
            invariant
                idx <= n,
                n == self.spec_counts().len(),
                self.wf(),
                    sum == integral_2d(self.spec_axes(), self.spec_counts(), *cut, idx as int),
            decreases n - idx,
        {
            let val = self.val_at_idx(idx);
            proof {
                lemma_integral_2d_grows(
                    self.spec_axes(),
                    self.spec_counts(),
                    *cut,
                    idx + 1,
                    n as int,
                );
            }
            if cut.contains(val.0, val.1) {
                let c: u64 = self.counts_at_idx(idx);
                if c > u64::MAX - sum {
                    return None;
                }
                sum += c;
            }
            idx += 1;
        }
        Some(sum)
    }
}

} // verus!
