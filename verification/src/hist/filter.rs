//! Masking a histogram with a cut.

use crate::cut::{Cut1d, Cut2d};
use crate::hist::integrate::{integral_1d, integral_2d};
use crate::hist::{total_upto, Hist, Hist1d, Hist2d, HistAxis};
use vstd::prelude::*;

verus! {

/// The counts of a 1D histogram under the mask of `cut`: the count of
/// each bin whose middle value lies in `cut`, and 0 for every other bin.
pub open spec fn masked_1d(axes: HistAxis, counts: Seq<u64>, cut: Cut1d) -> Seq<u64> {
    Seq::new(
        counts.len(),
        |i: int|
            if cut.holds(Hist1d::val_of(axes, Hist1d::bin_at(axes, i)) as int) {
                counts[i]
            } else {
                0u64
            },
    )
}

/// The counts of a 2D histogram under the mask of `cut`: the count of
/// each bin whose middle value lies in `cut`, and 0 for every other bin.
pub open spec fn masked_2d(axes: (HistAxis, HistAxis), counts: Seq<u64>, cut: Cut2d) -> Seq<u64> {
    Seq::new(
        counts.len(),
        |i: int|
            {
                let val = Hist2d::val_of(axes, Hist2d::bin_at(axes, i));
                if cut.holds(val.0 as int, val.1 as int) {
                    counts[i]
                } else {
                    0u64
                }
            },
    )
}

/// The counts that the mask of a cut leaves add up to the integral over
/// the cut.
pub proof fn lemma_masked_1d_total(axes: HistAxis, counts: Seq<u64>, cut: Cut1d, upto: int)
    requires
        0 <= upto <= counts.len(),
    ensures
        total_upto(masked_1d(axes, counts, cut), upto) == integral_1d(axes, counts, cut, upto),
    decreases upto,
{
    if upto > 0 {
        lemma_masked_1d_total(axes, counts, cut, upto - 1);
    }
}

/// The counts that the mask of a cut leaves add up to the integral over
/// the cut.
pub proof fn lemma_masked_2d_total(
    axes: (HistAxis, HistAxis),
    counts: Seq<u64>,
    cut: Cut2d,
    upto: int,
)
    requires
        0 <= upto <= counts.len(),
    ensures
        total_upto(masked_2d(axes, counts, cut), upto) == integral_2d(axes, counts, cut, upto),
    decreases upto,
{
    if upto > 0 {
        lemma_masked_2d_total(axes, counts, cut, upto - 1);
    }
}

impl Hist1d {
    /// Returns the histogram under the mask of `cut`: the bins whose
    /// middle value lies in `cut` keep their counts, and all others have
    /// none.
    pub fn filter(self, cut: &Cut1d) -> (r: Hist1d)
        requires
            self.wf(),
        ensures
            r.wf(),
            r.spec_axes() == self.spec_axes(),
            r.spec_counts() == masked_1d(self.spec_axes(), self.spec_counts(), *cut),
    {
        let n: usize = self.counts().len();
        let mut kept: Vec<u64> = Vec::new();
        let mut idx: usize = 0;
        while idx < n
            invariant
                idx <= n,
                n == self.spec_counts().len(),
                self.wf(),
                kept@.len() == idx,
                forall|i: int|
                    0 <= i < idx ==> kept@[i] == masked_1d(
                        self.spec_axes(),
                        self.spec_counts(),
                        *cut,
                    )[i],
            decreases n - idx,
        {
            let val = self.val_at_idx(idx);
            let c: u64 = if cut.contains(val) {
                self.counts_at_idx(idx)
            } else {
                0
            };
            kept.push(c);
            idx += 1;
        }
        assert(kept@ =~= masked_1d(self.spec_axes(), self.spec_counts(), *cut));
        let axis = *self.axes();
        match Hist1d::with_counts(axis.bins, axis.min, axis.max, kept) {
            Some(h) => h,
            None => self,
        }
    }
}

impl Hist2d {
    /// Returns the histogram under the mask of `cut`: the bins whose
    /// middle value lies in `cut` keep their counts, and all others have
    /// none.
    pub fn filter(self, cut: &Cut2d) -> (r: Hist2d)
        requires
            self.wf(),
        ensures
            r.wf(),
            r.spec_axes() == self.spec_axes(),
            r.spec_counts() == masked_2d(self.spec_axes(), self.spec_counts(), *cut),
    {
        let n: usize = self.counts().len();
        let mut kept: Vec<u64> = Vec::new();
        let mut idx: usize = 0;
        while idx < n
            invariant
                idx <= n,
                n == self.spec_counts().len(),
                self.wf(),
                kept@.len() == idx,
                forall|i: int|
                    0 <= i < idx ==> kept@[i] == masked_2d(
                        self.spec_axes(),
                        self.spec_counts(),
                        *cut,
                    )[i],
            decreases n - idx,
        {
            let val = self.val_at_idx(idx);
            let c: u64 = if cut.contains(val.0, val.1) {
                self.counts_at_idx(idx)
            } else {
                0
            };
            kept.push(c);
            idx += 1;
        }
        assert(kept@ =~= masked_2d(self.spec_axes(), self.spec_counts(), *cut));
        let a = self.axes().0;
        let b = self.axes().1;
        match Hist2d::with_counts(a.bins, a.min, a.max, b.bins, b.min, b.max, kept) {
            Some(h) => h,
            None => self,
        }
    }
}

} // verus!
