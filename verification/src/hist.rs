//! Histograms of one to four dimensions over binned axes.
//!
//! Values are exact: a coordinate is a whole number of ticks, in a unit
//! that the user of the histogram chooses.

use crate::error::DkError;
use vstd::arithmetic::div_mod::{lemma_fundamental_div_mod, lemma_mod_bound};
use vstd::prelude::*;

pub mod axis;
pub mod filter;
pub mod fuzz;
pub mod hist_1d;
pub mod hist_2d;
pub mod hist_3d;
pub mod hist_4d;
pub mod integrate;

pub use crate::hist::axis::{
    div_up, lemma_axis_round_trip, lemma_div_up, lemma_mid_in_bin, lemma_quotient_bounds,
    lemma_quotient_is, HistAxis,
};
pub use crate::hist::hist_1d::Hist1d;
pub use crate::hist::hist_2d::Hist2d;
pub use crate::hist::hist_3d::Hist3d;
pub use crate::hist::hist_4d::Hist4d;

verus! {

/// The sum of the first `upto` counts of `counts`.
pub open spec fn total_upto(counts: Seq<u64>, upto: int) -> int
    decreases upto,
{
    if upto <= 0 {
        0
    } else {
        total_upto(counts, upto - 1) + counts[upto - 1]
    }
}

/// The sum of all counts.
pub open spec fn total(counts: Seq<u64>) -> int {
    total_upto(counts, counts.len() as int)
}

/// What arrives at index `i` when the first `upto` counts of `counts` are
/// each moved to the index that `targets` names for it.
pub open spec fn inflow(targets: Seq<int>, counts: Seq<u64>, i: int, upto: int) -> int
    decreases upto,
{
    if upto <= 0 {
        0
    } else {
        inflow(targets, counts, i, upto - 1) + if targets[upto - 1] == i {
            counts[upto - 1] as int
        } else {
            0
        }
    }
}

/// Sums grow with the number of counts they take in.
pub proof fn lemma_total_grows(counts: Seq<u64>, a: int, b: int)
    requires
        a <= b,
    ensures
        0 <= total_upto(counts, a) <= total_upto(counts, b),
    decreases b,
{
    if b > 0 && a < b {
        lemma_total_grows(counts, a, b - 1);
    } else if b > 0 {
        lemma_total_grows(counts, a - 1, b - 1);
    }
}

/// What arrives at an index grows with the number of counts moved.
pub proof fn lemma_inflow_grows(targets: Seq<int>, counts: Seq<u64>, i: int, a: int, b: int)
    requires
        a <= b,
    ensures
        0 <= inflow(targets, counts, i, a) <= inflow(targets, counts, i, b),
    decreases b,
{
    if b > 0 && a < b {
        lemma_inflow_grows(targets, counts, i, a, b - 1);
    } else if b > 0 {
        lemma_inflow_grows(targets, counts, i, a - 1, b - 1);
    }
}

/// Changing one count changes the sum by as much.
pub proof fn lemma_total_update(counts: Seq<u64>, i: int, v: u64, upto: int)
    requires
        0 <= i < counts.len(),
        0 <= upto <= counts.len(),
    ensures
        total_upto(counts.update(i, v), upto) == total_upto(counts, upto) + if i < upto {
            v - counts[i]
        } else {
            0
        },
    decreases upto,
{
    if upto > 0 {
        lemma_total_update(counts, i, v, upto - 1);
    }
}

/// Counts that are all 0 sum to 0.
pub proof fn lemma_total_of_zeros(counts: Seq<u64>, upto: int)
    requires
        0 <= upto <= counts.len(),
        forall|i: int| 0 <= i < counts.len() ==> counts[i] == 0,
    ensures
        total_upto(counts, upto) == 0,
    decreases upto,
{
    if upto > 0 {
        lemma_total_of_zeros(counts, upto - 1);
    }
}

/// Where every count that is not 0 stays at its own index, each index
/// receives exactly its own count.
pub proof fn lemma_inflow_in_place(targets: Seq<int>, counts: Seq<u64>, i: int, upto: int)
    requires
        0 <= upto <= counts.len(),
        targets.len() == counts.len(),
        forall|o: int| 0 <= o < counts.len() && counts[o] > 0 ==> targets[o] == o,
    ensures
        inflow(targets, counts, i, upto) == if 0 <= i < upto {
            counts[i] as int
        } else {
            0
        },
    decreases upto,
{
    if upto > 0 {
        lemma_inflow_in_place(targets, counts, i, upto - 1);
    }
}

/// A histogram: a dense array of counts, one for each bin of its axes.
///
/// A bin is named in three ways: by a value that falls into it, by its
/// coordinates along the axes (`Bin`), and by its index into the counts.
pub trait Hist: Sized {
    /// The coordinates of a bin, one for each axis.
    type Bin;

    /// A value, with one coordinate for each axis.
    type Val;

    /// The axes of the histogram.
    type Axes;

    /// The axes are well formed and span at most `u32::MAX` bins in all.
    spec fn axes_wf(axes: Self::Axes) -> bool;

    /// The number of bins in all: the product of the axes' bin counts.
    spec fn cells(axes: Self::Axes) -> int;

    /// `bin` lies within the axes.
    spec fn has_bin(axes: Self::Axes, bin: Self::Bin) -> bool;

    /// The bin that the value `val` falls into.
    spec fn bin_of(axes: Self::Axes, val: Self::Val) -> Self::Bin;

    /// The value in the middle of `bin`.
    spec fn val_of(axes: Self::Axes, bin: Self::Bin) -> Self::Val;

    /// The index of `bin` among the counts: row-major, the first axis
    /// varying slowest.
    spec fn idx_of(axes: Self::Axes, bin: Self::Bin) -> int;

    /// The bin at index `idx` among the counts.
    spec fn bin_at(axes: Self::Axes, idx: int) -> Self::Bin;

    /// The axes of this histogram.
    spec fn spec_axes(&self) -> Self::Axes;

    /// The counts of this histogram, by index.
    spec fn spec_counts(&self) -> Seq<u64>;

    /// The bins and the indices below `cells` stand for each other, both
    /// ways, and every value falls into a bin of the axes.
    proof fn lemma_bins(axes: Self::Axes)
        requires
            Self::axes_wf(axes),
        ensures
            0 < Self::cells(axes) <= u32::MAX,
            forall|bin: Self::Bin| #[trigger]
                Self::has_bin(axes, bin) ==> 0 <= Self::idx_of(axes, bin) < Self::cells(axes)
                    && Self::bin_at(axes, Self::idx_of(axes, bin)) == bin,
            forall|idx: int|
                0 <= idx < Self::cells(axes) ==> Self::has_bin(axes, #[trigger] Self::bin_at(axes, idx))
                    && Self::idx_of(axes, Self::bin_at(axes, idx)) == idx,
            forall|val: Self::Val| Self::has_bin(axes, #[trigger] Self::bin_of(axes, val)),
    ;

    /// Returns the axes.
    fn axes(&self) -> (a: &Self::Axes)
        ensures
            *a == self.spec_axes(),
    ;

    /// Returns the bin that `val` falls into.
    fn bin_at_val(&self, val: Self::Val) -> (bin: Self::Bin)
        requires
            Self::axes_wf(self.spec_axes()),
        ensures
            bin == Self::bin_of(self.spec_axes(), val),
    ;

    /// Returns the value in the middle of `bin`.
    fn val_at_bin(&self, bin: Self::Bin) -> (val: Self::Val)
        requires
            Self::axes_wf(self.spec_axes()),
            Self::has_bin(self.spec_axes(), bin),
        ensures
            val == Self::val_of(self.spec_axes(), bin),
    ;

    /// Returns the index of `bin` among the counts.
    fn idx_at_bin(&self, bin: Self::Bin) -> (idx: usize)
        requires
            Self::axes_wf(self.spec_axes()),
            Self::has_bin(self.spec_axes(), bin),
        ensures
            idx == Self::idx_of(self.spec_axes(), bin),
    ;

    /// Returns the bin at index `idx` among the counts.
    fn bin_at_idx(&self, idx: usize) -> (bin: Self::Bin)
        requires
            Self::axes_wf(self.spec_axes()),
            idx < Self::cells(self.spec_axes()),
        ensures
            bin == Self::bin_at(self.spec_axes(), idx as int),
    ;

    /// Returns the counts.
    fn counts(&self) -> (c: &Vec<u64>)
        ensures
            c@ == self.spec_counts(),
    ;

    /// Returns the counts for writing. The axes stay as they are.
    fn counts_mut(&mut self) -> (c: &mut Vec<u64>)
        ensures
            c@ == old(self).spec_counts(),
            final(self).spec_counts() == final(c)@,
            final(self).spec_axes() == old(self).spec_axes(),
    ;

    /// Tells whether the histogram is well formed: its axes are, and it has
    /// one count for each bin.
    fn is_valid(&self) -> (r: bool)
        ensures
            r == (Self::axes_wf(self.spec_axes()) && self.spec_counts().len() == Self::cells(
                self.spec_axes(),
            )),
    ;

    /// Increments the bin that contains `val` by 1.
    fn fill(&mut self, val: Self::Val)
        requires
            Self::axes_wf(old(self).spec_axes()),
            old(self).spec_counts().len() == Self::cells(old(self).spec_axes()),
            old(self).spec_counts()[Self::idx_of(old(self).spec_axes(), Self::bin_of(old(self).spec_axes(), val))] < u64::MAX,
        ensures
            final(self).spec_axes() == old(self).spec_axes(),
            final(self).spec_counts() == old(self).spec_counts().update(
                Self::idx_of(old(self).spec_axes(), Self::bin_of(old(self).spec_axes(), val)),
                (old(self).spec_counts()[Self::idx_of(old(self).spec_axes(), Self::bin_of(old(self).spec_axes(), val))]
                    + 1) as u64,
            ),
    {
        self.fill_at_val(val);
    }

    /// Increments the bin that contains `val` by `counts`.
    fn fill_with_counts(&mut self, val: Self::Val, counts: u64)
        requires
            Self::axes_wf(old(self).spec_axes()),
            old(self).spec_counts().len() == Self::cells(old(self).spec_axes()),
            old(self).spec_counts()[Self::idx_of(old(self).spec_axes(), Self::bin_of(old(self).spec_axes(), val))] + counts
                <= u64::MAX,
        ensures
            final(self).spec_axes() == old(self).spec_axes(),
            final(self).spec_counts() == old(self).spec_counts().update(
                Self::idx_of(old(self).spec_axes(), Self::bin_of(old(self).spec_axes(), val)),
                (old(self).spec_counts()[Self::idx_of(old(self).spec_axes(), Self::bin_of(old(self).spec_axes(), val))]
                    + counts) as u64,
            ),
    {
        self.fill_at_val_with_counts(val, counts);
    }

    /// Increments the bin that contains `val` by 1.
    fn fill_at_val(&mut self, val: Self::Val)
        requires
            Self::axes_wf(old(self).spec_axes()),
            old(self).spec_counts().len() == Self::cells(old(self).spec_axes()),
            old(self).spec_counts()[Self::idx_of(old(self).spec_axes(), Self::bin_of(old(self).spec_axes(), val))] < u64::MAX,
        ensures
            final(self).spec_axes() == old(self).spec_axes(),
            final(self).spec_counts() == old(self).spec_counts().update(
                Self::idx_of(old(self).spec_axes(), Self::bin_of(old(self).spec_axes(), val)),
                (old(self).spec_counts()[Self::idx_of(old(self).spec_axes(), Self::bin_of(old(self).spec_axes(), val))]
                    + 1) as u64,
            ),
    {
        self.fill_at_val_with_counts(val, 1u64);
    }

    /// Increments the bin that contains `val` by `counts`.
    fn fill_at_val_with_counts(&mut self, val: Self::Val, counts: u64)
        requires
            Self::axes_wf(old(self).spec_axes()),
            old(self).spec_counts().len() == Self::cells(old(self).spec_axes()),
            old(self).spec_counts()[Self::idx_of(old(self).spec_axes(), Self::bin_of(old(self).spec_axes(), val))] + counts
                <= u64::MAX,
        ensures
            final(self).spec_axes() == old(self).spec_axes(),
            final(self).spec_counts() == old(self).spec_counts().update(
                Self::idx_of(old(self).spec_axes(), Self::bin_of(old(self).spec_axes(), val)),
                (old(self).spec_counts()[Self::idx_of(old(self).spec_axes(), Self::bin_of(old(self).spec_axes(), val))]
                    + counts) as u64,
            ),
    {
        let idx = self.idx_at_val(val);
        self.fill_at_idx_with_counts(idx, counts);
    }

    /// Increments the bin `bin` by 1.
    fn fill_at_bin(&mut self, bin: Self::Bin)
        requires
            Self::axes_wf(old(self).spec_axes()),
            old(self).spec_counts().len() == Self::cells(old(self).spec_axes()),
            Self::has_bin(old(self).spec_axes(), bin),
            old(self).spec_counts()[Self::idx_of(old(self).spec_axes(), bin)] < u64::MAX,
        ensures
            final(self).spec_axes() == old(self).spec_axes(),
            final(self).spec_counts() == old(self).spec_counts().update(
                Self::idx_of(old(self).spec_axes(), bin),
                (old(self).spec_counts()[Self::idx_of(old(self).spec_axes(), bin)] + 1) as u64,
            ),
    {
        self.fill_at_bin_with_counts(bin, 1u64);
    }

    /// Increments the bin `bin` by `counts`.
    fn fill_at_bin_with_counts(&mut self, bin: Self::Bin, counts: u64)
        requires
            Self::axes_wf(old(self).spec_axes()),
            old(self).spec_counts().len() == Self::cells(old(self).spec_axes()),
            Self::has_bin(old(self).spec_axes(), bin),
            old(self).spec_counts()[Self::idx_of(old(self).spec_axes(), bin)] + counts
                <= u64::MAX,
        ensures
            final(self).spec_axes() == old(self).spec_axes(),
            final(self).spec_counts() == old(self).spec_counts().update(
                Self::idx_of(old(self).spec_axes(), bin),
                (old(self).spec_counts()[Self::idx_of(old(self).spec_axes(), bin)]
                    + counts) as u64,
            ),
    {
        proof {
            Self::lemma_bins(self.spec_axes());
        }
        let idx = self.idx_at_bin(bin);
        self.fill_at_idx_with_counts(idx, counts);
    }

    /// Increments the bin at index `idx` by 1.
    fn fill_at_idx(&mut self, idx: usize)
        requires
            idx < old(self).spec_counts().len(),
            old(self).spec_counts()[idx as int] < u64::MAX,
        ensures
            final(self).spec_axes() == old(self).spec_axes(),
            final(self).spec_counts() == old(self).spec_counts().update(
                idx as int,
                (old(self).spec_counts()[idx as int] + 1) as u64,
            ),
    {
        self.fill_at_idx_with_counts(idx, 1u64);
    }

    /// Increments the bin at index `idx` by `counts`.
    fn fill_at_idx_with_counts(&mut self, idx: usize, counts: u64)
        requires
            idx < old(self).spec_counts().len(),
            old(self).spec_counts()[idx as int] + counts <= u64::MAX,
        ensures
            final(self).spec_axes() == old(self).spec_axes(),
            final(self).spec_counts() == old(self).spec_counts().update(
                idx as int,
                (old(self).spec_counts()[idx as int] + counts) as u64,
            ),
    {
        let c = self.counts_mut();
        let v: u64 = c[idx] + counts;
        c.set(idx, v);
    }

    /// Adds the counts of `other` to `self`: the count of every bin of
    /// `other` goes to the bin of `self` that the middle value of its bin
    /// falls into.
    ///
    /// The sum of all counts grows by the sum of the counts of `other`.
    fn add(&mut self, other: &Self)
        requires
            Self::axes_wf(old(self).spec_axes()),
            old(self).spec_counts().len() == Self::cells(old(self).spec_axes()),
            Self::axes_wf(other.spec_axes()),
            other.spec_counts().len() == Self::cells(other.spec_axes()),
            forall|i: int|
                0 <= i < old(self).spec_counts().len() ==> old(self).spec_counts()[i] + inflow(
                    Seq::new(
                        Self::cells(other.spec_axes()) as nat,
                        |o: int|
                            Self::idx_of(
                                old(self).spec_axes(),
                                Self::bin_of(old(self).spec_axes(), Self::val_of(other.spec_axes(), Self::bin_at(other.spec_axes(), o))),
                            ),
                    ),
                    other.spec_counts(),
                    i,
                    other.spec_counts().len() as int,
                ) <= u64::MAX,
        ensures
            final(self).spec_axes() == old(self).spec_axes(),
            final(self).spec_counts().len() == old(self).spec_counts().len(),
            forall|i: int|
                0 <= i < old(self).spec_counts().len() ==> final(self).spec_counts()[i] == old(
                    self,
                ).spec_counts()[i] + inflow(
                    Seq::new(
                        Self::cells(other.spec_axes()) as nat,
                        |o: int|
                            Self::idx_of(
                                old(self).spec_axes(),
                                Self::bin_of(old(self).spec_axes(), Self::val_of(other.spec_axes(), Self::bin_at(other.spec_axes(), o))),
                            ),
                    ),
                    other.spec_counts(),
                    i,
                    other.spec_counts().len() as int,
                ),
            total(final(self).spec_counts()) == total(old(self).spec_counts()) + total(
                other.spec_counts(),
            ),
    {
        let n: usize = other.counts().len();
        let ghost targets = Seq::new(
                        Self::cells(other.spec_axes()) as nat,
                        |o: int|
                            Self::idx_of(
                                self.spec_axes(),
                                Self::bin_of(self.spec_axes(), Self::val_of(other.spec_axes(), Self::bin_at(other.spec_axes(), o))),
                            ),
                    );
        let ghost start = self.spec_counts();
        let ghost axes = self.spec_axes();
        let mut o_idx: usize = 0;
        while o_idx < n
            invariant
                o_idx <= n,
                n == other.spec_counts().len(),
                Self::axes_wf(other.spec_axes()),
            other.spec_counts().len() == Self::cells(other.spec_axes()),
                Self::axes_wf(self.spec_axes()),
            self.spec_counts().len() == Self::cells(self.spec_axes()),
                self.spec_axes() == axes,
                targets == Seq::new(
                        Self::cells(other.spec_axes()) as nat,
                        |o: int|
                            Self::idx_of(
                                axes,
                                Self::bin_of(axes, Self::val_of(other.spec_axes(), Self::bin_at(other.spec_axes(), o))),
                            ),
                    ),
                self.spec_counts().len() == start.len(),
                forall|i: int|
                    0 <= i < start.len() ==> start[i] + inflow(
                        targets,
                        other.spec_counts(),
                        i,
                        n as int,
                    ) <= u64::MAX,
                forall|i: int|
                    0 <= i < start.len() ==> self.spec_counts()[i] == start[i] + inflow(
                        targets,
                        other.spec_counts(),
                        i,
                        o_idx as int,
                    ),
                total(self.spec_counts()) == total(start) + total_upto(
                    other.spec_counts(),
                    o_idx as int,
                ),
            decreases n - o_idx,
        {
            let o_c: u64 = other.counts_at_idx(o_idx);
            let o_val = other.val_at_idx(o_idx);
            let s_idx = self.idx_at_val(o_val);
            proof {
                Self::lemma_bins(axes);
                assert(targets[o_idx as int] == s_idx);
                lemma_inflow_grows(
                    targets,
                    other.spec_counts(),
                    s_idx as int,
                    o_idx + 1,
                    n as int,
                );
                lemma_total_update(
                    self.spec_counts(),
                    s_idx as int,
                    (self.spec_counts()[s_idx as int] + o_c) as u64,
                    self.spec_counts().len() as int,
                );
            }
            self.fill_at_idx_with_counts(s_idx, o_c);
            o_idx += 1;
        }
    }

    /// Returns the index of the bin that `val` falls into.
    fn idx_at_val(&self, val: Self::Val) -> (idx: usize)
        requires
            Self::axes_wf(self.spec_axes()),
        ensures
            idx == Self::idx_of(self.spec_axes(), Self::bin_of(self.spec_axes(), val)),
            idx < Self::cells(self.spec_axes()),
    {
        proof {
            Self::lemma_bins(self.spec_axes());
        }
        let bin = self.bin_at_val(val);
        self.idx_at_bin(bin)
    }

    /// Returns the value in the middle of the bin at index `idx`.
    fn val_at_idx(&self, idx: usize) -> (val: Self::Val)
        requires
            Self::axes_wf(self.spec_axes()),
            idx < Self::cells(self.spec_axes()),
        ensures
            val == Self::val_of(self.spec_axes(), Self::bin_at(self.spec_axes(), idx as int)),
    {
        proof {
            Self::lemma_bins(self.spec_axes());
        }
        let bin = self.bin_at_idx(idx);
        self.val_at_bin(bin)
    }

    /// Returns the count of the bin that `val` falls into.
    fn counts_at_val(&self, val: Self::Val) -> (c: u64)
        requires
            Self::axes_wf(self.spec_axes()),
            self.spec_counts().len() == Self::cells(self.spec_axes()),
        ensures
            c == self.spec_counts()[Self::idx_of(self.spec_axes(), Self::bin_of(self.spec_axes(), val))],
    {
        let idx = self.idx_at_val(val);
        self.counts_at_idx(idx)
    }

    /// Returns the count of the bin `bin`.
    fn counts_at_bin(&self, bin: Self::Bin) -> (c: u64)
        requires
            Self::axes_wf(self.spec_axes()),
            self.spec_counts().len() == Self::cells(self.spec_axes()),
            Self::has_bin(self.spec_axes(), bin),
        ensures
            c == self.spec_counts()[Self::idx_of(self.spec_axes(), bin)],
    {
        proof {
            Self::lemma_bins(self.spec_axes());
        }
        let idx = self.idx_at_bin(bin);
        self.counts_at_idx(idx)
    }

    /// Returns the count of the bin at index `idx`.
    fn counts_at_idx(&self, idx: usize) -> (c: u64)
        requires
            idx < self.spec_counts().len(),
        ensures
            c == self.spec_counts()[idx as int],
    {
        self.counts()[idx]
    }

    /// Sets every count to 0. The axes and the number of bins stay.
    fn clear(&mut self)
        ensures
            final(self).spec_axes() == old(self).spec_axes(),
            final(self).spec_counts().len() == old(self).spec_counts().len(),
            forall|i: int|
                0 <= i < final(self).spec_counts().len() ==> final(self).spec_counts()[i] == 0,
            total(final(self).spec_counts()) == 0,
    {
        let c = self.counts_mut();
        let n: usize = c.len();
        let mut i: usize = 0;
        while i < n
            invariant
                i <= n,
                c.len() == n,
                forall|j: int| 0 <= j < i ==> c@[j] == 0,
            decreases n - i,
        {
            c.set(i, 0u64);
            i += 1;
        }
        proof {
            lemma_total_of_zeros(c@, n as int);
        }
    }
}


/// For each index of a histogram over `src`, the index in a histogram over
/// `dst` of the bin that the middle value of its bin falls into.
pub open spec fn targets<H: Hist>(dst: H::Axes, src: H::Axes) -> Seq<int> {
    Seq::new(
        H::cells(src) as nat,
        |o: int| H::idx_of(dst, H::bin_of(dst, H::val_of(src, H::bin_at(src, o)))),
    )
}

/// The counts of a histogram over `dst` with the counts `counts`, after a
/// histogram over `src` with the counts `more` was added to it.
pub open spec fn added<H: Hist>(dst: H::Axes, counts: Seq<u64>, src: H::Axes, more: Seq<u64>)
    -> Seq<u64> {
    Seq::new(
        counts.len(),
        |i: int| (counts[i] + inflow(targets::<H>(dst, src), more, i, more.len() as int)) as u64,
    )
}

/// No index receives more than all counts that are moved.
pub proof fn lemma_inflow_within_total(targets: Seq<int>, counts: Seq<u64>, i: int, upto: int)
    ensures
        inflow(targets, counts, i, upto) <= total_upto(counts, upto),
    decreases upto,
{
    if upto > 0 {
        lemma_inflow_within_total(targets, counts, i, upto - 1);
    }
}

/// Returns the sum of the counts, if it is at most `u64::MAX`.
pub fn sum_of(counts: &Vec<u64>) -> (r: Option<u64>)
    ensures
        r == if total(counts@) <= u64::MAX {
            Some(total(counts@) as u64)
        } else {
            None
        },
{
    let mut sum: u64 = 0;
    let mut i: usize = 0;
    while i < counts.len()
        invariant
            i <= counts@.len(),
            sum == total_upto(counts@, i as int),
        decreases counts.len() - i,
    {
        let c: u64 = counts[i];
        if c > u64::MAX - sum {
            proof {
                lemma_total_grows(counts@, i + 1, counts@.len() as int);
            }
            return None;
        }
        sum = sum + c;
        i += 1;
    }
    Some(sum)
}

/// Adds the counts of `src` to `dst`, as `Hist::add` does, where both are
/// well formed and all their counts together are at most `u64::MAX`.
/// Else `dst` stays as it is, and `ConstraintViolation` is returned.
pub fn add_checked<H: Hist>(dst: &mut H, src: &H) -> (r: Result<(), DkError>)
    ensures
        final(dst).spec_axes() == old(dst).spec_axes(),
        r is Ok <==> H::axes_wf(old(dst).spec_axes()) && old(dst).spec_counts().len() == H::cells(
            old(dst).spec_axes(),
        ) && H::axes_wf(src.spec_axes()) && src.spec_counts().len() == H::cells(src.spec_axes())
            && total(old(dst).spec_counts()) + total(src.spec_counts()) <= u64::MAX,
        r is Ok ==> final(dst).spec_counts() == added::<H>(
            old(dst).spec_axes(),
            old(dst).spec_counts(),
            src.spec_axes(),
            src.spec_counts(),
        ),
        r is Err ==> r->Err_0 == DkError::ConstraintViolation && final(dst).spec_counts() == old(
            dst,
        ).spec_counts(),
{
    if !dst.is_valid() || !src.is_valid() {
        return Err(DkError::ConstraintViolation);
    }
    let fits: bool = match (sum_of(dst.counts()), sum_of(src.counts())) {
        (Some(a), Some(b)) => b <= u64::MAX - a,
        _ => false,
    };
    proof {
        lemma_total_grows(dst.spec_counts(), 0, dst.spec_counts().len() as int);
        lemma_total_grows(src.spec_counts(), 0, src.spec_counts().len() as int);
    }
    if !fits {
        return Err(DkError::ConstraintViolation);
    }
    let ghost moved = targets::<H>(dst.spec_axes(), src.spec_axes());
    proof {
        assert(moved =~= Seq::new(
            H::cells(src.spec_axes()) as nat,
            |o: int|
                H::idx_of(
                    dst.spec_axes(),
                    H::bin_of(
                        dst.spec_axes(),
                        H::val_of(src.spec_axes(), H::bin_at(src.spec_axes(), o)),
                    ),
                ),
        ));
        assert forall|i: int| 0 <= i < dst.spec_counts().len() implies dst.spec_counts()[i]
            + inflow(moved, src.spec_counts(), i, src.spec_counts().len() as int)
            <= u64::MAX by {
            lemma_inflow_within_total(
                moved,
                src.spec_counts(),
                i,
                src.spec_counts().len() as int,
            );
            lemma_total_grows(dst.spec_counts(), i, i + 1);
            lemma_total_grows(dst.spec_counts(), i + 1, dst.spec_counts().len() as int);
        }
    }
    dst.add(src);
    proof {
        assert(dst.spec_counts() =~= added::<H>(
            old(dst).spec_axes(),
            old(dst).spec_counts(),
            src.spec_axes(),
            src.spec_counts(),
        ));
    }
    Ok(())
}

/// Adding a histogram to one with the same axes leaves every count in its
/// place: each index receives exactly the count that `src` has there. With
/// `add`, a histogram whose counts are all 0 so becomes equal to `src`.
///
/// This holds where every bin of `src` with a count is found again from
/// its middle value.
pub proof fn lemma_add_in_place<H: Hist>(axes: H::Axes, counts: Seq<u64>, i: int)
    requires
        H::axes_wf(axes),
        counts.len() == H::cells(axes),
        0 <= i < counts.len(),
        forall|o: int|
            0 <= o < counts.len() && counts[o] > 0 ==> H::bin_of(
                axes,
                H::val_of(axes, H::bin_at(axes, o)),
            ) == H::bin_at(axes, o),
    ensures
        inflow(
            Seq::new(
                H::cells(axes) as nat,
                |o: int| H::idx_of(axes, H::bin_of(axes, H::val_of(axes, H::bin_at(axes, o)))),
            ),
            counts,
            i,
            counts.len() as int,
        ) == counts[i],
{
    H::lemma_bins(axes);
    let targets = Seq::new(
        H::cells(axes) as nat,
        |o: int| H::idx_of(axes, H::bin_of(axes, H::val_of(axes, H::bin_at(axes, o)))),
    );
    assert forall|o: int| 0 <= o < counts.len() && counts[o] > 0 implies targets[o] == o by {
        assert(H::has_bin(axes, H::bin_at(axes, o)));
    }
    lemma_inflow_in_place(targets, counts, i, counts.len() as int);
}

/// Adding a histogram to one with the same axes whose counts are all 0
/// gives the counts of the histogram that was added, where every bin of it
/// with a count is found again from its middle value.
pub proof fn lemma_add_to_cleared<H: Hist>(axes: H::Axes, zeros: Seq<u64>, counts: Seq<u64>)
    requires
        H::axes_wf(axes),
        counts.len() == H::cells(axes),
        zeros.len() == counts.len(),
        forall|i: int| 0 <= i < zeros.len() ==> zeros[i] == 0,
        forall|o: int|
            0 <= o < counts.len() && counts[o] > 0 ==> H::bin_of(
                axes,
                H::val_of(axes, H::bin_at(axes, o)),
            ) == H::bin_at(axes, o),
    ensures
        added::<H>(axes, zeros, axes, counts) == counts,
{
    assert forall|i: int| 0 <= i < counts.len() implies added::<H>(axes, zeros, axes, counts)[i]
        == counts[i] by {
        lemma_add_in_place::<H>(axes, counts, i);
        assert(targets::<H>(axes, axes) =~= Seq::new(
            H::cells(axes) as nat,
            |o: int| H::idx_of(axes, H::bin_of(axes, H::val_of(axes, H::bin_at(axes, o)))),
        ));
    }
    assert(added::<H>(axes, zeros, axes, counts) =~= counts);
}

/// Returns `n` counts, all 0.
pub(crate) fn zeros(n: usize) -> (v: Vec<u64>)
    ensures
        v@.len() == n,
        forall|i: int| 0 <= i < n ==> v@[i] == 0,
{
    let mut v: Vec<u64> = Vec::new();
    let mut i: usize = 0;
    while i < n
        invariant
            i <= n,
            v@.len() == i,
            forall|j: int| 0 <= j < i ==> v@[j] == 0,
        decreases n - i,
    {
        v.push(0u64);
        i += 1;
    }
    v
}

/// The index `n * p + b` of place `b` in row `p` of rows of length `n`
/// lies below `m * n` where there are `m` rows, and gives `p` and `b` back.
pub proof fn lemma_flat(n: int, m: int, p: int, b: int)
    requires
        n > 0,
        0 <= p < m,
        0 <= b < n,
    ensures
        0 <= n * p + b < m * n,
        (n * p + b) / n == p,
        (n * p + b) % n == b,
{
    assert(n * p >= 0 && n * p + n <= m * n) by (nonlinear_arith)
        requires
            n > 0,
            0 <= p,
            p + 1 <= m,
    ;
    assert(p * n == n * p) by (nonlinear_arith);
    lemma_quotient_is(n * p + b, n, p);
    lemma_fundamental_div_mod(n * p + b, n);
}

/// An index below `m * n` names a row below `m` and a place below `n`.
pub proof fn lemma_unflat(n: int, m: int, idx: int)
    requires
        n > 0,
        0 <= idx < m * n,
    ensures
        0 <= idx / n < m,
        0 <= idx % n < n,
        n * (idx / n) + idx % n == idx,
{
    lemma_fundamental_div_mod(idx, n);
    lemma_mod_bound(idx, n);
    let q = idx / n;
    if q < 0 {
        assert(n * q <= -n) by (nonlinear_arith)
            requires
                n > 0,
                q <= -1,
        ;
    }
    if q >= m {
        assert(n * q >= m * n) by (nonlinear_arith)
            requires
                n > 0,
                q >= m,
        ;
    }
}

/// Multiplies a number of bins by the number of bins of one more axis,
/// where the axis is not empty and the product is at most `u32::MAX`.
pub(crate) fn times(p: Option<u32>, n: u32) -> (r: Option<u32>)
    ensures
        r is Some <==> p is Some && n > 0 && p->Some_0 * n <= u32::MAX,
        r matches Some(q) ==> q == p->Some_0 * n,
{
    match p {
        Some(p) => {
            assert(p * n <= 0xffff_ffff * 0xffff_ffff) by (nonlinear_arith)
                requires
                    p <= 0xffff_ffff,
                    n <= 0xffff_ffff,
            ;
            let q: u64 = p as u64 * n as u64;
            if n == 0 || q > u32::MAX as u64 {
                None
            } else {
                Some(q as u32)
            }
        },
        None => None,
    }
}

/// A product of numbers that are at least 1 is at least each factor.
pub proof fn lemma_product_grows(p: int, n: int)
    requires
        p >= 1,
        n >= 1,
    ensures
        p * n >= p,
        p * n >= n,
        p * n >= 1,
{
    assert(p * n >= p && p * n >= n) by (nonlinear_arith)
        requires
            p >= 1,
            n >= 1,
    ;
}

} // verus!
