//! Histograms of two dimensions.

use crate::hist::{lemma_flat, lemma_product_grows, lemma_unflat, times, zeros, Hist, HistAxis};
use vstd::prelude::*;

verus! {

/// A type that describes a 2D histogram.
#[derive(Debug, PartialEq, Eq)]
pub struct Hist2d {
    axes: (HistAxis, HistAxis),
    counts: Vec<u64>,
}

impl Clone for Hist2d {
    fn clone(&self) -> (r: Self)
        ensures
            r.spec_axes() == self.spec_axes(),
            r.spec_counts() == self.spec_counts(),
    {
        let counts = self.counts.clone();
        assert(counts@ =~= self.counts@);
        Hist2d { axes: self.axes, counts }
    }
}

impl Hist for Hist2d {
    type Bin = (u32, u32);

    type Val = (i64, i64);

    type Axes = (HistAxis, HistAxis);

    open spec fn axes_wf(axes: (HistAxis, HistAxis)) -> bool {
        axes.0.wf() && axes.1.wf() && axes.0.bins * axes.1.bins <= u32::MAX
    }

    open spec fn cells(axes: (HistAxis, HistAxis)) -> int {
        axes.0.bins * axes.1.bins
    }

    open spec fn has_bin(axes: (HistAxis, HistAxis), bin: (u32, u32)) -> bool {
        bin.0 < axes.0.bins && bin.1 < axes.1.bins
    }

    open spec fn bin_of(axes: (HistAxis, HistAxis), val: (i64, i64)) -> (u32, u32) {
        (axes.0.bin_of(val.0 as int) as u32, axes.1.bin_of(val.1 as int) as u32)
    }

    open spec fn val_of(axes: (HistAxis, HistAxis), bin: (u32, u32)) -> (i64, i64) {
        (axes.0.mid_of(bin.0 as int) as i64, axes.1.mid_of(bin.1 as int) as i64)
    }

    open spec fn idx_of(axes: (HistAxis, HistAxis), bin: (u32, u32)) -> int {
        axes.1.bins * bin.0 + bin.1
    }

    open spec fn bin_at(axes: (HistAxis, HistAxis), idx: int) -> (u32, u32) {
        ((idx / (axes.1.bins as int)) as u32, (idx % (axes.1.bins as int)) as u32)
    }

    closed spec fn spec_axes(&self) -> (HistAxis, HistAxis) {
        self.axes
    }

    closed spec fn spec_counts(&self) -> Seq<u64> {
        self.counts@
    }

    proof fn lemma_bins(axes: (HistAxis, HistAxis)) {
        let n0 = axes.0.bins as int;
        let n1 = axes.1.bins as int;
        assert(n0 * n1 >= 1) by (nonlinear_arith)
            requires
                n0 >= 1,
                n1 >= 1,
        ;
        assert forall|bin: (u32, u32)| #[trigger] Self::has_bin(axes, bin) implies 0
            <= Self::idx_of(axes, bin) < Self::cells(axes) && Self::bin_at(
            axes,
            Self::idx_of(axes, bin),
        ) == bin by {
            lemma_flat(n1, n0, bin.0 as int, bin.1 as int);
        }
        assert forall|idx: int| 0 <= idx < Self::cells(axes) implies Self::has_bin(
            axes,
            #[trigger] Self::bin_at(axes, idx),
        ) && Self::idx_of(axes, Self::bin_at(axes, idx)) == idx by {
            lemma_unflat(n1, n0, idx);
        }
        assert forall|val: (i64, i64)|
            Self::has_bin(axes, #[trigger] Self::bin_of(axes, val)) by {
            axes.0.lemma_bin_of(val.0 as int);
            axes.1.lemma_bin_of(val.1 as int);
        }
    }

    fn axes(&self) -> (a: &(HistAxis, HistAxis)) {
        &self.axes
    }

    fn bin_at_val(&self, val: (i64, i64)) -> (bin: (u32, u32)) {
        (self.axes.0.bin_at_val(val.0) as u32, self.axes.1.bin_at_val(val.1) as u32)
    }

    fn val_at_bin(&self, bin: (u32, u32)) -> (val: (i64, i64)) {
        (self.axes.0.val_at_bin_mid(bin.0 as usize), self.axes.1.val_at_bin_mid(bin.1 as usize))
    }

    fn idx_at_bin(&self, bin: (u32, u32)) -> (idx: usize) {
        proof {
            lemma_flat(
                self.axes.1.bins as int,
                self.axes.0.bins as int,
                bin.0 as int,
                bin.1 as int,
            );
        }
        (self.axes.1.bins as u64 * bin.0 as u64 + bin.1 as u64) as usize
    }

    fn bin_at_idx(&self, idx: usize) -> (bin: (u32, u32)) {
        proof {
            lemma_unflat(self.axes.1.bins as int, self.axes.0.bins as int, idx as int);
        }
        let n1: usize = self.axes.1.bins as usize;
        ((idx / n1) as u32, (idx % n1) as u32)
    }

    fn counts(&self) -> (c: &Vec<u64>) {
        &self.counts
    }

    fn counts_mut(&mut self) -> (c: &mut Vec<u64>) {
        &mut self.counts
    }

    fn is_valid(&self) -> (r: bool) {
        let axes_ok: bool = self.axes.0.bins >= 1 && self.axes.0.min <= self.axes.0.max
            && self.axes.1.bins >= 1 && self.axes.1.min <= self.axes.1.max;
        match times(Some(self.axes.0.bins), self.axes.1.bins) {
            Some(n) => axes_ok && self.counts.len() as u64 == n as u64,
            None => false,
        }
    }
}

impl Hist2d {
    /// The histogram has one count for each bin of its axes.
    pub open spec fn wf(&self) -> bool {
        Self::axes_wf(self.spec_axes()) && self.spec_counts().len() == Self::cells(
            self.spec_axes(),
        )
    }

    /// Constructs a new `Hist2d` with all counts 0.
    ///
    /// The parameters of each axis are passed to `HistAxis::new`. `None` is
    /// returned where an axis is invalid, and where the axes have more than
    /// `u32::MAX` bins in all.
    pub fn new(bins_0: u32, min_0: i64, max_0: i64, bins_1: u32, min_1: i64, max_1: i64) -> (r:
        Option<Hist2d>)
        ensures
            r is Some <==> bins_0 > 0 && bins_1 > 0 && bins_0 * bins_1 <= u32::MAX,
            r matches Some(h) ==> h.wf() && h.spec_axes() == (
                HistAxis::new_spec(bins_0, min_0, max_0)->Some_0,
                HistAxis::new_spec(bins_1, min_1, max_1)->Some_0,
            ) && h.spec_counts() == Seq::new((bins_0 * bins_1) as nat, |i: int| 0u64),
    {
        match (
            HistAxis::new(bins_0, min_0, max_0),
            HistAxis::new(bins_1, min_1, max_1),
            times(Some(bins_0), bins_1),
        ) {
            (Some(axis_0), Some(axis_1), Some(n)) => {
                let counts = zeros(n as usize);
                assert(counts@ =~= Seq::new((bins_0 * bins_1) as nat, |i: int| 0u64));
                Some(Hist2d { axes: (axis_0, axis_1), counts })
            },
            _ => None,
        }
    }

    /// Constructs a new `Hist2d` with the given counts, in row-major
    /// order.
    ///
    /// `None` is returned where `new` returns it, and where `counts` has
    /// not one count for each bin.
    pub fn with_counts(
        bins_0: u32,
        min_0: i64,
        max_0: i64,
        bins_1: u32,
        min_1: i64,
        max_1: i64,
        counts: Vec<u64>,
    ) -> (r: Option<Hist2d>)
        ensures
            r is Some <==> bins_0 > 0 && bins_1 > 0 && bins_0 * bins_1 <= u32::MAX
                && counts@.len() == bins_0 * bins_1,
            r matches Some(h) ==> h.wf() && h.spec_axes() == (
                HistAxis::new_spec(bins_0, min_0, max_0)->Some_0,
                HistAxis::new_spec(bins_1, min_1, max_1)->Some_0,
            ) && h.spec_counts() == counts@,
    {
        match (
            HistAxis::new(bins_0, min_0, max_0),
            HistAxis::new(bins_1, min_1, max_1),
            times(Some(bins_0), bins_1),
        ) {
            (Some(axis_0), Some(axis_1), Some(n)) => {
                if counts.len() as u64 != n as u64 {
                    None
                } else {
                    Some(Hist2d { axes: (axis_0, axis_1), counts })
                }
            },
            _ => None,
        }
    }
}

} // verus!
