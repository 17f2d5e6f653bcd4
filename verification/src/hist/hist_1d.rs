//! Histograms of one dimension.

use crate::hist::{zeros, Hist, HistAxis};
use vstd::prelude::*;

verus! {

/// A type that describes a 1D histogram.
#[derive(Debug, PartialEq, Eq)]
pub struct Hist1d {
    axes: HistAxis,
    counts: Vec<u64>,
}

impl Clone for Hist1d {
    fn clone(&self) -> (r: Self)
        ensures
            r.spec_axes() == self.spec_axes(),
            r.spec_counts() == self.spec_counts(),
    {
        let counts = self.counts.clone();
        assert(counts@ =~= self.counts@);
        Hist1d { axes: self.axes, counts }
    }
}

impl Hist for Hist1d {
    type Bin = u32;

    type Val = i64;

    type Axes = HistAxis;

    open spec fn axes_wf(axes: HistAxis) -> bool {
        axes.wf()
    }

    open spec fn cells(axes: HistAxis) -> int {
        axes.bins as int
    }

    open spec fn has_bin(axes: HistAxis, bin: u32) -> bool {
        bin < axes.bins
    }

    open spec fn bin_of(axes: HistAxis, val: i64) -> u32 {
        axes.bin_of(val as int) as u32
    }

    open spec fn val_of(axes: HistAxis, bin: u32) -> i64 {
        axes.mid_of(bin as int) as i64
    }

    open spec fn idx_of(axes: HistAxis, bin: u32) -> int {
        bin as int
    }

    open spec fn bin_at(axes: HistAxis, idx: int) -> u32 {
        idx as u32
    }

    closed spec fn spec_axes(&self) -> HistAxis {
        self.axes
    }

    closed spec fn spec_counts(&self) -> Seq<u64> {
        self.counts@
    }

    proof fn lemma_bins(axes: HistAxis) {
        assert forall|bin: u32| #[trigger] Self::has_bin(axes, bin) implies 0 <= Self::idx_of(
            axes,
            bin,
        ) < Self::cells(axes) && Self::bin_at(axes, Self::idx_of(axes, bin)) == bin by {}
        assert forall|idx: int| 0 <= idx < Self::cells(axes) implies Self::has_bin(
            axes,
            #[trigger] Self::bin_at(axes, idx),
        ) && Self::idx_of(axes, Self::bin_at(axes, idx)) == idx by {}
        assert forall|val: i64| Self::has_bin(axes, #[trigger] Self::bin_of(axes, val)) by {
            axes.lemma_bin_of(val as int);
        }
    }

    fn axes(&self) -> (a: &HistAxis) {
        &self.axes
    }

    fn bin_at_val(&self, val: i64) -> (bin: u32) {
        self.axes.bin_at_val(val) as u32
    }

    fn val_at_bin(&self, bin: u32) -> (val: i64) {
        self.axes.val_at_bin_mid(bin as usize)
    }

    fn idx_at_bin(&self, bin: u32) -> (idx: usize) {
        bin as usize
    }

    fn bin_at_idx(&self, idx: usize) -> (bin: u32) {
        idx as u32
    }

    fn counts(&self) -> (c: &Vec<u64>) {
        &self.counts
    }

    fn counts_mut(&mut self) -> (c: &mut Vec<u64>) {
        &mut self.counts
    }

    fn is_valid(&self) -> (r: bool) {
        self.axes.bins >= 1 && self.axes.min <= self.axes.max && self.counts.len() as u64
            == self.axes.bins as u64
    }
}

impl Hist1d {
    /// The histogram has one count for each bin of its axis.
    pub open spec fn wf(&self) -> bool {
        self.spec_axes().wf() && self.spec_counts().len() == self.spec_axes().bins
    }

    /// Constructs a new `Hist1d`, with `HistAxis` parameters.
    ///
    /// The parameters are passed to `HistAxis::new` of the only axis, and
    /// all counts are 0. If the parameters are invalid, `None` is returned.
    pub fn new(bins_0: u32, min_0: i64, max_0: i64) -> (r: Option<Hist1d>)
        ensures
            r is Some <==> bins_0 > 0,
            r matches Some(h) ==> h.wf() && Some(h.spec_axes()) == HistAxis::new_spec(
                bins_0,
                min_0,
                max_0,
            ) && h.spec_counts() == Seq::new(bins_0 as nat, |i: int| 0u64),
    {
        match HistAxis::new(bins_0, min_0, max_0) {
            Some(axis_0) => {
                let counts = zeros(bins_0 as usize);
                assert(counts@ =~= Seq::new(bins_0 as nat, |i: int| 0u64));
                Some(Hist1d { axes: axis_0, counts })
            },
            _ => None,
        }
    }

    /// Constructs a new `Hist1d`, with `HistAxis` parameters and data.
    ///
    /// The first three parameters are passed to `HistAxis::new` of the only
    /// axis. `counts.len()` must be equal to `bins_0`, else `None` is
    /// returned, as it is where the axis is invalid.
    pub fn with_counts(bins_0: u32, min_0: i64, max_0: i64, counts: Vec<u64>) -> (r: Option<
        Hist1d,
    >)
        ensures
            r is Some <==> bins_0 > 0 && counts@.len() == bins_0,
            r matches Some(h) ==> h.wf() && Some(h.spec_axes()) == HistAxis::new_spec(
                bins_0,
                min_0,
                max_0,
            ) && h.spec_counts() == counts@,
    {
        if counts.len() as u64 != bins_0 as u64 {
            None
        } else {
            match HistAxis::new(bins_0, min_0, max_0) {
                Some(axis_0) => Some(Hist1d { axes: axis_0, counts }),
                _ => None,
            }
        }
    }
}

} // verus!
