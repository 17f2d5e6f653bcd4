//! Histograms of four dimensions.

use crate::hist::{lemma_flat, lemma_product_grows, lemma_unflat, times, zeros, Hist, HistAxis};
use vstd::prelude::*;

verus! {

/// A type that describes a 4D histogram.
#[derive(Debug, PartialEq, Eq)]
pub struct Hist4d {
    axes: (HistAxis, HistAxis, HistAxis, HistAxis),
    counts: Vec<u64>,
}

impl Clone for Hist4d {
    fn clone(&self) -> (r: Self)
        ensures
            r.spec_axes() == self.spec_axes(),
            r.spec_counts() == self.spec_counts(),
    {
        let counts = self.counts.clone();
        assert(counts@ =~= self.counts@);
        Hist4d { axes: self.axes, counts }
    }
}

impl Hist for Hist4d {
    type Bin = (u32, u32, u32, u32);

    type Val = (i64, i64, i64, i64);

    type Axes = (HistAxis, HistAxis, HistAxis, HistAxis);

    open spec fn axes_wf(axes: (HistAxis, HistAxis, HistAxis, HistAxis)) -> bool {
        axes.0.wf() && axes.1.wf() && axes.2.wf() && axes.3.wf() && axes.0.bins * axes.1.bins
            * axes.2.bins * axes.3.bins <= u32::MAX
    }

    open spec fn cells(axes: (HistAxis, HistAxis, HistAxis, HistAxis)) -> int {
        axes.0.bins * axes.1.bins * axes.2.bins * axes.3.bins
    }

    open spec fn has_bin(
        axes: (HistAxis, HistAxis, HistAxis, HistAxis),
        bin: (u32, u32, u32, u32),
    ) -> bool {
        bin.0 < axes.0.bins && bin.1 < axes.1.bins && bin.2 < axes.2.bins && bin.3
            < axes.3.bins
    }

    open spec fn bin_of(
        axes: (HistAxis, HistAxis, HistAxis, HistAxis),
        val: (i64, i64, i64, i64),
    ) -> (u32, u32, u32, u32) {
        (
            axes.0.bin_of(val.0 as int) as u32,
            axes.1.bin_of(val.1 as int) as u32,
            axes.2.bin_of(val.2 as int) as u32,
            axes.3.bin_of(val.3 as int) as u32,
        )
    }

    open spec fn val_of(
        axes: (HistAxis, HistAxis, HistAxis, HistAxis),
        bin: (u32, u32, u32, u32),
    ) -> (i64, i64, i64, i64) {
        (
            axes.0.mid_of(bin.0 as int) as i64,
            axes.1.mid_of(bin.1 as int) as i64,
            axes.2.mid_of(bin.2 as int) as i64,
            axes.3.mid_of(bin.3 as int) as i64,
        )
    }

    open spec fn idx_of(
        axes: (HistAxis, HistAxis, HistAxis, HistAxis),
        bin: (u32, u32, u32, u32),
    ) -> int {
        axes.3.bins * (axes.2.bins * (axes.1.bins * bin.0 + bin.1) + bin.2) + bin.3
    }

    open spec fn bin_at(axes: (HistAxis, HistAxis, HistAxis, HistAxis), idx: int) -> (
        u32,
        u32,
        u32,
        u32,
    ) {
        let n1 = axes.1.bins as int;
        let n2 = axes.2.bins as int;
        let n3 = axes.3.bins as int;
        (
            (idx / n3 / n2 / n1) as u32,
            (idx / n3 / n2 % n1) as u32,
            (idx / n3 % n2) as u32,
            (idx % n3) as u32,
        )
    }

    closed spec fn spec_axes(&self) -> (HistAxis, HistAxis, HistAxis, HistAxis) {
        self.axes
    }

    closed spec fn spec_counts(&self) -> Seq<u64> {
        self.counts@
    }

    proof fn lemma_bins(axes: (HistAxis, HistAxis, HistAxis, HistAxis)) {
        let n0 = axes.0.bins as int;
        let n1 = axes.1.bins as int;
        let n2 = axes.2.bins as int;
        let n3 = axes.3.bins as int;
        lemma_product_grows(n0, n1);
        lemma_product_grows(n0 * n1, n2);
        lemma_product_grows(n0 * n1 * n2, n3);
        assert forall|bin: (u32, u32, u32, u32)| #[trigger] Self::has_bin(axes, bin) implies 0
            <= Self::idx_of(axes, bin) < Self::cells(axes) && Self::bin_at(
            axes,
            Self::idx_of(axes, bin),
        ) == bin by {
            let row = n1 * bin.0 + bin.1;
            let plane = n2 * row + bin.2;
            lemma_flat(n1, n0, bin.0 as int, bin.1 as int);
            lemma_flat(n2, n0 * n1, row, bin.2 as int);
            lemma_flat(n3, n0 * n1 * n2, plane, bin.3 as int);
        }
        assert forall|idx: int| 0 <= idx < Self::cells(axes) implies Self::has_bin(
            axes,
            #[trigger] Self::bin_at(axes, idx),
        ) && Self::idx_of(axes, Self::bin_at(axes, idx)) == idx by {
            lemma_unflat(n3, n0 * n1 * n2, idx);
            lemma_unflat(n2, n0 * n1, idx / n3);
            lemma_unflat(n1, n0, idx / n3 / n2);
        }
        assert forall|val: (i64, i64, i64, i64)|
            Self::has_bin(axes, #[trigger] Self::bin_of(axes, val)) by {
            axes.0.lemma_bin_of(val.0 as int);
            axes.1.lemma_bin_of(val.1 as int);
            axes.2.lemma_bin_of(val.2 as int);
            axes.3.lemma_bin_of(val.3 as int);
        }
    }

    fn axes(&self) -> (a: &(HistAxis, HistAxis, HistAxis, HistAxis)) {
        &self.axes
    }

    fn bin_at_val(&self, val: (i64, i64, i64, i64)) -> (bin: (u32, u32, u32, u32)) {
        (
            self.axes.0.bin_at_val(val.0) as u32,
            self.axes.1.bin_at_val(val.1) as u32,
            self.axes.2.bin_at_val(val.2) as u32,
            self.axes.3.bin_at_val(val.3) as u32,
        )
    }

    fn val_at_bin(&self, bin: (u32, u32, u32, u32)) -> (val: (i64, i64, i64, i64)) {
        (
            self.axes.0.val_at_bin_mid(bin.0 as usize),
            self.axes.1.val_at_bin_mid(bin.1 as usize),
            self.axes.2.val_at_bin_mid(bin.2 as usize),
            self.axes.3.val_at_bin_mid(bin.3 as usize),
        )
    }

    fn idx_at_bin(&self, bin: (u32, u32, u32, u32)) -> (idx: usize) {
        let n1: u64 = self.axes.1.bins as u64;
        let n2: u64 = self.axes.2.bins as u64;
        let n3: u64 = self.axes.3.bins as u64;
        proof {
            let n0 = self.axes.0.bins as int;
            lemma_product_grows(n0, n1 as int);
            lemma_product_grows(n0 * n1, n2 as int);
            lemma_product_grows(n0 * n1 * n2, n3 as int);
            lemma_flat(n1 as int, n0, bin.0 as int, bin.1 as int);
            lemma_flat(n2 as int, n0 * n1, n1 * bin.0 + bin.1, bin.2 as int);
            lemma_flat(
                n3 as int,
                n0 * n1 * n2,
                n2 * (n1 * bin.0 + bin.1) + bin.2,
                bin.3 as int,
            );
        }
        let row: u64 = n1 * bin.0 as u64 + bin.1 as u64;
        assert(n2 * row <= 0xffff_ffff * 0xffff_ffff) by (nonlinear_arith)
            requires
                n2 <= 0xffff_ffff,
                row <= 0xffff_ffff,
        ;
        let plane: u64 = n2 * row + bin.2 as u64;
        assert(n3 * plane <= 0xffff_ffff * 0xffff_ffff) by (nonlinear_arith)
            requires
                n3 <= 0xffff_ffff,
                plane <= 0xffff_ffff,
        ;
        (n3 * plane + bin.3 as u64) as usize
    }

    fn bin_at_idx(&self, idx: usize) -> (bin: (u32, u32, u32, u32)) {
        let n1: usize = self.axes.1.bins as usize;
        let n2: usize = self.axes.2.bins as usize;
        let n3: usize = self.axes.3.bins as usize;
        proof {
            let n0 = self.axes.0.bins as int;
            lemma_unflat(n3 as int, n0 * n1 * n2, idx as int);
            lemma_unflat(n2 as int, n0 * n1, idx as int / n3 as int);
            lemma_unflat(n1 as int, n0, idx as int / n3 as int / n2 as int);
        }
        (
            (idx / n3 / n2 / n1) as u32,
            (idx / n3 / n2 % n1) as u32,
            (idx / n3 % n2) as u32,
            (idx % n3) as u32,
        )
    }

    fn counts(&self) -> (c: &Vec<u64>) {
        &self.counts
    }

    fn counts_mut(&mut self) -> (c: &mut Vec<u64>) {
        &mut self.counts
    }

    fn is_valid(&self) -> (r: bool) {
        let axes_ok: bool = self.axes.0.bins >= 1 && self.axes.0.min <= self.axes.0.max
            && self.axes.1.bins >= 1 && self.axes.1.min <= self.axes.1.max
            && self.axes.2.bins >= 1 && self.axes.2.min <= self.axes.2.max
            && self.axes.3.bins >= 1 && self.axes.3.min <= self.axes.3.max;
        proof {
            if axes_ok {
                lemma_product_grows(self.axes.0.bins as int, self.axes.1.bins as int);
                lemma_product_grows(
                    self.axes.0.bins * self.axes.1.bins,
                    self.axes.2.bins as int,
                );
                lemma_product_grows(
                    self.axes.0.bins * self.axes.1.bins * self.axes.2.bins,
                    self.axes.3.bins as int,
                );
            }
        }
        match times(
            times(times(Some(self.axes.0.bins), self.axes.1.bins), self.axes.2.bins),
            self.axes.3.bins,
        ) {
            Some(n) => axes_ok && self.counts.len() as u64 == n as u64,
            None => false,
        }
    }
}

impl Hist4d {
    /// The histogram has one count for each bin of its axes.
    pub open spec fn wf(&self) -> bool {
        Self::axes_wf(self.spec_axes()) && self.spec_counts().len() == Self::cells(
            self.spec_axes(),
        )
    }

    /// Constructs a new `Hist4d` with all counts 0.
    ///
    /// The parameters of each axis are passed to `HistAxis::new`. `None` is
    /// returned where an axis is invalid, and where the axes have more than
    /// `u32::MAX` bins in all.
    pub fn new(
        bins_0: u32,
        min_0: i64,
        max_0: i64,
        bins_1: u32,
        min_1: i64,
        max_1: i64,
        bins_2: u32,
        min_2: i64,
        max_2: i64,
        bins_3: u32,
        min_3: i64,
        max_3: i64,
    ) -> (r: Option<Hist4d>)
        ensures
            r is Some <==> bins_0 > 0 && bins_1 > 0 && bins_2 > 0 && bins_3 > 0 && bins_0
                * bins_1 * bins_2 * bins_3 <= u32::MAX,
            r matches Some(h) ==> h.wf() && h.spec_axes() == (
                HistAxis::new_spec(bins_0, min_0, max_0)->Some_0,
                HistAxis::new_spec(bins_1, min_1, max_1)->Some_0,
                HistAxis::new_spec(bins_2, min_2, max_2)->Some_0,
                HistAxis::new_spec(bins_3, min_3, max_3)->Some_0,
            ) && h.spec_counts() == Seq::new(
                (bins_0 * bins_1 * bins_2 * bins_3) as nat,
                |i: int| 0u64,
            ),
    {
        proof {
            if bins_0 > 0 && bins_1 > 0 && bins_2 > 0 && bins_3 > 0 {
                lemma_product_grows(bins_0 as int, bins_1 as int);
                lemma_product_grows(bins_0 * bins_1, bins_2 as int);
                lemma_product_grows(bins_0 * bins_1 * bins_2, bins_3 as int);
            }
        }
        match (
            HistAxis::new(bins_0, min_0, max_0),
            HistAxis::new(bins_1, min_1, max_1),
            HistAxis::new(bins_2, min_2, max_2),
            HistAxis::new(bins_3, min_3, max_3),
            times(times(times(Some(bins_0), bins_1), bins_2), bins_3),
        ) {
            (Some(axis_0), Some(axis_1), Some(axis_2), Some(axis_3), Some(n)) => {
                let counts = zeros(n as usize);
                assert(counts@ =~= Seq::new(
                    (bins_0 * bins_1 * bins_2 * bins_3) as nat,
                    |i: int| 0u64,
                ));
                Some(Hist4d { axes: (axis_0, axis_1, axis_2, axis_3), counts })
            },
            _ => None,
        }
    }

    /// Constructs a new `Hist4d` with the given counts, in row-major
    /// order.
    ///
    /// `None` is returned where `new` returns it, and where `counts` has
    /// not one count for each bin.
    pub fn with_counts(
        bins_0: u32,
        min_0: i64,
        max_0: i64,
        bins_1: u32,
        min_1: i64,
        max_1: i64,
        bins_2: u32,
        min_2: i64,
        max_2: i64,
        bins_3: u32,
        min_3: i64,
        max_3: i64,
        counts: Vec<u64>,
    ) -> (r: Option<Hist4d>)
        ensures
            r is Some <==> bins_0 > 0 && bins_1 > 0 && bins_2 > 0 && bins_3 > 0 && bins_0
                * bins_1 * bins_2 * bins_3 <= u32::MAX && counts@.len() == bins_0 * bins_1
                * bins_2 * bins_3,
            r matches Some(h) ==> h.wf() && h.spec_axes() == (
                HistAxis::new_spec(bins_0, min_0, max_0)->Some_0,
                HistAxis::new_spec(bins_1, min_1, max_1)->Some_0,
                HistAxis::new_spec(bins_2, min_2, max_2)->Some_0,
                HistAxis::new_spec(bins_3, min_3, max_3)->Some_0,
            ) && h.spec_counts() == counts@,
    {
        proof {
            if bins_0 > 0 && bins_1 > 0 && bins_2 > 0 && bins_3 > 0 {
                lemma_product_grows(bins_0 as int, bins_1 as int);
                lemma_product_grows(bins_0 * bins_1, bins_2 as int);
                lemma_product_grows(bins_0 * bins_1 * bins_2, bins_3 as int);
            }
        }
        match (
            HistAxis::new(bins_0, min_0, max_0),
            HistAxis::new(bins_1, min_1, max_1),
            HistAxis::new(bins_2, min_2, max_2),
            HistAxis::new(bins_3, min_3, max_3),
            times(times(times(Some(bins_0), bins_1), bins_2), bins_3),
        ) {
            (Some(axis_0), Some(axis_1), Some(axis_2), Some(axis_3), Some(n)) => {
                if counts.len() as u64 != n as u64 {
                    None
                } else {
                    Some(Hist4d { axes: (axis_0, axis_1, axis_2, axis_3), counts })
                }
            },
            _ => None,
        }
    }
}

} // verus!
