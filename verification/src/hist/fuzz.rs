//! Adding a histogram to another by redrawing every count at random.

use crate::error::DkError;
use crate::hist::{
    added, lemma_add_in_place, lemma_total_grows, lemma_total_update, sum_of, targets, total,
    total_upto, Hist, Hist1d, Hist2d, Hist3d, Hist4d, HistAxis,
};
use rand::distributions::{Distribution, Uniform};
use rand::rngs::StdRng;
use rand::SeedableRng;
use vstd::prelude::*;

verus! {

/// The seeded generator of the crate `rand`.
#[verifier::external_type_specification]
#[verifier::external_body]
pub struct ExStdRng(rand::rngs::StdRng);

/// Draws a value at random from `lo` up to, but not including, `hi`.
///
/// Calls `Uniform::new` and `Uniform::sample` of the crate `rand`, with the
/// generator of the thread. `Uniform::new` panics unless `lo < hi`, and the
/// value that is sampled lies in the half-open range; which value it is
/// depends on chance.
#[verifier::external_body]
fn draw(lo: i64, hi: i64) -> (v: i64)
    requires
        lo < hi,
    ensures
        lo <= v < hi,
{
    Uniform::new(lo, hi).sample(&mut rand::thread_rng())
}

/// Draws the next value of the generator `rng`, from `lo` up to, but not
/// including, `hi`.
///
/// Calls `Uniform::new` and `Uniform::sample` of the crate `rand`, with the
/// generator that is given. `Uniform::new` panics unless `lo < hi`, and
/// the value that is sampled lies in the half-open range; which value it is
/// depends on what the generator has given before.
#[verifier::external_body]
fn draw_next(rng: &mut StdRng, lo: i64, hi: i64) -> (v: i64)
    requires
        lo < hi,
    ensures
        lo <= v < hi,
{
    Uniform::new(lo, hi).sample(rng)
}

/// Makes a generator from a seed.
///
/// Calls `StdRng::seed_from_u64` of the crate `rand`. Nothing is stated of
/// the generator.
#[verifier::external_body]
fn generator(seed: u64) -> StdRng {
    StdRng::seed_from_u64(seed)
}

/// Where the values come from that are drawn: a generator that was made
/// from a seed, which gives the same values whenever it is made from the
/// same seed, or the generator of the thread, which does not.
pub struct Source {
    seeded: Option<StdRng>,
}

impl Source {
    /// The values come from a generator that was made from a seed.
    pub closed spec fn is_seeded(&self) -> bool {
        self.seeded is Some
    }

    /// The generator of the thread: what is drawn from it cannot be drawn
    /// again.
    pub fn unseeded() -> (r: Source)
        ensures
            !r.is_seeded(),
    {
        Source { seeded: None }
    }

    /// A generator made from `seed`.
    pub fn seeded(seed: u64) -> (r: Source)
        ensures
            r.is_seeded(),
    {
        Source { seeded: Some(generator(seed)) }
    }

    /// Draws a value from `lo` up to, but not including, `hi`.
    pub fn draw(&mut self, lo: i64, hi: i64) -> (v: i64)
        requires
            lo < hi,
        ensures
            lo <= v < hi,
            final(self).is_seeded() == old(self).is_seeded(),
    {
        match &mut self.seeded {
            Some(rng) => draw_next(rng, lo, hi),
            None => draw(lo, hi),
        }
    }
}

/// No count is larger than the sum of all counts.
pub proof fn lemma_count_within_total(counts: Seq<u64>, i: int)
    requires
        0 <= i < counts.len(),
    ensures
        counts[i] <= total(counts),
{
    lemma_total_grows(counts, i, i + 1);
    lemma_total_grows(counts, i + 1, counts.len() as int);
    assert(total_upto(counts, i + 1) == total_upto(counts, i) + counts[i]);
}

impl HistAxis {
    /// Bin `bin` of the axis holds a value: there is one from its lower
    /// edge up to the lower edge of the next bin.
    pub open spec fn holds_value(self, bin: int) -> bool {
        self.low_of(bin) < self.low_of(bin + 1)
    }

    /// The value lies within the edges of bin `bin`: from its lower edge
    /// up to, but not including, the lower edge of the next bin.
    pub open spec fn within(self, bin: int, val: int) -> bool {
        self.low_of(bin) <= val < self.low_of(bin + 1)
    }

    /// Tells whether bin `bin` of the axis holds a value.
    pub fn bin_holds_value(&self, bin: usize) -> (r: bool)
        requires
            self.wf(),
            bin < self.bins,
        ensures
            r == self.holds_value(bin as int),
    {
        self.val_at_bin_min(bin) < self.val_at_bin_max(bin)
    }

    /// Draws a value at random from within the edges of bin `bin`.
    pub fn draw_in_bin(&self, bin: usize, source: &mut Source) -> (v: i64)
        requires
            self.wf(),
            bin < self.bins,
            self.holds_value(bin as int),
        ensures
            self.within(bin as int, v as int),
            self.bin_of(v as int) == bin,
    {
        let lo: i64 = self.val_at_bin_min(bin);
        let hi: i64 = self.val_at_bin_max(bin);
        let v: i64 = source.draw(lo, hi);
        proof {
            self.lemma_within(bin as int, v as int);
        }
        v
    }

    /// The middle value of a bin that holds a value lies within its edges.
    pub proof fn lemma_middle_within(self, bin: int)
        requires
            self.wf(),
            0 <= bin < self.bins,
            self.holds_value(bin),
        ensures
            self.within(bin, self.mid_of(bin)),
            i64::MIN <= self.mid_of(bin) <= i64::MAX,
    {
        self.lemma_low_of(bin);
        self.lemma_low_of(bin + 1);
    }

    /// A value within the edges of a bin falls into that bin.
    pub proof fn lemma_within(self, bin: int, val: int)
        requires
            self.wf(),
            0 <= bin < self.bins,
            self.within(bin, val),
        ensures
            self.bin_of(val) == bin,
    {
        self.lemma_low_of(bin);
        self.lemma_low_of(bin + 1);
        self.lemma_bin_holds(bin, val);
    }
}

/// A histogram from whose bins values can be drawn.
pub trait Redraw: Hist {
    /// Every axis holds a value in its part of the bin at index `idx`.
    spec fn can_draw(axes: Self::Axes, idx: int) -> bool;

    /// The value lies within the edges of the bin at index `idx`, along
    /// every axis.
    spec fn in_range(axes: Self::Axes, idx: int, val: Self::Val) -> bool;

    /// A value within the edges of a bin falls into that bin.
    proof fn lemma_in_range(axes: Self::Axes, idx: int, val: Self::Val)
        requires
            Self::axes_wf(axes),
            0 <= idx < Self::cells(axes),
            Self::in_range(axes, idx, val),
        ensures
            Self::bin_of(axes, val) == Self::bin_at(axes, idx),
    ;

    /// The middle value of a bin that holds a value lies within its edges.
    proof fn lemma_middle_in_range(axes: Self::Axes, idx: int)
        requires
            Self::axes_wf(axes),
            0 <= idx < Self::cells(axes),
            Self::can_draw(axes, idx),
        ensures
            Self::in_range(axes, idx, Self::val_of(axes, Self::bin_at(axes, idx))),
    ;

    /// Tells whether a value can be drawn from the bin at index `idx`.
    fn can_draw_at(&self, idx: usize) -> (r: bool)
        requires
            Self::axes_wf(self.spec_axes()),
            self.spec_counts().len() == Self::cells(self.spec_axes()),
            idx < self.spec_counts().len(),
        ensures
            r == Self::can_draw(self.spec_axes(), idx as int),
    ;

    /// Draws a value at random from within the edges of the bin at index
    /// `idx`, each coordinate on its own.
    fn draw_at_idx(&self, idx: usize, source: &mut Source) -> (val: Self::Val)
        requires
            Self::axes_wf(self.spec_axes()),
            self.spec_counts().len() == Self::cells(self.spec_axes()),
            idx < self.spec_counts().len(),
            Self::can_draw(self.spec_axes(), idx as int),
        ensures
            Self::in_range(self.spec_axes(), idx as int, val),
    ;
}

impl Redraw for Hist1d {
    open spec fn can_draw(axes: HistAxis, idx: int) -> bool {
        axes.holds_value(idx)
    }

    open spec fn in_range(axes: HistAxis, idx: int, val: i64) -> bool {
        axes.within(idx, val as int)
    }

    proof fn lemma_in_range(axes: HistAxis, idx: int, val: i64) {
        axes.lemma_within(idx, val as int);
    }

    proof fn lemma_middle_in_range(axes: HistAxis, idx: int) {
        axes.lemma_middle_within(idx);
    }

    fn can_draw_at(&self, idx: usize) -> (r: bool) {
        self.axes().bin_holds_value(idx)
    }

    fn draw_at_idx(&self, idx: usize, source: &mut Source) -> (val: i64) {
        self.axes().draw_in_bin(idx, source)
    }
}

impl Redraw for Hist2d {
    open spec fn can_draw(axes: (HistAxis, HistAxis), idx: int) -> bool {
        let bin = Self::bin_at(axes, idx);
        axes.0.holds_value(bin.0 as int) && axes.1.holds_value(bin.1 as int)
    }

    open spec fn in_range(axes: (HistAxis, HistAxis), idx: int, val: (i64, i64)) -> bool {
        let bin = Self::bin_at(axes, idx);
        axes.0.within(bin.0 as int, val.0 as int) && axes.1.within(bin.1 as int, val.1 as int)
    }

    proof fn lemma_in_range(axes: (HistAxis, HistAxis), idx: int, val: (i64, i64)) {
        Self::lemma_bins(axes);
        let bin = Self::bin_at(axes, idx);
        assert(Self::has_bin(axes, bin));
        axes.0.lemma_within(bin.0 as int, val.0 as int);
        axes.1.lemma_within(bin.1 as int, val.1 as int);
    }

    proof fn lemma_middle_in_range(axes: (HistAxis, HistAxis), idx: int) {
        Self::lemma_bins(axes);
        let bin = Self::bin_at(axes, idx);
        assert(Self::has_bin(axes, bin));
        axes.0.lemma_middle_within(bin.0 as int);
        axes.1.lemma_middle_within(bin.1 as int);
    }

    fn can_draw_at(&self, idx: usize) -> (r: bool) {
        proof {
            Self::lemma_bins(self.spec_axes());
        }
        let bin = self.bin_at_idx(idx);
        let axes = self.axes();
        axes.0.bin_holds_value(bin.0 as usize) && axes.1.bin_holds_value(bin.1 as usize)
    }

    fn draw_at_idx(&self, idx: usize, source: &mut Source) -> (val: (i64, i64)) {
        proof {
            Self::lemma_bins(self.spec_axes());
        }
        let bin = self.bin_at_idx(idx);
        let axes = self.axes();
        let v0: i64 = axes.0.draw_in_bin(bin.0 as usize, source);
        let v1: i64 = axes.1.draw_in_bin(bin.1 as usize, source);
        (v0, v1)
    }
}

impl Redraw for Hist3d {
    open spec fn can_draw(axes: (HistAxis, HistAxis, HistAxis), idx: int) -> bool {
        let bin = Self::bin_at(axes, idx);
        axes.0.holds_value(bin.0 as int) && axes.1.holds_value(bin.1 as int)
            && axes.2.holds_value(bin.2 as int)
    }

    open spec fn in_range(axes: (HistAxis, HistAxis, HistAxis), idx: int, val: (i64, i64,
        i64)) -> bool {
        let bin = Self::bin_at(axes, idx);
        axes.0.within(bin.0 as int, val.0 as int) && axes.1.within(bin.1 as int, val.1 as int)
            && axes.2.within(bin.2 as int, val.2 as int)
    }

    proof fn lemma_in_range(axes: (HistAxis, HistAxis, HistAxis), idx: int, val: (i64, i64, i64)) {
        Self::lemma_bins(axes);
        let bin = Self::bin_at(axes, idx);
        assert(Self::has_bin(axes, bin));
        axes.0.lemma_within(bin.0 as int, val.0 as int);
        axes.1.lemma_within(bin.1 as int, val.1 as int);
        axes.2.lemma_within(bin.2 as int, val.2 as int);
    }

    proof fn lemma_middle_in_range(axes: (HistAxis, HistAxis, HistAxis), idx: int) {
        Self::lemma_bins(axes);
        let bin = Self::bin_at(axes, idx);
        assert(Self::has_bin(axes, bin));
        axes.0.lemma_middle_within(bin.0 as int);
        axes.1.lemma_middle_within(bin.1 as int);
        axes.2.lemma_middle_within(bin.2 as int);
    }

    fn can_draw_at(&self, idx: usize) -> (r: bool) {
        proof {
            Self::lemma_bins(self.spec_axes());
        }
        let bin = self.bin_at_idx(idx);
        let axes = self.axes();
        axes.0.bin_holds_value(bin.0 as usize) && axes.1.bin_holds_value(bin.1 as usize)
            && axes.2.bin_holds_value(bin.2 as usize)
    }

    fn draw_at_idx(&self, idx: usize, source: &mut Source) -> (val: (i64, i64, i64)) {
        proof {
            Self::lemma_bins(self.spec_axes());
        }
        let bin = self.bin_at_idx(idx);
        let axes = self.axes();
        let v0: i64 = axes.0.draw_in_bin(bin.0 as usize, source);
        let v1: i64 = axes.1.draw_in_bin(bin.1 as usize, source);
        let v2: i64 = axes.2.draw_in_bin(bin.2 as usize, source);
        (v0, v1, v2)
    }
}

impl Redraw for Hist4d {
    open spec fn can_draw(axes: (HistAxis, HistAxis, HistAxis, HistAxis), idx: int) -> bool {
        let bin = Self::bin_at(axes, idx);
        axes.0.holds_value(bin.0 as int) && axes.1.holds_value(bin.1 as int)
            && axes.2.holds_value(bin.2 as int) && axes.3.holds_value(bin.3 as int)
    }

    open spec fn in_range(axes: (HistAxis, HistAxis, HistAxis, HistAxis), idx: int, val: (i64, i64,
        i64, i64)) -> bool {
        let bin = Self::bin_at(axes, idx);
        axes.0.within(bin.0 as int, val.0 as int) && axes.1.within(bin.1 as int, val.1 as int)
            && axes.2.within(bin.2 as int, val.2 as int)
            && axes.3.within(bin.3 as int, val.3 as int)
    }

    proof fn lemma_in_range(axes: (HistAxis, HistAxis, HistAxis, HistAxis), idx: int, val: (i64,
        i64, i64, i64)) {
        Self::lemma_bins(axes);
        let bin = Self::bin_at(axes, idx);
        assert(Self::has_bin(axes, bin));
        axes.0.lemma_within(bin.0 as int, val.0 as int);
        axes.1.lemma_within(bin.1 as int, val.1 as int);
        axes.2.lemma_within(bin.2 as int, val.2 as int);
        axes.3.lemma_within(bin.3 as int, val.3 as int);
    }

    proof fn lemma_middle_in_range(axes: (HistAxis, HistAxis, HistAxis, HistAxis), idx: int) {
        Self::lemma_bins(axes);
        let bin = Self::bin_at(axes, idx);
        assert(Self::has_bin(axes, bin));
        axes.0.lemma_middle_within(bin.0 as int);
        axes.1.lemma_middle_within(bin.1 as int);
        axes.2.lemma_middle_within(bin.2 as int);
        axes.3.lemma_middle_within(bin.3 as int);
    }

    fn can_draw_at(&self, idx: usize) -> (r: bool) {
        proof {
            Self::lemma_bins(self.spec_axes());
        }
        let bin = self.bin_at_idx(idx);
        let axes = self.axes();
        axes.0.bin_holds_value(bin.0 as usize) && axes.1.bin_holds_value(bin.1 as usize)
            && axes.2.bin_holds_value(bin.2 as usize) && axes.3.bin_holds_value(bin.3 as usize)
    }

    fn draw_at_idx(&self, idx: usize, source: &mut Source) -> (val: (i64, i64, i64, i64)) {
        proof {
            Self::lemma_bins(self.spec_axes());
        }
        let bin = self.bin_at_idx(idx);
        let axes = self.axes();
        let v0: i64 = axes.0.draw_in_bin(bin.0 as usize, source);
        let v1: i64 = axes.1.draw_in_bin(bin.1 as usize, source);
        let v2: i64 = axes.2.draw_in_bin(bin.2 as usize, source);
        let v3: i64 = axes.3.draw_in_bin(bin.3 as usize, source);
        (v0, v1, v2, v3)
    }
}

/// How many of the first `upto` values fall into the bin at index `i` of a
/// histogram over `axes`.
pub open spec fn hits<H: Hist>(axes: H::Axes, vals: Seq<H::Val>, i: int, upto: int) -> int
    decreases upto,
{
    if upto <= 0 {
        0
    } else {
        hits::<H>(axes, vals, i, upto - 1) + if H::idx_of(axes, H::bin_of(axes, vals[upto - 1]))
            == i {
            1int
        } else {
            0int
        }
    }
}

/// Of `upto` values at most `upto` fall into one bin.
pub proof fn lemma_hits<H: Hist>(axes: H::Axes, vals: Seq<H::Val>, i: int, upto: int)
    requires
        0 <= upto,
    ensures
        0 <= hits::<H>(axes, vals, i, upto) <= upto,
    decreases upto,
{
    if upto > 0 {
        lemma_hits::<H>(axes, vals, i, upto - 1);
    }
}

/// Fills the histogram with the values `vals`: each adds 1 to the bin it
/// falls into. This is what `add_fuzz` does with the values it has drawn.
pub fn fill_all<H: Hist>(dst: &mut H, vals: Vec<H::Val>)
    requires
        H::axes_wf(old(dst).spec_axes()),
        old(dst).spec_counts().len() == H::cells(old(dst).spec_axes()),
        forall|i: int|
            0 <= i < old(dst).spec_counts().len() ==> old(dst).spec_counts()[i] + hits::<H>(
                old(dst).spec_axes(),
                vals@,
                i,
                vals@.len() as int,
            ) <= u64::MAX,
    ensures
        final(dst).spec_axes() == old(dst).spec_axes(),
        final(dst).spec_counts().len() == old(dst).spec_counts().len(),
        forall|i: int|
            0 <= i < old(dst).spec_counts().len() ==> final(dst).spec_counts()[i]
                == old(dst).spec_counts()[i]
                + hits::<H>(old(dst).spec_axes(), vals@, i, vals@.len() as int),
        total(final(dst).spec_counts()) == total(old(dst).spec_counts()) + vals@.len(),
{
    let mut vals = vals;
    let ghost all = vals@;
    let ghost n = all.len() as int;
    let ghost start = dst.spec_counts();
    let ghost axes = dst.spec_axes();
    while vals.len() > 0
        invariant
            vals@.len() <= n,
            n == all.len(),
            vals@ == all.take(vals@.len() as int),
            H::axes_wf(axes),
            dst.spec_axes() == axes,
            dst.spec_counts().len() == start.len(),
            start.len() == H::cells(axes),
            forall|i: int|
                0 <= i < start.len() ==> start[i] + hits::<H>(axes, all, i, n) <= u64::MAX,
            forall|i: int|
                0 <= i < start.len() ==> dst.spec_counts()[i] == start[i] + hits::<H>(
                    axes,
                    all,
                    i,
                    n,
                ) - hits::<H>(axes, all, i, vals@.len() as int),
            total(dst.spec_counts()) == total(start) + n - vals@.len(),
        decreases vals@.len(),
    {
        let ghost k = vals@.len() as int;
        let val = vals.pop().unwrap();
        let idx = dst.idx_at_val(val);
        proof {
            H::lemma_bins(axes);
            assert(all[k - 1] == val);
            lemma_hits::<H>(axes, all, idx as int, k - 1);
            lemma_total_update(
                dst.spec_counts(),
                idx as int,
                (dst.spec_counts()[idx as int] + 1) as u64,
                dst.spec_counts().len() as int,
            );
        }
        dst.fill_at_idx(idx);
    }
    proof {
        assert forall|i: int| 0 <= i < start.len() implies hits::<H>(axes, all, i, 0) == 0 by {}
    }
}

/// The value `val` lies within the edges of the bin at index `o` of a
/// histogram over `src`, and falls into the bin at index `i` of one over
/// `dst`.
pub open spec fn lands<H: Redraw>(src: H::Axes, dst: H::Axes, o: int, val: H::Val, i: int)
    -> bool {
    H::in_range(src, o, val) && H::idx_of(dst, H::bin_of(dst, val)) == i
}

/// Some value within the edges of the bin at index `o` of a histogram over
/// `src` falls into the bin at index `i` of one over `dst`.
pub open spec fn reaches<H: Redraw>(src: H::Axes, dst: H::Axes, o: int, i: int) -> bool {
    exists|val: H::Val| #[trigger] lands::<H>(src, dst, o, val, i)
}

/// The sum of those of the first `upto` counts of a histogram over `src`
/// whose bins reach the bin at index `i` of a histogram over `dst`: the
/// most that this bin can receive when the counts are drawn anew.
pub open spec fn reach_sum<H: Redraw>(
    src: H::Axes,
    counts: Seq<u64>,
    dst: H::Axes,
    i: int,
    upto: int,
) -> int
    decreases upto,
{
    if upto <= 0 {
        0
    } else {
        reach_sum::<H>(src, counts, dst, i, upto - 1) + if reaches::<H>(src, dst, upto - 1, i) {
            counts[upto - 1] as int
        } else {
            0
        }
    }
}

/// Values from within the edges of one bin fall only into bins that this
/// bin reaches.
pub proof fn lemma_hits_reach<H: Redraw>(
    src: H::Axes,
    dst: H::Axes,
    o: int,
    vals: Seq<H::Val>,
    i: int,
    upto: int,
)
    requires
        0 <= upto <= vals.len(),
        forall|t: int| 0 <= t < vals.len() ==> H::in_range(src, o, #[trigger] vals[t]),
    ensures
        0 <= hits::<H>(dst, vals, i, upto) <= upto,
        !reaches::<H>(src, dst, o, i) ==> hits::<H>(dst, vals, i, upto) == 0,
    decreases upto,
{
    if upto > 0 {
        lemma_hits_reach::<H>(src, dst, o, vals, i, upto - 1);
        if H::idx_of(dst, H::bin_of(dst, vals[upto - 1])) == i {
            assert(lands::<H>(src, dst, o, vals[upto - 1], i));
        }
    }
}

/// With the same axes a bin reaches itself only: what a bin can receive
/// is at most the count that the source has there.
pub proof fn lemma_reach_same_axes<H: Redraw>(axes: H::Axes, counts: Seq<u64>, i: int, upto: int)
    requires
        H::axes_wf(axes),
        0 <= upto <= counts.len(),
        counts.len() == H::cells(axes),
    ensures
        reach_sum::<H>(axes, counts, axes, i, upto) <= if 0 <= i < upto {
            counts[i] as int
        } else {
            0
        },
    decreases upto,
{
    if upto > 0 {
        lemma_reach_same_axes::<H>(axes, counts, i, upto - 1);
        let o = upto - 1;
        if reaches::<H>(axes, axes, o, i) {
            let val = choose|val: H::Val| #[trigger] lands::<H>(axes, axes, o, val, i);
            H::lemma_in_range(axes, o, val);
            H::lemma_bins(axes);
            assert(H::has_bin(axes, H::bin_at(axes, o)));
        }
    }
}

/// Counts that are bounded one by one by sums of two others, and have the
/// same sum as those, are those sums.
pub proof fn lemma_bounded_with_same_total(
    got: Seq<u64>,
    was: Seq<u64>,
    more: Seq<u64>,
    upto: int,
)
    requires
        0 <= upto <= got.len(),
        got.len() == was.len(),
        got.len() == more.len(),
        forall|i: int| 0 <= i < upto ==> got[i] <= was[i] + more[i],
    ensures
        total_upto(got, upto) <= total_upto(was, upto) + total_upto(more, upto),
        total_upto(got, upto) == total_upto(was, upto) + total_upto(more, upto) ==> forall|
            i: int,
        | 0 <= i < upto ==> got[i] == was[i] + more[i],
    decreases upto,
{
    if upto > 0 {
        lemma_bounded_with_same_total(got, was, more, upto - 1);
    }
}

/// Adding a histogram with the same axes by drawing its counts anew gives
/// what adding it gives: every bin grows by exactly the count that the
/// source has there, whatever is drawn.
///
/// `got` stands for the counts after `add_redrawn`, of which its contract
/// says what is required here.
pub proof fn lemma_redrawn_same_axes<H: Redraw>(
    axes: H::Axes,
    got: Seq<u64>,
    was: Seq<u64>,
    more: Seq<u64>,
)
    requires
        H::axes_wf(axes),
        more.len() == H::cells(axes),
        got.len() == more.len(),
        was.len() == more.len(),
        total(got) == total(was) + total(more),
        forall|i: int|
            0 <= i < got.len() ==> got[i] <= was[i] + reach_sum::<H>(
                axes,
                more,
                axes,
                i,
                more.len() as int,
            ),
    ensures
        forall|i: int| 0 <= i < got.len() ==> got[i] == was[i] + more[i],
{
    assert forall|i: int| 0 <= i < got.len() implies got[i] <= was[i] + more[i] by {
        lemma_reach_same_axes::<H>(axes, more, i, more.len() as int);
    }
    lemma_bounded_with_same_total(got, was, more, got.len() as int);
}

/// Adding a histogram to one with the same axes leaves every count in its
/// place, where every bin with counts holds a value: each bin grows by
/// exactly the count that the histogram that is added has there.
pub proof fn lemma_add_same_axes<H: Redraw>(axes: H::Axes, was: Seq<u64>, more: Seq<u64>)
    requires
        H::axes_wf(axes),
        more.len() == H::cells(axes),
        was.len() == more.len(),
        can_redraw::<H>(axes, more),
    ensures
        forall|i: int|
            0 <= i < was.len() ==> #[trigger] added::<H>(axes, was, axes, more)[i] == (was[i]
                + more[i]) as u64,
{
    assert forall|o: int| 0 <= o < more.len() && more[o] > 0 implies H::bin_of(
        axes,
        H::val_of(axes, H::bin_at(axes, o)),
    ) == H::bin_at(axes, o) by {
        H::lemma_middle_in_range(axes, o);
        H::lemma_in_range(axes, o, H::val_of(axes, H::bin_at(axes, o)));
    }
    assert(targets::<H>(axes, axes) =~= Seq::new(
        H::cells(axes) as nat,
        |o: int| H::idx_of(axes, H::bin_of(axes, H::val_of(axes, H::bin_at(axes, o)))),
    ));
    assert forall|i: int| 0 <= i < was.len() implies #[trigger] added::<H>(
        axes,
        was,
        axes,
        more,
    )[i] == (was[i] + more[i]) as u64 by {
        lemma_add_in_place::<H>(axes, more, i);
    }
}

/// Clearing a histogram and adding another with the same axes gives the
/// counts of the other, where every bin of it with counts holds a value.
pub proof fn lemma_add_to_cleared_same_axes<H: Redraw>(
    axes: H::Axes,
    zeros: Seq<u64>,
    more: Seq<u64>,
)
    requires
        H::axes_wf(axes),
        more.len() == H::cells(axes),
        zeros.len() == more.len(),
        forall|i: int| 0 <= i < zeros.len() ==> zeros[i] == 0,
        can_redraw::<H>(axes, more),
    ensures
        added::<H>(axes, zeros, axes, more) == more,
{
    lemma_add_same_axes::<H>(axes, zeros, more);
    assert(added::<H>(axes, zeros, axes, more) =~= more);
}

/// Values can be drawn from every bin of the histogram that has counts.
pub open spec fn can_redraw<H: Redraw>(axes: H::Axes, counts: Seq<u64>) -> bool {
    forall|o: int| 0 <= o < counts.len() && counts[o] > 0 ==> H::can_draw(axes, o)
}

/// The largest number of values that are drawn before the histogram is
/// filled with them.
pub const DRAWN_AT_ONCE: u64 = 1024;

/// Adds the counts from `src` to `dst`, one by one: for each count in
/// `src` a value is drawn from `source`, from within the edges of its bin,
/// and `dst` is filled with the values by `fill_all`.
///
/// Which values are drawn depends on chance. This does not: the sum of the
/// counts of `dst` grows by the sum of the counts of `src`, no count of
/// `dst` gets smaller, and no bin of `dst` receives more than the counts
/// of the bins of `src` that reach it.
pub fn add_redrawn<H: Redraw>(dst: &mut H, src: &H, source: &mut Source)
    requires
        H::axes_wf(old(dst).spec_axes()),
        old(dst).spec_counts().len() == H::cells(old(dst).spec_axes()),
        H::axes_wf(src.spec_axes()),
        src.spec_counts().len() == H::cells(src.spec_axes()),
        total(old(dst).spec_counts()) + total(src.spec_counts()) <= u64::MAX,
        can_redraw::<H>(src.spec_axes(), src.spec_counts()),
    ensures
        final(dst).spec_axes() == old(dst).spec_axes(),
        final(dst).spec_counts().len() == old(dst).spec_counts().len(),
        total(final(dst).spec_counts()) == total(old(dst).spec_counts()) + total(
            src.spec_counts(),
        ),
        forall|i: int|
            0 <= i < old(dst).spec_counts().len() ==> old(dst).spec_counts()[i]
                <= #[trigger] final(dst).spec_counts()[i] && final(dst).spec_counts()[i]
                <= old(dst).spec_counts()[i] + reach_sum::<H>(
                src.spec_axes(),
                src.spec_counts(),
                old(dst).spec_axes(),
                i,
                src.spec_counts().len() as int,
            ),
{
    let n: usize = src.counts().len();
    let ghost start = dst.spec_counts();
    let ghost axes = dst.spec_axes();
    let ghost from = src.spec_axes();
    let ghost more = src.spec_counts();
    let mut o_idx: usize = 0;
    while o_idx < n
        invariant
            o_idx <= n,
            n == more.len(),
            from == src.spec_axes(),
            more == src.spec_counts(),
            H::axes_wf(from),
            more.len() == H::cells(from),
            H::axes_wf(axes),
            dst.spec_axes() == axes,
            dst.spec_counts().len() == H::cells(axes),
            dst.spec_counts().len() == start.len(),
            total(start) + total(more) <= u64::MAX,
            can_redraw::<H>(from, more),
            total(dst.spec_counts()) == total(start) + total_upto(more, o_idx as int),
            forall|i: int|
                0 <= i < start.len() ==> start[i] <= #[trigger] dst.spec_counts()[i]
                    && dst.spec_counts()[i] <= start[i]
                    + reach_sum::<H>(from, more, axes, i, o_idx as int),
        decreases n - o_idx,
    {
        let o_c: u64 = src.counts_at_idx(o_idx);
        let mut k: u64 = 0;
        while k < o_c
            invariant
                k <= o_c,
                o_idx < n,
                n == more.len(),
                from == src.spec_axes(),
                more == src.spec_counts(),
                o_c == more[o_idx as int],
                H::axes_wf(from),
                more.len() == H::cells(from),
                H::axes_wf(axes),
                dst.spec_axes() == axes,
                dst.spec_counts().len() == H::cells(axes),
                dst.spec_counts().len() == start.len(),
                total(start) + total(more) <= u64::MAX,
                H::can_draw(from, o_idx as int) || o_c == 0,
                total(dst.spec_counts()) == total(start) + total_upto(more, o_idx as int) + k,
                forall|i: int|
                    0 <= i < start.len() ==> start[i] <= #[trigger] dst.spec_counts()[i]
                        && dst.spec_counts()[i] <= start[i]
                        + reach_sum::<H>(from, more, axes, i, o_idx as int) + if reaches::<H>(
                        from,
                        axes,
                        o_idx as int,
                        i,
                    ) {
                        k as int
                    } else {
                        0
                    },
            decreases o_c - k,
        {
            let m: u64 = if o_c - k < DRAWN_AT_ONCE {
                o_c - k
            } else {
                DRAWN_AT_ONCE
            };
            let mut vals: Vec<H::Val> = Vec::new();
            let mut j: u64 = 0;
            while j < m
                invariant
                    j <= m,
                    vals@.len() == j,
                    o_idx < n,
                    n == more.len(),
                    from == src.spec_axes(),
                    more == src.spec_counts(),
                    H::axes_wf(from),
                    more.len() == H::cells(from),
                    H::can_draw(from, o_idx as int),
                    forall|t: int|
                        0 <= t < vals@.len()
                            ==> H::in_range(from, o_idx as int, #[trigger] vals@[t]),
                decreases m - j,
            {
                let val = src.draw_at_idx(o_idx, source);
                vals.push(val);
                j += 1;
            }
            proof {
                lemma_total_grows(more, o_idx + 1, n as int);
                assert forall|i: int| 0 <= i < start.len() implies dst.spec_counts()[i] + hits::<
                    H,
                >(axes, vals@, i, vals@.len() as int) <= u64::MAX by {
                    lemma_count_within_total(dst.spec_counts(), i);
                    lemma_hits::<H>(axes, vals@, i, vals@.len() as int);
                }
                assert forall|i: int| 0 <= i < start.len() implies 0 <= hits::<H>(
                    axes,
                    vals@,
                    i,
                    vals@.len() as int,
                ) <= m && (!reaches::<H>(from, axes, o_idx as int, i) ==> hits::<H>(
                    axes,
                    vals@,
                    i,
                    vals@.len() as int,
                ) == 0) by {
                    lemma_hits_reach::<H>(from, axes, o_idx as int, vals@, i, vals@.len() as int);
                }
            }
            fill_all(dst, vals);
            k = k + m;
        }
        o_idx += 1;
    }
}

/// Tells whether values can be drawn from every bin of `src` that has
/// counts.
pub fn can_be_redrawn<H: Redraw>(src: &H) -> (r: bool)
    requires
        H::axes_wf(src.spec_axes()),
        src.spec_counts().len() == H::cells(src.spec_axes()),
    ensures
        r == can_redraw::<H>(src.spec_axes(), src.spec_counts()),
{
    let n: usize = src.counts().len();
    let mut i: usize = 0;
    while i < n
        invariant
            i <= n,
            n == src.spec_counts().len(),
            H::axes_wf(src.spec_axes()),
            src.spec_counts().len() == H::cells(src.spec_axes()),
            forall|o: int|
                0 <= o < i && src.spec_counts()[o] > 0 ==> H::can_draw(src.spec_axes(), o),
        decreases n - i,
    {
        if src.counts_at_idx(i) > 0 && !src.can_draw_at(i) {
            return false;
        }
        i += 1;
    }
    true
}

/// Adds the counts from `src` to `dst` as `add_redrawn` does, where both
/// are well formed, all their counts together are at most `u64::MAX`, and
/// values can be drawn from every bin of `src` that has counts. Else `dst`
/// stays as it is, and `ConstraintViolation` is returned.
pub fn add_redrawn_checked<H: Redraw>(dst: &mut H, src: &H, source: &mut Source) -> (r: Result<
    (),
    DkError,
>)
    ensures
        final(dst).spec_axes() == old(dst).spec_axes(),
        final(dst).spec_counts().len() == old(dst).spec_counts().len(),
        r is Ok <==> H::axes_wf(old(dst).spec_axes()) && old(dst).spec_counts().len() == H::cells(
            old(dst).spec_axes(),
        ) && H::axes_wf(src.spec_axes()) && src.spec_counts().len() == H::cells(src.spec_axes())
            && total(old(dst).spec_counts()) + total(src.spec_counts()) <= u64::MAX
            && can_redraw::<H>(src.spec_axes(), src.spec_counts()),
        r is Ok ==> total(final(dst).spec_counts()) == total(old(dst).spec_counts()) + total(
            src.spec_counts(),
        ),
        r is Ok ==> forall|i: int|
            0 <= i < old(dst).spec_counts().len() ==> old(dst).spec_counts()[i]
                <= #[trigger] final(dst).spec_counts()[i] && final(dst).spec_counts()[i]
                <= old(dst).spec_counts()[i] + reach_sum::<H>(
                src.spec_axes(),
                src.spec_counts(),
                old(dst).spec_axes(),
                i,
                src.spec_counts().len() as int,
            ),
        r is Err ==> r->Err_0 == DkError::ConstraintViolation && final(dst).spec_counts()
            == old(dst).spec_counts(),
{
    if !dst.is_valid() || !src.is_valid() {
        return Err(DkError::ConstraintViolation);
    }
    proof {
        lemma_total_grows(dst.spec_counts(), 0, dst.spec_counts().len() as int);
        lemma_total_grows(src.spec_counts(), 0, src.spec_counts().len() as int);
    }
    let fits: bool = match (sum_of(dst.counts()), sum_of(src.counts())) {
        (Some(a), Some(b)) => b <= u64::MAX - a,
        _ => false,
    };
    if !fits || !can_be_redrawn(src) {
        return Err(DkError::ConstraintViolation);
    }
    add_redrawn(dst, src, source);
    Ok(())
}

impl Hist1d {
    /// Add the counts from `other` to `self`.
    ///
    /// This assigns a uniformly distributed random value in the range of
    /// `[bin_min, bin_max)` for each count in `other`, and fills
    /// `self` with it.
    ///
    /// Whatever is drawn, the sum of the counts of `self` grows by the sum
    /// of the counts of `other`, no count gets smaller, and no bin receives
    /// more than the counts of the bins of `other` whose range reaches it.
    /// With the same axes this fixes every count (`lemma_redrawn_same_axes`).
    pub fn add_fuzz(&mut self, other: &Self)
        requires
            old(self).wf(),
            other.wf(),
            total(old(self).spec_counts()) + total(other.spec_counts()) <= u64::MAX,
            can_redraw::<Self>(other.spec_axes(), other.spec_counts()),
        ensures
            final(self).wf(),
            final(self).spec_axes() == old(self).spec_axes(),
            total(final(self).spec_counts()) == total(old(self).spec_counts()) + total(
                other.spec_counts(),
            ),
            forall|i: int|
                0 <= i < old(self).spec_counts().len() ==> old(self).spec_counts()[i]
                    <= #[trigger] final(self).spec_counts()[i] && final(self).spec_counts()[i]
                    <= old(self).spec_counts()[i] + reach_sum::<Self>(
                    other.spec_axes(),
                    other.spec_counts(),
                    old(self).spec_axes(),
                    i,
                    other.spec_counts().len() as int,
                ),
    {
        let mut source = Source::unseeded();
        add_redrawn(self, other, &mut source);
    }

    /// Add the counts from `other` to `self` as `add_fuzz` does, with
    /// values from a generator that is made from `seed`: the same seed
    /// gives the same counts again.
    pub fn add_fuzz_seeded(&mut self, other: &Self, seed: u64)
        requires
            old(self).wf(),
            other.wf(),
            total(old(self).spec_counts()) + total(other.spec_counts()) <= u64::MAX,
            can_redraw::<Self>(other.spec_axes(), other.spec_counts()),
        ensures
            final(self).wf(),
            final(self).spec_axes() == old(self).spec_axes(),
            total(final(self).spec_counts()) == total(old(self).spec_counts()) + total(
                other.spec_counts(),
            ),
            forall|i: int|
                0 <= i < old(self).spec_counts().len() ==> old(self).spec_counts()[i]
                    <= #[trigger] final(self).spec_counts()[i] && final(self).spec_counts()[i]
                    <= old(self).spec_counts()[i] + reach_sum::<Self>(
                    other.spec_axes(),
                    other.spec_counts(),
                    old(self).spec_axes(),
                    i,
                    other.spec_counts().len() as int,
                ),
    {
        let mut source = Source::seeded(seed);
        add_redrawn(self, other, &mut source);
    }
}

impl Hist2d {
    /// Add the counts from `other` to `self`.
    ///
    /// This assigns a uniformly distributed random value in the range of
    /// `[bin_min, bin_max)`, along each axis, for each count in `other`, and fills
    /// `self` with it.
    ///
    /// Whatever is drawn, the sum of the counts of `self` grows by the sum
    /// of the counts of `other`, no count gets smaller, and no bin receives
    /// more than the counts of the bins of `other` whose range reaches it.
    /// With the same axes this fixes every count (`lemma_redrawn_same_axes`).
    pub fn add_fuzz(&mut self, other: &Self)
        requires
            old(self).wf(),
            other.wf(),
            total(old(self).spec_counts()) + total(other.spec_counts()) <= u64::MAX,
            can_redraw::<Self>(other.spec_axes(), other.spec_counts()),
        ensures
            final(self).wf(),
            final(self).spec_axes() == old(self).spec_axes(),
            total(final(self).spec_counts()) == total(old(self).spec_counts()) + total(
                other.spec_counts(),
            ),
            forall|i: int|
                0 <= i < old(self).spec_counts().len() ==> old(self).spec_counts()[i]
                    <= #[trigger] final(self).spec_counts()[i] && final(self).spec_counts()[i]
                    <= old(self).spec_counts()[i] + reach_sum::<Self>(
                    other.spec_axes(),
                    other.spec_counts(),
                    old(self).spec_axes(),
                    i,
                    other.spec_counts().len() as int,
                ),
    {
        let mut source = Source::unseeded();
        add_redrawn(self, other, &mut source);
    }

    /// Add the counts from `other` to `self` as `add_fuzz` does, with
    /// values from a generator that is made from `seed`: the same seed
    /// gives the same counts again.
    pub fn add_fuzz_seeded(&mut self, other: &Self, seed: u64)
        requires
            old(self).wf(),
            other.wf(),
            total(old(self).spec_counts()) + total(other.spec_counts()) <= u64::MAX,
            can_redraw::<Self>(other.spec_axes(), other.spec_counts()),
        ensures
            final(self).wf(),
            final(self).spec_axes() == old(self).spec_axes(),
            total(final(self).spec_counts()) == total(old(self).spec_counts()) + total(
                other.spec_counts(),
            ),
            forall|i: int|
                0 <= i < old(self).spec_counts().len() ==> old(self).spec_counts()[i]
                    <= #[trigger] final(self).spec_counts()[i] && final(self).spec_counts()[i]
                    <= old(self).spec_counts()[i] + reach_sum::<Self>(
                    other.spec_axes(),
                    other.spec_counts(),
                    old(self).spec_axes(),
                    i,
                    other.spec_counts().len() as int,
                ),
    {
        let mut source = Source::seeded(seed);
        add_redrawn(self, other, &mut source);
    }
}

impl Hist3d {
    /// Add the counts from `other` to `self`.
    ///
    /// This assigns a uniformly distributed random value in the range of
    /// `[bin_min, bin_max)`, along each axis, for each count in `other`, and fills
    /// `self` with it.
    ///
    /// Whatever is drawn, the sum of the counts of `self` grows by the sum
    /// of the counts of `other`, no count gets smaller, and no bin receives
    /// more than the counts of the bins of `other` whose range reaches it.
    /// With the same axes this fixes every count (`lemma_redrawn_same_axes`).
    pub fn add_fuzz(&mut self, other: &Self)
        requires
            old(self).wf(),
            other.wf(),
            total(old(self).spec_counts()) + total(other.spec_counts()) <= u64::MAX,
            can_redraw::<Self>(other.spec_axes(), other.spec_counts()),
        ensures
            final(self).wf(),
            final(self).spec_axes() == old(self).spec_axes(),
            total(final(self).spec_counts()) == total(old(self).spec_counts()) + total(
                other.spec_counts(),
            ),
            forall|i: int|
                0 <= i < old(self).spec_counts().len() ==> old(self).spec_counts()[i]
                    <= #[trigger] final(self).spec_counts()[i] && final(self).spec_counts()[i]
                    <= old(self).spec_counts()[i] + reach_sum::<Self>(
                    other.spec_axes(),
                    other.spec_counts(),
                    old(self).spec_axes(),
                    i,
                    other.spec_counts().len() as int,
                ),
    {
        let mut source = Source::unseeded();
        add_redrawn(self, other, &mut source);
    }

    /// Add the counts from `other` to `self` as `add_fuzz` does, with
    /// values from a generator that is made from `seed`: the same seed
    /// gives the same counts again.
    pub fn add_fuzz_seeded(&mut self, other: &Self, seed: u64)
        requires
            old(self).wf(),
            other.wf(),
            total(old(self).spec_counts()) + total(other.spec_counts()) <= u64::MAX,
            can_redraw::<Self>(other.spec_axes(), other.spec_counts()),
        ensures
            final(self).wf(),
            final(self).spec_axes() == old(self).spec_axes(),
            total(final(self).spec_counts()) == total(old(self).spec_counts()) + total(
                other.spec_counts(),
            ),
            forall|i: int|
                0 <= i < old(self).spec_counts().len() ==> old(self).spec_counts()[i]
                    <= #[trigger] final(self).spec_counts()[i] && final(self).spec_counts()[i]
                    <= old(self).spec_counts()[i] + reach_sum::<Self>(
                    other.spec_axes(),
                    other.spec_counts(),
                    old(self).spec_axes(),
                    i,
                    other.spec_counts().len() as int,
                ),
    {
        let mut source = Source::seeded(seed);
        add_redrawn(self, other, &mut source);
    }
}

impl Hist4d {
    /// Add the counts from `other` to `self`.
    ///
    /// This assigns a uniformly distributed random value in the range of
    /// `[bin_min, bin_max)`, along each axis, for each count in `other`, and fills
    /// `self` with it.
    ///
    /// Whatever is drawn, the sum of the counts of `self` grows by the sum
    /// of the counts of `other`, no count gets smaller, and no bin receives
    /// more than the counts of the bins of `other` whose range reaches it.
    /// With the same axes this fixes every count (`lemma_redrawn_same_axes`).
    pub fn add_fuzz(&mut self, other: &Self)
        requires
            old(self).wf(),
            other.wf(),
            total(old(self).spec_counts()) + total(other.spec_counts()) <= u64::MAX,
            can_redraw::<Self>(other.spec_axes(), other.spec_counts()),
        ensures
            final(self).wf(),
            final(self).spec_axes() == old(self).spec_axes(),
            total(final(self).spec_counts()) == total(old(self).spec_counts()) + total(
                other.spec_counts(),
            ),
            forall|i: int|
                0 <= i < old(self).spec_counts().len() ==> old(self).spec_counts()[i]
                    <= #[trigger] final(self).spec_counts()[i] && final(self).spec_counts()[i]
                    <= old(self).spec_counts()[i] + reach_sum::<Self>(
                    other.spec_axes(),
                    other.spec_counts(),
                    old(self).spec_axes(),
                    i,
                    other.spec_counts().len() as int,
                ),
    {
        let mut source = Source::unseeded();
        add_redrawn(self, other, &mut source);
    }

    /// Add the counts from `other` to `self` as `add_fuzz` does, with
    /// values from a generator that is made from `seed`: the same seed
    /// gives the same counts again.
    pub fn add_fuzz_seeded(&mut self, other: &Self, seed: u64)
        requires
            old(self).wf(),
            other.wf(),
            total(old(self).spec_counts()) + total(other.spec_counts()) <= u64::MAX,
            can_redraw::<Self>(other.spec_axes(), other.spec_counts()),
        ensures
            final(self).wf(),
            final(self).spec_axes() == old(self).spec_axes(),
            total(final(self).spec_counts()) == total(old(self).spec_counts()) + total(
                other.spec_counts(),
            ),
            forall|i: int|
                0 <= i < old(self).spec_counts().len() ==> old(self).spec_counts()[i]
                    <= #[trigger] final(self).spec_counts()[i] && final(self).spec_counts()[i]
                    <= old(self).spec_counts()[i] + reach_sum::<Self>(
                    other.spec_axes(),
                    other.spec_counts(),
                    old(self).spec_axes(),
                    i,
                    other.spec_counts().len() as int,
                ),
    {
        let mut source = Source::seeded(seed);
        add_redrawn(self, other, &mut source);
    }
}

} // verus!
