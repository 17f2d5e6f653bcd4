//! The axis of a histogram: binning of the values along one dimension.

use vstd::arithmetic::div_mod::{
    lemma_fundamental_div_mod, lemma_fundamental_div_mod_converse_div, lemma_mod_bound,
};
use vstd::prelude::*;

verus! {

/// `d * (a / d) <= a < d * (a / d) + d`, the two bounds of a quotient.
pub proof fn lemma_quotient_bounds(a: int, d: int)
    requires
        d > 0,
    ensures
        d * (a / d) <= a < d * (a / d) + d,
{
    lemma_fundamental_div_mod(a, d);
    lemma_mod_bound(a, d);
}

/// A number that lies between `q * d` and `(q + 1) * d` has the quotient `q`.
pub proof fn lemma_quotient_is(a: int, d: int, q: int)
    requires
        d > 0,
        q * d <= a < q * d + d,
    ensures
        a / d == q,
{
    lemma_fundamental_div_mod_converse_div(a, d, q, a - q * d);
}

/// The quotient of `a` by `d`, rounded up.
pub open spec fn div_up(a: int, d: int) -> int {
    (a + d - 1) / d
}

/// `div_up(a, d)` is the least `t` with `d * t >= a`.
pub proof fn lemma_div_up(a: int, d: int)
    requires
        d > 0,
    ensures
        d * div_up(a, d) >= a,
        d * (div_up(a, d) - 1) < a,
{
    lemma_quotient_bounds(a + d - 1, d);
    assert(d * (div_up(a, d) - 1) == d * div_up(a, d) - d) by (nonlinear_arith);
}

/// `div_up` does not decrease when its first argument grows.
pub proof fn lemma_div_up_ordered(a: int, b: int, d: int)
    requires
        d > 0,
        a <= b,
    ensures
        div_up(a, d) <= div_up(b, d),
{
    lemma_div_up(a, d);
    lemma_div_up(b, d);
    let x = div_up(a, d);
    let y = div_up(b, d);
    if x > y {
        assert(d * (x - 1) >= d * y) by (nonlinear_arith)
            requires
                d > 0,
                x - 1 >= y,
        ;
    }
}

/// A type that describes an axis for a histogram.
///
/// The axis divides the values from `min` up to `max` into `bins` bins of
/// equal width. Values outside fall into the first and the last bin.
#[derive(Copy, Clone, Debug, PartialEq, Eq, Structural)]
pub struct HistAxis {
    pub bins: u32,
    pub min: i64,
    pub max: i64,
}

impl HistAxis {
    /// An axis has at least one bin, and its bounds are in order.
    pub open spec fn wf(self) -> bool {
        self.bins >= 1 && self.min <= self.max
    }

    /// The distance from `min` to `max`.
    pub open spec fn span(self) -> int {
        self.max - self.min
    }

    /// The bin of the value `val`: `bins * (val - min) / (max - min)`
    /// rounded down, and brought into the range of the bins where it lies
    /// outside. On an axis with `min == max` the values above `min` fall
    /// into the last bin and all others into the first.
    pub open spec fn bin_of(self, val: int) -> int {
        if self.span() == 0 {
            if val > self.min {
                self.bins - 1
            } else {
                0
            }
        } else {
            let b = self.bins * (val - self.min) / self.span();
            if b < 0 {
                0
            } else if b > self.bins - 1 {
                self.bins - 1
            } else {
                b
            }
        }
    }

    /// The least value that is not below the lower edge of bin `bin`, the
    /// edge being at `min + bin * (max - min) / bins`.
    pub open spec fn low_of(self, bin: int) -> int {
        self.min + div_up(bin * self.span(), self.bins as int)
    }

    /// The value half way from `low_of(bin)` to `low_of(bin + 1)`, rounded
    /// down.
    pub open spec fn mid_of(self, bin: int) -> int {
        self.low_of(bin) + (self.low_of(bin + 1) - self.low_of(bin)) / 2
    }

    /// The axis that `new` makes of its parameters: none without bins, and
    /// the bounds in order.
    pub open spec fn new_spec(bins: u32, min: i64, max: i64) -> Option<HistAxis> {
        if bins == 0 {
            None
        } else if min > max {
            Some(HistAxis { bins, min: max, max: min })
        } else {
            Some(HistAxis { bins, min, max })
        }
    }

    /// Constructs a new `HistAxis`, with the supplied parameters.
    ///
    /// If `min` and `max` are given in the wrong order they change places.
    /// An axis must have more than 0 bins, else `None` is returned.
    pub fn new(bins: u32, min: i64, max: i64) -> (r: Option<HistAxis>)
        ensures
            r == Self::new_spec(bins, min, max),
            r matches Some(a) ==> a.wf(),
    {
        if bins == 0 {
            None
        } else if min > max {
            Some(HistAxis { bins, min: max, max: min })
        } else {
            Some(HistAxis { bins, min, max })
        }
    }

    /// Tells whether the axis is well formed.
    pub fn is_valid(&self) -> (r: bool)
        ensures
            r == self.wf(),
    {
        self.bins >= 1 && self.min <= self.max
    }

    /// Returns the width of the bins in whole ticks, rounded down.
    pub fn bin_width(&self) -> (w: u64)
        requires
            self.wf(),
        ensures
            w == self.span() / (self.bins as int),
    {
        let span: u64 = (self.max as i128 - self.min as i128) as u64;
        span / (self.bins as u64)
    }

    /// Returns the bin index of the bin with value `val`.
    pub fn bin_at_val(&self, val: i64) -> (bin: usize)
        requires
            self.wf(),
        ensures
            bin == self.bin_of(val as int),
            bin < self.bins,
    {
        proof {
            self.lemma_bin_of(val as int);
        }
        if val <= self.min {
            0
        } else if val >= self.max {
            (self.bins - 1) as usize
        } else {
            let d: u128 = (val as i128 - self.min as i128) as u128;
            let w: u128 = (self.max as i128 - self.min as i128) as u128;
            assert(self.bins * d <= 0xffff_ffff * 0xffff_ffff_ffff_ffff) by (nonlinear_arith)
                requires
                    self.bins <= 0xffff_ffff,
                    d <= 0xffff_ffff_ffff_ffff,
            ;
            let q: u128 = (self.bins as u128 * d) / w;
            q as usize
        }
    }

    /// Returns the least value of the bin with index `bin`.
    pub fn val_at_bin_min(&self, bin: usize) -> (val: i64)
        requires
            self.wf(),
            bin < self.bins,
        ensures
            val == self.low_of(bin as int),
    {
        self.low(bin as u32)
    }

    /// Returns the least value above the bin with index `bin`, which is the
    /// least value of the next bin, or `max` for the last bin.
    pub fn val_at_bin_max(&self, bin: usize) -> (val: i64)
        requires
            self.wf(),
            bin < self.bins,
        ensures
            val == self.low_of(bin + 1),
    {
        self.low(bin as u32 + 1)
    }

    /// Returns the value at the middle of the bin with index `bin`.
    pub fn val_at_bin_mid(&self, bin: usize) -> (val: i64)
        requires
            self.wf(),
            bin < self.bins,
        ensures
            val == self.mid_of(bin as int),
    {
        let lo: i64 = self.low(bin as u32);
        let hi: i64 = self.low(bin as u32 + 1);
        proof {
            self.lemma_low_of(bin as int);
            self.lemma_low_of(bin + 1);
            self.lemma_low_of_ordered(bin as int, bin + 1);
        }
        let half: u64 = ((hi as i128 - lo as i128) as u64) / 2;
        (lo as i128 + half as i128) as i64
    }

    fn low(&self, bin: u32) -> (val: i64)
        requires
            self.wf(),
            bin <= self.bins,
        ensures
            val == self.low_of(bin as int),
    {
        let w: u128 = (self.max as i128 - self.min as i128) as u128;
        let n: u128 = self.bins as u128;
        assert(bin * w <= 0xffff_ffff * 0xffff_ffff_ffff_ffff) by (nonlinear_arith)
            requires
                bin <= 0xffff_ffff,
                w <= 0xffff_ffff_ffff_ffff,
        ;
        let t: u128 = (bin as u128 * w + n - 1) / n;
        proof {
            self.lemma_low_of(bin as int);
        }
        (self.min as i128 + t as i128) as i64
    }

    /// Every bin index is in range: `bin_of` is a bin of the axis. Inside
    /// the axis it is the quotient itself.
    pub proof fn lemma_bin_of(self, val: int)
        requires
            self.wf(),
        ensures
            0 <= self.bin_of(val) < self.bins,
            val <= self.min ==> self.bin_of(val) == 0,
            val >= self.max && val > self.min ==> self.bin_of(val) == self.bins - 1,
            self.min < val < self.max ==> self.bin_of(val) == self.bins * (val - self.min)
                / self.span(),
    {
        let c = self.bins as int;
        let w = self.span();
        let d = val - self.min;
        if w > 0 {
            lemma_quotient_bounds(c * d, w);
            let q = c * d / w;
            if d <= 0 {
                assert(c * d <= 0) by (nonlinear_arith)
                    requires
                        c >= 1,
                        d <= 0,
                ;
                if q > 0 {
                    assert(w * q >= w) by (nonlinear_arith)
                        requires
                            w > 0,
                            q >= 1,
                    ;
                }
            } else if d >= w {
                assert(c * d >= c * w) by (nonlinear_arith)
                    requires
                        c >= 1,
                        d >= w,
                ;
                if q < c - 1 {
                    assert(w * q + w <= w * (c - 1)) by (nonlinear_arith)
                        requires
                            w > 0,
                            q + 1 <= c - 1,
                    ;
                    assert(w * (c - 1) < c * w) by (nonlinear_arith)
                        requires
                            w > 0,
                    ;
                }
            } else {
                assert(0 <= c * d < c * w) by (nonlinear_arith)
                    requires
                        c >= 1,
                        0 < d < w,
                ;
                if q < 0 {
                    assert(w * q + w <= 0) by (nonlinear_arith)
                        requires
                            w > 0,
                            q + 1 <= 0,
                    ;
                }
                if q >= c {
                    assert(w * q >= w * c) by (nonlinear_arith)
                        requires
                            w > 0,
                            q >= c,
                    ;
                    assert(w * c == c * w) by (nonlinear_arith);
                }
            }
        }
    }

    /// The lower edges lie on the axis, the first at `min` and the one
    /// after the last bin at `max`.
    pub proof fn lemma_low_of(self, bin: int)
        requires
            self.wf(),
            0 <= bin <= self.bins,
        ensures
            self.min <= self.low_of(bin) <= self.max,
            self.low_of(0) == self.min,
            self.low_of(self.bins as int) == self.max,
    {
        let c = self.bins as int;
        let w = self.span();
        assert(0 <= bin * w <= c * w) by (nonlinear_arith)
            requires
                0 <= bin <= c,
                w >= 0,
        ;
        lemma_div_up_ordered(0, bin * w, c);
        lemma_div_up_ordered(bin * w, c * w, c);
        assert(0 * w == 0);
        lemma_quotient_is(0 + c - 1, c, 0);
        assert(div_up(c * w, c) == w) by {
            assert(w * c == c * w) by (nonlinear_arith);
            lemma_quotient_is(c * w + c - 1, c, w);
        }
    }

    /// The lower edges are in the order of their bins.
    pub proof fn lemma_low_of_ordered(self, a: int, b: int)
        requires
            self.wf(),
            0 <= a <= b,
        ensures
            self.low_of(a) <= self.low_of(b),
    {
        assert(a * self.span() <= b * self.span()) by (nonlinear_arith)
            requires
                a <= b,
                self.span() >= 0,
        ;
        lemma_div_up_ordered(a * self.span(), b * self.span(), self.bins as int);
    }

    /// On an axis with `min < max`, the values from `low_of(bin)` up to,
    /// but not including, `low_of(bin + 1)` are those of bin `bin`.
    pub proof fn lemma_bin_holds(self, bin: int, val: int)
        requires
            self.wf(),
            self.min < self.max,
            0 <= bin < self.bins,
            self.low_of(bin) <= val < self.low_of(bin + 1),
        ensures
            self.bin_of(val) == bin,
    {
        let c = self.bins as int;
        let w = self.span();
        let d = val - self.min;
        lemma_div_up(bin * w, c);
        lemma_div_up((bin + 1) * w, c);
        self.lemma_low_of(bin);
        self.lemma_low_of(bin + 1);
        self.lemma_bin_of(val);
        // bin * w <= c * d < (bin + 1) * w
        assert(c * d >= bin * w) by (nonlinear_arith)
            requires
                c > 0,
                d >= div_up(bin * w, c),
                c * div_up(bin * w, c) >= bin * w,
        ;
        assert(c * d < (bin + 1) * w) by (nonlinear_arith)
            requires
                c > 0,
                d <= div_up((bin + 1) * w, c) - 1,
                c * (div_up((bin + 1) * w, c) - 1) < (bin + 1) * w,
        ;
        assert((bin + 1) * w == bin * w + w) by (nonlinear_arith);
        if d <= 0 {
            assert(c * d <= 0) by (nonlinear_arith)
                requires
                    c > 0,
                    d <= 0,
            ;
            if bin > 0 {
                assert(bin * w > 0) by (nonlinear_arith)
                    requires
                        bin > 0,
                        w > 0,
                ;
            }
        } else {
            lemma_quotient_is(c * d, w, bin);
        }
    }
}

/// A bin that a value falls into is found again from its middle value:
/// `bin_at_val(val_at_bin_mid(b)) == b` for `b == bin_at_val(v)`.
///
/// On an axis with `min == max` this holds of the first bin only: the
/// middle of every bin is `min` there.
pub proof fn lemma_axis_round_trip(axis: HistAxis, v: int)
    requires
        axis.wf(),
        axis.min < axis.max || axis.bin_of(v) == 0,
    ensures
        axis.bin_of(axis.mid_of(axis.bin_of(v))) == axis.bin_of(v),
{
    let b = axis.bin_of(v);
    let c = axis.bins as int;
    let w = axis.span();
    axis.lemma_bin_of(v);
    axis.lemma_low_of(b);
    axis.lemma_low_of(b + 1);
    axis.lemma_low_of_ordered(b, b + 1);
    let lo = axis.low_of(b);
    let hi = axis.low_of(b + 1);
    let mid = axis.mid_of(b);
    if w == 0 {
        assert(b * w == 0 && (b + 1) * w == 0) by (nonlinear_arith)
            requires
                w == 0,
        ;
    } else if lo < hi {
        axis.lemma_bin_holds(b, mid);
    } else {
        // no value lies in the bin, so `v` came to it from outside the axis
        if axis.min < v < axis.max {
            let d = v - axis.min;
            lemma_quotient_bounds(c * d, w);
            lemma_div_up(b * w, c);
            lemma_div_up((b + 1) * w, c);
            assert((b + 1) * w == b * w + w) by (nonlinear_arith);
            assert(w * b == b * w) by (nonlinear_arith);
            // d >= div_up(b * w, c) and d < div_up((b + 1) * w, c)
            if d < div_up(b * w, c) {
                assert(c * d <= c * (div_up(b * w, c) - 1)) by (nonlinear_arith)
                    requires
                        c > 0,
                        d <= div_up(b * w, c) - 1,
                ;
            }
            if d >= div_up((b + 1) * w, c) {
                assert(c * d >= c * div_up((b + 1) * w, c)) by (nonlinear_arith)
                    requires
                        c > 0,
                        d >= div_up((b + 1) * w, c),
                ;
            }
            assert(false);
        }
        if v <= axis.min {
            // bin 0 always holds `min`
            lemma_div_up(w, c);
            assert((0 + 1) * w == w);
            if div_up(w, c) <= 0 {
                assert(c * div_up(w, c) <= 0) by (nonlinear_arith)
                    requires
                        c > 0,
                        div_up(w, c) <= 0,
                ;
            }
            assert(false);
        }
        // v >= max: the last bin, and its middle is `max`
        assert(mid == axis.max);
        axis.lemma_bin_of(mid);
    }
}


/// On an axis with `min < max`, a bin that holds a value is found again
/// from its middle value.
pub proof fn lemma_mid_in_bin(axis: HistAxis, bin: int)
    requires
        axis.wf(),
        0 <= bin < axis.bins,
        axis.low_of(bin) < axis.low_of(bin + 1),
    ensures
        axis.bin_of(axis.mid_of(bin)) == bin,
{
    axis.lemma_low_of(bin);
    axis.lemma_low_of(bin + 1);
    axis.lemma_bin_holds(bin, axis.mid_of(bin));
}

} // verus!
