//! Cuts in two dimensions.

use crate::cut::wide::{from_u128, less, product, sum};
use std::ops::Not;
use vstd::prelude::*;
use vstd::std_specs::convert::FromSpecImpl;
use vstd::std_specs::ops::NotSpecImpl;

verus! {

/// A cut in two dimensions.
#[derive(Debug)]
pub enum Cut2d {
    Cut2dRect(Cut2dRect),
    Cut2dCirc(Cut2dCirc),
    Cut2dEllipse(Cut2dEllipse),
    Cut2dPoly(Cut2dPoly),
    Not(Box<Cut2d>),
}

/// The inside of the rectangle from `(x0, y0)` to `(x1, y1)`.
#[derive(Copy, Clone, Debug, PartialEq, Eq, Structural)]
pub struct Cut2dRect {
    pub x0: i64,
    pub y0: i64,
    pub x1: i64,
    pub y1: i64,
}

/// The inside of the circle around `(x0, y0)` with radius `r`.
#[derive(Copy, Clone, Debug, PartialEq, Eq, Structural)]
pub struct Cut2dCirc {
    pub x0: i64,
    pub y0: i64,
    pub r: i64,
}

/// The inside of the ellipse around `(x0, y0)` with the half axes `rx` and
/// `ry`, the first of which points along `(ux, uy)`.
#[derive(Copy, Clone, Debug, PartialEq, Eq, Structural)]
pub struct Cut2dEllipse {
    pub x0: i64,
    pub y0: i64,
    pub rx: i64,
    pub ry: i64,
    pub ux: i64,
    pub uy: i64,
}

/// The inside of the polygon with the corners `verts`, in order.
#[derive(Debug, Default)]
pub struct Cut2dPoly {
    pub verts: Vec<(i64, i64)>,
}

/// What a cut in two dimensions holds: the cut, with the corners of its
/// polygons as a sequence.
pub enum Cut2dModel {
    Rect(Cut2dRect),
    Circ(Cut2dCirc),
    Ellipse(Cut2dEllipse),
    Poly(Seq<(i64, i64)>),
    Not(Box<Cut2dModel>),
}

/// The size of `a * b` and whether it is negative, for two differences of
/// coordinates.
fn size_and_sign(a: i128, b: i128) -> (r: (u128, bool))
    requires
        -0x1_0000_0000_0000_0000 < a < 0x1_0000_0000_0000_0000,
        -0x1_0000_0000_0000_0000 < b < 0x1_0000_0000_0000_0000,
    ensures
        r.1 == (a * b < 0),
        r.0 == if a * b < 0 {
            -(a * b)
        } else {
            a * b
        },
{
    let ua: u128 = if a < 0 {
        (-a) as u128
    } else {
        a as u128
    };
    let ub: u128 = if b < 0 {
        (-b) as u128
    } else {
        b as u128
    };
    assert(ua * ub <= 0xffff_ffff_ffff_ffff * 0xffff_ffff_ffff_ffff) by (nonlinear_arith)
        requires
            ua <= 0xffff_ffff_ffff_ffff,
            ub <= 0xffff_ffff_ffff_ffff,
    ;
    let m: u128 = ua * ub;
    let neg: bool = (a < 0) != (b < 0) && m != 0;
    proof {
        let ia = a as int;
        let ib = b as int;
        assert(ia * ib == 0 <==> (ia == 0 || ib == 0)) by (nonlinear_arith);
        assert((ia > 0 && ib > 0) || (ia < 0 && ib < 0) ==> ia * ib > 0) by (nonlinear_arith);
        assert((ia > 0 && ib < 0) || (ia < 0 && ib > 0) ==> ia * ib < 0) by (nonlinear_arith);
        assert((-ia) * ib == -(ia * ib) && ia * (-ib) == -(ia * ib) && (-ia) * (-ib) == ia * ib)
            by (nonlinear_arith);
    }
    (m, neg)
}

/// Tells whether `a * b < c * d`, for four differences of coordinates.
fn product_less(a: i128, b: i128, c: i128, d: i128) -> (r: bool)
    requires
        -0x1_0000_0000_0000_0000 < a < 0x1_0000_0000_0000_0000,
        -0x1_0000_0000_0000_0000 < b < 0x1_0000_0000_0000_0000,
        -0x1_0000_0000_0000_0000 < c < 0x1_0000_0000_0000_0000,
        -0x1_0000_0000_0000_0000 < d < 0x1_0000_0000_0000_0000,
    ensures
        r == (a * b < c * d),
{
    let (m1, n1) = size_and_sign(a, b);
    let (m2, n2) = size_and_sign(c, d);
    if n1 && !n2 {
        true
    } else if !n1 && n2 {
        false
    } else if n1 {
        m1 > m2
    } else {
        m1 < m2
    }
}

impl Cut2dRect {
    /// `(x, y)` lies strictly inside the rectangle.
    pub open spec fn holds(self, x: int, y: int) -> bool {
        (self.x0 < x < self.x1) && (self.y0 < y < self.y1)
    }

    /// Tells whether `(x, y)` lies in the cut.
    pub fn contains(&self, x: i64, y: i64) -> (r: bool)
        ensures
            r == self.holds(x as int, y as int),
    {
        (x > self.x0 && x < self.x1) && (y > self.y0 && y < self.y1)
    }
}

impl Cut2dCirc {
    /// `(x, y)` is nearer to the centre than `r`:
    /// `(x - x0)^2 + (y - y0)^2 < r^2`.
    pub open spec fn holds(self, x: int, y: int) -> bool {
        (x - self.x0) * (x - self.x0) + (y - self.y0) * (y - self.y0) < self.r * self.r
    }

    /// Tells whether `(x, y)` lies in the cut.
    pub fn contains(&self, x: i64, y: i64) -> (r: bool)
        ensures
            r == self.holds(x as int, y as int),
    {
        let dx: i128 = x as i128 - self.x0 as i128;
        let dy: i128 = y as i128 - self.y0 as i128;
        let rr: i128 = self.r as i128;
        let (sx, _) = size_and_sign(dx, dx);
        let (sy, _) = size_and_sign(dy, dy);
        let (sr, _) = size_and_sign(rr, rr);
        proof {
            assert(dx * dx >= 0 && dy * dy >= 0 && rr * rr >= 0) by (nonlinear_arith);
            assert(rr * rr <= 0x8000_0000_0000_0000 * 0x8000_0000_0000_0000) by (nonlinear_arith)
                requires
                    -0x8000_0000_0000_0000 <= rr <= 0x8000_0000_0000_0000,
            ;
        }
        if sx >= sr || sy >= sr {
            false
        } else {
            sx + sy < sr
        }
    }
}

impl Cut2dEllipse {
    /// `(x, y)` lies strictly inside the ellipse.
    ///
    /// With `a` the part of `(x - x0, y - y0)` along the direction
    /// `(ux, uy)` and `b` the part across it, both still scaled by the
    /// length of the direction, this is `(a / rx)^2 + (b / ry)^2 < ux^2 +
    /// uy^2`, multiplied out. An ellipse without a direction, or with a half
    /// axis of 0, holds nothing.
    pub open spec fn holds(self, x: int, y: int) -> bool {
        let dx = x - self.x0;
        let dy = y - self.y0;
        let a = dx * self.ux + dy * self.uy;
        let b = dy * self.ux - dx * self.uy;
        a * a * (self.ry * self.ry) + b * b * (self.rx * self.rx) < (self.ux * self.ux + self.uy
            * self.uy) * (self.rx * self.rx) * (self.ry * self.ry)
    }

    /// Tells whether `(x, y)` lies in the cut.
    ///
    /// The two sides of the comparison have up to 384 bits: they are
    /// worked out in numbers of any size.
    pub fn contains(&self, x: i64, y: i64) -> (r: bool)
        ensures
            r == self.holds(x as int, y as int),
    {
        let dx: i128 = x as i128 - self.x0 as i128;
        let dy: i128 = y as i128 - self.y0 as i128;
        let rx: i128 = self.rx as i128;
        let ry: i128 = self.ry as i128;
        let ux: i128 = self.ux as i128;
        let uy: i128 = self.uy as i128;
        proof {
            lemma_product_bound(dx as int, ux as int, 0xffff_ffff_ffff_ffff, 0x8000_0000_0000_0000);
            lemma_product_bound(dy as int, uy as int, 0xffff_ffff_ffff_ffff, 0x8000_0000_0000_0000);
            lemma_product_bound(dy as int, ux as int, 0xffff_ffff_ffff_ffff, 0x8000_0000_0000_0000);
            lemma_product_bound(dx as int, uy as int, 0xffff_ffff_ffff_ffff, 0x8000_0000_0000_0000);
            lemma_product_bound(rx as int, rx as int, 0x8000_0000_0000_0000, 0x8000_0000_0000_0000);
            lemma_product_bound(ry as int, ry as int, 0x8000_0000_0000_0000, 0x8000_0000_0000_0000);
            lemma_product_bound(ux as int, ux as int, 0x8000_0000_0000_0000, 0x8000_0000_0000_0000);
            lemma_product_bound(uy as int, uy as int, 0x8000_0000_0000_0000, 0x8000_0000_0000_0000);
            assert(rx * rx >= 0 && ry * ry >= 0 && ux * ux >= 0 && uy * uy >= 0)
                by (nonlinear_arith);
        }
        let (p, pn) = size_and_sign(dx, ux);
        let (q, qn) = size_and_sign(dy, uy);
        let (s, sn) = size_and_sign(dy, ux);
        let (t, tn) = size_and_sign(dx, uy);
        let a: u128 = size_of_sum(p, pn, q, qn);
        let b: u128 = size_of_sum(s, sn, t, !tn);
        let along = from_u128(a);
        let across = from_u128(b);
        let first = from_u128((rx * rx) as u128);
        let second = from_u128((ry * ry) as u128);
        let length = from_u128((ux * ux) as u128 + (uy * uy) as u128);
        let left = sum(
            &product(&product(&along, &along), &second),
            &product(&product(&across, &across), &first),
        );
        let right = product(&product(&length, &first), &second);
        proof {
            let ia = dx * ux + dy * uy;
            let ib = dy * ux - dx * uy;
            assert(a * a == ia * ia) by (nonlinear_arith)
                requires
                    a == ia || a == -ia,
            ;
            assert(b * b == ib * ib) by (nonlinear_arith)
                requires
                    b == ib || b == -ib,
            ;
        }
        less(&left, &right)
    }
}

/// The size of the sum of two numbers that are given by their sizes and by
/// whether they are negative.
fn size_of_sum(p: u128, pn: bool, q: u128, qn: bool) -> (r: u128)
    requires
        p <= 0x7fff_ffff_ffff_ffff_8000_0000_0000_0000,
        q <= 0x7fff_ffff_ffff_ffff_8000_0000_0000_0000,
    ensures
        ({
            let a = if pn {
                -(p as int)
            } else {
                p as int
            };
            let b = if qn {
                -(q as int)
            } else {
                q as int
            };
            r == a + b || r == -(a + b)
        }),
{
    if pn == qn {
        p + q
    } else if p >= q {
        p - q
    } else {
        q - p
    }
}

/// A product is no larger in size than the product of the bounds of its
/// factors.
pub proof fn lemma_product_bound(a: int, b: int, ma: int, mb: int)
    requires
        -ma <= a <= ma,
        -mb <= b <= mb,
    ensures
        -(ma * mb) <= a * b <= ma * mb,
{
    assert(-(ma * mb) <= a * b <= ma * mb) by (nonlinear_arith)
        requires
            -ma <= a <= ma,
            -mb <= b <= mb,
    ;
}

/// The horizontal line at height `y` runs between the heights `y1` and
/// `y2`: one of them is below `y`, and the other is not.
pub open spec fn straddles(y1: int, y2: int, y: int) -> bool {
    (y2 < y && y1 >= y) || (y1 < y && y2 >= y)
}

/// The line through `tail` and `head`, which are not at the same height,
/// crosses the height `y` to the left of `x`: the crossing, at
/// `head.0 + (y - head.1) * (tail.0 - head.0) / (tail.1 - head.1)`, is less than `x`.
pub open spec fn crossing_left(tail: (i64, i64), head: (i64, i64), x: int, y: int) -> bool {
    if tail.1 > head.1 {
        (y - head.1) * (tail.0 - head.0) < (x - head.0) * (tail.1 - head.1)
    } else {
        (y - head.1) * (tail.0 - head.0) > (x - head.0) * (tail.1 - head.1)
    }
}

/// A ray from `(x, y)` to the left crosses the edge from `tail` to `head`.
pub open spec fn toggles(tail: (i64, i64), head: (i64, i64), x: int, y: int) -> bool {
    straddles(tail.1 as int, head.1 as int, y) && crossing_left(tail, head, x, y)
}

/// For each corner, whether a ray from `(x, y)` to the left crosses the
/// edge that ends in that corner. The edge that ends in the first corner
/// starts in the last.
pub open spec fn edge_toggles(verts: Seq<(i64, i64)>, x: int, y: int) -> Seq<bool> {
    Seq::new(
        verts.len(),
        |i: int|
            toggles(
                verts[if i == 0 {
                    verts.len() - 1
                } else {
                    i - 1
                }],
                verts[i],
                x,
                y,
            ),
    )
}

/// How many of `s` are true.
pub open spec fn count_true(s: Seq<bool>) -> nat
    decreases s.len(),
{
    if s.len() == 0 {
        0
    } else {
        count_true(s.drop_last()) + if s.last() {
            1nat
        } else {
            0nat
        }
    }
}

/// `(x, y)` lies inside the polygon with the corners `verts`: a ray from
/// it to the left crosses an odd number of edges.
pub open spec fn poly_holds(verts: Seq<(i64, i64)>, x: int, y: int) -> bool {
    count_true(edge_toggles(verts, x, y)) % 2 == 1
}

impl Cut2dPoly {
    /// `(x, y)` lies inside the polygon.
    pub open spec fn holds(self, x: int, y: int) -> bool {
        poly_holds(self.verts@, x, y)
    }

    /// Tells whether `(x, y)` lies in the cut. A polygon without corners
    /// holds nothing.
    pub fn contains(&self, x: i64, y: i64) -> (r: bool)
        ensures
            r == self.holds(x as int, y as int),
    {
        let n: usize = self.verts.len();
        let mut inside: bool = false;
        if n == 0 {
            return false;
        }
        let ghost t = edge_toggles(self.verts@, x as int, y as int);
        let mut j: usize = n - 1;
        let mut i: usize = 0;
        assert(t.take(0) =~= Seq::<bool>::empty());
        while i < n
            invariant
                n == self.verts@.len(),
                n > 0,
                i <= n,
                j == if i == 0 {
                    n - 1
                } else {
                    i - 1
                },
                t == edge_toggles(self.verts@, x as int, y as int),
                inside == (count_true(t.take(i as int)) % 2 == 1),
            decreases n - i,
        {
            let (x1, y1) = self.verts[j];
            let (x2, y2) = self.verts[i];
            let mut toggle: bool = false;
            if ((y2 < y) && (y1 >= y)) || ((y1 < y) && (y2 >= y)) {
                let a: i128 = y as i128 - y2 as i128;
                let b: i128 = x1 as i128 - x2 as i128;
                let c: i128 = x as i128 - x2 as i128;
                let d: i128 = y1 as i128 - y2 as i128;
                toggle = if y1 > y2 {
                    product_less(a, b, c, d)
                } else {
                    product_less(c, d, a, b)
                };
            }
            proof {
                assert(toggle == t[i as int]);
                assert(t.take(i + 1).drop_last() =~= t.take(i as int));
                assert(t.take(i + 1).last() == t[i as int]);
            }
            if toggle {
                inside = !inside;
            }
            j = i;
            i += 1;
        }
        assert(t.take(n as int) =~= t);
        inside
    }
}

/// A level edge is never crossed: neither is a point at its height counted
/// twice, nor is one dropped.
pub proof fn lemma_level_edge(tail: (i64, i64), head: (i64, i64), x: int, y: int)
    requires
        tail.1 == head.1,
    ensures
        !toggles(tail, head, x, y),
{
}

/// An upright edge is crossed by the rays of the points to the right of it
/// whose height it spans, its upper end counted in and its lower end not.
pub proof fn lemma_upright_edge(tail: (i64, i64), head: (i64, i64), x: int, y: int)
    requires
        tail.0 == head.0,
    ensures
        toggles(tail, head, x, y) == (tail.0 < x && (tail.1 < y <= head.1 || head.1 < y
            <= tail.1)),
{
    let dy = tail.1 - head.1;
    assert((y - head.1) * (tail.0 - head.0) == 0) by (nonlinear_arith)
        requires
            tail.0 - head.0 == 0,
    ;
    if dy > 0 {
        assert(((x - head.0) * dy > 0) == (x - head.0 > 0)) by (nonlinear_arith)
            requires
                dy > 0,
        ;
    }
    if dy < 0 {
        assert(((x - head.0) * dy < 0) == (x - head.0 > 0)) by (nonlinear_arith)
            requires
                dy < 0,
        ;
    }
}

/// An edge is crossed whichever of its ends is named first.
pub proof fn lemma_toggles_symmetric(tail: (i64, i64), head: (i64, i64), x: int, y: int)
    ensures
        toggles(tail, head, x, y) == toggles(head, tail, x, y),
{
    let x1 = tail.0 as int;
    let y1 = tail.1 as int;
    let x2 = head.0 as int;
    let y2 = head.1 as int;
    assert((y - y2) * (x1 - x2) - (x - x2) * (y1 - y2) == -((y - y1) * (x2 - x1) - (x - x1) * (y2
        - y1))) by (nonlinear_arith);
}

/// Counting goes over joined sequences part by part.
pub proof fn lemma_count_concat(a: Seq<bool>, b: Seq<bool>)
    ensures
        count_true(a + b) == count_true(a) + count_true(b),
    decreases b.len(),
{
    if b.len() == 0 {
        assert(a + b =~= a);
    } else {
        lemma_count_concat(a, b.drop_last());
        assert((a + b).drop_last() =~= a + b.drop_last());
    }
}

/// Counting does not depend on the direction.
pub proof fn lemma_count_reverse(s: Seq<bool>)
    ensures
        count_true(s.reverse()) == count_true(s),
    decreases s.len(),
{
    if s.len() > 0 {
        let head = seq![s.last()];
        lemma_count_reverse(s.drop_last());
        assert(s.reverse() =~= head + s.drop_last().reverse());
        lemma_count_concat(head, s.drop_last().reverse());
        assert(head.drop_last() =~= Seq::<bool>::empty());
        assert(count_true(head.drop_last()) == 0);
    }
}

/// The polygon that starts at corner `k` of `verts` and goes round in the
/// same direction.
pub open spec fn rotated(verts: Seq<(i64, i64)>, k: int) -> Seq<(i64, i64)> {
    verts.subrange(k, verts.len() as int) + verts.subrange(0, k)
}

/// A polygon holds the same points whichever corner is listed first.
pub proof fn lemma_poly_rotation(verts: Seq<(i64, i64)>, k: int, x: int, y: int)
    requires
        0 <= k <= verts.len(),
    ensures
        poly_holds(rotated(verts, k), x, y) == poly_holds(verts, x, y),
{
    let n = verts.len() as int;
    let t = edge_toggles(verts, x, y);
    let w = rotated(verts, k);
    let tw = edge_toggles(w, x, y);
    if 0 < k < n {
        assert(tw =~= t.subrange(k, n) + t.subrange(0, k));
        lemma_count_concat(t.subrange(k, n), t.subrange(0, k));
        lemma_count_concat(t.subrange(0, k), t.subrange(k, n));
        assert(t =~= t.subrange(0, k) + t.subrange(k, n));
    } else {
        assert(w =~= verts);
    }
}

/// A polygon holds the same points in whichever direction its corners are
/// listed.
pub proof fn lemma_poly_reversal(verts: Seq<(i64, i64)>, x: int, y: int)
    ensures
        poly_holds(verts.reverse(), x, y) == poly_holds(verts, x, y),
{
    let n = verts.len() as int;
    let t = edge_toggles(verts, x, y);
    let w = verts.reverse();
    let tw = edge_toggles(w, x, y);
    if n > 0 {
        let head = seq![t[0]];
        let rest = t.subrange(1, n);
        assert forall|i: int| 0 <= i < n implies tw[i] == (head + rest.reverse())[i] by {
            if i == 0 {
                lemma_toggles_symmetric(verts[n - 1], verts[0], x, y);
            } else {
                lemma_toggles_symmetric(verts[n - i - 1], verts[n - i], x, y);
            }
        }
        assert(tw =~= head + rest.reverse());
        lemma_count_concat(head, rest.reverse());
        lemma_count_reverse(rest);
        lemma_count_concat(head, rest);
        assert(t =~= head + rest);
    } else {
        assert(w =~= verts);
    }
}

impl Cut2d {
    /// What the cut holds.
    pub open spec fn as_model(self) -> Cut2dModel
        decreases self,
    {
        match self {
            Cut2d::Cut2dRect(c) => Cut2dModel::Rect(c),
            Cut2d::Cut2dCirc(c) => Cut2dModel::Circ(c),
            Cut2d::Cut2dEllipse(c) => Cut2dModel::Ellipse(c),
            Cut2d::Cut2dPoly(c) => Cut2dModel::Poly(c.verts@),
            Cut2d::Not(c) => Cut2dModel::Not(Box::new(c.as_model())),
        }
    }

    /// `(x, y)` lies in the cut. `Not` holds exactly the points that the
    /// cut inside it does not.
    pub open spec fn holds(self, x: int, y: int) -> bool
        decreases self,
    {
        match self {
            Cut2d::Cut2dRect(c) => c.holds(x, y),
            Cut2d::Cut2dCirc(c) => c.holds(x, y),
            Cut2d::Cut2dEllipse(c) => c.holds(x, y),
            Cut2d::Cut2dPoly(c) => c.holds(x, y),
            Cut2d::Not(c) => !c.holds(x, y),
        }
    }

    /// The complement of the cut: a `Not` is unwrapped, any other cut is
    /// wrapped in one.
    pub open spec fn negated(self) -> Cut2d {
        match self {
            Cut2d::Not(c) => *c,
            _ => Cut2d::Not(Box::new(self)),
        }
    }

    /// Tells whether `(x, y)` lies in the cut.
    pub fn contains(&self, x: i64, y: i64) -> (r: bool)
        ensures
            r == self.holds(x as int, y as int),
        decreases self,
    {
        match self {
            Cut2d::Cut2dRect(c) => c.contains(x, y),
            Cut2d::Cut2dCirc(c) => c.contains(x, y),
            Cut2d::Cut2dEllipse(c) => c.contains(x, y),
            Cut2d::Cut2dPoly(c) => c.contains(x, y),
            Cut2d::Not(c) => !c.contains(x, y),
        }
    }
}

impl Clone for Cut2dPoly {
    fn clone(&self) -> (r: Self)
        ensures
            r.verts@ == self.verts@,
    {
        let mut verts: Vec<(i64, i64)> = Vec::new();
        let mut i: usize = 0;
        while i < self.verts.len()
            invariant
                i <= self.verts@.len(),
                verts@ =~= self.verts@.take(i as int),
            decreases self.verts.len() - i,
        {
            verts.push(self.verts[i]);
            i += 1;
        }
        assert(self.verts@.take(self.verts@.len() as int) =~= self.verts@);
        Cut2dPoly { verts }
    }
}

/// The same points lie in cuts that hold the same.
pub proof fn lemma_same_cut(a: Cut2d, b: Cut2d, x: int, y: int)
    requires
        a.as_model() == b.as_model(),
    ensures
        a.holds(x, y) == b.holds(x, y),
    decreases a,
{
    match (a, b) {
        (Cut2d::Not(c), Cut2d::Not(d)) => {
            lemma_same_cut(*c, *d, x, y);
        },
        _ => {},
    }
}

impl Clone for Cut2d {
    /// Copies the cut. The copy holds the same points.
    fn clone(&self) -> (r: Self)
        ensures
            r.as_model() == self.as_model(),
            forall|x: int, y: int| r.holds(x, y) == self.holds(x, y),
        decreases self,
    {
        match self {
            Cut2d::Cut2dRect(c) => Cut2d::Cut2dRect(*c),
            Cut2d::Cut2dCirc(c) => Cut2d::Cut2dCirc(*c),
            Cut2d::Cut2dEllipse(c) => Cut2d::Cut2dEllipse(*c),
            Cut2d::Cut2dPoly(c) => {
                let r = Cut2d::Cut2dPoly(c.clone());
                assert forall|x: int, y: int| r.holds(x, y) == self.holds(x, y) by {}
                r
            },
            Cut2d::Not(c) => {
                let inner: Cut2d = (**c).clone();
                let r = Cut2d::Not(Box::new(inner));
                assert forall|x: int, y: int| r.holds(x, y) == self.holds(x, y) by {
                    assert(inner.holds(x, y) == c.holds(x, y));
                }
                r
            },
        }
    }
}

impl Not for Cut2d {
    type Output = Self;

    fn not(self) -> (r: Self) {
        match self {
            Cut2d::Not(c) => *c,
            _ => Cut2d::Not(Box::new(self)),
        }
    }
}

impl NotSpecImpl for Cut2d {
    open spec fn obeys_not_spec() -> bool {
        true
    }

    open spec fn not_req(self) -> bool {
        true
    }

    open spec fn not_spec(self) -> Self {
        self.negated()
    }
}

impl From<Cut2dRect> for Cut2d {
    fn from(c: Cut2dRect) -> (r: Self) {
        Cut2d::Cut2dRect(c)
    }
}

impl FromSpecImpl<Cut2dRect> for Cut2d {
    open spec fn obeys_from_spec() -> bool {
        true
    }

    open spec fn from_spec(c: Cut2dRect) -> Self {
        Cut2d::Cut2dRect(c)
    }
}

impl From<Cut2dCirc> for Cut2d {
    fn from(c: Cut2dCirc) -> (r: Self) {
        Cut2d::Cut2dCirc(c)
    }
}

impl FromSpecImpl<Cut2dCirc> for Cut2d {
    open spec fn obeys_from_spec() -> bool {
        true
    }

    open spec fn from_spec(c: Cut2dCirc) -> Self {
        Cut2d::Cut2dCirc(c)
    }
}

impl From<Cut2dEllipse> for Cut2d {
    fn from(c: Cut2dEllipse) -> (r: Self) {
        Cut2d::Cut2dEllipse(c)
    }
}

impl FromSpecImpl<Cut2dEllipse> for Cut2d {
    open spec fn obeys_from_spec() -> bool {
        true
    }

    open spec fn from_spec(c: Cut2dEllipse) -> Self {
        Cut2d::Cut2dEllipse(c)
    }
}

impl From<Cut2dPoly> for Cut2d {
    fn from(c: Cut2dPoly) -> (r: Self) {
        Cut2d::Cut2dPoly(c)
    }
}

impl FromSpecImpl<Cut2dPoly> for Cut2d {
    open spec fn obeys_from_spec() -> bool {
        true
    }

    open spec fn from_spec(c: Cut2dPoly) -> Self {
        Cut2d::Cut2dPoly(c)
    }
}

/// The complement of a cut holds the points that the cut does not.
pub proof fn lemma_negated_2d(c: Cut2d, x: int, y: int)
    ensures
        c.negated().holds(x, y) == !c.holds(x, y),
{
}

/// Negating a cut twice gives a cut that holds the same points.
pub proof fn lemma_double_negation_2d(c: Cut2d, x: int, y: int)
    ensures
        c.negated().negated().holds(x, y) == c.holds(x, y),
        Cut2d::Not(Box::new(Cut2d::Not(Box::new(c)))).holds(x, y) == c.holds(x, y),
{
    lemma_negated_2d(c, x, y);
    lemma_negated_2d(c.negated(), x, y);
    let inner = Cut2d::Not(Box::new(c));
    assert(inner.holds(x, y) == !c.holds(x, y));
    assert(Cut2d::Not(Box::new(inner)).holds(x, y) == !inner.holds(x, y));
}

} // verus!
