//! The binary layout of cuts.

use crate::cut::{
    Cut1d, Cut1dAbove, Cut1dBelow, Cut1dBetween, Cut2d, Cut2dCirc, Cut2dEllipse, Cut2dModel,
    Cut2dPoly, Cut2dRect,
};
use crate::error::DkError;
use crate::wire::Wire;
use vstd::prelude::*;

verus! {

/// The number that stands for the kind of a cut in one dimension: 0 for
/// the values above a bound, 1 for those below one, 2 for those between
/// two, and 3 for the complement of the cut that follows.
pub open spec fn kind_1d(c: Cut1d) -> u32 {
    match c {
        Cut1d::Cut1dAbove(_) => 0,
        Cut1d::Cut1dBelow(_) => 1,
        Cut1d::Cut1dBetween(_) => 2,
        Cut1d::Not(_) => 3,
    }
}

/// The bytes of a cut in one dimension: the number of its kind in 4 bytes,
/// then its bounds in 8 bytes each, or the cut that it is the complement
/// of.
pub open spec fn ser_cut_1d(c: Cut1d) -> Seq<u8>
    decreases c,
{
    match c {
        Cut1d::Cut1dAbove(a) => u32::ser(0) + i64::ser(a.min),
        Cut1d::Cut1dBelow(b) => u32::ser(1) + i64::ser(b.max),
        Cut1d::Cut1dBetween(b) => u32::ser(2) + <(i64, i64)>::ser((b.min, b.max)),
        Cut1d::Not(inner) => u32::ser(3) + ser_cut_1d(*inner),
    }
}

/// The cut is no complement of a complement.
pub open spec fn folded_1d(c: Cut1d) -> bool {
    c matches Cut1d::Not(inner) ==> !(*inner is Not)
}

/// The complement of the cut that was read, where one was: a complement
/// is unwrapped, any other cut is wrapped in one.
pub open spec fn not_1d(r: Result<(Cut1d, int), DkError>) -> Result<(Cut1d, int), DkError> {
    match r {
        Ok(c) => Ok((c.0.negated(), c.1)),
        Err(e) => Err(e),
    }
}

/// The cut in one dimension that the bytes of `s` from `pos` on start
/// with, and the position behind it; or why there is none.
///
/// Complements of complements are folded as they are read: of a row of
/// complements one is left, or none.
pub open spec fn parse_cut_1d(s: Seq<u8>, pos: int) -> Result<(Cut1d, int), DkError>
    decreases s.len() - pos,
{
    match u32::parse(s, pos) {
        Err(e) => Err(e),
        Ok(t) => if t.0 == 0 {
            match i64::parse(s, t.1) {
                Ok(v) => Ok((Cut1d::Cut1dAbove(Cut1dAbove { min: v.0 }), v.1)),
                Err(e) => Err(e),
            }
        } else if t.0 == 1 {
            match i64::parse(s, t.1) {
                Ok(v) => Ok((Cut1d::Cut1dBelow(Cut1dBelow { max: v.0 }), v.1)),
                Err(e) => Err(e),
            }
        } else if t.0 == 2 {
            match <(i64, i64)>::parse(s, t.1) {
                Ok(v) => Ok((Cut1d::Cut1dBetween(Cut1dBetween { min: v.0.0, max: v.0.1 }), v.1)),
                Err(e) => Err(e),
            }
        } else if t.0 == 3 {
            not_1d(parse_cut_1d(s, t.1))
        } else {
            Err(DkError::InvalidFormat)
        },
    }
}

/// A cut that was read is no complement of a complement.
pub proof fn lemma_parse_folded_1d(s: Seq<u8>, pos: int)
    ensures
        parse_cut_1d(s, pos) matches Ok(r) ==> folded_1d(r.0),
    decreases s.len() - pos,
{
    if let Ok(t) = u32::parse(s, pos) {
        if t.0 == 3 {
            lemma_parse_folded_1d(s, t.1);
        }
    }
}

/// The complement of the complement of a cut that was read is that cut.
pub proof fn lemma_not_not_1d(s: Seq<u8>, pos: int)
    ensures
        not_1d(not_1d(parse_cut_1d(s, pos))) == parse_cut_1d(s, pos),
{
    lemma_parse_folded_1d(s, pos);
}

/// A cut that was read takes 12 bytes at least, and lies within the bytes
/// it was read from.
pub proof fn lemma_parse_cut_1d(s: Seq<u8>, pos: int)
    requires
        0 <= pos <= s.len(),
    ensures
        parse_cut_1d(s, pos) matches Ok(r) ==> pos + 12 <= r.1 <= s.len(),
    decreases s.len() - pos,
{
    if let Ok(t) = u32::parse(s, pos) {
        if t.0 == 3 {
            lemma_parse_cut_1d(s, t.1);
        }
    }
}

/// The bytes of a cut that is no complement of a complement are read back
/// as the cut, whatever stands before and behind them.
pub proof fn lemma_cut_1d_round_trip(c: Cut1d, before: Seq<u8>, after: Seq<u8>)
    requires
        folded_1d(c),
    ensures
        ser_cut_1d(c).len() >= 12,
        parse_cut_1d(before + ser_cut_1d(c) + after, before.len() as int) == Ok::<
            (Cut1d, int),
            DkError,
        >((c, (before.len() + ser_cut_1d(c).len()) as int)),
    decreases c,
{
    let s = before + ser_cut_1d(c) + after;
    let tag = u32::ser(kind_1d(c));
    match c {
        Cut1d::Cut1dAbove(a) => {
            u32::lemma_round_trip(0, before, i64::ser(a.min) + after);
            assert(before + tag + (i64::ser(a.min) + after) =~= s);
            i64::lemma_round_trip(a.min, before + tag, after);
            assert(before + tag + i64::ser(a.min) + after =~= s);
        },
        Cut1d::Cut1dBelow(b) => {
            u32::lemma_round_trip(1, before, i64::ser(b.max) + after);
            assert(before + tag + (i64::ser(b.max) + after) =~= s);
            i64::lemma_round_trip(b.max, before + tag, after);
            assert(before + tag + i64::ser(b.max) + after =~= s);
        },
        Cut1d::Cut1dBetween(b) => {
            let bounds = <(i64, i64)>::ser((b.min, b.max));
            u32::lemma_round_trip(2, before, bounds + after);
            assert(before + tag + (bounds + after) =~= s);
            <(i64, i64)>::lemma_round_trip((b.min, b.max), before + tag, after);
            assert(before + tag + bounds + after =~= s);
        },
        Cut1d::Not(inner) => {
            let rest = ser_cut_1d(*inner);
            u32::lemma_round_trip(3, before, rest + after);
            assert(before + tag + (rest + after) =~= s);
            lemma_cut_1d_round_trip(*inner, before + tag, after);
            assert(before + tag + rest + after =~= s);
        },
    }
}

/// Appends the bytes of the cut to `out`.
fn write_cut_1d(c: &Cut1d, out: &mut Vec<u8>)
    ensures
        final(out)@ == old(out)@ + ser_cut_1d(*c),
    decreases c,
{
    match c {
        Cut1d::Cut1dAbove(a) => {
            0u32.write(out);
            a.min.write(out);
            assert(final(out)@ =~= old(out)@ + ser_cut_1d(*c));
        },
        Cut1d::Cut1dBelow(b) => {
            1u32.write(out);
            b.max.write(out);
            assert(final(out)@ =~= old(out)@ + ser_cut_1d(*c));
        },
        Cut1d::Cut1dBetween(b) => {
            2u32.write(out);
            (b.min, b.max).write(out);
            assert(final(out)@ =~= old(out)@ + ser_cut_1d(*c));
        },
        Cut1d::Not(inner) => {
            3u32.write(out);
            write_cut_1d(inner, out);
            assert(final(out)@ =~= old(out)@ + ser_cut_1d(*c));
        },
    }
}

/// The number of the kind, then the bounds or the cut inside.
///
/// Complements of complements are folded as they are read, so that no
/// input makes a cut that is deeper than one complement.
impl Wire for Cut1d {
    type Model = Cut1d;

    open spec fn model(&self) -> Cut1d {
        *self
    }

    open spec fn storable(m: Cut1d) -> bool {
        folded_1d(m)
    }

    open spec fn ser(m: Cut1d) -> Seq<u8> {
        ser_cut_1d(m)
    }

    open spec fn parse(s: Seq<u8>, pos: int) -> Result<(Cut1d, int), DkError> {
        parse_cut_1d(s, pos)
    }

    open spec fn least_len() -> nat {
        12
    }

    proof fn lemma_parse(s: Seq<u8>, pos: int) {
        lemma_parse_cut_1d(s, pos);
    }

    proof fn lemma_round_trip(m: Cut1d, before: Seq<u8>, after: Seq<u8>) {
        lemma_cut_1d_round_trip(m, before, after);
    }

    fn least() -> (n: usize) {
        12
    }

    fn write(&self, out: &mut Vec<u8>) {
        write_cut_1d(self, out);
    }

    fn read(bytes: &[u8], pos: usize) -> (r: Result<(Cut1d, usize), DkError>) {
        let mut odd: bool = false;
        let mut at: usize = pos;
        loop
            invariant
                pos <= at <= bytes@.len(),
                parse_cut_1d(bytes@, pos as int) == if odd {
                    not_1d(parse_cut_1d(bytes@, at as int))
                } else {
                    parse_cut_1d(bytes@, at as int)
                },
            decreases bytes@.len() - at,
        {
            let (tag, next) = match u32::read(bytes, at) {
                Ok(x) => x,
                Err(e) => {
                    return Err(e);
                },
            };
            if tag == 3 {
                proof {
                    lemma_not_not_1d(bytes@, next as int);
                }
                odd = !odd;
                at = next;
            } else {
                let read: Result<(Cut1d, usize), DkError> = if tag == 0 {
                    match i64::read(bytes, next) {
                        Ok((v, end)) => Ok((Cut1d::Cut1dAbove(Cut1dAbove { min: v }), end)),
                        Err(e) => Err(e),
                    }
                } else if tag == 1 {
                    match i64::read(bytes, next) {
                        Ok((v, end)) => Ok((Cut1d::Cut1dBelow(Cut1dBelow { max: v }), end)),
                        Err(e) => Err(e),
                    }
                } else if tag == 2 {
                    match <(i64, i64)>::read(bytes, next) {
                        Ok((v, end)) => Ok(
                            (Cut1d::Cut1dBetween(Cut1dBetween { min: v.0, max: v.1 }), end),
                        ),
                        Err(e) => Err(e),
                    }
                } else {
                    Err(DkError::InvalidFormat)
                };
                return match read {
                    Ok((cut, end)) => if odd {
                        Ok((Cut1d::Not(Box::new(cut)), end))
                    } else {
                        Ok((cut, end))
                    },
                    Err(e) => Err(e),
                };
            }
        }
    }
}

/// The layout of the fields of an ellipse.
pub type EllipseFields = ((i64, i64, i64), (i64, i64, i64));

/// The number that stands for the kind of a cut in two dimensions: 0 for
/// a rectangle, 1 for a circle, 2 for an ellipse, 3 for a polygon, and 4
/// for the complement of the cut that follows.
pub open spec fn kind_2d(c: Cut2dModel) -> u32 {
    match c {
        Cut2dModel::Rect(_) => 0,
        Cut2dModel::Circ(_) => 1,
        Cut2dModel::Ellipse(_) => 2,
        Cut2dModel::Poly(_) => 3,
        Cut2dModel::Not(_) => 4,
    }
}

/// The complement of the cut: a complement is unwrapped, any other cut is
/// wrapped in one.
pub open spec fn negated_2d(c: Cut2dModel) -> Cut2dModel {
    match c {
        Cut2dModel::Not(inner) => *inner,
        _ => Cut2dModel::Not(Box::new(c)),
    }
}

/// The cut is no complement of a complement, and its polygon has at most
/// `u64::MAX` corners.
pub open spec fn storable_2d(c: Cut2dModel) -> bool {
    match c {
        Cut2dModel::Poly(verts) => verts.len() <= u64::MAX,
        Cut2dModel::Not(inner) => match *inner {
            Cut2dModel::Poly(verts) => verts.len() <= u64::MAX,
            Cut2dModel::Not(_) => false,
            _ => true,
        },
        _ => true,
    }
}

/// The cut is no complement of a complement.
pub open spec fn folded_2d(c: Cut2dModel) -> bool {
    c matches Cut2dModel::Not(inner) ==> !(*inner is Not)
}

/// The bytes of a cut in two dimensions: the number of its kind in 4
/// bytes, then its fields in 8 bytes each, or its corners as a list, or
/// the cut that it is the complement of.
pub open spec fn ser_cut_2d(c: Cut2dModel) -> Seq<u8>
    decreases c,
{
    match c {
        Cut2dModel::Rect(r) => u32::ser(0) + <(i64, i64, i64, i64)>::ser((r.x0, r.y0, r.x1, r.y1)),
        Cut2dModel::Circ(r) => u32::ser(1) + <(i64, i64, i64)>::ser((r.x0, r.y0, r.r)),
        Cut2dModel::Ellipse(e) => u32::ser(2) + EllipseFields::ser(
            ((e.x0, e.y0, e.rx), (e.ry, e.ux, e.uy)),
        ),
        Cut2dModel::Poly(verts) => u32::ser(3) + <Vec<(i64, i64)>>::ser(verts),
        Cut2dModel::Not(inner) => u32::ser(4) + ser_cut_2d(*inner),
    }
}

/// The complement of the cut that was read, where one was.
pub open spec fn not_2d(r: Result<(Cut2dModel, int), DkError>) -> Result<
    (Cut2dModel, int),
    DkError,
> {
    match r {
        Ok(c) => Ok((negated_2d(c.0), c.1)),
        Err(e) => Err(e),
    }
}

/// The cut in two dimensions that the bytes of `s` from `pos` on start
/// with, and the position behind it; or why there is none.
///
/// Complements of complements are folded as they are read: of a row of
/// complements one is left, or none.
pub open spec fn parse_cut_2d(s: Seq<u8>, pos: int) -> Result<(Cut2dModel, int), DkError>
    decreases s.len() - pos,
{
    match u32::parse(s, pos) {
        Err(e) => Err(e),
        Ok(t) => if t.0 == 0 {
            match <(i64, i64, i64, i64)>::parse(s, t.1) {
                Ok(v) => Ok(
                    (
                        Cut2dModel::Rect(
                            Cut2dRect { x0: v.0.0, y0: v.0.1, x1: v.0.2, y1: v.0.3 },
                        ),
                        v.1,
                    ),
                ),
                Err(e) => Err(e),
            }
        } else if t.0 == 1 {
            match <(i64, i64, i64)>::parse(s, t.1) {
                Ok(v) => Ok((Cut2dModel::Circ(Cut2dCirc { x0: v.0.0, y0: v.0.1, r: v.0.2 }), v.1)),
                Err(e) => Err(e),
            }
        } else if t.0 == 2 {
            match EllipseFields::parse(s, t.1) {
                Ok(v) => Ok(
                    (
                        Cut2dModel::Ellipse(
                            Cut2dEllipse {
                                x0: v.0.0.0,
                                y0: v.0.0.1,
                                rx: v.0.0.2,
                                ry: v.0.1.0,
                                ux: v.0.1.1,
                                uy: v.0.1.2,
                            },
                        ),
                        v.1,
                    ),
                ),
                Err(e) => Err(e),
            }
        } else if t.0 == 3 {
            match <Vec<(i64, i64)>>::parse(s, t.1) {
                Ok(v) => Ok((Cut2dModel::Poly(v.0), v.1)),
                Err(e) => Err(e),
            }
        } else if t.0 == 4 {
            not_2d(parse_cut_2d(s, t.1))
        } else {
            Err(DkError::InvalidFormat)
        },
    }
}

/// A cut that was read is no complement of a complement.
pub proof fn lemma_parse_folded_2d(s: Seq<u8>, pos: int)
    ensures
        parse_cut_2d(s, pos) matches Ok(r) ==> folded_2d(r.0),
    decreases s.len() - pos,
{
    if let Ok(t) = u32::parse(s, pos) {
        if t.0 == 4 {
            lemma_parse_folded_2d(s, t.1);
        }
    }
}

/// The complement of the complement of a cut that was read is that cut.
pub proof fn lemma_not_not_2d(s: Seq<u8>, pos: int)
    ensures
        not_2d(not_2d(parse_cut_2d(s, pos))) == parse_cut_2d(s, pos),
{
    lemma_parse_folded_2d(s, pos);
}

/// A cut that was read takes 12 bytes at least, and lies within the bytes
/// it was read from.
pub proof fn lemma_parse_cut_2d(s: Seq<u8>, pos: int)
    requires
        0 <= pos <= s.len(),
    ensures
        parse_cut_2d(s, pos) matches Ok(r) ==> pos + 12 <= r.1 <= s.len(),
    decreases s.len() - pos,
{
    if let Ok(t) = u32::parse(s, pos) {
        if t.0 == 0 {
            <(i64, i64, i64, i64)>::lemma_parse(s, t.1);
        } else if t.0 == 1 {
            <(i64, i64, i64)>::lemma_parse(s, t.1);
        } else if t.0 == 2 {
            EllipseFields::lemma_parse(s, t.1);
        } else if t.0 == 3 {
            <Vec<(i64, i64)>>::lemma_parse(s, t.1);
        } else if t.0 == 4 {
            lemma_parse_cut_2d(s, t.1);
        }
    }
}

/// The number of a kind and storable fields behind it are read back as
/// they are, whatever stands before and behind them.
pub proof fn lemma_kind_and_fields<T: Wire>(
    kind: u32,
    v: T::Model,
    before: Seq<u8>,
    after: Seq<u8>,
)
    requires
        T::storable(v),
    ensures
        u32::parse(before + (u32::ser(kind) + T::ser(v)) + after, before.len() as int) == Ok::<
            (u32, int),
            DkError,
        >((kind, (before.len() + 4) as int)),
        T::parse(before + (u32::ser(kind) + T::ser(v)) + after, (before.len() + 4) as int)
            == Ok::<(T::Model, int), DkError>(
            (v, (before.len() + (u32::ser(kind) + T::ser(v)).len()) as int),
        ),
        (u32::ser(kind) + T::ser(v)).len() >= 4 + T::least_len(),
{
    let s = before + (u32::ser(kind) + T::ser(v)) + after;
    u32::lemma_round_trip(kind, before, T::ser(v) + after);
    assert(before + u32::ser(kind) + (T::ser(v) + after) =~= s);
    T::lemma_round_trip(v, before + u32::ser(kind), after);
    assert(before + u32::ser(kind) + T::ser(v) + after =~= s);
}

/// The bytes of a cut that can be stored are read back as the cut,
/// whatever stands before and behind them.
pub proof fn lemma_cut_2d_round_trip(c: Cut2dModel, before: Seq<u8>, after: Seq<u8>)
    requires
        storable_2d(c),
    ensures
        ser_cut_2d(c).len() >= 12,
        parse_cut_2d(before + ser_cut_2d(c) + after, before.len() as int) == Ok::<
            (Cut2dModel, int),
            DkError,
        >((c, (before.len() + ser_cut_2d(c).len()) as int)),
    decreases c,
{
    let s = before + ser_cut_2d(c) + after;
    match c {
        Cut2dModel::Rect(r) => {
            lemma_kind_and_fields::<(i64, i64, i64, i64)>(
                0,
                (r.x0, r.y0, r.x1, r.y1),
                before,
                after,
            );
        },
        Cut2dModel::Circ(r) => {
            lemma_kind_and_fields::<(i64, i64, i64)>(1, (r.x0, r.y0, r.r), before, after);
        },
        Cut2dModel::Ellipse(e) => {
            lemma_kind_and_fields::<EllipseFields>(
                2,
                ((e.x0, e.y0, e.rx), (e.ry, e.ux, e.uy)),
                before,
                after,
            );
        },
        Cut2dModel::Poly(verts) => {
            assert forall|i: int| 0 <= i < verts.len() implies <(i64, i64)>::storable(
                #[trigger] verts[i],
            ) by {}
            lemma_kind_and_fields::<Vec<(i64, i64)>>(3, verts, before, after);
        },
        Cut2dModel::Not(inner) => {
            let tag = u32::ser(4);
            let rest = ser_cut_2d(*inner);
            u32::lemma_round_trip(4, before, rest + after);
            assert(before + tag + (rest + after) =~= s);
            assert(storable_2d(*inner));
            lemma_cut_2d_round_trip(*inner, before + tag, after);
            assert(before + tag + rest + after =~= s);
        },
    }
}

/// The corners of a polygon are their own models.
pub proof fn lemma_models_of_corners(v: Seq<(i64, i64)>)
    ensures
        crate::wire::models::<(i64, i64)>(v) == v,
{
    assert(crate::wire::models::<(i64, i64)>(v) =~= v);
}

/// Appends the bytes of the cut to `out`.
fn write_cut_2d(c: &Cut2d, out: &mut Vec<u8>)
    ensures
        final(out)@ == old(out)@ + ser_cut_2d(c.as_model()),
    decreases c,
{
    match c {
        Cut2d::Cut2dRect(r) => {
            0u32.write(out);
            (r.x0, r.y0, r.x1, r.y1).write(out);
            assert(final(out)@ =~= old(out)@ + ser_cut_2d(c.as_model()));
        },
        Cut2d::Cut2dCirc(r) => {
            1u32.write(out);
            (r.x0, r.y0, r.r).write(out);
            assert(final(out)@ =~= old(out)@ + ser_cut_2d(c.as_model()));
        },
        Cut2d::Cut2dEllipse(e) => {
            2u32.write(out);
            ((e.x0, e.y0, e.rx), (e.ry, e.ux, e.uy)).write(out);
            assert(final(out)@ =~= old(out)@ + ser_cut_2d(c.as_model()));
        },
        Cut2d::Cut2dPoly(p) => {
            3u32.write(out);
            proof {
                lemma_models_of_corners(p.verts@);
            }
            p.verts.write(out);
            assert(final(out)@ =~= old(out)@ + ser_cut_2d(c.as_model()));
        },
        Cut2d::Not(inner) => {
            4u32.write(out);
            write_cut_2d(inner, out);
            assert(final(out)@ =~= old(out)@ + ser_cut_2d(c.as_model()));
        },
    }
}

/// The number of the kind, then the fields, the corners or the cut inside.
///
/// Complements of complements are folded as they are read, so that no
/// input makes a cut that is deeper than one complement.
impl Wire for Cut2d {
    type Model = Cut2dModel;

    open spec fn model(&self) -> Cut2dModel {
        self.as_model()
    }

    open spec fn storable(m: Cut2dModel) -> bool {
        storable_2d(m)
    }

    open spec fn ser(m: Cut2dModel) -> Seq<u8> {
        ser_cut_2d(m)
    }

    open spec fn parse(s: Seq<u8>, pos: int) -> Result<(Cut2dModel, int), DkError> {
        parse_cut_2d(s, pos)
    }

    open spec fn least_len() -> nat {
        12
    }

    proof fn lemma_parse(s: Seq<u8>, pos: int) {
        lemma_parse_cut_2d(s, pos);
    }

    proof fn lemma_round_trip(m: Cut2dModel, before: Seq<u8>, after: Seq<u8>) {
        lemma_cut_2d_round_trip(m, before, after);
    }

    fn least() -> (n: usize) {
        12
    }

    fn write(&self, out: &mut Vec<u8>) {
        write_cut_2d(self, out);
    }

    fn read(bytes: &[u8], pos: usize) -> (r: Result<(Cut2d, usize), DkError>) {
        let mut odd: bool = false;
        let mut at: usize = pos;
        loop
            invariant
                pos <= at <= bytes@.len(),
                parse_cut_2d(bytes@, pos as int) == if odd {
                    not_2d(parse_cut_2d(bytes@, at as int))
                } else {
                    parse_cut_2d(bytes@, at as int)
                },
            decreases bytes@.len() - at,
        {
            let (tag, next) = match u32::read(bytes, at) {
                Ok(x) => x,
                Err(e) => {
                    return Err(e);
                },
            };
            if tag == 4 {
                proof {
                    lemma_not_not_2d(bytes@, next as int);
                }
                odd = !odd;
                at = next;
            } else {
                let read: Result<(Cut2d, usize), DkError> = if tag == 0 {
                    match <(i64, i64, i64, i64)>::read(bytes, next) {
                        Ok((v, end)) => Ok(
                            (
                                Cut2d::Cut2dRect(
                                    Cut2dRect { x0: v.0, y0: v.1, x1: v.2, y1: v.3 },
                                ),
                                end,
                            ),
                        ),
                        Err(e) => Err(e),
                    }
                } else if tag == 1 {
                    match <(i64, i64, i64)>::read(bytes, next) {
                        Ok((v, end)) => Ok(
                            (Cut2d::Cut2dCirc(Cut2dCirc { x0: v.0, y0: v.1, r: v.2 }), end),
                        ),
                        Err(e) => Err(e),
                    }
                } else if tag == 2 {
                    match EllipseFields::read(bytes, next) {
                        Ok((v, end)) => Ok(
                            (
                                Cut2d::Cut2dEllipse(
                                    Cut2dEllipse {
                                        x0: v.0.0,
                                        y0: v.0.1,
                                        rx: v.0.2,
                                        ry: v.1.0,
                                        ux: v.1.1,
                                        uy: v.1.2,
                                    },
                                ),
                                end,
                            ),
                        ),
                        Err(e) => Err(e),
                    }
                } else if tag == 3 {
                    match <Vec<(i64, i64)>>::read(bytes, next) {
                        Ok((verts, end)) => {
                            proof {
                                lemma_models_of_corners(verts@);
                            }
                            Ok((Cut2d::Cut2dPoly(Cut2dPoly { verts }), end))
                        },
                        Err(e) => Err(e),
                    }
                } else {
                    Err(DkError::InvalidFormat)
                };
                return match read {
                    Ok((cut, end)) => if odd {
                        let ghost leaf = cut.as_model();
                        let not = Cut2d::Not(Box::new(cut));
                        assert(not.as_model() == negated_2d(leaf)) by {
                            assert(!(leaf is Not));
                            assert(not.as_model() == Cut2dModel::Not(Box::new(leaf)));
                        }
                        Ok((not, end))
                    } else {
                        Ok((cut, end))
                    },
                    Err(e) => Err(e),
                };
            }
        }
    }
}

} // verus!
