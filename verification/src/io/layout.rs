//! The binary layout of the items of a container.

use crate::error::DkError;
use crate::event::{Event, Hit, Run};
use crate::hist::{Hist, Hist1d, Hist2d, Hist3d, Hist4d, HistAxis};
use crate::points::{Points, Points1d, Points2d, Points3d, Points4d};
use crate::unc::{word_is_finite, is_finite_word, Unc, ValUnc, NAN_WORD};
use crate::wire::{field, lemma_field_of_concat, lemma_models_of_numbers, models, write_all, Wire};
use crate::{DaqId, DetId};
use vstd::prelude::*;
use vstd::slice::slice_subrange;
use vstd::utf8::{decode_utf8, encode_utf8, encode_utf8_decode_utf8, encode_utf8_valid_utf8, valid_utf8};

verus! {

/// The number that stands for no detector, no channel and no value: the
/// highest bit of 16.
pub const NONE_16: u16 = 0x8000;

/// Source, crate, slot and channel, in 2 bytes each.
impl Wire for DaqId {
    type Model = DaqId;

    open spec fn model(&self) -> DaqId {
        *self
    }

    open spec fn storable(m: DaqId) -> bool {
        true
    }

    open spec fn ser(m: DaqId) -> Seq<u8> {
        <(u16, u16, u16, u16)>::ser((m.0, m.1, m.2, m.3))
    }

    open spec fn parse(s: Seq<u8>, pos: int) -> Result<(DaqId, int), DkError> {
        match <(u16, u16, u16, u16)>::parse(s, pos) {
            Err(e) => Err(e),
            Ok(r) => Ok((DaqId(r.0.0, r.0.1, r.0.2, r.0.3), r.1)),
        }
    }

    open spec fn least_len() -> nat {
        2
    }

    proof fn lemma_parse(s: Seq<u8>, pos: int) {
        <(u16, u16, u16, u16)>::lemma_parse(s, pos);
    }

    proof fn lemma_round_trip(m: DaqId, before: Seq<u8>, after: Seq<u8>) {
        <(u16, u16, u16, u16)>::lemma_round_trip((m.0, m.1, m.2, m.3), before, after);
    }

    fn least() -> (n: usize) {
        2
    }

    fn write(&self, out: &mut Vec<u8>) {
        (self.0, self.1, self.2, self.3).write(out);
    }

    fn read(bytes: &[u8], pos: usize) -> (r: Result<(DaqId, usize), DkError>) {
        match <(u16, u16, u16, u16)>::read(bytes, pos) {
            Err(e) => Err(e),
            Ok((t, next)) => Ok((DaqId(t.0, t.1, t.2, t.3), next)),
        }
    }
}

/// The detector channel that the two numbers `d` and `c` stand for: none
/// where the highest bit of either is set.
pub open spec fn det_id_of(d: u16, c: u16) -> Option<DetId> {
    if d >= NONE_16 || c >= NONE_16 {
        None
    } else {
        Some(DetId(d, c))
    }
}

/// Detector and channel in 2 bytes each, or `NONE_16` twice for none.
impl Wire for Option<DetId> {
    type Model = Option<DetId>;

    open spec fn model(&self) -> Option<DetId> {
        *self
    }

    open spec fn storable(m: Option<DetId>) -> bool {
        m matches Some(d) ==> d.0 < NONE_16 && d.1 < NONE_16
    }

    open spec fn ser(m: Option<DetId>) -> Seq<u8> {
        match m {
            Some(d) => <(u16, u16)>::ser((d.0, d.1)),
            None => <(u16, u16)>::ser((NONE_16, NONE_16)),
        }
    }

    open spec fn parse(s: Seq<u8>, pos: int) -> Result<(Option<DetId>, int), DkError> {
        match <(u16, u16)>::parse(s, pos) {
            Err(e) => Err(e),
            Ok(r) => Ok((det_id_of(r.0.0, r.0.1), r.1)),
        }
    }

    open spec fn least_len() -> nat {
        2
    }

    proof fn lemma_parse(s: Seq<u8>, pos: int) {
        <(u16, u16)>::lemma_parse(s, pos);
    }

    proof fn lemma_round_trip(m: Option<DetId>, before: Seq<u8>, after: Seq<u8>) {
        match m {
            Some(d) => <(u16, u16)>::lemma_round_trip((d.0, d.1), before, after),
            None => <(u16, u16)>::lemma_round_trip((NONE_16, NONE_16), before, after),
        }
    }

    fn least() -> (n: usize) {
        2
    }

    fn write(&self, out: &mut Vec<u8>) {
        match self {
            Some(d) => (d.0, d.1).write(out),
            None => (NONE_16, NONE_16).write(out),
        }
    }

    fn read(bytes: &[u8], pos: usize) -> (r: Result<(Option<DetId>, usize), DkError>) {
        match <(u16, u16)>::read(bytes, pos) {
            Err(e) => Err(e),
            Ok((t, next)) => if t.0 >= NONE_16 || t.1 >= NONE_16 {
                Ok((None, next))
            } else {
                Ok((Some(DetId(t.0, t.1)), next))
            },
        }
    }
}

/// The value that the number `v` stands for: none where its highest bit
/// is set.
pub open spec fn value_of_16(v: u16) -> Option<u16> {
    if v >= NONE_16 {
        None
    } else {
        Some(v)
    }
}

/// A value of 15 bits in 2 bytes, or `NONE_16` for none.
impl Wire for Option<u16> {
    type Model = Option<u16>;

    open spec fn model(&self) -> Option<u16> {
        *self
    }

    open spec fn storable(m: Option<u16>) -> bool {
        m matches Some(v) ==> v < NONE_16
    }

    open spec fn ser(m: Option<u16>) -> Seq<u8> {
        match m {
            Some(v) => u16::ser(v),
            None => u16::ser(NONE_16),
        }
    }

    open spec fn parse(s: Seq<u8>, pos: int) -> Result<(Option<u16>, int), DkError> {
        match u16::parse(s, pos) {
            Err(e) => Err(e),
            Ok(r) => Ok((value_of_16(r.0), r.1)),
        }
    }

    open spec fn least_len() -> nat {
        2
    }

    proof fn lemma_parse(s: Seq<u8>, pos: int) {
        u16::lemma_parse(s, pos);
    }

    proof fn lemma_round_trip(m: Option<u16>, before: Seq<u8>, after: Seq<u8>) {
        match m {
            Some(v) => u16::lemma_round_trip(v, before, after),
            None => u16::lemma_round_trip(NONE_16, before, after),
        }
    }

    fn least() -> (n: usize) {
        2
    }

    fn write(&self, out: &mut Vec<u8>) {
        match self {
            Some(v) => v.write(out),
            None => NONE_16.write(out),
        }
    }

    fn read(bytes: &[u8], pos: usize) -> (r: Result<(Option<u16>, usize), DkError>) {
        match u16::read(bytes, pos) {
            Err(e) => Err(e),
            Ok((v, next)) => if v >= NONE_16 {
                Ok((None, next))
            } else {
                Ok((Some(v), next))
            },
        }
    }
}

/// The value with uncertainty that the two words stand for: none unless
/// both are finite.
pub open spec fn val_unc_of(val: u64, unc: u64) -> Option<ValUnc> {
    if word_is_finite(val) && word_is_finite(unc) {
        Some(ValUnc { val, unc: Unc(unc) })
    } else {
        None
    }
}

/// Value and uncertainty in 8 bytes each, or `NAN_WORD` twice for none.
impl Wire for Option<ValUnc> {
    type Model = Option<ValUnc>;

    open spec fn model(&self) -> Option<ValUnc> {
        *self
    }

    open spec fn storable(m: Option<ValUnc>) -> bool {
        m matches Some(v) ==> word_is_finite(v.val) && word_is_finite(v.unc.0)
    }

    open spec fn ser(m: Option<ValUnc>) -> Seq<u8> {
        match m {
            Some(v) => <(u64, u64)>::ser((v.val, v.unc.0)),
            None => <(u64, u64)>::ser((NAN_WORD, NAN_WORD)),
        }
    }

    open spec fn parse(s: Seq<u8>, pos: int) -> Result<(Option<ValUnc>, int), DkError> {
        match <(u64, u64)>::parse(s, pos) {
            Err(e) => Err(e),
            Ok(r) => Ok((val_unc_of(r.0.0, r.0.1), r.1)),
        }
    }

    open spec fn least_len() -> nat {
        8
    }

    proof fn lemma_parse(s: Seq<u8>, pos: int) {
        <(u64, u64)>::lemma_parse(s, pos);
    }

    proof fn lemma_round_trip(m: Option<ValUnc>, before: Seq<u8>, after: Seq<u8>) {
        match m {
            Some(v) => <(u64, u64)>::lemma_round_trip((v.val, v.unc.0), before, after),
            None => <(u64, u64)>::lemma_round_trip((NAN_WORD, NAN_WORD), before, after),
        }
    }

    fn least() -> (n: usize) {
        8
    }

    fn write(&self, out: &mut Vec<u8>) {
        match self {
            Some(v) => (v.val, v.unc.0).write(out),
            None => (NAN_WORD, NAN_WORD).write(out),
        }
    }

    fn read(bytes: &[u8], pos: usize) -> (r: Result<(Option<ValUnc>, usize), DkError>) {
        match <(u64, u64)>::read(bytes, pos) {
            Err(e) => Err(e),
            Ok((t, next)) => if is_finite_word(t.0) && is_finite_word(t.1) {
                Ok((Some(ValUnc { val: t.0, unc: Unc(t.1) }), next))
            } else {
                Ok((None, next))
            },
        }
    }
}

/// What a hit holds.
pub struct HitModel {
    pub daqid: DaqId,
    pub detid: Option<DetId>,
    pub rawval: u16,
    pub value: Option<u16>,
    pub energy: Option<ValUnc>,
    pub time: u64,
    pub trace: Seq<u16>,
}

/// The layout of a hit: its fields in order.
pub type HitFields = (
    DaqId,
    (Option<DetId>, (u16, (Option<u16>, (Option<ValUnc>, (u64, Vec<u16>))))),
);

impl HitModel {
    /// The fields of the hit, in the order of the layout.
    pub open spec fn fields(self) -> (
        DaqId,
        (Option<DetId>, (u16, (Option<u16>, (Option<ValUnc>, (u64, Seq<u16>))))),
    ) {
        (
            self.daqid,
            (self.detid, (self.rawval, (self.value, (self.energy, (self.time, self.trace))))),
        )
    }

    /// The hit with the given fields.
    pub open spec fn of(
        f: (DaqId, (Option<DetId>, (u16, (Option<u16>, (Option<ValUnc>, (u64, Seq<u16>)))))),
    ) -> HitModel {
        HitModel {
            daqid: f.0,
            detid: f.1.0,
            rawval: f.1.1.0,
            value: f.1.1.1.0,
            energy: f.1.1.1.1.0,
            time: f.1.1.1.1.1.0,
            trace: f.1.1.1.1.1.1,
        }
    }
}

/// Address, detector channel, raw value, value, energy, time and trace,
/// one behind the other.
impl Wire for Hit {
    type Model = HitModel;

    open spec fn model(&self) -> HitModel {
        HitModel {
            daqid: self.daqid,
            detid: self.detid,
            rawval: self.rawval,
            value: self.value,
            energy: self.energy,
            time: self.time,
            trace: self.trace@,
        }
    }

    open spec fn storable(m: HitModel) -> bool {
        HitFields::storable(m.fields())
    }

    open spec fn ser(m: HitModel) -> Seq<u8> {
        HitFields::ser(m.fields())
    }

    open spec fn parse(s: Seq<u8>, pos: int) -> Result<(HitModel, int), DkError> {
        match HitFields::parse(s, pos) {
            Err(e) => Err(e),
            Ok(r) => Ok((HitModel::of(r.0), r.1)),
        }
    }

    open spec fn least_len() -> nat {
        2
    }

    proof fn lemma_parse(s: Seq<u8>, pos: int) {
        HitFields::lemma_parse(s, pos);
    }

    proof fn lemma_round_trip(m: HitModel, before: Seq<u8>, after: Seq<u8>) {
        HitFields::lemma_round_trip(m.fields(), before, after);
    }

    fn least() -> (n: usize) {
        2
    }

    fn write(&self, out: &mut Vec<u8>) {
        self.daqid.write(out);
        self.detid.write(out);
        self.rawval.write(out);
        self.value.write(out);
        self.energy.write(out);
        self.time.write(out);
        self.trace.write(out);
        proof {
            let m = self.model();
            assert(self.trace.model() =~= self.trace@);
            assert(old(out)@ + DaqId::ser(m.daqid) + <Option<DetId>>::ser(m.detid) + u16::ser(
                m.rawval,
            ) + <Option<u16>>::ser(m.value) + <Option<ValUnc>>::ser(m.energy) + u64::ser(m.time)
                + <Vec<u16>>::ser(m.trace) =~= old(out)@ + HitFields::ser(m.fields()));
        }
    }

    fn read(bytes: &[u8], pos: usize) -> (r: Result<(Hit, usize), DkError>) {
        match HitFields::read(bytes, pos) {
            Err(e) => Err(e),
            Ok((f, next)) => {
                let (daqid, (detid, (rawval, (value, (energy, (time, trace)))))) = f;
                proof {
                    assert(trace.model() =~= trace@);
                }
                Ok((Hit { daqid, detid, rawval, value, energy, time, trace }, next))
            },
        }
    }
}

/// The hits of the event, as a list.
impl Wire for Event {
    type Model = Seq<HitModel>;

    open spec fn model(&self) -> Seq<HitModel> {
        self.hits.model()
    }

    open spec fn storable(m: Seq<HitModel>) -> bool {
        <Vec<Hit>>::storable(m)
    }

    open spec fn ser(m: Seq<HitModel>) -> Seq<u8> {
        <Vec<Hit>>::ser(m)
    }

    open spec fn parse(s: Seq<u8>, pos: int) -> Result<(Seq<HitModel>, int), DkError> {
        <Vec<Hit>>::parse(s, pos)
    }

    open spec fn least_len() -> nat {
        8
    }

    proof fn lemma_parse(s: Seq<u8>, pos: int) {
        <Vec<Hit>>::lemma_parse(s, pos);
    }

    proof fn lemma_round_trip(m: Seq<HitModel>, before: Seq<u8>, after: Seq<u8>) {
        <Vec<Hit>>::lemma_round_trip(m, before, after);
    }

    fn least() -> (n: usize) {
        8
    }

    fn write(&self, out: &mut Vec<u8>) {
        self.hits.write(out);
    }

    fn read(bytes: &[u8], pos: usize) -> (r: Result<(Event, usize), DkError>) {
        match <Vec<Hit>>::read(bytes, pos) {
            Err(e) => Err(e),
            Ok((hits, next)) => Ok((Event { hits }, next)),
        }
    }
}

/// The events of the run, as a list.
impl Wire for Run {
    type Model = Seq<Seq<HitModel>>;

    open spec fn model(&self) -> Seq<Seq<HitModel>> {
        self.events.model()
    }

    open spec fn storable(m: Seq<Seq<HitModel>>) -> bool {
        <Vec<Event>>::storable(m)
    }

    open spec fn ser(m: Seq<Seq<HitModel>>) -> Seq<u8> {
        <Vec<Event>>::ser(m)
    }

    open spec fn parse(s: Seq<u8>, pos: int) -> Result<(Seq<Seq<HitModel>>, int), DkError> {
        <Vec<Event>>::parse(s, pos)
    }

    open spec fn least_len() -> nat {
        8
    }

    proof fn lemma_parse(s: Seq<u8>, pos: int) {
        <Vec<Event>>::lemma_parse(s, pos);
    }

    proof fn lemma_round_trip(m: Seq<Seq<HitModel>>, before: Seq<u8>, after: Seq<u8>) {
        <Vec<Event>>::lemma_round_trip(m, before, after);
    }

    fn least() -> (n: usize) {
        8
    }

    fn write(&self, out: &mut Vec<u8>) {
        self.events.write(out);
    }

    fn read(bytes: &[u8], pos: usize) -> (r: Result<(Run, usize), DkError>) {
        match <Vec<Event>>::read(bytes, pos) {
            Err(e) => Err(e),
            Ok((events, next)) => Ok((Run { events }, next)),
        }
    }
}

/// Number of bins in 4 bytes, then lower and upper bound in 8 bytes each.
impl Wire for HistAxis {
    type Model = HistAxis;

    open spec fn model(&self) -> HistAxis {
        *self
    }

    open spec fn storable(m: HistAxis) -> bool {
        true
    }

    open spec fn ser(m: HistAxis) -> Seq<u8> {
        <(u32, i64, i64)>::ser((m.bins, m.min, m.max))
    }

    open spec fn parse(s: Seq<u8>, pos: int) -> Result<(HistAxis, int), DkError> {
        match <(u32, i64, i64)>::parse(s, pos) {
            Err(e) => Err(e),
            Ok(r) => Ok((HistAxis { bins: r.0.0, min: r.0.1, max: r.0.2 }, r.1)),
        }
    }

    open spec fn least_len() -> nat {
        4
    }

    proof fn lemma_parse(s: Seq<u8>, pos: int) {
        <(u32, i64, i64)>::lemma_parse(s, pos);
    }

    proof fn lemma_round_trip(m: HistAxis, before: Seq<u8>, after: Seq<u8>) {
        <(u32, i64, i64)>::lemma_round_trip((m.bins, m.min, m.max), before, after);
    }

    fn least() -> (n: usize) {
        4
    }

    fn write(&self, out: &mut Vec<u8>) {
        (self.bins, self.min, self.max).write(out);
    }

    fn read(bytes: &[u8], pos: usize) -> (r: Result<(HistAxis, usize), DkError>) {
        match <(u32, i64, i64)>::read(bytes, pos) {
            Err(e) => Err(e),
            Ok((t, next)) => Ok((HistAxis { bins: t.0, min: t.1, max: t.2 }, next)),
        }
    }
}

/// The axis as a histogram keeps it: the bounds in order.
pub open spec fn kept(axis: HistAxis) -> HistAxis {
    if axis.min > axis.max {
        HistAxis { bins: axis.bins, min: axis.max, max: axis.min }
    } else {
        axis
    }
}

/// The histogram that was read as the axis `axis` and the counts `counts`:
/// none where the axis has no bins, or the counts are not one for each bin.
pub open spec fn hist_1d_of(axis: HistAxis, counts: Seq<u64>) -> Option<(HistAxis, Seq<u64>)> {
    if axis.bins > 0 && counts.len() == axis.bins {
        Some((kept(axis), counts))
    } else {
        None
    }
}

/// The axis, then the counts as a list.
impl Wire for Hist1d {
    type Model = (HistAxis, Seq<u64>);

    open spec fn model(&self) -> (HistAxis, Seq<u64>) {
        (self.spec_axes(), self.spec_counts())
    }

    open spec fn storable(m: (HistAxis, Seq<u64>)) -> bool {
        m.0.wf() && m.1.len() == m.0.bins
    }

    open spec fn ser(m: (HistAxis, Seq<u64>)) -> Seq<u8> {
        <(HistAxis, Vec<u64>)>::ser(m)
    }

    open spec fn parse(s: Seq<u8>, pos: int) -> Result<((HistAxis, Seq<u64>), int), DkError> {
        match <(HistAxis, Vec<u64>)>::parse(s, pos) {
            Err(e) => Err(e),
            Ok(r) => match hist_1d_of(r.0.0, r.0.1) {
                None => Err(DkError::ConstraintViolation),
                Some(m) => Ok((m, r.1)),
            },
        }
    }

    open spec fn least_len() -> nat {
        4
    }

    proof fn lemma_parse(s: Seq<u8>, pos: int) {
        <(HistAxis, Vec<u64>)>::lemma_parse(s, pos);
    }

    proof fn lemma_round_trip(m: (HistAxis, Seq<u64>), before: Seq<u8>, after: Seq<u8>) {
        <(HistAxis, Vec<u64>)>::lemma_round_trip(m, before, after);
    }

    fn least() -> (n: usize) {
        4
    }

    fn write(&self, out: &mut Vec<u8>) {
        proof {
            lemma_models_of_numbers(self.spec_counts());
        }
        self.axes().write(out);
        write_all(self.counts().as_slice(), out);
        assert(old(out)@ + HistAxis::ser(self.spec_axes()) + <Vec<u64>>::ser(self.spec_counts())
            =~= old(out)@ + (HistAxis::ser(self.spec_axes()) + <Vec<u64>>::ser(
            self.spec_counts(),
        )));
    }

    fn read(bytes: &[u8], pos: usize) -> (r: Result<(Hist1d, usize), DkError>) {
        match <(HistAxis, Vec<u64>)>::read(bytes, pos) {
            Err(e) => Err(e),
            Ok(((axis, counts), next)) => {
                proof {
                    lemma_models_of_numbers(counts@);
                }
                match Hist1d::with_counts(axis.bins, axis.min, axis.max, counts) {
                    Some(h) => Ok((h, next)),
                    None => Err(DkError::ConstraintViolation),
                }
            },
        }
    }
}

/// The histogram that was read as the axes `axes` and the counts `counts`:
/// none where an axis has no bins, the bins are more than `u32::MAX` in
/// all, or the counts are not one for each bin.
pub open spec fn hist_2d_of(axes: (HistAxis, HistAxis), counts: Seq<u64>) -> Option<
    ((HistAxis, HistAxis), Seq<u64>),
> {
    if axes.0.bins > 0 && axes.1.bins > 0 && axes.0.bins * axes.1.bins <= u32::MAX
        && counts.len() == axes.0.bins * axes.1.bins {
        Some(((kept(axes.0), kept(axes.1)), counts))
    } else {
        None
    }
}

/// The two axes, then the counts as a list.
impl Wire for Hist2d {
    type Model = ((HistAxis, HistAxis), Seq<u64>);

    open spec fn model(&self) -> ((HistAxis, HistAxis), Seq<u64>) {
        (self.spec_axes(), self.spec_counts())
    }

    open spec fn storable(m: ((HistAxis, HistAxis), Seq<u64>)) -> bool {
        Hist2d::axes_wf(m.0) && m.1.len() == Hist2d::cells(m.0)
    }

    open spec fn ser(m: ((HistAxis, HistAxis), Seq<u64>)) -> Seq<u8> {
        <((HistAxis, HistAxis), Vec<u64>)>::ser(m)
    }

    open spec fn parse(s: Seq<u8>, pos: int) -> Result<
        (((HistAxis, HistAxis), Seq<u64>), int),
        DkError,
    > {
        match <((HistAxis, HistAxis), Vec<u64>)>::parse(s, pos) {
            Err(e) => Err(e),
            Ok(r) => match hist_2d_of(r.0.0, r.0.1) {
                None => Err(DkError::ConstraintViolation),
                Some(m) => Ok((m, r.1)),
            },
        }
    }

    open spec fn least_len() -> nat {
        4
    }

    proof fn lemma_parse(s: Seq<u8>, pos: int) {
        <((HistAxis, HistAxis), Vec<u64>)>::lemma_parse(s, pos);
    }

    proof fn lemma_round_trip(
        m: ((HistAxis, HistAxis), Seq<u64>),
        before: Seq<u8>,
        after: Seq<u8>,
    ) {
        <((HistAxis, HistAxis), Vec<u64>)>::lemma_round_trip(m, before, after);
    }

    fn least() -> (n: usize) {
        4
    }

    fn write(&self, out: &mut Vec<u8>) {
        proof {
            lemma_models_of_numbers(self.spec_counts());
        }
        self.axes().write(out);
        write_all(self.counts().as_slice(), out);
        assert(old(out)@ + <(HistAxis, HistAxis)>::ser(self.spec_axes()) + <Vec<u64>>::ser(
            self.spec_counts(),
        ) =~= old(out)@ + (<(HistAxis, HistAxis)>::ser(self.spec_axes()) + <Vec<u64>>::ser(
            self.spec_counts(),
        )));
    }

    fn read(bytes: &[u8], pos: usize) -> (r: Result<(Hist2d, usize), DkError>) {
        match <((HistAxis, HistAxis), Vec<u64>)>::read(bytes, pos) {
            Err(e) => Err(e),
            Ok((((a0, a1), counts), next)) => {
                proof {
                    lemma_models_of_numbers(counts@);
                }
                match Hist2d::with_counts(a0.bins, a0.min, a0.max, a1.bins, a1.min, a1.max, counts) {
                    Some(h) => Ok((h, next)),
                    None => Err(DkError::ConstraintViolation),
                }
            },
        }
    }
}

/// The histogram that was read as the axes `axes` and the counts `counts`:
/// none where an axis has no bins, the bins are more than `u32::MAX` in
/// all, or the counts are not one for each bin.
pub open spec fn hist_3d_of(axes: (HistAxis, HistAxis, HistAxis), counts: Seq<u64>) -> Option<
    ((HistAxis, HistAxis, HistAxis), Seq<u64>),
> {
    if axes.0.bins > 0 && axes.1.bins > 0 && axes.2.bins > 0 && axes.0.bins * axes.1.bins
        * axes.2.bins <= u32::MAX && counts.len() == axes.0.bins * axes.1.bins * axes.2.bins {
        Some(((kept(axes.0), kept(axes.1), kept(axes.2)), counts))
    } else {
        None
    }
}

/// The three axes, then the counts as a list.
impl Wire for Hist3d {
    type Model = ((HistAxis, HistAxis, HistAxis), Seq<u64>);

    open spec fn model(&self) -> ((HistAxis, HistAxis, HistAxis), Seq<u64>) {
        (self.spec_axes(), self.spec_counts())
    }

    open spec fn storable(m: ((HistAxis, HistAxis, HistAxis), Seq<u64>)) -> bool {
        Hist3d::axes_wf(m.0) && m.1.len() == Hist3d::cells(m.0)
    }

    open spec fn ser(m: ((HistAxis, HistAxis, HistAxis), Seq<u64>)) -> Seq<u8> {
        <((HistAxis, HistAxis, HistAxis), Vec<u64>)>::ser(m)
    }

    open spec fn parse(s: Seq<u8>, pos: int) -> Result<
        (((HistAxis, HistAxis, HistAxis), Seq<u64>), int),
        DkError,
    > {
        match <((HistAxis, HistAxis, HistAxis), Vec<u64>)>::parse(s, pos) {
            Err(e) => Err(e),
            Ok(r) => match hist_3d_of(r.0.0, r.0.1) {
                None => Err(DkError::ConstraintViolation),
                Some(m) => Ok((m, r.1)),
            },
        }
    }

    open spec fn least_len() -> nat {
        4
    }

    proof fn lemma_parse(s: Seq<u8>, pos: int) {
        <((HistAxis, HistAxis, HistAxis), Vec<u64>)>::lemma_parse(s, pos);
    }

    proof fn lemma_round_trip(
        m: ((HistAxis, HistAxis, HistAxis), Seq<u64>),
        before: Seq<u8>,
        after: Seq<u8>,
    ) {
        <((HistAxis, HistAxis, HistAxis), Vec<u64>)>::lemma_round_trip(m, before, after);
    }

    fn least() -> (n: usize) {
        4
    }

    fn write(&self, out: &mut Vec<u8>) {
        proof {
            lemma_models_of_numbers(self.spec_counts());
        }
        self.axes().write(out);
        write_all(self.counts().as_slice(), out);
        assert(old(out)@ + <(HistAxis, HistAxis, HistAxis)>::ser(self.spec_axes()) + <Vec<
            u64,
        >>::ser(self.spec_counts()) =~= old(out)@ + (<(HistAxis, HistAxis, HistAxis)>::ser(
            self.spec_axes(),
        ) + <Vec<u64>>::ser(self.spec_counts())));
    }

    fn read(bytes: &[u8], pos: usize) -> (r: Result<(Hist3d, usize), DkError>) {
        match <((HistAxis, HistAxis, HistAxis), Vec<u64>)>::read(bytes, pos) {
            Err(e) => Err(e),
            Ok((((a0, a1, a2), counts), next)) => {
                proof {
                    lemma_models_of_numbers(counts@);
                }
                match Hist3d::with_counts(
                    a0.bins,
                    a0.min,
                    a0.max,
                    a1.bins,
                    a1.min,
                    a1.max,
                    a2.bins,
                    a2.min,
                    a2.max,
                    counts,
                ) {
                    Some(h) => Ok((h, next)),
                    None => Err(DkError::ConstraintViolation),
                }
            },
        }
    }
}

/// The histogram that was read as the axes `axes` and the counts `counts`:
/// none where an axis has no bins, the bins are more than `u32::MAX` in
/// all, or the counts are not one for each bin.
pub open spec fn hist_4d_of(
    axes: (HistAxis, HistAxis, HistAxis, HistAxis),
    counts: Seq<u64>,
) -> Option<((HistAxis, HistAxis, HistAxis, HistAxis), Seq<u64>)> {
    if axes.0.bins > 0 && axes.1.bins > 0 && axes.2.bins > 0 && axes.3.bins > 0 && axes.0.bins
        * axes.1.bins * axes.2.bins * axes.3.bins <= u32::MAX && counts.len() == axes.0.bins
        * axes.1.bins * axes.2.bins * axes.3.bins {
        Some(((kept(axes.0), kept(axes.1), kept(axes.2), kept(axes.3)), counts))
    } else {
        None
    }
}

/// The four axes, then the counts as a list.
impl Wire for Hist4d {
    type Model = ((HistAxis, HistAxis, HistAxis, HistAxis), Seq<u64>);

    open spec fn model(&self) -> ((HistAxis, HistAxis, HistAxis, HistAxis), Seq<u64>) {
        (self.spec_axes(), self.spec_counts())
    }

    open spec fn storable(m: ((HistAxis, HistAxis, HistAxis, HistAxis), Seq<u64>)) -> bool {
        Hist4d::axes_wf(m.0) && m.1.len() == Hist4d::cells(m.0)
    }

    open spec fn ser(m: ((HistAxis, HistAxis, HistAxis, HistAxis), Seq<u64>)) -> Seq<u8> {
        <((HistAxis, HistAxis, HistAxis, HistAxis), Vec<u64>)>::ser(m)
    }

    open spec fn parse(s: Seq<u8>, pos: int) -> Result<
        (((HistAxis, HistAxis, HistAxis, HistAxis), Seq<u64>), int),
        DkError,
    > {
        match <((HistAxis, HistAxis, HistAxis, HistAxis), Vec<u64>)>::parse(s, pos) {
            Err(e) => Err(e),
            Ok(r) => match hist_4d_of(r.0.0, r.0.1) {
                None => Err(DkError::ConstraintViolation),
                Some(m) => Ok((m, r.1)),
            },
        }
    }

    open spec fn least_len() -> nat {
        4
    }

    proof fn lemma_parse(s: Seq<u8>, pos: int) {
        <((HistAxis, HistAxis, HistAxis, HistAxis), Vec<u64>)>::lemma_parse(s, pos);
    }

    proof fn lemma_round_trip(
        m: ((HistAxis, HistAxis, HistAxis, HistAxis), Seq<u64>),
        before: Seq<u8>,
        after: Seq<u8>,
    ) {
        <((HistAxis, HistAxis, HistAxis, HistAxis), Vec<u64>)>::lemma_round_trip(
            m,
            before,
            after,
        );
    }

    fn least() -> (n: usize) {
        4
    }

    fn write(&self, out: &mut Vec<u8>) {
        proof {
            lemma_models_of_numbers(self.spec_counts());
        }
        self.axes().write(out);
        write_all(self.counts().as_slice(), out);
        assert(old(out)@ + <(HistAxis, HistAxis, HistAxis, HistAxis)>::ser(self.spec_axes())
            + <Vec<u64>>::ser(self.spec_counts()) =~= old(out)@ + (<(
            HistAxis,
            HistAxis,
            HistAxis,
            HistAxis,
        )>::ser(self.spec_axes()) + <Vec<u64>>::ser(self.spec_counts())));
    }

    fn read(bytes: &[u8], pos: usize) -> (r: Result<(Hist4d, usize), DkError>) {
        match <((HistAxis, HistAxis, HistAxis, HistAxis), Vec<u64>)>::read(bytes, pos) {
            Err(e) => Err(e),
            Ok((((a0, a1, a2, a3), counts), next)) => {
                proof {
                    lemma_models_of_numbers(counts@);
                }
                match Hist4d::with_counts(
                    a0.bins,
                    a0.min,
                    a0.max,
                    a1.bins,
                    a1.min,
                    a1.max,
                    a2.bins,
                    a2.min,
                    a2.max,
                    a3.bins,
                    a3.min,
                    a3.max,
                    counts,
                ) {
                    Some(h) => Ok((h, next)),
                    None => Err(DkError::ConstraintViolation),
                }
            },
        }
    }
}

/// The points as a list, each in 8 bytes.
impl Wire for Points1d {
    type Model = Seq<i64>;

    open spec fn model(&self) -> Seq<i64> {
        models::<i64>(self.spec_points())
    }

    open spec fn storable(m: Seq<i64>) -> bool {
        <Vec<i64>>::storable(m)
    }

    open spec fn ser(m: Seq<i64>) -> Seq<u8> {
        <Vec<i64>>::ser(m)
    }

    open spec fn parse(s: Seq<u8>, pos: int) -> Result<(Seq<i64>, int), DkError> {
        <Vec<i64>>::parse(s, pos)
    }

    open spec fn least_len() -> nat {
        8
    }

    proof fn lemma_parse(s: Seq<u8>, pos: int) {
        <Vec<i64>>::lemma_parse(s, pos);
    }

    proof fn lemma_round_trip(m: Seq<i64>, before: Seq<u8>, after: Seq<u8>) {
        <Vec<i64>>::lemma_round_trip(m, before, after);
    }

    fn least() -> (n: usize) {
        8
    }

    fn write(&self, out: &mut Vec<u8>) {
        write_all(self.points(), out);
    }

    fn read(bytes: &[u8], pos: usize) -> (r: Result<(Points1d, usize), DkError>) {
        match <Vec<i64>>::read(bytes, pos) {
            Err(e) => Err(e),
            Ok((points, next)) => Ok((Points1d::with_points(points), next)),
        }
    }
}

/// The points as a list, each coordinate in 8 bytes.
impl Wire for Points2d {
    type Model = Seq<(i64, i64)>;

    open spec fn model(&self) -> Seq<(i64, i64)> {
        models::<(i64, i64)>(self.spec_points())
    }

    open spec fn storable(m: Seq<(i64, i64)>) -> bool {
        <Vec<(i64, i64)>>::storable(m)
    }

    open spec fn ser(m: Seq<(i64, i64)>) -> Seq<u8> {
        <Vec<(i64, i64)>>::ser(m)
    }

    open spec fn parse(s: Seq<u8>, pos: int) -> Result<(Seq<(i64, i64)>, int), DkError> {
        <Vec<(i64, i64)>>::parse(s, pos)
    }

    open spec fn least_len() -> nat {
        8
    }

    proof fn lemma_parse(s: Seq<u8>, pos: int) {
        <Vec<(i64, i64)>>::lemma_parse(s, pos);
    }

    proof fn lemma_round_trip(m: Seq<(i64, i64)>, before: Seq<u8>, after: Seq<u8>) {
        <Vec<(i64, i64)>>::lemma_round_trip(m, before, after);
    }

    fn least() -> (n: usize) {
        8
    }

    fn write(&self, out: &mut Vec<u8>) {
        write_all(self.points(), out);
    }

    fn read(bytes: &[u8], pos: usize) -> (r: Result<(Points2d, usize), DkError>) {
        match <Vec<(i64, i64)>>::read(bytes, pos) {
            Err(e) => Err(e),
            Ok((points, next)) => Ok((Points2d::with_points(points), next)),
        }
    }
}

/// The points as a list, each coordinate in 8 bytes.
impl Wire for Points3d {
    type Model = Seq<(i64, i64, i64)>;

    open spec fn model(&self) -> Seq<(i64, i64, i64)> {
        models::<(i64, i64, i64)>(self.spec_points())
    }

    open spec fn storable(m: Seq<(i64, i64, i64)>) -> bool {
        <Vec<(i64, i64, i64)>>::storable(m)
    }

    open spec fn ser(m: Seq<(i64, i64, i64)>) -> Seq<u8> {
        <Vec<(i64, i64, i64)>>::ser(m)
    }

    open spec fn parse(s: Seq<u8>, pos: int) -> Result<(Seq<(i64, i64, i64)>, int), DkError> {
        <Vec<(i64, i64, i64)>>::parse(s, pos)
    }

    open spec fn least_len() -> nat {
        8
    }

    proof fn lemma_parse(s: Seq<u8>, pos: int) {
        <Vec<(i64, i64, i64)>>::lemma_parse(s, pos);
    }

    proof fn lemma_round_trip(m: Seq<(i64, i64, i64)>, before: Seq<u8>, after: Seq<u8>) {
        <Vec<(i64, i64, i64)>>::lemma_round_trip(m, before, after);
    }

    fn least() -> (n: usize) {
        8
    }

    fn write(&self, out: &mut Vec<u8>) {
        write_all(self.points(), out);
    }

    fn read(bytes: &[u8], pos: usize) -> (r: Result<(Points3d, usize), DkError>) {
        match <Vec<(i64, i64, i64)>>::read(bytes, pos) {
            Err(e) => Err(e),
            Ok((points, next)) => Ok((Points3d::with_points(points), next)),
        }
    }
}

/// The points as a list, each coordinate in 8 bytes.
impl Wire for Points4d {
    type Model = Seq<(i64, i64, i64, i64)>;

    open spec fn model(&self) -> Seq<(i64, i64, i64, i64)> {
        models::<(i64, i64, i64, i64)>(self.spec_points())
    }

    open spec fn storable(m: Seq<(i64, i64, i64, i64)>) -> bool {
        <Vec<(i64, i64, i64, i64)>>::storable(m)
    }

    open spec fn ser(m: Seq<(i64, i64, i64, i64)>) -> Seq<u8> {
        <Vec<(i64, i64, i64, i64)>>::ser(m)
    }

    open spec fn parse(s: Seq<u8>, pos: int) -> Result<(Seq<(i64, i64, i64, i64)>, int), DkError> {
        <Vec<(i64, i64, i64, i64)>>::parse(s, pos)
    }

    open spec fn least_len() -> nat {
        8
    }

    proof fn lemma_parse(s: Seq<u8>, pos: int) {
        <Vec<(i64, i64, i64, i64)>>::lemma_parse(s, pos);
    }

    proof fn lemma_round_trip(m: Seq<(i64, i64, i64, i64)>, before: Seq<u8>, after: Seq<u8>) {
        <Vec<(i64, i64, i64, i64)>>::lemma_round_trip(m, before, after);
    }

    fn least() -> (n: usize) {
        8
    }

    fn write(&self, out: &mut Vec<u8>) {
        write_all(self.points(), out);
    }

    fn read(bytes: &[u8], pos: usize) -> (r: Result<(Points4d, usize), DkError>) {
        match <Vec<(i64, i64, i64, i64)>>::read(bytes, pos) {
            Err(e) => Err(e),
            Ok((points, next)) => Ok((Points4d::with_points(points), next)),
        }
    }
}

/// Makes a string of bytes that are UTF-8.
///
/// Calls `String::from_utf8` of std, which returns the string that has
/// these bytes where they are valid UTF-8, and an error where they are
/// not.
#[verifier::external_body]
fn text_of(bytes: &[u8]) -> (r: Option<String>)
    ensures
        r is Some <==> valid_utf8(bytes@),
        r matches Some(t) ==> t@ == decode_utf8(bytes@),
{
    String::from_utf8(bytes.to_vec()).ok()
}

/// Appends `bytes` to `out`.
pub(crate) fn push_bytes(out: &mut Vec<u8>, bytes: &[u8])
    ensures
        final(out)@ == old(out)@ + bytes@,
{
    let mut i: usize = 0;
    assert(bytes@.take(0) =~= Seq::<u8>::empty());
    while i < bytes.len()
        invariant
            i <= bytes.len(),
            out@ =~= old(out)@ + bytes@.take(i as int),
        decreases bytes.len() - i,
    {
        out.push(bytes[i]);
        assert(bytes@.take(i + 1) =~= bytes@.take(i as int).push(bytes@[i as int]));
        i += 1;
    }
    assert(bytes@.take(bytes.len() as int) =~= bytes@);
}

/// The number of bytes in 8 bytes, then the text in UTF-8.
impl Wire for String {
    type Model = Seq<char>;

    open spec fn model(&self) -> Seq<char> {
        self@
    }

    open spec fn storable(m: Seq<char>) -> bool {
        encode_utf8(m).len() <= u64::MAX
    }

    open spec fn ser(m: Seq<char>) -> Seq<u8> {
        u64::ser(encode_utf8(m).len() as u64) + encode_utf8(m)
    }

    /// A text is read only where the bytes that are left are as many as
    /// it claims to have, and are UTF-8.
    open spec fn parse(s: Seq<u8>, pos: int) -> Result<(Seq<char>, int), DkError> {
        match u64::parse(s, pos) {
            Err(e) => Err(e),
            Ok(n) => match field(s, n.1, n.0 as int) {
                None => Err(DkError::InvalidFormat),
                Some(b) => if valid_utf8(b) {
                    Ok((decode_utf8(b), n.1 + n.0))
                } else {
                    Err(DkError::InvalidFormat)
                },
            },
        }
    }

    open spec fn least_len() -> nat {
        8
    }

    proof fn lemma_parse(s: Seq<u8>, pos: int) {
    }

    proof fn lemma_round_trip(m: Seq<char>, before: Seq<u8>, after: Seq<u8>) {
        let text = encode_utf8(m);
        let n = text.len() as u64;
        let s = before + Self::ser(m) + after;
        u64::lemma_round_trip(n, before, text + after);
        assert(before + u64::ser(n) + (text + after) =~= s);
        lemma_field_of_concat(before + u64::ser(n), text, after);
        assert(before + u64::ser(n) + text + after =~= s);
        encode_utf8_valid_utf8(m);
        encode_utf8_decode_utf8(m);
    }

    fn least() -> (n: usize) {
        8
    }

    fn write(&self, out: &mut Vec<u8>) {
        let bytes = self.as_str().as_bytes();
        let n: u64 = bytes.len() as u64;
        n.write(out);
        push_bytes(out, bytes);
        assert(old(out)@ + u64::ser(n) + bytes@ =~= old(out)@ + (u64::ser(n) + bytes@));
    }

    fn read(bytes: &[u8], pos: usize) -> (r: Result<(String, usize), DkError>) {
        match u64::read(bytes, pos) {
            Err(e) => Err(e),
            Ok((n, start)) => {
                if n > (bytes.len() - start) as u64 {
                    return Err(DkError::InvalidFormat);
                }
                let end: usize = start + n as usize;
                match text_of(slice_subrange(bytes, start, end)) {
                    Some(t) => Ok((t, end)),
                    None => Err(DkError::InvalidFormat),
                }
            },
        }
    }
}

/// Copies a list of values that are copied by `clone`.
fn clone_hits(v: &Vec<Hit>) -> (r: Vec<Hit>)
    ensures
        r.model() == v.model(),
{
    let mut r: Vec<Hit> = Vec::new();
    let mut i: usize = 0;
    while i < v.len()
        invariant
            i <= v.len(),
            r@.len() == i,
            forall|j: int| 0 <= j < i ==> r@[j].model() == v@[j].model(),
        decreases v.len() - i,
    {
        let h = v[i].clone();
        assert(h.model() == v@[i as int].model());
        r.push(h);
        i += 1;
    }
    assert(r.model() =~= v.model());
    r
}

impl Clone for Event {
    fn clone(&self) -> (r: Self)
        ensures
            r.model() == self.model(),
    {
        Event { hits: clone_hits(&self.hits) }
    }
}

impl Clone for Run {
    fn clone(&self) -> (r: Self)
        ensures
            r.model() == self.model(),
    {
        let mut events: Vec<Event> = Vec::new();
        let mut i: usize = 0;
        while i < self.events.len()
            invariant
                i <= self.events.len(),
                events@.len() == i,
                forall|j: int| 0 <= j < i ==> events@[j].model() == self.events@[j].model(),
            decreases self.events.len() - i,
        {
            let e = self.events[i].clone();
            events.push(e);
            i += 1;
        }
        assert(events.model() =~= self.events.model());
        Run { events }
    }
}

} // verus!
