//! Raw data of an experimental run: hits, grouped into events.

use crate::detector::Detector;
use crate::unc::ValUnc;
use crate::{DaqId, DetId};
use std::collections::HashMap;
use vstd::prelude::*;

verus! {

/// A type that holds an experimental hit: one signal in one channel.
///
/// `time` is the 64-bit word of an IEEE 754 double, as `energy` is two of
/// them: the library stores them and never computes with them.
#[derive(Debug)]
pub struct Hit {
    pub daqid: DaqId,
    pub detid: Option<DetId>,
    pub rawval: u16,
    pub value: Option<u16>,
    pub energy: Option<ValUnc>,
    pub time: u64,
    pub trace: Vec<u16>,
}

/// A type that holds an experimental event: a sequence of `Hit`s.
#[derive(Debug)]
pub struct Event {
    pub hits: Vec<Hit>,
}

/// A type that holds the data from an experimental run: a sequence of
/// `Event`s.
#[derive(Debug)]
pub struct Run {
    pub events: Vec<Event>,
}

impl Clone for Hit {
    fn clone(&self) -> (r: Self)
        ensures
            r.daqid == self.daqid,
            r.detid == self.detid,
            r.rawval == self.rawval,
            r.value == self.value,
            r.energy == self.energy,
            r.time == self.time,
            r.trace@ == self.trace@,
    {
        let trace = self.trace.clone();
        assert(trace@ =~= self.trace@);
        Hit {
            daqid: self.daqid,
            detid: self.detid,
            rawval: self.rawval,
            value: self.value,
            energy: self.energy,
            time: self.time,
            trace,
        }
    }
}

impl Hit {
    /// The detector that the map `daq_det_map` names for this hit exists
    /// in `all_dets`, and the raw value of the hit is one that the detector
    /// can correct.
    pub open spec fn fits(self, all_dets: Seq<Detector>, daq_det_map: Map<u64, DetId>) -> bool {
        daq_det_map.contains_key(self.daqid.spec_key()) ==> {
            let d = daq_det_map[self.daqid.spec_key()];
            &&& 1 <= d.0 <= all_dets.len()
            &&& all_dets[d.0 - 1].inverts() ==> self.rawval <= crate::detector::RAW_MAX
        }
    }

    /// Tells whether `apply_det` can be applied to the hit.
    pub fn can_apply_det(&self, all_dets: &[Detector], daq_det_map: &HashMap<u64, DetId>) -> (r:
        bool)
        ensures
            r == self.fits(all_dets@, daq_det_map@),
    {
        let key: u64 = self.daqid.key();
        match daq_det_map.get(&key) {
            Some(d) => {
                if d.0 < 1 || d.0 as usize > all_dets.len() {
                    false
                } else {
                    !all_dets[(d.0 - 1) as usize].is_inverting() || self.rawval
                        <= crate::detector::RAW_MAX
                }
            },
            None => true,
        }
    }

    /// The value that `apply_det` gives the hit.
    pub open spec fn spec_value(self, all_dets: Seq<Detector>, daq_det_map: Map<u64, DetId>)
        -> Option<u16> {
        if daq_det_map.contains_key(self.daqid.spec_key()) {
            let d = daq_det_map[self.daqid.spec_key()];
            Some(
                if all_dets[d.0 - 1].inverts() {
                    (crate::detector::RAW_MAX - self.rawval) as u16
                } else {
                    self.rawval
                },
            )
        } else {
            None
        }
    }

    /// `g` is this hit after `apply_det`: address, raw value, time and trace
    /// are kept, the detector channel is the one that the map holds for
    /// the address, the value is the raw value corrected for that detector,
    /// and there is no energy.
    pub open spec fn applied(self, g: Hit, all_dets: Seq<Detector>, daq_det_map: Map<u64, DetId>)
        -> bool {
        &&& g.daqid == self.daqid
        &&& g.rawval == self.rawval
        &&& g.time == self.time
        &&& g.trace == self.trace
        &&& g.detid == if daq_det_map.contains_key(self.daqid.spec_key()) {
            Some(daq_det_map[self.daqid.spec_key()])
        } else {
            None
        }
        &&& g.value == self.spec_value(all_dets, daq_det_map)
        &&& g.energy is None
    }

    /// Looks the hit up in the map from DAQ addresses to detector
    /// channels: sets its detector channel, corrects its raw value for
    /// that detector, and removes its energy.
    ///
    /// A hit whose address the map does not hold loses channel and value.
    pub fn apply_det(&mut self, all_dets: &[Detector], daq_det_map: &HashMap<u64, DetId>)
        requires
            old(self).fits(all_dets@, daq_det_map@),
        ensures
            old(self).applied(*final(self), all_dets@, daq_det_map@),
    {
        let key: u64 = self.daqid.key();
        match daq_det_map.get(&key) {
            Some(d) => {
                let d: DetId = *d;
                self.detid = Some(d);
                self.value = Some(all_dets[(d.0 - 1) as usize].val_corr(d.1, self.rawval));
            },
            None => {
                self.detid = None;
                self.value = None;
            },
        }
        self.energy = None;
    }
}

impl Event {
    /// Tells whether `apply_det` can be applied to the event: to every hit
    /// of it.
    pub fn can_apply_det(&self, all_dets: &[Detector], daq_det_map: &HashMap<u64, DetId>) -> (r:
        bool)
        ensures
            r == forall|i: int|
                0 <= i < self.hits@.len() ==> (#[trigger] self.hits@[i]).fits(
                    all_dets@,
                    daq_det_map@,
                ),
    {
        let mut i: usize = 0;
        while i < self.hits.len()
            invariant
                i <= self.hits@.len(),
                forall|j: int|
                    0 <= j < i ==> (#[trigger] self.hits@[j]).fits(all_dets@, daq_det_map@),
            decreases self.hits.len() - i,
        {
            if !self.hits[i].can_apply_det(all_dets, daq_det_map) {
                return false;
            }
            i += 1;
        }
        true
    }

    /// Applies `Hit::apply_det` to every hit of the event.
    pub fn apply_det(&mut self, all_dets: &[Detector], daq_det_map: &HashMap<u64, DetId>)
        requires
            forall|i: int|
                0 <= i < old(self).hits@.len() ==> old(self).hits@[i].fits(
                    all_dets@,
                    daq_det_map@,
                ),
        ensures
            final(self).hits@.len() == old(self).hits@.len(),
            forall|i: int|
                0 <= i < old(self).hits@.len() ==> old(self).hits@[i].applied(
                    #[trigger] final(self).hits@[i],
                    all_dets@,
                    daq_det_map@,
                ),
    {
        let n: usize = self.hits.len();
        let mut i: usize = 0;
        while i < n
            invariant
                i <= n,
                n == self.hits@.len(),
                n == old(self).hits@.len(),
                forall|j: int|
                    i <= j < n ==> self.hits@[j] == old(self).hits@[j],
                forall|j: int|
                    0 <= j < n ==> old(self).hits@[j].fits(all_dets@, daq_det_map@),
                forall|j: int|
                    0 <= j < i ==> old(self).hits@[j].applied(
                        #[trigger] self.hits@[j],
                        all_dets@,
                        daq_det_map@,
                    ),
            decreases n - i,
        {
            self.hits[i].apply_det(all_dets, daq_det_map);
            i += 1;
        }
    }
}

/// The hits of the events `events`, one event after the other.
pub open spec fn hits_of(events: Seq<Event>) -> Seq<Hit>
    decreases events.len(),
{
    if events.len() == 0 {
        Seq::empty()
    } else {
        events.first().hits@ + hits_of(events.drop_first())
    }
}

/// Hands out the events of a run, one by one.
pub struct IntoEvents {
    /// The events that are left, the next one last.
    events: Vec<Event>,
}

/// Hands out the hits of a run, one by one.
pub struct IntoHits {
    /// The events that are left, the next one last.
    events: Vec<Event>,
    /// The hits that are left of the event at hand, the next one last.
    hits: Vec<Hit>,
}

/// Turns a list round.
pub(crate) fn reversed<T>(v: Vec<T>) -> (r: Vec<T>)
    ensures
        r@ == v@.reverse(),
{
    let mut v = v;
    let ghost all = v@;
    let mut r: Vec<T> = Vec::new();
    while v.len() > 0
        invariant
            v@.len() + r@.len() == all.len(),
            v@ == all.take(v@.len() as int),
            forall|i: int| 0 <= i < r@.len() ==> r@[i] == all[all.len() - 1 - i],
        decreases v@.len(),
    {
        let x = v.pop().unwrap();
        r.push(x);
    }
    assert(r@ =~= all.reverse());
    r
}

impl Run {
    /// Hands out the events of the run, in order.
    pub fn into_events(self) -> (it: IntoEvents)
        ensures
            it.remaining() == self.events@,
    {
        IntoEvents::new(self)
    }

    /// Hands out the hits of the run: those of the first event in order,
    /// then those of the second, and so on.
    pub fn into_hits(self) -> (it: IntoHits)
        ensures
            it.remaining() == hits_of(self.events@),
    {
        IntoHits::new(self)
    }
}

impl IntoEvents {
    /// The events still to come, in order.
    pub closed spec fn remaining(&self) -> Seq<Event> {
        self.events@.reverse()
    }

    fn new(run: Run) -> (it: IntoEvents)
        ensures
            it.remaining() == run.events@,
    {
        let events = reversed(run.events);
        assert(events@.reverse() =~= run.events@);
        IntoEvents { events }
    }

    /// Returns the next event, or `None` when none is left.
    pub fn next(&mut self) -> (r: Option<Event>)
        ensures
            match r {
                Some(e) => old(self).remaining().len() > 0 && e == old(self).remaining().first()
                    && final(self).remaining() == old(self).remaining().drop_first(),
                None => old(self).remaining().len() == 0 && final(self).remaining().len() == 0,
            },
    {
        let r = self.events.pop();
        proof {
            if r is Some {
                assert(self.events@.reverse() =~= old(self).events@.reverse().drop_first());
            }
        }
        r
    }
}

impl IntoHits {
    /// The hits still to come, in order.
    pub closed spec fn remaining(&self) -> Seq<Hit> {
        self.hits@.reverse() + hits_of(self.events@.reverse())
    }

    fn new(run: Run) -> (it: IntoHits)
        ensures
            it.remaining() == hits_of(run.events@),
    {
        let events = reversed(run.events);
        assert(events@.reverse() =~= run.events@);
        let hits: Vec<Hit> = Vec::new();
        assert(hits@.reverse() + hits_of(run.events@) =~= hits_of(run.events@));
        IntoHits { events, hits }
    }

    /// Returns the next hit, or `None` when none is left. Events without
    /// hits are passed over.
    pub fn next(&mut self) -> (r: Option<Hit>)
        ensures
            match r {
                Some(h) => old(self).remaining().len() > 0 && h == old(self).remaining().first()
                    && final(self).remaining() == old(self).remaining().drop_first(),
                None => old(self).remaining().len() == 0 && final(self).remaining().len() == 0,
            },
    {
        loop
            invariant
                self.remaining() == old(self).remaining(),
            decreases self.events@.len(),
        {
            if self.hits.len() > 0 {
                let ghost before = self.hits@;
                let r = self.hits.pop();
                proof {
                    assert(self.hits@.reverse() =~= before.reverse().drop_first());
                    assert(self.remaining() =~= old(self).remaining().drop_first());
                }
                return r;
            }
            let ghost left = self.events@;
            match self.events.pop() {
                Some(e) => {
                    proof {
                        assert(left.reverse().drop_first() =~= self.events@.reverse());
                        assert(left.reverse().first() == e);
                        assert(self.hits@.reverse() =~= Seq::<Hit>::empty());
                    }
                    self.hits = reversed(e.hits);
                    proof {
                        assert(self.hits@.reverse() =~= e.hits@);
                    }
                },
                None => {
                    proof {
                        assert(self.hits@.reverse() =~= Seq::<Hit>::empty());
                        assert(left.reverse() =~= Seq::<Event>::empty());
                    }
                    return None;
                },
            }
        }
    }
}

} // verus!
