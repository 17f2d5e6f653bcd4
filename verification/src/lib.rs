//! A data model and container format for nuclear physics data:
//! histograms, cuts, point sets and raw detector events.
//!
//! Everything that the library computes with is exact. Values along the
//! axes of histograms, the coordinates of points and the bounds of cuts are
//! whole numbers of ticks, in a unit that the user chooses, and all
//! results are stated over these numbers. What the library only stores,
//! like the time of a hit, it keeps as the 64-bit word of the file.
//!
//! No function of the library panics on arguments that meet its contract.
//! Where a function asks more of its arguments than their types say, a
//! second function tells whether they meet it, or does the same work and
//! returns an error where they do not.

use crate::detector::Detector;
use std::collections::HashMap;
use vstd::prelude::*;

pub mod cut;
pub mod detector;
pub mod error;
pub mod event;
pub mod hist;
pub mod io;
pub mod points;
pub mod unc;
pub mod wire;

verus! {

/// Address of a channel in the data acquisition: source, crate, slot, channel.
#[derive(Copy, Clone, Debug, PartialEq, Eq, Hash, Structural)]
pub struct DaqId(pub u16, pub u16, pub u16, pub u16);

/// Address of a channel in a detector: detector number (from 1) and channel.
#[derive(Copy, Clone, Debug, PartialEq, Eq, Hash, Structural)]
pub struct DetId(pub u16, pub u16);

impl DaqId {
    /// The address as one number, its four parts side by side in 16 bits each.
    pub open spec fn spec_key(self) -> u64 {
        (((self.0 * 65536 + self.1) * 65536 + self.2) * 65536 + self.3) as u64
    }

    /// Returns the address packed into one number, by which maps are keyed.
    pub fn key(&self) -> (k: u64)
        ensures
            k == self.spec_key(),
    {
        ((self.0 as u64 * 65536 + self.1 as u64) * 65536 + self.2 as u64) * 65536 + self.3 as u64
    }

    /// Returns the address that `key` packed.
    pub fn from_key(k: u64) -> (id: DaqId)
        ensures
            id.spec_key() == k,
    {
        DaqId(
            (k / 65536 / 65536 / 65536) as u16,
            (k / 65536 / 65536 % 65536) as u16,
            (k / 65536 % 65536) as u16,
            (k % 65536) as u16,
        )
    }
}

/// Two addresses with the same key are the same address.
pub proof fn lemma_key_is_injective(a: DaqId, b: DaqId)
    requires
        a.spec_key() == b.spec_key(),
    ensures
        a == b,
{
}

/// Channel `c` of the `i`-th detector (counted from 0) exists and has the
/// DAQ address with key `k`.
pub open spec fn claims(dets: Seq<Detector>, i: int, c: int, k: u64) -> bool {
    &&& 0 <= i < dets.len()
    &&& 0 <= c < dets[i].chans()
    &&& dets[i].spec_det_to_daq(c as u16) matches Some(id) && id.spec_key() == k
}

/// Whether the channel `(i, c)` comes no later than the channel that `v`
/// names, going through the detectors in order and through the channels of
/// each in order.
pub open spec fn not_after(i: int, c: int, v: DetId) -> bool {
    i < v.0 - 1 || (i == v.0 - 1 && c <= v.1)
}

/// `m` maps the addresses that the channels before `(i_end, c_end)` claim,
/// each to the last of those channels that claims it.
pub open spec fn id_map_upto(
    dets: Seq<Detector>,
    m: Map<u64, DetId>,
    i_end: int,
    c_end: int,
) -> bool {
    &&& forall|k: u64| #[trigger]
        m.contains_key(k) ==> claims(dets, m[k].0 - 1, m[k].1 as int, k) && (m[k].0 - 1 < i_end
            || (m[k].0 - 1 == i_end && m[k].1 < c_end))
    &&& forall|i: int, c: int, k: u64| #[trigger]
        claims(dets, i, c, k) && (i < i_end || (i == i_end && c < c_end)) ==> m.contains_key(k)
            && not_after(i, c, m[k])
}

/// `m` is the map from DAQ addresses to detector channels for `dets`: its
/// keys are the addresses that some channel claims, and each is mapped to
/// the last channel that claims it, detectors numbered from 1.
pub open spec fn is_id_map(dets: Seq<Detector>, m: Map<u64, DetId>) -> bool {
    id_map_upto(dets, m, dets.len() as int, 0)
}

/// Builds the map from DAQ addresses, by their `key`, to detector channels.
///
/// Detectors are numbered from 1 in the order given. Where two channels
/// share an address the later one wins.
pub fn get_id_map(dets: &[Detector]) -> (map: HashMap<u64, DetId>)
    requires
        dets.len() <= u16::MAX,
    ensures
        is_id_map(dets@, map@),
{
    let mut map: HashMap<u64, DetId> = HashMap::new();
    let mut di: usize = 0;
    while di < dets.len()
        invariant
            di <= dets.len() <= u16::MAX,
            id_map_upto(dets@, map@, di as int, 0),
        decreases dets.len() - di,
    {
        let d = &dets[di];
        let n: u16 = d.num_chans();
        let mut dc: u16 = 0;
        while dc < n
            invariant
                di < dets.len() <= u16::MAX,
                d == dets@[di as int],
                n == d.chans(),
                dc <= n,
                id_map_upto(dets@, map@, di as int, dc as int),
            decreases n - dc,
        {
            match d.det_to_daq(dc) {
                Some(id) => {
                    let ghost before = map@;
                    map.insert(id.key(), DetId((di + 1) as u16, dc));
                    proof {
                        assert(claims(dets@, di as int, dc as int, id.spec_key()));
                        assert forall|i: int, c: int, k: u64| #[trigger]
                            claims(dets@, i, c, k) && (i < di || (i == di && c < dc + 1))
                            implies map@.contains_key(k) && not_after(i, c, map@[k]) by {
                            if k != id.spec_key() {
                                assert(before.contains_key(k));
                            }
                        }
                    }
                },
                None => {},
            }
            dc += 1;
        }
        di += 1;
    }
    map
}

} // verus!
