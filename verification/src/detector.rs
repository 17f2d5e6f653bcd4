//! Detector geometries and the channel maps between a detector's own
//! channel numbers and the addresses of the data acquisition.

use crate::DaqId;
use vstd::prelude::*;

verus! {

/// A detector, given by where it is plugged into the data acquisition.
///
/// The fields are the source, the crate and the first slot; the kinds that
/// occupy part of one module also carry their first channel.
#[derive(Debug)]
#[allow(non_camel_case_types)]
pub enum Detector {
    BB10F(u16, u16, u16, u16),
    BB15B(u16, u16, u16, u16),
    BB15F(u16, u16, u16),
    QQQ3B(u16, u16, u16),
    QQQ3F(u16, u16, u16),
    QQQ5B(u16, u16, u16, u16),
    QQQ5F(u16, u16, u16),
    YY1F(u16, u16, u16),
    Hagrid(u16, u16, u16, u16),
    Habanero(u16, u16, u16),
    PSIC_E(u16, u16, u16, u16),
    PSIC_XY(u16, u16, u16),
}

/// The largest raw value of the 14-bit converters.
pub const RAW_MAX: u16 = 16383;

impl Detector {
    /// Number of channels of the detector.
    pub open spec fn chans(self) -> u16 {
        match self {
            Detector::BB10F(..) => 8,
            Detector::BB15B(..) => 4,
            Detector::BB15F(..) => 64,
            Detector::QQQ3B(..) => 16,
            Detector::QQQ3F(..) => 16,
            Detector::QQQ5B(..) => 4,
            Detector::QQQ5F(..) => 32,
            Detector::YY1F(..) => 16,
            Detector::Hagrid(..) => 9,
            Detector::Habanero(..) => 60,
            Detector::PSIC_E(..) => 1,
            Detector::PSIC_XY(..) => 32,
        }
    }

    /// Whether the detector reads its signals with inverted polarity, so
    /// that raw values count down from `RAW_MAX`.
    pub open spec fn inverts(self) -> bool {
        match self {
            Detector::BB10F(..)
            | Detector::BB15F(..)
            | Detector::QQQ3F(..)
            | Detector::QQQ5F(..)
            | Detector::YY1F(..) => true,
            _ => false,
        }
    }

    /// Source, crate and first slot.
    pub open spec fn origin(self) -> (u16, u16, u16) {
        match self {
            Detector::BB10F(so, cr, sl, _)
            | Detector::BB15B(so, cr, sl, _)
            | Detector::QQQ5B(so, cr, sl, _)
            | Detector::Hagrid(so, cr, sl, _)
            | Detector::PSIC_E(so, cr, sl, _) => (so, cr, sl),
            Detector::BB15F(so, cr, sl)
            | Detector::QQQ3B(so, cr, sl)
            | Detector::QQQ3F(so, cr, sl)
            | Detector::QQQ5F(so, cr, sl)
            | Detector::YY1F(so, cr, sl)
            | Detector::Habanero(so, cr, sl)
            | Detector::PSIC_XY(so, cr, sl) => (so, cr, sl),
        }
    }

    /// Number of consecutive slots that the detector occupies.
    pub open spec fn slots(self) -> int {
        match self {
            Detector::BB15F(..) => 4,
            Detector::QQQ5F(..) | Detector::PSIC_XY(..) => 2,
            Detector::Habanero(..) => 5,
            _ => 1,
        }
    }

    /// Whether the address `id` belongs to the detector.
    ///
    /// Source and crate must match and the slot must be one of the
    /// detector's slots. Kinds that carry a first channel own the channels
    /// from there on, `chans()` many (`PSIC_E` that one channel); for the
    /// others the channel within the slot is not looked at.
    pub open spec fn covers(self, id: DaqId) -> bool {
        let (so, cr, sl) = self.origin();
        &&& id.0 == so
        &&& id.1 == cr
        &&& sl <= id.2 < sl + self.slots()
        &&& match self {
            Detector::BB10F(_, _, _, ch)
            | Detector::BB15B(_, _, _, ch)
            | Detector::QQQ5B(_, _, _, ch)
            | Detector::Hagrid(_, _, _, ch) => ch <= id.3 < ch + self.chans(),
            Detector::PSIC_E(_, _, _, ch) => id.3 == ch,
            _ => true,
        }
    }

    /// The detector channel that the address `id` stands for, as a
    /// mathematical integer, for an address that `covers` accepts.
    ///
    /// Slots hold 16 channels each. `BB15F` is cabled so that every second
    /// slot counts its channels backwards.
    pub open spec fn chan_of(self, id: DaqId) -> int {
        let (_, _, sl) = self.origin();
        let slot = id.2 - sl;
        match self {
            Detector::BB10F(_, _, _, ch)
            | Detector::BB15B(_, _, _, ch)
            | Detector::QQQ5B(_, _, _, ch)
            | Detector::Hagrid(_, _, _, ch) => id.3 - ch,
            Detector::BB15F(..) => if slot % 2 == 0 {
                16 * slot + id.3
            } else {
                16 * slot + (15 - id.3)
            },
            Detector::QQQ3B(..) | Detector::QQQ3F(..) | Detector::YY1F(..) => id.3 as int,
            Detector::QQQ5F(..) | Detector::Habanero(..) | Detector::PSIC_XY(..) => 16 * slot
                + id.3,
            Detector::PSIC_E(..) => 0,
        }
    }

    /// Whether `chan_of` can be computed in 16 bits for the address `id`:
    /// no intermediate result leaves the range of `u16`.
    pub open spec fn chan_fits(self, id: DaqId) -> bool {
        let (_, _, sl) = self.origin();
        &&& 0 <= self.chan_of(id) <= u16::MAX
        &&& (self is BB15F && (id.2 - sl) % 2 == 1) ==> id.3 <= 15
    }

    /// The channel map from DAQ addresses to detector channels.
    pub open spec fn spec_daq_to_det(self, id: DaqId) -> Option<u16> {
        if self.covers(id) && self.chan_fits(id) {
            Some(self.chan_of(id) as u16)
        } else {
            None
        }
    }

    /// Slot offset and channel within the slot of detector channel `detch`.
    pub open spec fn place_of(self, detch: u16) -> (int, int) {
        match self {
            Detector::BB10F(_, _, _, ch)
            | Detector::BB15B(_, _, _, ch)
            | Detector::QQQ5B(_, _, _, ch)
            | Detector::Hagrid(_, _, _, ch)
            | Detector::PSIC_E(_, _, _, ch) => (0, ch + detch),
            Detector::BB15F(..) => if (detch / 16) % 2 == 1 {
                ((detch / 16) as int, 15 - detch % 16)
            } else {
                ((detch / 16) as int, (detch % 16) as int)
            },
            Detector::QQQ3B(..) | Detector::QQQ3F(..) | Detector::YY1F(..) => (0, detch as int),
            Detector::QQQ5F(..) | Detector::Habanero(..) | Detector::PSIC_XY(..) => (
                (detch / 16) as int,
                (detch % 16) as int,
            ),
        }
    }

    /// The channel map from detector channels to DAQ addresses: the channel
    /// must exist and its slot and channel must be 16-bit numbers.
    pub open spec fn spec_det_to_daq(self, detch: u16) -> Option<DaqId> {
        let (so, cr, sl) = self.origin();
        let (slot, ch) = self.place_of(detch);
        if detch < self.chans() && sl + slot <= u16::MAX && ch <= u16::MAX {
            Some(DaqId(so, cr, (sl + slot) as u16, ch as u16))
        } else {
            None
        }
    }

    /// Returns the number of channels of the detector.
    pub fn num_chans(&self) -> (n: u16)
        ensures
            n == self.chans(),
            1 <= n <= 64,
    {
        match self {
            Detector::BB10F(..) => 8,
            Detector::BB15B(..) => 4,
            Detector::BB15F(..) => 64,
            Detector::QQQ3B(..) => 16,
            Detector::QQQ3F(..) => 16,
            Detector::QQQ5B(..) => 4,
            Detector::QQQ5F(..) => 32,
            Detector::YY1F(..) => 16,
            Detector::Hagrid(..) => 9,
            Detector::Habanero(..) => 60,
            Detector::PSIC_E(..) => 1,
            Detector::PSIC_XY(..) => 32,
        }
    }

    /// Tells whether the detector reads its signals with inverted polarity.
    pub fn is_inverting(&self) -> (r: bool)
        ensures
            r == self.inverts(),
    {
        match self {
            Detector::BB10F(..)
            | Detector::BB15F(..)
            | Detector::QQQ3F(..)
            | Detector::QQQ5F(..)
            | Detector::YY1F(..) => true,
            _ => false,
        }
    }

    /// Corrects a raw value for the polarity of the detector: inverting
    /// kinds count down from `RAW_MAX`, the others leave the value as it is.
    pub fn val_corr(&self, _detch: u16, val: u16) -> (r: u16)
        requires
            self.inverts() ==> val <= RAW_MAX,
        ensures
            r == if self.inverts() { (RAW_MAX - val) as u16 } else { val },
    {
        match self {
            Detector::BB10F(..)
            | Detector::BB15F(..)
            | Detector::QQQ3F(..)
            | Detector::QQQ5F(..)
            | Detector::YY1F(..) => RAW_MAX - val,
            Detector::BB15B(..)
            | Detector::QQQ3B(..)
            | Detector::QQQ5B(..)
            | Detector::Hagrid(..)
            | Detector::Habanero(..)
            | Detector::PSIC_E(..)
            | Detector::PSIC_XY(..) => val,
        }
    }

    /// Tells whether the DAQ address `id` belongs to this detector.
    pub fn contains_daq(&self, id: DaqId) -> (r: bool)
        ensures
            r == self.covers(id),
    {
        match *self {
            Detector::BB10F(so, cr, sl, ch)
            | Detector::BB15B(so, cr, sl, ch)
            | Detector::QQQ5B(so, cr, sl, ch)
            | Detector::Hagrid(so, cr, sl, ch) => {
                let n: u32 = self.num_chans() as u32;
                (id.0 == so) && (id.1 == cr) && (id.2 == sl) && ((id.3 >= ch) && ((id.3 as u32)
                    < ch as u32 + n))
            },
            Detector::BB15F(so, cr, sl) => (id.0 == so) && (id.1 == cr) && ((id.2 >= sl) && ((
            id.2 as u32) < sl as u32 + 4)),
            Detector::QQQ3B(so, cr, sl) | Detector::QQQ3F(so, cr, sl) | Detector::YY1F(
                so,
                cr,
                sl,
            ) => (id.0 == so) && (id.1 == cr) && (id.2 == sl),
            Detector::QQQ5F(so, cr, sl) | Detector::PSIC_XY(so, cr, sl) => (id.0 == so) && (id.1
                == cr) && ((id.2 >= sl) && ((id.2 as u32) < sl as u32 + 2)),
            Detector::Habanero(so, cr, sl) => (id.0 == so) && (id.1 == cr) && ((id.2 >= sl) && ((
            id.2 as u32) < sl as u32 + 5)),
            Detector::PSIC_E(so, cr, sl, ch) => (id.0 == so) && (id.1 == cr) && (id.2 == sl) && (
            id.3 == ch),
        }
    }

    /// Maps a DAQ address to the detector channel it stands for.
    ///
    /// `None` for an address that does not belong to the detector, and for
    /// one whose channel number cannot be computed in 16 bits.
    pub fn daq_to_det(&self, id: DaqId) -> (r: Option<u16>)
        ensures
            r == self.spec_daq_to_det(id),
    {
        if !self.contains_daq(id) {
            return None;
        }
        match *self {
            Detector::BB10F(_, _, _, ch)
            | Detector::BB15B(_, _, _, ch)
            | Detector::QQQ5B(_, _, _, ch)
            | Detector::Hagrid(_, _, _, ch) => Some(id.3 - ch),
            Detector::BB15F(_, _, sl) => {
                let slot: u16 = id.2 - sl;
                if slot % 2 == 0 {
                    if id.3 as u32 + 16 * (slot as u32) <= u16::MAX as u32 {
                        Some(16 * slot + id.3)
                    } else {
                        None
                    }
                } else if id.3 <= 15 {
                    Some(16 * slot + (15 - id.3))
                } else {
                    None
                }
            },
            Detector::QQQ3B(..) | Detector::QQQ3F(..) | Detector::YY1F(..) => Some(id.3),
            Detector::QQQ5F(_, _, sl) | Detector::Habanero(_, _, sl) | Detector::PSIC_XY(
                _,
                _,
                sl,
            ) => {
                let slot: u16 = id.2 - sl;
                if id.3 as u32 + 16 * (slot as u32) <= u16::MAX as u32 {
                    Some(16 * slot + id.3)
                } else {
                    None
                }
            },
            Detector::PSIC_E(..) => Some(0),
        }
    }

    /// Maps a detector channel to its DAQ address.
    ///
    /// `None` for a channel that the detector does not have, and for one
    /// whose slot or channel is not a 16-bit number.
    pub fn det_to_daq(&self, detch: u16) -> (r: Option<DaqId>)
        ensures
            r == self.spec_det_to_daq(detch),
    {
        if detch >= self.num_chans() {
            return None;
        }
        match *self {
            Detector::BB10F(so, cr, sl, ch)
            | Detector::BB15B(so, cr, sl, ch)
            | Detector::QQQ5B(so, cr, sl, ch)
            | Detector::Hagrid(so, cr, sl, ch)
            | Detector::PSIC_E(so, cr, sl, ch) => {
                if ch as u32 + detch as u32 <= u16::MAX as u32 {
                    Some(DaqId(so, cr, sl, ch + detch))
                } else {
                    None
                }
            },
            Detector::BB15F(so, cr, sl) => {
                let mut ch: u16 = detch % 16;
                if (detch / 16) % 2 == 1 {
                    ch = 15 - ch;
                }
                if sl as u32 + (detch / 16) as u32 <= u16::MAX as u32 {
                    Some(DaqId(so, cr, sl + detch / 16, ch))
                } else {
                    None
                }
            },
            Detector::QQQ3B(so, cr, sl) | Detector::QQQ3F(so, cr, sl) | Detector::YY1F(
                so,
                cr,
                sl,
            ) => Some(DaqId(so, cr, sl, detch)),
            Detector::QQQ5F(so, cr, sl) | Detector::Habanero(so, cr, sl) | Detector::PSIC_XY(
                so,
                cr,
                sl,
            ) => {
                if sl as u32 + (detch / 16) as u32 <= u16::MAX as u32 {
                    Some(DaqId(so, cr, sl + detch / 16, detch % 16))
                } else {
                    None
                }
            },
        }
    }
}

/// Every channel that has a DAQ address is found again from that address:
/// `daq_to_det` undoes `det_to_daq`.
pub proof fn lemma_channel_round_trip(d: Detector, detch: u16)
    requires
        d.spec_det_to_daq(detch) is Some,
    ensures
        d.spec_daq_to_det(d.spec_det_to_daq(detch)->Some_0) == Some(detch),
{
}

} // verus!
