//! The container: named items of several types in one file.

pub mod container;
pub mod cuts;
pub mod layout;
pub mod merge;
pub mod text;

use crate::cut::{Cut1d, Cut2d, Cut2dModel};
use crate::error::DkError;
use crate::event::Run;
use crate::hist::{Hist1d, Hist2d, Hist3d, Hist4d, HistAxis};
pub use crate::io::container::Datakiste;
use crate::io::layout::HitModel;
pub use crate::io::text::{ReadDkTxt, WriteDkTxt};
use crate::points::{Points1d, Points2d, Points3d, Points4d};
use crate::wire::Wire;
use std::borrow::Cow;
use vstd::prelude::*;
use vstd::std_specs::convert::FromSpecImpl;

verus! {

/// The number that every container starts with.
pub const DK_MAGIC_NUMBER: u64 = 0xE2A1_642A_ACB5_C4C9;

/// The version of the format that is written and read: major, minor, patch.
pub const DK_VERSION: (u64, u64, u64) = (0, 3, 0);

/// The types of items.
#[derive(Copy, Clone, Debug, PartialEq, Eq, Structural)]
#[non_exhaustive]
pub enum DkType {
    Run,
    Hist1d,
    Hist2d,
    Hist3d,
    Hist4d,
    Points1d,
    Points2d,
    Points3d,
    Points4d,
    Cut1d,
    Cut2d,
}

impl DkType {
    /// The number that stands for the type in a container. The numbers 5
    /// to 10 stood for types that are no longer written; no type has them,
    /// and none will.
    pub open spec fn spec_tag(self) -> u32 {
        match self {
            DkType::Run => 0,
            DkType::Hist1d => 1,
            DkType::Hist2d => 2,
            DkType::Hist3d => 3,
            DkType::Hist4d => 4,
            DkType::Points1d => 11,
            DkType::Points2d => 12,
            DkType::Points3d => 13,
            DkType::Points4d => 14,
            DkType::Cut1d => 15,
            DkType::Cut2d => 16,
        }
    }

    /// The type that the number `tag` stands for.
    pub open spec fn spec_from_tag(tag: u32) -> Option<DkType> {
        if tag == 0 {
            Some(DkType::Run)
        } else if tag == 1 {
            Some(DkType::Hist1d)
        } else if tag == 2 {
            Some(DkType::Hist2d)
        } else if tag == 3 {
            Some(DkType::Hist3d)
        } else if tag == 4 {
            Some(DkType::Hist4d)
        } else if tag == 11 {
            Some(DkType::Points1d)
        } else if tag == 12 {
            Some(DkType::Points2d)
        } else if tag == 13 {
            Some(DkType::Points3d)
        } else if tag == 14 {
            Some(DkType::Points4d)
        } else if tag == 15 {
            Some(DkType::Cut1d)
        } else if tag == 16 {
            Some(DkType::Cut2d)
        } else {
            None
        }
    }

    /// Returns the number that stands for the type in a container.
    pub fn tag(&self) -> (t: u32)
        ensures
            t == self.spec_tag(),
            DkType::spec_from_tag(t) == Some(*self),
    {
        match self {
            DkType::Run => 0,
            DkType::Hist1d => 1,
            DkType::Hist2d => 2,
            DkType::Hist3d => 3,
            DkType::Hist4d => 4,
            DkType::Points1d => 11,
            DkType::Points2d => 12,
            DkType::Points3d => 13,
            DkType::Points4d => 14,
            DkType::Cut1d => 15,
            DkType::Cut2d => 16,
        }
    }

    /// Returns the type that the number `tag` stands for, if it stands for
    /// one.
    pub fn from_tag(tag: u32) -> (r: Option<DkType>)
        ensures
            r == DkType::spec_from_tag(tag),
            r matches Some(t) ==> t.spec_tag() == tag,
    {
        match tag {
            0 => Some(DkType::Run),
            1 => Some(DkType::Hist1d),
            2 => Some(DkType::Hist2d),
            3 => Some(DkType::Hist3d),
            4 => Some(DkType::Hist4d),
            11 => Some(DkType::Points1d),
            12 => Some(DkType::Points2d),
            13 => Some(DkType::Points3d),
            14 => Some(DkType::Points4d),
            15 => Some(DkType::Cut1d),
            16 => Some(DkType::Cut2d),
            _ => None,
        }
    }
}

/// An item of a container: a value of one of the types, which the item
/// owns or has borrowed. A borrowed value is copied when it is first
/// written to.
#[derive(Debug)]
#[non_exhaustive]
pub enum DkItem<'a> {
    Run(Cow<'a, Run>),
    Hist1d(Cow<'a, Hist1d>),
    Hist2d(Cow<'a, Hist2d>),
    Hist3d(Cow<'a, Hist3d>),
    Hist4d(Cow<'a, Hist4d>),
    Points1d(Cow<'a, Points1d>),
    Points2d(Cow<'a, Points2d>),
    Points3d(Cow<'a, Points3d>),
    Points4d(Cow<'a, Points4d>),
    Cut1d(Cow<'a, Cut1d>),
    Cut2d(Cow<'a, Cut2d>),
}

/// What an item holds.
pub enum ItemModel {
    Run(Seq<Seq<HitModel>>),
    Hist1d((HistAxis, Seq<u64>)),
    Hist2d(((HistAxis, HistAxis), Seq<u64>)),
    Hist3d(((HistAxis, HistAxis, HistAxis), Seq<u64>)),
    Hist4d(((HistAxis, HistAxis, HistAxis, HistAxis), Seq<u64>)),
    Points1d(Seq<i64>),
    Points2d(Seq<(i64, i64)>),
    Points3d(Seq<(i64, i64, i64)>),
    Points4d(Seq<(i64, i64, i64, i64)>),
    Cut1d(Cut1d),
    Cut2d(Cut2dModel),
}

impl ItemModel {
    /// The type of the item.
    pub open spec fn kind(self) -> DkType {
        match self {
            ItemModel::Run(_) => DkType::Run,
            ItemModel::Hist1d(_) => DkType::Hist1d,
            ItemModel::Hist2d(_) => DkType::Hist2d,
            ItemModel::Hist3d(_) => DkType::Hist3d,
            ItemModel::Hist4d(_) => DkType::Hist4d,
            ItemModel::Points1d(_) => DkType::Points1d,
            ItemModel::Points2d(_) => DkType::Points2d,
            ItemModel::Points3d(_) => DkType::Points3d,
            ItemModel::Points4d(_) => DkType::Points4d,
            ItemModel::Cut1d(_) => DkType::Cut1d,
            ItemModel::Cut2d(_) => DkType::Cut2d,
        }
    }
}

/// The value that `c` owns or has borrowed.
pub open spec fn held<'a, T: Clone>(c: Cow<'a, T>) -> T {
    match c {
        Cow::Owned(o) => o,
        Cow::Borrowed(b) => *b,
    }
}

impl<'a> DkItem<'a> {
    /// What the item holds.
    pub open spec fn model(self) -> ItemModel {
        match self {
            DkItem::Run(c) => ItemModel::Run(held(c).model()),
            DkItem::Hist1d(c) => ItemModel::Hist1d(held(c).model()),
            DkItem::Hist2d(c) => ItemModel::Hist2d(held(c).model()),
            DkItem::Hist3d(c) => ItemModel::Hist3d(held(c).model()),
            DkItem::Hist4d(c) => ItemModel::Hist4d(held(c).model()),
            DkItem::Points1d(c) => ItemModel::Points1d(held(c).model()),
            DkItem::Points2d(c) => ItemModel::Points2d(held(c).model()),
            DkItem::Points3d(c) => ItemModel::Points3d(held(c).model()),
            DkItem::Points4d(c) => ItemModel::Points4d(held(c).model()),
            DkItem::Cut1d(c) => ItemModel::Cut1d(held(c).model()),
            DkItem::Cut2d(c) => ItemModel::Cut2d(held(c).model()),
        }
    }

    /// Whether the item owns its value.
    pub open spec fn is_owned(self) -> bool {
        match self {
            DkItem::Run(c) => c is Owned,
            DkItem::Hist1d(c) => c is Owned,
            DkItem::Hist2d(c) => c is Owned,
            DkItem::Hist3d(c) => c is Owned,
            DkItem::Hist4d(c) => c is Owned,
            DkItem::Points1d(c) => c is Owned,
            DkItem::Points2d(c) => c is Owned,
            DkItem::Points3d(c) => c is Owned,
            DkItem::Points4d(c) => c is Owned,
            DkItem::Cut1d(c) => c is Owned,
            DkItem::Cut2d(c) => c is Owned,
        }
    }

    /// Returns the value if the item is a run.
    pub fn as_run(&self) -> (r: Option<&Run>)
        ensures
            r is Some <==> self.model() is Run,
            r matches Some(v) ==> self.model() == ItemModel::Run(v.model()),
    {
        match self {
            DkItem::Run(c) => match c {
                Cow::Owned(o) => Some(o),
                Cow::Borrowed(b) => Some(*b),
            },
            _ => None,
        }
    }

    /// Returns the value for writing if the item is a run. An item
    /// that has borrowed its value owns a copy of it from now on.
    pub fn as_run_mut(&mut self) -> (r: Option<&mut Run>)
        ensures
            r is Some <==> old(self).model() is Run,
            r matches Some(v) ==> old(self).model() == ItemModel::Run(v.model()) && *final(self)
                == DkItem::Run(Cow::Owned(*final(v))),
            r is None ==> *final(self) == *old(self),
    {
        match self {
            DkItem::Run(c) => {
                if let Cow::Borrowed(b) = c {
                    let owned: Run = (*b).clone();
                    *c = Cow::Owned(owned);
                }
                match c {
                    Cow::Owned(o) => Some(o),
                    Cow::Borrowed(_) => None,
                }
            },
            _ => None,
        }
    }

    /// Returns the value if the item is a run: the value itself
    /// where the item owns it, else a copy.
    pub fn into_run(self) -> (r: Option<Run>)
        ensures
            r is Some <==> self.model() is Run,
            r matches Some(v) ==> self.model() == ItemModel::Run(v.model()),
    {
        match self {
            DkItem::Run(c) => match c {
                Cow::Owned(o) => Some(o),
                Cow::Borrowed(b) => Some(b.clone()),
            },
            _ => None,
        }
    }

    /// Returns the value if the item is a 1D histogram.
    pub fn as_hist_1d(&self) -> (r: Option<&Hist1d>)
        ensures
            r is Some <==> self.model() is Hist1d,
            r matches Some(v) ==> self.model() == ItemModel::Hist1d(v.model()),
    {
        match self {
            DkItem::Hist1d(c) => match c {
                Cow::Owned(o) => Some(o),
                Cow::Borrowed(b) => Some(*b),
            },
            _ => None,
        }
    }

    /// Returns the value for writing if the item is a 1D histogram. An item
    /// that has borrowed its value owns a copy of it from now on.
    pub fn as_hist_1d_mut(&mut self) -> (r: Option<&mut Hist1d>)
        ensures
            r is Some <==> old(self).model() is Hist1d,
            r matches Some(v) ==> old(self).model() == ItemModel::Hist1d(v.model()) && *final(self)
                == DkItem::Hist1d(Cow::Owned(*final(v))),
            r is None ==> *final(self) == *old(self),
    {
        match self {
            DkItem::Hist1d(c) => {
                if let Cow::Borrowed(b) = c {
                    let owned: Hist1d = (*b).clone();
                    *c = Cow::Owned(owned);
                }
                match c {
                    Cow::Owned(o) => Some(o),
                    Cow::Borrowed(_) => None,
                }
            },
            _ => None,
        }
    }

    /// Returns the value if the item is a 1D histogram: the value itself
    /// where the item owns it, else a copy.
    pub fn into_hist_1d(self) -> (r: Option<Hist1d>)
        ensures
            r is Some <==> self.model() is Hist1d,
            r matches Some(v) ==> self.model() == ItemModel::Hist1d(v.model()),
    {
        match self {
            DkItem::Hist1d(c) => match c {
                Cow::Owned(o) => Some(o),
                Cow::Borrowed(b) => Some(b.clone()),
            },
            _ => None,
        }
    }

    /// Returns the value if the item is a 2D histogram.
    pub fn as_hist_2d(&self) -> (r: Option<&Hist2d>)
        ensures
            r is Some <==> self.model() is Hist2d,
            r matches Some(v) ==> self.model() == ItemModel::Hist2d(v.model()),
    {
        match self {
            DkItem::Hist2d(c) => match c {
                Cow::Owned(o) => Some(o),
                Cow::Borrowed(b) => Some(*b),
            },
            _ => None,
        }
    }

    /// Returns the value for writing if the item is a 2D histogram. An item
    /// that has borrowed its value owns a copy of it from now on.
    pub fn as_hist_2d_mut(&mut self) -> (r: Option<&mut Hist2d>)
        ensures
            r is Some <==> old(self).model() is Hist2d,
            r matches Some(v) ==> old(self).model() == ItemModel::Hist2d(v.model()) && *final(self)
                == DkItem::Hist2d(Cow::Owned(*final(v))),
            r is None ==> *final(self) == *old(self),
    {
        match self {
            DkItem::Hist2d(c) => {
                if let Cow::Borrowed(b) = c {
                    let owned: Hist2d = (*b).clone();
                    *c = Cow::Owned(owned);
                }
                match c {
                    Cow::Owned(o) => Some(o),
                    Cow::Borrowed(_) => None,
                }
            },
            _ => None,
        }
    }

    /// Returns the value if the item is a 2D histogram: the value itself
    /// where the item owns it, else a copy.
    pub fn into_hist_2d(self) -> (r: Option<Hist2d>)
        ensures
            r is Some <==> self.model() is Hist2d,
            r matches Some(v) ==> self.model() == ItemModel::Hist2d(v.model()),
    {
        match self {
            DkItem::Hist2d(c) => match c {
                Cow::Owned(o) => Some(o),
                Cow::Borrowed(b) => Some(b.clone()),
            },
            _ => None,
        }
    }

    /// Returns the value if the item is a 3D histogram.
    pub fn as_hist_3d(&self) -> (r: Option<&Hist3d>)
        ensures
            r is Some <==> self.model() is Hist3d,
            r matches Some(v) ==> self.model() == ItemModel::Hist3d(v.model()),
    {
        match self {
            DkItem::Hist3d(c) => match c {
                Cow::Owned(o) => Some(o),
                Cow::Borrowed(b) => Some(*b),
            },
            _ => None,
        }
    }

    /// Returns the value for writing if the item is a 3D histogram. An item
    /// that has borrowed its value owns a copy of it from now on.
    pub fn as_hist_3d_mut(&mut self) -> (r: Option<&mut Hist3d>)
        ensures
            r is Some <==> old(self).model() is Hist3d,
            r matches Some(v) ==> old(self).model() == ItemModel::Hist3d(v.model()) && *final(self)
                == DkItem::Hist3d(Cow::Owned(*final(v))),
            r is None ==> *final(self) == *old(self),
    {
        match self {
            DkItem::Hist3d(c) => {
                if let Cow::Borrowed(b) = c {
                    let owned: Hist3d = (*b).clone();
                    *c = Cow::Owned(owned);
                }
                match c {
                    Cow::Owned(o) => Some(o),
                    Cow::Borrowed(_) => None,
                }
            },
            _ => None,
        }
    }

    /// Returns the value if the item is a 3D histogram: the value itself
    /// where the item owns it, else a copy.
    pub fn into_hist_3d(self) -> (r: Option<Hist3d>)
        ensures
            r is Some <==> self.model() is Hist3d,
            r matches Some(v) ==> self.model() == ItemModel::Hist3d(v.model()),
    {
        match self {
            DkItem::Hist3d(c) => match c {
                Cow::Owned(o) => Some(o),
                Cow::Borrowed(b) => Some(b.clone()),
            },
            _ => None,
        }
    }

    /// Returns the value if the item is a 4D histogram.
    pub fn as_hist_4d(&self) -> (r: Option<&Hist4d>)
        ensures
            r is Some <==> self.model() is Hist4d,
            r matches Some(v) ==> self.model() == ItemModel::Hist4d(v.model()),
    {
        match self {
            DkItem::Hist4d(c) => match c {
                Cow::Owned(o) => Some(o),
                Cow::Borrowed(b) => Some(*b),
            },
            _ => None,
        }
    }

    /// Returns the value for writing if the item is a 4D histogram. An item
    /// that has borrowed its value owns a copy of it from now on.
    pub fn as_hist_4d_mut(&mut self) -> (r: Option<&mut Hist4d>)
        ensures
            r is Some <==> old(self).model() is Hist4d,
            r matches Some(v) ==> old(self).model() == ItemModel::Hist4d(v.model()) && *final(self)
                == DkItem::Hist4d(Cow::Owned(*final(v))),
            r is None ==> *final(self) == *old(self),
    {
        match self {
            DkItem::Hist4d(c) => {
                if let Cow::Borrowed(b) = c {
                    let owned: Hist4d = (*b).clone();
                    *c = Cow::Owned(owned);
                }
                match c {
                    Cow::Owned(o) => Some(o),
                    Cow::Borrowed(_) => None,
                }
            },
            _ => None,
        }
    }

    /// Returns the value if the item is a 4D histogram: the value itself
    /// where the item owns it, else a copy.
    pub fn into_hist_4d(self) -> (r: Option<Hist4d>)
        ensures
            r is Some <==> self.model() is Hist4d,
            r matches Some(v) ==> self.model() == ItemModel::Hist4d(v.model()),
    {
        match self {
            DkItem::Hist4d(c) => match c {
                Cow::Owned(o) => Some(o),
                Cow::Borrowed(b) => Some(b.clone()),
            },
            _ => None,
        }
    }

    /// Returns the value if the item is a set of 1D points.
    pub fn as_points_1d(&self) -> (r: Option<&Points1d>)
        ensures
            r is Some <==> self.model() is Points1d,
            r matches Some(v) ==> self.model() == ItemModel::Points1d(v.model()),
    {
        match self {
            DkItem::Points1d(c) => match c {
                Cow::Owned(o) => Some(o),
                Cow::Borrowed(b) => Some(*b),
            },
            _ => None,
        }
    }

    /// Returns the value for writing if the item is a set of 1D points. An item
    /// that has borrowed its value owns a copy of it from now on.
    pub fn as_points_1d_mut(&mut self) -> (r: Option<&mut Points1d>)
        ensures
            r is Some <==> old(self).model() is Points1d,
            r matches Some(v) ==> old(self).model() == ItemModel::Points1d(v.model()) && *final(self)
                == DkItem::Points1d(Cow::Owned(*final(v))),
            r is None ==> *final(self) == *old(self),
    {
        match self {
            DkItem::Points1d(c) => {
                if let Cow::Borrowed(b) = c {
                    let owned: Points1d = (*b).clone();
                    *c = Cow::Owned(owned);
                }
                match c {
                    Cow::Owned(o) => Some(o),
                    Cow::Borrowed(_) => None,
                }
            },
            _ => None,
        }
    }

    /// Returns the value if the item is a set of 1D points: the value itself
    /// where the item owns it, else a copy.
    pub fn into_points_1d(self) -> (r: Option<Points1d>)
        ensures
            r is Some <==> self.model() is Points1d,
            r matches Some(v) ==> self.model() == ItemModel::Points1d(v.model()),
    {
        match self {
            DkItem::Points1d(c) => match c {
                Cow::Owned(o) => Some(o),
                Cow::Borrowed(b) => Some(b.clone()),
            },
            _ => None,
        }
    }

    /// Returns the value if the item is a set of 2D points.
    pub fn as_points_2d(&self) -> (r: Option<&Points2d>)
        ensures
            r is Some <==> self.model() is Points2d,
            r matches Some(v) ==> self.model() == ItemModel::Points2d(v.model()),
    {
        match self {
            DkItem::Points2d(c) => match c {
                Cow::Owned(o) => Some(o),
                Cow::Borrowed(b) => Some(*b),
            },
            _ => None,
        }
    }

    /// Returns the value for writing if the item is a set of 2D points. An item
    /// that has borrowed its value owns a copy of it from now on.
    pub fn as_points_2d_mut(&mut self) -> (r: Option<&mut Points2d>)
        ensures
            r is Some <==> old(self).model() is Points2d,
            r matches Some(v) ==> old(self).model() == ItemModel::Points2d(v.model()) && *final(self)
                == DkItem::Points2d(Cow::Owned(*final(v))),
            r is None ==> *final(self) == *old(self),
    {
        match self {
            DkItem::Points2d(c) => {
                if let Cow::Borrowed(b) = c {
                    let owned: Points2d = (*b).clone();
                    *c = Cow::Owned(owned);
                }
                match c {
                    Cow::Owned(o) => Some(o),
                    Cow::Borrowed(_) => None,
                }
            },
            _ => None,
        }
    }

    /// Returns the value if the item is a set of 2D points: the value itself
    /// where the item owns it, else a copy.
    pub fn into_points_2d(self) -> (r: Option<Points2d>)
        ensures
            r is Some <==> self.model() is Points2d,
            r matches Some(v) ==> self.model() == ItemModel::Points2d(v.model()),
    {
        match self {
            DkItem::Points2d(c) => match c {
                Cow::Owned(o) => Some(o),
                Cow::Borrowed(b) => Some(b.clone()),
            },
            _ => None,
        }
    }

    /// Returns the value if the item is a set of 3D points.
    pub fn as_points_3d(&self) -> (r: Option<&Points3d>)
        ensures
            r is Some <==> self.model() is Points3d,
            r matches Some(v) ==> self.model() == ItemModel::Points3d(v.model()),
    {
        match self {
            DkItem::Points3d(c) => match c {
                Cow::Owned(o) => Some(o),
                Cow::Borrowed(b) => Some(*b),
            },
            _ => None,
        }
    }

    /// Returns the value for writing if the item is a set of 3D points. An item
    /// that has borrowed its value owns a copy of it from now on.
    pub fn as_points_3d_mut(&mut self) -> (r: Option<&mut Points3d>)
        ensures
            r is Some <==> old(self).model() is Points3d,
            r matches Some(v) ==> old(self).model() == ItemModel::Points3d(v.model()) && *final(self)
                == DkItem::Points3d(Cow::Owned(*final(v))),
            r is None ==> *final(self) == *old(self),
    {
        match self {
            DkItem::Points3d(c) => {
                if let Cow::Borrowed(b) = c {
                    let owned: Points3d = (*b).clone();
                    *c = Cow::Owned(owned);
                }
                match c {
                    Cow::Owned(o) => Some(o),
                    Cow::Borrowed(_) => None,
                }
            },
            _ => None,
        }
    }

    /// Returns the value if the item is a set of 3D points: the value itself
    /// where the item owns it, else a copy.
    pub fn into_points_3d(self) -> (r: Option<Points3d>)
        ensures
            r is Some <==> self.model() is Points3d,
            r matches Some(v) ==> self.model() == ItemModel::Points3d(v.model()),
    {
        match self {
            DkItem::Points3d(c) => match c {
                Cow::Owned(o) => Some(o),
                Cow::Borrowed(b) => Some(b.clone()),
            },
            _ => None,
        }
    }

    /// Returns the value if the item is a set of 4D points.
    pub fn as_points_4d(&self) -> (r: Option<&Points4d>)
        ensures
            r is Some <==> self.model() is Points4d,
            r matches Some(v) ==> self.model() == ItemModel::Points4d(v.model()),
    {
        match self {
            DkItem::Points4d(c) => match c {
                Cow::Owned(o) => Some(o),
                Cow::Borrowed(b) => Some(*b),
            },
            _ => None,
        }
    }

    /// Returns the value for writing if the item is a set of 4D points. An item
    /// that has borrowed its value owns a copy of it from now on.
    pub fn as_points_4d_mut(&mut self) -> (r: Option<&mut Points4d>)
        ensures
            r is Some <==> old(self).model() is Points4d,
            r matches Some(v) ==> old(self).model() == ItemModel::Points4d(v.model()) && *final(self)
                == DkItem::Points4d(Cow::Owned(*final(v))),
            r is None ==> *final(self) == *old(self),
    {
        match self {
            DkItem::Points4d(c) => {
                if let Cow::Borrowed(b) = c {
                    let owned: Points4d = (*b).clone();
                    *c = Cow::Owned(owned);
                }
                match c {
                    Cow::Owned(o) => Some(o),
                    Cow::Borrowed(_) => None,
                }
            },
            _ => None,
        }
    }

    /// Returns the value if the item is a set of 4D points: the value itself
    /// where the item owns it, else a copy.
    pub fn into_points_4d(self) -> (r: Option<Points4d>)
        ensures
            r is Some <==> self.model() is Points4d,
            r matches Some(v) ==> self.model() == ItemModel::Points4d(v.model()),
    {
        match self {
            DkItem::Points4d(c) => match c {
                Cow::Owned(o) => Some(o),
                Cow::Borrowed(b) => Some(b.clone()),
            },
            _ => None,
        }
    }

    /// Returns the value if the item is a cut in one dimension.
    pub fn as_cut_1d(&self) -> (r: Option<&Cut1d>)
        ensures
            r is Some <==> self.model() is Cut1d,
            r matches Some(v) ==> self.model() == ItemModel::Cut1d(v.model()),
    {
        match self {
            DkItem::Cut1d(c) => match c {
                Cow::Owned(o) => Some(o),
                Cow::Borrowed(b) => Some(*b),
            },
            _ => None,
        }
    }

    /// Returns the value for writing if the item is a cut in one dimension. An item
    /// that has borrowed its value owns a copy of it from now on.
    pub fn as_cut_1d_mut(&mut self) -> (r: Option<&mut Cut1d>)
        ensures
            r is Some <==> old(self).model() is Cut1d,
            r matches Some(v) ==> old(self).model() == ItemModel::Cut1d(v.model()) && *final(self)
                == DkItem::Cut1d(Cow::Owned(*final(v))),
            r is None ==> *final(self) == *old(self),
    {
        match self {
            DkItem::Cut1d(c) => {
                if let Cow::Borrowed(b) = c {
                    let owned: Cut1d = (*b).clone();
                    *c = Cow::Owned(owned);
                }
                match c {
                    Cow::Owned(o) => Some(o),
                    Cow::Borrowed(_) => None,
                }
            },
            _ => None,
        }
    }

    /// Returns the value if the item is a cut in one dimension: the value itself
    /// where the item owns it, else a copy.
    pub fn into_cut_1d(self) -> (r: Option<Cut1d>)
        ensures
            r is Some <==> self.model() is Cut1d,
            r matches Some(v) ==> self.model() == ItemModel::Cut1d(v.model()),
    {
        match self {
            DkItem::Cut1d(c) => match c {
                Cow::Owned(o) => Some(o),
                Cow::Borrowed(b) => Some(b.clone()),
            },
            _ => None,
        }
    }

    /// Returns the value if the item is a cut in two dimensions.
    pub fn as_cut_2d(&self) -> (r: Option<&Cut2d>)
        ensures
            r is Some <==> self.model() is Cut2d,
            r matches Some(v) ==> self.model() == ItemModel::Cut2d(v.model()),
    {
        match self {
            DkItem::Cut2d(c) => match c {
                Cow::Owned(o) => Some(o),
                Cow::Borrowed(b) => Some(*b),
            },
            _ => None,
        }
    }

    /// Returns the value for writing if the item is a cut in two dimensions. An item
    /// that has borrowed its value owns a copy of it from now on.
    pub fn as_cut_2d_mut(&mut self) -> (r: Option<&mut Cut2d>)
        ensures
            r is Some <==> old(self).model() is Cut2d,
            r matches Some(v) ==> old(self).model() == ItemModel::Cut2d(v.model()) && *final(self)
                == DkItem::Cut2d(Cow::Owned(*final(v))),
            r is None ==> *final(self) == *old(self),
    {
        match self {
            DkItem::Cut2d(c) => {
                if let Cow::Borrowed(b) = c {
                    let owned: Cut2d = (*b).clone();
                    *c = Cow::Owned(owned);
                }
                match c {
                    Cow::Owned(o) => Some(o),
                    Cow::Borrowed(_) => None,
                }
            },
            _ => None,
        }
    }

    /// Returns the value if the item is a cut in two dimensions: the value itself
    /// where the item owns it, else a copy.
    pub fn into_cut_2d(self) -> (r: Option<Cut2d>)
        ensures
            r is Some <==> self.model() is Cut2d,
            r matches Some(v) ==> self.model() == ItemModel::Cut2d(v.model()),
    {
        match self {
            DkItem::Cut2d(c) => match c {
                Cow::Owned(o) => Some(o),
                Cow::Borrowed(b) => Some(b.clone()),
            },
            _ => None,
        }
    }

    /// Returns the type of the item.
    pub fn dk_type(&self) -> (t: DkType)
        ensures
            t == self.model().kind(),
    {
        match *self {
            DkItem::Run(_) => DkType::Run,
            DkItem::Hist1d(_) => DkType::Hist1d,
            DkItem::Hist2d(_) => DkType::Hist2d,
            DkItem::Hist3d(_) => DkType::Hist3d,
            DkItem::Hist4d(_) => DkType::Hist4d,
            DkItem::Points1d(_) => DkType::Points1d,
            DkItem::Points2d(_) => DkType::Points2d,
            DkItem::Points3d(_) => DkType::Points3d,
            DkItem::Points4d(_) => DkType::Points4d,
            DkItem::Cut1d(_) => DkType::Cut1d,
            DkItem::Cut2d(_) => DkType::Cut2d,
        }
    }
}

impl<'a> From<Run> for DkItem<'a> {
    fn from(v: Run) -> (r: DkItem<'a>) {
        DkItem::Run(Cow::Owned(v))
    }
}

impl<'a> FromSpecImpl<Run> for DkItem<'a> {
    open spec fn obeys_from_spec() -> bool {
        true
    }

    open spec fn from_spec(v: Run) -> Self {
        DkItem::Run(Cow::Owned(v))
    }
}

impl<'a> From<&'a Run> for DkItem<'a> {
    fn from(v: &'a Run) -> (r: DkItem<'a>) {
        DkItem::Run(Cow::Borrowed(v))
    }
}

impl<'a> FromSpecImpl<&'a Run> for DkItem<'a> {
    open spec fn obeys_from_spec() -> bool {
        true
    }

    open spec fn from_spec(v: &'a Run) -> Self {
        DkItem::Run(Cow::Borrowed(v))
    }
}

impl<'a> From<Hist1d> for DkItem<'a> {
    fn from(v: Hist1d) -> (r: DkItem<'a>) {
        DkItem::Hist1d(Cow::Owned(v))
    }
}

impl<'a> FromSpecImpl<Hist1d> for DkItem<'a> {
    open spec fn obeys_from_spec() -> bool {
        true
    }

    open spec fn from_spec(v: Hist1d) -> Self {
        DkItem::Hist1d(Cow::Owned(v))
    }
}

impl<'a> From<&'a Hist1d> for DkItem<'a> {
    fn from(v: &'a Hist1d) -> (r: DkItem<'a>) {
        DkItem::Hist1d(Cow::Borrowed(v))
    }
}

impl<'a> FromSpecImpl<&'a Hist1d> for DkItem<'a> {
    open spec fn obeys_from_spec() -> bool {
        true
    }

    open spec fn from_spec(v: &'a Hist1d) -> Self {
        DkItem::Hist1d(Cow::Borrowed(v))
    }
}

impl<'a> From<Hist2d> for DkItem<'a> {
    fn from(v: Hist2d) -> (r: DkItem<'a>) {
        DkItem::Hist2d(Cow::Owned(v))
    }
}

impl<'a> FromSpecImpl<Hist2d> for DkItem<'a> {
    open spec fn obeys_from_spec() -> bool {
        true
    }

    open spec fn from_spec(v: Hist2d) -> Self {
        DkItem::Hist2d(Cow::Owned(v))
    }
}

impl<'a> From<&'a Hist2d> for DkItem<'a> {
    fn from(v: &'a Hist2d) -> (r: DkItem<'a>) {
        DkItem::Hist2d(Cow::Borrowed(v))
    }
}

impl<'a> FromSpecImpl<&'a Hist2d> for DkItem<'a> {
    open spec fn obeys_from_spec() -> bool {
        true
    }

    open spec fn from_spec(v: &'a Hist2d) -> Self {
        DkItem::Hist2d(Cow::Borrowed(v))
    }
}

impl<'a> From<Hist3d> for DkItem<'a> {
    fn from(v: Hist3d) -> (r: DkItem<'a>) {
        DkItem::Hist3d(Cow::Owned(v))
    }
}

impl<'a> FromSpecImpl<Hist3d> for DkItem<'a> {
    open spec fn obeys_from_spec() -> bool {
        true
    }

    open spec fn from_spec(v: Hist3d) -> Self {
        DkItem::Hist3d(Cow::Owned(v))
    }
}

impl<'a> From<&'a Hist3d> for DkItem<'a> {
    fn from(v: &'a Hist3d) -> (r: DkItem<'a>) {
        DkItem::Hist3d(Cow::Borrowed(v))
    }
}

impl<'a> FromSpecImpl<&'a Hist3d> for DkItem<'a> {
    open spec fn obeys_from_spec() -> bool {
        true
    }

    open spec fn from_spec(v: &'a Hist3d) -> Self {
        DkItem::Hist3d(Cow::Borrowed(v))
    }
}

impl<'a> From<Hist4d> for DkItem<'a> {
    fn from(v: Hist4d) -> (r: DkItem<'a>) {
        DkItem::Hist4d(Cow::Owned(v))
    }
}

impl<'a> FromSpecImpl<Hist4d> for DkItem<'a> {
    open spec fn obeys_from_spec() -> bool {
        true
    }

    open spec fn from_spec(v: Hist4d) -> Self {
        DkItem::Hist4d(Cow::Owned(v))
    }
}

impl<'a> From<&'a Hist4d> for DkItem<'a> {
    fn from(v: &'a Hist4d) -> (r: DkItem<'a>) {
        DkItem::Hist4d(Cow::Borrowed(v))
    }
}

impl<'a> FromSpecImpl<&'a Hist4d> for DkItem<'a> {
    open spec fn obeys_from_spec() -> bool {
        true
    }

    open spec fn from_spec(v: &'a Hist4d) -> Self {
        DkItem::Hist4d(Cow::Borrowed(v))
    }
}

impl<'a> From<Points1d> for DkItem<'a> {
    fn from(v: Points1d) -> (r: DkItem<'a>) {
        DkItem::Points1d(Cow::Owned(v))
    }
}

impl<'a> FromSpecImpl<Points1d> for DkItem<'a> {
    open spec fn obeys_from_spec() -> bool {
        true
    }

    open spec fn from_spec(v: Points1d) -> Self {
        DkItem::Points1d(Cow::Owned(v))
    }
}

impl<'a> From<&'a Points1d> for DkItem<'a> {
    fn from(v: &'a Points1d) -> (r: DkItem<'a>) {
        DkItem::Points1d(Cow::Borrowed(v))
    }
}

impl<'a> FromSpecImpl<&'a Points1d> for DkItem<'a> {
    open spec fn obeys_from_spec() -> bool {
        true
    }

    open spec fn from_spec(v: &'a Points1d) -> Self {
        DkItem::Points1d(Cow::Borrowed(v))
    }
}

impl<'a> From<Points2d> for DkItem<'a> {
    fn from(v: Points2d) -> (r: DkItem<'a>) {
        DkItem::Points2d(Cow::Owned(v))
    }
}

impl<'a> FromSpecImpl<Points2d> for DkItem<'a> {
    open spec fn obeys_from_spec() -> bool {
        true
    }

    open spec fn from_spec(v: Points2d) -> Self {
        DkItem::Points2d(Cow::Owned(v))
    }
}

impl<'a> From<&'a Points2d> for DkItem<'a> {
    fn from(v: &'a Points2d) -> (r: DkItem<'a>) {
        DkItem::Points2d(Cow::Borrowed(v))
    }
}

impl<'a> FromSpecImpl<&'a Points2d> for DkItem<'a> {
    open spec fn obeys_from_spec() -> bool {
        true
    }

    open spec fn from_spec(v: &'a Points2d) -> Self {
        DkItem::Points2d(Cow::Borrowed(v))
    }
}

impl<'a> From<Points3d> for DkItem<'a> {
    fn from(v: Points3d) -> (r: DkItem<'a>) {
        DkItem::Points3d(Cow::Owned(v))
    }
}

impl<'a> FromSpecImpl<Points3d> for DkItem<'a> {
    open spec fn obeys_from_spec() -> bool {
        true
    }

    open spec fn from_spec(v: Points3d) -> Self {
        DkItem::Points3d(Cow::Owned(v))
    }
}

impl<'a> From<&'a Points3d> for DkItem<'a> {
    fn from(v: &'a Points3d) -> (r: DkItem<'a>) {
        DkItem::Points3d(Cow::Borrowed(v))
    }
}

impl<'a> FromSpecImpl<&'a Points3d> for DkItem<'a> {
    open spec fn obeys_from_spec() -> bool {
        true
    }

    open spec fn from_spec(v: &'a Points3d) -> Self {
        DkItem::Points3d(Cow::Borrowed(v))
    }
}

impl<'a> From<Points4d> for DkItem<'a> {
    fn from(v: Points4d) -> (r: DkItem<'a>) {
        DkItem::Points4d(Cow::Owned(v))
    }
}

impl<'a> FromSpecImpl<Points4d> for DkItem<'a> {
    open spec fn obeys_from_spec() -> bool {
        true
    }

    open spec fn from_spec(v: Points4d) -> Self {
        DkItem::Points4d(Cow::Owned(v))
    }
}

impl<'a> From<&'a Points4d> for DkItem<'a> {
    fn from(v: &'a Points4d) -> (r: DkItem<'a>) {
        DkItem::Points4d(Cow::Borrowed(v))
    }
}

impl<'a> FromSpecImpl<&'a Points4d> for DkItem<'a> {
    open spec fn obeys_from_spec() -> bool {
        true
    }

    open spec fn from_spec(v: &'a Points4d) -> Self {
        DkItem::Points4d(Cow::Borrowed(v))
    }
}

impl<'a> From<Cut1d> for DkItem<'a> {
    fn from(v: Cut1d) -> (r: DkItem<'a>) {
        DkItem::Cut1d(Cow::Owned(v))
    }
}

impl<'a> FromSpecImpl<Cut1d> for DkItem<'a> {
    open spec fn obeys_from_spec() -> bool {
        true
    }

    open spec fn from_spec(v: Cut1d) -> Self {
        DkItem::Cut1d(Cow::Owned(v))
    }
}

impl<'a> From<&'a Cut1d> for DkItem<'a> {
    fn from(v: &'a Cut1d) -> (r: DkItem<'a>) {
        DkItem::Cut1d(Cow::Borrowed(v))
    }
}

impl<'a> FromSpecImpl<&'a Cut1d> for DkItem<'a> {
    open spec fn obeys_from_spec() -> bool {
        true
    }

    open spec fn from_spec(v: &'a Cut1d) -> Self {
        DkItem::Cut1d(Cow::Borrowed(v))
    }
}

impl<'a> From<Cut2d> for DkItem<'a> {
    fn from(v: Cut2d) -> (r: DkItem<'a>) {
        DkItem::Cut2d(Cow::Owned(v))
    }
}

impl<'a> FromSpecImpl<Cut2d> for DkItem<'a> {
    open spec fn obeys_from_spec() -> bool {
        true
    }

    open spec fn from_spec(v: Cut2d) -> Self {
        DkItem::Cut2d(Cow::Owned(v))
    }
}

impl<'a> From<&'a Cut2d> for DkItem<'a> {
    fn from(v: &'a Cut2d) -> (r: DkItem<'a>) {
        DkItem::Cut2d(Cow::Borrowed(v))
    }
}

impl<'a> FromSpecImpl<&'a Cut2d> for DkItem<'a> {
    open spec fn obeys_from_spec() -> bool {
        true
    }

    open spec fn from_spec(v: &'a Cut2d) -> Self {
        DkItem::Cut2d(Cow::Borrowed(v))
    }
}

impl<'a> Clone for DkItem<'a> {
    /// Copies the item: an item that owns its value gets a copy of it, and
    /// one that has borrowed it borrows it once more.
    fn clone(&self) -> (r: Self)
        ensures
            r.model() == self.model(),
            r.is_owned() == self.is_owned(),
    {
        match self {
            DkItem::Run(c) => match c {
                Cow::Owned(v) => DkItem::Run(Cow::Owned(v.clone())),
                Cow::Borrowed(v) => DkItem::Run(Cow::Borrowed(*v)),
            },
            DkItem::Hist1d(c) => match c {
                Cow::Owned(v) => DkItem::Hist1d(Cow::Owned(v.clone())),
                Cow::Borrowed(v) => DkItem::Hist1d(Cow::Borrowed(*v)),
            },
            DkItem::Hist2d(c) => match c {
                Cow::Owned(v) => DkItem::Hist2d(Cow::Owned(v.clone())),
                Cow::Borrowed(v) => DkItem::Hist2d(Cow::Borrowed(*v)),
            },
            DkItem::Hist3d(c) => match c {
                Cow::Owned(v) => DkItem::Hist3d(Cow::Owned(v.clone())),
                Cow::Borrowed(v) => DkItem::Hist3d(Cow::Borrowed(*v)),
            },
            DkItem::Hist4d(c) => match c {
                Cow::Owned(v) => DkItem::Hist4d(Cow::Owned(v.clone())),
                Cow::Borrowed(v) => DkItem::Hist4d(Cow::Borrowed(*v)),
            },
            DkItem::Points1d(c) => match c {
                Cow::Owned(v) => DkItem::Points1d(Cow::Owned(v.clone())),
                Cow::Borrowed(v) => DkItem::Points1d(Cow::Borrowed(*v)),
            },
            DkItem::Points2d(c) => match c {
                Cow::Owned(v) => DkItem::Points2d(Cow::Owned(v.clone())),
                Cow::Borrowed(v) => DkItem::Points2d(Cow::Borrowed(*v)),
            },
            DkItem::Points3d(c) => match c {
                Cow::Owned(v) => DkItem::Points3d(Cow::Owned(v.clone())),
                Cow::Borrowed(v) => DkItem::Points3d(Cow::Borrowed(*v)),
            },
            DkItem::Points4d(c) => match c {
                Cow::Owned(v) => DkItem::Points4d(Cow::Owned(v.clone())),
                Cow::Borrowed(v) => DkItem::Points4d(Cow::Borrowed(*v)),
            },
            DkItem::Cut1d(c) => match c {
                Cow::Owned(v) => DkItem::Cut1d(Cow::Owned(v.clone())),
                Cow::Borrowed(v) => DkItem::Cut1d(Cow::Borrowed(*v)),
            },
            DkItem::Cut2d(c) => match c {
                Cow::Owned(v) => DkItem::Cut2d(Cow::Owned(v.clone())),
                Cow::Borrowed(v) => DkItem::Cut2d(Cow::Borrowed(*v)),
            },
        }
    }
}

/// A tag and a storable value behind it are read back as they are,
/// whatever stands before and behind them.
pub proof fn lemma_tagged<T: Wire>(tag: u32, v: T::Model, before: Seq<u8>, after: Seq<u8>)
    requires
        T::storable(v),
    ensures
        u32::parse(before + (u32::ser(tag) + T::ser(v)) + after, before.len() as int) == Ok::<
            (u32, int),
            DkError,
        >((tag, (before.len() + 4) as int)),
        T::parse(before + (u32::ser(tag) + T::ser(v)) + after, (before.len() + 4) as int) == Ok::<
            (T::Model, int),
            DkError,
        >((v, (before.len() + (u32::ser(tag) + T::ser(v)).len()) as int)),
        (u32::ser(tag) + T::ser(v)).len() >= 4,
{
    let s = before + (u32::ser(tag) + T::ser(v)) + after;
    u32::lemma_round_trip(tag, before, T::ser(v) + after);
    assert(before + u32::ser(tag) + (T::ser(v) + after) =~= s);
    T::lemma_round_trip(v, before + u32::ser(tag), after);
    assert(before + u32::ser(tag) + T::ser(v) + after =~= s);
}

/// The item that was read, where its value, a run, was.
pub open spec fn run_item(value: Result<(Seq<Seq<HitModel>>, int), DkError>) -> Result<
    (ItemModel, int),
    DkError,
> {
    match value {
        Err(e) => Err(e),
        Ok(v) => Ok((ItemModel::Run(v.0), v.1)),
    }
}

/// Reads a run as an item.
fn read_run<'a>(bytes: &[u8], at: usize) -> (r: Result<(DkItem<'a>, usize), DkError>)
    requires
        at <= bytes@.len(),
    ensures
        match r {
            Ok(v) => run_item(Run::parse(bytes@, at as int)) == Ok::<(ItemModel, int), DkError>(
                (v.0.model(), v.1 as int),
            ),
            Err(e) => run_item(Run::parse(bytes@, at as int)) == Err::<(ItemModel, int), DkError>(
                e,
            ),
        },
{
    match Run::read(bytes, at) {
        Ok((v, next)) => Ok((DkItem::Run(Cow::Owned(v)), next)),
        Err(e) => Err(e),
    }
}

/// The item that was read, where its value, a 1D histogram, was.
pub open spec fn hist_1d_item(value: Result<((HistAxis, Seq<u64>), int), DkError>) -> Result<
    (ItemModel, int),
    DkError,
> {
    match value {
        Err(e) => Err(e),
        Ok(v) => Ok((ItemModel::Hist1d(v.0), v.1)),
    }
}

/// Reads a 1D histogram as an item.
fn read_hist_1d<'a>(bytes: &[u8], at: usize) -> (r: Result<(DkItem<'a>, usize), DkError>)
    requires
        at <= bytes@.len(),
    ensures
        match r {
            Ok(v) => hist_1d_item(Hist1d::parse(bytes@, at as int)) == Ok::<(ItemModel, int), DkError>(
                (v.0.model(), v.1 as int),
            ),
            Err(e) => hist_1d_item(Hist1d::parse(bytes@, at as int)) == Err::<(ItemModel, int), DkError>(
                e,
            ),
        },
{
    match Hist1d::read(bytes, at) {
        Ok((v, next)) => Ok((DkItem::Hist1d(Cow::Owned(v)), next)),
        Err(e) => Err(e),
    }
}

/// The item that was read, where its value, a 2D histogram, was.
pub open spec fn hist_2d_item(value: Result<(((HistAxis, HistAxis), Seq<u64>), int), DkError>) -> Result<
    (ItemModel, int),
    DkError,
> {
    match value {
        Err(e) => Err(e),
        Ok(v) => Ok((ItemModel::Hist2d(v.0), v.1)),
    }
}

/// Reads a 2D histogram as an item.
fn read_hist_2d<'a>(bytes: &[u8], at: usize) -> (r: Result<(DkItem<'a>, usize), DkError>)
    requires
        at <= bytes@.len(),
    ensures
        match r {
            Ok(v) => hist_2d_item(Hist2d::parse(bytes@, at as int)) == Ok::<(ItemModel, int), DkError>(
                (v.0.model(), v.1 as int),
            ),
            Err(e) => hist_2d_item(Hist2d::parse(bytes@, at as int)) == Err::<(ItemModel, int), DkError>(
                e,
            ),
        },
{
    match Hist2d::read(bytes, at) {
        Ok((v, next)) => Ok((DkItem::Hist2d(Cow::Owned(v)), next)),
        Err(e) => Err(e),
    }
}

/// The item that was read, where its value, a 3D histogram, was.
pub open spec fn hist_3d_item(value: Result<(((HistAxis, HistAxis, HistAxis), Seq<u64>), int), DkError>) -> Result<
    (ItemModel, int),
    DkError,
> {
    match value {
        Err(e) => Err(e),
        Ok(v) => Ok((ItemModel::Hist3d(v.0), v.1)),
    }
}

/// Reads a 3D histogram as an item.
fn read_hist_3d<'a>(bytes: &[u8], at: usize) -> (r: Result<(DkItem<'a>, usize), DkError>)
    requires
        at <= bytes@.len(),
    ensures
        match r {
            Ok(v) => hist_3d_item(Hist3d::parse(bytes@, at as int)) == Ok::<(ItemModel, int), DkError>(
                (v.0.model(), v.1 as int),
            ),
            Err(e) => hist_3d_item(Hist3d::parse(bytes@, at as int)) == Err::<(ItemModel, int), DkError>(
                e,
            ),
        },
{
    match Hist3d::read(bytes, at) {
        Ok((v, next)) => Ok((DkItem::Hist3d(Cow::Owned(v)), next)),
        Err(e) => Err(e),
    }
}

/// The item that was read, where its value, a 4D histogram, was.
pub open spec fn hist_4d_item(value: Result<(((HistAxis, HistAxis, HistAxis, HistAxis), Seq<u64>), int), DkError>) -> Result<
    (ItemModel, int),
    DkError,
> {
    match value {
        Err(e) => Err(e),
        Ok(v) => Ok((ItemModel::Hist4d(v.0), v.1)),
    }
}

/// Reads a 4D histogram as an item.
fn read_hist_4d<'a>(bytes: &[u8], at: usize) -> (r: Result<(DkItem<'a>, usize), DkError>)
    requires
        at <= bytes@.len(),
    ensures
        match r {
            Ok(v) => hist_4d_item(Hist4d::parse(bytes@, at as int)) == Ok::<(ItemModel, int), DkError>(
                (v.0.model(), v.1 as int),
            ),
            Err(e) => hist_4d_item(Hist4d::parse(bytes@, at as int)) == Err::<(ItemModel, int), DkError>(
                e,
            ),
        },
{
    match Hist4d::read(bytes, at) {
        Ok((v, next)) => Ok((DkItem::Hist4d(Cow::Owned(v)), next)),
        Err(e) => Err(e),
    }
}

/// The item that was read, where its value, a set of 1D points, was.
pub open spec fn points_1d_item(value: Result<(Seq<i64>, int), DkError>) -> Result<
    (ItemModel, int),
    DkError,
> {
    match value {
        Err(e) => Err(e),
        Ok(v) => Ok((ItemModel::Points1d(v.0), v.1)),
    }
}

/// Reads a set of 1D points as an item.
fn read_points_1d<'a>(bytes: &[u8], at: usize) -> (r: Result<(DkItem<'a>, usize), DkError>)
    requires
        at <= bytes@.len(),
    ensures
        match r {
            Ok(v) => points_1d_item(Points1d::parse(bytes@, at as int)) == Ok::<(ItemModel, int), DkError>(
                (v.0.model(), v.1 as int),
            ),
            Err(e) => points_1d_item(Points1d::parse(bytes@, at as int)) == Err::<(ItemModel, int), DkError>(
                e,
            ),
        },
{
    match Points1d::read(bytes, at) {
        Ok((v, next)) => Ok((DkItem::Points1d(Cow::Owned(v)), next)),
        Err(e) => Err(e),
    }
}

/// The item that was read, where its value, a set of 2D points, was.
pub open spec fn points_2d_item(value: Result<(Seq<(i64, i64)>, int), DkError>) -> Result<
    (ItemModel, int),
    DkError,
> {
    match value {
        Err(e) => Err(e),
        Ok(v) => Ok((ItemModel::Points2d(v.0), v.1)),
    }
}

/// Reads a set of 2D points as an item.
fn read_points_2d<'a>(bytes: &[u8], at: usize) -> (r: Result<(DkItem<'a>, usize), DkError>)
    requires
        at <= bytes@.len(),
    ensures
        match r {
            Ok(v) => points_2d_item(Points2d::parse(bytes@, at as int)) == Ok::<(ItemModel, int), DkError>(
                (v.0.model(), v.1 as int),
            ),
            Err(e) => points_2d_item(Points2d::parse(bytes@, at as int)) == Err::<(ItemModel, int), DkError>(
                e,
            ),
        },
{
    match Points2d::read(bytes, at) {
        Ok((v, next)) => Ok((DkItem::Points2d(Cow::Owned(v)), next)),
        Err(e) => Err(e),
    }
}

/// The item that was read, where its value, a set of 3D points, was.
pub open spec fn points_3d_item(value: Result<(Seq<(i64, i64, i64)>, int), DkError>) -> Result<
    (ItemModel, int),
    DkError,
> {
    match value {
        Err(e) => Err(e),
        Ok(v) => Ok((ItemModel::Points3d(v.0), v.1)),
    }
}

/// Reads a set of 3D points as an item.
fn read_points_3d<'a>(bytes: &[u8], at: usize) -> (r: Result<(DkItem<'a>, usize), DkError>)
    requires
        at <= bytes@.len(),
    ensures
        match r {
            Ok(v) => points_3d_item(Points3d::parse(bytes@, at as int)) == Ok::<(ItemModel, int), DkError>(
                (v.0.model(), v.1 as int),
            ),
            Err(e) => points_3d_item(Points3d::parse(bytes@, at as int)) == Err::<(ItemModel, int), DkError>(
                e,
            ),
        },
{
    match Points3d::read(bytes, at) {
        Ok((v, next)) => Ok((DkItem::Points3d(Cow::Owned(v)), next)),
        Err(e) => Err(e),
    }
}

/// The item that was read, where its value, a set of 4D points, was.
pub open spec fn points_4d_item(value: Result<(Seq<(i64, i64, i64, i64)>, int), DkError>) -> Result<
    (ItemModel, int),
    DkError,
> {
    match value {
        Err(e) => Err(e),
        Ok(v) => Ok((ItemModel::Points4d(v.0), v.1)),
    }
}

/// Reads a set of 4D points as an item.
fn read_points_4d<'a>(bytes: &[u8], at: usize) -> (r: Result<(DkItem<'a>, usize), DkError>)
    requires
        at <= bytes@.len(),
    ensures
        match r {
            Ok(v) => points_4d_item(Points4d::parse(bytes@, at as int)) == Ok::<(ItemModel, int), DkError>(
                (v.0.model(), v.1 as int),
            ),
            Err(e) => points_4d_item(Points4d::parse(bytes@, at as int)) == Err::<(ItemModel, int), DkError>(
                e,
            ),
        },
{
    match Points4d::read(bytes, at) {
        Ok((v, next)) => Ok((DkItem::Points4d(Cow::Owned(v)), next)),
        Err(e) => Err(e),
    }
}

/// The item that was read, where its value, a cut in one dimension, was.
pub open spec fn cut_1d_item(value: Result<(Cut1d, int), DkError>) -> Result<
    (ItemModel, int),
    DkError,
> {
    match value {
        Err(e) => Err(e),
        Ok(v) => Ok((ItemModel::Cut1d(v.0), v.1)),
    }
}

/// Reads a cut in one dimension as an item.
fn read_cut_1d<'a>(bytes: &[u8], at: usize) -> (r: Result<(DkItem<'a>, usize), DkError>)
    requires
        at <= bytes@.len(),
    ensures
        match r {
            Ok(v) => cut_1d_item(Cut1d::parse(bytes@, at as int)) == Ok::<(ItemModel, int), DkError>(
                (v.0.model(), v.1 as int),
            ),
            Err(e) => cut_1d_item(Cut1d::parse(bytes@, at as int)) == Err::<(ItemModel, int), DkError>(
                e,
            ),
        },
{
    match Cut1d::read(bytes, at) {
        Ok((v, next)) => Ok((DkItem::Cut1d(Cow::Owned(v)), next)),
        Err(e) => Err(e),
    }
}

/// The item that was read, where its value, a cut in two dimensions, was.
pub open spec fn cut_2d_item(value: Result<(Cut2dModel, int), DkError>) -> Result<
    (ItemModel, int),
    DkError,
> {
    match value {
        Err(e) => Err(e),
        Ok(v) => Ok((ItemModel::Cut2d(v.0), v.1)),
    }
}

/// Reads a cut in two dimensions as an item.
fn read_cut_2d<'a>(bytes: &[u8], at: usize) -> (r: Result<(DkItem<'a>, usize), DkError>)
    requires
        at <= bytes@.len(),
    ensures
        match r {
            Ok(v) => cut_2d_item(Cut2d::parse(bytes@, at as int)) == Ok::<(ItemModel, int), DkError>(
                (v.0.model(), v.1 as int),
            ),
            Err(e) => cut_2d_item(Cut2d::parse(bytes@, at as int)) == Err::<(ItemModel, int), DkError>(
                e,
            ),
        },
{
    match Cut2d::read(bytes, at) {
        Ok((v, next)) => Ok((DkItem::Cut2d(Cow::Owned(v)), next)),
        Err(e) => Err(e),
    }
}

/// The tag of the type in 4 bytes, then the value.
impl<'a> Wire for DkItem<'a> {
    type Model = ItemModel;

    open spec fn model(&self) -> ItemModel {
        DkItem::model(*self)
    }

    open spec fn storable(m: ItemModel) -> bool {
        match m {
            ItemModel::Run(v) => Run::storable(v),
            ItemModel::Hist1d(v) => Hist1d::storable(v),
            ItemModel::Hist2d(v) => Hist2d::storable(v),
            ItemModel::Hist3d(v) => Hist3d::storable(v),
            ItemModel::Hist4d(v) => Hist4d::storable(v),
            ItemModel::Points1d(v) => Points1d::storable(v),
            ItemModel::Points2d(v) => Points2d::storable(v),
            ItemModel::Points3d(v) => Points3d::storable(v),
            ItemModel::Points4d(v) => Points4d::storable(v),
            ItemModel::Cut1d(v) => Cut1d::storable(v),
            ItemModel::Cut2d(v) => Cut2d::storable(v),
        }
    }

    open spec fn ser(m: ItemModel) -> Seq<u8> {
        match m {
            ItemModel::Run(v) => u32::ser(0) + Run::ser(v),
            ItemModel::Hist1d(v) => u32::ser(1) + Hist1d::ser(v),
            ItemModel::Hist2d(v) => u32::ser(2) + Hist2d::ser(v),
            ItemModel::Hist3d(v) => u32::ser(3) + Hist3d::ser(v),
            ItemModel::Hist4d(v) => u32::ser(4) + Hist4d::ser(v),
            ItemModel::Points1d(v) => u32::ser(11) + Points1d::ser(v),
            ItemModel::Points2d(v) => u32::ser(12) + Points2d::ser(v),
            ItemModel::Points3d(v) => u32::ser(13) + Points3d::ser(v),
            ItemModel::Points4d(v) => u32::ser(14) + Points4d::ser(v),
            ItemModel::Cut1d(v) => u32::ser(15) + Cut1d::ser(v),
            ItemModel::Cut2d(v) => u32::ser(16) + Cut2d::ser(v),
        }
    }

    /// A tag that stands for no type makes the bytes no container.
    open spec fn parse(s: Seq<u8>, pos: int) -> Result<(ItemModel, int), DkError> {
        match u32::parse(s, pos) {
            Err(e) => Err(e),
            Ok(t) => match DkType::spec_from_tag(t.0) {
                None => Err(DkError::InvalidFormat),
                Some(DkType::Run) => run_item(Run::parse(s, t.1)),
                Some(DkType::Hist1d) => hist_1d_item(Hist1d::parse(s, t.1)),
                Some(DkType::Hist2d) => hist_2d_item(Hist2d::parse(s, t.1)),
                Some(DkType::Hist3d) => hist_3d_item(Hist3d::parse(s, t.1)),
                Some(DkType::Hist4d) => hist_4d_item(Hist4d::parse(s, t.1)),
                Some(DkType::Points1d) => points_1d_item(Points1d::parse(s, t.1)),
                Some(DkType::Points2d) => points_2d_item(Points2d::parse(s, t.1)),
                Some(DkType::Points3d) => points_3d_item(Points3d::parse(s, t.1)),
                Some(DkType::Points4d) => points_4d_item(Points4d::parse(s, t.1)),
                Some(DkType::Cut1d) => cut_1d_item(Cut1d::parse(s, t.1)),
                Some(DkType::Cut2d) => cut_2d_item(Cut2d::parse(s, t.1)),
            },
        }
    }

    open spec fn least_len() -> nat {
        4
    }

    proof fn lemma_parse(s: Seq<u8>, pos: int) {
        if let Ok(t) = u32::parse(s, pos) {
            Run::lemma_parse(s, t.1);
            Hist1d::lemma_parse(s, t.1);
            Hist2d::lemma_parse(s, t.1);
            Hist3d::lemma_parse(s, t.1);
            Hist4d::lemma_parse(s, t.1);
            Points1d::lemma_parse(s, t.1);
            Points2d::lemma_parse(s, t.1);
            Points3d::lemma_parse(s, t.1);
            Points4d::lemma_parse(s, t.1);
            Cut1d::lemma_parse(s, t.1);
            Cut2d::lemma_parse(s, t.1);
        }
    }

    proof fn lemma_round_trip(m: ItemModel, before: Seq<u8>, after: Seq<u8>) {
        match m {
            ItemModel::Run(v) => lemma_tagged::<Run>(0, v, before, after),
            ItemModel::Hist1d(v) => lemma_tagged::<Hist1d>(1, v, before, after),
            ItemModel::Hist2d(v) => lemma_tagged::<Hist2d>(2, v, before, after),
            ItemModel::Hist3d(v) => lemma_tagged::<Hist3d>(3, v, before, after),
            ItemModel::Hist4d(v) => lemma_tagged::<Hist4d>(4, v, before, after),
            ItemModel::Points1d(v) => lemma_tagged::<Points1d>(11, v, before, after),
            ItemModel::Points2d(v) => lemma_tagged::<Points2d>(12, v, before, after),
            ItemModel::Points3d(v) => lemma_tagged::<Points3d>(13, v, before, after),
            ItemModel::Points4d(v) => lemma_tagged::<Points4d>(14, v, before, after),
            ItemModel::Cut1d(v) => lemma_tagged::<Cut1d>(15, v, before, after),
            ItemModel::Cut2d(v) => lemma_tagged::<Cut2d>(16, v, before, after),
        }
    }

    fn least() -> (n: usize) {
        4
    }

    fn write(&self, out: &mut Vec<u8>) {
        self.dk_type().tag().write(out);
        match self {
            DkItem::Run(c) => match c {
                Cow::Owned(v) => v.write(out),
                Cow::Borrowed(v) => v.write(out),
            },
            DkItem::Hist1d(c) => match c {
                Cow::Owned(v) => v.write(out),
                Cow::Borrowed(v) => v.write(out),
            },
            DkItem::Hist2d(c) => match c {
                Cow::Owned(v) => v.write(out),
                Cow::Borrowed(v) => v.write(out),
            },
            DkItem::Hist3d(c) => match c {
                Cow::Owned(v) => v.write(out),
                Cow::Borrowed(v) => v.write(out),
            },
            DkItem::Hist4d(c) => match c {
                Cow::Owned(v) => v.write(out),
                Cow::Borrowed(v) => v.write(out),
            },
            DkItem::Points1d(c) => match c {
                Cow::Owned(v) => v.write(out),
                Cow::Borrowed(v) => v.write(out),
            },
            DkItem::Points2d(c) => match c {
                Cow::Owned(v) => v.write(out),
                Cow::Borrowed(v) => v.write(out),
            },
            DkItem::Points3d(c) => match c {
                Cow::Owned(v) => v.write(out),
                Cow::Borrowed(v) => v.write(out),
            },
            DkItem::Points4d(c) => match c {
                Cow::Owned(v) => v.write(out),
                Cow::Borrowed(v) => v.write(out),
            },
            DkItem::Cut1d(c) => match c {
                Cow::Owned(v) => v.write(out),
                Cow::Borrowed(v) => v.write(out),
            },
            DkItem::Cut2d(c) => match c {
                Cow::Owned(v) => v.write(out),
                Cow::Borrowed(v) => v.write(out),
            },
        }
        proof {
            let m = DkItem::model(*self);
            assert(final(out)@ =~= old(out)@ + Self::ser(m));
        }
    }

    fn read(bytes: &[u8], pos: usize) -> (r: Result<(DkItem<'a>, usize), DkError>) {
        let (tag, at) = match u32::read(bytes, pos) {
            Ok(x) => x,
            Err(e) => {
                return Err(e);
            },
        };
        match DkType::from_tag(tag) {
            None => Err(DkError::InvalidFormat),
            Some(DkType::Run) => read_run(bytes, at),
            Some(DkType::Hist1d) => read_hist_1d(bytes, at),
            Some(DkType::Hist2d) => read_hist_2d(bytes, at),
            Some(DkType::Hist3d) => read_hist_3d(bytes, at),
            Some(DkType::Hist4d) => read_hist_4d(bytes, at),
            Some(DkType::Points1d) => read_points_1d(bytes, at),
            Some(DkType::Points2d) => read_points_2d(bytes, at),
            Some(DkType::Points3d) => read_points_3d(bytes, at),
            Some(DkType::Points4d) => read_points_4d(bytes, at),
            Some(DkType::Cut1d) => read_cut_1d(bytes, at),
            Some(DkType::Cut2d) => read_cut_2d(bytes, at),
        }
    }
}

} // verus!
