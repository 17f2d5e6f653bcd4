//! What the tools do with the items of containers: adding up items of
//! the same name, and integrating histograms.

use crate::cut::Cut;
use crate::error::DkError;
use crate::hist::integrate::{integral_1d, integral_2d};
use crate::hist::{add_checked, added, sum_of, total, Hist, Hist1d, Hist2d, Hist3d, Hist4d};
use crate::io::container::{lemma_place_of, place_of, Entry};
use crate::io::{Datakiste, DkItem, ItemModel};
use crate::points::{Points, Points1d, Points2d, Points3d, Points4d};
use crate::wire::{models, Wire};
use std::borrow::Cow;
use vstd::prelude::*;

verus! {

/// The histogram that `src` is added to: `dst`, or where there is none, a
/// histogram with the axes of `src` whose counts are all 0.
pub open spec fn base_of<H: Hist>(dst: Option<(H::Axes, Seq<u64>)>, src: (H::Axes, Seq<u64>)) -> (
    H::Axes,
    Seq<u64>,
) {
    match dst {
        Some(d) => d,
        None => (src.0, Seq::new(H::cells(src.0) as nat, |i: int| 0u64)),
    }
}

/// The histogram `dst`, or an empty one, with `src` added to it. Both must
/// be well formed, and all their counts together at most `u64::MAX`.
pub open spec fn grown<H: Hist>(dst: Option<(H::Axes, Seq<u64>)>, src: (H::Axes, Seq<u64>))
    -> Result<(H::Axes, Seq<u64>), DkError> {
    let base = base_of::<H>(dst, src);
    if H::axes_wf(base.0) && base.1.len() == H::cells(base.0) && H::axes_wf(src.0)
        && src.1.len() == H::cells(src.0) && total(base.1) + total(src.1) <= u64::MAX {
        Ok((base.0, added::<H>(base.0, base.1, src.0, src.1)))
    } else {
        Err(DkError::ConstraintViolation)
    }
}

/// The entries with `item` put in the place `at`, or behind all others.
pub open spec fn placed(entries: Seq<Entry>, at: Option<int>, name: Seq<char>, item: ItemModel)
    -> Seq<Entry> {
    match at {
        Some(i) => entries.update(i, (name, item)),
        None => entries.push((name, item)),
    }
}

/// The entries after `item` was combined with the item of the name `name`.
///
/// Histograms are added up, on the axes of the one that was there first,
/// and sets of points are joined. An item of a new name comes last. Runs
/// and cuts cannot be combined, nor can items of two types:
/// `TypeMismatch`.
pub open spec fn combined(entries: Seq<Entry>, name: Seq<char>, item: ItemModel) -> Result<
    Seq<Entry>,
    DkError,
> {
    let at = place_of(entries, name);
    match item {
        ItemModel::Run(_) | ItemModel::Cut1d(_) | ItemModel::Cut2d(_) => Err(
            DkError::TypeMismatch,
        ),
        ItemModel::Hist1d(h) => match at {
            None => match grown::<Hist1d>(None, h) {
                Ok(m) => Ok(placed(entries, at, name, ItemModel::Hist1d(m))),
                Err(e) => Err(e),
            },
            Some(i) => match entries[i].1 {
                ItemModel::Hist1d(d) => match grown::<Hist1d>(Some(d), h) {
                    Ok(m) => Ok(placed(entries, at, name, ItemModel::Hist1d(m))),
                    Err(e) => Err(e),
                },
                _ => Err(DkError::TypeMismatch),
            },
        },
        ItemModel::Hist2d(h) => match at {
            None => match grown::<Hist2d>(None, h) {
                Ok(m) => Ok(placed(entries, at, name, ItemModel::Hist2d(m))),
                Err(e) => Err(e),
            },
            Some(i) => match entries[i].1 {
                ItemModel::Hist2d(d) => match grown::<Hist2d>(Some(d), h) {
                    Ok(m) => Ok(placed(entries, at, name, ItemModel::Hist2d(m))),
                    Err(e) => Err(e),
                },
                _ => Err(DkError::TypeMismatch),
            },
        },
        ItemModel::Hist3d(h) => match at {
            None => match grown::<Hist3d>(None, h) {
                Ok(m) => Ok(placed(entries, at, name, ItemModel::Hist3d(m))),
                Err(e) => Err(e),
            },
            Some(i) => match entries[i].1 {
                ItemModel::Hist3d(d) => match grown::<Hist3d>(Some(d), h) {
                    Ok(m) => Ok(placed(entries, at, name, ItemModel::Hist3d(m))),
                    Err(e) => Err(e),
                },
                _ => Err(DkError::TypeMismatch),
            },
        },
        ItemModel::Hist4d(h) => match at {
            None => match grown::<Hist4d>(None, h) {
                Ok(m) => Ok(placed(entries, at, name, ItemModel::Hist4d(m))),
                Err(e) => Err(e),
            },
            Some(i) => match entries[i].1 {
                ItemModel::Hist4d(d) => match grown::<Hist4d>(Some(d), h) {
                    Ok(m) => Ok(placed(entries, at, name, ItemModel::Hist4d(m))),
                    Err(e) => Err(e),
                },
                _ => Err(DkError::TypeMismatch),
            },
        },
        ItemModel::Points1d(p) => match at {
            None => Ok(placed(entries, at, name, ItemModel::Points1d(p))),
            Some(i) => match entries[i].1 {
                ItemModel::Points1d(d) => Ok(placed(entries, at, name, ItemModel::Points1d(d + p))),
                _ => Err(DkError::TypeMismatch),
            },
        },
        ItemModel::Points2d(p) => match at {
            None => Ok(placed(entries, at, name, ItemModel::Points2d(p))),
            Some(i) => match entries[i].1 {
                ItemModel::Points2d(d) => Ok(placed(entries, at, name, ItemModel::Points2d(d + p))),
                _ => Err(DkError::TypeMismatch),
            },
        },
        ItemModel::Points3d(p) => match at {
            None => Ok(placed(entries, at, name, ItemModel::Points3d(p))),
            Some(i) => match entries[i].1 {
                ItemModel::Points3d(d) => Ok(placed(entries, at, name, ItemModel::Points3d(d + p))),
                _ => Err(DkError::TypeMismatch),
            },
        },
        ItemModel::Points4d(p) => match at {
            None => Ok(placed(entries, at, name, ItemModel::Points4d(p))),
            Some(i) => match entries[i].1 {
                ItemModel::Points4d(d) => Ok(placed(entries, at, name, ItemModel::Points4d(d + p))),
                _ => Err(DkError::TypeMismatch),
            },
        },
    }
}

/// Putting back what an entry holds leaves the entries as they are.
pub proof fn lemma_placed_back(entries: Seq<Entry>, name: Seq<char>)
    requires
        place_of(entries, name) is Some,
    ensures
        entries.update(
            place_of(entries, name)->Some_0,
            (name, entries[place_of(entries, name)->Some_0].1),
        ) == entries,
{
    lemma_place_of(entries, name);
    let i = place_of(entries, name)->Some_0;
    assert(entries.update(i, (name, entries[i].1)) =~= entries);
}

impl<'a> Datakiste<'a> {
    /// Combines `item` with the item of the name `name`: histograms are
    /// added up, and sets of points are joined. An item of a new name comes
    /// last.
    ///
    /// Fails with `TypeMismatch` for a run, for a cut and for two items of
    /// different types, and with `ConstraintViolation` for histograms that are not
    /// well formed or whose counts together are more than `u64::MAX`. The
    /// container then holds what it held.
    pub fn combine(&mut self, name: String, item: DkItem<'a>) -> (r: Result<(), DkError>)
        ensures
            final(self).spec_version() == old(self).spec_version(),
            match combined(old(self).entries(), name@, item.model()) {
                Ok(es) => r is Ok && final(self).entries() == es,
                Err(e) => r == Err::<(), DkError>(e) && final(self).entries() == old(
                    self,
                ).entries(),
            },
    {
        match item {
            DkItem::Run(_) | DkItem::Cut1d(_) | DkItem::Cut2d(_) => Err(DkError::TypeMismatch),
            DkItem::Hist1d(c) => match &c {
                Cow::Owned(h) => self.add_hist_1d(name, h),
                Cow::Borrowed(h) => self.add_hist_1d(name, *h),
            },
            DkItem::Hist2d(c) => match &c {
                Cow::Owned(h) => self.add_hist_2d(name, h),
                Cow::Borrowed(h) => self.add_hist_2d(name, *h),
            },
            DkItem::Hist3d(c) => match &c {
                Cow::Owned(h) => self.add_hist_3d(name, h),
                Cow::Borrowed(h) => self.add_hist_3d(name, *h),
            },
            DkItem::Hist4d(c) => match &c {
                Cow::Owned(h) => self.add_hist_4d(name, h),
                Cow::Borrowed(h) => self.add_hist_4d(name, *h),
            },
            DkItem::Points1d(c) => match &c {
                Cow::Owned(p) => self.add_points_1d(name, p),
                Cow::Borrowed(p) => self.add_points_1d(name, *p),
            },
            DkItem::Points2d(c) => match &c {
                Cow::Owned(p) => self.add_points_2d(name, p),
                Cow::Borrowed(p) => self.add_points_2d(name, *p),
            },
            DkItem::Points3d(c) => match &c {
                Cow::Owned(p) => self.add_points_3d(name, p),
                Cow::Borrowed(p) => self.add_points_3d(name, *p),
            },
            DkItem::Points4d(c) => match &c {
                Cow::Owned(p) => self.add_points_4d(name, p),
                Cow::Borrowed(p) => self.add_points_4d(name, *p),
            },
        }
    }

    /// Adds the histogram `h` to the item of the name `name`.
    fn add_hist_1d(&mut self, name: String, h: &Hist1d) -> (r: Result<(), DkError>)
        ensures
            final(self).spec_version() == old(self).spec_version(),
            match combined(old(self).entries(), name@, ItemModel::Hist1d(h.model())) {
                Ok(es) => r is Ok && final(self).entries() == es,
                Err(e) => r == Err::<(), DkError>(e) && final(self).entries() == old(
                    self,
                ).entries(),
            },
    {
        proof {
            lemma_place_of(self.entries(), name@);
            if place_of(self.entries(), name@) is Some {
                lemma_placed_back(self.entries(), name@);
            }
        }
        match self.get_mut(name.as_str()) {
            Ok(slot) => match slot.as_hist_1d_mut() {
                Some(d) => add_checked(d, h),
                None => Err(DkError::TypeMismatch),
            },
            Err(_) => {
                let a = h.axes();
                match Hist1d::new(a.bins, a.min, a.max) {
                    Some(empty) => {
                        let mut sum = empty;
                        proof {
                            if Hist1d::axes_wf(h.spec_axes()) {
                                assert(sum.spec_counts() =~= Seq::new(
                                    Hist1d::cells(h.spec_axes()) as nat,
                                    |i: int| 0u64,
                                ));
                            }
                        }
                        match add_checked(&mut sum, h) {
                            Ok(()) => {
                                self.insert(name, DkItem::Hist1d(Cow::Owned(sum)));
                                Ok(())
                            },
                            Err(e) => Err(e),
                        }
                    },
                    None => Err(DkError::ConstraintViolation),
                }
            },
        }
    }

    /// Adds the histogram `h` to the item of the name `name`.
    fn add_hist_2d(&mut self, name: String, h: &Hist2d) -> (r: Result<(), DkError>)
        ensures
            final(self).spec_version() == old(self).spec_version(),
            match combined(old(self).entries(), name@, ItemModel::Hist2d(h.model())) {
                Ok(es) => r is Ok && final(self).entries() == es,
                Err(e) => r == Err::<(), DkError>(e) && final(self).entries() == old(
                    self,
                ).entries(),
            },
    {
        proof {
            lemma_place_of(self.entries(), name@);
            if place_of(self.entries(), name@) is Some {
                lemma_placed_back(self.entries(), name@);
            }
        }
        match self.get_mut(name.as_str()) {
            Ok(slot) => match slot.as_hist_2d_mut() {
                Some(d) => add_checked(d, h),
                None => Err(DkError::TypeMismatch),
            },
            Err(_) => {
                let a = h.axes();
                match Hist2d::new(a.0.bins, a.0.min, a.0.max, a.1.bins, a.1.min, a.1.max) {
                    Some(empty) => {
                        let mut sum = empty;
                        proof {
                            if Hist2d::axes_wf(h.spec_axes()) {
                                assert(sum.spec_counts() =~= Seq::new(
                                    Hist2d::cells(h.spec_axes()) as nat,
                                    |i: int| 0u64,
                                ));
                            }
                        }
                        match add_checked(&mut sum, h) {
                            Ok(()) => {
                                self.insert(name, DkItem::Hist2d(Cow::Owned(sum)));
                                Ok(())
                            },
                            Err(e) => Err(e),
                        }
                    },
                    None => Err(DkError::ConstraintViolation),
                }
            },
        }
    }

    /// Adds the histogram `h` to the item of the name `name`.
    fn add_hist_3d(&mut self, name: String, h: &Hist3d) -> (r: Result<(), DkError>)
        ensures
            final(self).spec_version() == old(self).spec_version(),
            match combined(old(self).entries(), name@, ItemModel::Hist3d(h.model())) {
                Ok(es) => r is Ok && final(self).entries() == es,
                Err(e) => r == Err::<(), DkError>(e) && final(self).entries() == old(
                    self,
                ).entries(),
            },
    {
        proof {
            lemma_place_of(self.entries(), name@);
            if place_of(self.entries(), name@) is Some {
                lemma_placed_back(self.entries(), name@);
            }
        }
        match self.get_mut(name.as_str()) {
            Ok(slot) => match slot.as_hist_3d_mut() {
                Some(d) => add_checked(d, h),
                None => Err(DkError::TypeMismatch),
            },
            Err(_) => {
                let a = h.axes();
                match Hist3d::new(a.0.bins, a.0.min, a.0.max, a.1.bins, a.1.min, a.1.max, a.2.bins, a.2.min, a.2.max) {
                    Some(empty) => {
                        let mut sum = empty;
                        proof {
                            if Hist3d::axes_wf(h.spec_axes()) {
                                assert(sum.spec_counts() =~= Seq::new(
                                    Hist3d::cells(h.spec_axes()) as nat,
                                    |i: int| 0u64,
                                ));
                            }
                        }
                        match add_checked(&mut sum, h) {
                            Ok(()) => {
                                self.insert(name, DkItem::Hist3d(Cow::Owned(sum)));
                                Ok(())
                            },
                            Err(e) => Err(e),
                        }
                    },
                    None => Err(DkError::ConstraintViolation),
                }
            },
        }
    }

    /// Adds the histogram `h` to the item of the name `name`.
    fn add_hist_4d(&mut self, name: String, h: &Hist4d) -> (r: Result<(), DkError>)
        ensures
            final(self).spec_version() == old(self).spec_version(),
            match combined(old(self).entries(), name@, ItemModel::Hist4d(h.model())) {
                Ok(es) => r is Ok && final(self).entries() == es,
                Err(e) => r == Err::<(), DkError>(e) && final(self).entries() == old(
                    self,
                ).entries(),
            },
    {
        proof {
            lemma_place_of(self.entries(), name@);
            if place_of(self.entries(), name@) is Some {
                lemma_placed_back(self.entries(), name@);
            }
        }
        match self.get_mut(name.as_str()) {
            Ok(slot) => match slot.as_hist_4d_mut() {
                Some(d) => add_checked(d, h),
                None => Err(DkError::TypeMismatch),
            },
            Err(_) => {
                let a = h.axes();
                match Hist4d::new(a.0.bins, a.0.min, a.0.max, a.1.bins, a.1.min, a.1.max, a.2.bins, a.2.min, a.2.max, a.3.bins, a.3.min, a.3.max) {
                    Some(empty) => {
                        let mut sum = empty;
                        proof {
                            if Hist4d::axes_wf(h.spec_axes()) {
                                assert(sum.spec_counts() =~= Seq::new(
                                    Hist4d::cells(h.spec_axes()) as nat,
                                    |i: int| 0u64,
                                ));
                            }
                        }
                        match add_checked(&mut sum, h) {
                            Ok(()) => {
                                self.insert(name, DkItem::Hist4d(Cow::Owned(sum)));
                                Ok(())
                            },
                            Err(e) => Err(e),
                        }
                    },
                    None => Err(DkError::ConstraintViolation),
                }
            },
        }
    }

    /// Joins the points `p` to the item of the name `name`.
    fn add_points_1d(&mut self, name: String, p: &Points1d) -> (r: Result<(), DkError>)
        ensures
            final(self).spec_version() == old(self).spec_version(),
            match combined(old(self).entries(), name@, ItemModel::Points1d(p.model())) {
                Ok(es) => r is Ok && final(self).entries() == es,
                Err(e) => r == Err::<(), DkError>(e) && final(self).entries() == old(
                    self,
                ).entries(),
            },
    {
        proof {
            lemma_place_of(self.entries(), name@);
            if place_of(self.entries(), name@) is Some {
                lemma_placed_back(self.entries(), name@);
            }
        }
        match self.get_mut(name.as_str()) {
            Ok(slot) => match slot.as_points_1d_mut() {
                Some(d) => {
                    let ghost before = d.spec_points();
                    d.add(p);
                    proof {
                        assert(models::<i64>(before + p.spec_points()) =~= models::<i64>(
                            before,
                        ) + models::<i64>(p.spec_points()));
                    }
                    Ok(())
                },
                None => Err(DkError::TypeMismatch),
            },
            Err(_) => {
                let copy: Points1d = p.clone();
                self.insert(name, DkItem::Points1d(Cow::Owned(copy)));
                Ok(())
            },
        }
    }

    /// Joins the points `p` to the item of the name `name`.
    fn add_points_2d(&mut self, name: String, p: &Points2d) -> (r: Result<(), DkError>)
        ensures
            final(self).spec_version() == old(self).spec_version(),
            match combined(old(self).entries(), name@, ItemModel::Points2d(p.model())) {
                Ok(es) => r is Ok && final(self).entries() == es,
                Err(e) => r == Err::<(), DkError>(e) && final(self).entries() == old(
                    self,
                ).entries(),
            },
    {
        proof {
            lemma_place_of(self.entries(), name@);
            if place_of(self.entries(), name@) is Some {
                lemma_placed_back(self.entries(), name@);
            }
        }
        match self.get_mut(name.as_str()) {
            Ok(slot) => match slot.as_points_2d_mut() {
                Some(d) => {
                    let ghost before = d.spec_points();
                    d.add(p);
                    proof {
                        assert(models::<(i64, i64)>(before + p.spec_points()) =~= models::<(i64, i64)>(
                            before,
                        ) + models::<(i64, i64)>(p.spec_points()));
                    }
                    Ok(())
                },
                None => Err(DkError::TypeMismatch),
            },
            Err(_) => {
                let copy: Points2d = p.clone();
                self.insert(name, DkItem::Points2d(Cow::Owned(copy)));
                Ok(())
            },
        }
    }

    /// Joins the points `p` to the item of the name `name`.
    fn add_points_3d(&mut self, name: String, p: &Points3d) -> (r: Result<(), DkError>)
        ensures
            final(self).spec_version() == old(self).spec_version(),
            match combined(old(self).entries(), name@, ItemModel::Points3d(p.model())) {
                Ok(es) => r is Ok && final(self).entries() == es,
                Err(e) => r == Err::<(), DkError>(e) && final(self).entries() == old(
                    self,
                ).entries(),
            },
    {
        proof {
            lemma_place_of(self.entries(), name@);
            if place_of(self.entries(), name@) is Some {
                lemma_placed_back(self.entries(), name@);
            }
        }
        match self.get_mut(name.as_str()) {
            Ok(slot) => match slot.as_points_3d_mut() {
                Some(d) => {
                    let ghost before = d.spec_points();
                    d.add(p);
                    proof {
                        assert(models::<(i64, i64, i64)>(before + p.spec_points()) =~= models::<(i64, i64, i64)>(
                            before,
                        ) + models::<(i64, i64, i64)>(p.spec_points()));
                    }
                    Ok(())
                },
                None => Err(DkError::TypeMismatch),
            },
            Err(_) => {
                let copy: Points3d = p.clone();
                self.insert(name, DkItem::Points3d(Cow::Owned(copy)));
                Ok(())
            },
        }
    }

    /// Joins the points `p` to the item of the name `name`.
    fn add_points_4d(&mut self, name: String, p: &Points4d) -> (r: Result<(), DkError>)
        ensures
            final(self).spec_version() == old(self).spec_version(),
            match combined(old(self).entries(), name@, ItemModel::Points4d(p.model())) {
                Ok(es) => r is Ok && final(self).entries() == es,
                Err(e) => r == Err::<(), DkError>(e) && final(self).entries() == old(
                    self,
                ).entries(),
            },
    {
        proof {
            lemma_place_of(self.entries(), name@);
            if place_of(self.entries(), name@) is Some {
                lemma_placed_back(self.entries(), name@);
            }
        }
        match self.get_mut(name.as_str()) {
            Ok(slot) => match slot.as_points_4d_mut() {
                Some(d) => {
                    let ghost before = d.spec_points();
                    d.add(p);
                    proof {
                        assert(models::<(i64, i64, i64, i64)>(before + p.spec_points()) =~= models::<(i64, i64, i64, i64)>(
                            before,
                        ) + models::<(i64, i64, i64, i64)>(p.spec_points()));
                    }
                    Ok(())
                },
                None => Err(DkError::TypeMismatch),
            },
            Err(_) => {
                let copy: Points4d = p.clone();
                self.insert(name, DkItem::Points4d(Cow::Owned(copy)));
                Ok(())
            },
        }
    }

}

/// The sum of all counts of the item: of a histogram that is well formed
/// and whose counts sum up to `u64::MAX` at most. An item that is no
/// histogram has none: `TypeMismatch`.
pub open spec fn counts_of(item: ItemModel) -> Result<u64, DkError> {
    let counts = match item {
        ItemModel::Hist1d(h) => Some(h.1),
        ItemModel::Hist2d(h) => Some(h.1),
        ItemModel::Hist3d(h) => Some(h.1),
        ItemModel::Hist4d(h) => Some(h.1),
        _ => None,
    };
    match counts {
        None => Err(DkError::TypeMismatch),
        Some(c) => if total(c) <= u64::MAX {
            Ok(total(c) as u64)
        } else {
            Err(DkError::ConstraintViolation)
        },
    }
}

/// The counts of the item that lie in the cut: of a histogram of one
/// dimension in a cut of one, or of a histogram of two in a cut of two.
/// Any other pair does not fit: `TypeMismatch`. The histogram must be well
/// formed, and the counts at most `u64::MAX`.
pub open spec fn counts_in(item: ItemModel, cut: Cut) -> Result<u64, DkError> {
    match (item, cut) {
        (ItemModel::Hist1d(h), Cut::Cut1d(c)) => {
            let sum = integral_1d(h.0, h.1, c, h.1.len() as int);
            if Hist1d::axes_wf(h.0) && h.1.len() == Hist1d::cells(h.0) && sum <= u64::MAX {
                Ok(sum as u64)
            } else {
                Err(DkError::ConstraintViolation)
            }
        },
        (ItemModel::Hist2d(h), Cut::Cut2d(c)) => {
            let sum = integral_2d(h.0, h.1, c, h.1.len() as int);
            if Hist2d::axes_wf(h.0) && h.1.len() == Hist2d::cells(h.0) && sum <= u64::MAX {
                Ok(sum as u64)
            } else {
                Err(DkError::ConstraintViolation)
            }
        },
        _ => Err(DkError::TypeMismatch),
    }
}

impl<'a> DkItem<'a> {
    /// Returns the sum of all counts of a histogram.
    pub fn total_counts(&self) -> (r: Result<u64, DkError>)
        ensures
            r == counts_of(self.model()),
    {
        let sum: Option<u64> = match self {
            DkItem::Hist1d(c) => match c {
                Cow::Owned(h) => sum_of(h.counts()),
                Cow::Borrowed(h) => sum_of(h.counts()),
            },
            DkItem::Hist2d(c) => match c {
                Cow::Owned(h) => sum_of(h.counts()),
                Cow::Borrowed(h) => sum_of(h.counts()),
            },
            DkItem::Hist3d(c) => match c {
                Cow::Owned(h) => sum_of(h.counts()),
                Cow::Borrowed(h) => sum_of(h.counts()),
            },
            DkItem::Hist4d(c) => match c {
                Cow::Owned(h) => sum_of(h.counts()),
                Cow::Borrowed(h) => sum_of(h.counts()),
            },
            _ => {
                return Err(DkError::TypeMismatch);
            },
        };
        match sum {
            Some(s) => Ok(s),
            None => Err(DkError::ConstraintViolation),
        }
    }

    /// Returns the counts of a histogram that lie in `cut`.
    pub fn integrate(&self, cut: &Cut) -> (r: Result<u64, DkError>)
        ensures
            r == counts_in(self.model(), *cut),
    {
        match (self, cut) {
            (DkItem::Hist1d(h), Cut::Cut1d(c)) => {
                let h: &Hist1d = match h {
                    Cow::Owned(v) => v,
                    Cow::Borrowed(v) => *v,
                };
                if !h.is_valid() {
                    return Err(DkError::ConstraintViolation);
                }
                match h.try_integrate(c) {
                    Some(s) => Ok(s),
                    None => Err(DkError::ConstraintViolation),
                }
            },
            (DkItem::Hist2d(h), Cut::Cut2d(c)) => {
                let h: &Hist2d = match h {
                    Cow::Owned(v) => v,
                    Cow::Borrowed(v) => *v,
                };
                if !h.is_valid() {
                    return Err(DkError::ConstraintViolation);
                }
                match h.try_integrate(c) {
                    Some(s) => Ok(s),
                    None => Err(DkError::ConstraintViolation),
                }
            },
            _ => Err(DkError::TypeMismatch),
        }
    }
}

} // verus!
