use datakiste::hist::{Hist, Hist1d};
use datakiste::io::DkItem;
use std::borrow::Cow;
use std::collections::HashMap;

#[test]
fn dk_item_unpacking_1() {
    let mut m = HashMap::<String, DkItem>::new();
    let h = Hist1d::new(1, 0, 1).unwrap();
    m.insert("1".to_string(), DkItem::Hist1d(Cow::Owned(h)));
    let h = Hist1d::new(3, 0, 3).unwrap();
    m.insert("2".to_string(), DkItem::Hist1d(Cow::Owned(h)));

    for (_n, i) in &m {
        let _h = i.as_hist_1d().unwrap();
    }

    for (_n, i) in &mut m {
        let _h = i.as_hist_1d().unwrap();
        let h = i.as_hist_1d_mut().unwrap();
        h.fill(1);
    }

    for (_n, mut i) in m {
        let _h = i.as_hist_1d().unwrap();
        let h = i.as_hist_1d_mut().unwrap();
        h.fill(1);
        let mut h = i.into_hist_1d().unwrap();
        h.fill(1);
    }
}

#[test]
fn dk_item_unpacking_2() {
    let mut m = HashMap::<String, DkItem>::new();
    let h = Hist1d::new(1, 0, 1).unwrap();
    m.insert("1".to_string(), DkItem::Hist1d(Cow::Owned(h)));
    let h = Hist1d::new(3, 0, 3).unwrap();
    m.insert("2".to_string(), DkItem::Hist1d(Cow::Owned(h)));

    let _h = m["1"].as_hist_1d().unwrap();
    let h = m.get_mut("1").unwrap().as_hist_1d_mut().unwrap();
    h.fill(1);
    let mut h = m.remove("1").unwrap().into_hist_1d().unwrap();
    h.fill(1);

    let _h = m["2"].as_hist_1d().unwrap();
    let h = m.get_mut("2").unwrap().as_hist_1d_mut().unwrap();
    h.fill(1);
    let mut h = m.remove("2").unwrap().into_hist_1d().unwrap();
    h.fill(1);
}

#[test]
fn dk_item_unpacking_3() {
    let h1 = Hist1d::new(1, 0, 1).unwrap();
    let h2 = Hist1d::new(3, 0, 3).unwrap();
    let mut m = HashMap::<String, DkItem>::new();
    m.insert("1".to_string(), DkItem::Hist1d(Cow::Borrowed(&h1)));
    m.insert("2".to_string(), DkItem::Hist1d(Cow::Borrowed(&h2)));

    let _h = m["1"].as_hist_1d().unwrap();
    let h = m.get_mut("1").unwrap().as_hist_1d_mut().unwrap();
    h.fill(1);
    let mut h = m.remove("1").unwrap().into_hist_1d().unwrap();
    h.fill(1);

    let _h = m["2"].as_hist_1d().unwrap();
    let h = m.get_mut("2").unwrap().as_hist_1d_mut().unwrap();
    h.fill(1);
    let mut h = m.remove("2").unwrap().into_hist_1d().unwrap();
    h.fill(1);
}

#[test]
fn a_borrowed_value_is_copied_when_written_to() {
    let h = Hist1d::new(3, 0, 3).unwrap();
    let mut item = DkItem::from(&h);
    assert!(matches!(item, DkItem::Hist1d(Cow::Borrowed(_))));
    assert_eq!(item.as_hist_1d().unwrap().counts(), &[0, 0, 0]);
    assert!(matches!(item, DkItem::Hist1d(Cow::Borrowed(_))));
    item.as_hist_1d_mut().unwrap().fill(1);
    assert!(matches!(item, DkItem::Hist1d(Cow::Owned(_))));
    assert_eq!(item.as_hist_1d().unwrap().counts(), &[0, 1, 0]);
    assert_eq!(h.counts(), &[0, 0, 0]);
    assert!(item.as_hist_2d().is_none());
    assert!(item.as_hist_2d_mut().is_none());
    assert!(item.as_run().is_none());
    assert!(item.as_points_1d_mut().is_none());
    assert_eq!(item.into_hist_1d().unwrap().counts(), &[0, 1, 0]);
    let item = DkItem::from(&h);
    assert!(item.into_points_4d().is_none());
}
