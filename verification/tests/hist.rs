use datakiste::error::DkError;
use datakiste::hist::fuzz::{add_redrawn_checked, can_be_redrawn, fill_all, Redraw, Source};
use datakiste::hist::{add_checked, sum_of, Hist, Hist1d, Hist2d, Hist3d, Hist4d, HistAxis};

#[test]
fn hist_1d_construct() {
    let h = Hist1d::new(3, 0, 3).unwrap();
    assert_eq!(h.counts(), &[0, 0, 0]);
    let h = Hist1d::with_counts(3, 0, 3, vec![2, 1, 0]).unwrap();
    assert_eq!(h.counts(), &[2, 1, 0]);
}

#[test]
fn hist_1d_fill() {
    let mut h = Hist1d::new(3, 0, 3).unwrap();
    h.fill_at_val(0);
    h.fill_at_val(1);
    h.fill_at_val(-1);
    assert_eq!(h.counts(), &[2, 1, 0]);
}

#[test]
fn hist_1d_swap_min_max() {
    let h1 = Hist1d::new(1, 100, -10).unwrap();
    let h2 = Hist1d::new(1, -10, 100).unwrap();
    assert_eq!(h1, h2);
}

#[test]
fn hist_1d_zero_size() {
    let h = Hist1d::new(0, 0, 100);
    assert!(h.is_none());
}

#[test]
fn hist_1d_bin_width() {
    let h = Hist1d::new(1, 0, 100).unwrap();
    let axes = h.axes();
    assert_eq!(axes.bin_width(), 100);

    let h = Hist1d::new(1, 0, 0).unwrap();
    let axes = h.axes();
    assert_eq!(axes.bin_width(), 0);

    let h = Hist1d::new(0, 0, 0);
    assert!(h.is_none());

    let h = Hist1d::new(0, 0, 100);
    assert!(h.is_none());
}

#[test]
fn hist_1d_add() {
    // values in hundredths, so that the middle of every bin is a whole number
    let mut h1a = Hist1d::with_counts(5, 0, 1000, vec![2, 3, 50, 4, 1]).unwrap();
    let mut h2a =
        Hist1d::with_counts(10, 500, 1000, vec![0, 0, 5, 15, 16, 10, 9, 20, 8, 12]).unwrap();

    let h1b = h1a.clone();
    let h2b = h2a.clone();

    h1a.add(&h2b);
    h2a.add(&h1b);

    assert_eq!(h1a.counts(), &[2, 3, 50, 50, 50]);
    assert_eq!(h2a.counts(), &[55, 0, 5, 15, 20, 10, 9, 20, 9, 12]);
    assert_eq!(h1b.counts(), &[2, 3, 50, 4, 1]);
    assert_eq!(h2b.counts(), &[0, 0, 5, 15, 16, 10, 9, 20, 8, 12]);
}

#[test]
fn axis_bins_clamp_outside_values() {
    let a = HistAxis::new(4, -20, 20).unwrap();
    assert_eq!(a.bin_at_val(i64::MIN), 0);
    assert_eq!(a.bin_at_val(-21), 0);
    assert_eq!(a.bin_at_val(-20), 0);
    assert_eq!(a.bin_at_val(-11), 0);
    assert_eq!(a.bin_at_val(-10), 1);
    assert_eq!(a.bin_at_val(0), 2);
    assert_eq!(a.bin_at_val(19), 3);
    assert_eq!(a.bin_at_val(20), 3);
    assert_eq!(a.bin_at_val(i64::MAX), 3);
}

#[test]
fn axis_formula_rounds_down() {
    // 7 bins over 10 ticks: bin = floor(7 * v / 10)
    let a = HistAxis::new(7, 0, 10).unwrap();
    let bins: Vec<usize> = (0..10).map(|v| a.bin_at_val(v)).collect();
    assert_eq!(bins, vec![0, 0, 1, 2, 2, 3, 4, 4, 5, 6]);
    assert_eq!(a.val_at_bin_min(1), 2);
    assert_eq!(a.val_at_bin_max(1), 3);
    assert_eq!(a.val_at_bin_min(2), 3);
    assert_eq!(a.val_at_bin_max(2), 5);
    assert_eq!(a.val_at_bin_mid(2), 4);
    assert_eq!(a.val_at_bin_max(6), 10);
}

#[test]
fn axis_over_the_whole_range() {
    let a = HistAxis::new(u32::MAX, i64::MIN, i64::MAX).unwrap();
    assert_eq!(a.bin_at_val(i64::MIN), 0);
    assert_eq!(a.bin_at_val(i64::MAX), (u32::MAX - 1) as usize);
    assert_eq!(a.bin_at_val(0), ((u32::MAX as u128 * (1u128 << 63)) / (u64::MAX as u128)) as usize);
    assert_eq!(a.val_at_bin_min(0), i64::MIN);
    assert_eq!(a.val_at_bin_max((u32::MAX - 1) as usize), i64::MAX);
}

#[test]
fn axis_round_trip_on_bins_with_values() {
    for (bins, min, max) in [(3u32, 0i64, 3i64), (7, -5, 40), (10, 0, 1000), (4, 0, 2), (1, 5, 5)] {
        let a = HistAxis::new(bins, min, max).unwrap();
        for v in (min - 3)..(max + 3) {
            let b = a.bin_at_val(v);
            assert_eq!(a.bin_at_val(a.val_at_bin_mid(b)), b);
        }
    }
}

#[test]
fn axis_without_width() {
    assert!(HistAxis { bins: 1, min: 0, max: 0 }.is_valid());
    assert!(!HistAxis { bins: 0, min: 0, max: 1 }.is_valid());
    assert!(!HistAxis { bins: 1, min: 1, max: 0 }.is_valid());
    let a = HistAxis::new(3, 7, 7).unwrap();
    assert_eq!(a.bin_width(), 0);
    assert_eq!(a.bin_at_val(6), 0);
    assert_eq!(a.bin_at_val(7), 0);
    assert_eq!(a.bin_at_val(8), 2);
    let one = HistAxis::new(1, 7, 7).unwrap();
    assert_eq!(one.bin_at_val(6), 0);
    assert_eq!(one.bin_at_val(8), 0);
}

#[test]
fn index_and_bin_stand_for_each_other() {
    let h = Hist4d::new(2, 0, 2, 3, 0, 3, 4, 0, 4, 5, 0, 5).unwrap();
    assert_eq!(h.counts().len(), 120);
    assert_eq!(h.idx_at_bin((1, 2, 3, 4)), 119);
    assert_eq!(h.idx_at_bin((1, 0, 2, 3)), 5 * (4 * (3 * 1 + 0) + 2) + 3);
    for idx in 0..120 {
        assert_eq!(h.idx_at_bin(h.bin_at_idx(idx)), idx);
    }
    let h = Hist3d::new(2, 0, 2, 3, 0, 3, 4, 0, 4).unwrap();
    assert_eq!(h.bin_at_idx(23), (1, 2, 3));
    assert_eq!(h.bin_at_idx(13), (1, 0, 1));
    let h = Hist2d::new(2, 0, 2, 3, 0, 3).unwrap();
    assert_eq!(h.bin_at_idx(4), (1, 1));
    assert_eq!(h.idx_at_bin((1, 1)), 4);
}

#[test]
fn fill_is_row_major() {
    let mut h = Hist2d::new(2, 0, 4, 2, 0, 2).unwrap();
    h.fill((0, 0));
    h.fill((0, 1));
    h.fill_with_counts((3, 1), 4);
    h.fill_at_bin((0, 0));
    assert_eq!(h.counts(), &[2, 1, 0, 4]);
    assert_eq!(h.counts_at_val((3, 1)), 4);
    assert_eq!(h.counts_at_bin((0, 1)), 1);
    assert_eq!(h.val_at_idx(3), (3, 1));
}

#[test]
fn constructors_refuse_what_does_not_fit() {
    assert!(Hist2d::new(0, 0, 1, 1, 0, 1).is_none());
    assert!(Hist2d::new(1, 0, 1, 0, 0, 1).is_none());
    assert!(Hist2d::new(65536, 0, 1, 65536, 0, 1).is_none());
    assert!(Hist2d::with_counts(2, 0, 1, 2, 0, 1, vec![0; 3]).is_none());
    assert!(Hist2d::with_counts(2, 0, 1, 2, 0, 1, vec![0; 4]).is_some());
    assert!(Hist1d::with_counts(100, 0, 100, vec![]).is_none());
    assert!(Hist3d::with_counts(1, 0, 1, 2, 0, 1, 3, 0, 1, vec![0; 6]).is_some());
    assert!(Hist3d::new(2048, 0, 1, 2048, 0, 1, 1024, 0, 1).is_none());
    assert!(Hist4d::with_counts(1, 0, 1, 2, 0, 1, 3, 0, 1, 2, 0, 1, vec![0; 11]).is_none());
}

#[test]
fn clear_keeps_the_bins() {
    let mut h = Hist1d::with_counts(3, 0, 3, vec![2, 1, 7]).unwrap();
    h.clear();
    assert_eq!(h.counts(), &[0, 0, 0]);
    assert_eq!(h.axes(), &HistAxis { bins: 3, min: 0, max: 3 });
}

#[test]
fn add_with_same_axes_is_exact() {
    let src = Hist2d::with_counts(3, 0, 30, 2, -10, 10, vec![1, 2, 3, 4, 5, 6]).unwrap();
    let mut dst = Hist2d::with_counts(3, 0, 30, 2, -10, 10, vec![9, 9, 9, 9, 9, 9]).unwrap();
    dst.clear();
    dst.add(&src);
    assert_eq!(dst, src);
}

#[test]
fn add_fuzz_keeps_the_number_of_counts() {
    let src = Hist1d::with_counts(2, 0, 1000, vec![700, 300]).unwrap();
    let mut dst = Hist1d::with_counts(10, 0, 1000, vec![1; 10]).unwrap();
    dst.add_fuzz(&src);
    let total: u64 = dst.counts().iter().sum();
    assert_eq!(total, 1010);
    let low: u64 = dst.counts()[..5].iter().sum();
    let high: u64 = dst.counts()[5..].iter().sum();
    assert_eq!(low, 705);
    assert_eq!(high, 305);
    // the values are drawn from all over the bins
    assert!(dst.counts()[..5].iter().filter(|c| **c > 1).count() > 1);

    let src = Hist2d::with_counts(1, 0, 8, 1, 0, 8, vec![400]).unwrap();
    let mut dst = Hist2d::new(2, 0, 8, 2, 0, 8).unwrap();
    dst.add_fuzz(&src);
    assert_eq!(dst.counts().iter().sum::<u64>(), 400);
    assert!(dst.counts().iter().all(|c| *c > 0));
}

#[test]
fn checked_adding_refuses_what_does_not_fit() {
    let src = Hist1d::with_counts(2, 0, 1000, vec![700, 300]).unwrap();
    let mut dst = Hist1d::with_counts(2, 0, 1000, vec![u64::MAX - 999, 0]).unwrap();
    assert_eq!(add_checked(&mut dst, &src), Err(DkError::ConstraintViolation));
    assert_eq!(add_redrawn_checked(&mut dst, &src, &mut Source::unseeded()), Err(DkError::ConstraintViolation));
    assert_eq!(dst.counts(), &[u64::MAX - 999, 0]);
    let mut dst = Hist1d::with_counts(2, 0, 1000, vec![u64::MAX - 1000, 0]).unwrap();
    assert_eq!(add_redrawn_checked(&mut dst, &src, &mut Source::unseeded()), Ok(()));
    assert_eq!(dst.counts(), &[u64::MAX - 300, 300]);
    assert_eq!(sum_of(dst.counts()), Some(u64::MAX));
    assert_eq!(sum_of(&vec![u64::MAX, 1]), None);
    assert_eq!(sum_of(&vec![]), Some(0));

    // an axis without width holds no value to draw
    let flat = Hist1d::with_counts(1, 5, 5, vec![3]).unwrap();
    let mut dst = Hist1d::new(2, 0, 10).unwrap();
    assert!(!can_be_redrawn(&flat));
    assert_eq!(add_redrawn_checked(&mut dst, &flat, &mut Source::unseeded()), Err(DkError::ConstraintViolation));
    assert_eq!(add_checked(&mut dst, &flat), Ok(()));
    assert_eq!(dst.counts(), &[0, 3]);
    // bins that are narrower than a tick cannot all hold a value
    let narrow = Hist1d::with_counts(4, 0, 2, vec![1, 0, 1, 0]).unwrap();
    assert!(can_be_redrawn(&narrow));
    let narrow = Hist1d::with_counts(4, 0, 2, vec![0, 1, 0, 0]).unwrap();
    assert!(!can_be_redrawn(&narrow));

    // counts that are not one for each bin
    let mut broken = Hist1d::new(2, 0, 10).unwrap();
    broken.counts_mut().push(1);
    assert!(!broken.is_valid());
    assert_eq!(add_checked(&mut dst, &broken), Err(DkError::ConstraintViolation));
    assert!(Hist4d::new(1, 0, 1, 1, 0, 1, 1, 0, 1, 1, 0, 1).unwrap().is_valid());
}

#[test]
fn add_fuzz_reaches_only_the_bins_under_the_source() {
    // all counts of the source lie where the first value is below 1
    let src = Hist2d::with_counts(1, 0, 1, 2, 0, 2, vec![0, 5]).unwrap();
    let mut dst = Hist2d::new(2, 0, 2, 1, 0, 2).unwrap();
    dst.add_fuzz(&src);
    assert_eq!(dst.counts(), &[5, 0]);

    // each bin of the source lies within one bin of the target
    let src = Hist1d::with_counts(4, 0, 40, vec![1, 2, 3, 4]).unwrap();
    let mut dst = Hist1d::with_counts(2, 0, 40, vec![10, 20]).unwrap();
    dst.add_fuzz(&src);
    assert_eq!(dst.counts(), &[13, 27]);
}

#[test]
fn add_fuzz_with_same_axes_is_exact() {
    let src = Hist1d::with_counts(5, -10, 40, vec![3, 0, 2000, 1, 7]).unwrap();
    let mut dst = Hist1d::with_counts(5, -10, 40, vec![1, 1, 1, 1, 1]).unwrap();
    dst.add_fuzz(&src);
    assert_eq!(dst.counts(), &[4, 1, 2001, 2, 8]);

    let src = Hist2d::with_counts(2, 0, 7, 3, -5, 5, vec![1, 2, 3, 4, 5, 6]).unwrap();
    let mut dst = Hist2d::new(2, 0, 7, 3, -5, 5).unwrap();
    dst.add_fuzz(&src);
    assert_eq!(dst, src);

    let src = Hist4d::with_counts(1, 0, 2, 2, 0, 4, 1, 0, 2, 2, 0, 4, vec![9, 8, 7, 6]).unwrap();
    let mut dst = Hist4d::new(1, 0, 2, 2, 0, 4, 1, 0, 2, 2, 0, 4).unwrap();
    dst.add_fuzz(&src);
    assert_eq!(dst, src);
}

#[test]
fn filling_with_values_that_were_drawn() {
    let mut h = Hist1d::with_counts(3, 0, 30, vec![1, 0, 0]).unwrap();
    fill_all(&mut h, vec![5, 15, 15, 29, -4, 30, 10]);
    assert_eq!(h.counts(), &[3, 3, 2]);
    fill_all(&mut h, vec![]);
    assert_eq!(h.counts(), &[3, 3, 2]);

    let mut h = Hist2d::new(2, 0, 2, 2, 0, 2).unwrap();
    fill_all(&mut h, vec![(0, 0), (0, 1), (1, 1), (1, 1), (5, -5)]);
    assert_eq!(h.counts(), &[1, 1, 1, 2]);
}

#[test]
fn values_are_drawn_from_within_the_bin() {
    let mut source = Source::unseeded();
    let h = Hist1d::new(4, -20, 20).unwrap();
    for idx in 0..4 {
        for _ in 0..50 {
            let v = h.draw_at_idx(idx, &mut source);
            assert!(h.axes().val_at_bin_min(idx) <= v && v < h.axes().val_at_bin_max(idx));
        }
    }
    let mut source = Source::seeded(7);
    let h = Hist2d::new(2, 0, 10, 5, 0, 10).unwrap();
    for idx in 0..10 {
        for _ in 0..20 {
            let (x, y) = h.draw_at_idx(idx, &mut source);
            assert_eq!(h.idx_at_val((x, y)), idx);
        }
    }
}

#[test]
fn the_same_seed_gives_the_same_counts() {
    let src = Hist1d::with_counts(2, 0, 1000, vec![3000, 5000]).unwrap();
    let mut one = Hist1d::new(7, -200, 1200).unwrap();
    let mut two = one.clone();
    let mut other = one.clone();
    one.add_fuzz_seeded(&src, 42);
    two.add_fuzz_seeded(&src, 42);
    other.add_fuzz_seeded(&src, 43);
    assert_eq!(one, two);
    assert_ne!(one, other);
    assert_eq!(sum_of(one.counts()), Some(8000));
    assert_eq!(sum_of(other.counts()), Some(8000));
    // nothing is drawn from outside the source
    assert_eq!(one.counts()[0], 0);
    assert_eq!(one.counts()[6], 0);
    assert!(one.counts()[1..6].iter().all(|c| *c > 0));
    // the first bin of the source ends within the third of these five
    assert!(one.counts()[1] + one.counts()[2] <= 3000);
    assert!(one.counts()[4] + one.counts()[5] <= 5000);

    // a source gives on where it was left
    let mut source = Source::seeded(42);
    let mut again = Hist1d::new(7, -200, 1200).unwrap();
    assert_eq!(add_redrawn_checked(&mut again, &src, &mut source), Ok(()));
    assert_eq!(again, one);
    let mut more = Hist1d::new(7, -200, 1200).unwrap();
    assert_eq!(add_redrawn_checked(&mut more, &src, &mut source), Ok(()));
    assert_ne!(more, one);

    let src = Hist2d::with_counts(2, 0, 10, 2, 0, 10, vec![100, 200, 300, 400]).unwrap();
    let mut one = Hist2d::new(3, 0, 10, 3, 0, 10).unwrap();
    let mut two = one.clone();
    one.add_fuzz_seeded(&src, 1);
    two.add_fuzz_seeded(&src, 1);
    assert_eq!(one, two);
    assert_eq!(sum_of(one.counts()), Some(1000));
}
