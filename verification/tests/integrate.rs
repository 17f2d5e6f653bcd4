use datakiste::cut::{Cut1d, Cut1dBetween, Cut2d, Cut2dCirc, Cut2dPoly};
use datakiste::hist::{Hist, Hist1d, Hist2d};
use rand::distributions::{Distribution, Uniform};

// Values in thousandths.
const K: i64 = 1000;

#[test]
fn integrate_1d_rand() {
    let mut rng = rand::thread_rng();

    let mut h = Hist1d::new(1001, -5 * K, 5 * K).unwrap();

    let range = Uniform::new(-K, K);
    for _ in 0..150 {
        let x = range.sample(&mut rng);

        h.fill(x);
    }

    let range = Uniform::new(2 * K, 3 * K);
    for _ in 0..100 {
        let x = range.sample(&mut rng);

        h.fill(x);
        h.fill(-x);
    }

    let c1 = Cut1dBetween { min: -1500, max: 1500 };
    let c2 = Cut1dBetween { min: -5 * K, max: 5 * K };

    assert_eq!(h.integrate(&c1.into()), 150);
    assert_eq!(h.integrate(&c2.into()), 350);
}

#[test]
fn integrate_2d_rand() {
    let mut rng = rand::thread_rng();

    let mut h = Hist2d::new(1001, -5 * K, 5 * K, 1001, -5 * K, 5 * K).unwrap();

    let range = Uniform::new(-K, K);
    for _ in 0..150 {
        let x = range.sample(&mut rng);
        let y = range.sample(&mut rng);

        h.fill((x, y));
    }

    let range = Uniform::new(2 * K, 3 * K);
    for _ in 0..100 {
        let x = range.sample(&mut rng);
        let y = range.sample(&mut rng);

        h.fill((x, y));
        h.fill((x, -y));
        h.fill((-x, -y));
        h.fill((-x, y));
    }

    let c1 = Cut2dCirc { x0: 0, y0: 0, r: 1500 };
    let c2 = Cut2dCirc { x0: 0, y0: 0, r: 5 * K };

    assert_eq!(h.integrate(&c1.into()), 150);
    assert_eq!(h.integrate(&c2.into()), 550);
}

#[test]
fn integrate_2d_banana() {
    let mut h = Hist2d::new(1001, 0, K, 1001, 0, K).unwrap();

    h.fill_with_counts((250, 650), 100);
    h.fill_with_counts((700, 510), 242);
    h.fill_with_counts((8 * K, 10 * K), 342);
    h.fill_with_counts((0, 0), 114);

    let c1 = Cut2dPoly {
        verts: vec![(100, 750), (500, 650), (750, 500), (400, 500), (100, 700)],
    };

    assert_eq!(h.integrate(&c1.into()), 342);
}

#[test]
fn integrate_counts_bins_by_their_middle() {
    let h = Hist1d::with_counts(4, 0, 40, vec![1, 10, 100, 1000]).unwrap();
    // the middles are 5, 15, 25, 35
    let c: Cut1d = Cut1dBetween { min: 5, max: 26 }.into();
    assert_eq!(h.integrate(&c), 110);
    assert_eq!(h.integrate(&!c), 1001);
    let all: Cut1d = Cut1dBetween { min: i64::MIN, max: i64::MAX }.into();
    assert_eq!(h.integrate(&all), 1111);
    let h = Hist2d::with_counts(2, 0, 20, 2, 0, 20, vec![1, 10, 100, 1000]).unwrap();
    let c: Cut2d = Cut2dCirc { x0: 0, y0: 0, r: 16 }.into();
    assert_eq!(h.integrate(&c), 11 + 100);
    assert_eq!(h.integrate(&!c), 1000);
}

#[test]
fn filter_keeps_the_bins_in_the_cut() {
    // middle values 5, 15, 25, 35
    let h = Hist1d::with_counts(4, 0, 40, vec![1, 2, 3, 4]).unwrap();
    let cut: Cut1d = Cut1dBetween { min: 10, max: 30 }.into();
    let inside = h.integrate(&cut);
    let f = h.clone().filter(&cut);
    assert_eq!(f.axes(), h.axes());
    assert_eq!(f.counts(), &[0, 2, 3, 0]);
    assert_eq!(f.counts().iter().sum::<u64>(), inside);
    let outside = h.clone().filter(&Cut1d::Not(Box::new(cut)));
    assert_eq!(outside.counts(), &[1, 0, 0, 4]);
    // a bin whose middle value is the bound of the cut is not in it
    let edge: Cut1d = Cut1dBetween { min: 15, max: 30 }.into();
    assert_eq!(h.filter(&edge).counts(), &[0, 0, 3, 0]);

    // middle values (1, 1), (1, 3), (3, 1), (3, 3)
    let h = Hist2d::with_counts(2, 0, 4, 2, 0, 4, vec![1, 2, 3, 4]).unwrap();
    let cut: Cut2d = Cut2dCirc { x0: 0, y0: 0, r: 4 }.into();
    let inside = h.integrate(&cut);
    let f = h.clone().filter(&cut);
    assert_eq!(f.axes(), h.axes());
    assert_eq!(f.counts(), &[1, 2, 3, 0]);
    assert_eq!(inside, 6);
    let cut: Cut2d = Cut2dPoly { verts: vec![(0, 0), (3, 0), (0, 3)] }.into();
    assert_eq!(h.clone().filter(&cut).counts(), &[1, 0, 0, 0]);
    let none: Cut2d = Cut2dCirc { x0: 0, y0: 0, r: 0 }.into();
    assert_eq!(h.filter(&none).counts(), &[0, 0, 0, 0]);
}
