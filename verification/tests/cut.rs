use datakiste::cut::{
    Cut, Cut1d, Cut1dAbove, Cut1dBelow, Cut1dBetween, Cut2d, Cut2dCirc, Cut2dEllipse, Cut2dPoly,
    Cut2dRect,
};
use rand::distributions::{Distribution, Uniform};

// One unit of the coordinates, and the smallest step that is taken from a
// boundary.
const ONE: i64 = 1 << 52;
const EP: i64 = 3;

fn at(v: i64) -> i64 {
    v * ONE
}

#[test]
fn circ_contains() {
    let c = Cut2dCirc { x0: 0, y0: 0, r: 0 };
    assert!(!c.contains(0, 0 + EP));
    assert!(!c.contains(0 + EP, 0));
    assert!(!c.contains(0, 0 - EP));
    assert!(!c.contains(0 - EP, 0));

    let c = Cut2dCirc { x0: at(1), y0: at(1), r: at(1) };
    assert!(c.contains(at(1), at(1)));

    assert!(!c.contains(at(1), at(2) + EP));
    assert!(!c.contains(at(1) + EP, at(2) + EP));
    assert!(c.contains(at(1) + EP, at(2) - EP));
    assert!(c.contains(at(1), at(2) - EP));
    assert!(c.contains(at(1) - EP, at(2) - EP));
    assert!(!c.contains(at(1) - EP, at(2) + EP));

    assert!(!c.contains(at(2) + EP, at(1) + EP));
    assert!(!c.contains(at(2) + EP, at(1)));
    assert!(!c.contains(at(2) + EP, at(1) - EP));
    assert!(c.contains(at(2) - EP, at(1) - EP));
    assert!(c.contains(at(2) - EP, at(1)));
    assert!(c.contains(at(2) - EP, at(1) + EP));

    assert!(c.contains(at(1), at(0) + EP));
    assert!(c.contains(at(1) + EP, at(0) + EP));
    assert!(!c.contains(at(1) + EP, at(0) - EP));
    assert!(!c.contains(at(1), at(0) - EP));
    assert!(!c.contains(at(1) - EP, at(0) - EP));
    assert!(c.contains(at(1) - EP, at(0) + EP));

    assert!(c.contains(at(0) + EP, at(1) + EP));
    assert!(c.contains(at(0) + EP, at(1)));
    assert!(c.contains(at(0) + EP, at(1) - EP));
    assert!(!c.contains(at(0) - EP, at(1) - EP));
    assert!(!c.contains(at(0) - EP, at(1)));
    assert!(!c.contains(at(0) - EP, at(1) + EP));
}

#[test]
fn poly_contains() {
    let c = Cut2dPoly {
        verts: vec![
            (at(0), at(-1)),
            (at(2), at(-1)),
            (at(4), at(1)),
            (at(3), at(1)),
            (at(2), at(1)),
            (at(1), at(0)),
            (at(0), at(1)),
            (at(-1), at(1)),
            (at(-2), at(1)),
        ],
    };

    assert!(!c.contains(at(-3), at(-2)));
    assert!(!c.contains(at(-3), at(-1)));
    assert!(!c.contains(at(-3), at(0)));
    assert!(!c.contains(at(-3), at(1)));
    assert!(!c.contains(at(-3), at(2)));

    assert!(!c.contains(at(-2), at(-2)));
    assert!(!c.contains(at(-2), at(-1)));
    assert!(!c.contains(at(-2), at(0)));
    assert!(!c.contains(at(-2), at(1) + EP));
    assert!(!c.contains(at(-2) - EP, at(1)));
    assert!(!c.contains(at(-2), at(1) - EP));
    assert!(c.contains(at(-2) + 2 * EP, at(1) - EP));
    assert!(!c.contains(at(-2), at(2)));

    assert!(!c.contains(at(-1), at(-2)));
    assert!(!c.contains(at(-1), at(-1)));
    assert!(c.contains(at(-1), at(0) + EP));
    assert!(c.contains(at(-1) + EP, at(0)));
    assert!(!c.contains(at(-1), at(0) - EP));
    assert!(!c.contains(at(-1) - EP, at(0)));
    assert!(!c.contains(at(-1) + EP, at(1) + EP));
    assert!(c.contains(at(-1) + EP, at(1) - EP));
    assert!(c.contains(at(-1) - EP, at(1) - EP));
    assert!(!c.contains(at(-1) - EP, at(1) + EP));
    assert!(!c.contains(at(-1), at(2)));

    assert!(!c.contains(at(0), at(-2)));
    assert!(c.contains(at(0), at(-1) + EP));
    assert!(!c.contains(at(0), at(-1) - EP));
    assert!(!c.contains(at(0) - EP, at(-1)));
    assert!(c.contains(at(0), at(0)));
    assert!(!c.contains(at(0), at(1) + EP));
    assert!(!c.contains(at(0) + EP, at(1)));
    assert!(c.contains(at(0), at(1) - EP));
    assert!(!c.contains(at(0), at(2)));

    assert!(!c.contains(at(1), at(-2)));
    assert!(c.contains(at(1) + EP, at(-1) + EP));
    assert!(!c.contains(at(1) + EP, at(-1) - EP));
    assert!(!c.contains(at(1) - EP, at(-1) - EP));
    assert!(c.contains(at(1) - EP, at(-1) + EP));
    assert!(!c.contains(at(1), at(0) + EP));
    assert!(c.contains(at(1) + EP, at(0)));
    assert!(c.contains(at(1), at(0) - EP));
    assert!(c.contains(at(1) - EP, at(0)));
    assert!(!c.contains(at(1), at(1)));
    assert!(!c.contains(at(1), at(2)));

    assert!(!c.contains(at(2), at(-2)));
    assert!(c.contains(at(2), at(-1) + EP));
    assert!(!c.contains(at(2) + EP, at(-1)));
    assert!(!c.contains(at(2), at(-1) - EP));
    assert!(c.contains(at(2), at(0)));
    assert!(!c.contains(at(2), at(1) + EP));
    assert!(c.contains(at(2), at(1) - EP));
    assert!(!c.contains(at(2) - EP, at(1)));
    assert!(!c.contains(at(2), at(2)));

    assert!(!c.contains(at(3), at(-2)));
    assert!(!c.contains(at(3), at(-1)));
    assert!(c.contains(at(3), at(0) + EP));
    assert!(!c.contains(at(3) + EP, at(0)));
    assert!(!c.contains(at(3), at(0) - EP));
    assert!(c.contains(at(3) - EP, at(0)));
    assert!(!c.contains(at(3) + EP, at(1) + EP));
    assert!(c.contains(at(3) + EP, at(1) - EP));
    assert!(c.contains(at(3) - EP, at(1) - EP));
    assert!(!c.contains(at(3) - EP, at(1) + EP));
    assert!(!c.contains(at(3), at(2)));

    assert!(!c.contains(at(4), at(-2)));
    assert!(!c.contains(at(4), at(-1)));
    assert!(!c.contains(at(4), at(0)));
    assert!(!c.contains(at(4), at(1) + EP));
    assert!(!c.contains(at(4) + EP, at(1)));
    assert!(!c.contains(at(4), at(1) - EP));
    assert!(c.contains(at(4) - EP, at(1) - EP));
    assert!(!c.contains(at(4), at(2)));

    assert!(!c.contains(at(5), at(-2)));
    assert!(!c.contains(at(5), at(-1)));
    assert!(!c.contains(at(5), at(0)));
    assert!(!c.contains(at(5), at(1)));
    assert!(!c.contains(at(5), at(2)));
}

fn squares() -> Vec<Cut2dPoly> {
    let all: Vec<Vec<(i64, i64)>> = vec![
        vec![(1, 1), (1, -1), (-1, -1), (-1, 1), (0, 1)],
        vec![(1, -1), (-1, -1), (-1, 1), (0, 1), (1, 1)],
        vec![(-1, -1), (-1, 1), (0, 1), (1, 1), (1, -1)],
        vec![(-1, 1), (0, 1), (1, 1), (1, -1), (-1, -1)],
        vec![(0, 1), (1, 1), (1, -1), (-1, -1), (-1, 1)],
        vec![(0, 1), (-1, 1), (-1, -1), (1, -1), (1, 1)],
        vec![(-1, 1), (-1, -1), (1, -1), (1, 1), (0, 1)],
        vec![(-1, -1), (1, -1), (1, 1), (0, 1), (-1, 1)],
        vec![(1, -1), (1, 1), (0, 1), (-1, 1), (-1, -1)],
        vec![(1, 1), (0, 1), (-1, 1), (-1, -1), (1, -1)],
    ];
    all.into_iter()
        .map(|v| Cut2dPoly { verts: v.into_iter().map(|(x, y)| (at(x), at(y))).collect() })
        .collect()
}

#[test]
fn poly_contains_rand() {
    // Make sure the order and direction of the points doesn't matter
    let cs = squares();

    let mut rng = rand::thread_rng();

    for c in cs {
        let range = Uniform::new(at(-2), at(4));

        let mut xs: Vec<i64> = range.sample_iter(&mut rng).take(100).collect();
        let mut ys: Vec<i64> = range.sample_iter(&mut rng).take(100).collect();

        // Make sure horizontal and vertical lines are fine
        xs.push(at(1));
        xs.push(at(-1));
        ys.push(at(1));
        ys.push(at(-1));

        for x in &xs {
            for y in &ys {
                if (*x < at(1) && *x > at(-1)) && (*y < at(1) && *y > at(-1)) {
                    assert!(c.contains(*x, *y));
                } else if (*x > at(1) || *x < at(-1)) || (*y > at(1) || *y < at(-1)) {
                    assert!(!c.contains(*x, *y));
                }
            }
        }
    }
}

#[test]
fn poly_does_not_depend_on_the_first_corner_or_the_direction() {
    let verts: Vec<(i64, i64)> =
        vec![(0, -10), (20, -10), (40, 10), (30, 10), (20, 10), (10, 0), (0, 10), (-10, 10), (-20, 10)];
    let base = Cut2dPoly { verts: verts.clone() };
    for k in 0..verts.len() {
        let mut turned = verts.clone();
        turned.rotate_left(k);
        let mut back = turned.clone();
        back.reverse();
        let turned = Cut2dPoly { verts: turned };
        let back = Cut2dPoly { verts: back };
        for x in -25..45 {
            for y in -15..15 {
                assert_eq!(turned.contains(x, y), base.contains(x, y));
                assert_eq!(back.contains(x, y), base.contains(x, y));
            }
        }
    }
}

#[test]
fn poly_scenario() {
    let c = Cut2dPoly {
        verts: vec![(0, -1), (2, -1), (4, 1), (3, 1), (2, 1), (1, 0), (0, 1), (-1, 1), (-2, 1)],
    };
    assert!(c.contains(0, 0));
    assert!(!c.contains(5, 0));
    assert!(!Cut2dPoly { verts: vec![] }.contains(0, 0));
    assert!(!Cut2dPoly::default().contains(3, 4));
}

#[test]
fn circle_without_radius_holds_nothing() {
    let c = Cut2dCirc { x0: 0, y0: 0, r: 0 };
    for x in -3..4 {
        for y in -3..4 {
            assert!(!c.contains(x, y));
        }
    }
    let far = Cut2dCirc { x0: i64::MIN, y0: i64::MIN, r: i64::MIN };
    assert!(!far.contains(i64::MAX, i64::MAX));
    assert!(far.contains(i64::MIN + 5, i64::MIN + 5));
    // 3^2 + 4^2 = 5^2 lies on the circle, and so is outside
    let c = Cut2dCirc { x0: 0, y0: 0, r: 5 };
    assert!(!c.contains(3, 4));
    assert!(c.contains(3, 3));
    assert!(!Cut2dCirc { x0: 0, y0: 0, r: -5 }.contains(3, 4));
    assert!(Cut2dCirc { x0: 0, y0: 0, r: -5 }.contains(3, 3));
}

#[test]
fn cuts_in_one_dimension_are_open() {
    assert!(Cut1dAbove { min: 3 }.contains(4));
    assert!(!Cut1dAbove { min: 3 }.contains(3));
    assert!(Cut1dBelow { max: 3 }.contains(2));
    assert!(!Cut1dBelow { max: 3 }.contains(3));
    let c = Cut1dBetween { min: -1, max: 1 };
    assert!(c.contains(0));
    assert!(!c.contains(-1));
    assert!(!c.contains(1));
}

#[test]
fn rect_is_open() {
    let c = Cut2dRect { x0: 0, y0: 1, x1: 10, y1: 2 };
    assert!(!c.contains(5, 1));
    assert!(!c.contains(5, 2));
    assert!(!c.contains(0, 1));
    let c = Cut2dRect { x0: 0, y0: 0, x1: 10, y1: 10 };
    assert!(c.contains(1, 9));
    assert!(!c.contains(10, 5));
    assert!(!c.contains(5, 0));
}

#[test]
fn ellipse_follows_its_direction() {
    // half axes 5 and 2, the long one along x
    let e = Cut2dEllipse { x0: 10, y0: 10, rx: 5, ry: 2, ux: 1, uy: 0 };
    assert!(e.contains(14, 10));
    assert!(!e.contains(15, 10));
    assert!(e.contains(10, 11));
    assert!(!e.contains(10, 12));
    // the long one along y
    let e = Cut2dEllipse { x0: 10, y0: 10, rx: 5, ry: 2, ux: 0, uy: 7 };
    assert!(e.contains(10, 14));
    assert!(!e.contains(14, 10));
    assert!(e.contains(11, 10));
    // the long one along the diagonal: (3, 3) has the length 4.24
    let e = Cut2dEllipse { x0: 0, y0: 0, rx: 5, ry: 2, ux: 1, uy: 1 };
    assert!(e.contains(3, 3));
    assert!(!e.contains(3, -3));
    assert!(e.contains(1, -1));
    assert!(!e.contains(i64::MAX, i64::MIN));
    // no direction, or no width: nothing inside
    assert!(!Cut2dEllipse { x0: 0, y0: 0, rx: 5, ry: 2, ux: 0, uy: 0 }.contains(0, 0));
    assert!(!Cut2dEllipse { x0: 0, y0: 0, rx: 5, ry: 0, ux: 1, uy: 0 }.contains(0, 0));
}

#[test]
fn ellipse_of_any_size() {
    // as wide as the numbers go, and as flat as can be
    let e = Cut2dEllipse { x0: 0, y0: 0, rx: i64::MAX, ry: 2, ux: i64::MAX, uy: 0 };
    assert!(e.contains(0, 1));
    assert!(e.contains(0, -1));
    assert!(!e.contains(0, 2));
    assert!(e.contains(i64::MAX - 1, 0));
    assert!(!e.contains(i64::MAX, 0));
    assert!(e.contains(i64::MIN + 2, 0));
    assert!(!e.contains(i64::MIN + 1, 0));
    assert!(!e.contains(i64::MIN, 0));
    // 0.866 of the way along, the ellipse is half as high: 1 is at its edge
    assert!(e.contains(7_000_000_000_000_000_000, 1));
    assert!(e.contains(7_987_674_492_471_257_549, 1));
    assert!(!e.contains(7_987_674_492_471_257_550, 1));
    assert!(!e.contains(i64::MAX - 1, 1));

    // the far corners of the plane, with negative half axes and direction
    let e = Cut2dEllipse {
        x0: i64::MIN,
        y0: i64::MAX,
        rx: i64::MIN,
        ry: i64::MIN,
        ux: i64::MIN,
        uy: i64::MIN,
    };
    assert!(e.contains(i64::MIN, i64::MAX));
    assert!(e.contains(-1, i64::MAX));
    assert!(!e.contains(0, i64::MAX));
    assert!(e.contains(i64::MIN, 0));
    assert!(!e.contains(i64::MIN, -1));
    assert!(!e.contains(i64::MAX, i64::MIN));
    assert!(!e.contains(0, 0));
    // on the diagonal the circle ends at 0.707 of its radius
    assert!(e.contains(i64::MIN + 6_521_908_912_666_391_106, i64::MAX - 6_521_908_912_666_391_106));
    assert!(!e.contains(i64::MIN + 6_521_908_912_666_391_107, i64::MAX - 6_521_908_912_666_391_107));

    // a circle around a far centre, at any direction
    let r: i64 = 5 << 38;
    let e = Cut2dEllipse { x0: 1 << 62, y0: -(1 << 62), rx: r, ry: -r, ux: 12345, uy: -67890 };
    assert!(e.contains((1 << 62) + r - 1, -(1 << 62)));
    assert!(!e.contains((1 << 62) + r, -(1 << 62)));
    assert!(e.contains(1 << 62, -(1 << 62) - r + 1));
    assert!(!e.contains(1 << 62, -(1 << 62) - r));
    // 3 : 4 : 5
    assert!(!e.contains((1 << 62) + r / 5 * 3, -(1 << 62) + r / 5 * 4));
    assert!(e.contains((1 << 62) + r / 5 * 3, -(1 << 62) + r / 5 * 4 - 1));
}

#[test]
fn not_negates_and_folds() {
    let c: Cut1d = Cut1dBetween { min: -1, max: 1 }.into();
    let n = !c;
    assert!(matches!(n, Cut1d::Not(_)));
    assert!(!n.contains(0));
    assert!(n.contains(1));
    let c = !n;
    assert!(matches!(c, Cut1d::Cut1dBetween(_)));
    assert!(c.contains(0));
    let twice = Cut1d::Not(Box::new(Cut1d::Not(Box::new(c))));
    assert!(twice.contains(0));
    assert!(!twice.contains(1));

    let c: Cut2d = Cut2dRect { x0: 0, y0: 0, x1: 10, y1: 10 }.into();
    let n = !c;
    assert!(!n.contains(5, 5));
    assert!(n.contains(10, 5));
    let c = !n;
    assert!(matches!(c, Cut2d::Cut2dRect(_)));
    assert!(c.contains(5, 5));
    let twice = Cut2d::Not(Box::new(Cut2d::Not(Box::new(c))));
    assert!(twice.contains(5, 5));
    let wide: Cut2d = Cut2dEllipse { x0: 0, y0: 0, rx: 1 << 30, ry: 1, ux: 1, uy: 0 }.into();
    assert!(wide.contains((1 << 30) - 1, 0));
    assert!(!(!wide).contains((1 << 30) - 1, 0));
}

#[test]
fn cut_of_either_dimension() {
    let c: Cut = Cut1d::from(Cut1dAbove { min: 0 }).into();
    assert!(matches!(c, Cut::Cut1d(_)));
    let c: Cut = Cut2d::from(Cut2dCirc { x0: 0, y0: 0, r: 1 }).into();
    assert!(matches!(c, Cut::Cut2d(_)));
    let c: Cut2d = Cut2dPoly { verts: vec![(0, 0), (4, 0), (0, 4)] }.into();
    assert!(c.contains(1, 1));
    let _below: Cut1d = Cut1dBelow { max: 0 }.into();
}
