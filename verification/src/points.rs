//! Sets of points of one to four dimensions, in the order they were added.

use vstd::prelude::*;

verus! {

/// A list of points.
pub trait Points {
    /// A point, with one coordinate for each dimension.
    type Point;

    /// The points of the set, in order.
    spec fn spec_points(&self) -> Seq<Self::Point>;

    /// Returns the points.
    fn points(&self) -> (p: &[Self::Point])
        ensures
            p@ == self.spec_points(),
    ;

    /// Returns the points for writing.
    fn points_mut(&mut self) -> (p: &mut Vec<Self::Point>)
        ensures
            p@ == old(self).spec_points(),
            final(self).spec_points() == final(p)@,
    ;

    /// Appends the points of `other`, in their order.
    fn add(&mut self, other: &Self)
        ensures
            final(self).spec_points() == old(self).spec_points() + other.spec_points(),
    ;

    /// Appends the point `p`.
    fn push(&mut self, p: Self::Point)
        ensures
            final(self).spec_points() == old(self).spec_points().push(p),
    ;
}

/// Appends the items of `src` to `dst`, in their order.
fn append<T: Copy>(dst: &mut Vec<T>, src: &[T])
    ensures
        final(dst)@ == old(dst)@ + src@,
{
    let ghost start = dst@;
    let mut i: usize = 0;
    assert(src@.take(0) =~= Seq::<T>::empty());
    while i < src.len()
        invariant
            i <= src.len(),
            dst@ =~= start + src@.take(i as int),
        decreases src.len() - i,
    {
        dst.push(src[i]);
        assert(src@.take(i + 1) =~= src@.take(i as int).push(src@[i as int]));
        i += 1;
    }
    assert(src@.take(src.len() as int) =~= src@);
}

/// A set of points in one dimension.
#[derive(Debug, Default)]
pub struct Points1d {
    points: Vec<i64>,
}

/// A set of points in two dimensions.
#[derive(Debug, Default)]
pub struct Points2d {
    points: Vec<(i64, i64)>,
}

/// A set of points in three dimensions.
#[derive(Debug, Default)]
pub struct Points3d {
    points: Vec<(i64, i64, i64)>,
}

/// A set of points in four dimensions.
#[derive(Debug, Default)]
pub struct Points4d {
    points: Vec<(i64, i64, i64, i64)>,
}

impl Points for Points1d {
    type Point = i64;

    closed spec fn spec_points(&self) -> Seq<i64> {
        self.points@
    }

    fn points(&self) -> (p: &[i64]) {
        self.points.as_slice()
    }

    fn points_mut(&mut self) -> (p: &mut Vec<i64>) {
        &mut self.points
    }

    fn add(&mut self, other: &Self) {
        append(&mut self.points, other.points.as_slice());
    }

    fn push(&mut self, p: i64) {
        self.points.push(p);
    }
}

impl Points1d {
    /// Constructs an empty set of points.
    pub fn new() -> (r: Points1d)
        ensures
            r.spec_points() == Seq::<i64>::empty(),
    {
        Points1d { points: Vec::new() }
    }

    /// Constructs the set of the points `points`.
    pub fn with_points(points: Vec<i64>) -> (r: Points1d)
        ensures
            r.spec_points() == points@,
    {
        Points1d { points }
    }
}

impl Points for Points2d {
    type Point = (i64, i64);

    closed spec fn spec_points(&self) -> Seq<(i64, i64)> {
        self.points@
    }

    fn points(&self) -> (p: &[(i64, i64)]) {
        self.points.as_slice()
    }

    fn points_mut(&mut self) -> (p: &mut Vec<(i64, i64)>) {
        &mut self.points
    }

    fn add(&mut self, other: &Self) {
        append(&mut self.points, other.points.as_slice());
    }

    fn push(&mut self, p: (i64, i64)) {
        self.points.push(p);
    }
}

impl Points2d {
    /// Constructs an empty set of points.
    pub fn new() -> (r: Points2d)
        ensures
            r.spec_points() == Seq::<(i64, i64)>::empty(),
    {
        Points2d { points: Vec::new() }
    }

    /// Constructs the set of the points `points`.
    pub fn with_points(points: Vec<(i64, i64)>) -> (r: Points2d)
        ensures
            r.spec_points() == points@,
    {
        Points2d { points }
    }
}

impl Points for Points3d {
    type Point = (i64, i64, i64);

    closed spec fn spec_points(&self) -> Seq<(i64, i64, i64)> {
        self.points@
    }

    fn points(&self) -> (p: &[(i64, i64, i64)]) {
        self.points.as_slice()
    }

    fn points_mut(&mut self) -> (p: &mut Vec<(i64, i64, i64)>) {
        &mut self.points
    }

    fn add(&mut self, other: &Self) {
        append(&mut self.points, other.points.as_slice());
    }

    fn push(&mut self, p: (i64, i64, i64)) {
        self.points.push(p);
    }
}

impl Points3d {
    /// Constructs an empty set of points.
    pub fn new() -> (r: Points3d)
        ensures
            r.spec_points() == Seq::<(i64, i64, i64)>::empty(),
    {
        Points3d { points: Vec::new() }
    }

    /// Constructs the set of the points `points`.
    pub fn with_points(points: Vec<(i64, i64, i64)>) -> (r: Points3d)
        ensures
            r.spec_points() == points@,
    {
        Points3d { points }
    }
}

impl Points for Points4d {
    type Point = (i64, i64, i64, i64);

    closed spec fn spec_points(&self) -> Seq<(i64, i64, i64, i64)> {
        self.points@
    }

    fn points(&self) -> (p: &[(i64, i64, i64, i64)]) {
        self.points.as_slice()
    }

    fn points_mut(&mut self) -> (p: &mut Vec<(i64, i64, i64, i64)>) {
        &mut self.points
    }

    fn add(&mut self, other: &Self) {
        append(&mut self.points, other.points.as_slice());
    }

    fn push(&mut self, p: (i64, i64, i64, i64)) {
        self.points.push(p);
    }
}

impl Points4d {
    /// Constructs an empty set of points.
    pub fn new() -> (r: Points4d)
        ensures
            r.spec_points() == Seq::<(i64, i64, i64, i64)>::empty(),
    {
        Points4d { points: Vec::new() }
    }

    /// Constructs the set of the points `points`.
    pub fn with_points(points: Vec<(i64, i64, i64, i64)>) -> (r: Points4d)
        ensures
            r.spec_points() == points@,
    {
        Points4d { points }
    }
}

impl Clone for Points1d {
    fn clone(&self) -> (r: Self)
        ensures
            r.spec_points() == self.spec_points(),
    {
        let mut points = Vec::new();
        append(&mut points, self.points.as_slice());
        assert(points@ =~= self.points@);
        Points1d { points }
    }
}

impl Clone for Points2d {
    fn clone(&self) -> (r: Self)
        ensures
            r.spec_points() == self.spec_points(),
    {
        let mut points = Vec::new();
        append(&mut points, self.points.as_slice());
        assert(points@ =~= self.points@);
        Points2d { points }
    }
}

impl Clone for Points3d {
    fn clone(&self) -> (r: Self)
        ensures
            r.spec_points() == self.spec_points(),
    {
        let mut points = Vec::new();
        append(&mut points, self.points.as_slice());
        assert(points@ =~= self.points@);
        Points3d { points }
    }
}

impl Clone for Points4d {
    fn clone(&self) -> (r: Self)
        ensures
            r.spec_points() == self.spec_points(),
    {
        let mut points = Vec::new();
        append(&mut points, self.points.as_slice());
        assert(points@ =~= self.points@);
        Points4d { points }
    }
}

} // verus!
