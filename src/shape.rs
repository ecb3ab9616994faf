//! Shapes, edges and the records that the queries return.
use vstd::prelude::*;
use crate::math::{Vec2, Frac, MAX_COORD, NORMAL_SCALE, within};

verus! {

/// A closed range `min..max` on one axis.
#[derive(Clone, Copy, Debug, PartialEq, Eq, Structural)]
pub struct Interval {
    pub min: i64,
    pub max: i64,
}

impl Interval {
    pub fn new(min: i64, max: i64) -> (r: Interval)
        ensures
            r.min == min,
            r.max == max,
    {
        Interval { min, max }
    }
}

#[derive(Clone, Copy, Debug, PartialEq, Eq, Structural)]
pub struct Circle {
    pub center: Vec2,
    pub r: i64,
}

/// An axis-aligned rectangle.
#[derive(Clone, Copy, Debug, PartialEq, Eq, Structural)]
pub struct Rect {
    pub min_x: i64,
    pub min_y: i64,
    pub max_x: i64,
    pub max_y: i64,
}

/// A segment from `a` to `b` with the outward unit normal of the face it
/// bounds, in fixed point (see `NORMAL_SCALE`).
#[derive(Clone, Copy, Debug, PartialEq, Eq, Structural)]
pub struct LineSegment {
    pub a: Vec2,
    pub b: Vec2,
    pub normal: Vec2,
}

impl LineSegment {
    pub fn new(a: Vec2, b: Vec2, normal: Vec2) -> (r: LineSegment)
        ensures
            r.a == a,
            r.b == b,
            r.normal == normal,
    {
        LineSegment { a, b, normal }
    }
}

/// The push that separates two overlapping shapes: `distance` units along
/// the unit normal `normal / NORMAL_SCALE`.
#[derive(Clone, Copy, Debug, PartialEq, Eq, Structural)]
pub struct OverlapResult {
    pub normal: Vec2,
    pub distance: i64,
}

/// The first contact along a step: the fraction `t` of the step travelled
/// before contact (exactly 1 when there is none) and the contact normal, a
/// unit vector in fixed point (see `NORMAL_SCALE`).
#[derive(Clone, Copy, Debug, PartialEq, Eq, Structural)]
pub struct SweepResult {
    pub normal: Vec2,
    pub t: Frac,
}

#[derive(Clone, Copy, Debug, PartialEq, Eq, Structural)]
pub enum Shape {
    Point(Vec2),
    Circle(Circle),
    Rect(Rect),
}

impl Default for Shape {
    fn default() -> (r: Shape)
        ensures
            r == Shape::Point(Vec2 { x: 0, y: 0 }),
    {
        Shape::Point(Vec2 { x: 0, y: 0 })
    }
}

impl Circle {
    /// A circle whose center and radius lie within `bound`.
    pub open spec fn within(self, bound: int) -> bool {
        self.center.within(bound) && 0 <= self.r <= bound
    }
}

impl Rect {
    /// A rectangle with ordered bounds that lie within `bound`.
    pub open spec fn within(self, bound: int) -> bool {
        within(self.min_x as int, bound) && within(self.max_x as int, bound) && within(
            self.min_y as int,
            bound,
        ) && within(self.max_y as int, bound) && self.min_x <= self.max_x && self.min_y
            <= self.max_y
    }

    /// The left face, from bottom to top, facing left.
    pub fn left_edge(self) -> (r: LineSegment)
        ensures
            r.a@ == (self.min_x as int, self.min_y as int),
            r.b@ == (self.min_x as int, self.max_y as int),
            r.normal@ == (-NORMAL_SCALE as int, 0int),
    {
        let a = Vec2 { x: self.min_x, y: self.min_y };
        let b = Vec2 { x: self.min_x, y: self.max_y };
        LineSegment::new(a, b, left())
    }

    /// The bottom face, from left to right, facing down.
    pub fn bottom_edge(self) -> (r: LineSegment)
        ensures
            r.a@ == (self.min_x as int, self.min_y as int),
            r.b@ == (self.max_x as int, self.min_y as int),
            r.normal@ == (0int, -NORMAL_SCALE as int),
    {
        let a = Vec2 { x: self.min_x, y: self.min_y };
        let b = Vec2 { x: self.max_x, y: self.min_y };
        LineSegment::new(a, b, down())
    }

    /// The top face, from left to right, facing up.
    pub fn top_edge(self) -> (r: LineSegment)
        ensures
            r.a@ == (self.min_x as int, self.max_y as int),
            r.b@ == (self.max_x as int, self.max_y as int),
            r.normal@ == (0int, NORMAL_SCALE as int),
    {
        let a = Vec2 { x: self.min_x, y: self.max_y };
        let b = Vec2 { x: self.max_x, y: self.max_y };
        LineSegment::new(a, b, up())
    }

    /// The right face, from top to bottom, facing right.
    pub fn right_edge(self) -> (r: LineSegment)
        ensures
            r.a@ == (self.max_x as int, self.max_y as int),
            r.b@ == (self.max_x as int, self.min_y as int),
            r.normal@ == (NORMAL_SCALE as int, 0int),
    {
        let a = Vec2 { x: self.max_x, y: self.max_y };
        let b = Vec2 { x: self.max_x, y: self.min_y };
        LineSegment::new(a, b, right())
    }

    /// Width.
    pub fn w(self) -> (r: i64)
        requires
            self.within(MAX_COORD as int),
        ensures
            r == self.max_x - self.min_x,
    {
        self.max_x - self.min_x
    }

    /// Height.
    pub fn h(self) -> (r: i64)
        requires
            self.within(MAX_COORD as int),
        ensures
            r == self.max_y - self.min_y,
    {
        self.max_y - self.min_y
    }
}

impl Shape {
    /// Coordinates and radius within `MAX_COORD`, ordered rectangle bounds and
    /// a non-negative radius.
    pub open spec fn wf(self) -> bool {
        match self {
            Shape::Point(p) => p.within(MAX_COORD as int),
            Shape::Circle(c) => c.within(MAX_COORD as int),
            Shape::Rect(r) => r.within(MAX_COORD as int),
        }
    }
}

pub fn left() -> (r: Vec2)
    ensures
        r@ == (-NORMAL_SCALE as int, 0int),
{
    Vec2 { x: -NORMAL_SCALE, y: 0 }
}

pub fn right() -> (r: Vec2)
    ensures
        r@ == (NORMAL_SCALE as int, 0int),
{
    Vec2 { x: NORMAL_SCALE, y: 0 }
}

pub fn down() -> (r: Vec2)
    ensures
        r@ == (0int, -NORMAL_SCALE as int),
{
    Vec2 { x: 0, y: -NORMAL_SCALE }
}

pub fn up() -> (r: Vec2)
    ensures
        r@ == (0int, NORMAL_SCALE as int),
{
    Vec2 { x: 0, y: NORMAL_SCALE }
}

} // verus!

verus! {

impl View for OverlapResult {
    type V = ((int, int), int);

    open spec fn view(&self) -> ((int, int), int) {
        (self.normal@, self.distance as int)
    }
}

impl SweepResult {
    /// A time of impact within bounds and a normal no longer than
    /// `NORMAL_SCALE` on each axis.
    pub open spec fn wf(self) -> bool {
        self.t.wf() && self.normal.within(NORMAL_SCALE as int)
    }
}

impl View for SweepResult {
    type V = ((int, int), (int, int));

    open spec fn view(&self) -> ((int, int), (int, int)) {
        (self.normal@, self.t@)
    }
}

} // verus!
