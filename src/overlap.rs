//! Static overlap tests.
use vstd::prelude::*;
use crate::math::{Vec2, MAX_COORD, WIDE_COORD, within, len_sq, vsub, is_nearly, vec2_nearly, lemma_mul_within};
use crate::shape::{Interval, Circle, Rect, Shape};

verus! {

pub open spec fn interval_overlaps(a: Interval, b: Interval) -> bool {
    a.min < b.max && b.min < a.max
}

/// Whether `p` lies inside the open circle `c`.
pub open spec fn point_in_circle(p: (int, int), c: Circle) -> bool {
    len_sq(vsub(p, c.center@)) < c.r * c.r
}

/// Whether `p` lies strictly inside the box with the given bounds.
pub open spec fn point_in_box(p: (int, int), min_x: int, min_y: int, max_x: int, max_y: int) -> bool {
    min_x < p.0 < max_x && min_y < p.1 < max_y
}

pub open spec fn point_in_rect(p: (int, int), r: Rect) -> bool {
    point_in_box(p, r.min_x as int, r.min_y as int, r.max_x as int, r.max_y as int)
}

pub open spec fn rects_overlap(a: Rect, b: Rect) -> bool {
    a.min_y < b.max_y && b.min_y < a.max_y && a.min_x < b.max_x && b.min_x < a.max_x
}

/// A circle overlaps a rectangle when one of the rectangle's corners lies in
/// the circle, or the center lies in the rectangle grown by the radius along
/// one axis.
pub open spec fn circle_rect_overlap(c: Circle, b: Rect) -> bool {
    point_in_circle((b.min_x as int, b.min_y as int), c) || point_in_circle(
        (b.min_x as int, b.max_y as int),
        c,
    ) || point_in_circle((b.max_x as int, b.max_y as int), c) || point_in_circle(
        (b.max_x as int, b.min_y as int),
        c,
    ) || point_in_box(
        c.center@,
        b.min_x as int,
        b.min_y - c.r,
        b.max_x as int,
        b.max_y + c.r,
    ) || point_in_box(c.center@, b.min_x - c.r, b.min_y as int, b.max_x + c.r, b.max_y as int)
}

/// The circle centered on `b`'s center whose radius is the sum of both radii.
pub open spec fn merged_circle(a: Circle, b: Circle) -> Circle {
    Circle { center: b.center, r: (a.r + b.r) as i64 }
}

/// Whether the shapes `a` and `b` overlap.
pub open spec fn overlaps(a: Shape, b: Shape) -> bool {
    match (a, b) {
        (Shape::Point(p), Shape::Point(q)) => is_nearly(p@, q@),
        (Shape::Point(p), Shape::Circle(c)) => point_in_circle(p@, c),
        (Shape::Circle(c), Shape::Point(p)) => point_in_circle(p@, c),
        (Shape::Point(p), Shape::Rect(r)) => point_in_rect(p@, r),
        (Shape::Rect(r), Shape::Point(p)) => point_in_rect(p@, r),
        (Shape::Circle(c), Shape::Circle(d)) => point_in_circle(c.center@, merged_circle(c, d)),
        (Shape::Circle(c), Shape::Rect(r)) => circle_rect_overlap(c, r),
        (Shape::Rect(r), Shape::Circle(c)) => circle_rect_overlap(c, r),
        (Shape::Rect(r), Shape::Rect(s)) => rects_overlap(r, s),
    }
}

/// Whether the open ranges of `a` and `b` overlap.
pub fn test_interval_overlap(a: Interval, b: Interval) -> (r: bool)
    ensures
        r == interval_overlaps(a, b),
{
    a.min < b.max && b.min < a.max
}

/// The length by which `a`'s end reaches past `b`'s start, else the negated
/// length by which `b`'s end reaches past `a`'s start, else zero.
pub open spec fn interval_overlap(a: Interval, b: Interval) -> int {
    if a.max > b.min {
        a.max - b.min
    } else if b.max > a.min {
        a.min - b.max
    } else {
        0
    }
}

/// How far `a` reaches into `b` (see `interval_overlap`).
pub fn get_interval_overlap(a: Interval, b: Interval) -> (r: i64)
    requires
        within(a.min as int, WIDE_COORD as int),
        within(a.max as int, WIDE_COORD as int),
        within(b.min as int, WIDE_COORD as int),
        within(b.max as int, WIDE_COORD as int),
    ensures
        r == interval_overlap(a, b),
{
    if a.max > b.min {
        return a.max - b.min;
    }
    if b.max > a.min {
        return a.min - b.max;
    }
    0
}

/// Whether `p` lies inside the open circle `c`.
pub fn test_point_v_circle(p: Vec2, c: Circle) -> (r: bool)
    requires
        p.within(WIDE_COORD as int),
        c.within(WIDE_COORD as int),
    ensures
        r == point_in_circle(p@, c),
{
    let dx = p.x - c.center.x;
    let dy = p.y - c.center.y;
    proof {
        lemma_mul_within(dx as int, dx as int, 2 * WIDE_COORD, 2 * WIDE_COORD);
        lemma_mul_within(dy as int, dy as int, 2 * WIDE_COORD, 2 * WIDE_COORD);
        lemma_mul_within(c.r as int, c.r as int, WIDE_COORD as int, WIDE_COORD as int);
    }
    dx * dx + dy * dy < c.r * c.r
}

/// Whether `p` lies strictly inside `aabb`.
pub fn test_point_v_aabb(p: Vec2, aabb: Rect) -> (r: bool)
    ensures
        r == point_in_rect(p@, aabb),
{
    p.x > aabb.min_x && p.x < aabb.max_x && p.y > aabb.min_y && p.y < aabb.max_y
}

/// Whether two rectangles overlap on both axes, bounds excluded.
pub fn test_aabb_v_aabb(a: Rect, b: Rect) -> (r: bool)
    ensures
        r == rects_overlap(a, b),
{
    if !test_interval_overlap(Interval::new(a.min_y, a.max_y), Interval::new(b.min_y, b.max_y)) {
        return false;
    }
    if !test_interval_overlap(Interval::new(a.min_x, a.max_x), Interval::new(b.min_x, b.max_x)) {
        return false;
    }
    true
}

fn test_circle_v_aabb(a: Circle, b: Rect) -> (r: bool)
    requires
        a.within(MAX_COORD as int),
        b.within(MAX_COORD as int),
    ensures
        r == circle_rect_overlap(a, b),
{
    if test_point_v_circle(Vec2 { x: b.min_x, y: b.min_y }, a) {
        return true;
    }
    if test_point_v_circle(Vec2 { x: b.min_x, y: b.max_y }, a) {
        return true;
    }
    if test_point_v_circle(Vec2 { x: b.max_x, y: b.max_y }, a) {
        return true;
    }
    if test_point_v_circle(Vec2 { x: b.max_x, y: b.min_y }, a) {
        return true;
    }
    let aabb_y = Rect { min_x: b.min_x, max_x: b.max_x, min_y: b.min_y - a.r, max_y: b.max_y + a.r };
    if test_point_v_aabb(a.center, aabb_y) {
        return true;
    }
    let aabb_x = Rect { min_x: b.min_x - a.r, max_x: b.max_x + a.r, min_y: b.min_y, max_y: b.max_y };
    test_point_v_aabb(a.center, aabb_x)
}

/// Whether `a` and `b` overlap: see `overlaps` for the rule of each pair of
/// kinds.
pub fn test_overlap(a: Shape, b: Shape) -> (r: bool)
    requires
        a.wf(),
        b.wf(),
    ensures
        r == overlaps(a, b),
{
    match (a, b) {
        (Shape::Point(a), Shape::Point(b)) => vec2_nearly(a, b),
        (Shape::Point(a), Shape::Circle(b)) => test_point_v_circle(a, b),
        (Shape::Circle(b), Shape::Point(a)) => test_point_v_circle(a, b),
        (Shape::Point(a), Shape::Rect(b)) => test_point_v_aabb(a, b),
        (Shape::Rect(b), Shape::Point(a)) => test_point_v_aabb(a, b),
        (Shape::Circle(a), Shape::Circle(b)) => {
            let expanded_c = Circle { center: b.center, r: a.r + b.r };
            test_point_v_circle(a.center, expanded_c)
        },
        (Shape::Circle(a), Shape::Rect(b)) => test_circle_v_aabb(a, b),
        (Shape::Rect(b), Shape::Circle(a)) => test_circle_v_aabb(a, b),
        (Shape::Rect(a), Shape::Rect(b)) => test_aabb_v_aabb(a, b),
    }
}

/// Overlap does not depend on the order of the two shapes.
pub proof fn lemma_overlap_symmetric(a: Shape, b: Shape)
    ensures
        overlaps(a, b) == overlaps(b, a),
{
    match (a, b) {
        (Shape::Circle(c), Shape::Circle(d)) => {
            let (x, y) = (c.center.x - d.center.x, c.center.y - d.center.y);
            assert(x * x == (-x) * (-x) && y * y == (-y) * (-y)) by (nonlinear_arith);
        },
        _ => {},
    }
}

} // verus!
