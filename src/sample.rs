//! Random points inside shapes.
use vstd::prelude::*;
use rand::Rng;
use crate::math::{Vec2, MAX_COORD, within};
use crate::shape::{Circle, Shape};
use crate::overlap::{point_in_circle, test_point_v_circle};

verus! {

/// How many candidate points a circle draws before it settles for its
/// center.
pub const SAMPLE_ATTEMPTS: u32 = 64;

/// Relies on `rand::Rng::gen_range` over `rand::thread_rng`: a value drawn
/// uniformly from the closed range `lo..=hi`, which panics when the range is
/// empty.
#[verifier::external_body]
fn random_between(lo: i64, hi: i64) -> (r: i64)
    requires
        lo <= hi,
    ensures
        lo <= r <= hi,
{
    rand::thread_rng().gen_range(lo..=hi)
}

/// Whether `p` is a point that `rand_in_shape` may return for `shape`: the
/// point itself; a point of the closed rectangle; a point of the open disk,
/// or the center.
pub open spec fn sample_of(shape: Shape, p: (int, int)) -> bool {
    match shape {
        Shape::Point(q) => p == q@,
        Shape::Rect(r) => r.min_x <= p.0 <= r.max_x && r.min_y <= p.1 <= r.max_y,
        Shape::Circle(c) => point_in_circle(p, c) || p == c.center@,
    }
}

/// A random point inside `shape`, uniform over the points of integer
/// coordinates in it. A circle draws points of its bounding square until one
/// lies inside the open disk, and gives its center when none did in
/// `SAMPLE_ATTEMPTS` draws.
pub fn rand_in_shape(shape: Shape) -> (r: Vec2)
    requires
        shape.wf(),
    ensures
        sample_of(shape, r@),
{
    match shape {
        Shape::Point(p) => p,
        Shape::Rect(r) => {
            let x = random_between(r.min_x, r.max_x);
            let y = random_between(r.min_y, r.max_y);
            Vec2 { x, y }
        },
        Shape::Circle(c) => rand_in_circle(c),
    }
}

/// The point `(dx, dy)` away from the center of `c`, kept only when it lies
/// inside the open disk.
pub fn circle_candidate(c: Circle, dx: i64, dy: i64) -> (r: Option<Vec2>)
    requires
        c.within(MAX_COORD as int),
        within(dx as int, c.r as int),
        within(dy as int, c.r as int),
    ensures
        r == if point_in_circle((c.center.x + dx, c.center.y + dy), c) {
            Some(Vec2 { x: (c.center.x + dx) as i64, y: (c.center.y + dy) as i64 })
        } else {
            None
        },
{
    let p = Vec2 { x: c.center.x + dx, y: c.center.y + dy };
    if test_point_v_circle(p, c) {
        Some(p)
    } else {
        None
    }
}

fn rand_in_circle(c: Circle) -> (r: Vec2)
    requires
        c.within(MAX_COORD as int),
    ensures
        point_in_circle(r@, c) || r == c.center,
{
    let mut attempt: u32 = 0;
    while attempt < SAMPLE_ATTEMPTS
        invariant
            c.within(MAX_COORD as int),
        decreases SAMPLE_ATTEMPTS - attempt,
    {
        let dx = random_between(-c.r, c.r);
        let dy = random_between(-c.r, c.r);
        if let Some(p) = circle_candidate(c, dx, dy) {
            return p;
        }
        attempt = attempt + 1;
    }
    c.center
}

} // verus!
