//! Crossings of two segments, and a circle pushed along a step against an edge.
use vstd::prelude::*;
use crate::math::{Vec2, Frac, WIDE_COORD, vsub, frac_lt, sign, axis, lemma_mul_within};
use crate::shape::{Circle, LineSegment};
use crate::sweep::{cross, normalized};

verus! {

/// Where the segment from `p0` to `p1` meets the one from `p2` to `p3`: the
/// fraction along the first and the fraction along the second, both within
/// `0..=1`. Parallel segments never meet.
pub open spec fn segment_crossing(p0: (int, int), p1: (int, int), p2: (int, int), p3: (int, int)) -> Option<((int, int), (int, int))> {
    let s1 = vsub(p1, p0);
    let s2 = vsub(p3, p2);
    let d = vsub(p0, p2);
    let den = cross(s1, s2);
    let t = normalized(cross(s2, d), den);
    let s = normalized(cross(s1, d), den);
    if den == 0 {
        None
    } else if 0 <= s.0 <= s.1 && 0 <= t.0 <= t.1 {
        Some((t, s))
    } else {
        None
    }
}

/// The fractions along the segments `p0..p1` and `p2..p3` at which they meet,
/// if they do. The meeting point is `p0 + t (p1 - p0)` for the first
/// fraction `t`.
pub fn get_line_intersection(p0: Vec2, p1: Vec2, p2: Vec2, p3: Vec2) -> (r: Option<(Frac, Frac)>)
    requires
        p0.within(WIDE_COORD as int),
        p1.within(WIDE_COORD as int),
        p2.within(WIDE_COORD as int),
        p3.within(WIDE_COORD as int),
    ensures
        match r {
            Some((t, s)) => segment_crossing(p0@, p1@, p2@, p3@) == Some((t@, s@)) && t.wf() && s.wf(),
            None => segment_crossing(p0@, p1@, p2@, p3@) is None,
        },
{
    let s1 = Vec2 { x: p1.x - p0.x, y: p1.y - p0.y };
    let s2 = Vec2 { x: p3.x - p2.x, y: p3.y - p2.y };
    let d = Vec2 { x: p0.x - p2.x, y: p0.y - p2.y };
    let ghost b: int = 2 * WIDE_COORD;
    proof {
        lemma_mul_within(s1.x as int, s2.y as int, b, b);
        lemma_mul_within(s1.y as int, s2.x as int, b, b);
        lemma_mul_within(s2.x as int, d.y as int, b, b);
        lemma_mul_within(s2.y as int, d.x as int, b, b);
        lemma_mul_within(s1.x as int, d.y as int, b, b);
        lemma_mul_within(s1.y as int, d.x as int, b, b);
    }
    let den = s1.x * s2.y - s1.y * s2.x;
    if den == 0 {
        return None;
    }
    let t_num = s2.x * d.y - s2.y * d.x;
    let s_num = s1.x * d.y - s1.y * d.x;
    let (t_num, s_num, den) = if den < 0 {
        (-t_num, -s_num, -den)
    } else {
        (t_num, s_num, den)
    };
    if s_num >= 0 && s_num <= den && t_num >= 0 && t_num <= den {
        Some((Frac { num: t_num, den }, Frac { num: s_num, den }))
    } else {
        None
    }
}

/// A circle moving along a step, and how far along it it may go: the
/// fraction `t` of `step`, and the normal of the edge that stopped it.
#[derive(Clone, Copy, Debug, PartialEq, Eq, Structural)]
pub struct ProjectionResult {
    pub step: Vec2,
    pub t: Frac,
    pub collision_normal: Vec2,
}

/// The point of circle `c` nearest to an edge whose normal lies along an
/// axis.
pub open spec fn nearest_to_edge(c: Circle, normal: (int, int)) -> (int, int) {
    (c.center.x - sign(normal.0) * c.r, c.center.y - sign(normal.1) * c.r)
}

/// The projection after testing `edge`: the point of the circle nearest the
/// edge moves along the step; where that motion crosses the edge earlier
/// than the fraction allowed so far, the fraction shrinks to the crossing
/// and the edge's normal is recorded.
pub open spec fn projected(result: ProjectionResult, c: Circle, edge: LineSegment) -> ProjectionResult {
    let from = nearest_to_edge(c, edge.normal@);
    let to = (from.0 + result.step.x, from.1 + result.step.y);
    match segment_crossing(edge.a@, edge.b@, from, to) {
        Some((_, s)) => if frac_lt(s, result.t@) {
            ProjectionResult { step: result.step, t: Frac { num: s.0 as i64, den: s.1 as i64 }, collision_normal: edge.normal }
        } else {
            result
        },
        None => result,
    }
}

/// Shortens the projection of circle `c` along its step where the circle's
/// point nearest `edge` crosses it earlier (see `projected`).
pub fn project_circle_v_segment(result: &mut ProjectionResult, c: Circle, edge: LineSegment)
    requires
        old(result).t.wf(),
        old(result).step.within(WIDE_COORD as int / 4),
        c.within(WIDE_COORD as int / 4),
        edge.normal@ == axis(-1, 0) || edge.normal@ == axis(1, 0) || edge.normal@ == axis(0, -1)
            || edge.normal@ == axis(0, 1),
        edge.a.within(WIDE_COORD as int),
        edge.b.within(WIDE_COORD as int),
    ensures
        *final(result) == projected(*old(result), c, edge),
        final(result).t.wf(),
{
    let off_x = if edge.normal.x > 0 { c.r } else if edge.normal.x < 0 { -c.r } else { 0 };
    let off_y = if edge.normal.y > 0 { c.r } else if edge.normal.y < 0 { -c.r } else { 0 };
    let circ_edge_a = Vec2 { x: c.center.x - off_x, y: c.center.y - off_y };
    let circ_edge_b = Vec2 { x: circ_edge_a.x + result.step.x, y: circ_edge_a.y + result.step.y };
    match get_line_intersection(edge.a, edge.b, circ_edge_a, circ_edge_b) {
        Some((_, s)) => {
            if s.lt(&result.t) {
                result.t = s;
                result.collision_normal = edge.normal;
            }
        },
        None => {},
    }
}

} // verus!
