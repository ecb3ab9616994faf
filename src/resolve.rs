//! Overlap resolution: the shortest push that separates two shapes.
use vstd::prelude::*;
use crate::math::{
    Vec2, MAX_COORD, WIDE_COORD, NORMAL_SCALE, len_sq, vsub, neg, unit_normal, floor_sqrt,
    unit_normal_of, isqrt, axis, lemma_floor_sqrt_unique, lemma_square_bound, lemma_unit_normal_on_axis,
    lemma_unit_normal_neg, lemma_unit_normal, lemma_floor_sqrt, abs,
};
use crate::shape::{Circle, Rect, Shape, OverlapResult, left, right, up, down};
use crate::overlap::{overlaps, point_in_circle, circle_rect_overlap};

verus! {

/// A push: a normal and a distance along it.
pub type Push = ((int, int), int);

/// Keeps `best` unless the candidate is strictly shorter.
pub open spec fn shorter(best: Push, normal: (int, int), distance: int) -> Push {
    if distance < best.1 {
        (normal, distance)
    } else {
        best
    }
}

/// Push of a point out through the nearest face of a box, the faces taken in
/// the order left, right, up, down.
pub open spec fn push_point_out_of_box(p: (int, int), min_x: int, min_y: int, max_x: int, max_y: int) -> Push {
    shorter(
        shorter(shorter((axis(-1, 0), p.0 - min_x), axis(1, 0), max_x - p.0), axis(0, 1), max_y - p.1),
        axis(0, -1),
        p.1 - min_y,
    )
}

/// Push of a point out of a circle: along the unit normal from the center to
/// the point (zero when they coincide), by the radius less the distance to
/// the center rounded down.
pub open spec fn push_point_out_of_circle(p: (int, int), center: (int, int), r: int) -> Push {
    (unit_normal(vsub(p, center)), r - floor_sqrt(len_sq(vsub(p, center))))
}

/// Push of a circle out of a rectangle: off the corner when the center lies
/// beyond a corner on both axes (checked in the order max/max, min/max,
/// max/min, min/min), else out of the rectangle grown by the radius.
pub open spec fn push_circle_out_of_rect(c: Circle, b: Rect) -> Push {
    let (x, y) = c.center@;
    if x > b.max_x && y > b.max_y {
        push_point_out_of_circle(c.center@, (b.max_x as int, b.max_y as int), c.r as int)
    } else if x < b.min_x && y > b.max_y {
        push_point_out_of_circle(c.center@, (b.min_x as int, b.max_y as int), c.r as int)
    } else if x > b.max_x && y < b.min_y {
        push_point_out_of_circle(c.center@, (b.max_x as int, b.min_y as int), c.r as int)
    } else if x < b.min_x && y < b.min_y {
        push_point_out_of_circle(c.center@, (b.min_x as int, b.min_y as int), c.r as int)
    } else {
        push_point_out_of_box(c.center@, b.min_x - c.r, b.min_y - c.r, b.max_x + c.r, b.max_y + c.r)
    }
}

/// The push of one point from another: no direction and an unbounded
/// distance, not to be applied.
pub open spec fn no_push() -> Push {
    ((0, 0), i64::MAX as int)
}

/// The four ways to push rectangle `a` out of `b`, in the order left, right,
/// down, up, each taken only when strictly shorter than the ones before.
pub open spec fn push_rect_out_of_rect(a: Rect, b: Rect) -> Push {
    shorter(
        shorter(
            shorter(shorter(no_push(), axis(-1, 0), a.max_x - b.min_x), axis(1, 0), b.max_x - a.min_x),
            axis(0, -1),
            a.max_y - b.min_y,
        ),
        axis(0, 1),
        b.max_y - a.min_y,
    )
}

pub open spec fn flipped(p: Push) -> Push {
    (neg(p.0), p.1)
}

/// The push that separates `a` from `b`. Pairs handled in the other order
/// are resolved as `b` against `a`, with the normal negated.
pub open spec fn mtv(a: Shape, b: Shape) -> Push {
    match (a, b) {
        (Shape::Point(_), Shape::Point(_)) => no_push(),
        (Shape::Point(p), Shape::Rect(r)) => push_point_out_of_box(
            p@,
            r.min_x as int,
            r.min_y as int,
            r.max_x as int,
            r.max_y as int,
        ),
        (Shape::Rect(r), Shape::Point(p)) => flipped(
            push_point_out_of_box(p@, r.min_x as int, r.min_y as int, r.max_x as int, r.max_y as int),
        ),
        (Shape::Point(p), Shape::Circle(c)) => push_point_out_of_circle(p@, c.center@, c.r as int),
        (Shape::Circle(c), Shape::Point(p)) => flipped(
            push_point_out_of_circle(p@, c.center@, c.r as int),
        ),
        (Shape::Circle(c), Shape::Circle(d)) => push_point_out_of_circle(
            c.center@,
            d.center@,
            c.r + d.r,
        ),
        (Shape::Circle(c), Shape::Rect(r)) => push_circle_out_of_rect(c, r),
        (Shape::Rect(r), Shape::Circle(c)) => flipped(push_circle_out_of_rect(c, r)),
        (Shape::Rect(r), Shape::Rect(s)) => push_rect_out_of_rect(r, s),
    }
}

/// Push of a point out through the nearest face of `aabb`.
pub fn get_overlap_point_v_aabb(p: Vec2, aabb: Rect) -> (r: OverlapResult)
    requires
        p.within(WIDE_COORD as int),
        aabb.within(WIDE_COORD as int),
    ensures
        r@ == push_point_out_of_box(
            p@,
            aabb.min_x as int,
            aabb.min_y as int,
            aabb.max_x as int,
            aabb.max_y as int,
        ),
{
    let mut min_axis = left();
    let mut min_mag = p.x - aabb.min_x;
    let r_mag = aabb.max_x - p.x;
    if r_mag < min_mag {
        min_axis = right();
        min_mag = r_mag;
    }
    let u_mag = aabb.max_y - p.y;
    if u_mag < min_mag {
        min_axis = up();
        min_mag = u_mag;
    }
    let d_mag = p.y - aabb.min_y;
    if d_mag < min_mag {
        min_axis = down();
        min_mag = d_mag;
    }
    OverlapResult { normal: min_axis, distance: min_mag }
}

/// Push of a point out of circle `c`, away from its center.
pub fn get_overlap_point_v_circle(p: Vec2, c: Circle) -> (r: OverlapResult)
    requires
        p.within(WIDE_COORD as int),
        c.within(WIDE_COORD as int),
    ensures
        r@ == push_point_out_of_circle(p@, c.center@, c.r as int),
        r.normal.within(2 * WIDE_COORD),
{
    let dist = Vec2 { x: p.x - c.center.x, y: p.y - c.center.y };
    proof {
        lemma_square_bound(dist.x as int, 2 * WIDE_COORD);
        lemma_square_bound(dist.y as int, 2 * WIDE_COORD);
    }
    let sq = (dist.x as i128) * (dist.x as i128) + (dist.y as i128) * (dist.y as i128);
    let dist_mag = isqrt(sq);
    proof {
        assert(dist_mag <= 4 * WIDE_COORD) by (nonlinear_arith)
            requires
                0 <= dist_mag,
                dist_mag * dist_mag <= sq,
                sq <= 2 * (2 * WIDE_COORD) * (2 * WIDE_COORD),
        ;
    }
    OverlapResult { normal: unit_normal_of(dist), distance: c.r - dist_mag as i64 }
}

fn flip(r: OverlapResult) -> (f: OverlapResult)
    requires
        r.normal.within(2 * WIDE_COORD),
    ensures
        f@ == flipped(r@),
{
    OverlapResult { normal: Vec2 { x: -r.normal.x, y: -r.normal.y }, distance: r.distance }
}

fn get_overlap_circle_v_aabb(a: Circle, b: Rect) -> (r: OverlapResult)
    requires
        a.within(MAX_COORD as int),
        b.within(MAX_COORD as int),
    ensures
        r@ == push_circle_out_of_rect(a, b),
        r.normal.within(2 * WIDE_COORD),
{
    if a.center.x > b.max_x && a.center.y > b.max_y {
        let corner_c = Circle { center: Vec2 { x: b.max_x, y: b.max_y }, r: a.r };
        return get_overlap_point_v_circle(a.center, corner_c);
    }
    if a.center.x < b.min_x && a.center.y > b.max_y {
        let corner_c = Circle { center: Vec2 { x: b.min_x, y: b.max_y }, r: a.r };
        return get_overlap_point_v_circle(a.center, corner_c);
    }
    if a.center.x > b.max_x && a.center.y < b.min_y {
        let corner_c = Circle { center: Vec2 { x: b.max_x, y: b.min_y }, r: a.r };
        return get_overlap_point_v_circle(a.center, corner_c);
    }
    if a.center.x < b.min_x && a.center.y < b.min_y {
        let corner_c = Circle { center: Vec2 { x: b.min_x, y: b.min_y }, r: a.r };
        return get_overlap_point_v_circle(a.center, corner_c);
    }
    let aabb_expanded = Rect {
        min_x: b.min_x - a.r,
        max_x: b.max_x + a.r,
        min_y: b.min_y - a.r,
        max_y: b.max_y + a.r,
    };
    get_overlap_point_v_aabb(a.center, aabb_expanded)
}

fn get_overlap_aabb_v_aabb(a: Rect, b: Rect) -> (r: OverlapResult)
    requires
        a.within(MAX_COORD as int),
        b.within(MAX_COORD as int),
    ensures
        r@ == push_rect_out_of_rect(a, b),
{
    let mut min_distance = i64::MAX;
    let mut min_normal = Vec2::zero();
    let distance = a.max_x - b.min_x;
    if distance < min_distance {
        min_distance = distance;
        min_normal = left();
    }
    let distance = b.max_x - a.min_x;
    if distance < min_distance {
        min_distance = distance;
        min_normal = right();
    }
    let distance = a.max_y - b.min_y;
    if distance < min_distance {
        min_distance = distance;
        min_normal = down();
    }
    let distance = b.max_y - a.min_y;
    if distance < min_distance {
        min_distance = distance;
        min_normal = up();
    }
    OverlapResult { normal: min_normal, distance: min_distance }
}

/// The push that separates `a` from `b`: moving `a` by `distance` along
/// `normal` ends the overlap. See `mtv` for the rule of each pair of kinds.
pub fn get_overlap(a: Shape, b: Shape) -> (r: OverlapResult)
    requires
        a.wf(),
        b.wf(),
    ensures
        r@ == mtv(a, b),
{
    match (a, b) {
        (Shape::Point(_), Shape::Point(_)) => OverlapResult { normal: Vec2::zero(), distance: i64::MAX },
        (Shape::Point(a), Shape::Rect(b)) => get_overlap_point_v_aabb(a, b),
        (Shape::Rect(b), Shape::Point(a)) => flip(get_overlap_point_v_aabb(a, b)),
        (Shape::Point(a), Shape::Circle(b)) => get_overlap_point_v_circle(a, b),
        (Shape::Circle(b), Shape::Point(a)) => flip(get_overlap_point_v_circle(a, b)),
        (Shape::Circle(a), Shape::Circle(b)) => {
            let c = Circle { center: b.center, r: a.r + b.r };
            get_overlap_point_v_circle(a.center, c)
        },
        (Shape::Circle(a), Shape::Rect(b)) => get_overlap_circle_v_aabb(a, b),
        (Shape::Rect(b), Shape::Circle(a)) => flip(get_overlap_circle_v_aabb(a, b)),
        (Shape::Rect(a), Shape::Rect(b)) => get_overlap_aabb_v_aabb(a, b),
    }
}

/// Whether the shortest pushes of rectangle `a` out of `b` tie between the
/// two opposite faces of one axis, so that the order of the two rectangles
/// decides the face.
pub open spec fn rect_push_tied(a: Rect, b: Rect) -> bool {
    let l = a.max_x - b.min_x;
    let r = b.max_x - a.min_x;
    let d = a.max_y - b.min_y;
    let u = b.max_y - a.min_y;
    (l == r && l <= d && l <= u) || (d == u && d < l && d < r)
}

proof fn lemma_push_out_of_circle_swapped(p: (int, int), q: (int, int), r: int)
    ensures
        push_point_out_of_circle(p, q, r).0 == neg(push_point_out_of_circle(q, p, r).0),
        push_point_out_of_circle(p, q, r).1 == push_point_out_of_circle(q, p, r).1,
{
    let v = vsub(p, q);
    assert(vsub(q, p) == neg(v));
    lemma_unit_normal_neg(v);
    assert(neg(neg(unit_normal(v))) == unit_normal(v));
    assert(len_sq(neg(v)) == len_sq(v)) by (nonlinear_arith);
}

/// Swapping the two shapes negates the push normal and keeps its distance,
/// except where two rectangles tie between opposite faces.
pub proof fn lemma_mtv_antisymmetric(a: Shape, b: Shape)
    requires
        a.wf(),
        b.wf(),
        (match (a, b) {
            (Shape::Rect(r), Shape::Rect(s)) => !rect_push_tied(r, s),
            _ => true,
        }),
    ensures
        mtv(a, b).0 == neg(mtv(b, a).0),
        mtv(a, b).1 == mtv(b, a).1,
{
    match (a, b) {
        (Shape::Circle(c), Shape::Circle(d)) => {
            lemma_push_out_of_circle_swapped(c.center@, d.center@, c.r + d.r);
            assert(c.r + d.r == d.r + c.r);
        },
        (Shape::Point(_), Shape::Point(_)) => {
            assert(neg((0int, 0int)) == (0int, 0int));
        },
        _ => {
            let x = mtv(b, a);
            assert(neg(neg(x.0)) == x.0);
        },
    }
}

/// `s` moved by `(dx, dy)`.
pub open spec fn moved(s: Shape, dx: int, dy: int) -> Shape {
    match s {
        Shape::Point(p) => Shape::Point(Vec2 { x: (p.x + dx) as i64, y: (p.y + dy) as i64 }),
        Shape::Circle(c) => Shape::Circle(
            Circle { center: Vec2 { x: (c.center.x + dx) as i64, y: (c.center.y + dy) as i64 }, r: c.r },
        ),
        Shape::Rect(r) => Shape::Rect(
            Rect {
                min_x: (r.min_x + dx) as i64,
                min_y: (r.min_y + dy) as i64,
                max_x: (r.max_x + dx) as i64,
                max_y: (r.max_y + dy) as i64,
            },
        ),
    }
}

/// `s` moved by the push `p`: `p.1` units along the unit normal
/// `p.0 / NORMAL_SCALE`, rounded down to whole units.
pub open spec fn pushed(s: Shape, p: Push) -> Shape {
    moved(s, (p.0.0 * p.1) / (NORMAL_SCALE as int), (p.0.1 * p.1) / (NORMAL_SCALE as int))
}

/// Whether `n` is one of the four unit normals along the axes.
pub open spec fn is_axis(n: (int, int)) -> bool {
    n == axis(-1, 0) || n == axis(1, 0) || n == axis(0, -1) || n == axis(0, 1)
}

/// A non-zero vector along an axis.
pub open spec fn on_axis(v: (int, int)) -> bool {
    v != (0int, 0int) && (v.0 == 0 || v.1 == 0)
}

/// Whether the center of `c` lies beyond a corner of `b` on both axes.
pub open spec fn beyond_corner(c: Circle, b: Rect) -> bool {
    (c.center.x > b.max_x || c.center.x < b.min_x) && (c.center.y > b.max_y || c.center.y < b.min_y)
}

/// Whether the push of `a` out of `b` goes straight along an axis: always
/// between points and rectangles (two points aside, whose push is not to be
/// applied); for a circle, when the point or center it is pushed from lies
/// along an axis from it, or, against a rectangle, when its center does not
/// lie beyond a corner.
pub open spec fn push_along_axis(a: Shape, b: Shape) -> bool {
    match (a, b) {
        (Shape::Point(_), Shape::Point(_)) => false,
        (Shape::Point(p), Shape::Circle(c)) => on_axis(vsub(p@, c.center@)),
        (Shape::Circle(c), Shape::Point(p)) => on_axis(vsub(p@, c.center@)),
        (Shape::Circle(c), Shape::Circle(d)) => on_axis(vsub(c.center@, d.center@)),
        (Shape::Circle(c), Shape::Rect(r)) => !beyond_corner(c, r),
        (Shape::Rect(r), Shape::Circle(c)) => !beyond_corner(c, r),
        _ => true,
    }
}

/// A push along an axis has a unit normal along that axis.
pub proof fn lemma_push_along_axis(a: Shape, b: Shape)
    requires
        a.wf(),
        b.wf(),
        push_along_axis(a, b),
    ensures
        is_axis(mtv(a, b).0),
{
    match (a, b) {
        (Shape::Point(p), Shape::Rect(r)) => {
            lemma_push_out_of_box_cases(p@, r.min_x as int, r.min_y as int, r.max_x as int, r.max_y as int);
        },
        (Shape::Rect(r), Shape::Point(p)) => {
            lemma_push_out_of_box_cases(p@, r.min_x as int, r.min_y as int, r.max_x as int, r.max_y as int);
        },
        (Shape::Point(p), Shape::Circle(c)) => {
            lemma_unit_normal_on_axis(vsub(p@, c.center@));
        },
        (Shape::Circle(c), Shape::Point(p)) => {
            lemma_unit_normal_on_axis(vsub(p@, c.center@));
        },
        (Shape::Circle(c), Shape::Circle(d)) => {
            lemma_unit_normal_on_axis(vsub(c.center@, d.center@));
        },
        (Shape::Circle(c), Shape::Rect(r)) => {
            lemma_push_out_of_box_cases(c.center@, r.min_x - c.r, r.min_y - c.r, r.max_x + c.r, r.max_y + c.r);
        },
        (Shape::Rect(r), Shape::Circle(c)) => {
            lemma_push_out_of_box_cases(c.center@, r.min_x - c.r, r.min_y - c.r, r.max_x + c.r, r.max_y + c.r);
        },
        _ => {},
    }
}

/// Moving the first of two overlapping shapes by their push ends the
/// overlap whenever the push goes straight along an axis (see
/// `push_along_axis`). Off the axes the normal is rounded, and so is the
/// move, which may then fall short of the boundary by a fraction of a unit.
pub proof fn lemma_mtv_separates(a: Shape, b: Shape)
    requires
        a.wf(),
        b.wf(),
        overlaps(a, b),
        push_along_axis(a, b),
    ensures
        !overlaps(pushed(a, mtv(a, b)), b),
{
    let m = mtv(a, b);
    lemma_push_along_axis(a, b);
    lemma_unit_scale(m.0, m.1);
    match (a, b) {
        (Shape::Point(p), Shape::Rect(r)) => {
            lemma_push_out_of_box_cases(p@, r.min_x as int, r.min_y as int, r.max_x as int, r.max_y as int);
        },
        (Shape::Rect(r), Shape::Point(p)) => {
            lemma_push_out_of_box_cases(p@, r.min_x as int, r.min_y as int, r.max_x as int, r.max_y as int);
        },
        (Shape::Rect(r), Shape::Rect(q)) => {
            assert(m == (axis(-1, 0), r.max_x - q.min_x) || m == (axis(1, 0), q.max_x - r.min_x)
                || m == (axis(0, -1), r.max_y - q.min_y) || m == (axis(0, 1), q.max_y - r.min_y));
        },
        (Shape::Point(p), Shape::Circle(c)) => {
            lemma_axis_push_clears_circle(p@, c.center@, c.r as int);
            assert(!overlaps(pushed(a, m), b));
        },
        (Shape::Circle(c), Shape::Point(p)) => {
            let pm = push_point_out_of_circle(p@, c.center@, c.r as int);
            lemma_unit_normal_on_axis(vsub(p@, c.center@));
            lemma_unit_scale(pm.0, pm.1);
            lemma_axis_push_clears_circle(p@, c.center@, c.r as int);
            assert(!overlaps(pushed(a, m), b));
        },
        (Shape::Circle(c), Shape::Circle(d)) => {
            lemma_axis_push_clears_circle(c.center@, d.center@, c.r + d.r);
            assert(!overlaps(pushed(a, m), b));
        },
        (Shape::Circle(c), Shape::Rect(r)) => {
            lemma_axis_push_clears_rect(c, r);
            assert(!overlaps(pushed(a, m), b));
        },
        (Shape::Rect(r), Shape::Circle(c)) => {
            let pm = push_circle_out_of_rect(c, r);
            lemma_push_out_of_box_cases(c.center@, r.min_x - c.r, r.min_y - c.r, r.max_x + c.r, r.max_y + c.r);
            lemma_unit_scale(pm.0, pm.1);
            lemma_axis_push_clears_rect(c, r);
            assert(!overlaps(pushed(a, m), b));
        },
        _ => {},
    }
}

/// Pushing a point out of a circle in any direction: moved by the push taken
/// exactly, `distance / NORMAL_SCALE` along the normal, the point ends at
/// least `(1 - 3 / NORMAL_SCALE) r` from the center. Stated scaled by
/// `NORMAL_SCALE`, over squares.
pub proof fn lemma_circle_push_separates(q: (int, int), center: (int, int), r: int)
    requires
        len_sq(vsub(q, center)) < r * r,
        vsub(q, center) != (0int, 0int),
        r >= 0,
    ensures
        ({
            let m = push_point_out_of_circle(q, center, r);
            let s = NORMAL_SCALE as int;
            let v = vsub(q, center);
            len_sq((s * v.0 + m.0.0 * m.1, s * v.1 + m.0.1 * m.1)) >= (s - 3) * (s - 3) * (r * r)
        }),
{
    let v = vsub(q, center);
    let l = len_sq(v);
    let s = NORMAL_SCALE as int;
    let m = push_point_out_of_circle(q, center, r);
    let n = m.0;
    let d = m.1;
    lemma_unit_normal(v);
    assert(l >= 0) by (nonlinear_arith)
        requires
            l == v.0 * v.0 + v.1 * v.1,
    ;
    lemma_floor_sqrt(l);
    let k = floor_sqrt(l);
    assert(k < r) by (nonlinear_arith)
        requires
            k >= 0,
            r >= 0,
            k * k <= l,
            l < r * r,
    ;
    assert(d == r - k);
    assert(l > 0) by (nonlinear_arith)
        requires
            v.0 != 0 || v.1 != 0,
            l == v.0 * v.0 + v.1 * v.1,
    ;
    let (v0, v1) = (abs(v.0), abs(v.1));
    let (n0, n1) = (abs(n.0), abs(n.1));
    assert(v0 * v0 == v.0 * v.0 && v1 * v1 == v.1 * v.1 && n0 * n0 == n.0 * n.0 && n1 * n1 == n.1 * n.1)
        by (nonlinear_arith)
        requires
            v0 == v.0 || v0 == -v.0,
            v1 == v.1 || v1 == -v.1,
            n0 == n.0 || n0 == -n.0,
            n1 == n.1 || n1 == -n.1,
    ;
    // the dot product of the normal with v is the sum of the products of magnitudes
    assert(n.0 * v.0 == n0 * v0 && n.1 * v.1 == n1 * v1) by (nonlinear_arith)
        requires
            n.0 * v.0 >= 0,
            n.1 * v.1 >= 0,
            v0 == if v.0 < 0 { -v.0 } else { v.0 },
            v1 == if v.1 < 0 { -v.1 } else { v.1 },
            n0 == if n.0 < 0 { -n.0 } else { n.0 },
            n1 == if n.1 < 0 { -n.1 } else { n.1 },
    ;
    // each coordinate of v is at most k
    assert(v0 <= k && v1 <= k) by (nonlinear_arith)
        requires
            v0 >= 0,
            v1 >= 0,
            k >= 0,
            v0 * v0 + v1 * v1 == l,
            l < (k + 1) * (k + 1),
    ;
    // b_i = (|n_i| + 1) |v_i| bounds s v_i^2 / sqrt(l) from above
    let b0 = (n0 + 1) * v0;
    let b1 = (n1 + 1) * v1;
    let x0 = s * s * (v0 * v0 * (v0 * v0));
    let x1 = s * s * (v1 * v1 * (v1 * v1));
    assert(b0 * b0 * l >= x0 && b0 >= 0) by (nonlinear_arith)
        requires
            v0 >= 0,
            n0 >= 0,
            s * s * (v0 * v0) < (n0 + 1) * (n0 + 1) * l,
            b0 == (n0 + 1) * v0,
            x0 == s * s * (v0 * v0 * (v0 * v0)),
    ;
    assert(b1 * b1 * l >= x1 && b1 >= 0) by (nonlinear_arith)
        requires
            v1 >= 0,
            n1 >= 0,
            s * s * (v1 * v1) < (n1 + 1) * (n1 + 1) * l,
            b1 == (n1 + 1) * v1,
            x1 == s * s * (v1 * v1 * (v1 * v1)),
    ;
    let pp = b0 * b0 * l;
    let qq = b1 * b1 * l;
    let rr = b0 * b1 * l;
    let yy = s * s * (v0 * v0) * (v1 * v1);
    assert(rr * rr == pp * qq) by (nonlinear_arith)
        requires
            pp == b0 * b0 * l,
            qq == b1 * b1 * l,
            rr == b0 * b1 * l,
    ;
    assert(x0 * x1 == yy * yy && x0 >= 0 && x1 >= 0 && yy >= 0) by (nonlinear_arith)
        requires
            x0 == s * s * (v0 * v0 * (v0 * v0)),
            x1 == s * s * (v1 * v1 * (v1 * v1)),
            yy == s * s * (v0 * v0) * (v1 * v1),
    ;
    assert(pp * qq >= x0 * x1) by (nonlinear_arith)
        requires
            pp >= x0 >= 0,
            qq >= x1 >= 0,
    ;
    assert(rr >= 0) by (nonlinear_arith)
        requires
            b0 >= 0,
            b1 >= 0,
            l > 0,
            rr == b0 * b1 * l,
    ;
    assert(rr >= yy) by (nonlinear_arith)
        requires
            rr >= 0,
            yy >= 0,
            rr * rr >= yy * yy,
    ;
    assert((b0 + b1) * (b0 + b1) * l == pp + qq + 2 * rr) by (nonlinear_arith)
        requires
            pp == b0 * b0 * l,
            qq == b1 * b1 * l,
            rr == b0 * b1 * l,
    ;
    assert(x0 + x1 + 2 * yy == s * s * l * l) by (nonlinear_arith)
        requires
            x0 == s * s * (v0 * v0 * (v0 * v0)),
            x1 == s * s * (v1 * v1 * (v1 * v1)),
            yy == s * s * (v0 * v0) * (v1 * v1),
            l == v0 * v0 + v1 * v1,
    ;
    assert(b0 + b1 >= s * k) by (nonlinear_arith)
        requires
            (b0 + b1) * (b0 + b1) * l >= s * s * l * l,
            l > 0,
            k >= 0,
            k * k <= l,
            s > 0,
            b0 >= 0,
            b1 >= 0,
    ;
    // so the normal's component along v is at least (s - 2) k
    let dot_nv = n.0 * v.0 + n.1 * v.1;
    assert(dot_nv >= (s - 2) * k) by (nonlinear_arith)
        requires
            dot_nv == n0 * v0 + n1 * v1,
            b0 == (n0 + 1) * v0,
            b1 == (n1 + 1) * v1,
            b0 + b1 >= s * k,
            v0 <= k,
            v1 <= k,
    ;
    let nn = n.0 * n.0 + n.1 * n.1;
    assert(nn >= (s - 3) * (s - 3)) by (nonlinear_arith)
        requires
            s == 4096,
            s * s - 4 * s - 2 < nn,
    ;
    let w0 = s * v.0 + n.0 * d;
    let w1 = s * v.1 + n.1 * d;
    let w = (w0, w1);
    lemma_expand_square(v.0, n.0, s, d);
    lemma_expand_square(v.1, n.1, s, d);
    assert(s * d * (n.0 * v.0) + s * d * (n.1 * v.1) == s * d * dot_nv) by (nonlinear_arith)
        requires
            dot_nv == n.0 * v.0 + n.1 * v.1,
    ;
    assert(d * d * (n.0 * n.0) + d * d * (n.1 * n.1) == d * d * nn) by (nonlinear_arith)
        requires
            nn == n.0 * n.0 + n.1 * n.1,
    ;
    assert(s * s * (v.0 * v.0) + s * s * (v.1 * v.1) == s * s * l) by (nonlinear_arith)
        requires
            l == v.0 * v.0 + v.1 * v.1,
    ;
    assert(w0 * w0 + w1 * w1 == s * s * l + 2 * (s * d * dot_nv) + d * d * nn);
    assert(2 * (s * d * dot_nv) == 2 * s * d * dot_nv) by (nonlinear_arith);
    let t = (s - 3) * (s - 3);
    assert(d * k >= 0 && d * d >= 0 && k * k >= 0) by (nonlinear_arith)
        requires
            d >= 1,
            k >= 0,
    ;
    assert(s * s * l >= t * (k * k)) by (nonlinear_arith)
        requires
            s == 4096,
            t == (s - 3) * (s - 3),
            l >= k * k,
            k * k >= 0,
    ;
    assert(d * dot_nv >= (s - 2) * (d * k)) by (nonlinear_arith)
        requires
            d >= 1,
            dot_nv >= (s - 2) * k,
    ;
    assert(2 * s * d * dot_nv >= 2 * t * (d * k)) by (nonlinear_arith)
        requires
            s == 4096,
            t == (s - 3) * (s - 3),
            d * dot_nv >= (s - 2) * (d * k),
            d * k >= 0,
    ;
    assert(d * d * nn >= t * (d * d)) by (nonlinear_arith)
        requires
            nn >= t,
            d * d >= 0,
    ;
    assert(r * r == k * k + 2 * (d * k) + d * d) by (nonlinear_arith)
        requires
            r == k + d,
    ;
    assert(t * (r * r) == t * (k * k) + 2 * t * (d * k) + t * (d * d)) by (nonlinear_arith)
        requires
            r * r == k * k + 2 * (d * k) + d * d,
    ;
}

/// For a pair whose push goes round a circle (a point or circle against a
/// circle, a circle against a point, a circle beyond a corner of a
/// rectangle): the vector from the center or corner pushed from to the
/// point, center or corner being moved, and the distance at which they no
/// longer overlap there.
pub open spec fn round_gap(a: Shape, b: Shape) -> Option<((int, int), int)> {
    match (a, b) {
        (Shape::Point(p), Shape::Circle(c)) => Some((vsub(p@, c.center@), c.r as int)),
        (Shape::Circle(c), Shape::Point(p)) => Some((vsub(c.center@, p@), c.r as int)),
        (Shape::Circle(c), Shape::Circle(d)) => Some((vsub(c.center@, d.center@), c.r + d.r)),
        (Shape::Circle(c), Shape::Rect(r)) => if beyond_corner(c, r) {
            Some((vsub(c.center@, nearest_corner(c, r)), c.r as int))
        } else {
            None
        },
        (Shape::Rect(r), Shape::Circle(c)) => if beyond_corner(c, r) {
            Some((vsub(nearest_corner(c, r), c.center@), c.r as int))
        } else {
            None
        },
        _ => None,
    }
}

/// The corner of `b` that the center of `c` lies beyond, in the order
/// max/max, min/max, max/min, min/min.
pub open spec fn nearest_corner(c: Circle, b: Rect) -> (int, int) {
    let (x, y) = c.center@;
    if x > b.max_x && y > b.max_y {
        (b.max_x as int, b.max_y as int)
    } else if x < b.min_x && y > b.max_y {
        (b.min_x as int, b.max_y as int)
    } else if x > b.max_x && y < b.min_y {
        (b.max_x as int, b.min_y as int)
    } else {
        (b.min_x as int, b.min_y as int)
    }
}

/// Moving the first of two overlapping round shapes by their push, taken
/// exactly (`distance / NORMAL_SCALE` along the normal), in any direction,
/// leaves the two at least `(1 - 3 / NORMAL_SCALE)` of the distance at which
/// they stop overlapping apart: stated scaled by `NORMAL_SCALE`, over
/// squares. Centers that coincide have no direction and are left out; a
/// circle beyond a corner is no longer within its radius of that corner.
pub proof fn lemma_mtv_separates_round(a: Shape, b: Shape)
    requires
        a.wf(),
        b.wf(),
        overlaps(a, b),
        round_gap(a, b) matches Some(g) && g.0 != (0int, 0int),
    ensures
        ({
            let g = round_gap(a, b).unwrap();
            let m = mtv(a, b);
            let s = NORMAL_SCALE as int;
            len_sq((s * g.0.0 + m.0.0 * m.1, s * g.0.1 + m.0.1 * m.1)) >= (s - 3) * (s - 3) * (g.1 * g.1)
        }),
{
    let s = NORMAL_SCALE as int;
    match (a, b) {
        (Shape::Point(p), Shape::Circle(c)) => {
            lemma_circle_push_separates(p@, c.center@, c.r as int);
        },
        (Shape::Circle(c), Shape::Point(p)) => {
            lemma_circle_push_separates_flipped(p@, c.center@, c.r as int);
        },
        (Shape::Circle(c), Shape::Circle(d)) => {
            lemma_circle_push_separates(c.center@, d.center@, c.r + d.r);
        },
        (Shape::Circle(c), Shape::Rect(r)) => {
            lemma_corner_overlap(c, r);
            lemma_circle_push_separates(c.center@, nearest_corner(c, r), c.r as int);
        },
        (Shape::Rect(r), Shape::Circle(c)) => {
            lemma_corner_overlap(c, r);
            lemma_circle_push_separates_flipped(c.center@, nearest_corner(c, r), c.r as int);
        },
        _ => {},
    }
}

/// `lemma_circle_push_separates` seen from the circle: moving the center
/// away from the point by the reversed push.
proof fn lemma_circle_push_separates_flipped(q: (int, int), center: (int, int), r: int)
    requires
        len_sq(vsub(q, center)) < r * r,
        vsub(q, center) != (0int, 0int),
        r >= 0,
    ensures
        ({
            let m = flipped(push_point_out_of_circle(q, center, r));
            let s = NORMAL_SCALE as int;
            let v = vsub(center, q);
            len_sq((s * v.0 + m.0.0 * m.1, s * v.1 + m.0.1 * m.1)) >= (s - 3) * (s - 3) * (r * r)
        }),
{
    let s = NORMAL_SCALE as int;
    let v = vsub(q, center);
    let pm = push_point_out_of_circle(q, center, r);
    lemma_circle_push_separates(q, center, r);
    let w0 = s * v.0 + pm.0.0 * pm.1;
    let w1 = s * v.1 + pm.0.1 * pm.1;
    assert(s * (-v.0) + (-pm.0.0) * pm.1 == -w0 && s * (-v.1) + (-pm.0.1) * pm.1 == -w1) by (nonlinear_arith)
        requires
            w0 == s * v.0 + pm.0.0 * pm.1,
            w1 == s * v.1 + pm.0.1 * pm.1,
    ;
    assert((-w0) * (-w0) + (-w1) * (-w1) == w0 * w0 + w1 * w1) by (nonlinear_arith);
}

/// A circle beyond a corner that overlaps the rectangle holds that corner.
proof fn lemma_corner_overlap(c: Circle, b: Rect)
    requires
        b.within(MAX_COORD as int),
        c.within(MAX_COORD as int),
        beyond_corner(c, b),
        circle_rect_overlap(c, b),
    ensures
        len_sq(vsub(c.center@, nearest_corner(c, b))) < c.r * c.r,
        vsub(c.center@, nearest_corner(c, b)) != (0int, 0int),
{
    let k = nearest_corner(c, b);
    let u = vsub(c.center@, k);
    assert(len_sq(u) == len_sq(vsub(k, c.center@))) by (nonlinear_arith)
        requires
            vsub(k, c.center@) == neg(u),
    ;
    let d = vsub(k, c.center@);
    assert(d.0 != 0 && d.1 != 0);
    let e1 = vsub((b.min_x as int, b.min_y as int), c.center@);
    let e2 = vsub((b.min_x as int, b.max_y as int), c.center@);
    let e3 = vsub((b.max_x as int, b.max_y as int), c.center@);
    let e4 = vsub((b.max_x as int, b.min_y as int), c.center@);
    lemma_farther(e1, d);
    lemma_farther(e2, d);
    lemma_farther(e3, d);
    lemma_farther(e4, d);
}

/// A vector at least as long as `d` on each axis is at least as long.
proof fn lemma_farther(e: (int, int), d: (int, int))
    requires
        abs(e.0) >= abs(d.0),
        abs(e.1) >= abs(d.1),
    ensures
        len_sq(e) >= len_sq(d),
{
    assert(e.0 * e.0 >= d.0 * d.0 && e.1 * e.1 >= d.1 * d.1) by (nonlinear_arith)
        requires
            abs(e.0) >= abs(d.0),
            abs(e.1) >= abs(d.1),
            abs(e.0) == if e.0 < 0 { -e.0 } else { e.0 },
            abs(e.1) == if e.1 < 0 { -e.1 } else { e.1 },
            abs(d.0) == if d.0 < 0 { -d.0 } else { d.0 },
            abs(d.1) == if d.1 < 0 { -d.1 } else { d.1 },
    ;
}

proof fn lemma_expand_square(x: int, y: int, s: int, d: int)
    ensures
        (s * x + y * d) * (s * x + y * d) == s * s * (x * x) + 2 * (s * d * (y * x)) + d * d * (y * y),
{
    let a = s * x;
    let b = y * d;
    assert((a + b) * (a + b) == a * a + 2 * (a * b) + b * b) by (nonlinear_arith);
    assert(a * a == s * s * (x * x)) by (nonlinear_arith)
        requires
            a == s * x,
    ;
    assert(a * b == s * d * (y * x)) by (nonlinear_arith)
        requires
            a == s * x,
            b == y * d,
    ;
    assert(b * b == d * d * (y * y)) by (nonlinear_arith)
        requires
            b == y * d,
    ;
}

proof fn lemma_unit_scale(n: (int, int), d: int)
    requires
        is_axis(n),
    ensures
        (n.0 * d) / (NORMAL_SCALE as int) == if n.0 > 0 { d } else if n.0 < 0 { -d } else { 0 },
        (n.1 * d) / (NORMAL_SCALE as int) == if n.1 > 0 { d } else if n.1 < 0 { -d } else { 0 },
{
    let s = NORMAL_SCALE as int;
    assert((s * d) / s == d && ((-s) * d) / s == -d && (0 * d) / s == 0) by (nonlinear_arith)
        requires
            s == 4096,
    ;
}

/// A point pushed out of a circle along an axis ends on its boundary.
proof fn lemma_axis_push_clears_circle(q: (int, int), center: (int, int), r: int)
    requires
        on_axis(vsub(q, center)),
        len_sq(vsub(q, center)) < r * r,
        r >= 0,
    ensures
        ({
            let m = push_point_out_of_circle(q, center, r);
            let s = NORMAL_SCALE as int;
            len_sq((q.0 + (m.0.0 * m.1) / s - center.0, q.1 + (m.0.1 * m.1) / s - center.1)) == r * r
        }),
        0 <= push_point_out_of_circle(q, center, r).1 <= r,
{
    let d = vsub(q, center);
    let m = push_point_out_of_circle(q, center, r);
    let s = NORMAL_SCALE as int;
    lemma_unit_normal_on_axis(d);
    lemma_unit_scale(m.0, m.1);
    let k = if d.0 > 0 { d.0 } else if d.0 < 0 { -d.0 } else if d.1 > 0 { d.1 } else { -d.1 };
    assert(len_sq(d) == k * k) by (nonlinear_arith)
        requires
            d.0 == 0 || d.1 == 0,
            d.0 != 0 ==> (k == d.0 || k == -d.0),
            d.0 == 0 ==> (k == d.1 || k == -d.1),
    ;
    assert(k * k <= k * k < (k + 1) * (k + 1)) by (nonlinear_arith)
        requires
            k >= 0,
    ;
    lemma_floor_sqrt_unique(len_sq(d), k);
    assert(m.1 == r - k);
    assert(k < r) by (nonlinear_arith)
        requires
            k >= 0,
            r >= 0,
            k * k < r * r,
    ;
    let x = q.0 + (m.0.0 * m.1) / s - center.0;
    let y = q.1 + (m.0.1 * m.1) / s - center.1;
    if d.0 > 0 {
        assert(x == r && y == 0);
    } else if d.0 < 0 {
        assert(x == -r && y == 0);
    } else if d.1 > 0 {
        assert(x == 0 && y == r);
    } else {
        assert(x == 0 && y == -r);
    }
    assert(len_sq((x, y)) == r * r) by (nonlinear_arith)
        requires
            (x == r || x == -r) && y == 0 || x == 0 && (y == r || y == -r),
    ;
}

/// A point at least `r` away along one axis lies outside the circle of
/// radius `r`.
proof fn lemma_far_from_point(dx: int, dy: int, r: int)
    requires
        r >= 0,
        dx >= r || dx <= -r || dy >= r || dy <= -r,
    ensures
        !(dx * dx + dy * dy < r * r),
{
    assert(!(dx * dx + dy * dy < r * r)) by (nonlinear_arith)
        requires
            r >= 0,
            dx >= r || dx <= -r || dy >= r || dy <= -r,
    ;
}

/// A circle pushed out of a rectangle along an axis ends clear of it.
proof fn lemma_axis_push_clears_rect(c: Circle, b: Rect)
    requires
        c.within(MAX_COORD as int),
        b.within(MAX_COORD as int),
        !beyond_corner(c, b),
    ensures
        ({
            let m = push_circle_out_of_rect(c, b);
            let s = NORMAL_SCALE as int;
            let x = c.center.x + (m.0.0 * m.1) / s;
            let y = c.center.y + (m.0.1 * m.1) / s;
            &&& !(len_sq((b.min_x - x, b.min_y - y)) < c.r * c.r)
            &&& !(len_sq((b.min_x - x, b.max_y - y)) < c.r * c.r)
            &&& !(len_sq((b.max_x - x, b.max_y - y)) < c.r * c.r)
            &&& !(len_sq((b.max_x - x, b.min_y - y)) < c.r * c.r)
            &&& !(b.min_x < x < b.max_x && b.min_y - c.r < y < b.max_y + c.r)
            &&& !(b.min_x - c.r < x < b.max_x + c.r && b.min_y < y < b.max_y)
        }),
{
    let m = push_circle_out_of_rect(c, b);
    let s = NORMAL_SCALE as int;
    let (cx, cy) = c.center@;
    let r = c.r as int;
    lemma_push_out_of_box_cases(c.center@, b.min_x - r, b.min_y - r, b.max_x + r, b.max_y + r);
    lemma_unit_scale(m.0, m.1);
    let x = cx + (m.0.0 * m.1) / s;
    let y = cy + (m.0.1 * m.1) / s;
    if m.0 == axis(-1, 0) {
        assert(x == b.min_x - r);
    } else if m.0 == axis(1, 0) {
        assert(x == b.max_x + r);
    } else if m.0 == axis(0, -1) {
        assert(y == b.min_y - r);
    } else {
        assert(y == b.max_y + r);
    }
    lemma_far_from_point(b.min_x - x, b.min_y - y, r);
    lemma_far_from_point(b.min_x - x, b.max_y - y, r);
    lemma_far_from_point(b.max_x - x, b.max_y - y, r);
    lemma_far_from_point(b.max_x - x, b.min_y - y, r);
}

proof fn lemma_push_out_of_box_cases(p: (int, int), min_x: int, min_y: int, max_x: int, max_y: int)
    ensures
        ({
            let m = push_point_out_of_box(p, min_x, min_y, max_x, max_y);
            m == (axis(-1, 0), p.0 - min_x) || m == (axis(1, 0), max_x - p.0) || m == (axis(0, 1), max_y - p.1)
                || m == (axis(0, -1), p.1 - min_y)
        }),
{
}

} // verus!
