//! Continuous collision: the first contact of a shape moving along a step.
use vstd::prelude::*;
use crate::math::{
    Vec2, Frac, MAX_COORD, NORMAL_SCALE, WIDE_COORD, NEAR_ZERO, within, vsub, neg, unit_normal, axis,
    ceil_sqrt, frac_lt, unit_normal_of, isqrt_ceil, lemma_mul_within, lemma_square_bound,
};
use crate::shape::{Circle, Rect, Shape, LineSegment, SweepResult};
use crate::overlap::test_aabb_v_aabb;

verus! {

/// A contact: the normal and the time `(num, den)`.
pub type Contact = ((int, int), (int, int));

/// No contact along the whole step.
pub open spec fn no_contact() -> Contact {
    ((0, 0), (1, 1))
}

/// `num / den` written with a positive denominator.
pub open spec fn normalized(num: int, den: int) -> (int, int) {
    if den < 0 {
        (-num, -den)
    } else {
        (num, den)
    }
}

/// Keeps `best` unless the candidate time is strictly earlier.
pub open spec fn earlier(best: Contact, normal: (int, int), t: (int, int)) -> Contact {
    if frac_lt(t, best.1) {
        (normal, t)
    } else {
        best
    }
}

pub open spec fn cross(a: (int, int), b: (int, int)) -> int {
    a.0 * b.1 - a.1 * b.0
}

pub open spec fn dot(a: (int, int), b: (int, int)) -> int {
    a.0 * b.0 + a.1 * b.1
}

/// The time at which a point moving from `p` by `step` crosses the segment
/// from `a` to `b`: the motion and the segment must cross strictly inside
/// both; parallel lines never cross.
pub open spec fn edge_hit(step: (int, int), p: (int, int), a: (int, int), b: (int, int)) -> Option<(int, int)> {
    let den = cross(neg(step), vsub(a, b));
    let t = normalized(cross(vsub(p, a), vsub(a, b)), den);
    let u = normalized(-cross(neg(step), vsub(p, a)), den);
    if den == 0 {
        None
    } else if 0 < t.0 < t.1 && 0 < u.0 < u.1 {
        Some(t)
    } else {
        None
    }
}

/// `best` updated with the crossing of the edge from `a` to `b`, whose
/// normal is `normal`.
pub open spec fn sweep_edge(best: Contact, step: (int, int), p: (int, int), a: (int, int), b: (int, int), normal: (int, int)) -> Contact {
    match edge_hit(step, p, a, b) {
        Some(t) => earlier(best, normal, t),
        None => best,
    }
}

/// `best` updated with the faces of the box that face the motion: the left
/// face when moving right, else the right face; then the bottom face when
/// moving up, else the top face.
pub open spec fn sweep_box(best: Contact, step: (int, int), p: (int, int), r: Rect) -> Contact {
    let (min_x, min_y, max_x, max_y) = (r.min_x as int, r.min_y as int, r.max_x as int, r.max_y as int);
    let after_x = if step.0 > 0 {
        sweep_edge(best, step, p, (min_x, min_y), (min_x, max_y), axis(-1, 0))
    } else {
        sweep_edge(best, step, p, (max_x, max_y), (max_x, min_y), axis(1, 0))
    };
    if step.1 > 0 {
        sweep_edge(after_x, step, p, (min_x, min_y), (max_x, min_y), axis(0, -1))
    } else {
        sweep_edge(after_x, step, p, (min_x, max_y), (max_x, max_y), axis(0, 1))
    }
}

/// The first contact of a point moving from `p` by `step` with the circle
/// around `center` of radius `r`: the entry root of the quadratic
/// `|p + t step - center|^2 = r^2`, its square root rounded up so that the
/// contact is never reported later than it happens. The normal is the unit
/// normal from the center to the contact position.
pub open spec fn circle_hit(step: (int, int), p: (int, int), center: (int, int), r: int) -> Option<Contact> {
    let f = vsub(p, center);
    let qa = dot(step, step);
    let qb = 2 * dot(f, step);
    let qc = dot(f, f) - r * r;
    let disc = qb * qb - 4 * (qa * qc);
    let num = -qb - ceil_sqrt(disc);
    let den = 2 * qa;
    if disc < NEAR_ZERO {
        None
    } else if num < 0 || num > den {
        None
    } else {
        Some((unit_normal((f.0 * den + step.0 * num, f.1 * den + step.1 * num)), (num, den)))
    }
}

/// `best` updated with the first contact with a circle.
pub open spec fn sweep_circle(best: Contact, step: (int, int), p: (int, int), center: (int, int), r: int) -> Contact {
    match circle_hit(step, p, center, r) {
        Some(c) => earlier(best, c.0, c.1),
        None => best,
    }
}

/// Updates `result` with the crossing of `edge` by a point moving from `p`
/// by `step`, where it comes strictly earlier.
pub fn sweep_point_v_edge(result: &mut SweepResult, step: Vec2, p: Vec2, edge: LineSegment)
    requires
        old(result).wf(),
        step.within(WIDE_COORD as int),
        p.within(WIDE_COORD as int),
        edge.a.within(WIDE_COORD as int),
        edge.b.within(WIDE_COORD as int),
        edge.normal.within(NORMAL_SCALE as int),
    ensures
        final(result)@ == sweep_edge(old(result)@, step@, p@, edge.a@, edge.b@, edge.normal@),
        final(result).wf(),
        !frac_lt(old(result).t@, final(result).t@),
{
    proof {
        lemma_sweep_edge_never_later(old(result)@, step@, p@, edge.a@, edge.b@, edge.normal@);
    }
    let x1 = p.x;
    let y1 = p.y;
    let x2 = p.x + step.x;
    let y2 = p.y + step.y;
    let x3 = edge.a.x;
    let y3 = edge.a.y;
    let x4 = edge.b.x;
    let y4 = edge.b.y;
    let ghost bd: int = 0x10_0000;
    proof {
        lemma_mul_within((x1 - x2) as int, (y3 - y4) as int, bd, bd);
        lemma_mul_within((y1 - y2) as int, (x3 - x4) as int, bd, bd);
        lemma_mul_within((x1 - x3) as int, (y3 - y4) as int, bd, bd);
        lemma_mul_within((y1 - y3) as int, (x3 - x4) as int, bd, bd);
        lemma_mul_within((x1 - x2) as int, (y1 - y3) as int, bd, bd);
        lemma_mul_within((y1 - y2) as int, (x1 - x3) as int, bd, bd);
    }
    let t_den = (x1 - x2) * (y3 - y4) - (y1 - y2) * (x3 - x4);
    if t_den == 0 {
        return;
    }
    let t_num = (x1 - x3) * (y3 - y4) - (y1 - y3) * (x3 - x4);
    let u_num = -((x1 - x2) * (y1 - y3) - (y1 - y2) * (x1 - x3));
    let (tn, un, den) = if t_den < 0 {
        (-t_num, -u_num, -t_den)
    } else {
        (t_num, u_num, t_den)
    };
    if tn <= 0 || tn >= den {
        return;
    }
    if un <= 0 || un >= den {
        return;
    }
    let t = Frac { num: tn, den };
    if t.lt(&result.t) {
        result.t = t;
        result.normal = edge.normal;
    }
}

/// Updates `result` with the first contact of a point moving from `p` by
/// `step` with the faces of `aabb` that face the motion.
pub fn sweep_point_v_aabb(result: &mut SweepResult, step: Vec2, p: Vec2, aabb: Rect)
    requires
        old(result).wf(),
        step.within(WIDE_COORD as int),
        p.within(WIDE_COORD as int),
        aabb.within(WIDE_COORD as int),
    ensures
        final(result)@ == sweep_box(old(result)@, step@, p@, aabb),
        final(result).wf(),
        !frac_lt(old(result).t@, final(result).t@),
{
    proof {
        lemma_sweep_box_never_later(old(result)@, step@, p@, aabb);
    }
    if step.x > 0 {
        sweep_point_v_edge(result, step, p, aabb.left_edge());
    } else {
        sweep_point_v_edge(result, step, p, aabb.right_edge());
    }
    if step.y > 0 {
        sweep_point_v_edge(result, step, p, aabb.bottom_edge());
    } else {
        sweep_point_v_edge(result, step, p, aabb.top_edge());
    }
}

/// Updates `result` with the first contact of a point moving from `p` by
/// `step` with `circle`, where it comes strictly earlier.
pub fn sweep_point_v_circle(result: &mut SweepResult, step: Vec2, p: Vec2, circle: Circle)
    requires
        old(result).wf(),
        step.within(WIDE_COORD as int),
        p.within(WIDE_COORD as int),
        circle.within(WIDE_COORD as int),
    ensures
        final(result)@ == sweep_circle(old(result)@, step@, p@, circle.center@, circle.r as int),
        final(result).wf(),
        !frac_lt(old(result).t@, final(result).t@),
{
    proof {
        lemma_sweep_circle_never_later(old(result)@, step@, p@, circle.center@, circle.r as int);
    }
    let fx = (p.x - circle.center.x) as i128;
    let fy = (p.y - circle.center.y) as i128;
    let dx = step.x as i128;
    let dy = step.y as i128;
    let r = circle.r as i128;
    proof {
        lemma_square_bound(dx as int, WIDE_COORD as int);
        lemma_square_bound(dy as int, WIDE_COORD as int);
        lemma_square_bound(fx as int, 2 * WIDE_COORD);
        lemma_square_bound(fy as int, 2 * WIDE_COORD);
        lemma_square_bound(r as int, WIDE_COORD as int);
        lemma_mul_within(fx as int, dx as int, 2 * WIDE_COORD, WIDE_COORD as int);
        lemma_mul_within(fy as int, dy as int, 2 * WIDE_COORD, WIDE_COORD as int);
    }
    let a = dx * dx + dy * dy;
    let b = 2 * (fx * dx + fy * dy);
    let c = fx * fx + fy * fy - r * r;
    proof {
        lemma_square_bound(b as int, 0x80_0000_0000);
        lemma_mul_within(a as int, c as int, 0x20_0000_0000, 0x100_0000_0000);
    }
    let disc = b * b - 4 * (a * c);
    if disc < NEAR_ZERO as i128 {
        return;
    }
    proof {
        if a == 0 {
            assert(dx == 0 && dy == 0) by (nonlinear_arith)
                requires
                    dx * dx + dy * dy == 0,
            ;
            assert(fx * dx == 0 && fy * dy == 0) by (nonlinear_arith)
                requires
                    dx == 0 && dy == 0,
            ;
            assert(b == 0);
            assert(a * c == 0) by (nonlinear_arith)
                requires
                    a == 0,
            ;
            assert(b * b == 0) by (nonlinear_arith)
                requires
                    b == 0,
            ;
            assert(disc == 0);
        }
        assert(disc <= crate::math::MAX_SQRT_ARG);
    }
    let s = isqrt_ceil(disc);
    let num = -b - s;
    let den = 2 * a;
    if num < 0 || num > den {
        return;
    }
    let t = Frac { num: num as i64, den: den as i64 };
    if t.lt(&result.t) {
        proof {
            let b32: int = 0x1_0000_0000;
            lemma_mul_within(fx as int, den as int, 2 * WIDE_COORD, b32);
            lemma_mul_within(dx as int, num as int, WIDE_COORD as int, b32);
            lemma_mul_within(fy as int, den as int, 2 * WIDE_COORD, b32);
            lemma_mul_within(dy as int, num as int, WIDE_COORD as int, b32);
        }
        let nx = fx * den + dx * num;
        let ny = fy * den + dy * num;
        result.t = t;
        result.normal = unit_normal_of(Vec2 { x: nx as i64, y: ny as i64 });
    }
}

/// The gap that the mover, spanning `a_min..a_max` on one axis and moving by
/// `s` on it, must close before it enters `b_min..b_max`.
pub open spec fn entry_gap(s: int, a_min: int, a_max: int, b_min: int, b_max: int) -> int {
    if s > 0 {
        b_min - a_max
    } else {
        b_max - a_min
    }
}

/// The gap after which the mover has left `b_min..b_max` on that axis.
pub open spec fn exit_gap(s: int, a_min: int, a_max: int, b_min: int, b_max: int) -> int {
    if s > 0 {
        b_max - a_min
    } else {
        b_min - a_max
    }
}

/// The time at which a gap is closed moving by `s`; none when the axis does
/// not move, which never limits the motion.
pub open spec fn axis_time(gap: int, s: int) -> Option<(int, int)> {
    if s == 0 {
        None
    } else {
        Some(normalized(gap, s))
    }
}

/// Whether the box around the whole volume that `a` sweeps overlaps `b`.
pub open spec fn swept_overlaps(step: (int, int), a: Rect, b: Rect) -> bool {
    let min_x = if step.0 > 0 { a.min_x as int } else { a.min_x + step.0 };
    let max_x = if step.0 < 0 { a.max_x as int } else { a.max_x + step.0 };
    let min_y = if step.1 > 0 { a.min_y as int } else { a.min_y + step.1 };
    let max_y = if step.1 < 0 { a.max_y as int } else { a.max_y + step.1 };
    min_y < b.max_y && b.min_y < max_y && min_x < b.max_x && b.min_x < max_x
}

/// Swept axis-aligned boxes: the entry time is the later of the two axis
/// entries and the exit time the earlier of the two exits; there is no
/// contact when entry comes after exit, both entries are negative, or either
/// entry lies past the end of the step. The normal lies on the axis whose
/// entry is the later one, with the sign of that axis's entry gap.
pub open spec fn rect_rect_hit(step: (int, int), a: Rect, b: Rect) -> Option<Contact> {
    let xg = entry_gap(step.0, a.min_x as int, a.max_x as int, b.min_x as int, b.max_x as int);
    let yg = entry_gap(step.1, a.min_y as int, a.max_y as int, b.min_y as int, b.max_y as int);
    let xx = normalized(exit_gap(step.0, a.min_x as int, a.max_x as int, b.min_x as int, b.max_x as int), step.0);
    let yx = normalized(exit_gap(step.1, a.min_y as int, a.max_y as int, b.min_y as int, b.max_y as int), step.1);
    let x_normal = if xg < 0 { axis(-1, 0) } else { axis(1, 0) };
    let y_normal = if yg < 0 { axis(0, -1) } else { axis(0, 1) };
    if !swept_overlaps(step, a, b) {
        None
    } else {
        match (axis_time(xg, step.0), axis_time(yg, step.1)) {
            (None, None) => None,
            (Some(xe), None) => if frac_lt(xx, xe) || xe.0 < 0 || xe.0 > xe.1 {
                None
            } else {
                Some((x_normal, xe))
            },
            (None, Some(ye)) => if frac_lt(yx, ye) || ye.0 < 0 || ye.0 > ye.1 {
                None
            } else {
                Some((y_normal, ye))
            },
            (Some(xe), Some(ye)) => {
                let entry = if frac_lt(ye, xe) { xe } else { ye };
                let exit = if frac_lt(xx, yx) { xx } else { yx };
                if frac_lt(exit, entry) || (xe.0 < 0 && ye.0 < 0) || xe.0 > xe.1 || ye.0 > ye.1 {
                    None
                } else if frac_lt(ye, xe) {
                    Some((x_normal, xe))
                } else {
                    Some((y_normal, ye))
                }
            },
        }
    }
}

pub open spec fn grown_x(b: Rect, r: int) -> Rect {
    Rect { min_x: (b.min_x - r) as i64, max_x: (b.max_x + r) as i64, min_y: b.min_y, max_y: b.max_y }
}

pub open spec fn grown_y(b: Rect, r: int) -> Rect {
    Rect { min_x: b.min_x, max_x: b.max_x, min_y: (b.min_y - r) as i64, max_y: (b.max_y + r) as i64 }
}

/// A circle sweeping against a rectangle: its center against the four
/// corners grown into circles of its radius (max/max, min/max, max/min,
/// min/min), then against the rectangle grown by the radius along x, then
/// along y, keeping the earliest contact.
pub open spec fn circle_rect_contact(step: (int, int), c: Circle, b: Rect) -> Contact {
    let p = c.center@;
    let r = c.r as int;
    let s1 = sweep_circle(no_contact(), step, p, (b.max_x as int, b.max_y as int), r);
    let s2 = sweep_circle(s1, step, p, (b.min_x as int, b.max_y as int), r);
    let s3 = sweep_circle(s2, step, p, (b.max_x as int, b.min_y as int), r);
    let s4 = sweep_circle(s3, step, p, (b.min_x as int, b.min_y as int), r);
    sweep_box(sweep_box(s4, step, p, grown_x(b, r)), step, p, grown_y(b, r))
}

pub open spec fn flipped(c: Contact) -> Contact {
    (neg(c.0), c.1)
}

/// The first contact of `a` moving by `step` with a stationary `b`. Pairs
/// handled in the other order are resolved as `b` moving by the negated
/// step against `a`, with the normal negated.
pub open spec fn contact(step: (int, int), a: Shape, b: Shape) -> Contact {
    match (a, b) {
        (Shape::Point(_), Shape::Point(_)) => no_contact(),
        (Shape::Point(p), Shape::Rect(r)) => sweep_box(no_contact(), step, p@, r),
        (Shape::Rect(r), Shape::Point(p)) => flipped(sweep_box(no_contact(), neg(step), p@, r)),
        (Shape::Point(p), Shape::Circle(c)) => sweep_circle(no_contact(), step, p@, c.center@, c.r as int),
        (Shape::Circle(c), Shape::Point(p)) => flipped(
            sweep_circle(no_contact(), neg(step), p@, c.center@, c.r as int),
        ),
        (Shape::Circle(c), Shape::Circle(d)) => sweep_circle(
            no_contact(),
            step,
            c.center@,
            d.center@,
            c.r + d.r,
        ),
        (Shape::Circle(c), Shape::Rect(r)) => circle_rect_contact(step, c, r),
        (Shape::Rect(r), Shape::Circle(c)) => flipped(circle_rect_contact(neg(step), c, r)),
        (Shape::Rect(r), Shape::Rect(q)) => match rect_rect_hit(step, r, q) {
            Some(c) => c,
            None => no_contact(),
        },
    }
}

fn axis_time_of(gap: i64, s: i64) -> (r: Option<Frac>)
    requires
        within(gap as int, 4 * MAX_COORD),
        within(s as int, MAX_COORD as int),
    ensures
        match r {
            Some(f) => axis_time(gap as int, s as int) == Some(f@) && f.wf(),
            None => axis_time(gap as int, s as int) is None,
        },
{
    if s == 0 {
        None
    } else if s < 0 {
        Some(Frac { num: -gap, den: -s })
    } else {
        Some(Frac { num: gap, den: s })
    }
}

fn no_sweep() -> (r: SweepResult)
    ensures
        r@ == no_contact(),
        r.wf(),
{
    SweepResult { normal: Vec2::zero(), t: Frac::one() }
}

fn sweep_aabb_v_aabb(step: Vec2, a: Rect, b: Rect) -> (r: SweepResult)
    requires
        step.within(MAX_COORD as int),
        a.within(MAX_COORD as int),
        b.within(MAX_COORD as int),
    ensures
        r@ == match rect_rect_hit(step@, a, b) {
            Some(c) => c,
            None => no_contact(),
        },
        r.wf(),
{
    let result = no_sweep();
    let broad_a = Rect {
        min_x: if step.x > 0 { a.min_x } else { a.min_x + step.x },
        max_x: if step.x < 0 { a.max_x } else { a.max_x + step.x },
        min_y: if step.y > 0 { a.min_y } else { a.min_y + step.y },
        max_y: if step.y < 0 { a.max_y } else { a.max_y + step.y },
    };
    if !test_aabb_v_aabb(broad_a, b) {
        return result;
    }
    let (x_inv_entry, x_inv_exit) = if step.x > 0 {
        (b.min_x - a.max_x, b.max_x - a.min_x)
    } else {
        (b.max_x - a.min_x, b.min_x - a.max_x)
    };
    let (y_inv_entry, y_inv_exit) = if step.y > 0 {
        (b.min_y - a.max_y, b.max_y - a.min_y)
    } else {
        (b.max_y - a.min_y, b.min_y - a.max_y)
    };
    let x_normal = if x_inv_entry < 0 { Vec2 { x: -NORMAL_SCALE, y: 0 } } else { Vec2 { x: NORMAL_SCALE, y: 0 } };
    let y_normal = if y_inv_entry < 0 { Vec2 { x: 0, y: -NORMAL_SCALE } } else { Vec2 { x: 0, y: NORMAL_SCALE } };
    let x_entry = axis_time_of(x_inv_entry, step.x);
    let x_exit = axis_time_of(x_inv_exit, step.x);
    let y_entry = axis_time_of(y_inv_entry, step.y);
    let y_exit = axis_time_of(y_inv_exit, step.y);
    match (x_entry, x_exit, y_entry, y_exit) {
        (Some(xe), Some(xx), None, _) => {
            if xx.lt(&xe) || xe.num < 0 || xe.num > xe.den {
                result
            } else {
                SweepResult { normal: x_normal, t: xe }
            }
        },
        (None, _, Some(ye), Some(yx)) => {
            if yx.lt(&ye) || ye.num < 0 || ye.num > ye.den {
                result
            } else {
                SweepResult { normal: y_normal, t: ye }
            }
        },
        (Some(xe), Some(xx), Some(ye), Some(yx)) => {
            let x_later = ye.lt(&xe);
            let entry = if x_later { xe } else { ye };
            let exit = if xx.lt(&yx) { xx } else { yx };
            if exit.lt(&entry) || (xe.num < 0 && ye.num < 0) || xe.num > xe.den || ye.num > ye.den {
                result
            } else if x_later {
                SweepResult { normal: x_normal, t: xe }
            } else {
                SweepResult { normal: y_normal, t: ye }
            }
        },
        _ => result,
    }
}

fn sweep_circle_v_aabb(step: Vec2, a: Circle, b: Rect) -> (r: SweepResult)
    requires
        step.within(MAX_COORD as int),
        a.within(MAX_COORD as int),
        b.within(MAX_COORD as int),
    ensures
        r@ == circle_rect_contact(step@, a, b),
        r.wf(),
{
    let mut result = no_sweep();
    let corners: [Vec2; 4] = [
        Vec2 { x: b.max_x, y: b.max_y },
        Vec2 { x: b.min_x, y: b.max_y },
        Vec2 { x: b.max_x, y: b.min_y },
        Vec2 { x: b.min_x, y: b.min_y },
    ];
    sweep_point_v_circle(&mut result, step, a.center, Circle { center: corners[0], r: a.r });
    sweep_point_v_circle(&mut result, step, a.center, Circle { center: corners[1], r: a.r });
    sweep_point_v_circle(&mut result, step, a.center, Circle { center: corners[2], r: a.r });
    sweep_point_v_circle(&mut result, step, a.center, Circle { center: corners[3], r: a.r });
    let aabb_expanded_x = Rect {
        min_x: b.min_x - a.r,
        max_x: b.max_x + a.r,
        min_y: b.min_y,
        max_y: b.max_y,
    };
    sweep_point_v_aabb(&mut result, step, a.center, aabb_expanded_x);
    let aabb_expanded_y = Rect {
        min_x: b.min_x,
        max_x: b.max_x,
        min_y: b.min_y - a.r,
        max_y: b.max_y + a.r,
    };
    sweep_point_v_aabb(&mut result, step, a.center, aabb_expanded_y);
    result
}

fn flip(r: SweepResult) -> (f: SweepResult)
    requires
        r.wf(),
    ensures
        f@ == flipped(r@),
        f.wf(),
{
    SweepResult { normal: Vec2 { x: -r.normal.x, y: -r.normal.y }, t: r.t }
}

/// The first contact of `a` moving by `step` with a stationary `b`: the
/// fraction of the step travelled before contact, exactly 1 when there is
/// none, and the contact normal. See `contact` for the rule of each pair of
/// kinds.
pub fn sweep(step: Vec2, a: Shape, b: Shape) -> (r: SweepResult)
    requires
        step.within(MAX_COORD as int),
        a.wf(),
        b.wf(),
    ensures
        r@ == contact(step@, a, b),
        r.wf(),
{
    let back = Vec2 { x: -step.x, y: -step.y };
    let mut result = no_sweep();
    match (a, b) {
        (Shape::Point(_), Shape::Point(_)) => result,
        (Shape::Point(a), Shape::Rect(b)) => {
            sweep_point_v_aabb(&mut result, step, a, b);
            result
        },
        (Shape::Rect(b), Shape::Point(a)) => {
            sweep_point_v_aabb(&mut result, back, a, b);
            flip(result)
        },
        (Shape::Point(a), Shape::Circle(b)) => {
            sweep_point_v_circle(&mut result, step, a, b);
            result
        },
        (Shape::Circle(b), Shape::Point(a)) => {
            sweep_point_v_circle(&mut result, back, a, b);
            flip(result)
        },
        (Shape::Circle(a), Shape::Circle(b)) => {
            let c = Circle { center: b.center, r: a.r + b.r };
            sweep_point_v_circle(&mut result, step, a.center, c);
            result
        },
        (Shape::Circle(a), Shape::Rect(b)) => sweep_circle_v_aabb(step, a, b),
        (Shape::Rect(b), Shape::Circle(a)) => flip(sweep_circle_v_aabb(back, a, b)),
        (Shape::Rect(a), Shape::Rect(b)) => sweep_aabb_v_aabb(step, a, b),
    }
}

/// A shape that does not move makes no contact: sweeping by the zero step
/// reports a time of exactly 1.
pub proof fn lemma_sweep_without_motion(a: Shape, b: Shape)
    ensures
        contact((0, 0), a, b).1 == (1int, 1int),
{
    assert forall|p: (int, int), q: (int, int), r: (int, int)| edge_hit((0, 0), p, q, r) is None by {
        assert(neg((0int, 0int)) == (0int, 0int));
        let v = vsub(q, r);
        assert(0 * v.1 - 0 * v.0 == 0);
    }
    assert forall|p: (int, int), c: (int, int), r: int| circle_hit((0, 0), p, c, r) is None by {
        let f = vsub(p, c);
        let qc = dot(f, f) - r * r;
        assert(dot((0, 0), (0, 0)) == 0);
        assert(2 * dot(f, (0, 0)) == 0);
        assert(4 * (0 * qc) == 0);
    }
    assert(neg((0int, 0int)) == (0int, 0int));
}

/// Whether time `a` is no later than time `b`.
pub open spec fn frac_le(a: (int, int), b: (int, int)) -> bool {
    !frac_lt(b, a)
}

/// Testing one more edge against a running contact never makes it later.
pub proof fn lemma_sweep_edge_never_later(best: Contact, step: (int, int), p: (int, int), a: (int, int), b: (int, int), normal: (int, int))
    requires
        best.1.1 > 0,
    ensures
        frac_le(sweep_edge(best, step, p, a, b, normal).1, best.1),
        sweep_edge(best, step, p, a, b, normal).1.1 > 0,
{
}

/// Testing one more circle against a running contact never makes it later.
pub proof fn lemma_sweep_circle_never_later(best: Contact, step: (int, int), p: (int, int), center: (int, int), r: int)
    requires
        best.1.1 > 0,
    ensures
        frac_le(sweep_circle(best, step, p, center, r).1, best.1),
        sweep_circle(best, step, p, center, r).1.1 > 0,
{
    lemma_circle_hit_den(step, p, center, r);
}

/// Testing one more box against a running contact never makes it later.
pub proof fn lemma_sweep_box_never_later(best: Contact, step: (int, int), p: (int, int), b: Rect)
    requires
        best.1.1 > 0,
    ensures
        frac_le(sweep_box(best, step, p, b).1, best.1),
        sweep_box(best, step, p, b).1.1 > 0,
{
    let (min_x, min_y, max_x, max_y) = (b.min_x as int, b.min_y as int, b.max_x as int, b.max_y as int);
    let after_x = if step.0 > 0 {
        sweep_edge(best, step, p, (min_x, min_y), (min_x, max_y), axis(-1, 0))
    } else {
        sweep_edge(best, step, p, (max_x, max_y), (max_x, min_y), axis(1, 0))
    };
    lemma_sweep_edge_never_later(best, step, p, (min_x, min_y), (min_x, max_y), axis(-1, 0));
    lemma_sweep_edge_never_later(best, step, p, (max_x, max_y), (max_x, min_y), axis(1, 0));
    lemma_sweep_edge_never_later(after_x, step, p, (min_x, min_y), (max_x, min_y), axis(0, -1));
    lemma_sweep_edge_never_later(after_x, step, p, (min_x, max_y), (max_x, max_y), axis(0, 1));
    lemma_frac_le_trans(sweep_box(best, step, p, b).1, after_x.1, best.1);
}

/// A circle contact has a positive denominator: a point that does not move
/// meets no circle.
proof fn lemma_circle_hit_den(step: (int, int), p: (int, int), center: (int, int), r: int)
    ensures
        circle_hit(step, p, center, r) matches Some(c) ==> c.1.1 > 0,
{
    let f = vsub(p, center);
    let qa = dot(step, step);
    let qb = 2 * dot(f, step);
    let qc = dot(f, f) - r * r;
    assert(qa >= 0) by (nonlinear_arith)
        requires
            qa == step.0 * step.0 + step.1 * step.1,
    ;
    if qa == 0 {
        assert(qb * qb - 4 * (qa * qc) == 0) by (nonlinear_arith)
            requires
                qa == step.0 * step.0 + step.1 * step.1,
                qa == 0,
                qb == 2 * (f.0 * step.0 + f.1 * step.1),
        ;
    }
}

proof fn lemma_earlier_mono(b1: Contact, b2: Contact, n: (int, int), t: (int, int))
    requires
        b1.1.1 > 0,
        b2.1.1 > 0,
        t.1 > 0,
        frac_le(b1.1, b2.1),
    ensures
        frac_le(earlier(b1, n, t).1, earlier(b2, n, t).1),
{
    if !frac_lt(t, b2.1) && frac_lt(t, b1.1) {
        lemma_frac_le_trans(t, b1.1, b2.1);
    }
}

proof fn lemma_sweep_edge_mono(b1: Contact, b2: Contact, step: (int, int), p: (int, int), a: (int, int), b: (int, int), normal: (int, int))
    requires
        b1.1.1 > 0,
        b2.1.1 > 0,
        frac_le(b1.1, b2.1),
    ensures
        frac_le(sweep_edge(b1, step, p, a, b, normal).1, sweep_edge(b2, step, p, a, b, normal).1),
{
    if let Some(t) = edge_hit(step, p, a, b) {
        lemma_earlier_mono(b1, b2, normal, t);
    }
}

/// Starting from an earlier running contact never gives a later one after
/// testing a circle.
proof fn lemma_sweep_circle_mono(b1: Contact, b2: Contact, step: (int, int), p: (int, int), center: (int, int), r: int)
    requires
        b1.1.1 > 0,
        b2.1.1 > 0,
        frac_le(b1.1, b2.1),
    ensures
        frac_le(sweep_circle(b1, step, p, center, r).1, sweep_circle(b2, step, p, center, r).1),
{
    lemma_circle_hit_den(step, p, center, r);
    if let Some(c) = circle_hit(step, p, center, r) {
        lemma_earlier_mono(b1, b2, c.0, c.1);
    }
}

/// Starting from an earlier running contact never gives a later one after
/// testing a box.
proof fn lemma_sweep_box_mono(b1: Contact, b2: Contact, step: (int, int), p: (int, int), b: Rect)
    requires
        b1.1.1 > 0,
        b2.1.1 > 0,
        frac_le(b1.1, b2.1),
    ensures
        frac_le(sweep_box(b1, step, p, b).1, sweep_box(b2, step, p, b).1),
{
    let (min_x, min_y, max_x, max_y) = (b.min_x as int, b.min_y as int, b.max_x as int, b.max_y as int);
    let (ea, eb, en) = if step.0 > 0 {
        ((min_x, min_y), (min_x, max_y), axis(-1, 0))
    } else {
        ((max_x, max_y), (max_x, min_y), axis(1, 0))
    };
    let (fa, fb, fnn) = if step.1 > 0 {
        ((min_x, min_y), (max_x, min_y), axis(0, -1))
    } else {
        ((min_x, max_y), (max_x, max_y), axis(0, 1))
    };
    let x1 = sweep_edge(b1, step, p, ea, eb, en);
    let x2 = sweep_edge(b2, step, p, ea, eb, en);
    lemma_sweep_edge_mono(b1, b2, step, p, ea, eb, en);
    lemma_sweep_edge_never_later(b1, step, p, ea, eb, en);
    lemma_sweep_edge_never_later(b2, step, p, ea, eb, en);
    lemma_sweep_edge_mono(x1, x2, step, p, fa, fb, fnn);
}

/// A circle sweeping against a rectangle makes contact no later than it
/// would against any one of the six parts it is tested against, taken
/// alone: the four corner circles and the two grown boxes.
pub proof fn lemma_circle_rect_earliest(step: (int, int), c: Circle, b: Rect)
    ensures
        ({
            let t = circle_rect_contact(step, c, b).1;
            let p = c.center@;
            let r = c.r as int;
            &&& frac_le(t, sweep_circle(no_contact(), step, p, (b.max_x as int, b.max_y as int), r).1)
            &&& frac_le(t, sweep_circle(no_contact(), step, p, (b.min_x as int, b.max_y as int), r).1)
            &&& frac_le(t, sweep_circle(no_contact(), step, p, (b.max_x as int, b.min_y as int), r).1)
            &&& frac_le(t, sweep_circle(no_contact(), step, p, (b.min_x as int, b.min_y as int), r).1)
            &&& frac_le(t, sweep_box(no_contact(), step, p, grown_x(b, r)).1)
            &&& frac_le(t, sweep_box(no_contact(), step, p, grown_y(b, r)).1)
        }),
{
    let p = c.center@;
    let r = c.r as int;
    let s0 = no_contact();
    let k1 = (b.max_x as int, b.max_y as int);
    let k2 = (b.min_x as int, b.max_y as int);
    let k3 = (b.max_x as int, b.min_y as int);
    let k4 = (b.min_x as int, b.min_y as int);
    let s1 = sweep_circle(s0, step, p, k1, r);
    let s2 = sweep_circle(s1, step, p, k2, r);
    let s3 = sweep_circle(s2, step, p, k3, r);
    let s4 = sweep_circle(s3, step, p, k4, r);
    let s5 = sweep_box(s4, step, p, grown_x(b, r));
    let s6 = sweep_box(s5, step, p, grown_y(b, r));
    // each step is no later than the one before, and so no later than the start
    lemma_sweep_circle_never_later(s0, step, p, k1, r);
    lemma_sweep_circle_never_later(s1, step, p, k2, r);
    lemma_sweep_circle_never_later(s2, step, p, k3, r);
    lemma_sweep_circle_never_later(s3, step, p, k4, r);
    lemma_sweep_box_never_later(s4, step, p, grown_x(b, r));
    lemma_sweep_box_never_later(s5, step, p, grown_y(b, r));
    lemma_frac_le_trans(s2.1, s1.1, s0.1);
    lemma_frac_le_trans(s3.1, s2.1, s0.1);
    lemma_frac_le_trans(s4.1, s3.1, s0.1);
    lemma_frac_le_trans(s5.1, s4.1, s0.1);
    lemma_frac_le_trans(s6.1, s5.1, s4.1);
    lemma_frac_le_trans(s6.1, s4.1, s3.1);
    lemma_frac_le_trans(s6.1, s3.1, s2.1);
    lemma_frac_le_trans(s6.1, s2.1, s1.1);
    // each step, taken from an earlier start, is no later than taken alone
    lemma_sweep_circle_mono(s1, s0, step, p, k2, r);
    lemma_sweep_circle_mono(s2, s0, step, p, k3, r);
    lemma_sweep_circle_mono(s3, s0, step, p, k4, r);
    lemma_sweep_box_mono(s4, s0, step, p, grown_x(b, r));
    lemma_sweep_box_mono(s5, s0, step, p, grown_y(b, r));
    lemma_frac_le_trans(s6.1, s2.1, sweep_circle(s0, step, p, k2, r).1);
    lemma_frac_le_trans(s6.1, s3.1, sweep_circle(s0, step, p, k3, r).1);
    lemma_frac_le_trans(s6.1, s4.1, sweep_circle(s0, step, p, k4, r).1);
    lemma_frac_le_trans(s6.1, s5.1, sweep_box(s0, step, p, grown_x(b, r)).1);
}

proof fn lemma_frac_le_trans(a: (int, int), b: (int, int), c: (int, int))
    requires
        a.1 > 0,
        b.1 > 0,
        c.1 > 0,
        !frac_lt(b, a),
        !frac_lt(c, b),
    ensures
        !frac_lt(c, a),
{
    assert(a.0 * c.1 <= c.0 * a.1) by (nonlinear_arith)
        requires
            a.1 > 0,
            b.1 > 0,
            c.1 > 0,
            a.0 * b.1 <= b.0 * a.1,
            b.0 * c.1 <= c.0 * b.1,
    ;
}

} // verus!
