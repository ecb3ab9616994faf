use collide2d::math::{unit_normal_of, NORMAL_SCALE, isqrt, isqrt_ceil, max, min, near_zero, vec2_nearly, Frac, Vec2};
use collide2d::overlap::{
    get_interval_overlap, test_aabb_v_aabb, test_interval_overlap, test_overlap, test_point_v_aabb,
    test_point_v_circle,
};
use collide2d::resolve::{get_overlap, get_overlap_point_v_aabb, get_overlap_point_v_circle};
use collide2d::sample::{circle_candidate, rand_in_shape};
use collide2d::segment::{get_line_intersection, project_circle_v_segment, ProjectionResult};
use collide2d::shape::{Circle, Interval, LineSegment, OverlapResult, Rect, Shape, SweepResult};
use collide2d::sweep::{sweep, sweep_point_v_aabb, sweep_point_v_circle, sweep_point_v_edge};

fn v(x: i64, y: i64) -> Vec2 {
    Vec2::new(x, y)
}

fn axis(x: i64, y: i64) -> Vec2 {
    v(x * NORMAL_SCALE, y * NORMAL_SCALE)
}

fn rect(min_x: i64, min_y: i64, max_x: i64, max_y: i64) -> Rect {
    Rect { min_x, min_y, max_x, max_y }
}

fn circle(x: i64, y: i64, r: i64) -> Circle {
    Circle { center: v(x, y), r }
}

fn same_time(t: Frac, num: i64, den: i64) -> bool {
    (t.num as i128) * (den as i128) == (num as i128) * (t.den as i128)
}

fn no_hit() -> SweepResult {
    SweepResult { normal: Vec2::zero(), t: Frac::one() }
}

fn all_shapes() -> Vec<Shape> {
    vec![
        Shape::Point(v(5, 5)),
        Shape::Point(v(0, 0)),
        Shape::Point(v(12, 3)),
        Shape::Circle(circle(0, 0, 5)),
        Shape::Circle(circle(8, 0, 4)),
        Shape::Circle(circle(13, 13, 3)),
        Shape::Rect(rect(0, 0, 10, 10)),
        Shape::Rect(rect(9, 2, 20, 4)),
        Shape::Rect(rect(-30, -30, -20, -20)),
        Shape::Rect(rect(3, 3, 3, 3)),
    ]
}

#[test]
fn overlap_is_symmetric() {
    for a in all_shapes() {
        for b in all_shapes() {
            assert_eq!(test_overlap(a, b), test_overlap(b, a));
        }
    }
}

#[test]
fn point_v_rect_overlap_is_open() {
    let r = Shape::Rect(rect(0, 0, 10, 10));
    assert!(test_overlap(Shape::Point(v(5, 5)), r));
    assert!(!test_overlap(Shape::Point(v(10, 5)), r));
    assert!(!test_overlap(r, Shape::Point(v(0, 0))));
}

#[test]
fn point_v_circle_boundary_does_not_overlap() {
    let c = circle(0, 0, 5);
    assert!(test_point_v_circle(v(3, 3), c));
    assert!(!test_point_v_circle(v(3, 4), c));
    assert!(!test_point_v_circle(v(5, 0), c));
    assert!(test_point_v_circle(v(4, 0), c));
}

#[test]
fn point_v_point_needs_equal_positions() {
    assert!(test_overlap(Shape::Point(v(2, 3)), Shape::Point(v(2, 3))));
    assert!(!test_overlap(Shape::Point(v(2, 3)), Shape::Point(v(2, 4))));
    assert!(vec2_nearly(v(7, -7), v(7, -7)));
    assert!(near_zero(0));
    assert!(!near_zero(1));
    assert!(!near_zero(-1));
}

#[test]
fn circle_v_circle_overlap() {
    let a = Shape::Circle(circle(0, 0, 2));
    assert!(test_overlap(a, Shape::Circle(circle(3, 0, 2))));
    assert!(!test_overlap(a, Shape::Circle(circle(4, 0, 2))));
    assert!(!test_overlap(a, Shape::Circle(circle(3, 3, 2))));
}

#[test]
fn circle_v_rect_overlap_by_face_and_corner() {
    let r = Shape::Rect(rect(0, 0, 10, 10));
    // over the top face, away from the corners
    assert!(test_overlap(Shape::Circle(circle(5, 12, 3)), r));
    assert!(!test_overlap(Shape::Circle(circle(5, 13, 3)), r));
    // off a corner: the corner lies inside the circle
    assert!(test_overlap(Shape::Circle(circle(12, 12, 3)), r));
    assert!(!test_overlap(Shape::Circle(circle(13, 13, 3)), r));
    // beside the left face
    assert!(test_overlap(r, Shape::Circle(circle(-2, 5, 3))));
}

#[test]
fn rect_v_rect_overlap_is_open() {
    assert!(test_aabb_v_aabb(rect(0, 0, 10, 10), rect(5, 5, 15, 15)));
    assert!(!test_aabb_v_aabb(rect(0, 0, 10, 10), rect(10, 0, 20, 10)));
    assert!(!test_aabb_v_aabb(rect(0, 0, 10, 10), rect(0, 11, 10, 20)));
    // degenerate rectangles are legal
    assert!(test_aabb_v_aabb(rect(0, 0, 10, 10), rect(3, 3, 3, 3)));
    assert!(test_point_v_aabb(v(1, 1), rect(0, 0, 2, 2)));
}

#[test]
fn intervals() {
    let a = Interval::new(0, 10);
    let b = Interval::new(5, 15);
    assert!(test_interval_overlap(a, b));
    assert!(!test_interval_overlap(a, Interval::new(10, 20)));
    assert_eq!(get_interval_overlap(a, b), 5);
    assert_eq!(get_interval_overlap(Interval::new(5, 3), Interval::new(7, 6)), -1);
    assert_eq!(get_interval_overlap(Interval::new(5, 3), Interval::new(7, 4)), 0);
}

#[test]
fn small_helpers() {
    assert_eq!(max(3, 9), 9);
    assert_eq!(min(3, 9), 3);
    assert_eq!(isqrt(0), 0);
    assert_eq!(isqrt(1600), 40);
    assert_eq!(isqrt(1601), 40);
    assert_eq!(isqrt(1680), 40);
    assert_eq!(isqrt_ceil(1600), 40);
    assert_eq!(isqrt_ceil(1601), 41);
    assert_eq!(unit_normal_of(v(-400, 0)), axis(-1, 0));
    assert_eq!(unit_normal_of(v(0, 7)), axis(0, 1));
    // 4096 * 3 / 5 and 4096 * 4 / 5, rounded toward zero
    assert_eq!(unit_normal_of(v(3, -4)), v(2457, -3276));
    assert_eq!(unit_normal_of(v(0, 0)), v(0, 0));
    let r = rect(1, 2, 7, 10);
    assert_eq!(r.w(), 6);
    assert_eq!(r.h(), 8);
    let e = r.left_edge();
    assert_eq!((e.a, e.b, e.normal), (v(1, 2), v(1, 10), axis(-1, 0)));
    let e = r.right_edge();
    assert_eq!((e.a, e.b, e.normal), (v(7, 10), v(7, 2), axis(1, 0)));
    let e = r.top_edge();
    assert_eq!((e.a, e.b, e.normal), (v(1, 10), v(7, 10), axis(0, 1)));
    let e = r.bottom_edge();
    assert_eq!((e.a, e.b, e.normal), (v(1, 2), v(7, 2), axis(0, -1)));
    assert_eq!(Shape::default(), Shape::Point(v(0, 0)));
}

#[test]
fn point_pushed_out_through_nearest_face() {
    let r = rect(0, 0, 10, 10);
    let o = get_overlap_point_v_aabb(v(2, 5), r);
    assert_eq!(o, OverlapResult { normal: axis(-1, 0), distance: 2 });
    let o = get_overlap_point_v_aabb(v(9, 5), r);
    assert_eq!(o, OverlapResult { normal: axis(1, 0), distance: 1 });
    let o = get_overlap_point_v_aabb(v(5, 7), r);
    assert_eq!(o, OverlapResult { normal: axis(0, 1), distance: 3 });
    let o = get_overlap_point_v_aabb(v(5, 1), r);
    assert_eq!(o, OverlapResult { normal: axis(0, -1), distance: 1 });
    // a tie keeps the face tested first (left before the others)
    let o = get_overlap_point_v_aabb(v(5, 5), r);
    assert_eq!(o, OverlapResult { normal: axis(-1, 0), distance: 5 });
}

#[test]
fn point_pushed_out_of_circle() {
    let o = get_overlap_point_v_circle(v(3, 0), circle(0, 0, 5));
    assert_eq!(o, OverlapResult { normal: axis(1, 0), distance: 2 });
    // off the axes the normal is the unit vector from the center, each
    // coordinate rounded toward zero, and the distance rounds the length down
    let o = get_overlap_point_v_circle(v(1, 2), circle(0, 0, 5));
    assert_eq!(o, OverlapResult { normal: v(1831, 3663), distance: 3 });
    // at the center the direction is undefined and reported as zero
    let o = get_overlap_point_v_circle(v(0, 0), circle(0, 0, 5));
    assert_eq!(o, OverlapResult { normal: v(0, 0), distance: 5 });
}

#[test]
fn overlap_of_two_points_is_a_sentinel() {
    let o = get_overlap(Shape::Point(v(1, 1)), Shape::Point(v(1, 1)));
    assert_eq!(o, OverlapResult { normal: v(0, 0), distance: i64::MAX });
}

#[test]
fn rect_v_rect_push_takes_smallest_depth() {
    let a = Shape::Rect(rect(0, 0, 10, 10));
    let b = Shape::Rect(rect(8, 3, 20, 7));
    assert_eq!(get_overlap(a, b), OverlapResult { normal: axis(-1, 0), distance: 2 });
    assert_eq!(get_overlap(b, a), OverlapResult { normal: axis(1, 0), distance: 2 });
    let c = Shape::Rect(rect(2, 9, 8, 30));
    assert_eq!(get_overlap(a, c), OverlapResult { normal: axis(0, -1), distance: 1 });
}

#[test]
fn circle_v_rect_push() {
    let r = Shape::Rect(rect(0, 0, 10, 10));
    // off the max/max corner
    let o = get_overlap(Shape::Circle(circle(12, 12, 3)), r);
    assert_eq!(o, OverlapResult { normal: v(2896, 2896), distance: 1 });
    // beside the top face: out of the box grown by the radius
    let o = get_overlap(Shape::Circle(circle(5, 11, 3)), r);
    assert_eq!(o, OverlapResult { normal: axis(0, 1), distance: 2 });
    // swapped: the normal turns around
    let o = get_overlap(r, Shape::Circle(circle(5, 11, 3)));
    assert_eq!(o, OverlapResult { normal: axis(0, -1), distance: 2 });
}

#[test]
fn circle_v_circle_push() {
    let o = get_overlap(Shape::Circle(circle(3, 0, 2)), Shape::Circle(circle(0, 0, 2)));
    assert_eq!(o, OverlapResult { normal: axis(1, 0), distance: 1 });
    let o = get_overlap(Shape::Point(v(0, 2)), Shape::Circle(circle(0, 0, 5)));
    assert_eq!(o, OverlapResult { normal: axis(0, 1), distance: 3 });
    let o = get_overlap(Shape::Circle(circle(0, 0, 5)), Shape::Point(v(0, 2)));
    assert_eq!(o, OverlapResult { normal: axis(0, -1), distance: 3 });
}

fn moved(s: Shape, dx: i64, dy: i64) -> Shape {
    match s {
        Shape::Point(p) => Shape::Point(v(p.x + dx, p.y + dy)),
        Shape::Circle(c) => Shape::Circle(circle(c.center.x + dx, c.center.y + dy, c.r)),
        Shape::Rect(r) => Shape::Rect(rect(r.min_x + dx, r.min_y + dy, r.max_x + dx, r.max_y + dy)),
    }
}

#[test]
fn push_separates_points_and_rects() {
    let shapes = vec![
        Shape::Point(v(4, 6)),
        Shape::Rect(rect(0, 0, 10, 10)),
        Shape::Rect(rect(8, 3, 20, 7)),
        Shape::Rect(rect(-5, 4, 5, 5)),
        Shape::Point(v(9, 5)),
    ];
    for a in shapes.iter() {
        for b in shapes.iter() {
            if test_overlap(*a, *b) && !matches!((a, b), (Shape::Point(_), Shape::Point(_))) {
                let o = get_overlap(*a, *b);
                let pushed = moved(*a, o.normal.x * o.distance / NORMAL_SCALE, o.normal.y * o.distance / NORMAL_SCALE);
                assert!(!test_overlap(pushed, *b));
            }
        }
    }
}

#[test]
fn push_along_an_axis_separates_circles() {
    let shapes = vec![
        Shape::Circle(circle(0, 0, 5)),
        Shape::Circle(circle(6, 0, 3)),
        Shape::Circle(circle(0, -4, 2)),
        Shape::Point(v(2, 0)),
        Shape::Rect(rect(3, -2, 10, 2)),
        Shape::Rect(rect(-3, 4, 3, 8)),
    ];
    let mut pushed_on_axis = 0;
    for a in shapes.iter() {
        for b in shapes.iter() {
            if a == b || !test_overlap(*a, *b) {
                continue;
            }
            let o = get_overlap(*a, *b);
            if o.normal.x.abs() + o.normal.y.abs() == NORMAL_SCALE {
                pushed_on_axis += 1;
                let pushed = moved(*a, o.normal.x * o.distance / NORMAL_SCALE, o.normal.y * o.distance / NORMAL_SCALE);
                assert!(!test_overlap(pushed, *b));
            }
        }
    }
    assert!(pushed_on_axis >= 10);
}

#[test]
fn push_is_antisymmetric() {
    let shapes = vec![
        Shape::Point(v(4, 6)),
        Shape::Circle(circle(3, 3, 4)),
        Shape::Circle(circle(6, 1, 2)),
        Shape::Rect(rect(0, 0, 10, 10)),
        Shape::Rect(rect(8, 3, 20, 7)),
    ];
    for a in shapes.iter() {
        for b in shapes.iter() {
            if a == b {
                // two equal rectangles tie between opposite faces
                continue;
            }
            let ab = get_overlap(*a, *b);
            let ba = get_overlap(*b, *a);
            if ab.distance != i64::MAX {
                assert_eq!(ab.normal, v(-ba.normal.x, -ba.normal.y));
            }
            assert_eq!(ab.distance, ba.distance);
        }
    }
}

#[test]
fn rect_sweep_scenario() {
    let a = Shape::Rect(rect(0, 0, 10, 10));
    let b = Shape::Rect(rect(25, 0, 35, 10));
    let r = sweep(v(20, 0), a, b);
    assert!(same_time(r.t, 3, 4));
    assert_eq!(r.normal, axis(1, 0));
}

#[test]
fn circle_sweep_scenario() {
    let a = Shape::Circle(circle(0, 0, 1));
    let b = Shape::Circle(circle(5, 0, 1));
    let r = sweep(v(10, 0), a, b);
    assert!(same_time(r.t, 3, 10));
    assert_eq!(r.normal, axis(-1, 0));
}

#[test]
fn sweep_without_motion_makes_no_contact() {
    let shapes = all_shapes();
    for a in shapes.iter() {
        for b in shapes.iter() {
            let r = sweep(Vec2::zero(), *a, *b);
            assert!(same_time(r.t, 1, 1));
        }
    }
}

#[test]
fn sweep_misses_report_one() {
    let a = Shape::Rect(rect(0, 0, 10, 10));
    let b = Shape::Rect(rect(25, 20, 35, 30));
    assert_eq!(sweep(v(20, 0), a, b), no_hit());
    let p = Shape::Point(v(0, 0));
    assert_eq!(sweep(v(1, 1), p, Shape::Point(v(1, 1))), no_hit());
    assert_eq!(sweep(v(0, 10), p, Shape::Circle(circle(5, 5, 2))), no_hit());
    // the step ends before the contact
    assert_eq!(sweep(v(3, 0), Shape::Circle(circle(0, 0, 1)), Shape::Circle(circle(10, 0, 1))), no_hit());
}

#[test]
fn point_sweeps_against_facing_edges() {
    let r = rect(10, 0, 20, 10);
    let mut res = no_hit();
    sweep_point_v_aabb(&mut res, v(20, 0), v(0, 5), r);
    assert!(same_time(res.t, 1, 2));
    assert_eq!(res.normal, axis(-1, 0));
    let mut res = no_hit();
    sweep_point_v_aabb(&mut res, v(-20, 0), v(30, 5), r);
    assert!(same_time(res.t, 1, 2));
    assert_eq!(res.normal, axis(1, 0));
    let mut res = no_hit();
    sweep_point_v_aabb(&mut res, v(0, 20), v(15, -10), r);
    assert!(same_time(res.t, 1, 2));
    assert_eq!(res.normal, axis(0, -1));
    // through a corner exactly: the edges are open and miss it
    let mut res = no_hit();
    sweep_point_v_aabb(&mut res, v(20, 20), v(0, -10), r);
    assert!(same_time(res.t, 1, 1));
    // swapped order of the shapes
    let back = sweep(v(20, 0), Shape::Rect(r), Shape::Point(v(35, 5)));
    assert!(same_time(back.t, 3, 4));
    assert_eq!(back.normal, axis(-1, 0));
}

#[test]
fn edge_sweep_keeps_the_earlier_contact() {
    let edge = LineSegment::new(v(10, -5), v(10, 5), axis(-1, 0));
    let mut res = no_hit();
    sweep_point_v_edge(&mut res, v(20, 0), v(0, 0), edge);
    assert!(same_time(res.t, 1, 2));
    let far = LineSegment::new(v(15, -5), v(15, 5), axis(-1, 0));
    sweep_point_v_edge(&mut res, v(20, 0), v(0, 0), far);
    assert!(same_time(res.t, 1, 2));
    let near = LineSegment::new(v(4, -5), v(4, 5), axis(0, 1));
    sweep_point_v_edge(&mut res, v(20, 0), v(0, 0), near);
    assert!(same_time(res.t, 1, 5));
    assert_eq!(res.normal, axis(0, 1));
    // parallel motion never crosses
    let mut res = no_hit();
    let flat = LineSegment::new(v(-5, 0), v(5, 0), axis(0, 1));
    sweep_point_v_edge(&mut res, v(20, 0), v(0, 0), flat);
    assert_eq!(res, no_hit());
}

#[test]
fn circle_sweep_with_running_result() {
    let mut res = no_hit();
    sweep_point_v_circle(&mut res, v(10, 0), v(0, 0), circle(5, 0, 2));
    assert!(same_time(res.t, 3, 10));
    assert_eq!(res.normal, axis(-1, 0));
    // a later circle leaves it alone
    sweep_point_v_circle(&mut res, v(10, 0), v(0, 0), circle(8, 0, 2));
    assert!(same_time(res.t, 3, 10));
    // starting inside: the entry root is negative, no contact
    let mut res = no_hit();
    sweep_point_v_circle(&mut res, v(10, 0), v(0, 0), circle(0, 0, 2));
    assert_eq!(res, no_hit());
    // an irrational root is rounded to an earlier time
    let mut res = no_hit();
    sweep_point_v_circle(&mut res, v(10, 0), v(0, 1), circle(5, 0, 2));
    let exact = (5.0 - 3f64.sqrt()) / 10.0;
    let got = res.t.num as f64 / res.t.den as f64;
    assert!(got <= exact && exact - got < 0.01);
}

#[test]
fn more_obstacles_never_delay_contact() {
    let step = v(30, 4);
    let mover = circle(0, 0, 2);
    let b = rect(10, -3, 14, 3);
    let whole = sweep(step, Shape::Circle(mover), Shape::Rect(b));
    let corners = [v(14, 3), v(10, 3), v(14, -3), v(10, -3)];
    for c in corners.iter() {
        let mut one = no_hit();
        sweep_point_v_circle(&mut one, step, mover.center, circle(c.x, c.y, 2));
        assert!((whole.t.num as i128) * (one.t.den as i128) <= (one.t.num as i128) * (whole.t.den as i128));
    }
    assert!(whole.t.num < whole.t.den);
    assert_eq!(whole.normal, axis(-1, 0));
}

#[test]
fn circle_v_rect_sweep_hits_a_corner() {
    // moving diagonally onto the max/max corner
    let r = sweep(v(-10, -10), Shape::Circle(circle(20, 20, 2)), Shape::Rect(rect(0, 0, 10, 10)));
    assert!(r.t.num > 0 && r.t.num < r.t.den);
    assert!(r.normal.x > 0 && r.normal.y > 0);
    let back = sweep(v(10, 10), Shape::Rect(rect(0, 0, 10, 10)), Shape::Circle(circle(20, 20, 2)));
    assert_eq!(back.t, r.t);
    assert_eq!(back.normal, v(-r.normal.x, -r.normal.y));
}

#[test]
fn rect_sweep_along_y() {
    let a = Shape::Rect(rect(0, 20, 10, 30));
    let b = Shape::Rect(rect(0, 0, 10, 10));
    let r = sweep(v(0, -20), a, b);
    assert!(same_time(r.t, 1, 2));
    // the sign follows the entry gap, here negative
    assert_eq!(r.normal, axis(0, -1));
}

#[test]
fn line_intersection() {
    let r = get_line_intersection(v(0, 0), v(10, 0), v(5, -5), v(5, 5));
    let (t, s) = r.unwrap();
    assert!(same_time(t, 1, 2));
    assert!(same_time(s, 1, 2));
    // touching at an end counts
    let (t, _) = get_line_intersection(v(0, 0), v(10, 0), v(10, 0), v(10, 5)).unwrap();
    assert!(same_time(t, 1, 1));
    assert!(get_line_intersection(v(0, 0), v(10, 0), v(0, 1), v(10, 1)).is_none());
    assert!(get_line_intersection(v(0, 0), v(10, 0), v(11, -5), v(11, 5)).is_none());
}

#[test]
fn circle_projected_against_segment() {
    let edge = LineSegment::new(v(10, -10), v(10, 10), axis(-1, 0));
    let mut p = ProjectionResult { step: v(20, 0), t: Frac::one(), collision_normal: Vec2::zero() };
    project_circle_v_segment(&mut p, circle(0, 0, 2), edge);
    // the circle's point nearest the edge starts at (2, 0)
    assert!(same_time(p.t, 2, 5));
    assert_eq!(p.collision_normal, axis(-1, 0));
    let far = LineSegment::new(v(15, -10), v(15, 10), axis(0, 1));
    project_circle_v_segment(&mut p, circle(0, 0, 2), far);
    assert!(same_time(p.t, 2, 5));
    assert_eq!(p.collision_normal, axis(-1, 0));
}

#[test]
fn samples_stay_inside() {
    let p = Shape::Point(v(3, -4));
    assert_eq!(rand_in_shape(p), v(3, -4));
    let r = rect(-100, 50, 100, 60);
    let mut xs = std::collections::HashSet::new();
    for _ in 0..500 {
        let q = rand_in_shape(Shape::Rect(r));
        assert!(q.x >= -100 && q.x <= 100 && q.y >= 50 && q.y <= 60);
        xs.insert(q.x);
    }
    assert!(xs.len() > 50);
    let c = circle(7, 7, 30);
    for _ in 0..500 {
        let q = rand_in_shape(Shape::Circle(c));
        assert!(test_point_v_circle(q, c));
    }
    assert_eq!(rand_in_shape(Shape::Circle(circle(1, 2, 0))), v(1, 2));
}

#[test]
fn circle_samples_are_uniform_in_area() {
    let r: i64 = 200;
    let c = circle(0, 0, r);
    let n = 20000;
    let mut bins = [0u32; 4];
    for _ in 0..n {
        let q = rand_in_shape(Shape::Circle(c));
        let d2 = (q.x * q.x + q.y * q.y) as f64;
        let bin = ((d2 / (r * r) as f64) * 4.0) as usize;
        bins[bin.min(3)] += 1;
    }
    for b in bins.iter() {
        let share = *b as f64 / n as f64;
        assert!((share - 0.25).abs() < 0.03, "share {}", share);
    }
}

fn near_unit(n: Vec2) -> bool {
    let s = NORMAL_SCALE;
    let len_sq = n.x * n.x + n.y * n.y;
    s * s - 4 * s - 2 < len_sq && len_sq <= s * s
}

#[test]
fn off_axis_normals_are_unit_vectors() {
    // point against circle
    let o = get_overlap_point_v_circle(v(3, 4), circle(0, 0, 10));
    assert_eq!(o, OverlapResult { normal: v(2457, 3276), distance: 5 });
    assert!(near_unit(o.normal));
    // two circles
    let o = get_overlap(Shape::Circle(circle(0, 0, 5)), Shape::Circle(circle(3, 4, 5)));
    assert_eq!(o.normal, v(-2457, -3276));
    assert_eq!(o.distance, 5);
    // a sweep that meets a circle off its axis
    let r = sweep(v(10, 0), Shape::Point(v(0, 0)), Shape::Circle(circle(5, 1, 2)));
    assert!(r.t.num > 0 && r.t.num < r.t.den);
    assert!(near_unit(r.normal));
    assert!(r.normal.x < 0 && r.normal.y < 0);
    // parallel to the center-to-contact vector (-350, -200) up to rounding
    let cross = r.normal.x as i128 * -200 - r.normal.y as i128 * -350;
    assert!(cross.abs() <= 350);
    for w in [v(1, 1), v(-7, 3), v(10000, 1), v(1, -10000), v(123456789, 987654321)] {
        let n = unit_normal_of(w);
        assert!(near_unit(n));
        assert!(n.x * w.x >= 0 && n.y * w.y >= 0);
    }
}

#[test]
fn push_off_the_axes_nearly_separates() {
    let c = circle(0, 0, 50);
    // a circle off a rectangle's corner moves clear of that corner
    let r = rect(0, 0, 100, 100);
    let o = get_overlap(Shape::Circle(circle(110, 120, 30)), Shape::Rect(r));
    let x = 110.0 + (o.normal.x * o.distance) as f64 / NORMAL_SCALE as f64;
    let y = 120.0 + (o.normal.y * o.distance) as f64 / NORMAL_SCALE as f64;
    let d = ((x - 100.0).powi(2) + (y - 100.0).powi(2)).sqrt();
    assert!(d >= 30.0 - 0.05 && x > 100.0 && y > 100.0, "corner distance {}", d);
    for p in [v(3, 4), v(-20, 17), v(30, -30), v(1, 48)] {
        let o = get_overlap_point_v_circle(p, c);
        let x = p.x as f64 + (o.normal.x * o.distance) as f64 / NORMAL_SCALE as f64;
        let y = p.y as f64 + (o.normal.y * o.distance) as f64 / NORMAL_SCALE as f64;
        let d = (x * x + y * y).sqrt();
        assert!(d >= 50.0 - 0.05, "distance {}", d);
    }
}

#[test]
fn circle_candidates_inside_the_disk_only() {
    let c = circle(10, -10, 5);
    assert_eq!(circle_candidate(c, 3, 3), Some(v(13, -7)));
    assert_eq!(circle_candidate(c, 3, 4), None);
    assert_eq!(circle_candidate(c, -5, 0), None);
    assert_eq!(circle_candidate(c, 0, 0), Some(v(10, -10)));
}
