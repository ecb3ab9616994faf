//! Vectors, fractions and integer square roots.
use vstd::prelude::*;

verus! {

/// Largest magnitude of a coordinate, a radius or a step component of a
/// valid shape or motion, in world units. It keeps every intermediate
/// product of the sweeps, the scaling of contact normals included, within
/// 128 bits.
pub const MAX_COORD: i64 = 8192;

/// Largest magnitude of a coordinate or radius that the helper tests accept.
/// It leaves room for boxes grown by a radius and for summed radii.
pub const WIDE_COORD: i64 = 32768;

/// The length of a unit normal in fixed point: a normal `n` stands for the
/// vector `n / NORMAL_SCALE`.
pub const NORMAL_SCALE: i64 = 4096;

/// Largest magnitude of a coordinate of a vector that `unit_normal_of`
/// accepts.
pub const MAX_DIRECTION: i64 = 0x2_0000_0000_0000;

/// Bound on the numerator and denominator of a time of impact.
pub const MAX_FRAC: i64 = 0x1000_0000_0000;

/// Two coordinates closer than this are treated as equal, in world units.
pub const NEAR_ZERO: i64 = 1;

pub open spec fn within(v: int, bound: int) -> bool {
    -bound <= v <= bound
}

/// A vector or a position in world units.
#[derive(Clone, Copy, Debug, PartialEq, Eq, Structural)]
pub struct Vec2 {
    pub x: i64,
    pub y: i64,
}

impl View for Vec2 {
    type V = (int, int);

    open spec fn view(&self) -> (int, int) {
        (self.x as int, self.y as int)
    }
}

impl Vec2 {
    pub open spec fn within(self, bound: int) -> bool {
        within(self.x as int, bound) && within(self.y as int, bound)
    }

    pub fn new(x: i64, y: i64) -> (r: Vec2)
        ensures
            r.x == x,
            r.y == y,
    {
        Vec2 { x, y }
    }

    pub fn zero() -> (r: Vec2)
        ensures
            r@ == (0int, 0int),
    {
        Vec2 { x: 0, y: 0 }
    }
}

pub open spec fn neg(v: (int, int)) -> (int, int) {
    (-v.0, -v.1)
}

pub open spec fn vsub(a: (int, int), b: (int, int)) -> (int, int) {
    (a.0 - b.0, a.1 - b.1)
}

pub open spec fn len_sq(v: (int, int)) -> int {
    v.0 * v.0 + v.1 * v.1
}

pub open spec fn sign(v: int) -> int {
    if v > 0 {
        1
    } else if v < 0 {
        -1
    } else {
        0
    }
}

/// The fixed-point unit normal `(x, y)` for `x, y` among -1, 0, 1 along an
/// axis.
pub open spec fn axis(x: int, y: int) -> (int, int) {
    (x * NORMAL_SCALE, y * NORMAL_SCALE)
}

pub open spec fn abs(v: int) -> int {
    if v < 0 {
        -v
    } else {
        v
    }
}

/// Coordinate `c` of `v` scaled to a vector of length `NORMAL_SCALE`, rounded
/// toward zero: the integer part of `NORMAL_SCALE * c / |v|`.
pub open spec fn unit_component(c: int, v: (int, int)) -> int {
    let m = floor_sqrt((NORMAL_SCALE * NORMAL_SCALE * (c * c)) / len_sq(v));
    if c < 0 {
        -m
    } else {
        m
    }
}

/// The unit normal along `v` in fixed point (see `NORMAL_SCALE`), each
/// coordinate rounded toward zero; zero for the zero vector, whose direction
/// is undefined.
pub open spec fn unit_normal(v: (int, int)) -> (int, int) {
    if v.0 == 0 && v.1 == 0 {
        (0, 0)
    } else {
        (unit_component(v.0, v), unit_component(v.1, v))
    }
}

/// A unit normal is `NORMAL_SCALE` long up to rounding, never longer, has
/// the signs of `v`, and each coordinate is `NORMAL_SCALE * v.i / |v|`
/// rounded toward zero (stated over squares, `|v|` being irrational).
pub proof fn lemma_unit_normal(v: (int, int))
    requires
        v != (0int, 0int),
    ensures
        ({
            let n = unit_normal(v);
            let l = len_sq(v);
            let s = NORMAL_SCALE as int;
            &&& n.0 * v.0 >= 0 && n.1 * v.1 >= 0
            &&& n.0 * n.0 * l <= s * s * (v.0 * v.0) < (abs(n.0) + 1) * (abs(n.0) + 1) * l
            &&& n.1 * n.1 * l <= s * s * (v.1 * v.1) < (abs(n.1) + 1) * (abs(n.1) + 1) * l
            &&& s * s - 4 * s - 2 < n.0 * n.0 + n.1 * n.1 <= s * s
            &&& abs(n.0) <= s && abs(n.1) <= s
        }),
{
    let l = len_sq(v);
    let s = NORMAL_SCALE as int;
    assert(l > 0) by (nonlinear_arith)
        requires
            v.0 != 0 || v.1 != 0,
            l == v.0 * v.0 + v.1 * v.1,
    ;
    lemma_unit_component(v.0, v);
    lemma_unit_component(v.1, v);
    let m0 = abs(unit_normal(v).0);
    let m1 = abs(unit_normal(v).1);
    assert(m0 * m0 + m1 * m1 <= s * s) by (nonlinear_arith)
        requires
            l > 0,
            l == v.0 * v.0 + v.1 * v.1,
            m0 * m0 * l <= s * s * (v.0 * v.0),
            m1 * m1 * l <= s * s * (v.1 * v.1),
    ;
    assert((m0 + 1) * (m0 + 1) + (m1 + 1) * (m1 + 1) > s * s) by (nonlinear_arith)
        requires
            l > 0,
            l == v.0 * v.0 + v.1 * v.1,
            s * s * (v.0 * v.0) < (m0 + 1) * (m0 + 1) * l,
            s * s * (v.1 * v.1) < (m1 + 1) * (m1 + 1) * l,
    ;
    assert(m0 <= s && m1 <= s) by (nonlinear_arith)
        requires
            m0 >= 0,
            m1 >= 0,
            s > 0,
            m0 * m0 + m1 * m1 <= s * s,
    ;
    assert(s * s - 4 * s - 2 < m0 * m0 + m1 * m1) by (nonlinear_arith)
        requires
            0 <= m0 <= s,
            0 <= m1 <= s,
            (m0 + 1) * (m0 + 1) + (m1 + 1) * (m1 + 1) > s * s,
    ;
}

proof fn lemma_unit_component(c: int, v: (int, int))
    requires
        len_sq(v) > 0,
        c == v.0 || c == v.1,
    ensures
        ({
            let n = unit_component(c, v);
            let l = len_sq(v);
            let s = NORMAL_SCALE as int;
            &&& n * c >= 0
            &&& n * n == abs(n) * abs(n)
            &&& n * n * l <= s * s * (c * c) < (abs(n) + 1) * (abs(n) + 1) * l
        }),
{
    let l = len_sq(v);
    let s = NORMAL_SCALE as int;
    let a = s * s * (c * c);
    assert(a >= 0) by (nonlinear_arith)
        requires
            a == s * s * (c * c),
    ;
    let q = a / l;
    assert(q * l <= a < (q + 1) * l) by (nonlinear_arith)
        requires
            l > 0,
            q == a / l,
    ;
    assert(q >= 0) by (nonlinear_arith)
        requires
            l > 0,
            a >= 0,
            q == a / l,
    ;
    lemma_floor_sqrt(q);
    let m = floor_sqrt(q);
    let n = unit_component(c, v);
    assert(abs(n) == m);
    assert(n * n == m * m) by (nonlinear_arith)
        requires
            n == m || n == -m,
    ;
    assert(m * m * l <= a) by (nonlinear_arith)
        requires
            l > 0,
            m * m <= q,
            q * l <= a,
    ;
    assert(a < (m + 1) * (m + 1) * l) by (nonlinear_arith)
        requires
            l > 0,
            q < (m + 1) * (m + 1),
            a < (q + 1) * l,
    ;
    assert(n * c >= 0) by (nonlinear_arith)
        requires
            m >= 0,
            n == if c < 0 { -m } else { m },
    ;
}

/// The unit normal of a vector along an axis is exactly `NORMAL_SCALE` long.
pub proof fn lemma_unit_normal_on_axis(v: (int, int))
    requires
        v != (0int, 0int),
        v.0 == 0 || v.1 == 0,
    ensures
        unit_normal(v) == (sign(v.0) * NORMAL_SCALE, sign(v.1) * NORMAL_SCALE),
{
    let s = NORMAL_SCALE as int;
    let l = len_sq(v);
    let c = if v.0 == 0 { v.1 } else { v.0 };
    assert(l == c * c && c * c > 0) by (nonlinear_arith)
        requires
            v.0 == 0 || v.1 == 0,
            v != (0int, 0int),
            c == if v.0 == 0 { v.1 } else { v.0 },
            l == v.0 * v.0 + v.1 * v.1,
    ;
    assert((s * s * (c * c)) / l == s * s) by (nonlinear_arith)
        requires
            l == c * c,
            l > 0,
    ;
    assert((s * s * (0 * 0)) / l == 0) by (nonlinear_arith)
        requires
            l > 0,
    ;
    assert(s * s <= s * s < (s + 1) * (s + 1)) by (nonlinear_arith)
        requires
            s > 0,
    ;
    lemma_floor_sqrt_unique(s * s, s);
    lemma_floor_sqrt_unique(0, 0);
}

/// Reversing a vector reverses its unit normal.
pub proof fn lemma_unit_normal_neg(v: (int, int))
    ensures
        unit_normal(neg(v)) == neg(unit_normal(v)),
{
    if v != (0int, 0int) {
        assert((-v.0) * (-v.0) == v.0 * v.0 && (-v.1) * (-v.1) == v.1 * v.1) by (nonlinear_arith);
        assert(len_sq(neg(v)) == len_sq(v));
        lemma_floor_sqrt_unique(0, 0);
        assert(len_sq(v) > 0) by (nonlinear_arith)
            requires
                v.0 != 0 || v.1 != 0,
        ;
        assert((NORMAL_SCALE * NORMAL_SCALE * (0 * 0)) / len_sq(v) == 0) by (nonlinear_arith)
            requires
                len_sq(v) > 0,
        ;
    }
}

/// The unit normal along `v` (see `unit_normal`).
pub fn unit_normal_of(v: Vec2) -> (r: Vec2)
    requires
        within(v.x as int, MAX_DIRECTION as int),
        within(v.y as int, MAX_DIRECTION as int),
    ensures
        r@ == unit_normal(v@),
        r.within(NORMAL_SCALE as int),
{
    if v.x == 0 && v.y == 0 {
        return Vec2 { x: 0, y: 0 };
    }
    proof {
        lemma_unit_normal(v@);
    }
    let x = v.x as i128;
    let y = v.y as i128;
    proof {
        lemma_square_bound(x as int, MAX_DIRECTION as int);
        lemma_square_bound(y as int, MAX_DIRECTION as int);
    }
    let l = x * x + y * y;
    assert(l > 0) by (nonlinear_arith)
        requires
            x != 0 || y != 0,
            l == x * x + y * y,
    ;
    let s2 = (NORMAL_SCALE as i128) * (NORMAL_SCALE as i128);
    let mx = scaled_root(s2, x * x, l);
    let my = scaled_root(s2, y * y, l);
    Vec2 { x: if v.x < 0 { -(mx as i64) } else { mx as i64 }, y: if v.y < 0 { -(my as i64) } else { my as i64 } }
}

/// `floor_sqrt(s2 * a / l)` for `0 <= a <= l`.
fn scaled_root(s2: i128, a: i128, l: i128) -> (r: i128)
    requires
        s2 == NORMAL_SCALE * NORMAL_SCALE,
        0 <= a <= l,
        0 < l <= 2 * (MAX_DIRECTION * MAX_DIRECTION),
    ensures
        r == floor_sqrt((s2 * a) as int / l as int),
        0 <= r <= NORMAL_SCALE,
{
    assert(s2 * a <= s2 * l) by (nonlinear_arith)
        requires
            s2 >= 0,
            0 <= a <= l,
    ;
    assert(s2 * l <= 0x1000000 * (2 * (MAX_DIRECTION * MAX_DIRECTION))) by (nonlinear_arith)
        requires
            s2 == 0x1000000,
            0 < l <= 2 * (MAX_DIRECTION * MAX_DIRECTION),
    ;
    let q = s2 * a / l;
    assert(0 <= q <= s2) by (nonlinear_arith)
        requires
            s2 >= 0,
            0 <= a <= l,
            l > 0,
            q == (s2 * a) as int / l as int,
    ;
    let m = isqrt(q);
    assert(m <= NORMAL_SCALE) by (nonlinear_arith)
        requires
            m >= 0,
            m * m <= q,
            q <= s2,
            s2 == NORMAL_SCALE * NORMAL_SCALE,
    ;
    m
}

pub fn max(a: i64, b: i64) -> (r: i64)
    ensures
        r == if a > b { a } else { b },
{
    if a > b {
        a
    } else {
        b
    }
}

pub fn min(a: i64, b: i64) -> (r: i64)
    ensures
        r == if a < b { a } else { b },
{
    if a < b {
        a
    } else {
        b
    }
}

pub open spec fn is_near_zero(v: int) -> bool {
    -NEAR_ZERO < v < NEAR_ZERO
}

/// Whether `value` is closer to zero than `NEAR_ZERO`.
pub fn near_zero(value: i64) -> (r: bool)
    ensures
        r == is_near_zero(value as int),
{
    value < NEAR_ZERO && value > -NEAR_ZERO
}

pub open spec fn is_zeroish(v: (int, int)) -> bool {
    is_near_zero(v.0) && is_near_zero(v.1)
}

/// Whether both coordinates of `v` are near zero.
pub fn vec2_zeroish(v: Vec2) -> (r: bool)
    ensures
        r == is_zeroish(v@),
{
    near_zero(v.x) && near_zero(v.y)
}

pub open spec fn is_nearly(a: (int, int), b: (int, int)) -> bool {
    is_zeroish(vsub(a, b))
}

/// Whether `a` and `b` are nearly the same point.
pub fn vec2_nearly(a: Vec2, b: Vec2) -> (r: bool)
    requires
        a.within(MAX_COORD as int),
        b.within(MAX_COORD as int),
    ensures
        r == is_nearly(a@, b@),
{
    vec2_zeroish(Vec2 { x: a.x - b.x, y: a.y - b.y })
}

/// A fraction `num / den` with a positive denominator, used for times of
/// impact.
#[derive(Clone, Copy, Debug, PartialEq, Eq, Structural)]
pub struct Frac {
    pub num: i64,
    pub den: i64,
}

impl View for Frac {
    type V = (int, int);

    open spec fn view(&self) -> (int, int) {
        (self.num as int, self.den as int)
    }
}

pub open spec fn frac_wf(f: (int, int)) -> bool {
    0 < f.1 <= MAX_FRAC && within(f.0, MAX_FRAC as int)
}

/// `a < b` as rational numbers.
pub open spec fn frac_lt(a: (int, int), b: (int, int)) -> bool {
    a.0 * b.1 < b.0 * a.1
}

impl Frac {
    pub open spec fn wf(self) -> bool {
        frac_wf(self@)
    }

    pub fn one() -> (r: Frac)
        ensures
            r@ == (1int, 1int),
    {
        Frac { num: 1, den: 1 }
    }

    /// Whether `self` is smaller than `other` as a rational number.
    pub fn lt(&self, other: &Frac) -> (r: bool)
        requires
            self.wf(),
            other.wf(),
        ensures
            r == frac_lt(self@, other@),
    {
        proof {
            lemma_mul_within(self.num as int, other.den as int, MAX_FRAC as int, MAX_FRAC as int);
            lemma_mul_within(other.num as int, self.den as int, MAX_FRAC as int, MAX_FRAC as int);
        }
        (self.num as i128) * (other.den as i128) < (other.num as i128) * (self.den as i128)
    }
}

pub proof fn lemma_mul_within(a: int, b: int, ba: int, bb: int)
    requires
        within(a, ba),
        within(b, bb),
    ensures
        within(a * b, ba * bb),
        ba >= 0 && bb >= 0,
{
    assert(-(ba * bb) <= a * b <= ba * bb) by (nonlinear_arith)
        requires
            -ba <= a <= ba,
            -bb <= b <= bb,
    ;
}

pub open spec fn is_floor_sqrt(n: int, s: int) -> bool {
    0 <= s && s * s <= n && n < (s + 1) * (s + 1)
}

pub proof fn lemma_square_bound(a: int, bound: int)
    requires
        within(a, bound),
    ensures
        0 <= a * a <= bound * bound,
{
    assert(0 <= a * a <= bound * bound) by (nonlinear_arith)
        requires
            -bound <= a <= bound,
    ;
}

/// Largest integer whose square is at most `n`.
pub open spec fn floor_sqrt(n: int) -> int {
    choose|s: int| #[trigger] is_floor_sqrt(n, s)
}

/// Least non-negative integer whose square is at least `n`.
pub open spec fn ceil_sqrt(n: int) -> int {
    if floor_sqrt(n) * floor_sqrt(n) == n {
        floor_sqrt(n)
    } else {
        floor_sqrt(n) + 1
    }
}

/// `floor_sqrt(n)` has its defining property for every `n >= 0`.
pub proof fn lemma_floor_sqrt(n: int)
    requires
        n >= 0,
    ensures
        is_floor_sqrt(n, floor_sqrt(n)),
    decreases n,
{
    if n == 0 {
        assert(is_floor_sqrt(0, 0));
    } else {
        lemma_floor_sqrt(n - 1);
        let s = floor_sqrt(n - 1);
        if (s + 1) * (s + 1) <= n {
            assert(n < (s + 2) * (s + 2)) by (nonlinear_arith)
                requires
                    s >= 0,
                    n - 1 < (s + 1) * (s + 1),
            ;
            assert(is_floor_sqrt(n, s + 1));
        } else {
            assert(is_floor_sqrt(n, s));
        }
    }
}

pub proof fn lemma_floor_sqrt_unique(n: int, s: int)
    requires
        0 <= s,
        s * s <= n,
        n < (s + 1) * (s + 1),
    ensures
        floor_sqrt(n) == s,
{
    assert(is_floor_sqrt(n, s));
    let f = floor_sqrt(n);
    assert(is_floor_sqrt(n, f));
    if f < s {
        assert((f + 1) * (f + 1) <= s * s) by (nonlinear_arith)
            requires
                0 <= f < s,
        ;
    } else if s < f {
        assert((s + 1) * (s + 1) <= f * f) by (nonlinear_arith)
            requires
                0 <= s < f,
        ;
    }
}

/// Largest value of the square root bound accepted by `isqrt`.
pub const MAX_SQRT_ARG: i128 = 0x4_0000_0000_0000_0000_0000;

/// Integer square root, rounded down.
pub fn isqrt(n: i128) -> (r: i128)
    requires
        0 <= n <= MAX_SQRT_ARG,
    ensures
        r == floor_sqrt(n as int),
        is_floor_sqrt(n as int, r as int),
        0 <= r <= 0x200_0000_0000,
{
    let mut lo: i128 = 0;
    let mut hi: i128 = 0x200_0000_0001;
    assert(n < hi * hi) by (nonlinear_arith)
        requires
            n <= 0x4_0000_0000_0000_0000_0000,
            hi == 0x200_0000_0001,
    ;
    while hi - lo > 1
        invariant
            0 <= lo < hi <= 0x200_0000_0001,
            lo * lo <= n,
            n < hi * hi,
        decreases hi - lo,
    {
        let mid: i128 = lo + (hi - lo) / 2;
        assert(mid * mid <= 0x200_0000_0001 * 0x200_0000_0001) by (nonlinear_arith)
            requires
                0 <= mid <= 0x200_0000_0001,
        ;
        if mid * mid <= n {
            lo = mid;
        } else {
            hi = mid;
        }
    }
    proof {
        lemma_floor_sqrt_unique(n as int, lo as int);
    }
    lo
}

/// Integer square root, rounded up.
pub fn isqrt_ceil(n: i128) -> (r: i128)
    requires
        0 <= n <= MAX_SQRT_ARG,
    ensures
        r == ceil_sqrt(n as int),
        0 <= r <= 0x200_0000_0001,
{
    let f = isqrt(n);
    assert(f * f <= 0x200_0000_0000 * 0x200_0000_0000) by (nonlinear_arith)
        requires
            0 <= f <= 0x200_0000_0000,
    ;
    if f * f == n {
        f
    } else {
        f + 1
    }
}

} // verus!
