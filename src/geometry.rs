//! Fixed-point 2D vectors: magnitude, scaling to a magnitude and clamping.
use vstd::prelude::*;

verus! {

/// The fixed-point unit: `ONE` stands for 1.0 (one pixel, full health, a weight of one).
pub const ONE: i64 = 10_000;

/// Every coordinate handed to the vector operations stays within this bound.
pub const COORD_BOUND: i64 = 0x4000_0000;

/// A 2D vector (or point) in fixed-point units.
#[derive(Clone, Copy, Debug, PartialEq, Eq, Structural)]
pub struct Vec2 {
    pub x: i64,
    pub y: i64,
}

impl View for Vec2 {
    type V = (int, int);

    open spec fn view(&self) -> (int, int) {
        (self.x as int, self.y as int)
    }
}

pub open spec fn vadd(a: (int, int), b: (int, int)) -> (int, int) {
    (a.0 + b.0, a.1 + b.1)
}

pub open spec fn vsub(a: (int, int), b: (int, int)) -> (int, int) {
    (a.0 - b.0, a.1 - b.1)
}

/// The squared Euclidean length.
pub open spec fn norm_sq(v: (int, int)) -> int {
    v.0 * v.0 + v.1 * v.1
}

/// The squared Euclidean distance between two points.
pub open spec fn dist_sq(a: (int, int), b: (int, int)) -> int {
    norm_sq(vsub(a, b))
}

/// Whether a length whose square is `d_sq` is at most `r`.
pub open spec fn within(d_sq: int, r: int) -> bool {
    r >= 0 && d_sq <= r * r
}

/// Both coordinates lie in `[-bound, bound]`.
pub open spec fn in_box(v: (int, int), bound: int) -> bool {
    -bound <= v.0 <= bound && -bound <= v.1 <= bound
}

/// `s` is the square root of `n`, rounded up.
pub open spec fn is_ceil_sqrt(n: int, s: int) -> bool {
    0 <= s && n <= s * s && (s == 0 || (s - 1) * (s - 1) < n)
}

/// The square root of `n >= 0`, rounded up.
pub open spec fn ceil_root(n: int) -> int {
    choose|s: int| #[trigger] is_ceil_sqrt(n, s)
}

/// Integer division rounding toward zero, for `b > 0`.
pub open spec fn div_tz(a: int, b: int) -> int {
    if a >= 0 {
        a / b
    } else {
        -((-a) / b)
    }
}

/// `v` scaled to magnitude `m` (the normalized vector times `m`); the zero vector
/// stays zero. The length used is rounded up, so the result is never longer than `m`.
pub open spec fn with_magnitude(v: (int, int), m: int) -> (int, int) {
    if v == (0int, 0int) {
        (0, 0)
    } else {
        let s = ceil_root(norm_sq(v));
        (div_tz(v.0 * m, s), div_tz(v.1 * m, s))
    }
}

/// `v` with its magnitude clamped to `m`: unchanged when already short enough.
pub open spec fn limited(v: (int, int), m: int) -> (int, int) {
    if norm_sq(v) > m * m {
        with_magnitude(v, m)
    } else {
        v
    }
}

/// `v` multiplied by the fixed-point factor `w`.
pub open spec fn weighted(v: (int, int), w: int) -> (int, int) {
    (div_tz(v.0 * w, ONE as int), div_tz(v.1 * w, ONE as int))
}

proof fn lemma_ceil_root_exists(n: nat)
    ensures
        exists|s: int| #[trigger] is_ceil_sqrt(n as int, s),
    decreases n,
{
    if n == 0 {
        assert(is_ceil_sqrt(0, 0));
    } else {
        lemma_ceil_root_exists((n - 1) as nat);
        let p = choose|s: int| #[trigger] is_ceil_sqrt((n - 1) as int, s);
        if n <= p * p {
            assert(p != 0);
            assert(is_ceil_sqrt(n as int, p));
        } else {
            assert((p + 1) * (p + 1) == p * p + 2 * p + 1) by (nonlinear_arith);
            assert(is_ceil_sqrt(n as int, p + 1));
        }
    }
}

proof fn lemma_ceil_root_unique(n: int, a: int, b: int)
    requires
        is_ceil_sqrt(n, a),
        is_ceil_sqrt(n, b),
    ensures
        a == b,
{
    if a < b {
        assert(a * a <= (b - 1) * (b - 1)) by (nonlinear_arith)
            requires
                0 <= a <= b - 1,
        ;
    } else if b < a {
        assert(b * b <= (a - 1) * (a - 1)) by (nonlinear_arith)
            requires
                0 <= b <= a - 1,
        ;
    }
}

/// The rounded-up square root is well defined.
pub proof fn lemma_ceil_root(n: int)
    requires
        n >= 0,
    ensures
        is_ceil_sqrt(n, ceil_root(n)),
        n > 0 ==> ceil_root(n) >= 1,
{
    lemma_ceil_root_exists(n as nat);
    let s = ceil_root(n);
    if s == 0 {
        assert(s * s == 0) by (nonlinear_arith)
            requires
                s == 0,
        ;
    }
}

proof fn lemma_div_tz_scaled(a: int, m: int, s: int)
    requires
        m >= 0,
        s >= 1,
    ensures
        div_tz(a * m, s) * div_tz(a * m, s) * (s * s) <= (a * a) * (m * m),
        a >= 0 ==> div_tz(a * m, s) >= 0,
        a <= 0 ==> div_tz(a * m, s) <= 0,
{
    let p = if a >= 0 { a * m } else { -(a * m) };
    assert(p >= 0) by (nonlinear_arith)
        requires
            m >= 0,
            p == (if a >= 0 { a * m } else { -(a * m) }),
    ;
    let q = p / s;
    assert(q * s <= p) by (nonlinear_arith)
        requires
            s >= 1,
            p >= 0,
            q == p / s,
    ;
    assert(q >= 0) by (nonlinear_arith)
        requires
            s >= 1,
            p >= 0,
            q == p / s,
    ;
    assert((q * s) * (q * s) <= p * p) by (nonlinear_arith)
        requires
            0 <= q * s <= p,
    ;
    assert(p * p == (a * a) * (m * m)) by (nonlinear_arith)
        requires
            p == a * m || p == -(a * m),
    ;
    assert(q * q * (s * s) == (q * s) * (q * s)) by (nonlinear_arith);
    let d = div_tz(a * m, s);
    if a >= 0 {
        assert(a * m >= 0) by (nonlinear_arith)
            requires
                a >= 0,
                m >= 0,
        ;
        assert(div_tz(a * m, s) == q);
    } else {
        assert(a * m <= 0) by (nonlinear_arith)
            requires
                a < 0,
                m >= 0,
        ;
        if a * m == 0 {
            assert(p == 0);
            assert(q == 0) by (nonlinear_arith)
                requires
                    s >= 1,
                    p == 0,
                    q == p / s,
            ;
            assert(div_tz(a * m, s) == 0);
        } else {
            assert(div_tz(a * m, s) == -q);
        }
    }
    assert(d * d == q * q) by (nonlinear_arith)
        requires
            d == q || d == -q,
    ;
}

/// A vector scaled to magnitude `m` is at most `m` long, and so is each coordinate.
pub proof fn lemma_with_magnitude_bound(v: (int, int), m: int)
    requires
        m >= 0,
    ensures
        norm_sq(with_magnitude(v, m)) <= m * m,
        in_box(with_magnitude(v, m), m),
{
    let r = with_magnitude(v, m);
    if v != (0int, 0int) {
        let n = norm_sq(v);
        assert(n > 0) by (nonlinear_arith)
            requires
                v.0 != 0 || v.1 != 0,
                n == v.0 * v.0 + v.1 * v.1,
        ;
        lemma_ceil_root(n);
        let s = ceil_root(n);
        lemma_div_tz_scaled(v.0, m, s);
        lemma_div_tz_scaled(v.1, m, s);
        let qx = r.0;
        let qy = r.1;
        assert((qx * qx + qy * qy) * (s * s) <= n * (m * m)) by (nonlinear_arith)
            requires
                qx * qx * (s * s) <= (v.0 * v.0) * (m * m),
                qy * qy * (s * s) <= (v.1 * v.1) * (m * m),
                n == v.0 * v.0 + v.1 * v.1,
        ;
        assert(n * (m * m) <= (s * s) * (m * m)) by (nonlinear_arith)
            requires
                n <= s * s,
                m >= 0,
        ;
        assert(qx * qx + qy * qy <= m * m) by (nonlinear_arith)
            requires
                (qx * qx + qy * qy) * (s * s) <= (s * s) * (m * m),
                s >= 1,
        ;
    }
    lemma_norm_bounds_coords(r, m);
}

/// A vector no longer than `m` has both coordinates in `[-m, m]`.
pub proof fn lemma_norm_bounds_coords(v: (int, int), m: int)
    requires
        m >= 0,
        norm_sq(v) <= m * m,
    ensures
        in_box(v, m),
{
    assert(-m <= v.0 <= m) by (nonlinear_arith)
        requires
            v.0 * v.0 + v.1 * v.1 <= m * m,
            m >= 0,
    ;
    assert(-m <= v.1 <= m) by (nonlinear_arith)
        requires
            v.0 * v.0 + v.1 * v.1 <= m * m,
            m >= 0,
    ;
}

/// A clamped vector is at most `m` long; one already within `m` is left as it was.
pub proof fn lemma_limited_bound(v: (int, int), m: int)
    requires
        m >= 0,
    ensures
        norm_sq(limited(v, m)) <= m * m,
        in_box(limited(v, m), m),
        norm_sq(v) <= m * m ==> limited(v, m) == v,
{
    if norm_sq(v) > m * m {
        lemma_with_magnitude_bound(v, m);
    } else {
        lemma_norm_bounds_coords(v, m);
    }
}

impl Vec2 {
    pub fn new(x: i64, y: i64) -> (r: Vec2)
        ensures
            r.x == x,
            r.y == y,
    {
        Vec2 { x, y }
    }

    pub fn zero() -> (r: Vec2)
        ensures
            r@ == (0int, 0int),
    {
        Vec2 { x: 0, y: 0 }
    }
}

/// The square of the vector's length.
pub fn length_sq(v: Vec2) -> (r: i64)
    requires
        in_box(v@, COORD_BOUND as int),
    ensures
        r == norm_sq(v@),
{
    assert(v.x * v.x <= 0x1000_0000_0000_0000) by (nonlinear_arith)
        requires
            -0x4000_0000 <= v.x <= 0x4000_0000,
    ;
    assert(v.y * v.y <= 0x1000_0000_0000_0000) by (nonlinear_arith)
        requires
            -0x4000_0000 <= v.y <= 0x4000_0000,
    ;
    assert(v.x * v.x >= 0) by (nonlinear_arith);
    assert(v.y * v.y >= 0) by (nonlinear_arith);
    v.x * v.x + v.y * v.y
}

/// The square root of `n`, rounded up, by bisection.
pub fn ceil_sqrt(n: i64) -> (s: i64)
    requires
        0 <= n <= 0x2000_0000_0000_0000,
    ensures
        s == ceil_root(n as int),
        is_ceil_sqrt(n as int, s as int),
        0 <= s <= 0x8000_0000,
{
    proof {
        lemma_ceil_root(n as int);
    }
    if n == 0 {
        assert(is_ceil_sqrt(0, 0));
        proof {
            lemma_ceil_root_unique(0, 0, ceil_root(0));
        }
        return 0;
    }
    let mut lo: i64 = 0;
    let mut hi: i64 = 0x8000_0000;
    assert(n <= hi * hi) by (nonlinear_arith)
        requires
            n <= 0x2000_0000_0000_0000,
            hi == 0x8000_0000,
    ;
    while hi - lo > 1
        invariant
            0 <= lo < hi <= 0x8000_0000,
            lo * lo < n,
            n <= hi * hi,
        decreases hi - lo,
    {
        let mid: i64 = lo + (hi - lo) / 2;
        assert(mid * mid <= 0x4000_0000_0000_0000) by (nonlinear_arith)
            requires
                0 <= mid <= 0x8000_0000,
        ;
        if mid * mid < n {
            lo = mid;
        } else {
            hi = mid;
        }
    }
    assert(hi - 1 == lo);
    assert(is_ceil_sqrt(n as int, hi as int));
    proof {
        lemma_ceil_root_unique(n as int, hi as int, ceil_root(n as int));
    }
    hi
}

/// Division rounding toward zero by a positive divisor.
pub fn div_toward_zero(a: i64, b: i64) -> (r: i64)
    requires
        b > 0,
        a > i64::MIN,
    ensures
        r == div_tz(a as int, b as int),
{
    if a >= 0 {
        a / b
    } else {
        let q = (-a) / b;
        -q
    }
}

/// The vector scaled to magnitude `m`; the zero vector stays zero.
pub fn set_magnitude(v: Vec2, m: i64) -> (r: Vec2)
    requires
        in_box(v@, COORD_BOUND as int),
        0 <= m <= COORD_BOUND,
    ensures
        r@ == with_magnitude(v@, m as int),
        norm_sq(r@) <= m * m,
        in_box(r@, m as int),
{
    proof {
        lemma_with_magnitude_bound(v@, m as int);
    }
    if v.x == 0 && v.y == 0 {
        return Vec2::zero();
    }
    let n = length_sq(v);
    assert(0 <= n <= 0x2000_0000_0000_0000) by (nonlinear_arith)
        requires
            -0x4000_0000 <= v.x <= 0x4000_0000,
            -0x4000_0000 <= v.y <= 0x4000_0000,
            n == v.x * v.x + v.y * v.y,
    ;
    let s = ceil_sqrt(n);
    assert(n > 0) by (nonlinear_arith)
        requires
            v.x != 0 || v.y != 0,
            n == v.x * v.x + v.y * v.y,
    ;
    proof {
        lemma_ceil_root(n as int);
    }
    assert(-0x1000_0000_0000_0000 <= v.x * m <= 0x1000_0000_0000_0000) by (nonlinear_arith)
        requires
            -0x4000_0000 <= v.x <= 0x4000_0000,
            0 <= m <= 0x4000_0000,
    ;
    assert(-0x1000_0000_0000_0000 <= v.y * m <= 0x1000_0000_0000_0000) by (nonlinear_arith)
        requires
            -0x4000_0000 <= v.y <= 0x4000_0000,
            0 <= m <= 0x4000_0000,
    ;
    let x = div_toward_zero(v.x * m, s);
    let y = div_toward_zero(v.y * m, s);
    Vec2 { x, y }
}

/// The vector with its magnitude clamped to `m`.
pub fn limit(v: Vec2, m: i64) -> (r: Vec2)
    requires
        in_box(v@, COORD_BOUND as int),
        0 <= m <= COORD_BOUND,
    ensures
        r@ == limited(v@, m as int),
        norm_sq(r@) <= m * m,
        in_box(r@, m as int),
        norm_sq(v@) <= m * m ==> r == v,
{
    proof {
        lemma_limited_bound(v@, m as int);
    }
    let n = length_sq(v);
    assert(m * m <= 0x1000_0000_0000_0000) by (nonlinear_arith)
        requires
            0 <= m <= 0x4000_0000,
    ;
    if n > m * m {
        set_magnitude(v, m)
    } else {
        v
    }
}

/// The vector multiplied by the fixed-point factor `w`.
pub fn weight(v: Vec2, w: i64) -> (r: Vec2)
    requires
        in_box(v@, COORD_BOUND as int),
        -COORD_BOUND <= w <= COORD_BOUND,
    ensures
        r@ == weighted(v@, w as int),
{
    assert(-0x1000_0000_0000_0000 <= v.x * w <= 0x1000_0000_0000_0000) by (nonlinear_arith)
        requires
            -0x4000_0000 <= v.x <= 0x4000_0000,
            -0x4000_0000 <= w <= 0x4000_0000,
    ;
    assert(-0x1000_0000_0000_0000 <= v.y * w <= 0x1000_0000_0000_0000) by (nonlinear_arith)
        requires
            -0x4000_0000 <= v.y <= 0x4000_0000,
            -0x4000_0000 <= w <= 0x4000_0000,
    ;
    Vec2 { x: div_toward_zero(v.x * w, ONE), y: div_toward_zero(v.y * w, ONE) }
}

} // verus!
