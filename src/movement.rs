//! Input aggregation: raw directional input, heading and speed become the
//! horizontal displacement wanted this frame.
use vstd::prelude::*;

use vstd::arithmetic::div_mod::{lemma_fundamental_div_mod, lemma_mod_pos_bound};

use crate::geometry::{abs, floor_sqrt, Point2};

verus! {

/// Fixed-point one for axis values and for the heading's sine and cosine.
pub const AXIS_ONE: i64 = 0x1_0000;

/// Microseconds in a second: frame times are given in microseconds.
pub const MICROS_PER_SECOND: i64 = 1_000_000;

/// Longest frame time accepted, in microseconds (about 71 minutes).
pub const MAX_FRAME_MICROS: i64 = 0x1_0000_0000;

/// Largest speed accepted, in position units per second.
pub const SPEED_LIMIT: i64 = 0x1000_0000;

/// A raw two-axis input, each component in `[-AXIS_ONE, AXIS_ONE]`;
/// positive `y` is forward.
#[derive(Clone, Copy, Debug, PartialEq, Eq, Structural)]
pub struct Axis {
    pub x: i64,
    pub y: i64,
}

impl Axis {
    pub open spec fn wf(self) -> bool {
        -AXIS_ONE <= self.x <= AXIS_ONE && -AXIS_ONE <= self.y <= AXIS_ONE
    }
}

/// The sine and cosine of the player's yaw, in units of `1 / AXIS_ONE`,
/// each rounded to a whole unit.
#[derive(Clone, Copy, Debug, PartialEq, Eq, Structural)]
pub struct Heading {
    pub sin: i64,
    pub cos: i64,
}

impl Heading {
    /// Each of sine and cosine is at most one, and together they are a
    /// rotation: their length is one, to within the unit of rounding.
    pub open spec fn wf(self) -> bool {
        &&& -AXIS_ONE <= self.sin <= AXIS_ONE
        &&& -AXIS_ONE <= self.cos <= AXIS_ONE
        &&& (AXIS_ONE - 1) * (AXIS_ONE - 1) <= self.sin * self.sin + self.cos * self.cos
        &&& self.sin * self.sin + self.cos * self.cos <= (AXIS_ONE + 1) * (AXIS_ONE + 1)
    }

    /// Facing down the negative `z` axis: yaw zero.
    pub fn forward() -> (h: Heading)
        ensures
            h.wf(),
            h.sin == 0,
            h.cos == AXIS_ONE,
    {
        Heading { sin: 0, cos: AXIS_ONE }
    }
}

/// `a / d` rounded toward zero.
pub open spec fn trunc_div(a: int, d: int) -> int {
    if a >= 0 {
        a / d
    } else {
        -((-a) / d)
    }
}

/// The length a local direction `(vx, vz)` is divided by: its own length
/// (rounded down) when longer than one, else one.
pub open spec fn direction_norm(vx: int, vz: int) -> int {
    if vx * vx + vz * vz > AXIS_ONE * AXIS_ONE {
        crate::geometry::sqrt_floor(vx * vx + vz * vz)
    } else {
        AXIS_ONE as int
    }
}

/// The displacement for input `axis`, turned by `heading` and moved at
/// `speed` position units per second for `dt` microseconds.
///
/// The local direction is `(axis.x, -axis.y)` (forward is negative `z`),
/// shortened to unit length when longer; it is rotated about the vertical
/// axis and scaled, with one rounding toward zero per component at the end.
pub open spec fn displacement(axis: Axis, heading: Heading, speed: int, dt: int) -> (int, int) {
    let vx = axis.x as int;
    let vz = -axis.y;
    let den = AXIS_ONE * direction_norm(vx, vz) * MICROS_PER_SECOND;
    (
        trunc_div((vx * heading.cos + vz * heading.sin) * dt * speed, den),
        trunc_div((vz * heading.cos - vx * heading.sin) * dt * speed, den),
    )
}

fn trunc_div_exec(a: i128, d: i128) -> (q: i128)
    requires
        d > 0,
        a > i128::MIN,
    ensures
        q == trunc_div(a as int, d as int),
{
    if a >= 0 {
        a / d
    } else {
        -((-a) / d)
    }
}

/// The horizontal displacement wanted this frame, or `None` when the input
/// holds no direction at all.
///
/// `sprinting` picks `sprint_speed` over `speed`; `dt` is the frame time in
/// microseconds.
pub fn aggregate(
    raw_axis: Axis,
    heading: Heading,
    sprinting: bool,
    speed: i64,
    sprint_speed: i64,
    dt: i64,
) -> (r: Option<Point2>)
    requires
        raw_axis.wf(),
        heading.wf(),
        0 <= speed <= SPEED_LIMIT,
        0 <= sprint_speed <= SPEED_LIMIT,
        0 <= dt <= MAX_FRAME_MICROS,
    ensures
        r is None <==> raw_axis.x == 0 && raw_axis.y == 0,
        r matches Some(d) ==> d@ == displacement(
            raw_axis,
            heading,
            if sprinting { sprint_speed as int } else { speed as int },
            dt as int,
        ),
        r matches Some(d) ==> {
            let f = if sprinting { sprint_speed as int } else { speed as int };
            (d.x * d.x + d.z * d.z) * ((AXIS_ONE * MICROS_PER_SECOND) * (AXIS_ONE * MICROS_PER_SECOND))
                <= ((AXIS_ONE + 3) * dt * f) * ((AXIS_ONE + 3) * dt * f)
        },
{
    let vx = raw_axis.x;
    let vz = -raw_axis.y;
    assert(vx * vx <= 0x1_0000_0000 && vz * vz <= 0x1_0000_0000) by (nonlinear_arith)
        requires -0x1_0000 <= vx <= 0x1_0000, -0x1_0000 <= vz <= 0x1_0000;
    assert(vx * vx >= 0 && vz * vz >= 0) by (nonlinear_arith);
    let len2 = vx * vx + vz * vz;
    if len2 <= 0 {
        assert(vx == 0 && vz == 0) by (nonlinear_arith)
            requires vx * vx + vz * vz <= 0;
        return None;
    }
    assert(vx != 0 || vz != 0) by (nonlinear_arith)
        requires len2 == vx * vx + vz * vz, len2 > 0;
    let n: i64 = if len2 > AXIS_ONE * AXIS_ONE {
        let root = floor_sqrt(len2 as u128);
        assert(root <= 0x2_0000) by (nonlinear_arith)
            requires root * root <= len2, len2 <= 0x2_0000_0000, root >= 0;
        root as i64
    } else {
        AXIS_ONE
    };
    proof {
        assert(n == direction_norm(vx as int, vz as int));
        assert(1 <= n <= 0x2_0000 && abs(vx as int) <= n && abs(vz as int) <= n)
            by (nonlinear_arith)
            requires
                len2 == vx * vx + vz * vz,
                len2 <= 0x2_0000_0000,
                len2 > 0x1_0000 * 0x1_0000 ==> n * n <= len2 < (n + 1) * (n + 1) && n >= 0,
                len2 <= 0x1_0000 * 0x1_0000 ==> n == 0x1_0000,
                len2 > 0,
        {
            assert(abs(vx as int) * abs(vx as int) == vx * vx);
            assert(abs(vz as int) * abs(vz as int) == vz * vz);
            if len2 > 0x1_0000 * 0x1_0000 {
                if n > 0x2_0000 {
                    assert(n * n > 0x2_0000 * 0x2_0000);
                }
                if abs(vx as int) > n {
                    assert(abs(vx as int) * abs(vx as int) >= (n + 1) * (n + 1));
                }
                if abs(vz as int) > n {
                    assert(abs(vz as int) * abs(vz as int) >= (n + 1) * (n + 1));
                }
            } else {
                if abs(vx as int) > n {
                    assert(abs(vx as int) * abs(vx as int) > n * n);
                }
                if abs(vz as int) > n {
                    assert(abs(vz as int) * abs(vz as int) > n * n);
                }
            }
        }
    }
    let factor: i64 = if sprinting { sprint_speed } else { speed };
    let c = heading.cos as i128;
    let s = heading.sin as i128;
    let wx = vx as i128;
    let wz = vz as i128;
    proof {
        lemma_rotated_bound(wx as int, wz as int, c as int, s as int, n as int);
        lemma_rotated_bound(wz as int, -wx, c as int, s as int, n as int);
    }
    let rx: i128 = wx * c + wz * s;
    let rz: i128 = wz * c - wx * s;
    proof {
        lemma_scaled_bound(rx as int, dt as int, factor as int, n as int);
        lemma_scaled_bound(rz as int, dt as int, factor as int, n as int);
        assert(0 <= dt * factor <= MAX_FRAME_MICROS * SPEED_LIMIT) by (nonlinear_arith)
            requires 0 <= dt <= MAX_FRAME_MICROS, 0 <= factor <= SPEED_LIMIT;
        assert(0 < AXIS_ONE * n <= 0x1_0000 * 0x2_0000) by (nonlinear_arith)
            requires 1 <= n <= 0x2_0000;
    }
    let step: i128 = (dt as i128) * (factor as i128);
    let den: i128 = (AXIS_ONE as i128) * (n as i128) * (MICROS_PER_SECOND as i128);
    let dx = trunc_div_exec(rx * step, den);
    let dz = trunc_div_exec(rz * step, den);
    proof {
        assert(rx * step == (rx * dt) * factor) by (nonlinear_arith)
            requires step == dt * factor;
        assert(rz * step == (rz * dt) * factor) by (nonlinear_arith)
            requires step == dt * factor;
        lemma_trunc_div_scaled(rx * dt, factor as int, den as int);
        lemma_trunc_div_scaled(rz * dt, factor as int, den as int);
        let ax = abs(dx as int);
        let az = abs(dz as int);
        let t = dt * factor;
        lemma_div_le(abs(rx * dt) * factor, den as int);
        lemma_div_le(abs(rz * dt) * factor, den as int);
        assert(abs(rx * dt) * factor == abs(rx as int) * t && abs(rz * dt) * factor == abs(
            rz as int,
        ) * t) by (nonlinear_arith)
            requires t == dt * factor, dt >= 0, factor >= 0;
        assert(n >= AXIS_ONE && len2 < (n + 1) * (n + 1)) by (nonlinear_arith)
            requires
                len2 > 0x1_0000 * 0x1_0000 ==> n * n <= len2 < (n + 1) * (n + 1) && n >= 0,
                len2 <= 0x1_0000 * 0x1_0000 ==> n == 0x1_0000,
        ;
        lemma_magnitude(
            vx as int,
            vz as int,
            c as int,
            s as int,
            n as int,
            t,
            ax,
            az,
        );
        assert(ax * ax == dx * dx && az * az == dz * dz) by (nonlinear_arith)
            requires ax == abs(dx as int), az == abs(dz as int);
        assert((AXIS_ONE + 3) * t == (AXIS_ONE + 3) * dt * factor) by (nonlinear_arith)
            requires t == dt * factor;
    }
    Some(Point2 { x: dx as i64, z: dz as i64 })
}

/// A direction no longer than `n` per component, rotated by a sine and
/// cosine of at most one, stays within `2 * n` per component.
proof fn lemma_rotated_bound(a: int, b: int, c: int, s: int, n: int)
    requires
        abs(a) <= n,
        abs(b) <= n,
        abs(c) <= AXIS_ONE,
        abs(s) <= AXIS_ONE,
        n >= 1,
    ensures
        abs(a * c) <= n * AXIS_ONE,
        abs(b * s) <= n * AXIS_ONE,
        abs(b * c) <= n * AXIS_ONE,
        abs(a * s) <= n * AXIS_ONE,
        abs(a * c + b * s) <= 2 * n * AXIS_ONE,
        abs(b * c - a * s) <= 2 * n * AXIS_ONE,
{
    assert(abs(a * c) <= n * AXIS_ONE) by (nonlinear_arith)
        requires abs(a) <= n, abs(c) <= 0x1_0000, n >= 1;
    assert(abs(b * s) <= n * AXIS_ONE) by (nonlinear_arith)
        requires abs(b) <= n, abs(s) <= 0x1_0000, n >= 1;
    assert(abs(b * c) <= n * AXIS_ONE) by (nonlinear_arith)
        requires abs(b) <= n, abs(c) <= 0x1_0000, n >= 1;
    assert(abs(a * s) <= n * AXIS_ONE) by (nonlinear_arith)
        requires abs(a) <= n, abs(s) <= 0x1_0000, n >= 1;
}

/// The scaled rotated direction fits the arithmetic, and so does its
/// quotient by the norm.
proof fn lemma_scaled_bound(v: int, dt: int, f: int, n: int)
    requires
        abs(v) <= 2 * n * AXIS_ONE,
        0 <= dt <= MAX_FRAME_MICROS,
        0 <= f <= SPEED_LIMIT,
        1 <= n <= 0x2_0000,
    ensures
        abs(v * (dt * f)) <= 0x4_0000_0000 * MAX_FRAME_MICROS * SPEED_LIMIT,
        0 < AXIS_ONE * n * MICROS_PER_SECOND <= 0x1_0000 * 0x2_0000 * MICROS_PER_SECOND,
        abs(trunc_div(v * (dt * f), AXIS_ONE * n * MICROS_PER_SECOND)) <= 2 * MAX_FRAME_MICROS
            * SPEED_LIMIT,
{
    let den = AXIS_ONE * n * MICROS_PER_SECOND;
    let m = abs(v * (dt * f));
    let t = dt * f;
    assert(m == abs(v) * t) by (nonlinear_arith)
        requires dt >= 0, f >= 0, m == abs(v * (dt * f)), t == dt * f;
    assert(0 <= t <= MAX_FRAME_MICROS * SPEED_LIMIT) by (nonlinear_arith)
        requires 0 <= dt <= MAX_FRAME_MICROS, 0 <= f <= SPEED_LIMIT, t == dt * f;
    assert(m <= 0x4_0000_0000 * MAX_FRAME_MICROS * SPEED_LIMIT) by (nonlinear_arith)
        requires
            m == abs(v) * t,
            0 <= abs(v) <= 2 * n * AXIS_ONE,
            n <= 0x2_0000,
            0 <= t <= MAX_FRAME_MICROS * SPEED_LIMIT,
    ;
    assert(0 < den <= 0x1_0000 * 0x2_0000 * MICROS_PER_SECOND) by (nonlinear_arith)
        requires den == AXIS_ONE * n * MICROS_PER_SECOND, 1 <= n <= 0x2_0000;
    assert(m <= den * (2 * t)) by (nonlinear_arith)
        requires
            m == abs(v) * t,
            0 <= abs(v) <= 2 * n * AXIS_ONE,
            den == AXIS_ONE * n * MICROS_PER_SECOND,
            t >= 0,
    {
        assert(abs(v) * t <= (2 * n * AXIS_ONE) * t);
    }
    lemma_fundamental_div_mod(m, den);
    lemma_mod_pos_bound(m, den);
    assert(m / den <= 2 * t) by (nonlinear_arith)
        requires m <= den * (2 * t), m == den * (m / den) + m % den, m % den >= 0, den > 0;
}

/// A quotient rounded down, times the divisor, is at most the dividend.
proof fn lemma_div_le(a: int, d: int)
    requires
        a >= 0,
        d > 0,
    ensures
        (a / d) * d <= a,
{
    lemma_fundamental_div_mod(a, d);
    lemma_mod_pos_bound(a, d);
    assert((a / d) * d <= a) by (nonlinear_arith)
        requires a == d * (a / d) + a % d, a % d >= 0;
}

/// The displacement is no longer than the distance moved at the given speed,
/// up to the rounding of the heading and of the norm.
proof fn lemma_magnitude(
    vx: int,
    vz: int,
    c: int,
    s: int,
    n: int,
    t: int,
    ax: int,
    az: int,
)
    requires
        n >= AXIS_ONE,
        vx * vx + vz * vz < (n + 1) * (n + 1),
        c * c + s * s <= (AXIS_ONE + 1) * (AXIS_ONE + 1),
        t >= 0,
        ax >= 0,
        az >= 0,
        ax * (AXIS_ONE * n * MICROS_PER_SECOND) <= abs(vx * c + vz * s) * t,
        az * (AXIS_ONE * n * MICROS_PER_SECOND) <= abs(vz * c - vx * s) * t,
    ensures
        (ax * ax + az * az) * ((AXIS_ONE * MICROS_PER_SECOND) * (AXIS_ONE * MICROS_PER_SECOND)) <= (
        (AXIS_ONE + 3) * t) * ((AXIS_ONE + 3) * t),
{
    let rx = vx * c + vz * s;
    let rz = vz * c - vx * s;
    let k = AXIS_ONE * MICROS_PER_SECOND;
    let den = k * n;
    assert(AXIS_ONE * n * MICROS_PER_SECOND == den) by (nonlinear_arith)
        requires den == k * n, k == AXIS_ONE * MICROS_PER_SECOND;
    assert(abs(rx) * abs(rx) == rx * rx && abs(rz) * abs(rz) == rz * rz) by (nonlinear_arith);
    lemma_le_square(ax * den, abs(rx) * t);
    lemma_le_square(az * den, abs(rz) * t);
    assert(den >= 0) by (nonlinear_arith)
        requires den == k * n, k >= 0, n >= 0;
    assert((ax * den) * (ax * den) == (ax * ax) * (den * den) && (az * den) * (az * den) == (az
        * az) * (den * den) && (abs(rx) * t) * (abs(rx) * t) == (rx * rx) * (t * t) && (abs(rz)
        * t) * (abs(rz) * t) == (rz * rz) * (t * t)) by (nonlinear_arith)
        requires abs(rx) * abs(rx) == rx * rx, abs(rz) * abs(rz) == rz * rz;
    assert(rx * rx == (vx * c) * (vx * c) + 2 * ((vx * c) * (vz * s)) + (vz * s) * (vz * s))
        by (nonlinear_arith)
        requires rx == vx * c + vz * s;
    assert(rz * rz == (vz * c) * (vz * c) - 2 * ((vz * c) * (vx * s)) + (vx * s) * (vx * s))
        by (nonlinear_arith)
        requires rz == vz * c - vx * s;
    assert((vx * c) * (vz * s) == (vz * c) * (vx * s)) by (nonlinear_arith);
    assert((vx * c) * (vx * c) + (vx * s) * (vx * s) == (vx * vx) * (c * c + s * s))
        by (nonlinear_arith);
    assert((vz * c) * (vz * c) + (vz * s) * (vz * s) == (vz * vz) * (c * c + s * s))
        by (nonlinear_arith);
    assert((vx * vx) * (c * c + s * s) + (vz * vz) * (c * c + s * s) == (vx * vx + vz * vz) * (c
        * c + s * s)) by (nonlinear_arith);
    assert(rx * rx + rz * rz == (vx * vx + vz * vz) * (c * c + s * s));
    assert(vx * vx + vz * vz >= 0 && c * c + s * s >= 0) by (nonlinear_arith);
    let big = (n + 1) * (n + 1) * ((AXIS_ONE + 1) * (AXIS_ONE + 1));
    assert((vx * vx + vz * vz) * (c * c + s * s) <= big) by (nonlinear_arith)
        requires
            0 <= vx * vx + vz * vz < (n + 1) * (n + 1),
            0 <= c * c + s * s <= (AXIS_ONE + 1) * (AXIS_ONE + 1),
            big == (n + 1) * (n + 1) * ((AXIS_ONE + 1) * (AXIS_ONE + 1)),
    ;
    assert((n + 1) * (AXIS_ONE + 1) <= n * (AXIS_ONE + 3)) by (nonlinear_arith)
        requires n >= AXIS_ONE;
    lemma_le_square((n + 1) * (AXIS_ONE + 1), n * (AXIS_ONE + 3));
    assert(big <= (n * (AXIS_ONE + 3)) * (n * (AXIS_ONE + 3))) by (nonlinear_arith)
        requires
            big == (n + 1) * (n + 1) * ((AXIS_ONE + 1) * (AXIS_ONE + 1)),
            ((n + 1) * (AXIS_ONE + 1)) * ((n + 1) * (AXIS_ONE + 1)) <= (n * (AXIS_ONE + 3)) * (n
                * (AXIS_ONE + 3)),
    ;
    let tt = t * t;
    assert(tt >= 0) by (nonlinear_arith)
        requires tt == t * t;
    assert((ax * ax + az * az) * (den * den) <= (rx * rx + rz * rz) * tt) by (nonlinear_arith)
        requires
            (ax * ax) * (den * den) <= (rx * rx) * tt,
            (az * az) * (den * den) <= (rz * rz) * tt,
    ;
    assert((rx * rx + rz * rz) * tt <= ((n * (AXIS_ONE + 3)) * (n * (AXIS_ONE + 3))) * tt)
        by (nonlinear_arith)
        requires
            rx * rx + rz * rz <= (n * (AXIS_ONE + 3)) * (n * (AXIS_ONE + 3)),
            tt >= 0,
    ;
    let lhs = (ax * ax + az * az) * (k * k);
    let rhs = ((AXIS_ONE + 3) * t) * ((AXIS_ONE + 3) * t);
    assert(lhs * (n * n) <= rhs * (n * n)) by (nonlinear_arith)
        requires
            (ax * ax + az * az) * (den * den) <= ((n * (AXIS_ONE + 3)) * (n * (AXIS_ONE + 3)))
                * tt,
            den == k * n,
            tt == t * t,
            lhs == (ax * ax + az * az) * (k * k),
            rhs == ((AXIS_ONE + 3) * t) * ((AXIS_ONE + 3) * t),
    ;
    assert(lhs <= rhs) by (nonlinear_arith)
        requires lhs * (n * n) <= rhs * (n * n), n >= 1;
}

proof fn lemma_le_square(a: int, b: int)
    requires
        0 <= a <= b,
    ensures
        a * a <= b * b,
{
    assert(a * a <= b * b) by (nonlinear_arith)
        requires 0 <= a <= b;
}

proof fn lemma_trunc_div_scaled(x: int, f: int, d: int)
    requires
        f >= 0,
        d > 0,
    ensures
        abs(trunc_div(x * f, d)) == (abs(x) * f) / d,
        x >= 0 ==> trunc_div(x * f, d) >= 0,
        x <= 0 ==> trunc_div(x * f, d) <= 0,
{
    assert(abs(x * f) == abs(x) * f) by (nonlinear_arith)
        requires f >= 0;
    assert(x >= 0 ==> x * f >= 0) by (nonlinear_arith)
        requires f >= 0;
    assert(x <= 0 ==> x * f <= 0) by (nonlinear_arith)
        requires f >= 0;
    assert(abs(x) * f >= 0) by (nonlinear_arith)
        requires f >= 0;
    lemma_div_nonneg(abs(x) * f, d);
}

proof fn lemma_div_nonneg(a: int, d: int)
    requires
        a >= 0,
        d > 0,
    ensures
        a / d >= 0,
{
    lemma_fundamental_div_mod(a, d);
    lemma_mod_pos_bound(a, d);
    assert(a / d >= 0) by (nonlinear_arith)
        requires a == d * (a / d) + a % d, 0 <= a % d < d, a >= 0, d > 0;
}

/// Rounding down `a * k / d` and `a * m / d` keeps their ratio to within one
/// step of each speed.
proof fn lemma_floor_ratio(a: int, m: int, k: int, d: int)
    requires
        a >= 0,
        m > 0,
        k >= 0,
        d > 0,
    ensures
        -m < ((a * k) / d) * m - ((a * m) / d) * k,
        ((a * k) / d) * m - ((a * m) / d) * k < k || ((a * k) / d) * m - ((a * m) / d) * k == 0,
{
    let s = (a * k) / d;
    let w = (a * m) / d;
    lemma_fundamental_div_mod(a * k, d);
    lemma_mod_pos_bound(a * k, d);
    lemma_fundamental_div_mod(a * m, d);
    lemma_mod_pos_bound(a * m, d);
    assert(a * k >= 0 && a * m >= 0) by (nonlinear_arith)
        requires a >= 0, m > 0, k >= 0;
    let rs = (a * k) % d;
    let rw = (a * m) % d;
    assert(d * (s * m - w * k) == rw * k - rs * m) by (nonlinear_arith)
        requires a * k == d * s + rs, a * m == d * w + rw;
    if k == 0 {
        assert(a * k == 0) by (nonlinear_arith)
            requires k == 0;
        vstd::arithmetic::div_mod::lemma_basic_div(0, d);
        assert(s * m - w * k == 0) by (nonlinear_arith)
            requires s == 0, k == 0;
    } else {
        assert(-(d * m) < rw * k - rs * m < d * k) by (nonlinear_arith)
            requires 0 <= rs < d, 0 <= rw < d, m > 0, k > 0;
        assert(-m < s * m - w * k < k) by (nonlinear_arith)
            requires -(d * m) < d * (s * m - w * k) < d * k, d > 0;
    }
}

/// Sprinting scales the displacement by `sprint_speed / speed`: for the same
/// input, heading and frame time, each component of the sprinting
/// displacement times `speed` equals the walking one times `sprint_speed`,
/// up to the final rounding (less than one step of either speed), and the two
/// point the same way. Any frame time and any sprint speed (zero included)
/// are covered; only `speed`, the ratio's divisor, must be positive.
pub proof fn lemma_sprint_scaling(
    axis: Axis,
    heading: Heading,
    speed: int,
    sprint_speed: int,
    dt: int,
)
    requires
        axis.wf(),
        heading.wf(),
        0 < speed,
        0 <= sprint_speed,
        0 <= dt,
    ensures
        ({
            let walk = displacement(axis, heading, speed, dt);
            let run = displacement(axis, heading, sprint_speed, dt);
            &&& -speed < abs(run.0) * speed - abs(walk.0) * sprint_speed
            &&& abs(run.0) * speed - abs(walk.0) * sprint_speed < sprint_speed || abs(run.0) * speed
                - abs(walk.0) * sprint_speed == 0
            &&& -speed < abs(run.1) * speed - abs(walk.1) * sprint_speed
            &&& abs(run.1) * speed - abs(walk.1) * sprint_speed < sprint_speed || abs(run.1) * speed
                - abs(walk.1) * sprint_speed == 0
            &&& run.0 * walk.0 >= 0
            &&& run.1 * walk.1 >= 0
        }),
{
    let vx = axis.x as int;
    let vz = -axis.y;
    let n = direction_norm(vx, vz);
    if vx * vx + vz * vz > AXIS_ONE * AXIS_ONE {
        crate::geometry::lemma_sqrt_floor(vx * vx + vz * vz);
        assert(n >= 1) by (nonlinear_arith)
            requires
                vx * vx + vz * vz > 0x1_0000 * 0x1_0000,
                vx * vx + vz * vz < (n + 1) * (n + 1),
                n >= 0,
        ;
    }
    let den = AXIS_ONE * n * MICROS_PER_SECOND;
    assert(den > 0) by (nonlinear_arith)
        requires n >= 1, den == AXIS_ONE * n * MICROS_PER_SECOND;
    let x0 = (vx * heading.cos + vz * heading.sin) * dt;
    let x1 = (vz * heading.cos - vx * heading.sin) * dt;
    lemma_trunc_div_scaled(x0, speed, den);
    lemma_trunc_div_scaled(x0, sprint_speed, den);
    lemma_trunc_div_scaled(x1, speed, den);
    lemma_trunc_div_scaled(x1, sprint_speed, den);
    lemma_floor_ratio(abs(x0), speed, sprint_speed, den);
    lemma_floor_ratio(abs(x1), speed, sprint_speed, den);
    let walk = displacement(axis, heading, speed, dt);
    let run = displacement(axis, heading, sprint_speed, dt);
    assert(run.0 * walk.0 >= 0) by (nonlinear_arith)
        requires
            (run.0 >= 0 && walk.0 >= 0) || (run.0 <= 0 && walk.0 <= 0);
    assert(run.1 * walk.1 >= 0) by (nonlinear_arith)
        requires
            (run.1 >= 0 && walk.1 >= 0) || (run.1 <= 0 && walk.1 <= 0);
}

} // verus!
