//! Collision resolution: pushing the player's circle out of obstacle
//! footprints, one obstacle at a time in registry order.
use vstd::prelude::*;

use vstd::arithmetic::div_mod::{lemma_basic_div, lemma_fundamental_div_mod, lemma_mod_pos_bound};

use crate::geometry::{
    abs, all_wf, floor_sqrt, is_floor_sqrt, footprint_sq_dist, in_world, lemma_sqrt_floor, nearest_x, nearest_z,
    offset_from_footprint, penetrates, sq_dist_to_footprint, sqrt_floor, Obstacle, Point2,
    COORD_LIMIT, WORLD_LIMIT,
};

verus! {

/// The factor the offset from the footprint is scaled by before its length
/// is taken, so that the rounded-down length is accurate to `1 / NORMAL_SCALE`.
pub const NORMAL_SCALE: i128 = 0x1_0000_0000;

/// `v * r / len` rounded away from zero.
pub open spec fn scale_away(v: int, r: int, len: int) -> int {
    if v >= 0 {
        (v * r + len - 1) / len
    } else {
        -(((-v) * r + len - 1) / len)
    }
}

/// Where a circle of radius `r` at `p` ends up after being pushed out of the
/// footprint of `o` along the contact normal, by the penetration depth.
///
/// A centre outside the footprint moves along the direction from the nearest
/// footprint point to it, until it is `r` from that point: the direction is
/// the offset scaled by `NORMAL_SCALE` over its rounded-down length, and each
/// coordinate is rounded away from the footprint, so the circle ends touching
/// the footprint or less than two units clear of it. A centre inside the footprint
/// (or on its edge) leaves through the nearest face, the `x` faces on a tie,
/// and ends `r` beyond it. A circle that does not penetrate stays where it is.
pub open spec fn pushed(p: (int, int), r: int, o: Obstacle) -> (int, int) {
    if !penetrates(p, r, o) {
        p
    } else {
        let dx = p.0 - nearest_x(p, o);
        let dz = p.1 - nearest_z(p, o);
        if dx == 0 && dz == 0 {
            let cx = p.0 - o.x;
            let cz = p.1 - o.z;
            if o.half_x - abs(cx) <= o.half_z - abs(cz) {
                (if cx >= 0 { o.x + o.half_x + r } else { o.x - o.half_x - r }, p.1)
            } else {
                (p.0, if cz >= 0 { o.z + o.half_z + r } else { o.z - o.half_z - r })
            }
        } else {
            let ux = dx * NORMAL_SCALE;
            let uz = dz * NORMAL_SCALE;
            let len = sqrt_floor(ux * ux + uz * uz);
            (nearest_x(p, o) + scale_away(ux, r, len), nearest_z(p, o) + scale_away(uz, r, len))
        }
    }
}

proof fn lemma_scale_away(v: int, r: int, len: int)
    requires
        len >= 1,
        abs(v) <= len,
        0 <= r,
    ensures
        abs(scale_away(v, r, len)) * len >= abs(v) * r,
        (abs(scale_away(v, r, len)) - 1) * len < abs(v) * r,
        abs(scale_away(v, r, len)) <= r,
        v > 0 && r > 0 ==> scale_away(v, r, len) >= 1,
        v < 0 && r > 0 ==> scale_away(v, r, len) <= -1,
        v == 0 ==> scale_away(v, r, len) == 0,
{
    let a = abs(v);
    let n = a * r + len - 1;
    let q = n / len;
    assert(0 <= a * r <= len * r) by (nonlinear_arith)
        requires 0 <= a <= len, 0 <= r;
    lemma_fundamental_div_mod(n, len);
    lemma_mod_pos_bound(n, len);
    assert(q * len == len * q) by (nonlinear_arith);
    assert(q * len >= a * r);
    assert((q - 1) * len < a * r) by (nonlinear_arith)
        requires len * q <= n, n == a * r + len - 1, q * len == len * q;
    assert(len * q < len * (r + 1)) by (nonlinear_arith)
        requires len * q <= n, n == a * r + len - 1, a * r <= len * r, len >= 1;
    assert(q <= r) by (nonlinear_arith)
        requires len * q < len * (r + 1), len >= 1;
    assert(q >= 0) by (nonlinear_arith)
        requires len * q > n - len, n >= 0, len >= 1;
    if a > 0 && r > 0 {
        assert(a * r >= 1) by (nonlinear_arith)
            requires a >= 1, r >= 1;
        assert(q >= 1) by (nonlinear_arith)
            requires q * len >= a * r, a * r >= 1, len >= 1;
    }
    if a == 0 {
        assert(a * r == 0) by (nonlinear_arith)
            requires a == 0;
        lemma_basic_div(len - 1, len);
    }
}

proof fn lemma_square_le(a: int, b: int)
    requires
        0 <= a <= b,
    ensures
        a * a <= b * b,
{
    assert(a * a <= b * b) by (nonlinear_arith)
        requires 0 <= a <= b;
}

proof fn lemma_sq_abs_product(v: int, k: int)
    requires
        k >= 0,
    ensures
        (abs(v) * k) * (abs(v) * k) == (v * v) * (k * k),
{
    assert((abs(v) * k) * (abs(v) * k) == (abs(v) * abs(v)) * (k * k)) by (nonlinear_arith);
    assert(abs(v) * abs(v) == v * v) by (nonlinear_arith);
}

/// Rounding the scaled offset `(ux, uz)`, of rounded-down length `len`, out
/// to radius `r` lands at least `r` and less than `r + 2` from the origin.
proof fn lemma_outward(ux: int, uz: int, len: int, r: int)
    requires
        ux * ux + uz * uz >= NORMAL_SCALE * NORMAL_SCALE,
        is_floor_sqrt(ux * ux + uz * uz, len),
        1 <= r <= COORD_LIMIT,
    ensures
        len >= NORMAL_SCALE,
        abs(ux) <= len,
        abs(uz) <= len,
        ux > 0 ==> scale_away(ux, r, len) >= 1,
        ux < 0 ==> scale_away(ux, r, len) <= -1,
        ux == 0 ==> scale_away(ux, r, len) == 0,
        uz > 0 ==> scale_away(uz, r, len) >= 1,
        uz < 0 ==> scale_away(uz, r, len) <= -1,
        uz == 0 ==> scale_away(uz, r, len) == 0,
        r * r <= scale_away(ux, r, len) * scale_away(ux, r, len) + scale_away(uz, r, len)
            * scale_away(uz, r, len),
        scale_away(ux, r, len) * scale_away(ux, r, len) + scale_away(uz, r, len) * scale_away(
            uz,
            r,
            len,
        ) < (r + 2) * (r + 2),
{
    let d = ux * ux + uz * uz;
    let s = NORMAL_SCALE as int;
    assert(len >= s) by (nonlinear_arith)
        requires d >= s * s, d < (len + 1) * (len + 1), len >= 0, s > 0;
    let u = abs(ux);
    let w = abs(uz);
    assert(u * u == ux * ux && w * w == uz * uz) by (nonlinear_arith)
        requires u == abs(ux), w == abs(uz);
    assert(u <= len && w <= len) by (nonlinear_arith)
        requires u * u + w * w < (len + 1) * (len + 1), len >= 0, u >= 0, w >= 0;
    lemma_scale_away(ux, r, len);
    lemma_scale_away(uz, r, len);
    let ex = scale_away(ux, r, len);
    let ez = scale_away(uz, r, len);
    let ax = abs(ex);
    let az = abs(ez);
    assert(ax * ax == ex * ex && az * az == ez * ez) by (nonlinear_arith)
        requires ax == abs(ex), az == abs(ez);
    let ll = len * len;
    let rr = r * r;
    assert(ll >= 1) by (nonlinear_arith)
        requires ll == len * len, len >= 1;
    // At least r: (ax len)^2 + (az len)^2 >= (u^2 + w^2) r^2 >= len^2 r^2.
    lemma_square_le(u * r, ax * len);
    lemma_square_le(w * r, az * len);
    assert((ax * len) * (ax * len) == (ax * ax) * ll && (az * len) * (az * len) == (az * az) * ll
        && (u * r) * (u * r) == (u * u) * rr && (w * r) * (w * r) == (w * w) * rr)
        by (nonlinear_arith)
        requires ll == len * len, rr == r * r;
    assert((u * u + w * w) * rr >= ll * rr) by (nonlinear_arith)
        requires ll <= u * u + w * w, rr >= 0;
    assert((ax * ax + az * az) * ll >= ll * rr) by (nonlinear_arith)
        requires
            (ax * ax) * ll >= (u * u) * rr,
            (az * az) * ll >= (w * w) * rr,
            (u * u + w * w) * rr >= ll * rr,
    ;
    assert(ax * ax + az * az >= rr) by (nonlinear_arith)
        requires (ax * ax + az * az) * ll >= ll * rr, ll >= 1;
    // Less than r + 2: each coordinate exceeds its exact value by under one.
    assert(0 <= ax * len < u * r + len && 0 <= az * len < w * r + len) by (nonlinear_arith)
        requires
            (ax - 1) * len < u * r,
            (az - 1) * len < w * r,
            ax >= 0,
            az >= 0,
            len >= 1,
    ;
    lemma_square_lt(ax * len, u * r + len);
    lemma_square_lt(az * len, w * r + len);
    lemma_sq_sum(u * r, len);
    lemma_sq_sum(w * r, len);
    assert((u * r) * (u * r) + (w * r) * (w * r) == (u * u + w * w) * rr) by (nonlinear_arith)
        requires rr == r * r;
    assert(2 * (u * r) * len + 2 * (w * r) * len == (len * r) * (2 * (u + w))) by (nonlinear_arith);
    assert((u * r + len) * (u * r + len) + (w * r + len) * (w * r + len) == (u * u + w * w) * rr + (
    len * r) * (2 * (u + w)) + 2 * ll);
    assert(4 * (u + w) * (u + w) <= 8 * (u * u + w * w)) by (nonlinear_arith);
    assert(2 * (u + w) < 3 * (len + 1)) by (nonlinear_arith)
        requires
            4 * (u + w) * (u + w) <= 8 * (u * u + w * w),
            u * u + w * w < (len + 1) * (len + 1),
            u >= 0,
            w >= 0,
            len >= 0,
    {
        if 2 * (u + w) >= 3 * (len + 1) {
            assert((2 * (u + w)) * (2 * (u + w)) >= (3 * (len + 1)) * (3 * (len + 1)));
        }
    }
    assert((len * r) * (2 * (u + w)) <= (len * r) * (3 * (len + 1))) by (nonlinear_arith)
        requires 2 * (u + w) < 3 * (len + 1), len >= 0, r >= 0;
    assert((u * u + w * w) * rr <= (len + 1) * (len + 1) * rr) by (nonlinear_arith)
        requires u * u + w * w < (len + 1) * (len + 1), rr >= 0;
    assert(2 * len * rr + rr + 3 * len * r <= r * ll) by (nonlinear_arith)
        requires
            len >= 0x1_0000_0000,
            1 <= r <= 0x1000_0000,
            rr == r * r,
            ll == len * len,
    {
        assert(2 * len * rr <= len * r * (2 * 0x1000_0000));
        assert(rr <= len * r);
        assert(len * r * (2 * 0x1000_0000 + 4) <= len * r * len);
    }
    assert((len + 1) * (len + 1) * rr + (len * r) * (3 * (len + 1)) + 2 * ll <= (r + 2) * (r + 2)
        * ll) by (nonlinear_arith)
        requires 2 * len * rr + rr + 3 * len * r <= r * ll, rr == r * r, ll == len * len;
    assert((ax * ax + az * az) * ll < (r + 2) * (r + 2) * ll) by (nonlinear_arith)
        requires
            (ax * len) * (ax * len) < (u * r + len) * (u * r + len),
            (az * len) * (az * len) < (w * r + len) * (w * r + len),
            (ax * len) * (ax * len) == (ax * ax) * ll,
            (az * len) * (az * len) == (az * az) * ll,
            (u * r + len) * (u * r + len) + (w * r + len) * (w * r + len) == (u * u + w * w) * rr
                + (len * r) * (2 * (u + w)) + 2 * ll,
            (len * r) * (2 * (u + w)) <= (len * r) * (3 * (len + 1)),
            (u * u + w * w) * rr <= (len + 1) * (len + 1) * rr,
            (len + 1) * (len + 1) * rr + (len * r) * (3 * (len + 1)) + 2 * ll <= (r + 2) * (r + 2)
                * ll,
    ;
    assert(ax * ax + az * az < (r + 2) * (r + 2)) by (nonlinear_arith)
        requires (ax * ax + az * az) * ll < (r + 2) * (r + 2) * ll, ll >= 1;
}

proof fn lemma_sq_sum(a: int, b: int)
    ensures
        (a + b) * (a + b) == a * a + 2 * a * b + b * b,
{
    assert((a + b) * (a + b) == a * a + 2 * a * b + b * b) by (nonlinear_arith);
}

proof fn lemma_square_lt(a: int, b: int)
    requires
        0 <= a < b,
    ensures
        a * a < b * b,
{
    assert(a * a < b * b) by (nonlinear_arith)
        requires 0 <= a < b;
}

/// Pushing a circle out of one obstacle leaves it not penetrating that
/// obstacle, and less than two units clear of its footprint.
pub proof fn lemma_pushed_clears(p: (int, int), r: int, o: Obstacle)
    requires
        o.wf(),
        0 <= r <= COORD_LIMIT,
    ensures
        !penetrates(pushed(p, r, o), r, o),
        penetrates(p, r, o) ==> sq_dist_to_footprint(pushed(p, r, o), o) < (r + 2) * (r + 2),
{
    if penetrates(p, r, o) {
        let nx = nearest_x(p, o);
        let nz = nearest_z(p, o);
        let dx = p.0 - nx;
        let dz = p.1 - nz;
        let q = pushed(p, r, o);
        if dx == 0 && dz == 0 {
            let cx = p.0 - o.x;
            let cz = p.1 - o.z;
            if o.half_x - abs(cx) <= o.half_z - abs(cz) {
                assert(q.1 == p.1);
                assert(nearest_z(q, o) == q.1);
                if cx >= 0 {
                    assert(q.0 == o.x + o.half_x + r);
                    assert(nearest_x(q, o) == o.x + o.half_x);
                } else {
                    assert(q.0 == o.x - o.half_x - r);
                    assert(nearest_x(q, o) == o.x - o.half_x);
                }
            } else {
                assert(q.0 == p.0);
                assert(nearest_x(q, o) == q.0);
                if cz >= 0 {
                    assert(q.1 == o.z + o.half_z + r);
                    assert(nearest_z(q, o) == o.z + o.half_z);
                } else {
                    assert(q.1 == o.z - o.half_z - r);
                    assert(nearest_z(q, o) == o.z - o.half_z);
                }
            }
            let e0 = q.0 - nearest_x(q, o);
            let e1 = q.1 - nearest_z(q, o);
            assert((abs(e0) == r && e1 == 0) || (e0 == 0 && abs(e1) == r));
            assert(e0 * e0 + e1 * e1 == r * r) by (nonlinear_arith)
                requires (abs(e0) == r && e1 == 0) || (e0 == 0 && abs(e1) == r);
            assert(sq_dist_to_footprint(q, o) == r * r);
            assert(r * r < (r + 2) * (r + 2)) by (nonlinear_arith)
                requires r >= 0;
        } else {
            let ux = dx * NORMAL_SCALE;
            let uz = dz * NORMAL_SCALE;
            let len = sqrt_floor(ux * ux + uz * uz);
            assert(dx * dx + dz * dz >= 1) by (nonlinear_arith)
                requires dx != 0 || dz != 0;
            assert(ux * ux + uz * uz == (dx * dx + dz * dz) * (NORMAL_SCALE * NORMAL_SCALE))
                by (nonlinear_arith)
                requires ux == dx * NORMAL_SCALE, uz == dz * NORMAL_SCALE;
            assert(ux * ux + uz * uz >= NORMAL_SCALE * NORMAL_SCALE) by (nonlinear_arith)
                requires
                    ux * ux + uz * uz == (dx * dx + dz * dz) * (NORMAL_SCALE * NORMAL_SCALE),
                    dx * dx + dz * dz >= 1,
            ;
            lemma_sqrt_floor(ux * ux + uz * uz);
            lemma_outward(ux, uz, len, r);
            let ax = scale_away(ux, r, len);
            let az = scale_away(uz, r, len);
            assert(dx > 0 ==> ux > 0) by (nonlinear_arith)
                requires ux == dx * NORMAL_SCALE;
            assert(dx < 0 ==> ux < 0) by (nonlinear_arith)
                requires ux == dx * NORMAL_SCALE;
            assert(dz > 0 ==> uz > 0) by (nonlinear_arith)
                requires uz == dz * NORMAL_SCALE;
            assert(dz < 0 ==> uz < 0) by (nonlinear_arith)
                requires uz == dz * NORMAL_SCALE;
            assert(q == (nx + ax, nz + az));
            assert(nearest_x(q, o) == nx);
            assert(nearest_z(q, o) == nz);
            assert(sq_dist_to_footprint(q, o) == ax * ax + az * az);
        }
    }
}


fn scale_away_exec(v: i128, r: i64, len: i128) -> (a: i64)
    requires
        1 <= len <= 0x1_0000_0000_0000_0000,
        abs(v as int) <= len,
        0 <= r <= COORD_LIMIT,
    ensures
        a == scale_away(v as int, r as int, len as int),
{
    proof {
        lemma_scale_away(v as int, r as int, len as int);
    }
    let m: i128 = if v < 0 { -v } else { v };
    assert(0 <= m * r <= 0x1_0000_0000_0000_0000int * 0x1000_0000int) by (nonlinear_arith)
        requires 0 <= m <= 0x1_0000_0000_0000_0000int, 0 <= r <= 0x1000_0000;
    let q = (m * (r as i128) + len - 1) / len;
    if v >= 0 {
        q as i64
    } else {
        -(q as i64)
    }
}

/// Pushes a circle of radius `r` at `p` out of the footprint of `o`, along
/// the contact normal by the penetration depth (rounded outward, so the
/// circle ends touching the footprint or less than two units clear of it); a
/// circle that does not penetrate the footprint is returned unchanged.
pub fn push_out(p: Point2, r: i64, o: &Obstacle) -> (q: Point2)
    requires
        in_world(p@),
        0 <= r <= COORD_LIMIT,
        o.wf(),
    ensures
        q@ == pushed(p@, r as int, *o),
        in_world(q@),
{
    if r == 0 || o.half_x == 0 || o.half_z == 0 {
        return p;
    }
    let (dx, dz) = offset_from_footprint(p, o);
    let sq = footprint_sq_dist(p, o);
    assert(r * r <= 0x100_0000_0000_0000int) by (nonlinear_arith)
        requires 0 <= r <= 0x1000_0000;
    if sq >= r * r {
        return p;
    }
    if dx == 0 && dz == 0 {
        let cx = p.x - o.x;
        let cz = p.z - o.z;
        let ax: i64 = if cx < 0 { -cx } else { cx };
        let az: i64 = if cz < 0 { -cz } else { cz };
        if o.half_x - ax <= o.half_z - az {
            let x = if cx >= 0 { o.x + o.half_x + r } else { o.x - o.half_x - r };
            Point2 { x, z: p.z }
        } else {
            let z = if cz >= 0 { o.z + o.half_z + r } else { o.z - o.half_z - r };
            Point2 { x: p.x, z }
        }
    } else {
        let ux: i128 = (dx as i128) * NORMAL_SCALE;
        let uz: i128 = (dz as i128) * NORMAL_SCALE;
        proof {
            assert(dx * dx + dz * dz >= 1) by (nonlinear_arith)
                requires dx != 0 || dz != 0;
            assert(ux * ux + uz * uz == (dx * dx + dz * dz) * (NORMAL_SCALE * NORMAL_SCALE))
                by (nonlinear_arith)
                requires ux == dx * NORMAL_SCALE, uz == dz * NORMAL_SCALE;
            assert(0 <= ux * ux && ux * ux <= 0x2400_0000_0000_0000int * 0x1_0000_0000_0000_0000int
                && 0 <= uz * uz && uz * uz <= 0x2400_0000_0000_0000int * 0x1_0000_0000_0000_0000int)
                by (nonlinear_arith)
                requires
                    ux == dx * NORMAL_SCALE,
                    uz == dz * NORMAL_SCALE,
                    -0x6000_0000 <= dx <= 0x6000_0000,
                    -0x6000_0000 <= dz <= 0x6000_0000,
            ;
            assert(ux * ux + uz * uz >= NORMAL_SCALE * NORMAL_SCALE) by (nonlinear_arith)
                requires
                    ux * ux + uz * uz == (dx * dx + dz * dz) * (NORMAL_SCALE * NORMAL_SCALE),
                    dx * dx + dz * dz >= 1,
            ;
        }
        let len = floor_sqrt((ux * ux + uz * uz) as u128) as i128;
        proof {
            lemma_outward(ux as int, uz as int, len as int, r as int);
            lemma_scale_away(ux as int, r as int, len as int);
            lemma_scale_away(uz as int, r as int, len as int);
        }
        let ex = scale_away_exec(ux, r, len);
        let ez = scale_away_exec(uz, r, len);
        Point2 { x: (p.x - dx) + ex, z: (p.z - dz) + ez }
    }
}

/// The position reached by pushing `p` out of each obstacle in turn, in
/// sequence order, each correction applied to the result of the previous one.
pub open spec fn push_all(p: (int, int), r: int, obstacles: Seq<Obstacle>) -> (int, int)
    decreases obstacles.len(),
{
    if obstacles.len() == 0 {
        p
    } else {
        pushed(push_all(p, r, obstacles.drop_last()), r, obstacles.last())
    }
}

/// The candidate position: `p` moved by `d`.
pub open spec fn moved(p: Point2, d: Point2) -> (int, int) {
    (p.x + d.x, p.z + d.z)
}

/// Moves a circle of radius `radius` from `position` by `displacement` and
/// pushes it out of each obstacle in turn, in slice order, once each.
/// Without a displacement nothing is done and `position` is returned.
pub fn resolve(
    position: Point2,
    radius: i64,
    displacement: Option<Point2>,
    obstacles: &[Obstacle],
) -> (r: Point2)
    requires
        0 <= radius <= COORD_LIMIT,
        all_wf(obstacles@),
        displacement matches Some(d) ==> in_world(moved(position, d)),
    ensures
        displacement is None ==> r == position,
        displacement matches Some(d) ==> r@ == push_all(
            moved(position, d),
            radius as int,
            obstacles@,
        ) && in_world(r@),
{
    let d = match displacement {
        None => {
            return position;
        },
        Some(d) => d,
    };
    let start = Point2 { x: position.x + d.x, z: position.z + d.z };
    let mut candidate = start;
    let mut i: usize = 0;
    while i < obstacles.len()
        invariant
            0 <= i <= obstacles@.len(),
            0 <= radius <= COORD_LIMIT,
            all_wf(obstacles@),
            in_world(candidate@),
            candidate@ == push_all(start@, radius as int, obstacles@.subrange(0, i as int)),
        decreases obstacles@.len() - i,
    {
        proof {
            let next = obstacles@.subrange(0, i + 1);
            assert(next.drop_last() =~= obstacles@.subrange(0, i as int));
            assert(next.last() == obstacles@[i as int]);
        }
        candidate = push_out(candidate, radius, &obstacles[i]);
        i = i + 1;
    }
    assert(obstacles@.subrange(0, obstacles@.len() as int) =~= obstacles@);
    candidate
}

/// A position that penetrates none of the obstacles is left where it is.
pub proof fn lemma_push_all_fixed_point(p: (int, int), r: int, obstacles: Seq<Obstacle>)
    requires
        forall|i: int| 0 <= i < obstacles.len() ==> !penetrates(p, r, #[trigger] obstacles[i]),
    ensures
        push_all(p, r, obstacles) == p,
    decreases obstacles.len(),
{
    if obstacles.len() > 0 {
        let init = obstacles.drop_last();
        assert forall|i: int| 0 <= i < init.len() implies !penetrates(p, r, #[trigger] init[i]) by {
            assert(init[i] == obstacles[i]);
        }
        lemma_push_all_fixed_point(p, r, init);
        assert(!penetrates(p, r, obstacles[obstacles.len() - 1]));
    }
}

/// Resolution never leaves the circle inside the last obstacle it handles;
/// in particular, resolving against a single obstacle always clears it.
pub proof fn lemma_resolve_clears_last(p: (int, int), r: int, obstacles: Seq<Obstacle>)
    requires
        obstacles.len() > 0,
        all_wf(obstacles),
        0 <= r <= COORD_LIMIT,
    ensures
        !penetrates(push_all(p, r, obstacles), r, obstacles.last()),
{
    lemma_pushed_clears(push_all(p, r, obstacles.drop_last()), r, obstacles.last());
}

/// The distance between the footprints of `a` and `b` along `x`, or zero
/// where their spans overlap.
pub open spec fn gap_x(a: Obstacle, b: Obstacle) -> int {
    let g = abs(a.x - b.x) - a.half_x - b.half_x;
    if g > 0 {
        g
    } else {
        0
    }
}

/// The distance between the footprints of `a` and `b` along `z`, or zero
/// where their spans overlap.
pub open spec fn gap_z(a: Obstacle, b: Obstacle) -> int {
    let g = abs(a.z - b.z) - a.half_z - b.half_z;
    if g > 0 {
        g
    } else {
        0
    }
}

/// The footprints of `a` and `b` are at least `k` apart.
pub open spec fn footprints_apart(a: Obstacle, b: Obstacle, k: int) -> bool {
    gap_x(a, b) * gap_x(a, b) + gap_z(a, b) * gap_z(a, b) >= k * k
}

/// Every two footprints of the sequence are at least `k` apart.
pub open spec fn pairwise_apart(obstacles: Seq<Obstacle>, k: int) -> bool {
    forall|i: int, j: int|
        0 <= i < obstacles.len() && 0 <= j < obstacles.len() && i != j ==> footprints_apart(
            #[trigger] obstacles[i],
            #[trigger] obstacles[j],
            k,
        )
}

/// If `x` is shorter than `a` and `y` shorter than `b`, then `x + y` is
/// shorter than `a + b`.
proof fn lemma_triangle(x0: int, x1: int, y0: int, y1: int, a: int, b: int)
    requires
        a >= 0,
        b >= 0,
        x0 * x0 + x1 * x1 < a * a,
        y0 * y0 + y1 * y1 < b * b,
    ensures
        (x0 + y0) * (x0 + y0) + (x1 + y1) * (x1 + y1) < (a + b) * (a + b),
{
    let xx = x0 * x0 + x1 * x1;
    let yy = y0 * y0 + y1 * y1;
    let dot = x0 * y0 + x1 * y1;
    let p00 = x0 * y0;
    let p01 = x0 * y1;
    let p10 = x1 * y0;
    let p11 = x1 * y1;
    let a0 = x0 * x0;
    let a1 = x1 * x1;
    let b0 = y0 * y0;
    let b1 = y1 * y1;
    assert(xx * yy == a0 * b0 + a0 * b1 + a1 * b0 + a1 * b1) by (nonlinear_arith)
        requires xx == a0 + a1, yy == b0 + b1;
    assert(a0 * b0 == p00 * p00) by (nonlinear_arith)
        requires a0 == x0 * x0, b0 == y0 * y0, p00 == x0 * y0;
    assert(a0 * b1 == p01 * p01) by (nonlinear_arith)
        requires a0 == x0 * x0, b1 == y1 * y1, p01 == x0 * y1;
    assert(a1 * b0 == p10 * p10) by (nonlinear_arith)
        requires a1 == x1 * x1, b0 == y0 * y0, p10 == x1 * y0;
    assert(a1 * b1 == p11 * p11) by (nonlinear_arith)
        requires a1 == x1 * x1, b1 == y1 * y1, p11 == x1 * y1;
    assert(dot * dot == p00 * p00 + 2 * (p00 * p11) + p11 * p11) by (nonlinear_arith)
        requires dot == p00 + p11;
    assert(p00 * p11 == p01 * p10) by (nonlinear_arith)
        requires p00 == x0 * y0, p01 == x0 * y1, p10 == x1 * y0, p11 == x1 * y1;
    assert(p01 * p01 + p10 * p10 >= 2 * (p01 * p10)) by (nonlinear_arith)
    {
        assert((p01 - p10) * (p01 - p10) >= 0);
    }
    assert(dot * dot <= xx * yy);
    assert(xx >= 0 && yy >= 0) by (nonlinear_arith)
        requires xx == x0 * x0 + x1 * x1, yy == y0 * y0 + y1 * y1;
    assert(xx * yy <= (a * a) * (b * b)) by (nonlinear_arith)
        requires 0 <= xx < a * a, 0 <= yy < b * b;
    assert(dot <= a * b) by (nonlinear_arith)
        requires dot * dot <= xx * yy, xx * yy <= (a * a) * (b * b), a >= 0, b >= 0,
    {
        if dot > a * b {
            assert(dot * dot > (a * b) * (a * b));
        }
    }
    assert((x0 + y0) * (x0 + y0) + (x1 + y1) * (x1 + y1) == xx + 2 * dot + yy) by (nonlinear_arith)
        requires xx == x0 * x0 + x1 * x1, yy == y0 * y0 + y1 * y1, dot == x0 * y0 + x1 * y1;
    assert((a + b) * (a + b) == a * a + 2 * (a * b) + b * b) by (nonlinear_arith);
}

/// A circle less than two units clear of the footprint of `a` does not
/// penetrate a footprint `b` at least `2r + 2` away from it.
pub proof fn lemma_near_one_clears_other(q: (int, int), r: int, a: Obstacle, b: Obstacle)
    requires
        a.wf(),
        b.wf(),
        r >= 0,
        sq_dist_to_footprint(q, a) < (r + 2) * (r + 2),
        footprints_apart(a, b, 2 * r + 2),
    ensures
        !penetrates(q, r, b),
{
    if penetrates(q, r, b) {
        let x0 = q.0 - nearest_x(q, a);
        let x1 = q.1 - nearest_z(q, a);
        let y0 = nearest_x(q, b) - q.0;
        let y1 = nearest_z(q, b) - q.1;
        assert(y0 * y0 + y1 * y1 == sq_dist_to_footprint(q, b)) by (nonlinear_arith)
            requires
                y0 == nearest_x(q, b) - q.0,
                y1 == nearest_z(q, b) - q.1,
                sq_dist_to_footprint(q, b) == (q.0 - nearest_x(q, b)) * (q.0 - nearest_x(q, b))
                    + (q.1 - nearest_z(q, b)) * (q.1 - nearest_z(q, b)),
        ;
        lemma_triangle(x0, x1, y0, y1, r + 2, r);
        let e0 = x0 + y0;
        let e1 = x1 + y1;
        assert(abs(e0) >= gap_x(a, b));
        assert(abs(e1) >= gap_z(a, b));
        assert(gap_x(a, b) >= 0 && gap_z(a, b) >= 0);
        assert(e0 * e0 + e1 * e1 >= gap_x(a, b) * gap_x(a, b) + gap_z(a, b) * gap_z(a, b))
            by (nonlinear_arith)
            requires abs(e0) >= gap_x(a, b) >= 0, abs(e1) >= gap_z(a, b) >= 0,
        {
            assert(abs(e0) * abs(e0) == e0 * e0);
            assert(abs(e1) * abs(e1) == e1 * e1);
            assert(abs(e0) * abs(e0) >= gap_x(a, b) * gap_x(a, b));
            assert(abs(e1) * abs(e1) >= gap_z(a, b) * gap_z(a, b));
        }
        assert((r + 2 + r) == 2 * r + 2);
    }
}

/// When every two footprints are at least `2r + 2` apart (twice the radius,
/// plus the rounding of a push), one pass of resolution leaves the circle
/// penetrating none of them.
pub proof fn lemma_resolve_separated_clears(p: (int, int), r: int, obstacles: Seq<Obstacle>)
    requires
        all_wf(obstacles),
        0 <= r <= COORD_LIMIT,
        pairwise_apart(obstacles, 2 * r + 2),
    ensures
        forall|i: int|
            0 <= i < obstacles.len() ==> !penetrates(
                push_all(p, r, obstacles),
                r,
                #[trigger] obstacles[i],
            ),
    decreases obstacles.len(),
{
    if obstacles.len() > 0 {
        let n = obstacles.len() - 1;
        let init = obstacles.drop_last();
        let last = obstacles.last();
        assert(last == obstacles[n]);
        assert forall|i: int, j: int|
            0 <= i < init.len() && 0 <= j < init.len() && i != j implies footprints_apart(
            #[trigger] init[i],
            #[trigger] init[j],
            2 * r + 2,
        ) by {
            assert(init[i] == obstacles[i] && init[j] == obstacles[j]);
        }
        assert forall|i: int| 0 <= i < init.len() implies #[trigger] init[i].wf() by {
            assert(init[i] == obstacles[i]);
        }
        lemma_resolve_separated_clears(p, r, init);
        let before = push_all(p, r, init);
        let q = push_all(p, r, obstacles);
        lemma_pushed_clears(before, r, last);
        assert forall|i: int| 0 <= i < obstacles.len() implies !penetrates(
            q,
            r,
            #[trigger] obstacles[i],
        ) by {
            if i < n {
                assert(init[i] == obstacles[i]);
                assert(obstacles[i].wf());
                if penetrates(before, r, last) {
                    assert(footprints_apart(obstacles[n], obstacles[i], 2 * r + 2));
                    lemma_near_one_clears_other(q, r, last, obstacles[i]);
                } else {
                    assert(q == before);
                }
            }
        }
    }
}

/// Resolving a second time with no further displacement returns the
/// corrected position unchanged, whenever the first resolution left no
/// residual penetration: always so with a single obstacle, or with footprints
/// pairwise at least `2r + 2` apart.
pub proof fn lemma_resolve_idempotent(p: (int, int), r: int, obstacles: Seq<Obstacle>)
    requires
        all_wf(obstacles),
        0 <= r <= COORD_LIMIT,
        obstacles.len() == 1 || pairwise_apart(obstacles, 2 * r + 2) || forall|i: int|
            0 <= i < obstacles.len() ==> !penetrates(
                push_all(p, r, obstacles),
                r,
                #[trigger] obstacles[i],
            ),
    ensures
        push_all(push_all(p, r, obstacles), r, obstacles) == push_all(p, r, obstacles),
{
    let q = push_all(p, r, obstacles);
    if obstacles.len() == 1 {
        lemma_resolve_clears_last(p, r, obstacles);
        assert(obstacles[0] == obstacles.last());
    } else if pairwise_apart(obstacles, 2 * r + 2) {
        lemma_resolve_separated_clears(p, r, obstacles);
    }
    lemma_push_all_fixed_point(q, r, obstacles);
}

} // verus!
