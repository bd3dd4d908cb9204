//! Fixed-point planar geometry: points, box footprints and the circle-vs-box
//! tests used by collision and stepping.
use vstd::prelude::*;

verus! {

/// Largest magnitude of an obstacle coordinate, extent, or player radius.
pub const COORD_LIMIT: i64 = 0x1000_0000;

/// Largest magnitude of a player coordinate on the horizontal plane.
pub const WORLD_LIMIT: i64 = 0x4000_0000;

/// A point on the horizontal plane: `x` and `z` of the world.
#[derive(Clone, Copy, Debug, PartialEq, Eq, Structural)]
pub struct Point2 {
    pub x: i64,
    pub z: i64,
}

impl View for Point2 {
    type V = (int, int);

    open spec fn view(&self) -> (int, int) {
        (self.x as int, self.z as int)
    }
}

/// Both coordinates of `p` are within `WORLD_LIMIT`.
pub open spec fn in_world(p: (int, int)) -> bool {
    -WORLD_LIMIT <= p.0 <= WORLD_LIMIT && -WORLD_LIMIT <= p.1 <= WORLD_LIMIT
}

/// `s` is the square root of `n`, rounded down.
pub open spec fn is_floor_sqrt(n: int, s: int) -> bool {
    0 <= s && s * s <= n < (s + 1) * (s + 1)
}

/// Integer square root, rounded down.
pub fn floor_sqrt(n: u128) -> (s: u128)
    ensures
        is_floor_sqrt(n as int, s as int),
        s == sqrt_floor(n as int),
        s <= 0xFFFF_FFFF_FFFF_FFFF,
{
    // Invariant: lo * lo <= n < hi * hi
    let mut lo: u128 = 0;
    let mut hi: u128 = 0x1_0000_0000_0000_0000;
    assert(n < 0x1_0000_0000_0000_0000int * 0x1_0000_0000_0000_0000int);
    while hi - lo > 1
        invariant
            lo < hi <= 0x1_0000_0000_0000_0000u128,
            lo * lo <= n,
            n < hi * hi,
        decreases hi - lo,
    {
        let mid: u128 = lo + (hi - lo) / 2;
        if mid <= n / mid {
            assert(mid * mid <= n) by (nonlinear_arith)
                requires mid <= n / mid, mid > 0;
            lo = mid;
        } else {
            assert(n < mid * mid) by (nonlinear_arith)
                requires mid > n / mid, mid > 0;
            hi = mid;
        }
    }
    proof {
        assert(is_floor_sqrt(n as int, lo as int));
        assert(is_floor_sqrt(n as int, sqrt_floor(n as int)));
        lemma_floor_sqrt_unique(n as int, lo as int, sqrt_floor(n as int));
    }
    lo
}

/// The floor of the square root of a non-negative `n`.
pub open spec fn sqrt_floor(n: int) -> int {
    choose|s: int| is_floor_sqrt(n, s)
}

/// Every non-negative integer has a floor square root.
pub proof fn lemma_sqrt_floor(n: int)
    requires
        n >= 0,
    ensures
        is_floor_sqrt(n, sqrt_floor(n)),
    decreases n,
{
    if n == 0 {
        assert(is_floor_sqrt(0, 0));
    } else {
        lemma_sqrt_floor(n - 1);
        let s = sqrt_floor(n - 1);
        if (s + 1) * (s + 1) <= n {
            assert((s + 2) * (s + 2) > n) by (nonlinear_arith)
                requires (s + 1) * (s + 1) > n - 1, s >= 0;
            assert(is_floor_sqrt(n, s + 1));
        } else {
            assert(is_floor_sqrt(n, s));
        }
    }
}

/// Two values that are both the floor square root of `n` are equal.
pub proof fn lemma_floor_sqrt_unique(n: int, a: int, b: int)
    requires
        is_floor_sqrt(n, a),
        is_floor_sqrt(n, b),
    ensures
        a == b,
{
    if a < b {
        assert((a + 1) * (a + 1) <= b * b) by (nonlinear_arith)
            requires 0 <= a, a + 1 <= b;
    } else if b < a {
        assert((b + 1) * (b + 1) <= a * a) by (nonlinear_arith)
            requires 0 <= b, b + 1 <= a;
    }
}

/// A static box: its centre, its horizontal half-extents `half_x` and
/// `half_z` (its footprint), and its vertical half-extent `half_y`.
#[derive(Clone, Copy, Debug, PartialEq, Eq, Structural)]
pub struct Obstacle {
    pub x: i64,
    pub y: i64,
    pub z: i64,
    pub half_x: i64,
    pub half_y: i64,
    pub half_z: i64,
}

impl Obstacle {
    /// Coordinates and extents are within `COORD_LIMIT`; extents are not negative.
    pub open spec fn wf(self) -> bool {
        &&& -COORD_LIMIT <= self.x <= COORD_LIMIT
        &&& -COORD_LIMIT <= self.y <= COORD_LIMIT
        &&& -COORD_LIMIT <= self.z <= COORD_LIMIT
        &&& 0 <= self.half_x <= COORD_LIMIT
        &&& 0 <= self.half_y <= COORD_LIMIT
        &&& 0 <= self.half_z <= COORD_LIMIT
    }

    /// The height of the box's top face.
    pub open spec fn top(self) -> int {
        self.y + self.half_y
    }

    /// A footprint with no area: it never overlaps anything.
    pub open spec fn is_flat(self) -> bool {
        self.half_x == 0 || self.half_z == 0
    }

    /// The height of the box's top face.
    pub fn top_y(&self) -> (r: i64)
        requires
            self.wf(),
        ensures
            r == self.top(),
    {
        self.y + self.half_y
    }
}

/// All obstacles of a sequence are well formed.
pub open spec fn all_wf(obstacles: Seq<Obstacle>) -> bool {
    forall|i: int| 0 <= i < obstacles.len() ==> #[trigger] obstacles[i].wf()
}

/// Whether every obstacle's coordinates and extents are within the limits.
pub fn obstacles_valid(obstacles: &[Obstacle]) -> (b: bool)
    ensures
        b == all_wf(obstacles@),
{
    let mut i: usize = 0;
    while i < obstacles.len()
        invariant
            0 <= i <= obstacles@.len(),
            forall|j: int| 0 <= j < i ==> #[trigger] obstacles@[j].wf(),
        decreases obstacles@.len() - i,
    {
        let o = &obstacles[i];
        let ok = -COORD_LIMIT <= o.x && o.x <= COORD_LIMIT && -COORD_LIMIT <= o.y
            && o.y <= COORD_LIMIT && -COORD_LIMIT <= o.z && o.z <= COORD_LIMIT && 0 <= o.half_x
            && o.half_x <= COORD_LIMIT && 0 <= o.half_y && o.half_y <= COORD_LIMIT && 0 <= o.half_z
            && o.half_z <= COORD_LIMIT;
        if !ok {
            assert(!obstacles@[i as int].wf());
            return false;
        }
        i = i + 1;
    }
    true
}

/// The magnitude of `v`.
pub open spec fn abs(v: int) -> int {
    if v < 0 {
        -v
    } else {
        v
    }
}

pub open spec fn clamp(v: int, lo: int, hi: int) -> int {
    if v < lo {
        lo
    } else if v > hi {
        hi
    } else {
        v
    }
}

/// The point of the footprint of `o` nearest to `p`.
pub open spec fn nearest_x(p: (int, int), o: Obstacle) -> int {
    clamp(p.0, o.x - o.half_x, o.x + o.half_x)
}

pub open spec fn nearest_z(p: (int, int), o: Obstacle) -> int {
    clamp(p.1, o.z - o.half_z, o.z + o.half_z)
}

/// Squared distance from `p` to the footprint of `o` (zero inside it).
pub open spec fn sq_dist_to_footprint(p: (int, int), o: Obstacle) -> int {
    let dx = p.0 - nearest_x(p, o);
    let dz = p.1 - nearest_z(p, o);
    dx * dx + dz * dz
}

/// A circle of radius `r` at `p` and the footprint of `o` share interior
/// points: their signed separation is negative. A circle of radius zero, or
/// a footprint with no area, never does.
pub open spec fn penetrates(p: (int, int), r: int, o: Obstacle) -> bool {
    &&& r > 0
    &&& !o.is_flat()
    &&& sq_dist_to_footprint(p, o) < r * r
}

/// A circle of radius `r` at `p` and the footprint of `o` touch or overlap.
/// A circle of radius zero, or a footprint with no area, never does.
pub open spec fn overlaps(p: (int, int), r: int, o: Obstacle) -> bool {
    &&& r > 0
    &&& !o.is_flat()
    &&& sq_dist_to_footprint(p, o) <= r * r
}


fn clamp_exec(v: i64, lo: i64, hi: i64) -> (r: i64)
    ensures
        r == clamp(v as int, lo as int, hi as int),
{
    if v < lo {
        lo
    } else if v > hi {
        hi
    } else {
        v
    }
}

/// The offset from the point of the footprint of `o` nearest to `p`, to `p`.
pub fn offset_from_footprint(p: Point2, o: &Obstacle) -> (d: (i64, i64))
    requires
        in_world(p@),
        o.wf(),
    ensures
        d.0 == p.x - nearest_x(p@, *o),
        d.1 == p.z - nearest_z(p@, *o),
        -(WORLD_LIMIT + 2 * COORD_LIMIT) <= d.0 <= WORLD_LIMIT + 2 * COORD_LIMIT,
        -(WORLD_LIMIT + 2 * COORD_LIMIT) <= d.1 <= WORLD_LIMIT + 2 * COORD_LIMIT,
{
    let nx = clamp_exec(p.x, o.x - o.half_x, o.x + o.half_x);
    let nz = clamp_exec(p.z, o.z - o.half_z, o.z + o.half_z);
    (p.x - nx, p.z - nz)
}

/// Squared distance from `p` to the footprint of `o`.
pub fn footprint_sq_dist(p: Point2, o: &Obstacle) -> (r: i64)
    requires
        in_world(p@),
        o.wf(),
    ensures
        r == sq_dist_to_footprint(p@, *o),
        r >= 0,
{
    let (dx, dz) = offset_from_footprint(p, o);
    assert(dx * dx <= 0x2400_0000_0000_0000int && dz * dz <= 0x2400_0000_0000_0000int)
        by (nonlinear_arith)
        requires
            -0x6000_0000 <= dx <= 0x6000_0000,
            -0x6000_0000 <= dz <= 0x6000_0000,
    ;
    assert(dx * dx >= 0 && dz * dz >= 0) by (nonlinear_arith);
    dx * dx + dz * dz
}

/// Whether a circle of radius `r` at `p` touches or overlaps the footprint of `o`.
pub fn circle_overlaps(p: Point2, r: i64, o: &Obstacle) -> (b: bool)
    requires
        in_world(p@),
        0 <= r <= COORD_LIMIT,
        o.wf(),
    ensures
        b == overlaps(p@, r as int, *o),
{
    if r == 0 || o.half_x == 0 || o.half_z == 0 {
        return false;
    }
    let sq = footprint_sq_dist(p, o);
    assert(r * r <= 0x100_0000_0000_0000int) by (nonlinear_arith)
        requires 0 <= r <= 0x1000_0000;
    sq <= r * r
}

} // verus!
