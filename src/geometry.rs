use vstd::prelude::*;

verus! {

/// A point of the image, in hundredths of a pixel on each axis.
///
/// Every length in this library (distances, thresholds) uses the same
/// unit, so that all arithmetic stays exact.
#[derive(Clone, Copy, Debug, PartialEq, Eq, Structural)]
pub struct Position {
    pub x: i32,
    pub y: i32,
}

/// The square of the Euclidean distance between `p` and `q`.
pub open spec fn sq_dist(p: Position, q: Position) -> nat {
    ((p.x - q.x) * (p.x - q.x) + (p.y - q.y) * (p.y - q.y)) as nat
}

/// `r` is `sqrt(d)` rounded to the nearest integer, that is
/// `r - 1/2 <= sqrt(d) < r + 1/2`. No square root of an integer lies
/// halfway between two integers, so exactly one `r` qualifies.
pub open spec fn is_rounded_root(r: nat, d: nat) -> bool {
    &&& (r == 0 || r * r - r < d)
    &&& d <= r * r + r
}

/// `sqrt(d)` rounded to the nearest integer.
pub open spec fn rounded_root(d: nat) -> nat {
    choose|r: nat| is_rounded_root(r, d)
}

/// The Euclidean distance from `p` to `q`, rounded to the nearest unit.
pub open spec fn distance_spec(p: Position, q: Position) -> nat {
    rounded_root(sq_dist(p, q))
}

/// `p` and `q` lie at most `threshold` apart: `sqrt(sq_dist) <= threshold`,
/// compared exactly through the squares.
pub open spec fn close_spec(p: Position, q: Position, threshold: u32) -> bool {
    sq_dist(p, q) <= threshold * threshold
}

/// Half of `s`, rounded toward zero.
pub open spec fn half(s: int) -> int {
    if s >= 0 {
        s / 2
    } else {
        -((-s) / 2)
    }
}

fn half_exec(s: i64) -> (r: i32)
    requires
        2 * i32::MIN <= s <= 2 * i32::MAX,
    ensures
        r == half(s as int),
{
    if s >= 0 {
        (s / 2) as i32
    } else {
        (-((-s) / 2)) as i32
    }
}

impl Position {
    /// The position of the whole pixel `(x, y)`.
    pub fn from_pixels(x: i32, y: i32) -> (r: Position)
        requires
            -21_474_836 <= x <= 21_474_836,
            -21_474_836 <= y <= 21_474_836,
        ensures
            r.x == 100 * x,
            r.y == 100 * y,
    {
        Position { x: x * 100, y: y * 100 }
    }

    /// The position halfway between `self` and `other`, each coordinate
    /// rounded toward zero.
    pub fn midpoint(&self, other: &Position) -> (r: Position)
        ensures
            r.x == half(self.x + other.x),
            r.y == half(self.y + other.y),
    {
        Position { x: half_exec(self.x as i64 + other.x as i64), y: half_exec(self.y as i64 + other.y as i64) }
    }
}

/// At most one integer is the rounded square root of `d`.
pub proof fn lemma_rounded_root_unique(a: nat, b: nat, d: nat)
    requires
        is_rounded_root(a, d),
        is_rounded_root(b, d),
    ensures
        a == b,
{
    if a < b {
        assert(b * b - b >= a * a + a) by (nonlinear_arith)
            requires
                a + 1 <= b,
        ;
    } else if b < a {
        assert(a * a - a >= b * b + b) by (nonlinear_arith)
            requires
                b + 1 <= a,
        ;
    }
}

/// Every natural number has a rounded square root.
pub proof fn lemma_rounded_root_exists(d: nat)
    ensures
        is_rounded_root(rounded_root(d), d),
    decreases d,
{
    if d == 0 {
        assert(is_rounded_root(0, 0));
    } else {
        lemma_rounded_root_exists((d - 1) as nat);
        let r = rounded_root((d - 1) as nat);
        if d <= r * r + r {
            assert(is_rounded_root(r, d));
        } else {
            assert((r + 1) * (r + 1) - (r + 1) == r * r + r) by (nonlinear_arith);
            assert((r + 1) * (r + 1) + (r + 1) == r * r + 3 * r + 2) by (nonlinear_arith);
            assert(is_rounded_root(r + 1, d));
        }
    }
}

/// Whatever satisfies `is_rounded_root` is the value of `rounded_root`.
pub proof fn lemma_rounded_root_is(r: nat, d: nat)
    requires
        is_rounded_root(r, d),
    ensures
        rounded_root(d) == r,
{
    let c = rounded_root(d);
    assert(is_rounded_root(c, d));
    lemma_rounded_root_unique(c, r, d);
}

/// The largest `f` with `f * f <= d`.
fn floor_sqrt(d: u128) -> (f: u64)
    requires
        d < 0x10_0000_0000_0000_0000,
    ensures
        f * f <= d < (f + 1) * (f + 1),
        f < 0x4_0000_0000,
{
    let mut lo: u64 = 0;
    let mut hi: u64 = 0x4_0000_0000;
    while hi - lo > 1
        invariant
            lo < hi <= 0x4_0000_0000,
            lo * lo <= d < hi * hi,
        decreases hi - lo,
    {
        let mid: u64 = lo + (hi - lo) / 2;
        assert(mid * mid <= 0x4_0000_0000 * 0x4_0000_0000) by (nonlinear_arith)
            requires
                mid <= 0x4_0000_0000,
        ;
        let sq: u128 = mid as u128 * mid as u128;
        if sq <= d {
            lo = mid;
        } else {
            hi = mid;
        }
    }
    assert(hi == lo + 1);
    lo
}

/// The distance from `p` to `q`, rounded to the nearest hundredth of a
/// pixel.
pub fn distance(p: &Position, q: &Position) -> (r: u64)
    ensures
        is_rounded_root(r as nat, sq_dist(*p, *q)),
        r == distance_spec(*p, *q),
{
    let d = sq_dist_exec(p, q);
    let f = floor_sqrt(d);
    let r: u64 = if d <= f as u128 * f as u128 + f as u128 {
        f
    } else {
        assert((f + 1) * (f + 1) == f * f + 2 * f + 1) by (nonlinear_arith);
        f + 1
    };
    proof {
        let fi = f as int;
        assert(fi * fi - fi <= fi * fi);
        assert((fi + 1) * (fi + 1) - (fi + 1) == fi * fi + fi) by (nonlinear_arith);
        assert((fi + 1) * (fi + 1) + (fi + 1) == fi * fi + 3 * fi + 2) by (nonlinear_arith);
        lemma_rounded_root_is(r as nat, sq_dist(*p, *q));
    }
    r
}

/// The squared distance, computed without overflow.
fn sq_dist_exec(p: &Position, q: &Position) -> (r: u128)
    ensures
        r == sq_dist(*p, *q),
        r < 0x10_0000_0000_0000_0000,
{
    let dx: i64 = p.x as i64 - q.x as i64;
    let dy: i64 = p.y as i64 - q.y as i64;
    let ax: u128 = if dx < 0 { (-dx) as u128 } else { dx as u128 };
    let ay: u128 = if dy < 0 { (-dy) as u128 } else { dy as u128 };
    assert(ax * ax == dx * dx && ay * ay == dy * dy) by (nonlinear_arith)
        requires
            ax == dx || ax == -dx,
            ay == dy || ay == -dy,
    ;
    assert(ax * ax <= 0x1_0000_0000 * 0x1_0000_0000 && ay * ay <= 0x1_0000_0000
        * 0x1_0000_0000) by (nonlinear_arith)
        requires
            ax <= 0x1_0000_0000,
            ay <= 0x1_0000_0000,
    ;
    ax * ax + ay * ay
}

/// Whether `p` and `q` lie within `threshold` of each other.
pub fn are_close(p: &Position, q: &Position, threshold: u32) -> (r: bool)
    ensures
        r == close_spec(*p, *q, threshold),
{
    let t: u128 = threshold as u128;
    assert(t * t <= 0x1_0000_0000 * 0x1_0000_0000) by (nonlinear_arith)
        requires
            t <= 0x1_0000_0000,
    ;
    sq_dist_exec(p, q) <= t * t
}

/// Closeness is symmetric, and it is the exact comparison of the true
/// distance with the threshold: `sqrt(sq_dist(p, q)) <= threshold`. Against
/// the distance rounded to whole units: close points are at most
/// `threshold` apart, and points less than `threshold` apart are close.
pub proof fn lemma_close_symmetric(p: Position, q: Position, threshold: u32)
    ensures
        close_spec(p, q, threshold) == close_spec(q, p, threshold),
        close_spec(p, q, threshold) <==> sq_dist(p, q) <= threshold * threshold,
        close_spec(p, q, threshold) ==> distance_spec(p, q) <= threshold,
        distance_spec(p, q) < threshold ==> close_spec(p, q, threshold),
        distance_spec(p, q) == distance_spec(q, p),
{
    let d = sq_dist(p, q);
    let r = distance_spec(p, q);
    let t = threshold as nat;
    lemma_rounded_root_exists(d);
    if d <= t * t && r > t {
        assert(r * r - r >= t * t) by (nonlinear_arith)
            requires
                r >= t + 1,
        ;
    }
    if r < t {
        assert(r * r + r < t * t) by (nonlinear_arith)
            requires
                r + 1 <= t,
        ;
    }
    assert((p.x - q.x) * (p.x - q.x) == (q.x - p.x) * (q.x - p.x)) by (nonlinear_arith);
    assert((p.y - q.y) * (p.y - q.y) == (q.y - p.y) * (q.y - p.y)) by (nonlinear_arith);
}

} // verus!
