//! Multilateration: a point in the plane from distances to known points.
//!
//! Each anchor gives a circle around a known point. Subtracting the first
//! circle's equation from every other leaves one linear equation in the
//! unknown point per further anchor. These are solved by weighted least
//! squares, a nearer anchor weighing more, through the normal equations,
//! whose two-by-two system is solved outright.
//!
//! All arithmetic is on whole millimetres and exact, but for two roundings
//! that are part of what is computed: a weight is held to one part in 1024
//! of the heaviest, and the point is rounded down to a whole millimetre.

use vstd::arithmetic::div_mod::{
    lemma_div_multiples_vanish, lemma_fundamental_div_mod, lemma_fundamental_div_mod_converse,
};
use vstd::prelude::*;

verus! {

/// The fewest anchors that fix a point.
pub const MIN_ANCHORS: usize = 3;

/// The most anchors one fix can take.
pub const MAX_ANCHORS: usize = 16;

/// How far from the origin an anchor may stand, along either axis, in
/// millimetres.
pub const COORD_LIMIT_MM: i64 = 262_144;

/// The longest distance an anchor may report, in millimetres.
pub const RANGE_LIMIT_MM: u32 = 524_288;

/// The weight of the nearest anchor. The others weigh less, in proportion
/// to the inverse square of their distance, and never less than 1.
pub const WEIGHT_SCALE: u64 = 1024;

/// How far from the first anchor a solution may lie, along either axis, in
/// millimetres. Beyond that the anchors are taken to lie on one line.
pub const FAR_LIMIT_MM: i64 = 2_147_483_648;

/// The least determinant that is not taken for zero is one part in this
/// many.
pub const EPSILON_INVERSE: i128 = 1_000_000;

/// A known point and the estimated distance of the emitter from it.
#[derive(Debug, Clone, Copy, PartialEq, Eq, Structural)]
pub struct Range {
    pub x_mm: i64,
    pub y_mm: i64,
    pub distance_mm: u32,
}

/// What solving for a position gave.
#[derive(Debug, Clone, Copy, PartialEq, Eq, Structural)]
pub enum Solution {
    /// Fewer than three anchors.
    InsufficientAnchors,
    /// The anchors lie on one line or all but on one spot, so that the
    /// determinant of the normal equations is all but zero, or so nearly on
    /// one line that the solution lies out of all reach.
    IllConditioned,
    /// A point, with the root mean square of its distance errors.
    Fix { x_mm: i64, y_mm: i64, residual_mm: u64 },
}

/// Whether anchors are within what the arithmetic can hold: at most sixteen
/// of them, each within 262 m of the origin along either axis and at a
/// distance of 1 mm to 524 m.
pub open spec fn spec_in_limits(ranges: Seq<Range>) -> bool {
    &&& ranges.len() <= MAX_ANCHORS
    &&& forall|i: int|
        0 <= i < ranges.len() ==> {
            &&& -COORD_LIMIT_MM <= (#[trigger] ranges[i]).x_mm <= COORD_LIMIT_MM
            &&& -COORD_LIMIT_MM <= ranges[i].y_mm <= COORD_LIMIT_MM
            &&& 1 <= ranges[i].distance_mm <= RANGE_LIMIT_MM
        }
}

/// The square of a number.
pub open spec fn spec_sq(a: int) -> int {
    a * a
}

/// Anchor `i` east of the first anchor.
pub open spec fn spec_u(ranges: Seq<Range>, i: int) -> int {
    ranges[i].x_mm - ranges[0].x_mm
}

/// Anchor `i` north of the first anchor.
pub open spec fn spec_v(ranges: Seq<Range>, i: int) -> int {
    ranges[i].y_mm - ranges[0].y_mm
}

/// The right-hand side of anchor `i`'s equation, `2 (u x + v y) = c`, for
/// the point `(x, y)` counted from the first anchor.
pub open spec fn spec_c(ranges: Seq<Range>, i: int) -> int {
    spec_sq(spec_u(ranges, i)) + spec_sq(spec_v(ranges, i)) - spec_sq(
        ranges[i].distance_mm as int,
    ) + spec_sq(ranges[0].distance_mm as int)
}

/// The least squared distance among the anchors from the second up to,
/// but not including, the `n`-th.
pub open spec fn spec_nearest_sq(ranges: Seq<Range>, n: int) -> int
    decreases n,
{
    if n <= 2 {
        spec_sq(ranges[1].distance_mm as int)
    } else {
        let rest = spec_nearest_sq(ranges, n - 1);
        let last = spec_sq(ranges[n - 1].distance_mm as int);
        if last < rest {
            last
        } else {
            rest
        }
    }
}

/// The weight of an anchor at distance `d` where the nearest is at the
/// square root of `nearest_sq`: 1024 for the nearest, less in proportion
/// to the inverse square of the distance, and at least 1.
pub open spec fn spec_weight(d: int, nearest_sq: int) -> int {
    let w = WEIGHT_SCALE * nearest_sq / spec_sq(d);
    if w < 1 {
        1
    } else {
        w
    }
}

/// The entries of the normal equations.
pub struct Sums {
    pub uu: int,
    pub uv: int,
    pub vv: int,
    pub uc: int,
    pub vc: int,
}

/// The weighted sums over the equations of the anchors from the second up
/// to, but not including, the `n`-th.
pub open spec fn spec_sums(ranges: Seq<Range>, nearest_sq: int, n: int) -> Sums
    decreases n,
{
    if n <= 1 {
        Sums { uu: 0, uv: 0, vv: 0, uc: 0, vc: 0 }
    } else {
        let s = spec_sums(ranges, nearest_sq, n - 1);
        let w = spec_weight(ranges[n - 1].distance_mm as int, nearest_sq);
        let u = spec_u(ranges, n - 1);
        let v = spec_v(ranges, n - 1);
        let c = spec_c(ranges, n - 1);
        Sums {
            uu: s.uu + w * u * u,
            uv: s.uv + w * u * v,
            vv: s.vv + w * v * v,
            uc: s.uc + w * u * c,
            vc: s.vc + w * v * c,
        }
    }
}

/// The determinant of the normal equations.
pub open spec fn spec_det(s: Sums) -> int {
    s.uu * s.vv - s.uv * s.uv
}

/// A quotient rounded down, for a divisor other than zero.
pub open spec fn spec_floor_div(n: int, d: int) -> int {
    if d > 0 {
        n / d
    } else {
        (-n) / (-d)
    }
}

/// Whether the normal equations are taken to have no solution: their
/// determinant, in metres and with an anchor at distance `d` weighing
/// `1 / d²`, is less than a millionth either side of zero. In those units
/// the determinant is `16 det / (1024 nearest_sq)²`.
pub open spec fn spec_ill_conditioned(s: Sums, nearest_sq: int) -> bool {
    let det = spec_det(s);
    let size = if det < 0 {
        -det
    } else {
        det
    };
    16 * EPSILON_INVERSE * size < spec_sq(WEIGHT_SCALE * nearest_sq)
}

/// The solution of the normal equations, counted from the first anchor and
/// rounded down to whole millimetres; none where the equations are
/// ill-conditioned or the solution lies beyond the far limit.
pub open spec fn spec_offset(s: Sums, nearest_sq: int) -> Option<(int, int)> {
    let det = spec_det(s);
    if det == 0 || spec_ill_conditioned(s, nearest_sq) {
        None
    } else {
        let x = spec_floor_div(s.vv * s.uc - s.uv * s.vc, 2 * det);
        let y = spec_floor_div(s.uu * s.vc - s.uv * s.uc, 2 * det);
        if -FAR_LIMIT_MM <= x <= FAR_LIMIT_MM && -FAR_LIMIT_MM <= y <= FAR_LIMIT_MM {
            Some((x, y))
        } else {
            None
        }
    }
}

/// Whether `r` is the square root of `n`, rounded down.
pub open spec fn spec_is_isqrt(n: int, r: int) -> bool {
    0 <= r && r * r <= n < (r + 1) * (r + 1)
}

/// The square root of a number that is not negative, rounded down.
pub open spec fn spec_isqrt(n: int) -> int {
    choose|r: int| spec_is_isqrt(n, r)
}

/// The sum of the squared distance errors of the point `(x, y)` over the
/// first `n` anchors.
pub open spec fn spec_error_sq_sum(ranges: Seq<Range>, x: int, y: int, n: int) -> int
    decreases n,
{
    if n <= 0 {
        0
    } else {
        let at = ranges[n - 1];
        let away = spec_isqrt(spec_sq(x - at.x_mm) + spec_sq(y - at.y_mm));
        spec_error_sq_sum(ranges, x, y, n - 1) + spec_sq(away - at.distance_mm)
    }
}

/// The root mean square of the distance errors of the point `(x, y)`.
pub open spec fn spec_residual(ranges: Seq<Range>, x: int, y: int) -> int {
    spec_isqrt(spec_error_sq_sum(ranges, x, y, ranges.len() as int) / (ranges.len() as int))
}

/// The position that the anchors fix.
pub open spec fn spec_solve(ranges: Seq<Range>) -> Solution {
    if ranges.len() < MIN_ANCHORS {
        Solution::InsufficientAnchors
    } else {
        let nearest_sq = spec_nearest_sq(ranges, ranges.len() as int);
        match spec_offset(spec_sums(ranges, nearest_sq, ranges.len() as int), nearest_sq) {
            None => Solution::IllConditioned,
            Some((x, y)) => Solution::Fix {
                x_mm: (ranges[0].x_mm + x) as i64,
                y_mm: (ranges[0].y_mm + y) as i64,
                residual_mm: spec_residual(ranges, ranges[0].x_mm + x, ranges[0].y_mm + y) as u64,
            },
        }
    }
}

/// A number has one square root rounded down.
pub proof fn lemma_isqrt_unique(n: int, r: int, s: int)
    requires
        spec_is_isqrt(n, r),
        spec_is_isqrt(n, s),
    ensures
        r == s,
{
    if r < s {
        assert((r + 1) * (r + 1) <= s * s) by (nonlinear_arith)
            requires
                0 <= r,
                r + 1 <= s,
        ;
    } else if s < r {
        assert((s + 1) * (s + 1) <= r * r) by (nonlinear_arith)
            requires
                0 <= s,
                s + 1 <= r,
        ;
    }
}

/// What is found to be a square root rounded down is the square root
/// rounded down.
pub proof fn lemma_isqrt_is(n: int, r: int)
    requires
        spec_is_isqrt(n, r),
    ensures
        spec_isqrt(n) == r,
{
    lemma_isqrt_unique(n, r, spec_isqrt(n));
}

/// The square root of `n`, rounded down.
pub fn isqrt(n: u128) -> (r: u64)
    requires
        n < 0x4000_0000_0000_0000_0000_0000_0000_0000,
    ensures
        spec_is_isqrt(n as int, r as int),
        r as int == spec_isqrt(n as int),
{
    let mut lo: u128 = 0;
    let mut hi: u128 = 0x8000_0000_0000_0000;
    assert(hi * hi == 0x4000_0000_0000_0000_0000_0000_0000_0000) by (nonlinear_arith)
        requires
            hi == 0x8000_0000_0000_0000,
    ;
    while hi - lo > 1
        invariant
            lo < hi <= 0x8000_0000_0000_0000,
            lo * lo <= n < hi * hi,
        decreases hi - lo,
    {
        let mid: u128 = lo + (hi - lo) / 2;
        assert(mid * mid <= 0x4000_0000_0000_0000_0000_0000_0000_0000) by (nonlinear_arith)
            requires
                mid <= 0x8000_0000_0000_0000,
        ;
        if mid * mid <= n {
            lo = mid;
        } else {
            hi = mid;
        }
    }
    proof {
        lemma_isqrt_is(n as int, lo as int);
    }
    lo as u64
}

/// A product is bounded by the product of its factors' bounds.
proof fn lemma_product_bound(a: int, b: int, ma: int, mb: int)
    requires
        -ma <= a <= ma,
        -mb <= b <= mb,
    ensures
        -(ma * mb) <= a * b <= ma * mb,
{
    assert(-(ma * mb) <= a * b <= ma * mb) by (nonlinear_arith)
        requires
            -ma <= a <= ma,
            -mb <= b <= mb,
    ;
}

/// The offsets, squares and right-hand sides of anchors within the limits
/// are within limits of their own.
proof fn lemma_row_bounds(ranges: Seq<Range>, i: int)
    requires
        spec_in_limits(ranges),
        0 < i < ranges.len(),
    ensures
        -524_288 <= spec_u(ranges, i) <= 524_288,
        -524_288 <= spec_v(ranges, i) <= 524_288,
        0 <= spec_sq(spec_u(ranges, i)) <= 274_877_906_944,
        0 <= spec_sq(spec_v(ranges, i)) <= 274_877_906_944,
        1 <= spec_sq(ranges[i].distance_mm as int) <= 274_877_906_944,
        1 <= spec_sq(ranges[0].distance_mm as int) <= 274_877_906_944,
        -1_099_511_627_776 <= spec_c(ranges, i) <= 1_099_511_627_776,
{
    let u = spec_u(ranges, i);
    let v = spec_v(ranges, i);
    let d = ranges[i].distance_mm as int;
    let e = ranges[0].distance_mm as int;
    lemma_product_bound(u, u, 524_288, 524_288);
    lemma_product_bound(v, v, 524_288, 524_288);
    lemma_product_bound(d, d, 524_288, 524_288);
    lemma_product_bound(e, e, 524_288, 524_288);
    assert(u * u >= 0 && v * v >= 0 && d * d >= 1 && e * e >= 1) by (nonlinear_arith)
        requires
            d >= 1,
            e >= 1,
    ;
}

/// The nearest of the anchors is no farther than any of them.
proof fn lemma_nearest_sq(ranges: Seq<Range>, n: int, i: int)
    requires
        spec_in_limits(ranges),
        2 <= n <= ranges.len(),
        1 <= i < n,
    ensures
        1 <= spec_nearest_sq(ranges, n) <= spec_sq(ranges[i].distance_mm as int),
        spec_nearest_sq(ranges, n) <= 274_877_906_944,
    decreases n,
{
    lemma_row_bounds(ranges, 1);
    lemma_row_bounds(ranges, n - 1);
    if n > 2 {
        if i < n - 1 {
            lemma_nearest_sq(ranges, n - 1, i);
        } else {
            lemma_nearest_sq(ranges, n - 1, 1);
        }
    }
}

/// A weight lies between 1 and 1024 where the anchor is no nearer than the
/// nearest.
proof fn lemma_weight_bounds(d: int, nearest_sq: int)
    requires
        1 <= d,
        0 <= nearest_sq <= spec_sq(d),
    ensures
        1 <= spec_weight(d, nearest_sq) <= WEIGHT_SCALE,
{
    let dd = spec_sq(d);
    assert(dd >= 1) by (nonlinear_arith)
        requires
            d >= 1,
            dd == d * d,
    ;
    let n = WEIGHT_SCALE * nearest_sq;
    lemma_fundamental_div_mod(n, dd);
    assert(n / dd <= 1024) by (nonlinear_arith)
        requires
            n == dd * (n / dd) + n % dd,
            n <= 1024 * dd,
            dd >= 1,
            0 <= n % dd,
    ;
}

fn nearest_sq(ranges: &Vec<Range>) -> (nearest: u64)
    requires
        spec_in_limits(ranges@),
        ranges@.len() >= 2,
    ensures
        nearest == spec_nearest_sq(ranges@, ranges@.len() as int),
        1 <= nearest <= 274_877_906_944,
{
    proof {
        lemma_row_bounds(ranges@, 1);
        lemma_nearest_sq(ranges@, ranges@.len() as int, 1);
    }
    let first: u64 = ranges[1].distance_mm as u64;
    let mut nearest: u64 = first * first;
    let mut i: usize = 2;
    while i < ranges.len()
        invariant
            2 <= i <= ranges@.len(),
            spec_in_limits(ranges@),
            nearest == spec_nearest_sq(ranges@, i as int),
        decreases ranges@.len() - i,
    {
        proof {
            lemma_row_bounds(ranges@, i as int);
        }
        let d: u64 = ranges[i].distance_mm as u64;
        if d * d < nearest {
            nearest = d * d;
        }
        i += 1;
    }
    nearest
}

fn weight(d: u32, nearest: u64) -> (w: i128)
    requires
        1 <= d <= RANGE_LIMIT_MM,
        nearest <= spec_sq(d as int),
    ensures
        w == spec_weight(d as int, nearest as int),
        1 <= w <= WEIGHT_SCALE,
{
    proof {
        lemma_weight_bounds(d as int, nearest as int);
        lemma_product_bound(d as int, d as int, 524_288, 524_288);
        assert(spec_sq(d as int) >= 1) by (nonlinear_arith)
            requires
                d >= 1,
        ;
    }
    let dd: u64 = (d as u64) * (d as u64);
    let w: u64 = WEIGHT_SCALE * nearest / dd;
    if w < 1 {
        1
    } else {
        w as i128
    }
}

/// A quotient rounded down.
fn floor_div(n: i128, d: i128) -> (q: i128)
    requires
        d != 0,
        -0x4000_0000_0000_0000_0000_0000_0000_0000 <= n <= 0x4000_0000_0000_0000_0000_0000_0000_0000,
        -0x4000_0000_0000_0000_0000_0000_0000_0000 <= d <= 0x4000_0000_0000_0000_0000_0000_0000_0000,
    ensures
        q == spec_floor_div(n as int, d as int),
{
    let (num, den): (i128, i128) = if d < 0 {
        (-n, -d)
    } else {
        (n, d)
    };
    if num >= 0 {
        num / den
    } else {
        let m: i128 = -num;
        let q: i128 = m / den;
        let r: i128 = m % den;
        proof {
            lemma_fundamental_div_mod(m as int, den as int);
            assert(den * q == q * den) by (nonlinear_arith);
            if r == 0 {
                assert(num == (-q) * den + 0) by (nonlinear_arith)
                    requires
                        m == q * den + r,
                        r == 0,
                        num == -m,
                ;
                lemma_fundamental_div_mod_converse(num as int, den as int, -q as int, 0);
            } else {
                assert(num == (-q - 1) * den + (den - r)) by (nonlinear_arith)
                    requires
                        m == q * den + r,
                        num == -m,
                ;
                lemma_fundamental_div_mod_converse(
                    num as int,
                    den as int,
                    -q - 1 as int,
                    den - r as int,
                );
            }
        }
        if r == 0 {
            -q
        } else {
            -q - 1
        }
    }
}

/// The entries of the normal equations as the machine holds them.
struct NormalSums {
    uu: i128,
    uv: i128,
    vv: i128,
    uc: i128,
    vc: i128,
}

impl View for NormalSums {
    type V = Sums;

    closed spec fn view(&self) -> Sums {
        Sums { uu: self.uu as int, uv: self.uv as int, vv: self.vv as int, uc: self.uc as int, vc: self.vc as int }
    }
}

/// Whether the sums over `n` equations are within what `n` equations can
/// add up to.
spec fn spec_sums_bounded(s: Sums, n: int) -> bool {
    &&& -n * 0x1_0000_0000_0000 <= s.uu <= n * 0x1_0000_0000_0000
    &&& -n * 0x1_0000_0000_0000 <= s.uv <= n * 0x1_0000_0000_0000
    &&& -n * 0x1_0000_0000_0000 <= s.vv <= n * 0x1_0000_0000_0000
    &&& -n * 0x20_0000_0000_0000_0000 <= s.uc <= n * 0x20_0000_0000_0000_0000
    &&& -n * 0x20_0000_0000_0000_0000 <= s.vc <= n * 0x20_0000_0000_0000_0000
}

fn normal_sums(ranges: &Vec<Range>, nearest: u64) -> (sums: NormalSums)
    requires
        spec_in_limits(ranges@),
        ranges@.len() >= 2,
        nearest == spec_nearest_sq(ranges@, ranges@.len() as int),
    ensures
        sums@ == spec_sums(ranges@, nearest as int, ranges@.len() as int),
        spec_sums_bounded(sums@, 15),
{
    let mut sums = NormalSums { uu: 0, uv: 0, vv: 0, uc: 0, vc: 0 };
    let x0: i64 = ranges[0].x_mm;
    let y0: i64 = ranges[0].y_mm;
    let d0: i64 = ranges[0].distance_mm as i64;
    let mut i: usize = 1;
    while i < ranges.len()
        invariant
            1 <= i <= ranges@.len() <= 16,
            spec_in_limits(ranges@),
            nearest == spec_nearest_sq(ranges@, ranges@.len() as int),
            x0 == ranges@[0].x_mm,
            y0 == ranges@[0].y_mm,
            d0 == ranges@[0].distance_mm,
            sums@ == spec_sums(ranges@, nearest as int, i as int),
            spec_sums_bounded(sums@, i - 1),
        decreases ranges@.len() - i,
    {
        let at = ranges[i];
        proof {
            lemma_row_bounds(ranges@, i as int);
            lemma_nearest_sq(ranges@, ranges@.len() as int, i as int);
        }
        let w: i128 = weight(at.distance_mm, nearest);
        let u: i128 = (at.x_mm - x0) as i128;
        let v: i128 = (at.y_mm - y0) as i128;
        let d: i128 = at.distance_mm as i128;
        let c: i128 = u * u + v * v - d * d + (d0 as i128) * (d0 as i128);
        proof {
            assert(c == spec_c(ranges@, i as int));
            lemma_product_bound(w as int, u as int, 1024, 524_288);
            lemma_product_bound(w as int, v as int, 1024, 524_288);
            lemma_product_bound(w * u, u as int, 536_870_912, 524_288);
            lemma_product_bound(w * u, v as int, 536_870_912, 524_288);
            lemma_product_bound(w * v, v as int, 536_870_912, 524_288);
            lemma_product_bound(w * u, c as int, 536_870_912, 1_099_511_627_776);
            lemma_product_bound(w * v, c as int, 536_870_912, 1_099_511_627_776);
        }
        let wu: i128 = w * u;
        let wv: i128 = w * v;
        sums = NormalSums {
            uu: sums.uu + wu * u,
            uv: sums.uv + wu * v,
            vv: sums.vv + wv * v,
            uc: sums.uc + wu * c,
            vc: sums.vc + wv * c,
        };
        i += 1;
    }
    sums
}

/// Solves the normal equations.
fn solve_normal(sums: &NormalSums, nearest: u64) -> (offset: Option<(i64, i64)>)
    requires
        spec_sums_bounded(sums@, 15),
        1 <= nearest <= 274_877_906_944,
    ensures
        match offset {
            Some((x, y)) => spec_offset(sums@, nearest as int) == Some((x as int, y as int)),
            None => spec_offset(sums@, nearest as int).is_none(),
        },
{
    proof {
        let s = sums@;
        lemma_product_bound(s.uu, s.vv, 0xF_0000_0000_0000, 0xF_0000_0000_0000);
        lemma_product_bound(s.uv, s.uv, 0xF_0000_0000_0000, 0xF_0000_0000_0000);
        lemma_product_bound(s.vv, s.uc, 0xF_0000_0000_0000, 0x1E0_0000_0000_0000_0000);
        lemma_product_bound(s.uv, s.vc, 0xF_0000_0000_0000, 0x1E0_0000_0000_0000_0000);
        lemma_product_bound(s.uu, s.vc, 0xF_0000_0000_0000, 0x1E0_0000_0000_0000_0000);
        lemma_product_bound(s.uv, s.uc, 0xF_0000_0000_0000, 0x1E0_0000_0000_0000_0000);
    }
    let det: i128 = sums.uu * sums.vv - sums.uv * sums.uv;
    let size: i128 = if det < 0 {
        -det
    } else {
        det
    };
    let scale: i128 = (WEIGHT_SCALE as i128) * (nearest as i128);
    proof {
        lemma_product_bound(scale as int, scale as int, 0x1_0000_0000_0000, 0x1_0000_0000_0000);
        assert(scale * scale > 0) by (nonlinear_arith)
            requires
                scale >= 1024,
        ;
    }
    let bar: i128 = scale * scale;
    if size < 0x1_0000_0000_0000_0000_0000_0000 {
        if 16_000_000 * size < bar {
            return None;
        }
    }
    let x: i128 = floor_div(sums.vv * sums.uc - sums.uv * sums.vc, 2 * det);
    let y: i128 = floor_div(sums.uu * sums.vc - sums.uv * sums.uc, 2 * det);
    if x < -(FAR_LIMIT_MM as i128) || x > FAR_LIMIT_MM as i128 || y < -(FAR_LIMIT_MM as i128) || y
        > FAR_LIMIT_MM as i128 {
        return None;
    }
    Some((x as i64, y as i64))
}

/// The root mean square of the distance errors of a point.
fn residual(ranges: &Vec<Range>, x: i64, y: i64) -> (rms: u64)
    requires
        spec_in_limits(ranges@),
        ranges@.len() >= 1,
        -FAR_LIMIT_MM - COORD_LIMIT_MM <= x <= FAR_LIMIT_MM + COORD_LIMIT_MM,
        -FAR_LIMIT_MM - COORD_LIMIT_MM <= y <= FAR_LIMIT_MM + COORD_LIMIT_MM,
    ensures
        rms == spec_residual(ranges@, x as int, y as int),
{
    let mut sum: u128 = 0;
    let mut i: usize = 0;
    while i < ranges.len()
        invariant
            i <= ranges@.len() <= 16,
            spec_in_limits(ranges@),
            -FAR_LIMIT_MM - COORD_LIMIT_MM <= x <= FAR_LIMIT_MM + COORD_LIMIT_MM,
            -FAR_LIMIT_MM - COORD_LIMIT_MM <= y <= FAR_LIMIT_MM + COORD_LIMIT_MM,
            sum == spec_error_sq_sum(ranges@, x as int, y as int, i as int),
            sum <= i * 0x4_0000_0000_0000_0000,
        decreases ranges@.len() - i,
    {
        let at = ranges[i];
        let dx: i128 = (x - at.x_mm) as i128;
        let dy: i128 = (y - at.y_mm) as i128;
        proof {
            lemma_product_bound(dx as int, dx as int, 0x1_0000_0000, 0x1_0000_0000);
            lemma_product_bound(dy as int, dy as int, 0x1_0000_0000, 0x1_0000_0000);
            assert(dx * dx >= 0 && dy * dy >= 0) by (nonlinear_arith);
        }
        let away_sq: i128 = dx * dx + dy * dy;
        let away: u64 = isqrt(away_sq as u128);
        proof {
            assert(away <= 0x2_0000_0000) by (nonlinear_arith)
                requires
                    away * away <= away_sq,
                    away_sq <= 2 * 0x1_0000_0000_0000_0000,
                    away >= 0,
            ;
        }
        let error: i128 = away as i128 - at.distance_mm as i128;
        proof {
            lemma_product_bound(error as int, error as int, 0x2_0000_0000, 0x2_0000_0000);
            assert(error * error >= 0) by (nonlinear_arith);
        }
        sum = sum + (error * error) as u128;
        i += 1;
    }
    let mean: u128 = sum / (ranges.len() as u128);
    let rms: u64 = isqrt(mean);
    rms
}

/// Solves for the position that the anchors fix. Fewer than three anchors
/// are too few; anchors whose normal equations have a determinant of less
/// than a millionth, or whose solution lies beyond the far limit, are
/// ill-conditioned; any others fix a point, which is returned with the
/// root mean square of its distance errors.
pub fn multilaterate(ranges: &Vec<Range>) -> (solution: Solution)
    requires
        spec_in_limits(ranges@),
    ensures
        solution == spec_solve(ranges@),
{
    if ranges.len() < MIN_ANCHORS {
        return Solution::InsufficientAnchors;
    }
    let nearest = nearest_sq(ranges);
    let sums = normal_sums(ranges, nearest);
    match solve_normal(&sums, nearest) {
        None => Solution::IllConditioned,
        Some((dx, dy)) => {
            let x: i64 = ranges[0].x_mm + dx;
            let y: i64 = ranges[0].y_mm + dy;
            Solution::Fix { x_mm: x, y_mm: y, residual_mm: residual(ranges, x, y) }
        },
    }
}

/// Whether anchors are within what the arithmetic can hold.
pub fn in_limits(ranges: &Vec<Range>) -> (ok: bool)
    ensures
        ok == spec_in_limits(ranges@),
{
    if ranges.len() > MAX_ANCHORS {
        return false;
    }
    let mut i: usize = 0;
    while i < ranges.len()
        invariant
            i <= ranges@.len() <= MAX_ANCHORS,
            forall|k: int|
                0 <= k < i ==> {
                    &&& -COORD_LIMIT_MM <= (#[trigger] ranges@[k]).x_mm <= COORD_LIMIT_MM
                    &&& -COORD_LIMIT_MM <= ranges@[k].y_mm <= COORD_LIMIT_MM
                    &&& 1 <= ranges@[k].distance_mm <= RANGE_LIMIT_MM
                },
        decreases ranges@.len() - i,
    {
        let at = ranges[i];
        if at.x_mm < -COORD_LIMIT_MM || at.x_mm > COORD_LIMIT_MM || at.y_mm < -COORD_LIMIT_MM
            || at.y_mm > COORD_LIMIT_MM || at.distance_mm < 1 || at.distance_mm > RANGE_LIMIT_MM {
            return false;
        }
        i += 1;
    }
    true
}

/// The same anchors, each moved by `(tx, ty)`.
pub open spec fn spec_shift(ranges: Seq<Range>, tx: int, ty: int) -> Seq<Range> {
    Seq::new(
        ranges.len(),
        |i: int|
            Range {
                x_mm: (ranges[i].x_mm + tx) as i64,
                y_mm: (ranges[i].y_mm + ty) as i64,
                distance_mm: ranges[i].distance_mm,
            },
    )
}

/// Whether the anchors moved by `(tx, ty)` still stand within the limits.
pub open spec fn spec_shift_fits(ranges: Seq<Range>, tx: int, ty: int) -> bool {
    forall|i: int|
        0 <= i < ranges.len() ==> {
            &&& -COORD_LIMIT_MM <= (#[trigger] ranges[i]).x_mm + tx <= COORD_LIMIT_MM
            &&& -COORD_LIMIT_MM <= ranges[i].y_mm + ty <= COORD_LIMIT_MM
        }
}

/// The same solution, its point moved by `(tx, ty)`.
pub open spec fn spec_shift_solution(solution: Solution, tx: int, ty: int) -> Solution {
    match solution {
        Solution::Fix { x_mm, y_mm, residual_mm } => Solution::Fix {
            x_mm: (x_mm + tx) as i64,
            y_mm: (y_mm + ty) as i64,
            residual_mm,
        },
        other => other,
    }
}

proof fn lemma_shift_keeps_equations(ranges: Seq<Range>, tx: int, ty: int, nearest_sq: int, n: int)
    requires
        spec_in_limits(ranges),
        spec_shift_fits(ranges, tx, ty),
        1 <= n <= ranges.len(),
    ensures
        spec_sums(spec_shift(ranges, tx, ty), nearest_sq, n) == spec_sums(ranges, nearest_sq, n),
        n >= 2 ==> spec_nearest_sq(spec_shift(ranges, tx, ty), n) == spec_nearest_sq(ranges, n),
    decreases n,
{
    let moved = spec_shift(ranges, tx, ty);
    assert(-COORD_LIMIT_MM <= ranges[0].x_mm + tx <= COORD_LIMIT_MM);
    assert(-COORD_LIMIT_MM <= ranges[n - 1].x_mm + tx <= COORD_LIMIT_MM);
    assert(moved[0].x_mm == ranges[0].x_mm + tx && moved[0].y_mm == ranges[0].y_mm + ty);
    if n > 1 {
        lemma_shift_keeps_equations(ranges, tx, ty, nearest_sq, n - 1);
        assert(moved[n - 1].x_mm == ranges[n - 1].x_mm + tx);
        assert(moved[n - 1].y_mm == ranges[n - 1].y_mm + ty);
        assert(moved[1].distance_mm == ranges[1].distance_mm);
        assert(spec_u(moved, n - 1) == spec_u(ranges, n - 1));
        assert(spec_v(moved, n - 1) == spec_v(ranges, n - 1));
        assert(spec_c(moved, n - 1) == spec_c(ranges, n - 1));
    }
}

proof fn lemma_shift_keeps_errors(ranges: Seq<Range>, tx: int, ty: int, x: int, y: int, n: int)
    requires
        spec_in_limits(ranges),
        spec_shift_fits(ranges, tx, ty),
        0 <= n <= ranges.len(),
    ensures
        spec_error_sq_sum(spec_shift(ranges, tx, ty), x + tx, y + ty, n) == spec_error_sq_sum(
            ranges,
            x,
            y,
            n,
        ),
    decreases n,
{
    if n > 0 {
        let moved = spec_shift(ranges, tx, ty);
        assert(-COORD_LIMIT_MM <= ranges[n - 1].x_mm + tx <= COORD_LIMIT_MM);
        lemma_shift_keeps_errors(ranges, tx, ty, x, y, n - 1);
        assert(moved[n - 1].x_mm == ranges[n - 1].x_mm + tx);
        assert(moved[n - 1].y_mm == ranges[n - 1].y_mm + ty);
        assert(x + tx - moved[n - 1].x_mm == x - ranges[n - 1].x_mm);
        assert(y + ty - moved[n - 1].y_mm == y - ranges[n - 1].y_mm);
    }
}

/// Moving all anchors by one vector moves the solution by that vector, and
/// changes nothing else: the same anchors are too few or on one line, and
/// a fix has the same residual.
pub proof fn lemma_shift(ranges: Seq<Range>, tx: int, ty: int)
    requires
        spec_in_limits(ranges),
        spec_shift_fits(ranges, tx, ty),
    ensures
        spec_in_limits(spec_shift(ranges, tx, ty)),
        spec_solve(spec_shift(ranges, tx, ty)) == spec_shift_solution(spec_solve(ranges), tx, ty),
{
    let moved = spec_shift(ranges, tx, ty);
    let n = ranges.len() as int;
    assert forall|i: int| 0 <= i < moved.len() implies {
        &&& -COORD_LIMIT_MM <= (#[trigger] moved[i]).x_mm <= COORD_LIMIT_MM
        &&& -COORD_LIMIT_MM <= moved[i].y_mm <= COORD_LIMIT_MM
        &&& 1 <= moved[i].distance_mm <= RANGE_LIMIT_MM
    } by {
        assert(-COORD_LIMIT_MM <= ranges[i].x_mm + tx <= COORD_LIMIT_MM);
    }
    if n >= 3 {
        assert(-COORD_LIMIT_MM <= ranges[0].x_mm + tx <= COORD_LIMIT_MM);
        let nearest_sq = spec_nearest_sq(ranges, n);
        lemma_shift_keeps_equations(ranges, tx, ty, nearest_sq, n);
        let sums = spec_sums(ranges, nearest_sq, n);
        assert(moved[0].x_mm == ranges[0].x_mm + tx && moved[0].y_mm == ranges[0].y_mm + ty);
        match spec_offset(sums, nearest_sq) {
            None => {},
            Some((x, y)) => {
                lemma_shift_keeps_errors(ranges, tx, ty, ranges[0].x_mm + x, ranges[0].y_mm + y, n);
                assert(moved[0].x_mm + x == ranges[0].x_mm + x + tx);
                assert(moved[0].y_mm + y == ranges[0].y_mm + y + ty);
            },
        }
    }
}

/// Whether every anchor's distance is its true distance from `(px, py)`.
pub open spec fn spec_exact(ranges: Seq<Range>, px: int, py: int) -> bool {
    forall|i: int|
        0 <= i < ranges.len() ==> spec_sq((#[trigger] ranges[i]).distance_mm as int) == spec_sq(
            px - ranges[i].x_mm,
        ) + spec_sq(py - ranges[i].y_mm)
}

proof fn lemma_exact_sums(ranges: Seq<Range>, px: int, py: int, nearest_sq: int, n: int)
    requires
        spec_exact(ranges, px, py),
        1 <= n <= ranges.len(),
    ensures
        ({
            let s = spec_sums(ranges, nearest_sq, n);
            let x = px - ranges[0].x_mm;
            let y = py - ranges[0].y_mm;
            &&& s.uc == 2 * x * s.uu + 2 * y * s.uv
            &&& s.vc == 2 * x * s.uv + 2 * y * s.vv
        }),
    decreases n,
{
    if n <= 1 {
        let x = px - ranges[0].x_mm;
        let y = py - ranges[0].y_mm;
        assert(0 == 2 * x * 0 + 2 * y * 0) by (nonlinear_arith);
    } else {
        lemma_exact_sums(ranges, px, py, nearest_sq, n - 1);
        let s = spec_sums(ranges, nearest_sq, n - 1);
        let t = spec_sums(ranges, nearest_sq, n);
        let w = spec_weight(ranges[n - 1].distance_mm as int, nearest_sq);
        let u = spec_u(ranges, n - 1);
        let v = spec_v(ranges, n - 1);
        let c = spec_c(ranges, n - 1);
        let x = px - ranges[0].x_mm;
        let y = py - ranges[0].y_mm;
        let di = spec_sq(ranges[n - 1].distance_mm as int);
        let d0 = spec_sq(ranges[0].distance_mm as int);
        assert(di == spec_sq(px - ranges[n - 1].x_mm) + spec_sq(py - ranges[n - 1].y_mm));
        assert(d0 == spec_sq(px - ranges[0].x_mm) + spec_sq(py - ranges[0].y_mm));
        assert(px - ranges[n - 1].x_mm == x - u);
        assert(py - ranges[n - 1].y_mm == y - v);
        assert(c == 2 * u * x + 2 * v * y) by (nonlinear_arith)
            requires
                c == u * u + v * v - di + d0,
                di == (x - u) * (x - u) + (y - v) * (y - v),
                d0 == x * x + y * y,
        ;
        let wu = w * u;
        let wv = w * v;
        assert(wu * c == 2 * x * (wu * u) + 2 * y * (wu * v)) by (nonlinear_arith)
            requires
                c == 2 * u * x + 2 * v * y,
        ;
        assert(wv * c == 2 * x * (wv * u) + 2 * y * (wv * v)) by (nonlinear_arith)
            requires
                c == 2 * u * x + 2 * v * y,
        ;
        assert(wv * u == wu * v) by (nonlinear_arith)
            requires
                wu == w * u,
                wv == w * v,
        ;
        assert(t.uc == 2 * x * t.uu + 2 * y * t.uv) by (nonlinear_arith)
            requires
                s.uc == 2 * x * s.uu + 2 * y * s.uv,
                wu * c == 2 * x * (wu * u) + 2 * y * (wu * v),
                t.uc == s.uc + wu * c,
                t.uu == s.uu + wu * u,
                t.uv == s.uv + wu * v,
        ;
        assert(t.vc == 2 * x * t.uv + 2 * y * t.vv) by (nonlinear_arith)
            requires
                s.vc == 2 * x * s.uv + 2 * y * s.vv,
                wv * c == 2 * x * (wu * v) + 2 * y * (wv * v),
                t.vc == s.vc + wv * c,
                t.vv == s.vv + wv * v,
                t.uv == s.uv + wu * v,
        ;
    }
}

proof fn lemma_exact_errors(ranges: Seq<Range>, px: int, py: int, n: int)
    requires
        spec_exact(ranges, px, py),
        0 <= n <= ranges.len(),
    ensures
        spec_error_sq_sum(ranges, px, py, n) == 0,
    decreases n,
{
    if n > 0 {
        lemma_exact_errors(ranges, px, py, n - 1);
        let d = ranges[n - 1].distance_mm as int;
        assert(spec_is_isqrt(d * d, d)) by (nonlinear_arith)
            requires
                d >= 0,
        ;
        lemma_isqrt_is(d * d, d);
    }
}

proof fn lemma_spread(c: int, x: int, a: int, y: int, b: int)
    ensures
        c * (2 * x * a + 2 * y * b) == 2 * x * (c * a) + 2 * y * (c * b),
{
    assert(c * (2 * x * a + 2 * y * b) == 2 * x * (c * a) + 2 * y * (c * b)) by (nonlinear_arith);
}

proof fn lemma_swap_inner(a: int, b: int, c: int, d: int)
    ensures
        (a * b) * (c * d) == (a * c) * (b * d),
{
    assert((a * b) * (c * d) == (a * c) * (b * d)) by (nonlinear_arith);
}

proof fn lemma_floor_div_multiple(x: int, d: int)
    requires
        d != 0,
    ensures
        spec_floor_div(x * d, d) == x,
{
    if d > 0 {
        lemma_div_multiples_vanish(x, d);
        assert(x * d == d * x) by (nonlinear_arith);
    } else {
        lemma_div_multiples_vanish(x, -d);
        assert(-(x * d) == (-d) * x) by (nonlinear_arith);
    }
}

/// Where every anchor's distance is its true distance from one point, and
/// the normal equations are not ill-conditioned, that point is the fix,
/// and its residual is zero.
pub proof fn lemma_exact(ranges: Seq<Range>, px: int, py: int)
    requires
        ranges.len() >= MIN_ANCHORS,
        spec_in_limits(ranges),
        spec_exact(ranges, px, py),
        -FAR_LIMIT_MM <= px - ranges[0].x_mm <= FAR_LIMIT_MM,
        -FAR_LIMIT_MM <= py - ranges[0].y_mm <= FAR_LIMIT_MM,
        !spec_ill_conditioned(
            spec_sums(ranges, spec_nearest_sq(ranges, ranges.len() as int), ranges.len() as int),
            spec_nearest_sq(ranges, ranges.len() as int),
        ),
    ensures
        spec_solve(ranges) == (Solution::Fix { x_mm: px as i64, y_mm: py as i64, residual_mm: 0 }),
{
    let n = ranges.len() as int;
    let nearest_sq = spec_nearest_sq(ranges, n);
    let s = spec_sums(ranges, nearest_sq, n);
    let x = px - ranges[0].x_mm;
    let y = py - ranges[0].y_mm;
    let det = spec_det(s);
    lemma_nearest_sq(ranges, n, 1);
    let scale = WEIGHT_SCALE * nearest_sq;
    assert(spec_sq(scale) > 0) by (nonlinear_arith)
        requires
            scale >= 1024,
    ;
    assert(det != 0) by {
        if det == 0 {
            assert(16 * EPSILON_INVERSE * 0 == 0);
            assert(spec_ill_conditioned(s, nearest_sq));
        }
    }
    lemma_exact_sums(ranges, px, py, nearest_sq, n);
    lemma_spread(s.vv, x, s.uu, y, s.uv);
    lemma_spread(s.uv, x, s.uv, y, s.vv);
    lemma_spread(s.uu, x, s.uv, y, s.vv);
    lemma_spread(s.uv, x, s.uu, y, s.uv);
    assert(s.vv * s.uu == s.uu * s.vv && s.vv * s.uv == s.uv * s.vv) by (nonlinear_arith);
    assert(x * (2 * det) == 2 * x * (s.uu * s.vv) - 2 * x * (s.uv * s.uv)
        && y * (2 * det) == 2 * y * (s.uu * s.vv) - 2 * y * (s.uv * s.uv)) by (nonlinear_arith)
        requires
            det == s.uu * s.vv - s.uv * s.uv,
    ;
    assert(s.vv * s.uc - s.uv * s.vc == x * (2 * det));
    assert(s.uu * s.vc - s.uv * s.uc == y * (2 * det));
    lemma_floor_div_multiple(x, 2 * det);
    lemma_floor_div_multiple(y, 2 * det);
    lemma_exact_errors(ranges, px, py, n);
    assert(spec_is_isqrt(0, 0));
    lemma_isqrt_is(0, 0);
    assert(ranges[0].x_mm + x == px && ranges[0].y_mm + y == py);
}

/// The determinant of three anchors is the product of the two weights and
/// the square of the cross product of the two offsets from the first
/// anchor. So three anchors on one line have a determinant of zero, and any
/// others have one that grows with the square of the area they span.
pub proof fn lemma_triple_det(ranges: Seq<Range>)
    requires
        ranges.len() == 3,
        spec_in_limits(ranges),
    ensures
        ({
            let nearest_sq = spec_nearest_sq(ranges, 3);
            let cross = spec_u(ranges, 1) * spec_v(ranges, 2) - spec_u(ranges, 2) * spec_v(
                ranges,
                1,
            );
            let w1 = spec_weight(ranges[1].distance_mm as int, nearest_sq);
            let w2 = spec_weight(ranges[2].distance_mm as int, nearest_sq);
            &&& 1 <= w1 <= WEIGHT_SCALE
            &&& 1 <= w2 <= WEIGHT_SCALE
            &&& spec_det(spec_sums(ranges, nearest_sq, 3)) == (w1 * w2) * (cross * cross)
        }),
{
    let nearest_sq = spec_nearest_sq(ranges, 3);
    let s1 = spec_sums(ranges, nearest_sq, 1);
    let s2 = spec_sums(ranges, nearest_sq, 2);
    let s = spec_sums(ranges, nearest_sq, 3);
    let w1 = spec_weight(ranges[1].distance_mm as int, nearest_sq);
    let w2 = spec_weight(ranges[2].distance_mm as int, nearest_sq);
    let u1 = spec_u(ranges, 1);
    let v1 = spec_v(ranges, 1);
    let u2 = spec_u(ranges, 2);
    let v2 = spec_v(ranges, 2);
    lemma_nearest_sq(ranges, 3, 1);
    lemma_nearest_sq(ranges, 3, 2);
    lemma_weight_bounds(ranges[1].distance_mm as int, nearest_sq);
    lemma_weight_bounds(ranges[2].distance_mm as int, nearest_sq);
    assert(s1 == (Sums { uu: 0, uv: 0, vv: 0, uc: 0, vc: 0 }));
    assert(s2.uu == s1.uu + w1 * u1 * u1 && s2.uv == s1.uv + w1 * u1 * v1 && s2.vv == s1.vv + w1
        * v1 * v1);
    assert(s.uu == s2.uu + w2 * u2 * u2 && s.uv == s2.uv + w2 * u2 * v2 && s.vv == s2.vv + w2
        * v2 * v2);
    let cross = u1 * v2 - u2 * v1;
    let p = u1 * u1;
    let q = u1 * v1;
    let r = v1 * v1;
    let e = u2 * u2;
    let f = u2 * v2;
    let g = v2 * v2;
    assert(w1 * u1 * u1 == w1 * p && w1 * u1 * v1 == w1 * q && w1 * v1 * v1 == w1 * r)
        by (nonlinear_arith)
        requires
            p == u1 * u1,
            q == u1 * v1,
            r == v1 * v1,
    ;
    assert(w2 * u2 * u2 == w2 * e && w2 * u2 * v2 == w2 * f && w2 * v2 * v2 == w2 * g)
        by (nonlinear_arith)
        requires
            e == u2 * u2,
            f == u2 * v2,
            g == v2 * v2,
    ;
    let m = u1 * v2;
    let n = u2 * v1;
    lemma_swap_inner(u1, u1, v1, v1);
    lemma_swap_inner(u2, u2, v2, v2);
    lemma_swap_inner(u1, u1, v2, v2);
    lemma_swap_inner(u2, u2, v1, v1);
    lemma_swap_inner(u1, v1, v2, u2);
    assert(v2 * u2 == u2 * v2 && v1 * u2 == u2 * v1) by (nonlinear_arith);
    assert(p * r == q * q && e * g == f * f);
    assert(p * g == m * m && e * r == n * n && q * f == m * n);
    assert(cross * cross == m * m - 2 * (m * n) + n * n) by (nonlinear_arith)
        requires
            cross == m - n,
    ;
    let ww = w1 * w2;
    let a = w1 * p;
    let b = w2 * e;
    let c = w1 * r;
    let d = w2 * g;
    let h = w1 * q;
    let k = w2 * f;
    lemma_swap_inner(w1, p, w1, r);
    lemma_swap_inner(w1, q, w1, q);
    lemma_swap_inner(w2, e, w2, g);
    lemma_swap_inner(w2, f, w2, f);
    lemma_swap_inner(w1, p, w2, g);
    lemma_swap_inner(w2, e, w1, r);
    lemma_swap_inner(w1, q, w2, f);
    assert(w2 * w1 == w1 * w2) by (nonlinear_arith);
    assert(a * c == h * h && b * d == k * k);
    assert(a * d == ww * (m * m) && b * c == ww * (n * n) && h * k == ww * (m * n));
    assert((a + b) * (c + d) - (h + k) * (h + k) == a * c + a * d + b * c + b * d - h * h - 2 * (h
        * k) - k * k) by (nonlinear_arith);
    assert(ww * (cross * cross) == ww * (m * m) - 2 * (ww * (m * n)) + ww * (n * n))
        by (nonlinear_arith)
        requires
            cross * cross == m * m - 2 * (m * n) + n * n,
    ;
    assert(spec_det(s) == (a + b) * (c + d) - (h + k) * (h + k));
    assert(spec_det(s) == ww * (cross * cross));
}

/// Whether all anchors lie on one line through the first, along the
/// direction `(a, b)`.
pub open spec fn spec_on_one_line(ranges: Seq<Range>, a: int, b: int) -> bool {
    &&& a != 0 || b != 0
    &&& forall|i: int|
        1 <= i < ranges.len() ==> #[trigger] spec_u(ranges, i) * b == spec_v(ranges, i) * a
}

proof fn lemma_line_sums(ranges: Seq<Range>, a: int, b: int, nearest_sq: int, n: int)
    requires
        spec_on_one_line(ranges, a, b),
        1 <= n <= ranges.len(),
    ensures
        ({
            let s = spec_sums(ranges, nearest_sq, n);
            &&& s.uu * b == a * s.uv
            &&& s.uv * b == a * s.vv
        }),
    decreases n,
{
    if n <= 1 {
        assert(0 * b == a * 0) by (nonlinear_arith);
    } else {
        lemma_line_sums(ranges, a, b, nearest_sq, n - 1);
        let s = spec_sums(ranges, nearest_sq, n - 1);
        let t = spec_sums(ranges, nearest_sq, n);
        let w = spec_weight(ranges[n - 1].distance_mm as int, nearest_sq);
        let u = spec_u(ranges, n - 1);
        let v = spec_v(ranges, n - 1);
        let wu = w * u;
        let wv = w * v;
        assert(u * b == v * a);
        assert((wu * u) * b == a * (wu * v)) by (nonlinear_arith)
            requires
                u * b == v * a,
        ;
        assert((wu * v) * b == a * (wv * v)) by (nonlinear_arith)
            requires
                u * b == v * a,
                wu == w * u,
                wv == w * v,
        ;
        assert(t.uu * b == a * t.uv) by (nonlinear_arith)
            requires
                t.uu == s.uu + wu * u,
                t.uv == s.uv + wu * v,
                s.uu * b == a * s.uv,
                (wu * u) * b == a * (wu * v),
        ;
        assert(t.uv * b == a * t.vv) by (nonlinear_arith)
            requires
                t.uv == s.uv + wu * v,
                t.vv == s.vv + wv * v,
                s.uv * b == a * s.vv,
                (wu * v) * b == a * (wv * v),
        ;
    }
}

/// Three or more anchors on one line fix no point: they are
/// ill-conditioned.
pub proof fn lemma_collinear(ranges: Seq<Range>, a: int, b: int)
    requires
        ranges.len() >= MIN_ANCHORS,
        spec_on_one_line(ranges, a, b),
    ensures
        spec_solve(ranges) == Solution::IllConditioned,
{
    let n = ranges.len() as int;
    let nearest_sq = spec_nearest_sq(ranges, n);
    let s = spec_sums(ranges, nearest_sq, n);
    let det = spec_det(s);
    lemma_line_sums(ranges, a, b, nearest_sq, n);
    let p = s.uu * b;
    let q = s.uv * b;
    let r = s.vv * b;
    let e = s.uu * a;
    let f = s.uv * a;
    let g = s.vv * a;
    assert(a * s.uv == f && a * s.vv == g) by (nonlinear_arith)
        requires
            f == s.uv * a,
            g == s.vv * a,
    ;
    assert(det * (b * b) == p * r - q * q) by (nonlinear_arith)
        requires
            det == s.uu * s.vv - s.uv * s.uv,
            p == s.uu * b,
            q == s.uv * b,
            r == s.vv * b,
    ;
    assert(det * (a * a) == e * g - f * f) by (nonlinear_arith)
        requires
            det == s.uu * s.vv - s.uv * s.uv,
            e == s.uu * a,
            f == s.uv * a,
            g == s.vv * a,
    ;
    assert(p * r == g * g) by (nonlinear_arith)
        requires
            p == f,
            q == g,
            r == s.vv * b,
            f == s.uv * a,
            q == s.uv * b,
            g == s.vv * a,
    ;
    assert(e * g == p * p) by (nonlinear_arith)
        requires
            p == f,
            q == g,
            e == s.uu * a,
            p == s.uu * b,
            q == s.uv * b,
            f == s.uv * a,
    ;
    assert(det * (a * a + b * b) == 0) by (nonlinear_arith)
        requires
            det * (b * b) == p * r - q * q,
            det * (a * a) == e * g - f * f,
            p * r == g * g,
            e * g == p * p,
            q == g,
            p == f,
    ;
    assert(det == 0) by (nonlinear_arith)
        requires
            det * (a * a + b * b) == 0,
            a != 0 || b != 0,
    ;
}

} // verus!
