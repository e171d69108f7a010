//! Fixed-point geographic primitives: coordinates in decimicro-degrees, a
//! fixed-point cosine, an integer square root, and the (deliberately
//! asymmetric) equirectangular distance metric between nodes.

use vstd::prelude::*;

verus! {

/// Decimicro-degrees per degree: coordinates are stored as `degrees * 1e7`.
pub const DMD_PER_DEG: i64 = 10_000_000;

/// 180 degrees in decimicro-degrees.
pub const DMD_180: i64 = 1_800_000_000;

/// 90 degrees in decimicro-degrees.
pub const DMD_90: i64 = 900_000_000;

/// Fixed-point unit for cosine values: `cos_dmd` returns `cos(lat) * COS_ONE`.
pub const COS_ONE: i64 = 1_000_000;

/// Denominator constant of the sine approximation, scaled to decimicro-degrees:
/// `40500 * (1e7)^2`.
pub const COS_DEN: i64 = 4_050_000_000_000_000_000;

/// A graph node: a geographic position in decimicro-degrees.
#[derive(Clone, Copy, PartialEq, Eq, Structural, Debug)]
pub struct Node {
    pub lat: i32,
    pub long: i32,
}

/// A geographic coordinate in decimicro-degrees. Wider than `Node` so that
/// coordinates computed from screen positions may lie outside the world range.
#[derive(Clone, Copy, PartialEq, Eq, Structural, Debug)]
pub struct GeoCoord {
    pub long: i64,
    pub lat: i64,
}

/// The fixed-point cosine of a latitude given in decimicro-degrees, scaled by
/// `COS_ONE`. Uses the rational sine approximation
/// `sin(x deg) ~= 4 x (180 - x) / (40500 - x (180 - x))` applied to
/// `90 - |lat|`; latitudes at or beyond 90 degrees yield 0.
pub open spec fn cos_dmd_spec(lat: int) -> int {
    let a = if lat < 0 { -lat } else { lat };
    let y = if a >= DMD_90 { 0int } else { DMD_90 - a };
    let p = y * (DMD_180 - y);
    (4 * COS_ONE * p) / (COS_DEN - p)
}

/// Computes `cos_dmd_spec` exactly in machine integers.
pub fn cos_dmd(lat: i64) -> (c: i64)
    requires
        lat > i64::MIN,
    ensures
        c == cos_dmd_spec(lat as int),
        0 <= c <= COS_ONE,
{
    let a: i64 = if lat < 0 { -lat } else { lat };
    let y: i64 = if a >= DMD_90 { 0 } else { DMD_90 - a };
    proof {
        assert(0 <= y <= DMD_90);
        assert(0 <= y * (DMD_180 - y) <= 810_000_000_000_000_000) by (nonlinear_arith)
            requires 0 <= y <= 900_000_000;
    }
    let p: i128 = (y as i128) * ((DMD_180 - y) as i128);
    let num: u128 = 4 * (COS_ONE as u128) * (p as u128);
    let den: u128 = (COS_DEN as u128) - (p as u128);
    proof {
        // The ratio never exceeds COS_ONE: 4 p <= COS_DEN - p, with equality at
        // the equator, because p <= COS_DEN / 5.
        assert(num <= COS_ONE * den) by (nonlinear_arith)
            requires
                0 <= p <= 810_000_000_000_000_000,
                num == 4 * COS_ONE * p,
                den == COS_DEN - p,
                COS_ONE == 1_000_000,
                COS_DEN == 4_050_000_000_000_000_000;
        assert(num / den <= COS_ONE) by (nonlinear_arith)
            requires num <= COS_ONE * den && den > 0 && COS_ONE == 1_000_000;
    }
    let c: i64 = (num / den) as i64;
    c
}

/// Latitudes no farther than 89 degrees from the equator have a fixed-point
/// cosine of at least 17000 (cos of 89 degrees is a little under 0.0178).
pub proof fn lemma_cos_dmd_pos(lat: int)
    requires
        -890_000_000 <= lat <= 890_000_000,
    ensures
        cos_dmd_spec(lat) >= 17_000,
{
    let a = if lat < 0 { -lat } else { lat };
    let y = DMD_90 - a;
    let p = y * (DMD_180 - y);
    assert(10_000_000 <= y <= 900_000_000);
    // The product grows with y up to the equator, so it is smallest at the
    // 89-degree edge of the admitted band.
    assert(p >= 17_900_000_000_000_000) by (nonlinear_arith)
        requires 10_000_000 <= y <= 900_000_000 && p == y * (1_800_000_000 - y);
    assert(p <= 810_000_000_000_000_000) by (nonlinear_arith)
        requires 0 <= y <= 900_000_000 && p == y * (1_800_000_000 - y);
    let num = 4 * COS_ONE * p;
    let den = COS_DEN - p;
    assert(num >= 17_000 * den) by (nonlinear_arith)
        requires
            p >= 17_900_000_000_000_000,
            num == 4 * 1_000_000 * p,
            den == 4_050_000_000_000_000_000 - p;
    assert(num / den >= 17_000) by (nonlinear_arith)
        requires num >= 17_000 * den && den > 0;
}

/// Bounds the magnitude of a truncating quotient: if `|a| <= amax` and the
/// divisor is at least `bmin`, any `qmax` with `qmax * bmin >= amax` bounds
/// the quotient.
pub proof fn lemma_tdiv_mag(a: int, b: int, amax: int, bmin: int, qmax: int)
    requires
        1 <= bmin <= b,
        -amax <= a <= amax,
        0 <= qmax,
        qmax * bmin >= amax,
    ensures
        -qmax <= tdiv(a, b) <= qmax,
{
    let m = if a >= 0 { a } else { -a };
    let q = m / b;
    vstd::arithmetic::div_mod::lemma_fundamental_div_mod(m, b);
    vstd::arithmetic::div_mod::lemma_mod_pos_bound(m, b);
    assert(q >= 0) by (nonlinear_arith)
        requires m >= 0 && b > 0 && q == m / b;
    assert(b * q <= m);
    assert(q <= qmax) by (nonlinear_arith)
        requires
            b * q <= m,
            m <= amax,
            qmax * bmin >= amax,
            1 <= bmin <= b,
            q >= 0,
            qmax >= 0;
}

/// `r` is the integer square root of `n`.
pub open spec fn is_isqrt(n: int, r: int) -> bool {
    r >= 0 && r * r <= n && n < (r + 1) * (r + 1)
}

/// Upper bound accepted by `isqrt`: `2^126`.
pub const ISQRT_MAX: u128 = 85_070_591_730_234_615_865_843_651_857_942_052_864;

/// Half the bisection range of `isqrt`: `2^63`.
pub const ISQRT_HI: u64 = 9_223_372_036_854_775_808;

/// The integer square root by bisection.
pub fn isqrt(n: u128) -> (r: u64)
    requires
        n < ISQRT_MAX,
    ensures
        is_isqrt(n as int, r as int),
{
    let mut lo: u64 = 0;
    let mut hi: u64 = ISQRT_HI;
    proof {
        assert((ISQRT_HI as int) * (ISQRT_HI as int) == ISQRT_MAX as int) by (nonlinear_arith);
    }
    while hi - lo > 1
        invariant
            lo < hi,
            hi <= ISQRT_HI,
            (lo as int) * (lo as int) <= n as int,
            (n as int) < (hi as int) * (hi as int),
        decreases hi - lo,
    {
        let mid: u64 = lo + (hi - lo) / 2;
        proof {
            assert(mid as int * mid as int <= ISQRT_MAX as int) by (nonlinear_arith)
                requires 0 <= mid <= ISQRT_HI && ISQRT_HI as int * ISQRT_HI as int == ISQRT_MAX as int;
            assert((ISQRT_HI as int) * (ISQRT_HI as int) == ISQRT_MAX as int) by (nonlinear_arith);
        }
        let sq: u128 = (mid as u128) * (mid as u128);
        if sq <= n {
            lo = mid;
        } else {
            hi = mid;
        }
    }
    proof {
        assert(hi == lo + 1);
    }
    lo
}

/// The geographic coordinate of a node, in decimicro-degrees.
pub open spec fn node_coord(n: Node) -> GeoCoord {
    GeoCoord { long: n.long as i64, lat: n.lat as i64 }
}

/// Converts a node position into a `GeoCoord`.
pub fn node_to_geocoord(node: &Node) -> (c: GeoCoord)
    ensures
        c == node_coord(*node),
{
    GeoCoord { long: node.long as i64, lat: node.lat as i64 }
}

/// The squared distance between two nodes under the equirectangular
/// approximation, in squared sub-decimicro-degree units (`COS_ONE` subunits per
/// decimicro-degree). The longitude difference is scaled by the cosine of the
/// *destination* node's latitude; the metric is therefore not symmetric for
/// nodes at different latitudes. That asymmetry is part of the metric's
/// definition and is kept as is.
pub open spec fn dist2_spec(n1: Node, n2: Node) -> int {
    let c = cos_dmd_spec(n2.lat as int);
    let sl = (n2.long - n1.long) * c;
    let st = (n2.lat - n1.lat) * COS_ONE;
    sl * sl + st * st
}

/// The straight-line approximate distance from `n1` to `n2`: the integer
/// square root of `dist2_spec`, in `COS_ONE` subunits per decimicro-degree
/// (a whole degree of latitude measures `DMD_PER_DEG * COS_ONE`).
pub fn distance(n1: &Node, n2: &Node) -> (r: u64)
    ensures
        is_isqrt(dist2_spec(*n1, *n2), r as int),
{
    let dlong: i64 = (n2.long as i64) - (n1.long as i64);
    let dlat: i64 = (n2.lat as i64) - (n1.lat as i64);
    let c: i64 = cos_dmd(n2.lat as i64);
    proof {
        assert(-4_294_967_296_000_000i128 <= dlong as i128 * c as i128
            <= 4_294_967_296_000_000i128) by (nonlinear_arith)
            requires -4_294_967_296 <= dlong <= 4_294_967_296 && 0 <= c <= 1_000_000;
        assert(-4_294_967_296_000_000i128 <= dlat as i128 * 1_000_000i128
            <= 4_294_967_296_000_000i128) by (nonlinear_arith)
            requires -4_294_967_296 <= dlat <= 4_294_967_296;
    }
    let sl: i128 = (dlong as i128) * (c as i128);
    let st: i128 = (dlat as i128) * (COS_ONE as i128);
    proof {
        assert(0 <= sl * sl <= 18_446_744_073_709_551_616_000_000_000_000i128)
            by (nonlinear_arith)
            requires -4_294_967_296_000_000 <= sl <= 4_294_967_296_000_000;
        assert(0 <= st * st <= 18_446_744_073_709_551_616_000_000_000_000i128)
            by (nonlinear_arith)
            requires -4_294_967_296_000_000 <= st <= 4_294_967_296_000_000;
    }
    let d2: u128 = ((sl * sl) as u128) + ((st * st) as u128);
    isqrt(d2)
}

/// Truncating division (rounding toward zero) of `a` by a positive `b`,
/// as machine division behaves on signed integers.
pub open spec fn tdiv(a: int, b: int) -> int {
    if a >= 0 {
        a / b
    } else {
        -((-a) / b)
    }
}

/// Computes `tdiv` on 128-bit integers via unsigned division of magnitudes.
pub fn tdiv128(a: i128, b: i128) -> (q: i128)
    requires
        a > i128::MIN,
        b > 0,
    ensures
        q == tdiv(a as int, b as int),
{
    if a >= 0 {
        let q: u128 = (a as u128) / (b as u128);
        proof {
            assert(a as int / b as int <= a as int) by (nonlinear_arith)
                requires a >= 0 && b > 0;
        }
        q as i128
    } else {
        let m: i128 = -a;
        let q: u128 = (m as u128) / (b as u128);
        proof {
            assert(m as int / b as int <= m as int) by (nonlinear_arith)
                requires m >= 0 && b > 0;
        }
        -(q as i128)
    }
}

} // verus!
