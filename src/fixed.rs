//! Fixed-point scale and the distance falloff curve.
use vstd::prelude::*;
use vstd::arithmetic::div_mod::{lemma_div_is_ordered, lemma_div_is_ordered_by_denominator};

verus! {

/// The fixed-point representation of 1.0 used for colors, intensities,
/// brightness, falloff, cosines and attenuation factors.
pub const ONE: u64 = 65536;

/// 65504.0, the largest finite value of a 16-bit float channel, fixed-point.
pub const HDR_LIMIT: u64 = 4292870144;

/// One unit of the view's 2D space, in the sub-units that positions, radii
/// and source widths are measured in.
pub const UNIT: u16 = 16;

/// `ONE * ONE`: the scale of a product of two fixed-point values.
pub const ONE_SQUARED: u128 = 0x1_0000_0000;

/// Squared radius of a light.
pub open spec fn radius_sq(radius: int) -> int {
    radius * radius
}

/// The attenuation curve `(1 - s^2)^2 / (1 + falloff * s^2)` with
/// `s^2 = d2 / radius^2`, scaled by `ONE` and rounded down; zero at and beyond
/// the radius. `falloff` is itself scaled by `ONE`.
pub open spec fn attenuation_of(radius: int, falloff: int, d2: int) -> int {
    let r2 = radius_sq(radius);
    if d2 >= r2 {
        0
    } else {
        (ONE * ONE * ((r2 - d2) * (r2 - d2))) / (r2 * (ONE * r2 + falloff * d2))
    }
}

proof fn lemma_attenuation_bounds(r2: int, f: int, d2: int)
    requires
        0 <= d2 < r2,
        r2 < 0x1_0000_0000,
        0 <= f < 0x1_0000_0000,
    ensures
        0 <= f * d2 < 0x1_0000_0000_0000_0000,
        ONE * r2 + f * d2 < 0x2_0000_0000_0000_0000,
        0 < r2 * (ONE * r2 + f * d2),
        r2 * (ONE * r2 + f * d2) < 0x2_0000_0000_0000_0000_0000_0000,
        0 <= (r2 - d2) * (r2 - d2) < 0x1_0000_0000_0000_0000,
        0 <= ONE * ONE * ((r2 - d2) * (r2 - d2)),
        ONE * ONE * ((r2 - d2) * (r2 - d2)) < 0x1_0000_0000_0000_0000_0000_0000,
        ONE * ONE * ((r2 - d2) * (r2 - d2)) <= ONE * (r2 * (ONE * r2 + f * d2)),
{
    let q = r2 - d2;
    let s = ONE * r2 + f * d2;
    assert(0 <= f * d2 < 0x1_0000_0000_0000_0000) by (nonlinear_arith)
        requires 0 <= f < 0x1_0000_0000, 0 <= d2 < 0x1_0000_0000;
    assert(0 < s < 0x2_0000_0000_0000_0000);
    assert(0 < r2 * s < 0x2_0000_0000_0000_0000_0000_0000) by (nonlinear_arith)
        requires 0 < r2 < 0x1_0000_0000, 0 < s < 0x2_0000_0000_0000_0000;
    assert(0 < q * q < 0x1_0000_0000_0000_0000) by (nonlinear_arith)
        requires 0 < q < 0x1_0000_0000;
    assert(0 <= ONE * ONE * (q * q) < 0x1_0000_0000_0000_0000_0000_0000) by (nonlinear_arith)
        requires 0 < q * q < 0x1_0000_0000_0000_0000;
    assert(q * q <= r2 * r2) by (nonlinear_arith)
        requires 0 < q <= r2;
    assert(65536 * (r2 * r2) <= r2 * s) by (nonlinear_arith)
        requires 0 < r2, s == 65536 * r2 + f * d2, 0 <= f * d2;
    assert(ONE * ONE * (q * q) <= ONE * (r2 * s)) by (nonlinear_arith)
        requires q * q <= r2 * r2, 65536 * (r2 * r2) <= r2 * s;
}

/// The attenuation factor of a light of the given radius and falloff at
/// squared distance `d2`: `ONE` at the light's position, zero at and beyond
/// its radius.
pub fn attenuation(radius: u16, falloff: u32, d2: u128) -> (r: u64)
    ensures
        r as int == attenuation_of(radius as int, falloff as int, d2 as int),
        r <= ONE,
{
    proof {
        assert((radius as int) * (radius as int) < 0x1_0000_0000) by (nonlinear_arith)
            requires 0 <= radius < 0x10000;
    }
    let r2: u128 = (radius as u128) * (radius as u128);
    if d2 >= r2 {
        return 0;
    }
    proof {
        lemma_attenuation_bounds(r2 as int, falloff as int, d2 as int);
    }
    let q: u128 = r2 - d2;
    let num: u128 = (ONE as u128) * (ONE as u128) * (q * q);
    let den: u128 = r2 * ((ONE as u128) * r2 + (falloff as u128) * d2);
    let a: u128 = num / den;
    proof {
        let n = num as int;
        let dd = den as int;
        assert(n / dd <= ONE) by (nonlinear_arith)
            requires 0 <= n <= ONE * dd, 0 < dd;
    }
    a as u64
}

/// `r` is the square root of `n` rounded down.
pub open spec fn is_floor_sqrt(n: int, r: int) -> bool {
    0 <= r && r * r <= n < (r + 1) * (r + 1)
}

/// The integer square root of `n`, rounded down.
pub open spec fn floor_sqrt(n: int) -> int {
    choose|r: int| #[trigger] is_floor_sqrt(n, r)
}

proof fn lemma_floor_sqrt_unique(n: int, r: int)
    requires
        0 <= r,
        r * r <= n < (r + 1) * (r + 1),
    ensures
        floor_sqrt(n) == r,
{
    assert(is_floor_sqrt(n, r));
    let s = floor_sqrt(n);
    assert(0 <= s && s * s <= n < (s + 1) * (s + 1));
    if s < r {
        assert((s + 1) * (s + 1) <= r * r) by (nonlinear_arith)
            requires 0 <= s, s + 1 <= r;
    } else if r < s {
        assert((r + 1) * (r + 1) <= s * s) by (nonlinear_arith)
            requires 0 <= r, r + 1 <= s;
    }
}

/// Every non-negative integer has a square root rounded down.
pub proof fn lemma_floor_sqrt_exists(n: int)
    requires
        n >= 0,
    ensures
        is_floor_sqrt(n, floor_sqrt(n)),
    decreases n,
{
    if n == 0 {
        assert(is_floor_sqrt(0, 0));
    } else {
        lemma_floor_sqrt_exists(n - 1);
        let r = floor_sqrt(n - 1);
        if (r + 1) * (r + 1) == n {
            assert((r + 2) * (r + 2) > n) by (nonlinear_arith)
                requires (r + 1) * (r + 1) == n, r >= 0;
            assert(is_floor_sqrt(n, r + 1));
        } else {
            assert(is_floor_sqrt(n, r));
        }
    }
}

/// Integer square root of `n`, rounded down.
pub fn isqrt(n: u128) -> (r: u64)
    ensures
        r as int == floor_sqrt(n as int),
        is_floor_sqrt(n as int, r as int),
{
    let mut lo: u128 = 0;
    let mut hi: u128 = 0x1_0000_0000_0000_0000;
    assert(hi * hi == 0x1_0000_0000_0000_0000_0000_0000_0000_0000) by (nonlinear_arith)
        requires hi == 0x1_0000_0000_0000_0000u128;
    while hi - lo > 1
        invariant
            lo < hi <= 0x1_0000_0000_0000_0000,
            lo * lo <= n,
            n < hi * hi,
        decreases hi - lo,
    {
        let mid: u128 = lo + (hi - lo) / 2;
        assert(mid < hi);
        assert(mid * mid < 0x1_0000_0000_0000_0000_0000_0000_0000_0000) by (nonlinear_arith)
            requires mid < 0x1_0000_0000_0000_0000u128;
        if mid * mid <= n {
            lo = mid;
        } else {
            hi = mid;
        }
    }
    proof {
        lemma_floor_sqrt_unique(n as int, lo as int);
    }
    lo as u64
}

/// At and beyond its radius a light's attenuation is exactly zero.
pub proof fn lemma_attenuation_zero_beyond_radius(radius: u16, falloff: u32, d2: int)
    requires
        d2 >= radius_sq(radius as int),
    ensures
        attenuation_of(radius as int, falloff as int, d2) == 0,
{
}

/// At distance zero the attenuation is finite, `ONE` for a light of positive
/// radius, and no other distance gives more.
pub proof fn lemma_attenuation_peak(radius: u16, falloff: u32, d2: int)
    requires
        d2 >= 0,
    ensures
        attenuation_of(radius as int, falloff as int, 0) == if radius > 0 {
            ONE as int
        } else {
            0
        },
        attenuation_of(radius as int, falloff as int, d2) <= attenuation_of(
            radius as int,
            falloff as int,
            0,
        ),
{
    let r2 = radius_sq(radius as int);
    assert(0 <= r2 < 0x1_0000_0000) by (nonlinear_arith)
        requires r2 == (radius as int) * (radius as int), 0 <= radius < 0x10000;
    if radius > 0 {
        assert(r2 > 0) by (nonlinear_arith)
            requires r2 == (radius as int) * (radius as int), radius > 0;
        let den = r2 * (ONE * r2 + falloff * 0);
        assert(den == 65536 * (r2 * r2)) by (nonlinear_arith)
            requires den == r2 * (65536 * r2 + falloff * 0);
        assert(den > 0) by (nonlinear_arith)
            requires den == 65536 * (r2 * r2), r2 > 0;
        let num = ONE * ONE * ((r2 - 0) * (r2 - 0));
        assert(num == 65536 * den) by (nonlinear_arith)
            requires num == 65536 * 65536 * (r2 * r2), den == 65536 * (r2 * r2);
        assert(num / den == 65536) by (nonlinear_arith)
            requires num == 65536 * den, den > 0;
        assert(attenuation_of(radius as int, falloff as int, 0) == num / den);
        if d2 < r2 {
            lemma_attenuation_bounds(r2, falloff as int, d2);
            let n = ONE * ONE * ((r2 - d2) * (r2 - d2));
            let dd = r2 * (ONE * r2 + falloff * d2);
            assert(n / dd <= 65536) by (nonlinear_arith)
                requires 0 <= n <= 65536 * dd, 0 < dd;
            assert(attenuation_of(radius as int, falloff as int, d2) == n / dd);
        }
    } else {
        assert(r2 == 0) by (nonlinear_arith)
            requires r2 == (radius as int) * (radius as int), radius == 0;
    }
}

/// The attenuation never rises with distance.
pub proof fn lemma_attenuation_nonincreasing(radius: u16, falloff: u32, near: int, far: int)
    requires
        0 <= near <= far,
    ensures
        attenuation_of(radius as int, falloff as int, far) <= attenuation_of(
            radius as int,
            falloff as int,
            near,
        ),
{
    let r2 = radius_sq(radius as int);
    let f = falloff as int;
    assert(0 <= r2 < 0x1_0000_0000) by (nonlinear_arith)
        requires r2 == (radius as int) * (radius as int), 0 <= radius < 0x10000;
    if far < r2 {
        lemma_attenuation_bounds(r2, f, near);
        lemma_attenuation_bounds(r2, f, far);
        let qn = r2 - near;
        let qf = r2 - far;
        assert(qf * qf <= qn * qn) by (nonlinear_arith)
            requires 0 < qf <= qn;
        let nn = ONE * ONE * (qn * qn);
        let nf = ONE * ONE * (qf * qf);
        assert(nf <= nn) by (nonlinear_arith)
            requires qf * qf <= qn * qn, nn == 65536 * 65536 * (qn * qn), nf == 65536 * 65536 * (qf * qf);
        let dn = r2 * (ONE * r2 + f * near);
        let df = r2 * (ONE * r2 + f * far);
        assert(f * near <= f * far) by (nonlinear_arith)
            requires 0 <= f, near <= far;
        assert(dn <= df) by (nonlinear_arith)
            requires 0 < r2, dn == r2 * (65536 * r2 + f * near), df == r2 * (65536 * r2 + f * far), f * near <= f * far;
        lemma_div_is_ordered(nf, nn, df);
        lemma_div_is_ordered_by_denominator(nn, dn, df);
    } else if near < r2 {
        lemma_attenuation_bounds(r2, f, near);
        let n = ONE * ONE * ((r2 - near) * (r2 - near));
        let d = r2 * (ONE * r2 + f * near);
        lemma_div_is_ordered(0, n, d);
    }
}

/// A higher falloff never gives more light at any distance.
pub proof fn lemma_attenuation_falloff_monotone(radius: u16, low: u32, high: u32, d2: int)
    requires
        low <= high,
        d2 >= 0,
    ensures
        attenuation_of(radius as int, high as int, d2) <= attenuation_of(radius as int, low as int, d2),
{
    let r2 = radius_sq(radius as int);
    assert(0 <= r2 < 0x1_0000_0000) by (nonlinear_arith)
        requires r2 == (radius as int) * (radius as int), 0 <= radius < 0x10000;
    if d2 < r2 {
        lemma_attenuation_bounds(r2, low as int, d2);
        lemma_attenuation_bounds(r2, high as int, d2);
        let n = ONE * ONE * ((r2 - d2) * (r2 - d2));
        let dl = r2 * (ONE * r2 + low * d2);
        let dh = r2 * (ONE * r2 + high * d2);
        assert(low * d2 <= high * d2) by (nonlinear_arith)
            requires low <= high, 0 <= d2;
        assert(dl <= dh) by (nonlinear_arith)
            requires 0 < r2, dl == r2 * (65536 * r2 + low * d2), dh == r2 * (65536 * r2 + high * d2), low * d2 <= high * d2;
        lemma_div_is_ordered_by_denominator(n, dl, dh);
    }
}

} // verus!
