//! The angular factor of a spot light.
use vstd::prelude::*;
use vstd::arithmetic::div_mod::lemma_div_is_ordered;
use crate::extract::ExtractedSpotLight2d;
use crate::fixed::{floor_sqrt, is_floor_sqrt, isqrt, lemma_floor_sqrt_exists, ONE};
use crate::light::Vec2i;

verus! {

/// The spot light's direction has components within `[-ONE, ONE]`, as a
/// vector of length `ONE` has; only its direction matters to the cone.
pub open spec fn spot_direction_ok(l: ExtractedSpotLight2d) -> bool {
    -ONE <= l.direction.x <= ONE && -ONE <= l.direction.y <= ONE
}

/// Offset of `p` from the light's centre along its axis, scaled by the length
/// of the light's direction vector.
pub open spec fn along_axis(l: ExtractedSpotLight2d, p: Vec2i) -> int {
    l.direction.x * (p.x - l.center.x) + l.direction.y * (p.y - l.center.y)
}

/// Offset of `p` from the light's centre across its axis, scaled as
/// `along_axis`.
pub open spec fn across_axis(l: ExtractedSpotLight2d, p: Vec2i) -> int {
    l.direction.x * (p.y - l.center.y) - l.direction.y * (p.x - l.center.x)
}

/// Squared distance from the light's centre to `p`, scaled as the square of
/// `along_axis`.
pub open spec fn spread_sq(l: ExtractedSpotLight2d, p: Vec2i) -> int {
    along_axis(l, p) * along_axis(l, p) + across_axis(l, p) * across_axis(l, p)
}

/// A cosine limit, fixed-point, brought into `[-ONE, ONE]`; a cosine beyond
/// that range admits every angle or none, as the limit it replaces.
pub open spec fn clamp_cos(c: int) -> int {
    if c > ONE {
        ONE as int
    } else if c < -ONE {
        -ONE
    } else {
        c
    }
}

/// `a / sqrt(n2) <= c / ONE`, decided exactly, without a square root.
pub open spec fn cos_at_most(a: int, n2: int, c: int) -> bool {
    if c >= 0 {
        a <= 0 || a * a * (ONE * ONE) <= c * c * n2
    } else {
        a < 0 && a * a * (ONE * ONE) >= c * c * n2
    }
}

/// `a / sqrt(n2) >= c / ONE`, decided exactly, without a square root.
pub open spec fn cos_at_least(a: int, n2: int, c: int) -> bool {
    if c >= 0 {
        a >= 0 && a * a * (ONE * ONE) >= c * c * n2
    } else {
        a >= 0 || a * a * (ONE * ONE) <= c * c * n2
    }
}

/// Seen from the light's centre, a point whose offset has component `a`
/// along the axis and squared length `n2` makes an angle with the axis whose
/// cosine is at most `outer_cos`: it lies outside the lit cone.
pub open spec fn outside_at(l: ExtractedSpotLight2d, a: int, n2: int) -> bool {
    n2 > 0 && cos_at_most(a, n2, clamp_cos(l.outer_cos as int))
}

/// The angle's cosine is at least `inner_cos`, or the point is the centre:
/// it lies inside the full-strength cone.
pub open spec fn inside_at(l: ExtractedSpotLight2d, a: int, n2: int) -> bool {
    n2 == 0 || cos_at_least(a, n2, clamp_cos(l.inner_cos as int))
}

pub open spec fn outside_outer(l: ExtractedSpotLight2d, p: Vec2i) -> bool {
    outside_at(l, along_axis(l, p), spread_sq(l, p))
}

pub open spec fn inside_inner(l: ExtractedSpotLight2d, p: Vec2i) -> bool {
    inside_at(l, along_axis(l, p), spread_sq(l, p))
}

/// Length of the light's direction vector, rounded down.
pub open spec fn direction_length(l: ExtractedSpotLight2d) -> int {
    floor_sqrt(l.direction.x * l.direction.x + l.direction.y * l.direction.y)
}

/// Where the band between the cones is crossed, fixed-point: 0 at the outer
/// edge, `ONE` at the inner edge, linear in the cosine of the angle (with the
/// distance `e`, scaled as `along_axis`, rounded down).
pub open spec fn band_position(l: ExtractedSpotLight2d, a: int, e: int) -> int {
    let ic = clamp_cos(l.inner_cos as int);
    let oc = clamp_cos(l.outer_cos as int);
    let t = (ONE * (a * ONE - oc * e)) / ((ic - oc) * e);
    if t < 0 {
        0
    } else if t > ONE {
        ONE as int
    } else {
        t
    }
}

/// How much a source of width `source_width` raises the band, fixed-point:
/// half the width over the distance `e`, so it fades far from the light.
pub open spec fn softening(l: ExtractedSpotLight2d, e: int) -> int {
    (ONE * direction_length(l) * l.source_width) / (2 * e)
}

/// The cone factor for an offset with component `a` along the axis and
/// squared length `n2`: zero outside the lit cone, `ONE` inside the
/// full-strength cone, and in between the band position raised by the
/// softening, `t * (1 + s)`, capped at `ONE`; so it starts from zero at the
/// outer edge.
pub open spec fn cone_at(l: ExtractedSpotLight2d, a: int, n2: int) -> int {
    let e = floor_sqrt(n2);
    let ic = clamp_cos(l.inner_cos as int);
    let oc = clamp_cos(l.outer_cos as int);
    if outside_at(l, a, n2) {
        0
    } else if inside_at(l, a, n2) {
        ONE as int
    } else if e <= 0 || (ic - oc) * e <= 0 {
        ONE as int
    } else {
        let f = band_position(l, a, e) * (ONE + softening(l, e)) / (ONE as int);
        if f > ONE {
            ONE as int
        } else {
            f
        }
    }
}

/// The cone factor at `p`.
pub open spec fn cone_of(l: ExtractedSpotLight2d, p: Vec2i) -> int {
    cone_at(l, along_axis(l, p), spread_sq(l, p))
}

proof fn lemma_cone_at_bounds(l: ExtractedSpotLight2d, a: int, n2: int)
    ensures
        0 <= cone_at(l, a, n2) <= ONE,
{
    let e = floor_sqrt(n2);
    let ic = clamp_cos(l.inner_cos as int);
    let oc = clamp_cos(l.outer_cos as int);
    if !outside_at(l, a, n2) && !inside_at(l, a, n2) && e > 0 && (ic - oc) * e > 0 {
        let t = band_position(l, a, e);
        let m = ONE + softening(l, e);
        lemma_softening_nonneg(l, e);
        assert(t * m >= 0) by (nonlinear_arith)
            requires t >= 0, m >= 0;
        assert(t * m / 65536 >= 0) by (nonlinear_arith)
            requires t * m >= 0;
    }
}

/// At a fixed distance from the light, the cone factor never rises as the
/// angle from the axis grows, that is as the offset along the axis shrinks.
pub proof fn lemma_cone_falls_with_angle(l: ExtractedSpotLight2d, a1: int, a2: int, n2: int)
    requires
        a1 <= a2,
        a1 * a1 <= n2,
        a2 * a2 <= n2,
    ensures
        cone_at(l, a1, n2) <= cone_at(l, a2, n2),
{
    let e = floor_sqrt(n2);
    let ic = clamp_cos(l.inner_cos as int);
    let oc = clamp_cos(l.outer_cos as int);
    lemma_cos_at_most_monotone(a1, a2, n2, oc);
    lemma_cos_at_least_monotone(a1, a2, n2, ic);
    lemma_cone_at_bounds(l, a1, n2);
    lemma_cone_at_bounds(l, a2, n2);
    if !outside_at(l, a1, n2) && !inside_at(l, a2, n2) && e > 0 && (ic - oc) * e > 0 {
        let den = (ic - oc) * e;
        let n1 = ONE * (a1 * ONE - oc * e);
        let nn2 = ONE * (a2 * ONE - oc * e);
        assert(n1 <= nn2) by (nonlinear_arith)
            requires a1 <= a2, n1 == 65536 * (a1 * 65536 - oc * e), nn2 == 65536 * (a2 * 65536 - oc * e);
        lemma_div_is_ordered(n1, nn2, den);
        let t1 = band_position(l, a1, e);
        let t2 = band_position(l, a2, e);
        assert(t1 <= t2);
        let m = ONE + softening(l, e);
        lemma_softening_nonneg(l, e);
        assert(t1 * m <= t2 * m) by (nonlinear_arith)
            requires t1 <= t2, m >= 0;
        lemma_div_is_ordered(t1 * m, t2 * m, ONE as int);
    }
}

proof fn lemma_softening_nonneg(l: ExtractedSpotLight2d, e: int)
    requires
        e > 0,
    ensures
        softening(l, e) >= 0,
{
    let x = l.direction.x as int;
    let y = l.direction.y as int;
    let n = x * x + y * y;
    assert(n >= 0) by (nonlinear_arith)
        requires n == x * x + y * y;
    lemma_floor_sqrt_exists(n);
    let dl = direction_length(l);
    assert(ONE * dl * l.source_width >= 0) by (nonlinear_arith)
        requires dl >= 0, l.source_width >= 0;
    let x = ONE * dl * l.source_width;
    assert(x / (2 * e) >= 0) by (nonlinear_arith)
        requires x >= 0, e > 0;
}

proof fn lemma_cos_at_most_monotone(a1: int, a2: int, n2: int, c: int)
    requires
        a1 <= a2,
        a1 * a1 <= n2,
        a2 * a2 <= n2,
    ensures
        cos_at_most(a2, n2, c) ==> cos_at_most(a1, n2, c),
{
    if a1 > 0 {
        assert(a1 * a1 <= a2 * a2) by (nonlinear_arith)
            requires 0 < a1 <= a2;
        assert(a1 * a1 * (ONE * ONE) <= a2 * a2 * (ONE * ONE)) by (nonlinear_arith)
            requires a1 * a1 <= a2 * a2;
    }
    if a2 < 0 {
        assert(a1 * a1 >= a2 * a2) by (nonlinear_arith)
            requires a1 <= a2 < 0;
        assert(a1 * a1 * (ONE * ONE) >= a2 * a2 * (ONE * ONE)) by (nonlinear_arith)
            requires a1 * a1 >= a2 * a2;
    }
}

proof fn lemma_cos_at_least_monotone(a1: int, a2: int, n2: int, c: int)
    requires
        a1 <= a2,
        a1 * a1 <= n2,
        a2 * a2 <= n2,
    ensures
        cos_at_least(a1, n2, c) ==> cos_at_least(a2, n2, c),
{
    if a1 >= 0 {
        assert(a1 * a1 <= a2 * a2) by (nonlinear_arith)
            requires 0 <= a1 <= a2;
        assert(a1 * a1 * (ONE * ONE) <= a2 * a2 * (ONE * ONE)) by (nonlinear_arith)
            requires a1 * a1 <= a2 * a2;
    }
    if a2 < 0 {
        assert(a1 * a1 >= a2 * a2) by (nonlinear_arith)
            requires a1 <= a2 < 0;
        assert(a1 * a1 * (ONE * ONE) >= a2 * a2 * (ONE * ONE)) by (nonlinear_arith)
            requires a1 * a1 >= a2 * a2;
    }
}

/// With the full-strength cone inside the lit cone, no point is both inside
/// the one and outside the other.
pub proof fn lemma_inside_not_outside(l: ExtractedSpotLight2d, a: int, n2: int)
    requires
        l.outer_cos < l.inner_cos,
        l.outer_cos < ONE,
        -ONE < l.inner_cos,
        inside_at(l, a, n2),
    ensures
        !outside_at(l, a, n2),
{
    let ic = clamp_cos(l.inner_cos as int);
    let oc = clamp_cos(l.outer_cos as int);
    assert(oc < ic);
    if n2 > 0 {
        let aa = a * a * (ONE * ONE);
        if ic >= 0 {
            if oc >= 0 {
                assert(oc * oc < ic * ic) by (nonlinear_arith)
                    requires 0 <= oc < ic;
                assert(oc * oc * n2 < ic * ic * n2) by (nonlinear_arith)
                    requires oc * oc < ic * ic, n2 > 0;
                assert(a * a * (ONE * ONE) > 0 || a == 0);
                if a == 0 {
                    assert(a * a * (ONE * ONE) == 0) by (nonlinear_arith)
                        requires a == 0;
                    assert(ic * ic * n2 <= 0);
                    assert(ic * ic * n2 >= 0) by (nonlinear_arith)
                        requires n2 > 0;
                    assert(ic == 0) by (nonlinear_arith)
                        requires ic * ic * n2 == 0, n2 > 0;
                }
            }
        } else {
            assert(ic * ic < oc * oc) by (nonlinear_arith)
                requires oc < ic < 0;
            assert(ic * ic * n2 < oc * oc * n2) by (nonlinear_arith)
                requires ic * ic < oc * oc, n2 > 0;
        }
    }
}

/// The cone factor of the spot light at `p`, for a `p` within the light's radius.
pub fn cone_factor(l: &ExtractedSpotLight2d, p: Vec2i) -> (r: u64)
    requires
        spot_direction_ok(*l),
        -0x10000 < p.x - l.center.x < 0x10000,
        -0x10000 < p.y - l.center.y < 0x10000,
    ensures
        r as int == cone_of(*l, p),
        r <= ONE,
{
    let vx = p.x as i128 - l.center.x as i128;
    let vy = p.y as i128 - l.center.y as i128;
    let dx = l.direction.x as i128;
    let dy = l.direction.y as i128;
    proof {
        assert(-0x1_0000_0000 < dx * vx < 0x1_0000_0000) by (nonlinear_arith)
            requires -0x10000 <= dx <= 0x10000, -0x10000 < vx < 0x10000;
        assert(-0x1_0000_0000 < dy * vy < 0x1_0000_0000) by (nonlinear_arith)
            requires -0x10000 <= dy <= 0x10000, -0x10000 < vy < 0x10000;
        assert(-0x1_0000_0000 < dx * vy < 0x1_0000_0000) by (nonlinear_arith)
            requires -0x10000 <= dx <= 0x10000, -0x10000 < vy < 0x10000;
        assert(-0x1_0000_0000 < dy * vx < 0x1_0000_0000) by (nonlinear_arith)
            requires -0x10000 <= dy <= 0x10000, -0x10000 < vx < 0x10000;
        assert(0 <= dx * dx <= 0x1_0000_0000) by (nonlinear_arith)
            requires -0x10000 <= dx <= 0x10000;
        assert(0 <= dy * dy <= 0x1_0000_0000) by (nonlinear_arith)
            requires -0x10000 <= dy <= 0x10000;
    }
    let a: i128 = dx * vx + dy * vy;
    let lat: i128 = dx * vy - dy * vx;
    proof {
        assert(0 <= a * a < 0x4_0000_0000_0000_0000) by (nonlinear_arith)
            requires -0x2_0000_0000 < a < 0x2_0000_0000;
        assert(0 <= lat * lat < 0x4_0000_0000_0000_0000) by (nonlinear_arith)
            requires -0x2_0000_0000 < lat < 0x2_0000_0000;
    }
    let n2: i128 = a * a + lat * lat;
    let oc: i128 = if l.outer_cos as i128 > ONE as i128 {
        ONE as i128
    } else if (l.outer_cos as i128) < -(ONE as i128) {
        -(ONE as i128)
    } else {
        l.outer_cos as i128
    };
    let ic: i128 = if l.inner_cos as i128 > ONE as i128 {
        ONE as i128
    } else if (l.inner_cos as i128) < -(ONE as i128) {
        -(ONE as i128)
    } else {
        l.inner_cos as i128
    };
    proof {
        assert(0 <= a * a * 0x1_0000_0000 < 0x4_0000_0000_0000_0000_0000_0000) by (nonlinear_arith)
            requires 0 <= a * a < 0x4_0000_0000_0000_0000;
        assert(0 <= oc * oc <= 0x1_0000_0000) by (nonlinear_arith)
            requires -0x10000 <= oc <= 0x10000;
        assert(0 <= ic * ic <= 0x1_0000_0000) by (nonlinear_arith)
            requires -0x10000 <= ic <= 0x10000;
        assert(0 <= oc * oc * n2 <= 0x8_0000_0000_0000_0000_0000_0000) by (nonlinear_arith)
            requires 0 <= oc * oc <= 0x1_0000_0000, 0 <= n2 < 0x8_0000_0000_0000_0000;
        assert(0 <= ic * ic * n2 <= 0x8_0000_0000_0000_0000_0000_0000) by (nonlinear_arith)
            requires 0 <= ic * ic <= 0x1_0000_0000, 0 <= n2 < 0x8_0000_0000_0000_0000;
        assert(ONE * ONE == 0x1_0000_0000);
    }
    let aa: i128 = a * a * 0x1_0000_0000;
    let outside = n2 > 0 && if oc >= 0 {
        a <= 0 || aa <= oc * oc * n2
    } else {
        a < 0 && aa >= oc * oc * n2
    };
    if outside {
        return 0;
    }
    let inside = n2 == 0 || if ic >= 0 {
        a >= 0 && aa >= ic * ic * n2
    } else {
        a >= 0 || aa <= ic * ic * n2
    };
    if inside {
        return ONE;
    }
    let e = isqrt(n2 as u128) as i128;
    let dl = isqrt((dx * dx + dy * dy) as u128) as i128;
    proof {
        assert(is_floor_sqrt(n2 as int, e as int));
        assert(e < 0x4_0000_0000) by (nonlinear_arith)
            requires 0 <= e, e * e <= n2, n2 < 0x8_0000_0000_0000_0000;
        assert(is_floor_sqrt(dx * dx + dy * dy, dl as int));
        assert(dl < 0x20000) by (nonlinear_arith)
            requires 0 <= dl, dl * dl <= dx * dx + dy * dy, dx * dx + dy * dy <= 0x2_0000_0000;
        assert(-0x4_0000_0000_0000 < oc * e < 0x4_0000_0000_0000) by (nonlinear_arith)
            requires -0x10000 <= oc <= 0x10000, 0 <= e < 0x4_0000_0000;
        assert(-0x8_0000_0000_0000 < (ic - oc) * e < 0x8_0000_0000_0000) by (nonlinear_arith)
            requires -0x20000 <= ic - oc <= 0x20000, 0 <= e < 0x4_0000_0000;
        assert(-0x2_0000_0000_0000 < a * 65536 < 0x2_0000_0000_0000) by (nonlinear_arith)
            requires -0x2_0000_0000 < a < 0x2_0000_0000;
    }
    let den: i128 = (ic - oc) * e;
    if e <= 0 || den <= 0 {
        return ONE;
    }
    let num: i128 = (ONE as i128) * (a * (ONE as i128) - oc * e);
    let t: i128 = if num < 0 {
        0
    } else {
        let q = num / den;
        if q > ONE as i128 {
            ONE as i128
        } else {
            q
        }
    };
    proof {
        if num < 0 {
            assert(num / den < 0) by (nonlinear_arith)
                requires num < 0, den > 0;
        } else {
            assert(num / den >= 0) by (nonlinear_arith)
                requires num >= 0, den > 0;
        }
        assert(t as int == band_position(*l, a as int, e as int));
        assert(0 <= dl * (l.source_width as int) < 0x2_0000_0000_0000) by (nonlinear_arith)
            requires 0 <= dl < 0x20000, 0 <= l.source_width < 0x1_0000_0000;
        assert(ONE * dl * l.source_width == ONE * (dl * l.source_width)) by (nonlinear_arith);
    }
    let soft: i128 = (ONE as i128) * (dl * (l.source_width as i128)) / (2 * e);
    proof {
        let x = ONE * (dl * l.source_width);
        assert(0 <= x / (2 * e) <= x) by (nonlinear_arith)
            requires x >= 0, e > 0;
        assert(soft as int == softening(*l, e as int));
        assert(0 <= t * (ONE + soft) <= 0x10000 * (0x10000 + 0x2_0000_0000_0000_0000_0000)) by (nonlinear_arith)
            requires 0 <= t <= 0x10000, 0 <= soft <= 0x2_0000_0000_0000_0000_0000;
    }
    let f: i128 = t * (ONE as i128 + soft) / (ONE as i128);
    if f > ONE as i128 {
        ONE
    } else {
        f as u64
    }
}

} // verus!
