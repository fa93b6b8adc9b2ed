//! The per-pixel illumination: ambient light plus the light of each point and
//! spot light that reaches the pixel, times the scene's color, clamped to the
//! output format's range.
use vstd::prelude::*;
use crate::cone::{
    along_axis, cone_factor, cone_of, inside_inner, lemma_inside_not_outside, outside_outer,
    spot_direction_ok, spread_sq,
};
use crate::extract::{
    ExtractedAmbientLight2d, ExtractedLightOccluder2d, ExtractedPointLight2d,
    ExtractedSpotLight2d, LightLevel,
};
use crate::fixed::{attenuation, attenuation_of, radius_sq, HDR_LIMIT, ONE, ONE_SQUARED};
use crate::light::{LinearRgb, Vec2i};
use crate::occlusion::{is_shadowed, shadowed};

verus! {

/// What the compositor reads for one view in one frame.
pub struct LightingFrame {
    pub ambient: ExtractedAmbientLight2d,
    pub point_lights: Vec<ExtractedPointLight2d>,
    pub spot_lights: Vec<ExtractedSpotLight2d>,
    pub occluders: Vec<ExtractedLightOccluder2d>,
}

impl LightingFrame {
    /// Every spot light's direction is well formed.
    pub open spec fn spot_directions_ok(&self) -> bool {
        forall|i: int| 0 <= i < self.spot_lights@.len() ==> spot_direction_ok(#[trigger] self.spot_lights@[i])
    }

    /// Whether every spot light's direction is well formed.
    pub fn check_spot_directions(&self) -> (r: bool)
        ensures
            r == self.spot_directions_ok(),
    {
        let mut i: usize = 0;
        while i < self.spot_lights.len()
            invariant
                i <= self.spot_lights@.len(),
                forall|j: int| 0 <= j < i ==> spot_direction_ok(#[trigger] self.spot_lights@[j]),
            decreases self.spot_lights@.len() - i,
        {
            let d = self.spot_lights[i].direction;
            if d.x < -(ONE as i32) || d.x > ONE as i32 || d.y < -(ONE as i32) || d.y > ONE as i32 {
                return false;
            }
            i = i + 1;
        }
        true
    }
}

/// Squared distance between two points.
pub open spec fn dist_sq(a: Vec2i, b: Vec2i) -> int {
    (b.x - a.x) * (b.x - a.x) + (b.y - a.y) * (b.y - a.y)
}

/// Light of one channel from a light of channel `c` and `intensity` at
/// factor `factor` (all fixed-point).
pub open spec fn lit(c: int, intensity: int, factor: int) -> int {
    c * intensity * factor / (ONE_SQUARED as int)
}

/// The factor by which a point light reaches `p`: its attenuation, or zero
/// where it casts shadows and an occluder is in the way.
pub open spec fn point_factor(
    l: ExtractedPointLight2d,
    occluders: Seq<ExtractedLightOccluder2d>,
    p: Vec2i,
) -> int {
    if l.cast_shadows != 0 && shadowed(occluders, l.transform, p) {
        0
    } else {
        attenuation_of(l.radius as int, l.falloff as int, dist_sq(l.transform, p))
    }
}

/// The factor by which a spot light reaches `p`: its attenuation times its
/// cone factor, or zero beyond its radius or where it casts shadows and an
/// occluder is in the way.
pub open spec fn spot_factor(
    l: ExtractedSpotLight2d,
    occluders: Seq<ExtractedLightOccluder2d>,
    p: Vec2i,
) -> int {
    if l.cast_shadows != 0 && shadowed(occluders, l.center, p) {
        0
    } else if dist_sq(l.center, p) >= radius_sq(l.radius as int) {
        0
    } else {
        attenuation_of(l.radius as int, l.falloff as int, dist_sq(l.center, p)) * cone_of(l, p)
            / (ONE as int)
    }
}

pub open spec fn point_term(
    l: ExtractedPointLight2d,
    occluders: Seq<ExtractedLightOccluder2d>,
    p: Vec2i,
    k: int,
) -> int {
    lit(l.color.channel(k), l.intensity as int, point_factor(l, occluders, p))
}

pub open spec fn spot_term(
    l: ExtractedSpotLight2d,
    occluders: Seq<ExtractedLightOccluder2d>,
    p: Vec2i,
    k: int,
) -> int {
    lit(l.color.channel(k), l.intensity as int, spot_factor(l, occluders, p))
}

/// Channel `k` of the light of all the point lights at `p`.
pub open spec fn point_sum(
    ls: Seq<ExtractedPointLight2d>,
    occluders: Seq<ExtractedLightOccluder2d>,
    p: Vec2i,
    k: int,
) -> int
    decreases ls.len(),
{
    if ls.len() == 0 {
        0
    } else {
        point_sum(ls.drop_last(), occluders, p, k) + point_term(ls.last(), occluders, p, k)
    }
}

/// Channel `k` of the light of all the spot lights at `p`.
pub open spec fn spot_sum(
    ls: Seq<ExtractedSpotLight2d>,
    occluders: Seq<ExtractedLightOccluder2d>,
    p: Vec2i,
    k: int,
) -> int
    decreases ls.len(),
{
    if ls.len() == 0 {
        0
    } else {
        spot_sum(ls.drop_last(), occluders, p, k) + spot_term(ls.last(), occluders, p, k)
    }
}

/// Channel `k` of all the light at `p`: ambient plus every light.
pub open spec fn light_at(
    ambient: LightLevel,
    points: Seq<ExtractedPointLight2d>,
    spots: Seq<ExtractedSpotLight2d>,
    occluders: Seq<ExtractedLightOccluder2d>,
    p: Vec2i,
    k: int,
) -> int {
    ambient.channel(k) + point_sum(points, occluders, p, k) + spot_sum(spots, occluders, p, k)
}

/// Largest channel value of the output format: 1.0 for a standard format,
/// 65504.0, the largest finite 16-bit float, for a high-dynamic-range one.
pub open spec fn output_limit(hdr: bool) -> int {
    if hdr {
        HDR_LIMIT as int
    } else {
        ONE as int
    }
}

/// A scene channel lit by `light`, clamped to the output range.
pub open spec fn composite(scene: int, light: int, hdr: bool) -> int {
    let v = scene * light / (ONE as int);
    if v > output_limit(hdr) {
        output_limit(hdr)
    } else {
        v
    }
}

/// Channel `k` of the pixel at `p` whose scene color is `scene`.
pub open spec fn shaded(frame: &LightingFrame, scene: LinearRgb, p: Vec2i, hdr: bool, k: int) -> int {
    composite(
        scene.channel(k),
        light_at(
            frame.ambient.color,
            frame.point_lights@,
            frame.spot_lights@,
            frame.occluders@,
            p,
            k,
        ),
        hdr,
    )
}

/// Squared distance between two points.
pub fn distance_sq(a: Vec2i, b: Vec2i) -> (r: u128)
    ensures
        r as int == dist_sq(a, b),
{
    let dx = b.x as i128 - a.x as i128;
    let dy = b.y as i128 - a.y as i128;
    proof {
        assert(0 <= dx * dx <= 0x1_0000_0000_0000_0000) by (nonlinear_arith)
            requires -0x1_0000_0000 <= dx <= 0x1_0000_0000;
        assert(0 <= dy * dy <= 0x1_0000_0000_0000_0000) by (nonlinear_arith)
            requires -0x1_0000_0000 <= dy <= 0x1_0000_0000;
    }
    (dx * dx + dy * dy) as u128
}

fn lit_channel(c: u32, intensity: u32, factor: u64) -> (r: u128)
    requires
        factor <= ONE,
    ensures
        r as int == lit(c as int, intensity as int, factor as int),
        r <= 0x1_0000_0000_0000,
{
    proof {
        assert(0 <= (c as int) * (intensity as int) < 0x1_0000_0000_0000_0000) by (nonlinear_arith)
            requires 0 <= c < 0x1_0000_0000, 0 <= intensity < 0x1_0000_0000;
        let ci = (c as int) * (intensity as int);
        let f = factor as int;
        assert(0 <= ci * f <= ci * 65536) by (nonlinear_arith)
            requires 0 <= ci, 0 <= f <= 65536;
        assert(ci * f / 0x1_0000_0000 <= 0x1_0000_0000_0000) by (nonlinear_arith)
            requires 0 <= ci * f <= ci * 65536, ci < 0x1_0000_0000_0000_0000;
    }
    (c as u128) * (intensity as u128) * (factor as u128) / ONE_SQUARED
}

/// The factor by which the point light reaches `p`.
pub fn point_light_factor(
    l: &ExtractedPointLight2d,
    occluders: &Vec<ExtractedLightOccluder2d>,
    p: Vec2i,
) -> (r: u64)
    ensures
        r as int == point_factor(*l, occluders@, p),
        r <= ONE,
{
    if l.cast_shadows != 0 && is_shadowed(occluders, l.transform, p) {
        return 0;
    }
    attenuation(l.radius, l.falloff, distance_sq(l.transform, p))
}

/// The factor by which the spot light reaches `p`.
pub fn spot_light_factor(
    l: &ExtractedSpotLight2d,
    occluders: &Vec<ExtractedLightOccluder2d>,
    p: Vec2i,
) -> (r: u64)
    requires
        spot_direction_ok(*l),
    ensures
        r as int == spot_factor(*l, occluders@, p),
        r <= ONE,
{
    if l.cast_shadows != 0 && is_shadowed(occluders, l.center, p) {
        return 0;
    }
    let d2 = distance_sq(l.center, p);
    proof {
        assert((l.radius as int) * (l.radius as int) < 0x1_0000_0000) by (nonlinear_arith)
            requires l.radius < 0x10000;
    }
    let r2: u128 = (l.radius as u128) * (l.radius as u128);
    if d2 >= r2 {
        return 0;
    }
    proof {
        let dx = p.x - l.center.x;
        let dy = p.y - l.center.y;
        assert(0 <= dy * dy) by (nonlinear_arith);
        assert(0 <= dx * dx) by (nonlinear_arith);
        assert(r2 < 0x1_0000_0000) by (nonlinear_arith)
            requires r2 == (l.radius as int) * (l.radius as int), l.radius < 0x10000;
        assert(-0x10000 < dx < 0x10000) by (nonlinear_arith)
            requires dx * dx < 0x1_0000_0000;
        assert(-0x10000 < dy < 0x10000) by (nonlinear_arith)
            requires dy * dy < 0x1_0000_0000;
    }
    let a = attenuation(l.radius, l.falloff, d2);
    let c = cone_factor(l, p);
    proof {
        assert(a * c <= 65536 * 65536) by (nonlinear_arith)
            requires a <= 65536, c <= 65536;
    }
    ((a * c) / ONE) as u64
}

/// A scene channel lit by `light`, clamped to the output range.
pub fn composite_channel(scene: u32, light: u128, hdr: bool) -> (r: u32)
    ensures
        r as int == composite(scene as int, light as int, hdr),
{
    let limit: u64 = if hdr {
        HDR_LIMIT
    } else {
        ONE
    };
    if scene == 0 {
        assert((scene as int) * (light as int) == 0) by (nonlinear_arith)
            requires scene == 0;
        return 0;
    }
    if light >= 0x1_0000_0000_0000_0000_0000 {
        proof {
            let s = scene as int;
            let li = light as int;
            assert(s * li >= li) by (nonlinear_arith)
                requires s >= 1, li >= 0;
            assert(s * li / 65536 >= 0x1_0000_0000_0000_0000) by (nonlinear_arith)
                requires s * li >= li, li >= 0x1_0000_0000_0000_0000_0000;
        }
        return limit as u32;
    }
    proof {
        assert((scene as int) * (light as int) < 0x1_0000_0000_0000_0000_0000_0000_0000) by (nonlinear_arith)
            requires scene < 0x1_0000_0000, light < 0x1_0000_0000_0000_0000_0000;
    }
    let v: u128 = (scene as u128) * light / (ONE as u128);
    assert(v as int == (scene as int) * (light as int) / (ONE as int));
    if v > limit as u128 {
        limit as u32
    } else {
        v as u32
    }
}

proof fn lemma_point_sum_step(
    ls: Seq<ExtractedPointLight2d>,
    occluders: Seq<ExtractedLightOccluder2d>,
    p: Vec2i,
    i: int,
)
    requires
        0 <= i < ls.len(),
    ensures
        forall|k: int|
            #[trigger] point_sum(ls.subrange(0, i + 1), occluders, p, k) == point_sum(
                ls.subrange(0, i),
                occluders,
                p,
                k,
            ) + point_term(ls[i], occluders, p, k),
{
    assert(ls.subrange(0, i + 1).drop_last() =~= ls.subrange(0, i));
}

proof fn lemma_spot_sum_step(
    ls: Seq<ExtractedSpotLight2d>,
    occluders: Seq<ExtractedLightOccluder2d>,
    p: Vec2i,
    i: int,
)
    requires
        0 <= i < ls.len(),
    ensures
        forall|k: int|
            #[trigger] spot_sum(ls.subrange(0, i + 1), occluders, p, k) == spot_sum(
                ls.subrange(0, i),
                occluders,
                p,
                k,
            ) + spot_term(ls[i], occluders, p, k),
{
    assert(ls.subrange(0, i + 1).drop_last() =~= ls.subrange(0, i));
}

/// The light of every point light at `p`, channel by channel.
fn point_lights_at(
    ls: &Vec<ExtractedPointLight2d>,
    occluders: &Vec<ExtractedLightOccluder2d>,
    p: Vec2i,
) -> (r: (u128, u128, u128))
    ensures
        r.0 as int == point_sum(ls@, occluders@, p, 0),
        r.1 as int == point_sum(ls@, occluders@, p, 1),
        r.2 as int == point_sum(ls@, occluders@, p, 2),
        r.0 <= ls@.len() * 0x1_0000_0000_0000,
        r.1 <= ls@.len() * 0x1_0000_0000_0000,
        r.2 <= ls@.len() * 0x1_0000_0000_0000,
{
    let mut sr: u128 = 0;
    let mut sg: u128 = 0;
    let mut sb: u128 = 0;
    let mut i: usize = 0;
    while i < ls.len()
        invariant
            i <= ls@.len(),
            sr as int == point_sum(ls@.subrange(0, i as int), occluders@, p, 0),
            sg as int == point_sum(ls@.subrange(0, i as int), occluders@, p, 1),
            sb as int == point_sum(ls@.subrange(0, i as int), occluders@, p, 2),
            sr <= i * 0x1_0000_0000_0000,
            sg <= i * 0x1_0000_0000_0000,
            sb <= i * 0x1_0000_0000_0000,
        decreases ls@.len() - i,
    {
        proof {
            lemma_point_sum_step(ls@, occluders@, p, i as int);
        }
        let l = &ls[i];
        let f = point_light_factor(l, occluders, p);
        sr = sr + lit_channel(l.color.r, l.intensity, f);
        sg = sg + lit_channel(l.color.g, l.intensity, f);
        sb = sb + lit_channel(l.color.b, l.intensity, f);
        i = i + 1;
    }
    assert(ls@.subrange(0, ls@.len() as int) =~= ls@);
    (sr, sg, sb)
}

/// The light of every spot light at `p`, channel by channel.
fn spot_lights_at(
    ls: &Vec<ExtractedSpotLight2d>,
    occluders: &Vec<ExtractedLightOccluder2d>,
    p: Vec2i,
) -> (r: (u128, u128, u128))
    requires
        forall|i: int| 0 <= i < ls@.len() ==> spot_direction_ok(#[trigger] ls@[i]),
    ensures
        r.0 as int == spot_sum(ls@, occluders@, p, 0),
        r.1 as int == spot_sum(ls@, occluders@, p, 1),
        r.2 as int == spot_sum(ls@, occluders@, p, 2),
        r.0 <= ls@.len() * 0x1_0000_0000_0000,
        r.1 <= ls@.len() * 0x1_0000_0000_0000,
        r.2 <= ls@.len() * 0x1_0000_0000_0000,
{
    let mut sr: u128 = 0;
    let mut sg: u128 = 0;
    let mut sb: u128 = 0;
    let mut i: usize = 0;
    while i < ls.len()
        invariant
            i <= ls@.len(),
            sr as int == spot_sum(ls@.subrange(0, i as int), occluders@, p, 0),
            sg as int == spot_sum(ls@.subrange(0, i as int), occluders@, p, 1),
            sb as int == spot_sum(ls@.subrange(0, i as int), occluders@, p, 2),
            sr <= i * 0x1_0000_0000_0000,
            sg <= i * 0x1_0000_0000_0000,
            sb <= i * 0x1_0000_0000_0000,
        forall|j: int| 0 <= j < ls@.len() ==> spot_direction_ok(#[trigger] ls@[j]),
        decreases ls@.len() - i,
    {
        proof {
            lemma_spot_sum_step(ls@, occluders@, p, i as int);
        }
        let l = &ls[i];
        let f = spot_light_factor(l, occluders, p);
        sr = sr + lit_channel(l.color.r, l.intensity, f);
        sg = sg + lit_channel(l.color.g, l.intensity, f);
        sb = sb + lit_channel(l.color.b, l.intensity, f);
        i = i + 1;
    }
    assert(ls@.subrange(0, ls@.len() as int) =~= ls@);
    (sr, sg, sb)
}

/// The lit color of the pixel at `p` whose scene color is `scene`, for a
/// high-dynamic-range output when `hdr` holds.
pub fn shade_pixel(frame: &LightingFrame, scene: LinearRgb, p: Vec2i, hdr: bool) -> (r: LinearRgb)
    requires
        frame.spot_directions_ok(),
    ensures
        r.r as int == shaded(frame, scene, p, hdr, 0),
        r.g as int == shaded(frame, scene, p, hdr, 1),
        r.b as int == shaded(frame, scene, p, hdr, 2),
{
    let pts = point_lights_at(&frame.point_lights, &frame.occluders, p);
    let sps = spot_lights_at(&frame.spot_lights, &frame.occluders, p);
    let a = frame.ambient.color;
    let n_points = frame.point_lights.len();
    let n_spots = frame.spot_lights.len();
    proof {
        let np = n_points as int;
        let ns = n_spots as int;
        assert(np * 0x1_0000_0000_0000 <= 0x1_0000_0000_0000_0000_0000_0000_0000) by (nonlinear_arith)
            requires 0 <= np <= 0x1_0000_0000_0000_0000;
        assert(ns * 0x1_0000_0000_0000 <= 0x1_0000_0000_0000_0000_0000_0000_0000) by (nonlinear_arith)
            requires 0 <= ns <= 0x1_0000_0000_0000_0000;
    }
    let lr: u128 = a.r as u128 + pts.0 + sps.0;
    let lg: u128 = a.g as u128 + pts.1 + sps.1;
    let lb: u128 = a.b as u128 + pts.2 + sps.2;
    LinearRgb {
        r: composite_channel(scene.r, lr, hdr),
        g: composite_channel(scene.g, lg, hdr),
        b: composite_channel(scene.b, lb, hdr),
    }
}

proof fn lemma_lit_zero(c: int, intensity: int)
    ensures
        lit(c, intensity, 0) == 0,
{
    assert(c * intensity * 0 == 0) by (nonlinear_arith);
}

/// A point light adds nothing to any pixel at or beyond its radius.
pub proof fn lemma_point_light_dark_beyond_radius(
    l: ExtractedPointLight2d,
    occluders: Seq<ExtractedLightOccluder2d>,
    p: Vec2i,
)
    requires
        dist_sq(l.transform, p) >= radius_sq(l.radius as int),
    ensures
        point_factor(l, occluders, p) == 0,
        forall|k: int| #[trigger] point_term(l, occluders, p, k) == 0,
{
    assert forall|k: int| #[trigger] point_term(l, occluders, p, k) == 0 by {
        lemma_lit_zero(l.color.channel(k), l.intensity as int);
    }
}

/// The ambient term does not depend on the scene: with no lights a pixel
/// gets exactly the ambient light, whatever the occluders, and with lights
/// it gets that same ambient light plus the lights' own sums.
pub proof fn lemma_ambient_independent_of_scene(
    ambient: LightLevel,
    points: Seq<ExtractedPointLight2d>,
    spots: Seq<ExtractedSpotLight2d>,
    occluders: Seq<ExtractedLightOccluder2d>,
    bare_occluders: Seq<ExtractedLightOccluder2d>,
    p: Vec2i,
    q: Vec2i,
    k: int,
)
    ensures
        light_at(ambient, Seq::empty(), Seq::empty(), bare_occluders, q, k) == ambient.channel(k),
        light_at(ambient, points, spots, occluders, p, k) == light_at(
            ambient,
            Seq::empty(),
            Seq::empty(),
            bare_occluders,
            q,
            k,
        ) + point_sum(points, occluders, p, k) + spot_sum(spots, occluders, p, k),
{
}

/// With no ambient light and no lights, every pixel is black, whatever the
/// scene's color.
pub proof fn lemma_dark_without_light(
    ambient: LightLevel,
    occluders: Seq<ExtractedLightOccluder2d>,
    p: Vec2i,
    k: int,
    scene: int,
    hdr: bool,
)
    requires
        ambient.channel(k) == 0,
    ensures
        composite(scene, light_at(ambient, Seq::empty(), Seq::empty(), occluders, p, k), hdr) == 0,
{
    assert(scene * 0 == 0) by (nonlinear_arith);
}

/// The point light with a spot light's position, color, intensity, radius,
/// falloff and shadow flag.
pub open spec fn as_point_light(l: ExtractedSpotLight2d) -> ExtractedPointLight2d {
    ExtractedPointLight2d {
        transform: l.center,
        radius: l.radius,
        color: l.color,
        intensity: l.intensity,
        falloff: l.falloff,
        cast_shadows: l.cast_shadows,
    }
}

/// A spot light adds nothing to a pixel outside its lit cone, at any distance.
pub proof fn lemma_spot_dark_outside_outer(
    l: ExtractedSpotLight2d,
    occluders: Seq<ExtractedLightOccluder2d>,
    p: Vec2i,
)
    requires
        outside_outer(l, p),
    ensures
        spot_factor(l, occluders, p) == 0,
        forall|k: int| #[trigger] spot_term(l, occluders, p, k) == 0,
{
    let a = attenuation_of(l.radius as int, l.falloff as int, dist_sq(l.center, p));
    assert(a * 0 == 0) by (nonlinear_arith);
    assert forall|k: int| #[trigger] spot_term(l, occluders, p, k) == 0 by {
        lemma_lit_zero(l.color.channel(k), l.intensity as int);
    }
}

/// Inside its full-strength cone a spot light whose cones are well formed
/// lights a pixel exactly as the point light with its parameters would.
pub proof fn lemma_spot_inside_inner_as_point(
    l: ExtractedSpotLight2d,
    occluders: Seq<ExtractedLightOccluder2d>,
    p: Vec2i,
)
    requires
        l.outer_cos < l.inner_cos,
        l.outer_cos < ONE,
        -ONE < l.inner_cos,
        inside_inner(l, p),
    ensures
        spot_factor(l, occluders, p) == point_factor(as_point_light(l), occluders, p),
        forall|k: int| #[trigger] spot_term(l, occluders, p, k) == point_term(as_point_light(l), occluders, p, k),
{
    lemma_inside_not_outside(l, along_axis(l, p), spread_sq(l, p));
    assert(!outside_outer(l, p));
    assert(cone_of(l, p) == ONE);
    let a = attenuation_of(l.radius as int, l.falloff as int, dist_sq(l.center, p));
    assert(a * 65536 / 65536 == a);
}

/// A point light of intensity zero or radius zero adds nothing anywhere.
pub proof fn lemma_inert_point_light(
    l: ExtractedPointLight2d,
    occluders: Seq<ExtractedLightOccluder2d>,
    p: Vec2i,
)
    requires
        l.intensity == 0 || l.radius == 0,
    ensures
        forall|k: int| #[trigger] point_term(l, occluders, p, k) == 0,
{
    assert forall|k: int| #[trigger] point_term(l, occluders, p, k) == 0 by {
        let c = l.color.channel(k);
        let f = point_factor(l, occluders, p);
        if l.radius == 0 {
            assert(dist_sq(l.transform, p) >= 0) by (nonlinear_arith);
            assert(radius_sq(0) == 0);
            lemma_lit_zero(c, l.intensity as int);
        } else {
            assert(c * 0 * f == 0) by (nonlinear_arith);
        }
    }
}

/// A spot light of intensity zero or radius zero adds nothing anywhere.
pub proof fn lemma_inert_spot_light(
    l: ExtractedSpotLight2d,
    occluders: Seq<ExtractedLightOccluder2d>,
    p: Vec2i,
)
    requires
        l.intensity == 0 || l.radius == 0,
    ensures
        forall|k: int| #[trigger] spot_term(l, occluders, p, k) == 0,
{
    assert forall|k: int| #[trigger] spot_term(l, occluders, p, k) == 0 by {
        let c = l.color.channel(k);
        let f = spot_factor(l, occluders, p);
        if l.radius == 0 {
            assert(dist_sq(l.center, p) >= 0) by (nonlinear_arith);
            assert(radius_sq(0) == 0);
            lemma_lit_zero(c, l.intensity as int);
        } else {
            assert(c * 0 * f == 0) by (nonlinear_arith);
        }
    }
}

proof fn lemma_point_sum_concat(
    a: Seq<ExtractedPointLight2d>,
    b: Seq<ExtractedPointLight2d>,
    occluders: Seq<ExtractedLightOccluder2d>,
    p: Vec2i,
    k: int,
)
    ensures
        point_sum(a + b, occluders, p, k) == point_sum(a, occluders, p, k) + point_sum(b, occluders, p, k),
    decreases b.len(),
{
    if b.len() == 0 {
        assert(a + b =~= a);
    } else {
        lemma_point_sum_concat(a, b.drop_last(), occluders, p, k);
        assert((a + b).drop_last() =~= a + b.drop_last());
        assert((a + b).last() == b.last());
    }
}

proof fn lemma_spot_sum_concat(
    a: Seq<ExtractedSpotLight2d>,
    b: Seq<ExtractedSpotLight2d>,
    occluders: Seq<ExtractedLightOccluder2d>,
    p: Vec2i,
    k: int,
)
    ensures
        spot_sum(a + b, occluders, p, k) == spot_sum(a, occluders, p, k) + spot_sum(b, occluders, p, k),
    decreases b.len(),
{
    if b.len() == 0 {
        assert(a + b =~= a);
    } else {
        lemma_spot_sum_concat(a, b.drop_last(), occluders, p, k);
        assert((a + b).drop_last() =~= a + b.drop_last());
        assert((a + b).last() == b.last());
    }
}

/// The order of the lights does not matter: two batches of lights, in
/// either order, light every pixel alike.
pub proof fn lemma_light_order_irrelevant(
    ambient: LightLevel,
    points_a: Seq<ExtractedPointLight2d>,
    points_b: Seq<ExtractedPointLight2d>,
    spots_a: Seq<ExtractedSpotLight2d>,
    spots_b: Seq<ExtractedSpotLight2d>,
    occluders: Seq<ExtractedLightOccluder2d>,
    p: Vec2i,
    k: int,
)
    ensures
        light_at(ambient, points_a + points_b, spots_a + spots_b, occluders, p, k) == light_at(
            ambient,
            points_b + points_a,
            spots_b + spots_a,
            occluders,
            p,
            k,
        ),
{
    lemma_point_sum_concat(points_a, points_b, occluders, p, k);
    lemma_point_sum_concat(points_b, points_a, occluders, p, k);
    lemma_spot_sum_concat(spots_a, spots_b, occluders, p, k);
    lemma_spot_sum_concat(spots_b, spots_a, occluders, p, k);
}

/// A white point light of intensity 1.0, no falloff and no shadows gives a
/// pixel at half its radius exactly `9/16` of the light it gives at its
/// centre: more than the ambient light alone, and less than at distance 0.
pub proof fn lemma_half_radius_point_light(
    ambient: LightLevel,
    l: ExtractedPointLight2d,
    occluders: Seq<ExtractedLightOccluder2d>,
    p: Vec2i,
    k: int,
)
    requires
        l.color == LinearRgb::white_spec(),
        l.intensity == ONE,
        l.falloff == 0,
        l.cast_shadows == 0,
        l.radius > 0,
        0 <= k < 3,
        4 * dist_sq(l.transform, p) == radius_sq(l.radius as int),
    ensures
        light_at(ambient, seq![l], Seq::empty(), occluders, p, k) == ambient.channel(k) + 36864,
        light_at(ambient, seq![l], Seq::empty(), occluders, l.transform, k) == ambient.channel(k) + ONE,
        ambient.channel(k) < light_at(ambient, seq![l], Seq::empty(), occluders, p, k) < light_at(
            ambient,
            seq![l],
            Seq::empty(),
            occluders,
            l.transform,
            k,
        ),
{
    assert(seq![l].drop_last() =~= Seq::<ExtractedPointLight2d>::empty());
    let r2 = radius_sq(l.radius as int);
    let d2 = dist_sq(l.transform, p);
    assert(r2 > 0) by (nonlinear_arith)
        requires r2 == (l.radius as int) * (l.radius as int), l.radius > 0;
    assert(d2 > 0);
    assert(d2 < r2);
    let num = ONE * ONE * ((r2 - d2) * (r2 - d2));
    let den = r2 * (ONE * r2 + 0 * d2);
    assert(num == 36864 * den) by (nonlinear_arith)
        requires r2 == 4 * d2, num == 65536 * 65536 * ((r2 - d2) * (r2 - d2)), den == r2 * (65536 * r2 + 0 * d2);
    assert(den > 0) by (nonlinear_arith)
        requires r2 > 0, den == r2 * (65536 * r2 + 0 * d2);
    assert(num / den == 36864) by (nonlinear_arith)
        requires num == 36864 * den, den > 0;
    assert(attenuation_of(l.radius as int, 0, d2) == 36864);
    assert(dist_sq(l.transform, l.transform) == 0);
    crate::fixed::lemma_attenuation_peak(l.radius, 0, 0);
    assert(l.color.channel(k) == ONE);
    assert(lit(65536, 65536, 36864) == 36864) by (nonlinear_arith);
    assert(lit(65536, 65536, 65536) == 65536) by (nonlinear_arith);
    assert(seq![l].last() == l);
    assert(point_factor(l, occluders, p) == 36864);
    assert(point_factor(l, occluders, l.transform) == ONE);
    assert(point_term(l, occluders, p, k) == 36864);
    assert(point_term(l, occluders, l.transform, k) == ONE);
    assert(point_sum(Seq::<ExtractedPointLight2d>::empty(), occluders, p, k) == 0);
    assert(point_sum(Seq::<ExtractedPointLight2d>::empty(), occluders, l.transform, k) == 0);
    assert(spot_sum(Seq::<ExtractedSpotLight2d>::empty(), occluders, p, k) == 0);
    assert(spot_sum(Seq::<ExtractedSpotLight2d>::empty(), occluders, l.transform, k) == 0);
    assert(point_sum(seq![l], occluders, p, k) == 36864);
    assert(point_sum(seq![l], occluders, l.transform, k) == ONE);
}

} // verus!
