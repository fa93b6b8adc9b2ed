use light_2d::cone::cone_factor;
use light_2d::extract::{
    ExtractedAmbientLight2d, ExtractedLightOccluder2d, ExtractedPointLight2d,
    ExtractedSpotLight2d, LightLevel,
};
use light_2d::fixed::{attenuation, isqrt, ONE, UNIT};

const U: u16 = UNIT;
use light_2d::light::{LinearRgb, Vec2i};
use light_2d::occlusion::{is_shadowed, occluder_blocks};
use light_2d::shading::{
    composite_channel, distance_sq, point_light_factor, shade_pixel, spot_light_factor,
    LightingFrame,
};

const ONE32: u32 = ONE as u32;

fn at(x: i32, y: i32) -> Vec2i {
    Vec2i { x, y }
}

fn gray(v: u32) -> LinearRgb {
    LinearRgb { r: v, g: v, b: v }
}

fn white_point_light(x: i32, y: i32, radius: u16, cast_shadows: u32) -> ExtractedPointLight2d {
    ExtractedPointLight2d {
        transform: at(x, y),
        radius,
        color: LinearRgb::white(),
        intensity: ONE32,
        falloff: 0,
        cast_shadows,
    }
}

fn ambient(level: u64) -> ExtractedAmbientLight2d {
    ExtractedAmbientLight2d { color: LightLevel { r: level, g: level, b: level } }
}

fn frame(
    level: u64,
    point_lights: Vec<ExtractedPointLight2d>,
    spot_lights: Vec<ExtractedSpotLight2d>,
    occluders: Vec<ExtractedLightOccluder2d>,
) -> LightingFrame {
    LightingFrame { ambient: ambient(level), point_lights, spot_lights, occluders }
}

fn rect(x: i32, y: i32, half_width: u32, half_height: u32) -> ExtractedLightOccluder2d {
    ExtractedLightOccluder2d { half_width, half_height, center: at(x, y) }
}

fn right_spot(source_width: u32) -> ExtractedSpotLight2d {
    ExtractedSpotLight2d {
        center: at(0, 0),
        radius: 10,
        color: LinearRgb::white(),
        intensity: ONE32,
        falloff: 0,
        direction: at(ONE as i32, 0),
        inner_cos: 56756,
        outer_cos: 32768,
        source_width,
        cast_shadows: 0,
    }
}

#[test]
fn attenuation_is_zero_at_and_beyond_radius() {
    assert_eq!(attenuation(10, 0, 100), 0);
    assert_eq!(attenuation(10, 0, 101), 0);
    assert_eq!(attenuation(10, ONE32, 10_000), 0);
    assert_eq!(attenuation(1, 0, 1), 0);
}

#[test]
fn attenuation_peaks_at_distance_zero() {
    assert_eq!(attenuation(10, 0, 0), ONE);
    assert_eq!(attenuation(10, 5 * ONE32, 0), ONE);
    assert_eq!(attenuation(65535, u32::MAX, 0), ONE);
    for d2 in 0..100u128 {
        assert!(attenuation(10, ONE32, d2) <= attenuation(10, ONE32, 0));
    }
}

#[test]
fn attenuation_exact_values() {
    assert_eq!(attenuation(10, 0, 25), 36864);
    assert_eq!(attenuation(10, ONE32, 25), 29491);
    assert!(attenuation(10, 4 * ONE32, 25) < attenuation(10, ONE32, 25));
}

#[test]
fn attenuation_of_zero_radius_light_is_zero() {
    assert_eq!(attenuation(0, 0, 0), 0);
    assert_eq!(attenuation(0, ONE32, 7), 0);
}

#[test]
fn integer_square_root_rounds_down() {
    assert_eq!(isqrt(0), 0);
    assert_eq!(isqrt(15), 3);
    assert_eq!(isqrt(16), 4);
    assert_eq!(isqrt(50 * (ONE as u128) * (ONE as u128)), 463409);
}

#[test]
fn distance_squared_between_points() {
    assert_eq!(distance_sq(at(0, 0), at(3, 4)), 25);
    assert_eq!(distance_sq(at(i32::MIN, i32::MIN), at(i32::MAX, i32::MAX)), 2 * (u32::MAX as u128) * (u32::MAX as u128));
}

#[test]
fn spot_cone_full_inside_inner_and_dark_outside_outer() {
    let l = right_spot(0);
    assert_eq!(cone_factor(&l, at(5, 0)), ONE);
    assert_eq!(cone_factor(&l, at(-5, 0)), 0);
    assert_eq!(cone_factor(&l, at(0, 5)), 0);
    assert_eq!(cone_factor(&l, at(0, 0)), ONE);
}

#[test]
fn spot_cone_between_inner_and_outer() {
    let l = right_spot(0);
    assert_eq!(cone_factor(&l, at(5, 5)), 37081);
    assert_eq!(spot_light_factor(&l, &vec![], at(5, 5)), 9270);
}

#[test]
fn spot_source_width_softens_the_band_only() {
    assert_eq!(cone_factor(&right_spot(1), at(5, 5)), 39702);
    assert_eq!(cone_factor(&right_spot(1), at(50, 50)), 37342);
    assert_eq!(cone_factor(&right_spot(0), at(50, 50)), 37081);
    assert_eq!(cone_factor(&right_spot(1000), at(5, 5)), ONE);
    for w in [0u32, 4, 16, 1000] {
        assert_eq!(cone_factor(&right_spot(w), at(1, 2)), 0);
        assert_eq!(spot_light_factor(&right_spot(w), &vec![], at(1, 2)), 0);
        assert_eq!(cone_factor(&right_spot(w), at(-1, 0)), 0);
    }
}

#[test]
fn spot_cone_ignores_direction_length_up_to_rounding() {
    let short = ExtractedSpotLight2d { direction: at(ONE as i32 / 2, 0), ..right_spot(1) };
    assert_eq!(cone_factor(&short, at(5, 5)), 39704);
    assert_eq!(cone_factor(&short, at(50, 50)), 37342);
    assert_eq!(cone_factor(&short, at(1, 2)), 0);
}

#[test]
fn spot_dark_just_outside_outer_angle() {
    let l = ExtractedSpotLight2d {
        radius: 160,
        inner_cos: 60000,
        outer_cos: 46341,
        source_width: 16,
        ..right_spot(16)
    };
    assert_eq!(cone_factor(&l, at(1, 1)), 0);
    assert_eq!(spot_light_factor(&l, &vec![], at(1, 1)), 0);
    assert_eq!(cone_factor(&l, at(100, 100)), 0);
    assert!(cone_factor(&l, at(101, 100)) > 0);
}

#[test]
fn spot_cone_falls_with_angle_at_fixed_distance() {
    let l = right_spot(4);
    let mut last = ONE;
    for y in 0..=10 {
        let x = ((100 - y * y) as f64).sqrt();
        if x.fract() == 0.0 {
            let c = cone_factor(&l, at(x as i32, y));
            assert!(c <= last);
            last = c;
        }
    }
    let ring = [at(10, 0), at(8, 6), at(6, 8), at(0, 10), at(-6, 8), at(-10, 0)];
    for w in ring.windows(2) {
        assert!(cone_factor(&l, w[1]) <= cone_factor(&l, w[0]));
    }
}

#[test]
fn spot_outside_outer_is_dark_at_any_distance() {
    let l = right_spot(0);
    for x in 1..10 {
        assert_eq!(spot_light_factor(&l, &vec![], at(-x, 0)), 0);
        assert_eq!(spot_light_factor(&l, &vec![], at(0, x)), 0);
    }
}

#[test]
fn spot_inside_inner_matches_point_light() {
    let l = right_spot(0);
    let p = white_point_light(0, 0, 10, 0);
    for x in 0..12 {
        assert_eq!(spot_light_factor(&l, &vec![], at(x, 0)), point_light_factor(&p, &vec![], at(x, 0)));
    }
}

#[test]
fn occluder_between_blocks() {
    assert!(occluder_blocks(&rect(2, 0, 1, 1), at(0, 0), at(5, 0)));
    assert!(occluder_blocks(&rect(2, 2, 1, 1), at(0, 0), at(5, 5)));
}

#[test]
fn occluder_aside_does_not_block() {
    assert!(!occluder_blocks(&rect(2, 5, 1, 1), at(0, 0), at(5, 0)));
    assert!(!occluder_blocks(&rect(8, 0, 1, 1), at(0, 0), at(5, 0)));
    assert!(!occluder_blocks(&rect(4, 0, 1, 1), at(0, 0), at(0, 6)));
    assert!(!occluder_blocks(&rect(3, 0, 1, 1), at(0, 3), at(3, 6)));
}

#[test]
fn zero_extent_occluder_is_inert() {
    assert!(!occluder_blocks(&rect(2, 0, 0, 1), at(0, 0), at(5, 0)));
    assert!(!occluder_blocks(&rect(2, 0, 1, 0), at(0, 0), at(5, 0)));
    assert!(!is_shadowed(&vec![rect(2, 0, 0, 0)], at(0, 0), at(5, 0)));
}

#[test]
fn shadowed_when_any_occluder_blocks() {
    let occluders = vec![rect(2, 5, 1, 1), rect(2, 0, 1, 1)];
    assert!(is_shadowed(&occluders, at(0, 0), at(5, 0)));
    assert!(!is_shadowed(&occluders, at(0, 0), at(0, -5)));
    assert!(!is_shadowed(&vec![], at(0, 0), at(5, 0)));
}

#[test]
fn light_without_shadows_ignores_occluders() {
    let l = white_point_light(0, 0, 10, 0);
    let occluders = vec![rect(2, 0, 1, 1)];
    assert_eq!(point_light_factor(&l, &occluders, at(5, 0)), 36864);
    let shadowing = white_point_light(0, 0, 10, 1);
    assert_eq!(point_light_factor(&shadowing, &occluders, at(5, 0)), 0);
}

#[test]
fn point_light_brighter_than_ambient_dimmer_than_center() {
    let scene = gray(ONE32 / 2);
    let lit = frame(6553, vec![white_point_light(0, 0, 10 * U, 0)], vec![], vec![]);
    let bare = frame(6553, vec![], vec![], vec![]);
    let baseline = shade_pixel(&bare, scene, at(5 * U as i32, 0), false);
    let mid = shade_pixel(&lit, scene, at(5 * U as i32, 0), false);
    let center = shade_pixel(&lit, scene, at(0, 0), false);
    assert_eq!(baseline, gray(3276));
    assert_eq!(mid, gray(21708));
    assert_eq!(center, gray(36044));
    assert!(baseline.r < mid.r && mid.r < center.r);
}

#[test]
fn occluded_point_light_leaves_ambient_only() {
    let scene = gray(ONE32 / 2);
    let blocked = frame(6553, vec![white_point_light(0, 0, 10 * U, 1)], vec![], vec![rect(2 * U as i32, 0, U as u32, U as u32)]);
    let bare = frame(6553, vec![], vec![], vec![]);
    assert_eq!(shade_pixel(&blocked, scene, at(5 * U as i32, 0), false), shade_pixel(&bare, scene, at(5 * U as i32, 0), false));
}

#[test]
fn zero_ambient_without_lights_is_black() {
    let dark = frame(0, vec![], vec![], vec![rect(2, 0, 1, 1)]);
    for v in [0u32, 1, ONE32 / 3, ONE32, u32::MAX] {
        assert_eq!(shade_pixel(&dark, gray(v), at(3, 7), false), gray(0));
        assert_eq!(shade_pixel(&dark, gray(v), at(-3, 7), true), gray(0));
    }
}

#[test]
fn ambient_same_with_and_without_lights_out_of_reach() {
    let scene = gray(ONE32);
    let bare = frame(ONE as u64 / 4, vec![], vec![], vec![]);
    let busy = frame(
        ONE as u64 / 4,
        vec![white_point_light(100, 100, 10, 1)],
        vec![right_spot(0)],
        vec![rect(2, 0, 1, 1)],
    );
    assert_eq!(shade_pixel(&bare, scene, at(-5, 0), false), gray(ONE32 / 4));
    assert_eq!(shade_pixel(&busy, scene, at(-5, 0), false), gray(ONE32 / 4));
}

#[test]
fn output_clamped_to_format_range() {
    assert_eq!(composite_channel(ONE32, 3 * ONE as u128, false), ONE32);
    assert_eq!(composite_channel(ONE32, 3 * ONE as u128, true), 3 * ONE32);
    assert_eq!(composite_channel(u32::MAX, u128::MAX, true), 65504 * ONE32);
    assert_eq!(composite_channel(ONE32, 70000 * ONE as u128, true), 65504 * ONE32);
    assert_eq!(composite_channel(ONE32, 65000 * ONE as u128, true), 65000 * ONE32);
    assert_eq!(composite_channel(0, u128::MAX, true), 0);
    assert_eq!(composite_channel(ONE32 / 2, ONE as u128 / 2, false), ONE32 / 4);
}

#[test]
fn lights_add_up_per_channel() {
    let red = ExtractedPointLight2d {
        color: LinearRgb { r: ONE32, g: 0, b: 0 },
        ..white_point_light(0, 0, 10, 0)
    };
    let blue = ExtractedPointLight2d {
        color: LinearRgb { r: 0, g: 0, b: ONE32 },
        ..white_point_light(0, 0, 10, 0)
    };
    let f = frame(0, vec![red, blue], vec![], vec![]);
    let out = shade_pixel(&f, gray(ONE32 / 2), at(5, 0), true);
    assert_eq!(out, LinearRgb { r: 18432, g: 0, b: 18432 });
}

#[test]
fn attenuation_never_rises_with_distance() {
    for falloff in [0u32, ONE32, 10 * ONE32] {
        let mut last = attenuation(20, falloff, 0);
        for d2 in 1..450u128 {
            let a = attenuation(20, falloff, d2);
            assert!(a <= last);
            last = a;
        }
    }
}

#[test]
fn light_order_does_not_matter() {
    let a = white_point_light(0, 0, 10, 0);
    let b = ExtractedPointLight2d { color: LinearRgb { r: ONE32, g: 0, b: ONE32 / 3 }, ..white_point_light(3, 1, 8, 0) };
    let ab = frame(100, vec![a, b], vec![right_spot(0)], vec![]);
    let ba = frame(100, vec![b, a], vec![right_spot(0)], vec![]);
    for x in -6..7 {
        let p = at(x, 1);
        assert_eq!(shade_pixel(&ab, gray(ONE32), p, true), shade_pixel(&ba, gray(ONE32), p, true));
    }
}

#[test]
fn zero_intensity_or_radius_light_adds_nothing() {
    let dim = ExtractedPointLight2d { intensity: 0, ..white_point_light(0, 0, 10, 0) };
    let tiny = white_point_light(0, 0, 0, 0);
    let f = frame(ONE as u64 / 2, vec![dim, tiny], vec![ExtractedSpotLight2d { radius: 0, ..right_spot(0) }], vec![]);
    for x in 0..3 {
        assert_eq!(shade_pixel(&f, gray(ONE32), at(x, 0), false), gray(ONE32 / 2));
    }
}
