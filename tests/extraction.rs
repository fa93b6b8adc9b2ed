use light_2d::extract::{
    extract_ambient_lights, extract_light_occluders, extract_point_lights, extract_spot_lights,
    ExtractedLightOccluder2d, PointLight2dBundle, WorldItem,
};
use light_2d::fixed::{ONE, UNIT};
use light_2d::light::{
    AmbientLight2d, Light2d, LightOccluder2d, LightOccluder2dShape, LinearRgb, PointLight2d,
    SpotLight2d, Vec2i,
};

const ONE32: u32 = ONE as u32;

fn item<T>(entity: u64, item: T, translation: Option<Vec2i>, view_visible: bool) -> WorldItem<T> {
    WorldItem { entity, item, translation, view_visible }
}

#[test]
fn hidden_point_light_is_not_extracted() {
    let l = PointLight2d::default();
    let items = vec![
        item(1, l, Some(Vec2i { x: 1, y: 2 }), true),
        item(2, l, Some(Vec2i { x: 3, y: 4 }), false),
        item(3, l, Some(Vec2i { x: 5, y: 6 }), true),
    ];
    let out = extract_point_lights(&items);
    let ids: Vec<u64> = out.iter().map(|r| r.0).collect();
    assert_eq!(ids, vec![1, 3]);
    assert_eq!(out[1].1.transform, Vec2i { x: 5, y: 6 });
}

#[test]
fn point_light_without_transform_is_skipped() {
    let l = PointLight2d::default();
    let out = extract_point_lights(&vec![item(7, l, None, true)]);
    assert!(out.is_empty());
}

#[test]
fn point_light_record_fields() {
    let l = PointLight2d {
        color: LinearRgb { r: 1, g: 2, b: 3 },
        intensity: 2 * ONE32,
        radius: 40,
        falloff: ONE32 / 2,
        cast_shadows: true,
    };
    let out = extract_point_lights(&vec![item(9, l, Some(Vec2i { x: -4, y: 8 }), true)]);
    assert_eq!(out.len(), 1);
    let r = out[0].1;
    assert_eq!(out[0].0, 9);
    assert_eq!(r.transform, Vec2i { x: -4, y: 8 });
    assert_eq!(r.color, LinearRgb { r: 1, g: 2, b: 3 });
    assert_eq!(r.intensity, 2 * ONE32);
    assert_eq!(r.radius, 40);
    assert_eq!(r.falloff, ONE32 / 2);
    assert_eq!(r.cast_shadows, 1);
}

#[test]
fn spot_light_record_fields() {
    let l = SpotLight2d { cast_shadows: false, source_width: 3, ..SpotLight2d::default() };
    let items = vec![
        item(4, l, Some(Vec2i { x: 10, y: 0 }), true),
        item(5, l, Some(Vec2i { x: 0, y: 0 }), false),
    ];
    let out = extract_spot_lights(&items);
    assert_eq!(out.len(), 1);
    let r = out[0].1;
    assert_eq!(out[0].0, 4);
    assert_eq!(r.center, Vec2i { x: 10, y: 0 });
    assert_eq!(r.direction, Vec2i { x: 0, y: -(ONE as i32) });
    assert_eq!(r.inner_cos, -(ONE as i32));
    assert_eq!(r.outer_cos, 0);
    assert_eq!(r.source_width, 3);
    assert_eq!(r.cast_shadows, 0);
}

#[test]
fn occluder_records_for_visible_rectangles() {
    let o = LightOccluder2d { shape: LightOccluder2dShape::Rectangle { half_width: 6, half_height: 2 } };
    let items = vec![
        item(1, o, Some(Vec2i { x: 3, y: 3 }), false),
        item(2, o, None, true),
        item(3, o, Some(Vec2i { x: -1, y: 0 }), true),
    ];
    let out = extract_light_occluders(&items);
    assert_eq!(out, vec![(3, ExtractedLightOccluder2d { half_width: 6, half_height: 2, center: Vec2i { x: -1, y: 0 } })]);
}

#[test]
fn ambient_color_times_brightness() {
    let cams = vec![
        (1u64, Light2d { ambient_light: AmbientLight2d { color: LinearRgb { r: ONE32, g: ONE32 / 2, b: 0 }, brightness: ONE32 / 2 } }),
        (2u64, Light2d::default()),
        (3u64, Light2d { ambient_light: AmbientLight2d { color: LinearRgb::white(), brightness: 0 } }),
    ];
    let out = extract_ambient_lights(&cams);
    assert_eq!(out.len(), 3);
    assert_eq!((out[0].1.color.r, out[0].1.color.g, out[0].1.color.b), (ONE / 2, ONE / 4, 0));
    assert_eq!((out[1].1.color.r, out[1].1.color.g, out[1].1.color.b), (ONE, ONE, ONE));
    assert_eq!((out[2].1.color.r, out[2].1.color.g, out[2].1.color.b), (0, 0, 0));
    assert_eq!(out[2].0, 3);
}

#[test]
fn ambient_extraction_of_bright_channels() {
    let cams = vec![(1u64, Light2d { ambient_light: AmbientLight2d { color: LinearRgb { r: u32::MAX, g: 0, b: 1 }, brightness: u32::MAX } })];
    let out = extract_ambient_lights(&cams);
    assert_eq!(out[0].1.color.r, (u32::MAX as u64) * (u32::MAX as u64) / ONE);
    assert_eq!(out[0].1.color.b, (u32::MAX as u64) / ONE);
}

#[test]
fn defaults_of_lights() {
    let p = PointLight2d::default();
    assert_eq!(p.color, LinearRgb::white());
    assert_eq!((p.intensity, p.radius, p.falloff, p.cast_shadows), (ONE32, UNIT / 2, 0, false));
    assert_eq!(p.radius, 8);
    let s = SpotLight2d::default();
    assert_eq!((s.intensity, s.radius, s.source_width, s.cast_shadows), (ONE32, 8, 16, false));
    let a = AmbientLight2d::default();
    assert_eq!((a.color, a.brightness), (LinearRgb::white(), ONE32));
    assert_eq!(LinearRgb::black(), LinearRgb { r: 0, g: 0, b: 0 });
    assert_eq!(LinearRgb { r: 1, g: 2, b: 3 }.channel_at(2), 3);
}

#[test]
fn bundle_carries_position_into_extraction() {
    let hidden = PointLight2dBundle::default();
    assert!(!hidden.view_visible);
    let shown = PointLight2dBundle { translation: Vec2i { x: 2, y: -3 }, view_visible: true, ..PointLight2dBundle::default() };
    let items = vec![hidden.into_world_item(1), shown.into_world_item(2)];
    assert_eq!(items[1].translation, Some(Vec2i { x: 2, y: -3 }));
    let out = extract_point_lights(&items);
    assert_eq!(out.len(), 1);
    assert_eq!(out[0].0, 2);
    assert_eq!(out[0].1.transform, Vec2i { x: 2, y: -3 });
}
