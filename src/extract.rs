//! Per-frame extraction of visible lights and occluders into render records.
//!
//! Each extraction builds a fresh batch from the world's current state: one
//! record per entity whose view-visibility flag is set and whose position is
//! known, and none for any other.
use vstd::prelude::*;
use crate::fixed::{ONE, UNIT};
use crate::light::{
    AmbientLight2d, Light2d, LightOccluder2d, LightOccluder2dShape, LinearRgb, PointLight2d,
    SpotLight2d, Vec2i,
};

verus! {

/// An entity of the world as the extraction sees it: its identity, its light
/// or occluder parameters, its resolved position in the view (absent when the
/// transform is missing or invalid) and its view-visibility flag.
#[derive(Debug)]
pub struct WorldItem<T> {
    pub entity: u64,
    pub item: T,
    pub translation: Option<Vec2i>,
    pub view_visible: bool,
}

/// A point light together with the position and visibility data that its
/// extraction needs, so that it is never handed over without them.
#[derive(Clone, Copy, Debug)]
pub struct PointLight2dBundle {
    pub point_light: PointLight2d,
    pub translation: Vec2i,
    pub view_visible: bool,
}

impl Default for PointLight2dBundle {
    /// The default light at the origin, not yet seen by any view.
    fn default() -> (r: PointLight2dBundle)
        ensures
            r.translation == (Vec2i { x: 0, y: 0 }),
            !r.view_visible,
            r.point_light.radius == UNIT / 2,
            r.point_light.intensity == ONE,
    {
        PointLight2dBundle {
            point_light: PointLight2d::default(),
            translation: Vec2i { x: 0, y: 0 },
            view_visible: false,
        }
    }
}

impl PointLight2dBundle {
    /// The world entry of this light as entity `entity`; its position is
    /// always present.
    pub fn into_world_item(self, entity: u64) -> (r: WorldItem<PointLight2d>)
        ensures
            r.entity == entity,
            r.item == self.point_light,
            r.translation == Some(self.translation),
            r.view_visible == self.view_visible,
    {
        WorldItem {
            entity,
            item: self.point_light,
            translation: Some(self.translation),
            view_visible: self.view_visible,
        }
    }
}

/// An amount of light per channel, fixed-point with `ONE` as 1.0.
#[derive(Clone, Copy, Debug, PartialEq, Eq, Structural)]
pub struct LightLevel {
    pub r: u64,
    pub g: u64,
    pub b: u64,
}

impl LightLevel {
    pub open spec fn channel(self, k: int) -> int {
        if k == 0 {
            self.r as int
        } else if k == 1 {
            self.g as int
        } else {
            self.b as int
        }
    }
}

/// A visible point light as the compositor reads it; `cast_shadows` is 1 or 0.
#[derive(Clone, Copy, Debug, PartialEq, Eq, Structural)]
pub struct ExtractedPointLight2d {
    pub transform: Vec2i,
    pub radius: u16,
    pub color: LinearRgb,
    pub intensity: u32,
    pub falloff: u32,
    pub cast_shadows: u32,
}

/// A visible spot light as the compositor reads it; `cast_shadows` is 1 or 0.
#[derive(Clone, Copy, Debug, PartialEq, Eq, Structural)]
pub struct ExtractedSpotLight2d {
    pub center: Vec2i,
    pub radius: u16,
    pub color: LinearRgb,
    pub intensity: u32,
    pub falloff: u32,
    pub direction: Vec2i,
    pub inner_cos: i32,
    pub outer_cos: i32,
    pub source_width: u32,
    pub cast_shadows: u32,
}

/// A visible occluder: an axis-aligned rectangle around `center`.
#[derive(Clone, Copy, Debug, PartialEq, Eq, Structural)]
pub struct ExtractedLightOccluder2d {
    pub half_width: u32,
    pub half_height: u32,
    pub center: Vec2i,
}

/// A view's ambient light: its color already scaled by its brightness.
#[derive(Clone, Copy, Debug, PartialEq, Eq, Structural)]
pub struct ExtractedAmbientLight2d {
    pub color: LightLevel,
}

/// A boolean flag as the integer code the GPU buffers hold.
pub open spec fn flag_code(b: bool) -> u32 {
    if b {
        1
    } else {
        0
    }
}

/// The items that produce a record, in their order in the world.
pub open spec fn extractable<T>(s: Seq<WorldItem<T>>) -> Seq<WorldItem<T>>
    decreases s.len(),
{
    if s.len() == 0 {
        Seq::empty()
    } else {
        let prev = extractable(s.drop_last());
        let w = s.last();
        if w.view_visible && w.translation is Some {
            prev.push(w)
        } else {
            prev
        }
    }
}

pub open spec fn point_record(l: PointLight2d, at: Vec2i) -> ExtractedPointLight2d {
    ExtractedPointLight2d {
        transform: at,
        radius: l.radius,
        color: l.color,
        intensity: l.intensity,
        falloff: l.falloff,
        cast_shadows: flag_code(l.cast_shadows),
    }
}

pub open spec fn spot_record(l: SpotLight2d, at: Vec2i) -> ExtractedSpotLight2d {
    ExtractedSpotLight2d {
        center: at,
        radius: l.radius,
        color: l.color,
        intensity: l.intensity,
        falloff: l.falloff,
        direction: l.direction,
        inner_cos: l.inner_cos,
        outer_cos: l.outer_cos,
        source_width: l.source_width,
        cast_shadows: flag_code(l.cast_shadows),
    }
}

pub open spec fn occluder_record(o: LightOccluder2d, at: Vec2i) -> ExtractedLightOccluder2d {
    match o.shape {
        LightOccluder2dShape::Rectangle { half_width, half_height } => ExtractedLightOccluder2d {
            half_width,
            half_height,
            center: at,
        },
    }
}

/// A color channel times a brightness, both fixed-point.
pub open spec fn scaled_channel(c: int, brightness: int) -> int {
    c * brightness / (ONE as int)
}

pub open spec fn ambient_record(a: AmbientLight2d) -> ExtractedAmbientLight2d {
    ExtractedAmbientLight2d {
        color: LightLevel {
            r: scaled_channel(a.color.r as int, a.brightness as int) as u64,
            g: scaled_channel(a.color.g as int, a.brightness as int) as u64,
            b: scaled_channel(a.color.b as int, a.brightness as int) as u64,
        },
    }
}

proof fn lemma_extractable_step<T>(s: Seq<WorldItem<T>>, i: int)
    requires
        0 <= i < s.len(),
    ensures
        extractable(s.subrange(0, i + 1)) == (if s[i].view_visible && s[i].translation is Some {
            extractable(s.subrange(0, i)).push(s[i])
        } else {
            extractable(s.subrange(0, i))
        }),
{
    assert(s.subrange(0, i + 1).drop_last() =~= s.subrange(0, i));
}

/// Every extracted record comes from an item of the world, in this frame's
/// batch, whose view-visibility flag is set.
pub proof fn lemma_extractable_from<T>(s: Seq<WorldItem<T>>)
    ensures
        forall|k: int|
            0 <= k < extractable(s).len() ==> exists|m: int|
                0 <= m < s.len() && s[m] == #[trigger] extractable(s)[k] && s[m].view_visible,
    decreases s.len(),
{
    if s.len() > 0 {
        let p = s.drop_last();
        lemma_extractable_from(p);
        assert forall|k: int| 0 <= k < extractable(s).len() implies exists|m: int|
            0 <= m < s.len() && s[m] == #[trigger] extractable(s)[k] && s[m].view_visible by {
            if k < extractable(p).len() {
                let m = choose|m: int|
                    0 <= m < p.len() && p[m] == #[trigger] extractable(p)[k] && p[m].view_visible;
                assert(s[m] == p[m]);
            } else {
                assert(s[s.len() - 1] == extractable(s)[k]);
            }
        }
    }
}

/// In a world where entity identities are unique, an entity whose
/// view-visibility flag is false has no record in the extracted batch.
pub proof fn lemma_hidden_never_extracted<T>(s: Seq<WorldItem<T>>, j: int)
    requires
        0 <= j < s.len(),
        !s[j].view_visible,
        forall|a: int, b: int|
            0 <= a < s.len() && 0 <= b < s.len() && a != b ==> s[a].entity != s[b].entity,
    ensures
        forall|k: int|
            0 <= k < extractable(s).len() ==> (#[trigger] extractable(s)[k]).entity
                != s[j].entity,
{
    lemma_extractable_from(s);
    assert forall|k: int| 0 <= k < extractable(s).len() implies (#[trigger] extractable(
        s,
    )[k]).entity != s[j].entity by {
        let m = choose|m: int|
            0 <= m < s.len() && s[m] == #[trigger] extractable(s)[k] && s[m].view_visible;
        assert(m != j);
    }
}

/// Records for the visible point lights.
pub fn extract_point_lights(items: &Vec<WorldItem<PointLight2d>>) -> (out: Vec<
    (u64, ExtractedPointLight2d),
>)
    ensures
        out@.len() == extractable(items@).len(),
        forall|k: int|
            0 <= k < out@.len() ==> #[trigger] out@[k] == (
                extractable(items@)[k].entity,
                point_record(extractable(items@)[k].item, extractable(items@)[k].translation->0),
            ),
{
    let mut out: Vec<(u64, ExtractedPointLight2d)> = Vec::new();
    let mut i: usize = 0;
    while i < items.len()
        invariant
            i <= items@.len(),
            out@.len() == extractable(items@.subrange(0, i as int)).len(),
            forall|k: int|
                0 <= k < out@.len() ==> #[trigger] out@[k] == (
                    extractable(items@.subrange(0, i as int))[k].entity,
                    point_record(
                        extractable(items@.subrange(0, i as int))[k].item,
                        extractable(items@.subrange(0, i as int))[k].translation->0,
                    ),
                ),
        decreases items@.len() - i,
    {
        proof {
            lemma_extractable_step(items@, i as int);
        }
        let w = &items[i];
        if w.view_visible {
            match w.translation {
                Some(at) => {
                    let l = &w.item;
                    out.push(
                        (
                            w.entity,
                            ExtractedPointLight2d {
                                transform: at,
                                radius: l.radius,
                                color: l.color,
                                intensity: l.intensity,
                                falloff: l.falloff,
                                cast_shadows: if l.cast_shadows {
                                    1
                                } else {
                                    0
                                },
                            },
                        ),
                    );
                },
                None => {},
            }
        }
        i = i + 1;
    }
    assert(items@.subrange(0, items@.len() as int) =~= items@);
    out
}

/// Records for the visible spot lights.
pub fn extract_spot_lights(items: &Vec<WorldItem<SpotLight2d>>) -> (out: Vec<
    (u64, ExtractedSpotLight2d),
>)
    ensures
        out@.len() == extractable(items@).len(),
        forall|k: int|
            0 <= k < out@.len() ==> #[trigger] out@[k] == (
                extractable(items@)[k].entity,
                spot_record(extractable(items@)[k].item, extractable(items@)[k].translation->0),
            ),
{
    let mut out: Vec<(u64, ExtractedSpotLight2d)> = Vec::new();
    let mut i: usize = 0;
    while i < items.len()
        invariant
            i <= items@.len(),
            out@.len() == extractable(items@.subrange(0, i as int)).len(),
            forall|k: int|
                0 <= k < out@.len() ==> #[trigger] out@[k] == (
                    extractable(items@.subrange(0, i as int))[k].entity,
                    spot_record(
                        extractable(items@.subrange(0, i as int))[k].item,
                        extractable(items@.subrange(0, i as int))[k].translation->0,
                    ),
                ),
        decreases items@.len() - i,
    {
        proof {
            lemma_extractable_step(items@, i as int);
        }
        let w = &items[i];
        if w.view_visible {
            match w.translation {
                Some(at) => {
                    let l = &w.item;
                    out.push(
                        (
                            w.entity,
                            ExtractedSpotLight2d {
                                center: at,
                                radius: l.radius,
                                color: l.color,
                                intensity: l.intensity,
                                falloff: l.falloff,
                                direction: l.direction,
                                inner_cos: l.inner_cos,
                                outer_cos: l.outer_cos,
                                source_width: l.source_width,
                                cast_shadows: if l.cast_shadows {
                                    1
                                } else {
                                    0
                                },
                            },
                        ),
                    );
                },
                None => {},
            }
        }
        i = i + 1;
    }
    assert(items@.subrange(0, items@.len() as int) =~= items@);
    out
}

/// Records for the visible occluders.
pub fn extract_light_occluders(items: &Vec<WorldItem<LightOccluder2d>>) -> (out: Vec<
    (u64, ExtractedLightOccluder2d),
>)
    ensures
        out@.len() == extractable(items@).len(),
        forall|k: int|
            0 <= k < out@.len() ==> #[trigger] out@[k] == (
                extractable(items@)[k].entity,
                occluder_record(extractable(items@)[k].item, extractable(items@)[k].translation->0),
            ),
{
    let mut out: Vec<(u64, ExtractedLightOccluder2d)> = Vec::new();
    let mut i: usize = 0;
    while i < items.len()
        invariant
            i <= items@.len(),
            out@.len() == extractable(items@.subrange(0, i as int)).len(),
            forall|k: int|
                0 <= k < out@.len() ==> #[trigger] out@[k] == (
                    extractable(items@.subrange(0, i as int))[k].entity,
                    occluder_record(
                        extractable(items@.subrange(0, i as int))[k].item,
                        extractable(items@.subrange(0, i as int))[k].translation->0,
                    ),
                ),
        decreases items@.len() - i,
    {
        proof {
            lemma_extractable_step(items@, i as int);
        }
        let w = &items[i];
        if w.view_visible {
            match w.translation {
                Some(at) => {
                    let extracted = match w.item.shape {
                        LightOccluder2dShape::Rectangle { half_width, half_height } => {
                            ExtractedLightOccluder2d { half_width, half_height, center: at }
                        },
                    };
                    out.push((w.entity, extracted));
                },
                None => {},
            }
        }
        i = i + 1;
    }
    assert(items@.subrange(0, items@.len() as int) =~= items@);
    out
}

/// The ambient record of each lit camera: its color times its brightness.
pub fn extract_ambient_lights(cameras: &Vec<(u64, Light2d)>) -> (out: Vec<
    (u64, ExtractedAmbientLight2d),
>)
    ensures
        out@.len() == cameras@.len(),
        forall|k: int|
            0 <= k < out@.len() ==> #[trigger] out@[k] == (
                cameras@[k].0,
                ambient_record(cameras@[k].1.ambient_light),
            ),
{
    let mut out: Vec<(u64, ExtractedAmbientLight2d)> = Vec::new();
    let mut i: usize = 0;
    while i < cameras.len()
        invariant
            i <= cameras@.len(),
            out@.len() == i,
            forall|k: int|
                0 <= k < i ==> #[trigger] out@[k] == (
                    cameras@[k].0,
                    ambient_record(cameras@[k].1.ambient_light),
                ),
        decreases cameras@.len() - i,
    {
        let a = cameras[i].1.ambient_light;
        let color = LightLevel {
            r: scale_channel(a.color.r, a.brightness),
            g: scale_channel(a.color.g, a.brightness),
            b: scale_channel(a.color.b, a.brightness),
        };
        out.push((cameras[i].0, ExtractedAmbientLight2d { color }));
        i = i + 1;
    }
    out
}

fn scale_channel(c: u32, brightness: u32) -> (r: u64)
    ensures
        r as int == scaled_channel(c as int, brightness as int),
{
    proof {
        assert((c as int) * (brightness as int) < 0x1_0000_0000_0000_0000) by (nonlinear_arith)
            requires 0 <= c < 0x1_0000_0000, 0 <= brightness < 0x1_0000_0000;
        assert((c as int) * (brightness as int) / 65536 < 0x1_0000_0000_0000_0000);
    }
    ((c as u64) * (brightness as u64)) / ONE
}

} // verus!
