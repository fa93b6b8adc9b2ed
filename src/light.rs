//! Light and occluder records as authored in the scene.
use vstd::prelude::*;
use crate::fixed::{ONE, UNIT};

verus! {

/// A position or offset in the view's two-dimensional space, in sub-units
/// (`UNIT` to a view unit).
#[derive(Clone, Copy, Debug, PartialEq, Eq, Structural)]
pub struct Vec2i {
    pub x: i32,
    pub y: i32,
}

/// A linear RGB color; each channel is fixed-point with `ONE` as 1.0.
#[derive(Clone, Copy, Debug, PartialEq, Eq, Structural)]
pub struct LinearRgb {
    pub r: u32,
    pub g: u32,
    pub b: u32,
}

impl LinearRgb {
    /// Channel `k` (0 red, 1 green, 2 blue).
    pub open spec fn channel(self, k: int) -> int {
        if k == 0 {
            self.r as int
        } else if k == 1 {
            self.g as int
        } else {
            self.b as int
        }
    }

    pub fn channel_at(&self, k: usize) -> (r: u32)
        requires
            k < 3,
        ensures
            r as int == self.channel(k as int),
    {
        if k == 0 {
            self.r
        } else if k == 1 {
            self.g
        } else {
            self.b
        }
    }

    pub open spec fn white_spec() -> LinearRgb {
        LinearRgb { r: ONE as u32, g: ONE as u32, b: ONE as u32 }
    }

    /// White: every channel at 1.0.
    pub fn white() -> (r: LinearRgb)
        ensures
            r == LinearRgb::white_spec(),
    {
        LinearRgb { r: ONE as u32, g: ONE as u32, b: ONE as u32 }
    }

    /// Black: every channel at zero.
    pub fn black() -> (r: LinearRgb)
        ensures
            r.r == 0 && r.g == 0 && r.b == 0,
    {
        LinearRgb { r: 0, g: 0, b: 0 }
    }
}

/// Marks a camera whose view receives 2D lighting, with the view's ambient light.
#[derive(Clone, Copy, Debug)]
pub struct Light2d {
    pub ambient_light: AmbientLight2d,
}

impl Default for Light2d {
    fn default() -> (r: Light2d)
        ensures
            r.ambient_light.color == LinearRgb::white_spec(),
            r.ambient_light.brightness == ONE,
    {
        Light2d { ambient_light: AmbientLight2d::default() }
    }
}

/// A light that shines in all directions up to its radius.
///
/// `intensity` and `falloff` are fixed-point with `ONE` as 1.0; `radius` is in
/// sub-units (`UNIT` to a view unit). The attenuation curve is `(1 - s^2)^2 / (1 + falloff * s^2)`
/// with `s` the distance divided by the radius.
#[derive(Clone, Copy, Debug)]
pub struct PointLight2d {
    pub color: LinearRgb,
    pub intensity: u32,
    pub radius: u16,
    pub falloff: u32,
    pub cast_shadows: bool,
}

impl Default for PointLight2d {
    /// A white light of intensity 1.0 and radius half a unit, with no falloff
    /// and no shadows.
    fn default() -> (r: PointLight2d)
        ensures
            r.color == LinearRgb::white_spec(),
            r.intensity == ONE,
            r.radius == UNIT / 2,
            r.falloff == 0,
            !r.cast_shadows,
    {
        PointLight2d {
            color: LinearRgb::white(),
            intensity: ONE as u32,
            radius: UNIT / 2,
            falloff: 0,
            cast_shadows: false,
        }
    }
}

/// A light that shines in a cone.
///
/// `direction` is the cone's axis, a nonzero vector (of length `ONE` as
/// authored; only its direction matters); `inner_cos` and `outer_cos` are the
/// cosines, scaled by `ONE`, of the angles between the axis and the edges of
/// the full-strength cone and of the lit cone. `source_width` is the width of
/// the emitting segment in sub-units: it softens the band between the cones.
#[derive(Clone, Copy, Debug)]
pub struct SpotLight2d {
    pub color: LinearRgb,
    pub intensity: u32,
    pub radius: u16,
    pub falloff: u32,
    pub direction: Vec2i,
    pub inner_cos: i32,
    pub outer_cos: i32,
    pub source_width: u32,
    pub cast_shadows: bool,
}

impl Default for SpotLight2d {
    /// A white light of radius half a unit pointing down (-90 degrees), with
    /// an inner angle of -180 and an outer angle of -90 degrees and a source
    /// one unit wide.
    fn default() -> (r: SpotLight2d)
        ensures
            r.color == LinearRgb::white_spec(),
            r.intensity == ONE,
            r.radius == UNIT / 2,
            r.falloff == 0,
            r.direction.x == 0,
            r.direction.y == -ONE,
            r.inner_cos == -ONE,
            r.outer_cos == 0,
            r.source_width == UNIT,
            !r.cast_shadows,
    {
        SpotLight2d {
            color: LinearRgb::white(),
            intensity: ONE as u32,
            radius: UNIT / 2,
            falloff: 0,
            direction: Vec2i { x: 0, y: -(ONE as i32) },
            inner_cos: -(ONE as i32),
            outer_cos: 0,
            source_width: UNIT as u32,
            cast_shadows: false,
        }
    }
}

/// The ambient light of a view: `color` times `brightness` (fixed-point,
/// `ONE` as 1.0) lights every pixel, whatever the lights and occluders.
#[derive(Clone, Copy, Debug)]
pub struct AmbientLight2d {
    pub color: LinearRgb,
    pub brightness: u32,
}

impl Default for AmbientLight2d {
    /// White at brightness 1.0, which leaves the scene as it is.
    fn default() -> (r: AmbientLight2d)
        ensures
            r.color == LinearRgb::white_spec(),
            r.brightness == ONE,
    {
        AmbientLight2d { color: LinearRgb::white(), brightness: ONE as u32 }
    }
}

/// The shape of an occluder, centred on its entity's position.
#[derive(Clone, Copy, Debug, PartialEq, Eq, Structural)]
pub enum LightOccluder2dShape {
    Rectangle { half_width: u32, half_height: u32 },
}

/// Blocks the light of shadow-casting lights.
#[derive(Clone, Copy, Debug, PartialEq, Eq, Structural)]
pub struct LightOccluder2d {
    pub shape: LightOccluder2dShape,
}

} // verus!
