//! Two-dimensional dynamic lighting: light and occluder records, their
//! per-frame extraction, the per-pixel illumination and shadow algorithm, and
//! the cache of lighting pipelines specialised by output format.
//!
//! All quantities are integers. Positions, radii and source widths are
//! measured in sixteenths of a unit of the view's 2D space (`fixed::UNIT`);
//! colors, intensities, brightness, falloff, cosines and attenuation
//! factors are fixed-point with `fixed::ONE` standing for 1.0. Every result is
//! the exact value of its formula, rounded down where a division occurs.
//!
//! - `fixed`: the scale, the falloff curve and an integer square root.
//! - `light`: the records a scene authors.
//! - `extract`: the per-frame records built from the visible entities.
//! - `occlusion`: whether an occluder lies between a light and a point.
//! - `cone`: the angular factor of a spot light.
//! - `shading`: the color of one pixel.
//! - `pipeline`: the pass's binding layout, its specialisations and their cache.

pub mod cone;
pub mod extract;
pub mod fixed;
pub mod light;
pub mod occlusion;
pub mod pipeline;
pub mod shading;
