//! A verified core for a sphere-traced renderer of implicit fractal geometry.
//!
//! Every scalar lives on a binary fixed-point grid (see [`fix`]), so the whole
//! pipeline — vector algebra, distance estimators, the ray caster, the normal
//! estimator, the shader and the camera — is exact integer arithmetic with
//! proved contracts. A thin unverified driver iterates over pixels and encodes
//! the image.

pub mod fix;
pub mod point;
pub mod rotation;
pub mod fractals;
pub mod renderer;
pub mod shading;
