//! The verified core of a stochastic ray tracer.
//!
//! Real numbers are carried as the bit patterns of their IEEE 754 binary32
//! encodings. Every decision the renderer takes on such a number (is it
//! positive, which of two is nearer, is it negligible) is taken here on the
//! pattern and proved against the number it encodes; the arithmetic that
//! produces the patterns is supplied by the caller.
pub mod file;
pub mod film;
pub mod intersection;
pub mod material;
pub mod math;
pub mod raster;
pub mod ray;
pub mod renderer;
pub mod scalar;
pub mod shape;
pub mod sphere;
