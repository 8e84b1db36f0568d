//! Deterministic generative-art core: scene renderers that turn a set of
//! integer-encoded parameters into an RGBA pixel buffer.
//!
//! All fractional quantities (anchor positions, offsets, step lengths,
//! angles) are carried as 64-bit fixed-point numbers with one unit equal to
//! `fixed::FX_ONE` (one millionth), so every computation is exact integer
//! arithmetic and every render is reproducible.

pub mod fixed;
pub mod color;
pub mod halton;
pub mod rgb;
pub mod buffer;
pub mod wheel;
pub mod gradient;
pub mod noise;
pub mod grid;
pub mod trace;
pub mod flow;
pub mod scene;
