//! A frame effect engine: pixel and block operators on RGBA frames, their
//! composition into an ordered pipeline, and the planning of a run over a
//! numbered sequence of frame files.
//!
//! All arithmetic is exact. Colour weights, scale factors and interpolation
//! ratios are held as integers or fractions of integers, so that every
//! contract states the very value that is computed.

pub mod pixel;
pub mod color;
pub mod dither;
pub mod edge;
pub mod blend;
pub mod frames;
pub mod naming;
pub mod block;
pub mod effect;
