//! Integer core of a small path tracer: the sRGB pixel buffer and its PPM
//! encodings, the Halton low-discrepancy sequence as exact fractions, the
//! xorshift generator behind uniform sampling, and the decisions of the
//! scene's radiance recursion.

pub mod buffer;
pub mod ppm;
pub mod halton;
pub mod random;
pub mod scene;
