//! Image plugins over RGBA buffers: a box blur and a mirror, each with its
//! `key=value` parameter string.
pub mod pixels;
pub mod params;
pub mod blur;
pub mod mirror;
