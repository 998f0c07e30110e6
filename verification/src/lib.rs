//! Verified core of a small ray tracer: command-line options, the `.rt`
//! scene description format, PPM text output, and the partition of image
//! rows into render bands.

pub mod text;
pub mod bands;
pub mod cli;
pub mod ppm;
pub mod scene_file;
pub mod texture;
