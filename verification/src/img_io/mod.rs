//! The image file formats of the command-line tools, reduced to what can
//! be computed from bytes: sample layouts, headers, and format choice.

pub mod samples;
pub mod layout;
pub mod formats;
pub mod dpx;
pub mod ppm;
pub mod sample_laws;
