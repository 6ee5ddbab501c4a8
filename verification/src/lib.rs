//! HTJ2K (JPEG 2000 Part 15) codestream building blocks, with their
//! behaviour stated as Verus contracts.

pub mod types;
pub mod params;
pub mod text;
pub mod args;
pub mod img_io;
pub mod codestream;
pub mod tools;
