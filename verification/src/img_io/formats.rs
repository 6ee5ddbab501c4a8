//! Choosing an image format from a file name, the YUV subsampling
//! formats, and the tile-part division names of the compressor.

use vstd::prelude::*;
use crate::text::{chars_of, ends_with_ignore_case, ends_with_ignoring_case, str_equal};

verus! {

/// The image formats that can be read.
#[derive(Debug, Clone, Copy, PartialEq, Eq, Structural)]
pub enum ReaderFormat {
    /// PPM (RGB) or PGM (grey) binary images.
    Ppm,
    /// Raw planar YUV.
    Yuv,
    /// DPX images.
    Dpx,
    /// Raw samples (RAWL).
    Rawl,
}

/// The image formats that can be written.
#[derive(Debug, Clone, Copy, PartialEq, Eq, Structural)]
pub enum WriterFormat {
    Ppm,
    Yuv,
    Rawl,
}

/// The format a file name selects for reading, by its extension in any
/// letter case.  Lowering the whole name first, as Unicode does, gives the
/// same answer: no character outside ASCII lowers to a letter of these
/// extensions.
pub open spec fn reader_format_of(name: Seq<char>) -> Option<ReaderFormat> {
    if ends_with_ignoring_case(name, ".ppm"@) || ends_with_ignoring_case(name, ".pgm"@) {
        Some(ReaderFormat::Ppm)
    } else if ends_with_ignoring_case(name, ".yuv"@) {
        Some(ReaderFormat::Yuv)
    } else if ends_with_ignoring_case(name, ".dpx"@) {
        Some(ReaderFormat::Dpx)
    } else if ends_with_ignoring_case(name, ".rawl"@) || ends_with_ignoring_case(name, ".raw"@) {
        Some(ReaderFormat::Rawl)
    } else {
        None
    }
}

/// The format a file name selects for writing.
pub open spec fn writer_format_of(name: Seq<char>) -> Option<WriterFormat> {
    if ends_with_ignoring_case(name, ".ppm"@) || ends_with_ignoring_case(name, ".pgm"@) {
        Some(WriterFormat::Ppm)
    } else if ends_with_ignoring_case(name, ".yuv"@) {
        Some(WriterFormat::Yuv)
    } else if ends_with_ignoring_case(name, ".rawl"@) || ends_with_ignoring_case(name, ".raw"@) {
        Some(WriterFormat::Rawl)
    } else {
        None
    }
}

/// Detect the input format from the file extension.
pub fn create_reader(filename: &str) -> (r: Result<ReaderFormat, String>)
    ensures
        match reader_format_of(filename@) {
            Some(f) => r == Ok::<ReaderFormat, String>(f),
            None => r matches Err(e) && e@ == "Unsupported input format: "@ + filename@,
        },
{
    let name = chars_of(filename);
    let n = name.as_slice();
    if ends_with_ignore_case(n, ".ppm") || ends_with_ignore_case(n, ".pgm") {
        Ok(ReaderFormat::Ppm)
    } else if ends_with_ignore_case(n, ".yuv") {
        Ok(ReaderFormat::Yuv)
    } else if ends_with_ignore_case(n, ".dpx") {
        Ok(ReaderFormat::Dpx)
    } else if ends_with_ignore_case(n, ".rawl") || ends_with_ignore_case(n, ".raw") {
        Ok(ReaderFormat::Rawl)
    } else {
        let mut m = "Unsupported input format: ".to_owned();
        m.append(filename);
        Err(m)
    }
}

/// Detect the output format from the file extension.
pub fn create_writer(filename: &str) -> (r: Result<WriterFormat, String>)
    ensures
        match writer_format_of(filename@) {
            Some(f) => r == Ok::<WriterFormat, String>(f),
            None => r matches Err(e) && e@ == "Unsupported output format: "@ + filename@,
        },
{
    let name = chars_of(filename);
    let n = name.as_slice();
    if ends_with_ignore_case(n, ".ppm") || ends_with_ignore_case(n, ".pgm") {
        Ok(WriterFormat::Ppm)
    } else if ends_with_ignore_case(n, ".yuv") {
        Ok(WriterFormat::Yuv)
    } else if ends_with_ignore_case(n, ".rawl") || ends_with_ignore_case(n, ".raw") {
        Ok(WriterFormat::Rawl)
    } else {
        let mut m = "Unsupported output format: ".to_owned();
        m.append(filename);
        Err(m)
    }
}

/// The subsampling factors `(dx, dy)` of each component of a YUV format.
pub open spec fn subsampling_of(fmt: Seq<char>, num_comps: u32) -> Option<Seq<(u32, u32)>> {
    if num_comps == 1 {
        Some(seq![(1u32, 1u32)])
    } else if fmt == "444"@ {
        Some(seq![(1u32, 1u32), (1u32, 1u32), (1u32, 1u32)])
    } else if fmt == "422"@ {
        Some(seq![(1u32, 1u32), (2u32, 1u32), (2u32, 1u32)])
    } else if fmt == "420"@ {
        Some(seq![(1u32, 1u32), (2u32, 2u32), (2u32, 2u32)])
    } else if fmt == "400"@ {
        Some(seq![(1u32, 1u32)])
    } else {
        None
    }
}

/// Subsampling factors `(dx, dy)` for each component of a YUV format:
/// "444", "422", "420" or "400"; a single component is never subsampled.
pub fn subsampling_from_format(fmt: &str, num_comps: u32) -> (r: Result<Vec<(u32, u32)>, String>)
    ensures
        match subsampling_of(fmt@, num_comps) {
            Some(s) => r matches Ok(v) && v@ == s,
            None => r matches Err(e) && e@ == "Unknown YUV subsampling format: '"@ + fmt@ + "'"@,
        },
{
    if num_comps == 1 {
        let v = vec![(1u32, 1u32)];
        assert(v@ =~= seq![(1u32, 1u32)]);
        return Ok(v);
    }
    if str_equal(fmt, "444") {
        let v = vec![(1u32, 1u32), (1u32, 1u32), (1u32, 1u32)];
        assert(v@ =~= seq![(1u32, 1u32), (1u32, 1u32), (1u32, 1u32)]);
        Ok(v)
    } else if str_equal(fmt, "422") {
        let v = vec![(1u32, 1u32), (2u32, 1u32), (2u32, 1u32)];
        assert(v@ =~= seq![(1u32, 1u32), (2u32, 1u32), (2u32, 1u32)]);
        Ok(v)
    } else if str_equal(fmt, "420") {
        let v = vec![(1u32, 1u32), (2u32, 2u32), (2u32, 2u32)];
        assert(v@ =~= seq![(1u32, 1u32), (2u32, 2u32), (2u32, 2u32)]);
        Ok(v)
    } else if str_equal(fmt, "400") {
        let v = vec![(1u32, 1u32)];
        assert(v@ =~= seq![(1u32, 1u32)]);
        Ok(v)
    } else {
        let mut m = "Unknown YUV subsampling format: '".to_owned();
        m.append(fmt);
        m.append("'");
        Err(m)
    }
}

/// The tile-part division flags a name of the compressor stands for:
/// "R" (resolutions, 1), "C" (components, 2) or "RC" (both, 3).
pub open spec fn tilepart_divisions_of(name: Seq<char>) -> Option<u32> {
    if name == "R"@ {
        Some(1u32)
    } else if name == "C"@ {
        Some(2u32)
    } else if name == "RC"@ {
        Some(3u32)
    } else {
        None
    }
}

/// Parse a tile-part division name.
pub fn tilepart_divisions_named(name: &str) -> (r: Result<u32, String>)
    ensures
        match tilepart_divisions_of(name@) {
            Some(v) => r == Ok::<u32, String>(v),
            None => r matches Err(e) && e@ == "Invalid tilepart_divs: '"@ + name@
                + "' (expected R, C, or RC)"@,
        },
{
    if str_equal(name, "R") {
        Ok(1)
    } else if str_equal(name, "C") {
        Ok(2)
    } else if str_equal(name, "RC") {
        Ok(3)
    } else {
        let mut m = "Invalid tilepart_divs: '".to_owned();
        m.append(name);
        m.append("' (expected R, C, or RC)");
        Err(m)
    }
}

} // verus!
