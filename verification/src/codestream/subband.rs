//! Subbands: one frequency band (LL, HL, LH or HH) of a resolution level,
//! and how many code-blocks cover it.

use vstd::prelude::*;
use vstd::arithmetic::power2::pow2;
use crate::types::{div_ceil, spec_div_ceil, Point, Rect, Size};

verus! {

/// Subband types: LL (lowpass-lowpass), HL, LH, HH.
#[derive(Debug, Clone, Copy, PartialEq, Eq, Structural)]
pub enum SubbandType {
    /// LL subband (only at the lowest resolution).
    LL,
    /// HL subband (horizontal highpass, vertical lowpass).
    HL,
    /// LH subband (horizontal lowpass, vertical highpass).
    LH,
    /// HH subband (both highpass).
    HH,
}

impl SubbandType {
    /// The subband type with index `i` (0 to 3 for LL, HL, LH, HH); any
    /// other index gives LL.
    pub open spec fn spec_from_index(i: u32) -> SubbandType {
        if i == 1 {
            SubbandType::HL
        } else if i == 2 {
            SubbandType::LH
        } else if i == 3 {
            SubbandType::HH
        } else {
            SubbandType::LL
        }
    }

    pub fn from_index(i: u32) -> (t: Self)
        ensures
            t == Self::spec_from_index(i),
    {
        match i {
            0 => SubbandType::LL,
            1 => SubbandType::HL,
            2 => SubbandType::LH,
            3 => SubbandType::HH,
            _ => SubbandType::LL,
        }
    }
}

/// Number of code-blocks of size `2^log_dim` a band that starts at `org`
/// and spans `len` samples touches along one axis.
pub open spec fn blocks_across(org: u32, len: u32, log_dim: u32) -> int {
    if len > 0 {
        spec_div_ceil(org + len, pow2(log_dim as nat) as int) - (org as int) / (pow2(log_dim as nat) as int)
    } else {
        0
    }
}

/// A subband within a resolution level: its geometry and code-block grid.
#[derive(Debug, Clone)]
pub struct Subband {
    /// Subband type (LL, HL, LH, HH).
    pub band_type: SubbandType,
    /// Resolution level that owns this subband (0 = lowest).
    pub resolution_num: u32,
    /// Subband rectangle in the coordinate space of the resolution.
    pub band_rect: Rect,
    /// Log2 of the code-block dimensions used in this subband.
    pub log_block_dims: Size,
    /// Number of missing MSBs (Kmax from quantization).
    pub k_max: u32,
    /// True if reversible coding.
    pub reversible: bool,
    /// Number of code-blocks in x direction.
    pub num_blocks_x: u32,
    /// Number of code-blocks in y direction.
    pub num_blocks_y: u32,
}

impl Default for Subband {
    fn default() -> (s: Self)
        ensures
            s.band_type == SubbandType::LL,
            s.resolution_num == 0,
            s.band_rect == (Rect { org: Point { x: 0, y: 0 }, siz: Size { w: 0, h: 0 } }),
            s.log_block_dims == (Size { w: 0, h: 0 }),
            s.k_max == 0,
            s.reversible,
            s.num_blocks_x == 0,
            s.num_blocks_y == 0,
    {
        Subband {
            band_type: SubbandType::LL,
            resolution_num: 0,
            band_rect: Rect::new(Point::new(0, 0), Size::new(0, 0)),
            log_block_dims: Size::new(0, 0),
            k_max: 0,
            reversible: true,
            num_blocks_x: 0,
            num_blocks_y: 0,
        }
    }
}

/// Code-blocks along one axis.
fn count_blocks(org: u32, len: u32, log_dim: u32) -> (n: u32)
    requires
        log_dim < 32,
        org + len <= u32::MAX,
    ensures
        n == blocks_across(org, len, log_dim),
{
    proof {
        vstd::bits::lemma_u32_pow2_no_overflow(log_dim as nat);
        vstd::bits::lemma_u32_shl_is_mul(1, log_dim);
        vstd::arithmetic::power2::lemma_pow2_pos(log_dim as nat);
    }
    let b = 1u32 << log_dim;
    if len > 0 {
        let hi = div_ceil(org + len, b);
        let lo = org / b;
        proof {
            crate::types::lemma_div_ceil_monotonic(org as int, org + len, b as int);
        }
        hi - lo
    } else {
        0
    }
}

impl Subband {
    /// A subband of the given type and geometry, with its code-block grid.
    pub fn new(band_type: SubbandType, resolution_num: u32, band_rect: Rect, log_block_dims: Size) -> (s: Self)
        requires
            log_block_dims.w < 32,
            log_block_dims.h < 32,
            band_rect.org.x + band_rect.siz.w <= u32::MAX,
            band_rect.org.y + band_rect.siz.h <= u32::MAX,
        ensures
            s.band_type == band_type,
            s.resolution_num == resolution_num,
            s.band_rect == band_rect,
            s.log_block_dims == log_block_dims,
            s.k_max == 0,
            s.reversible,
            s.num_blocks_x == blocks_across(band_rect.org.x, band_rect.siz.w, log_block_dims.w),
            s.num_blocks_y == blocks_across(band_rect.org.y, band_rect.siz.h, log_block_dims.h),
    {
        let num_blocks_x = count_blocks(band_rect.org.x, band_rect.siz.w, log_block_dims.w);
        let num_blocks_y = count_blocks(band_rect.org.y, band_rect.siz.h, log_block_dims.h);
        Subband {
            band_type,
            resolution_num,
            band_rect,
            log_block_dims,
            k_max: 0,
            reversible: true,
            num_blocks_x,
            num_blocks_y,
        }
    }

    /// Width of the subband.
    pub fn width(&self) -> (w: u32)
        ensures
            w == self.band_rect.siz.w,
    {
        self.band_rect.siz.w
    }

    /// Height of the subband.
    pub fn height(&self) -> (h: u32)
        ensures
            h == self.band_rect.siz.h,
    {
        self.band_rect.siz.h
    }

    /// True if this subband has zero area.
    pub fn is_empty(&self) -> (e: bool)
        ensures
            e == (self.band_rect.siz.w == 0 || self.band_rect.siz.h == 0),
    {
        self.band_rect.siz.w == 0 || self.band_rect.siz.h == 0
    }

    /// Total number of code-blocks.
    pub fn total_blocks(&self) -> (n: u32)
        requires
            self.num_blocks_x * self.num_blocks_y <= u32::MAX,
        ensures
            n == self.num_blocks_x * self.num_blocks_y,
    {
        self.num_blocks_x * self.num_blocks_y
    }
}

} // verus!
