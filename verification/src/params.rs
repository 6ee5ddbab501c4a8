//! Codestream marker parameters: the image and tile geometry (SIZ), the
//! coding style (COD), quantisation (QCD), non-linearity (NLT) and
//! start-of-tile (SOT) settings the codestream structures are built from.

use vstd::prelude::*;
use crate::types::{spec_div_ceil, div_ceil, Point, Size};
use crate::text::str_equal;

verus! {

/// Per-component settings of the SIZ marker.
#[derive(Debug, Clone, Copy, PartialEq, Eq, Structural)]
pub struct SizComp {
    /// Horizontal and vertical subsampling factors.
    pub downsampling: Point,
    /// Sample precision in bits.
    pub bit_depth: u32,
    /// Whether samples are signed.
    pub is_signed: bool,
}

/// Image and tile geometry (the SIZ marker segment).
#[derive(Debug, Clone)]
pub struct ParamSiz {
    /// The reference grid's extent (Xsiz, Ysiz).
    pub image_extent: Point,
    /// The image area's offset on the reference grid (XOsiz, YOsiz).
    pub image_offset: Point,
    /// The nominal tile size (XTsiz, YTsiz).
    pub tile_size: Size,
    /// The tile grid's offset (XTOsiz, YTOsiz).
    pub tile_offset: Point,
    /// The components.
    pub comps: Vec<SizComp>,
}

impl ParamSiz {
    /// The settings a component gets before `set_comp_info`: no
    /// subsampling, 8 bits, unsigned.
    pub open spec fn default_comp() -> SizComp {
        SizComp { downsampling: Point { x: 1, y: 1 }, bit_depth: 8, is_signed: false }
    }

    pub fn new() -> (s: Self)
        ensures
            s.image_extent == (Point { x: 0, y: 0 }),
            s.image_offset == (Point { x: 0, y: 0 }),
            s.tile_size == (Size { w: 0, h: 0 }),
            s.tile_offset == (Point { x: 0, y: 0 }),
            s.comps@.len() == 0,
    {
        ParamSiz {
            image_extent: Point::new(0, 0),
            image_offset: Point::new(0, 0),
            tile_size: Size::new(0, 0),
            tile_offset: Point::new(0, 0),
            comps: Vec::new(),
        }
    }

    pub fn set_image_extent(&mut self, extent: Point)
        ensures
            *final(self) == (ParamSiz { image_extent: extent, ..*old(self) }),
    {
        self.image_extent = extent;
    }

    pub fn set_image_offset(&mut self, offset: Point)
        ensures
            *final(self) == (ParamSiz { image_offset: offset, ..*old(self) }),
    {
        self.image_offset = offset;
    }

    pub fn set_tile_size(&mut self, size: Size)
        ensures
            *final(self) == (ParamSiz { tile_size: size, ..*old(self) }),
    {
        self.tile_size = size;
    }

    pub fn set_tile_offset(&mut self, offset: Point)
        ensures
            *final(self) == (ParamSiz { tile_offset: offset, ..*old(self) }),
    {
        self.tile_offset = offset;
    }

    /// Set the number of components; components kept keep their settings,
    /// new ones get the default settings.
    pub fn set_num_components(&mut self, num_comps: u32)
        ensures
            final(self).image_extent == old(self).image_extent,
            final(self).image_offset == old(self).image_offset,
            final(self).tile_size == old(self).tile_size,
            final(self).tile_offset == old(self).tile_offset,
            final(self).comps@.len() == num_comps,
            forall|c: int| 0 <= c < num_comps ==> #[trigger] final(self).comps@[c] == if c < old(
                self,
            ).comps@.len() {
                old(self).comps@[c]
            } else {
                Self::default_comp()
            },
    {
        let mut comps: Vec<SizComp> = Vec::new();
        let mut c: u32 = 0;
        while c < num_comps
            invariant
                c <= num_comps,
                comps@.len() == c,
                forall|k: int| 0 <= k < c ==> #[trigger] comps@[k] == if k < self.comps@.len() {
                    self.comps@[k]
                } else {
                    Self::default_comp()
                },
            decreases num_comps - c,
        {
            if (c as usize) < self.comps.len() {
                comps.push(self.comps[c as usize]);
            } else {
                comps.push(SizComp { downsampling: Point::new(1, 1), bit_depth: 8, is_signed: false });
            }
            c = c + 1;
        }
        self.comps = comps;
    }

    /// Set the subsampling, bit depth and signedness of component `comp`.
    pub fn set_comp_info(&mut self, comp: u32, downsampling: Point, bit_depth: u32, is_signed: bool)
        requires
            comp < old(self).comps@.len(),
        ensures
            final(self).image_extent == old(self).image_extent,
            final(self).image_offset == old(self).image_offset,
            final(self).tile_size == old(self).tile_size,
            final(self).tile_offset == old(self).tile_offset,
            final(self).comps@ == old(self).comps@.update(
                comp as int,
                SizComp { downsampling, bit_depth, is_signed },
            ),
    {
        self.comps.set(comp as usize, SizComp { downsampling, bit_depth, is_signed });
    }

    /// Number of components (the 16-bit Csiz field).
    pub fn get_num_components(&self) -> (n: u16)
        requires
            self.comps@.len() <= u16::MAX,
        ensures
            n == self.comps@.len(),
    {
        self.comps.len() as u16
    }

    pub fn get_downsampling(&self, comp: u32) -> (d: Point)
        requires
            comp < self.comps@.len(),
        ensures
            d == self.comps@[comp as int].downsampling,
    {
        self.comps[comp as usize].downsampling
    }

    pub fn get_bit_depth(&self, comp: u32) -> (b: u32)
        requires
            comp < self.comps@.len(),
        ensures
            b == self.comps@[comp as int].bit_depth,
    {
        self.comps[comp as usize].bit_depth
    }

    pub fn is_signed(&self, comp: u32) -> (s: bool)
        requires
            comp < self.comps@.len(),
        ensures
            s == self.comps@[comp as int].is_signed,
    {
        self.comps[comp as usize].is_signed
    }

    pub fn get_image_extent(&self) -> (p: Point)
        ensures
            p == self.image_extent,
    {
        self.image_extent
    }

    pub fn get_image_offset(&self) -> (p: Point)
        ensures
            p == self.image_offset,
    {
        self.image_offset
    }

    pub fn get_tile_size(&self) -> (s: Size)
        ensures
            s == self.tile_size,
    {
        self.tile_size
    }

    pub fn get_tile_offset(&self) -> (p: Point)
        ensures
            p == self.tile_offset,
    {
        self.tile_offset
    }

    /// Width of component `comp` once reconstructed:
    /// `ceil(Xsiz / dx) - ceil(XOsiz / dx)`.
    pub fn get_recon_width(&self, comp: u32) -> (w: u32)
        requires
            comp < self.comps@.len(),
            self.comps@[comp as int].downsampling.x > 0,
            self.image_offset.x <= self.image_extent.x,
        ensures
            w == spec_div_ceil(
                self.image_extent.x as int,
                self.comps@[comp as int].downsampling.x as int,
            ) - spec_div_ceil(
                self.image_offset.x as int,
                self.comps@[comp as int].downsampling.x as int,
            ),
    {
        let ds = self.comps[comp as usize].downsampling.x;
        let hi = div_ceil(self.image_extent.x, ds);
        let lo = div_ceil(self.image_offset.x, ds);
        proof {
            crate::types::lemma_div_ceil_monotonic(
                self.image_offset.x as int,
                self.image_extent.x as int,
                ds as int,
            );
        }
        hi - lo
    }

    /// Height of component `comp` once reconstructed:
    /// `ceil(Ysiz / dy) - ceil(YOsiz / dy)`.
    pub fn get_recon_height(&self, comp: u32) -> (h: u32)
        requires
            comp < self.comps@.len(),
            self.comps@[comp as int].downsampling.y > 0,
            self.image_offset.y <= self.image_extent.y,
        ensures
            h == spec_div_ceil(
                self.image_extent.y as int,
                self.comps@[comp as int].downsampling.y as int,
            ) - spec_div_ceil(
                self.image_offset.y as int,
                self.comps@[comp as int].downsampling.y as int,
            ),
    {
        let ds = self.comps[comp as usize].downsampling.y;
        let hi = div_ceil(self.image_extent.y, ds);
        let lo = div_ceil(self.image_offset.y, ds);
        proof {
            crate::types::lemma_div_ceil_monotonic(
                self.image_offset.y as int,
                self.image_extent.y as int,
                ds as int,
            );
        }
        hi - lo
    }
}

/// Progression orders of the COD marker.
#[derive(Debug, Clone, Copy, PartialEq, Eq, Structural)]
pub enum ProgressionOrder {
    LRCP,
    RLCP,
    RPCL,
    PCRL,
    CPRL,
}

/// The progression order a name stands for.
pub open spec fn progression_order_named(name: Seq<char>) -> Option<ProgressionOrder> {
    if name == seq!['L', 'R', 'C', 'P'] {
        Some(ProgressionOrder::LRCP)
    } else if name == seq!['R', 'L', 'C', 'P'] {
        Some(ProgressionOrder::RLCP)
    } else if name == seq!['R', 'P', 'C', 'L'] {
        Some(ProgressionOrder::RPCL)
    } else if name == seq!['P', 'C', 'R', 'L'] {
        Some(ProgressionOrder::PCRL)
    } else if name == seq!['C', 'P', 'R', 'L'] {
        Some(ProgressionOrder::CPRL)
    } else {
        None
    }
}

/// The largest `k` with `2^k <= x` (for `x >= 1`).
pub open spec fn spec_floor_log2(x: nat) -> nat
    decreases x,
{
    if x <= 1 {
        0
    } else {
        1 + spec_floor_log2(x / 2)
    }
}

/// The largest `k` with `2^k <= x`.
pub fn floor_log2(x: u32) -> (k: u32)
    requires
        x > 0,
    ensures
        k == spec_floor_log2(x as nat),
        k < 32,
{
    let mut v = x;
    let mut k: u32 = 0;
    while v > 1
        invariant
            v >= 1,
            k + spec_floor_log2(v as nat) == spec_floor_log2(x as nat),
            k + v <= x,
            x <= u32::MAX,
        decreases v,
    {
        v = v / 2;
        k = k + 1;
    }
    proof {
        lemma_floor_log2_bound(x as nat);
    }
    k
}

proof fn lemma_floor_log2_bound(x: nat)
    requires
        x >= 1,
    ensures
        vstd::arithmetic::power2::pow2(spec_floor_log2(x)) <= x,
        x <= u32::MAX ==> spec_floor_log2(x) < 32,
    decreases x,
{
    vstd::arithmetic::power2::lemma2_to64();
    if x > 1 {
        lemma_floor_log2_bound(x / 2);
        vstd::arithmetic::power2::lemma_pow2_unfold(spec_floor_log2(x));
        if x <= u32::MAX && spec_floor_log2(x) >= 32 {
            vstd::arithmetic::power2::lemma_pow2_strictly_increases(31, (spec_floor_log2(x) - 1) as nat);
        }
    }
}

/// Errors of parameter settings.
#[derive(Debug, Clone, Copy, PartialEq, Eq, Structural)]
pub enum OjphError {
    /// A parameter's value is not one the codestream accepts.
    InvalidParam,
}

/// Coding style (the COD marker segment), shared by all components.
#[derive(Debug, Clone)]
pub struct ParamCod {
    /// Number of wavelet decomposition levels.
    pub num_decomps: u8,
    /// Log2 of the code-block width and height.
    pub log_block_dims: Size,
    /// Log2 of the precinct sizes, from the lowest resolution up; levels
    /// past the end use 2^15 by 2^15.
    pub log_precinct_sizes: Vec<Size>,
    /// Reversible (5/3) or irreversible (9/7) wavelet.
    pub reversible: bool,
    /// Whether a colour transform is employed.
    pub color_transform: bool,
    /// The progression order.
    pub progression_order: ProgressionOrder,
}

impl ParamCod {
    /// Log2 of the precinct size of resolution `r`.
    pub open spec fn spec_log_precinct_size(self, r: int) -> Size {
        if 0 <= r < self.log_precinct_sizes@.len() {
            self.log_precinct_sizes@[r]
        } else {
            Size { w: 15, h: 15 }
        }
    }

    /// Five decomposition levels, 64 by 64 code-blocks, maximal precincts,
    /// reversible, with colour transform, RPCL.
    pub fn new() -> (c: Self)
        ensures
            c.num_decomps == 5,
            c.log_block_dims == (Size { w: 6, h: 6 }),
            c.log_precinct_sizes@.len() == 0,
            c.reversible,
            c.color_transform,
            c.progression_order == ProgressionOrder::RPCL,
    {
        ParamCod {
            num_decomps: 5,
            log_block_dims: Size::new(6, 6),
            log_precinct_sizes: Vec::new(),
            reversible: true,
            color_transform: true,
            progression_order: ProgressionOrder::RPCL,
        }
    }

    pub fn set_num_decomposition(&mut self, num_decomps: u32)
        requires
            num_decomps <= 32,
        ensures
            *final(self) == (ParamCod { num_decomps: num_decomps as u8, ..*old(self) }),
    {
        self.num_decomps = num_decomps as u8;
    }

    /// Set the code-block size in samples; its log2 (rounded down) is kept.
    pub fn set_block_dims(&mut self, width: u32, height: u32)
        requires
            width > 0,
            height > 0,
        ensures
            *final(self) == (ParamCod {
                log_block_dims: Size { w: spec_floor_log2(width as nat) as u32, h: spec_floor_log2(height as nat) as u32 },
                ..*old(self)
            }),
    {
        let lw = floor_log2(width);
        let lh = floor_log2(height);
        self.log_block_dims = Size::new(lw, lh);
    }

    /// Set the precinct sizes (in samples) of the first `num_levels`
    /// resolutions, from the lowest up; their log2 (rounded down) is kept.
    pub fn set_precinct_size(&mut self, num_levels: i32, sizes: &[Size])
        requires
            forall|i: int| 0 <= i < sizes@.len() ==> #[trigger] sizes@[i].w > 0 && sizes@[i].h > 0,
        ensures
            final(self).num_decomps == old(self).num_decomps,
            final(self).log_block_dims == old(self).log_block_dims,
            final(self).reversible == old(self).reversible,
            final(self).color_transform == old(self).color_transform,
            final(self).progression_order == old(self).progression_order,
            final(self).log_precinct_sizes@.len() == if num_levels <= 0 {
                0
            } else if num_levels as int <= sizes@.len() {
                num_levels as int
            } else {
                sizes@.len() as int
            },
            forall|i: int| 0 <= i < final(self).log_precinct_sizes@.len() ==> #[trigger] final(self).log_precinct_sizes@[i] == (Size {
                w: spec_floor_log2(sizes@[i].w as nat) as u32,
                h: spec_floor_log2(sizes@[i].h as nat) as u32,
            }),
    {
        let mut v: Vec<Size> = Vec::new();
        let mut i: usize = 0;
        let n: usize = if num_levels <= 0 {
            0
        } else if (num_levels as usize) <= sizes.len() {
            num_levels as usize
        } else {
            sizes.len()
        };
        while i < n
            invariant
                n <= sizes@.len(),
                i <= n,
                v@.len() == i,
                forall|j: int| 0 <= j < sizes@.len() ==> #[trigger] sizes@[j].w > 0 && sizes@[j].h > 0,
                forall|j: int| 0 <= j < i ==> #[trigger] v@[j] == (Size {
                    w: spec_floor_log2(sizes@[j].w as nat) as u32,
                    h: spec_floor_log2(sizes@[j].h as nat) as u32,
                }),
            decreases n - i,
        {
            let s = sizes[i];
            v.push(Size::new(floor_log2(s.w), floor_log2(s.h)));
            i = i + 1;
        }
        self.log_precinct_sizes = v;
    }

    pub fn set_reversible(&mut self, reversible: bool)
        ensures
            *final(self) == (ParamCod { reversible, ..*old(self) }),
    {
        self.reversible = reversible;
    }

    pub fn set_color_transform(&mut self, color_transform: bool)
        ensures
            *final(self) == (ParamCod { color_transform, ..*old(self) }),
    {
        self.color_transform = color_transform;
    }

    /// Set the progression order from its name; any name but the five
    /// orders is refused and leaves the settings unchanged.
    pub fn set_progression_order(&mut self, name: &str) -> (r: Result<(), OjphError>)
        ensures
            progression_order_named(name@) is Some ==> r is Ok && *final(self) == (ParamCod {
                progression_order: progression_order_named(name@)->0,
                ..*old(self)
            }),
            progression_order_named(name@) is None ==> r is Err && *final(self) == *old(self),
    {
        proof {
            reveal_strlit("LRCP");
            reveal_strlit("RLCP");
            reveal_strlit("RPCL");
            reveal_strlit("PCRL");
            reveal_strlit("CPRL");
            assert("LRCP"@ =~= seq!['L', 'R', 'C', 'P']);
            assert("RLCP"@ =~= seq!['R', 'L', 'C', 'P']);
            assert("RPCL"@ =~= seq!['R', 'P', 'C', 'L']);
            assert("PCRL"@ =~= seq!['P', 'C', 'R', 'L']);
            assert("CPRL"@ =~= seq!['C', 'P', 'R', 'L']);
        }
        let order = if str_equal(name, "LRCP") {
            ProgressionOrder::LRCP
        } else if str_equal(name, "RLCP") {
            ProgressionOrder::RLCP
        } else if str_equal(name, "RPCL") {
            ProgressionOrder::RPCL
        } else if str_equal(name, "PCRL") {
            ProgressionOrder::PCRL
        } else if str_equal(name, "CPRL") {
            ProgressionOrder::CPRL
        } else {
            return Err(OjphError::InvalidParam);
        };
        self.progression_order = order;
        Ok(())
    }

    /// The coding style that applies to component `comp`: every component
    /// follows the COD marker.
    pub fn get_coc(&self, comp: u32) -> (c: &ParamCod)
        ensures
            c == self,
    {
        self
    }

    pub fn get_num_decompositions(&self) -> (n: u8)
        ensures
            n == self.num_decomps,
    {
        self.num_decomps
    }

    pub fn get_log_block_dims(&self) -> (s: Size)
        ensures
            s == self.log_block_dims,
    {
        self.log_block_dims
    }

    /// Log2 of the precinct size of resolution `r`.
    pub fn get_log_precinct_size(&self, r: u32) -> (s: Size)
        ensures
            s == self.spec_log_precinct_size(r as int),
    {
        if (r as usize) < self.log_precinct_sizes.len() {
            self.log_precinct_sizes[r as usize]
        } else {
            Size::new(15, 15)
        }
    }

    pub fn is_reversible(&self) -> (r: bool)
        ensures
            r == self.reversible,
    {
        self.reversible
    }

    pub fn is_employing_color_transform(&self) -> (c: bool)
        ensures
            c == self.color_transform,
    {
        self.color_transform
    }
}

/// Quantisation settings (the QCD marker segment); the quantisation step
/// itself is a floating-point value and is not held here.
#[derive(Debug, Clone, Copy)]
pub struct ParamQcd {
    /// Number of guard bits.
    pub num_guard_bits: u8,
}

impl ParamQcd {
    /// One guard bit.
    pub fn new() -> (q: Self)
        ensures
            q.num_guard_bits == 1,
    {
        ParamQcd { num_guard_bits: 1 }
    }
}

/// Non-linearity settings (the NLT marker segment): the non-linearity
/// type of each component, 0 when none is applied.
#[derive(Debug, Clone)]
pub struct ParamNlt {
    pub nonlinearity: Vec<u8>,
}

impl ParamNlt {
    /// No non-linearity for any component.
    pub fn new() -> (n: Self)
        ensures
            n.nonlinearity@.len() == 0,
    {
        ParamNlt { nonlinearity: Vec::new() }
    }
}

/// Start-of-tile settings (the SOT marker segment).
#[derive(Debug, Clone, Copy, PartialEq, Eq, Structural)]
pub struct ParamSot {
    /// Tile index (Isot).
    pub tile_idx: u16,
    /// Length of the tile-part in bytes (Psot).
    pub tile_part_len: u32,
    /// Tile-part index (TPsot).
    pub tile_part_idx: u8,
    /// Number of tile-parts (TNsot).
    pub num_tile_parts: u8,
}

impl ParamSot {
    pub fn new() -> (s: Self)
        ensures
            s == (ParamSot { tile_idx: 0, tile_part_len: 0, tile_part_idx: 0, num_tile_parts: 0 }),
    {
        ParamSot { tile_idx: 0, tile_part_len: 0, tile_part_idx: 0, num_tile_parts: 0 }
    }
}

} // verus!
