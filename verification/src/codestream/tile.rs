//! Tiles: the top-level subdivision of the image, each holding one
//! tile-component per image component.

use vstd::prelude::*;
use vstd::arithmetic::power2::pow2;
use crate::params::{ParamCod, ParamQcd, ParamSiz, ParamSot};
use crate::types::{div_ceil, rect_fits, scale_rect, scaled_rect, spec_div_ceil, Point, Rect, Size};
use super::tile_comp::TileComp;

verus! {

/// Tile-part division by resolution level.
pub const TILEPART_RESOLUTIONS: u32 = 1;

/// Tile-part division by component.
pub const TILEPART_COMPONENTS: u32 = 2;

/// A single tile within the codestream.
#[derive(Debug, Clone)]
pub struct Tile {
    /// Tile index (raster order within the tile grid).
    pub tile_idx: u32,
    /// Tile rectangle in the image coordinate system.
    pub tile_rect: Rect,
    /// Tile components (one per image component).
    pub tile_comps: Vec<TileComp>,
    /// Number of components.
    pub num_comps: u32,
    /// Whether color transform is employed for this tile.
    pub employ_color_transform: bool,
    /// Number of tile parts.
    pub num_tileparts: u32,
    /// SOT marker data for this tile.
    pub sot: ParamSot,
    /// Whether the tile has been fully read/written.
    pub is_complete: bool,
    /// Current line being processed within this tile.
    pub cur_line: u32,
    /// Number of lines in this tile at the reconstructed resolution.
    pub num_lines: u32,
    /// Skipped resolution levels for reconstruction.
    pub skipped_res_for_recon: u32,
}

/// The largest number of resolution levels among the tile-components,
/// or 1 when there is none.
pub open spec fn max_resolutions(comps: Seq<TileComp>) -> u32
    decreases comps.len(),
{
    if comps.len() == 0 {
        1
    } else if comps.len() == 1 {
        comps[0].num_resolutions
    } else {
        let m = max_resolutions(comps.drop_last());
        if comps.last().num_resolutions > m {
            comps.last().num_resolutions
        } else {
            m
        }
    }
}

/// The SIZ parameters a tile can be built from: a component count that
/// fits its 16-bit field and non-zero subsampling factors.
pub open spec fn siz_usable(siz: ParamSiz) -> bool {
    &&& siz.comps@.len() <= u16::MAX
    &&& forall|c: int|
        0 <= c < siz.comps@.len() ==> (#[trigger] siz.comps@[c]).downsampling.x > 0
            && siz.comps@[c].downsampling.y > 0
}

impl Tile {
    /// A tile with index `tile_idx` covering `tile_rect`: one
    /// tile-component per SIZ component, on that component's subsampled
    /// grid, with the COD coding style.
    pub fn new(
        tile_idx: u32,
        tile_rect: Rect,
        siz: &ParamSiz,
        cod: &ParamCod,
        _qcd: &ParamQcd,
        skipped_res_for_recon: u32,
    ) -> (t: Self)
        requires
            siz_usable(*siz),
            rect_fits(tile_rect),
            cod.num_decomps < 32,
            skipped_res_for_recon < 32,
        ensures
            t.tile_idx == tile_idx,
            t.tile_rect == tile_rect,
            t.num_comps == siz.comps@.len(),
            t.tile_comps@.len() == siz.comps@.len(),
            forall|c: int|
                0 <= c < siz.comps@.len() ==> (#[trigger] t.tile_comps@[c]).built_from(
                    c as u32,
                    scaled_rect(
                        tile_rect,
                        siz.comps@[c].downsampling.x as int,
                        siz.comps@[c].downsampling.y as int,
                    ),
                    cod.num_decomps as u32,
                    cod.log_block_dims,
                    Seq::new(
                        (cod.num_decomps + 1) as nat,
                        |r: int| cod.spec_log_precinct_size(r),
                    ),
                    cod.reversible,
                    siz.comps@[c].bit_depth,
                    siz.comps@[c].is_signed,
                ),
            t.employ_color_transform == cod.color_transform,
            t.num_tileparts == 1,
            t.sot == (ParamSot { tile_idx: 0, tile_part_len: 0, tile_part_idx: 0, num_tile_parts: 0 }),
            !t.is_complete,
            t.cur_line == 0,
            t.num_lines == spec_div_ceil(
                tile_rect.org.y + tile_rect.siz.h,
                pow2(skipped_res_for_recon as nat) as int,
            ) - spec_div_ceil(tile_rect.org.y as int, pow2(skipped_res_for_recon as nat) as int),
            t.skipped_res_for_recon == skipped_res_for_recon,
    {
        let num_comps = siz.get_num_components() as u32;
        let mut tile_comps: Vec<TileComp> = Vec::with_capacity(num_comps as usize);
        let ghost pps = Seq::new(
            (cod.num_decomps + 1) as nat,
            |r: int| cod.spec_log_precinct_size(r),
        );
        let mut c: u32 = 0;
        while c < num_comps
            invariant
                num_comps == siz.comps@.len(),
                siz_usable(*siz),
                rect_fits(tile_rect),
                cod.num_decomps < 32,
                pps == Seq::new((cod.num_decomps + 1) as nat, |r: int| cod.spec_log_precinct_size(r)),
                c <= num_comps,
                tile_comps@.len() == c,
                forall|k: int|
                    0 <= k < c ==> (#[trigger] tile_comps@[k]).built_from(
                        k as u32,
                        scaled_rect(
                            tile_rect,
                            siz.comps@[k].downsampling.x as int,
                            siz.comps@[k].downsampling.y as int,
                        ),
                        cod.num_decomps as u32,
                        cod.log_block_dims,
                        pps,
                        cod.reversible,
                        siz.comps@[k].bit_depth,
                        siz.comps@[k].is_signed,
                    ),
            decreases num_comps - c,
        {
            let ds = siz.get_downsampling(c);
            assert(siz.comps@[c as int].downsampling.x > 0);
            let comp_rect = scale_rect(tile_rect, ds.x, ds.y);
            let cp = cod.get_coc(c);
            let num_decomps = cp.get_num_decompositions() as u32;
            let log_block_dims = cp.get_log_block_dims();
            let mut log_pp: Vec<Size> = Vec::with_capacity((num_decomps + 1) as usize);
            let mut r: u32 = 0;
            while r <= num_decomps
                invariant
                    num_decomps == cod.num_decomps,
                    cp == cod,
                    num_decomps < 32,
                    r <= num_decomps + 1,
                    log_pp@ == pps.take(r as int),
                    pps == Seq::new((cod.num_decomps + 1) as nat, |r: int| cod.spec_log_precinct_size(r)),
                decreases num_decomps + 1 - r,
            {
                log_pp.push(cp.get_log_precinct_size(r));
                r = r + 1;
                assert(log_pp@ =~= pps.take(r as int));
            }
            assert(log_pp@ =~= pps);
            tile_comps.push(
                TileComp::new(
                    c,
                    comp_rect,
                    num_decomps,
                    log_block_dims,
                    log_pp.as_slice(),
                    cp.is_reversible(),
                    siz.get_bit_depth(c),
                    siz.is_signed(c),
                ),
            );
            c = c + 1;
        }
        proof {
            vstd::bits::lemma_u32_pow2_no_overflow(skipped_res_for_recon as nat);
            vstd::bits::lemma_u32_shl_is_mul(1, skipped_res_for_recon);
            vstd::arithmetic::power2::lemma_pow2_pos(skipped_res_for_recon as nat);
        }
        let ds = 1u32 << skipped_res_for_recon;
        let y0 = tile_rect.org.y;
        let lo = div_ceil(y0, ds);
        let hi = div_ceil(y0 + tile_rect.siz.h, ds);
        proof {
            crate::types::lemma_div_ceil_monotonic(y0 as int, y0 + tile_rect.siz.h, ds as int);
        }
        let num_lines = hi - lo;
        Tile {
            tile_idx,
            tile_rect,
            tile_comps,
            num_comps,
            employ_color_transform: cod.is_employing_color_transform(),
            num_tileparts: 1,
            sot: ParamSot::new(),
            is_complete: false,
            cur_line: 0,
            num_lines,
            skipped_res_for_recon,
        }
    }

    /// Width of this tile.
    pub fn width(&self) -> (w: u32)
        ensures
            w == self.tile_rect.siz.w,
    {
        self.tile_rect.siz.w
    }

    /// Height of this tile.
    pub fn height(&self) -> (h: u32)
        ensures
            h == self.tile_rect.siz.h,
    {
        self.tile_rect.siz.h
    }

    /// The tile component at the given index, if there is one.
    pub fn get_comp(&self, comp: u32) -> (r: Option<&TileComp>)
        ensures
            comp < self.tile_comps@.len() ==> r == Some(&self.tile_comps@[comp as int]),
            comp >= self.tile_comps@.len() ==> r is None,
    {
        if (comp as usize) < self.tile_comps.len() {
            Some(&self.tile_comps[comp as usize])
        } else {
            None
        }
    }

    /// The tile component at the given index, for modification, if there
    /// is one.
    pub fn get_comp_mut(&mut self, comp: u32) -> (r: Option<&mut TileComp>)
        ensures
            comp < old(self).tile_comps@.len() ==> r is Some && *r->0 == old(
                self,
            ).tile_comps@[comp as int] && final(self).tile_comps@ == old(self).tile_comps@.update(
                comp as int,
                *final(r->0),
            ),
            comp >= old(self).tile_comps@.len() ==> r is None && final(self).tile_comps@ == old(self).tile_comps@,
            final(self).tile_idx == old(self).tile_idx,
            final(self).tile_rect == old(self).tile_rect,
            final(self).num_comps == old(self).num_comps,
            final(self).employ_color_transform == old(self).employ_color_transform,
            final(self).num_tileparts == old(self).num_tileparts,
            final(self).sot == old(self).sot,
            final(self).is_complete == old(self).is_complete,
            final(self).cur_line == old(self).cur_line,
            final(self).num_lines == old(self).num_lines,
            final(self).skipped_res_for_recon == old(self).skipped_res_for_recon,
    {
        if (comp as usize) < self.tile_comps.len() {
            Some(&mut self.tile_comps[comp as usize])
        } else {
            None
        }
    }

    /// Number of tile-parts this tile is divided into: one, times the
    /// number of components when dividing by component, times the largest
    /// number of resolution levels when dividing by resolution.
    pub fn compute_num_tileparts(&self, tilepart_div: u32) -> (n: u32)
        requires
            self.num_comps * max_resolutions(self.tile_comps@) <= u32::MAX,
        ensures
            n == spec_num_tileparts(self.num_comps, max_resolutions(self.tile_comps@), tilepart_div),
    {
        if tilepart_div == 0 {
            return 1;
        }
        let mut tps: u32 = 1;
        if tilepart_div & TILEPART_COMPONENTS != 0 {
            tps = tps * self.num_comps;
        }
        if tilepart_div & TILEPART_RESOLUTIONS != 0 {
            let max_res = self.max_num_resolutions();
            assert(tps == 1 || tps == self.num_comps);
            tps = tps * max_res;
        }
        tps
    }

    /// The largest number of resolution levels among the tile-components
    /// (1 when there is none).
    fn max_num_resolutions(&self) -> (m: u32)
        ensures
            m == max_resolutions(self.tile_comps@),
    {
        let n = self.tile_comps.len();
        if n == 0 {
            return 1;
        }
        let mut m = self.tile_comps[0].num_resolutions;
        let mut i: usize = 1;
        assert(self.tile_comps@.take(1).drop_last() =~= Seq::<TileComp>::empty());
        assert(max_resolutions(self.tile_comps@.take(1)) == self.tile_comps@[0].num_resolutions);
        while i < n
            invariant
                n == self.tile_comps@.len(),
                1 <= i <= n,
                m == max_resolutions(self.tile_comps@.take(i as int)),
            decreases n - i,
        {
            let v = self.tile_comps[i].num_resolutions;
            assert(self.tile_comps@.take(i + 1).drop_last() =~= self.tile_comps@.take(i as int));
            if v > m {
                m = v;
            }
            i = i + 1;
        }
        assert(self.tile_comps@.take(n as int) =~= self.tile_comps@);
        m
    }
}

/// Number of tile-parts for a tile with `num_comps` components whose
/// components have at most `max_res` resolution levels.
pub open spec fn spec_num_tileparts(num_comps: u32, max_res: u32, tilepart_div: u32) -> int {
    if tilepart_div == 0 {
        1
    } else {
        (if tilepart_div & TILEPART_COMPONENTS != 0 { num_comps as int } else { 1 }) * (
        if tilepart_div & TILEPART_RESOLUTIONS != 0 {
            max_res as int
        } else {
            1
        })
    }
}

impl Default for Tile {
    fn default() -> (t: Self)
        ensures
            t.tile_idx == 0,
            t.tile_rect == (Rect { org: Point { x: 0, y: 0 }, siz: Size { w: 0, h: 0 } }),
            t.tile_comps@.len() == 0,
            t.num_comps == 0,
            !t.employ_color_transform,
            t.num_tileparts == 1,
            t.sot == (ParamSot { tile_idx: 0, tile_part_len: 0, tile_part_idx: 0, num_tile_parts: 0 }),
            !t.is_complete,
            t.cur_line == 0,
            t.num_lines == 0,
            t.skipped_res_for_recon == 0,
    {
        Tile {
            tile_idx: 0,
            tile_rect: Rect::new(Point::new(0, 0), Size::new(0, 0)),
            tile_comps: Vec::new(),
            num_comps: 0,
            employ_color_transform: false,
            num_tileparts: 1,
            sot: ParamSot::new(),
            is_complete: false,
            cur_line: 0,
            num_lines: 0,
            skipped_res_for_recon: 0,
        }
    }
}

} // verus!
