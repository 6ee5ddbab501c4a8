//! Tile-components: one colour plane within a tile, with its hierarchy of
//! resolution levels.

use vstd::prelude::*;
use vstd::arithmetic::power2::pow2;
use crate::types::{rect_fits, scale_rect, scaled_rect, Point, Rect, Size};
use super::resolution::Resolution;

verus! {

/// A tile component: one colour plane within a tile.
#[derive(Debug, Clone)]
pub struct TileComp {
    /// Component index (0-based).
    pub comp_num: u32,
    /// Rectangle of this tile-component on the component's grid.
    pub comp_rect: Rect,
    /// Number of resolution levels.
    pub num_resolutions: u32,
    /// Resolution levels, from lowest (0) to highest.
    pub resolutions: Vec<Resolution>,
    /// Whether reversible coding is used.
    pub reversible: bool,
    /// Component bit depth.
    pub bit_depth: u32,
    /// Whether the component is signed.
    pub is_signed: bool,
}

/// Resolution `r` of a tile-component with `num_decomps` decomposition
/// levels: the component rectangle scaled down by `2^(num_decomps - r)`,
/// with the precinct size given for it (2^15 by 2^15 when none is given).
pub open spec fn resolution_of(
    r: int,
    num_decomps: u32,
    comp_rect: Rect,
    log_block_dims: Size,
    log_precinct_sizes: Seq<Size>,
    reversible: bool,
) -> Resolution {
    let ds = pow2((num_decomps - r) as nat) as int;
    Resolution {
        res_num: r as u32,
        num_decomps,
        res_rect: scaled_rect(comp_rect, ds, ds),
        log_precinct_size: if r < log_precinct_sizes.len() {
            log_precinct_sizes[r]
        } else {
            Size { w: 15, h: 15 }
        },
        log_block_dims,
        reversible,
        is_lowest: r == 0,
    }
}

impl TileComp {
    /// `self` is the tile-component these arguments of `new` describe.
    pub open spec fn built_from(
        self,
        comp_num: u32,
        comp_rect: Rect,
        num_decomps: u32,
        log_block_dims: Size,
        log_precinct_sizes: Seq<Size>,
        reversible: bool,
        bit_depth: u32,
        is_signed: bool,
    ) -> bool {
        &&& self.comp_num == comp_num
        &&& self.comp_rect == comp_rect
        &&& self.num_resolutions == num_decomps + 1
        &&& self.reversible == reversible
        &&& self.bit_depth == bit_depth
        &&& self.is_signed == is_signed
        &&& self.resolutions@.len() == num_decomps + 1
        &&& forall|r: int|
            0 <= r <= num_decomps ==> #[trigger] self.resolutions@[r] == resolution_of(
                r,
                num_decomps,
                comp_rect,
                log_block_dims,
                log_precinct_sizes,
                reversible,
            )
    }

    /// A tile component and its `num_decomps + 1` resolution levels.
    pub fn new(
        comp_num: u32,
        comp_rect: Rect,
        num_decomps: u32,
        log_block_dims: Size,
        log_precinct_sizes: &[Size],
        reversible: bool,
        bit_depth: u32,
        is_signed: bool,
    ) -> (tc: Self)
        requires
            num_decomps < 32,
            rect_fits(comp_rect),
        ensures
            tc.built_from(
                comp_num,
                comp_rect,
                num_decomps,
                log_block_dims,
                log_precinct_sizes@,
                reversible,
                bit_depth,
                is_signed,
            ),
    {
        let num_resolutions = num_decomps + 1;
        let mut resolutions: Vec<Resolution> = Vec::with_capacity(num_resolutions as usize);
        let mut r: u32 = 0;
        while r < num_resolutions
            invariant
                num_decomps < 32,
                num_resolutions == num_decomps + 1,
                r <= num_resolutions,
                rect_fits(comp_rect),
                resolutions@.len() == r,
                forall|k: int|
                    0 <= k < r ==> #[trigger] resolutions@[k] == resolution_of(
                        k,
                        num_decomps,
                        comp_rect,
                        log_block_dims,
                        log_precinct_sizes@,
                        reversible,
                    ),
            decreases num_resolutions - r,
        {
            proof {
                vstd::bits::lemma_u32_pow2_no_overflow((num_decomps - r) as nat);
                vstd::bits::lemma_u32_shl_is_mul(1, (num_decomps - r) as u32);
                vstd::arithmetic::power2::lemma_pow2_pos((num_decomps - r) as nat);
            }
            let ds = 1u32 << (num_decomps - r);
            let res_rect = scale_rect(comp_rect, ds, ds);
            let log_pp = if (r as usize) < log_precinct_sizes.len() {
                log_precinct_sizes[r as usize]
            } else {
                Size::new(15, 15)
            };
            resolutions.push(
                Resolution::new(r, num_decomps, res_rect, log_pp, log_block_dims, reversible),
            );
            r = r + 1;
        }
        TileComp {
            comp_num,
            comp_rect,
            num_resolutions,
            resolutions,
            reversible,
            bit_depth,
            is_signed,
        }
    }

    /// Width of this tile component.
    pub fn width(&self) -> (w: u32)
        ensures
            w == self.comp_rect.siz.w,
    {
        self.comp_rect.siz.w
    }

    /// Height of this tile component.
    pub fn height(&self) -> (h: u32)
        ensures
            h == self.comp_rect.siz.h,
    {
        self.comp_rect.siz.h
    }

    /// The resolution at the given level, if there is one.
    pub fn get_resolution(&self, level: u32) -> (r: Option<&Resolution>)
        ensures
            level < self.resolutions@.len() ==> r == Some(&self.resolutions@[level as int]),
            level >= self.resolutions@.len() ==> r is None,
    {
        if (level as usize) < self.resolutions.len() {
            Some(&self.resolutions[level as usize])
        } else {
            None
        }
    }

    /// The resolution at the given level, for modification, if there is one.
    pub fn get_resolution_mut(&mut self, level: u32) -> (r: Option<&mut Resolution>)
        ensures
            level < old(self).resolutions@.len() ==> r is Some && *r->0 == old(
                self,
            ).resolutions@[level as int] && final(self).resolutions@ == old(self).resolutions@.update(
                level as int,
                *final(r->0),
            ),
            level >= old(self).resolutions@.len() ==> r is None && final(self).resolutions@ == old(self).resolutions@,
            final(self).comp_num == old(self).comp_num,
            final(self).comp_rect == old(self).comp_rect,
            final(self).num_resolutions == old(self).num_resolutions,
            final(self).reversible == old(self).reversible,
            final(self).bit_depth == old(self).bit_depth,
            final(self).is_signed == old(self).is_signed,
    {
        if (level as usize) < self.resolutions.len() {
            Some(&mut self.resolutions[level as usize])
        } else {
            None
        }
    }
}

impl Default for TileComp {
    fn default() -> (tc: Self)
        ensures
            tc.comp_num == 0,
            tc.comp_rect == (Rect { org: Point { x: 0, y: 0 }, siz: Size { w: 0, h: 0 } }),
            tc.num_resolutions == 0,
            tc.resolutions@.len() == 0,
            tc.reversible,
            tc.bit_depth == 8,
            !tc.is_signed,
    {
        TileComp {
            comp_num: 0,
            comp_rect: Rect::new(Point::new(0, 0), Size::new(0, 0)),
            num_resolutions: 0,
            resolutions: Vec::new(),
            reversible: true,
            bit_depth: 8,
            is_signed: false,
        }
    }
}

/// Law: a tile-component built with `num_decomps` decompositions has a
/// resolution at each level up to `num_decomps` and none beyond, and its
/// highest resolution covers the whole component.
pub proof fn law_top_resolution_covers_component(
    tc: TileComp,
    comp_num: u32,
    comp_rect: Rect,
    num_decomps: u32,
    log_block_dims: Size,
    log_precinct_sizes: Seq<Size>,
    reversible: bool,
    bit_depth: u32,
    is_signed: bool,
)
    requires
        tc.built_from(
            comp_num,
            comp_rect,
            num_decomps,
            log_block_dims,
            log_precinct_sizes,
            reversible,
            bit_depth,
            is_signed,
        ),
        rect_fits(comp_rect),
    ensures
        tc.resolutions@.len() == num_decomps + 1,
        tc.resolutions@[num_decomps as int].res_rect == comp_rect,
{
    vstd::arithmetic::power2::lemma2_to64();
    assert(tc.resolutions@[num_decomps as int] == resolution_of(
        num_decomps as int,
        num_decomps,
        comp_rect,
        log_block_dims,
        log_precinct_sizes,
        reversible,
    ));
    assert(pow2((num_decomps - num_decomps) as nat) == 1);
}

/// Law: resolution level `r` of a tile-component takes the `r`-th entry of
/// the precinct-size list it was built with, counted from the lowest
/// resolution (level 0), and levels beyond the end of the list take
/// precincts of 2^15 by 2^15; each level knows its own number, only level 0
/// is the lowest, and level `r` covers the component scaled down by
/// `2^(num_decomps - r)`.
pub proof fn law_resolution_precincts_follow_list(
    tc: TileComp,
    comp_num: u32,
    comp_rect: Rect,
    num_decomps: u32,
    log_block_dims: Size,
    log_precinct_sizes: Seq<Size>,
    reversible: bool,
    bit_depth: u32,
    is_signed: bool,
)
    requires
        tc.built_from(
            comp_num,
            comp_rect,
            num_decomps,
            log_block_dims,
            log_precinct_sizes,
            reversible,
            bit_depth,
            is_signed,
        ),
    ensures
        forall|r: int|
            0 <= r <= num_decomps && r < log_precinct_sizes.len() ==> (
            #[trigger] tc.resolutions@[r]).log_precinct_size == log_precinct_sizes[r],
        forall|r: int|
            0 <= r <= num_decomps && r >= log_precinct_sizes.len() ==> (
            #[trigger] tc.resolutions@[r]).log_precinct_size == (Size { w: 15, h: 15 }),
        forall|r: int|
            0 <= r <= num_decomps ==> {
                let res = #[trigger] tc.resolutions@[r];
                &&& res.res_num == r
                &&& res.num_decomps == num_decomps
                &&& (res.is_lowest <==> r == 0)
                &&& res.log_block_dims == log_block_dims
                &&& res.reversible == reversible
                &&& res.res_rect == scaled_rect(
                    comp_rect,
                    pow2((num_decomps - r) as nat) as int,
                    pow2((num_decomps - r) as nat) as int,
                )
            },
{
    assert forall|r: int| 0 <= r <= num_decomps implies {
        let res = #[trigger] tc.resolutions@[r];
        &&& (r < log_precinct_sizes.len() ==> res.log_precinct_size == log_precinct_sizes[r])
        &&& (r >= log_precinct_sizes.len() ==> res.log_precinct_size == (Size { w: 15, h: 15 }))
        &&& res.res_num == r
    } by {
        assert(tc.resolutions@[r] == resolution_of(
            r,
            num_decomps,
            comp_rect,
            log_block_dims,
            log_precinct_sizes,
            reversible,
        ));
    }
}

} // verus!
