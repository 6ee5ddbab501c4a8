//! Resolution levels of a tile-component.

use vstd::prelude::*;
use crate::types::{Rect, Size};

verus! {

/// One resolution level of a tile-component (0 is the lowest).
#[derive(Debug, Clone, Copy, PartialEq, Eq, Structural)]
pub struct Resolution {
    /// Resolution number.
    pub res_num: u32,
    /// Number of decomposition levels of the owning tile-component.
    pub num_decomps: u32,
    /// Rectangle of this resolution on its own (subsampled) grid.
    pub res_rect: Rect,
    /// Log2 of the precinct size.
    pub log_precinct_size: Size,
    /// Log2 of the code-block dimensions.
    pub log_block_dims: Size,
    /// Whether reversible coding is used.
    pub reversible: bool,
    /// True for the lowest resolution, which holds only the LL band.
    pub is_lowest: bool,
}

impl Resolution {
    pub fn new(
        res_num: u32,
        num_decomps: u32,
        res_rect: Rect,
        log_precinct_size: Size,
        log_block_dims: Size,
        reversible: bool,
    ) -> (r: Self)
        ensures
            r == (Resolution {
                res_num,
                num_decomps,
                res_rect,
                log_precinct_size,
                log_block_dims,
                reversible,
                is_lowest: res_num == 0,
            }),
    {
        Resolution {
            res_num,
            num_decomps,
            res_rect,
            log_precinct_size,
            log_block_dims,
            reversible,
            is_lowest: res_num == 0,
        }
    }
}

} // verus!
