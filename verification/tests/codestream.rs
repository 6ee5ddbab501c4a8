use openjph_core::codestream::resolution::Resolution;
use openjph_core::codestream::subband::{Subband, SubbandType};
use openjph_core::codestream::tile::Tile;
use openjph_core::codestream::tile_comp::TileComp;
use openjph_core::codestream::{Codestream, ProfileNum};
use openjph_core::params::{OjphError, ParamCod, ParamQcd, ParamSiz, ProgressionOrder};
use openjph_core::types::{div_ceil, Point, Rect, Size};

#[test]
fn fresh_codestream_defaults() {
    let cs = Codestream::new();
    assert!(!cs.is_planar());
    assert_eq!(cs.get_num_tiles(), Size::new(0, 0));
    assert_eq!(cs.access_cod().get_num_decompositions(), 5);
    assert!(cs.access_cod().is_reversible());
    assert_eq!(cs.access_siz().get_num_components(), 0);
    assert_eq!(cs.access_qcd().num_guard_bits, 1);
    assert!(cs.access_nlt().nonlinearity.is_empty());
}

#[test]
fn codestream_settings() {
    let mut cs = Codestream::new();
    cs.set_planar(1);
    assert!(cs.is_planar());
    cs.set_planar(0);
    assert!(!cs.is_planar());
    assert_eq!(cs.set_profile("IMF"), Ok(()));
    assert_eq!(cs.set_profile("BROADCAST"), Ok(()));
    assert_eq!(cs.set_profile("imf"), Err(OjphError::InvalidParam));
    cs.enable_resilience();
    cs.set_tilepart_divisions(3);
    cs.request_tlm_marker(true);
    cs.restrict_input_resolution(1, 2);
    cs.access_cod_mut().set_num_decomposition(3);
    assert_eq!(cs.access_cod().get_num_decompositions(), 3);
    cs.restart();
    assert_eq!(cs.access_cod().get_num_decompositions(), 5);
}

#[test]
fn tile_grid_covers_image() {
    let mut cs = Codestream::new();
    {
        let siz = cs.access_siz_mut();
        siz.set_image_extent(Point::new(1000, 600));
        siz.set_tile_size(Size::new(256, 256));
        siz.set_tile_offset(Point::new(10, 0));
    }
    cs.compute_tile_grid();
    assert_eq!(cs.get_num_tiles(), Size::new(4, 3));
}

#[test]
fn siz_components_and_recon_sizes() {
    let mut siz = ParamSiz::new();
    siz.set_image_extent(Point::new(101, 50));
    siz.set_image_offset(Point::new(1, 0));
    siz.set_num_components(3);
    assert_eq!(siz.get_num_components(), 3);
    assert_eq!(siz.get_bit_depth(2), 8);
    assert!(!siz.is_signed(2));
    siz.set_comp_info(1, Point::new(2, 2), 10, true);
    assert_eq!(siz.get_downsampling(1), Point::new(2, 2));
    assert_eq!(siz.get_bit_depth(1), 10);
    assert!(siz.is_signed(1));
    assert_eq!(siz.get_recon_width(0), 100);
    assert_eq!(siz.get_recon_width(1), 50);
    assert_eq!(siz.get_recon_height(1), 25);
    siz.set_num_components(1);
    assert_eq!(siz.get_num_components(), 1);
}

#[test]
fn cod_settings() {
    let mut cod = ParamCod::new();
    cod.set_block_dims(64, 32);
    assert_eq!(cod.get_log_block_dims(), Size::new(6, 5));
    cod.set_precinct_size(2, &[Size::new(128, 128), Size::new(256, 64), Size::new(8, 8)]);
    assert_eq!(cod.get_log_precinct_size(0), Size::new(7, 7));
    assert_eq!(cod.get_log_precinct_size(1), Size::new(8, 6));
    assert_eq!(cod.get_log_precinct_size(2), Size::new(15, 15));
    assert_eq!(cod.set_progression_order("CPRL"), Ok(()));
    assert_eq!(cod.progression_order, ProgressionOrder::CPRL);
    assert_eq!(cod.set_progression_order("XYZW"), Err(OjphError::InvalidParam));
    assert_eq!(cod.progression_order, ProgressionOrder::CPRL);
    cod.set_color_transform(false);
    assert!(!cod.is_employing_color_transform());
    cod.set_reversible(false);
    assert!(!cod.get_coc(2).is_reversible());
}

#[test]
fn subband_block_grid() {
    assert_eq!(SubbandType::from_index(2), SubbandType::LH);
    assert_eq!(SubbandType::from_index(9), SubbandType::LL);
    let rect = Rect::new(Point::new(30, 0), Size::new(100, 64));
    let band = Subband::new(SubbandType::HH, 1, rect, Size::new(5, 6));
    assert_eq!(band.width(), 100);
    assert_eq!(band.height(), 64);
    // x: blocks of 32 from 30 to 130 touch blocks 0..=4; y: one block of 64.
    assert_eq!(band.num_blocks_x, 5);
    assert_eq!(band.num_blocks_y, 1);
    assert_eq!(band.total_blocks(), 5);
    assert!(!band.is_empty());
    let empty = Subband::default();
    assert!(empty.is_empty());
    assert_eq!(empty.total_blocks(), 0);
}

#[test]
fn tile_components_and_resolutions() {
    let mut siz = ParamSiz::new();
    siz.set_num_components(2);
    siz.set_comp_info(1, Point::new(2, 2), 12, false);
    let mut cod = ParamCod::new();
    cod.set_num_decomposition(2);
    let qcd = ParamQcd::new();
    let rect = Rect::new(Point::new(0, 0), Size::new(100, 60));
    let tile = Tile::new(7, rect, &siz, &cod, &qcd, 1);
    assert_eq!(tile.width(), 100);
    assert_eq!(tile.height(), 60);
    assert_eq!(tile.num_comps, 2);
    assert_eq!(tile.num_lines, 30);
    let c1 = tile.get_comp(1).unwrap();
    assert_eq!(c1.width(), 50);
    assert_eq!(c1.height(), 30);
    assert_eq!(c1.num_resolutions, 3);
    assert_eq!(c1.bit_depth, 12);
    let r0 = c1.get_resolution(0).unwrap();
    assert!(r0.is_lowest);
    assert_eq!(r0.res_rect.siz, Size::new(13, 8));
    assert!(c1.get_resolution(3).is_none());
    assert!(tile.get_comp(2).is_none());
    assert_eq!(tile.compute_num_tileparts(0), 1);
    assert_eq!(tile.compute_num_tileparts(1), 3);
    assert_eq!(tile.compute_num_tileparts(2), 2);
    assert_eq!(tile.compute_num_tileparts(3), 6);
}

#[test]
fn tile_component_directly() {
    let rect = Rect::new(Point::new(3, 5), Size::new(10, 7));
    let mut tc = TileComp::new(0, rect, 1, Size::new(6, 6), &[Size::new(4, 4)], true, 8, false);
    assert_eq!(tc.width(), 10);
    assert_eq!(tc.height(), 7);
    let r1 = tc.get_resolution(1).unwrap();
    assert_eq!(r1.log_precinct_size, Size::new(15, 15));
    assert_eq!(r1.res_rect, rect);
    let r0 = tc.get_resolution_mut(0).unwrap();
    assert_eq!(r0.log_precinct_size, Size::new(4, 4));
    assert_eq!(r0.res_rect, Rect::new(Point::new(2, 3), Size::new(5, 3)));
    let res = Resolution::new(2, 3, rect, Size::new(15, 15), Size::new(6, 6), true);
    assert!(!res.is_lowest);
    assert_eq!(div_ceil(7, 2), 4);
}

#[test]
fn tile_lines_at_reduced_resolution_follow_origin() {
    let mut siz = ParamSiz::new();
    siz.set_num_components(1);
    let mut cod = ParamCod::new();
    cod.set_num_decomposition(2);
    let qcd = ParamQcd::new();
    let tile = Tile::new(0, Rect::new(Point::new(0, 1), Size::new(4, 3)), &siz, &cod, &qcd, 1);
    // Rows 1..4 at half resolution: ceil(4 / 2) - ceil(1 / 2) = 1.
    assert_eq!(tile.num_lines, 1);
    let tile = Tile::new(0, Rect::new(Point::new(0, 1), Size::new(4, 3)), &siz, &cod, &qcd, 0);
    assert_eq!(tile.num_lines, 3);
}

