use openjph_core::codestream::ProfileNum;
use openjph_core::params::{OjphError, ProgressionOrder, SizComp};
use openjph_core::tools::{check_output, setup_codestream, CompressSettings, OutputError, OutputKind, SetupError};
use openjph_core::types::{Point, Size};

fn settings() -> CompressSettings {
    CompressSettings {
        image_offset: Point::new(0, 0),
        tile_offset: Point::new(0, 0),
        tile_size: None,
        num_decomps: 5,
        block_size: Size::new(64, 64),
        reversible: true,
        precincts: None,
        prog_order: "RPCL".to_string(),
        colour_trans: None,
        planar: false,
        tlm_marker: false,
        tilepart_divs: None,
        profile: None,
    }
}

fn rgb8() -> Vec<SizComp> {
    vec![SizComp { downsampling: Point::new(1, 1), bit_depth: 8, is_signed: false }; 3]
}

#[test]
fn setup_with_defaults() {
    let cs = setup_codestream(&settings(), 640, 480, &rgb8()).unwrap();
    let siz = cs.access_siz();
    assert_eq!(siz.get_image_extent(), Point::new(640, 480));
    assert_eq!(siz.get_image_offset(), Point::new(0, 0));
    assert_eq!(siz.get_tile_size(), Size::new(0, 0));
    assert_eq!(siz.get_num_components(), 3);
    assert_eq!(siz.get_bit_depth(2), 8);
    let cod = cs.access_cod();
    assert_eq!(cod.get_num_decompositions(), 5);
    assert_eq!(cod.get_log_block_dims(), Size::new(6, 6));
    assert_eq!(cod.progression_order, ProgressionOrder::RPCL);
    assert!(cod.is_employing_color_transform());
    assert!(!cs.is_planar());
}

#[test]
fn setup_with_every_option() {
    let mut s = settings();
    s.image_offset = Point::new(10, 20);
    s.tile_offset = Point::new(5, 5);
    s.tile_size = Some(Size::new(512, 256));
    s.num_decomps = 3;
    s.block_size = Size::new(32, 16);
    s.reversible = false;
    s.precincts = Some(vec![Size::new(128, 128), Size::new(256, 256)]);
    s.prog_order = "LRCP".to_string();
    s.colour_trans = Some(false);
    s.planar = true;
    s.tlm_marker = true;
    s.tilepart_divs = Some("RC".to_string());
    s.profile = Some("BROADCAST".to_string());
    let comps = vec![
        SizComp { downsampling: Point::new(1, 1), bit_depth: 10, is_signed: true },
        SizComp { downsampling: Point::new(2, 2), bit_depth: 10, is_signed: true },
    ];
    let cs = setup_codestream(&s, 100, 50, &comps).unwrap();
    let siz = cs.access_siz();
    assert_eq!(siz.get_image_extent(), Point::new(110, 70));
    assert_eq!(siz.get_image_offset(), Point::new(10, 20));
    assert_eq!(siz.get_tile_offset(), Point::new(5, 5));
    assert_eq!(siz.get_tile_size(), Size::new(512, 256));
    assert_eq!(siz.get_downsampling(1), Point::new(2, 2));
    assert!(siz.is_signed(0));
    let cod = cs.access_cod();
    assert_eq!(cod.get_num_decompositions(), 3);
    assert_eq!(cod.get_log_block_dims(), Size::new(5, 4));
    assert!(!cod.is_reversible());
    assert_eq!(cod.get_log_precinct_size(1), Size::new(8, 8));
    assert_eq!(cod.progression_order, ProgressionOrder::LRCP);
    assert!(!cod.is_employing_color_transform());
    assert!(cs.is_planar());
}

#[test]
fn setup_refuses_bad_names_in_order() {
    let mut s = settings();
    s.prog_order = "XXXX".to_string();
    s.profile = Some("none".to_string());
    assert!(matches!(
        setup_codestream(&s, 8, 8, &rgb8()),
        Err(SetupError::ProgressionOrder(OjphError::InvalidParam))
    ));
    let mut s = settings();
    s.tilepart_divs = Some("X".to_string());
    s.profile = Some("none".to_string());
    match setup_codestream(&s, 8, 8, &rgb8()) {
        Err(SetupError::TilepartDivs(m)) => assert_eq!(m, "Invalid tilepart_divs: 'X' (expected R, C, or RC)"),
        _ => panic!("expected a tile-part division error"),
    }
    let mut s = settings();
    s.profile = Some("IMF2".to_string());
    assert!(matches!(
        setup_codestream(&s, 8, 8, &rgb8()),
        Err(SetupError::Profile(OjphError::InvalidParam))
    ));
    let mut s = settings();
    s.profile = Some("IMF".to_string());
    assert!(setup_codestream(&s, 8, 8, &rgb8()).is_ok());
    let _ = ProfileNum::IMF;
}

#[test]
fn output_choices() {
    let one = [Point::new(1, 1)];
    let three = [Point::new(1, 1); 3];
    let mixed = [Point::new(1, 1), Point::new(2, 2), Point::new(2, 2)];
    assert_eq!(check_output("a.pgm", 1, false, &one), Ok(OutputKind::Pgm));
    assert_eq!(check_output("a.PGM", 3, false, &three), Err(OutputError::PgmComponents(3)));
    assert_eq!(check_output("a.ppm", 3, true, &three), Ok(OutputKind::Ppm));
    assert_eq!(check_output("a.ppm", 1, false, &one), Err(OutputError::PpmComponents(1)));
    assert_eq!(check_output("a.ppm", 3, false, &mixed), Err(OutputError::PpmDownsampling));
    assert_eq!(check_output("a.yuv", 3, false, &mixed), Ok(OutputKind::Yuv));
    assert_eq!(check_output("a.yuv", 3, true, &mixed), Err(OutputError::YuvColourTransform));
    assert_eq!(check_output("a.yuv", 2, false, &[Point::new(1, 1); 2]), Err(OutputError::YuvComponents(2)));
    assert_eq!(check_output("a.raw", 1, false, &one), Ok(OutputKind::Rawl));
    assert_eq!(check_output("a.rawl", 3, false, &three), Err(OutputError::RawlComponents(3)));
    assert_eq!(check_output("a.j2c", 1, false, &one), Err(OutputError::Unsupported));
    assert!(OutputKind::Yuv.is_planar());
    assert!(OutputKind::Rawl.is_planar());
    assert!(!OutputKind::Ppm.is_planar());
    assert!(!OutputKind::Pgm.is_planar());
}
