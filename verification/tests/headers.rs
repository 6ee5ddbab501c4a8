use openjph_core::codestream::Codestream;
use openjph_core::params::{OjphError, ProgressionOrder};
use openjph_core::types::{Point, Size};

fn rgb_codestream() -> Codestream {
    let mut cs = Codestream::new();
    let siz = cs.access_siz_mut();
    siz.set_image_extent(Point::new(640, 480));
    siz.set_num_components(3);
    for c in 0..3 {
        siz.set_comp_info(c, Point::new(1, 1), 8, false);
    }
    cs
}

#[test]
fn header_starts_with_soc_and_siz() {
    let mut cs = rgb_codestream();
    let b = cs.write_headers(&[]).unwrap();
    assert_eq!(&b[0..2], &[0xFF, 0x4F]);
    assert_eq!(&b[2..4], &[0xFF, 0x51]);
    // Lsiz = 38 + 3 * 3, Rsiz = 0x4000, Xsiz = 640, Ysiz = 480.
    assert_eq!(&b[4..6], &[0x00, 47]);
    assert_eq!(&b[6..8], &[0x40, 0x00]);
    assert_eq!(&b[8..16], &[0, 0, 2, 128, 0, 0, 1, 224]);
    // no tile size set: the tile covers the grid
    assert_eq!(&b[24..32], &[0, 0, 2, 128, 0, 0, 1, 224]);
    assert_eq!(cs.access_siz().get_tile_size(), Size::new(640, 480));
    assert_eq!(cs.get_num_tiles(), Size::new(1, 1));
    // CAP follows SIZ.
    let cap = 2 + 2 + 47;
    assert_eq!(&b[cap..cap + 4], &[0xFF, 0x50, 0x00, 0x08]);
    // COD: 5 decompositions, 64x64 blocks, HT, reversible, RPCL, RCT.
    let cod = cap + 2 + 8;
    assert_eq!(&b[cod..cod + 4], &[0xFF, 0x52, 0x00, 12]);
    assert_eq!(&b[cod + 4..cod + 14], &[0, 2, 0, 1, 1, 5, 4, 4, 0x40, 1]);
    // QCD: one guard bit, no quantisation, exponents 9, then 10, 10, 11.
    let qcd = cod + 14;
    assert_eq!(&b[qcd..qcd + 2], &[0xFF, 0x5C]);
    assert_eq!(&b[qcd + 2..qcd + 4], &[0, 3 + 16]);
    assert_eq!(&b[qcd + 4..qcd + 8], &[32, 72, 80, 80]);
    assert_eq!(b[qcd + 8], 88);
    assert_eq!(b.len(), qcd + 2 + 19);
}

#[test]
fn header_reads_back() {
    let mut cs = rgb_codestream();
    {
        let siz = cs.access_siz_mut();
        siz.set_image_offset(Point::new(3, 4));
        siz.set_tile_size(Size::new(256, 256));
        siz.set_comp_info(1, Point::new(2, 2), 10, true);
    }
    {
        let cod = cs.access_cod_mut();
        cod.set_num_decomposition(3);
        cod.set_block_dims(32, 64);
        cod.set_precinct_size(2, &[Size::new(128, 128), Size::new(256, 256)]);
        cod.set_reversible(false);
        assert_eq!(cod.set_progression_order("CPRL"), Ok(()));
    }
    let comments = vec![b"hello".to_vec(), Vec::new()];
    let b = cs.write_headers(&comments).unwrap();
    assert_eq!(cs.get_num_tiles(), Size::new(3, 2));
    let mut back = Codestream::new();
    assert_eq!(back.read_headers(&b), Ok(b.len()));
    let siz = back.access_siz();
    assert_eq!(siz.get_image_extent(), Point::new(640, 480));
    assert_eq!(siz.get_image_offset(), Point::new(3, 4));
    assert_eq!(siz.get_tile_size(), Size::new(256, 256));
    assert_eq!(siz.get_num_components(), 3);
    assert_eq!(siz.get_downsampling(1), Point::new(2, 2));
    assert_eq!(siz.get_bit_depth(1), 10);
    assert!(siz.is_signed(1));
    assert!(!siz.is_signed(2));
    let cod = back.access_cod();
    assert_eq!(cod.get_num_decompositions(), 3);
    assert_eq!(cod.get_log_block_dims(), Size::new(5, 6));
    assert!(!cod.is_reversible());
    assert!(cod.is_employing_color_transform());
    assert_eq!(cod.progression_order, ProgressionOrder::CPRL);
    assert_eq!(cod.get_log_precinct_size(0), Size::new(7, 7));
    assert_eq!(cod.get_log_precinct_size(1), Size::new(8, 8));
    assert_eq!(cod.get_log_precinct_size(2), Size::new(15, 15));
    assert_eq!(back.access_qcd().num_guard_bits, 1);
    assert_eq!(back.get_num_tiles(), Size::new(3, 2));
}

#[test]
fn tile_grid_from_headers() {
    let mut cs = Codestream::new();
    {
        let siz = cs.access_siz_mut();
        siz.set_image_extent(Point::new(256, 256));
        siz.set_tile_size(Size::new(100, 100));
        siz.set_num_components(1);
    }
    let b = cs.write_headers(&[]).unwrap();
    assert_eq!(cs.get_num_tiles(), Size::new(3, 3));
    let mut back = Codestream::new();
    assert!(back.read_headers(&b).is_ok());
    assert_eq!(back.get_num_tiles(), Size::new(3, 3));
}

#[test]
fn tlm_marker_when_requested() {
    let mut cs = rgb_codestream();
    cs.access_siz_mut().set_tile_size(Size::new(320, 240));
    cs.request_tlm_marker(true);
    cs.set_tilepart_divisions(2);
    let b = cs.write_headers(&[]).unwrap();
    // 4 tiles of 3 tile-parts: Ltlm = 4 + 6 * 12.
    let n = b.len();
    let tlm = n - (2 + 4 + 72);
    assert_eq!(&b[tlm..tlm + 6], &[0xFF, 0x55, 0, 76, 0, 0x60]);
    assert_eq!(&b[tlm + 6..tlm + 12], &[0, 0, 0, 0, 0, 0]);
    assert_eq!(&b[n - 6..n], &[0, 3, 0, 0, 0, 0]);
    let mut back = Codestream::new();
    assert_eq!(back.read_headers(&b), Ok(n));
}

#[test]
fn comment_segments() {
    let mut cs = rgb_codestream();
    let plain = cs.write_headers(&[]).unwrap();
    let mut cs = rgb_codestream();
    let with = cs.write_headers(&[b"ab".to_vec()]).unwrap();
    assert_eq!(with.len(), plain.len() + 8);
    assert_eq!(&with[plain.len()..], &[0xFF, 0x64, 0, 6, 0, 1, b'a', b'b']);
}

#[test]
fn headers_refused() {
    let mut cs = Codestream::new();
    assert_eq!(cs.write_headers(&[]), Err(OjphError::InvalidParam));
    let mut cs = rgb_codestream();
    cs.access_cod_mut().set_block_dims(2048, 64);
    assert_eq!(cs.write_headers(&[]), Err(OjphError::InvalidParam));
    assert_eq!(cs.get_num_tiles(), Size::new(0, 0));
    let mut cs = rgb_codestream();
    cs.access_siz_mut().set_comp_info(0, Point::new(1, 1), 39, false);
    assert_eq!(cs.write_headers(&[]), Err(OjphError::InvalidParam));
}

#[test]
fn reading_stops_at_sot_and_refuses_bad_headers() {
    let mut cs = rgb_codestream();
    let mut b = cs.write_headers(&[]).unwrap();
    let n = b.len();
    b.extend_from_slice(&[0xFF, 0x90, 0, 10]);
    let mut back = Codestream::new();
    assert_eq!(back.read_headers(&b), Ok(n));
    let mut back = Codestream::new();
    assert_eq!(back.read_headers(&[0xFF, 0x51]), Err(OjphError::InvalidParam));
    assert_eq!(back.read_headers(&b[..n - 1]), Err(OjphError::InvalidParam));
    // without QCD
    let qcd = n - 21;
    assert_eq!(back.read_headers(&b[..qcd]), Err(OjphError::InvalidParam));
    assert_eq!(back.access_siz().get_num_components(), 0);
    // an unknown segment is skipped
    let mut c = b[..n].to_vec();
    c.extend_from_slice(&[0xFF, 0x63, 0, 4, 1, 2]);
    assert_eq!(back.read_headers(&c), Ok(c.len()));
}
