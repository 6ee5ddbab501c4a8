use openjph_core::img_io::dpx::{dpx_line_bytes, parse_dpx_header, unpack_dpx_line, DpxError, DpxHeader};
use openjph_core::img_io::formats::{
    create_reader, create_writer, subsampling_from_format, tilepart_divisions_named, ReaderFormat, WriterFormat,
};
use openjph_core::img_io::layout::{
    component_sizes, downsampling_of, interleave_component, max_of, rawl_layout, unsigned_layout, SampleLayout,
};
use openjph_core::img_io::ppm::{parse_pnm_header, pnm_header, PnmError, PnmHeader};
use openjph_core::img_io::samples::{
    decode_be_samples, decode_le_samples, deinterleave, encode_be_samples, encode_le_samples, max_sample_value,
};

#[test]
fn reader_format_follows_extension() {
    assert_eq!(create_reader("a.ppm"), Ok(ReaderFormat::Ppm));
    assert_eq!(create_reader("A.PGM"), Ok(ReaderFormat::Ppm));
    assert_eq!(create_reader("clip.Yuv"), Ok(ReaderFormat::Yuv));
    assert_eq!(create_reader("x.dpx"), Ok(ReaderFormat::Dpx));
    assert_eq!(create_reader("x.rawl"), Ok(ReaderFormat::Rawl));
    assert_eq!(create_reader("x.raw"), Ok(ReaderFormat::Rawl));
    assert_eq!(create_reader("x.png"), Err("Unsupported input format: x.png".to_string()));
}

#[test]
fn writer_format_follows_extension() {
    assert_eq!(create_writer("out.pgm"), Ok(WriterFormat::Ppm));
    assert_eq!(create_writer("out.YUV"), Ok(WriterFormat::Yuv));
    assert_eq!(create_writer("out.raw"), Ok(WriterFormat::Rawl));
    assert_eq!(create_writer("out.dpx"), Err("Unsupported output format: out.dpx".to_string()));
}

#[test]
fn yuv_subsampling_formats() {
    assert_eq!(subsampling_from_format("420", 3), Ok(vec![(1, 1), (2, 2), (2, 2)]));
    assert_eq!(subsampling_from_format("422", 3), Ok(vec![(1, 1), (2, 1), (2, 1)]));
    assert_eq!(subsampling_from_format("444", 3), Ok(vec![(1, 1), (1, 1), (1, 1)]));
    assert_eq!(subsampling_from_format("400", 3), Ok(vec![(1, 1)]));
    assert_eq!(subsampling_from_format("411", 1), Ok(vec![(1, 1)]));
    assert_eq!(
        subsampling_from_format("411", 3),
        Err("Unknown YUV subsampling format: '411'".to_string())
    );
}

#[test]
fn tilepart_division_names() {
    assert_eq!(tilepart_divisions_named("R"), Ok(1));
    assert_eq!(tilepart_divisions_named("C"), Ok(2));
    assert_eq!(tilepart_divisions_named("RC"), Ok(3));
    assert_eq!(
        tilepart_divisions_named("CR"),
        Err("Invalid tilepart_divs: 'CR' (expected R, C, or RC)".to_string())
    );
}

#[test]
fn component_sizes_round_up() {
    assert_eq!(
        component_sizes(5, 3, 3, &[(1, 1), (2, 2), (2, 2)]),
        vec![(5, 3), (3, 2), (3, 2)]
    );
    assert_eq!(component_sizes(4, 4, 2, &[(2, 1)]), vec![(2, 4), (4, 4)]);
    assert_eq!(downsampling_of(&[(2, 1)], 0), (2, 1));
    assert_eq!(downsampling_of(&[(2, 1)], 5), (1, 1));
    assert_eq!(max_of(&[8, 12, 10], 8), 12);
    assert_eq!(max_of(&[], 8), 8);
}

#[test]
fn sample_layouts() {
    assert_eq!(rawl_layout(true, 12), SampleLayout { bytes_per_sample: 2, lower: -2048, upper: 2047 });
    assert_eq!(rawl_layout(false, 8), SampleLayout { bytes_per_sample: 1, lower: 0, upper: 255 });
    assert_eq!(rawl_layout(false, 17), SampleLayout { bytes_per_sample: 3, lower: 0, upper: 131071 });
    assert_eq!(unsigned_layout(10), SampleLayout { bytes_per_sample: 2, lower: 0, upper: 1023 });
    assert_eq!(unsigned_layout(8), SampleLayout { bytes_per_sample: 1, lower: 0, upper: 255 });
    assert_eq!(max_sample_value(16), 65535);
    assert_eq!(max_sample_value(32), -1);
}

#[test]
fn little_endian_samples() {
    let raw = [0x34, 0x12, 0xFF, 0xFF, 0x00, 0x80];
    assert_eq!(decode_le_samples(&raw, 3, 2, false), Ok(vec![0x1234, 0xFFFF, 0x8000]));
    assert_eq!(decode_le_samples(&raw, 3, 2, true), Ok(vec![0x1234, -1, -32768]));
    assert_eq!(decode_le_samples(&raw, 1, 4, false), Ok(vec![-0x0000_EDCC]));
    assert_eq!(decode_le_samples(&raw, 1, 5, false), Err(5));
    assert_eq!(
        encode_le_samples(&[300, -5, 70000], 3, 2, 0, 65535),
        Ok(vec![0x2C, 0x01, 0x00, 0x00, 0xFF, 0xFF])
    );
    assert_eq!(encode_le_samples(&[1], 1, 0, 0, 1), Err(0));
}

#[test]
fn rawl_line_round_trip() {
    for &(signed, bd) in &[(true, 12u32), (false, 12), (true, 24), (false, 31), (true, 32), (false, 32), (false, 1)] {
        let layout = rawl_layout(signed, bd);
        let line: Vec<i32> = vec![i32::MIN, -70000, -3, 0, 1, 4095, 5000, i32::MAX];
        let bytes = encode_le_samples(&line, line.len(), layout.bytes_per_sample, layout.lower, layout.upper).unwrap();
        let back = decode_le_samples(&bytes, line.len(), layout.bytes_per_sample, signed).unwrap();
        for (x, y) in line.iter().zip(back.iter()) {
            let held = (*x as i64).max(layout.lower).min(layout.upper);
            assert_eq!(*y as i64, held);
        }
    }
}

#[test]
fn big_endian_samples() {
    assert_eq!(encode_be_samples(&[0x1234, 0x00FF], 2, 2), vec![0x12, 0x34, 0x00, 0xFF]);
    assert_eq!(encode_be_samples(&[0x1FF, 7], 2, 1), vec![0xFF, 7]);
    assert_eq!(decode_be_samples(&[0x12, 0x34, 0x00, 0xFF], 2, 2), vec![0x1234, 0x00FF]);
    assert_eq!(decode_be_samples(&[9, 8], 2, 1), vec![9, 8]);
}

#[test]
fn pnm_line_round_trip() {
    for bd in [1u32, 8, 10, 16] {
        let max = max_sample_value(bd);
        let mut buf = vec![0i32; 6];
        interleave_component(&mut buf, &[-4, 3, max + 1], 3, 2, 0, max);
        interleave_component(&mut buf, &[max, 0, 1], 3, 2, 1, max);
        let bps = if bd > 8 { 2 } else { 1 };
        let bytes = encode_be_samples(&buf, 6, bps);
        assert_eq!(decode_be_samples(&bytes, 6, bps), buf);
        assert_eq!(deinterleave(&buf, 3, 2, 0), vec![0, 3.min(max), max]);
        assert_eq!(deinterleave(&buf, 3, 2, 1), vec![max, 0, 1]);
    }
}

#[test]
fn interleave_keeps_other_slots() {
    let mut buf = vec![7i32; 7];
    interleave_component(&mut buf, &[1, 2], 2, 3, 1, 255);
    assert_eq!(buf, vec![7, 1, 7, 7, 2, 7, 7]);
}

#[test]
fn pnm_header_parses() {
    let file = b"P6\n# a comment\n3 2\n255\nabcdefghijklmnopqr";
    assert_eq!(
        parse_pnm_header(file),
        Ok(PnmHeader {
            num_components: 3,
            width: 3,
            height: 2,
            max_val: 255,
            bit_depth: 8,
            bytes_per_sample: 1,
            data_offset: 23,
        })
    );
    let grey = b"P5 640\t480\r\n1023 ";
    assert_eq!(
        parse_pnm_header(grey),
        Ok(PnmHeader {
            num_components: 1,
            width: 640,
            height: 480,
            max_val: 1023,
            bit_depth: 10,
            bytes_per_sample: 2,
            data_offset: 17,
        })
    );
}

#[test]
fn pnm_header_errors() {
    assert_eq!(parse_pnm_header(b"P"), Err(PnmError::Truncated));
    assert_eq!(parse_pnm_header(b"P3\n1 1\n255\n"), Err(PnmError::UnsupportedMagic(b'P', b'3')));
    assert_eq!(parse_pnm_header(b"P5\n1 1"), Err(PnmError::UnexpectedEnd));
    assert_eq!(parse_pnm_header(b"P5\n1 x 255\n"), Err(PnmError::ExpectedInteger));
    assert_eq!(parse_pnm_header(b"P5\n4294967296 1 255\n"), Err(PnmError::IntegerTooLarge));
    assert_eq!(parse_pnm_header(b"P5\n1 1 0\n"), Err(PnmError::ZeroMaxVal));
    assert_eq!(parse_pnm_header(b"P5\n1 1 255"), Err(PnmError::Truncated));
    assert_eq!(parse_pnm_header(b"P5\n#\xFF\n1 1 255\n"), Err(PnmError::InvalidComment));
    assert_eq!(parse_pnm_header(b"P5\n# ok\n"), Err(PnmError::UnexpectedEnd));
}

#[test]
fn pnm_header_written() {
    assert_eq!(pnm_header(3, 640, 480, 8), Some(b"P6\n640 480\n255\n".to_vec()));
    assert_eq!(pnm_header(1, 0, 7, 12), Some(b"P5\n0 7\n4095\n".to_vec()));
    assert_eq!(pnm_header(2, 1, 1, 8), None);
}

#[test]
fn pnm_header_round_trip() {
    for &(nc, w, h, bd) in &[(1u32, 1u32, 1u32, 1u32), (3, 4294967295, 12, 16), (1, 10, 0, 9), (3, 7, 7, 31)] {
        let mut file = pnm_header(nc, w, h, bd).unwrap();
        let len = file.len();
        file.extend_from_slice(&[1, 2, 3]);
        let hdr = parse_pnm_header(&file).unwrap();
        assert_eq!(hdr.num_components, nc);
        assert_eq!((hdr.width, hdr.height), (w, h));
        assert_eq!(hdr.max_val as i64, (1i64 << bd) - 1);
        assert_eq!(hdr.bit_depth, bd);
        assert_eq!(hdr.bytes_per_sample, if bd > 8 { 2 } else { 1 });
        assert_eq!(hdr.data_offset, len);
    }
}

fn dpx_file(big_endian: bool, descriptor: u8, bit_depth: u8, packing: u16) -> Vec<u8> {
    let mut f = vec![0u8; 808];
    let put32 = |f: &mut Vec<u8>, at: usize, v: u32| {
        let b = if big_endian { v.to_be_bytes() } else { v.to_le_bytes() };
        f[at..at + 4].copy_from_slice(&b);
    };
    put32(&mut f, 0, 0x53445058);
    put32(&mut f, 4, 2048);
    put32(&mut f, 772, 4);
    put32(&mut f, 776, 2);
    put32(&mut f, 780, 0);
    f[800] = descriptor;
    f[803] = bit_depth;
    let p = if big_endian { packing.to_be_bytes() } else { packing.to_le_bytes() };
    f[804..806].copy_from_slice(&p);
    f
}

#[test]
fn dpx_header_fields() {
    let h = parse_dpx_header(&dpx_file(true, 50, 10, 1)).unwrap();
    assert_eq!(
        h,
        DpxHeader {
            swap_bytes: false,
            data_offset: 2048,
            width: 4,
            height: 2,
            is_signed: false,
            num_components: 3,
            bit_depth: 10,
            packing: 1,
        }
    );
    assert_eq!(dpx_line_bytes(&h), 16);
    let h = parse_dpx_header(&dpx_file(false, 51, 16, 0)).unwrap();
    assert!(h.swap_bytes);
    assert_eq!((h.width, h.height, h.num_components, h.data_offset), (4, 2, 4, 2048));
    assert_eq!(dpx_line_bytes(&h), 32);
    let h = parse_dpx_header(&dpx_file(true, 6, 8, 0)).unwrap();
    assert_eq!(h.num_components, 1);
    assert_eq!(dpx_line_bytes(&h), 4);
    let h = parse_dpx_header(&dpx_file(true, 100, 8, 0)).unwrap();
    assert_eq!(h.num_components, 3);
}

#[test]
fn dpx_header_errors() {
    assert_eq!(parse_dpx_header(&[0x53, 0x44]), Err(DpxError::Truncated));
    assert_eq!(parse_dpx_header(&[1, 2, 3, 4, 5]), Err(DpxError::BadMagic(0x01020304)));
    assert_eq!(parse_dpx_header(&dpx_file(true, 50, 10, 1)[..807]), Err(DpxError::Truncated));
    assert_eq!(parse_dpx_header(&dpx_file(true, 50, 12, 0)), Err(DpxError::UnsupportedBitDepth(12)));
}

#[test]
fn dpx_lines_unpack() {
    let mut h = parse_dpx_header(&dpx_file(true, 1, 10, 1)).unwrap();
    h.width = 4;
    // Two packed words: fields 1, 2, 3 then 1023, 0, (unused).
    let w1: u32 = (1 << 22) | (2 << 12) | (3 << 2);
    let w2: u32 = 1023 << 22;
    let mut raw = w1.to_be_bytes().to_vec();
    raw.extend_from_slice(&w2.to_be_bytes());
    assert_eq!(unpack_dpx_line(&h, &raw), vec![1, 2, 3, 1023]);

    h.swap_bytes = true;
    let mut raw = w1.to_le_bytes().to_vec();
    raw.extend_from_slice(&w2.to_le_bytes());
    assert_eq!(unpack_dpx_line(&h, &raw), vec![1, 2, 3, 1023]);

    h.packing = 0;
    h.width = 2;
    assert_eq!(unpack_dpx_line(&h, &[0xFF, 0xFF, 0x01, 0x00]), vec![1023, 1]);
    h.bit_depth = 16;
    assert_eq!(unpack_dpx_line(&h, &[0xFF, 0xFF, 0x01, 0x00]), vec![65535, 1]);
    h.bit_depth = 8;
    assert_eq!(unpack_dpx_line(&h, &[9, 200]), vec![9, 200]);
}
