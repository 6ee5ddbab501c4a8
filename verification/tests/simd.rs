use openjph_core::codestream::simd::{
    avx2_convert_signed_to_unsigned, avx2_convert_unsigned_to_signed, gen_convert_signed_to_unsigned,
    gen_convert_unsigned_to_signed, neon_convert_signed_to_unsigned, neon_convert_unsigned_to_signed,
};

#[test]
fn neon_s2u_matches_scalar() {
    for width in [1, 3, 4, 7, 8, 16, 33, 64] {
        for bit_depth in [8, 12, 16] {
            let src: Vec<i32> = (0..width).map(|i| (i as i32) * 3 - 100).collect();
            let mut scalar_dst = vec![0i32; width];
            let mut neon_dst = vec![0i32; width];

            gen_convert_signed_to_unsigned(&src, &mut scalar_dst, width as u32, bit_depth);
            neon_convert_signed_to_unsigned(&src, &mut neon_dst, width as u32, bit_depth);

            assert_eq!(scalar_dst, neon_dst, "s2u mismatch width={width} bd={bit_depth}");
        }
    }
}

#[test]
fn neon_u2s_matches_scalar() {
    for width in [1, 3, 4, 7, 8, 16, 33, 64] {
        for bit_depth in [8, 12, 16] {
            let src: Vec<i32> = (0..width).map(|i| (i as i32) * 5 + 50).collect();
            let mut scalar_dst = vec![0i32; width];
            let mut neon_dst = vec![0i32; width];

            gen_convert_unsigned_to_signed(&src, &mut scalar_dst, width as u32, bit_depth);
            neon_convert_unsigned_to_signed(&src, &mut neon_dst, width as u32, bit_depth);

            assert_eq!(scalar_dst, neon_dst, "u2s mismatch width={width} bd={bit_depth}");
        }
    }
}

#[test]
fn neon_roundtrip_s2u_u2s() {
    let width = 64;
    let bit_depth = 8;
    let src: Vec<i32> = (0..width).map(|i| (i as i32) - 32).collect();
    let mut unsigned = vec![0i32; width];
    let mut back = vec![0i32; width];

    neon_convert_signed_to_unsigned(&src, &mut unsigned, width as u32, bit_depth);
    neon_convert_unsigned_to_signed(&unsigned, &mut back, width as u32, bit_depth);

    assert_eq!(src, back);
}

#[test]
fn avx2_conversions_match_scalar() {
    for width in [1usize, 7, 8, 9, 17, 64] {
        for bit_depth in [8u32, 10, 16] {
            let src: Vec<i32> = (0..width).map(|i| (i as i32) * 7 - 20).collect();
            let mut scalar = vec![0i32; width];
            let mut blocks = vec![0i32; width];
            gen_convert_signed_to_unsigned(&src, &mut scalar, width as u32, bit_depth);
            avx2_convert_signed_to_unsigned(&src, &mut blocks, width as u32, bit_depth);
            assert_eq!(scalar, blocks);
            gen_convert_unsigned_to_signed(&src, &mut scalar, width as u32, bit_depth);
            avx2_convert_unsigned_to_signed(&src, &mut blocks, width as u32, bit_depth);
            assert_eq!(scalar, blocks);
        }
    }
}

#[test]
fn signed_to_unsigned_adds_half_range() {
    let src = [-128, -1, 0, 127];
    let mut dst = [9i32; 6];
    gen_convert_signed_to_unsigned(&src, &mut dst, 4, 8);
    assert_eq!(dst, [0, 127, 128, 255, 9, 9]);
    let mut back = [0i32; 4];
    gen_convert_unsigned_to_signed(&dst, &mut back, 4, 8);
    assert_eq!(back, src);
}

#[test]
fn conversion_at_32_bits_uses_wrapped_offset() {
    // 1 << 31 wraps to i32::MIN: adding it moves 0 to i32::MIN.
    let src = [0, 5];
    let mut dst = [0i32; 2];
    gen_convert_signed_to_unsigned(&src, &mut dst, 2, 32);
    assert_eq!(dst, [i32::MIN, i32::MIN + 5]);
}

#[test]
fn conversion_of_zero_width_leaves_destination() {
    let src = [1, 2, 3];
    let mut dst = [4, 5, 6];
    neon_convert_signed_to_unsigned(&src, &mut dst, 0, 12);
    assert_eq!(dst, [4, 5, 6]);
}
