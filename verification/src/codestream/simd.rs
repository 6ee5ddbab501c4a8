//! Sample conversions between signed and unsigned representations:
//! adding or removing the offset `2^(bit_depth - 1)`.
//!
//! The block-wise variants process the samples in groups of four (as on
//! NEON) or eight (as on AVX2) followed by the remainder; they compute
//! exactly what the one-by-one versions compute.

use vstd::prelude::*;

verus! {

/// The offset between signed and unsigned samples of `bit_depth` bits:
/// `1i32 << (bit_depth - 1)`, which is `2^(bit_depth - 1)`, except for 32
/// bits where the shift wraps to `i32::MIN`.
pub open spec fn sample_offset(bit_depth: u32) -> int {
    if bit_depth == 32 {
        i32::MIN as int
    } else {
        vstd::arithmetic::power2::pow2((bit_depth - 1) as nat) as int
    }
}

/// Every one of the first `width` samples of `src`, moved by `delta`,
/// stays inside the `i32` range.
pub open spec fn shift_fits(src: Seq<i32>, width: int, delta: int) -> bool {
    forall|i: int| 0 <= i < width ==> i32::MIN <= #[trigger] src[i] + delta <= i32::MAX
}

/// `dst` holds the first `width` samples of `src` moved by `delta`, and
/// past them what `old_dst` held.
pub open spec fn shifted_into(
    src: Seq<i32>,
    old_dst: Seq<i32>,
    dst: Seq<i32>,
    width: int,
    delta: int,
) -> bool {
    &&& dst.len() == old_dst.len()
    &&& forall|i: int| 0 <= i < width ==> #[trigger] dst[i] == src[i] + delta
    &&& forall|i: int| width <= i < dst.len() ==> #[trigger] dst[i] == old_dst[i]
}

fn offset_for(bit_depth: u32) -> (o: i32)
    requires
        1 <= bit_depth <= 32,
    ensures
        o == sample_offset(bit_depth),
{
    if bit_depth == 32 {
        i32::MIN
    } else {
        proof {
            vstd::bits::lemma_u32_pow2_no_overflow((bit_depth - 1) as nat);
            vstd::bits::lemma_u32_shl_is_mul(1, (bit_depth - 1) as u32);
            vstd::arithmetic::power2::lemma_pow2_strictly_increases((bit_depth - 1) as nat, 31);
            vstd::arithmetic::power2::lemma2_to64();
        }
        (1u32 << (bit_depth - 1)) as i32
    }
}

/// Move the first `width` samples of `src` by `delta` into `dst`, in
/// blocks of `lanes` samples followed by the remainder.
fn shift_samples(src: &[i32], dst: &mut [i32], width: u32, delta: i32, lanes: u32, add: bool)
    requires
        lanes >= 1,
        width <= src@.len(),
        width <= old(dst)@.len(),
        shift_fits(src@, width as int, if add { delta as int } else { -delta }),
    ensures
        shifted_into(src@, old(dst)@, final(dst)@, width as int, if add { delta as int } else { -delta }),
{
    let ghost d = if add { delta as int } else { -delta };
    let blocks = width / lanes;
    let remainder = width % lanes;
    let mut base: usize = 0;
    let mut b: u32 = 0;
    proof {
        vstd::arithmetic::div_mod::lemma_fundamental_div_mod(width as int, lanes as int);
        vstd::arithmetic::mul::lemma_mul_is_commutative(lanes as int, blocks as int);
    }
    while b < blocks
        invariant
            b <= blocks,
            blocks * lanes + remainder == width,
            base == b * lanes,
            width <= src@.len(),
            dst@.len() == old(dst)@.len(),
            width <= dst@.len(),
            shift_fits(src@, width as int, d),
            d == if add { delta as int } else { -delta },
            forall|i: int| 0 <= i < base ==> #[trigger] dst@[i] == src@[i] + d,
            forall|i: int| base <= i < dst@.len() ==> #[trigger] dst@[i] == old(dst)@[i],
        decreases blocks - b,
    {
        proof {
            vstd::arithmetic::mul::lemma_mul_inequality((b + 1) as int, blocks as int, lanes as int);
            vstd::arithmetic::mul::lemma_mul_is_distributive_add_other_way(lanes as int, b as int, 1);
        }
        let mut l: u32 = 0;
        while l < lanes
            invariant
                l <= lanes,
                base + lanes <= width,
                base == b * lanes,
                width <= src@.len(),
                dst@.len() == old(dst)@.len(),
                width <= dst@.len(),
                shift_fits(src@, width as int, d),
                d == if add { delta as int } else { -delta },
                forall|i: int| 0 <= i < base + l ==> #[trigger] dst@[i] == src@[i] + d,
                forall|i: int| base + l <= i < dst@.len() ==> #[trigger] dst@[i] == old(dst)@[i],
            decreases lanes - l,
        {
            let k = base + l as usize;
            let v = src[k];
            assert(i32::MIN <= src@[k as int] + d <= i32::MAX);
            if add {
                dst[k] = v + delta;
            } else {
                dst[k] = v - delta;
            }
            l = l + 1;
        }
        base = base + lanes as usize;
        b = b + 1;
    }
    let mut r: u32 = 0;
    while r < remainder
        invariant
            r <= remainder,
            base + remainder == width,
            width <= src@.len(),
            dst@.len() == old(dst)@.len(),
            width <= dst@.len(),
            shift_fits(src@, width as int, d),
            d == if add { delta as int } else { -delta },
            forall|i: int| 0 <= i < base + r ==> #[trigger] dst@[i] == src@[i] + d,
            forall|i: int| base + r <= i < dst@.len() ==> #[trigger] dst@[i] == old(dst)@[i],
        decreases remainder - r,
    {
        let k = base + r as usize;
        let v = src[k];
        assert(i32::MIN <= src@[k as int] + d <= i32::MAX);
        if add {
            dst[k] = v + delta;
        } else {
            dst[k] = v - delta;
        }
        r = r + 1;
    }
}

/// Convert signed samples to unsigned by adding `2^(bit_depth - 1)`.
pub fn gen_convert_signed_to_unsigned(src: &[i32], dst: &mut [i32], width: u32, bit_depth: u32)
    requires
        1 <= bit_depth <= 32,
        width <= src@.len(),
        width <= old(dst)@.len(),
        shift_fits(src@, width as int, sample_offset(bit_depth)),
    ensures
        shifted_into(src@, old(dst)@, final(dst)@, width as int, sample_offset(bit_depth)),
{
    let offset = offset_for(bit_depth);
    shift_samples(src, dst, width, offset, 1, true);
}

/// Convert unsigned samples to signed by subtracting `2^(bit_depth - 1)`.
pub fn gen_convert_unsigned_to_signed(src: &[i32], dst: &mut [i32], width: u32, bit_depth: u32)
    requires
        1 <= bit_depth <= 32,
        width <= src@.len(),
        width <= old(dst)@.len(),
        shift_fits(src@, width as int, -sample_offset(bit_depth)),
    ensures
        shifted_into(src@, old(dst)@, final(dst)@, width as int, -sample_offset(bit_depth)),
{
    let offset = offset_for(bit_depth);
    shift_samples(src, dst, width, offset, 1, false);
}

/// Signed-to-unsigned conversion in blocks of four samples.
pub fn neon_convert_signed_to_unsigned(src: &[i32], dst: &mut [i32], width: u32, bit_depth: u32)
    requires
        1 <= bit_depth <= 32,
        width <= src@.len(),
        width <= old(dst)@.len(),
        shift_fits(src@, width as int, sample_offset(bit_depth)),
    ensures
        shifted_into(src@, old(dst)@, final(dst)@, width as int, sample_offset(bit_depth)),
{
    let offset = offset_for(bit_depth);
    shift_samples(src, dst, width, offset, 4, true);
}

/// Unsigned-to-signed conversion in blocks of four samples.
pub fn neon_convert_unsigned_to_signed(src: &[i32], dst: &mut [i32], width: u32, bit_depth: u32)
    requires
        1 <= bit_depth <= 32,
        width <= src@.len(),
        width <= old(dst)@.len(),
        shift_fits(src@, width as int, -sample_offset(bit_depth)),
    ensures
        shifted_into(src@, old(dst)@, final(dst)@, width as int, -sample_offset(bit_depth)),
{
    let offset = offset_for(bit_depth);
    shift_samples(src, dst, width, offset, 4, false);
}

/// Signed-to-unsigned conversion in blocks of eight samples.
pub fn avx2_convert_signed_to_unsigned(src: &[i32], dst: &mut [i32], width: u32, bit_depth: u32)
    requires
        1 <= bit_depth <= 32,
        width <= src@.len(),
        width <= old(dst)@.len(),
        shift_fits(src@, width as int, sample_offset(bit_depth)),
    ensures
        shifted_into(src@, old(dst)@, final(dst)@, width as int, sample_offset(bit_depth)),
{
    let offset = offset_for(bit_depth);
    shift_samples(src, dst, width, offset, 8, true);
}

/// Unsigned-to-signed conversion in blocks of eight samples.
pub fn avx2_convert_unsigned_to_signed(src: &[i32], dst: &mut [i32], width: u32, bit_depth: u32)
    requires
        1 <= bit_depth <= 32,
        width <= src@.len(),
        width <= old(dst)@.len(),
        shift_fits(src@, width as int, -sample_offset(bit_depth)),
    ensures
        shifted_into(src@, old(dst)@, final(dst)@, width as int, -sample_offset(bit_depth)),
{
    let offset = offset_for(bit_depth);
    shift_samples(src, dst, width, offset, 8, false);
}

/// Law: converting to unsigned and back gives the same samples, and
/// the back conversion is always defined on what the first produced.
pub proof fn law_signed_unsigned_round_trip(
    src: Seq<i32>,
    old_mid: Seq<i32>,
    mid: Seq<i32>,
    old_back: Seq<i32>,
    back: Seq<i32>,
    width: int,
    bit_depth: u32,
)
    requires
        1 <= bit_depth <= 32,
        0 <= width <= src.len(),
        shifted_into(src, old_mid, mid, width, sample_offset(bit_depth)),
        shifted_into(mid, old_back, back, width, -sample_offset(bit_depth)),
    ensures
        shift_fits(mid, width, -sample_offset(bit_depth)),
        forall|i: int| 0 <= i < width ==> #[trigger] back[i] == src[i],
{
    assert forall|i: int| 0 <= i < width implies i32::MIN <= #[trigger] mid[i] + -sample_offset(
        bit_depth,
    ) <= i32::MAX by {
        assert(mid[i] == src[i] + sample_offset(bit_depth));
    }
    assert forall|i: int| 0 <= i < width implies #[trigger] back[i] == src[i] by {
        assert(mid[i] == src[i] + sample_offset(bit_depth));
    }
}

/// Law: the block-wise conversions (four or eight samples at a time)
/// compute exactly what the one-by-one conversions compute: any two
/// results of moving the same samples by the same offset into the same
/// buffer are equal.
pub proof fn law_blockwise_matches_scalar(
    src: Seq<i32>,
    old_dst: Seq<i32>,
    scalar: Seq<i32>,
    blockwise: Seq<i32>,
    width: int,
    delta: int,
)
    requires
        shifted_into(src, old_dst, scalar, width, delta),
        shifted_into(src, old_dst, blockwise, width, delta),
    ensures
        scalar == blockwise,
{
    assert(scalar =~= blockwise);
}

} // verus!
