//! How each raw format lays out its samples: bytes per sample, the range
//! samples are held within on output, per-component sizes of subsampled
//! YUV, and the interleaving of PPM components.

use vstd::prelude::*;
use vstd::arithmetic::power2::pow2;
use crate::types::{div_ceil, spec_div_ceil};
use super::samples::{clamp, max_sample, max_sample_value};

verus! {

/// Bytes per sample and the range samples are held within on output.
#[derive(Debug, Clone, Copy, PartialEq, Eq, Structural)]
pub struct SampleLayout {
    pub bytes_per_sample: u32,
    pub lower: i64,
    pub upper: i64,
}

/// The RAWL layout: `ceil(bit_depth / 8)` bytes; signed samples within
/// `[-2^(bit_depth-1), 2^(bit_depth-1) - 1]`, unsigned ones within
/// `[0, 2^bit_depth - 1]`.
pub open spec fn spec_rawl_layout(is_signed: bool, bit_depth: u32) -> SampleLayout {
    SampleLayout {
        bytes_per_sample: ((bit_depth + 7) / 8) as u32,
        lower: if is_signed { -pow2((bit_depth - 1) as nat) } else { 0 } as i64,
        upper: if is_signed {
            pow2((bit_depth - 1) as nat) - 1
        } else {
            pow2(bit_depth as nat) - 1
        } as i64,
    }
}

pub fn rawl_layout(is_signed: bool, bit_depth: u32) -> (l: SampleLayout)
    requires
        is_signed ==> 1 <= bit_depth <= 63,
        !is_signed ==> bit_depth <= 62,
    ensures
        l == spec_rawl_layout(is_signed, bit_depth),
{
    let bytes_per_sample = (bit_depth + 7) / 8;
    if is_signed {
        proof {
            vstd::bits::lemma_u64_pow2_no_overflow((bit_depth - 1) as nat);
            vstd::bits::lemma_u64_shl_is_mul(1, (bit_depth - 1) as u64);
            vstd::arithmetic::power2::lemma_pow2_strictly_increases((bit_depth - 1) as nat, 63);
            vstd::arithmetic::power2::lemma2_to64_rest();
            vstd::arithmetic::power2::lemma_pow2_pos((bit_depth - 1) as nat);
        }
        let half = (1u64 << (bit_depth - 1) as u64) as i64;
        SampleLayout { bytes_per_sample, lower: -half, upper: half - 1 }
    } else {
        proof {
            vstd::bits::lemma_u64_pow2_no_overflow(bit_depth as nat);
            vstd::bits::lemma_u64_shl_is_mul(1, bit_depth as u64);
            vstd::arithmetic::power2::lemma_pow2_strictly_increases(bit_depth as nat, 63);
            vstd::arithmetic::power2::lemma2_to64_rest();
            vstd::arithmetic::power2::lemma_pow2_pos(bit_depth as nat);
        }
        let full = (1u64 << bit_depth as u64) as i64;
        SampleLayout { bytes_per_sample, lower: 0, upper: full - 1 }
    }
}

/// Bytes per RAWL sample: `ceil(bit_depth / 8)`.
pub fn rawl_bytes_per_sample(bit_depth: u32) -> (n: u32)
    requires
        bit_depth + 7 <= u32::MAX,
    ensures
        n == (bit_depth + 7) / 8,
{
    (bit_depth + 7) / 8
}

/// Bytes per sample of YUV and PPM files: two above 8 bits, else one.
pub open spec fn spec_wide_bytes(bit_depth: u32) -> u32 {
    if bit_depth > 8 {
        2
    } else {
        1
    }
}

/// Bytes per YUV or PPM sample.
pub fn wide_bytes(bit_depth: u32) -> (n: u32)
    ensures
        n == spec_wide_bytes(bit_depth),
{
    if bit_depth > 8 {
        2
    } else {
        1
    }
}

/// The YUV and PPM output layout: one or two bytes, samples within
/// `[0, max_sample(bit_depth)]`.
pub open spec fn spec_unsigned_layout(bit_depth: u32) -> SampleLayout {
    SampleLayout {
        bytes_per_sample: spec_wide_bytes(bit_depth),
        lower: 0,
        upper: max_sample(bit_depth) as i64,
    }
}

pub fn unsigned_layout(bit_depth: u32) -> (l: SampleLayout)
    requires
        bit_depth <= 62,
    ensures
        l == spec_unsigned_layout(bit_depth),
{
    let bytes_per_sample = if bit_depth > 8 { 2 } else { 1 };
    let upper = max_sample_value(bit_depth) as i64;
    SampleLayout { bytes_per_sample, lower: 0, upper }
}

/// The size of each YUV component: the image size divided by the
/// component's subsampling factors, rounded up (factors past the end of
/// `subsampling` are 1).
pub open spec fn component_size(width: u32, height: u32, subsampling: Seq<(u32, u32)>, c: int) -> (
    u32,
    u32,
) {
    if c < subsampling.len() {
        (
            spec_div_ceil(width as int, subsampling[c].0 as int) as u32,
            spec_div_ceil(height as int, subsampling[c].1 as int) as u32,
        )
    } else {
        (width, height)
    }
}

pub fn component_sizes(width: u32, height: u32, num_components: u32, subsampling: &[(u32, u32)]) -> (v: Vec<(u32, u32)>)
    requires
        forall|c: int| 0 <= c < subsampling@.len() ==> (#[trigger] subsampling@[c]).0 > 0 && subsampling@[c].1 > 0,
    ensures
        v@.len() == num_components,
        forall|c: int| 0 <= c < num_components ==> #[trigger] v@[c] == component_size(width, height, subsampling@, c),
{
    let mut v: Vec<(u32, u32)> = Vec::new();
    let mut i: usize = 0;
    let n = num_components as usize;
    while i < n
        invariant
            n == num_components,
            i <= n,
            v@.len() == i,
            forall|c: int| 0 <= c < subsampling@.len() ==> (#[trigger] subsampling@[c]).0 > 0 && subsampling@[c].1 > 0,
            forall|c: int| 0 <= c < i ==> #[trigger] v@[c] == component_size(width, height, subsampling@, c),
        decreases n - i,
    {
        if i < subsampling.len() {
            let (dx, dy) = subsampling[i];
            assert(subsampling@[i as int].0 > 0);
            v.push((div_ceil(width, dx), div_ceil(height, dy)));
        } else {
            v.push((width, height));
            proof {
                crate::types::lemma_div_ceil_le(width as int, 1);
            }
        }
        i = i + 1;
    }
    v
}

/// The subsampling of component `comp`: its entry, or `(1, 1)` past the
/// end of the list.
pub fn downsampling_of(subsampling: &[(u32, u32)], comp: u32) -> (d: (u32, u32))
    ensures
        d == if comp < subsampling@.len() { subsampling@[comp as int] } else { (1u32, 1u32) },
{
    if (comp as usize) < subsampling.len() {
        subsampling[comp as usize]
    } else {
        (1, 1)
    }
}

/// The largest of `values`, or `empty` when there is none.
pub open spec fn max_or(values: Seq<u32>, empty: u32) -> u32
    decreases values.len(),
{
    if values.len() == 0 {
        empty
    } else if values.len() == 1 {
        values[0]
    } else {
        let m = max_or(values.drop_last(), empty);
        if values.last() > m {
            values.last()
        } else {
            m
        }
    }
}

/// The largest of `values`, or `empty` when there is none.
pub fn max_of(values: &[u32], empty: u32) -> (m: u32)
    ensures
        m == max_or(values@, empty),
{
    let n = values.len();
    if n == 0 {
        return empty;
    }
    let mut m = values[0];
    let mut i: usize = 1;
    assert(values@.take(1).drop_last() =~= Seq::<u32>::empty());
    while i < n
        invariant
            n == values@.len(),
            1 <= i <= n,
            m == max_or(values@.take(i as int), empty),
        decreases n - i,
    {
        assert(values@.take(i + 1).drop_last() =~= values@.take(i as int));
        if values[i] > m {
            m = values[i];
        }
        i = i + 1;
    }
    assert(values@.take(n as int) =~= values@);
    m
}

proof fn lemma_slot_order(i1: int, c1: int, i2: int, c2: int, n: int)
    requires
        0 <= c1 < n,
        0 <= c2 < n,
        0 <= i1 < i2,
    ensures
        i1 * n + c1 < i2 * n + c2,
{
    vstd::arithmetic::mul::lemma_mul_inequality(i1 + 1, i2, n);
    vstd::arithmetic::mul::lemma_mul_is_distributive_add_other_way(n, i1, 1);
}

/// Place component `comp` of a line into the interleaved line buffer,
/// each sample held within `[0, max_val]`.
pub fn interleave_component(
    buf: &mut Vec<i32>,
    data: &[i32],
    width: usize,
    num_comps: usize,
    comp: usize,
    max_val: i32,
)
    requires
        comp < num_comps,
        width <= data@.len(),
        width * num_comps <= old(buf)@.len(),
    ensures
        final(buf)@.len() == old(buf)@.len(),
        forall|i: int|
            0 <= i < width ==> #[trigger] final(buf)@[i * num_comps + comp] == clamp(
                data@[i] as int,
                0,
                max_val as int,
            ),
        forall|i: int, c: int|
            0 <= i < width && 0 <= c < num_comps && c != comp ==> #[trigger] final(buf)@[i
                * num_comps + c] == old(buf)@[i * num_comps + c],
        forall|j: int| width * num_comps <= j < final(buf)@.len() ==> #[trigger] final(buf)@[j] == old(buf)@[j],
{
    let mut i: usize = 0;
    let len = buf.len();
    while i < width
        invariant
            len == buf@.len(),
            buf@.len() == old(buf)@.len(),
            comp < num_comps,
            width <= data@.len(),
            width * num_comps <= buf@.len(),
            i <= width,
            forall|k: int|
                0 <= k < i ==> #[trigger] buf@[k * num_comps + comp] == clamp(
                    data@[k] as int,
                    0,
                    max_val as int,
                ),
            forall|k: int, c: int|
                0 <= k < width && 0 <= c < num_comps && (c != comp || k >= i) ==> #[trigger] buf@[k
                    * num_comps + c] == old(buf)@[k * num_comps + c],
            forall|j: int| width * num_comps <= j < buf@.len() ==> #[trigger] buf@[j] == old(buf)@[j],
        decreases width - i,
    {
        proof {
            vstd::arithmetic::mul::lemma_mul_inequality((i + 1) as int, width as int, num_comps as int);
            vstd::arithmetic::mul::lemma_mul_is_distributive_add_other_way(num_comps as int, i as int, 1);
        }
        let x = data[i];
        let m = if x >= 0 { x } else { 0 };
        let val = if m <= max_val { m } else { max_val };
        let slot = i * num_comps + comp;
        let ghost prev = buf@;
        buf.set(slot, val);
        proof {
            assert forall|k: int| 0 <= k < i + 1 implies #[trigger] buf@[k * num_comps + comp] == clamp(
                data@[k] as int,
                0,
                max_val as int,
            ) by {
                if k < i {
                    lemma_slot_order(k, comp as int, i as int, comp as int, num_comps as int);
                }
            }
            assert forall|k: int, c: int|
                0 <= k < width && 0 <= c < num_comps && (c != comp || k >= i + 1) implies #[trigger] buf@[k
                    * num_comps + c] == old(buf)@[k * num_comps + c] by {
                vstd::arithmetic::mul::lemma_mul_inequality(k + 1, width as int, num_comps as int);
                vstd::arithmetic::mul::lemma_mul_is_distributive_add_other_way(num_comps as int, k, 1);
                if k < i {
                    lemma_slot_order(k, c, i as int, comp as int, num_comps as int);
                } else if k > i {
                    lemma_slot_order(i as int, comp as int, k, c, num_comps as int);
                }
                assert(k * num_comps + c != slot);
                assert(prev[k * num_comps + c] == old(buf)@[k * num_comps + c]);
            }
            assert forall|j: int| width * num_comps <= j < buf@.len() implies #[trigger] buf@[j] == old(buf)@[j] by {
            }
        }
        i = i + 1;
    }
}

} // verus!
