//! What the raw sample writers write, the readers read back: RAWL lines
//! (little-endian, signed or unsigned) and PGM/PPM lines (big-endian,
//! one or two bytes).

use vstd::prelude::*;
use super::samples::{be_bytes, be_value, clamp, le_bytes, le_sample, le_value, max_sample, pow256};
use super::layout::{spec_rawl_layout, spec_wide_bytes};

verus! {

/// `le_value` reads only the bytes it is given.
proof fn lemma_le_value_local(b: Seq<u8>, s: int, c: Seq<u8>, j: int, m: nat)
    requires
        0 <= j,
        j + m <= c.len(),
        forall|k: int| j <= k < j + m ==> b[s + k] == c[k],
    ensures
        le_value(b, s + j, m) == le_value(c, j, m),
    decreases m,
{
    if m > 0 {
        lemma_le_value_local(b, s, c, j + 1, (m - 1) as nat);
        assert(b[s + j] == c[j]);
        assert(s + j + 1 == s + (j + 1));
    }
}

/// `be_value` reads only the bytes it is given.
proof fn lemma_be_value_local(b: Seq<u8>, s: int, c: Seq<u8>, m: nat)
    requires
        m <= c.len(),
        forall|k: int| 0 <= k < m ==> b[s + k] == c[k],
    ensures
        be_value(b, s, m) == be_value(c, 0, m),
    decreases m,
{
    if m > 0 {
        lemma_be_value_local(b, s, c, (m - 1) as nat);
        assert(b[s + m - 1] == c[m - 1]);
    }
}

proof fn lemma_byte(x: u64, shift: u64)
    requires
        shift < 64,
    ensures
        (((x >> shift) & 0xFF) as u8) as int == ((x >> shift) & 0xFF) as int,
{
    assert((((x >> shift) & 0xFF) as u8) as int == ((x >> shift) & 0xFF) as int) by (bit_vector);
}

/// The little-endian bytes of `v` read back as its bits modulo `256^n`.
proof fn lemma_le_bytes_value(v: i64, n: nat)
    requires
        1 <= n <= 4,
    ensures
        le_value(le_bytes(v, n), 0, n) == (v as u64) as int % pow256(n) as int,
{
    let x = v as u64;
    let b = le_bytes(v, n);
    reveal_with_fuel(le_value, 5);
    reveal_with_fuel(pow256, 5);
    lemma_byte(x, 0);
    lemma_byte(x, 8);
    lemma_byte(x, 16);
    lemma_byte(x, 24);
    if n == 1 {
        assert((x >> 0u64) & 0xFF == x % 256) by (bit_vector);
    } else if n == 2 {
        assert(((x >> 0u64) & 0xFF) + 256 * ((x >> 8u64) & 0xFF) == x % 65536) by (bit_vector);
    } else if n == 3 {
        assert(((x >> 0u64) & 0xFF) + 256 * (((x >> 8u64) & 0xFF) + 256 * ((x >> 16u64) & 0xFF))
            == x % 0x100_0000) by (bit_vector);
    } else {
        assert(((x >> 0u64) & 0xFF) + 256 * (((x >> 8u64) & 0xFF) + 256 * (((x >> 16u64) & 0xFF)
            + 256 * ((x >> 24u64) & 0xFF))) == x % 0x1_0000_0000) by (bit_vector);
    }
}

/// The big-endian bytes of `v` read back as its bits modulo `256^n`.
proof fn lemma_be_bytes_value(v: i64, n: nat)
    requires
        1 <= n <= 2,
    ensures
        be_value(be_bytes(v, n), 0, n) == (v as u64) as int % pow256(n) as int,
{
    let x = v as u64;
    reveal_with_fuel(be_value, 3);
    reveal_with_fuel(pow256, 3);
    lemma_byte(x, 0);
    lemma_byte(x, 8);
    if n == 1 {
        assert((x >> 0u64) & 0xFF == x % 256) by (bit_vector);
    } else {
        assert(((x >> 8u64) & 0xFF) * 256 + ((x >> 0u64) & 0xFF) == x % 65536) by (bit_vector);
    }
}

/// The two's complement bits of a value that `n` bytes hold, read back.
proof fn lemma_bits_of_small(v: i64, n: nat)
    requires
        1 <= n <= 4,
        -(pow256(n) as int) / 2 <= v < pow256(n) as int,
    ensures
        v >= 0 ==> (v as u64) as int % pow256(n) as int == v,
        v < 0 ==> (v as u64) as int % pow256(n) as int == v + pow256(n),
{
    reveal_with_fuel(pow256, 5);
    let p = pow256(n) as int;
    let x = (v as u64) as int;
    assert(v >= 0 ==> (v as u64) as int == v as int) by (bit_vector);
    assert(v < 0 ==> (v as u64) as int == v + 0x1_0000_0000_0000_0000) by (bit_vector);
    assert(0x1_0000_0000_0000_0000int == p * (0x1_0000_0000_0000_0000int / p)) by (nonlinear_arith)
        requires
            p == 256 || p == 65536 || p == 0x100_0000 || p == 0x1_0000_0000,
    ;
    if v >= 0 {
        vstd::arithmetic::div_mod::lemma_small_mod(v as nat, p as nat);
    } else {
        assert(x == (v + p) + p * (0x1_0000_0000_0000_0000int / p - 1)) by (nonlinear_arith)
            requires
                x == v + 0x1_0000_0000_0000_0000,
                0x1_0000_0000_0000_0000int == p * (0x1_0000_0000_0000_0000int / p),
        ;
        vstd::arithmetic::div_mod::lemma_mod_multiples_vanish(
            0x1_0000_0000_0000_0000int / p - 1,
            v + p,
            p,
        );
        vstd::arithmetic::div_mod::lemma_small_mod((v + p) as nat, p as nat);
    }
}

/// What the RAWL writer writes for a line (each sample held within the
/// layout's range, in its little-endian bytes), the RAWL reader reads
/// back as those held samples, for every bit depth from 1 to 32.
pub proof fn law_rawl_line_round_trip(
    samples: Seq<i32>,
    encoded: Seq<u8>,
    width: int,
    is_signed: bool,
    bit_depth: u32,
)
    requires
        1 <= bit_depth <= 32,
        0 <= width <= samples.len(),
        ({
            let l = spec_rawl_layout(is_signed, bit_depth);
            let bps = l.bytes_per_sample as int;
            &&& encoded.len() == width * bps
            &&& forall|i: int, k: int|
                0 <= i < width && 0 <= k < bps ==> encoded[i * bps + k] == #[trigger] le_bytes(
                    clamp(#[trigger] samples[i] as int, l.lower as int, l.upper as int) as i64,
                    bps as nat,
                )[k]
        }),
    ensures
        ({
            let l = spec_rawl_layout(is_signed, bit_depth);
            forall|i: int|
                0 <= i < width ==> #[trigger] le_sample(
                    encoded,
                    i,
                    l.bytes_per_sample as nat,
                    is_signed,
                ) == clamp(samples[i] as int, l.lower as int, l.upper as int)
        }),
{
    let l = spec_rawl_layout(is_signed, bit_depth);
    let bps = l.bytes_per_sample as int;
    let n = bps as nat;
    reveal_with_fuel(pow256, 5);
    vstd::arithmetic::power2::lemma2_to64();
    assert(1 <= bps <= 4);
    assert(8 * bps >= bit_depth);
    assert forall|i: int| 0 <= i < width implies #[trigger] le_sample(encoded, i, n, is_signed)
        == clamp(samples[i] as int, l.lower as int, l.upper as int) by {
        let c = clamp(samples[i] as int, l.lower as int, l.upper as int);
        let bytes = le_bytes(c as i64, n);
        assert(l.lower <= c <= l.upper);
        assert forall|k: int| 0 <= k < bps implies encoded[i * bps + k] == bytes[k] by {
            assert(encoded[i * bps + k] == le_bytes(
                clamp(samples[i] as int, l.lower as int, l.upper as int) as i64,
                n,
            )[k]);
        }
        assert(i * bps + bps <= width * bps) by (nonlinear_arith)
            requires
                i < width,
                bps >= 1,
        ;
        lemma_le_value_local(encoded, i * bps, bytes, 0, n);
        assert(i * bps + 0 == i * bps);
        lemma_le_bytes_value(c as i64, n);
        if is_signed {
            vstd::arithmetic::power2::lemma_pow2_strictly_increases((bit_depth - 1) as nat, 32);
            vstd::arithmetic::power2::lemma_pow2_pos((bit_depth - 1) as nat);
            assert(vstd::arithmetic::power2::pow2((bit_depth - 1) as nat) * 2 <= pow256(n)) by {
                lemma_pow2_of_bytes(bit_depth, n);
            }
        } else {
            vstd::arithmetic::power2::lemma_pow2_pos(bit_depth as nat);
            assert(vstd::arithmetic::power2::pow2(bit_depth as nat) <= pow256(n)) by {
                lemma_pow2_of_bytes(bit_depth, n);
            }
            if n == 4 {
                assert(c <= 0x7FFF_FFFF);
            }
        }
        lemma_bits_of_small(c as i64, n);
    }
}

/// `2^bit_depth` fits in the `n` bytes that `ceil(bit_depth / 8)` gives.
proof fn lemma_pow2_of_bytes(bit_depth: u32, n: nat)
    requires
        1 <= bit_depth <= 32,
        n == (bit_depth + 7) / 8,
    ensures
        vstd::arithmetic::power2::pow2(bit_depth as nat) <= pow256(n),
        vstd::arithmetic::power2::pow2((bit_depth - 1) as nat) * 2 == vstd::arithmetic::power2::pow2(
            bit_depth as nat,
        ),
{
    reveal_with_fuel(pow256, 5);
    vstd::arithmetic::power2::lemma2_to64();
    vstd::arithmetic::power2::lemma_pow2_unfold(bit_depth as nat);
    if bit_depth < 8 * n {
        vstd::arithmetic::power2::lemma_pow2_strictly_increases(bit_depth as nat, 8 * n);
    }
}

/// What the PGM/PPM writer writes for a line of samples within
/// `[0, 2^bit_depth - 1]` (one byte each up to 8 bits, else two,
/// big-endian), the reader reads back, for up to 16 bits.
pub proof fn law_pnm_line_round_trip(line: Seq<i32>, encoded: Seq<u8>, count: int, bit_depth: u32)
    requires
        1 <= bit_depth <= 16,
        0 <= count <= line.len(),
        forall|i: int| 0 <= i < count ==> 0 <= #[trigger] line[i] <= max_sample(bit_depth),
        ({
            let bps = spec_wide_bytes(bit_depth) as int;
            &&& encoded.len() == count * bps
            &&& forall|i: int, k: int|
                0 <= i < count && 0 <= k < bps ==> encoded[i * bps + k] == #[trigger] be_bytes(
                    #[trigger] line[i] as i64,
                    bps as nat,
                )[k]
        }),
    ensures
        forall|i: int|
            0 <= i < count ==> (if spec_wide_bytes(bit_depth) == 1 {
                encoded[i] as int
            } else {
                be_value(encoded, 2 * i, 2) as int
            }) == #[trigger] line[i],
{
    let bps = spec_wide_bytes(bit_depth) as int;
    let n = bps as nat;
    reveal_with_fuel(pow256, 3);
    vstd::arithmetic::power2::lemma2_to64();
    assert forall|i: int| 0 <= i < count implies (if spec_wide_bytes(bit_depth) == 1 {
        encoded[i] as int
    } else {
        be_value(encoded, 2 * i, 2) as int
    }) == #[trigger] line[i] by {
        let v = line[i] as i64;
        let bytes = be_bytes(v, n);
        assert(0 <= v <= max_sample(bit_depth));
        assert(max_sample(bit_depth) < pow256(n)) by {
            if bit_depth <= 8 {
                if bit_depth < 8 {
                    vstd::arithmetic::power2::lemma_pow2_strictly_increases(bit_depth as nat, 8);
                }
            } else if bit_depth < 16 {
                vstd::arithmetic::power2::lemma_pow2_strictly_increases(bit_depth as nat, 16);
            }
        }
        assert forall|k: int| 0 <= k < bps implies encoded[i * bps + k] == bytes[k] by {
            assert(encoded[i * bps + k] == be_bytes(line[i] as i64, n)[k]);
        }
        lemma_be_bytes_value(v, n);
        lemma_bits_of_small(v, n);
        if n == 1 {
            reveal_with_fuel(be_value, 2);
            assert(encoded[i * 1 + 0] == bytes[0]);
            assert(i * 1 + 0 == i);
        } else {
            assert(i * bps + bps <= count * bps) by (nonlinear_arith)
                requires
                    i < count,
                    bps >= 1,
            ;
            assert forall|k: int| 0 <= k < n implies encoded[2 * i + k] == bytes[k] by {
                assert(i * bps + k == 2 * i + k);
            }
            lemma_be_value_local(encoded, 2 * i, bytes, n);
        }
    }
}

} // verus!
