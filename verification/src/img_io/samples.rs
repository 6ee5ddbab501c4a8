//! Conversion between the byte layouts of raw image files and `i32`
//! sample lines: little- and big-endian samples of one to four bytes,
//! signed or unsigned, clamping on output, and (de-)interleaving of
//! components.

use vstd::prelude::*;

verus! {

/// `256^n`.
pub open spec fn pow256(n: nat) -> nat
    decreases n,
{
    if n == 0 {
        1
    } else {
        256 * pow256((n - 1) as nat)
    }
}

/// The unsigned value of the `n` bytes of `b` from `s`, least
/// significant byte first.
pub open spec fn le_value(b: Seq<u8>, s: int, n: nat) -> nat
    decreases n,
{
    if n == 0 {
        0
    } else {
        b[s] as nat + 256 * le_value(b, s + 1, (n - 1) as nat)
    }
}

/// The unsigned value of the `n` bytes of `b` from `s`, most significant
/// byte first.
pub open spec fn be_value(b: Seq<u8>, s: int, n: nat) -> nat
    decreases n,
{
    if n == 0 {
        0
    } else {
        be_value(b, s, (n - 1) as nat) * 256 + b[s + n - 1] as nat
    }
}

/// `u`, an `n`-byte unsigned value, read as two's complement.
pub open spec fn as_signed(u: nat, n: nat) -> int {
    if u >= pow256(n) / 2 {
        u - pow256(n)
    } else {
        u as int
    }
}

/// Sample `i` of a line of `bps`-byte little-endian samples: signed ones
/// in two's complement; four-byte ones are always taken as `i32` bits.
pub open spec fn le_sample(b: Seq<u8>, i: int, bps: nat, is_signed: bool) -> int {
    let u = le_value(b, i * bps, bps);
    if is_signed || bps == 4 {
        as_signed(u, bps)
    } else {
        u as int
    }
}

pub(crate) proof fn lemma_pow256_bounds(n: nat)
    requires
        n <= 4,
    ensures
        pow256(n) >= 1,
        pow256(n) <= 0x1_0000_0000,
        n >= 1 ==> pow256(n) % 2 == 0,
        pow256(1) == 256,
        pow256(2) == 65536,
        pow256(3) == 0x100_0000,
        pow256(4) == 0x1_0000_0000,
{
    reveal_with_fuel(pow256, 5);
}

proof fn lemma_le_value_bound(b: Seq<u8>, s: int, n: nat)
    ensures
        le_value(b, s, n) < pow256(n),
    decreases n,
{
    if n > 0 {
        lemma_le_value_bound(b, s + 1, (n - 1) as nat);
    }
}

/// Read `n` little-endian bytes of `raw` from `s`.
pub(crate) fn read_le(raw: &[u8], s: usize, n: usize) -> (u: u64)
    requires
        n <= 4,
        s + n <= raw@.len(),
    ensures
        u == le_value(raw@, s as int, n as nat),
        u < pow256(n as nat),
{
    let mut u: u64 = 0;
    let mut k: usize = n;
    let len = raw.len();
    proof {
        lemma_pow256_bounds(n as nat);
    }
    while k > 0
        invariant
            len == raw@.len(),
            n <= 4,
            k <= n,
            s + n <= raw@.len(),
            u == le_value(raw@, s + k, (n - k) as nat),
            u < pow256((n - k) as nat),
            pow256(n as nat) <= 0x1_0000_0000,
        decreases k,
    {
        proof {
            lemma_pow256_monotonic((n - k + 1) as nat, n as nat);
        }
        k = k - 1;
        u = (raw[s + k] as u64) + 256 * u;
    }
    u
}

proof fn lemma_pow256_monotonic(a: nat, b: nat)
    requires
        a <= b,
    ensures
        pow256(a) <= pow256(b),
    decreases b,
{
    if a < b {
        lemma_pow256_monotonic(a, (b - 1) as nat);
    }
}

/// Read `n` big-endian bytes of `raw` from `s`.
pub(crate) fn read_be(raw: &[u8], s: usize, n: usize) -> (u: u64)
    requires
        n <= 4,
        s + n <= raw@.len(),
    ensures
        u == be_value(raw@, s as int, n as nat),
        u < pow256(n as nat),
{
    let mut u: u64 = 0;
    let mut k: usize = 0;
    let len = raw.len();
    proof {
        lemma_pow256_bounds(n as nat);
    }
    while k < n
        invariant
            len == raw@.len(),
            n <= 4,
            k <= n,
            s + n <= raw@.len(),
            u == be_value(raw@, s as int, k as nat),
            u < pow256(k as nat),
            pow256(n as nat) <= 0x1_0000_0000,
        decreases n - k,
    {
        proof {
            lemma_pow256_monotonic((k + 1) as nat, n as nat);
        }
        u = u * 256 + (raw[s + k] as u64);
        k = k + 1;
    }
    u
}

/// Decode `width` samples of `bytes_per_sample` little-endian bytes each
/// (one to four); other sample sizes are refused with their size.
pub fn decode_le_samples(raw: &[u8], width: usize, bytes_per_sample: u32, is_signed: bool) -> (r:
    Result<Vec<i32>, u32>)
    requires
        1 <= bytes_per_sample <= 4 ==> width * bytes_per_sample <= raw@.len(),
    ensures
        1 <= bytes_per_sample <= 4 ==> (r matches Ok(v) && v@.len() == width && forall|i: int|
            0 <= i < width ==> #[trigger] v@[i] == le_sample(
                raw@,
                i,
                bytes_per_sample as nat,
                is_signed,
            )),
        !(1 <= bytes_per_sample <= 4) ==> r == Err::<Vec<i32>, u32>(bytes_per_sample),
{
    if bytes_per_sample < 1 || bytes_per_sample > 4 {
        return Err(bytes_per_sample);
    }
    let bps = bytes_per_sample as usize;
    proof {
        lemma_pow256_bounds(bps as nat);
    }
    proof {
        lemma_pow256_bounds(3);
    }
    let full: i64 = if bps == 1 {
        256
    } else if bps == 2 {
        65536
    } else if bps == 3 {
        0x100_0000
    } else {
        0x1_0000_0000
    };
    let mut v: Vec<i32> = Vec::with_capacity(width);
    let mut i: usize = 0;
    let len = raw.len();
    while i < width
        invariant
            len == raw@.len(),
            1 <= bps <= 4,
            bps == bytes_per_sample,
            width * bps <= raw@.len(),
            full == pow256(bps as nat),
            pow256(bps as nat) % 2 == 0,
            full <= 0x1_0000_0000,
            bps < 4 ==> full <= 0x100_0000,
            i <= width,
            v@.len() == i,
            forall|j: int| 0 <= j < i ==> #[trigger] v@[j] == le_sample(raw@, j, bps as nat, is_signed),
        decreases width - i,
    {
        proof {
            vstd::arithmetic::mul::lemma_mul_inequality((i + 1) as int, width as int, bps as int);
            vstd::arithmetic::mul::lemma_mul_is_distributive_add_other_way(bps as int, i as int, 1);
        }
        let u = read_le(raw, i * bps, bps);
        let s: i64 = if (is_signed || bps == 4) && (u as i64) >= full / 2 {
            (u as i64) - full
        } else {
            u as i64
        };
        proof {
            if bps < 4 {
                lemma_pow256_bounds(3);
                lemma_pow256_monotonic(bps as nat, 3);
            }
            assert(s == le_sample(raw@, i as int, bps as nat, is_signed));
            assert(i32::MIN <= s <= i32::MAX);
        }
        v.push(s as i32);
        i = i + 1;
    }
    Ok(v)
}

/// Decode `count` unsigned big-endian samples of one byte, or of two
/// bytes for any other `bytes_per_sample`.
pub fn decode_be_samples(raw: &[u8], count: usize, bytes_per_sample: u32) -> (v: Vec<i32>)
    requires
        count * (if bytes_per_sample == 1 { 1nat } else { 2nat }) <= raw@.len(),
    ensures
        v@.len() == count,
        forall|i: int|
            0 <= i < count ==> #[trigger] v@[i] == (if bytes_per_sample == 1 {
                raw@[i] as int
            } else {
                be_value(raw@, 2 * i, 2) as int
            }),
{
    let bps: usize = if bytes_per_sample == 1 { 1 } else { 2 };
    let mut v: Vec<i32> = Vec::with_capacity(count);
    let mut i: usize = 0;
    let len = raw.len();
    proof {
        lemma_pow256_bounds(2);
    }
    while i < count
        invariant
            len == raw@.len(),
            bps == (if bytes_per_sample == 1 { 1nat } else { 2nat }),
            count * bps <= raw@.len(),
            pow256(2) == 65536,
            i <= count,
            v@.len() == i,
            forall|j: int|
                0 <= j < i ==> #[trigger] v@[j] == (if bytes_per_sample == 1 {
                    raw@[j] as int
                } else {
                    be_value(raw@, 2 * j, 2) as int
                }),
        decreases count - i,
    {
        proof {
            vstd::arithmetic::mul::lemma_mul_inequality((i + 1) as int, count as int, bps as int);
            vstd::arithmetic::mul::lemma_mul_is_distributive_add_other_way(bps as int, i as int, 1);
        }
        let u = read_be(raw, i * bps, bps);
        proof {
            if bps == 1 {
                reveal_with_fuel(be_value, 2);
            }
        }
        v.push(u as i32);
        i = i + 1;
    }
    v
}

/// Component `comp` of a line of `width` pixels whose `num_comps`
/// components are interleaved.
pub fn deinterleave(samples: &[i32], width: usize, num_comps: usize, comp: usize) -> (v: Vec<i32>)
    requires
        comp < num_comps,
        width * num_comps <= samples@.len(),
    ensures
        v@.len() == width,
        forall|i: int| 0 <= i < width ==> #[trigger] v@[i] == samples@[i * num_comps + comp],
{
    let mut v: Vec<i32> = Vec::with_capacity(width);
    let mut i: usize = 0;
    let len = samples.len();
    while i < width
        invariant
            len == samples@.len(),
            comp < num_comps,
            width * num_comps <= samples@.len(),
            i <= width,
            v@.len() == i,
            forall|j: int| 0 <= j < i ==> #[trigger] v@[j] == samples@[j * num_comps + comp],
        decreases width - i,
    {
        proof {
            vstd::arithmetic::mul::lemma_mul_inequality((i + 1) as int, width as int, num_comps as int);
            vstd::arithmetic::mul::lemma_mul_is_distributive_add_other_way(num_comps as int, i as int, 1);
        }
        v.push(samples[i * num_comps + comp]);
        i = i + 1;
    }
    v
}

/// The `n` low bytes of the two's complement bits of `v`, least
/// significant first.
pub open spec fn le_bytes(v: i64, n: nat) -> Seq<u8> {
    Seq::new(n, |k: int| (((v as u64) >> ((8 * k) as u64)) & 0xFF) as u8)
}

/// The `n` low bytes of the two's complement bits of `v`, most
/// significant first.
pub open spec fn be_bytes(v: i64, n: nat) -> Seq<u8> {
    Seq::new(n, |k: int| (((v as u64) >> ((8 * (n - 1 - k)) as u64)) & 0xFF) as u8)
}

/// `x` held within `[lo, hi]` (`max` then `min`).
pub open spec fn clamp(x: int, lo: int, hi: int) -> int {
    let m = if x >= lo { x } else { lo };
    if m <= hi { m } else { hi }
}

/// The largest sample value of `bit_depth` bits, as an `i32`:
/// `2^bit_depth - 1`, which wraps to -1 from 32 bits on.
pub open spec fn max_sample(bit_depth: u32) -> int {
    if bit_depth < 32 {
        vstd::arithmetic::power2::pow2(bit_depth as nat) - 1
    } else {
        -1
    }
}

/// `((1i64 << bit_depth) - 1) as i32`: the largest unsigned sample value.
pub fn max_sample_value(bit_depth: u32) -> (m: i32)
    requires
        bit_depth <= 62,
    ensures
        m == max_sample(bit_depth),
{
    if bit_depth < 32 {
        proof {
            vstd::bits::lemma_u64_pow2_no_overflow(bit_depth as nat);
            vstd::bits::lemma_u64_shl_is_mul(1, bit_depth as u64);
            vstd::arithmetic::power2::lemma_pow2_strictly_increases(bit_depth as nat, 32);
            vstd::arithmetic::power2::lemma2_to64();
            vstd::arithmetic::power2::lemma_pow2_pos(bit_depth as nat);
        }
        ((1u64 << bit_depth as u64) - 1) as i32
    } else {
        -1
    }
}

/// Push the `n` little-endian bytes of `v`.
fn push_le(out: &mut Vec<u8>, v: i64, n: usize)
    requires
        n <= 8,
    ensures
        final(out)@ == old(out)@ + le_bytes(v, n as nat),
{
    let ghost start = out@;
    let mut k: usize = 0;
    while k < n
        invariant
            k <= n <= 8,
            out@ == start + le_bytes(v, k as nat),
        decreases n - k,
    {
        out.push((((v as u64) >> (8 * k) as u64) & 0xFF) as u8);
        k = k + 1;
        assert(out@ =~= start + le_bytes(v, k as nat));
    }
}

/// Push the `n` big-endian bytes of `v`.
fn push_be(out: &mut Vec<u8>, v: i64, n: usize)
    requires
        n <= 8,
    ensures
        final(out)@ == old(out)@ + be_bytes(v, n as nat),
{
    let ghost start = out@;
    let mut k: usize = 0;
    while k < n
        invariant
            k <= n <= 8,
            out@ == start + be_bytes(v, n as nat).take(k as int),
        decreases n - k,
    {
        out.push((((v as u64) >> (8 * (n - 1 - k)) as u64) & 0xFF) as u8);
        k = k + 1;
        assert(out@ =~= start + be_bytes(v, n as nat).take(k as int));
    }
    assert(be_bytes(v, n as nat).take(n as int) =~= be_bytes(v, n as nat));
}

/// Encode `width` samples, each held within `[lo, hi]`, as
/// `bytes_per_sample` little-endian bytes (one to four); other sample
/// sizes are refused with their size.
pub fn encode_le_samples(samples: &[i32], width: usize, bytes_per_sample: u32, lo: i64, hi: i64) -> (r: Result<Vec<u8>, u32>)
    requires
        width <= samples@.len(),
    ensures
        1 <= bytes_per_sample <= 4 ==> (r matches Ok(out) && out@.len() == width * bytes_per_sample
            && forall|i: int, k: int|
            0 <= i < width && 0 <= k < bytes_per_sample ==> out@[i * bytes_per_sample + k]
                == #[trigger] le_bytes(
                clamp(#[trigger] samples@[i] as int, lo as int, hi as int) as i64,
                bytes_per_sample as nat,
            )[k]),
        !(1 <= bytes_per_sample <= 4) ==> r == Err::<Vec<u8>, u32>(bytes_per_sample),
{
    if bytes_per_sample < 1 || bytes_per_sample > 4 {
        return Err(bytes_per_sample);
    }
    let bps = bytes_per_sample as usize;
    let mut out: Vec<u8> = Vec::new();
    let mut i: usize = 0;
    while i < width
        invariant
            1 <= bps <= 4,
            bps == bytes_per_sample,
            width <= samples@.len(),
            i <= width,
            out@.len() == i * bps,
            forall|j: int, k: int|
                0 <= j < i && 0 <= k < bps ==> out@[j * bps + k] == #[trigger] le_bytes(
                    clamp(#[trigger] samples@[j] as int, lo as int, hi as int) as i64,
                    bps as nat,
                )[k],
        decreases width - i,
    {
        let x = samples[i] as i64;
        let m = if x >= lo { x } else { lo };
        let val = if m <= hi { m } else { hi };
        let ghost before = out@;
        push_le(&mut out, val, bps);
        proof {
            vstd::arithmetic::mul::lemma_mul_is_distributive_add_other_way(bps as int, i as int, 1);
            assert forall|j: int, k: int| 0 <= j < i + 1 && 0 <= k < bps implies out@[j * bps + k]
                == #[trigger] le_bytes(
                clamp(#[trigger] samples@[j] as int, lo as int, hi as int) as i64,
                bps as nat,
            )[k] by {
                if j < i {
                    vstd::arithmetic::mul::lemma_mul_inequality(j + 1, i as int, bps as int);
                    vstd::arithmetic::mul::lemma_mul_is_distributive_add_other_way(bps as int, j, 1);
                    assert(out@[j * bps + k] == before[j * bps + k]);
                }
            }
        }
        i = i + 1;
    }
    Ok(out)
}

/// Big-endian sample width: one byte when asked for one, else two.
pub open spec fn be_width(bytes_per_sample: u32) -> nat {
    if bytes_per_sample == 1 {
        1
    } else {
        2
    }
}

/// Encode `count` samples as unsigned big-endian values of one byte, or
/// of two bytes for any other `bytes_per_sample`.
pub fn encode_be_samples(samples: &[i32], count: usize, bytes_per_sample: u32) -> (out: Vec<u8>)
    requires
        count <= samples@.len(),
    ensures
        out@.len() == count * be_width(bytes_per_sample),
        forall|i: int, k: int|
            0 <= i < count && 0 <= k < be_width(bytes_per_sample) ==> out@[i * be_width(
                bytes_per_sample,
            ) + k] == #[trigger] be_bytes(
                #[trigger] samples@[i] as i64,
                be_width(bytes_per_sample),
            )[k],
{
    let bps: usize = if bytes_per_sample == 1 { 1 } else { 2 };
    let mut out: Vec<u8> = Vec::new();
    let mut i: usize = 0;
    while i < count
        invariant
            bps == be_width(bytes_per_sample),
            count <= samples@.len(),
            i <= count,
            out@.len() == i * bps,
            forall|j: int, k: int|
                0 <= j < i && 0 <= k < bps ==> out@[j * bps + k] == #[trigger] be_bytes(
                    #[trigger] samples@[j] as i64,
                    bps as nat,
                )[k],
        decreases count - i,
    {
        let ghost before = out@;
        push_be(&mut out, samples[i] as i64, bps);
        proof {
            vstd::arithmetic::mul::lemma_mul_is_distributive_add_other_way(bps as int, i as int, 1);
            assert forall|j: int, k: int| 0 <= j < i + 1 && 0 <= k < bps implies out@[j * bps + k]
                == #[trigger] be_bytes(#[trigger] samples@[j] as i64, bps as nat)[k] by {
                if j < i {
                    vstd::arithmetic::mul::lemma_mul_inequality(j + 1, i as int, bps as int);
                    vstd::arithmetic::mul::lemma_mul_is_distributive_add_other_way(bps as int, j, 1);
                    assert(out@[j * bps + k] == before[j * bps + k]);
                }
            }
        }
        i = i + 1;
    }
    out
}

} // verus!
