//! The mathematical model of a JPEG 2000 bit stream with 0xFF byte
//! stuffing, and the bit-level facts the bit buffers are proved with.
//!
//! A byte that follows a 0xFF byte carries only seven payload bits (its
//! most significant bit is a stuffed zero); every other byte carries eight.

use vstd::prelude::*;

verus! {

/// Bit `j` of `x`, counting from the least significant bit; bits outside
/// `0..64` are zero.
pub open spec fn bit64(x: u64, j: int) -> bool {
    0 <= j < 64 && (x >> (j as u64)) & 1u64 == 1u64
}

/// The `k` most significant bits of `x`, most significant first.
pub open spec fn top_bits(x: u64, k: nat) -> Seq<bool> {
    Seq::new(k, |i: int| bit64(x, 63 - i))
}

/// The `k` least significant bits of `v`, most significant first.
pub open spec fn low_bits(v: u64, k: nat) -> Seq<bool> {
    Seq::new(k, |i: int| bit64(v, k - 1 - i))
}

/// `k` zero bits.
pub open spec fn zeros(k: nat) -> Seq<bool> {
    Seq::new(k, |i: int| false)
}

/// The unsigned number a bit sequence denotes, most significant bit first.
pub open spec fn bits_value(s: Seq<bool>) -> nat
    decreases s.len(),
{
    if s.len() == 0 {
        0
    } else {
        2 * bits_value(s.drop_last()) + (if s.last() { 1nat } else { 0nat })
    }
}

/// The bits `p` followed by the `k` low bits of `v`, where any higher bit
/// of `v` is OR-ed into `p` at the place it falls on.
pub open spec fn merge_bits(p: Seq<bool>, v: u64, k: nat) -> Seq<bool> {
    Seq::new(p.len() + k, |i: int| (i < p.len() && p[i]) || bit64(v, p.len() + k - 1 - i))
}

/// True when the last byte of `data` is 0xFF.
pub open spec fn ends_with_ff(data: Seq<u8>) -> bool {
    data.len() > 0 && data.last() == 0xFF
}

/// Number of payload bits carried by byte `i` of a stuffed byte stream.
pub open spec fn payload_width(data: Seq<u8>, i: int) -> nat {
    if i > 0 && data[i - 1] == 0xFF {
        7
    } else {
        8
    }
}

/// The payload bits a stuffed byte stream carries, in order.
pub open spec fn unstuffed_bits(data: Seq<u8>) -> Seq<bool>
    decreases data.len(),
{
    if data.len() == 0 {
        Seq::empty()
    } else {
        unstuffed_bits(data.drop_last()) + low_bits(
            data.last() as u64,
            payload_width(data, data.len() - 1),
        )
    }
}

/// Every byte that follows a 0xFF byte has its most significant bit clear.
pub open spec fn is_stuffed(data: Seq<u8>) -> bool {
    forall|i: int| 0 < i < data.len() && data[i - 1] == 0xFF ==> #[trigger] data[i] < 0x80
}

/// All bits of `x` below its `k` most significant ones are zero.
pub open spec fn low_zero(x: u64, k: nat) -> bool {
    forall|j: int| 0 <= j < 64 - k ==> !#[trigger] bit64(x, j)
}

proof fn bv_or(a: u64, b: u64, j: u64)
    by (bit_vector)
    requires
        j < 64,
    ensures
        ((a | b) >> j) & 1 == 1 <==> ((a >> j) & 1 == 1 || (b >> j) & 1 == 1),
{
}

proof fn bv_shl(x: u64, s: u64, j: u64)
    by (bit_vector)
    requires
        s < 64,
        j < 64,
    ensures
        ((x << s) >> j) & 1 == 1 <==> (j >= s && (x >> ((j - s) as u64)) & 1 == 1),
{
}

proof fn bv_small(v: u64, k: u64, j: u64)
    by (bit_vector)
    requires
        k <= j < 64,
        v >> k == 0,
    ensures
        (v >> j) & 1 == 0,
{
}

proof fn bv_top_byte(x: u64, s: u64, j: u64)
    by (bit_vector)
    requires
        56 <= s < 64,
        j + s < 64,
    ensures
        ((((x >> s) as u8) as u64) >> j) & 1 == 1 <==> (x >> (s + j)) & 1 == 1,
{
}

proof fn bv_top7(x: u64)
    by (bit_vector)
    ensures
        ((x >> 57u64) as u8) < 0x80,
{
}

proof fn bv_mask7(b: u8, j: u64)
    by (bit_vector)
    requires
        j < 7,
    ensures
        ((((b & 0x7F) as u8) as u64) >> j) & 1 == ((b as u64) >> j) & 1,
{
}

proof fn bv_byte_fits(b: u8)
    by (bit_vector)
    ensures
        (b as u64) >> 8u64 == 0,
        (((b & 0x7F) as u8) as u64) >> 7u64 == 0,
{
}

proof fn bv_shift_step(x: u64, m: u64)
    by (bit_vector)
    requires
        1 <= m <= 63,
    ensures
        x >> ((63u64 - m) as u64) == (x >> ((64u64 - m) as u64)) * 2 + ((x >> ((63u64 - m) as u64)) & 1),
        (x >> ((64u64 - m) as u64)) < 0x8000_0000_0000_0000u64,
        (x >> ((63u64 - m) as u64)) & 1 <= 1,
{
}

proof fn bv_top1(x: u64)
    by (bit_vector)
    ensures
        x >> 63u64 == (x >> 63u64) & 1,
        (x >> 63u64) & 1 <= 1,
{
}

proof fn bv_fits32(x: u64, s: u64)
    by (bit_vector)
    requires
        32 <= s < 64,
    ensures
        x >> s <= 0xFFFF_FFFFu64,
{
}

/// Bit `j` of an OR is the OR of the bits.
pub proof fn lemma_bit_or(a: u64, b: u64, j: int)
    ensures
        bit64(a | b, j) == (bit64(a, j) || bit64(b, j)),
{
    if 0 <= j < 64 {
        bv_or(a, b, j as u64);
    }
}

/// Bit `j` of `x << s` is bit `j - s` of `x`.
pub proof fn lemma_bit_shl(x: u64, s: u64, j: int)
    requires
        s < 64,
    ensures
        bit64(x << s, j) == (j < 64 && j >= s && bit64(x, j - s)),
{
    if 0 <= j < 64 {
        bv_shl(x, s, j as u64);
        if j >= s {
            assert(((j as u64) - s) as u64 == (j - s) as u64);
        }
    }
}

/// The value of the `n` top bits of `x` is `x >> (64 - n)`.
pub proof fn lemma_top_value(x: u64, n: nat)
    requires
        1 <= n <= 64,
    ensures
        (x >> ((64 - n) as u64)) as nat == bits_value(top_bits(x, n)),
    decreases n,
{
    if n == 1 {
        bv_top1(x);
        assert(top_bits(x, 1).drop_last() =~= Seq::<bool>::empty());
        assert(bits_value(Seq::<bool>::empty()) == 0);
        assert(top_bits(x, 1).last() == bit64(x, 63));
        assert(bits_value(top_bits(x, 1)) == if bit64(x, 63) { 1nat } else { 0nat });
    } else {
        let m = (n - 1) as nat;
        lemma_top_value(x, m);
        bv_shift_step(x, m as u64);
        assert(top_bits(x, n).drop_last() =~= top_bits(x, m));
        assert(top_bits(x, n).last() == bit64(x, 63 - m));
        assert((63u64 - m) as u64 == (64 - n) as u64);
        assert((64u64 - m) as u64 == (64 - m) as u64);
        assert(bits_value(top_bits(x, n)) == 2 * bits_value(top_bits(x, m)) + (if bit64(x, 63 - m) { 1nat } else { 0nat }));
    }
}

/// `x >> (64 - n)` fits in 32 bits when `n <= 32`.
pub proof fn lemma_top_fits32(x: u64, n: u32)
    requires
        1 <= n <= 32,
    ensures
        x >> ((64 - n) as u64) <= u32::MAX,
{
    bv_fits32(x, (64 - n) as u64);
}

/// OR-ing `v` just below the top `bl` bits of `buf` appends `v`'s bits.
pub proof fn lemma_append(buf: u64, bl: nat, v: u64, k: nat)
    requires
        low_zero(buf, bl),
        1 <= bl + k <= 64,
    ensures
        ({
            let nb = buf | (v << ((64 - bl - k) as u64));
            &&& low_zero(nb, bl + k)
            &&& top_bits(nb, bl + k) =~= merge_bits(top_bits(buf, bl), v, k)
        }),
{
    let s = (64 - bl - k) as u64;
    let nb = buf | (v << s);
    assert forall|j: int| 0 <= j < 64 - (bl + k) implies !#[trigger] bit64(nb, j) by {
        lemma_bit_or(buf, v << s, j);
        lemma_bit_shl(v, s, j);
    }
    assert forall|i: int| 0 <= i < bl + k implies #[trigger] top_bits(nb, bl + k)[i] == merge_bits(
        top_bits(buf, bl),
        v,
        k,
    )[i] by {
        lemma_bit_or(buf, v << s, 63 - i);
        lemma_bit_shl(v, s, 63 - i);
    }
}

/// When `v` has no bit at or above `k`, merging is appending.
pub proof fn lemma_merge_small(p: Seq<bool>, v: u64, k: nat)
    requires
        k < 64,
        v >> (k as u64) == 0,
    ensures
        merge_bits(p, v, k) =~= p + low_bits(v, k),
{
    assert forall|i: int| 0 <= i < p.len() + k implies #[trigger] merge_bits(p, v, k)[i] == (p
        + low_bits(v, k))[i] by {
        if i < p.len() {
            let j = p.len() + k - 1 - i;
            if j < 64 {
                bv_small(v, k as u64, j as u64);
            }
        }
    }
}

/// Taking the top `k` bits of `buf` off as a byte (`k` is 7 or 8):
/// the byte's payload bits followed by what is left equal the old bits,
/// padded with zeros when fewer than `k` were there.
pub proof fn lemma_emit(buf: u64, bu: nat, k: nat)
    requires
        low_zero(buf, bu),
        bu <= 64,
        k == 7 || k == 8,
    ensures
        ({
            let byte = (buf >> ((64 - k) as u64)) as u8;
            let rest = if bu >= k { (bu - k) as nat } else { 0nat };
            let pad = if bu >= k { 0nat } else { (k - bu) as nat };
            &&& low_zero(buf << (k as u64), rest)
            &&& low_bits(byte as u64, k) + top_bits(buf << (k as u64), rest) =~= top_bits(buf, bu)
                + zeros(pad)
            &&& (k == 7 ==> byte < 0x80)
        }),
{
    let s = (64 - k) as u64;
    let byte = (buf >> s) as u8;
    let rest = if bu >= k { (bu - k) as nat } else { 0nat };
    let pad = if bu >= k { 0nat } else { (k - bu) as nat };
    let nb = buf << (k as u64);
    if k == 7 {
        bv_top7(buf);
    }
    assert forall|j: int| 0 <= j < 64 - rest implies !#[trigger] bit64(nb, j) by {
        lemma_bit_shl(buf, k as u64, j);
    }
    let lhs = low_bits(byte as u64, k) + top_bits(nb, rest);
    let rhs = top_bits(buf, bu) + zeros(pad);
    assert(lhs.len() == rhs.len());
    assert forall|i: int| 0 <= i < lhs.len() implies #[trigger] lhs[i] == rhs[i] by {
        if i < k {
            bv_top_byte(buf, s, (k - 1 - i) as u64);
            assert(lhs[i] == bit64(buf, 63 - i));
        } else {
            lemma_bit_shl(buf, k as u64, 63 - (i - k));
            assert(lhs[i] == bit64(buf, 63 - i));
        }
    }
}

/// Appending a byte to a stream appends its payload bits.
pub proof fn lemma_unstuffed_push(data: Seq<u8>, b: u8)
    ensures
        unstuffed_bits(data.push(b)) == unstuffed_bits(data) + low_bits(
            b as u64,
            if ends_with_ff(data) { 7nat } else { 8nat },
        ),
{
    assert(data.push(b).drop_last() =~= data);
}

/// The payload bits of a prefix of a stream, extended by one byte.
pub proof fn lemma_unstuffed_take_next(data: Seq<u8>, p: int)
    requires
        0 <= p < data.len(),
    ensures
        unstuffed_bits(data.take(p + 1)) == unstuffed_bits(data.take(p)) + low_bits(
            data[p] as u64,
            payload_width(data, p),
        ),
{
    assert(data.take(p + 1).drop_last() =~= data.take(p));
}

/// The payload bits of a prefix of a stream are a prefix of its payload bits.
pub proof fn lemma_unstuffed_prefix(data: Seq<u8>, p: int, q: int)
    requires
        0 <= p <= q <= data.len(),
    ensures
        unstuffed_bits(data.take(p)).len() <= unstuffed_bits(data.take(q)).len(),
        unstuffed_bits(data.take(q)).take(unstuffed_bits(data.take(p)).len() as int)
            =~= unstuffed_bits(data.take(p)),
    decreases q - p,
{
    if p < q {
        lemma_unstuffed_prefix(data, p, q - 1);
        lemma_unstuffed_take_next(data, q - 1);
    }
}

/// The bits a small byte value carries when read with width 8, or when
/// its low seven bits are read with width 7.
pub proof fn lemma_byte_bits(b: u8)
    ensures
        (b as u64) >> 8u64 == 0,
        (((b & 0x7F) as u8) as u64) >> 7u64 == 0,
        low_bits(((b & 0x7F) as u8) as u64, 7) =~= low_bits(b as u64, 7),
{
    bv_byte_fits(b);
    assert forall|i: int| 0 <= i < 7 implies #[trigger] low_bits(((b & 0x7F) as u8) as u64, 7)[i]
        == low_bits(b as u64, 7)[i] by {
        bv_mask7(b, (6 - i) as u64);
    }
}

proof fn bv_zero_bit(j: u64)
    by (bit_vector)
    ensures
        (0u64 >> j) & 1 == 0,
{
}

/// The payload bits of a zero byte are all zero.
pub proof fn lemma_zero_byte_bits(k: nat)
    ensures
        low_bits(0u64, k) =~= zeros(k),
{
    assert forall|i: int| 0 <= i < k implies #[trigger] low_bits(0u64, k)[i] == zeros(k)[i] by {
        let j = k - 1 - i;
        if 0 <= j < 64 {
            bv_zero_bit(j as u64);
        }
    }
}

/// A zero word has no bit set.
pub proof fn lemma_zero_low_zero(k: nat)
    ensures
        low_zero(0u64, k),
{
    assert forall|j: int| 0 <= j < 64 - k implies !#[trigger] bit64(0u64, j) by {
        bv_zero_bit(j as u64);
    }
}

/// Shifting `n` bits out of the top of `buf`.
pub proof fn lemma_shift_out(buf: u64, bl: nat, n: nat)
    requires
        low_zero(buf, bl),
        n <= bl <= 64,
        n < 64,
    ensures
        low_zero(buf << (n as u64), (bl - n) as nat),
        top_bits(buf << (n as u64), (bl - n) as nat) =~= top_bits(buf, bl).skip(n as int),
{
    assert forall|j: int| 0 <= j < 64 - (bl - n) implies !#[trigger] bit64(buf << (n as u64), j) by {
        lemma_bit_shl(buf, n as u64, j);
    }
    assert forall|i: int| 0 <= i < bl - n implies #[trigger] top_bits(buf << (n as u64), (bl - n) as nat)[i]
        == top_bits(buf, bl).skip(n as int)[i] by {
        lemma_bit_shl(buf, n as u64, 63 - i);
    }
}

proof fn bv_half(v: u64, k: u64)
    by (bit_vector)
    requires
        1 <= k < 64,
        v >> k == 0,
    ensures
        v == (v >> 1u64) * 2 + (v & 1),
        v & 1 <= 1,
        (v >> 1u64) >> ((k - 1) as u64) == 0,
        (v >> 0u64) & 1 == v & 1,
{
}

proof fn bv_shr_bit(v: u64, j: u64)
    by (bit_vector)
    requires
        j < 63,
    ensures
        ((v >> 1u64) >> j) & 1 == (v >> ((j + 1) as u64)) & 1,
{
}

/// The value of the `k` low bits of `v`, read most significant first, is
/// `v` itself when `v` has no higher bit.
pub proof fn lemma_low_bits_value(v: u64, k: nat)
    requires
        k < 64,
        v >> (k as u64) == 0,
    ensures
        bits_value(low_bits(v, k)) == v,
    decreases k,
{
    if k == 0 {
        assert(v >> 0u64 == v) by (bit_vector);
        assert(low_bits(v, 0) =~= Seq::<bool>::empty());
    } else {
        let h = v >> 1u64;
        bv_half(v, k as u64);
        lemma_low_bits_value(h, (k - 1) as nat);
        assert(low_bits(v, k).drop_last() =~= low_bits(h, (k - 1) as nat)) by {
            assert forall|i: int| 0 <= i < k - 1 implies #[trigger] low_bits(v, k).drop_last()[i]
                == low_bits(h, (k - 1) as nat)[i] by {
                bv_shr_bit(v, (k - 2 - i) as u64);
            }
        }
        assert(low_bits(v, k).last() == bit64(v, 0));
    }
}

} // verus!
