//! DPX (Digital Picture Exchange) images: the header fields that the
//! reader needs, and the unpacking of one scan line of samples (10-bit
//! "method A" packing, 16-bit, 10-bit in 16-bit words, and 8-bit), in
//! either byte order.

use vstd::prelude::*;
use crate::img_io::samples::{be_value, le_value, pow256, read_be, read_le, lemma_pow256_bounds};

verus! {

/// The magic number of a big-endian DPX file, ASCII "SDPX".
pub const DPX_MAGIC_BE: u32 = 0x53445058;

/// The magic number of a little-endian DPX file, read big-endian.
pub const DPX_MAGIC_LE: u32 = 0x58504453;

/// The number of bytes that the header fields read here span.
pub const DPX_HEADER_LEN: usize = 808;

/// Why a DPX header was refused.
#[derive(Debug, Clone, Copy, PartialEq, Eq, Structural)]
pub enum DpxError {
    /// The file ends before a field that the header needs.
    Truncated,
    /// The first four bytes, read big-endian, are no DPX magic number.
    BadMagic(u32),
    /// The image element's bit depth is none of 8, 10 and 16.
    UnsupportedBitDepth(u32),
}

/// What the reader takes from a DPX header.
#[derive(Debug, Clone, Copy, PartialEq, Eq, Structural)]
pub struct DpxHeader {
    /// The file is little-endian.
    pub swap_bytes: bool,
    /// The offset of the image data in the file.
    pub data_offset: u32,
    pub width: u32,
    pub height: u32,
    pub is_signed: bool,
    pub num_components: u32,
    pub bit_depth: u32,
    /// Zero for no packing; otherwise 10-bit samples are packed three to
    /// a 32-bit word.
    pub packing: u16,
}

/// The `n`-byte field at `at` in the file's byte order.
pub open spec fn dpx_field(b: Seq<u8>, at: int, n: nat, swap: bool) -> nat {
    if swap {
        le_value(b, at, n)
    } else {
        be_value(b, at, n)
    }
}

/// The number of components an image element descriptor stands for.
pub open spec fn dpx_components(descriptor: u8) -> u32 {
    if descriptor == 1 || descriptor == 2 || descriptor == 3 || descriptor == 4 || descriptor == 6
        || descriptor == 8 {
        1
    } else if descriptor == 51 || descriptor == 52 {
        4
    } else {
        3
    }
}

/// The header of the DPX file whose first bytes are `b`.
pub open spec fn dpx_header_of(b: Seq<u8>) -> Result<DpxHeader, DpxError> {
    if b.len() < 4 {
        Err(DpxError::Truncated)
    } else {
        let magic = be_value(b, 0, 4);
        if magic != DPX_MAGIC_BE && magic != DPX_MAGIC_LE {
            Err(DpxError::BadMagic(magic as u32))
        } else if b.len() < DPX_HEADER_LEN {
            Err(DpxError::Truncated)
        } else {
            let swap = magic == DPX_MAGIC_LE;
            let bit_depth = b[803] as u32;
            if bit_depth != 8 && bit_depth != 10 && bit_depth != 16 {
                Err(DpxError::UnsupportedBitDepth(bit_depth))
            } else {
                Ok(
                    DpxHeader {
                        swap_bytes: swap,
                        data_offset: dpx_field(b, 4, 4, swap) as u32,
                        width: dpx_field(b, 772, 4, swap) as u32,
                        height: dpx_field(b, 776, 4, swap) as u32,
                        is_signed: dpx_field(b, 780, 4, swap) != 0,
                        num_components: dpx_components(b[800]),
                        bit_depth,
                        packing: dpx_field(b, 804, 2, swap) as u16,
                    },
                )
            }
        }
    }
}

fn read_field(b: &[u8], at: usize, n: usize, swap: bool) -> (v: u64)
    requires
        n <= 4,
        at + n <= b@.len(),
    ensures
        v == dpx_field(b@, at as int, n as nat, swap),
        v < pow256(n as nat),
{
    if swap {
        read_le(b, at, n)
    } else {
        read_be(b, at, n)
    }
}

fn components_of(descriptor: u8) -> (n: u32)
    ensures
        n == dpx_components(descriptor),
{
    match descriptor {
        1 | 2 | 3 | 4 | 6 | 8 => 1,
        51 | 52 => 4,
        _ => 3,
    }
}

/// Read the header of a DPX file from its first bytes (at least
/// [`DPX_HEADER_LEN`] of them, or the whole file if it is shorter).
pub fn parse_dpx_header(b: &[u8]) -> (r: Result<DpxHeader, DpxError>)
    ensures
        r == dpx_header_of(b@),
{
    if b.len() < 4 {
        return Err(DpxError::Truncated);
    }
    let magic = read_be(b, 0, 4);
    proof {
        lemma_pow256_bounds(4);
    }
    if magic != DPX_MAGIC_BE as u64 && magic != DPX_MAGIC_LE as u64 {
        return Err(DpxError::BadMagic(magic as u32));
    }
    if b.len() < DPX_HEADER_LEN {
        return Err(DpxError::Truncated);
    }
    let swap = magic == DPX_MAGIC_LE as u64;
    let bit_depth = b[803] as u32;
    if bit_depth != 8 && bit_depth != 10 && bit_depth != 16 {
        return Err(DpxError::UnsupportedBitDepth(bit_depth));
    }
    proof {
        lemma_pow256_bounds(2);
    }
    let data_offset = read_field(b, 4, 4, swap) as u32;
    let width = read_field(b, 772, 4, swap) as u32;
    let height = read_field(b, 776, 4, swap) as u32;
    let sign = read_field(b, 780, 4, swap);
    let packing = read_field(b, 804, 2, swap) as u16;
    Ok(
        DpxHeader {
            swap_bytes: swap,
            data_offset,
            width,
            height,
            is_signed: sign != 0,
            num_components: components_of(b[800]),
            bit_depth,
            packing,
        },
    )
}

/// The samples of 10-bit "method A" packed lines are three to a word.
pub open spec fn dpx_is_packed(h: DpxHeader) -> bool {
    h.bit_depth == 10 && h.packing != 0
}

/// The number of samples of one scan line, all components interleaved.
pub open spec fn dpx_line_samples(h: DpxHeader) -> nat {
    (h.num_components * h.width) as nat
}

/// The number of bytes of one scan line.
pub open spec fn dpx_line_len(h: DpxHeader) -> nat {
    let n = dpx_line_samples(h);
    if dpx_is_packed(h) {
        4 * ((n + 2) / 3)
    } else if h.bit_depth == 8 {
        n
    } else {
        2 * n
    }
}

/// The 10-bit field `k` (0, 1 or 2, from the most significant end) of a
/// packed word: bits 31..22, 21..12 and 11..2.
pub open spec fn dpx_packed_field(word: nat, k: int) -> nat {
    let unit: nat = if k == 0 {
        4194304
    } else if k == 1 {
        4096
    } else {
        4
    };
    (word / unit) % 1024
}

/// Sample `i` of the scan line `b`.
pub open spec fn dpx_sample(h: DpxHeader, b: Seq<u8>, i: int) -> nat {
    if dpx_is_packed(h) {
        dpx_packed_field(dpx_field(b, 4 * (i / 3), 4, h.swap_bytes), i % 3)
    } else if h.bit_depth == 16 {
        dpx_field(b, 2 * i, 2, h.swap_bytes)
    } else if h.bit_depth == 10 {
        dpx_field(b, 2 * i, 2, h.swap_bytes) % 1024
    } else {
        b[i] as nat
    }
}

/// The number of bytes of one scan line of the image `h` describes.
pub fn dpx_line_bytes(h: &DpxHeader) -> (n: usize)
    requires
        h.num_components * h.width * 2 + 8 <= usize::MAX,
    ensures
        n == dpx_line_len(*h),
{
    let total = (h.num_components as usize) * (h.width as usize);
    if h.bit_depth == 10 && h.packing != 0 {
        4 * ((total + 2) / 3)
    } else if h.bit_depth == 8 {
        total
    } else {
        2 * total
    }
}

proof fn lemma_packed_fields(word: u32)
    ensures
        ((word >> 22u32) & 0x3FF) as nat == dpx_packed_field(word as nat, 0),
        ((word >> 12u32) & 0x3FF) as nat == dpx_packed_field(word as nat, 1),
        ((word >> 2u32) & 0x3FF) as nat == dpx_packed_field(word as nat, 2),
{
    assert((word >> 22u32) & 0x3FF == (word / 4194304) % 1024) by (bit_vector);
    assert((word >> 12u32) & 0x3FF == (word / 4096) % 1024) by (bit_vector);
    assert((word >> 2u32) & 0x3FF == (word / 4) % 1024) by (bit_vector);
}

/// Unpack the samples of one scan line `raw` of the image `h` describes,
/// all components interleaved.
pub fn unpack_dpx_line(h: &DpxHeader, raw: &[u8]) -> (v: Vec<i32>)
    requires
        h.bit_depth == 8 || h.bit_depth == 10 || h.bit_depth == 16,
        h.num_components * h.width * 2 + 8 <= usize::MAX,
        dpx_line_len(*h) <= raw@.len(),
    ensures
        v@.len() == dpx_line_samples(*h),
        forall|i: int| 0 <= i < v@.len() ==> #[trigger] v@[i] == dpx_sample(*h, raw@, i),
{
    let total = (h.num_components as usize) * (h.width as usize);
    let packed = h.bit_depth == 10 && h.packing != 0;
    let mut v: Vec<i32> = Vec::with_capacity(total);
    let mut i: usize = 0;
    proof {
        lemma_pow256_bounds(4);
        lemma_pow256_bounds(2);
    }
    while i < total
        invariant
            h.bit_depth == 8 || h.bit_depth == 10 || h.bit_depth == 16,
            total == dpx_line_samples(*h),
            total * 2 + 8 <= usize::MAX,
            packed == dpx_is_packed(*h),
            dpx_line_len(*h) <= raw@.len(),
            pow256(4) == 0x1_0000_0000,
            pow256(2) == 65536,
            i <= total,
            v@.len() == i,
            forall|j: int| 0 <= j < i ==> #[trigger] v@[j] == dpx_sample(*h, raw@, j),
        decreases total - i,
    {
        let s: u32 = if packed {
            assert(4 * (i / 3) + 4 <= 4 * ((total + 2) / 3)) by (nonlinear_arith)
                requires
                    i < total,
            ;
            let word = read_field(raw, 4 * (i / 3), 4, h.swap_bytes) as u32;
            proof {
                lemma_packed_fields(word);
            }
            let k = i % 3;
            if k == 0 {
                (word >> 22u32) & 0x3FF
            } else if k == 1 {
                (word >> 12u32) & 0x3FF
            } else {
                (word >> 2u32) & 0x3FF
            }
        } else if h.bit_depth == 16 {
            read_field(raw, 2 * i, 2, h.swap_bytes) as u32
        } else if h.bit_depth == 10 {
            (read_field(raw, 2 * i, 2, h.swap_bytes) % 1024) as u32
        } else {
            raw[i] as u32
        };
        assert(s == dpx_sample(*h, raw@, i as int));
        v.push(s as i32);
        i = i + 1;
    }
    v
}

/// Law: the samples that `unpack_dpx_line` gives back, byte by byte. A
/// big-endian file (`swap_bytes` false) stores the most significant byte
/// first, a little-endian one the least significant byte first: a 16-bit
/// sample `i` is `raw[2i] * 256 + raw[2i + 1]` in the first and
/// `raw[2i] + raw[2i + 1] * 256` in the second; a 10-bit sample in a 16-bit
/// word keeps the low 10 bits of that word; an 8-bit sample is `raw[i]`;
/// and packed 10-bit samples sit three to a 32-bit word, the first in bits
/// 31..22, the second in bits 21..12 and the third in bits 11..2.
pub proof fn law_dpx_sample_bytes(h: DpxHeader, raw: Seq<u8>, i: int)
    requires
        h.bit_depth == 8 || h.bit_depth == 10 || h.bit_depth == 16,
        0 <= i,
    ensures
        h.bit_depth == 16 && !h.swap_bytes ==> dpx_sample(h, raw, i) == raw[2 * i] as nat * 256
            + raw[2 * i + 1] as nat,
        h.bit_depth == 16 && h.swap_bytes ==> dpx_sample(h, raw, i) == raw[2 * i] as nat
            + raw[2 * i + 1] as nat * 256,
        h.bit_depth == 10 && h.packing == 0 && !h.swap_bytes ==> dpx_sample(h, raw, i) == (raw[2
            * i] as nat * 256 + raw[2 * i + 1] as nat) % 1024,
        h.bit_depth == 10 && h.packing == 0 && h.swap_bytes ==> dpx_sample(h, raw, i) == (raw[2
            * i] as nat + raw[2 * i + 1] as nat * 256) % 1024,
        h.bit_depth == 8 ==> dpx_sample(h, raw, i) == raw[i] as nat,
        h.bit_depth == 10 && h.packing != 0 ==> {
            let a = 4 * (i / 3);
            let word: nat = if h.swap_bytes {
                raw[a] as nat + raw[a + 1] as nat * 256 + raw[a + 2] as nat * 65536 + raw[a
                    + 3] as nat * 16777216
            } else {
                raw[a] as nat * 16777216 + raw[a + 1] as nat * 65536 + raw[a + 2] as nat * 256
                    + raw[a + 3] as nat
            };
            let shift: nat = if i % 3 == 0 {
                4194304
            } else if i % 3 == 1 {
                4096
            } else {
                4
            };
            dpx_sample(h, raw, i) == (word / shift) % 1024
        },
{
    reveal_with_fuel(le_value, 5);
    reveal_with_fuel(be_value, 5);
    let a = 4 * (i / 3);
    assert(be_value(raw, 2 * i, 2) == raw[2 * i] as nat * 256 + raw[2 * i + 1] as nat);
    assert(le_value(raw, 2 * i, 2) == raw[2 * i] as nat + raw[2 * i + 1] as nat * 256);
    assert(be_value(raw, a, 4) == raw[a] as nat * 16777216 + raw[a + 1] as nat * 65536 + raw[a
        + 2] as nat * 256 + raw[a + 3] as nat);
    assert(le_value(raw, a, 4) == raw[a] as nat + raw[a + 1] as nat * 256 + raw[a + 2] as nat
        * 65536 + raw[a + 3] as nat * 16777216);
}

} // verus!
