//! Binary PGM (`P5`, one component) and PPM (`P6`, three components)
//! headers: reading the header of a file from its bytes, and writing one.
//!
//! A header is the magic number, then the width, the height and the
//! largest sample value as decimal numbers, each after white space or
//! `#` comments, then one byte (normally white space) before the samples.

use vstd::prelude::*;
use crate::params::{floor_log2, spec_floor_log2};
use crate::img_io::samples::{max_sample, max_sample_value};

verus! {

/// Why a PGM/PPM header was refused.
#[derive(Debug, Clone, Copy, PartialEq, Eq, Structural)]
pub enum PnmError {
    /// The file ends inside the magic number, or where the byte after the
    /// largest sample value should be.
    Truncated,
    /// The magic number is neither `P5` nor `P6`; its two bytes.
    UnsupportedMagic(u8, u8),
    /// The header ends where white space, a comment or a number is due.
    UnexpectedEnd,
    /// A comment line is not well-formed UTF-8.
    InvalidComment,
    /// A number is due and something else stands there.
    ExpectedInteger,
    /// A number does not fit in 32 bits.
    IntegerTooLarge,
    /// The largest sample value is zero.
    ZeroMaxVal,
}

/// What a PGM/PPM header says of the image.
#[derive(Debug, Clone, Copy, PartialEq, Eq, Structural)]
pub struct PnmHeader {
    pub num_components: u32,
    pub width: u32,
    pub height: u32,
    pub max_val: u32,
    /// The number of bits of `max_val`.
    pub bit_depth: u32,
    /// One byte per sample up to a largest value of 255, else two
    /// (big-endian).
    pub bytes_per_sample: u32,
    /// Where the samples start in the file.
    pub data_offset: usize,
}

/// ASCII white space, as `u8::is_ascii_whitespace` tests it.
pub open spec fn is_blank(c: u8) -> bool {
    c == 0x20 || c == 0x09 || c == 0x0A || c == 0x0C || c == 0x0D
}

pub open spec fn is_digit(c: u8) -> bool {
    0x30 <= c <= 0x39
}

/// Just past the end of the line that starts at `pos`: past its line
/// feed, or the end of `b`.
pub open spec fn line_end(b: Seq<u8>, pos: int) -> int
    decreases b.len() - pos,
{
    if pos >= b.len() {
        b.len() as int
    } else if b[pos] == 0x0A {
        pos + 1
    } else {
        line_end(b, pos + 1)
    }
}

/// A line that starts inside `b` ends after its start and within `b`.
pub proof fn lemma_line_end(b: Seq<u8>, pos: int)
    requires
        0 <= pos < b.len(),
    ensures
        pos < line_end(b, pos) <= b.len(),
    decreases b.len() - pos,
{
    reveal_with_fuel(line_end, 2);
    if b[pos] != 0x0A && pos + 1 < b.len() {
        lemma_line_end(b, pos + 1);
    }
}

/// The position of the next token from `pos` on, past white space and
/// comments (from `#` to the end of the line, read as UTF-8).
pub open spec fn skip_blank(b: Seq<u8>, pos: int) -> Result<int, PnmError>
    decreases b.len() - pos,
{
    if pos < 0 || pos >= b.len() {
        Err(PnmError::UnexpectedEnd)
    } else if b[pos] == 0x23 {
        let e = line_end(b, pos);
        proof {
            lemma_line_end(b, pos);
        }
        if !vstd::utf8::valid_utf8(b.subrange(pos, e)) {
            Err(PnmError::InvalidComment)
        } else {
            skip_blank(b, e)
        }
    } else if is_blank(b[pos]) {
        skip_blank(b, pos + 1)
    } else {
        Ok(pos)
    }
}

/// The end of the run of decimal digits that starts at `pos`.
pub open spec fn digits_end(b: Seq<u8>, pos: int) -> int
    decreases b.len() - pos,
{
    if pos < 0 || pos >= b.len() || !is_digit(b[pos]) {
        pos
    } else {
        digits_end(b, pos + 1)
    }
}

/// The value of the decimal digits `b[s..e]`.
pub open spec fn decimal_value(b: Seq<u8>, s: int, e: int) -> nat
    decreases e - s,
{
    if e <= s {
        0
    } else {
        decimal_value(b, s, e - 1) * 10 + (b[e - 1] - 0x30) as nat
    }
}

/// The number that comes next from `pos` on, and the position past it.
pub open spec fn header_int(b: Seq<u8>, pos: int) -> Result<(u32, int), PnmError> {
    match skip_blank(b, pos) {
        Err(e) => Err(e),
        Ok(p) => {
            let e = digits_end(b, p);
            if e == p {
                Err(PnmError::ExpectedInteger)
            } else if decimal_value(b, p, e) > u32::MAX {
                Err(PnmError::IntegerTooLarge)
            } else {
                Ok((decimal_value(b, p, e) as u32, e))
            }
        },
    }
}

/// The header of the PGM/PPM file whose bytes are `b`.
pub open spec fn pnm_header_of(b: Seq<u8>) -> Result<PnmHeader, PnmError> {
    if b.len() < 2 {
        Err(PnmError::Truncated)
    } else if !(b[0] == 0x50 && (b[1] == 0x35 || b[1] == 0x36)) {
        Err(PnmError::UnsupportedMagic(b[0], b[1]))
    } else {
        let num_components: u32 = if b[1] == 0x35 {
            1
        } else {
            3
        };
        match header_int(b, 2) {
            Err(e) => Err(e),
            Ok((width, p1)) => match header_int(b, p1) {
                Err(e) => Err(e),
                Ok((height, p2)) => match header_int(b, p2) {
                    Err(e) => Err(e),
                    Ok((max_val, p3)) => {
                        if max_val == 0 {
                            Err(PnmError::ZeroMaxVal)
                        } else if p3 >= b.len() {
                            Err(PnmError::Truncated)
                        } else {
                            Ok(
                                PnmHeader {
                                    num_components,
                                    width,
                                    height,
                                    max_val,
                                    bit_depth: (spec_floor_log2(max_val as nat) + 1) as u32,
                                    bytes_per_sample: if max_val > 255 {
                                        2
                                    } else {
                                        1
                                    },
                                    data_offset: (p3 + 1) as usize,
                                },
                            )
                        }
                    },
                },
            },
        }
    }
}

/// Whether `b[start..end]` is well-formed UTF-8, by `std::str::from_utf8`,
/// which accepts exactly the well-formed UTF-8 byte strings.
#[verifier::external_body]
fn is_utf8(b: &[u8], start: usize, end: usize) -> (r: bool)
    requires
        start <= end <= b@.len(),
    ensures
        r == vstd::utf8::valid_utf8(b@.subrange(start as int, end as int)),
{
    std::str::from_utf8(&b[start..end]).is_ok()
}

fn blank(c: u8) -> (r: bool)
    ensures
        r == is_blank(c),
{
    c == 0x20 || c == 0x09 || c == 0x0A || c == 0x0C || c == 0x0D
}

fn find_line_end(b: &[u8], pos: usize) -> (e: usize)
    requires
        pos < b@.len(),
    ensures
        e == line_end(b@, pos as int),
        pos < e <= b@.len(),
{
    let mut j = pos;
    let len = b.len();
    while j < len && b[j] != 0x0A
        invariant
            len == b@.len(),
            pos <= j <= len,
            line_end(b@, j as int) == line_end(b@, pos as int),
        decreases len - j,
    {
        j = j + 1;
    }
    proof {
        lemma_line_end(b@, pos as int);
    }
    if j < len {
        j + 1
    } else {
        len
    }
}

fn skip_blanks(b: &[u8], start: usize) -> (r: Result<usize, PnmError>)
    requires
        start <= b@.len(),
    ensures
        match r {
            Ok(p) => skip_blank(b@, start as int) == Ok::<int, PnmError>(p as int) && p < b@.len(),
            Err(e) => skip_blank(b@, start as int) == Err::<int, PnmError>(e),
        },
{
    let mut pos = start;
    let len = b.len();
    loop
        invariant
            len == b@.len(),
            pos <= len,
            skip_blank(b@, pos as int) == skip_blank(b@, start as int),
        decreases len - pos,
    {
        if pos >= len {
            return Err(PnmError::UnexpectedEnd);
        }
        let c = b[pos];
        if c == 0x23 {
            let e = find_line_end(b, pos);
            if !is_utf8(b, pos, e) {
                return Err(PnmError::InvalidComment);
            }
            pos = e;
        } else if blank(c) {
            pos = pos + 1;
        } else {
            return Ok(pos);
        }
    }
}

fn read_header_int(b: &[u8], pos: usize) -> (r: Result<(u32, usize), PnmError>)
    requires
        pos <= b@.len(),
    ensures
        match r {
            Ok((v, e)) => header_int(b@, pos as int) == Ok::<(u32, int), PnmError>((v, e as int))
                && e <= b@.len(),
            Err(err) => header_int(b@, pos as int) == Err::<(u32, int), PnmError>(err),
        },
{
    let p = match skip_blanks(b, pos) {
        Ok(p) => p,
        Err(e) => {
            return Err(e);
        },
    };
    let len = b.len();
    let mut e = p;
    let mut val: u64 = 0;
    let mut too_large = false;
    while e < len && 0x30 <= b[e] && b[e] <= 0x39
        invariant
            len == b@.len(),
            p <= e <= len,
            digits_end(b@, e as int) == digits_end(b@, p as int),
            too_large ==> decimal_value(b@, p as int, e as int) > u32::MAX,
            !too_large ==> val == decimal_value(b@, p as int, e as int) && val <= u32::MAX,
        decreases len - e,
    {
        let d = (b[e] - 0x30) as u64;
        if !too_large {
            let next = val * 10 + d;
            if next > u32::MAX as u64 {
                too_large = true;
            } else {
                val = next;
            }
        }
        e = e + 1;
    }
    if e == p {
        Err(PnmError::ExpectedInteger)
    } else if too_large {
        Err(PnmError::IntegerTooLarge)
    } else {
        Ok((val as u32, e))
    }
}

/// Read the header of a PGM/PPM file from its bytes (the header and at
/// least the byte after it, or the whole file).
pub fn parse_pnm_header(b: &[u8]) -> (r: Result<PnmHeader, PnmError>)
    ensures
        r == pnm_header_of(b@),
{
    if b.len() < 2 {
        return Err(PnmError::Truncated);
    }
    if !(b[0] == 0x50 && (b[1] == 0x35 || b[1] == 0x36)) {
        return Err(PnmError::UnsupportedMagic(b[0], b[1]));
    }
    let num_components: u32 = if b[1] == 0x35 {
        1
    } else {
        3
    };
    let (width, p1) = match read_header_int(b, 2) {
        Ok(x) => x,
        Err(e) => {
            return Err(e);
        },
    };
    let (height, p2) = match read_header_int(b, p1) {
        Ok(x) => x,
        Err(e) => {
            return Err(e);
        },
    };
    let (max_val, p3) = match read_header_int(b, p2) {
        Ok(x) => x,
        Err(e) => {
            return Err(e);
        },
    };
    if max_val == 0 {
        return Err(PnmError::ZeroMaxVal);
    }
    if p3 >= b.len() {
        return Err(PnmError::Truncated);
    }
    let bit_depth = floor_log2(max_val) + 1;
    Ok(
        PnmHeader {
            num_components,
            width,
            height,
            max_val,
            bit_depth,
            bytes_per_sample: if max_val > 255 {
                2
            } else {
                1
            },
            data_offset: p3 + 1,
        },
    )
}

/// The decimal digits of `n` in ASCII, most significant first.
pub open spec fn decimal(n: nat) -> Seq<u8>
    decreases n,
{
    if n < 10 {
        seq![(n + 0x30) as u8]
    } else {
        decimal(n / 10).push((n % 10 + 0x30) as u8)
    }
}

/// The header written for an image of `num_components` components (one
/// makes a PGM, any other number a PPM) whose largest sample value is
/// `max_val`: the magic number, a line feed, the width, a space, the
/// height, a line feed, `max_val` and a line feed.
pub open spec fn pnm_header_bytes(num_components: u32, width: u32, height: u32, max_val: nat) -> Seq<
    u8,
> {
    seq![0x50u8, if num_components == 1 { 0x35u8 } else { 0x36u8 }, 0x0Au8] + decimal(width as nat)
        + seq![0x20u8] + decimal(height as nat) + seq![0x0Au8] + decimal(max_val) + seq![0x0Au8]
}

/// Append the decimal digits of `n`.
fn push_decimal(out: &mut Vec<u8>, n: u32)
    ensures
        final(out)@ == old(out)@ + decimal(n as nat),
    decreases n,
{
    if n >= 10 {
        push_decimal(out, n / 10);
    }
    out.push((n % 10) as u8 + 0x30);
    proof {
        if n >= 10 {
            assert(final(out)@ =~= old(out)@ + decimal(n as nat));
        } else {
            assert(final(out)@ =~= old(out)@ + decimal(n as nat));
        }
    }
}

/// The header of a PGM (one component) or PPM (three components) file
/// whose samples have `bit_depth` bits; other component counts are
/// refused.
pub fn pnm_header(num_components: u32, width: u32, height: u32, bit_depth: u32) -> (r: Option<
    Vec<u8>,
>)
    requires
        bit_depth < 32,
    ensures
        r is Some <==> (num_components == 1 || num_components == 3),
        r matches Some(v) ==> v@ == pnm_header_bytes(
            num_components,
            width,
            height,
            max_sample(bit_depth) as nat,
        ),
{
    if num_components != 1 && num_components != 3 {
        return None;
    }
    let max_val = max_sample_value(bit_depth);
    proof {
        vstd::arithmetic::power2::lemma_pow2_pos(bit_depth as nat);
    }
    let mut out: Vec<u8> = Vec::new();
    out.push(0x50);
    out.push(if num_components == 1 {
        0x35
    } else {
        0x36
    });
    out.push(0x0A);
    push_decimal(&mut out, width);
    out.push(0x20);
    push_decimal(&mut out, height);
    out.push(0x0A);
    push_decimal(&mut out, max_val as u32);
    out.push(0x0A);
    assert(out@ =~= pnm_header_bytes(num_components, width, height, max_sample(bit_depth) as nat));
    Some(out)
}

proof fn lemma_decimal_digits(n: nat)
    ensures
        decimal(n).len() >= 1,
        forall|k: int| 0 <= k < decimal(n).len() ==> is_digit(#[trigger] decimal(n)[k]),
    decreases n,
{
    if n >= 10 {
        lemma_decimal_digits(n / 10);
    }
}

proof fn lemma_decimal_value(b: Seq<u8>, s: int, n: nat)
    requires
        0 <= s,
        s + decimal(n).len() <= b.len(),
        b.subrange(s, s + decimal(n).len()) == decimal(n),
    ensures
        decimal_value(b, s, s + decimal(n).len()) == n,
    decreases n,
{
    let e = s + decimal(n).len();
    assert(b[e - 1] == decimal(n)[decimal(n).len() - 1]);
    if n >= 10 {
        let m = n / 10;
        assert(b.subrange(s, s + decimal(m).len()) =~= decimal(n).subrange(0, decimal(m).len() as int));
        assert(decimal(n).subrange(0, decimal(m).len() as int) =~= decimal(m));
        lemma_decimal_value(b, s, m);
    } else {
        assert(decimal_value(b, s, s) == 0);
    }
}

proof fn lemma_digits_run(b: Seq<u8>, j: int, e: int)
    requires
        0 <= j <= e <= b.len(),
        forall|k: int| j <= k < e ==> is_digit(#[trigger] b[k]),
        e == b.len() || !is_digit(b[e]),
    ensures
        digits_end(b, j) == e,
    decreases e - j,
{
    if j < e {
        lemma_digits_run(b, j + 1, e);
    }
}

/// A number written as one blank byte and its decimal digits, and
/// followed by no digit, is read back.
proof fn lemma_header_int_written(b: Seq<u8>, pos: int, n: nat)
    requires
        0 <= pos,
        n <= u32::MAX,
        b[pos] == 0x20 || b[pos] == 0x0A,
        pos + 1 + decimal(n).len() <= b.len(),
        b.subrange(pos + 1, pos + 1 + decimal(n).len()) == decimal(n),
        pos + 1 + decimal(n).len() == b.len() || !is_digit(b[pos + 1 + decimal(n).len()]),
    ensures
        header_int(b, pos) == Ok::<(u32, int), PnmError>((n as u32, pos + 1 + decimal(n).len())),
{
    let s = pos + 1;
    let e = s + decimal(n).len();
    lemma_decimal_digits(n);
    assert forall|k: int| s <= k < e implies is_digit(#[trigger] b[k]) by {
        assert(b[k] == decimal(n)[k - s]);
    }
    assert(is_digit(b[s]));
    assert(skip_blank(b, s) == Ok::<int, PnmError>(s));
    assert(skip_blank(b, pos) == Ok::<int, PnmError>(s));
    lemma_digits_run(b, s, e);
    lemma_decimal_value(b, s, n);
}

proof fn lemma_floor_log2_of_mask(k: nat)
    requires
        k >= 1,
    ensures
        spec_floor_log2((vstd::arithmetic::power2::pow2(k) - 1) as nat) == k - 1,
    decreases k,
{
    vstd::arithmetic::power2::lemma_pow2_unfold(k);
    vstd::arithmetic::power2::lemma_pow2_pos((k - 1) as nat);
    if k > 1 {
        lemma_floor_log2_of_mask((k - 1) as nat);
        vstd::arithmetic::power2::lemma_pow2_unfold((k - 1) as nat);
        assert(((vstd::arithmetic::power2::pow2(k) - 1) as nat) / 2 == (vstd::arithmetic::power2::pow2(
            (k - 1) as nat,
        ) - 1) as nat);
    } else {
        vstd::arithmetic::power2::lemma2_to64();
    }
}

/// The header written for an image of one or three components whose
/// samples have 1 to 31 bits is read back whole, whatever samples follow
/// it: its kind, size and largest sample value, the bit depth it was
/// written for, the sample size the writer chose, and that the samples
/// start right after it.
pub proof fn law_pnm_header_round_trip(
    num_components: u32,
    width: u32,
    height: u32,
    bit_depth: u32,
    samples: Seq<u8>,
)
    requires
        num_components == 1 || num_components == 3,
        1 <= bit_depth < 32,
    ensures
        ({
            let hdr = pnm_header_bytes(num_components, width, height, max_sample(bit_depth) as nat);
            pnm_header_of(hdr + samples) == Ok::<PnmHeader, PnmError>(
                PnmHeader {
                    num_components,
                    width,
                    height,
                    max_val: max_sample(bit_depth) as u32,
                    bit_depth,
                    bytes_per_sample: if bit_depth > 8 {
                        2
                    } else {
                        1
                    },
                    data_offset: hdr.len() as usize,
                },
            )
        }),
{
    let m = max_sample(bit_depth) as nat;
    vstd::arithmetic::power2::lemma_pow2_pos(bit_depth as nat);
    vstd::arithmetic::power2::lemma2_to64();
    vstd::arithmetic::power2::lemma_pow2_strictly_increases(bit_depth as nat, 32);
    assert(m >= 1) by {
        vstd::arithmetic::power2::lemma_pow2_strictly_increases(0, bit_depth as nat);
    }
    assert(m > 255 <==> bit_depth > 8) by {
        if bit_depth > 8 {
            vstd::arithmetic::power2::lemma_pow2_strictly_increases(8, bit_depth as nat);
        } else if bit_depth < 8 {
            vstd::arithmetic::power2::lemma_pow2_strictly_increases(bit_depth as nat, 8);
        }
    }
    lemma_floor_log2_of_mask(bit_depth as nat);
    let hdr = pnm_header_bytes(num_components, width, height, m);
    let b = hdr + samples;
    let dw = decimal(width as nat);
    let dh = decimal(height as nat);
    let dm = decimal(m);
    lemma_decimal_digits(width as nat);
    lemma_decimal_digits(height as nat);
    lemma_decimal_digits(m);
    let p1: int = 3 + dw.len() as int;
    let p2: int = p1 + 1 + dh.len();
    let p3: int = p2 + 1 + dm.len();
    assert(hdr.len() == p3 + 1);
    assert(b[0] == 0x50u8 && b[1] == (if num_components == 1 { 0x35u8 } else { 0x36u8 }));
    assert(b[2] == 0x0Au8);
    assert(b.subrange(3, p1) =~= dw);
    assert(b[p1] == 0x20u8);
    assert(b.subrange(p1 + 1, p2) =~= dh);
    assert(b[p2] == 0x0Au8);
    assert(b.subrange(p2 + 1, p3) =~= dm);
    assert(b[p3] == 0x0Au8);
    lemma_header_int_written(b, 2, width as nat);
    lemma_header_int_written(b, p1, height as nat);
    lemma_header_int_written(b, p2, m);
}

} // verus!
