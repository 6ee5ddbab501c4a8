//! Bit-buffer reader for codestream parsing, undoing JPEG 2000 byte
//! stuffing: after a 0xFF byte, the most significant bit of the next byte
//! is a stuffed bit and is skipped.

use vstd::prelude::*;
use super::bit_model::{
    bits_value, ends_with_ff, lemma_append, lemma_byte_bits, lemma_merge_small, lemma_shift_out,
    lemma_top_fits32, lemma_top_value, lemma_unstuffed_prefix, lemma_unstuffed_take_next,
    lemma_zero_low_zero, low_bits, low_zero, payload_width, top_bits, unstuffed_bits,
};

verus! {

/// What a reader holds: the byte stream, how many bytes it has taken in,
/// how many of their payload bits it still buffers, and whether the last
/// byte taken in was 0xFF.
pub struct ReaderView {
    pub data: Seq<u8>,
    pub pos: nat,
    pub bits_left: nat,
    pub unstuff: bool,
}

impl ReaderView {
    /// The payload bits of the whole stream.
    pub open spec fn stream(self) -> Seq<bool> {
        unstuffed_bits(self.data)
    }

    /// The payload bits of the bytes taken in so far.
    pub open spec fn taken(self) -> Seq<bool> {
        unstuffed_bits(self.data.take(self.pos as int))
    }

    /// How many payload bits have been consumed.
    pub open spec fn consumed(self) -> int {
        self.taken().len() - self.bits_left
    }
}

/// Bit-level reader with JPEG 2000 0xFF byte-unstuffing.
#[derive(Debug)]
pub struct BitBufferRead<'a> {
    data: &'a [u8],
    pos: usize,
    /// Buffered bits, left-justified.
    buf: u64,
    /// Number of valid bits in `buf`.
    bits_left: u32,
    /// True if the previous byte was 0xFF (triggers unstuffing).
    unstuff: bool,
}

impl<'a> View for BitBufferRead<'a> {
    type V = ReaderView;

    closed spec fn view(&self) -> ReaderView {
        ReaderView {
            data: self.data@,
            pos: self.pos as nat,
            bits_left: self.bits_left as nat,
            unstuff: self.unstuff,
        }
    }
}

impl<'a> BitBufferRead<'a> {
    /// The reader's internal representation is consistent: the buffered
    /// bits are the not yet consumed payload bits of the bytes taken in.
    pub closed spec fn wf(&self) -> bool {
        &&& self.pos <= self.data@.len()
        &&& self.bits_left <= 64
        &&& low_zero(self.buf, self.bits_left as nat)
        &&& self.bits_left <= self@.taken().len()
        &&& top_bits(self.buf, self.bits_left as nat) == self@.taken().skip(self@.consumed())
        &&& self.unstuff == ends_with_ff(self.data@.take(self.pos as int))
    }

    /// What every well-formed reader satisfies.
    pub proof fn lemma_wf(&self)
        requires
            self.wf(),
        ensures
            self@.pos <= self@.data.len(),
            self@.bits_left <= 64,
            0 <= self@.consumed() <= self@.taken().len() <= self@.stream().len(),
            self@.stream().take(self@.taken().len() as int) == self@.taken(),
            self@.unstuff == ends_with_ff(self@.data.take(self@.pos as int)),
    {
        assert(self@.data.take(self@.data.len() as int) =~= self@.data);
        lemma_unstuffed_prefix(self@.data, self@.pos as int, self@.data.len() as int);
    }

    /// Create a new bit reader over the given bytes.
    pub fn new(data: &'a [u8]) -> (r: Self)
        ensures
            r.wf(),
            r@ == (ReaderView { data: data@, pos: 0, bits_left: 0, unstuff: false }),
    {
        let r = Self { data, pos: 0, buf: 0, bits_left: 0, unstuff: false };
        proof {
            lemma_zero_low_zero(0);
            assert(data@.take(0) =~= Seq::<u8>::empty());
            assert(top_bits(0u64, 0) =~= r@.taken().skip(r@.consumed()));
        }
        r
    }

    /// Take in up to 32 new bits: whole bytes, in order, as long as the
    /// next one keeps the bits taken in by this call within 32 and the
    /// buffer within 64 bits, until the stream is exhausted.
    pub fn fill(&mut self)
        requires
            old(self).wf(),
        ensures
            final(self).wf(),
            final(self)@.data == old(self)@.data,
            final(self)@.consumed() == old(self)@.consumed(),
            final(self)@.pos >= old(self)@.pos,
            final(self)@.bits_left <= old(self)@.bits_left + 32,
            final(self)@.pos == final(self)@.data.len()
                || final(self)@.bits_left + payload_width(final(self)@.data, final(self)@.pos as int)
                > old(self)@.bits_left + 32
                || final(self)@.bits_left + payload_width(final(self)@.data, final(self)@.pos as int)
                > 64,
            old(self)@.pos < old(self)@.data.len() && old(self)@.bits_left <= 56 ==> final(self)@.pos
                > old(self)@.pos,
    {
        let ghost c = self@.consumed();
        let ghost p0 = self.pos;
        let start = self.bits_left;
        let mut next_w: u32 = if self.unstuff {
            7
        } else {
            8
        };
        proof {
            self.lemma_wf();
        }
        while self.pos < self.data.len() && self.bits_left + next_w <= start + 32 && self.bits_left
            + next_w <= 64
            invariant
                self.wf(),
                self@.data == old(self)@.data,
                self@.consumed() == c,
                self.pos >= p0,
                start == old(self)@.bits_left,
                start <= 64,
                self.bits_left >= start,
                self.bits_left <= start + 32,
                next_w == payload_width(self.data@, self.pos as int),
            decreases self.data@.len() - self.pos,
        {
            let ghost d = self.data@;
            let ghost p = self.pos as int;
            let ghost bl = self.bits_left as nat;
            let ghost b0 = self.buf;
            let byte = self.data[self.pos];
            self.pos = self.pos + 1;
            let bits_to_add: u32 = if self.unstuff { 7 } else { 8 };
            let val: u8 = if self.unstuff { byte & 0x7F } else { byte };
            proof {
                assert(d.take(p).len() > 0 ==> d.take(p).last() == d[p - 1]);
                lemma_byte_bits(byte);
                lemma_append(b0, bl, val as u64, bits_to_add as nat);
                lemma_merge_small(top_bits(b0, bl), val as u64, bits_to_add as nat);
                lemma_unstuffed_take_next(d, p);
                assert(d.take(p + 1).drop_last() =~= d.take(p));
                assert(payload_width(d, p) == bits_to_add);
            }
            self.buf = self.buf | ((val as u64) << (64 - self.bits_left - bits_to_add) as u64);
            self.bits_left = self.bits_left + bits_to_add;
            self.unstuff = byte == 0xFF;
            next_w = if self.unstuff {
                7
            } else {
                8
            };
            proof {
                assert(self@.taken() == unstuffed_bits(d.take(p)) + low_bits(byte as u64, bits_to_add as nat));
                assert(top_bits(self.buf, self.bits_left as nat) =~= self@.taken().skip(self@.consumed()));
                assert(self.data@.take(self.pos - 1) =~= d.take(p));
            }
        }
    }

    /// The value of the next `n` payload bits (`n <= 32`), read most
    /// significant first, without consuming them; 0 for no bits.
    pub fn peek(&self, n: u32) -> (v: u32)
        requires
            self.wf(),
            n <= 32,
            n <= self@.bits_left,
        ensures
            v == bits_value(self@.stream().subrange(self@.consumed(), self@.consumed() + n)),
    {
        if n == 0 {
            proof {
                self.lemma_wf();
            }
            assert(self@.stream().subrange(self@.consumed(), self@.consumed()) =~= Seq::<bool>::empty());
            return 0;
        }
        proof {
            self.lemma_wf();
            lemma_top_value(self.buf, n as nat);
            lemma_top_fits32(self.buf, n);
            let t = self@.taken();
            let c = self@.consumed();
            assert(top_bits(self.buf, n as nat) =~= top_bits(self.buf, self.bits_left as nat).take(
                n as int,
            ));
            assert(t.skip(c).take(n as int) =~= self@.stream().subrange(c, c + n));
        }
        (self.buf >> (64 - n) as u64) as u32
    }

    /// Consume `n` buffered bits.
    pub fn advance(&mut self, n: u32)
        requires
            old(self).wf(),
            n <= old(self)@.bits_left,
        ensures
            final(self).wf(),
            final(self)@ == (ReaderView {
                bits_left: (old(self)@.bits_left - n) as nat,
                ..old(self)@
            }),
            final(self)@.consumed() == old(self)@.consumed() + n,
    {
        if n == 64 {
            proof {
                lemma_zero_low_zero(0);
                self.lemma_wf();
                assert(top_bits(0u64, 0) =~= self@.taken().skip(self@.consumed() + n));
            }
            self.buf = 0;
            self.bits_left = 0;
            return;
        }
        proof {
            lemma_shift_out(self.buf, self.bits_left as nat, n as nat);
            assert(self@.taken().skip(self@.consumed()).skip(n as int) =~= self@.taken().skip(
                self@.consumed() + n,
            ));
        }
        self.buf = self.buf << n as u64;
        self.bits_left = self.bits_left - n;
    }

    /// Read the next `n` payload bits (`n <= 32`), most significant
    /// first, filling the buffer while fewer than `n` bits are buffered.
    pub fn read(&mut self, n: u32) -> (v: u32)
        requires
            old(self).wf(),
            n <= 32,
            old(self)@.consumed() + n <= old(self)@.stream().len(),
        ensures
            final(self).wf(),
            final(self)@.data == old(self)@.data,
            final(self)@.consumed() == old(self)@.consumed() + n,
            v == bits_value(
                old(self)@.stream().subrange(old(self)@.consumed(), old(self)@.consumed() + n),
            ),
    {
        let ghost c = self@.consumed();
        while self.bits_left < n && self.pos < self.data.len()
            invariant
                self.wf(),
                self@.data == old(self)@.data,
                self@.consumed() == c,
                c == old(self)@.consumed(),
                n <= 32,
                c + n <= self@.stream().len(),
            decreases self.data@.len() - self.pos,
        {
            self.fill();
        }
        proof {
            self.lemma_wf();
            if self.pos == self.data@.len() {
                assert(self.data@.take(self.pos as int) =~= self.data@);
            }
        }
        let val = self.peek(n);
        self.advance(n);
        val
    }

    /// The number of bits currently buffered.
    pub fn available_bits(&self) -> (b: u32)
        ensures
            b == self@.bits_left,
    {
        self.bits_left
    }

    /// The number of bytes taken in from the stream.
    pub fn position(&self) -> (p: usize)
        ensures
            p == self@.pos,
    {
        self.pos
    }

    /// True if the last byte taken in was 0xFF.
    pub fn is_unstuffing(&self) -> (u: bool)
        ensures
            u == self@.unstuff,
    {
        self.unstuff
    }

    /// Start over on new bytes.
    pub fn reset(&mut self, data: &'a [u8])
        ensures
            final(self).wf(),
            final(self)@ == (ReaderView { data: data@, pos: 0, bits_left: 0, unstuff: false }),
    {
        self.data = data;
        self.pos = 0;
        self.buf = 0;
        self.bits_left = 0;
        self.unstuff = false;
        proof {
            lemma_zero_low_zero(0);
            assert(data@.take(0) =~= Seq::<u8>::empty());
            assert(top_bits(0u64, 0) =~= self@.taken().skip(self@.consumed()));
        }
    }
}

} // verus!
