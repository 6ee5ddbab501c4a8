//! Bit-buffer writer for codestream generation, with JPEG 2000 byte
//! stuffing: after a 0xFF byte is written, the next byte has its most
//! significant bit clear and carries only seven payload bits.

use vstd::prelude::*;
use super::bit_model::{
    ends_with_ff, is_stuffed, lemma_append, lemma_emit, lemma_merge_small, lemma_unstuffed_push, lemma_zero_low_zero,
    lemma_zero_byte_bits, low_bits, low_zero, merge_bits, payload_width, top_bits, unstuffed_bits,
    zeros,
};

verus! {

/// What a writer holds: the bytes flushed so far, and the payload bits
/// written but not yet flushed.
pub struct WriterView {
    pub data: Seq<u8>,
    pub pending: Seq<bool>,
}

impl WriterView {
    /// Every payload bit written so far, in order.
    pub open spec fn stream(self) -> Seq<bool> {
        unstuffed_bits(self.data) + self.pending
    }
}

/// Bit-level writer with JPEG 2000 0xFF byte-stuffing.
#[derive(Debug)]
pub struct BitBufferWrite {
    data: Vec<u8>,
    /// Pending bits, left-justified.
    buf: u64,
    /// Number of pending bits in `buf`.
    bits_used: u32,
    /// True if the last flushed byte was 0xFF.
    unstuff: bool,
}

impl View for BitBufferWrite {
    type V = WriterView;

    closed spec fn view(&self) -> WriterView {
        WriterView { data: self.data@, pending: top_bits(self.buf, self.bits_used as nat) }
    }
}

impl BitBufferWrite {
    /// The writer's internal representation is consistent.
    pub closed spec fn wf(&self) -> bool {
        &&& self.bits_used < 32
        &&& low_zero(self.buf, self.bits_used as nat)
        &&& self.unstuff == ends_with_ff(self.data@)
        &&& is_stuffed(self.data@)
    }

    /// What every well-formed writer satisfies: fewer than 32 bits are
    /// pending, and the flushed bytes obey the stuffing rule.
    pub proof fn lemma_wf(&self)
        requires
            self.wf(),
        ensures
            self@.pending.len() < 32,
            is_stuffed(self@.data),
    {
    }

    /// Create a new, empty bit writer.
    pub fn new() -> (w: Self)
        ensures
            w.wf(),
            w@.data == Seq::<u8>::empty(),
            w@.pending == Seq::<bool>::empty(),
    {
        let w = Self { data: Vec::with_capacity(256), buf: 0, bits_used: 0, unstuff: false };
        proof {
            lemma_zero_low_zero(0);
        }
        assert(w@.pending =~= Seq::<bool>::empty());
        w
    }

    /// Write the `n` low bits of `val`, most significant first (`n <= 32`).
    /// Bits of `val` above those `n` are OR-ed into the pending bits they
    /// fall on.  Once 32 or more bits are pending, whole bytes are flushed.
    /// Writing no bits while none are pending changes nothing.
    pub fn write(&mut self, val: u32, n: u32)
        requires
            old(self).wf(),
            n <= 32,
        ensures
            final(self).wf(),
            final(self)@.stream() == unstuffed_bits(old(self)@.data) + merge_bits(
                old(self)@.pending,
                val as u64,
                n as nat,
            ),
            (val as u64) >> (n as u64) == 0 ==> final(self)@.stream() == old(self)@.stream()
                + low_bits(val as u64, n as nat),
            final(self)@.data.len() >= old(self)@.data.len(),
            final(self)@.data.take(old(self)@.data.len() as int) == old(self)@.data,
            old(self)@.pending.len() + n < 32 ==> final(self)@.data == old(self)@.data,
            old(self)@.pending.len() + n >= 32 ==> flush_stopped(old(self)@.data, final(self)@),
    {
        let ghost old_data = self.data@;
        if n == 0 && self.bits_used == 0 {
            assert(merge_bits(old(self)@.pending, val as u64, 0) =~= Seq::<bool>::empty());
            assert(low_bits(val as u64, 0) =~= Seq::<bool>::empty());
            assert(old(self)@.pending =~= Seq::<bool>::empty());
            assert(self@.stream() =~= unstuffed_bits(old_data));
            assert(old_data.take(old_data.len() as int) =~= old_data);
            return;
        }
        proof {
            lemma_append(self.buf, self.bits_used as nat, val as u64, n as nat);
            if (val as u64) >> (n as u64) == 0 {
                lemma_merge_small(top_bits(self.buf, self.bits_used as nat), val as u64, n as nat);
            }
        }
        self.buf = self.buf | ((val as u64) << (64 - self.bits_used - n) as u64);
        self.bits_used = self.bits_used + n;
        if self.bits_used >= 32 {
            self.flush_bytes();
        }
        assert(old_data.take(old_data.len() as int) =~= old_data);
    }

    /// Flush complete bytes from the buffer to the output, applying stuffing.
    fn flush_bytes(&mut self)
        requires
            old(self).bits_used < 64,
            low_zero(old(self).buf, old(self).bits_used as nat),
            old(self).unstuff == ends_with_ff(old(self).data@),
            is_stuffed(old(self).data@),
        ensures
            final(self).wf(),
            final(self)@.stream() == old(self)@.stream(),
            final(self)@.data.len() >= old(self)@.data.len(),
            final(self)@.data.take(old(self)@.data.len() as int) == old(self)@.data,
            flush_stopped(old(self)@.data, final(self)@),
    {
        let ghost s = self@.stream();
        let ghost old_data = self.data@;
        assert(old_data.take(old_data.len() as int) =~= old_data);
        while self.bits_used >= 8
            invariant
                self.bits_used < 64,
                low_zero(self.buf, self.bits_used as nat),
                self.unstuff == ends_with_ff(self.data@),
                is_stuffed(self.data@),
                self@.stream() == s,
                self.data@.len() >= old_data.len(),
                self.data@.take(old_data.len() as int) == old_data,
                self.data@.len() > old_data.len() && payload_width(
                    self.data@,
                    self.data@.len() - 1,
                ) == 7 ==> self.bits_used >= 1,
            decreases self.bits_used,
        {
            let ghost d = self.data@;
            let ghost bu = self.bits_used as nat;
            let ghost b0 = self.buf;
            if self.unstuff {
                let byte = (self.buf >> 57u64) as u8;
                proof {
                    lemma_emit(b0, bu, 7);
                    lemma_unstuffed_push(d, byte);
                }
                self.data.push(byte);
                self.buf = self.buf << 7u64;
                self.bits_used = self.bits_used - 7;
                self.unstuff = false;
            } else {
                let byte = (self.buf >> 56u64) as u8;
                proof {
                    lemma_emit(b0, bu, 8);
                    lemma_unstuffed_push(d, byte);
                }
                self.data.push(byte);
                self.buf = self.buf << 8u64;
                self.bits_used = self.bits_used - 8;
                self.unstuff = byte == 0xFF;
            }
            proof {
                assert(zeros(0) =~= Seq::<bool>::empty());
                assert(self@.stream() =~= s);
                assert(self.data@.take(old_data.len() as int) =~= old_data);
                assert(self.data@.drop_last() =~= d);
            }
        }
    }

    /// Flush all remaining bits, padding the last byte with zeros.  When
    /// the final byte is 0xFF a zero byte is appended after it, and the
    /// result is `true`; otherwise it is `false`.
    pub fn finalize(&mut self) -> (r: bool)
        requires
            old(self).wf(),
        ensures
            final(self).wf(),
            final(self)@.pending == Seq::<bool>::empty(),
            !ends_with_ff(final(self)@.data),
            finalized(old(self)@, final(self)@.data, r),
    {
        let ghost s = self@.stream();
        let ghost old_data = self.data@;
        let ghost old_pending = self@.pending;
        let ghost mut padded: nat = 0;
        assert(old_data.take(old_data.len() as int) =~= old_data);
        assert(zeros(0) =~= Seq::<bool>::empty());
        assert(s + zeros(0) =~= s);
        while self.bits_used > 0
            invariant
                self.bits_used < 32,
                low_zero(self.buf, self.bits_used as nat),
                self.unstuff == ends_with_ff(self.data@),
                is_stuffed(self.data@),
                self@.stream() == s + zeros(padded),
                padded > 0 ==> self.bits_used == 0,
                s == unstuffed_bits(old_data) + old_pending,
                self.data@.len() >= old_data.len(),
                self.data@.take(old_data.len() as int) == old_data,
                self.data@.len() > old_data.len() ==> unstuffed_bits(self.data@.drop_last()).len()
                    < s.len(),
                old_pending.len() == 0 ==> self.data@ == old_data,
            decreases self.bits_used,
        {
            let ghost d = self.data@;
            let ghost bu = self.bits_used as nat;
            let ghost b0 = self.buf;
            assert(unstuffed_bits(d).len() < s.len());
            if self.unstuff {
                let byte = (self.buf >> 57u64) as u8;
                proof {
                    lemma_emit(b0, bu, 7);
                    lemma_unstuffed_push(d, byte);
                }
                self.data.push(byte);
                self.buf = self.buf << 7u64;
                if self.bits_used >= 7 {
                    self.bits_used = self.bits_used - 7;
                } else {
                    proof {
                        padded = (7 - bu) as nat;
                    }
                    self.bits_used = 0;
                }
                self.unstuff = false;
            } else {
                let byte = (self.buf >> 56u64) as u8;
                proof {
                    lemma_emit(b0, bu, 8);
                    lemma_unstuffed_push(d, byte);
                }
                self.data.push(byte);
                self.buf = self.buf << 8u64;
                if self.bits_used >= 8 {
                    self.bits_used = self.bits_used - 8;
                } else {
                    proof {
                        padded = (8 - bu) as nat;
                    }
                    self.bits_used = 0;
                }
                self.unstuff = byte == 0xFF;
            }
            proof {
                assert(self@.stream() =~= s + zeros(padded));
                assert(self.data@.take(old_data.len() as int) =~= old_data);
                assert(self.data@.drop_last() =~= d);
            }
        }
        assert(self@.pending =~= Seq::<bool>::empty());
        let ghost d1 = self.data@;
        if self.unstuff {
            proof {
                lemma_unstuffed_push(d1, 0u8);
                lemma_zero_byte_bits(7);
            }
            self.data.push(0);
            self.unstuff = false;
            proof {
                assert(self.data@.drop_last() =~= d1);
                assert(s + zeros(padded) + zeros(7) =~= s + zeros(padded + 7));
                assert(unstuffed_bits(d1) =~= s + zeros(padded));
                assert(finalized(old(self)@, self.data@, true));
            }
            true
        } else {
            proof {
                assert(unstuffed_bits(d1) =~= s + zeros(padded));
                assert(finalized(old(self)@, self.data@, false));
            }
            false
        }
    }

    /// The written bytes.
    pub fn get_data(&self) -> (d: &[u8])
        ensures
            d@ == self@.data,
    {
        self.data.as_slice()
    }

    /// Take ownership of the written bytes.
    pub fn into_data(self) -> (d: Vec<u8>)
        ensures
            d@ == self@.data,
    {
        self.data
    }

    /// Number of bytes written so far.
    pub fn len(&self) -> (l: usize)
        ensures
            l == self@.data.len(),
    {
        self.data.len()
    }

    /// True if no byte has been written and no bit is pending.
    pub fn is_empty(&self) -> (e: bool)
        requires
            self.wf(),
        ensures
            e == (self@.data.len() == 0 && self@.pending.len() == 0),
    {
        self.data.len() == 0 && self.bits_used == 0
    }

    /// Return the writer to its freshly created state.
    pub fn reset(&mut self)
        ensures
            final(self).wf(),
            final(self)@.data == Seq::<u8>::empty(),
            final(self)@.pending == Seq::<bool>::empty(),
    {
        self.data.clear();
        self.buf = 0;
        self.bits_used = 0;
        self.unstuff = false;
        proof {
            lemma_zero_low_zero(0);
        }
        assert(self@.pending =~= Seq::<bool>::empty());
    }
}

impl Default for BitBufferWrite {
    fn default() -> (w: Self)
        ensures
            w.wf(),
            w@.data == Seq::<u8>::empty(),
            w@.pending == Seq::<bool>::empty(),
    {
        Self::new()
    }
}

/// A flush that started from the bytes `old_data` stopped where it had to:
/// fewer than eight bits are left pending, and it did not end on a
/// seven-bit byte that emptied the pending bits (such a byte is only
/// emitted while eight or more bits are pending).
pub open spec fn flush_stopped(old_data: Seq<u8>, v: WriterView) -> bool {
    &&& v.pending.len() < 8
    &&& (v.pending.len() == 0 && v.data.len() > old_data.len()) ==> payload_width(
        v.data,
        v.data.len() - 1,
    ) == 8
}

/// `data` is what finalising the writer state `old` gives, and `extra_zero`
/// tells whether a zero byte had to follow a final 0xFF byte: the bytes
/// before that zero byte extend `old.data`, carry every written bit and
/// then only zeros, and their last byte holds at least one written bit.
pub open spec fn finalized(old: WriterView, data: Seq<u8>, extra_zero: bool) -> bool {
    let d1 = if extra_zero { data.drop_last() } else { data };
    let u = unstuffed_bits(d1);
    &&& extra_zero ==> data.len() > 0 && data.last() == 0 && ends_with_ff(d1)
    &&& !extra_zero ==> !ends_with_ff(d1)
    &&& d1.len() >= old.data.len()
    &&& d1.take(old.data.len() as int) == old.data
    &&& u.len() >= old.stream().len()
    &&& u == old.stream() + zeros((u.len() - old.stream().len()) as nat)
    &&& d1.len() > old.data.len() ==> unstuffed_bits(d1.drop_last()).len() < old.stream().len()
    &&& old.pending.len() == 0 ==> d1 == old.data
    &&& unstuffed_bits(data) == old.stream() + zeros(
        (unstuffed_bits(data).len() - old.stream().len()) as nat,
    )
}

} // verus!
