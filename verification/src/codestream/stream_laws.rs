//! Laws that tie the bit writer and the bit reader together.

use vstd::prelude::*;
use super::bit_model::{bits_value, lemma_low_bits_value, low_bits, unstuffed_bits};
use super::bitbuffer_write::{finalized, WriterView};
use super::bitbuffer_read::ReaderView;

verus! {

/// The payload bits of a run of fields, each value in its width, most
/// significant bit first: what a fresh writer holds after writing them.
pub open spec fn fields_bits(values: Seq<u32>, widths: Seq<u32>) -> Seq<bool>
    decreases values.len(),
{
    if values.len() == 0 || widths.len() != values.len() {
        Seq::empty()
    } else {
        fields_bits(values.drop_last(), widths.drop_last()) + low_bits(
            values.last() as u64,
            widths.last() as nat,
        )
    }
}

/// Where field `i` starts: the sum of the widths before it.
pub open spec fn field_start(widths: Seq<u32>, i: int) -> int
    decreases i,
{
    if i <= 0 {
        0
    } else {
        field_start(widths, i - 1) + widths[i - 1]
    }
}

/// Law: the bytes a writer is finalised into carry, at every position,
/// the bits that were written there.
pub proof fn law_finalized_bits_read_back(old: WriterView, data: Seq<u8>, extra_zero: bool)
    requires
        finalized(old, data, extra_zero),
    ensures
        unstuffed_bits(data).len() >= old.stream().len(),
        unstuffed_bits(data).take(old.stream().len() as int) == old.stream(),
{
    let u = unstuffed_bits(data);
    assert(u.take(old.stream().len() as int) =~= old.stream());
}

proof fn lemma_fields_prefix(values: Seq<u32>, widths: Seq<u32>, i: int)
    requires
        values.len() == widths.len(),
        0 <= i < values.len(),
    ensures
        fields_bits(values, widths).len() >= field_start(widths, i) + widths[i],
        fields_bits(values, widths).subrange(field_start(widths, i), field_start(widths, i) + widths[i])
            == low_bits(values[i] as u64, widths[i] as nat),
        fields_bits(values, widths).len() == field_start(widths, values.len() as int),
    decreases values.len(),
{
    let n = values.len() as int;
    let vs = values.drop_last();
    let ws = widths.drop_last();
    lemma_field_start_prefix(widths, n - 1);
    if i == n - 1 {
        if n > 1 {
            lemma_fields_prefix(vs, ws, 0);
        }
        lemma_fields_len(vs, ws);
        assert(fields_bits(values, widths).subrange(field_start(widths, i), field_start(widths, i) + widths[i])
            =~= low_bits(values[i] as u64, widths[i] as nat));
    } else {
        lemma_fields_prefix(vs, ws, i);
        lemma_fields_len(vs, ws);
        lemma_field_start_prefix(widths, i);
        assert(fields_bits(values, widths).subrange(field_start(widths, i), field_start(widths, i) + widths[i])
            =~= fields_bits(vs, ws).subrange(field_start(ws, i), field_start(ws, i) + ws[i]));
    }
    lemma_fields_len(values, widths);
}

proof fn lemma_field_start_prefix(widths: Seq<u32>, i: int)
    requires
        0 <= i < widths.len(),
    ensures
        field_start(widths.drop_last(), i) == field_start(widths, i),
        field_start(widths, i) >= 0,
    decreases i,
{
    if i > 0 {
        lemma_field_start_prefix(widths, i - 1);
    }
}

proof fn lemma_fields_len(values: Seq<u32>, widths: Seq<u32>)
    requires
        values.len() == widths.len(),
    ensures
        fields_bits(values, widths).len() == field_start(widths, values.len() as int),
    decreases values.len(),
{
    if values.len() > 0 {
        lemma_fields_len(values.drop_last(), widths.drop_last());
        lemma_field_start_prefix(widths, values.len() - 1);
    }
}

/// Law: when a writer has written each value in its width (each value
/// fitting its width, each width at most 32) and is finalised, reading
/// the bytes field by field in the same widths gives every value back.
pub proof fn law_values_read_back(
    values: Seq<u32>,
    widths: Seq<u32>,
    old: WriterView,
    data: Seq<u8>,
    extra_zero: bool,
    i: int,
)
    requires
        values.len() == widths.len(),
        forall|j: int| 0 <= j < widths.len() ==> #[trigger] widths[j] <= 32,
        forall|j: int| 0 <= j < values.len() ==> (#[trigger] values[j] as u64) >> (widths[j] as u64) == 0,
        old.stream() == fields_bits(values, widths),
        finalized(old, data, extra_zero),
        0 <= i < values.len(),
    ensures
        field_start(widths, i) + widths[i] <= unstuffed_bits(data).len(),
        bits_value(
            unstuffed_bits(data).subrange(field_start(widths, i), field_start(widths, i) + widths[i]),
        ) == values[i],
{
    law_finalized_bits_read_back(old, data, extra_zero);
    lemma_fields_prefix(values, widths, i);
    let s = field_start(widths, i);
    let u = unstuffed_bits(data);
    lemma_field_start_prefix(widths, i);
    let f = fields_bits(values, widths);
    assert forall|k: int| 0 <= k < widths[i] implies #[trigger] u.subrange(s, s + widths[i])[k]
        == f.subrange(s, s + widths[i])[k] by {
        assert(u.take(f.len() as int)[s + k] == f[s + k]);
    }
    assert(u.subrange(s, s + widths[i]) =~= f.subrange(s, s + widths[i]));
    lemma_low_bits_value(values[i] as u64, widths[i] as nat);
}

/// Law: when each of a run of writes appends its field (as `write` does
/// for a value that fits its width), a writer that started empty holds
/// exactly the fields' bits, in order.
pub proof fn law_writes_make_fields(views: Seq<WriterView>, values: Seq<u32>, widths: Seq<u32>)
    requires
        values.len() == widths.len(),
        views.len() == values.len() + 1,
        views[0].stream() == Seq::<bool>::empty(),
        forall|j: int|
            0 <= j < values.len() ==> #[trigger] views[j + 1].stream() == views[j].stream() + low_bits(
                values[j] as u64,
                widths[j] as nat,
            ),
    ensures
        views.last().stream() == fields_bits(values, widths),
{
    lemma_writes_prefix(views, values, widths, values.len() as int);
    assert(values.take(values.len() as int) =~= values);
    assert(widths.take(widths.len() as int) =~= widths);
}

proof fn lemma_writes_prefix(views: Seq<WriterView>, values: Seq<u32>, widths: Seq<u32>, k: int)
    requires
        values.len() == widths.len(),
        views.len() == values.len() + 1,
        views[0].stream() == Seq::<bool>::empty(),
        forall|j: int|
            0 <= j < values.len() ==> #[trigger] views[j + 1].stream() == views[j].stream() + low_bits(
                values[j] as u64,
                widths[j] as nat,
            ),
        0 <= k <= values.len(),
    ensures
        views[k].stream() == fields_bits(values.take(k), widths.take(k)),
    decreases k,
{
    if k > 0 {
        lemma_writes_prefix(views, values, widths, k - 1);
        assert(values.take(k).drop_last() =~= values.take(k - 1));
        assert(widths.take(k).drop_last() =~= widths.take(k - 1));
        assert(views[(k - 1) + 1].stream() == views[k - 1].stream() + low_bits(
            values[k - 1] as u64,
            widths[k - 1] as nat,
        ));
        assert(values.take(k).last() == values[k - 1]);
        assert(widths.take(k).last() == widths[k - 1]);
        assert(views[k].stream() =~= fields_bits(values.take(k), widths.take(k)));
    } else {
        assert(fields_bits(values.take(0), widths.take(0)) =~= Seq::<bool>::empty());
    }
}

/// Law: reading fields in turn from the start of a stream (each read
/// consuming its width, as `read` does) reads field `j` from where field
/// `j` was written.
pub proof fn law_reads_follow_fields(views: Seq<ReaderView>, widths: Seq<u32>)
    requires
        views.len() == widths.len() + 1,
        views[0].consumed() == 0,
        forall|j: int|
            0 <= j < widths.len() ==> #[trigger] views[j + 1].consumed() == views[j].consumed()
                + widths[j],
    ensures
        forall|j: int| 0 <= j <= widths.len() ==> #[trigger] views[j].consumed() == field_start(widths, j),
{
    assert forall|j: int| 0 <= j <= widths.len() implies #[trigger] views[j].consumed() == field_start(
        widths,
        j,
    ) by {
        lemma_reads_prefix(views, widths, j);
    }
}

proof fn lemma_reads_prefix(views: Seq<ReaderView>, widths: Seq<u32>, k: int)
    requires
        views.len() == widths.len() + 1,
        views[0].consumed() == 0,
        forall|j: int|
            0 <= j < widths.len() ==> #[trigger] views[j + 1].consumed() == views[j].consumed()
                + widths[j],
        0 <= k <= widths.len(),
    ensures
        views[k].consumed() == field_start(widths, k),
    decreases k,
{
    if k > 0 {
        lemma_reads_prefix(views, widths, k - 1);
        assert(views[(k - 1) + 1].consumed() == views[k - 1].consumed() + widths[k - 1]);
    }
}

proof fn lemma_bits_value_concat(x: Seq<bool>, y: Seq<bool>)
    ensures
        bits_value(x + y) == bits_value(x) * vstd::arithmetic::power2::pow2(y.len()) + bits_value(y),
        bits_value(y) < vstd::arithmetic::power2::pow2(y.len()),
    decreases y.len(),
{
    if y.len() == 0 {
        assert(x + y =~= x);
        vstd::arithmetic::power2::lemma2_to64();
    } else {
        vstd::arithmetic::power2::lemma_pow2_unfold(y.len());
        let y0 = y.drop_last();
        lemma_bits_value_concat(x, y0);
        assert((x + y).drop_last() =~= x + y0);
        assert((x + y).last() == y.last());
        let p = vstd::arithmetic::power2::pow2(y0.len());
        assert(bits_value(x) * (2 * p) == 2 * (bits_value(x) * p)) by (nonlinear_arith);
    }
}

/// Law: after `advance(n)`, the next `m` bits are the low `m` bits of
/// the `n + m` bits that came next before: exactly the first `n` bits
/// are dropped.
pub proof fn law_advance_then_peek(s: Seq<bool>, c: int, n: int, m: int)
    requires
        0 <= c,
        0 <= n,
        0 <= m,
        c + n + m <= s.len(),
    ensures
        bits_value(s.subrange(c + n, c + n + m)) == bits_value(s.subrange(c, c + n + m))
            % vstd::arithmetic::power2::pow2(m as nat),
{
    let x = s.subrange(c, c + n);
    let y = s.subrange(c + n, c + n + m);
    assert(s.subrange(c, c + n + m) =~= x + y);
    lemma_bits_value_concat(x, y);
    let p = vstd::arithmetic::power2::pow2(m as nat);
    vstd::arithmetic::power2::lemma_pow2_pos(m as nat);
    vstd::arithmetic::div_mod::lemma_mod_multiples_vanish(bits_value(x) as int, bits_value(y) as int, p as int);
    vstd::arithmetic::div_mod::lemma_small_mod(bits_value(y), p);
    assert(bits_value(x) * p + bits_value(y) == p * bits_value(x) + bits_value(y)) by (nonlinear_arith);
}

} // verus!
