//! The main header of a codestream as bytes: the marker segments SOC,
//! SIZ, CAP, COD, QCD, COM and TLM that the writer emits, and a reader
//! that parses SIZ, COD and QCD from a main header and skips any other
//! marker segment, up to the first SOT marker.
//!
//! Fields are big-endian.  The writer declares the HTJ2K capability
//! (Rsiz 0x4000 with a CAP segment), HT code-blocks, one quality layer,
//! and quantisation exponents from the nominal dynamic range of each
//! subband: `B` for LL, `B + 1` for HL and LH, `B + 2` for HH, where `B`
//! is the largest bit depth plus one when the colour transform applies.
//! Irreversible coding uses these exponents with mantissa zero.  TLM
//! entries carry the tile index and a zero length, to be filled in once
//! the tile-parts are written.

use vstd::prelude::*;
use crate::params::{OjphError, ParamCod, ParamSiz, ProgressionOrder, SizComp};
use crate::types::{spec_div_ceil, Point, Size};
use super::CodestreamView;

verus! {

pub const MARKER_SOC: u16 = 0xFF4F;
pub const MARKER_CAP: u16 = 0xFF50;
pub const MARKER_SIZ: u16 = 0xFF51;
pub const MARKER_COD: u16 = 0xFF52;
pub const MARKER_TLM: u16 = 0xFF55;
pub const MARKER_QCD: u16 = 0xFF5C;
pub const MARKER_COM: u16 = 0xFF64;
pub const MARKER_SOT: u16 = 0xFF90;

/// The two big-endian bytes of `x` (taken modulo 2^16).
pub open spec fn be2(x: int) -> Seq<u8> {
    seq![((x / 256) % 256) as u8, (x % 256) as u8]
}

/// The four big-endian bytes of `x` (taken modulo 2^32).
pub open spec fn be4(x: int) -> Seq<u8> {
    be2(x / 65536) + be2(x % 65536)
}

/// The big-endian 16-bit field at `i`.
pub open spec fn get16(b: Seq<u8>, i: int) -> int {
    b[i] as int * 256 + b[i + 1] as int
}

/// The big-endian 32-bit field at `i`.
pub open spec fn get32(b: Seq<u8>, i: int) -> int {
    get16(b, i) * 65536 + get16(b, i + 2)
}

/// A marker segment: the marker, the length (the body's plus the two
/// length bytes), the body.
pub open spec fn segment(marker: int, body: Seq<u8>) -> Seq<u8> {
    be2(marker) + be2(body.len() + 2int) + body
}

/// The Ssiz byte of a component: bit depth minus one, 0x80 if signed.
pub open spec fn ssiz(c: SizComp) -> int {
    (c.bit_depth - 1) + if c.is_signed {
        128int
    } else {
        0int
    }
}

/// Three bytes per component: Ssiz, XRsiz, YRsiz.
pub open spec fn comps_bytes(cs: Seq<SizComp>) -> Seq<u8>
    decreases cs.len(),
{
    if cs.len() == 0 {
        Seq::empty()
    } else {
        comps_bytes(cs.drop_last()) + seq![
            ssiz(cs.last()) as u8,
            cs.last().downsampling.x as u8,
            cs.last().downsampling.y as u8,
        ]
    }
}

/// The SIZ body: Rsiz, the reference grid, the tiling, the components.
pub open spec fn siz_body(s: ParamSiz) -> Seq<u8> {
    be2(0x4000) + be4(s.image_extent.x as int) + be4(s.image_extent.y as int) + be4(
        s.image_offset.x as int,
    ) + be4(s.image_offset.y as int) + be4(s.tile_size.w as int) + be4(s.tile_size.h as int)
        + be4(s.tile_offset.x as int) + be4(s.tile_offset.y as int) + be2(s.comps@.len() as int)
        + comps_bytes(s.comps@)
}

/// The largest bit depth of the components (0 for none).
pub open spec fn max_bit_depth(cs: Seq<SizComp>) -> int
    decreases cs.len(),
{
    if cs.len() == 0 {
        0
    } else if cs.last().bit_depth as int > max_bit_depth(cs.drop_last()) {
        cs.last().bit_depth as int
    } else {
        max_bit_depth(cs.drop_last())
    }
}

/// The colour transform applies: it is chosen and there are at least
/// three components.
pub open spec fn ct_applies(v: CodestreamView) -> bool {
    v.cod.color_transform && v.siz.comps@.len() >= 3
}

/// The nominal range `B` that the quantisation exponents start from.
pub open spec fn base_range(v: CodestreamView) -> int {
    max_bit_depth(v.siz.comps@) + if ct_applies(v) {
        1int
    } else {
        0int
    }
}

/// The number code of a progression order.
pub open spec fn order_code(p: ProgressionOrder) -> int {
    match p {
        ProgressionOrder::LRCP => 0,
        ProgressionOrder::RLCP => 1,
        ProgressionOrder::RPCL => 2,
        ProgressionOrder::PCRL => 3,
        ProgressionOrder::CPRL => 4,
    }
}

/// The progression order a number code stands for.
pub open spec fn order_of_code(c: int) -> ProgressionOrder {
    if c == 0 {
        ProgressionOrder::LRCP
    } else if c == 1 {
        ProgressionOrder::RLCP
    } else if c == 2 {
        ProgressionOrder::RPCL
    } else if c == 3 {
        ProgressionOrder::PCRL
    } else {
        ProgressionOrder::CPRL
    }
}

/// The precinct bytes of the first `n` resolutions: PPy in the high and
/// PPx in the low four bits.
pub open spec fn precinct_bytes(cod: ParamCod, n: nat) -> Seq<u8>
    decreases n,
{
    if n == 0 {
        Seq::empty()
    } else {
        let s = cod.spec_log_precinct_size(n - 1);
        precinct_bytes(cod, (n - 1) as nat).push((s.h * 16 + s.w) as u8)
    }
}

/// The COD body: Scod, progression order, one layer, the colour
/// transform, the decompositions, the code-block size, HT code-blocks,
/// the wavelet, then the precinct sizes when any were set.
pub open spec fn cod_body(cod: ParamCod, ct: bool) -> Seq<u8> {
    let user_pp = cod.log_precinct_sizes@.len() > 0;
    seq![if user_pp { 1u8 } else { 0u8 }, order_code(cod.progression_order) as u8] + be2(1) + seq![
        if ct { 1u8 } else { 0u8 },
        cod.num_decomps,
        (cod.log_block_dims.w - 2) as u8,
        (cod.log_block_dims.h - 2) as u8,
        0x40u8,
        if cod.reversible { 1u8 } else { 0u8 },
    ] + if user_pp {
        precinct_bytes(cod, (cod.num_decomps + 1) as nat)
    } else {
        Seq::empty()
    }
}

/// The exponents of the subbands of `levels` decomposition levels after
/// the LL band: `B + 1`, `B + 1`, `B + 2` per level.
pub open spec fn level_exponents(b: int, levels: nat) -> Seq<int>
    decreases levels,
{
    if levels == 0 {
        Seq::empty()
    } else {
        level_exponents(b, (levels - 1) as nat) + seq![b + 1, b + 1, b + 2]
    }
}

/// The exponents of all subbands, LL first.
pub open spec fn band_exponents(b: int, num_decomps: nat) -> Seq<int> {
    seq![b] + level_exponents(b, num_decomps)
}

/// The SPqcd bytes: one byte (exponent times 8) per band when reversible,
/// else two (exponent times 2048, mantissa zero).
pub open spec fn spqcd_bytes(es: Seq<int>, reversible: bool) -> Seq<u8>
    decreases es.len(),
{
    if es.len() == 0 {
        Seq::empty()
    } else {
        spqcd_bytes(es.drop_last(), reversible) + if reversible {
            seq![(es.last() * 8) as u8]
        } else {
            be2(es.last() * 2048)
        }
    }
}

/// The QCD body: Sqcd (guard bits, and no quantisation or expounded
/// scalar quantisation), then the band exponents.
pub open spec fn qcd_body(guard: u8, reversible: bool, b: int, num_decomps: nat) -> Seq<u8> {
    seq![(guard * 32 + if reversible { 0int } else { 2int }) as u8] + spqcd_bytes(
        band_exponents(b, num_decomps),
        reversible,
    )
}

/// The MAGB parameter of the CAP segment for a largest magnitude of `m`
/// bits.
pub open spec fn magb(m: int) -> int {
    if m <= 8 {
        0
    } else if m < 28 {
        m - 8
    } else if m < 48 {
        13 + m / 4
    } else {
        31
    }
}

/// The CAP body: HTJ2K (Part 15) capability, and its Ccap15 word.
pub open spec fn cap_body(b: int, num_decomps: nat, guard: u8, reversible: bool) -> Seq<u8> {
    let top = if num_decomps > 0 {
        b + 2
    } else {
        b
    };
    be4(0x0002_0000) + be2(magb(top + guard - 1) + if reversible { 0int } else { 0x20int })
}

/// The COM segments: Latin text.
pub open spec fn com_bytes(cs: Seq<Seq<u8>>) -> Seq<u8>
    decreases cs.len(),
{
    if cs.len() == 0 {
        Seq::empty()
    } else {
        com_bytes(cs.drop_last()) + segment(MARKER_COM as int, be2(1) + cs.last())
    }
}

/// The number of tile-parts of each tile.
pub open spec fn tileparts_per_tile(v: CodestreamView) -> int {
    (if (v.tilepart_divisions / 2) % 2 == 1 {
        v.siz.comps@.len() as int
    } else {
        1int
    }) * (if v.tilepart_divisions % 2 == 1 {
        v.cod.num_decomps + 1
    } else {
        1int
    })
}

/// The number of tiles of the grid.
pub open spec fn tile_count(v: CodestreamView) -> int {
    v.num_tiles.w * v.num_tiles.h
}

/// TLM entries for the first `n` tile-parts: the tile index, a zero
/// length.
pub open spec fn tlm_entries(n: nat, per_tile: int) -> Seq<u8>
    decreases n,
{
    if n == 0 {
        Seq::empty()
    } else {
        tlm_entries((n - 1) as nat, per_tile) + be2((n - 1) / per_tile) + be4(0)
    }
}

/// The TLM segment, when one is asked for.
pub open spec fn tlm_bytes(need: bool, tiles: int, per_tile: int) -> Seq<u8> {
    if need {
        segment(MARKER_TLM as int, seq![0u8, 0x60u8] + tlm_entries((tiles * per_tile) as nat, per_tile))
    } else {
        Seq::empty()
    }
}

/// The main header of the codestream `v` (its tile size and tile grid
/// already settled) with the comments `cs`.
pub open spec fn header_bytes(v: CodestreamView, cs: Seq<Seq<u8>>) -> Seq<u8> {
    let nd = v.cod.num_decomps as nat;
    be2(MARKER_SOC as int) + segment(MARKER_SIZ as int, siz_body(v.siz)) + segment(
        MARKER_CAP as int,
        cap_body(base_range(v), nd, v.qcd.num_guard_bits, v.cod.reversible),
    ) + segment(MARKER_COD as int, cod_body(v.cod, ct_applies(v))) + segment(
        MARKER_QCD as int,
        qcd_body(v.qcd.num_guard_bits, v.cod.reversible, base_range(v), nd),
    ) + com_bytes(cs) + tlm_bytes(v.need_tlm, tile_count(v), tileparts_per_tile(v))
}

/// The tile size written: the one set, or, when none is set (both zero),
/// the whole reference grid from the tile offset.
pub open spec fn settled_tile_size(s: ParamSiz) -> Size {
    if s.tile_size.w == 0 && s.tile_size.h == 0 {
        Size {
            w: (s.image_extent.x - s.tile_offset.x) as u32,
            h: (s.image_extent.y - s.tile_offset.y) as u32,
        }
    } else {
        s.tile_size
    }
}

/// The codestream with its tile size settled and its tile grid laid out,
/// as writing the headers leaves it.
pub open spec fn settled(v: CodestreamView) -> CodestreamView {
    let t = settled_tile_size(v.siz);
    CodestreamView {
        siz: ParamSiz { tile_size: t, ..v.siz },
        num_tiles: Size {
            w: spec_div_ceil(v.siz.image_extent.x - v.siz.tile_offset.x, t.w as int) as u32,
            h: spec_div_ceil(v.siz.image_extent.y - v.siz.tile_offset.y, t.h as int) as u32,
        },
        ..v
    }
}

/// The parameters can be written: a valid reference grid and tiling,
/// one to 16384 components of 1 to 38 bits subsampled by 1 to 255, at
/// most 32 decompositions, code-blocks of 4 to 1024 samples a side and at
/// most 4096 in all, precincts of at most 2^15 a side, exponents within
/// five bits, at most seven guard bits, comments short enough for a
/// segment, at most 65535 tiles and a TLM segment that fits.
pub open spec fn headers_ok(v: CodestreamView, cs: Seq<Seq<u8>>) -> bool {
    let s = v.siz;
    let t = settled_tile_size(s);
    let w = settled(v);
    &&& 1 <= s.comps@.len() <= 16384
    &&& s.image_offset.x < s.image_extent.x
    &&& s.image_offset.y < s.image_extent.y
    &&& s.tile_offset.x <= s.image_offset.x
    &&& s.tile_offset.y <= s.image_offset.y
    &&& t.w > 0
    &&& t.h > 0
    &&& s.tile_offset.x + t.w > s.image_offset.x
    &&& s.tile_offset.y + t.h > s.image_offset.y
    &&& forall|i: int|
        0 <= i < s.comps@.len() ==> {
            let c = #[trigger] s.comps@[i];
            &&& 1 <= c.bit_depth <= 38
            &&& 1 <= c.downsampling.x <= 255
            &&& 1 <= c.downsampling.y <= 255
        }
    &&& v.cod.num_decomps <= 32
    &&& 2 <= v.cod.log_block_dims.w <= 10
    &&& 2 <= v.cod.log_block_dims.h <= 10
    &&& v.cod.log_block_dims.w + v.cod.log_block_dims.h <= 12
    &&& forall|i: int|
        0 <= i < v.cod.log_precinct_sizes@.len() ==> #[trigger] v.cod.log_precinct_sizes@[i].w <= 15
            && v.cod.log_precinct_sizes@[i].h <= 15
    &&& base_range(v) + 2 <= 31
    &&& v.qcd.num_guard_bits <= 7
    &&& forall|i: int| 0 <= i < cs.len() ==> #[trigger] cs[i].len() <= 65531
    &&& tile_count(w) <= 65535
    &&& v.need_tlm ==> tile_count(w) * tileparts_per_tile(w) <= 10921
}

/// The byte strings of the comments.
pub open spec fn comment_seqs(cs: Seq<Vec<u8>>) -> Seq<Seq<u8>> {
    cs.map_values(|c: Vec<u8>| c@)
}

pub(crate) fn push_be16(out: &mut Vec<u8>, x: u16)
    ensures
        final(out)@ == old(out)@ + be2(x as int),
{
    let hi = (x >> 8u16) as u8;
    let lo = (x & 0xFFu16) as u8;
    assert(hi == ((x / 256) % 256) as u8 && lo == (x % 256) as u8) by (bit_vector)
        requires
            hi == (x >> 8u16) as u8,
            lo == (x & 0xFFu16) as u8,
    ;
    out.push(hi);
    out.push(lo);
    assert(final(out)@ =~= old(out)@ + be2(x as int));
}

pub(crate) fn push_be32(out: &mut Vec<u8>, x: u32)
    ensures
        final(out)@ == old(out)@ + be4(x as int),
{
    let hi = (x >> 16u32) as u16;
    let lo = (x & 0xFFFFu32) as u16;
    assert(hi == x / 65536 && lo == x % 65536) by (bit_vector)
        requires
            hi == (x >> 16u32) as u16,
            lo == (x & 0xFFFFu32) as u16,
    ;
    push_be16(out, hi);
    push_be16(out, lo);
    assert(final(out)@ =~= old(out)@ + be4(x as int));
}

/// Append `body` as a marker segment.
pub(crate) fn push_segment(out: &mut Vec<u8>, marker: u16, body: &[u8])
    requires
        body@.len() + 2 <= 0xFFFF,
    ensures
        final(out)@ == old(out)@ + segment(marker as int, body@),
{
    push_be16(out, marker);
    push_be16(out, (body.len() + 2) as u16);
    let ghost mid = out@;
    let mut i: usize = 0;
    while i < body.len()
        invariant
            i <= body@.len(),
            out@ == mid + body@.take(i as int),
        decreases body@.len() - i,
    {
        out.push(body[i]);
        i = i + 1;
        assert(out@ =~= mid + body@.take(i as int));
    }
    assert(body@.take(body@.len() as int) =~= body@);
    assert(final(out)@ =~= old(out)@ + segment(marker as int, body@));
}

/// The SIZ body of `s`.
pub(crate) fn siz_body_bytes(s: &ParamSiz) -> (v: Vec<u8>)
    requires
        s.comps@.len() <= 16384,
        forall|i: int| 0 <= i < s.comps@.len() ==> 1 <= (#[trigger] s.comps@[i]).bit_depth <= 38,
    ensures
        v@ == siz_body(*s),
{
    let mut v: Vec<u8> = Vec::new();
    push_be16(&mut v, 0x4000);
    push_be32(&mut v, s.image_extent.x);
    push_be32(&mut v, s.image_extent.y);
    push_be32(&mut v, s.image_offset.x);
    push_be32(&mut v, s.image_offset.y);
    push_be32(&mut v, s.tile_size.w);
    push_be32(&mut v, s.tile_size.h);
    push_be32(&mut v, s.tile_offset.x);
    push_be32(&mut v, s.tile_offset.y);
    push_be16(&mut v, s.comps.len() as u16);
    let ghost head = v@;
    let mut i: usize = 0;
    while i < s.comps.len()
        invariant
            i <= s.comps@.len() <= 16384,
            forall|k: int| 0 <= k < s.comps@.len() ==> 1 <= (#[trigger] s.comps@[k]).bit_depth <= 38,
            v@ == head + comps_bytes(s.comps@.take(i as int)),
        decreases s.comps@.len() - i,
    {
        let c = s.comps[i];
        let ss: u8 = ((c.bit_depth - 1) as u8) + if c.is_signed { 128u8 } else { 0u8 };
        v.push(ss);
        v.push(c.downsampling.x as u8);
        v.push(c.downsampling.y as u8);
        proof {
            let t = s.comps@.take(i + 1);
            assert(t.drop_last() =~= s.comps@.take(i as int));
            assert(t.last() == c);
        }
        i = i + 1;
        assert(v@ =~= head + comps_bytes(s.comps@.take(i as int)));
    }
    assert(s.comps@.take(s.comps@.len() as int) =~= s.comps@);
    assert(v@ =~= siz_body(*s));
    v
}

/// The largest bit depth of `cs`.
pub(crate) fn max_depth(cs: &[SizComp]) -> (m: u32)
    ensures
        m == max_bit_depth(cs@),
{
    let mut m: u32 = 0;
    let mut i: usize = 0;
    while i < cs.len()
        invariant
            i <= cs@.len(),
            m == max_bit_depth(cs@.take(i as int)),
        decreases cs@.len() - i,
    {
        assert(cs@.take(i + 1).drop_last() =~= cs@.take(i as int));
        if cs[i].bit_depth > m {
            m = cs[i].bit_depth;
        }
        i = i + 1;
    }
    assert(cs@.take(cs@.len() as int) =~= cs@);
    m
}

/// The COD body of `cod`, with the colour transform flag `ct`.
pub(crate) fn cod_body_bytes(cod: &ParamCod, ct: bool) -> (v: Vec<u8>)
    requires
        cod.num_decomps <= 32,
        2 <= cod.log_block_dims.w <= 10,
        2 <= cod.log_block_dims.h <= 10,
        forall|i: int|
            0 <= i < cod.log_precinct_sizes@.len() ==> #[trigger] cod.log_precinct_sizes@[i].w <= 15
                && cod.log_precinct_sizes@[i].h <= 15,
    ensures
        v@ == cod_body(*cod, ct),
{
    let user_pp = cod.log_precinct_sizes.len() > 0;
    let mut v: Vec<u8> = Vec::new();
    v.push(if user_pp { 1u8 } else { 0u8 });
    let code: u8 = match cod.progression_order {
        ProgressionOrder::LRCP => 0,
        ProgressionOrder::RLCP => 1,
        ProgressionOrder::RPCL => 2,
        ProgressionOrder::PCRL => 3,
        ProgressionOrder::CPRL => 4,
    };
    v.push(code);
    push_be16(&mut v, 1);
    v.push(if ct { 1u8 } else { 0u8 });
    v.push(cod.num_decomps);
    v.push((cod.log_block_dims.w - 2) as u8);
    v.push((cod.log_block_dims.h - 2) as u8);
    v.push(0x40u8);
    v.push(if cod.reversible { 1u8 } else { 0u8 });
    let ghost head = v@;
    assert(head =~= cod_body(*cod, ct).take(10));
    if user_pp {
        let n = cod.num_decomps as u32 + 1;
        let mut r: u32 = 0;
        while r < n
            invariant
                r <= n,
                n == cod.num_decomps + 1,
                forall|i: int|
                    0 <= i < cod.log_precinct_sizes@.len() ==> #[trigger] cod.log_precinct_sizes@[i].w
                        <= 15 && cod.log_precinct_sizes@[i].h <= 15,
                v@ == head + precinct_bytes(*cod, r as nat),
            decreases n - r,
        {
            let sz = cod.get_log_precinct_size(r);
            assert(sz.w <= 15 && sz.h <= 15);
            v.push((sz.h * 16 + sz.w) as u8);
            r = r + 1;
            assert(v@ =~= head + precinct_bytes(*cod, r as nat));
        }
    }
    assert(v@ =~= cod_body(*cod, ct));
    v
}

/// The QCD body.
pub(crate) fn qcd_body_bytes(guard: u8, reversible: bool, b: u32, num_decomps: u8) -> (v: Vec<u8>)
    requires
        guard <= 7,
        b + 2 <= 31,
        num_decomps <= 32,
    ensures
        v@ == qcd_body(guard, reversible, b as int, num_decomps as nat),
{
    let mut v: Vec<u8> = Vec::new();
    v.push(guard * 32 + if reversible { 0u8 } else { 2u8 });
    let ghost head = v@;
    let ghost es = band_exponents(b as int, num_decomps as nat);
    if reversible {
        v.push((b * 8) as u8);
    } else {
        push_be16(&mut v, (b * 2048) as u16);
    }
    assert(es.take(1).drop_last() =~= Seq::<int>::empty());
    assert(es.take(1).last() == b);
    assert(spqcd_bytes(es.take(1).drop_last(), reversible) =~= Seq::<u8>::empty());
    assert(v@ =~= head + spqcd_bytes(es.take(1), reversible));
    let mut d: u8 = 0;
    while d < num_decomps
        invariant
            d <= num_decomps <= 32,
            b + 2 <= 31,
            es == band_exponents(b as int, num_decomps as nat),
            v@ == head + spqcd_bytes(es.take(1 + 3 * d), reversible),
        decreases num_decomps - d,
    {
        proof {
            lemma_level_exponents(b as int, num_decomps as nat, d as nat);
        }
        let ghost k = 1 + 3 * d;
        if reversible {
            v.push(((b + 1) * 8) as u8);
            assert(es.take(k + 1).drop_last() =~= es.take(k));
            assert(v@ =~= head + spqcd_bytes(es.take(k + 1), reversible));
            v.push(((b + 1) * 8) as u8);
            assert(es.take(k + 2).drop_last() =~= es.take(k + 1));
            assert(v@ =~= head + spqcd_bytes(es.take(k + 2), reversible));
            v.push(((b + 2) * 8) as u8);
            assert(es.take(k + 3).drop_last() =~= es.take(k + 2));
            assert(v@ =~= head + spqcd_bytes(es.take(k + 3), reversible));
        } else {
            push_be16(&mut v, ((b + 1) * 2048) as u16);
            assert(es.take(k + 1).drop_last() =~= es.take(k));
            assert(v@ =~= head + spqcd_bytes(es.take(k + 1), reversible));
            push_be16(&mut v, ((b + 1) * 2048) as u16);
            assert(es.take(k + 2).drop_last() =~= es.take(k + 1));
            assert(v@ =~= head + spqcd_bytes(es.take(k + 2), reversible));
            push_be16(&mut v, ((b + 2) * 2048) as u16);
            assert(es.take(k + 3).drop_last() =~= es.take(k + 2));
            assert(v@ =~= head + spqcd_bytes(es.take(k + 3), reversible));
        }
        d = d + 1;
    }
    proof {
        lemma_level_exponents(b as int, num_decomps as nat, num_decomps as nat);
    }
    assert(es.take(1 + 3 * num_decomps) =~= es);
    assert(v@ =~= qcd_body(guard, reversible, b as int, num_decomps as nat));
    v
}

proof fn lemma_level_exponents(b: int, n: nat, d: nat)
    requires
        d <= n,
    ensures
        level_exponents(b, n).len() == 3 * n,
        band_exponents(b, n).len() == 1 + 3 * n,
        d < n ==> band_exponents(b, n)[1 + 3 * d as int] == b + 1 && band_exponents(b, n)[2 + 3 * d as int] == b + 1
            && band_exponents(b, n)[3 + 3 * d as int] == b + 2,
    decreases n,
{
    if n > 0 {
        if d < n {
            lemma_level_exponents(b, (n - 1) as nat, if d < n - 1 { d } else { 0 });
        } else {
            lemma_level_exponents(b, (n - 1) as nat, 0);
        }
    }
}

/// The CAP body.
pub(crate) fn cap_body_bytes(b: u32, num_decomps: u8, guard: u8, reversible: bool) -> (v: Vec<u8>)
    requires
        1 <= b <= 29,
        guard <= 7,
    ensures
        v@ == cap_body(b as int, num_decomps as nat, guard, reversible),
{
    let top: u32 = if num_decomps > 0 {
        b + 2
    } else {
        b
    };
    let m: u32 = top + guard as u32 - 1;
    let bp: u32 = if m <= 8 {
        0
    } else if m < 28 {
        m - 8
    } else if m < 48 {
        13 + m / 4
    } else {
        31
    };
    let mut v: Vec<u8> = Vec::new();
    push_be32(&mut v, 0x0002_0000);
    push_be16(&mut v, (bp + if reversible { 0u32 } else { 0x20u32 }) as u16);
    assert(v@ =~= cap_body(b as int, num_decomps as nat, guard, reversible));
    v
}

proof fn lemma_comps_bytes_len(cs: Seq<SizComp>)
    ensures
        comps_bytes(cs).len() == 3 * cs.len(),
    decreases cs.len(),
{
    if cs.len() > 0 {
        lemma_comps_bytes_len(cs.drop_last());
    }
}

proof fn lemma_precinct_bytes_len(cod: ParamCod, n: nat)
    ensures
        precinct_bytes(cod, n).len() == n,
    decreases n,
{
    if n > 0 {
        lemma_precinct_bytes_len(cod, (n - 1) as nat);
    }
}

proof fn lemma_spqcd_len(es: Seq<int>, reversible: bool)
    ensures
        spqcd_bytes(es, reversible).len() == (if reversible { 1int } else { 2int }) * es.len(),
    decreases es.len(),
{
    if es.len() > 0 {
        lemma_spqcd_len(es.drop_last(), reversible);
    }
}

/// The lengths of the SIZ, COD and QCD bodies.
#[verifier::rlimit(40)]
pub proof fn lemma_body_lens(s: ParamSiz, cod: ParamCod, ct: bool, guard: u8, b: int)
    requires
        cod.num_decomps <= 32,
    ensures
        siz_body(s).len() == 36 + 3 * s.comps@.len(),
        cod_body(cod, ct).len() <= 43,
        qcd_body(guard, cod.reversible, b, cod.num_decomps as nat).len() <= 1 + 2 * 97,
{
    lemma_comps_bytes_len(s.comps@);
    assert(siz_body(s).len() == 36 + comps_bytes(s.comps@).len());
    lemma_precinct_bytes_len(cod, (cod.num_decomps + 1) as nat);
    lemma_level_exponents(b, cod.num_decomps as nat, 0);
    lemma_spqcd_len(band_exponents(b, cod.num_decomps as nat), cod.reversible);
}

/// Append the COM segments of `comments`.
pub(crate) fn push_comments(out: &mut Vec<u8>, comments: &[Vec<u8>])
    requires
        forall|i: int| 0 <= i < comments@.len() ==> #[trigger] comments@[i]@.len() <= 65531,
    ensures
        final(out)@ == old(out)@ + com_bytes(comment_seqs(comments@)),
{
    let ghost head = out@;
    let mut i: usize = 0;
    while i < comments.len()
        invariant
            i <= comments@.len(),
            forall|k: int| 0 <= k < comments@.len() ==> #[trigger] comments@[k]@.len() <= 65531,
            out@ == head + com_bytes(comment_seqs(comments@).take(i as int)),
        decreases comments@.len() - i,
    {
        let c = &comments[i];
        let mut body: Vec<u8> = Vec::new();
        push_be16(&mut body, 1);
        let mut j: usize = 0;
        while j < c.len()
            invariant
                j <= c@.len(),
                body@ == be2(1) + c@.take(j as int),
            decreases c@.len() - j,
        {
            body.push(c[j]);
            j = j + 1;
            assert(body@ =~= be2(1) + c@.take(j as int));
        }
        assert(c@.take(c@.len() as int) =~= c@);
        push_segment(out, MARKER_COM, body.as_slice());
        proof {
            let cs = comment_seqs(comments@);
            assert(cs.take(i + 1).drop_last() =~= cs.take(i as int));
            assert(cs.take(i + 1).last() == c@);
        }
        i = i + 1;
        assert(out@ =~= head + com_bytes(comment_seqs(comments@).take(i as int)));
    }
    assert(comment_seqs(comments@).take(comments@.len() as int) =~= comment_seqs(comments@));
}

/// Append the TLM segment for `tiles` tiles of `per_tile` tile-parts.
pub(crate) fn push_tlm(out: &mut Vec<u8>, tiles: u32, per_tile: u32)
    requires
        per_tile >= 1,
        tiles <= 65535,
        tiles * per_tile <= 10921,
    ensures
        final(out)@ == old(out)@ + tlm_bytes(true, tiles as int, per_tile as int),
{
    let n = tiles * per_tile;
    let mut body: Vec<u8> = Vec::new();
    body.push(0);
    body.push(0x60);
    let ghost head = body@;
    let mut e: u32 = 0;
    while e < n
        invariant
            e <= n,
            n == tiles * per_tile,
            per_tile >= 1,
            tiles <= 65535,
            body@ == head + tlm_entries(e as nat, per_tile as int),
            body@.len() == 2 + 6 * e,
        decreases n - e,
    {
        assert(e / per_tile < tiles) by (nonlinear_arith)
            requires
                e < tiles * per_tile,
                per_tile >= 1,
        ;
        push_be16(&mut body, (e / per_tile) as u16);
        push_be32(&mut body, 0);
        e = e + 1;
        assert(body@ =~= head + tlm_entries(e as nat, per_tile as int));
    }
    push_segment(out, MARKER_TLM, body.as_slice());
}

/// The largest bit depth is at most 38 when every one is, and at least
/// 1 when there is a component and every bit depth is.
pub proof fn lemma_max_bit_depth(cs: Seq<SizComp>)
    ensures
        (forall|i: int| 0 <= i < cs.len() ==> (#[trigger] cs[i]).bit_depth <= 38) ==> max_bit_depth(cs)
            <= 38,
        cs.len() > 0 && (forall|i: int| 0 <= i < cs.len() ==> (#[trigger] cs[i]).bit_depth >= 1)
            ==> max_bit_depth(cs) >= 1,
        max_bit_depth(cs) >= 0,
    decreases cs.len(),
{
    if cs.len() > 0 {
        lemma_max_bit_depth(cs.drop_last());
        assert(forall|i: int| 0 <= i < cs.drop_last().len() ==> cs.drop_last()[i] == cs[i]);
        assert(cs.last() == cs[cs.len() - 1]);
    }
}

/// What emitting the header bytes of `v` needs: the limits of
/// `headers_ok`, with the tile size and grid already settled.
pub open spec fn emit_ready(v: CodestreamView, cs: Seq<Seq<u8>>) -> bool {
    &&& 1 <= v.siz.comps@.len() <= 16384
    &&& forall|i: int| 0 <= i < v.siz.comps@.len() ==> 1 <= (#[trigger] v.siz.comps@[i]).bit_depth <= 38
    &&& v.cod.num_decomps <= 32
    &&& 2 <= v.cod.log_block_dims.w <= 10
    &&& 2 <= v.cod.log_block_dims.h <= 10
    &&& forall|i: int|
        0 <= i < v.cod.log_precinct_sizes@.len() ==> #[trigger] v.cod.log_precinct_sizes@[i].w <= 15
            && v.cod.log_precinct_sizes@[i].h <= 15
    &&& base_range(v) + 2 <= 31
    &&& v.qcd.num_guard_bits <= 7
    &&& forall|i: int| 0 <= i < cs.len() ==> #[trigger] cs[i].len() <= 65531
    &&& tile_count(v) <= 65535
    &&& v.need_tlm ==> tile_count(v) * tileparts_per_tile(v) <= 10921
}

/// The body of the marker segment at `pos`.
pub open spec fn body_at(b: Seq<u8>, pos: int) -> Seq<u8> {
    b.subrange(pos + 4, pos + 2 + get16(b, pos + 2))
}

/// A SIZ body that can be read: its length matches its component count,
/// the tile size is not zero and the tile offset lies on the grid.
pub open spec fn siz_ok(body: Seq<u8>) -> bool {
    &&& body.len() >= 36
    &&& body.len() == 36 + 3 * get16(body, 34)
    &&& get32(body, 18) > 0
    &&& get32(body, 22) > 0
    &&& get32(body, 26) <= get32(body, 2)
    &&& get32(body, 30) <= get32(body, 6)
}

pub open spec fn body_extent(body: Seq<u8>) -> Point {
    Point { x: get32(body, 2) as u32, y: get32(body, 6) as u32 }
}

pub open spec fn body_offset(body: Seq<u8>) -> Point {
    Point { x: get32(body, 10) as u32, y: get32(body, 14) as u32 }
}

pub open spec fn body_tile_size(body: Seq<u8>) -> Size {
    Size { w: get32(body, 18) as u32, h: get32(body, 22) as u32 }
}

pub open spec fn body_tile_offset(body: Seq<u8>) -> Point {
    Point { x: get32(body, 26) as u32, y: get32(body, 30) as u32 }
}

/// The components a SIZ body describes.
pub open spec fn body_comps(body: Seq<u8>) -> Seq<SizComp> {
    Seq::new(
        get16(body, 34) as nat,
        |i: int|
            SizComp {
                downsampling: Point { x: body[37 + 3 * i] as u32, y: body[38 + 3 * i] as u32 },
                bit_depth: (body[36 + 3 * i] % 128 + 1) as u32,
                is_signed: body[36 + 3 * i] >= 128,
            },
    )
}

/// A COD body that can be read: a known progression order, at most 32
/// decompositions, and a length that matches its precinct flag.
pub open spec fn cod_ok(body: Seq<u8>) -> bool {
    &&& body.len() >= 10
    &&& body[1] <= 4
    &&& body[5] <= 32
    &&& body.len() == 10 + if body[0] % 2 == 1 {
        body[5] + 1
    } else {
        0
    }
}

/// The precinct sizes a COD body gives (none when its flag is clear).
pub open spec fn body_precincts(body: Seq<u8>) -> Seq<Size> {
    if body[0] % 2 == 1 {
        Seq::new(
            (body[5] + 1) as nat,
            |r: int| Size { w: (body[10 + r] % 16) as u32, h: (body[10 + r] / 16) as u32 },
        )
    } else {
        Seq::empty()
    }
}

/// Scanning marker segments from `pos`, having found the last SIZ, COD
/// and QCD segments at `siz`, `cod` and `qcd`: the scan ends at a SOT
/// marker or at the end of the bytes, where all three must have been
/// found; it yields their positions and where it ended.
pub open spec fn scan(b: Seq<u8>, pos: int, siz: Option<int>, cod: Option<int>, qcd: Option<int>) -> Result<
    (int, int, int, int),
    OjphError,
>
    decreases b.len() - pos,
{
    if pos < 0 || pos > b.len() {
        Err(OjphError::InvalidParam)
    } else if pos == b.len() || (pos + 2 <= b.len() && get16(b, pos) == MARKER_SOT) {
        match (siz, cod, qcd) {
            (Some(s), Some(c), Some(q)) => Ok((s, c, q, pos)),
            _ => Err(OjphError::InvalidParam),
        }
    } else if pos + 4 > b.len() {
        Err(OjphError::InvalidParam)
    } else {
        let m = get16(b, pos);
        let l = get16(b, pos + 2);
        if l < 2 || pos + 2 + l > b.len() {
            Err(OjphError::InvalidParam)
        } else {
            let body = body_at(b, pos);
            let next = pos + 2 + l;
            if m == MARKER_SIZ {
                if siz_ok(body) {
                    scan(b, next, Some(pos), cod, qcd)
                } else {
                    Err(OjphError::InvalidParam)
                }
            } else if m == MARKER_COD {
                if cod_ok(body) {
                    scan(b, next, siz, Some(pos), qcd)
                } else {
                    Err(OjphError::InvalidParam)
                }
            } else if m == MARKER_QCD {
                if body.len() >= 1 {
                    scan(b, next, siz, cod, Some(pos))
                } else {
                    Err(OjphError::InvalidParam)
                }
            } else {
                scan(b, next, siz, cod, qcd)
            }
        }
    }
}

/// Reading a main header: SOC, then marker segments up to SOT or the end.
pub open spec fn read_main_header(b: Seq<u8>) -> Result<(int, int, int, int), OjphError> {
    if b.len() < 2 || get16(b, 0) != MARKER_SOC {
        Err(OjphError::InvalidParam)
    } else {
        scan(b, 2, None, None, None)
    }
}

/// What reading the main header `b`, whose SIZ, COD and QCD segments are
/// at `s`, `c` and `q`, makes of the codestream `old`: the parameters
/// these segments give and the tile grid they lay out; all else stays.
pub open spec fn header_read(v: CodestreamView, old: CodestreamView, b: Seq<u8>, s: int, c: int, q: int) -> bool {
    let sb = body_at(b, s);
    let cb = body_at(b, c);
    let ts = body_tile_size(sb);
    &&& v.siz.image_extent == body_extent(sb)
    &&& v.siz.image_offset == body_offset(sb)
    &&& v.siz.tile_size == ts
    &&& v.siz.tile_offset == body_tile_offset(sb)
    &&& v.siz.comps@ == body_comps(sb)
    &&& v.cod.num_decomps == cb[5]
    &&& v.cod.log_block_dims == (Size { w: (cb[6] + 2) as u32, h: (cb[7] + 2) as u32 })
    &&& v.cod.log_precinct_sizes@ == body_precincts(cb)
    &&& v.cod.reversible == (cb[9] == 1)
    &&& v.cod.color_transform == (cb[4] == 1)
    &&& v.cod.progression_order == order_of_code(cb[1] as int)
    &&& v.qcd.num_guard_bits == body_at(b, q)[0] / 32
    &&& v.num_tiles == (Size {
        w: spec_div_ceil(v.siz.image_extent.x - v.siz.tile_offset.x, ts.w as int) as u32,
        h: spec_div_ceil(v.siz.image_extent.y - v.siz.tile_offset.y, ts.h as int) as u32,
    })
    &&& v.nlt == old.nlt
    &&& v.planar == old.planar
    &&& v.resilient == old.resilient
    &&& v.profile == old.profile
    &&& v.tilepart_divisions == old.tilepart_divisions
    &&& v.need_tlm == old.need_tlm
    &&& v.skipped_res_for_read == old.skipped_res_for_read
    &&& v.skipped_res_for_recon == old.skipped_res_for_recon
}

pub(crate) fn read16(b: &[u8], i: usize) -> (v: u32)
    requires
        i + 2 <= b@.len(),
    ensures
        v == get16(b@, i as int),
        v <= 0xFFFF,
{
    (b[i] as u32) * 256 + b[i + 1] as u32
}

pub(crate) fn read32(b: &[u8], i: usize) -> (v: u32)
    requires
        i + 4 <= b@.len(),
    ensures
        v == get32(b@, i as int),
{
    let _n = b.len();
    let hi = read16(b, i);
    let lo = read16(b, i + 2);
    assert(hi * 65536 + lo <= 0xFFFF_FFFF) by (nonlinear_arith)
        requires
            hi <= 0xFFFF,
            lo <= 0xFFFF,
    ;
    hi * 65536 + lo
}

/// Whether `b[s..e]` is a readable SIZ body.
pub(crate) fn siz_body_valid(b: &[u8], s: usize, e: usize) -> (ok: bool)
    requires
        s <= e <= b@.len(),
    ensures
        ok == siz_ok(b@.subrange(s as int, e as int)),
{
    let ghost body = b@.subrange(s as int, e as int);
    if e - s < 36 {
        return false;
    }
    let c = read16(b, s + 34) as usize;
    assert(c == get16(body, 34));
    if e - s != 36 + 3 * c {
        return false;
    }
    let tw = read32(b, s + 18);
    let th = read32(b, s + 22);
    let tx = read32(b, s + 26);
    let ty = read32(b, s + 30);
    let ex = read32(b, s + 2);
    let ey = read32(b, s + 6);
    assert(tw == get32(body, 18) && th == get32(body, 22) && tx == get32(body, 26) && ty == get32(body, 30)
        && ex == get32(body, 2) && ey == get32(body, 6));
    tw > 0 && th > 0 && tx <= ex && ty <= ey
}

/// The SIZ parameters of the readable SIZ body `b[s..e]`.
pub(crate) fn parse_siz_body(b: &[u8], s: usize, e: usize) -> (p: ParamSiz)
    requires
        s <= e <= b@.len(),
        siz_ok(b@.subrange(s as int, e as int)),
    ensures
        ({
            let body = b@.subrange(s as int, e as int);
            &&& p.image_extent == body_extent(body)
            &&& p.image_offset == body_offset(body)
            &&& p.tile_size == body_tile_size(body)
            &&& p.tile_offset == body_tile_offset(body)
            &&& p.comps@ == body_comps(body)
        }),
{
    let ghost body = b@.subrange(s as int, e as int);
    let ex = read32(b, s + 2);
    let ey = read32(b, s + 6);
    let ox = read32(b, s + 10);
    let oy = read32(b, s + 14);
    let tw = read32(b, s + 18);
    let th = read32(b, s + 22);
    let tx = read32(b, s + 26);
    let ty = read32(b, s + 30);
    let c = read16(b, s + 34) as usize;
    assert(ex == get32(body, 2) && ey == get32(body, 6) && ox == get32(body, 10) && oy == get32(body, 14));
    assert(tw == get32(body, 18) && th == get32(body, 22) && tx == get32(body, 26) && ty == get32(body, 30));
    assert(c == get16(body, 34));
    let mut comps: Vec<SizComp> = Vec::new();
    let mut i: usize = 0;
    while i < c
        invariant
            i <= c,
            c == get16(body, 34),
            body == b@.subrange(s as int, e as int),
            s <= e <= b@.len(),
            body.len() == 36 + 3 * c,
            comps@ == body_comps(body).take(i as int),
        decreases c - i,
    {
        let k = s + 36 + 3 * i;
        let ss = b[k];
        let comp = SizComp {
            downsampling: Point::new(b[k + 1] as u32, b[k + 2] as u32),
            bit_depth: (ss % 128 + 1) as u32,
            is_signed: ss >= 128,
        };
        assert(body[36 + 3 * i] == ss && body[37 + 3 * i] == b[k + 1] && body[38 + 3 * i] == b[k + 2]);
        comps.push(comp);
        i = i + 1;
        assert(comps@ =~= body_comps(body).take(i as int));
    }
    assert(body_comps(body).take(c as int) =~= body_comps(body));
    ParamSiz {
        image_extent: Point::new(ex, ey),
        image_offset: Point::new(ox, oy),
        tile_size: Size::new(tw, th),
        tile_offset: Point::new(tx, ty),
        comps,
    }
}

/// Whether `b[s..e]` is a readable COD body.
pub(crate) fn cod_body_valid(b: &[u8], s: usize, e: usize) -> (ok: bool)
    requires
        s <= e <= b@.len(),
    ensures
        ok == cod_ok(b@.subrange(s as int, e as int)),
{
    let ghost body = b@.subrange(s as int, e as int);
    if e - s < 10 {
        return false;
    }
    assert(body[0] == b[s as int] && body[1] == b[s + 1] && body[5] == b[s + 5]);
    let n = if b[s] % 2 == 1 {
        b[s + 5] as usize + 1
    } else {
        0
    };
    b[s + 1] <= 4 && b[s + 5] <= 32 && e - s == 10 + n
}

/// The coding style of the readable COD body `b[s..e]`.
pub(crate) fn parse_cod_body(b: &[u8], s: usize, e: usize) -> (p: ParamCod)
    requires
        s <= e <= b@.len(),
        cod_ok(b@.subrange(s as int, e as int)),
    ensures
        ({
            let cb = b@.subrange(s as int, e as int);
            &&& p.num_decomps == cb[5]
            &&& p.log_block_dims == (Size { w: (cb[6] + 2) as u32, h: (cb[7] + 2) as u32 })
            &&& p.log_precinct_sizes@ == body_precincts(cb)
            &&& p.reversible == (cb[9] == 1)
            &&& p.color_transform == (cb[4] == 1)
            &&& p.progression_order == order_of_code(cb[1] as int)
        }),
{
    let ghost cb = b@.subrange(s as int, e as int);
    assert(cb[0] == b[s as int] && cb[1] == b[s + 1] && cb[4] == b[s + 4] && cb[5] == b[s + 5]);
    assert(cb[6] == b[s + 6] && cb[7] == b[s + 7] && cb[9] == b[s + 9]);
    let order = if b[s + 1] == 0 {
        ProgressionOrder::LRCP
    } else if b[s + 1] == 1 {
        ProgressionOrder::RLCP
    } else if b[s + 1] == 2 {
        ProgressionOrder::RPCL
    } else if b[s + 1] == 3 {
        ProgressionOrder::PCRL
    } else {
        ProgressionOrder::CPRL
    };
    let mut pp: Vec<Size> = Vec::new();
    if b[s] % 2 == 1 {
        let n = b[s + 5] as usize + 1;
        let mut r: usize = 0;
        while r < n
            invariant
                r <= n,
                n == cb[5] + 1,
                cb == b@.subrange(s as int, e as int),
                s <= e <= b@.len(),
                cb.len() == 10 + n,
                cb[0] % 2 == 1,
                pp@ == body_precincts(cb).take(r as int),
            decreases n - r,
        {
            let x = b[s + 10 + r];
            assert(cb[10 + r] == x);
            pp.push(Size::new((x % 16) as u32, (x / 16) as u32));
            r = r + 1;
            assert(pp@ =~= body_precincts(cb).take(r as int));
        }
        assert(body_precincts(cb).take(n as int) =~= body_precincts(cb));
    } else {
        assert(pp@ =~= body_precincts(cb));
    }
    ParamCod {
        num_decomps: b[s + 5],
        log_block_dims: Size::new(b[s + 6] as u32 + 2, b[s + 7] as u32 + 2),
        log_precinct_sizes: pp,
        reversible: b[s + 9] == 1,
        color_transform: b[s + 4] == 1,
        progression_order: order,
    }
}

} // verus!
