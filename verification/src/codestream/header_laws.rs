//! The law that ties the main header writer and reader together: what
//! `write_headers` writes, `read_headers` reads back.

use vstd::prelude::*;
use crate::params::{OjphError, ParamCod, ParamSiz, ProgressionOrder, SizComp};
use crate::types::Size;
use super::CodestreamView;
use super::markers::{
    be2, be4, body_at, body_comps, body_extent, body_offset, body_precincts, body_tile_offset,
    body_tile_size, com_bytes, comps_bytes, cod_body, cod_ok, ct_applies, get16, get32, header_bytes,
    headers_ok, order_of_code, precinct_bytes, read_main_header, scan, segment, settled, siz_body, siz_ok,
    ssiz, MARKER_COD, MARKER_COM, MARKER_QCD, MARKER_SIZ, MARKER_SOT, MARKER_SOC, MARKER_CAP, MARKER_TLM,
    base_range, cap_body, qcd_body, tlm_bytes, tlm_entries, tile_count, tileparts_per_tile,
    lemma_body_lens, header_read, max_bit_depth, settled_tile_size,
};

verus! {

proof fn lemma_get16_at(b: Seq<u8>, i: int, x: int)
    requires
        0 <= i,
        i + 2 <= b.len(),
        0 <= x < 65536,
        b.subrange(i, i + 2) == be2(x),
    ensures
        get16(b, i) == x,
{
    assert(b[i] == b.subrange(i, i + 2)[0]);
    assert(b[i + 1] == b.subrange(i, i + 2)[1]);
    assert((x / 256) % 256 == x / 256);
    assert(x == (x / 256) * 256 + x % 256);
}

proof fn lemma_get32_at(b: Seq<u8>, i: int, x: int)
    requires
        0 <= i,
        i + 4 <= b.len(),
        0 <= x < 0x1_0000_0000,
        b.subrange(i, i + 4) == be4(x),
    ensures
        get32(b, i) == x,
{
    assert(b.subrange(i, i + 2) =~= b.subrange(i, i + 4).subrange(0, 2));
    assert(b.subrange(i + 2, i + 4) =~= b.subrange(i, i + 4).subrange(2, 4));
    assert(be4(x).subrange(0, 2) =~= be2(x / 65536));
    assert(be4(x).subrange(2, 4) =~= be2(x % 65536));
    lemma_get16_at(b, i, x / 65536);
    lemma_get16_at(b, i + 2, x % 65536);
    assert(x == (x / 65536) * 65536 + x % 65536);
}

/// A marker segment found in place reads as its marker, its length and
/// its body.
proof fn lemma_segment_at(b: Seq<u8>, pos: int, m: int, body: Seq<u8>)
    requires
        0 <= pos,
        pos + 4 + body.len() <= b.len(),
        0 <= m < 65536,
        body.len() + 2 < 65536,
        b.subrange(pos, pos + 4 + body.len()) == segment(m, body),
    ensures
        get16(b, pos) == m,
        get16(b, pos + 2) == body.len() + 2,
        body_at(b, pos) == body,
{
    let seg = segment(m, body);
    assert(b.subrange(pos, pos + 2) =~= seg.subrange(0, 2));
    assert(seg.subrange(0, 2) =~= be2(m));
    lemma_get16_at(b, pos, m);
    assert(b.subrange(pos + 2, pos + 4) =~= seg.subrange(2, 4));
    assert(seg.subrange(2, 4) =~= be2(body.len() + 2int));
    lemma_get16_at(b, pos + 2, body.len() + 2int);
    assert(body_at(b, pos) =~= seg.subrange(4, 4 + body.len() as int));
    assert(seg.subrange(4, 4 + body.len() as int) =~= body);
}

/// Scanning steps over a marker segment found in place.
proof fn lemma_scan_step(
    b: Seq<u8>,
    pos: int,
    m: int,
    body: Seq<u8>,
    siz: Option<int>,
    cod: Option<int>,
    qcd: Option<int>,
)
    requires
        0 <= pos,
        pos + 4 + body.len() <= b.len(),
        0 <= m < 65536,
        body.len() + 2 < 65536,
        b.subrange(pos, pos + 4 + body.len()) == segment(m, body),
        m != MARKER_SOT,
        m == MARKER_SIZ ==> siz_ok(body),
        m == MARKER_COD ==> cod_ok(body),
        m == MARKER_QCD ==> body.len() >= 1,
    ensures
        scan(b, pos, siz, cod, qcd) == scan(
            b,
            pos + 4 + body.len(),
            if m == MARKER_SIZ {
                Some(pos)
            } else {
                siz
            },
            if m == MARKER_COD {
                Some(pos)
            } else {
                cod
            },
            if m == MARKER_QCD {
                Some(pos)
            } else {
                qcd
            },
        ),
{
    lemma_segment_at(b, pos, m, body);
}

/// Scanning steps over the COM segments of `cs` found in place.
proof fn lemma_scan_coms(
    b: Seq<u8>,
    pos: int,
    cs: Seq<Seq<u8>>,
    siz: Option<int>,
    cod: Option<int>,
    qcd: Option<int>,
)
    requires
        0 <= pos,
        pos + com_bytes(cs).len() <= b.len(),
        b.subrange(pos, pos + com_bytes(cs).len()) == com_bytes(cs),
        forall|i: int| 0 <= i < cs.len() ==> #[trigger] cs[i].len() <= 65531,
    ensures
        scan(b, pos, siz, cod, qcd) == scan(b, pos + com_bytes(cs).len(), siz, cod, qcd),
    decreases cs.len(),
{
    if cs.len() > 0 {
        let init = cs.drop_last();
        let head = com_bytes(init);
        let body = be2(1) + cs.last();
        let seg = segment(MARKER_COM as int, body);
        assert(com_bytes(cs) == head + seg);
        assert(b.subrange(pos, pos + head.len()) =~= com_bytes(cs).subrange(0, head.len() as int));
        assert(com_bytes(cs).subrange(0, head.len() as int) =~= head);
        assert forall|i: int| 0 <= i < init.len() implies #[trigger] init[i].len() <= 65531 by {
            assert(init[i] == cs[i]);
        }
        lemma_scan_coms(b, pos, init, siz, cod, qcd);
        let p2 = pos + head.len();
        assert(cs.last() == cs[cs.len() - 1]);
        assert(b.subrange(p2, p2 + 4 + body.len()) =~= com_bytes(cs).subrange(
            head.len() as int,
            com_bytes(cs).len() as int,
        ));
        assert(com_bytes(cs).subrange(head.len() as int, com_bytes(cs).len() as int) =~= seg);
        lemma_scan_step(b, p2, MARKER_COM as int, body, siz, cod, qcd);
    }
}

proof fn lemma_comps_bytes_at(cs: Seq<SizComp>, i: int)
    requires
        0 <= i < cs.len(),
    ensures
        comps_bytes(cs).len() == 3 * cs.len(),
        comps_bytes(cs)[3 * i] == ssiz(cs[i]) as u8,
        comps_bytes(cs)[3 * i + 1] == cs[i].downsampling.x as u8,
        comps_bytes(cs)[3 * i + 2] == cs[i].downsampling.y as u8,
    decreases cs.len(),
{
    lemma_comps_len(cs);
    lemma_comps_len(cs.drop_last());
    if i < cs.len() - 1 {
        lemma_comps_bytes_at(cs.drop_last(), i);
        assert(cs.drop_last()[i] == cs[i]);
    }
}

proof fn lemma_comps_len(cs: Seq<SizComp>)
    ensures
        comps_bytes(cs).len() == 3 * cs.len(),
    decreases cs.len(),
{
    if cs.len() > 0 {
        lemma_comps_len(cs.drop_last());
    }
}

proof fn lemma_precinct_at(cod: ParamCod, n: nat, r: int)
    requires
        0 <= r < n,
    ensures
        precinct_bytes(cod, n).len() == n,
        precinct_bytes(cod, n)[r] == (cod.spec_log_precinct_size(r).h * 16
            + cod.spec_log_precinct_size(r).w) as u8,
    decreases n,
{
    lemma_precinct_len(cod, n);
    if r < n - 1 {
        lemma_precinct_at(cod, (n - 1) as nat, r);
    }
}

proof fn lemma_precinct_len(cod: ParamCod, n: nat)
    ensures
        precinct_bytes(cod, n).len() == n,
    decreases n,
{
    if n > 0 {
        lemma_precinct_len(cod, (n - 1) as nat);
    }
}

/// The SIZ body written for `s` reads back as `s`.
#[verifier::spinoff_prover]
#[verifier::rlimit(100)]
proof fn lemma_siz_read_back(s: ParamSiz)
    requires
        1 <= s.comps@.len() <= 16384,
        s.tile_size.w > 0,
        s.tile_size.h > 0,
        s.tile_offset.x <= s.image_extent.x,
        s.tile_offset.y <= s.image_extent.y,
        forall|i: int|
            0 <= i < s.comps@.len() ==> {
                let c = #[trigger] s.comps@[i];
                &&& 1 <= c.bit_depth <= 38
                &&& 1 <= c.downsampling.x <= 255
                &&& 1 <= c.downsampling.y <= 255
            },
    ensures
        siz_body(s).len() == 36 + 3 * s.comps@.len(),
        siz_ok(siz_body(s)),
        body_extent(siz_body(s)) == s.image_extent,
        body_offset(siz_body(s)) == s.image_offset,
        body_tile_size(siz_body(s)) == s.tile_size,
        body_tile_offset(siz_body(s)) == s.tile_offset,
        body_comps(siz_body(s)) == s.comps@,
{
    let sb = siz_body(s);
    let cs = s.comps@;
    lemma_comps_len(cs);
    assert(sb.subrange(0, 2) =~= be2(0x4000));
    assert(sb.subrange(2, 6) =~= be4(s.image_extent.x as int));
    assert(sb.subrange(6, 10) =~= be4(s.image_extent.y as int));
    assert(sb.subrange(10, 14) =~= be4(s.image_offset.x as int));
    assert(sb.subrange(14, 18) =~= be4(s.image_offset.y as int));
    assert(sb.subrange(18, 22) =~= be4(s.tile_size.w as int));
    assert(sb.subrange(22, 26) =~= be4(s.tile_size.h as int));
    assert(sb.subrange(26, 30) =~= be4(s.tile_offset.x as int));
    assert(sb.subrange(30, 34) =~= be4(s.tile_offset.y as int));
    assert(sb.subrange(34, 36) =~= be2(cs.len() as int));
    lemma_get32_at(sb, 2, s.image_extent.x as int);
    lemma_get32_at(sb, 6, s.image_extent.y as int);
    lemma_get32_at(sb, 10, s.image_offset.x as int);
    lemma_get32_at(sb, 14, s.image_offset.y as int);
    lemma_get32_at(sb, 18, s.tile_size.w as int);
    lemma_get32_at(sb, 22, s.tile_size.h as int);
    lemma_get32_at(sb, 26, s.tile_offset.x as int);
    lemma_get32_at(sb, 30, s.tile_offset.y as int);
    lemma_get16_at(sb, 34, cs.len() as int);
    assert forall|i: int| 0 <= i < cs.len() implies #[trigger] body_comps(sb)[i] == cs[i] by {
        lemma_comps_bytes_at(cs, i);
        assert(sb[36 + 3 * i] == comps_bytes(cs)[3 * i]);
        assert(sb[37 + 3 * i] == comps_bytes(cs)[3 * i + 1]);
        assert(sb[38 + 3 * i] == comps_bytes(cs)[3 * i + 2]);
        let c = cs[i];
        assert(1 <= c.bit_depth <= 38);
    }
    assert(body_comps(sb) =~= cs);
}

/// The COD body written for `cod` reads back as `cod`, its colour
/// transform as `ct`, and its precinct sizes as those of each resolution.
proof fn lemma_cod_read_back(cod: ParamCod, ct: bool)
    requires
        cod.num_decomps <= 32,
        2 <= cod.log_block_dims.w <= 10,
        2 <= cod.log_block_dims.h <= 10,
        forall|i: int|
            0 <= i < cod.log_precinct_sizes@.len() ==> #[trigger] cod.log_precinct_sizes@[i].w <= 15
                && cod.log_precinct_sizes@[i].h <= 15,
    ensures
        cod_body(cod, ct).len() <= 43,
        cod_ok(cod_body(cod, ct)),
        cod_body(cod, ct)[5] == cod.num_decomps,
        cod_body(cod, ct)[6] + 2 == cod.log_block_dims.w,
        cod_body(cod, ct)[7] + 2 == cod.log_block_dims.h,
        (cod_body(cod, ct)[9] == 1) == cod.reversible,
        (cod_body(cod, ct)[4] == 1) == ct,
        order_of_code(cod_body(cod, ct)[1] as int) == cod.progression_order,
        body_precincts(cod_body(cod, ct)).len() == if cod.log_precinct_sizes@.len() > 0 {
            cod.num_decomps + 1
        } else {
            0
        },
        forall|r: int|
            0 <= r < body_precincts(cod_body(cod, ct)).len() ==> #[trigger] body_precincts(
                cod_body(cod, ct),
            )[r] == cod.spec_log_precinct_size(r),
{
    let cb = cod_body(cod, ct);
    let n = (cod.num_decomps + 1) as nat;
    lemma_precinct_len(cod, n);
    if cod.log_precinct_sizes@.len() > 0 {
        assert forall|r: int| 0 <= r < body_precincts(cb).len() implies #[trigger] body_precincts(cb)[r]
            == cod.spec_log_precinct_size(r) by {
            lemma_precinct_at(cod, n, r);
            let sz = cod.spec_log_precinct_size(r);
            assert(sz.w <= 15 && sz.h <= 15);
            assert(cb[10 + r] == precinct_bytes(cod, n)[r]);
            let x = (sz.h * 16 + sz.w) as u8;
            assert(x as int == sz.h * 16 + sz.w);
            assert(x % 16 == sz.w && x / 16 == sz.h);
        }
    }
}

/// Law: what `write_headers` writes for parameters it accepts,
/// `read_headers` reads back: the reference grid, the settled tiling
/// and every component; the decompositions, code-block size, wavelet,
/// progression order and precinct sizes; the colour transform where it
/// applies; and the guard bits.  The reading ends at the end of the
/// header.
#[verifier::spinoff_prover]
#[verifier::rlimit(100)]
pub proof fn law_header_read_back(v: CodestreamView, cs: Seq<Seq<u8>>)
    requires
        headers_ok(v, cs),
    ensures
        ({
            let w = settled(v);
            let b = header_bytes(w, cs);
            &&& read_main_header(b) matches Ok((s, c, q, end)) && {
                let sb = body_at(b, s);
                let cb = body_at(b, c);
                &&& end == b.len()
                &&& body_extent(sb) == w.siz.image_extent
                &&& body_offset(sb) == w.siz.image_offset
                &&& body_tile_size(sb) == w.siz.tile_size
                &&& body_tile_offset(sb) == w.siz.tile_offset
                &&& body_comps(sb) == w.siz.comps@
                &&& cb[5] == w.cod.num_decomps
                &&& (Size { w: (cb[6] + 2) as u32, h: (cb[7] + 2) as u32 }) == w.cod.log_block_dims
                &&& (cb[9] == 1) == w.cod.reversible
                &&& (cb[4] == 1) == ct_applies(w)
                &&& order_of_code(cb[1] as int) == w.cod.progression_order
                &&& (body_precincts(cb).len() == 0) == (w.cod.log_precinct_sizes@.len() == 0)
                &&& forall|r: int|
                    0 <= r < body_precincts(cb).len() ==> #[trigger] body_precincts(cb)[r]
                        == w.cod.spec_log_precinct_size(r)
                &&& body_at(b, q)[0] / 32 == w.qcd.num_guard_bits
            }
        }),
{
    let w = settled(v);
    let nd = w.cod.num_decomps as nat;
    let ct = ct_applies(w);
    let bb = base_range(w);
    let guard = w.qcd.num_guard_bits;
    let rev = w.cod.reversible;
    let sbody = siz_body(w.siz);
    let capb = cap_body(bb, nd, guard, rev);
    let cbody = cod_body(w.cod, ct);
    let qbody = qcd_body(guard, rev, bb, nd);
    let tl = tlm_bytes(w.need_tlm, tile_count(w), tileparts_per_tile(w));
    let n = (tile_count(w) * tileparts_per_tile(w)) as nat;
    let tbody = seq![0u8, 0x60u8] + tlm_entries(n, tileparts_per_tile(w));
    lemma_ok_facts(v, cs);
    lemma_siz_read_back(w.siz);
    lemma_cod_read_back(w.cod, ct);
    lemma_parts_qcd(w);
    lemma_body_lens(w.siz, w.cod, ct, guard, bb);
    lemma_layout(sbody, capb, cbody, qbody, cs, tl, tbody, w.need_tlm);
    assert(header_bytes(w, cs) == be2(MARKER_SOC as int) + segment(MARKER_SIZ as int, sbody) + segment(
        MARKER_CAP as int,
        capb,
    ) + segment(MARKER_COD as int, cbody) + segment(MARKER_QCD as int, qbody) + com_bytes(cs) + tl);
}

/// What the QCD body and the TLM entries written come to.
#[verifier::spinoff_prover]
#[verifier::rlimit(40)]
proof fn lemma_parts_qcd(w: CodestreamView)
    requires
        w.cod.num_decomps <= 32,
        w.qcd.num_guard_bits <= 7,
        w.need_tlm ==> tile_count(w) * tileparts_per_tile(w) <= 10921,
        tile_count(w) * tileparts_per_tile(w) >= 0,
    ensures
        ({
            let nd = w.cod.num_decomps as nat;
            let guard = w.qcd.num_guard_bits;
            let rev = w.cod.reversible;
            let bb = base_range(w);
            let qbody = qcd_body(guard, rev, bb, nd);
            let n = (tile_count(w) * tileparts_per_tile(w)) as nat;
            let tbody = seq![0u8, 0x60u8] + tlm_entries(n, tileparts_per_tile(w));
            &&& 1 <= qbody.len() <= 195
            &&& qbody[0] / 32 == guard
            &&& cap_body(bb, nd, guard, rev).len() == 6
            &&& w.need_tlm ==> tbody.len() + 2 < 65536
        }),
{
    let nd = w.cod.num_decomps as nat;
    let guard = w.qcd.num_guard_bits;
    let rev = w.cod.reversible;
    let bb = base_range(w);
    let n = (tile_count(w) * tileparts_per_tile(w)) as nat;
    lemma_tlm_len(n, tileparts_per_tile(w));
    lemma_body_lens(w.siz, w.cod, true, guard, bb);
    let qbody = qcd_body(guard, rev, bb, nd);
    assert(qbody[0] == ((guard * 32 + if rev { 0int } else { 2int }) as u8));
}

/// The plain facts that accepted parameters give of the settled ones.
#[verifier::spinoff_prover]
proof fn lemma_ok_facts(v: CodestreamView, cs: Seq<Seq<u8>>)
    requires
        headers_ok(v, cs),
    ensures
        ({
            let w = settled(v);
            &&& w.siz.comps@ == v.siz.comps@
            &&& w.cod == v.cod
            &&& w.qcd == v.qcd
            &&& w.need_tlm == v.need_tlm
            &&& 1 <= w.siz.comps@.len() <= 16384
            &&& w.siz.tile_size.w > 0
            &&& w.siz.tile_size.h > 0
            &&& w.siz.tile_offset.x <= w.siz.image_extent.x
            &&& w.siz.tile_offset.y <= w.siz.image_extent.y
            &&& forall|i: int|
                0 <= i < w.siz.comps@.len() ==> {
                    let c = #[trigger] w.siz.comps@[i];
                    &&& 1 <= c.bit_depth <= 38
                    &&& 1 <= c.downsampling.x <= 255
                    &&& 1 <= c.downsampling.y <= 255
                }
            &&& w.cod.num_decomps <= 32
            &&& 2 <= w.cod.log_block_dims.w <= 10
            &&& 2 <= w.cod.log_block_dims.h <= 10
            &&& forall|i: int|
                0 <= i < w.cod.log_precinct_sizes@.len() ==> #[trigger] w.cod.log_precinct_sizes@[i].w <= 15
                    && w.cod.log_precinct_sizes@[i].h <= 15
            &&& w.qcd.num_guard_bits <= 7
            &&& forall|i: int| 0 <= i < cs.len() ==> #[trigger] cs[i].len() <= 65531
            &&& w.need_tlm ==> tile_count(w) * tileparts_per_tile(w) <= 10921
            &&& tile_count(w) * tileparts_per_tile(w) >= 0
        }),
{
    let w = settled(v);
    assert(w.siz.comps@ == v.siz.comps@);
    assert(tile_count(w) >= 0) by (nonlinear_arith)
        requires
            tile_count(w) == w.num_tiles.w * w.num_tiles.h,
            w.num_tiles.w >= 0,
            w.num_tiles.h >= 0,
    ;
    assert(tileparts_per_tile(w) >= 1) by (nonlinear_arith)
        requires
            tileparts_per_tile(w) == (if (w.tilepart_divisions / 2) % 2 == 1 {
                w.siz.comps@.len() as int
            } else {
                1int
            }) * (if w.tilepart_divisions % 2 == 1 {
                w.cod.num_decomps + 1
            } else {
                1int
            }),
            w.siz.comps@.len() >= 1,
    ;
    assert(tile_count(w) * tileparts_per_tile(w) >= 0) by (nonlinear_arith)
        requires
            tile_count(w) >= 0,
            tileparts_per_tile(w) >= 1,
    ;
}

/// Where the pieces of a main header lie, and how it is scanned.
proof fn lemma_layout(
    sbody: Seq<u8>,
    capb: Seq<u8>,
    cbody: Seq<u8>,
    qbody: Seq<u8>,
    cs: Seq<Seq<u8>>,
    tl: Seq<u8>,
    tbody: Seq<u8>,
    has_tlm: bool,
)
    requires
        sbody.len() + 2 < 65536,
        siz_ok(sbody),
        capb.len() == 6,
        cbody.len() <= 43,
        cod_ok(cbody),
        1 <= qbody.len() <= 195,
        forall|i: int| 0 <= i < cs.len() ==> #[trigger] cs[i].len() <= 65531,
        has_tlm ==> tbody.len() + 2 < 65536,
        tl == (if has_tlm {
            segment(MARKER_TLM as int, tbody)
        } else {
            Seq::<u8>::empty()
        }),
    ensures
        ({
            let p1: int = 2 + 4 + sbody.len() as int;
            let p2: int = p1 + 4 + capb.len();
            let p3: int = p2 + 4 + cbody.len();
            let b = be2(MARKER_SOC as int) + segment(MARKER_SIZ as int, sbody) + segment(
                MARKER_CAP as int,
                capb,
            ) + segment(MARKER_COD as int, cbody) + segment(MARKER_QCD as int, qbody) + com_bytes(cs) + tl;
            &&& read_main_header(b) == Ok::<(int, int, int, int), OjphError>((2, p2, p3, b.len() as int))
            &&& body_at(b, 2) == sbody
            &&& body_at(b, p2) == cbody
            &&& body_at(b, p3) == qbody
        }),
{
    let p0 = be2(MARKER_SOC as int);
    let p1 = p0 + segment(MARKER_SIZ as int, sbody);
    let p2 = p1 + segment(MARKER_CAP as int, capb);
    let p3 = p2 + segment(MARKER_COD as int, cbody);
    let p4 = p3 + segment(MARKER_QCD as int, qbody);
    let p5 = p4 + com_bytes(cs);
    let b = p5 + tl;
    lemma_placement(p0, p1, p2, p3, p4, p5, b, sbody, capb, cbody, qbody, cs, tl);
    lemma_scanning(b, p1.len() as int, p2.len() as int, p3.len() as int, p4.len() as int, p5.len() as int,
        sbody, capb, cbody, qbody, cs, tl, tbody, has_tlm);
}

#[verifier::spinoff_prover]
proof fn lemma_placement(
    p0: Seq<u8>,
    p1: Seq<u8>,
    p2: Seq<u8>,
    p3: Seq<u8>,
    p4: Seq<u8>,
    p5: Seq<u8>,
    b: Seq<u8>,
    sbody: Seq<u8>,
    capb: Seq<u8>,
    cbody: Seq<u8>,
    qbody: Seq<u8>,
    cs: Seq<Seq<u8>>,
    tl: Seq<u8>,
)
    requires
        p0 == be2(MARKER_SOC as int),
        p1 == p0 + segment(MARKER_SIZ as int, sbody),
        p2 == p1 + segment(MARKER_CAP as int, capb),
        p3 == p2 + segment(MARKER_COD as int, cbody),
        p4 == p3 + segment(MARKER_QCD as int, qbody),
        p5 == p4 + com_bytes(cs),
        b == p5 + tl,
    ensures
        b.subrange(0, 2) == be2(MARKER_SOC as int),
        b.subrange(2, p1.len() as int) == segment(MARKER_SIZ as int, sbody),
        b.subrange(p1.len() as int, p2.len() as int) == segment(MARKER_CAP as int, capb),
        b.subrange(p2.len() as int, p3.len() as int) == segment(MARKER_COD as int, cbody),
        b.subrange(p3.len() as int, p4.len() as int) == segment(MARKER_QCD as int, qbody),
        b.subrange(p4.len() as int, p5.len() as int) == com_bytes(cs),
        b.subrange(p5.len() as int, b.len() as int) == tl,
        p1.len() == 6 + sbody.len(),
        p2.len() == p1.len() + 4 + capb.len(),
        p3.len() == p2.len() + 4 + cbody.len(),
        p4.len() == p3.len() + 4 + qbody.len(),
        p5.len() == p4.len() + com_bytes(cs).len(),
        b.len() == p5.len() + tl.len(),
{
    lemma_prefix(p5, tl);
    lemma_prefix(p4, com_bytes(cs));
    lemma_sub_of_prefix(b, p5, 0, p4.len() as int);
    lemma_prefix(p3, segment(MARKER_QCD as int, qbody));
    lemma_sub_of_prefix(b, p4, 0, p3.len() as int);
    lemma_prefix(p2, segment(MARKER_COD as int, cbody));
    lemma_sub_of_prefix(b, p3, 0, p2.len() as int);
    lemma_prefix(p1, segment(MARKER_CAP as int, capb));
    lemma_sub_of_prefix(b, p2, 0, p1.len() as int);
    lemma_prefix(p0, segment(MARKER_SIZ as int, sbody));
    lemma_sub_of_prefix(b, p1, 0, p0.len() as int);
    lemma_sub_of_prefix(b, p1, 2, p1.len() as int);
    lemma_last_sub(p0, segment(MARKER_SIZ as int, sbody));
    lemma_sub_of_prefix(b, p2, p1.len() as int, p2.len() as int);
    lemma_last_sub(p1, segment(MARKER_CAP as int, capb));
    lemma_sub_of_prefix(b, p3, p2.len() as int, p3.len() as int);
    lemma_last_sub(p2, segment(MARKER_COD as int, cbody));
    lemma_sub_of_prefix(b, p4, p3.len() as int, p4.len() as int);
    lemma_last_sub(p3, segment(MARKER_QCD as int, qbody));
    lemma_sub_of_prefix(b, p5, p4.len() as int, p5.len() as int);
    lemma_last_sub(p4, com_bytes(cs));
    lemma_last_sub(p5, tl);
    assert(p0.subrange(0, 2) =~= p0);
}

#[verifier::spinoff_prover]
proof fn lemma_scanning(
    b: Seq<u8>,
    q1: int,
    q2: int,
    q3: int,
    q4: int,
    q5: int,
    sbody: Seq<u8>,
    capb: Seq<u8>,
    cbody: Seq<u8>,
    qbody: Seq<u8>,
    cs: Seq<Seq<u8>>,
    tl: Seq<u8>,
    tbody: Seq<u8>,
    has_tlm: bool,
)
    requires
        sbody.len() + 2 < 65536,
        siz_ok(sbody),
        capb.len() == 6,
        cbody.len() <= 43,
        cod_ok(cbody),
        1 <= qbody.len() <= 195,
        forall|i: int| 0 <= i < cs.len() ==> #[trigger] cs[i].len() <= 65531,
        has_tlm ==> tbody.len() + 2 < 65536,
        tl == (if has_tlm {
            segment(MARKER_TLM as int, tbody)
        } else {
            Seq::<u8>::empty()
        }),
        b.subrange(0, 2) == be2(MARKER_SOC as int),
        b.subrange(2, q1) == segment(MARKER_SIZ as int, sbody),
        b.subrange(q1, q2) == segment(MARKER_CAP as int, capb),
        b.subrange(q2, q3) == segment(MARKER_COD as int, cbody),
        b.subrange(q3, q4) == segment(MARKER_QCD as int, qbody),
        b.subrange(q4, q5) == com_bytes(cs),
        b.subrange(q5, b.len() as int) == tl,
        q1 == 6 + sbody.len(),
        q2 == q1 + 4 + capb.len(),
        q3 == q2 + 4 + cbody.len(),
        q4 == q3 + 4 + qbody.len(),
        q5 == q4 + com_bytes(cs).len(),
        b.len() == q5 + tl.len(),
    ensures
        read_main_header(b) == Ok::<(int, int, int, int), OjphError>((2, q2, q3, b.len() as int)),
        body_at(b, 2) == sbody,
        body_at(b, q2) == cbody,
        body_at(b, q3) == qbody,
{
    lemma_get16_at(b, 0, MARKER_SOC as int);
    lemma_scan_step(b, 2, MARKER_SIZ as int, sbody, None, None, None);
    lemma_segment_at(b, 2, MARKER_SIZ as int, sbody);
    lemma_scan_step(b, q1, MARKER_CAP as int, capb, Some(2), None, None);
    lemma_scan_step(b, q2, MARKER_COD as int, cbody, Some(2), None, None);
    lemma_segment_at(b, q2, MARKER_COD as int, cbody);
    lemma_scan_step(b, q3, MARKER_QCD as int, qbody, Some(2), Some(q2), None);
    lemma_segment_at(b, q3, MARKER_QCD as int, qbody);
    lemma_scan_coms(b, q4, cs, Some(2), Some(q2), Some(q3));
    if has_tlm {
        lemma_scan_step(b, q5, MARKER_TLM as int, tbody, Some(2), Some(q2), Some(q3));
    }
}

proof fn lemma_tlm_len(n: nat, per: int)
    ensures
        tlm_entries(n, per).len() == 6 * n,
    decreases n,
{
    if n > 0 {
        lemma_tlm_len((n - 1) as nat, per);
    }
}

proof fn lemma_prefix(t: Seq<u8>, u: Seq<u8>)
    ensures
        (t + u).subrange(0, t.len() as int) == t,
{
    assert((t + u).subrange(0, t.len() as int) =~= t);
}

proof fn lemma_sub_of_prefix(b: Seq<u8>, p: Seq<u8>, i: int, j: int)
    requires
        p.len() <= b.len(),
        b.subrange(0, p.len() as int) == p,
        0 <= i <= j <= p.len(),
    ensures
        b.subrange(i, j) == p.subrange(i, j),
{
    assert(b.subrange(i, j) =~= p.subrange(i, j)) by {
        assert forall|k: int| 0 <= k < j - i implies b.subrange(i, j)[k] == p.subrange(i, j)[k] by {
            assert(b.subrange(0, p.len() as int)[i + k] == b[i + k]);
        }
    }
}

proof fn lemma_last_sub(t: Seq<u8>, x: Seq<u8>)
    ensures
        (t + x).subrange(t.len() as int, (t.len() + x.len()) as int) == x,
{
    assert((t + x).subrange(t.len() as int, (t.len() + x.len()) as int) =~= x);
}

/// Law: the progression-order byte that a COD segment is written with
/// (SGcod, right after Scod) is the order's code in JPEG 2000: 0 for LRCP,
/// 1 for RLCP, 2 for RPCL, 3 for PCRL and 4 for CPRL.
pub proof fn law_cod_progression_code_written(cod: ParamCod, ct: bool)
    ensures
        cod.progression_order == ProgressionOrder::LRCP ==> cod_body(cod, ct)[1] == 0,
        cod.progression_order == ProgressionOrder::RLCP ==> cod_body(cod, ct)[1] == 1,
        cod.progression_order == ProgressionOrder::RPCL ==> cod_body(cod, ct)[1] == 2,
        cod.progression_order == ProgressionOrder::PCRL ==> cod_body(cod, ct)[1] == 3,
        cod.progression_order == ProgressionOrder::CPRL ==> cod_body(cod, ct)[1] == 4,
{
}

/// Law: reading a main header takes the progression order from the COD
/// segment's progression-order byte by the codes of JPEG 2000: 0 is LRCP,
/// 1 is RLCP, 2 is RPCL, 3 is PCRL and 4 is CPRL.
pub proof fn law_cod_progression_code_read(
    v: CodestreamView,
    old: CodestreamView,
    b: Seq<u8>,
    s: int,
    c: int,
    q: int,
)
    requires
        header_read(v, old, b, s, c, q),
    ensures
        body_at(b, c)[1] == 0 ==> v.cod.progression_order == ProgressionOrder::LRCP,
        body_at(b, c)[1] == 1 ==> v.cod.progression_order == ProgressionOrder::RLCP,
        body_at(b, c)[1] == 2 ==> v.cod.progression_order == ProgressionOrder::RPCL,
        body_at(b, c)[1] == 3 ==> v.cod.progression_order == ProgressionOrder::PCRL,
        body_at(b, c)[1] == 4 ==> v.cod.progression_order == ProgressionOrder::CPRL,
{
}

/// The largest bit depth is at most `m` when every one is.
proof fn lemma_max_bit_depth_at_most(cs: Seq<SizComp>, m: int)
    requires
        m >= 0,
        forall|i: int| 0 <= i < cs.len() ==> (#[trigger] cs[i]).bit_depth <= m,
    ensures
        max_bit_depth(cs) <= m,
    decreases cs.len(),
{
    if cs.len() > 0 {
        assert forall|i: int| 0 <= i < cs.drop_last().len() implies (
        #[trigger] cs.drop_last()[i]).bit_depth <= m by {
            assert(cs.drop_last()[i] == cs[i]);
        }
        lemma_max_bit_depth_at_most(cs.drop_last(), m);
        assert(cs.last() == cs[cs.len() - 1]);
    }
}

/// Law: the main header can be written for components of any bit depth
/// from 1 to 28, signed or not: when the header of a codestream can be
/// written, so can the header of the same codestream with the bit depths
/// and signedness of its components changed to any such values. (Deeper
/// components are written too, as far as the largest bit depth, plus one
/// when the colour transform applies, plus two, still fits the five-bit
/// exponent of the QCD segment.)
pub proof fn law_any_bit_depth_accepted(v: CodestreamView, w: CodestreamView, cs: Seq<Seq<u8>>)
    requires
        headers_ok(v, cs),
        w.siz.image_extent == v.siz.image_extent,
        w.siz.image_offset == v.siz.image_offset,
        w.siz.tile_size == v.siz.tile_size,
        w.siz.tile_offset == v.siz.tile_offset,
        w.siz.comps@.len() == v.siz.comps@.len(),
        forall|i: int|
            0 <= i < w.siz.comps@.len() ==> (#[trigger] w.siz.comps@[i]).downsampling
                == v.siz.comps@[i].downsampling && 1 <= w.siz.comps@[i].bit_depth <= 28,
        w.cod == v.cod,
        w.qcd == v.qcd,
        w.need_tlm == v.need_tlm,
        w.tilepart_divisions == v.tilepart_divisions,
    ensures
        headers_ok(w, cs),
{
    lemma_max_bit_depth_at_most(w.siz.comps@, 28);
    assert(settled_tile_size(w.siz) == settled_tile_size(v.siz));
    assert forall|i: int| 0 <= i < w.siz.comps@.len() implies {
        let c = #[trigger] w.siz.comps@[i];
        &&& 1 <= c.bit_depth <= 38
        &&& 1 <= c.downsampling.x <= 255
        &&& 1 <= c.downsampling.y <= 255
    } by {
        let c0 = v.siz.comps@[i];
        assert(1 <= c0.downsampling.x <= 255);
    }
}

/// Law: the SIZ segment gives each component's Ssiz byte as its bit depth
/// minus one, with the top bit set for signed samples, followed by its
/// horizontal and vertical subsampling (XRsiz, YRsiz), three bytes per
/// component after the 36 bytes of the image and tile geometry.
pub proof fn law_siz_component_bytes(s: ParamSiz, i: int)
    requires
        0 <= i < s.comps@.len(),
        1 <= s.comps@[i].bit_depth <= 38,
        1 <= s.comps@[i].downsampling.x <= 255,
        1 <= s.comps@[i].downsampling.y <= 255,
    ensures
        siz_body(s).len() == 36 + 3 * s.comps@.len(),
        siz_body(s)[36 + 3 * i] == s.comps@[i].bit_depth - 1 + if s.comps@[i].is_signed {
            128int
        } else {
            0int
        },
        siz_body(s)[37 + 3 * i] == s.comps@[i].downsampling.x,
        siz_body(s)[38 + 3 * i] == s.comps@[i].downsampling.y,
{
    let cs = s.comps@;
    lemma_comps_bytes_at(cs, i);
    let head = be2(0x4000) + be4(s.image_extent.x as int) + be4(s.image_extent.y as int) + be4(
        s.image_offset.x as int,
    ) + be4(s.image_offset.y as int) + be4(s.tile_size.w as int) + be4(s.tile_size.h as int)
        + be4(s.tile_offset.x as int) + be4(s.tile_offset.y as int) + be2(cs.len() as int);
    assert(siz_body(s) == head + comps_bytes(cs));
    assert(head.len() == 36);
    assert(siz_body(s)[36 + 3 * i] == comps_bytes(cs)[3 * i]);
    assert(siz_body(s)[37 + 3 * i] == comps_bytes(cs)[3 * i + 1]);
    assert(siz_body(s)[38 + 3 * i] == comps_bytes(cs)[3 * i + 2]);
}

} // verus!
