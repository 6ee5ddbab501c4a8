//! JPEG 2000 codestream structures: the bit buffers, sample conversions,
//! and the tile, tile-component, resolution and subband hierarchy, with
//! the codestream object that holds the marker parameters.

pub mod bit_model;
pub mod bitbuffer_read;
pub mod bitbuffer_write;
pub mod stream_laws;
pub mod simd;
pub mod subband;
pub mod resolution;
pub mod tile_comp;
pub mod tile;
pub mod markers;
pub mod header_laws;

use vstd::prelude::*;
use crate::params::{OjphError, ParamCod, ParamNlt, ParamQcd, ParamSiz};
use crate::text::str_equal;
use crate::types::{div_ceil, spec_div_ceil, Size};
use markers::{
    base_range, cap_body_bytes, cod_body_bytes, comment_seqs, ct_applies, header_bytes, headers_ok,
    lemma_body_lens, max_depth, push_be16, push_comments, push_segment, push_tlm, qcd_body_bytes,
    settled, settled_tile_size, siz_body_bytes, tile_count, tileparts_per_tile, MARKER_CAP, MARKER_COD,
    MARKER_QCD, MARKER_SIZ, MARKER_SOC, MARKER_SOT, body_at, cod_body_valid, cod_ok, header_read,
    parse_cod_body, parse_siz_body, read16, read_main_header, scan, siz_body_valid, siz_ok,
};

verus! {

/// Profiles a codestream can declare.
#[derive(Debug, Clone, Copy, PartialEq, Eq, Structural)]
pub enum ProfileNum {
    Undefined,
    Profile0,
    Profile1,
    Cinema2K,
    Cinema4K,
    CinemaS2K,
    CinemaS4K,
    Broadcast,
    IMF,
}

/// The profile a name stands for: "IMF" or "BROADCAST".
pub open spec fn profile_named(name: Seq<char>) -> Option<ProfileNum> {
    if name == seq!['I', 'M', 'F'] {
        Some(ProfileNum::IMF)
    } else if name == seq!['B', 'R', 'O', 'A', 'D', 'C', 'A', 'S', 'T'] {
        Some(ProfileNum::Broadcast)
    } else {
        None
    }
}

/// What a codestream holds.
pub struct CodestreamView {
    pub siz: ParamSiz,
    pub cod: ParamCod,
    pub qcd: ParamQcd,
    pub nlt: ParamNlt,
    pub planar: i32,
    pub resilient: bool,
    pub profile: ProfileNum,
    pub tilepart_divisions: u32,
    pub need_tlm: bool,
    pub skipped_res_for_read: u32,
    pub skipped_res_for_recon: u32,
    pub num_tiles: Size,
}

/// The state of a fresh codestream: default parameters, interleaved,
/// not resilient, no profile, no tile-part division, no TLM marker, no
/// skipped resolutions and no tiles yet.
pub open spec fn is_fresh(v: CodestreamView) -> bool {
    &&& v.siz.image_extent == (crate::types::Point { x: 0, y: 0 })
    &&& v.siz.image_offset == (crate::types::Point { x: 0, y: 0 })
    &&& v.siz.tile_size == (Size { w: 0, h: 0 })
    &&& v.siz.tile_offset == (crate::types::Point { x: 0, y: 0 })
    &&& v.siz.comps@.len() == 0
    &&& v.cod.num_decomps == 5
    &&& v.cod.log_block_dims == (Size { w: 6, h: 6 })
    &&& v.cod.log_precinct_sizes@.len() == 0
    &&& v.cod.reversible
    &&& v.cod.color_transform
    &&& v.cod.progression_order == crate::params::ProgressionOrder::RPCL
    &&& v.qcd.num_guard_bits == 1
    &&& v.nlt.nonlinearity@.len() == 0
    &&& v.planar == 0
    &&& !v.resilient
    &&& v.profile == ProfileNum::Undefined
    &&& v.tilepart_divisions == 0
    &&& !v.need_tlm
    &&& v.skipped_res_for_read == 0
    &&& v.skipped_res_for_recon == 0
    &&& v.num_tiles == (Size { w: 0, h: 0 })
}

/// The main codestream object: the marker parameters and the settings
/// that govern encoding and decoding.
#[derive(Debug)]
pub struct Codestream {
    siz: ParamSiz,
    cod: ParamCod,
    qcd: ParamQcd,
    nlt: ParamNlt,
    planar: i32,
    resilient: bool,
    profile: ProfileNum,
    tilepart_divisions: u32,
    need_tlm: bool,
    skipped_res_for_read: u32,
    skipped_res_for_recon: u32,
    num_tiles: Size,
}

impl View for Codestream {
    type V = CodestreamView;

    closed spec fn view(&self) -> CodestreamView {
        CodestreamView {
            siz: self.siz,
            cod: self.cod,
            qcd: self.qcd,
            nlt: self.nlt,
            planar: self.planar,
            resilient: self.resilient,
            profile: self.profile,
            tilepart_divisions: self.tilepart_divisions,
            need_tlm: self.need_tlm,
            skipped_res_for_read: self.skipped_res_for_read,
            skipped_res_for_recon: self.skipped_res_for_recon,
            num_tiles: self.num_tiles,
        }
    }
}

impl Codestream {
    /// Create a new codestream with default parameters.
    pub fn new() -> (c: Self)
        ensures
            is_fresh(c@),
    {
        Codestream {
            siz: ParamSiz::new(),
            cod: ParamCod::new(),
            qcd: ParamQcd::new(),
            nlt: ParamNlt::new(),
            planar: 0,
            resilient: false,
            profile: ProfileNum::Undefined,
            tilepart_divisions: 0,
            need_tlm: false,
            skipped_res_for_read: 0,
            skipped_res_for_recon: 0,
            num_tiles: Size::new(0, 0),
        }
    }

    /// Reset the codestream for reuse.
    pub fn restart(&mut self)
        ensures
            is_fresh(final(self)@),
    {
        *self = Self::new();
    }

    /// The SIZ (image/tile size) parameters.
    pub fn access_siz(&self) -> (s: &ParamSiz)
        ensures
            *s == self@.siz,
    {
        &self.siz
    }

    /// The SIZ parameters, for modification.
    pub fn access_siz_mut(&mut self) -> (s: &mut ParamSiz)
        ensures
            *s == old(self)@.siz,
            final(self)@ == (CodestreamView { siz: *final(s), ..old(self)@ }),
    {
        &mut self.siz
    }

    /// The COD (coding style) parameters.
    pub fn access_cod(&self) -> (c: &ParamCod)
        ensures
            *c == self@.cod,
    {
        &self.cod
    }

    /// The COD parameters, for modification.
    pub fn access_cod_mut(&mut self) -> (c: &mut ParamCod)
        ensures
            *c == old(self)@.cod,
            final(self)@ == (CodestreamView { cod: *final(c), ..old(self)@ }),
    {
        &mut self.cod
    }

    /// The QCD (quantization) parameters.
    pub fn access_qcd(&self) -> (q: &ParamQcd)
        ensures
            *q == self@.qcd,
    {
        &self.qcd
    }

    /// The QCD parameters, for modification.
    pub fn access_qcd_mut(&mut self) -> (q: &mut ParamQcd)
        ensures
            *q == old(self)@.qcd,
            final(self)@ == (CodestreamView { qcd: *final(q), ..old(self)@ }),
    {
        &mut self.qcd
    }

    /// The NLT (nonlinearity) parameters.
    pub fn access_nlt(&self) -> (n: &ParamNlt)
        ensures
            *n == self@.nlt,
    {
        &self.nlt
    }

    /// The NLT parameters, for modification.
    pub fn access_nlt_mut(&mut self) -> (n: &mut ParamNlt)
        ensures
            *n == old(self)@.nlt,
            final(self)@ == (CodestreamView { nlt: *final(n), ..old(self)@ }),
    {
        &mut self.nlt
    }

    /// Enable resilient (error-tolerant) mode for decoding.
    pub fn enable_resilience(&mut self)
        ensures
            final(self)@ == (CodestreamView { resilient: true, ..old(self)@ }),
    {
        self.resilient = true;
    }

    /// Set planar mode (0 = interleaved, anything else = planar).
    pub fn set_planar(&mut self, planar: i32)
        ensures
            final(self)@ == (CodestreamView { planar, ..old(self)@ }),
    {
        self.planar = planar;
    }

    /// Set the codestream profile by name ("IMF" or "BROADCAST"); any
    /// other name is refused and leaves the codestream unchanged.
    pub fn set_profile(&mut self, name: &str) -> (r: Result<(), OjphError>)
        ensures
            profile_named(name@) is Some ==> r is Ok && final(self)@ == (CodestreamView {
                profile: profile_named(name@)->0,
                ..old(self)@
            }),
            profile_named(name@) is None ==> r == Err::<(), OjphError>(OjphError::InvalidParam)
                && final(self)@ == old(self)@,
    {
        proof {
            reveal_strlit("IMF");
            reveal_strlit("BROADCAST");
            assert("IMF"@ =~= seq!['I', 'M', 'F']);
            assert("BROADCAST"@ =~= seq!['B', 'R', 'O', 'A', 'D', 'C', 'A', 'S', 'T']);
        }
        if str_equal(name, "IMF") {
            self.profile = ProfileNum::IMF;
            Ok(())
        } else if str_equal(name, "BROADCAST") {
            self.profile = ProfileNum::Broadcast;
            Ok(())
        } else {
            Err(OjphError::InvalidParam)
        }
    }

    /// Set tile-part division flags.
    pub fn set_tilepart_divisions(&mut self, value: u32)
        ensures
            final(self)@ == (CodestreamView { tilepart_divisions: value, ..old(self)@ }),
    {
        self.tilepart_divisions = value;
    }

    /// Request that TLM markers be written.
    pub fn request_tlm_marker(&mut self, needed: bool)
        ensures
            final(self)@ == (CodestreamView { need_tlm: needed, ..old(self)@ }),
    {
        self.need_tlm = needed;
    }

    /// Restrict the number of resolution levels used for reading and for
    /// reconstruction.
    pub fn restrict_input_resolution(&mut self, skipped_res_for_data: u32, skipped_res_for_recon: u32)
        ensures
            final(self)@ == (CodestreamView {
                skipped_res_for_read: skipped_res_for_data,
                skipped_res_for_recon,
                ..old(self)@
            }),
    {
        self.skipped_res_for_read = skipped_res_for_data;
        self.skipped_res_for_recon = skipped_res_for_recon;
    }

    /// Lay out the tile grid from the SIZ parameters: the tiles needed
    /// to cover the image area from the tile grid's offset.
    pub fn compute_tile_grid(&mut self)
        requires
            old(self)@.siz.tile_size.w > 0,
            old(self)@.siz.tile_size.h > 0,
            old(self)@.siz.tile_offset.x <= old(self)@.siz.image_extent.x,
            old(self)@.siz.tile_offset.y <= old(self)@.siz.image_extent.y,
        ensures
            final(self)@ == (CodestreamView {
                num_tiles: Size {
                    w: spec_div_ceil(
                        old(self)@.siz.image_extent.x - old(self)@.siz.tile_offset.x,
                        old(self)@.siz.tile_size.w as int,
                    ) as u32,
                    h: spec_div_ceil(
                        old(self)@.siz.image_extent.y - old(self)@.siz.tile_offset.y,
                        old(self)@.siz.tile_size.h as int,
                    ) as u32,
                },
                ..old(self)@
            }),
    {
        let w = div_ceil(self.siz.image_extent.x - self.siz.tile_offset.x, self.siz.tile_size.w);
        let h = div_ceil(self.siz.image_extent.y - self.siz.tile_offset.y, self.siz.tile_size.h);
        self.num_tiles = Size::new(w, h);
    }

    /// True if planar mode is active.
    pub fn is_planar(&self) -> (p: bool)
        ensures
            p == (self@.planar != 0),
    {
        self.planar != 0
    }

    /// The number of tiles in x and y.
    pub fn get_num_tiles(&self) -> (n: Size)
        ensures
            n == self@.num_tiles,
    {
        self.num_tiles
    }

    /// The main header of this codestream, whose parameters can be
    /// written.
    #[verifier::spinoff_prover]
    #[verifier::rlimit(60)]
    fn emit_header(&self, comments: &[Vec<u8>]) -> (out: Vec<u8>)
        requires
            markers::emit_ready(self@, comment_seqs(comments@)),
        ensures
            out@ == header_bytes(self@, comment_seqs(comments@)),
    {
        let ghost v = self@;
        let n = self.siz.comps.len();
        let ct = self.cod.color_transform && n >= 3;
        let md = max_depth(self.siz.comps.as_slice());
        proof {
            markers::lemma_max_bit_depth(v.siz.comps@);
        }
        let b = md + if ct { 1u32 } else { 0u32 };
        assert(b == base_range(v) && ct == ct_applies(v));
        proof {
            lemma_body_lens(v.siz, v.cod, ct, v.qcd.num_guard_bits, b as int);
        }
        let mut out: Vec<u8> = Vec::new();
        push_be16(&mut out, MARKER_SOC);
        let sb = siz_body_bytes(&self.siz);
        push_segment(&mut out, MARKER_SIZ, sb.as_slice());
        let capb = cap_body_bytes(b, self.cod.num_decomps, self.qcd.num_guard_bits, self.cod.reversible);
        push_segment(&mut out, MARKER_CAP, capb.as_slice());
        let cb = cod_body_bytes(&self.cod, ct);
        push_segment(&mut out, MARKER_COD, cb.as_slice());
        let qb = qcd_body_bytes(self.qcd.num_guard_bits, self.cod.reversible, b, self.cod.num_decomps);
        push_segment(&mut out, MARKER_QCD, qb.as_slice());
        let ghost before_com = out@;
        assert forall|i: int| 0 <= i < comments@.len() implies #[trigger] comments@[i]@.len() <= 65531 by {
            assert(comment_seqs(comments@)[i] == comments@[i]@);
        }
        push_comments(&mut out, comments);
        let ghost before_tlm = out@;
        if self.need_tlm {
            let pc: u32 = if (self.tilepart_divisions / 2) % 2 == 1 {
                n as u32
            } else {
                1u32
            };
            let pr: u32 = if self.tilepart_divisions % 2 == 1 {
                self.cod.num_decomps as u32 + 1
            } else {
                1u32
            };
            assert(1 <= pc * pr <= 16384 * 33) by (nonlinear_arith)
                requires
                    1 <= pc <= 16384,
                    1 <= pr <= 33,
            ;
            let per = pc * pr;
            assert(per == tileparts_per_tile(v));
            assert((self.num_tiles.w as int) * (self.num_tiles.h as int) <= 65535);
            push_tlm(&mut out, self.num_tiles.w * self.num_tiles.h, per);
        }
        assert(out@ =~= before_tlm + markers::tlm_bytes(v.need_tlm, tile_count(v), tileparts_per_tile(v)));
        assert(out@ =~= header_bytes(v, comment_seqs(comments@)));
        out
    }

    /// Whether the parameters and comments can be written as a main
    /// header.
    fn headers_valid(&self, comments: &[Vec<u8>]) -> (ok: bool)
        ensures
            ok == headers_ok(self@, comment_seqs(comments@)),
    {
        let siz = &self.siz;
        let cod = &self.cod;
        let n = siz.comps.len();
        if n < 1 || n > 16384 {
            return false;
        }
        if !(siz.image_offset.x < siz.image_extent.x && siz.image_offset.y < siz.image_extent.y
            && siz.tile_offset.x <= siz.image_offset.x && siz.tile_offset.y <= siz.image_offset.y) {
            return false;
        }
        let t = if siz.tile_size.w == 0 && siz.tile_size.h == 0 {
            Size::new(siz.image_extent.x - siz.tile_offset.x, siz.image_extent.y - siz.tile_offset.y)
        } else {
            siz.tile_size
        };
        assert(t == settled_tile_size(self@.siz));
        if t.w == 0 || t.h == 0 || (siz.tile_offset.x as u64) + (t.w as u64) <= siz.image_offset.x as u64
            || (siz.tile_offset.y as u64) + (t.h as u64) <= siz.image_offset.y as u64 {
            return false;
        }
        let mut i: usize = 0;
        while i < n
            invariant
                n == siz.comps@.len(),
                self@.siz.comps@ == siz.comps@,
                i <= n,
                forall|k: int|
                    0 <= k < i ==> {
                        let c = #[trigger] siz.comps@[k];
                        &&& 1 <= c.bit_depth <= 38
                        &&& 1 <= c.downsampling.x <= 255
                        &&& 1 <= c.downsampling.y <= 255
                    },
            decreases n - i,
        {
            let c = siz.comps[i];
            if !(1 <= c.bit_depth && c.bit_depth <= 38 && 1 <= c.downsampling.x && c.downsampling.x <= 255
                && 1 <= c.downsampling.y && c.downsampling.y <= 255) {
                assert(self@.siz.comps@[i as int] == c);
                return false;
            }
            i = i + 1;
        }
        if !(cod.num_decomps <= 32 && 2 <= cod.log_block_dims.w && cod.log_block_dims.w <= 10
            && 2 <= cod.log_block_dims.h && cod.log_block_dims.h <= 10 && cod.log_block_dims.w
            + cod.log_block_dims.h <= 12) {
            return false;
        }
        let mut j: usize = 0;
        while j < cod.log_precinct_sizes.len()
            invariant
                j <= cod.log_precinct_sizes@.len(),
                self@.cod.log_precinct_sizes@ == cod.log_precinct_sizes@,
                forall|k: int|
                    0 <= k < j ==> #[trigger] cod.log_precinct_sizes@[k].w <= 15
                        && cod.log_precinct_sizes@[k].h <= 15,
            decreases cod.log_precinct_sizes@.len() - j,
        {
            let p = cod.log_precinct_sizes[j];
            if p.w > 15 || p.h > 15 {
                assert(self@.cod.log_precinct_sizes@[j as int] == p);
                return false;
            }
            j = j + 1;
        }
        let ct = cod.color_transform && n >= 3;
        let md = max_depth(siz.comps.as_slice());
        proof {
            markers::lemma_max_bit_depth(siz.comps@);
        }
        let b = md + if ct { 1u32 } else { 0u32 };
        assert(b == base_range(self@));
        if b + 2 > 31 || self.qcd.num_guard_bits > 7 {
            return false;
        }
        let mut k: usize = 0;
        while k < comments.len()
            invariant
                k <= comments@.len(),
                forall|m: int| 0 <= m < k ==> #[trigger] comment_seqs(comments@)[m].len() <= 65531,
            decreases comments@.len() - k,
        {
            if comments[k].len() > 65531 {
                assert(comment_seqs(comments@)[k as int] == comments@[k as int]@);
                return false;
            }
            k = k + 1;
        }
        let tx = div_ceil(siz.image_extent.x - siz.tile_offset.x, t.w) as u64;
        let ty = div_ceil(siz.image_extent.y - siz.tile_offset.y, t.h) as u64;
        assert(tx * ty <= 0xFFFF_FFFF * 0xFFFF_FFFF) by (nonlinear_arith)
            requires
                tx <= 0xFFFF_FFFF,
                ty <= 0xFFFF_FFFF,
        ;
        let tiles = tx * ty;
        assert(tiles == tile_count(settled(self@)));
        if tiles > 65535 {
            return false;
        }
        if self.need_tlm {
            let pc: u64 = if (self.tilepart_divisions / 2) % 2 == 1 {
                n as u64
            } else {
                1u64
            };
            let pr: u64 = if self.tilepart_divisions % 2 == 1 {
                cod.num_decomps as u64 + 1
            } else {
                1u64
            };
            assert(pc * pr <= 16384 * 33) by (nonlinear_arith)
                requires
                    pc <= 16384,
                    pr <= 33,
            ;
            let per: u64 = pc * pr;
            assert(per == tileparts_per_tile(settled(self@)));
            assert(tiles * per <= 65535 * 16384 * 33) by (nonlinear_arith)
                requires
                    tiles <= 65535,
                    per <= 16384 * 33,
            ;
            if tiles * per > 10921 {
                return false;
            }
        }
        true
    }

    /// Write the main header: SOC, SIZ, CAP, COD, QCD, one COM segment
    /// per comment, and a TLM segment when one was requested; no SOT.
    /// The tile size is settled first (the whole grid from the tile
    /// offset when none was set) and the tile grid laid out.  Parameters
    /// that cannot be written are refused, and leave the codestream as it
    /// was.
    pub fn write_headers(&mut self, comments: &[Vec<u8>]) -> (r: Result<Vec<u8>, OjphError>)
        ensures
            headers_ok(old(self)@, comment_seqs(comments@)) ==> (r matches Ok(b) && b@ == header_bytes(
                settled(old(self)@),
                comment_seqs(comments@),
            )) && final(self)@ == settled(old(self)@),
            !headers_ok(old(self)@, comment_seqs(comments@)) ==> r == Err::<Vec<u8>, OjphError>(
                OjphError::InvalidParam,
            ) && final(self)@ == old(self)@,
    {
        if !self.headers_valid(comments) {
            return Err(OjphError::InvalidParam);
        }
        let ghost v0 = self@;
        let t = if self.siz.tile_size.w == 0 && self.siz.tile_size.h == 0 {
            Size::new(
                self.siz.image_extent.x - self.siz.tile_offset.x,
                self.siz.image_extent.y - self.siz.tile_offset.y,
            )
        } else {
            self.siz.tile_size
        };
        self.siz.tile_size = t;
        let tx = div_ceil(self.siz.image_extent.x - self.siz.tile_offset.x, t.w);
        let ty = div_ceil(self.siz.image_extent.y - self.siz.tile_offset.y, t.h);
        self.num_tiles = Size::new(tx, ty);
        assert(self@ == settled(v0));
        proof {
            markers::lemma_max_bit_depth(v0.siz.comps@);
            assert(self.siz.comps@ == v0.siz.comps@);
        }
        let out = self.emit_header(comments);
        Ok(out)
    }

    /// Take the parameters of the SIZ, COD and QCD segments at `s`, `c`
    /// and `q` of `b`, and lay out the tile grid.
    fn apply_header(&mut self, b: &[u8], s: usize, c: usize, q: usize)
        requires
            s + 4 <= b@.len(),
            s + 2 + get16_of(b@, s as int + 2) <= b@.len(),
            4 <= get16_of(b@, s as int + 2) + 2,
            siz_ok(body_at(b@, s as int)),
            c + 4 <= b@.len(),
            c + 2 + get16_of(b@, c as int + 2) <= b@.len(),
            get16_of(b@, c as int + 2) >= 2,
            cod_ok(body_at(b@, c as int)),
            q + 4 <= b@.len(),
            q + 2 + get16_of(b@, q as int + 2) <= b@.len(),
            get16_of(b@, q as int + 2) >= 3,
        ensures
            header_read(final(self)@, old(self)@, b@, s as int, c as int, q as int),
    {
        let _n = b.len();
        let sl = read16(b, s + 2) as usize;
        let cl = read16(b, c + 2) as usize;
        let siz = parse_siz_body(b, s + 4, s + 2 + sl);
        let cod = parse_cod_body(b, c + 4, c + 2 + cl);
        let guard = b[q + 4] / 32;
        assert(body_at(b@, q as int)[0] == b@[q + 4]);
        let tx = div_ceil(siz.image_extent.x - siz.tile_offset.x, siz.tile_size.w);
        let ty = div_ceil(siz.image_extent.y - siz.tile_offset.y, siz.tile_size.h);
        self.siz = siz;
        self.cod = cod;
        self.qcd.num_guard_bits = guard;
        self.num_tiles = Size::new(tx, ty);
    }

    /// Read a main header: SOC, then marker segments up to the first SOT
    /// marker or the end of `b`, taking the parameters of the (last) SIZ,
    /// COD and QCD segments and laying out the tile grid; other segments
    /// are skipped.  Gives the position where reading stopped.  A header
    /// that does not start with SOC, has a truncated or malformed
    /// segment, or lacks SIZ, COD or QCD is refused, and leaves the
    /// codestream as it was.
    pub fn read_headers(&mut self, b: &[u8]) -> (r: Result<usize, OjphError>)
        ensures
            match read_main_header(b@) {
                Ok((s, c, q, end)) => r == Ok::<usize, OjphError>(end as usize) && header_read(
                    final(self)@,
                    old(self)@,
                    b@,
                    s,
                    c,
                    q,
                ),
                Err(e) => r == Err::<usize, OjphError>(e) && final(self)@ == old(self)@,
            },
    {
        let len = b.len();
        if len < 2 || read16(b, 0) != MARKER_SOC as u32 {
            return Err(OjphError::InvalidParam);
        }
        let mut pos: usize = 2;
        let mut sp: Option<usize> = None;
        let mut cp: Option<usize> = None;
        let mut qp: Option<usize> = None;
        loop
            invariant
                len == b@.len(),
                2 <= pos <= len,
                scan(b@, pos as int, opt_int(sp), opt_int(cp), opt_int(qp)) == read_main_header(b@),
                sp matches Some(p) ==> p + 4 <= len && get16_of(b@, p + 2) >= 2 && p + 2 + get16_of(
                    b@,
                    p + 2,
                ) <= len && siz_ok(body_at(b@, p as int)),
                cp matches Some(p) ==> p + 4 <= len && get16_of(b@, p + 2) >= 2 && p + 2 + get16_of(
                    b@,
                    p + 2,
                ) <= len && cod_ok(body_at(b@, p as int)),
                qp matches Some(p) ==> p + 4 <= len && p + 2 + get16_of(b@, p + 2) <= len && get16_of(
                    b@,
                    p + 2,
                ) >= 3,
                *self == *old(self),
            decreases len - pos,
        {
            if pos == len || (len - pos >= 2 && read16(b, pos) == MARKER_SOT as u32) {
                match (sp, cp, qp) {
                    (Some(s), Some(c), Some(q)) => {
                        self.apply_header(b, s, c, q);
                        return Ok(pos);
                    },
                    _ => {
                        return Err(OjphError::InvalidParam);
                    },
                }
            }
            if len - pos < 4 {
                return Err(OjphError::InvalidParam);
            }
            let m = read16(b, pos);
            let l = read16(b, pos + 2) as usize;
            if l < 2 || l > len - pos - 2 {
                return Err(OjphError::InvalidParam);
            }
            let bs = pos + 4;
            let be = pos + 2 + l;
            if m == MARKER_SIZ as u32 {
                if !siz_body_valid(b, bs, be) {
                    return Err(OjphError::InvalidParam);
                }
                sp = Some(pos);
            } else if m == MARKER_COD as u32 {
                if !cod_body_valid(b, bs, be) {
                    return Err(OjphError::InvalidParam);
                }
                cp = Some(pos);
            } else if m == MARKER_QCD as u32 {
                if l < 3 {
                    return Err(OjphError::InvalidParam);
                }
                qp = Some(pos);
            }
            pos = be;
        }
    }
}

/// A position, as an integer.
pub open spec fn opt_int(o: Option<usize>) -> Option<int> {
    match o {
        Some(p) => Some(p as int),
        None => None,
    }
}

/// The big-endian 16-bit field at `i`.
pub open spec fn get16_of(b: Seq<u8>, i: int) -> int {
    markers::get16(b, i)
}

} // verus!
