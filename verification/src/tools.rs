//! The decisions of the command-line compressor and expander: how the
//! compressor's settings and the input image configure a codestream, and
//! which output files the expander can write for a decoded image.

use vstd::prelude::*;
use crate::codestream::{profile_named, Codestream, CodestreamView, ProfileNum};
use crate::img_io::formats::{tilepart_divisions_named, tilepart_divisions_of};
use crate::params::{progression_order_named, spec_floor_log2, OjphError, SizComp};
use crate::text::{ascii_lower, chars_of, ends_with_ignore_case, ends_with_ignoring_case};
use crate::types::{Point, Size};

verus! {

/// The compressor's settings that shape the codestream.
pub struct CompressSettings {
    pub image_offset: Point,
    pub tile_offset: Point,
    /// The tile size, if one was given.
    pub tile_size: Option<Size>,
    pub num_decomps: u32,
    /// The code-block size in samples.
    pub block_size: Size,
    pub reversible: bool,
    /// Precinct sizes in samples, from the lowest resolution up.
    pub precincts: Option<Vec<Size>>,
    /// The progression order's name.
    pub prog_order: String,
    /// The colour transform, if one was chosen.
    pub colour_trans: Option<bool>,
    /// Samples come one component at a time (YUV and RAWL input).
    pub planar: bool,
    pub tlm_marker: bool,
    /// The tile-part division's name, if one was given.
    pub tilepart_divs: Option<String>,
    /// The profile's name, if one was given.
    pub profile: Option<String>,
}

/// Why a codestream could not be configured.
#[derive(Debug)]
pub enum SetupError {
    /// The progression order's name is none of the five orders.
    ProgressionOrder(OjphError),
    /// The tile-part division's name is none of R, C and RC; the message.
    TilepartDivs(String),
    /// The profile's name is neither IMF nor BROADCAST.
    Profile(OjphError),
}

/// The settings are within what the codestream takes: a reference grid
/// that fits in 32 bits, at most 32 decompositions, and code-blocks and
/// precincts of at least one sample.
pub open spec fn settings_fit(s: CompressSettings, width: u32, height: u32) -> bool {
    &&& s.image_offset.x + width <= u32::MAX
    &&& s.image_offset.y + height <= u32::MAX
    &&& s.num_decomps <= 32
    &&& s.block_size.w > 0
    &&& s.block_size.h > 0
    &&& (s.precincts matches Some(p) ==> p@.len() <= i32::MAX)
    &&& (s.precincts matches Some(p) ==> forall|i: int|
        0 <= i < p@.len() ==> #[trigger] p@[i].w > 0 && p@[i].h > 0)
}

/// The settings name a progression order, a tile-part division and a
/// profile that exist (or none).
pub open spec fn settings_named_well(s: CompressSettings) -> bool {
    &&& progression_order_named(s.prog_order@) is Some
    &&& (s.tilepart_divs matches Some(t) ==> tilepart_divisions_of(t@) is Some)
    &&& (s.profile matches Some(p) ==> profile_named(p@) is Some)
}

/// The codestream the settings and an image of `width` by `height`
/// samples with components `comps` give: a fresh codestream with these
/// parameters set.
pub open spec fn configured(
    v: CodestreamView,
    s: CompressSettings,
    width: u32,
    height: u32,
    comps: Seq<SizComp>,
) -> bool {
    &&& v.siz.image_extent == (Point { x: (s.image_offset.x + width) as u32, y: (s.image_offset.y + height) as u32 })
    &&& v.siz.image_offset == s.image_offset
    &&& v.siz.tile_offset == s.tile_offset
    &&& v.siz.tile_size == (match s.tile_size {
        Some(t) => t,
        None => Size { w: 0, h: 0 },
    })
    &&& v.siz.comps@ == comps
    &&& v.cod.num_decomps == s.num_decomps as u8
    &&& v.cod.log_block_dims == (Size {
        w: spec_floor_log2(s.block_size.w as nat) as u32,
        h: spec_floor_log2(s.block_size.h as nat) as u32,
    })
    &&& v.cod.reversible == s.reversible
    &&& v.cod.log_precinct_sizes@.len() == (match s.precincts {
        Some(p) => p@.len(),
        None => 0,
    })
    &&& (s.precincts matches Some(p) ==> forall|i: int|
        0 <= i < p@.len() ==> #[trigger] v.cod.log_precinct_sizes@[i] == (Size {
            w: spec_floor_log2(p@[i].w as nat) as u32,
            h: spec_floor_log2(p@[i].h as nat) as u32,
        }))
    &&& v.cod.progression_order == progression_order_named(s.prog_order@)->0
    &&& v.cod.color_transform == (match s.colour_trans {
        Some(c) => c,
        None => true,
    })
    &&& v.qcd.num_guard_bits == 1
    &&& v.nlt.nonlinearity@.len() == 0
    &&& v.planar == (if s.planar {
        1i32
    } else {
        0i32
    })
    &&& !v.resilient
    &&& v.profile == (match s.profile {
        Some(p) => profile_named(p@)->0,
        None => ProfileNum::Undefined,
    })
    &&& v.tilepart_divisions == (match s.tilepart_divs {
        Some(t) => tilepart_divisions_of(t@)->0,
        None => 0,
    })
    &&& v.need_tlm == s.tlm_marker
    &&& v.skipped_res_for_read == 0
    &&& v.skipped_res_for_recon == 0
    &&& v.num_tiles == (Size { w: 0, h: 0 })
}

/// Configure a codestream for compressing an image of `width` by
/// `height` samples whose components are `comps`.  The first name that
/// is refused, in the order progression order, tile-part division,
/// profile, gives the error.
pub fn setup_codestream(s: &CompressSettings, width: u32, height: u32, comps: &[SizComp]) -> (r:
    Result<Codestream, SetupError>)
    requires
        settings_fit(*s, width, height),
        comps@.len() <= u32::MAX,
    ensures
        r is Ok <==> settings_named_well(*s),
        r matches Ok(cs) ==> configured(cs@, *s, width, height, comps@),
        r matches Err(e) ==> match e {
            SetupError::ProgressionOrder(_) => progression_order_named(s.prog_order@) is None,
            SetupError::TilepartDivs(m) => {
                &&& progression_order_named(s.prog_order@) is Some
                &&& s.tilepart_divs matches Some(t) && tilepart_divisions_of(t@) is None
                    && m@ == "Invalid tilepart_divs: '"@ + t@ + "' (expected R, C, or RC)"@
            },
            SetupError::Profile(_) => {
                &&& progression_order_named(s.prog_order@) is Some
                &&& (s.tilepart_divs matches Some(t) ==> tilepart_divisions_of(t@) is Some)
                &&& s.profile matches Some(p) && profile_named(p@) is None
            },
        },
{
    let mut cs = Codestream::new();
    {
        let siz = cs.access_siz_mut();
        siz.set_image_extent(Point::new(s.image_offset.x + width, s.image_offset.y + height));
        siz.set_image_offset(s.image_offset);
        siz.set_tile_offset(s.tile_offset);
        match s.tile_size {
            Some(t) => siz.set_tile_size(t),
            None => {},
        }
        let n = comps.len() as u32;
        siz.set_num_components(n);
        let mut c: u32 = 0;
        while c < n
            invariant
                n == comps@.len(),
                c <= n,
                siz.comps@.len() == n,
                forall|k: int| 0 <= k < c ==> #[trigger] siz.comps@[k] == comps@[k],
                siz.image_extent == (Point { x: (s.image_offset.x + width) as u32, y: (s.image_offset.y + height) as u32 }),
                siz.image_offset == s.image_offset,
                siz.tile_offset == s.tile_offset,
                siz.tile_size == (match s.tile_size {
                    Some(t) => t,
                    None => Size { w: 0, h: 0 },
                }),
            decreases n - c,
        {
            let k = comps[c as usize];
            siz.set_comp_info(c, k.downsampling, k.bit_depth, k.is_signed);
            c = c + 1;
        }
        assert(siz.comps@ =~= comps@);
    }
    {
        let cod = cs.access_cod_mut();
        cod.set_num_decomposition(s.num_decomps);
        cod.set_block_dims(s.block_size.w, s.block_size.h);
        cod.set_reversible(s.reversible);
        match &s.precincts {
            Some(p) => {
                cod.set_precinct_size(p.len() as i32, p.as_slice());
            },
            None => {},
        }
    }
    {
        let cod = cs.access_cod_mut();
        match cod.set_progression_order(s.prog_order.as_str()) {
            Ok(()) => {},
            Err(e) => {
                return Err(SetupError::ProgressionOrder(e));
            },
        }
        match s.colour_trans {
            Some(ct) => cod.set_color_transform(ct),
            None => {},
        }
    }
    cs.set_planar(if s.planar {
        1
    } else {
        0
    });
    cs.request_tlm_marker(s.tlm_marker);
    match &s.tilepart_divs {
        Some(t) => match tilepart_divisions_named(t.as_str()) {
            Ok(v) => cs.set_tilepart_divisions(v),
            Err(m) => {
                return Err(SetupError::TilepartDivs(m));
            },
        },
        None => {},
    }
    match &s.profile {
        Some(p) => match cs.set_profile(p.as_str()) {
            Ok(()) => {},
            Err(e) => {
                return Err(SetupError::Profile(e));
            },
        },
        None => {},
    }
    Ok(cs)
}

/// The kinds of image file the expander writes.
#[derive(Debug, Clone, Copy, PartialEq, Eq, Structural)]
pub enum OutputKind {
    Pgm,
    Ppm,
    Yuv,
    Rawl,
}

impl OutputKind {
    /// YUV and RAWL files hold one component after another; PGM and PPM
    /// interleave them.
    pub fn is_planar(&self) -> (p: bool)
        ensures
            p == (*self == OutputKind::Yuv || *self == OutputKind::Rawl),
    {
        match self {
            OutputKind::Yuv | OutputKind::Rawl => true,
            _ => false,
        }
    }
}

/// Why the decoded image cannot be written to the output file.
#[derive(Debug, Clone, Copy, PartialEq, Eq, Structural)]
pub enum OutputError {
    /// A PGM file takes exactly one component; the image's count.
    PgmComponents(u32),
    /// A PPM file takes exactly three components; the image's count.
    PpmComponents(u32),
    /// A PPM file takes components of one subsampling.
    PpmDownsampling,
    /// A YUV file takes one or three components; the image's count.
    YuvComponents(u32),
    /// A YUV file cannot hold colour-transformed components.
    YuvColourTransform,
    /// A RAWL file takes exactly one component; the image's count.
    RawlComponents(u32),
    /// The file name has none of the extensions written.
    Unsupported,
}

/// The kind of output file a name selects, by its extension in any
/// letter case.
pub open spec fn output_kind_of(name: Seq<char>) -> Option<OutputKind> {
    if ends_with_ignoring_case(name, ".pgm"@) {
        Some(OutputKind::Pgm)
    } else if ends_with_ignoring_case(name, ".ppm"@) {
        Some(OutputKind::Ppm)
    } else if ends_with_ignoring_case(name, ".yuv"@) {
        Some(OutputKind::Yuv)
    } else if ends_with_ignoring_case(name, ".rawl"@) || ends_with_ignoring_case(name, ".raw"@) {
        Some(OutputKind::Rawl)
    } else {
        None
    }
}

/// Whether the output file `name` can take an image of `num_comps`
/// components subsampled by `downsampling`, colour transformed or not.
pub open spec fn output_check(
    name: Seq<char>,
    num_comps: u32,
    employing_ct: bool,
    downsampling: Seq<Point>,
) -> Result<OutputKind, OutputError> {
    match output_kind_of(name) {
        Some(OutputKind::Pgm) => if num_comps != 1 {
            Err(OutputError::PgmComponents(num_comps))
        } else {
            Ok(OutputKind::Pgm)
        },
        Some(OutputKind::Ppm) => if num_comps != 3 {
            Err(OutputError::PpmComponents(num_comps))
        } else if exists|c: int| 1 <= c < 3 && #[trigger] downsampling[c] != downsampling[0] {
            Err(OutputError::PpmDownsampling)
        } else {
            Ok(OutputKind::Ppm)
        },
        Some(OutputKind::Yuv) => if num_comps != 1 && num_comps != 3 {
            Err(OutputError::YuvComponents(num_comps))
        } else if employing_ct {
            Err(OutputError::YuvColourTransform)
        } else {
            Ok(OutputKind::Yuv)
        },
        Some(OutputKind::Rawl) => if num_comps != 1 {
            Err(OutputError::RawlComponents(num_comps))
        } else {
            Ok(OutputKind::Rawl)
        },
        None => Err(OutputError::Unsupported),
    }
}

/// Decide whether the expander can write an image of `num_comps`
/// components, subsampled by `downsampling`, to the file `name`, and as
/// which kind of file.
pub fn check_output(name: &str, num_comps: u32, employing_ct: bool, downsampling: &[Point]) -> (r:
    Result<OutputKind, OutputError>)
    requires
        downsampling@.len() == num_comps,
    ensures
        r == output_check(name@, num_comps, employing_ct, downsampling@),
{
    let chars = chars_of(name);
    let n = chars.as_slice();
    if ends_with_ignore_case(n, ".pgm") {
        if num_comps != 1 {
            Err(OutputError::PgmComponents(num_comps))
        } else {
            Ok(OutputKind::Pgm)
        }
    } else if ends_with_ignore_case(n, ".ppm") {
        if num_comps != 3 {
            return Err(OutputError::PpmComponents(num_comps));
        }
        let d0 = downsampling[0];
        let d1 = downsampling[1];
        let d2 = downsampling[2];
        if d1.x != d0.x || d1.y != d0.y || d2.x != d0.x || d2.y != d0.y {
            assert(downsampling@[1] != downsampling@[0] || downsampling@[2] != downsampling@[0]);
            Err(OutputError::PpmDownsampling)
        } else {
            assert(forall|c: int| 1 <= c < 3 ==> #[trigger] downsampling@[c] == downsampling@[0]);
            Ok(OutputKind::Ppm)
        }
    } else if ends_with_ignore_case(n, ".yuv") {
        if num_comps != 1 && num_comps != 3 {
            Err(OutputError::YuvComponents(num_comps))
        } else if employing_ct {
            Err(OutputError::YuvColourTransform)
        } else {
            Ok(OutputKind::Yuv)
        }
    } else if ends_with_ignore_case(n, ".rawl") || ends_with_ignore_case(n, ".raw") {
        if num_comps != 1 {
            Err(OutputError::RawlComponents(num_comps))
        } else {
            Ok(OutputKind::Rawl)
        }
    } else {
        Err(OutputError::Unsupported)
    }
}

/// No name ends with two of the output extensions: each pair of them
/// differs in a letter at the same distance from the end.
proof fn lemma_extensions_exclusive(name: Seq<char>)
    ensures
        ends_with_ignoring_case(name, ".yuv"@) ==> !ends_with_ignoring_case(name, ".pgm"@)
            && !ends_with_ignoring_case(name, ".ppm"@),
        ends_with_ignoring_case(name, ".ppm"@) ==> !ends_with_ignoring_case(name, ".pgm"@),
        ends_with_ignoring_case(name, ".rawl"@) || ends_with_ignoring_case(name, ".raw"@)
            ==> !ends_with_ignoring_case(name, ".pgm"@) && !ends_with_ignoring_case(name, ".ppm"@)
            && !ends_with_ignoring_case(name, ".yuv"@),
{
    reveal_strlit(".pgm");
    reveal_strlit(".ppm");
    reveal_strlit(".yuv");
    reveal_strlit(".rawl");
    reveal_strlit(".raw");
    let n = name.len() as int;
    if ends_with_ignoring_case(name, ".pgm"@) {
        assert(ascii_lower(name[n - ".pgm"@.len() + 3]) == ".pgm"@[3]);
        assert(ascii_lower(name[n - ".pgm"@.len() + 2]) == ".pgm"@[2]);
    }
    if ends_with_ignoring_case(name, ".ppm"@) {
        assert(ascii_lower(name[n - ".ppm"@.len() + 3]) == ".ppm"@[3]);
        assert(ascii_lower(name[n - ".ppm"@.len() + 2]) == ".ppm"@[2]);
    }
    if ends_with_ignoring_case(name, ".yuv"@) {
        assert(ascii_lower(name[n - ".yuv"@.len() + 3]) == ".yuv"@[3]);
    }
    if ends_with_ignoring_case(name, ".rawl"@) {
        assert(ascii_lower(name[n - ".rawl"@.len() + 4]) == ".rawl"@[4]);
    }
    if ends_with_ignoring_case(name, ".raw"@) {
        assert(ascii_lower(name[n - ".raw"@.len() + 3]) == ".raw"@[3]);
    }
}

/// Law: which output files the expander accepts. A `.pgm` file takes
/// exactly one component; a `.ppm` file exactly three, all of one
/// subsampling; a `.yuv` file one or three components that are not colour
/// transformed; a `.rawl` or `.raw` file exactly one component; and any
/// other name is refused. Extensions match in any letter case, and each
/// refusal names the rule that was broken.
pub proof fn law_output_rules(
    name: Seq<char>,
    num_comps: u32,
    employing_ct: bool,
    downsampling: Seq<Point>,
)
    requires
        downsampling.len() == num_comps,
    ensures
        ends_with_ignoring_case(name, ".pgm"@) ==> output_check(
            name,
            num_comps,
            employing_ct,
            downsampling,
        ) == if num_comps == 1 {
            Ok::<OutputKind, OutputError>(OutputKind::Pgm)
        } else {
            Err(OutputError::PgmComponents(num_comps))
        },
        ends_with_ignoring_case(name, ".ppm"@) ==> output_check(
            name,
            num_comps,
            employing_ct,
            downsampling,
        ) == if num_comps != 3 {
            Err(OutputError::PpmComponents(num_comps))
        } else if downsampling[1] == downsampling[0] && downsampling[2] == downsampling[0] {
            Ok::<OutputKind, OutputError>(OutputKind::Ppm)
        } else {
            Err(OutputError::PpmDownsampling)
        },
        ends_with_ignoring_case(name, ".yuv"@) ==> output_check(
            name,
            num_comps,
            employing_ct,
            downsampling,
        ) == if !(num_comps == 1 || num_comps == 3) {
            Err(OutputError::YuvComponents(num_comps))
        } else if employing_ct {
            Err(OutputError::YuvColourTransform)
        } else {
            Ok::<OutputKind, OutputError>(OutputKind::Yuv)
        },
        ends_with_ignoring_case(name, ".rawl"@) || ends_with_ignoring_case(name, ".raw"@)
            ==> output_check(name, num_comps, employing_ct, downsampling) == if num_comps == 1 {
            Ok::<OutputKind, OutputError>(OutputKind::Rawl)
        } else {
            Err(OutputError::RawlComponents(num_comps))
        },
        !ends_with_ignoring_case(name, ".pgm"@) && !ends_with_ignoring_case(name, ".ppm"@)
            && !ends_with_ignoring_case(name, ".yuv"@) && !ends_with_ignoring_case(name, ".rawl"@)
            && !ends_with_ignoring_case(name, ".raw"@) ==> output_check(
            name,
            num_comps,
            employing_ct,
            downsampling,
        ) == Err::<OutputKind, OutputError>(OutputError::Unsupported),
{
    lemma_extensions_exclusive(name);
    if num_comps == 3 && !(downsampling[1] == downsampling[0] && downsampling[2]
        == downsampling[0]) {
        if downsampling[1] != downsampling[0] {
            assert(1 <= 1 < 3 && downsampling[1] != downsampling[0]);
        } else {
            assert(1 <= 2 < 3 && downsampling[2] != downsampling[0]);
        }
    }
}

} // verus!
