//! Item properties.

use crate::box_parser::{same_type, BoxType};
use vstd::prelude::*;
use vstd::slice::slice_to_vec;

verus! {

/// `av1C` — AV1 codec configuration record.
pub const AV1C: BoxType = [0x61, 0x76, 0x31, 0x43];
/// `ispe` — image spatial extents.
pub const ISPE: BoxType = [0x69, 0x73, 0x70, 0x65];
/// `colr` — colour information.
pub const COLR: BoxType = [0x63, 0x6f, 0x6c, 0x72];
/// `pixi` — pixel information.
pub const PIXI: BoxType = [0x70, 0x69, 0x78, 0x69];
/// `pasp` — pixel aspect ratio.
pub const PASP: BoxType = [0x70, 0x61, 0x73, 0x70];
/// `irot` — image rotation.
pub const IROT: BoxType = [0x69, 0x72, 0x6f, 0x74];
/// `imir` — image mirror.
pub const IMIR: BoxType = [0x69, 0x6d, 0x69, 0x72];
/// `clap` — clean aperture.
pub const CLAP: BoxType = [0x63, 0x6c, 0x61, 0x70];
/// `auxC` — auxiliary type.
pub const AUXC: BoxType = [0x61, 0x75, 0x78, 0x43];
/// `mdcv` — mastering display colour volume.
pub const MDCV: BoxType = [0x6d, 0x64, 0x63, 0x76];
/// `clli` — content light level.
pub const CLLI: BoxType = [0x63, 0x6c, 0x6c, 0x69];
/// `cclv` — colour volume luminance.
pub const CCLV: BoxType = [0x63, 0x63, 0x6c, 0x76];
/// `amve` — ambient viewing environment.
pub const AMVE: BoxType = [0x61, 0x6d, 0x76, 0x65];
/// `rloc` — relative location.
pub const RLOC: BoxType = [0x72, 0x6c, 0x6f, 0x63];
/// `lsel` — layer selector.
pub const LSEL: BoxType = [0x6c, 0x73, 0x65, 0x6c];
/// `a1op` — operating point selector.
pub const A1OP: BoxType = [0x61, 0x31, 0x6f, 0x70];
/// `a1lx` — layered image indexing.
pub const A1LX: BoxType = [0x61, 0x31, 0x6c, 0x78];
/// `iscl` — image scaling.
pub const ISCL: BoxType = [0x69, 0x73, 0x63, 0x6c];
/// `rref` — required reference types.
pub const RREF: BoxType = [0x72, 0x72, 0x65, 0x66];
/// `crtt` — creation time.
pub const CRTT: BoxType = [0x63, 0x72, 0x74, 0x74];
/// `mdft` — modification time.
pub const MDFT: BoxType = [0x6d, 0x64, 0x66, 0x74];
/// `udes` — user description.
pub const UDES: BoxType = [0x75, 0x64, 0x65, 0x73];
/// `altt` — accessibility text.
pub const ALTT: BoxType = [0x61, 0x6c, 0x74, 0x74];
/// `aebr` — auto exposure.
pub const AEBR: BoxType = [0x61, 0x65, 0x62, 0x72];
/// `wbbr` — white balance.
pub const WBBR: BoxType = [0x77, 0x62, 0x62, 0x72];
/// `fobr` — focus.
pub const FOBR: BoxType = [0x66, 0x6f, 0x62, 0x72];
/// `afbr` — flash exposure.
pub const AFBR: BoxType = [0x61, 0x66, 0x62, 0x72];
/// `dobr` — depth of field.
pub const DOBR: BoxType = [0x64, 0x6f, 0x62, 0x72];
/// `pano` — panorama.
pub const PANO: BoxType = [0x70, 0x61, 0x6e, 0x6f];

/// `nclx` — coded colour description.
pub const NCLX: BoxType = [0x6e, 0x63, 0x6c, 0x78];
/// `rICC` — restricted ICC profile.
pub const RICC: BoxType = [0x72, 0x49, 0x43, 0x43];
/// `prof` — unrestricted ICC profile.
pub const PROF: BoxType = [0x70, 0x72, 0x6f, 0x66];

/// What an auxiliary image represents.
#[derive(Clone, Copy, Debug, PartialEq, Eq, Structural)]
pub enum AuxKind {
    /// Alpha plane.
    Alpha,
    /// Depth map.
    DepthMap,
    /// Apple HDR gain map.
    HdrGainMap,
    /// Any other auxiliary use.
    Other,
}

/// Auxiliary type URN: alpha plane.
pub const AUX_URN_ALPHA_MPEG: &'static str = "urn:mpeg:mpegB:cicp:systems:auxiliary:alpha";
/// Auxiliary type URN: alpha plane, HEVC spelling.
pub const AUX_URN_ALPHA_HEVC: &'static str = "urn:mpeg:hevc:2015:auxid:1";
/// Auxiliary type URN: depth map.
pub const AUX_URN_DEPTH_MPEG: &'static str = "urn:mpeg:mpegB:cicp:systems:auxiliary:depth";
/// Auxiliary type URN: depth map, HEVC spelling.
pub const AUX_URN_DEPTH_HEVC: &'static str = "urn:mpeg:hevc:2015:auxid:2";
/// Auxiliary type URN: Apple HDR gain map.
pub const AUX_URN_HDR_GAINMAP: &'static str = "urn:com:apple:photo:2020:aux:hdrgainmap";

/// Image spatial extents (`ispe`): pixel dimensions before any
/// transformation.
#[derive(Clone, Copy, Debug, PartialEq, Eq, Structural)]
pub struct Ispe {
    /// Width in pixels.
    pub width: u32,
    /// Height in pixels.
    pub height: u32,
}

/// Pixel information (`pixi`): bits per channel.
#[derive(Clone, Debug, PartialEq, Eq)]
pub struct Pixi {
    /// One bit depth per channel.
    pub bits_per_channel: Vec<u8>,
}

impl View for Pixi {
    type V = Seq<u8>;

    open spec fn view(&self) -> Seq<u8> {
        self.bits_per_channel@
    }
}

/// The greatest element, 0 for no elements.
pub open spec fn max_of(s: Seq<u8>) -> u8
    decreases s.len(),
{
    if s.len() == 0 {
        0
    } else if s.last() > max_of(s.drop_last()) {
        s.last()
    } else {
        max_of(s.drop_last())
    }
}

/// The greatest element bounds every element, and is one of them unless
/// the sequence is empty.
pub proof fn lemma_max_of(s: Seq<u8>)
    ensures
        forall|i: int| 0 <= i < s.len() ==> s[i] <= max_of(s),
        s.len() > 0 ==> s.contains(max_of(s)),
        s.len() == 0 ==> max_of(s) == 0,
    decreases s.len(),
{
    if s.len() > 0 {
        let t = s.drop_last();
        lemma_max_of(t);
        assert forall|i: int| 0 <= i < s.len() implies s[i] <= max_of(s) by {
            if i < t.len() {
                assert(t[i] == s[i]);
            }
        }
        if s.last() > max_of(t) || t.len() == 0 {
            assert(max_of(s) == s.last());
            assert(s[s.len() - 1] == max_of(s));
        } else {
            let k = choose|k: int| 0 <= k < t.len() && t[k] == max_of(t);
            assert(s[k] == max_of(s));
        }
    }
}

/// The greatest bit depth of a channel list.
pub fn max_depth(bits: &Vec<u8>) -> (r: u8)
    ensures
        r == max_of(bits@),
{
    let mut m: u8 = 0;
    let mut i: usize = 0;
    while i < bits.len()
        invariant
            i <= bits.len(),
            m == max_of(bits@.take(i as int)),
        decreases bits.len() - i,
    {
        proof {
            assert(bits@.take(i as int + 1).drop_last() =~= bits@.take(i as int));
        }
        if bits[i] > m {
            m = bits[i];
        }
        i = i + 1;
    }
    proof {
        assert(bits@.take(i as int) =~= bits@);
    }
    m
}

impl Pixi {
    /// Number of channels.
    pub fn num_channels(&self) -> (r: usize)
        ensures
            r == self@.len(),
    {
        self.bits_per_channel.len()
    }

    /// Greatest bit depth over all channels, 0 when there are none.
    pub fn max_bit_depth(&self) -> (r: u8)
        ensures
            r == max_of(self@),
    {
        max_depth(&self.bits_per_channel)
    }

    /// Whether there is a channel and every channel has the same depth.
    pub fn is_uniform_depth(&self) -> (r: bool)
        ensures
            r == (self@.len() > 0 && forall|i: int|
                0 <= i < self@.len() ==> #[trigger] self@[i] == self@[0]),
    {
        if self.bits_per_channel.len() == 0 {
            return false;
        }
        let first: u8 = self.bits_per_channel[0];
        let mut i: usize = 1;
        while i < self.bits_per_channel.len()
            invariant
                1 <= i <= self@.len(),
                first == self@[0],
                forall|j: int| 0 <= j < i ==> self@[j] == first,
            decreases self@.len() - i,
        {
            if self.bits_per_channel[i] != first {
                assert(self@[i as int] != self@[0]);
                return false;
            }
            i = i + 1;
        }
        true
    }
}

/// Pixel aspect ratio (`pasp`): the spacing of a pixel, horizontal to
/// vertical.
#[derive(Clone, Copy, Debug, PartialEq, Eq, Structural)]
pub struct Pasp {
    /// Horizontal spacing.
    pub h_spacing: u32,
    /// Vertical spacing.
    pub v_spacing: u32,
}

impl Pasp {
    /// Whether the pixels are square; the meaningless `(0, 0)` is not.
    pub fn is_square(&self) -> (r: bool)
        ensures
            r == (self.h_spacing == self.v_spacing && self.h_spacing != 0),
    {
        self.h_spacing != 0 && self.v_spacing != 0 && self.h_spacing == self.v_spacing
    }

    /// The terms of the pixel aspect ratio; nothing where the ratio is
    /// undefined.
    pub fn ratio_terms(&self) -> (r: Option<(u32, u32)>)
        ensures
            self.v_spacing == 0 ==> r is None,
            self.v_spacing != 0 ==> r == Some((self.h_spacing, self.v_spacing)),
    {
        if self.v_spacing == 0 {
            None
        } else {
            Some((self.h_spacing, self.v_spacing))
        }
    }
}

/// Colour information (`colr`): a coded colour description, an ICC
/// profile, or a colour type this crate does not interpret.
#[derive(Debug, PartialEq, Eq)]
pub enum Colr {
    /// Colour code points.
    Nclx {
        /// Colour primaries.
        colour_primaries: u16,
        /// Transfer characteristics.
        transfer_characteristics: u16,
        /// Matrix coefficients.
        matrix_coefficients: u16,
        /// Full-range flag.
        full_range: bool,
    },
    /// ICC profile bytes.
    Icc(Vec<u8>),
    /// Any other colour type.
    Unknown(BoxType),
}

/// A [`Colr`] as contracts speak of it.
pub enum ColrView {
    /// Colour code points.
    Nclx {
        /// Colour primaries.
        colour_primaries: u16,
        /// Transfer characteristics.
        transfer_characteristics: u16,
        /// Matrix coefficients.
        matrix_coefficients: u16,
        /// Full-range flag.
        full_range: bool,
    },
    /// ICC profile bytes.
    Icc(Seq<u8>),
    /// Any other colour type.
    Unknown(BoxType),
}

impl View for Colr {
    type V = ColrView;

    open spec fn view(&self) -> ColrView {
        match self {
            Colr::Nclx {
                colour_primaries,
                transfer_characteristics,
                matrix_coefficients,
                full_range,
            } => ColrView::Nclx {
                colour_primaries: *colour_primaries,
                transfer_characteristics: *transfer_characteristics,
                matrix_coefficients: *matrix_coefficients,
                full_range: *full_range,
            },
            Colr::Icc(b) => ColrView::Icc(b@),
            Colr::Unknown(t) => ColrView::Unknown(*t),
        }
    }
}

impl Clone for Colr {
    fn clone(&self) -> (r: Self)
        ensures
            r@ == self@,
    {
        match self {
            Colr::Nclx {
                colour_primaries,
                transfer_characteristics,
                matrix_coefficients,
                full_range,
            } => Colr::Nclx {
                colour_primaries: *colour_primaries,
                transfer_characteristics: *transfer_characteristics,
                matrix_coefficients: *matrix_coefficients,
                full_range: *full_range,
            },
            Colr::Icc(b) => Colr::Icc(slice_to_vec(b.as_slice())),
            Colr::Unknown(t) => Colr::Unknown(*t),
        }
    }
}

/// Image rotation (`irot`): anti-clockwise, in quarter turns.
#[derive(Clone, Copy, Debug, PartialEq, Eq, Structural)]
pub struct Irot {
    /// Quarter turns, 0 to 3.
    pub angle: u8,
}

/// Image mirror (`imir`): axis 0 swaps top and bottom, axis 1 left and
/// right.
#[derive(Clone, Copy, Debug, PartialEq, Eq, Structural)]
pub struct Imir {
    /// Mirror axis, 0 or 1.
    pub axis: u8,
}

/// Clean aperture (`clap`): crop width, crop height, horizontal and
/// vertical offset, each a fraction.
#[derive(Clone, Copy, Debug, PartialEq, Eq, Structural)]
pub struct Clap {
    /// Width numerator.
    pub clean_aperture_width_n: i32,
    /// Width denominator.
    pub clean_aperture_width_d: i32,
    /// Height numerator.
    pub clean_aperture_height_n: i32,
    /// Height denominator.
    pub clean_aperture_height_d: i32,
    /// Horizontal offset numerator.
    pub horiz_off_n: i32,
    /// Horizontal offset denominator.
    pub horiz_off_d: i32,
    /// Vertical offset numerator.
    pub vert_off_n: i32,
    /// Vertical offset denominator.
    pub vert_off_d: i32,
}

/// Auxiliary item type (`auxC`): a URN naming the use, and bytes that
/// depend on it.
#[derive(Clone, Debug, PartialEq, Eq)]
pub struct AuxC {
    /// URN of the auxiliary use.
    pub aux_type: String,
    /// Bytes after the URN.
    pub aux_subtype: Vec<u8>,
}

/// An [`AuxC`] as contracts speak of it.
pub struct AuxCView {
    /// URN of the auxiliary use.
    pub aux_type: Seq<char>,
    /// Bytes after the URN.
    pub aux_subtype: Seq<u8>,
}

impl View for AuxC {
    type V = AuxCView;

    open spec fn view(&self) -> AuxCView {
        AuxCView { aux_type: self.aux_type@, aux_subtype: self.aux_subtype@ }
    }
}

/// The use that an auxiliary type URN names. The match is exact.
pub open spec fn aux_kind(urn: Seq<char>) -> AuxKind {
    if urn == AUX_URN_ALPHA_MPEG@ || urn == AUX_URN_ALPHA_HEVC@ {
        AuxKind::Alpha
    } else if urn == AUX_URN_DEPTH_MPEG@ || urn == AUX_URN_DEPTH_HEVC@ {
        AuxKind::DepthMap
    } else if urn == AUX_URN_HDR_GAINMAP@ {
        AuxKind::HdrGainMap
    } else {
        AuxKind::Other
    }
}

/// Whether two texts are the same.
pub(crate) fn same_text(a: &str, b: &str) -> (r: bool)
    ensures
        r == (a@ == b@),
{
    let x = a.to_string();
    let y = b.to_string();
    x == y
}

impl AuxC {
    /// The use that the URN names; [`AuxKind::Other`] when it is none of
    /// the known ones.
    pub fn kind(&self) -> (r: AuxKind)
        ensures
            r == aux_kind(self.aux_type@),
    {
        let urn = self.aux_type.as_str();
        if same_text(urn, AUX_URN_ALPHA_MPEG) || same_text(urn, AUX_URN_ALPHA_HEVC) {
            AuxKind::Alpha
        } else if same_text(urn, AUX_URN_DEPTH_MPEG) || same_text(urn, AUX_URN_DEPTH_HEVC) {
            AuxKind::DepthMap
        } else if same_text(urn, AUX_URN_HDR_GAINMAP) {
            AuxKind::HdrGainMap
        } else {
            AuxKind::Other
        }
    }

    /// Whether this is an alpha plane.
    pub fn is_alpha(&self) -> (r: bool)
        ensures
            r == (aux_kind(self.aux_type@) == AuxKind::Alpha),
    {
        matches!(self.kind(), AuxKind::Alpha)
    }

    /// Whether this is a depth map.
    pub fn is_depth_map(&self) -> (r: bool)
        ensures
            r == (aux_kind(self.aux_type@) == AuxKind::DepthMap),
    {
        matches!(self.kind(), AuxKind::DepthMap)
    }

    /// Whether this is an Apple HDR gain map.
    pub fn is_hdr_gain_map(&self) -> (r: bool)
        ensures
            r == (aux_kind(self.aux_type@) == AuxKind::HdrGainMap),
    {
        matches!(self.kind(), AuxKind::HdrGainMap)
    }
}

/// Relative location (`rloc`): where the item lies inside a related
/// image, in pixels.
#[derive(Clone, Copy, Debug, PartialEq, Eq, Structural)]
pub struct Rloc {
    /// Horizontal offset.
    pub horizontal_offset: u32,
    /// Vertical offset.
    pub vertical_offset: u32,
}

/// Layer selector (`lsel`).
#[derive(Clone, Copy, Debug, PartialEq, Eq, Structural)]
pub struct Lsel {
    /// Layer to present.
    pub layer_id: u16,
}

/// Operating point selector (`a1op`).
#[derive(Clone, Copy, Debug, PartialEq, Eq, Structural)]
pub struct A1op {
    /// Operating point to process.
    pub op_index: u8,
}

/// Layered image indexing (`a1lx`): the byte size of each layer but the
/// last. A zero ends the list.
#[derive(Clone, Copy, Debug, PartialEq, Eq)]
pub struct A1lx {
    /// Whether the sizes are stored in 32 bits rather than 16.
    pub large_size: bool,
    /// Layer sizes in bytes.
    pub layer_size: [u32; 3],
}

/// How many leading values are not zero.
pub open spec fn leading_nonzero(s: Seq<u32>) -> nat
    decreases s.len(),
{
    if s.len() == 0 || s[0] == 0 {
        0
    } else {
        1 + leading_nonzero(s.skip(1))
    }
}

impl A1lx {
    /// Number of layers whose size is given: the leading non-zero sizes.
    pub fn documented_layers(&self) -> (r: usize)
        ensures
            r == leading_nonzero(self.layer_size@),
    {
        proof {
            let s = self.layer_size@;
            reveal_with_fuel(leading_nonzero, 4);
            assert(s.skip(1)[0] == s[1]);
            assert(s.skip(1).skip(1)[0] == s[2]);
            assert(s.skip(1).skip(1).skip(1).len() == 0);
        }
        if self.layer_size[0] == 0 {
            0
        } else if self.layer_size[1] == 0 {
            1
        } else if self.layer_size[2] == 0 {
            2
        } else {
            3
        }
    }
}

/// Mastering display colour volume (`mdcv`): chromaticities in units of
/// 1/50000, luminances in units of 1/10000 cd/m².
#[derive(Clone, Copy, Debug, PartialEq, Eq)]
pub struct Mdcv {
    /// Three display primaries, in file order.
    pub display_primaries_xy: [(u16, u16); 3],
    /// White point.
    pub white_point_xy: (u16, u16),
    /// Greatest display luminance.
    pub max_display_mastering_luminance: u32,
    /// Least display luminance.
    pub min_display_mastering_luminance: u32,
}

/// Content light level (`clli`), in cd/m².
#[derive(Clone, Copy, Debug, PartialEq, Eq, Structural)]
pub struct Clli {
    /// Greatest light level of a pixel.
    pub max_content_light_level: u16,
    /// Greatest average light level of a picture.
    pub max_pic_average_light_level: u16,
}

/// Colour volume luminance (`cclv`), laid out and read as `clli`.
#[derive(Clone, Copy, Debug, PartialEq, Eq, Structural)]
pub struct Cclv {
    /// Greatest light level of a pixel.
    pub max_content_light_level: u16,
    /// Greatest average light level of a picture.
    pub max_pic_average_light_level: u16,
}

/// Ambient viewing environment (`amve`).
#[derive(Clone, Copy, Debug, PartialEq, Eq, Structural)]
pub struct Amve {
    /// Illuminance in units of 1/10000 lux.
    pub ambient_illuminance: u32,
    /// Chromaticity x of the ambient light.
    pub ambient_light_x: u16,
    /// Chromaticity y of the ambient light.
    pub ambient_light_y: u16,
}

/// Image scaling (`iscl`): independent horizontal and vertical ratios.
#[derive(Clone, Copy, Debug, PartialEq, Eq, Structural)]
pub struct Iscl {
    /// Horizontal numerator.
    pub target_width_numerator: u16,
    /// Horizontal denominator.
    pub target_width_denominator: u16,
    /// Vertical numerator.
    pub target_height_numerator: u16,
    /// Vertical denominator.
    pub target_height_denominator: u16,
}

/// `n / d` rounded up.
pub open spec fn div_up(n: int, d: int) -> int {
    if n % d == 0 { n / d } else { n / d + 1 }
}

/// A value, or the greatest 32-bit value when it is larger.
pub open spec fn at_most_u32(n: int) -> u32 {
    if n <= u32::MAX { n as u32 } else { u32::MAX }
}

/// `n / d` rounded up; 0 when `d` is 0.
pub fn div_ceil_u64(n: u64, d: u64) -> (r: u64)
    ensures
        d != 0 ==> r == div_up(n as int, d as int),
        d == 0 ==> r == 0,
{
    if d == 0 {
        return 0;
    }
    let q: u64 = n / d;
    if n % d != 0 {
        proof {
            assert(q < n) by (nonlinear_arith)
                requires
                    q == n / d,
                    d > 0,
                    n % d != 0,
            {
                assert(n == d * (n / d) + n % d);
                assert(d * (n / d) >= n / d);
            }
        }
        q + 1
    } else {
        q
    }
}

impl Iscl {
    /// Whether no numerator and no denominator is zero.
    pub fn is_well_formed(&self) -> (r: bool)
        ensures
            r == (self.target_width_numerator != 0 && self.target_width_denominator != 0
                && self.target_height_numerator != 0 && self.target_height_denominator != 0),
    {
        self.target_width_numerator != 0 && self.target_width_denominator != 0
            && self.target_height_numerator != 0 && self.target_height_denominator != 0
    }

    /// The dimensions of a scaled input: each is the input times the
    /// ratio, rounded up, at most `u32::MAX`. `None` when a denominator
    /// is zero.
    pub fn scaled_dims(&self, input_width: u32, input_height: u32) -> (r: Option<(u32, u32)>)
        ensures
            r == if self.target_width_denominator == 0 || self.target_height_denominator == 0 {
                None::<(u32, u32)>
            } else {
                Some(
                    (
                        at_most_u32(
                            div_up(
                                input_width * self.target_width_numerator,
                                self.target_width_denominator as int,
                            ),
                        ),
                        at_most_u32(
                            div_up(
                                input_height * self.target_height_numerator,
                                self.target_height_denominator as int,
                            ),
                        ),
                    ),
                )
            },
    {
        if self.target_width_denominator == 0 || self.target_height_denominator == 0 {
            return None;
        }
        proof {
            assert(input_width * self.target_width_numerator <= 0xffff_ffff * 0xffff)
                by (nonlinear_arith)
                requires
                    input_width <= 0xffff_ffff,
                    self.target_width_numerator <= 0xffff,
            ;
            assert(input_height * self.target_height_numerator <= 0xffff_ffff * 0xffff)
                by (nonlinear_arith)
                requires
                    input_height <= 0xffff_ffff,
                    self.target_height_numerator <= 0xffff,
            ;
        }
        let w: u64 = div_ceil_u64(
            input_width as u64 * self.target_width_numerator as u64,
            self.target_width_denominator as u64,
        );
        let h: u64 = div_ceil_u64(
            input_height as u64 * self.target_height_numerator as u64,
            self.target_height_denominator as u64,
        );
        Some((clamp_u32(w), clamp_u32(h)))
    }
}

fn clamp_u32(n: u64) -> (r: u32)
    ensures
        r == at_most_u32(n as int),
{
    if n <= 0xffff_ffff {
        n as u32
    } else {
        0xffff_ffff
    }
}

/// Required reference types (`rref`): the reference types a reader has
/// to understand to decode the item.
#[derive(Clone, Debug, PartialEq, Eq)]
pub struct Rref {
    /// Reference types, in file order.
    pub reference_types: Vec<BoxType>,
}

impl View for Rref {
    type V = Seq<BoxType>;

    open spec fn view(&self) -> Seq<BoxType> {
        self.reference_types@
    }
}

impl Rref {
    /// Number of required reference types.
    pub fn count(&self) -> (r: usize)
        ensures
            r == self@.len(),
    {
        self.reference_types.len()
    }

    /// Whether `four_cc` is one of them.
    pub fn requires_type(&self, four_cc: &BoxType) -> (r: bool)
        ensures
            r == self@.contains(*four_cc),
    {
        let mut i: usize = 0;
        while i < self.reference_types.len()
            invariant
                i <= self@.len(),
                forall|j: int| 0 <= j < i ==> self@[j] != *four_cc,
            decreases self@.len() - i,
        {
            if same_type(&self.reference_types[i], four_cc) {
                assert(self@[i as int] == *four_cc);
                return true;
            }
            i = i + 1;
        }
        false
    }
}

/// Creation time (`crtt`).
#[derive(Clone, Copy, Debug, PartialEq, Eq, Structural)]
pub struct Crtt {
    /// Microseconds since 1904-01-01 00:00 UTC.
    pub creation_time: u64,
}

/// Seconds from 1904-01-01 to 1970-01-01, both at 00:00 UTC.
pub const HEIF_EPOCH_TO_UNIX_EPOCH_SECONDS: u64 = 2_082_844_800;

/// Seconds since 1970 of a time in microseconds since 1904, if it is not
/// before 1970.
pub open spec fn unix_seconds(micros: u64) -> Option<u64> {
    if micros / 1_000_000 >= HEIF_EPOCH_TO_UNIX_EPOCH_SECONDS {
        Some((micros / 1_000_000 - HEIF_EPOCH_TO_UNIX_EPOCH_SECONDS) as u64)
    } else {
        None
    }
}

fn to_unix_seconds(micros: u64) -> (r: Option<u64>)
    ensures
        r == unix_seconds(micros),
{
    let secs: u64 = micros / 1_000_000;
    if secs >= HEIF_EPOCH_TO_UNIX_EPOCH_SECONDS {
        Some(secs - HEIF_EPOCH_TO_UNIX_EPOCH_SECONDS)
    } else {
        None
    }
}

impl Crtt {
    /// Whole seconds since 1970-01-01 UTC; `None` for an earlier time.
    pub fn seconds_since_unix_epoch(&self) -> (r: Option<u64>)
        ensures
            r == unix_seconds(self.creation_time),
    {
        to_unix_seconds(self.creation_time)
    }

    /// Microseconds past the whole second.
    pub fn subsecond_micros(&self) -> (r: u32)
        ensures
            r == self.creation_time % 1_000_000,
    {
        (self.creation_time % 1_000_000) as u32
    }
}

/// Modification time (`mdft`).
#[derive(Clone, Copy, Debug, PartialEq, Eq, Structural)]
pub struct Mdft {
    /// Microseconds since 1904-01-01 00:00 UTC.
    pub modification_time: u64,
}

impl Mdft {
    /// Whole seconds since 1970-01-01 UTC; `None` for an earlier time.
    pub fn seconds_since_unix_epoch(&self) -> (r: Option<u64>)
        ensures
            r == unix_seconds(self.modification_time),
    {
        to_unix_seconds(self.modification_time)
    }

    /// Microseconds past the whole second.
    pub fn subsecond_micros(&self) -> (r: u32)
        ensures
            r == self.modification_time % 1_000_000,
    {
        (self.modification_time % 1_000_000) as u32
    }
}

/// The whole seconds and the microseconds past them make up the time
/// again.
pub proof fn law_time_splits(micros: u64)
    ensures
        unix_seconds(micros) matches Some(s) ==> micros == (s
            + HEIF_EPOCH_TO_UNIX_EPOCH_SECONDS) * 1_000_000 + micros % 1_000_000,
        unix_seconds(micros) is None <==> micros < HEIF_EPOCH_TO_UNIX_EPOCH_SECONDS * 1_000_000,
{
}

/// User description (`udes`): a name, a description and tags, in one
/// language. An empty string stands for an absent one.
#[derive(Clone, Debug, Default, PartialEq, Eq)]
pub struct Udes {
    /// Language tag.
    pub lang: String,
    /// Name.
    pub name: String,
    /// Description.
    pub description: String,
    /// Comma-separated tags.
    pub tags: String,
}

/// A [`Udes`] as contracts speak of it.
pub struct UdesView {
    /// Language tag.
    pub lang: Seq<char>,
    /// Name.
    pub name: Seq<char>,
    /// Description.
    pub description: Seq<char>,
    /// Comma-separated tags.
    pub tags: Seq<char>,
}

impl View for Udes {
    type V = UdesView;

    open spec fn view(&self) -> UdesView {
        UdesView {
            lang: self.lang@,
            name: self.name@,
            description: self.description@,
            tags: self.tags@,
        }
    }
}

/// A text, or nothing when it is empty.
pub open spec fn text_opt(s: Seq<char>) -> Option<Seq<char>> {
    if s.len() == 0 { None } else { Some(s) }
}

/// An optional text by its view.
pub open spec fn opt_str(s: Option<&str>) -> Option<Seq<char>> {
    match s {
        Some(t) => Some(t@),
        None => None,
    }
}

fn non_empty(s: &String) -> (r: Option<&str>)
    ensures
        opt_str(r) == text_opt(s@),
{
    let t = s.as_str();
    if t.is_empty() {
        None
    } else {
        Some(t)
    }
}

/// Whether a character has the Unicode property White_Space: tab to
/// carriage return, the spaces, the line and paragraph separators, and
/// the next-line control.
pub open spec fn white_space(c: char) -> bool {
    let n = c as u32;
    ||| 0x9 <= n <= 0xd
    ||| n == 0x20
    ||| n == 0x85
    ||| n == 0xa0
    ||| n == 0x1680
    ||| 0x2000 <= n <= 0x200a
    ||| n == 0x2028
    ||| n == 0x2029
    ||| n == 0x202f
    ||| n == 0x205f
    ||| n == 0x3000
}

/// `char::is_whitespace`: whether `c` has the Unicode property
/// White_Space.
#[verifier::external_body]
fn is_white(c: char) -> (r: bool)
    ensures
        r == white_space(c),
{
    c.is_whitespace()
}

/// Offset of the first comma at or after `at`; the length when there is
/// none.
pub open spec fn comma_from(s: Seq<char>, at: int) -> int
    decreases s.len() - at,
{
    if at < 0 || at >= s.len() {
        s.len() as int
    } else if s[at] == ',' {
        at
    } else {
        comma_from(s, at + 1)
    }
}

/// Offset of the first character of `s[at..end]` that is not white
/// space; `end` when there is none.
pub open spec fn skip_white(s: Seq<char>, at: int, end: int) -> int
    decreases end - at,
{
    if at >= end || !white_space(s[at]) {
        at
    } else {
        skip_white(s, at + 1, end)
    }
}

/// `end` moved back over the white space that ends `s[at..end]`.
pub open spec fn drop_white(s: Seq<char>, at: int, end: int) -> int
    decreases end - at,
{
    if end <= at || !white_space(s[end - 1]) {
        end
    } else {
        drop_white(s, at, end - 1)
    }
}

/// `s[at..end]` without white space at either end.
pub open spec fn trimmed(s: Seq<char>, at: int, end: int) -> Seq<char> {
    let from = skip_white(s, at, end);
    s.subrange(from, drop_white(s, from, end))
}

/// The tags listed from `at` on: the parts between commas, trimmed, the
/// empty ones left out.
pub open spec fn tags_from(s: Seq<char>, at: int) -> Seq<Seq<char>>
    decreases s.len() + 1 - at,
{
    if at < 0 || at > s.len() {
        Seq::empty()
    } else {
        let end = comma_from(s, at);
        let rest = if at <= end <= s.len() {
            tags_from(s, end + 1)
        } else {
            Seq::empty()
        };
        if trimmed(s, at, end).len() == 0 {
            rest
        } else {
            seq![trimmed(s, at, end)] + rest
        }
    }
}

/// The texts of a list.
pub open spec fn str_views(s: Seq<&str>) -> Seq<Seq<char>> {
    Seq::new(s.len(), |i: int| s[i]@)
}

impl Udes {
    /// The language, unless it is empty.
    pub fn lang_opt(&self) -> (r: Option<&str>)
        ensures
            opt_str(r) == text_opt(self.lang@),
    {
        non_empty(&self.lang)
    }

    /// The name, unless it is empty.
    pub fn name_opt(&self) -> (r: Option<&str>)
        ensures
            opt_str(r) == text_opt(self.name@),
    {
        non_empty(&self.name)
    }

    /// The description, unless it is empty.
    pub fn description_opt(&self) -> (r: Option<&str>)
        ensures
            opt_str(r) == text_opt(self.description@),
    {
        non_empty(&self.description)
    }

    /// The tags, unless the text is empty, as they stand.
    pub fn tags_opt(&self) -> (r: Option<&str>)
        ensures
            opt_str(r) == text_opt(self.tags@),
    {
        non_empty(&self.tags)
    }

    /// The tags one by one: split at commas, trimmed, blank ones left
    /// out.
    pub fn tag_list(&self) -> (r: Vec<&str>)
        ensures
            str_views(r@) == tags_from(self.tags@, 0),
    {
        let s = self.tags.as_str();
        let n: usize = s.unicode_len();
        let mut out: Vec<&str> = Vec::new();
        let mut at: usize = 0;
        proof {
            assert(str_views(out@) + tags_from(s@, 0) =~= tags_from(s@, 0));
        }
        loop
            invariant_except_break
                at <= n,
                str_views(out@) + tags_from(s@, at as int) == tags_from(s@, 0),
            invariant
                n == s@.len(),
            ensures
                str_views(out@) == tags_from(s@, 0),
            decreases n - at,
        {
            let mut end: usize = at;
            while end < n && s.get_char(end) != ','
                invariant
                    at <= end <= n,
                    n == s@.len(),
                    comma_from(s@, at as int) == comma_from(s@, end as int),
                decreases n - end,
            {
                end = end + 1;
            }
            let mut from: usize = at;
            while from < end && is_white(s.get_char(from))
                invariant
                    at <= from <= end <= n,
                    n == s@.len(),
                    skip_white(s@, at as int, end as int) == skip_white(s@, from as int, end as int),
                decreases end - from,
            {
                from = from + 1;
            }
            let mut to: usize = end;
            while to > from && is_white(s.get_char(to - 1))
                invariant
                    at <= from <= to <= end <= n,
                    n == s@.len(),
                    drop_white(s@, from as int, end as int) == drop_white(s@, from as int, to as int),
                decreases to - from,
            {
                to = to - 1;
            }
            let ghost before = out@;
            if from < to {
                let tag = s.substring_char(from, to);
                out.push(tag);
                proof {
                    assert(str_views(before.push(tag)) =~= str_views(before).push(tag@));
                }
            }
            proof {
                assert(comma_from(s@, at as int) == end);
                assert(trimmed(s@, at as int, end as int) == s@.subrange(from as int, to as int));
                let rest = tags_from(s@, end + 1);
                if from < to {
                    assert(str_views(out@) + rest =~= str_views(before) + (seq![
                        s@.subrange(from as int, to as int),
                    ] + rest));
                }
                assert(str_views(out@) + rest == tags_from(s@, 0));
            }
            if end >= n {
                proof {
                    assert(tags_from(s@, end + 1) =~= Seq::<Seq<char>>::empty());
                    assert(str_views(out@) + Seq::<Seq<char>>::empty() =~= str_views(out@));
                }
                break;
            }
            at = end + 1;
        }
        out
    }
}

/// Accessibility text (`altt`): text to show in place of the image, and
/// its language.
#[derive(Clone, Debug, Default, PartialEq, Eq)]
pub struct Altt {
    /// Alternate text.
    pub alt_text: String,
    /// Language tag; empty when unknown.
    pub alt_lang: String,
}

/// An [`Altt`] as contracts speak of it.
pub struct AlttView {
    /// Alternate text.
    pub alt_text: Seq<char>,
    /// Language tag.
    pub alt_lang: Seq<char>,
}

impl View for Altt {
    type V = AlttView;

    open spec fn view(&self) -> AlttView {
        AlttView { alt_text: self.alt_text@, alt_lang: self.alt_lang@ }
    }
}

impl Altt {
    /// The alternate text, unless it is empty.
    pub fn alt_text_opt(&self) -> (r: Option<&str>)
        ensures
            opt_str(r) == text_opt(self.alt_text@),
    {
        non_empty(&self.alt_text)
    }

    /// The language, unless it is empty.
    pub fn alt_lang_opt(&self) -> (r: Option<&str>)
        ensures
            opt_str(r) == text_opt(self.alt_lang@),
    {
        non_empty(&self.alt_lang)
    }
}

/// Auto exposure (`aebr`): the exposure offset is the numerator over the
/// step, in stops.
#[derive(Clone, Copy, Debug, Default, PartialEq, Eq, Structural)]
pub struct Aebr {
    /// Bracketing increment: 1 full, 2 half, 3 third, 4 quarter stop.
    pub exposure_step: i8,
    /// Exposure numerator.
    pub exposure_numerator: i8,
}

impl Aebr {
    /// Full-stop increment.
    pub const STEP_FULL: i8 = 1;
    /// Half-stop increment.
    pub const STEP_HALF: i8 = 2;
    /// Third-stop increment.
    pub const STEP_THIRD: i8 = 3;
    /// Quarter-stop increment.
    pub const STEP_QUARTER: i8 = 4;

    /// Whether the step is one of the four defined increments.
    pub fn is_defined_step(&self) -> (r: bool)
        ensures
            r == (1 <= self.exposure_step <= 4),
    {
        self.exposure_step == Self::STEP_FULL || self.exposure_step == Self::STEP_HALF
            || self.exposure_step == Self::STEP_THIRD || self.exposure_step == Self::STEP_QUARTER
    }

    /// The terms of the exposure offset in stops; nothing where the step
    /// is zero.
    pub fn exposure_terms(&self) -> (r: Option<(i8, i8)>)
        ensures
            self.exposure_step == 0 ==> r is None,
            self.exposure_step != 0 ==> r == Some((self.exposure_numerator, self.exposure_step)),
    {
        if self.exposure_step == 0 {
            None
        } else {
            Some((self.exposure_numerator, self.exposure_step))
        }
    }
}

/// White balance (`wbbr`).
#[derive(Clone, Copy, Debug, Default, PartialEq, Eq, Structural)]
pub struct Wbbr {
    /// Colour temperature in kelvin.
    pub blue_amber: u16,
    /// Colour deviation in units of 1/100 Duv: negative towards magenta,
    /// positive towards green.
    pub green_magenta: i8,
}

impl Wbbr {
    /// No green or magenta shift.
    pub const NEUTRAL_GREEN_MAGENTA: i8 = 0;

    /// The terms of the colour deviation in Duv.
    pub fn green_magenta_terms(&self) -> (r: (i8, i8))
        ensures
            r == (self.green_magenta, 100i8),
    {
        (self.green_magenta, 100)
    }

    /// Whether there is no green or magenta shift.
    pub fn is_green_magenta_neutral(&self) -> (r: bool)
        ensures
            r == (self.green_magenta == 0),
    {
        self.green_magenta == Self::NEUTRAL_GREEN_MAGENTA
    }
}

/// Focus (`fobr`): the distance in metres is the numerator over the
/// denominator; a zero denominator stands for infinity.
#[derive(Clone, Copy, Debug, Default, PartialEq, Eq, Structural)]
pub struct Fobr {
    /// Numerator of the distance.
    pub focus_distance_numerator: u16,
    /// Denominator of the distance.
    pub focus_distance_denominator: u16,
}

impl Fobr {
    /// The denominator that stands for focus at infinity.
    pub const INFINITY_DENOMINATOR: u16 = 0;

    /// The terms of the focus distance in metres; nothing at infinity.
    pub fn focus_distance_terms(&self) -> (r: Option<(u16, u16)>)
        ensures
            self.focus_distance_denominator == 0 ==> r is None,
            self.focus_distance_denominator != 0 ==> r == Some(
                (self.focus_distance_numerator, self.focus_distance_denominator),
            ),
    {
        if self.focus_distance_denominator == Self::INFINITY_DENOMINATOR {
            None
        } else {
            Some((self.focus_distance_numerator, self.focus_distance_denominator))
        }
    }

    /// Whether the focus is at infinity.
    pub fn is_focus_at_infinity(&self) -> (r: bool)
        ensures
            r == (self.focus_distance_denominator == 0),
    {
        self.focus_distance_denominator == Self::INFINITY_DENOMINATOR
    }

    /// Whether the focus is at infinity and the numerator is zero too,
    /// as a writer should leave it.
    pub fn has_well_formed_infinity_sentinel(&self) -> (r: bool)
        ensures
            r == (self.focus_distance_denominator == 0 && self.focus_distance_numerator == 0),
    {
        self.focus_distance_denominator == Self::INFINITY_DENOMINATOR
            && self.focus_distance_numerator == 0
    }
}

/// Flash exposure (`afbr`): numerator over denominator, in f-stops.
#[derive(Clone, Copy, Debug, Default, PartialEq, Eq, Structural)]
pub struct Afbr {
    /// Numerator of the flash exposure.
    pub flash_exposure_numerator: i8,
    /// Denominator of the flash exposure.
    pub flash_exposure_denominator: i8,
}

impl Afbr {
    /// The terms of the flash exposure in f-stops; nothing where the
    /// denominator is zero.
    pub fn flash_exposure_terms(&self) -> (r: Option<(i8, i8)>)
        ensures
            self.flash_exposure_denominator == 0 ==> r is None,
            self.flash_exposure_denominator != 0 ==> r == Some(
                (self.flash_exposure_numerator, self.flash_exposure_denominator),
            ),
    {
        if self.flash_exposure_denominator == 0 {
            None
        } else {
            Some((self.flash_exposure_numerator, self.flash_exposure_denominator))
        }
    }
}

/// Depth of field (`dobr`): the aperture change is the numerator over
/// the denominator, in stops.
#[derive(Clone, Copy, Debug, Default, PartialEq, Eq, Structural)]
pub struct Dobr {
    /// Numerator of the aperture change.
    pub f_stop_numerator: i8,
    /// Denominator of the aperture change.
    pub f_stop_denominator: i8,
}

impl Dobr {
    /// The terms of the aperture change in stops; nothing where the
    /// denominator is zero.
    pub fn aperture_terms(&self) -> (r: Option<(i8, i8)>)
        ensures
            self.f_stop_denominator == 0 ==> r is None,
            self.f_stop_denominator != 0 ==> r == Some(
                (self.f_stop_numerator, self.f_stop_denominator),
            ),
    {
        if self.f_stop_denominator == 0 {
            None
        } else {
            Some((self.f_stop_numerator, self.f_stop_denominator))
        }
    }
}

/// Shape of a grid panorama.
#[derive(Clone, Copy, Debug, Default, PartialEq, Eq, Structural)]
pub struct PanoGrid {
    /// Number of rows minus one.
    pub rows_minus_one: u8,
    /// Number of columns minus one.
    pub columns_minus_one: u8,
}

impl PanoGrid {
    /// Number of rows.
    pub fn rows(&self) -> (r: u16)
        ensures
            r == self.rows_minus_one + 1,
    {
        self.rows_minus_one as u16 + 1
    }

    /// Number of columns.
    pub fn columns(&self) -> (r: u16)
        ensures
            r == self.columns_minus_one + 1,
    {
        self.columns_minus_one as u16 + 1
    }
}

/// Panorama (`pano`): its direction and, for a grid, its shape.
#[derive(Clone, Copy, Debug, Default, PartialEq, Eq, Structural)]
pub struct Pano {
    /// Type of panorama and order of its images; 6 and above are
    /// undefined.
    pub panorama_direction: u8,
    /// Shape of a grid panorama.
    pub grid: Option<PanoGrid>,
}

impl Pano {
    /// Left to right.
    pub const DIRECTION_LEFT_TO_RIGHT: u8 = 0;
    /// Right to left.
    pub const DIRECTION_RIGHT_TO_LEFT: u8 = 1;
    /// Bottom to top.
    pub const DIRECTION_BOTTOM_TO_TOP: u8 = 2;
    /// Top to bottom.
    pub const DIRECTION_TOP_TO_BOTTOM: u8 = 3;
    /// Grid in raster-scan order.
    pub const DIRECTION_GRID_RASTER: u8 = 4;
    /// Grid in continuous (back and forth) order.
    pub const DIRECTION_GRID_CONTINUOUS: u8 = 5;

    /// Whether the direction is one of the six defined values.
    pub fn is_defined_direction(&self) -> (r: bool)
        ensures
            r == (self.panorama_direction <= 5),
    {
        self.panorama_direction <= Self::DIRECTION_GRID_CONTINUOUS
    }

    /// Whether the direction is one of the two grid types.
    pub fn is_grid(&self) -> (r: bool)
        ensures
            r == (4 <= self.panorama_direction <= 5),
    {
        self.panorama_direction >= Self::DIRECTION_GRID_RASTER && self.panorama_direction
            <= Self::DIRECTION_GRID_CONTINUOUS
    }
}

/// One property box: typed where this crate interprets it, raw
/// otherwise.
#[derive(Clone, Debug, PartialEq, Eq)]
pub enum Property {
    /// AV1 codec configuration record.
    Av1C(Vec<u8>),
    /// Image spatial extents.
    Ispe(Ispe),
    /// Colour information.
    Colr(Colr),
    /// Pixel information.
    Pixi(Pixi),
    /// Pixel aspect ratio.
    Pasp(Pasp),
    /// Image rotation.
    Irot(Irot),
    /// Image mirror.
    Imir(Imir),
    /// Clean aperture.
    Clap(Clap),
    /// Auxiliary type.
    AuxC(AuxC),
    /// Mastering display colour volume.
    Mdcv(Mdcv),
    /// Content light level.
    Clli(Clli),
    /// Colour volume luminance.
    Cclv(Cclv),
    /// Ambient viewing environment.
    Amve(Amve),
    /// Relative location.
    Rloc(Rloc),
    /// Layer selector.
    Lsel(Lsel),
    /// Operating point selector.
    A1op(A1op),
    /// Layered image indexing.
    A1lx(A1lx),
    /// Image scaling.
    Iscl(Iscl),
    /// Required reference types.
    Rref(Rref),
    /// Creation time.
    Crtt(Crtt),
    /// Modification time.
    Mdft(Mdft),
    /// User description.
    Udes(Udes),
    /// Accessibility text.
    Altt(Altt),
    /// Auto exposure.
    Aebr(Aebr),
    /// White balance.
    Wbbr(Wbbr),
    /// Focus.
    Fobr(Fobr),
    /// Flash exposure.
    Afbr(Afbr),
    /// Depth of field.
    Dobr(Dobr),
    /// Panorama.
    Pano(Pano),
    /// A property of any other type: its type and its body.
    Other(BoxType, Vec<u8>),
}

/// A [`Property`] as contracts speak of it.
pub enum PropertyView {
    /// AV1 codec configuration record.
    Av1C(Seq<u8>),
    /// Image spatial extents.
    Ispe(Ispe),
    /// Colour information.
    Colr(ColrView),
    /// Pixel information.
    Pixi(Seq<u8>),
    /// Pixel aspect ratio.
    Pasp(Pasp),
    /// Image rotation.
    Irot(Irot),
    /// Image mirror.
    Imir(Imir),
    /// Clean aperture.
    Clap(Clap),
    /// Auxiliary type.
    AuxC(AuxCView),
    /// Mastering display colour volume.
    Mdcv(Mdcv),
    /// Content light level.
    Clli(Clli),
    /// Colour volume luminance.
    Cclv(Cclv),
    /// Ambient viewing environment.
    Amve(Amve),
    /// Relative location.
    Rloc(Rloc),
    /// Layer selector.
    Lsel(Lsel),
    /// Operating point selector.
    A1op(A1op),
    /// Layered image indexing.
    A1lx(A1lx),
    /// Image scaling.
    Iscl(Iscl),
    /// Required reference types.
    Rref(Seq<BoxType>),
    /// Creation time.
    Crtt(Crtt),
    /// Modification time.
    Mdft(Mdft),
    /// User description.
    Udes(UdesView),
    /// Accessibility text.
    Altt(AlttView),
    /// Auto exposure.
    Aebr(Aebr),
    /// White balance.
    Wbbr(Wbbr),
    /// Focus.
    Fobr(Fobr),
    /// Flash exposure.
    Afbr(Afbr),
    /// Depth of field.
    Dobr(Dobr),
    /// Panorama.
    Pano(Pano),
    /// A property of any other type: its type and its body.
    Other(BoxType, Seq<u8>),
}

impl View for Property {
    type V = PropertyView;

    open spec fn view(&self) -> PropertyView {
        match self {
            Property::Av1C(b) => PropertyView::Av1C(b@),
            Property::Ispe(v) => PropertyView::Ispe(*v),
            Property::Colr(v) => PropertyView::Colr(v@),
            Property::Pixi(v) => PropertyView::Pixi(v@),
            Property::Pasp(v) => PropertyView::Pasp(*v),
            Property::Irot(v) => PropertyView::Irot(*v),
            Property::Imir(v) => PropertyView::Imir(*v),
            Property::Clap(v) => PropertyView::Clap(*v),
            Property::AuxC(v) => PropertyView::AuxC(v@),
            Property::Mdcv(v) => PropertyView::Mdcv(*v),
            Property::Clli(v) => PropertyView::Clli(*v),
            Property::Cclv(v) => PropertyView::Cclv(*v),
            Property::Amve(v) => PropertyView::Amve(*v),
            Property::Rloc(v) => PropertyView::Rloc(*v),
            Property::Lsel(v) => PropertyView::Lsel(*v),
            Property::A1op(v) => PropertyView::A1op(*v),
            Property::A1lx(v) => PropertyView::A1lx(*v),
            Property::Iscl(v) => PropertyView::Iscl(*v),
            Property::Rref(v) => PropertyView::Rref(v@),
            Property::Crtt(v) => PropertyView::Crtt(*v),
            Property::Mdft(v) => PropertyView::Mdft(*v),
            Property::Udes(v) => PropertyView::Udes(v@),
            Property::Altt(v) => PropertyView::Altt(v@),
            Property::Aebr(v) => PropertyView::Aebr(*v),
            Property::Wbbr(v) => PropertyView::Wbbr(*v),
            Property::Fobr(v) => PropertyView::Fobr(*v),
            Property::Afbr(v) => PropertyView::Afbr(*v),
            Property::Dobr(v) => PropertyView::Dobr(*v),
            Property::Pano(v) => PropertyView::Pano(*v),
            Property::Other(t, b) => PropertyView::Other(*t, b@),
        }
    }
}

impl PropertyView {
    /// The box type of a property.
    pub open spec fn kind(self) -> BoxType {
        match self {
            PropertyView::Av1C(_) => AV1C,
            PropertyView::Ispe(_) => ISPE,
            PropertyView::Colr(_) => COLR,
            PropertyView::Pixi(_) => PIXI,
            PropertyView::Pasp(_) => PASP,
            PropertyView::Irot(_) => IROT,
            PropertyView::Imir(_) => IMIR,
            PropertyView::Clap(_) => CLAP,
            PropertyView::AuxC(_) => AUXC,
            PropertyView::Mdcv(_) => MDCV,
            PropertyView::Clli(_) => CLLI,
            PropertyView::Cclv(_) => CCLV,
            PropertyView::Amve(_) => AMVE,
            PropertyView::Rloc(_) => RLOC,
            PropertyView::Lsel(_) => LSEL,
            PropertyView::A1op(_) => A1OP,
            PropertyView::A1lx(_) => A1LX,
            PropertyView::Iscl(_) => ISCL,
            PropertyView::Rref(_) => RREF,
            PropertyView::Crtt(_) => CRTT,
            PropertyView::Mdft(_) => MDFT,
            PropertyView::Udes(_) => UDES,
            PropertyView::Altt(_) => ALTT,
            PropertyView::Aebr(_) => AEBR,
            PropertyView::Wbbr(_) => WBBR,
            PropertyView::Fobr(_) => FOBR,
            PropertyView::Afbr(_) => AFBR,
            PropertyView::Dobr(_) => DOBR,
            PropertyView::Pano(_) => PANO,
            PropertyView::Other(t, _) => t,
        }
    }
}

impl Property {
    /// The box type of the property.
    pub fn kind(&self) -> (r: BoxType)
        ensures
            r == self@.kind(),
    {
        match self {
            Property::Av1C(_) => AV1C,
            Property::Ispe(_) => ISPE,
            Property::Colr(_) => COLR,
            Property::Pixi(_) => PIXI,
            Property::Pasp(_) => PASP,
            Property::Irot(_) => IROT,
            Property::Imir(_) => IMIR,
            Property::Clap(_) => CLAP,
            Property::AuxC(_) => AUXC,
            Property::Mdcv(_) => MDCV,
            Property::Clli(_) => CLLI,
            Property::Cclv(_) => CCLV,
            Property::Amve(_) => AMVE,
            Property::Rloc(_) => RLOC,
            Property::Lsel(_) => LSEL,
            Property::A1op(_) => A1OP,
            Property::A1lx(_) => A1LX,
            Property::Iscl(_) => ISCL,
            Property::Rref(_) => RREF,
            Property::Crtt(_) => CRTT,
            Property::Mdft(_) => MDFT,
            Property::Udes(_) => UDES,
            Property::Altt(_) => ALTT,
            Property::Aebr(_) => AEBR,
            Property::Wbbr(_) => WBBR,
            Property::Fobr(_) => FOBR,
            Property::Afbr(_) => AFBR,
            Property::Dobr(_) => DOBR,
            Property::Pano(_) => PANO,
            Property::Other(t, _) => *t,
        }
    }
}

} // verus!
