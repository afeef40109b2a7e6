//! Coding raw images with AV1.

use crate::error::views;
use crate::still::{sample_limit, sampled, within, StillChroma, STILL_MAX_CODED_DIM};
use oxideav_av1::codec_config::Av1CodecConfig;
use oxideav_av1::encoder::inter_frame::encode_gop_yuv_with_q;
use oxideav_av1::encoder::key_frame::encode_key_frame_yuv_with_q;
use oxideav_av1::encoder::sequence_obu::write_sequence_header_obu;
use oxideav_av1::encoder::yuv_frame::{ChromaFormat, YuvFrame as Av1Frame};
use oxideav_av1::sequence_header::SequenceHeader as Av1SequenceHeader;
use vstd::prelude::*;

verus! {

/// An image drawn out to its coded extents.
#[derive(Clone, Debug)]
pub struct CodedPicture {
    /// Coded width.
    pub width: u32,
    /// Coded height.
    pub height: u32,
    /// Bits per sample.
    pub bit_depth: u8,
    /// Chroma sampling.
    pub chroma: StillChroma,
    /// Luma samples.
    pub y: Vec<u16>,
    /// First chroma plane.
    pub u: Vec<u16>,
    /// Second chroma plane.
    pub v: Vec<u16>,
}

/// A [`CodedPicture`] as contracts speak of it.
#[verifier::ext_equal]
pub struct CodedView {
    /// Coded width.
    pub width: u32,
    /// Coded height.
    pub height: u32,
    /// Bits per sample.
    pub bit_depth: u8,
    /// Chroma sampling.
    pub chroma: StillChroma,
    /// Luma samples.
    pub y: Seq<u16>,
    /// First chroma plane.
    pub u: Seq<u16>,
    /// Second chroma plane.
    pub v: Seq<u16>,
}

impl View for CodedPicture {
    type V = CodedView;

    open spec fn view(&self) -> CodedView {
        CodedView {
            width: self.width,
            height: self.height,
            bit_depth: self.bit_depth,
            chroma: self.chroma,
            y: self.y@,
            u: self.u@,
            v: self.v@,
        }
    }
}

impl CodedView {
    /// How many samples a chroma plane has.
    pub open spec fn chroma_len(self) -> int {
        if self.chroma == StillChroma::Monochrome {
            0
        } else {
            sampled(self.width, self.chroma.shifts().0) * sampled(
                self.height,
                self.chroma.shifts().1,
            )
        }
    }

    /// Whether the encoder takes the image: the extents are multiples of
    /// 8 in its range, the planes fit the extents and the sampling, and
    /// the samples fit the bit depth.
    pub open spec fn codable(self) -> bool {
        &&& 8 <= self.width <= STILL_MAX_CODED_DIM
        &&& 8 <= self.height <= STILL_MAX_CODED_DIM
        &&& self.width % 8 == 0
        &&& self.height % 8 == 0
        &&& self.bit_depth == 8 || self.bit_depth == 10 || self.bit_depth == 12
        &&& self.y.len() == self.width * self.height
        &&& self.u.len() == self.chroma_len()
        &&& self.v.len() == self.chroma_len()
        &&& within(self.y, sample_limit(self.bit_depth))
        &&& within(self.u, sample_limit(self.bit_depth))
        &&& within(self.v, sample_limit(self.bit_depth))
    }

    /// Whether two images have the same extents, bit depth and sampling.
    pub open spec fn matches(self, other: CodedView) -> bool {
        &&& self.width == other.width
        &&& self.height == other.height
        &&& self.bit_depth == other.bit_depth
        &&& self.chroma == other.chroma
    }
}

/// `oxideav_av1::sequence_header::SequenceHeader`, what a coded sequence
/// says of itself.
#[verifier::external_type_specification]
#[verifier::external_body]
pub struct ExSequenceHeader(Av1SequenceHeader);

/// Pictures coded together.
pub(crate) struct CodedGroup {
    /// Coded bytes, one temporal unit for each picture.
    pub units: Vec<Vec<u8>>,
    /// What the sequence says of itself.
    pub header: Av1SequenceHeader,
}

/// Pictures coded together, as contracts speak of them.
#[verifier::ext_equal]
pub struct GroupView {
    /// Coded bytes, one temporal unit for each picture.
    pub units: Seq<Seq<u8>>,
    /// What the sequence says of itself.
    pub header: Av1SequenceHeader,
}

/// The outcome of coding, with the pictures and the text by their views.
pub(crate) open spec fn coded_outcome(r: Result<CodedGroup, String>) -> Result<
    GroupView,
    Seq<char>,
> {
    match r {
        Ok(g) => Ok(GroupView { units: views(g.units@), header: g.header }),
        Err(text) => Err(text@),
    }
}

/// `oxideav_av1::encoder::yuv_frame::YuvFrame`, an image as the encoder
/// takes it.
#[verifier::external_type_specification]
#[verifier::external_body]
pub struct ExYuvFrame(Av1Frame);

/// The extents and planes of an image as the encoder takes it.
pub uninterp spec fn frame_planes(f: Av1Frame) -> CodedView;

/// `oxideav_av1::encoder::yuv_frame::YuvFrame`: an image with these
/// extents and planes.
#[verifier::external_body]
pub(crate) fn av1_frame(p: &CodedPicture) -> (r: Av1Frame)
    ensures
        frame_planes(r) == p@,
{
    let format = match p.chroma {
        StillChroma::Monochrome => ChromaFormat::Monochrome,
        StillChroma::Yuv420 => ChromaFormat::Yuv420,
        StillChroma::Yuv422 => ChromaFormat::Yuv422,
        StillChroma::Yuv444 => ChromaFormat::Yuv444,
    };
    let (width, height, bit_depth) = (p.width, p.height, p.bit_depth);
    let (y, u, v) = (p.y.clone(), p.u.clone(), p.v.clone());
    Av1Frame { width, height, bit_depth, format, y, u, v }
}

/// Images as the encoder takes them.
pub open spec fn planes_of(frames: Seq<Av1Frame>) -> Seq<CodedView> {
    Seq::new(frames.len(), |i: int| frame_planes(frames[i]))
}

/// What the encoder makes of a group of images at a quantiser index, or
/// why it makes nothing.
pub uninterp spec fn coded_group(frames: Seq<CodedView>, base_q_idx: u8) -> Result<
    GroupView,
    Seq<char>,
>;

/// `oxideav_av1::encoder::inter_frame::encode_gop_yuv_with_q`: the
/// images coded as a group, one temporal unit for each, and the header
/// of the sequence. What the units hold is left to the name.
#[verifier::external_body]
pub(crate) fn code_group(frames: &[Av1Frame], base_q_idx: u8) -> (r: Result<CodedGroup, String>)
    requires
        frames@.len() > 0,
        forall|i: int| 0 <= i < frames@.len() ==> frame_planes(#[trigger] frames@[i]).codable(),
        forall|i: int|
            0 <= i < frames@.len() ==> frame_planes(#[trigger] frames@[i]).matches(
                frame_planes(frames@[0]),
            ),
    ensures
        coded_outcome(r) == coded_group(planes_of(frames@), base_q_idx),
        r is Ok ==> r->Ok_0.units@.len() == frames@.len(),
{
    match encode_gop_yuv_with_q(frames, base_q_idx) {
        Ok(g) => Ok(CodedGroup { units: g.temporal_units, header: g.seq }),
        Err(e) => Err(e.to_string()),
    }
}

/// What the encoder makes of one image by itself at a quantiser index, or
/// why it makes nothing.
pub uninterp spec fn coded_key_frame(frame: CodedView, base_q_idx: u8) -> Result<
    GroupView,
    Seq<char>,
>;

/// `oxideav_av1::encoder::key_frame::encode_key_frame_yuv_with_q`: one
/// image coded by itself, as one temporal unit. What it holds is left to
/// the name.
#[verifier::external_body]
pub(crate) fn code_key_frame(frame: &Av1Frame, base_q_idx: u8) -> (r: Result<CodedGroup, String>)
    requires
        frame_planes(*frame).codable(),
    ensures
        coded_outcome(r) == coded_key_frame(frame_planes(*frame), base_q_idx),
        r is Ok ==> r->Ok_0.units@.len() == 1,
{
    match encode_key_frame_yuv_with_q(frame, base_q_idx) {
        Ok(k) => Ok(CodedGroup { units: vec![k.temporal_unit_bytes], header: k.seq }),
        Err(e) => Err(e.to_string()),
    }
}

/// The configuration record of what a sequence says of itself.
pub uninterp spec fn record_of_header(header: Av1SequenceHeader) -> Seq<u8>;

/// `oxideav_av1::codec_config::Av1CodecConfig`, from a header and to
/// bytes: a configuration record of four bytes, version 1. Which bits of
/// it come from which field of the header is left to the name.
#[verifier::external_body]
pub(crate) fn config_record(header: &Av1SequenceHeader) -> (r: Vec<u8>)
    ensures
        r@ == record_of_header(*header),
        r@.len() == 4,
        r@[0] == 0x81,
{
    Av1CodecConfig::from_sequence_header(header).to_bytes()
}

/// Whether a header is one that the encoder gave with what it coded.
pub open spec fn from_encoder(header: Av1SequenceHeader) -> bool {
    ||| exists|frames: Seq<CodedView>, q: u8|
        (#[trigger] coded_group(frames, q)) matches Ok(g) && g.header == header
    ||| exists|frame: CodedView, q: u8|
        (#[trigger] coded_key_frame(frame, q)) matches Ok(g) && g.header == header
}

/// The payload of a sequence header unit that says what `header` says,
/// but for whether samples take their full range.
pub uninterp spec fn header_payload(header: Av1SequenceHeader, full_range: bool) -> Seq<u8>;

/// `oxideav_av1::encoder::sequence_obu::write_sequence_header_obu`, of a
/// header that the encoder gave, with this range. The bits of the payload
/// are left to the name.
#[verifier::external_body]
pub(crate) fn write_header(header: &Av1SequenceHeader, full_range: bool) -> (r: Vec<u8>)
    requires
        from_encoder(*header),
    ensures
        r@ == header_payload(*header, full_range),
{
    let mut h = header.clone();
    h.color_config.color_range = full_range;
    write_sequence_header_obu(&h)
}

} // verus!
