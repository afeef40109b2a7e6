//! Raw images to be coded.

use crate::error::{AvifError, Fault};
use crate::lookup::opt_colr;
use crate::overlay::opt_samples;
use crate::props::{Clap, Colr, ColrView};
use vstd::arithmetic::div_mod::lemma_fundamental_div_mod_converse;
use vstd::prelude::*;

verus! {

/// Largest coded width and height.
pub const STILL_MAX_CODED_DIM: u32 = 16384;

/// How the chroma planes of an image are sampled.
#[derive(Clone, Copy, Debug, PartialEq, Eq, Structural)]
pub enum StillChroma {
    /// No chroma planes.
    Monochrome,
    /// Half the width and half the height.
    Yuv420,
    /// Half the width.
    Yuv422,
    /// Full size.
    Yuv444,
}

impl StillChroma {
    /// Whether width and height are halved, as 0 or 1.
    pub open spec fn shifts(self) -> (u8, u8) {
        match self {
            StillChroma::Monochrome => (1, 1),
            StillChroma::Yuv420 => (1, 1),
            StillChroma::Yuv422 => (1, 0),
            StillChroma::Yuv444 => (0, 0),
        }
    }

    /// Whether width and height are halved, as 0 or 1.
    pub fn subsampling(self) -> (r: (u8, u8))
        ensures
            r == self.shifts(),
    {
        match self {
            StillChroma::Monochrome => (1, 1),
            StillChroma::Yuv420 => (1, 1),
            StillChroma::Yuv422 => (1, 0),
            StillChroma::Yuv444 => (0, 0),
        }
    }

    /// Whether there are chroma planes.
    pub fn has_chroma(self) -> (r: bool)
        ensures
            r == (self != StillChroma::Monochrome),
    {
        match self {
            StillChroma::Monochrome => false,
            _ => true,
        }
    }

    /// The name of the sampling.
    pub open spec fn label(self) -> Seq<char> {
        match self {
            StillChroma::Monochrome => "Monochrome"@,
            StillChroma::Yuv420 => "Yuv420"@,
            StillChroma::Yuv422 => "Yuv422"@,
            StillChroma::Yuv444 => "Yuv444"@,
        }
    }

    /// The name of the sampling.
    pub fn name(self) -> (r: &'static str)
        ensures
            r@ == self.label(),
    {
        match self {
            StillChroma::Monochrome => "Monochrome",
            StillChroma::Yuv420 => "Yuv420",
            StillChroma::Yuv422 => "Yuv422",
            StillChroma::Yuv444 => "Yuv444",
        }
    }
}

/// A raw image: planes of samples in reading order.
#[derive(Clone, Debug)]
pub struct StillImage {
    /// Width in pixels.
    pub width: u32,
    /// Height in pixels.
    pub height: u32,
    /// Bits per sample: 8, 10 or 12.
    pub bit_depth: u8,
    /// Chroma sampling.
    pub chroma: StillChroma,
    /// Luma samples.
    pub y: Vec<u16>,
    /// First chroma plane.
    pub u: Vec<u16>,
    /// Second chroma plane.
    pub v: Vec<u16>,
    /// Alpha samples.
    pub alpha: Option<Vec<u16>>,
    /// Depth samples.
    pub depth_map: Option<Vec<u16>>,
    /// Colour description.
    pub colr: Option<Colr>,
}

/// A [`StillImage`] as contracts speak of it.
#[verifier::ext_equal]
pub struct StillView {
    /// Width in pixels.
    pub width: u32,
    /// Height in pixels.
    pub height: u32,
    /// Bits per sample: 8, 10 or 12.
    pub bit_depth: u8,
    /// Chroma sampling.
    pub chroma: StillChroma,
    /// Luma samples.
    pub y: Seq<u16>,
    /// First chroma plane.
    pub u: Seq<u16>,
    /// Second chroma plane.
    pub v: Seq<u16>,
    /// Alpha samples.
    pub alpha: Option<Seq<u16>>,
    /// Depth samples.
    pub depth_map: Option<Seq<u16>>,
    /// Colour description.
    pub colr: Option<ColrView>,
}

impl View for StillImage {
    type V = StillView;

    open spec fn view(&self) -> StillView {
        StillView {
            width: self.width,
            height: self.height,
            bit_depth: self.bit_depth,
            chroma: self.chroma,
            y: self.y@,
            u: self.u@,
            v: self.v@,
            alpha: opt_samples(self.alpha),
            depth_map: opt_samples(self.depth_map),
            colr: opt_colr(self.colr),
        }
    }
}

/// `n` halved and rounded up, where `shift` is 1, and `n` where it is 0.
pub open spec fn sampled(n: u32, shift: u8) -> u32 {
    if shift == 0 {
        n
    } else {
        (n / 2 + n % 2) as u32
    }
}

/// The largest sample of this bit depth.
pub open spec fn sample_limit(bit_depth: u8) -> u16 {
    if bit_depth == 8 {
        255
    } else if bit_depth == 10 {
        1023
    } else {
        4095
    }
}

/// Whether no sample exceeds `limit`.
pub open spec fn within(s: Seq<u16>, limit: u16) -> bool {
    forall|i: int| 0 <= i < s.len() ==> #[trigger] s[i] <= limit
}

impl StillView {
    /// Width and height of the chroma planes; none where there are none.
    pub open spec fn chroma_size(self) -> (u32, u32) {
        if self.chroma == StillChroma::Monochrome {
            (0, 0)
        } else {
            (
                sampled(self.width, self.chroma.shifts().0),
                sampled(self.height, self.chroma.shifts().1),
            )
        }
    }

    /// Why the image is not valid, if it is not.
    pub open spec fn fault(self) -> Option<Fault> {
        if self.width == 0 || self.height == 0 {
            Some(Fault::Invalid("avif still: width and height must be non-zero"@))
        } else if self.bit_depth != 8 && self.bit_depth != 10 && self.bit_depth != 12 {
            Some(Fault::Unsupported("avif still: bit depth must be 8, 10 or 12"@))
        } else if self.y.len() != self.width * self.height || self.u.len()
            != self.chroma_size().0 * self.chroma_size().1 || self.v.len()
            != self.chroma_size().0 * self.chroma_size().1 {
            Some(Fault::Invalid("avif still: plane sizes do not match the extents"@))
        } else if !within(self.y, sample_limit(self.bit_depth)) || !within(
            self.u,
            sample_limit(self.bit_depth),
        ) || !within(self.v, sample_limit(self.bit_depth)) {
            Some(Fault::Invalid("avif still: a sample exceeds the bit depth"@))
        } else {
            None
        }
    }

    /// Whether the colour description says that samples take their full
    /// range.
    pub open spec fn full_range(self) -> bool {
        match self.colr {
            Some(ColrView::Nclx { full_range, .. }) => full_range,
            _ => false,
        }
    }

    /// Bits per channel, one entry for each.
    pub open spec fn channel_bits(self) -> Seq<u8> {
        if self.chroma == StillChroma::Monochrome {
            seq![self.bit_depth]
        } else {
            seq![self.bit_depth, self.bit_depth, self.bit_depth]
        }
    }
}

fn all_within(s: &Vec<u16>, limit: u16) -> (r: bool)
    ensures
        r == within(s@, limit),
{
    let mut i: usize = 0;
    while i < s.len()
        invariant
            i <= s@.len(),
            forall|j: int| 0 <= j < i ==> #[trigger] s@[j] <= limit,
        decreases s@.len() - i,
    {
        if s[i] > limit {
            return false;
        }
        i = i + 1;
    }
    true
}

fn halve_up(n: u32, shift: u8) -> (r: u32)
    ensures
        r == sampled(n, shift),
{
    if shift == 0 {
        n
    } else {
        n / 2 + n % 2
    }
}

/// The number of samples of a plane of this size.
fn area(w: u32, h: u32) -> (r: u64)
    ensures
        r == w * h,
{
    proof {
        assert(0 <= w * h <= 0xffff_ffff * 0xffff_ffff) by (nonlinear_arith)
            requires
                0 <= w <= 0xffff_ffff,
                0 <= h <= 0xffff_ffff,
        ;
    }
    w as u64 * h as u64
}

impl StillImage {
    /// Width and height of the chroma planes; none where there are none.
    pub fn chroma_dims(&self) -> (r: (u32, u32))
        ensures
            r == self@.chroma_size(),
    {
        if self.chroma.has_chroma() {
            let (sx, sy) = self.chroma.subsampling();
            (halve_up(self.width, sx), halve_up(self.height, sy))
        } else {
            (0, 0)
        }
    }

    /// Refuse an image whose planes do not match its extents, its
    /// sampling and its bit depth.
    pub fn validate(&self) -> (r: Result<(), AvifError>)
        ensures
            match r {
                Ok(_) => self@.fault() is None,
                Err(e) => self@.fault() == Some(e@),
            },
    {
        if self.width == 0 || self.height == 0 {
            return Err(AvifError::invalid("avif still: width and height must be non-zero"));
        }
        if self.bit_depth != 8 && self.bit_depth != 10 && self.bit_depth != 12 {
            return Err(AvifError::unsupported("avif still: bit depth must be 8, 10 or 12"));
        }
        let (cw, ch) = self.chroma_dims();
        let chroma: u64 = area(cw, ch);
        if self.y.len() as u64 != area(self.width, self.height) || self.u.len() as u64 != chroma
            || self.v.len() as u64 != chroma {
            return Err(AvifError::invalid("avif still: plane sizes do not match the extents"));
        }
        let limit: u16 = if self.bit_depth == 8 {
            255
        } else if self.bit_depth == 10 {
            1023
        } else {
            4095
        };
        if !all_within(&self.y, limit) || !all_within(&self.u, limit) || !all_within(
            &self.v,
            limit,
        ) {
            return Err(AvifError::invalid("avif still: a sample exceeds the bit depth"));
        }
        Ok(())
    }

    /// Whether the colour description says that samples take their full
    /// range.
    pub fn is_full_range(&self) -> (r: bool)
        ensures
            r == self@.full_range(),
    {
        match &self.colr {
            Some(Colr::Nclx { full_range, .. }) => *full_range,
            _ => false,
        }
    }

    /// Bits per channel, one entry for each.
    pub fn pixi_bits(&self) -> (r: Vec<u8>)
        ensures
            r@ == self@.channel_bits(),
    {
        let mut bits: Vec<u8> = Vec::new();
        bits.push(self.bit_depth);
        if self.chroma.has_chroma() {
            bits.push(self.bit_depth);
            bits.push(self.bit_depth);
        }
        proof {
            assert(bits@ =~= self@.channel_bits());
        }
        bits
    }
}

/// `n` rounded up to a multiple of 8, and at most the largest such
/// number.
pub open spec fn coded_size(n: u32) -> u32 {
    if n > 0xffff_fff8 {
        0xffff_fff8
    } else {
        ((n + 7) / 8 * 8) as u32
    }
}

/// The coded extent of a width or a height.
pub fn coded_extent(n: u32) -> (r: u32)
    ensures
        r == coded_size(n),
{
    if n > 0xffff_fff8 {
        0xffff_fff8
    } else {
        ((n as u64 + 7) / 8 * 8) as u32
    }
}

/// The clean aperture that keeps the top left `width` by `height` pixels
/// of an image of `coded_width` by `coded_height`.
pub open spec fn top_left_aperture(
    width: u32,
    height: u32,
    coded_width: u32,
    coded_height: u32,
) -> Clap {
    Clap {
        clean_aperture_width_n: width as i32,
        clean_aperture_width_d: 1,
        clean_aperture_height_n: height as i32,
        clean_aperture_height_d: 1,
        horiz_off_n: (width - coded_width) as i32,
        horiz_off_d: 2,
        vert_off_n: (height - coded_height) as i32,
        vert_off_d: 2,
    }
}

/// The clean aperture that keeps the top left of an image. Its centre
/// lies half the cut away from that of the image.
pub fn top_left_clap(width: u32, height: u32, coded_width: u32, coded_height: u32) -> (r: Clap)
    requires
        width <= coded_width <= STILL_MAX_CODED_DIM,
        height <= coded_height <= STILL_MAX_CODED_DIM,
    ensures
        r == top_left_aperture(width, height, coded_width, coded_height),
{
    Clap {
        clean_aperture_width_n: width as i32,
        clean_aperture_width_d: 1,
        clean_aperture_height_n: height as i32,
        clean_aperture_height_d: 1,
        horiz_off_n: width as i32 - coded_width as i32,
        horiz_off_d: 2,
        vert_off_n: height as i32 - coded_height as i32,
        vert_off_d: 2,
    }
}

/// The lesser of two.
pub open spec fn lesser(a: int, b: int) -> int {
    if a < b {
        a
    } else {
        b
    }
}

/// Sample `i` of a plane of `w` by `h` samples drawn out to a width of
/// `dw`: the last column and the last row go on.
pub open spec fn padded_sample(s: Seq<u16>, w: int, h: int, dw: int, i: int) -> u16 {
    s[lesser(i / dw, h - 1) * w + lesser(i % dw, w - 1)]
}

/// A plane of `w` by `h` samples drawn out to `dw` by `dh`.
pub open spec fn padded_plane(s: Seq<u16>, w: int, h: int, dw: int, dh: int) -> Seq<u16> {
    Seq::new((dw * dh) as nat, |i: int| padded_sample(s, w, h, dw, i))
}

/// Draw a plane out to `dw` by `dh` samples.
pub fn pad_plane(s: &Vec<u16>, w: usize, h: usize, dw: usize, dh: usize) -> (r: Vec<u16>)
    requires
        1 <= w <= dw <= STILL_MAX_CODED_DIM,
        1 <= h <= dh <= STILL_MAX_CODED_DIM,
        s@.len() == w * h,
    ensures
        r@ == padded_plane(s@, w as int, h as int, dw as int, dh as int),
{
    let mut out: Vec<u16> = Vec::new();
    let mut row: usize = 0;
    proof {
        assert(0 * dw == 0) by (nonlinear_arith);
    }
    while row < dh
        invariant
            1 <= w <= dw <= STILL_MAX_CODED_DIM,
            1 <= h <= dh <= STILL_MAX_CODED_DIM,
            s@.len() == w * h,
            row <= dh,
            out@.len() == row * dw,
            forall|i: int|
                0 <= i < out@.len() ==> #[trigger] out@[i] == padded_sample(
                    s@,
                    w as int,
                    h as int,
                    dw as int,
                    i,
                ),
        decreases dh - row,
    {
        let from: usize = if row < h {
            row
        } else {
            h - 1
        };
        let mut col: usize = 0;
        while col < dw
            invariant
                1 <= w <= dw <= STILL_MAX_CODED_DIM,
                1 <= h <= dh <= STILL_MAX_CODED_DIM,
                s@.len() == w * h,
                row < dh,
                col <= dw,
                from == lesser(row as int, h - 1),
                out@.len() == row * dw + col,
                forall|i: int|
                    0 <= i < out@.len() ==> #[trigger] out@[i] == padded_sample(
                        s@,
                        w as int,
                        h as int,
                        dw as int,
                        i,
                    ),
            decreases dw - col,
        {
            let side: usize = if col < w {
                col
            } else {
                w - 1
            };
            proof {
                assert(0 <= from * w && from * w + side < w * h && from * w <= 16384 * 16384)
                    by (nonlinear_arith)
                    requires
                        0 <= from <= h - 1,
                        0 <= side <= w - 1,
                        w <= 16384,
                        h <= 16384,
                ;
                let at = row * dw + col;
                lemma_fundamental_div_mod_converse(at, dw as int, row as int, col as int);
            }
            out.push(s[from * w + side]);
            col = col + 1;
        }
        proof {
            assert((row + 1) * dw == row * dw + dw) by (nonlinear_arith);
        }
        row = row + 1;
    }
    proof {
        assert(dw * dh == dh * dw) by (nonlinear_arith);
        assert(out@ =~= padded_plane(s@, w as int, h as int, dw as int, dh as int));
    }
    out
}

/// Drawing a plane out gives no sample that it did not have.
pub proof fn lemma_padding_keeps_range(s: Seq<u16>, w: int, h: int, dw: int, dh: int, limit: u16)
    requires
        0 < w <= dw,
        0 < h <= dh,
        s.len() == w * h,
        within(s, limit),
    ensures
        padded_plane(s, w, h, dw, dh).len() == dw * dh,
        within(padded_plane(s, w, h, dw, dh), limit),
{
    let p = padded_plane(s, w, h, dw, dh);
    assert(dw * dh >= 0) by (nonlinear_arith)
        requires
            dw > 0,
            dh > 0,
    ;
    assert forall|i: int| 0 <= i < p.len() implies #[trigger] p[i] <= limit by {
        let y = lesser(i / dw, h - 1);
        let x = lesser(i % dw, w - 1);
        assert(0 <= i / dw && 0 <= i % dw) by (nonlinear_arith)
            requires
                0 <= i,
                dw > 0,
        ;
        assert(0 <= y * w + x < w * h) by (nonlinear_arith)
            requires
                0 <= y <= h - 1,
                0 <= x <= w - 1,
        ;
        assert(s[y * w + x] <= limit);
    }
}

/// Drawing a plane out keeps every sample in its place.
pub proof fn law_padding_keeps_samples(s: Seq<u16>, w: int, h: int, dw: int, dh: int, x: int, y: int)
    requires
        0 < w <= dw,
        0 < h <= dh,
        0 <= x < w,
        0 <= y < h,
    ensures
        padded_plane(s, w, h, dw, dh)[y * dw + x] == s[y * w + x],
{
    let i = y * dw + x;
    lemma_fundamental_div_mod_converse(i, dw, y, x);
    assert(0 <= i < dw * dh) by (nonlinear_arith)
        requires
            i == y * dw + x,
            0 <= x < dw,
            0 <= y <= dh - 1,
            dw > 0,
    ;
}

} // verus!
