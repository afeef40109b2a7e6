//! Frames and pixel layouts.

use crate::error::views;
use vstd::prelude::*;

verus! {

/// One plane of a frame: rows of `stride` bytes.
#[derive(Clone, Debug, Default, PartialEq, Eq)]
pub struct AvifPlane {
    /// Bytes from one row to the next.
    pub stride: usize,
    /// The rows, top to bottom.
    pub data: Vec<u8>,
}

/// An [`AvifPlane`] as contracts speak of it.
#[verifier::ext_equal]
pub struct PlaneView {
    /// Bytes from one row to the next.
    pub stride: nat,
    /// The rows, top to bottom.
    pub data: Seq<u8>,
}

impl View for AvifPlane {
    type V = PlaneView;

    open spec fn view(&self) -> PlaneView {
        PlaneView { stride: self.stride as nat, data: self.data@ }
    }
}

/// One frame: a plane per channel, or one plane of interleaved channels.
#[derive(Clone, Debug, Default, PartialEq, Eq)]
pub struct AvifFrame {
    /// Presentation time, when known.
    pub pts: Option<i64>,
    /// The planes.
    pub planes: Vec<AvifPlane>,
}

/// An [`AvifFrame`] as contracts speak of it.
#[verifier::ext_equal]
pub struct FrameView {
    /// Presentation time.
    pub pts: Option<i64>,
    /// The planes.
    pub planes: Seq<PlaneView>,
}

impl View for AvifFrame {
    type V = FrameView;

    open spec fn view(&self) -> FrameView {
        FrameView { pts: self.pts, planes: views(self.planes@) }
    }
}

/// Pixel layout. Samples of more than 8 bits are stored as little-endian
/// 16-bit words.
#[derive(Clone, Copy, Debug, PartialEq, Eq, Structural)]
pub enum AvifPixelFormat {
    /// 8-bit planar 4:2:0.
    Yuv420P,
    /// 8-bit planar 4:2:2.
    Yuv422P,
    /// 8-bit planar 4:4:4.
    Yuv444P,
    /// 8-bit greyscale.
    Gray8,
    /// 8-bit planar 4:2:0 with an alpha plane.
    Yuva420P,
    /// 8-bit planar 4:2:2 with an alpha plane.
    Yuva422P,
    /// 8-bit planar 4:4:4 with an alpha plane.
    Yuva444P,
    /// 8-bit luma and alpha, interleaved.
    Ya8,
    /// 10-bit planar 4:2:0.
    Yuv420P10Le,
    /// 10-bit planar 4:2:2.
    Yuv422P10Le,
    /// 10-bit planar 4:4:4.
    Yuv444P10Le,
    /// 10-bit greyscale.
    Gray10Le,
    /// 10-bit planar 4:2:0 with an alpha plane.
    Yuva420P10Le,
    /// 10-bit planar 4:2:2 with an alpha plane.
    Yuva422P10Le,
    /// 10-bit planar 4:4:4 with an alpha plane.
    Yuva444P10Le,
    /// 12-bit planar 4:2:0.
    Yuv420P12Le,
    /// 12-bit planar 4:2:2.
    Yuv422P12Le,
    /// 12-bit planar 4:4:4.
    Yuv444P12Le,
    /// 12-bit greyscale.
    Gray12Le,
    /// 12-bit planar 4:2:0 with an alpha plane.
    Yuva420P12Le,
    /// 12-bit planar 4:2:2 with an alpha plane.
    Yuva422P12Le,
    /// 12-bit planar 4:4:4 with an alpha plane.
    Yuva444P12Le,
    /// Luma and alpha in 16-bit words, interleaved.
    Ya16Le,
}

/// What a pixel layout consists of.
pub struct Layout {
    /// Bits per sample; 16 for luma and alpha in 16-bit words, whose
    /// coded depth the layout does not say.
    pub depth: u8,
    /// Halvings of the chroma width.
    pub sx: u8,
    /// Halvings of the chroma height.
    pub sy: u8,
    /// Whether there is no chroma.
    pub gray: bool,
    /// Whether there is alpha.
    pub alpha: bool,
}

/// A layout from its parts.
pub open spec fn layout(depth: u8, sx: u8, sy: u8, gray: bool, alpha: bool) -> Layout {
    Layout { depth, sx, sy, gray, alpha }
}

/// The name of a pixel layout.
pub open spec fn format_name(f: AvifPixelFormat) -> Seq<char> {
    match f {
        AvifPixelFormat::Yuv420P => "Yuv420P"@,
        AvifPixelFormat::Yuv422P => "Yuv422P"@,
        AvifPixelFormat::Yuv444P => "Yuv444P"@,
        AvifPixelFormat::Gray8 => "Gray8"@,
        AvifPixelFormat::Yuva420P => "Yuva420P"@,
        AvifPixelFormat::Yuva422P => "Yuva422P"@,
        AvifPixelFormat::Yuva444P => "Yuva444P"@,
        AvifPixelFormat::Ya8 => "Ya8"@,
        AvifPixelFormat::Yuv420P10Le => "Yuv420P10Le"@,
        AvifPixelFormat::Yuv422P10Le => "Yuv422P10Le"@,
        AvifPixelFormat::Yuv444P10Le => "Yuv444P10Le"@,
        AvifPixelFormat::Gray10Le => "Gray10Le"@,
        AvifPixelFormat::Yuva420P10Le => "Yuva420P10Le"@,
        AvifPixelFormat::Yuva422P10Le => "Yuva422P10Le"@,
        AvifPixelFormat::Yuva444P10Le => "Yuva444P10Le"@,
        AvifPixelFormat::Yuv420P12Le => "Yuv420P12Le"@,
        AvifPixelFormat::Yuv422P12Le => "Yuv422P12Le"@,
        AvifPixelFormat::Yuv444P12Le => "Yuv444P12Le"@,
        AvifPixelFormat::Gray12Le => "Gray12Le"@,
        AvifPixelFormat::Yuva420P12Le => "Yuva420P12Le"@,
        AvifPixelFormat::Yuva422P12Le => "Yuva422P12Le"@,
        AvifPixelFormat::Yuva444P12Le => "Yuva444P12Le"@,
        AvifPixelFormat::Ya16Le => "Ya16Le"@,
    }
}

/// The pixel layout with these parts, if there is one.
pub open spec fn format_of(bit_depth: u8, sx: u8, sy: u8, gray: bool, alpha: bool) -> Option<
    AvifPixelFormat,
> {
    if exists|f: AvifPixelFormat| #[trigger] f.has_parts(bit_depth, sx, sy, gray, alpha) {
        Some(choose|f: AvifPixelFormat| #[trigger] f.has_parts(bit_depth, sx, sy, gray, alpha))
    } else {
        None
    }
}

/// Whether some layout has these parts: 8, 10 or 12 bits, and chroma of
/// full size, of half width, or of half width and height.
pub open spec fn known_parts(bit_depth: u8, sx: u8, sy: u8, gray: bool) -> bool {
    &&& bit_depth == 8 || bit_depth == 10 || bit_depth == 12
    &&& gray || (sx <= 1 && sy <= sx)
}

/// No two layouts have the same parts.
proof fn lemma_layouts_differ(f: AvifPixelFormat, g: AvifPixelFormat)
    requires
        f.layout() == g.layout(),
    ensures
        f == g,
{
}

/// The layout with some parts is the one that has them.
pub proof fn lemma_format(
    f: AvifPixelFormat,
    bit_depth: u8,
    sx: u8,
    sy: u8,
    gray: bool,
    alpha: bool,
)
    ensures
        f.has_parts(bit_depth, sx, sy, gray, alpha) <==> format_of(bit_depth, sx, sy, gray, alpha)
            == Some(f),
{
    if f.has_parts(bit_depth, sx, sy, gray, alpha) {
        let g = choose|g: AvifPixelFormat| #[trigger] g.has_parts(bit_depth, sx, sy, gray, alpha);
        assert(g.has_parts(bit_depth, sx, sy, gray, alpha));
        assert(f.layout().gray ==> f.layout().sx == 0 && f.layout().sy == 0);
        assert(g.layout().gray ==> g.layout().sx == 0 && g.layout().sy == 0);
        lemma_layouts_differ(f, g);
    }
}

impl AvifPixelFormat {
    /// What this layout consists of.
    pub open spec fn layout(self) -> Layout {
        match self {
            AvifPixelFormat::Yuv420P => layout(8, 1, 1, false, false),
            AvifPixelFormat::Yuv422P => layout(8, 1, 0, false, false),
            AvifPixelFormat::Yuv444P => layout(8, 0, 0, false, false),
            AvifPixelFormat::Gray8 => layout(8, 0, 0, true, false),
            AvifPixelFormat::Yuva420P => layout(8, 1, 1, false, true),
            AvifPixelFormat::Yuva422P => layout(8, 1, 0, false, true),
            AvifPixelFormat::Yuva444P => layout(8, 0, 0, false, true),
            AvifPixelFormat::Ya8 => layout(8, 0, 0, true, true),
            AvifPixelFormat::Yuv420P10Le => layout(10, 1, 1, false, false),
            AvifPixelFormat::Yuv422P10Le => layout(10, 1, 0, false, false),
            AvifPixelFormat::Yuv444P10Le => layout(10, 0, 0, false, false),
            AvifPixelFormat::Gray10Le => layout(10, 0, 0, true, false),
            AvifPixelFormat::Yuva420P10Le => layout(10, 1, 1, false, true),
            AvifPixelFormat::Yuva422P10Le => layout(10, 1, 0, false, true),
            AvifPixelFormat::Yuva444P10Le => layout(10, 0, 0, false, true),
            AvifPixelFormat::Yuv420P12Le => layout(12, 1, 1, false, false),
            AvifPixelFormat::Yuv422P12Le => layout(12, 1, 0, false, false),
            AvifPixelFormat::Yuv444P12Le => layout(12, 0, 0, false, false),
            AvifPixelFormat::Gray12Le => layout(12, 0, 0, true, false),
            AvifPixelFormat::Yuva420P12Le => layout(12, 1, 1, false, true),
            AvifPixelFormat::Yuva422P12Le => layout(12, 1, 0, false, true),
            AvifPixelFormat::Yuva444P12Le => layout(12, 0, 0, false, true),
            AvifPixelFormat::Ya16Le => layout(16, 0, 0, true, true),
        }
    }

    /// Whether the layout has these parts. Greyscale has no chroma to be
    /// halved, and interleaved samples of more than 8 bits take 16.
    pub open spec fn has_parts(self, bit_depth: u8, sx: u8, sy: u8, gray: bool, alpha: bool) -> bool {
        let l = self.layout();
        &&& bit_depth == 8 || bit_depth == 10 || bit_depth == 12
        &&& l.depth == if gray && alpha && bit_depth != 8 {
            16
        } else {
            bit_depth
        }
        &&& l.gray == gray
        &&& l.alpha == alpha
        &&& gray || (l.sx == sx && l.sy == sy)
    }

    /// Number of planes: one without chroma, three with, and one more
    /// for alpha unless it is interleaved.
    pub open spec fn planes(self) -> nat {
        if self.layout().gray {
            1
        } else if self.layout().alpha {
            4
        } else {
            3
        }
    }

    /// Bytes per sample.
    pub open spec fn sample_bytes(self) -> nat {
        if self.layout().depth == 8 {
            1
        } else {
            2
        }
    }

    /// Whether luma and alpha are interleaved.
    pub open spec fn packed(self) -> bool {
        self.layout().gray && self.layout().alpha
    }

    /// The layout with these parts.
    pub fn from_layout(bit_depth: u8, sx: u8, sy: u8, gray: bool, alpha: bool) -> (r: Option<
        AvifPixelFormat,
    >)
        ensures
            r == format_of(bit_depth, sx, sy, gray, alpha),
            r is Some <==> known_parts(bit_depth, sx, sy, gray),
            r matches Some(f) ==> f.has_parts(bit_depth, sx, sy, gray, alpha),
    {
        let r = if !gray && !alpha && bit_depth == 8 && sx == 1 && sy == 1 {
            Some(AvifPixelFormat::Yuv420P)
        } else if !gray && !alpha && bit_depth == 8 && sx == 1 && sy == 0 {
            Some(AvifPixelFormat::Yuv422P)
        } else if !gray && !alpha && bit_depth == 8 && sx == 0 && sy == 0 {
            Some(AvifPixelFormat::Yuv444P)
        } else if gray && !alpha && bit_depth == 8 {
            Some(AvifPixelFormat::Gray8)
        } else if !gray && alpha && bit_depth == 8 && sx == 1 && sy == 1 {
            Some(AvifPixelFormat::Yuva420P)
        } else if !gray && alpha && bit_depth == 8 && sx == 1 && sy == 0 {
            Some(AvifPixelFormat::Yuva422P)
        } else if !gray && alpha && bit_depth == 8 && sx == 0 && sy == 0 {
            Some(AvifPixelFormat::Yuva444P)
        } else if gray && alpha && bit_depth == 8 {
            Some(AvifPixelFormat::Ya8)
        } else if !gray && !alpha && bit_depth == 10 && sx == 1 && sy == 1 {
            Some(AvifPixelFormat::Yuv420P10Le)
        } else if !gray && !alpha && bit_depth == 10 && sx == 1 && sy == 0 {
            Some(AvifPixelFormat::Yuv422P10Le)
        } else if !gray && !alpha && bit_depth == 10 && sx == 0 && sy == 0 {
            Some(AvifPixelFormat::Yuv444P10Le)
        } else if gray && !alpha && bit_depth == 10 {
            Some(AvifPixelFormat::Gray10Le)
        } else if !gray && alpha && bit_depth == 10 && sx == 1 && sy == 1 {
            Some(AvifPixelFormat::Yuva420P10Le)
        } else if !gray && alpha && bit_depth == 10 && sx == 1 && sy == 0 {
            Some(AvifPixelFormat::Yuva422P10Le)
        } else if !gray && alpha && bit_depth == 10 && sx == 0 && sy == 0 {
            Some(AvifPixelFormat::Yuva444P10Le)
        } else if !gray && !alpha && bit_depth == 12 && sx == 1 && sy == 1 {
            Some(AvifPixelFormat::Yuv420P12Le)
        } else if !gray && !alpha && bit_depth == 12 && sx == 1 && sy == 0 {
            Some(AvifPixelFormat::Yuv422P12Le)
        } else if !gray && !alpha && bit_depth == 12 && sx == 0 && sy == 0 {
            Some(AvifPixelFormat::Yuv444P12Le)
        } else if gray && !alpha && bit_depth == 12 {
            Some(AvifPixelFormat::Gray12Le)
        } else if !gray && alpha && bit_depth == 12 && sx == 1 && sy == 1 {
            Some(AvifPixelFormat::Yuva420P12Le)
        } else if !gray && alpha && bit_depth == 12 && sx == 1 && sy == 0 {
            Some(AvifPixelFormat::Yuva422P12Le)
        } else if !gray && alpha && bit_depth == 12 && sx == 0 && sy == 0 {
            Some(AvifPixelFormat::Yuva444P12Le)
        } else if gray && alpha && (bit_depth == 10 || bit_depth == 12) {
            Some(AvifPixelFormat::Ya16Le)
        } else {
            None
        };
        proof {
            if let Some(f) = r {
                lemma_format(f, bit_depth, sx, sy, gray, alpha);
            }
        }
        r
    }

    /// Number of planes.
    pub fn plane_count(&self) -> (r: usize)
        ensures
            r == self.planes(),
    {
        match self {
            AvifPixelFormat::Yuv420P
            | AvifPixelFormat::Yuv422P
            | AvifPixelFormat::Yuv444P
            | AvifPixelFormat::Yuv420P10Le
            | AvifPixelFormat::Yuv422P10Le
            | AvifPixelFormat::Yuv444P10Le
            | AvifPixelFormat::Yuv420P12Le
            | AvifPixelFormat::Yuv422P12Le
            | AvifPixelFormat::Yuv444P12Le => 3,
            AvifPixelFormat::Gray8
            | AvifPixelFormat::Ya8
            | AvifPixelFormat::Gray10Le
            | AvifPixelFormat::Gray12Le
            | AvifPixelFormat::Ya16Le => 1,
            AvifPixelFormat::Yuva420P
            | AvifPixelFormat::Yuva422P
            | AvifPixelFormat::Yuva444P
            | AvifPixelFormat::Yuva420P10Le
            | AvifPixelFormat::Yuva422P10Le
            | AvifPixelFormat::Yuva444P10Le
            | AvifPixelFormat::Yuva420P12Le
            | AvifPixelFormat::Yuva422P12Le
            | AvifPixelFormat::Yuva444P12Le => 4,
        }
    }

    /// Bytes per sample: 1 for 8 bits, 2 for more.
    pub fn bytes_per_sample(&self) -> (r: usize)
        ensures
            r == self.sample_bytes(),
    {
        match self {
            AvifPixelFormat::Yuv420P
            | AvifPixelFormat::Yuv422P
            | AvifPixelFormat::Yuv444P
            | AvifPixelFormat::Gray8
            | AvifPixelFormat::Yuva420P
            | AvifPixelFormat::Yuva422P
            | AvifPixelFormat::Yuva444P
            | AvifPixelFormat::Ya8 => 1,
            AvifPixelFormat::Yuv420P10Le
            | AvifPixelFormat::Yuv422P10Le
            | AvifPixelFormat::Yuv444P10Le
            | AvifPixelFormat::Gray10Le
            | AvifPixelFormat::Yuva420P10Le
            | AvifPixelFormat::Yuva422P10Le
            | AvifPixelFormat::Yuva444P10Le
            | AvifPixelFormat::Yuv420P12Le
            | AvifPixelFormat::Yuv422P12Le
            | AvifPixelFormat::Yuv444P12Le
            | AvifPixelFormat::Gray12Le
            | AvifPixelFormat::Yuva420P12Le
            | AvifPixelFormat::Yuva422P12Le
            | AvifPixelFormat::Yuva444P12Le
            | AvifPixelFormat::Ya16Le => 2,
        }
    }

    /// Bits per sample; 16 for luma and alpha in 16-bit words.
    pub fn bit_depth(&self) -> (r: u8)
        ensures
            r == self.layout().depth,
    {
        match self {
            AvifPixelFormat::Yuv420P
            | AvifPixelFormat::Yuv422P
            | AvifPixelFormat::Yuv444P
            | AvifPixelFormat::Gray8
            | AvifPixelFormat::Yuva420P
            | AvifPixelFormat::Yuva422P
            | AvifPixelFormat::Yuva444P
            | AvifPixelFormat::Ya8 => 8,
            AvifPixelFormat::Yuv420P10Le
            | AvifPixelFormat::Yuv422P10Le
            | AvifPixelFormat::Yuv444P10Le
            | AvifPixelFormat::Gray10Le
            | AvifPixelFormat::Yuva420P10Le
            | AvifPixelFormat::Yuva422P10Le
            | AvifPixelFormat::Yuva444P10Le => 10,
            AvifPixelFormat::Yuv420P12Le
            | AvifPixelFormat::Yuv422P12Le
            | AvifPixelFormat::Yuv444P12Le
            | AvifPixelFormat::Gray12Le
            | AvifPixelFormat::Yuva420P12Le
            | AvifPixelFormat::Yuva422P12Le
            | AvifPixelFormat::Yuva444P12Le => 12,
            AvifPixelFormat::Ya16Le => 16,
        }
    }

    /// Halvings of the chroma width and height; none without chroma.
    pub fn chroma_subsampling(&self) -> (r: (u8, u8))
        ensures
            r == (self.layout().sx, self.layout().sy),
    {
        match self {
            AvifPixelFormat::Yuv420P
            | AvifPixelFormat::Yuva420P
            | AvifPixelFormat::Yuv420P10Le
            | AvifPixelFormat::Yuva420P10Le
            | AvifPixelFormat::Yuv420P12Le
            | AvifPixelFormat::Yuva420P12Le => (1, 1),
            AvifPixelFormat::Yuv422P
            | AvifPixelFormat::Yuva422P
            | AvifPixelFormat::Yuv422P10Le
            | AvifPixelFormat::Yuva422P10Le
            | AvifPixelFormat::Yuv422P12Le
            | AvifPixelFormat::Yuva422P12Le => (1, 0),
            AvifPixelFormat::Yuv444P
            | AvifPixelFormat::Gray8
            | AvifPixelFormat::Yuva444P
            | AvifPixelFormat::Ya8
            | AvifPixelFormat::Yuv444P10Le
            | AvifPixelFormat::Gray10Le
            | AvifPixelFormat::Yuva444P10Le
            | AvifPixelFormat::Yuv444P12Le
            | AvifPixelFormat::Gray12Le
            | AvifPixelFormat::Yuva444P12Le
            | AvifPixelFormat::Ya16Le => (0, 0),
        }
    }

    /// Whether luma and alpha are interleaved.
    pub fn is_packed_ya(&self) -> (r: bool)
        ensures
            r == self.packed(),
    {
        match self {
            AvifPixelFormat::Ya8 | AvifPixelFormat::Ya16Le => true,
            _ => false,
        }
    }

    /// Whether there is alpha.
    pub fn has_alpha(&self) -> (r: bool)
        ensures
            r == self.layout().alpha,
    {
        self.is_packed_ya() || self.plane_count() == 4
    }

    /// The same layout with alpha; nothing when it has alpha already.
    pub open spec fn alpha_companion(self) -> Option<AvifPixelFormat> {
        let l = self.layout();
        if l.alpha {
            None
        } else {
            format_of(l.depth, l.sx, l.sy, l.gray, true)
        }
    }

    /// The same layout with alpha; nothing when it has alpha already.
    pub fn with_alpha(&self) -> (r: Option<AvifPixelFormat>)
        ensures
            r == self.alpha_companion(),
            r is Some <==> !self.layout().alpha,
            r matches Some(f) ==> f.has_parts(
                self.layout().depth,
                self.layout().sx,
                self.layout().sy,
                self.layout().gray,
                true,
            ),
    {
        let r = match self {
            AvifPixelFormat::Yuv420P => Some(AvifPixelFormat::Yuva420P),
            AvifPixelFormat::Yuv422P => Some(AvifPixelFormat::Yuva422P),
            AvifPixelFormat::Yuv444P => Some(AvifPixelFormat::Yuva444P),
            AvifPixelFormat::Gray8 => Some(AvifPixelFormat::Ya8),
            AvifPixelFormat::Yuva420P => None,
            AvifPixelFormat::Yuva422P => None,
            AvifPixelFormat::Yuva444P => None,
            AvifPixelFormat::Ya8 => None,
            AvifPixelFormat::Yuv420P10Le => Some(AvifPixelFormat::Yuva420P10Le),
            AvifPixelFormat::Yuv422P10Le => Some(AvifPixelFormat::Yuva422P10Le),
            AvifPixelFormat::Yuv444P10Le => Some(AvifPixelFormat::Yuva444P10Le),
            AvifPixelFormat::Gray10Le => Some(AvifPixelFormat::Ya16Le),
            AvifPixelFormat::Yuva420P10Le => None,
            AvifPixelFormat::Yuva422P10Le => None,
            AvifPixelFormat::Yuva444P10Le => None,
            AvifPixelFormat::Yuv420P12Le => Some(AvifPixelFormat::Yuva420P12Le),
            AvifPixelFormat::Yuv422P12Le => Some(AvifPixelFormat::Yuva422P12Le),
            AvifPixelFormat::Yuv444P12Le => Some(AvifPixelFormat::Yuva444P12Le),
            AvifPixelFormat::Gray12Le => Some(AvifPixelFormat::Ya16Le),
            AvifPixelFormat::Yuva420P12Le => None,
            AvifPixelFormat::Yuva422P12Le => None,
            AvifPixelFormat::Yuva444P12Le => None,
            AvifPixelFormat::Ya16Le => None,
        };
        proof {
            if let Some(f) = r {
                let l = self.layout();
                lemma_format(f, l.depth, l.sx, l.sy, l.gray, true);
            }
        }
        r
    }

    /// The name of this layout.
    pub fn name(&self) -> (r: &'static str)
        ensures
            r@ == format_name(*self),
    {
        match self {
            AvifPixelFormat::Yuv420P => "Yuv420P",
            AvifPixelFormat::Yuv422P => "Yuv422P",
            AvifPixelFormat::Yuv444P => "Yuv444P",
            AvifPixelFormat::Gray8 => "Gray8",
            AvifPixelFormat::Yuva420P => "Yuva420P",
            AvifPixelFormat::Yuva422P => "Yuva422P",
            AvifPixelFormat::Yuva444P => "Yuva444P",
            AvifPixelFormat::Ya8 => "Ya8",
            AvifPixelFormat::Yuv420P10Le => "Yuv420P10Le",
            AvifPixelFormat::Yuv422P10Le => "Yuv422P10Le",
            AvifPixelFormat::Yuv444P10Le => "Yuv444P10Le",
            AvifPixelFormat::Gray10Le => "Gray10Le",
            AvifPixelFormat::Yuva420P10Le => "Yuva420P10Le",
            AvifPixelFormat::Yuva422P10Le => "Yuva422P10Le",
            AvifPixelFormat::Yuva444P10Le => "Yuva444P10Le",
            AvifPixelFormat::Yuv420P12Le => "Yuv420P12Le",
            AvifPixelFormat::Yuv422P12Le => "Yuv422P12Le",
            AvifPixelFormat::Yuv444P12Le => "Yuv444P12Le",
            AvifPixelFormat::Gray12Le => "Gray12Le",
            AvifPixelFormat::Yuva420P12Le => "Yuva420P12Le",
            AvifPixelFormat::Yuva422P12Le => "Yuva422P12Le",
            AvifPixelFormat::Yuva444P12Le => "Yuva444P12Le",
            AvifPixelFormat::Ya16Le => "Ya16Le",
        }
    }
}

/// A layout has a companion with alpha exactly when it has none itself.
/// The companion has alpha, the same chroma, and the same depth unless
/// the two are interleaved.
pub proof fn law_alpha_companion(f: AvifPixelFormat)
    ensures
        f.alpha_companion() is Some <==> !f.layout().alpha,
        f.alpha_companion() matches Some(g) ==> {
            &&& g.layout().alpha
            &&& g.layout().sx == f.layout().sx
            &&& g.layout().sy == f.layout().sy
            &&& g.layout().gray == f.layout().gray
            &&& g.sample_bytes() == f.sample_bytes()
            &&& !g.packed() ==> g.layout().depth == f.layout().depth
        },
{
    let l = f.layout();
    if !l.alpha {
        let with = if l.gray && l.depth == 8 {
            AvifPixelFormat::Ya8
        } else if l.gray {
            AvifPixelFormat::Ya16Le
        } else if l.depth == 8 {
            if l.sy == 1 {
                AvifPixelFormat::Yuva420P
            } else if l.sx == 1 {
                AvifPixelFormat::Yuva422P
            } else {
                AvifPixelFormat::Yuva444P
            }
        } else if l.depth == 10 {
            if l.sy == 1 {
                AvifPixelFormat::Yuva420P10Le
            } else if l.sx == 1 {
                AvifPixelFormat::Yuva422P10Le
            } else {
                AvifPixelFormat::Yuva444P10Le
            }
        } else {
            if l.sy == 1 {
                AvifPixelFormat::Yuva420P12Le
            } else if l.sx == 1 {
                AvifPixelFormat::Yuva422P12Le
            } else {
                AvifPixelFormat::Yuva444P12Le
            }
        };
        lemma_format(with, l.depth, l.sx, l.sy, l.gray, true);
    }
}

/// A layout is found again from its parts, unless it does not say its
/// depth.
pub proof fn law_layout_names_the_format(f: AvifPixelFormat)
    requires
        f != AvifPixelFormat::Ya16Le,
    ensures
        format_of(
            f.layout().depth,
            f.layout().sx,
            f.layout().sy,
            f.layout().gray,
            f.layout().alpha,
        ) == Some(f),
{
    let l = f.layout();
    lemma_format(f, l.depth, l.sx, l.sy, l.gray, l.alpha);
}

} // verus!
