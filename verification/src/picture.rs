//! Pictures as the composition layer takes them: one plane per channel,
//! rows without padding.

use crate::error::{outcome_view, views, AvifError, Fault};
use crate::image::{format_of, known_parts, AvifFrame, AvifPixelFormat, AvifPlane, FrameView, PlaneView};
use crate::overlay::{
    halve, halved, interleaved, no_layout, pixels, planar_planes, plane_from,
    read_pixels, samples_of, unpack_planes, write_packed, write_plane, SamplePlanes, SamplesView,
};
use crate::text::dec;
use oxideav_heif::compose::{self, OverlayInput};
use oxideav_heif::derived::{GridDescriptor, OverlayDescriptor};
use oxideav_heif::props::Colr;
use oxideav_heif::{Chroma, HeifFrame, HeifPixelFormat, Plane};
use vstd::arithmetic::power2::pow2;
use vstd::prelude::*;

verus! {

/// A picture. The planes hold luma, then chroma, then alpha; samples of
/// more than 8 bits take two bytes, the low one first.
#[derive(Clone, Debug, PartialEq, Eq)]
pub struct Picture {
    /// Width in pixels.
    pub width: u32,
    /// Height in pixels.
    pub height: u32,
    /// Chroma: 0 for none, 1 for 4:2:0, 2 for 4:2:2, 3 for 4:4:4.
    pub chroma: u8,
    /// Bits per sample.
    pub bit_depth: u8,
    /// Whether there is alpha.
    pub has_alpha: bool,
    /// The planes.
    pub planes: Vec<AvifPlane>,
}

/// A [`Picture`] as contracts speak of it.
#[verifier::ext_equal]
pub struct PictureView {
    /// Width in pixels.
    pub width: u32,
    /// Height in pixels.
    pub height: u32,
    /// Chroma.
    pub chroma: u8,
    /// Bits per sample.
    pub bit_depth: u8,
    /// Whether there is alpha.
    pub has_alpha: bool,
    /// The planes.
    pub planes: Seq<PlaneView>,
}

impl View for Picture {
    type V = PictureView;

    open spec fn view(&self) -> PictureView {
        PictureView {
            width: self.width,
            height: self.height,
            chroma: self.chroma,
            bit_depth: self.bit_depth,
            has_alpha: self.has_alpha,
            planes: views(self.planes@),
        }
    }
}

/// Most pixels of a picture that is composed.
pub const MAX_FRAME_PIXELS: u64 = 0x4000_0000;

impl PictureView {
    /// Halvings of the chroma width.
    pub open spec fn sx(self) -> u8 {
        if self.chroma == 1 || self.chroma == 2 {
            1
        } else {
            0
        }
    }

    /// Halvings of the chroma height.
    pub open spec fn sy(self) -> u8 {
        if self.chroma == 1 {
            1
        } else {
            0
        }
    }

    /// Bytes per sample.
    pub open spec fn bps(self) -> nat {
        if self.bit_depth > 8 {
            2
        } else {
            1
        }
    }

    /// Number of planes that are not alpha.
    pub open spec fn colour_planes(self) -> nat {
        if self.chroma == 0 {
            1
        } else {
            3
        }
    }

    /// Number of planes.
    pub open spec fn plane_count(self) -> nat {
        self.colour_planes() + if self.has_alpha {
            1nat
        } else {
            0nat
        }
    }

    /// Whether plane `k` has the full size.
    pub open spec fn full_size(self, k: int) -> bool {
        k == 0 || k == self.colour_planes()
    }

    /// Width of plane `k`.
    pub open spec fn plane_width(self, k: int) -> nat {
        if self.full_size(k) {
            self.width as nat
        } else {
            halved(self.width, self.sx()) as nat
        }
    }

    /// Height of plane `k`.
    pub open spec fn plane_height(self, k: int) -> nat {
        if self.full_size(k) {
            self.height as nat
        } else {
            halved(self.height, self.sy()) as nat
        }
    }

    /// Bytes in a row of plane `k`.
    pub open spec fn row_bytes(self, k: int) -> nat {
        self.plane_width(k) * self.bps()
    }

    /// Whether the planes are as many and as large as the layout says,
    /// with no padding.
    pub open spec fn tight(self) -> bool {
        &&& self.width > 0
        &&& self.height > 0
        &&& self.chroma <= 3
        &&& 8 <= self.bit_depth <= 16
        &&& self.planes.len() == self.plane_count()
        &&& forall|k: int|
            0 <= k < self.planes.len() ==> (#[trigger] self.planes[k]).stride == self.row_bytes(k)
                && self.planes[k].data.len() == self.row_bytes(k) * self.plane_height(k)
    }

    /// The sample of plane `k` at a place.
    pub open spec fn sample(self, k: int, x: int, y: int) -> nat {
        let at = y * self.planes[k].stride + x * self.bps();
        if self.bps() == 1 {
            self.planes[k].data[at] as nat
        } else {
            (self.planes[k].data[at] + 256 * self.planes[k].data[at + 1]) as nat
        }
    }

    /// Whether no sample of plane `k` is above what the depth holds.
    pub open spec fn in_range(self, k: int) -> bool {
        forall|x: int, y: int|
            0 <= x < self.plane_width(k) && 0 <= y < self.plane_height(k) ==> #[trigger] self.sample(
                k,
                x,
                y,
            ) <= top_sample(self.bit_depth)
    }

    /// Whether no alpha is above what the depth holds, as none can be in
    /// samples of one byte.
    pub open spec fn alpha_in_range(self) -> bool {
        self.has_alpha && self.bit_depth > 8 ==> self.in_range(self.colour_planes() as int)
    }

    /// Whether two pictures have the same size and layout.
    pub open spec fn like(self, other: PictureView) -> bool {
        &&& self.width == other.width
        &&& self.height == other.height
        &&& self.chroma == other.chroma
        &&& self.bit_depth == other.bit_depth
        &&& self.has_alpha == other.has_alpha
    }

    /// This picture with each chroma sample repeated for every pixel that
    /// it belongs to.
    pub open spec fn promoted(self) -> PictureView {
        let row = self.width * self.bps();
        PictureView {
            chroma: 3,
            planes: Seq::new(
                self.planes.len(),
                |k: int|
                    if self.full_size(k) {
                        self.planes[k]
                    } else {
                        PlaneView {
                            stride: row as nat,
                            data: Seq::new(
                                (row * self.height) as nat,
                                |i: int|
                                    {
                                        let y = i / row;
                                        let x = i % row / (self.bps() as int);
                                        let src_y = if self.sy() == 1 {
                                            y / 2
                                        } else {
                                            y
                                        };
                                        let src_x = if self.sx() == 1 {
                                            x / 2
                                        } else {
                                            x
                                        };
                                        self.planes[k].data[src_y * self.planes[k].stride + src_x
                                            * self.bps() + i % (self.bps() as int)]
                                    },
                            ),
                        }
                    },
            ),
            ..self
        }
    }
}

/// The largest sample of a depth.
pub open spec fn top_sample(bit_depth: u8) -> int {
    pow2(bit_depth as nat) - 1
}

/// Whether tiles of this size meet at places between chroma samples.
pub open spec fn tiles_split_chroma(t: PictureView) -> bool {
    t.sx() == 1 && t.width % 2 == 1 || t.sy() == 1 && t.height % 2 == 1
}

/// Plane `k` of the tiles laid out `columns` to a row.
pub open spec fn stitched_plane(tiles: Seq<PictureView>, columns: int, rows: int, k: int) -> PlaneView {
    let row = tiles[0].row_bytes(k) as int;
    let high = tiles[0].plane_height(k) as int;
    PlaneView {
        stride: (row * columns) as nat,
        data: Seq::new(
            (row * columns * (high * rows)) as nat,
            |i: int|
                {
                    let y = i / (row * columns);
                    let x = i % (row * columns);
                    tiles[y / high * columns + x / row].planes[k].data[y % high * row + x % row]
                },
        ),
    }
}

/// The tiles laid out `columns` to a row, in reading order.
pub open spec fn stitched(tiles: Seq<PictureView>, columns: int, rows: int) -> PictureView {
    PictureView {
        width: (tiles[0].width * columns) as u32,
        height: (tiles[0].height * rows) as u32,
        planes: Seq::new(
            tiles[0].planes.len(),
            |k: int| stitched_plane(tiles, columns, rows, k),
        ),
        ..tiles[0]
    }
}

/// The fault of a picture with too many pixels.
pub open spec fn too_many_pixels(width: u32, height: u32) -> Fault {
    Fault::Invalid(
        "frame "@ + dec(width as nat) + "x"@ + dec(height as nat) + " exceeds 1073741824 pixels"@,
    )
}

/// The canvas that tiles of one size and layout cover exactly.
pub open spec fn grid_canvas(tiles: Seq<PictureView>, columns: u16, rows: u16) -> PictureView {
    if tiles_split_chroma(tiles[0]) {
        stitched(
            Seq::new(tiles.len(), |i: int| tiles[i].promoted()),
            columns as int,
            rows as int,
        )
    } else {
        stitched(tiles, columns as int, rows as int)
    }
}

/// `oxideav_heif::HeifFrame`, the container's picture.
#[verifier::external_type_specification]
#[verifier::external_body]
pub struct ExHeifFrame(HeifFrame);

/// What a container picture holds: its size, its layout and its planes.
pub uninterp spec fn frame_view(f: HeifFrame) -> PictureView;

/// The views of container pictures.
pub open spec fn frame_views(s: Seq<HeifFrame>) -> Seq<PictureView> {
    Seq::new(s.len(), |i: int| frame_view(s[i]))
}

/// A container picture with the fields of `p`: the struct literals of
/// `HeifFrame`, `HeifPixelFormat` and `Plane`, and `Chroma::from_idc`.
#[verifier::external_body]
fn heif_frame(p: &Picture) -> (r: HeifFrame)
    requires
        p.chroma <= 3,
    ensures
        frame_view(r) == p@,
{
    HeifFrame {
        width: p.width,
        height: p.height,
        format: HeifPixelFormat {
            chroma: Chroma::from_idc(p.chroma).unwrap_or(Chroma::Mono),
            bit_depth: p.bit_depth,
            has_alpha: p.has_alpha,
        },
        planes: p.planes.iter().map(|x| Plane::new(x.stride, x.data.clone())).collect(),
    }
}

/// The fields of a container picture, read from `HeifFrame`, with
/// `Chroma::idc`.
#[verifier::external_body]
fn picture_from_heif(f: HeifFrame) -> (r: Picture)
    ensures
        r@ == frame_view(f),
{
    Picture {
        width: f.width,
        height: f.height,
        chroma: f.format.chroma.idc(),
        bit_depth: f.format.bit_depth,
        has_alpha: f.format.has_alpha,
        planes: f.planes.into_iter().map(|p| AvifPlane { stride: p.stride, data: p.data }).collect(),
    }
}

/// `oxideav_heif::compose::composite_grid`, on tiles of one size and
/// layout without alpha and a canvas of at most 2^30 pixels that they
/// cover exactly: the tiles in reading order. Tiles of an odd size with
/// halved chroma are first brought to full chroma.
#[verifier::external_body]
fn heif_composite_grid(
    rows: u16,
    columns: u16,
    width: u32,
    height: u32,
    tiles: &Vec<HeifFrame>,
) -> (r: Option<HeifFrame>)
    requires
        tiles@.len() > 0,
        tiles@.len() == rows * columns,
        alike(frame_views(tiles@)),
        !frame_view(tiles@[0]).has_alpha,
        width == frame_view(tiles@[0]).width * columns,
        height == frame_view(tiles@[0]).height * rows,
        width * height <= MAX_FRAME_PIXELS,
    ensures
        r is Some,
        frame_view(r->0) == grid_canvas(frame_views(tiles@), columns, rows),
{
    let desc = GridDescriptor::new(rows, columns, width, height);
    compose::composite_grid(&desc, tiles).ok()
}

/// A picture brought to full chroma has no padding.
proof fn lemma_promoted_tight(p: PictureView)
    requires
        p.tight(),
    ensures
        p.chroma != 0 ==> p.promoted().tight(),
{
    let q = p.promoted();
    if p.chroma != 0 {
        assert forall|k: int| 0 <= k < q.planes.len() implies (#[trigger] q.planes[k]).stride
            == q.row_bytes(k) && q.planes[k].data.len() == q.row_bytes(k) * q.plane_height(k) by {
            assert(p.planes[k].stride == p.row_bytes(k));
            reveal_with_fuel(halved, 2);
        }
    }
}

/// Laying tiles side by side multiplies the size of a plane, where no
/// chroma sample is split.
proof fn lemma_side(n: u32, count: int, shift: u8)
    requires
        n > 0,
        count > 0,
        shift <= 1,
        shift == 1 ==> n % 2 == 0,
        n * count <= u32::MAX,
    ensures
        halved((n * count) as u32, shift) == halved(n, shift) * count,
        n * count > 0,
{
    reveal_with_fuel(halved, 2);
    assert(n * count > 0) by (nonlinear_arith)
        requires
            n > 0,
            count > 0,
    ;
    if shift == 1 {
        let half = (n / 2) as int;
        assert(n == 2 * half);
        assert(n * count == 2 * (half * count)) by (nonlinear_arith)
            requires
                n == 2 * half,
        ;
        assert((half + 0) * count == half * count);
    }
}

/// Tiles laid out have no padding.
proof fn lemma_stitched_tight(tiles: Seq<PictureView>, columns: int, rows: int)
    requires
        tiles.len() > 0,
        tiles[0].tight(),
        !tiles_split_chroma(tiles[0]),
        columns > 0,
        rows > 0,
        tiles[0].width * columns <= u32::MAX,
        tiles[0].height * rows <= u32::MAX,
    ensures
        stitched(tiles, columns, rows).tight(),
{
    let t = tiles[0];
    let q = stitched(tiles, columns, rows);
    lemma_side(t.width, columns, 0);
    lemma_side(t.height, rows, 0);
    lemma_side(t.width, columns, t.sx());
    lemma_side(t.height, rows, t.sy());
    reveal_with_fuel(halved, 2);
    assert forall|k: int| 0 <= k < q.planes.len() implies (#[trigger] q.planes[k]).stride
        == q.row_bytes(k) && q.planes[k].data.len() == q.row_bytes(k) * q.plane_height(k) by {
        let pw = t.plane_width(k) as int;
        let ph = t.plane_height(k) as int;
        let bps = t.bps() as int;
        assert(q.plane_width(k) == pw * columns);
        assert(q.plane_height(k) == ph * rows);
        assert(pw * bps * columns == pw * columns * bps) by (nonlinear_arith);
        assert(0 <= pw * bps * columns) by (nonlinear_arith)
            requires
                0 <= pw,
                0 <= bps,
                0 < columns,
        ;
        assert(0 <= (pw * bps * columns) * (ph * rows)) by (nonlinear_arith)
            requires
                0 <= pw * bps * columns,
                0 <= ph,
                0 < rows,
        ;
    }
}

/// The canvas of a grid has no padding, and its size is that of the
/// tiles together.
pub proof fn lemma_grid_canvas(tiles: Seq<PictureView>, columns: u16, rows: u16)
    requires
        tiles.len() > 0,
        tiles[0].tight(),
        columns > 0,
        rows > 0,
        tiles[0].width * columns <= u32::MAX,
        tiles[0].height * rows <= u32::MAX,
    ensures
        grid_canvas(tiles, columns, rows).tight(),
        grid_canvas(tiles, columns, rows).width == tiles[0].width * columns,
        grid_canvas(tiles, columns, rows).height == tiles[0].height * rows,
        grid_canvas(tiles, columns, rows).has_alpha == tiles[0].has_alpha,
{
    if tiles_split_chroma(tiles[0]) {
        let up = Seq::new(tiles.len(), |i: int| tiles[i].promoted());
        lemma_promoted_tight(tiles[0]);
        assert(up[0] == tiles[0].promoted());
        lemma_stitched_tight(up, columns as int, rows as int);
    } else {
        lemma_stitched_tight(tiles, columns as int, rows as int);
    }
}

/// Whether pictures have one size and layout, and no padding.
pub open spec fn alike(s: Seq<PictureView>) -> bool {
    forall|i: int| 0 <= i < s.len() ==> (#[trigger] s[i]).tight() && s[i].like(s[0])
}

/// What `oxideav_heif::compose::composite_overlay` paints: a canvas of
/// this fill and size, the inputs at their offsets, each with whether
/// its colours are premultiplied, and the colour code points.
pub uninterp spec fn overlay_canvas(
    fill: Seq<u16>,
    width: u32,
    height: u32,
    offsets: Seq<(i32, i32)>,
    inputs: Seq<PictureView>,
    premultiplied: Seq<bool>,
    colour: (u16, u16, u16, bool),
) -> PictureView;

/// Whether pictures have one chroma and depth, no padding, and at most
/// 2^30 pixels each.
pub open spec fn one_layout(s: Seq<PictureView>) -> bool {
    forall|i: int|
        0 <= i < s.len() ==> (#[trigger] s[i]).tight() && s[i].chroma == s[0].chroma
            && s[i].bit_depth == s[0].bit_depth && s[i].width * s[i].height <= MAX_FRAME_PIXELS
}

/// Whether an edge between chroma samples is met: the canvas, an input or
/// the place of an input is odd where chroma is halved, or an input with
/// chroma has alpha.
pub open spec fn overlay_promotes(
    width: u32,
    height: u32,
    offsets: Seq<(i32, i32)>,
    inputs: Seq<PictureView>,
) -> bool {
    let first = inputs[0];
    ||| first.sx() == 1 && width % 2 == 1
    ||| first.sy() == 1 && height % 2 == 1
    ||| exists|i: int|
        #![trigger inputs[i]]
        0 <= i < inputs.len() && {
            ||| first.chroma != 0 && inputs[i].has_alpha
            ||| first.sx() == 1 && (inputs[i].width % 2 == 1 || offsets[i].0 as int % 2 == 1)
            ||| first.sy() == 1 && (inputs[i].height % 2 == 1 || offsets[i].1 as int % 2 == 1)
        }
}

/// Input `i` as it is painted: brought to full chroma where needed.
pub open spec fn overlay_layer(
    width: u32,
    height: u32,
    offsets: Seq<(i32, i32)>,
    inputs: Seq<PictureView>,
    i: int,
) -> PictureView {
    if overlay_promotes(width, height, offsets, inputs) {
        inputs[i].promoted()
    } else {
        inputs[i]
    }
}

/// Whether a picture at an offset covers a pixel of the canvas.
pub open spec fn covers(p: PictureView, offset: (i32, i32), x: int, y: int) -> bool {
    &&& 0 <= x - offset.0 < p.width
    &&& 0 <= y - offset.1 < p.height
}

/// Whether input `i`, without alpha, is the topmost at a pixel.
pub open spec fn on_top(
    offsets: Seq<(i32, i32)>,
    inputs: Seq<PictureView>,
    i: int,
    x: int,
    y: int,
) -> bool {
    &&& 0 <= i < inputs.len()
    &&& !inputs[i].has_alpha
    &&& covers(inputs[i], offsets[i], x, y)
    &&& forall|j: int|
        i < j < inputs.len() ==> !covers(#[trigger] inputs[j], offsets[j], x, y)
}

/// The opacity of a canvas, from 16 bits to a depth.
pub open spec fn fill_opacity(alpha: u16, bit_depth: u8) -> int {
    (alpha * top_sample(bit_depth) + 32767) / 65535
}

/// The pixel that the sample of plane `k` at `n` along an axis belongs
/// to, chroma being halved on that axis or not.
pub open spec fn pixel_at(p: PictureView, k: int, n: int, halved: u8) -> int {
    if p.full_size(k) || halved == 0 {
        n
    } else {
        n * 2
    }
}

/// The sample of plane `k` that a pixel at `n` along an axis belongs to.
pub open spec fn sample_of(p: PictureView, k: int, n: int, halved: u8) -> int {
    if p.full_size(k) || halved == 0 {
        n
    } else {
        n / 2
    }
}

/// The smaller of two.
pub open spec fn smaller(a: int, b: int) -> int {
    if a < b {
        a
    } else {
        b
    }
}

/// What holds of a painted canvas: its size and layout, which has alpha
/// where the fill is not opaque; an input without alpha shows wherever it
/// is the topmost; and the opacity is full where such an input lies, and
/// that of the fill where none does.
pub open spec fn painted(
    fill: Seq<u16>,
    width: u32,
    height: u32,
    offsets: Seq<(i32, i32)>,
    inputs: Seq<PictureView>,
    r: PictureView,
) -> bool {
    let top = top_sample(inputs[0].bit_depth);
    let alpha = r.colour_planes() as int;
    &&& r.tight()
    &&& r.width == width
    &&& r.height == height
    &&& r.bit_depth == inputs[0].bit_depth
    &&& r.chroma == if overlay_promotes(width, height, offsets, inputs) {
        3u8
    } else {
        inputs[0].chroma
    }
    &&& r.has_alpha == (fill_opacity(fill[3], r.bit_depth) < top)
    &&& forall|i: int, k: int, x: int, y: int|
        #![trigger inputs[i], r.sample(k, x, y)]
        0 <= k < alpha && 0 <= x < r.plane_width(k) && 0 <= y < r.plane_height(k) && on_top(
            offsets,
            inputs,
            i,
            pixel_at(r, k, x, r.sx()),
            pixel_at(r, k, y, r.sy()),
        ) ==> r.sample(k, x, y) == smaller(
            overlay_layer(width, height, offsets, inputs, i).sample(
                k,
                sample_of(r, k, pixel_at(r, k, x, r.sx()) - offsets[i].0, r.sx()),
                sample_of(r, k, pixel_at(r, k, y, r.sy()) - offsets[i].1, r.sy()),
            ) as int,
            top,
        )
    &&& r.has_alpha ==> forall|i: int, x: int, y: int|
        #![trigger inputs[i], r.sample(alpha, x, y)]
        0 <= i < inputs.len() && !inputs[i].has_alpha && 0 <= x < width && 0 <= y < height
            && covers(inputs[i], offsets[i], x, y) ==> r.sample(alpha, x, y) == top
    &&& r.has_alpha ==> forall|x: int, y: int|
        #![trigger r.sample(alpha, x, y)]
        0 <= x < width && 0 <= y < height && (forall|i: int|
            0 <= i < inputs.len() ==> !covers(#[trigger] inputs[i], offsets[i], x, y))
            ==> r.sample(alpha, x, y) == fill_opacity(fill[3], r.bit_depth)
}

/// Whether at a pixel input `j`, with alpha, lies over input `i`, without
/// alpha, and no other input lies between them or above.
pub open spec fn lies_over(
    offsets: Seq<(i32, i32)>,
    inputs: Seq<PictureView>,
    i: int,
    j: int,
    x: int,
    y: int,
) -> bool {
    &&& 0 <= i < j < inputs.len()
    &&& !inputs[i].has_alpha
    &&& inputs[j].has_alpha
    &&& covers(inputs[i], offsets[i], x, y)
    &&& covers(inputs[j], offsets[j], x, y)
    &&& forall|n: int|
        i < n < inputs.len() && n != j ==> !covers(#[trigger] inputs[n], offsets[n], x, y)
}

/// A sample `s` with alpha `a` over an opaque sample `b`, where `top` is
/// the largest sample: `s` counts in full where it is premultiplied, and
/// by its alpha where it is not.
pub open spec fn blend(top: int, s: int, a: int, premultiplied: bool, b: int) -> int {
    let own = if premultiplied {
        s * top
    } else {
        s * a
    };
    smaller((own + smaller(b, top) * (top - a) + top / 2) / top, top)
}

/// What holds of a painted canvas where an input with alpha lies over
/// one without: their samples blend, as premultiplied where that is said
/// of the upper input.
pub open spec fn blended(
    width: u32,
    height: u32,
    offsets: Seq<(i32, i32)>,
    inputs: Seq<PictureView>,
    premultiplied: Seq<bool>,
    r: PictureView,
) -> bool {
    forall|i: int, j: int, k: int, x: int, y: int|
        #![trigger inputs[i], inputs[j], r.sample(k, x, y)]
        0 <= k < r.colour_planes() && 0 <= x < width && 0 <= y < height && lies_over(
            offsets,
            inputs,
            i,
            j,
            x,
            y,
        ) ==> r.sample(k, x, y) == blend(
            top_sample(r.bit_depth),
            overlay_layer(width, height, offsets, inputs, j).sample(
                k,
                x - offsets[j].0,
                y - offsets[j].1,
            ) as int,
            inputs[j].sample(
                inputs[j].colour_planes() as int,
                x - offsets[j].0,
                y - offsets[j].1,
            ) as int,
            premultiplied[j],
            overlay_layer(width, height, offsets, inputs, i).sample(
                k,
                x - offsets[i].0,
                y - offsets[i].1,
            ) as int,
        )
}

/// `oxideav_heif::compose::composite_overlay`, on inputs of one layout
/// whose alpha is in range and a canvas of at most 2^30 pixels: a canvas
/// that is painted as `painted` says, on which an input with alpha over
/// one without blends as `blended` says. How colours blend elsewhere, and
/// what colour the fill has, is left to the name `overlay_canvas`.
#[verifier::external_body]
fn heif_composite_overlay(
    fill: [u16; 4],
    width: u32,
    height: u32,
    offsets: &Vec<(i32, i32)>,
    inputs: &Vec<HeifFrame>,
    premultiplied: &Vec<bool>,
    colour: (u16, u16, u16, bool),
) -> (r: Option<HeifFrame>)
    requires
        inputs@.len() > 0,
        inputs@.len() == offsets@.len(),
        inputs@.len() == premultiplied@.len(),
        one_layout(frame_views(inputs@)),
        forall|i: int|
            0 <= i < inputs@.len() ==> (#[trigger] frame_views(inputs@)[i]).alpha_in_range(),
        width > 0,
        height > 0,
        width * height <= MAX_FRAME_PIXELS,
    ensures
        r is Some,
        frame_view(r->0) == overlay_canvas(
            fill@,
            width,
            height,
            offsets@,
            frame_views(inputs@),
            premultiplied@,
            colour,
        ),
        painted(fill@, width, height, offsets@, frame_views(inputs@), frame_view(r->0)),
        blended(
            width,
            height,
            offsets@,
            frame_views(inputs@),
            premultiplied@,
            frame_view(r->0),
        ),
{
    let layers: Vec<_> = inputs.iter().zip(premultiplied).map(|(f, p)| OverlayInput::new(f, *p)).collect();
    let desc = OverlayDescriptor::new(fill, width, height, offsets.clone());
    let (primaries, transfer, matrix, full_range) = colour;
    let colr = Colr::Nclx { primaries, transfer, matrix, full_range };
    compose::composite_overlay(&desc, &layers, Some(&colr)).ok()
}

fn heif_frames(pictures: &Vec<Picture>) -> (r: Vec<HeifFrame>)
    requires
        forall|i: int| 0 <= i < pictures@.len() ==> (#[trigger] pictures@[i]).chroma <= 3,
    ensures
        frame_views(r@) == views(pictures@),
{
    let mut out: Vec<HeifFrame> = Vec::new();
    let mut i: usize = 0;
    while i < pictures.len()
        invariant
            i <= pictures@.len(),
            out@.len() == i,
            forall|j: int| 0 <= j < pictures@.len() ==> (#[trigger] pictures@[j]).chroma <= 3,
            forall|j: int| 0 <= j < i ==> frame_view(#[trigger] out@[j]) == pictures@[j]@,
        decreases pictures@.len() - i,
    {
        out.push(heif_frame(&pictures[i]));
        i = i + 1;
    }
    proof {
        assert(frame_views(out@) =~= views(pictures@));
    }
    out
}

/// Lay tiles of one size and layout out `columns` to a row.
pub(crate) fn stitch_tiles(rows: u16, columns: u16, width: u32, height: u32, tiles: &Vec<Picture>) -> (r:
    Picture)
    requires
        tiles@.len() > 0,
        tiles@.len() == rows * columns,
        alike(views(tiles@)),
        !tiles@[0].has_alpha,
        width == tiles@[0].width * columns,
        height == tiles@[0].height * rows,
        width * height <= MAX_FRAME_PIXELS,
    ensures
        r@ == grid_canvas(views(tiles@), columns, rows),
{
    proof {
        assert forall|i: int| 0 <= i < tiles@.len() implies (#[trigger] tiles@[i]).chroma <= 3 by {
            assert(views(tiles@)[i] == tiles@[i]@);
            assert(views(tiles@)[i].tight());
        }
        assert(views(tiles@)[0] == tiles@[0]@);
    }
    let frames = heif_frames(tiles);
    proof {
        assert(frame_views(frames@)[0] == frame_view(frames@[0]));
        assert(frames@.len() == frame_views(frames@).len());
    }
    picture_from_heif(heif_composite_grid(rows, columns, width, height, &frames).unwrap())
}

/// Paint pictures of one layout onto a canvas.
pub(crate) fn paint_overlay(
    fill: [u16; 4],
    width: u32,
    height: u32,
    offsets: &Vec<(i32, i32)>,
    inputs: &Vec<Picture>,
    premultiplied: &Vec<bool>,
    colour: (u16, u16, u16, bool),
) -> (r: Picture)
    requires
        inputs@.len() > 0,
        inputs@.len() == offsets@.len(),
        inputs@.len() == premultiplied@.len(),
        one_layout(views(inputs@)),
        forall|i: int| 0 <= i < inputs@.len() ==> (#[trigger] views(inputs@)[i]).alpha_in_range(),
        width > 0,
        height > 0,
        width * height <= MAX_FRAME_PIXELS,
    ensures
        r@ == overlay_canvas(
            fill@,
            width,
            height,
            offsets@,
            views(inputs@),
            premultiplied@,
            colour,
        ),
        painted(fill@, width, height, offsets@, views(inputs@), r@),
        blended(width, height, offsets@, views(inputs@), premultiplied@, r@),
{
    proof {
        assert forall|i: int| 0 <= i < inputs@.len() implies (#[trigger] inputs@[i]).chroma <= 3 by {
            assert(views(inputs@)[i] == inputs@[i]@);
            assert(views(inputs@)[i].tight());
        }
        assert(views(inputs@)[0] == inputs@[0]@);
    }
    let frames = heif_frames(inputs);
    proof {
        assert(frame_views(frames@)[0] == frame_view(frames@[0]));
        assert(frames@.len() == frame_views(frames@).len());
    }
    let painted = heif_composite_overlay(
        fill,
        width,
        height,
        offsets,
        &frames,
        premultiplied,
        colour,
    );
    picture_from_heif(painted.unwrap())
}

/// The chroma code of planes of samples.
pub open spec fn chroma_code(s: SamplesView) -> u8 {
    if s.gray {
        0
    } else if s.sx == 0 {
        3
    } else if s.sy == 0 {
        2
    } else {
        1
    }
}

/// Planes of samples as a picture.
pub open spec fn picture_from(s: SamplesView) -> PictureView {
    PictureView {
        width: s.width,
        height: s.height,
        chroma: chroma_code(s),
        bit_depth: s.bit_depth,
        has_alpha: s.alpha is Some,
        planes: planar_planes(
            s,
            if s.bit_depth > 8 {
                2
            } else {
                1
            },
        ),
    }
}

/// A frame as a picture.
pub open spec fn picture_of(
    frame: FrameView,
    format: AvifPixelFormat,
    bit_depth: u8,
    width: u32,
    height: u32,
) -> Result<PictureView, Fault> {
    if width * height > MAX_FRAME_PIXELS {
        Err(too_many_pixels(width, height))
    } else {
        match samples_of(frame, format, bit_depth, width, height) {
            Err(f) => Err(f),
            Ok(s) => Ok(picture_from(s)),
        }
    }
}

/// Unpacked samples have the sizes that their layout asks for.
pub proof fn lemma_samples_shape(
    frame: FrameView,
    format: AvifPixelFormat,
    bit_depth: u8,
    width: u32,
    height: u32,
)
    ensures
        samples_of(frame, format, bit_depth, width, height) matches Ok(s) ==> {
            &&& s.width == width
            &&& s.height == height
            &&& s.gray == format.layout().gray
            &&& s.alpha is Some == format.layout().alpha
            &&& samples_sized(s)
        },
{
}

/// The bytes of samples are as many as the samples times their width.
proof fn lemma_plane_from_shape(s: Seq<u16>, w: nat, h: nat, bps: nat)
    requires
        bps == 1 || bps == 2,
        s.len() == w * h,
    ensures
        plane_from(s, w, bps).stride == w * bps,
        plane_from(s, w, bps).data.len() == (w * bps) * h,
{
    assert(w * h * 1 == (w * 1) * h) by (nonlinear_arith);
    assert(w * h * 2 == (w * 2) * h) by (nonlinear_arith);
}

/// A picture made from planes of samples of the right size has no
/// padding.
pub proof fn lemma_picture_tight(s: SamplesView)
    requires
        samples_sized(s),
    ensures
        picture_from(s).tight(),
{
    let p = picture_from(s);
    let bps = p.bps();
    lemma_plane_from_shape(s.y, s.width as nat, s.height as nat, bps);
    if !s.gray {
        lemma_plane_from_shape(
            s.u,
            halved(s.width, s.sx) as nat,
            halved(s.height, s.sy) as nat,
            bps,
        );
        lemma_plane_from_shape(
            s.v,
            halved(s.width, s.sx) as nat,
            halved(s.height, s.sy) as nat,
            bps,
        );
    }
    if let Some(a) = s.alpha {
        lemma_plane_from_shape(a, s.width as nat, s.height as nat, bps);
    }
}

pub(crate) fn too_many_error(width: u32, height: u32) -> (r: AvifError)
    ensures
        r@ == too_many_pixels(width, height),
{
    crate::error::invalid_nn(
        "frame ",
        width as u64,
        "x",
        height as u64,
        " exceeds 1073741824 pixels",
    )
}

/// Whether planes of samples have the sizes that their layout asks for.
pub open spec fn samples_sized(s: SamplesView) -> bool {
    &&& s.width > 0
    &&& s.height > 0
    &&& s.bit_depth == 8 || s.bit_depth == 10 || s.bit_depth == 12
    &&& s.sx <= 1
    &&& s.sy <= s.sx
    &&& s.gray ==> s.sx == 0
    &&& s.y.len() == s.width as nat * s.height as nat
    &&& s.alpha matches Some(a) ==> a.len() == s.width as nat * s.height as nat
    &&& !s.gray ==> s.u.len() == halved(s.width, s.sx) as nat * halved(s.height, s.sy) as nat
    &&& !s.gray ==> s.v.len() == halved(s.width, s.sx) as nat * halved(s.height, s.sy) as nat
}

fn samples_to_picture(s: &SamplePlanes) -> (r: Picture)
    requires
        samples_sized(s@),
        s.width * 2 <= usize::MAX,
    ensures
        r@ == picture_from(s@),
        r@.tight(),
{
    proof {
        lemma_picture_tight(s@);
    }
    let bps: usize = if s.bit_depth > 8 {
        2
    } else {
        1
    };
    let mut planes: Vec<AvifPlane> = Vec::new();
    planes.push(write_plane(&s.y, s.width, bps));
    if !s.gray {
        let cw: u32 = halve(s.width, s.sx);
        planes.push(write_plane(&s.u, cw, bps));
        planes.push(write_plane(&s.v, cw, bps));
    }
    let mut has_alpha: bool = false;
    match &s.alpha {
        Some(a) => {
            planes.push(write_plane(a, s.width, bps));
            has_alpha = true;
        },
        None => {},
    }
    let chroma: u8 = if s.gray {
        0
    } else if s.sx == 0 {
        3
    } else if s.sy == 0 {
        2
    } else {
        1
    };
    let r = Picture {
        width: s.width,
        height: s.height,
        chroma,
        bit_depth: s.bit_depth,
        has_alpha,
        planes,
    };
    proof {
        assert(r@.planes =~= picture_from(s@).planes);
    }
    r
}

/// The area of a picture fits 64 bits; a small area has small sides.
pub proof fn lemma_area(width: u32, height: u32)
    ensures
        0 <= width * height <= u64::MAX,
        width * height <= 0x4000_0000 && height > 0 ==> width <= 0x4000_0000,
        width * height <= 0x4000_0000 && width > 0 ==> height <= 0x4000_0000,
{
    assert(0 <= width * height <= 0xffff_ffff * 0xffff_ffff) by (nonlinear_arith)
        requires
            width <= 0xffff_ffff,
            height <= 0xffff_ffff,
    ;
    assert(height > 0 ==> width <= width * height) by (nonlinear_arith);
    assert(width > 0 ==> height <= width * height) by (nonlinear_arith);
}

/// The bytes of a row, by the width of a sample.
proof fn lemma_row_bytes(p: PictureView, k: int)
    ensures
        p.bit_depth > 8 ==> p.row_bytes(k) == p.plane_width(k) * 2,
        p.bit_depth <= 8 ==> p.row_bytes(k) == p.plane_width(k),
{
    assert(p.plane_width(k) * 1 == p.plane_width(k)) by (nonlinear_arith);
}

/// Turn a frame into a picture. `bit_depth` is the coded depth where the
/// layout does not say it.
pub fn to_picture(
    frame: &AvifFrame,
    format: AvifPixelFormat,
    bit_depth: u8,
    width: u32,
    height: u32,
) -> (r: Result<Picture, AvifError>)
    ensures
        outcome_view(r) == picture_of(frame@, format, bit_depth, width, height),
        r matches Ok(p) ==> p@.tight(),
{
    proof {
        lemma_area(width, height);
    }
    if width as u64 * height as u64 > MAX_FRAME_PIXELS {
        return Err(too_many_error(width, height));
    }
    let s = unpack_planes(frame, format, bit_depth, width, height)?;
    proof {
        lemma_samples_shape(frame@, format, bit_depth, width, height);
    }
    Ok(samples_to_picture(&s))
}

/// The first `high` rows of a plane, each cut to `row` bytes.
pub open spec fn cut(p: PlaneView, row: nat, high: nat) -> PlaneView {
    PlaneView {
        stride: row,
        data: Seq::new(
            row * high,
            |i: int| p.data[i / (row as int) * p.stride + i % (row as int)],
        ),
    }
}

/// The top left part of a picture. Chroma that belongs to a pixel kept
/// is kept.
pub open spec fn trimmed(p: PictureView, width: u32, height: u32) -> PictureView {
    let q = PictureView { width, height, ..p };
    PictureView {
        planes: Seq::new(
            p.planes.len(),
            |k: int| cut(p.planes[k], q.row_bytes(k), q.plane_height(k)),
        ),
        ..q
    }
}

fn cut_plane(p: &AvifPlane, row: usize, high: u32) -> (r: AvifPlane)
    requires
        row > 0,
        high > 0,
        row <= p.stride,
        p.data@.len() >= p.stride * (high - 1) + row,
    ensures
        r@ == cut(p@, row as nat, high as nat),
{
    let mut data: Vec<u8> = Vec::new();
    let mut y: u32 = 0;
    proof {
        assert(0 * row == 0) by (nonlinear_arith);
    }
    while y < high
        invariant
            y <= high,
            row > 0,
            row <= p.stride,
            p.data.len() >= p.stride * (high - 1) + row,
            data@.len() == y * row,
            forall|i: int|
                0 <= i < data@.len() ==> data@[i] == p.data@[i / (row as int) * p.stride + i % (
                row as int)],
        decreases high - y,
    {
        let mut x: usize = 0;
        proof {
            assert(0 <= y * p.stride <= p.stride * (high - 1)) by (nonlinear_arith)
                requires
                    0 <= y <= high - 1,
                    0 <= p.stride,
            ;
        }
        let start: usize = y as usize * p.stride;
        while x < row
            invariant
                y < high,
                x <= row,
                row > 0,
                start == y * p.stride,
                start + row <= p.data.len(),
                data@.len() == y * row + x,
                forall|i: int|
                    0 <= i < data@.len() ==> data@[i] == p.data@[i / (row as int) * p.stride + i
                        % (row as int)],
            decreases row - x,
        {
            proof {
                vstd::arithmetic::div_mod::lemma_fundamental_div_mod_converse(
                    y * row + x,
                    row as int,
                    y as int,
                    x as int,
                );
            }
            data.push(p.data[start + x]);
            x = x + 1;
        }
        proof {
            assert(y * row + row == (y + 1) * row) by (nonlinear_arith);
        }
        y = y + 1;
    }
    let r = AvifPlane { stride: row, data };
    proof {
        assert(high * row == row * high) by (nonlinear_arith);
        assert(r@.data =~= cut(p@, row as nat, high as nat).data);
    }
    r
}

/// Halving keeps the order.
proof fn lemma_halved_order(a: u32, b: u32, shift: u8)
    requires
        0 < a <= b,
        shift <= 1,
    ensures
        0 < halved(a, shift) <= halved(b, shift),
{
    reveal_with_fuel(halved, 2);
}

/// Plane `k` of a smaller picture lies within plane `k` of a larger one.
proof fn lemma_cut_fits(p: PictureView, q: PictureView, k: int)
    requires
        p.tight(),
        0 <= k < p.planes.len(),
        q.chroma == p.chroma,
        q.bit_depth == p.bit_depth,
        0 < q.width <= p.width,
        0 < q.height <= p.height,
    ensures
        q.plane_width(k) > 0,
        q.plane_height(k) > 0,
        q.plane_height(k) <= p.height,
        0 < q.row_bytes(k) <= p.planes[k].stride,
        p.planes[k].data.len() >= p.planes[k].stride * (q.plane_height(k) - 1) + q.row_bytes(k),
{
    lemma_halved_order(q.width, p.width, p.sx());
    lemma_halved_order(q.height, p.height, p.sy());
    reveal_with_fuel(halved, 2);
    let stride = p.planes[k].stride as int;
    let ph = p.plane_height(k) as int;
    let qh = q.plane_height(k) as int;
    let row = q.row_bytes(k) as int;
    assert(stride * ph >= stride * (qh - 1) + row) by (nonlinear_arith)
        requires
            1 <= qh <= ph,
            0 <= row <= stride,
    ;
}

/// Keep the top left part of a picture.
pub fn trim_top_left(p: &Picture, width: u32, height: u32) -> (r: Picture)
    requires
        p@.tight(),
        0 < width <= p.width,
        0 < height <= p.height,
    ensures
        r@ == trimmed(p@, width, height),
        r@.tight(),
{
    let ghost q = PictureView { width, height, ..p@ };
    let colour: usize = if p.chroma == 0 {
        1
    } else {
        3
    };
    let sx: u8 = if p.chroma == 1 || p.chroma == 2 {
        1
    } else {
        0
    };
    let sy: u8 = if p.chroma == 1 {
        1
    } else {
        0
    };
    let mut planes: Vec<AvifPlane> = Vec::new();
    let mut k: usize = 0;
    while k < p.planes.len()
        invariant
            k <= p.planes@.len(),
            p@.tight(),
            0 < width <= p.width,
            0 < height <= p.height,
            q == (PictureView { width, height, ..p@ }),
            colour == p@.colour_planes(),
            sx == p@.sx(),
            sy == p@.sy(),
            planes@.len() == k,
            forall|j: int|
                0 <= j < k ==> (#[trigger] planes@[j])@ == cut(
                    p@.planes[j],
                    q.row_bytes(j),
                    q.plane_height(j),
                ),
        decreases p.planes@.len() - k,
    {
        let full: bool = k == 0 || k == colour;
        let pw: u32 = if full {
            width
        } else {
            halve(width, sx)
        };
        let ph: u32 = if full {
            height
        } else {
            halve(height, sy)
        };
        proof {
            assert(p@.planes[k as int] == p.planes@[k as int]@);
            lemma_cut_fits(p@, q, k as int);
        }
        let row: usize = if p.bit_depth > 8 {
            pw as usize * 2
        } else {
            pw as usize
        };
        proof {
            assert(pw as nat == q.plane_width(k as int));
            assert(ph as nat == q.plane_height(k as int));
            lemma_row_bytes(q, k as int);
        }
        planes.push(cut_plane(&p.planes[k], row, ph));
        k = k + 1;
    }
    let r = Picture {
        width,
        height,
        chroma: p.chroma,
        bit_depth: p.bit_depth,
        has_alpha: p.has_alpha,
        planes,
    };
    proof {
        assert(r@.planes =~= trimmed(p@, width, height).planes);
    }
    r
}

/// A picture without its chroma.
pub open spec fn without_chroma(p: PictureView) -> PictureView {
    PictureView {
        chroma: 0,
        planes: if p.has_alpha {
            seq![p.planes[0], p.planes[p.planes.len() - 1]]
        } else {
            seq![p.planes[0]]
        },
        ..p
    }
}

fn copy_plane(p: &AvifPlane) -> (r: AvifPlane)
    ensures
        r@ == p@,
{
    AvifPlane { stride: p.stride, data: vstd::slice::slice_to_vec(p.data.as_slice()) }
}

/// Drop the chroma of a picture.
pub fn demote_to_mono(p: &Picture) -> (r: Picture)
    requires
        p@.tight(),
    ensures
        r@ == without_chroma(p@),
        r@.tight(),
{
    let mut planes: Vec<AvifPlane> = Vec::new();
    proof {
        assert(p@.planes[0] == p.planes@[0]@);
        assert(p@.planes[p@.planes.len() - 1] == p.planes@[p.planes@.len() - 1]@);
    }
    planes.push(copy_plane(&p.planes[0]));
    if p.has_alpha {
        planes.push(copy_plane(&p.planes[p.planes.len() - 1]));
    }
    let r = Picture {
        width: p.width,
        height: p.height,
        chroma: 0,
        bit_depth: p.bit_depth,
        has_alpha: p.has_alpha,
        planes,
    };
    proof {
        assert(r@.planes =~= without_chroma(p@).planes);
    }
    r
}

/// The planes of the frame that shows a picture: those of the picture,
/// or luma and alpha interleaved.
pub open spec fn frame_planes(p: PictureView) -> Seq<PlaneView> {
    if p.chroma == 0 && p.has_alpha {
        let w = p.width as nat;
        let h = p.height as nat;
        seq![
            plane_from(
                interleaved(
                    pixels(p.planes[0], w, h, p.bps(), 0, p.bps()),
                    pixels(p.planes[1], w, h, p.bps(), 0, p.bps()),
                ),
                w * 2,
                p.bps(),
            ),
        ]
    } else {
        p.planes
    }
}

/// The layout of the frame that shows a picture.
pub open spec fn picture_format(p: PictureView) -> Option<AvifPixelFormat> {
    format_of(p.bit_depth, p.sx(), p.sy(), p.chroma == 0, p.has_alpha)
}

/// The frame that shows a picture, and its layout.
pub open spec fn shown(p: PictureView) -> Result<(FrameView, AvifPixelFormat), Fault> {
    match picture_format(p) {
        None => Err(no_layout()),
        Some(f) => Ok((FrameView { pts: None, planes: frame_planes(p) }, f)),
    }
}

/// The outcome of a call that returns a frame and its layout.
pub open spec fn outcome_frame(r: Result<(AvifFrame, AvifPixelFormat), AvifError>) -> Result<
    (FrameView, AvifPixelFormat),
    Fault,
> {
    match r {
        Ok((frame, format)) => Ok((frame@, format)),
        Err(e) => Err(e@),
    }
}

fn copy_planes(p: &Vec<AvifPlane>) -> (r: Vec<AvifPlane>)
    ensures
        views(r@) == views(p@),
{
    let mut out: Vec<AvifPlane> = Vec::new();
    let mut i: usize = 0;
    while i < p.len()
        invariant
            i <= p@.len(),
            out@.len() == i,
            forall|j: int| 0 <= j < i ==> (#[trigger] out@[j])@ == p@[j]@,
        decreases p@.len() - i,
    {
        out.push(copy_plane(&p[i]));
        i = i + 1;
    }
    proof {
        assert(views(out@) =~= views(p@));
    }
    out
}

/// Turn a picture into a frame.
pub fn from_picture(p: &Picture) -> (r: Result<(AvifFrame, AvifPixelFormat), AvifError>)
    requires
        p@.tight(),
        p.chroma == 0 && p.has_alpha ==> p.width * 4 <= usize::MAX,
    ensures
        outcome_frame(r) == shown(p@),
        r is Ok <==> known_parts(p@.bit_depth, p@.sx(), p@.sy(), p@.chroma == 0),
        r matches Ok((_, f)) ==> f.has_parts(
            p@.bit_depth,
            p@.sx(),
            p@.sy(),
            p@.chroma == 0,
            p@.has_alpha,
        ),
{
    let sx: u8 = if p.chroma == 1 || p.chroma == 2 {
        1
    } else {
        0
    };
    let sy: u8 = if p.chroma == 1 {
        1
    } else {
        0
    };
    let format = match AvifPixelFormat::from_layout(
        p.bit_depth,
        sx,
        sy,
        p.chroma == 0,
        p.has_alpha,
    ) {
        Some(f) => f,
        None => {
            return Err(
                AvifError::unsupported("avif overlay: no pixel layout for these planes"),
            );
        },
    };
    let planes = if p.chroma == 0 && p.has_alpha {
        let bps: usize = if p.bit_depth > 8 {
            2
        } else {
            1
        };
        proof {
            let w = p.width as int;
            let h = p.height as int;
            assert(p@.planes[0] == p.planes@[0]@);
            assert(p@.planes[1] == p.planes@[1]@);
            assert((w * bps) * h == (w * bps) * (h - 1) + w * bps) by (nonlinear_arith);
        }
        let y = read_pixels(&p.planes[0], p.width, p.height, bps, 0, bps);
        let a = read_pixels(&p.planes[1], p.width, p.height, bps, 0, bps);
        let mut one: Vec<AvifPlane> = Vec::new();
        one.push(write_packed(&y, &a, p.width, bps));
        one
    } else {
        copy_planes(&p.planes)
    };
    let frame = AvifFrame { pts: None, planes };
    proof {
        assert(frame@.planes =~= frame_planes(p@));
    }
    Ok((frame, format))
}

} // verus!
