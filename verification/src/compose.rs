//! Overlay images: pictures painted onto a canvas, the bottom one first.

use crate::cicp::CicpTriple;
use crate::error::{fault_text, invalid_nn, invalid_nn_end, outcome_list, views, AvifError, Fault};
use crate::image::{AvifFrame, AvifPixelFormat, FrameView};
use crate::meta_parse::{lemma_after_all, lemma_after_none, lemma_after_push};
use crate::picture::{
    blended, demote_to_mono, fill_opacity, from_picture, lemma_area, on_top, one_layout, overlay_canvas,
    overlay_promotes, paint_overlay, painted, picture_of, pixel_at, sample_of, shown, to_picture,
    top_sample, without_chroma, Picture, PictureView, MAX_FRAME_PIXELS,
};
use crate::props_parse::after;
use crate::text::{dec, push_dec};
use vstd::prelude::*;

verus! {

/// Most pixels of an overlay canvas.
pub const MAX_OVERLAY_CANVAS_PIXELS: u64 = 0x400_0000;

/// Where one input of an overlay goes.
#[derive(Clone, Copy, Debug, PartialEq, Eq, Structural)]
pub struct OverlayEntry {
    /// Left edge of the input on the canvas.
    pub horizontal_offset: i32,
    /// Top edge of the input on the canvas.
    pub vertical_offset: i32,
}

/// The descriptor of an overlay item.
#[derive(Clone, Debug, PartialEq, Eq)]
pub struct ImageOverlay {
    /// Red, green, blue and alpha of the canvas.
    pub canvas_fill_value: [u16; 4],
    /// Width of the canvas.
    pub output_width: u32,
    /// Height of the canvas.
    pub output_height: u32,
    /// Where the inputs go, in order.
    pub entries: Vec<OverlayEntry>,
}

/// An [`ImageOverlay`] as contracts speak of it.
#[verifier::ext_equal]
pub struct OverlayView {
    /// Red, green, blue and alpha of the canvas.
    pub canvas_fill_value: [u16; 4],
    /// Width of the canvas.
    pub output_width: u32,
    /// Height of the canvas.
    pub output_height: u32,
    /// Where the inputs go, in order.
    pub entries: Seq<OverlayEntry>,
}

impl View for ImageOverlay {
    type V = OverlayView;

    open spec fn view(&self) -> OverlayView {
        OverlayView {
            canvas_fill_value: self.canvas_fill_value,
            output_width: self.output_width,
            output_height: self.output_height,
            entries: self.entries@,
        }
    }
}

/// One input of an overlay.
#[derive(Clone, Copy, Debug)]
pub struct OverlayInput<'a> {
    /// The frame.
    pub frame: &'a AvifFrame,
    /// Its layout.
    pub format: AvifPixelFormat,
    /// Its coded depth, which not every layout says.
    pub bit_depth: u8,
    /// Its width.
    pub width: u32,
    /// Its height.
    pub height: u32,
    /// Its left edge on the canvas.
    pub offset_x: i64,
    /// Its top edge on the canvas.
    pub offset_y: i64,
    /// Whether its colours are premultiplied by its alpha.
    pub premultiplied: bool,
}

/// The picture of input `i`.
pub open spec fn input_picture(inp: OverlayInput<'_>) -> Result<PictureView, Fault> {
    picture_of(inp.frame@, inp.format, inp.bit_depth, inp.width, inp.height)
}

/// The name of a chroma code.
pub open spec fn chroma_name(c: u8) -> Seq<char> {
    if c == 0 {
        "Mono"@
    } else if c == 1 {
        "Yuv420"@
    } else if c == 2 {
        "Yuv422"@
    } else {
        "Yuv444"@
    }
}

fn chroma_text(c: u8) -> (r: &'static str)
    ensures
        r@ == chroma_name(c),
{
    if c == 0 {
        "Mono"
    } else if c == 1 {
        "Yuv420"
    } else if c == 2 {
        "Yuv422"
    } else {
        "Yuv444"
    }
}

/// The fault of input `i`.
pub open spec fn input_fault(i: int, f: Fault) -> Fault {
    Fault::Invalid("avif overlay: input "@ + dec(i as nat) + ": "@ + fault_text(f))
}

fn input_error(i: usize, e: &AvifError) -> (r: AvifError)
    ensures
        r@ == input_fault(i as int, e@),
{
    let mut s = "avif overlay: input ".to_string();
    push_dec(&mut s, i as u64);
    s.append(": ");
    s.append(e.to_string().as_str());
    AvifError::InvalidData(s)
}

/// The fault of an input whose layout is not that of the first.
pub open spec fn mixed_layouts(i: int, p: PictureView, first: PictureView) -> Fault {
    Fault::Unsupported(
        "avif overlay: input "@ + dec(i as nat) + " layout ("@ + dec(p.bit_depth as nat) + "-bit "@
            + chroma_name(p.chroma) + ") differs from input 0 ("@ + dec(first.bit_depth as nat)
            + "-bit "@ + chroma_name(first.chroma) + ") — mixed layouts are not composited"@,
    )
}

fn mixed_error(i: usize, p: &Picture, first: &Picture) -> (r: AvifError)
    ensures
        r@ == mixed_layouts(i as int, p@, first@),
{
    let mut s = "avif overlay: input ".to_string();
    push_dec(&mut s, i as u64);
    s.append(" layout (");
    push_dec(&mut s, p.bit_depth as u64);
    s.append("-bit ");
    s.append(chroma_text(p.chroma));
    s.append(") differs from input 0 (");
    push_dec(&mut s, first.bit_depth as u64);
    s.append("-bit ");
    s.append(chroma_text(first.chroma));
    s.append(") — mixed layouts are not composited");
    AvifError::Unsupported(s)
}

/// The picture of input `i`, which must have the layout of the first.
pub open spec fn layer_of(inputs: Seq<OverlayInput<'_>>, i: int) -> Result<PictureView, Fault> {
    match input_picture(inputs[i]) {
        Err(f) => Err(input_fault(i, f)),
        Ok(p) => {
            let first = input_picture(inputs[0])->Ok_0;
            if i > 0 && (p.chroma != first.chroma || p.bit_depth != first.bit_depth) {
                Err(mixed_layouts(i, p, first))
            } else {
                Ok(p)
            }
        },
    }
}

/// The pictures of the inputs from input `i` on.
pub open spec fn layers_from(inputs: Seq<OverlayInput<'_>>, i: int) -> Result<
    Seq<PictureView>,
    Fault,
>
    decreases inputs.len() - i,
{
    if i < 0 || i >= inputs.len() {
        Ok(Seq::empty())
    } else {
        match layer_of(inputs, i) {
            Err(f) => Err(f),
            Ok(p) => after(seq![p], layers_from(inputs, i + 1)),
        }
    }
}

/// The offsets of the inputs.
pub open spec fn offsets_of(entries: Seq<OverlayEntry>) -> Seq<(i32, i32)> {
    Seq::new(entries.len(), |i: int| (entries[i].horizontal_offset, entries[i].vertical_offset))
}

/// Whether the colours of each input are premultiplied.
pub open spec fn premultiplied_of(inputs: Seq<OverlayInput<'_>>) -> Seq<bool> {
    Seq::new(inputs.len(), |i: int| inputs[i].premultiplied)
}

/// The code points as the composition takes them.
pub open spec fn colour_of(c: CicpTriple) -> (u16, u16, u16, bool) {
    (c.colour_primaries, c.transfer_characteristics, c.matrix_coefficients, c.full_range)
}

/// What is painted, without chroma when no input has any.
pub open spec fn overlay_picture(painted: PictureView, layers: Seq<PictureView>) -> PictureView {
    if layers[0].chroma == 0 && painted.chroma != 0 {
        without_chroma(painted)
    } else {
        painted
    }
}

/// The frame of a painted canvas, its layout and its size, at the time
/// of the first input.
pub open spec fn overlay_shown(p: PictureView, pts: Option<i64>) -> Result<
    (FrameView, AvifPixelFormat, u32, u32),
    Fault,
> {
    match shown(p) {
        Err(f) => Err(f),
        Ok((frame, format)) => Ok((FrameView { pts, ..frame }, format, p.width, p.height)),
    }
}

/// The canvas with the inputs on it.
pub open spec fn canvas_of(
    desc: OverlayView,
    inputs: Seq<OverlayInput<'_>>,
    cicp: CicpTriple,
) -> PictureView {
    overlay_canvas(
        desc.canvas_fill_value@,
        desc.output_width,
        desc.output_height,
        offsets_of(desc.entries),
        layers_from(inputs, 0)->Ok_0,
        premultiplied_of(inputs),
        colour_of(cicp),
    )
}

/// The overlay image: its frame, layout and size.
pub open spec fn overlay_frame(
    desc: OverlayView,
    inputs: Seq<OverlayInput<'_>>,
    cicp: CicpTriple,
) -> Result<(FrameView, AvifPixelFormat, u32, u32), Fault> {
    if desc.output_width == 0 || desc.output_height == 0 {
        Err(Fault::Invalid("avif overlay: zero canvas dimensions"@))
    } else if desc.output_width * desc.output_height > MAX_OVERLAY_CANVAS_PIXELS {
        Err(
            Fault::Invalid(
                "avif overlay: canvas "@ + dec(desc.output_width as nat) + "x"@ + dec(
                    desc.output_height as nat,
                ) + " exceeds 67108864 pixels"@,
            ),
        )
    } else if inputs.len() != desc.entries.len() {
        Err(
            Fault::Invalid(
                "avif overlay: descriptor lists "@ + dec(desc.entries.len()) + " inputs, got "@
                    + dec(inputs.len()),
            ),
        )
    } else if inputs.len() == 0 {
        Err(Fault::Invalid("avif overlay: no input images"@))
    } else {
        match layers_from(inputs, 0) {
            Err(f) => Err(f),
            Ok(layers) => overlay_shown(
                overlay_picture(canvas_of(desc, inputs, cicp), layers),
                inputs[0].frame.pts,
            ),
        }
    }
}

/// The outcome of a call that returns a frame, its layout and its size.
pub open spec fn outcome_sized(
    r: Result<(AvifFrame, AvifPixelFormat, u32, u32), AvifError>,
) -> Result<(FrameView, AvifPixelFormat, u32, u32), Fault> {
    match r {
        Ok((frame, format, w, h)) => Ok((frame@, format, w, h)),
        Err(e) => Err(e@),
    }
}

fn read_layers(inputs: &[OverlayInput<'_>]) -> (r: Result<Vec<Picture>, AvifError>)
    ensures
        outcome_list(r) == layers_from(inputs@, 0),
        r matches Ok(p) ==> p@.len() == inputs@.len() && one_layout(views(p@)),
        r matches Ok(p) ==> forall|i: int|
            0 <= i < p@.len() ==> input_picture(inputs@[i]) == Ok::<PictureView, Fault>(
                (#[trigger] p@[i])@,
            ),
{
    let mut out: Vec<Picture> = Vec::new();
    let mut i: usize = 0;
    let ghost all = layers_from(inputs@, 0);
    proof {
        lemma_after_none(views(out@), all);
    }
    while i < inputs.len()
        invariant
            i <= inputs@.len(),
            all == layers_from(inputs@, 0),
            after(views(out@), layers_from(inputs@, i as int)) == all,
            out@.len() == i,
            forall|j: int|
                0 <= j < i ==> input_picture(inputs@[j]) == Ok::<PictureView, Fault>(
                    (#[trigger] out@[j])@,
                ),
            forall|j: int|
                0 <= j < out@.len() ==> {
                    let p = (#[trigger] out@[j])@;
                    &&& p.tight()
                    &&& p.chroma == out@[0].chroma
                    &&& p.bit_depth == out@[0].bit_depth
                    &&& p.width * p.height <= MAX_FRAME_PIXELS
                },
        decreases inputs@.len() - i,
    {
        let inp = &inputs[i];
        let p = match to_picture(inp.frame, inp.format, inp.bit_depth, inp.width, inp.height) {
            Ok(p) => p,
            Err(e) => {
                return Err(input_error(i, &e));
            },
        };
        proof {
            lemma_picture_size(inp.frame@, inp.format, inp.bit_depth, inp.width, inp.height);
        }
        if i > 0 && (p.chroma != out[0].chroma || p.bit_depth != out[0].bit_depth) {
            return Err(mixed_error(i, &p, &out[0]));
        }
        proof {
            lemma_after_push(out@, p, layers_from(inputs@, i + 1));
        }
        out.push(p);
        i = i + 1;
    }
    proof {
        lemma_after_all(views(out@));
        assert forall|j: int| 0 <= j < views(out@).len() implies (#[trigger] views(
            out@,
        )[j]).tight() && views(out@)[j].chroma == views(out@)[0].chroma && views(
            out@,
        )[j].bit_depth == views(out@)[0].bit_depth && views(out@)[j].width * views(out@)[j].height
            <= MAX_FRAME_PIXELS by {
            assert(views(out@)[j] == out@[j]@);
            assert(views(out@)[0] == out@[0]@);
        }
    }
    Ok(out)
}

/// A picture has the size it was read with, and is not too large.
proof fn lemma_picture_size(
    frame: FrameView,
    format: AvifPixelFormat,
    bit_depth: u8,
    width: u32,
    height: u32,
)
    ensures
        picture_of(frame, format, bit_depth, width, height) matches Ok(p) ==> p.width == width
            && p.height == height && p.width * p.height <= MAX_FRAME_PIXELS,
{
    crate::picture::lemma_samples_shape(frame, format, bit_depth, width, height);
}

fn entry_offsets(entries: &Vec<OverlayEntry>) -> (r: Vec<(i32, i32)>)
    ensures
        r@ == offsets_of(entries@),
{
    let mut out: Vec<(i32, i32)> = Vec::new();
    let mut i: usize = 0;
    while i < entries.len()
        invariant
            i <= entries@.len(),
            out@ == offsets_of(entries@).take(i as int),
        decreases entries@.len() - i,
    {
        out.push((entries[i].horizontal_offset, entries[i].vertical_offset));
        i = i + 1;
        proof {
            assert(out@ =~= offsets_of(entries@).take(i as int));
        }
    }
    proof {
        assert(out@ =~= offsets_of(entries@));
    }
    out
}

fn input_premultiplied(inputs: &[OverlayInput<'_>]) -> (r: Vec<bool>)
    ensures
        r@ == premultiplied_of(inputs@),
{
    let mut out: Vec<bool> = Vec::new();
    let mut i: usize = 0;
    while i < inputs.len()
        invariant
            i <= inputs@.len(),
            out@ == premultiplied_of(inputs@).take(i as int),
        decreases inputs@.len() - i,
    {
        out.push(inputs[i].premultiplied);
        i = i + 1;
        proof {
            assert(out@ =~= premultiplied_of(inputs@).take(i as int));
        }
    }
    proof {
        assert(out@ =~= premultiplied_of(inputs@));
    }
    out
}

/// What is made of a painted canvas: without chroma when no input has
/// any, as a frame with its layout and size, at the time of the first
/// input.
pub fn finish_overlay(painted: Picture, mono: bool, pts: Option<i64>) -> (r: Result<
    (AvifFrame, AvifPixelFormat, u32, u32),
    AvifError,
>)
    requires
        painted@.tight(),
        painted.width * 4 <= usize::MAX,
    ensures
        mono && painted.chroma != 0 ==> outcome_sized(r) == overlay_shown(
            without_chroma(painted@),
            pts,
        ),
        !(mono && painted.chroma != 0) ==> outcome_sized(r) == overlay_shown(painted@, pts),
{
    let composed = if mono && painted.chroma != 0 {
        demote_to_mono(&painted)
    } else {
        painted
    };
    let (mut out, format) = from_picture(&composed)?;
    out.pts = pts;
    Ok((out, format, composed.width, composed.height))
}

/// Whether the alpha of every input lies in the range of its depth.
pub open spec fn alpha_in_range(inputs: Seq<OverlayInput<'_>>) -> bool {
    forall|i: int|
        0 <= i < inputs.len() ==> (input_picture(#[trigger] inputs[i]) matches Ok(p)
            ==> p.alpha_in_range())
}

/// Paint `inputs`, the bottom one first and all of one layout, onto the
/// canvas that `desc` describes. `cicp` says what colours the result
/// has. An input without alpha shows wherever it is the topmost.
pub fn composite_overlay(desc: &ImageOverlay, inputs: &[OverlayInput<'_>], cicp: &CicpTriple) -> (r:
    Result<(AvifFrame, AvifPixelFormat, u32, u32), AvifError>)
    requires
        alpha_in_range(inputs@),
    ensures
        outcome_sized(r) == overlay_frame(desc@, inputs@, *cicp),
        r is Ok ==> painted(
            desc.canvas_fill_value@,
            desc.output_width,
            desc.output_height,
            offsets_of(desc.entries@),
            layers_from(inputs@, 0)->Ok_0,
            canvas_of(desc@, inputs@, *cicp),
        ),
        r is Ok ==> inputs@.len() == desc.entries@.len() && inputs@.len() > 0 && forall|i: int|
            0 <= i < inputs@.len() ==> picture_of(
                (#[trigger] inputs@[i]).frame@,
                inputs@[i].format,
                inputs@[i].bit_depth,
                inputs@[i].width,
                inputs@[i].height,
            ) is Ok,
        r is Ok ==> ({
            let offsets = Seq::new(
                desc.entries@.len(),
                |i: int|
                    (desc.entries@[i].horizontal_offset, desc.entries@[i].vertical_offset),
            );
            let pictures = Seq::new(
                inputs@.len(),
                |i: int|
                    picture_of(
                        inputs@[i].frame@,
                        inputs@[i].format,
                        inputs@[i].bit_depth,
                        inputs@[i].width,
                        inputs@[i].height,
                    )->Ok_0,
            );
            let premultiplied = Seq::new(inputs@.len(), |i: int| inputs@[i].premultiplied);
            let canvas = overlay_canvas(
                desc.canvas_fill_value@,
                desc.output_width,
                desc.output_height,
                offsets,
                pictures,
                premultiplied,
                (
                    cicp.colour_primaries,
                    cicp.transfer_characteristics,
                    cicp.matrix_coefficients,
                    cicp.full_range,
                ),
            );
            let kept = if inputs@[0].format.layout().gray && canvas.chroma != 0 {
                without_chroma(canvas)
            } else {
                canvas
            };
            &&& outcome_sized(r) == overlay_shown(kept, inputs@[0].frame.pts)
            &&& painted(
                desc.canvas_fill_value@,
                desc.output_width,
                desc.output_height,
                offsets,
                pictures,
                canvas,
            )
            &&& blended(
                desc.output_width,
                desc.output_height,
                offsets,
                pictures,
                premultiplied,
                canvas,
            )
        }),
{
    let cw: u32 = desc.output_width;
    let ch: u32 = desc.output_height;
    if cw == 0 || ch == 0 {
        return Err(AvifError::invalid("avif overlay: zero canvas dimensions"));
    }
    proof {
        lemma_area(cw, ch);
    }
    if cw as u64 * ch as u64 > MAX_OVERLAY_CANVAS_PIXELS {
        return Err(
            invalid_nn(
                "avif overlay: canvas ",
                cw as u64,
                "x",
                ch as u64,
                " exceeds 67108864 pixels",
            ),
        );
    }
    if inputs.len() != desc.entries.len() {
        return Err(
            invalid_nn_end(
                "avif overlay: descriptor lists ",
                desc.entries.len() as u64,
                " inputs, got ",
                inputs.len() as u64,
            ),
        );
    }
    if inputs.len() == 0 {
        return Err(AvifError::invalid("avif overlay: no input images"));
    }
    let layers = read_layers(inputs)?;
    let offsets = entry_offsets(&desc.entries);
    let premultiplied = input_premultiplied(inputs);
    let colour: (u16, u16, u16, bool) = (
        cicp.colour_primaries,
        cicp.transfer_characteristics,
        cicp.matrix_coefficients,
        cicp.full_range,
    );
    proof {
        assert forall|i: int| 0 <= i < layers@.len() implies (#[trigger] views(
            layers@,
        )[i]).alpha_in_range() by {
            assert(input_picture(inputs@[i]) == Ok::<PictureView, Fault>(layers@[i]@));
        }
    }
    let canvas = paint_overlay(
        desc.canvas_fill_value,
        cw,
        ch,
        &offsets,
        &layers,
        &premultiplied,
        colour,
    );
    proof {
        assert(views(layers@)[0] == layers@[0]@);
        assert(views(layers@) =~= Seq::new(
            inputs@.len(),
            |i: int|
                picture_of(
                    inputs@[i].frame@,
                    inputs@[i].format,
                    inputs@[i].bit_depth,
                    inputs@[i].width,
                    inputs@[i].height,
                )->Ok_0,
        )) by {
            assert forall|i: int| 0 <= i < inputs@.len() implies views(layers@)[i] == (picture_of(
                inputs@[i].frame@,
                inputs@[i].format,
                inputs@[i].bit_depth,
                inputs@[i].width,
                inputs@[i].height,
            )->Ok_0) by {
                assert(input_picture(inputs@[i]) == Ok::<PictureView, Fault>(layers@[i]@));
            }
        }
        assert(offsets@ =~= Seq::new(
            desc.entries@.len(),
            |i: int| (desc.entries@[i].horizontal_offset, desc.entries@[i].vertical_offset),
        ));
        assert(premultiplied@ =~= Seq::new(inputs@.len(), |i: int| inputs@[i].premultiplied));
        assert(input_picture(inputs@[0]) == Ok::<PictureView, Fault>(layers@[0]@));
        crate::picture::lemma_samples_shape(
            inputs@[0].frame@,
            inputs@[0].format,
            inputs@[0].bit_depth,
            inputs@[0].width,
            inputs@[0].height,
        );
        assert(inputs@[0].format.layout().gray == (layers@[0]@.chroma == 0));
        assert forall|i: int| 0 <= i < inputs@.len() implies picture_of(
            (#[trigger] inputs@[i]).frame@,
            inputs@[i].format,
            inputs@[i].bit_depth,
            inputs@[i].width,
            inputs@[i].height,
        ) is Ok by {
            assert(input_picture(inputs@[i]) == Ok::<PictureView, Fault>(layers@[i]@));
        }
        assert(cw <= 0x400_0000) by (nonlinear_arith)
            requires
                cw * ch <= 0x400_0000,
                ch >= 1,
        ;
    }
    finish_overlay(canvas, layers[0].chroma == 0, inputs[0].frame.pts)
}

/// An opaque canvas with one input of its own size and no alpha on it is
/// that input, where no chroma is brought to full size and no sample is
/// above what the depth holds.
pub proof fn law_covering_input_is_copied(fill: Seq<u16>, p: PictureView, r: PictureView)
    requires
        painted(fill, p.width, p.height, seq![(0i32, 0i32)], seq![p], r),
        p.tight(),
        !p.has_alpha,
        !overlay_promotes(p.width, p.height, seq![(0i32, 0i32)], seq![p]),
        fill_opacity(fill[3], p.bit_depth) >= top_sample(p.bit_depth),
        forall|k: int| 0 <= k < p.planes.len() ==> #[trigger] p.in_range(k),
    ensures
        r == p,
{
    let offsets = seq![(0i32, 0i32)];
    let inputs = seq![p];
    assert(inputs[0] == p && offsets[0] == (0i32, 0i32));
    assert(r.like(p));
    assert forall|k: int| 0 <= k < p.planes.len() implies r.planes[k] == #[trigger] p.planes[k] by {
        assert(r.planes[k].stride == r.row_bytes(k));
        assert(r.plane_width(k) == p.plane_width(k) && r.plane_height(k) == p.plane_height(k));
        assert(p.in_range(k));
        assert forall|x: int, y: int|
            0 <= x < p.plane_width(k) && 0 <= y < p.plane_height(k) implies #[trigger] r.sample(
            k,
            x,
            y,
        ) == p.sample(k, x, y) by {
            lemma_pixel_inside(p, k, x, y);
            assert(on_top(
                offsets,
                inputs,
                0,
                pixel_at(r, k, x, r.sx()),
                pixel_at(r, k, y, r.sy()),
            ));
            assert(p.sample(k, x, y) <= top_sample(p.bit_depth));
        }
        lemma_same_samples(r, p, k);
    }
    assert(r.planes =~= p.planes);
}

/// The pixel that a sample belongs to lies in the picture.
proof fn lemma_pixel_inside(p: PictureView, k: int, x: int, y: int)
    requires
        p.tight(),
        !overlay_promotes(p.width, p.height, seq![(0i32, 0i32)], seq![p]),
        0 <= x < p.plane_width(k),
        0 <= y < p.plane_height(k),
    ensures
        0 <= pixel_at(p, k, x, p.sx()) < p.width,
        0 <= pixel_at(p, k, y, p.sy()) < p.height,
        sample_of(p, k, pixel_at(p, k, x, p.sx()), p.sx()) == x,
        sample_of(p, k, pixel_at(p, k, y, p.sy()), p.sy()) == y,
{
    assert(seq![p][0] == p);
    reveal_with_fuel(crate::overlay::halved, 2);
}

/// Planes with the same samples have the same bytes.
#[verifier::spinoff_prover]
proof fn lemma_same_samples(r: PictureView, p: PictureView, k: int)
    requires
        r.tight(),
        p.tight(),
        r.like(p),
        0 <= k < p.planes.len(),
        forall|x: int, y: int|
            0 <= x < p.plane_width(k) && 0 <= y < p.plane_height(k) ==> #[trigger] r.sample(k, x, y)
                == p.sample(k, x, y),
    ensures
        r.planes[k] == p.planes[k],
{
    let (a, b) = (r.planes[k], p.planes[k]);
    let w = p.plane_width(k) as int;
    let h = p.plane_height(k) as int;
    let bps = p.bps() as int;
    let row = p.row_bytes(k) as int;
    assert(a.stride == row && b.stride == row);
    assert(a.data.len() == row * h && b.data.len() == row * h);
    assert forall|i: int| 0 <= i < row * h implies a.data[i] == b.data[i] by {
        lemma_place(w, h, bps, row, i);
        let y = i / row;
        let x = i % row / bps;
        let at = y * row + x * bps;
        assert(r.sample(k, x, y) == p.sample(k, x, y));
        if bps == 1 {
            assert(i == at);
            assert(r.sample(k, x, y) == a.data[at] && p.sample(k, x, y) == b.data[at]);
        } else {
            assert(i == at || i == at + 1);
            assert(r.sample(k, x, y) == a.data[at] + 256 * a.data[at + 1]);
            assert(p.sample(k, x, y) == b.data[at] + 256 * b.data[at + 1]);
        }
    }
    assert(a.data =~= b.data);
}

/// A byte of a plane belongs to a sample.
proof fn lemma_place(w: int, h: int, bps: int, row: int, i: int)
    requires
        w >= 0,
        h >= 0,
        bps == 1 || bps == 2,
        row == w * bps,
        0 <= i < row * h,
    ensures
        0 <= i % row / bps < w,
        0 <= i / row < h,
        i == i / row * row + i % row / bps * bps || bps == 2 && i == i / row * row + i % row / bps
            * bps + 1,
{
    assert(row > 0) by (nonlinear_arith)
        requires
            0 <= i < row * h,
            h >= 0,
            row == w * bps,
            w >= 0,
            bps >= 1,
    ;
    vstd::arithmetic::div_mod::lemma_fundamental_div_mod(i, row);
    vstd::arithmetic::div_mod::lemma_mod_bound(i, row);
    assert(0 <= i / row < h) by (nonlinear_arith)
        requires
            i == row * (i / row) + i % row,
            0 <= i % row < row,
            0 <= i < row * h,
            row > 0,
    ;
    assert(i / row * row == row * (i / row)) by (nonlinear_arith);
}

} // verus!
