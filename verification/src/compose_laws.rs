//! What overlay and grid images show, in terms of the frames that they are
//! made of.

use crate::cicp::CicpTriple;
use crate::compose::{
    canvas_of, input_picture, layer_of, layers_from, offsets_of, overlay_frame, overlay_shown,
    premultiplied_of, OverlayInput, OverlayView,
};
use crate::error::Fault;
use crate::frame_laws::{
    along, frame_sample, has_channel, law_frame_shows_the_picture, law_picture_shows_the_frame,
    law_promotion_keeps_samples, law_trimming_keeps_samples, picture_sample,
};
use crate::grid::{grid_frame, tile_pictures, ImageGrid};
use crate::image::{AvifPixelFormat, FrameView};
use crate::picture::{
    blended, grid_canvas, on_top, overlay_canvas, overlay_layer, overlay_promotes, painted,
    picture_of, pixel_at, sample_of, shown, smaller, stitched, tiles_split_chroma, top_sample,
    trimmed, without_chroma, PictureView,
};
use vstd::arithmetic::div_mod::lemma_fundamental_div_mod_converse;
use vstd::prelude::*;

verus! {

/// The pictures of inputs that are all taken.
pub open spec fn pictures_of(inputs: Seq<OverlayInput<'_>>) -> Seq<PictureView> {
    Seq::new(
        inputs.len(),
        |i: int|
            picture_of(
                inputs[i].frame@,
                inputs[i].format,
                inputs[i].bit_depth,
                inputs[i].width,
                inputs[i].height,
            )->Ok_0,
    )
}

#[verifier::spinoff_prover]
#[verifier::rlimit(60)]
proof fn lemma_layers(inputs: Seq<OverlayInput<'_>>, i: int)
    requires
        0 <= i <= inputs.len(),
        layers_from(inputs, i) is Ok,
    ensures
        layers_from(inputs, i)->Ok_0 == pictures_of(inputs).subrange(i, inputs.len() as int),
        forall|j: int|
            i <= j < inputs.len() ==> input_picture(#[trigger] inputs[j]) is Ok && layer_of(
                inputs,
                j,
            ) is Ok,
    decreases inputs.len() - i,
{
    let all = pictures_of(inputs);
    if i < inputs.len() {
        lemma_layers(inputs, i + 1);
        assert(layer_of(inputs, i) == input_picture(inputs[i]));
        assert(all[i] == input_picture(inputs[i])->Ok_0);
        assert(seq![all[i]] + all.subrange(i + 1, inputs.len() as int) =~= all.subrange(
            i,
            inputs.len() as int,
        ));
    } else {
        assert(all.subrange(i, inputs.len() as int) =~= Seq::empty());
    }
}

/// Every input of an overlay goes to its own place with its own flag: the
/// canvas that is shown is the one painted with the pictures of the
/// inputs in order, input `i` at the offsets of entry `i` and as
/// premultiplied where that is said of input `i`, with the fill, the size
/// and the colours that are given.
#[verifier::spinoff_prover]
#[verifier::rlimit(60)]
pub proof fn law_overlay_takes_each_input_as_it_is(
    desc: OverlayView,
    inputs: Seq<OverlayInput<'_>>,
    cicp: CicpTriple,
    offsets: Seq<(i32, i32)>,
    premultiplied: Seq<bool>,
)
    requires
        overlay_frame(desc, inputs, cicp) is Ok,
        offsets.len() == desc.entries.len(),
        forall|i: int|
            0 <= i < offsets.len() ==> (#[trigger] offsets[i]).0
                == desc.entries[i].horizontal_offset && offsets[i].1
                == desc.entries[i].vertical_offset,
        premultiplied.len() == inputs.len(),
        forall|i: int|
            0 <= i < inputs.len() ==> #[trigger] premultiplied[i] == inputs[i].premultiplied,
    ensures
        inputs.len() == desc.entries.len(),
        inputs.len() > 0,
        forall|i: int| 0 <= i < inputs.len() ==> input_picture(#[trigger] inputs[i]) is Ok,
        ({
            let canvas = overlay_canvas(
                desc.canvas_fill_value@,
                desc.output_width,
                desc.output_height,
                offsets,
                pictures_of(inputs),
                premultiplied,
                (
                    cicp.colour_primaries,
                    cicp.transfer_characteristics,
                    cicp.matrix_coefficients,
                    cicp.full_range,
                ),
            );
            let kept = if inputs[0].format.layout().gray && canvas.chroma != 0 {
                without_chroma(canvas)
            } else {
                canvas
            };
            overlay_frame(desc, inputs, cicp) == overlay_shown(kept, inputs[0].frame.pts)
        }),
{
    lemma_layers(inputs, 0);
    assert(pictures_of(inputs).subrange(0, inputs.len() as int) =~= pictures_of(inputs));
    assert(offsets_of(desc.entries) =~= offsets);
    assert(premultiplied_of(inputs) =~= premultiplied);
    crate::picture::lemma_samples_shape(
        inputs[0].frame@,
        inputs[0].format,
        inputs[0].bit_depth,
        inputs[0].width,
        inputs[0].height,
    );
}

/// Whether an input covers a pixel of the canvas.
pub open spec fn input_covers(desc: OverlayView, inputs: Seq<OverlayInput<'_>>, i: int, x: int, y: int) -> bool {
    &&& 0 <= x - desc.entries[i].horizontal_offset < inputs[i].width
    &&& 0 <= y - desc.entries[i].vertical_offset < inputs[i].height
}

/// The sample of a channel that an input shows at a pixel of the canvas.
pub open spec fn input_sample(
    desc: OverlayView,
    inputs: Seq<OverlayInput<'_>>,
    i: int,
    c: int,
    x: int,
    y: int,
) -> int {
    frame_sample(
        inputs[i].frame@,
        inputs[i].format,
        c,
        x - desc.entries[i].horizontal_offset,
        y - desc.entries[i].vertical_offset,
    )
}

/// What painting an overlay gives: what is known of the canvas.
pub open spec fn canvas_is_painted(
    desc: OverlayView,
    inputs: Seq<OverlayInput<'_>>,
    cicp: CicpTriple,
) -> bool {
    let canvas = canvas_of(desc, inputs, cicp);
    &&& painted(
        desc.canvas_fill_value@,
        desc.output_width,
        desc.output_height,
        Seq::new(
            desc.entries.len(),
            |i: int| (desc.entries[i].horizontal_offset, desc.entries[i].vertical_offset),
        ),
        pictures_of(inputs),
        canvas,
    )
    &&& blended(
        desc.output_width,
        desc.output_height,
        Seq::new(
            desc.entries.len(),
            |i: int| (desc.entries[i].horizontal_offset, desc.entries[i].vertical_offset),
        ),
        pictures_of(inputs),
        Seq::new(inputs.len(), |i: int| inputs[i].premultiplied),
        canvas,
    )
}

/// What a layer of an overlay shows is what its input shows.
proof fn lemma_layer_shows(
    desc: OverlayView,
    inputs: Seq<OverlayInput<'_>>,
    offsets: Seq<(i32, i32)>,
    i: int,
    c: int,
    x: int,
    y: int,
)
    requires
        layers_from(inputs, 0) is Ok,
        0 <= i < inputs.len(),
        inputs[i].format.layout().depth == 16 ==> inputs[i].bit_depth > 8,
        has_channel(inputs[i].format.layout().gray, inputs[i].format.layout().alpha, c),
        0 <= x < inputs[i].width,
        0 <= y < inputs[i].height,
    ensures
        ({
            let layer = overlay_layer(
                desc.output_width,
                desc.output_height,
                offsets,
                pictures_of(inputs),
                i,
            );
            picture_sample(layer, c, x, y) == frame_sample(
                inputs[i].frame@,
                inputs[i].format,
                c,
                x,
                y,
            )
        }),
{
    lemma_layers(inputs, 0);
    let inp = inputs[i];
    assert(input_picture(inp) is Ok);
    law_picture_shows_the_frame(inp.frame@, inp.format, inp.bit_depth, inp.width, inp.height);
    let p = pictures_of(inputs)[i];
    assert(picture_sample(p, c, x, y) == frame_sample(inp.frame@, inp.format, c, x, y));
    if overlay_promotes(desc.output_width, desc.output_height, offsets, pictures_of(inputs)) {
        lemma_promoted_has_chroma(desc, inputs, offsets);
        assert(layer_of(inputs, i) is Ok);
        law_promotion_keeps_samples(p);
        assert(picture_sample(p.promoted(), c, x, y) == picture_sample(p, c, x, y));
    }
}

/// Only chroma is brought to full size.
proof fn lemma_promoted_has_chroma(
    desc: OverlayView,
    inputs: Seq<OverlayInput<'_>>,
    offsets: Seq<(i32, i32)>,
)
    requires
        overlay_promotes(desc.output_width, desc.output_height, offsets, pictures_of(inputs)),
    ensures
        pictures_of(inputs)[0].chroma != 0,
{
}

/// Where an input with alpha lies over an opaque one and nothing lies
/// between them or above, the overlay shows the two blended: a sample `s`
/// with alpha `a` over a sample `b` gives `s + b * (top - a) / top` where
/// the upper input is premultiplied and `(s * a + b * (top - a)) / top`
/// where it is not, rounded, and no more than `top`.
#[verifier::spinoff_prover]
#[verifier::rlimit(60)]
pub proof fn law_alpha_blends_by_its_own_input(
    desc: OverlayView,
    inputs: Seq<OverlayInput<'_>>,
    cicp: CicpTriple,
    frame: FrameView,
    format: AvifPixelFormat,
    i: int,
    j: int,
    c: int,
    x: int,
    y: int,
)
    requires
        overlay_frame(desc, inputs, cicp) == Ok::<(FrameView, AvifPixelFormat, u32, u32), Fault>(
            (frame, format, desc.output_width, desc.output_height),
        ),
        canvas_is_painted(desc, inputs, cicp),
        0 <= i < j < inputs.len(),
        forall|n: int|
            0 <= n < inputs.len() ==> ((#[trigger] inputs[n]).format.layout().depth == 16
                ==> inputs[n].bit_depth > 8),
        !inputs[i].format.layout().alpha,
        inputs[j].format.layout().alpha,
        0 <= x < desc.output_width,
        0 <= y < desc.output_height,
        input_covers(desc, inputs, i, x, y),
        input_covers(desc, inputs, j, x, y),
        forall|n: int|
            i < n < inputs.len() && n != j ==> !#[trigger] input_covers(desc, inputs, n, x, y),
        c == 0 || (!inputs[0].format.layout().gray && (c == 1 || c == 2)),
    ensures
        ({
            let top = top_sample(inputs_depth(inputs[0]));
            let s = input_sample(desc, inputs, j, c, x, y);
            let a = input_sample(desc, inputs, j, 3, x, y);
            let b = input_sample(desc, inputs, i, c, x, y);
            let under = if b < top {
                b
            } else {
                top
            };
            let own = if inputs[j].premultiplied {
                s * top
            } else {
                s * a
            };
            let mixed = (own + under * (top - a) + top / 2) / top;
            frame_sample(frame, format, c, x, y) == if mixed < top {
                mixed
            } else {
                top
            }
        }),
{
    lemma_layers(inputs, 0);
    let pictures = pictures_of(inputs);
    let offsets = Seq::new(
        desc.entries.len(),
        |i: int| (desc.entries[i].horizontal_offset, desc.entries[i].vertical_offset),
    );
    let canvas = canvas_of(desc, inputs, cicp);
    assert(pictures.subrange(0, inputs.len() as int) =~= pictures);
    assert forall|n: int| 0 <= n < inputs.len() implies {
        let p = #[trigger] pictures[n];
        &&& p.width == inputs[n].width
        &&& p.height == inputs[n].height
        &&& p.has_alpha == inputs[n].format.layout().alpha
        &&& p.tight()
        &&& p.chroma == pictures[0].chroma
        &&& p.bit_depth == pictures[0].bit_depth
        &&& p.chroma == 0 <==> inputs[n].format.layout().gray
    } by {
        let inp = inputs[n];
        assert(input_picture(inp) is Ok && layer_of(inputs, n) is Ok);
        law_picture_shows_the_frame(inp.frame@, inp.format, inp.bit_depth, inp.width, inp.height);
        assert(input_picture(inputs[0]) is Ok);
    }
    assert(pictures[0].bit_depth == inputs_depth(inputs[0])) by {
        let inp = inputs[0];
        assert(input_picture(inp) is Ok);
        law_picture_shows_the_frame(inp.frame@, inp.format, inp.bit_depth, inp.width, inp.height);
    }
    assert(pictures[i].width == inputs[i].width && pictures[j].width == inputs[j].width);
    assert(crate::picture::covers(pictures[i], offsets[i], x, y));
    assert(crate::picture::covers(pictures[j], offsets[j], x, y));
    assert forall|n: int| i < n < inputs.len() && n != j implies !crate::picture::covers(
        #[trigger] pictures[n],
        offsets[n],
        x,
        y,
    ) by {
        assert(!input_covers(desc, inputs, n, x, y));
    }
    assert(crate::picture::lies_over(offsets, pictures, i, j, x, y));
    let promotes = overlay_promotes(desc.output_width, desc.output_height, offsets, pictures);
    assert(pictures[0].chroma != 0 ==> promotes) by {
        assert(pictures[j].has_alpha);
    }
    assert(canvas.chroma == 0 || canvas.chroma == 3);
    assert(canvas.chroma == 0 <==> pictures[0].chroma == 0);
    law_frame_shows_the_picture(canvas);
    assert(picture_sample(canvas, c, x, y) == frame_sample(frame, format, c, x, y));
    assert(picture_sample(canvas, c, x, y) == canvas.sample(c, x, y));
    let (xi, yi) = (x - offsets[i].0, y - offsets[i].1);
    let (xj, yj) = (x - offsets[j].0, y - offsets[j].1);
    lemma_layer_shows(desc, inputs, offsets, i, c, xi, yi);
    lemma_layer_shows(desc, inputs, offsets, j, c, xj, yj);
    assert(inputs[j].format.layout().gray == inputs[0].format.layout().gray);
    law_picture_shows_the_frame(
        inputs[j].frame@,
        inputs[j].format,
        inputs[j].bit_depth,
        inputs[j].width,
        inputs[j].height,
    );
    assert(picture_sample(pictures[j], 3, xj, yj) == frame_sample(
        inputs[j].frame@,
        inputs[j].format,
        3,
        xj,
        yj,
    ));
    assert(canvas.sample(c, x, y) == crate::picture::blend(
        top_sample(canvas.bit_depth),
        overlay_layer(desc.output_width, desc.output_height, offsets, pictures, j).sample(
            c,
            xj,
            yj,
        ) as int,
        pictures[j].sample(pictures[j].colour_planes() as int, xj, yj) as int,
        inputs[j].premultiplied,
        overlay_layer(desc.output_width, desc.output_height, offsets, pictures, i).sample(
            c,
            xi,
            yi,
        ) as int,
    ));
}

/// The bits per sample of an input.
pub open spec fn inputs_depth(inp: OverlayInput<'_>) -> u8 {
    if inp.format.layout().depth == 16 {
        inp.bit_depth
    } else {
        inp.format.layout().depth
    }
}

/// An input without alpha shows wherever it is the topmost, at the pixels
/// that a sample belongs to.
#[verifier::spinoff_prover]
#[verifier::rlimit(60)]
pub proof fn law_topmost_input_shows(
    desc: OverlayView,
    inputs: Seq<OverlayInput<'_>>,
    cicp: CicpTriple,
    frame: FrameView,
    format: AvifPixelFormat,
    i: int,
    c: int,
    x: int,
    y: int,
)
    requires
        overlay_frame(desc, inputs, cicp) == Ok::<(FrameView, AvifPixelFormat, u32, u32), Fault>(
            (frame, format, desc.output_width, desc.output_height),
        ),
        canvas_is_painted(desc, inputs, cicp),
        0 <= i < inputs.len(),
        forall|n: int|
            0 <= n < inputs.len() ==> ((#[trigger] inputs[n]).format.layout().depth == 16
                ==> inputs[n].bit_depth > 8),
        !inputs[i].format.layout().alpha,
        0 <= x < desc.output_width,
        0 <= y < desc.output_height,
        input_covers(desc, inputs, i, x, y),
        forall|n: int| i < n < inputs.len() ==> !#[trigger] input_covers(desc, inputs, n, x, y),
        c == 0 || (!inputs[0].format.layout().gray && (c == 1 || c == 2)),
        c != 0 ==> (format.layout().sx == 1 ==> x % 2 == 0),
        c != 0 ==> (format.layout().sy == 1 ==> y % 2 == 0),
    ensures
        ({
            let top = top_sample(inputs_depth(inputs[0]));
            let s = input_sample(desc, inputs, i, c, x, y);
            frame_sample(frame, format, c, x, y) == if s < top {
                s
            } else {
                top
            }
        }),
{
    lemma_layers(inputs, 0);
    let pictures = pictures_of(inputs);
    let offsets = Seq::new(
        desc.entries.len(),
        |i: int| (desc.entries[i].horizontal_offset, desc.entries[i].vertical_offset),
    );
    let canvas = canvas_of(desc, inputs, cicp);
    assert(pictures.subrange(0, inputs.len() as int) =~= pictures);
    assert forall|n: int| 0 <= n < inputs.len() implies {
        let p = #[trigger] pictures[n];
        &&& p.width == inputs[n].width
        &&& p.height == inputs[n].height
        &&& p.has_alpha == inputs[n].format.layout().alpha
        &&& p.tight()
        &&& p.chroma == pictures[0].chroma
        &&& p.bit_depth == pictures[0].bit_depth
        &&& p.chroma == 0 <==> inputs[n].format.layout().gray
    } by {
        let inp = inputs[n];
        assert(input_picture(inp) is Ok && layer_of(inputs, n) is Ok);
        law_picture_shows_the_frame(inp.frame@, inp.format, inp.bit_depth, inp.width, inp.height);
        assert(input_picture(inputs[0]) is Ok);
    }
    assert(pictures[0].bit_depth == inputs_depth(inputs[0])) by {
        let inp = inputs[0];
        assert(input_picture(inp) is Ok);
        law_picture_shows_the_frame(inp.frame@, inp.format, inp.bit_depth, inp.width, inp.height);
    }
    assert(pictures[i].width == inputs[i].width);
    assert(crate::picture::covers(pictures[i], offsets[i], x, y));
    assert forall|n: int| i < n < inputs.len() implies !crate::picture::covers(
        #[trigger] pictures[n],
        offsets[n],
        x,
        y,
    ) by {
        assert(!input_covers(desc, inputs, n, x, y));
    }
    assert(on_top(offsets, pictures, i, x, y));
    law_frame_shows_the_picture(canvas);
    assert(picture_sample(canvas, c, x, y) == frame_sample(frame, format, c, x, y));
    let px = along(c, canvas.chroma == 1 || canvas.chroma == 2, x);
    let py = along(c, canvas.chroma == 1, y);
    reveal_with_fuel(crate::overlay::halved, 2);
    assert(pixel_at(canvas, c, px, canvas.sx()) == x);
    assert(pixel_at(canvas, c, py, canvas.sy()) == y);
    assert(0 <= px < canvas.plane_width(c) && 0 <= py < canvas.plane_height(c));
    let (xi, yi) = (x - offsets[i].0, y - offsets[i].1);
    lemma_layer_shows(desc, inputs, offsets, i, c, xi, yi);
    let layer = overlay_layer(desc.output_width, desc.output_height, offsets, pictures, i);
    assert(layer.chroma == canvas.chroma);
    assert(picture_sample(layer, c, xi, yi) == layer.sample(
        c,
        sample_of(canvas, c, xi, canvas.sx()),
        sample_of(canvas, c, yi, canvas.sy()),
    ));
    assert(canvas.sample(c, px, py) == smaller(
        layer.sample(
            c,
            sample_of(canvas, c, xi, canvas.sx()),
            sample_of(canvas, c, yi, canvas.sy()),
        ) as int,
        top_sample(canvas.bit_depth),
    ));
}

/// An overlay has the size that it gives, up to 67108864 pixels, and the
/// time of its first input; every input has the chroma layout and the bit
/// depth of the first.
#[verifier::spinoff_prover]
#[verifier::rlimit(60)]
pub proof fn law_overlay_inputs_are_alike(
    desc: OverlayView,
    inputs: Seq<OverlayInput<'_>>,
    cicp: CicpTriple,
    i: int,
)
    requires
        overlay_frame(desc, inputs, cicp) is Ok,
        canvas_is_painted(desc, inputs, cicp),
        0 <= i < inputs.len(),
    ensures
        ({
            let (frame, format, width, height) = overlay_frame(desc, inputs, cicp)->Ok_0;
            &&& frame.pts == inputs[0].frame.pts
            &&& width == desc.output_width
            &&& height == desc.output_height
            &&& 0 < width * height <= 67108864
            &&& pictures_of(inputs)[i].chroma == pictures_of(inputs)[0].chroma
            &&& pictures_of(inputs)[i].bit_depth == pictures_of(inputs)[0].bit_depth
        }),
{
    lemma_layers(inputs, 0);
    let pictures = pictures_of(inputs);
    assert(pictures.subrange(0, inputs.len() as int) =~= pictures);
    assert(input_picture(inputs[i]) is Ok && layer_of(inputs, i) is Ok);
    assert(input_picture(inputs[0]) is Ok);
    assert(desc.output_width * desc.output_height > 0) by (nonlinear_arith)
        requires
            desc.output_width > 0,
            desc.output_height > 0,
    ;
}

// ---------------------------------------------------------------------
// Grids

#[verifier::spinoff_prover]
#[verifier::rlimit(60)]
proof fn lemma_tiles(
    tiles: Seq<FrameView>,
    format: AvifPixelFormat,
    tile_w: u32,
    tile_h: u32,
    i: int,
)
    requires
        0 <= i <= tiles.len(),
        tile_pictures(tiles, format, tile_w, tile_h, i) is Ok,
    ensures
        tile_pictures(tiles, format, tile_w, tile_h, i)->Ok_0.len() == tiles.len() - i,
        forall|j: int|
            i <= j < tiles.len() ==> picture_of(
                #[trigger] tiles[j],
                format,
                format.layout().depth,
                tile_w,
                tile_h,
            ) == Ok::<PictureView, Fault>(
                tile_pictures(tiles, format, tile_w, tile_h, i)->Ok_0[j - i],
            ),
    decreases tiles.len() - i,
{
    if i < tiles.len() {
        lemma_tiles(tiles, format, tile_w, tile_h, i + 1);
    }
}

/// The place of a sample among tiles side by side.
proof fn lemma_side_by_side(x: int, w: int, n: int, size: int)
    requires
        0 <= x < w * n,
        w > 0,
        size == 1 || size == 2,
    ensures
        0 <= x / w < n,
        0 <= x % w < w,
        (x * size) / (w * size) == x / w,
        (x * size) % (w * size) == x % w * size,
        size == 2 ==> (x * size + 1) / (w * size) == x / w,
        size == 2 ==> (x * size + 1) % (w * size) == x % w * size + 1,
{
    let (q, m) = (x / w, x % w);
    vstd::arithmetic::div_mod::lemma_fundamental_div_mod(x, w);
    vstd::arithmetic::div_mod::lemma_mod_bound(x, w);
    assert(0 <= q < n) by (nonlinear_arith)
        requires
            x == w * q + m,
            0 <= m < w,
            0 <= x < w * n,
            w > 0,
    ;
    assert(x * size == q * (w * size) + m * size) by (nonlinear_arith)
        requires
            x == w * q + m,
    ;
    lemma_fundamental_div_mod_converse(x * size, w * size, q, m * size);
    if size == 2 {
        lemma_fundamental_div_mod_converse(x * size + 1, w * size, q, m * size + 1);
    }
}

/// A canvas of tiles shows, sample by sample, what the tiles show.
#[verifier::spinoff_prover]
#[verifier::rlimit(60)]
proof fn lemma_stitched(tiles: Seq<PictureView>, columns: int, rows: int, k: int, x: int, y: int)
    requires
        columns > 0,
        rows > 0,
        tiles.len() == columns * rows,
        tiles[0].tight(),
        0 <= k < tiles[0].planes.len(),
        forall|i: int|
            0 <= i < tiles.len() ==> (#[trigger] tiles[i]).tight() && tiles[i].like(tiles[0]),
        0 <= x < tiles[0].plane_width(k) * columns,
        0 <= y < tiles[0].plane_height(k) * rows,
    ensures
        ({
            let w = tiles[0].plane_width(k) as int;
            let h = tiles[0].plane_height(k) as int;
            let from = y / h * columns + x / w;
            &&& 0 <= from < tiles.len()
            &&& stitched(tiles, columns, rows).sample(k, x, y) == tiles[from].sample(
                k,
                x % w,
                y % h,
            )
        }),
{
    let w = tiles[0].plane_width(k) as int;
    let h = tiles[0].plane_height(k) as int;
    let size = tiles[0].bps() as int;
    let row = w * size;
    let full = row * columns;
    assert(w > 0 && h > 0) by {
        reveal_with_fuel(crate::overlay::halved, 2);
    }
    lemma_side_by_side(x, w, columns, size);
    lemma_side_by_side(y, h, rows, 1);
    let from = y / h * columns + x / w;
    assert(0 <= from < columns * rows) by (nonlinear_arith)
        requires
            0 <= y / h <= rows - 1,
            0 <= x / w < columns,
            from == y / h * columns + x / w,
    ;
    assert(0 <= x * size && x * size + size <= full && full > 0) by (nonlinear_arith)
        requires
            0 <= x < w * columns,
            full == w * size * columns,
            size >= 1,
            w > 0,
            columns > 0,
    ;
    crate::frame_laws::lemma_row(full, h * rows, x * size, y);
    if size == 2 {
        crate::frame_laws::lemma_row(full, h * rows, x * size + 1, y);
    }
    assert(tiles[from].tight() && tiles[from].like(tiles[0]));
    assert(tiles[from].planes[k].stride == row);
    assert(stitched(tiles, columns, rows).planes[k].stride == full);
}

/// Half a place among tiles of even extent.
proof fn lemma_half(x: int, w: int, n: int)
    requires
        0 <= x < w * n,
        w > 0,
        w % 2 == 0,
    ensures
        0 <= x / 2 < (w / 2) * n,
        (x / 2) / (w / 2) == x / w,
        (x / 2) % (w / 2) == (x % w) / 2,
{
    let (q, m) = (x / w, x % w);
    vstd::arithmetic::div_mod::lemma_fundamental_div_mod(x, w);
    vstd::arithmetic::div_mod::lemma_mod_bound(x, w);
    let v = w / 2;
    assert(x == 2 * (v * q) + m) by (nonlinear_arith)
        requires
            x == w * q + m,
            w == 2 * v,
    ;
    assert(x / 2 == v * q + m / 2);
    assert(x / 2 == q * v + m / 2) by (nonlinear_arith)
        requires
            x / 2 == v * q + m / 2,
    ;
    lemma_fundamental_div_mod_converse(x / 2, v, q, m / 2);
    assert(w * n == 2 * (v * n)) by (nonlinear_arith)
        requires
            w == 2 * v,
    ;
}

/// A canvas of tiles shows, pixel by pixel, what the tiles show.
#[verifier::spinoff_prover]
#[verifier::rlimit(60)]
proof fn lemma_canvas_shows(tiles: Seq<PictureView>, columns: u16, rows: u16, c: int, x: int, y: int)
    requires
        columns > 0,
        rows > 0,
        tiles.len() == columns * rows,
        forall|i: int|
            0 <= i < tiles.len() ==> (#[trigger] tiles[i]).tight() && tiles[i].like(tiles[0]),
        !tiles[0].has_alpha,
        has_channel(tiles[0].chroma == 0, false, c),
        0 <= x < tiles[0].width * columns,
        0 <= y < tiles[0].height * rows,
    ensures
        ({
            let from = y / tiles[0].height as int * columns + x / tiles[0].width as int;
            &&& 0 <= from < tiles.len()
            &&& picture_sample(grid_canvas(tiles, columns, rows), c, x, y) == picture_sample(
                tiles[from],
                c,
                x % tiles[0].width as int,
                y % tiles[0].height as int,
            )
        }),
{
    assert(tiles.len() > 0) by (nonlinear_arith)
        requires
            tiles.len() == columns * rows,
            columns > 0,
            rows > 0,
    ;
    assert(tiles[0].tight());
    let (w, h) = (tiles[0].width as int, tiles[0].height as int);
    reveal_with_fuel(crate::overlay::halved, 2);
    let from = y / h * columns + x / w;
    if tiles_split_chroma(tiles[0]) {
        let wide = Seq::new(tiles.len(), |i: int| tiles[i].promoted());
        assert forall|i: int| 0 <= i < wide.len() implies (#[trigger] wide[i]).tight()
            && wide[i].like(wide[0]) by {
            assert(tiles[i].tight() && tiles[i].like(tiles[0]));
            lemma_promoted_tight(tiles[i]);
        }
        lemma_stitched(wide, columns as int, rows as int, c, x, y);
        law_promotion_keeps_samples(tiles[from]);
        lemma_side_by_side(x, w, columns as int, 1);
        lemma_side_by_side(y, h, rows as int, 1);
        assert(picture_sample(tiles[from].promoted(), c, x % w, y % h) == picture_sample(
            tiles[from],
            c,
            x % w,
            y % h,
        ));
    } else {
        let px = along(c, tiles[0].chroma == 1 || tiles[0].chroma == 2, x);
        let py = along(c, tiles[0].chroma == 1, y);
        if c != 0 && tiles[0].sx() == 1 {
            lemma_half(x, w, columns as int);
        }
        if c != 0 && tiles[0].sy() == 1 {
            lemma_half(y, h, rows as int);
        }
        lemma_stitched(tiles, columns as int, rows as int, c, px, py);
        assert(tiles[from].like(tiles[0]));
    }
}

/// Chroma of full size makes planes of full size.
#[verifier::spinoff_prover]
#[verifier::rlimit(60)]
proof fn lemma_promoted_tight(p: PictureView)
    requires
        p.tight(),
        p.chroma != 0,
    ensures
        p.promoted().tight(),
{
    let q = p.promoted();
    reveal_with_fuel(crate::overlay::halved, 2);
    assert(p.width * p.bps() >= 0 && (p.width * p.bps()) * p.height >= 0) by (nonlinear_arith);
    assert forall|k: int| 0 <= k < q.planes.len() implies (#[trigger] q.planes[k]).stride
        == q.row_bytes(k) && q.planes[k].data.len() == q.row_bytes(k) * q.plane_height(k) by {
        assert(p.planes[k].stride == p.row_bytes(k));
    }
}

/// A grid image shows its tiles in rows, from left to right and from top
/// to bottom: the pixel at `x`, `y` is that of the tile in row
/// `y / tile_h` and column `x / tile_w`, at the place that is left over.
#[verifier::spinoff_prover]
#[verifier::rlimit(60)]
pub proof fn law_grid_shows_its_tiles(
    g: ImageGrid,
    tiles: Seq<FrameView>,
    format: AvifPixelFormat,
    tile_w: u32,
    tile_h: u32,
    out: AvifPixelFormat,
    c: int,
    x: int,
    y: int,
)
    requires
        grid_frame(g, tiles, format, tile_w, tile_h) is Ok,
        ({
            let l = format.layout();
            let split = l.sx == 1 && tile_w % 2 == 1 || l.sy == 1 && tile_h % 2 == 1;
            out.has_parts(
                l.depth,
                if split {
                    0
                } else {
                    l.sx
                },
                if split {
                    0
                } else {
                    l.sy
                },
                l.gray,
                false,
            )
        }),
        has_channel(format.layout().gray, false, c),
        0 <= x < g.output_width,
        0 <= y < g.output_height,
    ensures
        ({
            let frame = grid_frame(g, tiles, format, tile_w, tile_h)->Ok_0;
            let from = y / tile_h as int * g.columns + x / tile_w as int;
            &&& frame.pts == tiles[0].pts
            &&& tiles.len() == g.rows * g.columns
            &&& 0 <= from < tiles.len()
            &&& frame_sample(frame, out, c, x, y) == frame_sample(
                tiles[from],
                format,
                c,
                x % tile_w as int,
                y % tile_h as int,
            )
        }),
{
    lemma_tile_looks(tiles, format, tile_w, tile_h);
    let pictures = tile_pictures(tiles, format, tile_w, tile_h, 0)->Ok_0;
    assert(tile_looks(tiles[0], format, tile_w, tile_h, pictures[0]));
    assert(g.columns > 0 && g.rows > 0) by (nonlinear_arith)
        requires
            g.rows * g.columns > 0,
            g.rows >= 0,
            g.columns >= 0,
    ;
    assert(g.columns * g.rows == g.rows * g.columns) by (nonlinear_arith);
    assert forall|i: int| 0 <= i < pictures.len() implies (#[trigger] pictures[i]).tight()
        && pictures[i].like(pictures[0]) by {
        assert(tile_looks(tiles[i], format, tile_w, tile_h, pictures[i]));
    }
    lemma_canvas_tight(pictures, g.columns, g.rows);
    lemma_canvas_shows(pictures, g.columns, g.rows, c, x, y);
    let from = y / tile_h as int * g.columns + x / tile_w as int;
    assert(tile_looks(tiles[from], format, tile_w, tile_h, pictures[from]));
    lemma_side_by_side(x, tile_w as int, g.columns as int, 1);
    lemma_side_by_side(y, tile_h as int, g.rows as int, 1);
    assert(picture_sample(
        pictures[from],
        c,
        x % tile_w as int,
        y % tile_h as int,
    ) == frame_sample(tiles[from], format, c, x % tile_w as int, y % tile_h as int));
    let canvas = grid_canvas(pictures, g.columns, g.rows);
    assert(shown(trimmed(canvas, g.output_width, g.output_height)) is Ok);
    lemma_trimmed_shows(canvas, g.output_width, g.output_height, out, c, x, y);
}

/// Whether a picture is that of a tile.
spec fn tile_looks(
    tile: FrameView,
    format: AvifPixelFormat,
    tile_w: u32,
    tile_h: u32,
    p: PictureView,
) -> bool {
    let l = format.layout();
    &&& p.tight()
    &&& p.width == tile_w
    &&& p.height == tile_h
    &&& !p.has_alpha
    &&& p.bit_depth == l.depth
    &&& p.chroma == 0 <==> l.gray
    &&& !l.gray ==> p.sx() == l.sx && p.sy() == l.sy
    &&& crate::frame_laws::show_the_same(tile, format, p)
}

#[verifier::spinoff_prover]
#[verifier::rlimit(60)]
proof fn lemma_tile_looks(
    tiles: Seq<FrameView>,
    format: AvifPixelFormat,
    tile_w: u32,
    tile_h: u32,
)
    requires
        !format.layout().alpha,
        tile_pictures(tiles, format, tile_w, tile_h, 0) is Ok,
    ensures
        ({
            let pictures = tile_pictures(tiles, format, tile_w, tile_h, 0)->Ok_0;
            &&& pictures.len() == tiles.len()
            &&& forall|i: int|
                0 <= i < tiles.len() ==> tile_looks(
                    tiles[i],
                    format,
                    tile_w,
                    tile_h,
                    #[trigger] pictures[i],
                )
        }),
{
    lemma_tiles(tiles, format, tile_w, tile_h, 0);
    let pictures = tile_pictures(tiles, format, tile_w, tile_h, 0)->Ok_0;
    assert forall|i: int| 0 <= i < tiles.len() implies tile_looks(
        tiles[i],
        format,
        tile_w,
        tile_h,
        #[trigger] pictures[i],
    ) by {
        assert(picture_of(tiles[i], format, format.layout().depth, tile_w, tile_h) == Ok::<
            PictureView,
            Fault,
        >(pictures[i]));
        law_picture_shows_the_frame(tiles[i], format, format.layout().depth, tile_w, tile_h);
    }
}

/// A part of a picture shows what the picture shows.
#[verifier::spinoff_prover]
#[verifier::rlimit(60)]
proof fn lemma_trimmed_shows(
    canvas: PictureView,
    width: u32,
    height: u32,
    out: AvifPixelFormat,
    c: int,
    x: int,
    y: int,
)
    requires
        canvas.tight(),
        !canvas.has_alpha,
        0 < width <= canvas.width,
        0 < height <= canvas.height,
        shown(trimmed(canvas, width, height)) is Ok,
        out.has_parts(canvas.bit_depth, canvas.sx(), canvas.sy(), canvas.chroma == 0, false),
        has_channel(canvas.chroma == 0, false, c),
        0 <= x < width,
        0 <= y < height,
    ensures
        frame_sample(shown(trimmed(canvas, width, height))->Ok_0.0, out, c, x, y)
            == picture_sample(canvas, c, x, y),
{
    let p = trimmed(canvas, width, height);
    law_trimming_keeps_samples(canvas, width, height);
    assert(picture_sample(p, c, x, y) == picture_sample(canvas, c, x, y));
    lemma_trimmed_tight(canvas, width, height);
    law_frame_shows_the_picture(p);
    let f = shown(p)->Ok_0.1;
    assert(f == out) by {
        crate::image::lemma_format(f, p.bit_depth, p.sx(), p.sy(), p.chroma == 0, false);
        crate::image::lemma_format(out, p.bit_depth, p.sx(), p.sy(), p.chroma == 0, false);
    }
    assert(picture_sample(p, c, x, y) == frame_sample(shown(p)->Ok_0.0, f, c, x, y));
}

/// A canvas of tiles has no padding.
#[verifier::spinoff_prover]
#[verifier::rlimit(60)]
proof fn lemma_canvas_tight(tiles: Seq<PictureView>, columns: u16, rows: u16)
    requires
        columns > 0,
        rows > 0,
        tiles.len() == columns * rows,
        tiles.len() > 0,
        forall|i: int|
            0 <= i < tiles.len() ==> (#[trigger] tiles[i]).tight() && tiles[i].like(tiles[0]),
        !tiles[0].has_alpha,
        tiles[0].width * columns <= u32::MAX,
        tiles[0].height * rows <= u32::MAX,
    ensures
        grid_canvas(tiles, columns, rows).tight(),
        grid_canvas(tiles, columns, rows).width == tiles[0].width * columns,
        grid_canvas(tiles, columns, rows).height == tiles[0].height * rows,
        grid_canvas(tiles, columns, rows).bit_depth == tiles[0].bit_depth,
        !grid_canvas(tiles, columns, rows).has_alpha,
        grid_canvas(tiles, columns, rows).chroma == if tiles_split_chroma(tiles[0]) {
            3
        } else {
            tiles[0].chroma
        },
{
    let parts = if tiles_split_chroma(tiles[0]) {
        Seq::new(tiles.len(), |i: int| tiles[i].promoted())
    } else {
        tiles
    };
    assert(tiles[0].tight());
    if tiles_split_chroma(tiles[0]) {
        lemma_promoted_tight(tiles[0]);
    }
    let t = parts[0];
    let r = stitched(parts, columns as int, rows as int);
    assert(r == grid_canvas(tiles, columns, rows));
    reveal_with_fuel(crate::overlay::halved, 2);
    assert(t.width * columns > 0 && t.height * rows > 0) by (nonlinear_arith)
        requires
            t.width > 0,
            t.height > 0,
            columns > 0,
            rows > 0,
    ;
    assert forall|k: int| 0 <= k < r.planes.len() implies (#[trigger] r.planes[k]).stride
        == r.row_bytes(k) && r.planes[k].data.len() == r.row_bytes(k) * r.plane_height(k) by {
        let (w, h) = (t.plane_width(k) as int, t.plane_height(k) as int);
        if !t.full_size(k) && t.sx() == 1 {
            lemma_half_total(t.width as int, columns as int);
        }
        if !t.full_size(k) && t.sy() == 1 {
            lemma_half_total(t.height as int, rows as int);
        }
        assert(r.plane_width(k) == w * columns);
        assert(r.plane_height(k) == h * rows);
        let size = t.bps() as int;
        assert(w * size * columns == w * columns * size) by (nonlinear_arith);
        assert(w * size * columns * (h * rows) >= 0) by (nonlinear_arith)
            requires
                w >= 0,
                size >= 1,
                columns > 0,
                h >= 0,
                rows > 0,
        ;
    }
}

/// Half of many even extents.
proof fn lemma_half_total(w: int, n: int)
    requires
        w >= 0,
        n > 0,
        w % 2 == 0,
    ensures
        (w * n) / 2 + (w * n) % 2 == (w / 2) * n,
{
    let v = w / 2;
    assert(w * n == 2 * (v * n)) by (nonlinear_arith)
        requires
            w == 2 * v,
    ;
}

/// A part of a picture without padding has none.
proof fn lemma_trimmed_tight(p: PictureView, width: u32, height: u32)
    requires
        p.tight(),
        0 < width <= p.width,
        0 < height <= p.height,
    ensures
        trimmed(p, width, height).tight(),
{
    let q = trimmed(p, width, height);
    assert forall|k: int| 0 <= k < q.planes.len() implies (#[trigger] q.planes[k]).stride
        == q.row_bytes(k) && q.planes[k].data.len() == q.row_bytes(k) * q.plane_height(k) by {
        assert(p.planes[k].stride == p.row_bytes(k));
    }
}

} // verus!
