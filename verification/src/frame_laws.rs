//! Frames and pictures show the same samples, pixel by pixel.

use crate::image::{AvifPixelFormat, FrameView, PlaneView};
use crate::overlay::{
    fits_byte, halved, interleaved, pixels, plane_from, sample_bytes, samples_of,
};
use crate::picture::{picture_of, shown, trimmed, without_chroma, PictureView};
use vstd::arithmetic::div_mod::lemma_fundamental_div_mod_converse;
use vstd::prelude::*;

verus! {

/// The value at a byte: of one byte, or of two with the low one first.
pub open spec fn value_at(data: Seq<u8>, at: int, wide: bool) -> int {
    if wide {
        data[at] + 256 * data[at + 1]
    } else {
        data[at] as int
    }
}

/// Whether a layout has a channel: 0 for luma, 1 and 2 for chroma, 3 for
/// alpha.
pub open spec fn has_channel(gray: bool, alpha: bool, c: int) -> bool {
    c == 0 || (!gray && (c == 1 || c == 2)) || (alpha && c == 3)
}

/// The place along an axis of the sample that a pixel at `n` shows.
pub open spec fn along(c: int, halves: bool, n: int) -> int {
    if halves && (c == 1 || c == 2) {
        n / 2
    } else {
        n
    }
}

/// The sample of a channel that a frame shows at a pixel. Greyscale and
/// alpha are interleaved in one plane; otherwise each channel has its own
/// plane, in order.
pub open spec fn frame_sample(frame: FrameView, f: AvifPixelFormat, c: int, x: int, y: int) -> int {
    let wide = f.layout().depth != 8;
    let size: int = if wide {
        2
    } else {
        1
    };
    let px = along(c, f.layout().sx == 1, x);
    let py = along(c, f.layout().sy == 1, y);
    if f.layout().gray && f.layout().alpha {
        let p = frame.planes[0];
        value_at(
            p.data,
            py * p.stride + px * (2 * size) + if c == 3 {
                size
            } else {
                0
            },
            wide,
        )
    } else {
        let p = frame.planes[c];
        value_at(p.data, py * p.stride + px * size, wide)
    }
}

/// The sample of a channel that a picture shows at a pixel.
pub open spec fn picture_sample(p: PictureView, c: int, x: int, y: int) -> int {
    let k = if c == 3 && p.chroma == 0 {
        1
    } else {
        c
    };
    p.sample(k, along(c, p.chroma == 1 || p.chroma == 2, x), along(c, p.chroma == 1, y)) as int
}

/// Whether a frame and a picture show the same everywhere.
pub open spec fn show_the_same(frame: FrameView, f: AvifPixelFormat, p: PictureView) -> bool {
    forall|c: int, x: int, y: int|
        has_channel(p.chroma == 0, p.has_alpha, c) && 0 <= x < p.width && 0 <= y < p.height
            ==> #[trigger] picture_sample(p, c, x, y) == frame_sample(frame, f, c, x, y)
}

/// A place in rows of this width.
pub proof fn lemma_row(w: int, h: int, x: int, y: int)
    requires
        0 <= x < w,
        0 <= y < h,
    ensures
        0 <= y * w + x < w * h,
        (y * w + x) / w == y,
        (y * w + x) % w == x,
{
    lemma_fundamental_div_mod_converse(y * w + x, w, y, x);
    assert(0 <= y * w + x < w * h) by (nonlinear_arith)
        requires
            0 <= x < w,
            0 <= y <= h - 1,
    ;
}

/// A sample that was written is found at its place.
proof fn lemma_written(s: Seq<u16>, w: nat, h: nat, bps: nat, x: int, y: int)
    requires
        bps == 1 || bps == 2,
        bps == 1 ==> fits_byte(s),
        s.len() == w * h,
        0 <= x < w,
        0 <= y < h,
    ensures
        value_at(sample_bytes(s, bps), y * (w * bps) + x * bps, bps == 2) == s[y * w + x],
{
    lemma_row(w as int, h as int, x, y);
    let i = y * w + x;
    assert(y * (w * bps) + x * bps == i * bps) by (nonlinear_arith)
        requires
            i == y * w + x,
    ;
    if bps == 1 {
        assert(s[i] < 0x100);
        assert(i * 1 == i);
    } else {
        assert((i * 2) / 2 == i && (i * 2 + 1) / 2 == i && (i * 2) % 2 == 0 && (i * 2 + 1) % 2 == 1);
        assert(i * 2 + 1 < s.len() * 2);
    }
}

/// A sample that was read is the one at its place.
proof fn lemma_read(p: PlaneView, w: nat, h: nat, step: nat, off: nat, bps: nat, x: int, y: int)
    requires
        bps == 1 || bps == 2,
        0 <= x < w,
        0 <= y < h,
    ensures
        pixels(p, w, h, step, off, bps).len() == w * h,
        0 <= y * w + x < w * h,
        pixels(p, w, h, step, off, bps)[y * w + x] == value_at(
            p.data,
            y * p.stride + x * step + off,
            bps == 2,
        ),
{
    lemma_row(w as int, h as int, x, y);
}

/// Samples of one byte fit one byte.
proof fn lemma_bytes_fit(p: PlaneView, w: nat, h: nat, step: nat, off: nat)
    ensures
        fits_byte(pixels(p, w, h, step, off, 1)),
{
}

/// What is read of a channel and written again.
proof fn lemma_channel(
    p: PlaneView,
    w: nat,
    h: nat,
    step: nat,
    off: nat,
    bps: nat,
    x: int,
    y: int,
)
    requires
        bps == 1 || bps == 2,
        0 <= x < w,
        0 <= y < h,
    ensures
        value_at(
            plane_from(pixels(p, w, h, step, off, bps), w, bps).data,
            y * plane_from(pixels(p, w, h, step, off, bps), w, bps).stride + x * bps,
            bps == 2,
        ) == value_at(p.data, y * p.stride + x * step + off, bps == 2),
{
    lemma_read(p, w, h, step, off, bps, x, y);
    if bps == 1 {
        lemma_bytes_fit(p, w, h, step, off);
    }
    lemma_written(pixels(p, w, h, step, off, bps), w, h, bps, x, y);
}

/// A picture made from a frame shows what the frame shows, with its size,
/// its depth and its layout. Interleaved samples of 16 bits are taken to
/// have more than 8.
#[verifier::spinoff_prover]
#[verifier::rlimit(60)]
pub proof fn law_picture_shows_the_frame(
    frame: FrameView,
    f: AvifPixelFormat,
    bit_depth: u8,
    width: u32,
    height: u32,
)
    requires
        f.layout().depth == 16 ==> bit_depth > 8,
    ensures
        picture_of(frame, f, bit_depth, width, height) matches Ok(p) ==> {
            &&& p.width == width
            &&& p.height == height
            &&& p.bit_depth == if f.layout().depth == 16 {
                bit_depth
            } else {
                f.layout().depth
            }
            &&& p.has_alpha == f.layout().alpha
            &&& p.chroma == 0 <==> f.layout().gray
            &&& !f.layout().gray ==> (p.chroma == 1 || p.chroma == 2 <==> f.layout().sx == 1)
            &&& !f.layout().gray ==> (p.chroma == 1 <==> f.layout().sy == 1)
            &&& p.tight()
            &&& show_the_same(frame, f, p)
        },
{
    if let Ok(p) = picture_of(frame, f, bit_depth, width, height) {
        let s = samples_of(frame, f, bit_depth, width, height)->Ok_0;
        crate::picture::lemma_samples_shape(frame, f, bit_depth, width, height);
        crate::picture::lemma_picture_tight(s);
        reveal_with_fuel(halved, 2);
        let bps = f.sample_bytes();
        let (w, h) = (width as nat, height as nat);
        let (cw, ch) = (
            halved(width, f.layout().sx) as nat,
            halved(height, f.layout().sy) as nat,
        );
        assert(p.bps() == bps);
        assert forall|c: int, x: int, y: int|
            has_channel(p.chroma == 0, p.has_alpha, c) && 0 <= x < p.width && 0 <= y
                < p.height implies #[trigger] picture_sample(p, c, x, y) == frame_sample(
            frame,
            f,
            c,
            x,
            y,
        ) by {
            if f.packed() {
                let off: nat = if c == 3 {
                    bps
                } else {
                    0
                };
                lemma_channel(frame.planes[0], w, h, 2 * bps, off, bps, x, y);
            } else if c == 1 || c == 2 {
                let px = along(c, f.layout().sx == 1, x);
                let py = along(c, f.layout().sy == 1, y);
                lemma_channel(frame.planes[c], cw, ch, bps, 0, bps, px, py);
            } else {
                lemma_channel(frame.planes[c], w, h, bps, 0, bps, x, y);
            }
        }
    }
}

/// Unpacking a frame gives its samples, each channel in reading order: the
/// sample at a pixel is the one that the frame shows there.
#[verifier::spinoff_prover]
#[verifier::rlimit(60)]
pub proof fn law_unpacked_samples_are_those_shown(
    frame: FrameView,
    f: AvifPixelFormat,
    bit_depth: u8,
    width: u32,
    height: u32,
    x: int,
    y: int,
)
    requires
        0 <= x < width,
        0 <= y < height,
    ensures
        samples_of(frame, f, bit_depth, width, height) matches Ok(s) ==> {
            let (cw, ch) = (halved(width, f.layout().sx), halved(height, f.layout().sy));
            &&& s.y.len() == width * height
            &&& s.y[y * width + x] == frame_sample(frame, f, 0, x, y)
            &&& !f.layout().gray ==> s.u.len() == cw * ch && s.v.len() == cw * ch
            &&& !f.layout().gray ==> ({
                let at = along(1, f.layout().sy == 1, y) * cw + along(1, f.layout().sx == 1, x);
                &&& s.u[at] == frame_sample(frame, f, 1, x, y)
                &&& s.v[at] == frame_sample(frame, f, 2, x, y)
            })
            &&& f.layout().alpha <==> s.alpha is Some
            &&& s.alpha matches Some(a) ==> a.len() == width * height && a[y * width + x]
                == frame_sample(frame, f, 3, x, y)
        },
{
    if let Ok(s) = samples_of(frame, f, bit_depth, width, height) {
        reveal_with_fuel(halved, 2);
        let bps = f.sample_bytes();
        let (w, h) = (width as nat, height as nat);
        if f.packed() {
            lemma_read(frame.planes[0], w, h, 2 * bps, 0, bps, x, y);
            lemma_read(frame.planes[0], w, h, 2 * bps, bps, bps, x, y);
        } else {
            lemma_read(frame.planes[0], w, h, bps, 0, bps, x, y);
            if !f.layout().gray {
                let (cw, ch) = (
                    halved(width, f.layout().sx) as nat,
                    halved(height, f.layout().sy) as nat,
                );
                let px = along(1, f.layout().sx == 1, x);
                let py = along(1, f.layout().sy == 1, y);
                lemma_read(frame.planes[1], cw, ch, bps, 0, bps, px, py);
                lemma_read(frame.planes[2], cw, ch, bps, 0, bps, px, py);
            }
            if f.layout().alpha {
                lemma_read(frame.planes[3], w, h, bps, 0, bps, x, y);
            }
        }
    }
}

/// A sample of a plane of a picture.
proof fn lemma_plane_sample(p: PictureView, k: int, x: int, y: int)
    requires
        p.tight(),
        0 <= k < p.planes.len(),
    ensures
        p.sample(k, x, y) == value_at(
            p.planes[k].data,
            y * p.planes[k].stride + x * p.bps(),
            p.bps() == 2,
        ),
{
}

/// The frame made from a picture shows what the picture shows.
#[verifier::spinoff_prover]
#[verifier::rlimit(60)]
pub proof fn law_frame_shows_the_picture(p: PictureView)
    requires
        p.tight(),
    ensures
        shown(p) matches Ok((frame, f)) ==> {
            &&& f.has_parts(
                p.bit_depth,
                if p.chroma == 1 || p.chroma == 2 {
                    1
                } else {
                    0
                },
                if p.chroma == 1 {
                    1
                } else {
                    0
                },
                p.chroma == 0,
                p.has_alpha,
            )
            &&& show_the_same(frame, f, p)
        },
{
    if let Ok((frame, f)) = shown(p) {
        crate::image::lemma_format(f, p.bit_depth, p.sx(), p.sy(), p.chroma == 0, p.has_alpha);
        let bps = p.bps();
        let (w, h) = (p.width as nat, p.height as nat);
        assert(bps == f.sample_bytes());
        assert forall|c: int, x: int, y: int|
            has_channel(p.chroma == 0, p.has_alpha, c) && 0 <= x < p.width && 0 <= y
                < p.height implies #[trigger] picture_sample(p, c, x, y) == frame_sample(
            frame,
            f,
            c,
            x,
            y,
        ) by {
            if p.chroma == 0 && p.has_alpha {
                let a = pixels(p.planes[0], w, h, bps, 0, bps);
                let b = pixels(p.planes[1], w, h, bps, 0, bps);
                lemma_read(p.planes[0], w, h, bps, 0, bps, x, y);
                lemma_read(p.planes[1], w, h, bps, 0, bps, x, y);
                if bps == 1 {
                    lemma_bytes_fit(p.planes[0], w, h, bps, 0);
                    lemma_bytes_fit(p.planes[1], w, h, bps, 0);
                }
                lemma_interleaved(a, b, w, h, bps, x, y);
            } else {
                let k = if c == 3 && p.chroma == 0 {
                    1
                } else {
                    c
                };
                lemma_plane_sample(
                    p,
                    k,
                    along(c, p.chroma == 1 || p.chroma == 2, x),
                    along(c, p.chroma == 1, y),
                );
            }
        }
    }
}

/// Two channels written by turns are found at every other place.
proof fn lemma_interleaved(
    a: Seq<u16>,
    b: Seq<u16>,
    w: nat,
    h: nat,
    bps: nat,
    x: int,
    y: int,
)
    requires
        bps == 1 || bps == 2,
        bps == 1 ==> fits_byte(a) && fits_byte(b),
        a.len() == w * h,
        b.len() == w * h,
        0 <= x < w,
        0 <= y < h,
    ensures
        ({
            let p = plane_from(interleaved(a, b), w * 2, bps);
            &&& value_at(p.data, y * p.stride + x * (2 * bps), bps == 2) == a[y * w + x]
            &&& value_at(p.data, y * p.stride + x * (2 * bps) + bps, bps == 2) == b[y * w + x]
        }),
{
    let s = interleaved(a, b);
    lemma_row(w as int, h as int, x, y);
    let i = y * w + x;
    assert(s.len() == (w * 2) * h) by (nonlinear_arith)
        requires
            s.len() == w * h * 2,
    ;
    if bps == 1 {
        assert forall|n: int| 0 <= n < s.len() implies #[trigger] s[n] < 0x100 by {
            assert(a[n / 2] < 0x100 && b[n / 2] < 0x100);
        }
    }
    lemma_written(s, w * 2, h, bps, 2 * x, y);
    lemma_written(s, w * 2, h, bps, 2 * x + 1, y);
    assert(y * (w * 2) + 2 * x == 2 * i) by (nonlinear_arith)
        requires
            i == y * w + x,
    ;
    assert((2 * x) * bps == x * (2 * bps)) by (nonlinear_arith);
    assert((2 * x + 1) * bps == x * (2 * bps) + bps) by (nonlinear_arith);
}

/// The top left part of a picture shows what the picture shows there.
#[verifier::spinoff_prover]
#[verifier::rlimit(60)]
pub proof fn law_trimming_keeps_samples(p: PictureView, width: u32, height: u32)
    requires
        p.tight(),
        0 < width <= p.width,
        0 < height <= p.height,
    ensures
        trimmed(p, width, height).width == width,
        trimmed(p, width, height).height == height,
        trimmed(p, width, height).chroma == p.chroma,
        trimmed(p, width, height).bit_depth == p.bit_depth,
        trimmed(p, width, height).has_alpha == p.has_alpha,
        forall|c: int, x: int, y: int|
            has_channel(p.chroma == 0, p.has_alpha, c) && 0 <= x < width && 0 <= y < height
                ==> #[trigger] picture_sample(trimmed(p, width, height), c, x, y)
                == picture_sample(p, c, x, y),
{
    let q = trimmed(p, width, height);
    reveal_with_fuel(halved, 2);
    assert forall|c: int, x: int, y: int|
        has_channel(p.chroma == 0, p.has_alpha, c) && 0 <= x < width && 0 <= y
            < height implies #[trigger] picture_sample(q, c, x, y) == picture_sample(p, c, x, y) by {
        let k = if c == 3 && p.chroma == 0 {
            1
        } else {
            c
        };
        let px = along(c, p.chroma == 1 || p.chroma == 2, x);
        let py = along(c, p.chroma == 1, y);
        let row = q.row_bytes(k) as int;
        let high = q.plane_height(k) as int;
        let bps = p.bps() as int;
        let w = q.plane_width(k) as int;
        assert(0 <= px < w && 0 <= py < high);
        assert(0 <= px * bps && px * bps + bps <= row) by (nonlinear_arith)
            requires
                0 <= px < w,
                row == w * bps,
                bps >= 1,
        ;
        lemma_row(row, high, px * bps, py);
        if bps == 2 {
            lemma_row(row, high, px * bps + 1, py);
        }
        assert(q.planes[k].stride == row);
    }
}

/// A picture without its chroma shows the luma and the alpha that it had.
#[verifier::spinoff_prover]
#[verifier::rlimit(60)]
pub proof fn law_dropping_chroma_keeps_the_rest(p: PictureView)
    requires
        p.tight(),
    ensures
        without_chroma(p).chroma == 0,
        without_chroma(p).width == p.width,
        without_chroma(p).height == p.height,
        without_chroma(p).bit_depth == p.bit_depth,
        without_chroma(p).has_alpha == p.has_alpha,
        forall|c: int, x: int, y: int|
            (c == 0 || p.has_alpha && c == 3) && 0 <= x < p.width && 0 <= y < p.height
                ==> #[trigger] picture_sample(without_chroma(p), c, x, y) == picture_sample(
                p,
                c,
                x,
                y,
            ),
{
}

/// A picture whose chroma is brought to full size shows what it showed.
#[verifier::spinoff_prover]
#[verifier::rlimit(60)]
pub proof fn law_promotion_keeps_samples(p: PictureView)
    requires
        p.tight(),
        p.chroma != 0,
    ensures
        p.promoted().chroma == 3,
        p.promoted().width == p.width,
        p.promoted().height == p.height,
        p.promoted().bit_depth == p.bit_depth,
        p.promoted().has_alpha == p.has_alpha,
        forall|c: int, x: int, y: int|
            has_channel(false, p.has_alpha, c) && 0 <= x < p.width && 0 <= y < p.height
                ==> #[trigger] picture_sample(p.promoted(), c, x, y) == picture_sample(
                p,
                c,
                x,
                y,
            ),
{
    let q = p.promoted();
    let bps = p.bps() as int;
    let row = p.width * bps;
    assert forall|c: int, x: int, y: int|
        has_channel(false, p.has_alpha, c) && 0 <= x < p.width && 0 <= y
            < p.height implies #[trigger] picture_sample(q, c, x, y) == picture_sample(
        p,
        c,
        x,
        y,
    ) by {
        if c == 1 || c == 2 {
            let at = y * row + x * bps;
            assert(0 <= x * bps && x * bps + bps <= row) by (nonlinear_arith)
                requires
                    0 <= x < p.width,
                    row == p.width * bps,
                    bps >= 1,
            ;
            lemma_row(row, p.height as int, x * bps, y);
            assert(x * bps / bps == x && x * bps % bps == 0) by {
                lemma_fundamental_div_mod_converse(x * bps, bps, x, 0);
            }
            assert(at == (y * p.width + x) * bps) by (nonlinear_arith)
                requires
                    at == y * row + x * bps,
                    row == p.width * bps,
            ;
            lemma_fundamental_div_mod_converse(at, bps, y * p.width + x, 0);
            if bps == 2 {
                lemma_row(row, p.height as int, x * bps + 1, y);
                lemma_fundamental_div_mod_converse(x * bps + 1, bps, x, 1);
                lemma_fundamental_div_mod_converse(at + 1, bps, y * p.width + x, 1);
            }
            assert(q.planes[c].stride == row);
        }
    }
}

} // verus!
