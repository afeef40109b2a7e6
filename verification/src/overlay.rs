//! Frames as planes of samples, and back.

use crate::error::{outcome_view, unsupported_end, AvifError, Fault};
use crate::image::{format_name, format_of, known_parts, AvifFrame, AvifPixelFormat, AvifPlane, FrameView, PlaneView};
use crate::text::{dec, push_dec};
use vstd::arithmetic::div_mod::lemma_fundamental_div_mod_converse;
use vstd::prelude::*;

verus! {

/// A frame as planes of samples at their coded depth.
#[derive(Clone, Debug, PartialEq, Eq)]
pub struct SamplePlanes {
    /// Width in pixels.
    pub width: u32,
    /// Height in pixels.
    pub height: u32,
    /// Bits per sample.
    pub bit_depth: u8,
    /// Halvings of the chroma width.
    pub sx: u8,
    /// Halvings of the chroma height.
    pub sy: u8,
    /// Whether there is no chroma.
    pub gray: bool,
    /// Luma.
    pub y: Vec<u16>,
    /// First chroma plane.
    pub u: Vec<u16>,
    /// Second chroma plane.
    pub v: Vec<u16>,
    /// Alpha, when there is any.
    pub alpha: Option<Vec<u16>>,
}

/// [`SamplePlanes`] as contracts speak of them.
#[verifier::ext_equal]
pub struct SamplesView {
    /// Width in pixels.
    pub width: u32,
    /// Height in pixels.
    pub height: u32,
    /// Bits per sample.
    pub bit_depth: u8,
    /// Halvings of the chroma width.
    pub sx: u8,
    /// Halvings of the chroma height.
    pub sy: u8,
    /// Whether there is no chroma.
    pub gray: bool,
    /// Luma.
    pub y: Seq<u16>,
    /// First chroma plane.
    pub u: Seq<u16>,
    /// Second chroma plane.
    pub v: Seq<u16>,
    /// Alpha, when there is any.
    pub alpha: Option<Seq<u16>>,
}

/// The samples of an optional plane.
pub open spec fn opt_samples(v: Option<Vec<u16>>) -> Option<Seq<u16>> {
    match v {
        Some(a) => Some(a@),
        None => None,
    }
}

impl View for SamplePlanes {
    type V = SamplesView;

    open spec fn view(&self) -> SamplesView {
        SamplesView {
            width: self.width,
            height: self.height,
            bit_depth: self.bit_depth,
            sx: self.sx,
            sy: self.sy,
            gray: self.gray,
            y: self.y@,
            u: self.u@,
            v: self.v@,
            alpha: opt_samples(self.alpha),
        }
    }
}

/// `n` halved `shift` times, rounded up, and at least 1.
pub open spec fn halved(n: u32, shift: u8) -> u32
    decreases shift,
{
    if shift == 0 {
        if n == 0 {
            1
        } else {
            n
        }
    } else {
        halved((n / 2 + n % 2) as u32, (shift - 1) as u8)
    }
}

/// Halve `n` `shift` times, rounding up, to no less than 1.
pub fn halve(n: u32, shift: u8) -> (r: u32)
    ensures
        r == halved(n, shift),
        r >= 1,
        r <= n || r == 1,
{
    let mut v: u32 = n;
    let mut left: u8 = shift;
    while left > 0
        invariant
            v <= n,
            halved(v, left) == halved(n, shift),
        decreases left,
    {
        v = v / 2 + v % 2;
        left = left - 1;
    }
    if v == 0 {
        1
    } else {
        v
    }
}

impl SamplePlanes {
    /// Width and height of the chroma planes, rounded up.
    pub fn chroma_dims(&self) -> (r: (u32, u32))
        ensures
            r == (halved(self.width, self.sx), halved(self.height, self.sy)),
            r.0 <= self.width || r.0 == 1,
    {
        (halve(self.width, self.sx), halve(self.height, self.sy))
    }

    /// The layout of these planes without alpha.
    pub fn base_format(&self) -> (r: Result<AvifPixelFormat, AvifError>)
        ensures
            match format_of(self.bit_depth, self.sx, self.sy, self.gray, false) {
                Some(f) => r == Ok::<AvifPixelFormat, AvifError>(f),
                None => r matches Err(e) && e@ == no_layout(),
            },
            r is Ok <==> known_parts(self.bit_depth, self.sx, self.sy, self.gray),
            r matches Ok(f) ==> f.has_parts(self.bit_depth, self.sx, self.sy, self.gray, false),
    {
        match AvifPixelFormat::from_layout(self.bit_depth, self.sx, self.sy, self.gray, false) {
            Some(f) => Ok(f),
            None => Err(AvifError::unsupported("avif overlay: no pixel layout for these planes")),
        }
    }
}

/// The fault of planes that no pixel layout holds.
pub open spec fn no_layout() -> Fault {
    Fault::Unsupported("avif overlay: no pixel layout for these planes"@)
}

/// The sample at byte `at`: one byte, or two with the low one first.
pub open spec fn sample(data: Seq<u8>, at: int, bps: nat) -> u16 {
    if bps == 1 {
        data[at] as u16
    } else {
        (data[at] + data[at + 1] * 0x100) as u16
    }
}

/// Whether a plane holds `h` rows of `row` bytes.
pub open spec fn plane_fits(p: PlaneView, row: nat, h: nat) -> bool {
    p.stride >= row && p.data.len() >= p.stride * (h - 1) + row
}

/// Pixel `i`, in reading order, of a plane `w` pixels wide, with `step`
/// bytes from one pixel to the next and the sample `off` bytes in.
pub open spec fn pixel(p: PlaneView, w: nat, step: nat, off: nat, bps: nat, i: int) -> u16 {
    sample(p.data, (i / (w as int)) * p.stride + (i % (w as int)) * step + off, bps)
}

/// The samples of a plane in reading order.
pub open spec fn pixels(p: PlaneView, w: nat, h: nat, step: nat, off: nat, bps: nat) -> Seq<u16> {
    Seq::new(w * h, |i: int| pixel(p, w, step, off, bps, i))
}

/// The fault of a plane that is too short.
pub open spec fn short_plane(label: Seq<char>, p: PlaneView, w: nat, h: nat, bps: nat) -> Fault {
    Fault::Invalid(
        "avif overlay: "@ + label + " plane too short ("@ + dec(p.data.len()) + " bytes, stride "@
            + dec(p.stride) + ", need "@ + dec(w) + "x"@ + dec(h) + "x"@ + dec(bps) + ")"@,
    )
}

fn short_plane_error(label: &str, p: &AvifPlane, w: u32, h: u32, bps: usize) -> (r: AvifError)
    ensures
        r@ == short_plane(label@, p@, w as nat, h as nat, bps as nat),
{
    let mut s = "avif overlay: ".to_string();
    s.append(label);
    s.append(" plane too short (");
    push_dec(&mut s, p.data.len() as u64);
    s.append(" bytes, stride ");
    push_dec(&mut s, p.stride as u64);
    s.append(", need ");
    push_dec(&mut s, w as u64);
    s.append("x");
    push_dec(&mut s, h as u64);
    s.append("x");
    push_dec(&mut s, bps as u64);
    s.append(")");
    AvifError::InvalidData(s)
}

/// Whether the plane `p` holds `h` rows of `row` bytes.
pub fn holds_rows(p: &AvifPlane, row: u64, h: u32) -> (r: bool)
    requires
        h > 0,
    ensures
        r == plane_fits(p@, row as nat, h as nat),
{
    proof {
        let stride = p.stride as int;
        let rows = (h - 1) as int;
        assert(0 <= stride * rows <= 0xffff_ffff_ffff_ffff * 0xffff_ffff) by (nonlinear_arith)
            requires
                0 <= stride <= 0xffff_ffff_ffff_ffff,
                0 <= rows <= 0xffff_ffff,
        ;
    }
    let need: u128 = p.stride as u128 * (h - 1) as u128 + row as u128;
    p.stride as u64 >= row && p.data.len() as u128 >= need
}

/// The bytes of a pixel lie inside a plane that holds its rows.
proof fn lemma_pixel_place(p: PlaneView, w: int, h: int, step: int, r: int, c: int)
    requires
        plane_fits(p, (w * step) as nat, h as nat),
        0 <= r < h,
        0 <= c < w,
        step > 0,
    ensures
        0 <= r * p.stride,
        0 <= c * step,
        r * p.stride + c * step + step <= p.data.len(),
        (r * w + c) / w == r,
        (r * w + c) % w == c,
{
    assert(0 <= r * p.stride <= (h - 1) * p.stride) by (nonlinear_arith)
        requires
            0 <= r <= h - 1,
            0 <= p.stride,
    ;
    assert(0 <= c * step && c * step + step <= w * step) by (nonlinear_arith)
        requires
            0 <= c <= w - 1,
            step > 0,
    ;
    assert(p.stride * (h - 1) == (h - 1) * p.stride) by (nonlinear_arith);
    lemma_fundamental_div_mod_converse(r * w + c, w, r, c);
}

fn read_sample(data: &Vec<u8>, at: usize, bps: usize) -> (r: u16)
    requires
        bps == 1 || bps == 2,
        at + bps <= data.len(),
    ensures
        r == sample(data@, at as int, bps as nat),
{
    if bps == 1 {
        data[at] as u16
    } else {
        data[at] as u16 + data[at + 1] as u16 * 0x100
    }
}

/// Read the samples of a plane that holds its rows.
pub fn read_pixels(p: &AvifPlane, w: u32, h: u32, step: usize, off: usize, bps: usize) -> (r: Vec<u16>)
    requires
        w > 0,
        h > 0,
        bps == 1 || bps == 2,
        off + bps <= step <= 4,
        plane_fits(p@, (w * step) as nat, h as nat),
    ensures
        r@ == pixels(p@, w as nat, h as nat, step as nat, off as nat, bps as nat),
{
    let mut out: Vec<u16> = Vec::new();
    let mut row: u32 = 0;
    proof {
        assert(0 * w == 0) by (nonlinear_arith);
    }
    while row < h
        invariant
            w > 0,
            row <= h,
            bps == 1 || bps == 2,
            off + bps <= step <= 4,
            plane_fits(p@, (w * step) as nat, h as nat),
            out@.len() == row * w,
            forall|i: int|
                0 <= i < out@.len() ==> out@[i] == pixel(
                    p@,
                    w as nat,
                    step as nat,
                    off as nat,
                    bps as nat,
                    i,
                ),
        decreases h - row,
    {
        let mut col: u32 = 0;
        while col < w
            invariant
                w > 0,
                row < h,
                col <= w,
                bps == 1 || bps == 2,
                off + bps <= step <= 4,
                plane_fits(p@, (w * step) as nat, h as nat),
                out@.len() == row * w + col,
                forall|i: int|
                    0 <= i < out@.len() ==> out@[i] == pixel(
                        p@,
                        w as nat,
                        step as nat,
                        off as nat,
                        bps as nat,
                        i,
                    ),
            decreases w - col,
        {
            proof {
                lemma_pixel_place(p@, w as int, h as int, step as int, row as int, col as int);
                assert(p.data@.len() == p.data.len());
            }
            let at: usize = row as usize * p.stride + col as usize * step + off;
            out.push(read_sample(&p.data, at, bps));
            col = col + 1;
        }
        proof {
            assert(row * w + w == (row + 1) * w) by (nonlinear_arith);
        }
        row = row + 1;
    }
    proof {
        assert(h * w == w * h) by (nonlinear_arith);
        assert(out@ =~= pixels(p@, w as nat, h as nat, step as nat, off as nat, bps as nat));
    }
    out
}

/// The samples of a plane, or its fault.
pub open spec fn plane_of(p: PlaneView, w: nat, h: nat, bps: nat, label: Seq<char>) -> Result<
    Seq<u16>,
    Fault,
> {
    if plane_fits(p, w * bps, h) {
        Ok(pixels(p, w, h, bps, 0, bps))
    } else {
        Err(short_plane(label, p, w, h, bps))
    }
}

fn read_plane(p: &AvifPlane, w: u32, h: u32, bps: usize, label: &str) -> (r: Result<
    Vec<u16>,
    AvifError,
>)
    requires
        w > 0,
        h > 0,
        bps == 1 || bps == 2,
    ensures
        outcome_view(r) == plane_of(p@, w as nat, h as nat, bps as nat, label@),
{
    if !holds_rows(p, w as u64 * bps as u64, h) {
        return Err(short_plane_error(label, p, w, h, bps));
    }
    Ok(read_pixels(p, w, h, bps, 0, bps))
}

/// The coded depth of a frame: that of its layout, or `bit_depth` where
/// the layout does not say.
pub open spec fn coded_depth(format: AvifPixelFormat, bit_depth: u8) -> u8 {
    if format == AvifPixelFormat::Ya16Le {
        bit_depth
    } else {
        format.layout().depth
    }
}

/// The chroma planes of a frame.
pub open spec fn chroma_of(frame: FrameView, format: AvifPixelFormat, width: u32, height: u32) -> Result<
    (Seq<u16>, Seq<u16>),
    Fault,
> {
    if format.layout().gray {
        Ok((Seq::empty(), Seq::empty()))
    } else {
        let cw = halved(width, format.layout().sx) as nat;
        let ch = halved(height, format.layout().sy) as nat;
        match plane_of(frame.planes[1], cw, ch, format.sample_bytes(), "U"@) {
            Err(f) => Err(f),
            Ok(u) => match plane_of(frame.planes[2], cw, ch, format.sample_bytes(), "V"@) {
                Err(f) => Err(f),
                Ok(v) => Ok((u, v)),
            },
        }
    }
}

/// The alpha plane of a frame.
pub open spec fn alpha_of(frame: FrameView, format: AvifPixelFormat, width: u32, height: u32) -> Result<
    Option<Seq<u16>>,
    Fault,
> {
    if format.planes() == 4 {
        match plane_of(
            frame.planes[3],
            width as nat,
            height as nat,
            format.sample_bytes(),
            "A"@,
        ) {
            Err(f) => Err(f),
            Ok(a) => Ok(Some(a)),
        }
    } else {
        Ok(None)
    }
}

/// The samples of a planar frame.
pub open spec fn planar_samples(
    frame: FrameView,
    format: AvifPixelFormat,
    width: u32,
    height: u32,
) -> Result<SamplesView, Fault> {
    match plane_of(
        frame.planes[0],
        width as nat,
        height as nat,
        format.sample_bytes(),
        "Y"@,
    ) {
        Err(f) => Err(f),
        Ok(y) => match chroma_of(frame, format, width, height) {
            Err(f) => Err(f),
            Ok((u, v)) => match alpha_of(frame, format, width, height) {
                Err(f) => Err(f),
                Ok(alpha) => Ok(
                    SamplesView {
                        width,
                        height,
                        bit_depth: format.layout().depth,
                        sx: format.layout().sx,
                        sy: format.layout().sy,
                        gray: format.layout().gray,
                        y,
                        u,
                        v,
                        alpha,
                    },
                ),
            },
        },
    }
}

/// The samples of a frame of interleaved luma and alpha.
pub open spec fn packed_samples(
    p: PlaneView,
    bps: nat,
    depth: u8,
    width: u32,
    height: u32,
) -> Result<SamplesView, Fault> {
    if !plane_fits(p, (width * (2 * bps)) as nat, height as nat) {
        Err(Fault::Invalid("avif overlay: packed YA plane too short"@))
    } else {
        Ok(
            SamplesView {
                width,
                height,
                bit_depth: depth,
                sx: 0,
                sy: 0,
                gray: true,
                y: pixels(p, width as nat, height as nat, 2 * bps, 0, bps),
                u: Seq::empty(),
                v: Seq::empty(),
                alpha: Some(pixels(p, width as nat, height as nat, 2 * bps, bps, bps)),
            },
        )
    }
}

/// The samples of a frame.
pub open spec fn samples_of(
    frame: FrameView,
    format: AvifPixelFormat,
    bit_depth: u8,
    width: u32,
    height: u32,
) -> Result<SamplesView, Fault> {
    let depth = coded_depth(format, bit_depth);
    if width == 0 || height == 0 {
        Err(Fault::Invalid("avif overlay: zero-sized input"@))
    } else if frame.planes.len() != format.planes() {
        Err(
            Fault::Invalid(
                "avif overlay: "@ + format_name(format) + " frame carries "@ + dec(
                    frame.planes.len(),
                ) + " planes, expected "@ + dec(format.planes()),
            ),
        )
    } else if depth != 8 && depth != 10 && depth != 12 {
        Err(Fault::Unsupported("avif overlay: unsupported bit depth "@ + dec(depth as nat)))
    } else if format.packed() {
        packed_samples(frame.planes[0], format.sample_bytes(), depth, width, height)
    } else {
        planar_samples(frame, format, width, height)
    }
}

fn plane_count_error(format: AvifPixelFormat, got: usize) -> (r: AvifError)
    ensures
        r@ == Fault::Invalid(
            "avif overlay: "@ + format_name(format) + " frame carries "@ + dec(got as nat)
                + " planes, expected "@ + dec(format.planes()),
        ),
{
    let mut s = "avif overlay: ".to_string();
    s.append(format.name());
    s.append(" frame carries ");
    push_dec(&mut s, got as u64);
    s.append(" planes, expected ");
    push_dec(&mut s, format.plane_count() as u64);
    AvifError::InvalidData(s)
}

fn unpack_planar(frame: &AvifFrame, format: AvifPixelFormat, width: u32, height: u32) -> (r: Result<
    SamplePlanes,
    AvifError,
>)
    requires
        width > 0,
        height > 0,
        frame@.planes.len() == format.planes(),
    ensures
        outcome_view(r) == planar_samples(frame@, format, width, height),
{
    let bps: usize = format.bytes_per_sample();
    let (sx, sy) = format.chroma_subsampling();
    let count: usize = format.plane_count();
    proof {
        assert(frame.planes@.len() == frame@.planes.len());
        assert(forall|i: int|
            0 <= i < frame.planes@.len() ==> frame@.planes[i] == (#[trigger] frame.planes@[i])@);
    }
    let y = read_plane(&frame.planes[0], width, height, bps, "Y")?;
    let mut u: Vec<u16> = Vec::new();
    let mut v: Vec<u16> = Vec::new();
    if count >= 3 {
        let cw: u32 = halve(width, sx);
        let ch: u32 = halve(height, sy);
        u = read_plane(&frame.planes[1], cw, ch, bps, "U")?;
        v = read_plane(&frame.planes[2], cw, ch, bps, "V")?;
    }
    let mut alpha: Option<Vec<u16>> = None;
    if count == 4 {
        alpha = Some(read_plane(&frame.planes[3], width, height, bps, "A")?);
    }
    Ok(
        SamplePlanes {
            width,
            height,
            bit_depth: format.bit_depth(),
            sx,
            sy,
            gray: count == 1,
            y,
            u,
            v,
            alpha,
        },
    )
}

/// Unpack a frame into planes of samples. `bit_depth` is the coded depth
/// where the layout does not say it.
pub fn unpack_planes(
    frame: &AvifFrame,
    format: AvifPixelFormat,
    bit_depth: u8,
    width: u32,
    height: u32,
) -> (r: Result<SamplePlanes, AvifError>)
    ensures
        outcome_view(r) == samples_of(frame@, format, bit_depth, width, height),
{
    if width == 0 || height == 0 {
        return Err(AvifError::invalid("avif overlay: zero-sized input"));
    }
    let bps: usize = format.bytes_per_sample();
    if frame.planes.len() != format.plane_count() {
        return Err(plane_count_error(format, frame.planes.len()));
    }
    let depth: u8 = if format == AvifPixelFormat::Ya16Le {
        bit_depth
    } else {
        format.bit_depth()
    };
    if depth != 8 && depth != 10 && depth != 12 {
        return Err(unsupported_end("avif overlay: unsupported bit depth ", depth as u64));
    }
    if format.is_packed_ya() {
        let p = &frame.planes[0];
        proof {
            assert(frame@.planes[0] == frame.planes@[0]@);
        }
        let px: usize = 2 * bps;
        let row: u64 = if bps == 1 {
            width as u64 * 2
        } else {
            width as u64 * 4
        };
        if !holds_rows(p, row, height) {
            return Err(AvifError::invalid("avif overlay: packed YA plane too short"));
        }
        let y = read_pixels(p, width, height, px, 0, bps);
        let a = read_pixels(p, width, height, px, bps, bps);
        return Ok(
            SamplePlanes {
                width,
                height,
                bit_depth: depth,
                sx: 0,
                sy: 0,
                gray: true,
                y,
                u: Vec::new(),
                v: Vec::new(),
                alpha: Some(a),
            },
        );
    }
    unpack_planar(frame, format, width, height)
}

/// Byte `k` of a sample, the low byte first.
pub open spec fn sample_byte(s: u16, bps: nat, k: int) -> u8 {
    if bps == 1 {
        s as u8
    } else if k == 0 {
        (s % 0x100) as u8
    } else {
        (s / 0x100) as u8
    }
}

/// The bytes of samples, one after another.
pub open spec fn sample_bytes(s: Seq<u16>, bps: nat) -> Seq<u8> {
    if bps == 1 {
        Seq::new(s.len(), |i: int| sample_byte(s[i], 1, 0))
    } else {
        Seq::new(s.len() * 2, |i: int| sample_byte(s[i / 2], 2, i % 2))
    }
}

/// Two lists, element by element, as far as both go.
pub open spec fn interleaved(a: Seq<u16>, b: Seq<u16>) -> Seq<u16> {
    let n = if a.len() < b.len() {
        a.len()
    } else {
        b.len()
    };
    Seq::new(
        n * 2,
        |i: int|
            if i % 2 == 0 {
                a[i / 2]
            } else {
                b[i / 2]
            },
    )
}

/// A plane of samples `w` to a row.
pub open spec fn plane_from(s: Seq<u16>, w: nat, bps: nat) -> PlaneView {
    PlaneView { stride: w * bps, data: sample_bytes(s, bps) }
}

/// The planes of a frame, one after another: luma, chroma, alpha.
pub open spec fn planar_planes(p: SamplesView, bps: nat) -> Seq<PlaneView> {
    seq![plane_from(p.y, p.width as nat, bps)] + (if p.gray {
        Seq::empty()
    } else {
        seq![
            plane_from(p.u, halved(p.width, p.sx) as nat, bps),
            plane_from(p.v, halved(p.width, p.sx) as nat, bps),
        ]
    }) + (match p.alpha {
        Some(a) => seq![plane_from(a, p.width as nat, bps)],
        None => Seq::empty(),
    })
}

/// The frame that holds these samples, in the layout `f`.
pub open spec fn frame_of(p: SamplesView, f: AvifPixelFormat) -> FrameView {
    FrameView {
        pts: None,
        planes: if f.packed() {
            seq![
                plane_from(
                    interleaved(p.y, p.alpha->0),
                    (p.width * 2) as nat,
                    f.sample_bytes(),
                ),
            ]
        } else {
            planar_planes(p, f.sample_bytes())
        },
    }
}

fn push_sample(data: &mut Vec<u8>, s: u16, bps: usize)
    requires
        bps == 1 || bps == 2,
    ensures
        bps == 1 ==> final(data)@ == old(data)@.push(sample_byte(s, 1, 0)),
        bps == 2 ==> final(data)@ == old(data)@.push(sample_byte(s, 2, 0)).push(
            sample_byte(s, 2, 1),
        ),
{
    if bps == 1 {
        data.push(s as u8);
    } else {
        data.push((s % 0x100) as u8);
        data.push((s / 0x100) as u8);
    }
}

/// Appending a sample appends its bytes.
proof fn lemma_sample_bytes_push(s: Seq<u16>, x: u16, bps: nat)
    requires
        bps == 1 || bps == 2,
    ensures
        bps == 1 ==> sample_bytes(s.push(x), bps) == sample_bytes(s, bps).push(sample_byte(x, 1, 0)),
        bps == 2 ==> sample_bytes(s.push(x), bps) == sample_bytes(s, bps).push(
            sample_byte(x, 2, 0),
        ).push(sample_byte(x, 2, 1)),
{
    if bps == 1 {
        assert(sample_bytes(s.push(x), bps) =~= sample_bytes(s, bps).push(sample_byte(x, 1, 0)));
    } else {
        let n = s.len() as int;
        assert((2 * n) / 2 == n && (2 * n + 1) / 2 == n && (2 * n) % 2 == 0 && (2 * n + 1) % 2
            == 1);
        assert(sample_bytes(s.push(x), bps) =~= sample_bytes(s, bps).push(
            sample_byte(x, 2, 0),
        ).push(sample_byte(x, 2, 1)));
    }
}

/// Write samples as a plane, `w` to a row.
pub fn write_plane(samples: &Vec<u16>, w: u32, bps: usize) -> (r: AvifPlane)
    requires
        bps == 1 || bps == 2,
        w * bps <= usize::MAX,
    ensures
        r@ == plane_from(samples@, w as nat, bps as nat),
{
    let mut data: Vec<u8> = Vec::new();
    let mut i: usize = 0;
    proof {
        assert(data@ =~= sample_bytes(samples@.take(0), bps as nat));
    }
    while i < samples.len()
        invariant
            bps == 1 || bps == 2,
            i <= samples@.len(),
            data@ == sample_bytes(samples@.take(i as int), bps as nat),
        decreases samples@.len() - i,
    {
        proof {
            lemma_sample_bytes_push(samples@.take(i as int), samples@[i as int], bps as nat);
            assert(samples@.take(i + 1) =~= samples@.take(i as int).push(samples@[i as int]));
        }
        push_sample(&mut data, samples[i], bps);
        i = i + 1;
    }
    proof {
        assert(samples@.take(samples@.len() as int) =~= samples@);
    }
    AvifPlane { stride: w as usize * bps, data }
}

/// Write luma and alpha interleaved, `width` pixels to a row.
pub fn write_packed(y: &Vec<u16>, a: &Vec<u16>, width: u32, bps: usize) -> (r: AvifPlane)
    requires
        bps == 1 || bps == 2,
        width * 4 <= usize::MAX,
    ensures
        r@ == plane_from(interleaved(y@, a@), (width * 2) as nat, bps as nat),
{
    let n: usize = if y.len() < a.len() {
        y.len()
    } else {
        a.len()
    };
    let ghost all = interleaved(y@, a@);
    let mut data: Vec<u8> = Vec::new();
    let mut i: usize = 0;
    proof {
        assert(data@ =~= sample_bytes(all.take(0), bps as nat));
    }
    while i < n
        invariant
            bps == 1 || bps == 2,
            i <= n <= y@.len(),
            n <= a@.len(),
            all == interleaved(y@, a@),
            all.len() == n * 2,
            data@ == sample_bytes(all.take(2 * i), bps as nat),
        decreases n - i,
    {
        proof {
            let k = 2 * i as int;
            assert(k / 2 == i && (k + 1) / 2 == i && k % 2 == 0 && (k + 1) % 2 == 1);
            lemma_sample_bytes_push(all.take(k), all[k], bps as nat);
            assert(all.take(k + 1) =~= all.take(k).push(all[k]));
            lemma_sample_bytes_push(all.take(k + 1), all[k + 1], bps as nat);
            assert(all.take(k + 2) =~= all.take(k + 1).push(all[k + 1]));
        }
        push_sample(&mut data, y[i], bps);
        push_sample(&mut data, a[i], bps);
        i = i + 1;
    }
    proof {
        assert(all.take(all.len() as int) =~= all);
    }
    let stride: usize = if bps == 1 {
        width as usize * 2
    } else {
        width as usize * 4
    };
    AvifPlane { stride, data }
}

/// Pack planes of samples into a frame, with its layout.
pub fn pack_planes(planes: &SamplePlanes) -> (r: Result<(AvifFrame, AvifPixelFormat), AvifError>)
    requires
        planes.width * 4 <= usize::MAX,
    ensures
        match format_of(planes.bit_depth, planes.sx, planes.sy, planes.gray, planes.alpha is Some) {
            None => r matches Err(e) && e@ == no_layout(),
            Some(f) => r matches Ok((frame, format)) && format == f && frame@ == frame_of(
                planes@,
                f,
            ),
        },
        r is Ok <==> known_parts(planes.bit_depth, planes.sx, planes.sy, planes.gray),
        r matches Ok((_, f)) ==> f.has_parts(
            planes.bit_depth,
            planes.sx,
            planes.sy,
            planes.gray,
            planes.alpha is Some,
        ),
{
    let has_alpha: bool = planes.alpha.is_some();
    let format = match AvifPixelFormat::from_layout(
        planes.bit_depth,
        planes.sx,
        planes.sy,
        planes.gray,
        has_alpha,
    ) {
        Some(f) => f,
        None => {
            return Err(
                AvifError::unsupported("avif overlay: no pixel layout for these planes"),
            );
        },
    };
    let bps: usize = format.bytes_per_sample();
    let mut out: Vec<AvifPlane> = Vec::new();
    match &planes.alpha {
        Some(a) => {
            if format.is_packed_ya() {
                out.push(write_packed(&planes.y, a, planes.width, bps));
            } else {
                out.push(write_plane(&planes.y, planes.width, bps));
                let (cw, _ch) = planes.chroma_dims();
                out.push(write_plane(&planes.u, cw, bps));
                out.push(write_plane(&planes.v, cw, bps));
                out.push(write_plane(a, planes.width, bps));
            }
        },
        None => {
            out.push(write_plane(&planes.y, planes.width, bps));
            if !planes.gray {
                let (cw, _ch) = planes.chroma_dims();
                out.push(write_plane(&planes.u, cw, bps));
                out.push(write_plane(&planes.v, cw, bps));
            }
        },
    }
    let frame = AvifFrame { pts: None, planes: out };
    proof {
        assert(frame@.planes =~= frame_of(planes@, format).planes);
    }
    Ok((frame, format))
}

impl SamplesView {
    /// Whether the planes have the sizes that their layout asks for, and
    /// the samples fit their storage.
    pub open spec fn well_formed(self) -> bool {
        &&& self.sized()
        &&& format_of(self.bit_depth, self.sx, self.sy, self.gray, self.alpha is Some) is Some
    }

    /// Whether the planes are as large as they must be, and the samples
    /// fit their storage.
    pub open spec fn sized(self) -> bool {
        let n = (self.width * self.height) as nat;
        let c = if self.gray {
            0
        } else {
            (halved(self.width, self.sx) * halved(self.height, self.sy)) as nat
        };
        &&& self.width > 0
        &&& self.height > 0
        &&& self.gray ==> self.sx == 0 && self.sy == 0
        &&& self.y.len() == n
        &&& self.u.len() == c
        &&& self.v.len() == c
        &&& self.alpha matches Some(a) ==> a.len() == n
        &&& self.bit_depth == 8 ==> {
            &&& fits_byte(self.y)
            &&& fits_byte(self.u)
            &&& fits_byte(self.v)
            &&& self.alpha matches Some(a) ==> fits_byte(a)
        }
    }
}

/// Whether every sample fits one byte.
pub open spec fn fits_byte(s: Seq<u16>) -> bool {
    forall|i: int| 0 <= i < s.len() ==> #[trigger] s[i] < 0x100
}

/// A sample written and read again is the same.
proof fn lemma_sample_back(s: Seq<u16>, i: int, bps: nat)
    requires
        bps == 1 || bps == 2,
        bps == 1 ==> fits_byte(s),
        0 <= i < s.len(),
    ensures
        sample(sample_bytes(s, bps), i * bps, bps) == s[i],
{
    if bps == 1 {
        assert(s[i] < 0x100);
    } else {
        assert((i * 2) / 2 == i && (i * 2 + 1) / 2 == i && (i * 2) % 2 == 0 && (i * 2 + 1) % 2 == 1);
        assert(i * 2 + 1 < s.len() * 2);
    }
}

/// A plane written and read again is the same.
proof fn lemma_plane_back(s: Seq<u16>, w: nat, h: nat, bps: nat, label: Seq<char>)
    requires
        bps == 1 || bps == 2,
        bps == 1 ==> fits_byte(s),
        w > 0,
        h > 0,
        s.len() == w * h,
    ensures
        plane_of(plane_from(s, w, bps), w, h, bps, label) == Ok::<Seq<u16>, Fault>(s),
{
    let p = plane_from(s, w, bps);
    assert(w * h * bps == (w * bps) * (h - 1) + w * bps) by (nonlinear_arith);
    assert(plane_fits(p, w * bps, h));
    assert forall|i: int| 0 <= i < w * h implies pixel(p, w, bps, 0, bps, i) == s[i] by {
        let r = i / (w as int);
        let c = i % (w as int);
        vstd::arithmetic::div_mod::lemma_fundamental_div_mod(i, w as int);
        assert(r * (w * bps) + c * bps == i * bps) by (nonlinear_arith)
            requires
                i == w * r + c,
        ;
        lemma_sample_back(s, i, bps);
    }
    assert(pixels(p, w, h, bps, 0, bps) =~= s);
}

/// Interleaved planes written and read again are the same.
proof fn lemma_packed_back(y: Seq<u16>, a: Seq<u16>, w: nat, h: nat, bps: nat)
    requires
        bps == 1 || bps == 2,
        bps == 1 ==> fits_byte(y) && fits_byte(a),
        w > 0,
        h > 0,
        y.len() == w * h,
        a.len() == w * h,
    ensures
        plane_fits(plane_from(interleaved(y, a), w * 2, bps), w * (2 * bps), h),
        pixels(plane_from(interleaved(y, a), w * 2, bps), w, h, 2 * bps, 0, bps) == y,
        pixels(plane_from(interleaved(y, a), w * 2, bps), w, h, 2 * bps, bps, bps) == a,
{
    let s = interleaved(y, a);
    let p = plane_from(s, w * 2, bps);
    assert(w * 2 * bps == w * (2 * bps)) by (nonlinear_arith);
    assert(w * h * 2 * bps == (w * (2 * bps)) * (h - 1) + w * (2 * bps)) by (nonlinear_arith);
    if bps == 1 {
        assert forall|i: int| 0 <= i < s.len() implies #[trigger] s[i] < 0x100 by {
            assert(y[i / 2] < 0x100 && a[i / 2] < 0x100);
        }
    }
    assert forall|i: int| 0 <= i < w * h implies pixel(p, w, 2 * bps, 0, bps, i) == y[i] && pixel(
        p,
        w,
        2 * bps,
        bps,
        bps,
        i,
    ) == a[i] by {
        let r = i / (w as int);
        let c = i % (w as int);
        vstd::arithmetic::div_mod::lemma_fundamental_div_mod(i, w as int);
        assert(r * (w * 2 * bps) + c * (2 * bps) == (2 * i) * bps) by (nonlinear_arith)
            requires
                i == w * r + c,
        ;
        assert((2 * i) * bps + bps == (2 * i + 1) * bps) by (nonlinear_arith);
        assert((2 * i) / 2 == i && (2 * i + 1) / 2 == i && (2 * i) % 2 == 0 && (2 * i + 1) % 2 == 1);
        lemma_sample_back(s, 2 * i, bps);
        lemma_sample_back(s, 2 * i + 1, bps);
    }
    assert(pixels(p, w, h, 2 * bps, 0, bps) =~= y);
    assert(pixels(p, w, h, 2 * bps, bps, bps) =~= a);
}

proof fn lemma_halved_positive(n: u32, shift: u8)
    ensures
        halved(n, shift) > 0,
    decreases shift,
{
    if shift > 0 {
        lemma_halved_positive((n / 2 + n % 2) as u32, (shift - 1) as u8);
    }
}

/// What a layout found from its parts consists of.
proof fn lemma_format_parts(bit_depth: u8, sx: u8, sy: u8, gray: bool, alpha: bool)
    ensures
        format_of(bit_depth, sx, sy, gray, alpha) matches Some(f) ==> {
            &&& f.layout().gray == gray
            &&& f.layout().alpha == alpha
            &&& !gray ==> f.layout().sx == sx && f.layout().sy == sy
            &&& gray ==> f.layout().sx == 0 && f.layout().sy == 0
            &&& coded_depth(f, bit_depth) == bit_depth
            &&& !f.packed() ==> f.layout().depth == bit_depth
            &&& bit_depth == 8 || bit_depth == 10 || bit_depth == 12
            &&& f.sample_bytes() == if bit_depth == 8 {
                1nat
            } else {
                2nat
            }
        },
{
}

#[verifier::spinoff_prover]
#[verifier::rlimit(40)]
proof fn lemma_planar_back(p: SamplesView, f: AvifPixelFormat)
    requires
        p.sized(),
        !f.packed(),
        f.layout() == crate::image::layout(p.bit_depth, p.sx, p.sy, p.gray, p.alpha is Some),
        p.bit_depth == 8 <==> f.sample_bytes() == 1,
    ensures
        planar_samples(frame_of(p, f), f, p.width, p.height) == Ok::<SamplesView, Fault>(p),
        frame_of(p, f).planes.len() == f.planes(),
{
    let bps = f.sample_bytes();
    let w = p.width as nat;
    let h = p.height as nat;
    lemma_plane_back(p.y, w, h, bps, "Y"@);
    if !p.gray {
        let cw = halved(p.width, p.sx) as nat;
        let ch = halved(p.height, p.sy) as nat;
        lemma_halved_positive(p.width, p.sx);
        lemma_halved_positive(p.height, p.sy);
        lemma_plane_back(p.u, cw, ch, bps, "U"@);
        lemma_plane_back(p.v, cw, ch, bps, "V"@);
    } else {
        assert(p.u =~= Seq::empty());
        assert(p.v =~= Seq::empty());
    }
    if let Some(a) = p.alpha {
        lemma_plane_back(a, w, h, bps, "A"@);
    }
}

/// Packing planes of samples and unpacking the frame gives the same
/// planes.
pub proof fn law_unpack_undoes_pack(p: SamplesView, f: AvifPixelFormat)
    requires
        p.well_formed(),
        format_of(p.bit_depth, p.sx, p.sy, p.gray, p.alpha is Some) == Some(f),
    ensures
        samples_of(frame_of(p, f), f, p.bit_depth, p.width, p.height) == Ok::<SamplesView, Fault>(p),
{
    lemma_format_parts(p.bit_depth, p.sx, p.sy, p.gray, p.alpha is Some);
    if f.packed() {
        let bps = f.sample_bytes();
        let w = p.width as nat;
        let h = p.height as nat;
        lemma_packed_back(p.y, p.alpha->0, w, h, bps);
        assert(p.u =~= Seq::empty());
        assert(p.v =~= Seq::empty());
    } else {
        lemma_planar_back(p, f);
    }
}

} // verus!
