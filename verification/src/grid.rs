//! Grid images: tiles laid out in rows.

use crate::box_parser::{be16, be32};
use crate::error::{fault_text, outcome, outcome_view, views, AvifError, Fault};
use crate::image::{format_name, AvifFrame, AvifPixelFormat, FrameView};
use crate::picture::{
    alike, from_picture, grid_canvas, lemma_area, lemma_grid_canvas, picture_of, shown,
    stitch_tiles, to_picture, too_many_error, too_many_pixels, trim_top_left, trimmed, Picture,
    PictureView, MAX_FRAME_PIXELS,
};
use crate::props_parse::after;
use crate::meta_parse::{lemma_after_all, lemma_after_none, lemma_after_push};
use crate::text::{dec, push_dec};
use oxideav_heif::derived::GridDescriptor;
use oxideav_heif::HeifError;
use vstd::prelude::*;

verus! {

/// The descriptor of a grid item.
#[derive(Clone, Copy, Debug, PartialEq, Eq, Structural)]
pub struct ImageGrid {
    /// Version; 0.
    pub version: u8,
    /// Flags; bit 0 says that the sizes are 32 bits wide.
    pub flags: u8,
    /// Rows of tiles.
    pub rows: u16,
    /// Columns of tiles.
    pub columns: u16,
    /// Width of the image.
    pub output_width: u32,
    /// Height of the image.
    pub output_height: u32,
}

/// The image size in a grid descriptor: 16 or 32 bits wide, by bit 0 of
/// the flags.
pub open spec fn grid_size(s: Seq<u8>) -> (u32, u32) {
    if s[1] % 2 == 1 {
        (be32(s, 4), be32(s, 8))
    } else {
        (be16(s, 4) as u32, be16(s, 6) as u32)
    }
}

/// Whether a grid descriptor of version 0 is all there and its size is
/// neither empty nor of more than 2^30 pixels.
pub open spec fn grid_is_valid(s: Seq<u8>) -> bool {
    &&& s.len() >= 8
    &&& s[1] % 2 == 1 ==> s.len() >= 12
    &&& grid_size(s).0 > 0
    &&& grid_size(s).1 > 0
    &&& grid_size(s).0 * grid_size(s).1 <= 0x4000_0000
}

/// Why the container refuses a grid descriptor of version 0.
pub uninterp spec fn grid_refusal(payload: Seq<u8>) -> Seq<char>;

/// `oxideav_heif::derived::GridDescriptor::parse`, on a payload of
/// version 0: rows, columns and the image size. A payload that ends
/// early, an empty image and one of more than 2^30 pixels are refused.
#[verifier::external_body]
fn heif_grid_descriptor(payload: &[u8]) -> (r: Result<(u16, u16, u32, u32), String>)
    requires
        payload@.len() > 0,
        payload@[0] == 0,
    ensures
        r is Ok <==> grid_is_valid(payload@),
        r is Ok ==> r->Ok_0 == (
            (payload@[2] + 1) as u16,
            (payload@[3] + 1) as u16,
            grid_size(payload@).0,
            grid_size(payload@).1,
        ),
        r is Err ==> r->Err_0@ == grid_refusal(payload@),
{
    match GridDescriptor::parse(payload) {
        Ok(d) => Ok((d.rows, d.columns, d.output_width, d.output_height)),
        Err(HeifError::InvalidData(s)) | Err(HeifError::LimitExceeded(s)) => Err(s),
        Err(e) => Err(e.to_string()),
    }
}

/// The grid in the body of a grid item.
pub open spec fn grid_parsed(s: Seq<u8>) -> Result<ImageGrid, Fault> {
    if s.len() == 0 {
        Err(Fault::Invalid("avif grid: payload 0 bytes < 8"@))
    } else if s[0] != 0 {
        Err(Fault::Invalid("avif grid: version "@ + dec(s[0] as nat)))
    } else if !grid_is_valid(s) {
        Err(Fault::Invalid(grid_refusal(s)))
    } else {
        Ok(
            ImageGrid {
                version: 0,
                flags: s[1],
                rows: (s[2] + 1) as u16,
                columns: (s[3] + 1) as u16,
                output_width: grid_size(s).0,
                output_height: grid_size(s).1,
            },
        )
    }
}

impl ImageGrid {
    /// Parse the body of a grid item.
    pub fn parse(payload: &[u8]) -> (r: Result<ImageGrid, AvifError>)
        ensures
            outcome(r) == grid_parsed(payload@),
    {
        if payload.len() == 0 {
            return Err(AvifError::invalid("avif grid: payload 0 bytes < 8"));
        }
        if payload[0] != 0 {
            return Err(crate::error::invalid_end("avif grid: version ", payload[0] as u64));
        }
        match heif_grid_descriptor(payload) {
            Ok((rows, columns, output_width, output_height)) => Ok(
                ImageGrid {
                    version: 0,
                    flags: payload[1],
                    rows,
                    columns,
                    output_width,
                    output_height,
                },
            ),
            Err(text) => Err(AvifError::InvalidData(text)),
        }
    }

    /// Number of tiles: rows times columns.
    pub fn expected_tile_count(&self) -> (r: usize)
        ensures
            r == self.rows * self.columns,
    {
        proof {
            assert(0 <= self.rows * self.columns <= 0xffff * 0xffff) by (nonlinear_arith)
                requires
                    self.rows <= 0xffff,
                    self.columns <= 0xffff,
            ;
        }
        self.rows as usize * self.columns as usize
    }
}

/// Rows and columns, tile size and image size, as a fault shows them.
pub open spec fn uncovered(g: ImageGrid, tile_w: u32, tile_h: u32) -> Fault {
    Fault::Invalid(
        "avif grid: "@ + dec(g.rows as nat) + "×"@ + dec(g.columns as nat) + " tiles of "@ + dec(
            tile_w as nat,
        ) + "x"@ + dec(tile_h as nat) + " don't cover "@ + dec(g.output_width as nat) + "x"@ + dec(
            g.output_height as nat,
        ),
    )
}

fn uncovered_error(g: &ImageGrid, tile_w: u32, tile_h: u32) -> (r: AvifError)
    ensures
        r@ == uncovered(*g, tile_w, tile_h),
{
    let mut s = "avif grid: ".to_string();
    push_dec(&mut s, g.rows as u64);
    s.append("×");
    push_dec(&mut s, g.columns as u64);
    s.append(" tiles of ");
    push_dec(&mut s, tile_w as u64);
    s.append("x");
    push_dec(&mut s, tile_h as u64);
    s.append(" don't cover ");
    push_dec(&mut s, g.output_width as u64);
    s.append("x");
    push_dec(&mut s, g.output_height as u64);
    AvifError::InvalidData(s)
}

/// The fault of a wrong number of tiles.
pub open spec fn wrong_count(g: ImageGrid, got: nat) -> Fault {
    Fault::Invalid(
        "avif grid: "@ + dec(g.rows as nat) + "×"@ + dec(g.columns as nat) + " grid declares "@
            + dec((g.rows * g.columns) as nat) + " tiles but got "@ + dec(got),
    )
}

fn wrong_count_error(g: &ImageGrid, got: usize) -> (r: AvifError)
    ensures
        r@ == wrong_count(*g, got as nat),
{
    let mut s = "avif grid: ".to_string();
    push_dec(&mut s, g.rows as u64);
    s.append("×");
    push_dec(&mut s, g.columns as u64);
    s.append(" grid declares ");
    push_dec(&mut s, g.expected_tile_count() as u64);
    s.append(" tiles but got ");
    push_dec(&mut s, got as u64);
    AvifError::InvalidData(s)
}

/// The fault of a first tile with the wrong number of planes.
pub open spec fn wrong_planes(f: AvifPixelFormat, got: nat) -> Fault {
    Fault::Invalid(
        "avif grid: format "@ + format_name(f) + " expects "@ + dec(f.planes()) + " planes, got "@
            + dec(got),
    )
}

fn wrong_planes_error(f: AvifPixelFormat, got: usize) -> (r: AvifError)
    ensures
        r@ == wrong_planes(f, got as nat),
{
    let mut s = "avif grid: format ".to_string();
    s.append(f.name());
    s.append(" expects ");
    push_dec(&mut s, f.plane_count() as u64);
    s.append(" planes, got ");
    push_dec(&mut s, got as u64);
    AvifError::InvalidData(s)
}

/// The fault of an alpha layout.
pub open spec fn alpha_tiles(f: AvifPixelFormat) -> Fault {
    Fault::Unsupported(
        "avif grid: pixel format "@ + format_name(f) + " not supported as a tile layout"@,
    )
}

fn alpha_tiles_error(f: AvifPixelFormat) -> (r: AvifError)
    ensures
        r@ == alpha_tiles(f),
{
    let mut s = "avif grid: pixel format ".to_string();
    s.append(f.name());
    s.append(" not supported as a tile layout");
    AvifError::Unsupported(s)
}

/// The fault of tile `i`.
pub open spec fn tile_fault(i: int, f: Fault) -> Fault {
    Fault::Invalid("avif grid: tile "@ + dec(i as nat) + ": "@ + fault_text(f))
}

fn tile_error(i: usize, e: &AvifError) -> (r: AvifError)
    ensures
        r@ == tile_fault(i as int, e@),
{
    let mut s = "avif grid: tile ".to_string();
    push_dec(&mut s, i as u64);
    s.append(": ");
    s.append(e.to_string().as_str());
    AvifError::InvalidData(s)
}

/// The tiles from tile `i` on, as pictures.
pub open spec fn tile_pictures(
    tiles: Seq<FrameView>,
    format: AvifPixelFormat,
    tile_w: u32,
    tile_h: u32,
    i: int,
) -> Result<Seq<PictureView>, Fault>
    decreases tiles.len() - i,
{
    if i < 0 || i >= tiles.len() {
        Ok(Seq::empty())
    } else {
        match picture_of(tiles[i], format, format.layout().depth, tile_w, tile_h) {
            Err(f) => Err(tile_fault(i, f)),
            Ok(p) => after(seq![p], tile_pictures(tiles, format, tile_w, tile_h, i + 1)),
        }
    }
}

/// The grid image that the tiles make: laid out in reading order, then
/// cut to the image size.
pub open spec fn grid_picture(g: ImageGrid, tiles: Seq<PictureView>) -> Result<PictureView, Fault> {
    let full_w = tiles[0].width * g.columns;
    let full_h = tiles[0].height * g.rows;
    if tiles.len() == 0 {
        Err(Fault::Invalid("avif grid: empty tile list"@))
    } else if full_w < g.output_width || full_h < g.output_height {
        Err(uncovered(g, tiles[0].width, tiles[0].height))
    } else if full_w > u32::MAX {
        Err(Fault::Invalid("avif grid: canvas width overflow"@))
    } else if full_h > u32::MAX {
        Err(Fault::Invalid("avif grid: canvas height overflow"@))
    } else if full_w * full_h > MAX_FRAME_PIXELS {
        Err(too_many_pixels(full_w as u32, full_h as u32))
    } else {
        Ok(trimmed(grid_canvas(tiles, g.columns, g.rows), g.output_width, g.output_height))
    }
}

/// The frame of a grid image.
pub open spec fn grid_frame(
    g: ImageGrid,
    tiles: Seq<FrameView>,
    format: AvifPixelFormat,
    tile_w: u32,
    tile_h: u32,
) -> Result<FrameView, Fault> {
    if tiles.len() != g.rows * g.columns {
        Err(wrong_count(g, tiles.len()))
    } else if tiles.len() == 0 {
        Err(Fault::Invalid("avif grid: empty tile list"@))
    } else if g.output_width == 0 || g.output_height == 0 {
        Err(Fault::Invalid("avif grid: output dimensions zero"@))
    } else if tile_w * g.columns < g.output_width || tile_h * g.rows < g.output_height {
        Err(uncovered(g, tile_w, tile_h))
    } else if format.layout().alpha {
        Err(alpha_tiles(format))
    } else if tiles[0].planes.len() != format.planes() {
        Err(wrong_planes(format, tiles[0].planes.len()))
    } else {
        match tile_pictures(tiles, format, tile_w, tile_h, 0) {
            Err(f) => Err(f),
            Ok(pictures) => match grid_picture(g, pictures) {
                Err(f) => Err(f),
                Ok(p) => match shown(p) {
                    Err(f) => Err(f),
                    Ok((frame, _)) => Ok(FrameView { pts: tiles[0].pts, ..frame }),
                },
            },
        }
    }
}

/// What the pictures of tiles are like.
proof fn lemma_tile_pictures(
    tiles: Seq<FrameView>,
    format: AvifPixelFormat,
    tile_w: u32,
    tile_h: u32,
    i: int,
)
    requires
        0 <= i <= tiles.len(),
    ensures
        tile_pictures(tiles, format, tile_w, tile_h, i) matches Ok(p) ==> p.len() == tiles.len() - i,
    decreases tiles.len() - i,
{
    if i < tiles.len() {
        lemma_tile_pictures(tiles, format, tile_w, tile_h, i + 1);
    }
}

/// Make a grid image from the pictures of its tiles.
pub fn composite_grid_frames(grid: &ImageGrid, tiles: &Vec<Picture>) -> (r: Result<
    Picture,
    AvifError,
>)
    requires
        tiles@.len() == grid.rows * grid.columns,
        alike(views(tiles@)),
        tiles@.len() > 0 ==> !tiles@[0].has_alpha,
        grid.output_width > 0,
        grid.output_height > 0,
    ensures
        outcome_view(r) == grid_picture(*grid, views(tiles@)),
        r matches Ok(p) ==> p@.tight() && p.has_alpha == tiles@[0].has_alpha,
{
    if tiles.len() == 0 {
        return Err(AvifError::invalid("avif grid: empty tile list"));
    }
    let tw: u32 = tiles[0].width;
    let th: u32 = tiles[0].height;
    proof {
        assert(views(tiles@)[0] == tiles@[0]@);
        assert(0 <= tw * grid.columns <= 0xffff_ffff * 0xffff) by (nonlinear_arith)
            requires
                tw <= 0xffff_ffff,
                grid.columns <= 0xffff,
        ;
        assert(0 <= th * grid.rows <= 0xffff_ffff * 0xffff) by (nonlinear_arith)
            requires
                th <= 0xffff_ffff,
                grid.rows <= 0xffff,
        ;
        assert(grid.rows > 0 && grid.columns > 0) by (nonlinear_arith)
            requires
                grid.rows * grid.columns > 0,
                grid.rows >= 0,
                grid.columns >= 0,
        ;
    }
    let full_w: u64 = tw as u64 * grid.columns as u64;
    let full_h: u64 = th as u64 * grid.rows as u64;
    if full_w < grid.output_width as u64 || full_h < grid.output_height as u64 {
        return Err(uncovered_error(grid, tw, th));
    }
    if full_w > 0xffff_ffff {
        return Err(AvifError::invalid("avif grid: canvas width overflow"));
    }
    if full_h > 0xffff_ffff {
        return Err(AvifError::invalid("avif grid: canvas height overflow"));
    }
    let width: u32 = full_w as u32;
    let height: u32 = full_h as u32;
    proof {
        lemma_area(width, height);
        lemma_grid_canvas(views(tiles@), grid.columns, grid.rows);
    }
    if width as u64 * height as u64 > MAX_FRAME_PIXELS {
        return Err(too_many_error(width, height));
    }
    let composed = stitch_tiles(grid.rows, grid.columns, width, height, tiles);
    Ok(trim_top_left(&composed, grid.output_width, grid.output_height))
}

fn tiles_to_pictures(tiles: &[AvifFrame], format: AvifPixelFormat, tile_w: u32, tile_h: u32) -> (r:
    Result<Vec<Picture>, AvifError>)
    requires
        !format.layout().alpha,
    ensures
        crate::error::outcome_list(r) == tile_pictures(views(tiles@), format, tile_w, tile_h, 0),
        r matches Ok(p) ==> p@.len() == tiles@.len() && alike(views(p@)) && (p@.len() > 0
            ==> !p@[0].has_alpha && p@[0].width == tile_w && p@[0].height == tile_h),
{
    let depth: u8 = format.bit_depth();
    let mut out: Vec<Picture> = Vec::new();
    let mut i: usize = 0;
    let ghost all = tile_pictures(views(tiles@), format, tile_w, tile_h, 0);
    proof {
        lemma_after_none(views(out@), all);
    }
    while i < tiles.len()
        invariant
            i <= tiles@.len(),
            !format.layout().alpha,
            depth == format.layout().depth,
            all == tile_pictures(views(tiles@), format, tile_w, tile_h, 0),
            after(views(out@), tile_pictures(views(tiles@), format, tile_w, tile_h, i as int))
                == all,
            out@.len() == i,
            forall|j: int|
                0 <= j < out@.len() ==> {
                    let p = (#[trigger] out@[j])@;
                    &&& p.tight()
                    &&& p.width == tile_w
                    &&& p.height == tile_h
                    &&& !p.has_alpha
                    &&& p.chroma == tile_chroma(format)
                    &&& p.bit_depth == depth
                },
        decreases tiles@.len() - i,
    {
        proof {
            assert(views(tiles@)[i as int] == tiles@[i as int]@);
            lemma_tile_layout(tiles@[i as int]@, format, tile_w, tile_h);
        }
        let p = match to_picture(&tiles[i], format, depth, tile_w, tile_h) {
            Ok(p) => p,
            Err(e) => {
                return Err(tile_error(i, &e));
            },
        };
        proof {
            lemma_after_push(
                out@,
                p,
                tile_pictures(views(tiles@), format, tile_w, tile_h, i + 1),
            );
        }
        out.push(p);
        i = i + 1;
    }
    proof {
        lemma_after_all(views(out@));
        assert forall|j: int| 0 <= j < views(out@).len() implies (#[trigger] views(
            out@,
        )[j]).tight() && views(out@)[j].like(views(out@)[0]) by {
            assert(views(out@)[j] == out@[j]@);
            assert(views(out@)[0] == out@[0]@);
        }
    }
    Ok(out)
}

/// The chroma of a layout without alpha, as pictures have it.
pub open spec fn tile_chroma(f: AvifPixelFormat) -> u8 {
    if f.layout().gray {
        0
    } else if f.layout().sx == 0 {
        3
    } else if f.layout().sy == 0 {
        2
    } else {
        1
    }
}

#[verifier::spinoff_prover]
#[verifier::rlimit(40)]
proof fn lemma_tile_layout(frame: FrameView, format: AvifPixelFormat, tile_w: u32, tile_h: u32)
    requires
        !format.layout().alpha,
    ensures
        picture_of(frame, format, format.layout().depth, tile_w, tile_h) matches Ok(p) ==> {
            &&& p.width == tile_w
            &&& p.height == tile_h
            &&& !p.has_alpha
            &&& p.chroma == tile_chroma(format)
            &&& p.bit_depth == format.layout().depth
        },
{
}

/// Lay `tiles`, all of one size and layout and in reading order, out as
/// the grid says, and cut the result to the image size. Tiles with alpha
/// are not supported.
pub fn composite_grid(
    grid: &ImageGrid,
    tiles: &[AvifFrame],
    format: AvifPixelFormat,
    tile_w: u32,
    tile_h: u32,
) -> (r: Result<AvifFrame, AvifError>)
    ensures
        outcome_view(r) == grid_frame(*grid, views(tiles@), format, tile_w, tile_h),
{
    let expected: usize = grid.expected_tile_count();
    if tiles.len() != expected {
        return Err(wrong_count_error(grid, tiles.len()));
    }
    if tiles.len() == 0 {
        return Err(AvifError::invalid("avif grid: empty tile list"));
    }
    if grid.output_width == 0 || grid.output_height == 0 {
        return Err(AvifError::invalid("avif grid: output dimensions zero"));
    }
    proof {
        assert(0 <= tile_w * grid.columns <= 0xffff_ffff * 0xffff) by (nonlinear_arith)
            requires
                tile_w <= 0xffff_ffff,
                grid.columns <= 0xffff,
        ;
        assert(0 <= tile_h * grid.rows <= 0xffff_ffff * 0xffff) by (nonlinear_arith)
            requires
                tile_h <= 0xffff_ffff,
                grid.rows <= 0xffff,
        ;
    }
    if (tile_w as u64 * grid.columns as u64) < grid.output_width as u64 || (tile_h as u64
        * grid.rows as u64) < grid.output_height as u64 {
        return Err(uncovered_error(grid, tile_w, tile_h));
    }
    if format.has_alpha() {
        return Err(alpha_tiles_error(format));
    }
    proof {
        assert(views(tiles@)[0] == tiles@[0]@);
    }
    if tiles[0].planes.len() != format.plane_count() {
        return Err(wrong_planes_error(format, tiles[0].planes.len()));
    }
    let pictures = tiles_to_pictures(tiles, format, tile_w, tile_h)?;
    let composed = composite_grid_frames(grid, &pictures)?;
    let (mut out, _format) = from_picture(&composed)?;
    out.pts = tiles[0].pts;
    Ok(out)
}

} // verus!
