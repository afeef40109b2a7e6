//! Region items: geometries that describe parts of an image.

use crate::box_parser::{be16, be32, read_u16, read_u32, same_type, tail};
use crate::error::{
    invalid_nn, outcome_view, unsupported_end, unsupported_n, views, AvifError, Fault,
};
use crate::meta::{count_references, has_body, item_has_body, references_of, Meta, MetaView};
use crate::meta_parse::{
    lemma_after_all, lemma_after_none, lemma_after_push, outcome_at, outcome_view_at,
};
use crate::props::str_views;
use crate::props_parse::after;
use crate::text::dec;
use vstd::prelude::*;
use vstd::slice::{slice_subrange, slice_to_vec};

pub use crate::meta_parse::ITEM_TYPE_IDEN;

verus! {

/// `rgan` — a region item.
pub const ITEM_TYPE_RGAN: [u8; 4] = [0x72, 0x67, 0x61, 0x6e];

/// `mski` — a mask item.
pub const ITEM_TYPE_MSKI: [u8; 4] = [0x6d, 0x73, 0x6b, 0x69];

/// `drgn` — a reference from a derived region item to its inputs.
pub const REF_TYPE_DRGN: [u8; 4] = [0x64, 0x72, 0x67, 0x6e];

/// One region of an image. Coordinates may be negative.
#[derive(Clone, Debug, PartialEq, Eq)]
pub enum RegionGeometry {
    /// A point.
    Point {
        /// Horizontal position.
        x: i32,
        /// Vertical position.
        y: i32,
    },
    /// A rectangle.
    Rectangle {
        /// Left edge.
        x: i32,
        /// Top edge.
        y: i32,
        /// Width.
        width: u32,
        /// Height.
        height: u32,
    },
    /// An ellipse.
    Ellipse {
        /// Horizontal position of the centre.
        x: i32,
        /// Vertical position of the centre.
        y: i32,
        /// Horizontal radius.
        radius_x: u32,
        /// Vertical radius.
        radius_y: u32,
    },
    /// A closed polygon.
    Polygon {
        /// Corners, in order.
        points: Vec<(i32, i32)>,
    },
    /// An open line.
    Polyline {
        /// Points, in order.
        points: Vec<(i32, i32)>,
    },
    /// A mask that another item holds.
    ReferencedMask {
        /// Left edge.
        x: i32,
        /// Top edge.
        y: i32,
        /// Width; 0 for that of the mask.
        width: u32,
        /// Height; 0 for that of the mask.
        height: u32,
        /// Place of the mask among the references, in a region track.
        mask_ref_idx: Option<u32>,
    },
    /// A mask that the region itself holds.
    InlineMask {
        /// Left edge.
        x: i32,
        /// Top edge.
        y: i32,
        /// Width.
        width: u32,
        /// Height.
        height: u32,
        /// 0 for plain bits, 1 for deflate.
        mask_coding_method: u8,
        /// Number of coded bytes, when the mask is coded.
        mask_coding_parameters: Option<u32>,
        /// The bits, as they stand in the item.
        data: Vec<u8>,
    },
}

/// A [`RegionGeometry`] as contracts speak of it.
pub enum GeometryView {
    /// A point.
    Point {
        /// Horizontal position.
        x: i32,
        /// Vertical position.
        y: i32,
    },
    /// A rectangle.
    Rectangle {
        /// Left edge.
        x: i32,
        /// Top edge.
        y: i32,
        /// Width.
        width: u32,
        /// Height.
        height: u32,
    },
    /// An ellipse.
    Ellipse {
        /// Horizontal position of the centre.
        x: i32,
        /// Vertical position of the centre.
        y: i32,
        /// Horizontal radius.
        radius_x: u32,
        /// Vertical radius.
        radius_y: u32,
    },
    /// A closed polygon.
    Polygon {
        /// Corners, in order.
        points: Seq<(i32, i32)>,
    },
    /// An open line.
    Polyline {
        /// Points, in order.
        points: Seq<(i32, i32)>,
    },
    /// A mask that another item holds.
    ReferencedMask {
        /// Left edge.
        x: i32,
        /// Top edge.
        y: i32,
        /// Width.
        width: u32,
        /// Height.
        height: u32,
        /// Place of the mask among the references.
        mask_ref_idx: Option<u32>,
    },
    /// A mask that the region itself holds.
    InlineMask {
        /// Left edge.
        x: i32,
        /// Top edge.
        y: i32,
        /// Width.
        width: u32,
        /// Height.
        height: u32,
        /// Coding method.
        mask_coding_method: u8,
        /// Number of coded bytes.
        mask_coding_parameters: Option<u32>,
        /// The bits.
        data: Seq<u8>,
    },
}

impl View for RegionGeometry {
    type V = GeometryView;

    open spec fn view(&self) -> GeometryView {
        match *self {
            RegionGeometry::Point { x, y } => GeometryView::Point { x, y },
            RegionGeometry::Rectangle { x, y, width, height } => GeometryView::Rectangle {
                x,
                y,
                width,
                height,
            },
            RegionGeometry::Ellipse { x, y, radius_x, radius_y } => GeometryView::Ellipse {
                x,
                y,
                radius_x,
                radius_y,
            },
            RegionGeometry::Polygon { points } => GeometryView::Polygon { points: points@ },
            RegionGeometry::Polyline { points } => GeometryView::Polyline { points: points@ },
            RegionGeometry::ReferencedMask { x, y, width, height, mask_ref_idx } =>
            GeometryView::ReferencedMask { x, y, width, height, mask_ref_idx },
            RegionGeometry::InlineMask {
                x,
                y,
                width,
                height,
                mask_coding_method,
                mask_coding_parameters,
                data,
            } => GeometryView::InlineMask {
                x,
                y,
                width,
                height,
                mask_coding_method,
                mask_coding_parameters,
                data: data@,
            },
        }
    }
}

/// The byte that introduces a geometry of this kind.
pub open spec fn geometry_code(g: GeometryView) -> u8 {
    match g {
        GeometryView::Point { .. } => 0,
        GeometryView::Rectangle { .. } => 1,
        GeometryView::Ellipse { .. } => 2,
        GeometryView::Polygon { .. } => 3,
        GeometryView::ReferencedMask { .. } => 4,
        GeometryView::InlineMask { .. } => 5,
        GeometryView::Polyline { .. } => 6,
    }
}

impl RegionGeometry {
    /// The byte that introduces a geometry of this kind.
    pub fn geometry_type(&self) -> (r: u8)
        ensures
            r == geometry_code(self@),
    {
        match self {
            RegionGeometry::Point { .. } => 0,
            RegionGeometry::Rectangle { .. } => 1,
            RegionGeometry::Ellipse { .. } => 2,
            RegionGeometry::Polygon { .. } => 3,
            RegionGeometry::ReferencedMask { .. } => 4,
            RegionGeometry::InlineMask { .. } => 5,
            RegionGeometry::Polyline { .. } => 6,
        }
    }

    /// Whether the region is a mask.
    pub fn is_mask(&self) -> (r: bool)
        ensures
            r == (self@ is ReferencedMask || self@ is InlineMask),
    {
        match self {
            RegionGeometry::ReferencedMask { .. } => true,
            RegionGeometry::InlineMask { .. } => true,
            _ => false,
        }
    }
}

/// A region item: regions within a space of their own, which a reader
/// scales to the image.
#[derive(Clone, Debug, PartialEq, Eq)]
pub struct RegionItem {
    /// Flags; bit 0 says that the fields are 32 bits wide.
    pub flags: u8,
    /// Width of the space.
    pub reference_width: u32,
    /// Height of the space.
    pub reference_height: u32,
    /// The regions, in order.
    pub regions: Vec<RegionGeometry>,
}

/// A [`RegionItem`] as contracts speak of it.
#[verifier::ext_equal]
pub struct RegionItemView {
    /// Flags.
    pub flags: u8,
    /// Width of the space.
    pub reference_width: u32,
    /// Height of the space.
    pub reference_height: u32,
    /// The regions, in order.
    pub regions: Seq<GeometryView>,
}

impl View for RegionItem {
    type V = RegionItemView;

    open spec fn view(&self) -> RegionItemView {
        RegionItemView {
            flags: self.flags,
            reference_width: self.reference_width,
            reference_height: self.reference_height,
            regions: views(self.regions@),
        }
    }
}

/// The offset after `n` more bytes at `at`, when they are all there.
pub open spec fn step_over(s: Seq<u8>, at: int, n: nat) -> Result<int, Fault> {
    if at + n > usize::MAX {
        Err(Fault::Invalid("avif region item: offset overflow"@))
    } else if at + n > s.len() {
        Err(
            Fault::Invalid(
                "avif region item: truncated read ("@ + dec((at + n) as nat) + " > "@ + dec(s.len())
                    + ")"@,
            ),
        )
    } else {
        Ok(at + n)
    }
}

fn step_past(buf: &[u8], at: usize, n: usize) -> (r: Result<usize, AvifError>)
    requires
        at <= buf.len(),
    ensures
        match r {
            Ok(next) => {
                &&& step_over(buf@, at as int, n as nat) == Ok::<int, Fault>(next as int)
                &&& next <= buf.len()
            },
            Err(e) => step_over(buf@, at as int, n as nat) == Err::<int, Fault>(e@),
        },
{
    if n > usize::MAX - at {
        return Err(AvifError::invalid("avif region item: offset overflow"));
    }
    let end: usize = at + n;
    if end > buf.len() {
        return Err(
            invalid_nn(
                "avif region item: truncated read (",
                end as u64,
                " > ",
                buf.len() as u64,
                ")",
            ),
        );
    }
    Ok(end)
}

/// One byte at `at`, and the offset after it.
pub open spec fn byte_at(s: Seq<u8>, at: int) -> Result<(u8, int), Fault> {
    match step_over(s, at, 1) {
        Err(f) => Err(f),
        Ok(next) => Ok((s[at], next)),
    }
}

/// An unsigned field at `at`, of 16 or 32 bits, and the offset after it.
pub open spec fn unsigned_at(s: Seq<u8>, at: int, large: bool) -> Result<(u32, int), Fault> {
    if large {
        match step_over(s, at, 4) {
            Err(f) => Err(f),
            Ok(next) => Ok((be32(s, at), next)),
        }
    } else {
        match step_over(s, at, 2) {
            Err(f) => Err(f),
            Ok(next) => Ok((be16(s, at) as u32, next)),
        }
    }
}

/// A signed field at `at`, of 16 or 32 bits, and the offset after it.
pub open spec fn signed_at(s: Seq<u8>, at: int, large: bool) -> Result<(i32, int), Fault> {
    if large {
        match step_over(s, at, 4) {
            Err(f) => Err(f),
            Ok(next) => Ok((be32(s, at) as i32, next)),
        }
    } else {
        match step_over(s, at, 2) {
            Err(f) => Err(f),
            Ok(next) => Ok((be16(s, at) as i16 as i32, next)),
        }
    }
}

fn read_byte(buf: &[u8], at: usize) -> (r: Result<(u8, usize), AvifError>)
    requires
        at <= buf.len(),
    ensures
        outcome_at(r) == byte_at(buf@, at as int),
        r matches Ok((_, next)) ==> next <= buf.len(),
{
    let next: usize = step_past(buf, at, 1)?;
    Ok((buf[at], next))
}

fn read_unsigned(buf: &[u8], at: usize, large: bool) -> (r: Result<(u32, usize), AvifError>)
    requires
        at <= buf.len(),
    ensures
        outcome_at(r) == unsigned_at(buf@, at as int, large),
        r matches Ok((_, next)) ==> next <= buf.len(),
{
    if large {
        let next: usize = step_past(buf, at, 4)?;
        let v: u32 = read_u32(buf, at)?;
        Ok((v, next))
    } else {
        let next: usize = step_past(buf, at, 2)?;
        let v: u16 = read_u16(buf, at)?;
        Ok((v as u32, next))
    }
}

fn read_signed(buf: &[u8], at: usize, large: bool) -> (r: Result<(i32, usize), AvifError>)
    requires
        at <= buf.len(),
    ensures
        outcome_at(r) == signed_at(buf@, at as int, large),
        r matches Ok((_, next)) ==> next <= buf.len(),
{
    if large {
        let next: usize = step_past(buf, at, 4)?;
        let v: u32 = read_u32(buf, at)?;
        Ok((v as i32, next))
    } else {
        let next: usize = step_past(buf, at, 2)?;
        let v: u16 = read_u16(buf, at)?;
        Ok((v as i16 as i32, next))
    }
}

/// Two signed fields at `at`, and the offset after them.
pub open spec fn point_at(s: Seq<u8>, at: int, large: bool) -> Result<((i32, i32), int), Fault> {
    match signed_at(s, at, large) {
        Err(f) => Err(f),
        Ok((x, at1)) => match signed_at(s, at1, large) {
            Err(f) => Err(f),
            Ok((y, at2)) => Ok(((x, y), at2)),
        },
    }
}

/// Two signed and two unsigned fields at `at`, and the offset after
/// them.
pub open spec fn frame_at(s: Seq<u8>, at: int, large: bool) -> Result<
    ((i32, i32, u32, u32), int),
    Fault,
> {
    match point_at(s, at, large) {
        Err(f) => Err(f),
        Ok(((x, y), at1)) => match unsigned_at(s, at1, large) {
            Err(f) => Err(f),
            Ok((w, at2)) => match unsigned_at(s, at2, large) {
                Err(f) => Err(f),
                Ok((h, at3)) => Ok(((x, y, w, h), at3)),
            },
        },
    }
}

/// `n` points from `at` on, and the offset after them.
pub open spec fn points_from(s: Seq<u8>, at: int, large: bool, n: nat) -> Result<
    (Seq<(i32, i32)>, int),
    Fault,
>
    decreases n,
{
    if n == 0 {
        Ok((Seq::empty(), at))
    } else {
        match point_at(s, at, large) {
            Err(f) => Err(f),
            Ok((p, next)) => match points_from(s, next, large, (n - 1) as nat) {
                Err(f) => Err(f),
                Ok((rest, end)) => Ok((seq![p] + rest, end)),
            },
        }
    }
}

fn read_point(buf: &[u8], at: usize, large: bool) -> (r: Result<((i32, i32), usize), AvifError>)
    requires
        at <= buf.len(),
    ensures
        outcome_at(r) == point_at(buf@, at as int, large),
        r matches Ok((_, next)) ==> next <= buf.len(),
{
    let (x, at1) = read_signed(buf, at, large)?;
    let (y, at2) = read_signed(buf, at1, large)?;
    Ok(((x, y), at2))
}

fn read_frame(buf: &[u8], at: usize, large: bool) -> (r: Result<
    ((i32, i32, u32, u32), usize),
    AvifError,
>)
    requires
        at <= buf.len(),
    ensures
        outcome_at(r) == frame_at(buf@, at as int, large),
        r matches Ok((_, next)) ==> next <= buf.len(),
{
    let (p, at1) = read_point(buf, at, large)?;
    let (w, at2) = read_unsigned(buf, at1, large)?;
    let (h, at3) = read_unsigned(buf, at2, large)?;
    Ok(((p.0, p.1, w, h), at3))
}

fn read_points(buf: &[u8], start: usize, large: bool, n: u32) -> (r: Result<
    (Vec<(i32, i32)>, usize),
    AvifError,
>)
    requires
        start <= buf.len(),
    ensures
        outcome_view_at(r) == points_from(buf@, start as int, large, n as nat),
        r matches Ok((_, next)) ==> next <= buf.len(),
{
    let mut out: Vec<(i32, i32)> = Vec::new();
    let mut at: usize = start;
    let mut left: u32 = n;
    let ghost all = points_from(buf@, start as int, large, n as nat);
    proof {
        if let Ok((rest, end)) = all {
            assert(out@ + rest =~= rest);
        }
    }
    while left > 0
        invariant
            at <= buf.len(),
            all == points_from(buf@, start as int, large, n as nat),
            match points_from(buf@, at as int, large, left as nat) {
                Err(f) => all == Err::<(Seq<(i32, i32)>, int), Fault>(f),
                Ok((rest, end)) => all == Ok::<(Seq<(i32, i32)>, int), Fault>((out@ + rest, end)),
            },
        decreases left,
    {
        let (p, next) = read_point(buf, at, large)?;
        let ghost before = out@;
        out.push(p);
        proof {
            if let Ok((rest, end)) = points_from(buf@, next as int, large, (left - 1) as nat) {
                assert(out@ + rest =~= before + (seq![p] + rest));
            }
        }
        at = next;
        left = left - 1;
    }
    proof {
        assert(out@ + Seq::<(i32, i32)>::empty() =~= out@);
    }
    Ok((out, at))
}

/// The place of a mask among the references, which only a region track
/// has.
pub open spec fn mask_index_at(s: Seq<u8>, at: int, large: bool, track: bool) -> Result<
    (Option<u32>, int),
    Fault,
> {
    if track {
        match unsigned_at(s, at, large) {
            Err(f) => Err(f),
            Ok((v, next)) => Ok((Some(v), next)),
        }
    } else {
        Ok((None, at))
    }
}

/// The number of coded bytes, which only a coded mask has.
pub open spec fn coding_at(s: Seq<u8>, at: int, method: u8) -> Result<(Option<u32>, int), Fault> {
    if method != 0 {
        match unsigned_at(s, at, true) {
            Err(f) => Err(f),
            Ok((v, next)) => Ok((Some(v), next)),
        }
    } else {
        Ok((None, at))
    }
}

/// The inline mask at `at`: its frame, its coding, and all the bytes
/// that are left, so that nothing follows it.
pub open spec fn inline_mask_at(s: Seq<u8>, at: int, large: bool) -> Result<
    (GeometryView, int),
    Fault,
> {
    match frame_at(s, at, large) {
        Err(f) => Err(f),
        Ok(((x, y, width, height), at1)) => match byte_at(s, at1) {
            Err(f) => Err(f),
            Ok((mask_coding_method, at2)) => match coding_at(s, at2, mask_coding_method) {
                Err(f) => Err(f),
                Ok((mask_coding_parameters, at3)) => Ok(
                    (
                        GeometryView::InlineMask {
                            x,
                            y,
                            width,
                            height,
                            mask_coding_method,
                            mask_coding_parameters,
                            data: tail(s, at3),
                        },
                        s.len() as int,
                    ),
                ),
            },
        },
    }
}

/// The polygon or line at `at`.
pub open spec fn outline_at(s: Seq<u8>, at: int, large: bool, closed: bool) -> Result<
    (GeometryView, int),
    Fault,
> {
    match unsigned_at(s, at, large) {
        Err(f) => Err(f),
        Ok((n, at1)) => match points_from(s, at1, large, n as nat) {
            Err(f) => Err(f),
            Ok((points, end)) => Ok(
                (
                    if closed {
                        GeometryView::Polygon { points }
                    } else {
                        GeometryView::Polyline { points }
                    },
                    end,
                ),
            ),
        },
    }
}

/// The referenced mask at `at`.
pub open spec fn referenced_mask_at(s: Seq<u8>, at: int, large: bool, track: bool) -> Result<
    (GeometryView, int),
    Fault,
> {
    match frame_at(s, at, large) {
        Err(f) => Err(f),
        Ok(((x, y, width, height), at1)) => match mask_index_at(s, at1, large, track) {
            Err(f) => Err(f),
            Ok((mask_ref_idx, end)) => Ok(
                (GeometryView::ReferencedMask { x, y, width, height, mask_ref_idx }, end),
            ),
        },
    }
}

/// One geometry at `at`, and the offset after it. An inline mask takes
/// all that is left.
pub open spec fn geometry_at(s: Seq<u8>, at: int, large: bool, track: bool) -> Result<
    (GeometryView, int),
    Fault,
> {
    match byte_at(s, at) {
        Err(f) => Err(f),
        Ok((code, at1)) => if code == 0 {
            match point_at(s, at1, large) {
                Err(f) => Err(f),
                Ok(((x, y), end)) => Ok((GeometryView::Point { x, y }, end)),
            }
        } else if code == 1 {
            match frame_at(s, at1, large) {
                Err(f) => Err(f),
                Ok(((x, y, width, height), end)) => Ok(
                    (GeometryView::Rectangle { x, y, width, height }, end),
                ),
            }
        } else if code == 2 {
            match frame_at(s, at1, large) {
                Err(f) => Err(f),
                Ok(((x, y, radius_x, radius_y), end)) => Ok(
                    (GeometryView::Ellipse { x, y, radius_x, radius_y }, end),
                ),
            }
        } else if code == 3 || code == 6 {
            outline_at(s, at1, large, code == 3)
        } else if code == 4 {
            referenced_mask_at(s, at1, large, track)
        } else if code == 5 {
            inline_mask_at(s, at1, large)
        } else {
            Err(
                Fault::Unsupported(
                    "avif region geometry: reserved geometry_type "@ + dec(code as nat),
                ),
            )
        },
    }
}

fn parse_inline_mask(buf: &[u8], at: usize, large: bool) -> (r: Result<
    (RegionGeometry, usize),
    AvifError,
>)
    requires
        at <= buf.len(),
    ensures
        outcome_view_at(r) == inline_mask_at(buf@, at as int, large),
        r matches Ok((_, next)) ==> next <= buf.len(),
{
    let (q, at1) = read_frame(buf, at, large)?;
    let (mask_coding_method, at2) = read_byte(buf, at1)?;
    let (mask_coding_parameters, at3) = if mask_coding_method != 0 {
        let (v, next) = read_unsigned(buf, at2, true)?;
        (Some(v), next)
    } else {
        (None, at2)
    };
    let data = slice_to_vec(slice_subrange(buf, at3, buf.len()));
    Ok(
        (
            RegionGeometry::InlineMask {
                x: q.0,
                y: q.1,
                width: q.2,
                height: q.3,
                mask_coding_method,
                mask_coding_parameters,
                data,
            },
            buf.len(),
        ),
    )
}

/// Parse one geometry, and the offset after it, which for an inline mask
/// is the end of the buffer. `large` says that the
/// fields are 32 bits wide, `is_region_track` that a referenced mask is
/// found through an index.
pub fn parse_geometry(buf: &[u8], at: usize, large: bool, is_region_track: bool) -> (r: Result<
    (RegionGeometry, usize),
    AvifError,
>)
    requires
        at <= buf.len(),
    ensures
        outcome_view_at(r) == geometry_at(buf@, at as int, large, is_region_track),
        r matches Ok((_, next)) ==> next <= buf.len(),
{
    let (code, at1) = read_byte(buf, at)?;
    if code == 0 {
        let (p, end) = read_point(buf, at1, large)?;
        Ok((RegionGeometry::Point { x: p.0, y: p.1 }, end))
    } else if code == 1 {
        let (q, end) = read_frame(buf, at1, large)?;
        Ok((RegionGeometry::Rectangle { x: q.0, y: q.1, width: q.2, height: q.3 }, end))
    } else if code == 2 {
        let (q, end) = read_frame(buf, at1, large)?;
        Ok((RegionGeometry::Ellipse { x: q.0, y: q.1, radius_x: q.2, radius_y: q.3 }, end))
    } else if code == 3 || code == 6 {
        let (n, at2) = read_unsigned(buf, at1, large)?;
        let (points, end) = read_points(buf, at2, large, n)?;
        if code == 3 {
            Ok((RegionGeometry::Polygon { points }, end))
        } else {
            Ok((RegionGeometry::Polyline { points }, end))
        }
    } else if code == 4 {
        let (q, at2) = read_frame(buf, at1, large)?;
        let (mask_ref_idx, end) = if is_region_track {
            let (v, next) = read_unsigned(buf, at2, large)?;
            (Some(v), next)
        } else {
            (None, at2)
        };
        Ok(
            (
                RegionGeometry::ReferencedMask {
                    x: q.0,
                    y: q.1,
                    width: q.2,
                    height: q.3,
                    mask_ref_idx,
                },
                end,
            ),
        )
    } else if code == 5 {
        parse_inline_mask(buf, at1, large)
    } else {
        Err(unsupported_end("avif region geometry: reserved geometry_type ", code as u64))
    }
}

/// `n` geometries from `at` on.
pub open spec fn geometries_from(s: Seq<u8>, at: int, large: bool, n: nat) -> Result<
    Seq<GeometryView>,
    Fault,
>
    decreases n,
{
    if n == 0 {
        Ok(Seq::empty())
    } else {
        match geometry_at(s, at, large, false) {
            Err(f) => Err(f),
            Ok((g, next)) => after(seq![g], geometries_from(s, next, large, (n - 1) as nat)),
        }
    }
}

/// The region item in `s`.
pub open spec fn region_item_of(s: Seq<u8>) -> Result<RegionItemView, Fault> {
    match byte_at(s, 0) {
        Err(f) => Err(f),
        Ok((version, at0)) => if version != 0 {
            Err(
                Fault::Unsupported(
                    "avif region item: version "@ + dec(version as nat) + " != 0"@,
                ),
            )
        } else {
            match byte_at(s, at0) {
                Err(f) => Err(f),
                Ok((flags, at1)) => match unsigned_at(s, at1, flags % 2 == 1) {
                    Err(f) => Err(f),
                    Ok((reference_width, at2)) => match unsigned_at(s, at2, flags % 2 == 1) {
                        Err(f) => Err(f),
                        Ok((reference_height, at3)) => match byte_at(s, at3) {
                            Err(f) => Err(f),
                            Ok((count, at4)) => match geometries_from(
                                s,
                                at4,
                                flags % 2 == 1,
                                count as nat,
                            ) {
                                Err(f) => Err(f),
                                Ok(regions) => Ok(
                                    RegionItemView {
                                        flags,
                                        reference_width,
                                        reference_height,
                                        regions,
                                    },
                                ),
                            },
                        },
                    },
                },
            }
        },
    }
}

impl RegionItem {
    /// Flag bit that says the fields are 32 bits wide.
    pub const FLAG_LARGE_FIELD_SIZE: u8 = 0x01;

    /// Whether the fields are 32 bits wide: bit 0 of the flags.
    pub fn is_large_field_size(&self) -> (r: bool)
        ensures
            r == (self.flags % 2 == 1),
    {
        self.flags % 2 == 1
    }

    /// Number of regions.
    pub fn region_count(&self) -> (r: usize)
        ensures
            r == self@.regions.len(),
    {
        self.regions.len()
    }

    /// Parse the data of a region item.
    pub fn parse(payload: &[u8]) -> (r: Result<RegionItem, AvifError>)
        ensures
            outcome_view(r) == region_item_of(payload@),
    {
        let (version, at0) = read_byte(payload, 0)?;
        if version != 0 {
            return Err(unsupported_n("avif region item: version ", version as u64, " != 0"));
        }
        let (flags, at1) = read_byte(payload, at0)?;
        let large: bool = flags % 2 == 1;
        let (reference_width, at2) = read_unsigned(payload, at1, large)?;
        let (reference_height, at3) = read_unsigned(payload, at2, large)?;
        let (count, start) = read_byte(payload, at3)?;
        let mut regions: Vec<RegionGeometry> = Vec::new();
        let mut at: usize = start;
        let mut left: u8 = count;
        let ghost all = geometries_from(payload@, start as int, large, count as nat);
        proof {
            lemma_after_none(views(regions@), all);
        }
        while left > 0
            invariant
                at <= payload.len(),
                match all {
                    Err(f) => region_item_of(payload@) == Err::<RegionItemView, Fault>(f),
                    Ok(_) => true,
                },
                after(views(regions@), geometries_from(payload@, at as int, large, left as nat))
                    == all,
            decreases left,
        {
            let (g, next) = parse_geometry(payload, at, large, false)?;
            proof {
                lemma_after_push(
                    regions@,
                    g,
                    geometries_from(payload@, next as int, large, (left - 1) as nat),
                );
            }
            regions.push(g);
            at = next;
            left = left - 1;
        }
        proof {
            lemma_after_all(views(regions@));
        }
        Ok(RegionItem { flags, reference_width, reference_height, regions })
    }
}

/// What a file says of an identity derived region item.
#[derive(Clone, Copy, Debug, PartialEq, Eq, Structural)]
pub struct DerivedRegionItem {
    /// The derived item.
    pub derived_item_id: u32,
    /// Its input, when there is exactly one.
    pub source_region_item_id: Option<u32>,
    /// Number of inputs.
    pub drgn_reference_count: usize,
    /// Number of reference entries that start from the item.
    pub drgn_iref_count: usize,
    /// Whether the item has a body, which it may not have.
    pub has_item_body: bool,
}

impl DerivedRegionItem {
    /// Whether every rule is kept.
    pub open spec fn compliant(self) -> bool {
        self.drgn_reference_count == 1 && self.drgn_iref_count == 1 && !self.has_item_body
    }

    /// The rules that are broken.
    pub open spec fn broken(self) -> Seq<Seq<char>> {
        (if self.drgn_reference_count != 1 {
            seq!["drgn-reference-count-eq-1"@]
        } else {
            Seq::empty()
        }) + (if self.drgn_iref_count != 1 {
            seq!["drgn-iref-count-eq-1"@]
        } else {
            Seq::empty()
        }) + (if self.has_item_body {
            seq!["no-item-body"@]
        } else {
            Seq::empty()
        })
    }

    /// Whether every rule is kept: one input, one reference entry, no
    /// body.
    pub fn is_compliant(&self) -> (r: bool)
        ensures
            r == self.compliant(),
    {
        self.drgn_reference_count == 1 && self.drgn_iref_count == 1 && !self.has_item_body
    }

    /// The rules that are broken.
    pub fn missing(&self) -> (r: Vec<&'static str>)
        ensures
            str_views(r@) == self.broken(),
    {
        let mut out: Vec<&'static str> = Vec::new();
        if self.drgn_reference_count != 1 {
            out.push("drgn-reference-count-eq-1");
        }
        if self.drgn_iref_count != 1 {
            out.push("drgn-iref-count-eq-1");
        }
        if self.has_item_body {
            out.push("no-item-body");
        }
        proof {
            assert(str_views(out@) =~= self.broken());
        }
        out
    }
}

/// A derived region item is compliant exactly when no rule is broken.
pub proof fn law_region_compliant_iff_nothing_missing(d: DerivedRegionItem)
    ensures
        d.compliant() <==> d.broken().len() == 0,
{
}

/// What the file says of the derived region item `id`.
pub open spec fn derived_region(m: MetaView, id: u32) -> DerivedRegionItem {
    let inputs = m.targets_of(REF_TYPE_DRGN, id);
    DerivedRegionItem {
        derived_item_id: id,
        source_region_item_id: if inputs.len() == 1 {
            Some(inputs[0])
        } else {
            None
        },
        drgn_reference_count: inputs.len() as usize,
        drgn_iref_count: references_of(m.irefs, REF_TYPE_DRGN, id, m.irefs.len()) as usize,
        has_item_body: item_has_body(m, id),
    }
}

/// The derived region items among the first `n` items: the identity
/// derivations with a `drgn` reference.
pub open spec fn derived_regions(m: MetaView, n: nat) -> Seq<DerivedRegionItem>
    decreases n,
{
    if n == 0 {
        Seq::empty()
    } else {
        let before = derived_regions(m, (n - 1) as nat);
        let item = m.items[n - 1];
        if item.item_type == ITEM_TYPE_IDEN && references_of(
            m.irefs,
            REF_TYPE_DRGN,
            item.id,
            m.irefs.len(),
        ) > 0 {
            before.push(derived_region(m, item.id))
        } else {
            before
        }
    }
}

/// Every identity derived region item, in the order of the items.
pub fn resolve_derived_region_items(meta: &Meta) -> (r: Vec<DerivedRegionItem>)
    ensures
        r@ == derived_regions(meta@, meta@.items.len()),
{
    let mut out: Vec<DerivedRegionItem> = Vec::new();
    let mut i: usize = 0;
    while i < meta.items.len()
        invariant
            i <= meta.items@.len(),
            out@ == derived_regions(meta@, i as nat),
        decreases meta.items@.len() - i,
    {
        proof {
            assert(meta@.items[i as int] == meta.items@[i as int]@);
        }
        let id: u32 = meta.items[i].id;
        if same_type(&meta.items[i].item_type, &ITEM_TYPE_IDEN) {
            let drgn_iref_count: usize = count_references(meta, &REF_TYPE_DRGN, id);
            if drgn_iref_count > 0 {
                let inputs = meta.iref_targets_of(&REF_TYPE_DRGN, id);
                out.push(
                    DerivedRegionItem {
                        derived_item_id: id,
                        source_region_item_id: if inputs.len() == 1 {
                            Some(inputs[0])
                        } else {
                            None
                        },
                        drgn_reference_count: inputs.len(),
                        drgn_iref_count,
                        has_item_body: has_body(meta, id),
                    },
                );
            }
        }
        i = i + 1;
    }
    out
}

} // verus!
