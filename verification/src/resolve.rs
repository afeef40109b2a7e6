//! The derived images of a file, with their sizes and places worked out.

use crate::box_parser::{be16, be32, same_type};
use crate::compose::{ImageOverlay, OverlayEntry, OverlayView};
use crate::container::DIMG;
use crate::derived::{
    chain_of, output_dims_from_reconstructed, shown_size, transform_chain, DimTransform,
    MAX_DERIVATION_DEPTH,
};
use crate::error::{lemma_views_push, outcome_view, views, AvifError, Fault};
use crate::grid::{grid_parsed, ImageGrid};
use crate::meta::{Meta, MetaView};
use crate::meta_parse::{ITEM_TYPE_IDEN, ITEM_TYPE_IOVL, ITEM_TYPE_TMAP};
use crate::parser::{item_bytes_owned_full, payload_bytes, ITEM_TYPE_GRID};
use crate::text::{dec, push_dec};
use oxideav_heif::derived::OverlayDescriptor;
use oxideav_heif::HeifError;
use vstd::prelude::*;

verus! {

// ---------------------------------------------------------------------
// Descriptors

/// Whether the fields of an overlay take 32 bits.
pub open spec fn overlay_is_wide(s: Seq<u8>) -> bool {
    s[1] % 2 == 1
}

/// The canvas size in the body of an overlay item.
pub open spec fn overlay_size(s: Seq<u8>) -> (u32, u32) {
    if overlay_is_wide(s) {
        (be32(s, 10), be32(s, 14))
    } else {
        (be16(s, 10) as u32, be16(s, 12) as u32)
    }
}

/// Where input `i` goes.
pub open spec fn overlay_offset(s: Seq<u8>, i: int) -> (i32, i32) {
    if overlay_is_wide(s) {
        (be32(s, 18 + 8 * i) as i32, be32(s, 22 + 8 * i) as i32)
    } else {
        ((be16(s, 14 + 4 * i) as i16) as i32, (be16(s, 16 + 4 * i) as i16) as i32)
    }
}

/// Whether the body of an overlay item of version 0 with `n` inputs is
/// all there and its canvas is neither empty nor of more than 2^30
/// pixels.
pub open spec fn overlay_is_valid(s: Seq<u8>, n: nat) -> bool {
    &&& s.len() >= 14
    &&& s.len() >= if overlay_is_wide(s) {
        18 + 8 * n
    } else {
        14 + 4 * n
    }
    &&& overlay_size(s).0 > 0
    &&& overlay_size(s).1 > 0
    &&& overlay_size(s).0 * overlay_size(s).1 <= 0x4000_0000
    &&& n <= 0x1_0000
}

/// The offsets of `n` inputs.
pub open spec fn overlay_offsets(s: Seq<u8>, n: nat) -> Seq<(i32, i32)> {
    Seq::new(n, |i: int| overlay_offset(s, i))
}

/// Why the container refuses an overlay descriptor of version 0.
pub uninterp spec fn overlay_refusal(payload: Seq<u8>, count: nat) -> Seq<char>;

/// The overlay in the body of an overlay item with `n` inputs.
pub open spec fn overlay_parsed(s: Seq<u8>, n: nat) -> Result<OverlayView, Fault> {
    if s.len() == 0 {
        Err(Fault::Invalid("avif overlay: empty payload"@))
    } else if s[0] != 0 {
        Err(Fault::Unsupported("avif overlay: version "@ + dec(s[0] as nat)))
    } else if !overlay_is_valid(s, n) {
        Err(Fault::Invalid(overlay_refusal(s, n)))
    } else {
        Ok(
            OverlayView {
                canvas_fill_value: [be16(s, 2), be16(s, 4), be16(s, 6), be16(s, 8)],
                output_width: overlay_size(s).0,
                output_height: overlay_size(s).1,
                entries: Seq::new(
                    n,
                    |i: int|
                        OverlayEntry {
                            horizontal_offset: overlay_offset(s, i).0,
                            vertical_offset: overlay_offset(s, i).1,
                        },
                ),
            },
        )
    }
}

/// The fields of an overlay descriptor.
pub(crate) struct OverlayFields {
    /// Red, green, blue and alpha of the canvas.
    pub fill: [u16; 4],
    /// Width and height of the canvas.
    pub size: (u32, u32),
    /// Where the inputs go.
    pub offsets: Vec<(i32, i32)>,
}

/// `oxideav_heif::derived::OverlayDescriptor::parse`, on a payload of
/// version 0: the canvas and where the inputs go. A payload that ends
/// early, an empty canvas, one of more than 2^30 pixels and more than
/// 65536 inputs are refused.
#[verifier::external_body]
fn heif_overlay_descriptor(payload: &[u8], count: usize) -> (r: Result<OverlayFields, String>)
    requires
        payload@.len() > 0,
        payload@[0] == 0,
    ensures
        r is Ok <==> overlay_is_valid(payload@, count as nat),
        r is Ok ==> r->Ok_0.fill == [
            be16(payload@, 2),
            be16(payload@, 4),
            be16(payload@, 6),
            be16(payload@, 8),
        ],
        r is Ok ==> r->Ok_0.size == overlay_size(payload@),
        r is Ok ==> r->Ok_0.offsets@ == overlay_offsets(payload@, count as nat),
        r is Err ==> r->Err_0@ == overlay_refusal(payload@, count as nat),
{
    match OverlayDescriptor::parse(payload, count) {
        Ok(d) => Ok(
            OverlayFields {
                fill: d.canvas_fill,
                size: (d.output_width, d.output_height),
                offsets: d.offsets,
            },
        ),
        Err(HeifError::InvalidData(s)) | Err(HeifError::LimitExceeded(s)) => Err(s),
        Err(e) => Err(e.to_string()),
    }
}

impl ImageOverlay {
    /// Parse the body of an overlay item with `count` inputs.
    pub fn parse(payload: &[u8], count: usize) -> (r: Result<ImageOverlay, AvifError>)
        ensures
            outcome_view(r) == overlay_parsed(payload@, count as nat),
    {
        if payload.len() == 0 {
            return Err(AvifError::invalid("avif overlay: empty payload"));
        }
        if payload[0] != 0 {
            let mut s = "avif overlay: version ".to_string();
            push_dec(&mut s, payload[0] as u64);
            return Err(AvifError::Unsupported(s));
        }
        let d = match heif_overlay_descriptor(payload, count) {
            Ok(d) => d,
            Err(text) => {
                return Err(AvifError::InvalidData(text));
            },
        };
        let mut entries: Vec<OverlayEntry> = Vec::new();
        let mut i: usize = 0;
        while i < d.offsets.len()
            invariant
                i <= d.offsets@.len(),
                entries@ =~= Seq::new(
                    i as nat,
                    |j: int|
                        OverlayEntry {
                            horizontal_offset: d.offsets@[j].0,
                            vertical_offset: d.offsets@[j].1,
                        },
                ),
            decreases d.offsets@.len() - i,
        {
            entries.push(
                OverlayEntry {
                    horizontal_offset: d.offsets[i].0,
                    vertical_offset: d.offsets[i].1,
                },
            );
            i = i + 1;
        }
        let r = ImageOverlay {
            canvas_fill_value: d.fill,
            output_width: d.size.0,
            output_height: d.size.1,
            entries,
        };
        proof {
            assert(r@ =~= overlay_parsed(payload@, count as nat)->Ok_0);
        }
        Ok(r)
    }
}

// ---------------------------------------------------------------------
// Sizes

/// The grid of a grid item.
pub open spec fn item_grid(m: MetaView, file: Seq<u8>, id: u32) -> Option<ImageGrid> {
    match payload_bytes(file, m, id) {
        Ok(s) => match grid_parsed(s) {
            Ok(g) => Some(g),
            Err(_) => None,
        },
        Err(_) => None,
    }
}

/// The overlay of an overlay item.
pub open spec fn item_overlay(m: MetaView, file: Seq<u8>, id: u32) -> Option<OverlayView> {
    match payload_bytes(file, m, id) {
        Ok(s) => match overlay_parsed(s, m.targets(DIMG, id).len()) {
            Ok(o) => Some(o),
            Err(_) => None,
        },
        Err(_) => None,
    }
}

/// The size of the image that an item stands for, before its own
/// transformations: what a grid or an overlay says of its canvas, what
/// the first input of an identity derivation or a tone map shows, and
/// the extents of any other item.
pub open spec fn rebuilt(m: MetaView, file: Seq<u8>, id: u32, depth: nat) -> Option<(u32, u32)>
    decreases MAX_DERIVATION_DEPTH + 1 - depth,
{
    if depth > MAX_DERIVATION_DEPTH {
        None
    } else {
        match m.item(id) {
            None => None,
            Some(info) => if info.item_type == ITEM_TYPE_GRID {
                match item_grid(m, file, id) {
                    Some(g) => Some((g.output_width, g.output_height)),
                    None => None,
                }
            } else if info.item_type == ITEM_TYPE_IOVL {
                match item_overlay(m, file, id) {
                    Some(o) => Some((o.output_width, o.output_height)),
                    None => None,
                }
            } else if info.item_type == ITEM_TYPE_IDEN || info.item_type == ITEM_TYPE_TMAP {
                let inputs = m.targets(DIMG, id);
                if inputs.len() == 0 {
                    None
                } else {
                    match rebuilt(m, file, inputs[0], depth + 1) {
                        Some((w, h)) => Some(shown_size(m, inputs[0], w, h)),
                        None => None,
                    }
                }
            } else {
                match m.ispe(id) {
                    Some(e) => Some((e.width, e.height)),
                    None => None,
                }
            },
        }
    }
}

/// The size of an item as it is shown.
pub open spec fn output_size(m: MetaView, file: Seq<u8>, id: u32) -> Option<(u32, u32)> {
    match rebuilt(m, file, id, 0) {
        Some((w, h)) => Some(shown_size(m, id, w, h)),
        None => None,
    }
}

fn grid_of_item(meta: &Meta, file: &[u8], id: u32) -> (r: Option<ImageGrid>)
    ensures
        r == item_grid(meta@, file@, id),
{
    match item_bytes_owned_full(file, meta, id) {
        Ok(s) => match ImageGrid::parse(s.as_slice()) {
            Ok(g) => Some(g),
            Err(_) => None,
        },
        Err(_) => None,
    }
}

fn overlay_of_item(meta: &Meta, file: &[u8], id: u32, count: usize) -> (r: Option<ImageOverlay>)
    requires
        count == meta@.targets(DIMG, id).len(),
    ensures
        match item_overlay(meta@, file@, id) {
            Some(v) => r matches Some(o) && o@ == v,
            None => r is None,
        },
{
    match item_bytes_owned_full(file, meta, id) {
        Ok(s) => match ImageOverlay::parse(s.as_slice(), count) {
            Ok(o) => Some(o),
            Err(_) => None,
        },
        Err(_) => None,
    }
}

fn rebuild(meta: &Meta, file: &[u8], id: u32, depth: u32) -> (r: Option<(u32, u32)>)
    ensures
        r == rebuilt(meta@, file@, id, depth as nat),
    decreases MAX_DERIVATION_DEPTH + 1 - depth,
{
    if depth > MAX_DERIVATION_DEPTH {
        return None;
    }
    let info = match meta.item_by_id(id) {
        None => {
            return None;
        },
        Some(info) => info,
    };
    if same_type(&info.item_type, &ITEM_TYPE_GRID) {
        match grid_of_item(meta, file, id) {
            Some(g) => Some((g.output_width, g.output_height)),
            None => None,
        }
    } else if same_type(&info.item_type, &ITEM_TYPE_IOVL) {
        let count: usize = meta.iref_targets(&DIMG, id).len();
        match overlay_of_item(meta, file, id, count) {
            Some(o) => Some((o.output_width, o.output_height)),
            None => None,
        }
    } else if same_type(&info.item_type, &ITEM_TYPE_IDEN) || same_type(
        &info.item_type,
        &ITEM_TYPE_TMAP,
    ) {
        let inputs = meta.iref_targets(&DIMG, id);
        if inputs.len() == 0 {
            None
        } else {
            match rebuild(meta, file, inputs[0], depth + 1) {
                Some((w, h)) => Some(output_dims_from_reconstructed(meta, inputs[0], w, h)),
                None => None,
            }
        }
    } else {
        match meta.ispe(id) {
            Some(e) => Some((e.width, e.height)),
            None => None,
        }
    }
}

/// The size of the image that an item stands for, before its own
/// transformations.
pub fn reconstructed_dims(meta: &Meta, item_id: u32, file: &[u8]) -> (r: Option<(u32, u32)>)
    ensures
        r == rebuilt(meta@, file@, item_id, 0),
{
    rebuild(meta, file, item_id, 0)
}

/// The size of an item as it is shown.
pub fn output_dims(meta: &Meta, item_id: u32, file: &[u8]) -> (r: Option<(u32, u32)>)
    ensures
        r == output_size(meta@, file@, item_id),
{
    match rebuild(meta, file, item_id, 0) {
        Some((w, h)) => Some(output_dims_from_reconstructed(meta, item_id, w, h)),
        None => None,
    }
}

/// The sizes of items as they are shown.
pub open spec fn output_sizes(m: MetaView, file: Seq<u8>, ids: Seq<u32>) -> Seq<
    Option<(u32, u32)>,
> {
    Seq::new(ids.len(), |i: int| output_size(m, file, ids[i]))
}

fn list_output_dims(meta: &Meta, file: &[u8], ids: &Vec<u32>) -> (r: Vec<Option<(u32, u32)>>)
    ensures
        r@ == output_sizes(meta@, file@, ids@),
{
    let mut out: Vec<Option<(u32, u32)>> = Vec::new();
    let mut i: usize = 0;
    while i < ids.len()
        invariant
            i <= ids@.len(),
            out@ =~= output_sizes(meta@, file@, ids@).take(i as int),
        decreases ids@.len() - i,
    {
        out.push(output_dims(meta, ids[i], file));
        i = i + 1;
    }
    proof {
        assert(output_sizes(meta@, file@, ids@).take(i as int) =~= output_sizes(
            meta@,
            file@,
            ids@,
        ));
    }
    out
}

// ---------------------------------------------------------------------
// Overlays

/// Where one input of an overlay goes on the canvas.
#[derive(Clone, Copy, Debug, PartialEq, Eq)]
pub struct OverlayPlacement {
    /// The input.
    pub item_id: u32,
    /// Its left edge.
    pub offset_x: i32,
    /// Its top edge.
    pub offset_y: i32,
    /// Its size, where that is known.
    pub dims: Option<(u32, u32)>,
    /// The part of the canvas that it covers, as left edge, top edge,
    /// width and height, where it covers any.
    pub visible: Option<(u32, u32, u32, u32)>,
}

/// The part of an axis of `full` pixels that `len` pixels from `at` on
/// cover, as its start and its length.
pub open spec fn covered(at: int, len: int, full: int) -> (int, int) {
    let from = if at < 0 {
        0
    } else {
        at
    };
    let to = if at + len > full {
        full
    } else {
        at + len
    };
    (from, to - from)
}

/// The part of a canvas that an input covers.
pub open spec fn covers(x: i32, y: i32, size: (u32, u32), canvas: (u32, u32)) -> Option<
    (u32, u32, u32, u32),
> {
    let a = covered(x as int, size.0 as int, canvas.0 as int);
    let b = covered(y as int, size.1 as int, canvas.1 as int);
    if a.1 > 0 && b.1 > 0 {
        Some((a.0 as u32, b.0 as u32, a.1 as u32, b.1 as u32))
    } else {
        None
    }
}

fn cover(x: i32, y: i32, size: (u32, u32), canvas: (u32, u32)) -> (r: Option<(u32, u32, u32, u32)>)
    ensures
        r == covers(x, y, size, canvas),
{
    let x0: i64 = if x < 0 {
        0
    } else {
        x as i64
    };
    let y0: i64 = if y < 0 {
        0
    } else {
        y as i64
    };
    let mut x1: i64 = x as i64 + size.0 as i64;
    let mut y1: i64 = y as i64 + size.1 as i64;
    if x1 > canvas.0 as i64 {
        x1 = canvas.0 as i64;
    }
    if y1 > canvas.1 as i64 {
        y1 = canvas.1 as i64;
    }
    if x1 > x0 && y1 > y0 {
        Some((x0 as u32, y0 as u32, (x1 - x0) as u32, (y1 - y0) as u32))
    } else {
        None
    }
}

/// Where an input goes.
pub open spec fn placement(
    m: MetaView,
    file: Seq<u8>,
    o: OverlayView,
    id: u32,
    e: OverlayEntry,
) -> OverlayPlacement {
    let dims = output_size(m, file, id);
    OverlayPlacement {
        item_id: id,
        offset_x: e.horizontal_offset,
        offset_y: e.vertical_offset,
        dims,
        visible: match dims {
            Some(size) => covers(
                e.horizontal_offset,
                e.vertical_offset,
                size,
                (o.output_width, o.output_height),
            ),
            None => None,
        },
    }
}

/// An overlay and where its inputs go.
#[derive(Clone, Debug)]
pub struct OverlayResolution {
    /// The overlay item.
    pub iovl_item_id: u32,
    /// Its descriptor.
    pub overlay: ImageOverlay,
    /// Where its inputs go, in order.
    pub placements: Vec<OverlayPlacement>,
}

/// An [`OverlayResolution`] as contracts speak of it.
#[verifier::ext_equal]
pub struct OverlayResolutionView {
    /// The overlay item.
    pub iovl_item_id: u32,
    /// Its descriptor.
    pub overlay: OverlayView,
    /// Where its inputs go, in order.
    pub placements: Seq<OverlayPlacement>,
}

impl View for OverlayResolution {
    type V = OverlayResolutionView;

    open spec fn view(&self) -> OverlayResolutionView {
        OverlayResolutionView {
            iovl_item_id: self.iovl_item_id,
            overlay: self.overlay@,
            placements: self.placements@,
        }
    }
}

/// An overlay item and where its inputs go.
pub open spec fn overlay_resolution(m: MetaView, file: Seq<u8>, id: u32, o: OverlayView) ->
    OverlayResolutionView {
    let inputs = m.targets(DIMG, id);
    OverlayResolutionView {
        iovl_item_id: id,
        overlay: o,
        placements: Seq::new(
            inputs.len(),
            |i: int| placement(m, file, o, inputs[i], o.entries[i]),
        ),
    }
}

/// The overlays among the first `n` items that can be read.
pub open spec fn overlays_of(m: MetaView, file: Seq<u8>, ids: Seq<u32>, n: nat) -> Seq<
    OverlayResolutionView,
>
    decreases n,
{
    if n == 0 {
        Seq::empty()
    } else {
        let before = overlays_of(m, file, ids, (n - 1) as nat);
        match item_overlay(m, file, ids[n - 1]) {
            Some(o) => before.push(overlay_resolution(m, file, ids[n - 1], o)),
            None => before,
        }
    }
}

/// The overlays of a file that can be read, in order.
pub open spec fn overlay_resolutions(m: MetaView, file: Seq<u8>) -> Seq<OverlayResolutionView> {
    overlays_of(m, file, m.ids_of(ITEM_TYPE_IOVL), m.ids_of(ITEM_TYPE_IOVL).len())
}

fn place_inputs(meta: &Meta, file: &[u8], o: &ImageOverlay, inputs: &Vec<u32>) -> (r: Vec<
    OverlayPlacement,
>)
    requires
        o@.entries.len() == inputs@.len(),
    ensures
        r@ == Seq::new(
            inputs@.len(),
            |i: int| placement(meta@, file@, o@, inputs@[i], o@.entries[i]),
        ),
{
    let mut out: Vec<OverlayPlacement> = Vec::new();
    let mut i: usize = 0;
    while i < inputs.len()
        invariant
            i <= inputs@.len(),
            o@.entries.len() == inputs@.len(),
            out@ =~= Seq::new(
                i as nat,
                |j: int| placement(meta@, file@, o@, inputs@[j], o@.entries[j]),
            ),
        decreases inputs@.len() - i,
    {
        let e = o.entries[i];
        let dims = output_dims(meta, inputs[i], file);
        let visible = match dims {
            Some(size) => cover(
                e.horizontal_offset,
                e.vertical_offset,
                size,
                (o.output_width, o.output_height),
            ),
            None => None,
        };
        out.push(
            OverlayPlacement {
                item_id: inputs[i],
                offset_x: e.horizontal_offset,
                offset_y: e.vertical_offset,
                dims,
                visible,
            },
        );
        i = i + 1;
    }
    out
}

/// Work out the overlays of a file. One that cannot be read is left out.
pub fn resolve_overlays(meta: &Meta, file: &[u8]) -> (r: Vec<OverlayResolution>)
    ensures
        views(r@) == overlay_resolutions(meta@, file@),
{
    let ids = meta.item_ids_of_type(&ITEM_TYPE_IOVL);
    let mut out: Vec<OverlayResolution> = Vec::new();
    proof {
        assert(views(out@) =~= Seq::empty());
    }
    let mut i: usize = 0;
    while i < ids.len()
        invariant
            i <= ids@.len(),
            views(out@) == overlays_of(meta@, file@, ids@, i as nat),
        decreases ids@.len() - i,
    {
        let inputs = meta.iref_targets(&DIMG, ids[i]);
        match overlay_of_item(meta, file, ids[i], inputs.len()) {
            Some(overlay) => {
                let placements = place_inputs(meta, file, &overlay, &inputs);
                let one = OverlayResolution { iovl_item_id: ids[i], overlay, placements };
                proof {
                    assert(one@ =~= overlay_resolution(
                        meta@,
                        file@,
                        ids@[i as int],
                        one.overlay@,
                    ));
                    lemma_views_push(out@, one);
                }
                out.push(one);
            },
            None => {},
        }
        i = i + 1;
    }
    out
}

// ---------------------------------------------------------------------
// Identity derivations

/// An identity derivation: the image of another item, transformed.
#[derive(Clone, Debug)]
pub struct IdenResolution {
    /// The item.
    pub iden_item_id: u32,
    /// The item it derives from.
    pub source_item_id: u32,
    /// The size of that item as it is shown, where it is known.
    pub source_dims: Option<(u32, u32)>,
    /// What the transformations of the item do to its size, in order.
    pub transforms: Vec<DimTransform>,
    /// The size of the item as it is shown, where it is known.
    pub output_dims: Option<(u32, u32)>,
}

/// An [`IdenResolution`] as contracts speak of it.
#[verifier::ext_equal]
pub struct IdenResolutionView {
    /// The item.
    pub iden_item_id: u32,
    /// The item it derives from.
    pub source_item_id: u32,
    /// The size of that item as it is shown, where it is known.
    pub source_dims: Option<(u32, u32)>,
    /// What the transformations of the item do to its size, in order.
    pub transforms: Seq<DimTransform>,
    /// The size of the item as it is shown, where it is known.
    pub output_dims: Option<(u32, u32)>,
}

impl View for IdenResolution {
    type V = IdenResolutionView;

    open spec fn view(&self) -> IdenResolutionView {
        IdenResolutionView {
            iden_item_id: self.iden_item_id,
            source_item_id: self.source_item_id,
            source_dims: self.source_dims,
            transforms: self.transforms@,
            output_dims: self.output_dims,
        }
    }
}

/// An identity derivation of this source.
pub open spec fn iden_resolution(m: MetaView, file: Seq<u8>, id: u32, source: u32) ->
    IdenResolutionView {
    IdenResolutionView {
        iden_item_id: id,
        source_item_id: source,
        source_dims: output_size(m, file, source),
        transforms: chain_of(m, id),
        output_dims: output_size(m, file, id),
    }
}

/// The identity derivations among the first `n` items that have an
/// input.
pub open spec fn idens_of(m: MetaView, file: Seq<u8>, ids: Seq<u32>, n: nat) -> Seq<
    IdenResolutionView,
>
    decreases n,
{
    if n == 0 {
        Seq::empty()
    } else {
        let before = idens_of(m, file, ids, (n - 1) as nat);
        let inputs = m.targets(DIMG, ids[n - 1]);
        if inputs.len() == 0 {
            before
        } else {
            before.push(iden_resolution(m, file, ids[n - 1], inputs[0]))
        }
    }
}

/// The identity derivations of a file that have an input, in order.
pub open spec fn iden_resolutions(m: MetaView, file: Seq<u8>) -> Seq<IdenResolutionView> {
    idens_of(m, file, m.ids_of(ITEM_TYPE_IDEN), m.ids_of(ITEM_TYPE_IDEN).len())
}

/// Work out the identity derivations of a file. One without an input is
/// left out.
pub fn resolve_iden_derivations(meta: &Meta, file: &[u8]) -> (r: Vec<IdenResolution>)
    ensures
        views(r@) == iden_resolutions(meta@, file@),
{
    let ids = meta.item_ids_of_type(&ITEM_TYPE_IDEN);
    let mut out: Vec<IdenResolution> = Vec::new();
    proof {
        assert(views(out@) =~= Seq::empty());
    }
    let mut i: usize = 0;
    while i < ids.len()
        invariant
            i <= ids@.len(),
            views(out@) == idens_of(meta@, file@, ids@, i as nat),
        decreases ids@.len() - i,
    {
        let inputs = meta.iref_targets(&DIMG, ids[i]);
        if inputs.len() > 0 {
            let one = IdenResolution {
                iden_item_id: ids[i],
                source_item_id: inputs[0],
                source_dims: output_dims(meta, inputs[0], file),
                transforms: transform_chain(meta, ids[i]),
                output_dims: output_dims(meta, ids[i], file),
            };
            proof {
                assert(one@ =~= iden_resolution(meta@, file@, ids@[i as int], inputs@[0]));
                lemma_views_push(out@, one);
            }
            out.push(one);
        }
        i = i + 1;
    }
    out
}

// ---------------------------------------------------------------------
// Tone maps

/// A tone map: a base image and the gain maps for it.
#[derive(Clone, Debug)]
pub struct ToneMapResolution {
    /// The item.
    pub tmap_item_id: u32,
    /// The base image.
    pub base_item_id: u32,
    /// The gain maps.
    pub gain_map_item_ids: Vec<u32>,
    /// The size of the base image as it is shown, where it is known.
    pub base_dims: Option<(u32, u32)>,
    /// The sizes of the gain maps as they are shown, where they are
    /// known.
    pub gain_map_dims: Vec<Option<(u32, u32)>>,
}

/// A [`ToneMapResolution`] as contracts speak of it.
#[verifier::ext_equal]
pub struct ToneMapResolutionView {
    /// The item.
    pub tmap_item_id: u32,
    /// The base image.
    pub base_item_id: u32,
    /// The gain maps.
    pub gain_map_item_ids: Seq<u32>,
    /// The size of the base image as it is shown, where it is known.
    pub base_dims: Option<(u32, u32)>,
    /// The sizes of the gain maps as they are shown, where they are
    /// known.
    pub gain_map_dims: Seq<Option<(u32, u32)>>,
}

impl View for ToneMapResolution {
    type V = ToneMapResolutionView;

    open spec fn view(&self) -> ToneMapResolutionView {
        ToneMapResolutionView {
            tmap_item_id: self.tmap_item_id,
            base_item_id: self.base_item_id,
            gain_map_item_ids: self.gain_map_item_ids@,
            base_dims: self.base_dims,
            gain_map_dims: self.gain_map_dims@,
        }
    }
}

/// A tone map with these inputs: the base image first.
pub open spec fn tone_map_resolution(m: MetaView, file: Seq<u8>, id: u32, inputs: Seq<u32>) ->
    ToneMapResolutionView {
    let gains = inputs.subrange(1, inputs.len() as int);
    ToneMapResolutionView {
        tmap_item_id: id,
        base_item_id: inputs[0],
        gain_map_item_ids: gains,
        base_dims: output_size(m, file, inputs[0]),
        gain_map_dims: output_sizes(m, file, gains),
    }
}

/// The tone maps among the first `n` items that have an input.
pub open spec fn tone_maps_of(m: MetaView, file: Seq<u8>, ids: Seq<u32>, n: nat) -> Seq<
    ToneMapResolutionView,
>
    decreases n,
{
    if n == 0 {
        Seq::empty()
    } else {
        let before = tone_maps_of(m, file, ids, (n - 1) as nat);
        let inputs = m.targets(DIMG, ids[n - 1]);
        if inputs.len() == 0 {
            before
        } else {
            before.push(tone_map_resolution(m, file, ids[n - 1], inputs))
        }
    }
}

/// The tone maps of a file that have an input, in order.
pub open spec fn tone_map_resolutions(m: MetaView, file: Seq<u8>) -> Seq<ToneMapResolutionView> {
    tone_maps_of(m, file, m.ids_of(ITEM_TYPE_TMAP), m.ids_of(ITEM_TYPE_TMAP).len())
}

/// All ids but the first.
fn ids_behind(ids: &Vec<u32>) -> (r: Vec<u32>)
    requires
        ids@.len() > 0,
    ensures
        r@ == ids@.subrange(1, ids@.len() as int),
{
    let mut out: Vec<u32> = Vec::new();
    let mut i: usize = 1;
    while i < ids.len()
        invariant
            1 <= i <= ids@.len(),
            out@ =~= ids@.subrange(1, i as int),
        decreases ids@.len() - i,
    {
        out.push(ids[i]);
        i = i + 1;
    }
    out
}

/// Work out the tone maps of a file. One without an input is left out.
pub fn resolve_tone_maps(meta: &Meta, file: &[u8]) -> (r: Vec<ToneMapResolution>)
    ensures
        views(r@) == tone_map_resolutions(meta@, file@),
{
    let ids = meta.item_ids_of_type(&ITEM_TYPE_TMAP);
    let mut out: Vec<ToneMapResolution> = Vec::new();
    proof {
        assert(views(out@) =~= Seq::empty());
    }
    let mut i: usize = 0;
    while i < ids.len()
        invariant
            i <= ids@.len(),
            views(out@) == tone_maps_of(meta@, file@, ids@, i as nat),
        decreases ids@.len() - i,
    {
        let inputs = meta.iref_targets(&DIMG, ids[i]);
        if inputs.len() > 0 {
            let gains = ids_behind(&inputs);
            let gain_map_dims = list_output_dims(meta, file, &gains);
            let one = ToneMapResolution {
                tmap_item_id: ids[i],
                base_item_id: inputs[0],
                gain_map_item_ids: gains,
                base_dims: output_dims(meta, inputs[0], file),
                gain_map_dims,
            };
            proof {
                assert(one@ =~= tone_map_resolution(meta@, file@, ids@[i as int], inputs@));
                lemma_views_push(out@, one);
            }
            out.push(one);
        }
        i = i + 1;
    }
    out
}

// ---------------------------------------------------------------------
// Grids

/// Where one tile of a grid goes.
#[derive(Clone, Copy, Debug, PartialEq, Eq, Structural)]
pub struct GridTilePlacement {
    /// The tile.
    pub item_id: u32,
    /// Its row.
    pub row: u32,
    /// Its column.
    pub column: u32,
    /// Its left edge.
    pub x: u64,
    /// Its top edge.
    pub y: u64,
    /// How much of its width the image shows.
    pub visible_width: u32,
    /// How much of its height the image shows.
    pub visible_height: u32,
}

/// How much of `len` pixels from `at` on an axis of `full` pixels shows.
pub open spec fn shown_part(at: int, len: int, full: int) -> int {
    if at >= full {
        0
    } else if at + len > full {
        full - at
    } else {
        len
    }
}

/// Where tile `i` goes, in reading order.
pub open spec fn tile_placement(g: ImageGrid, size: (u32, u32), id: u32, i: int) ->
    GridTilePlacement {
    let row = i / g.columns as int;
    let column = i % g.columns as int;
    GridTilePlacement {
        item_id: id,
        row: row as u32,
        column: column as u32,
        x: (column * size.0) as u64,
        y: (row * size.1) as u64,
        visible_width: shown_part(column * size.0, size.0 as int, g.output_width as int) as u32,
        visible_height: shown_part(row * size.1, size.1 as int, g.output_height as int) as u32,
    }
}

/// A grid and where its tiles go.
#[derive(Clone, Debug)]
pub struct GridResolution {
    /// The grid item.
    pub grid_item_id: u32,
    /// Its descriptor.
    pub grid: ImageGrid,
    /// The size of its first tile, which all tiles share, where it is
    /// known.
    pub tile_dims: Option<(u32, u32)>,
    /// Where its tiles go, in order; none where their size is not known.
    pub tiles: Vec<GridTilePlacement>,
}

/// A [`GridResolution`] as contracts speak of it.
#[verifier::ext_equal]
pub struct GridResolutionView {
    /// The grid item.
    pub grid_item_id: u32,
    /// Its descriptor.
    pub grid: ImageGrid,
    /// The size of its first tile, which all tiles share, where it is
    /// known.
    pub tile_dims: Option<(u32, u32)>,
    /// Where its tiles go, in order; none where their size is not known.
    pub tiles: Seq<GridTilePlacement>,
}

impl View for GridResolution {
    type V = GridResolutionView;

    open spec fn view(&self) -> GridResolutionView {
        GridResolutionView {
            grid_item_id: self.grid_item_id,
            grid: self.grid,
            tile_dims: self.tile_dims,
            tiles: self.tiles@,
        }
    }
}

/// How many tiles are placed: no more than the grid has room for.
pub open spec fn placed(g: ImageGrid, inputs: Seq<u32>) -> nat {
    if inputs.len() > g.rows * g.columns {
        (g.rows * g.columns) as nat
    } else {
        inputs.len()
    }
}

/// A grid with these inputs.
pub open spec fn grid_resolution(
    m: MetaView,
    file: Seq<u8>,
    id: u32,
    g: ImageGrid,
    inputs: Seq<u32>,
) -> GridResolutionView {
    let size = if inputs.len() == 0 {
        None
    } else {
        output_size(m, file, inputs[0])
    };
    GridResolutionView {
        grid_item_id: id,
        grid: g,
        tile_dims: size,
        tiles: match size {
            Some(s) => Seq::new(placed(g, inputs), |i: int| tile_placement(g, s, inputs[i], i)),
            None => Seq::empty(),
        },
    }
}

/// The grids among the first `n` items that can be read.
pub open spec fn grids_of(m: MetaView, file: Seq<u8>, ids: Seq<u32>, n: nat) -> Seq<
    GridResolutionView,
>
    decreases n,
{
    if n == 0 {
        Seq::empty()
    } else {
        let before = grids_of(m, file, ids, (n - 1) as nat);
        match item_grid(m, file, ids[n - 1]) {
            Some(g) => before.push(
                grid_resolution(m, file, ids[n - 1], g, m.targets(DIMG, ids[n - 1])),
            ),
            None => before,
        }
    }
}

/// The grids of a file that can be read, in order.
pub open spec fn grid_resolutions(m: MetaView, file: Seq<u8>) -> Seq<GridResolutionView> {
    grids_of(m, file, m.ids_of(ITEM_TYPE_GRID), m.ids_of(ITEM_TYPE_GRID).len())
}

fn shown(at: u64, len: u32, full: u32) -> (r: u32)
    requires
        at <= 0xffff_ffff_ffff,
    ensures
        r == shown_part(at as int, len as int, full as int),
{
    if at >= full as u64 {
        0
    } else if at + len as u64 > full as u64 {
        (full as u64 - at) as u32
    } else {
        len
    }
}

fn place_tile(g: &ImageGrid, size: (u32, u32), id: u32, i: usize) -> (r: GridTilePlacement)
    requires
        g.columns > 0,
        i < g.rows * g.columns,
    ensures
        r == tile_placement(*g, size, id, i as int),
{
    let columns: usize = g.columns as usize;
    let row: usize = i / columns;
    let column: usize = i % columns;
    proof {
        let (rows, cols) = (g.rows as int, g.columns as int);
        let at = i as int;
        assert(at / cols < rows) by (nonlinear_arith)
            requires
                0 <= at < rows * cols,
                cols > 0,
        ;
        let (a, b, w, h) = (row as int, column as int, size.0 as int, size.1 as int);
        assert(0 <= b * w <= 0xffff * 0xffff_ffff) by (nonlinear_arith)
            requires
                0 <= b <= 0xffff,
                0 <= w <= 0xffff_ffff,
        ;
        assert(0 <= a * h <= 0xffff * 0xffff_ffff) by (nonlinear_arith)
            requires
                0 <= a <= 0xffff,
                0 <= h <= 0xffff_ffff,
        ;
    }
    let x: u64 = column as u64 * size.0 as u64;
    let y: u64 = row as u64 * size.1 as u64;
    GridTilePlacement {
        item_id: id,
        row: row as u32,
        column: column as u32,
        x,
        y,
        visible_width: shown(x, size.0, g.output_width),
        visible_height: shown(y, size.1, g.output_height),
    }
}

fn place_tiles(g: &ImageGrid, size: (u32, u32), inputs: &Vec<u32>) -> (r: Vec<GridTilePlacement>)
    requires
        g.columns > 0,
    ensures
        r@ == Seq::new(placed(*g, inputs@), |i: int| tile_placement(*g, size, inputs@[i], i)),
{
    let room: usize = g.expected_tile_count();
    let mut out: Vec<GridTilePlacement> = Vec::new();
    let mut i: usize = 0;
    while i < inputs.len() && i < room
        invariant
            g.columns > 0,
            room == g.rows * g.columns,
            i <= placed(*g, inputs@),
            out@ =~= Seq::new(i as nat, |j: int| tile_placement(*g, size, inputs@[j], j)),
        decreases inputs@.len() - i,
    {
        out.push(place_tile(g, size, inputs[i], i));
        i = i + 1;
    }
    out
}

fn resolve_grid(meta: &Meta, file: &[u8], id: u32, g: ImageGrid, inputs: &Vec<u32>) -> (r:
    GridResolution)
    requires
        g.columns > 0,
    ensures
        r@ == grid_resolution(meta@, file@, id, g, inputs@),
{
    let size: Option<(u32, u32)> = if inputs.len() == 0 {
        None
    } else {
        output_dims(meta, inputs[0], file)
    };
    let tiles = match size {
        Some(s) => place_tiles(&g, s, inputs),
        None => Vec::new(),
    };
    let r = GridResolution { grid_item_id: id, grid: g, tile_dims: size, tiles };
    proof {
        assert(r@ =~= grid_resolution(meta@, file@, id, g, inputs@));
    }
    r
}

/// Work out the grids of a file. One that cannot be read is left out.
pub fn resolve_grids(meta: &Meta, file: &[u8]) -> (r: Vec<GridResolution>)
    ensures
        views(r@) == grid_resolutions(meta@, file@),
{
    let ids = meta.item_ids_of_type(&ITEM_TYPE_GRID);
    let mut out: Vec<GridResolution> = Vec::new();
    proof {
        assert(views(out@) =~= Seq::empty());
    }
    let mut i: usize = 0;
    while i < ids.len()
        invariant
            i <= ids@.len(),
            views(out@) == grids_of(meta@, file@, ids@, i as nat),
        decreases ids@.len() - i,
    {
        let inputs = meta.iref_targets(&DIMG, ids[i]);
        match grid_of_item(meta, file, ids[i]) {
            Some(g) => {
                let one = resolve_grid(meta, file, ids[i], g, &inputs);
                proof {
                    lemma_views_push(out@, one);
                }
                out.push(one);
            },
            None => {},
        }
        i = i + 1;
    }
    out
}

} // verus!
