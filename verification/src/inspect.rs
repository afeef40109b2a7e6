//! What a file says of its primary image, at a glance.

use crate::alpha::{alpha_of, find_alpha_item_id};
use crate::audits::{
    alpha_audits, audit_alpha_bit_depth, audit_avif_profile_compliance, audit_grid_derivations,
    audit_iden_derivations, audit_sequence_header_obu, audit_tone_map, coded_depth,
    depth_of_record, grid_audits, header_audits, iden_audits, profile_audits, tone_map_audits,
    AlphaBitDepthAudit, AvifProfileCompliance, GridAuditView, GridDerivationAudit, IdenCompliance,
    SequenceHeaderObuAudit, ToneMapCompliance,
};
use crate::box_parser::{same_type, BoxType};
use crate::cicp::{cicp_of, effective_cicp, CicpTriple};
use crate::container::{CDSC, DIMG, PREM};
use crate::derived::{
    output_dims_from_reconstructed, shown_size, Mif1Compliance, MAX_DERIVATION_DEPTH,
};
use crate::error::{outcome_view, views, AvifError, Fault};
use crate::gain_map::{gain_map_of, GainMapMetadata, GainMapView};
use crate::grid::{grid_parsed, ImageGrid};
use crate::lookup::{first_of, opt_colr};
use crate::meta::{contains_id, opt_bytes, Meta, MetaView};
use crate::meta_parse::{
    ItemInfo, ItemInfoView, ITEM_TYPE_EXIF, ITEM_TYPE_IDEN, ITEM_TYPE_IOVL, ITEM_TYPE_MIME,
    ITEM_TYPE_SATO, ITEM_TYPE_TMAP,
};
use crate::parser::{
    audit_mif1, classified, classify_brands, header_of, idat_of, item_bytes_owned_full,
    item_bytes_with_idat, mif1_of, parse, parse_header, parsed, payload_bytes, slice_with_idat,
    AvifHeader, AvifImage, BrandClass, HeaderView, ImageView, ITEM_TYPE_AV01, ITEM_TYPE_GRID,
};
use crate::props::{
    A1lx, A1op, Amve, AuxKind, Cclv, Clli, Colr, ColrView, Mdcv, Pasp,
};
use crate::resolve::{
    grid_resolutions, iden_resolutions, overlay_resolutions, rebuilt, reconstructed_dims,
    resolve_grids, resolve_iden_derivations, resolve_overlays, resolve_tone_maps,
    tone_map_resolutions, GridResolution, GridResolutionView, IdenResolution, IdenResolutionView,
    OverlayResolution, OverlayResolutionView, ToneMapResolution, ToneMapResolutionView,
};
use crate::text::{folded_begins, folded_equals, same_folded, starts_folded};
use vstd::prelude::*;
use vstd::slice::slice_to_vec;

pub use crate::derived::transforms_for;

verus! {

/// Reference type of thumbnails.
pub const THMB: BoxType = [0x74, 0x68, 0x6d, 0x62];

/// What a file says of its primary image.
#[derive(Clone, Debug)]
pub struct AvifInfo {
    /// Width of the image.
    pub width: u32,
    /// Height of the image.
    pub height: u32,
    /// Bits of each channel; empty where `pixi` is absent.
    pub bits_per_channel: Vec<u8>,
    /// Pixel aspect ratio.
    pub pasp: Option<Pasp>,
    /// Configuration record.
    pub av1c: Vec<u8>,
    /// Coded bytes; empty where the image is derived.
    pub obu_bytes: Vec<u8>,
    /// The primary item is a grid.
    pub is_grid: bool,
    /// The primary item has an alpha plane.
    pub has_alpha: bool,
    /// What the brands say of the file.
    pub brands: BrandClass,
    /// Colour description.
    pub colour: Option<Colr>,
    /// Mastering display.
    pub mdcv: Option<Mdcv>,
    /// Content light level.
    pub clli: Option<Clli>,
    /// Colour volume luminance.
    pub cclv: Option<Cclv>,
    /// Ambient viewing environment.
    pub amve: Option<Amve>,
    /// Coded bit depth, where the configuration record says it.
    pub bit_depth: Option<u8>,
    /// There are no chroma planes.
    pub monochrome: bool,
    /// Whether the chroma planes have half the width and half the height;
    /// `None` where there are none.
    pub chroma_subsampling: Option<(bool, bool)>,
    /// Thumbnails of the primary item.
    pub thumbnail_item_ids: Vec<u32>,
    /// Exif item that describes the primary item.
    pub exif_item_id: Option<u32>,
    /// XMP item that describes the primary item.
    pub xmp_item_id: Option<u32>,
    /// The colours are premultiplied by the alpha plane.
    pub premultiplied_alpha: bool,
    /// Auxiliary images of the primary item, each with its kind.
    pub aux_items: Vec<(u32, AuxKind)>,
    /// The kind of the first alpha plane among them.
    pub alpha_aux_kind: Option<AuxKind>,
    /// The first depth map among them.
    pub depth_map_item_id: Option<u32>,
    /// The first HDR gain map among them.
    pub hdr_gain_map_item_id: Option<u32>,
    /// How many entity groups there are; none where they cannot be read.
    pub entity_group_count: usize,
    /// Which of the boxes that `mif1` calls for there are.
    pub mif1_compliance: Mif1Compliance,
    /// Operating point of the primary item.
    pub operating_point: Option<A1op>,
    /// Layer sizes of the primary item.
    pub layered_index: Option<A1lx>,
    /// Sample transform items.
    pub sato_item_ids: Vec<u32>,
    /// Tone map items.
    pub tmap_item_ids: Vec<u32>,
    /// Audits of the tone maps.
    pub tone_map_compliance: Vec<ToneMapCompliance>,
    /// Audits of the grids.
    pub grid_derivation_compliance: Vec<GridDerivationAudit>,
    /// Identity derivations.
    pub iden_item_ids: Vec<u32>,
    /// Audits of the identity derivations.
    pub iden_compliance: Vec<IdenCompliance>,
    /// Audits of the alpha planes.
    pub alpha_bit_depth_compliance: Vec<AlphaBitDepthAudit>,
    /// Audits of the sequence headers.
    pub sequence_header_obu_compliance: Vec<SequenceHeaderObuAudit>,
    /// Audits of the declared profiles.
    pub avif_profile_compliance: Vec<AvifProfileCompliance>,
    /// The overlays, worked out.
    pub overlay_resolutions: Vec<OverlayResolution>,
    /// The identity derivations, worked out.
    pub iden_resolutions: Vec<IdenResolution>,
    /// The tone maps, worked out.
    pub tone_map_resolutions: Vec<ToneMapResolution>,
    /// The grids, worked out.
    pub grid_resolutions: Vec<GridResolution>,
}

/// An [`AvifInfo`] as contracts speak of it.
#[verifier::ext_equal]
pub struct InfoView {
    /// Width of the image.
    pub width: u32,
    /// Height of the image.
    pub height: u32,
    /// Bits of each channel; empty where `pixi` is absent.
    pub bits_per_channel: Seq<u8>,
    /// Pixel aspect ratio.
    pub pasp: Option<Pasp>,
    /// Configuration record.
    pub av1c: Seq<u8>,
    /// Coded bytes; empty where the image is derived.
    pub obu_bytes: Seq<u8>,
    /// The primary item is a grid.
    pub is_grid: bool,
    /// The primary item has an alpha plane.
    pub has_alpha: bool,
    /// What the brands say of the file.
    pub brands: BrandClass,
    /// Colour description.
    pub colour: Option<ColrView>,
    /// Mastering display.
    pub mdcv: Option<Mdcv>,
    /// Content light level.
    pub clli: Option<Clli>,
    /// Colour volume luminance.
    pub cclv: Option<Cclv>,
    /// Ambient viewing environment.
    pub amve: Option<Amve>,
    /// Coded bit depth, where the configuration record says it.
    pub bit_depth: Option<u8>,
    /// There are no chroma planes.
    pub monochrome: bool,
    /// Whether the chroma planes have half the width and half the height;
    /// `None` where there are none.
    pub chroma_subsampling: Option<(bool, bool)>,
    /// Thumbnails of the primary item.
    pub thumbnail_item_ids: Seq<u32>,
    /// Exif item that describes the primary item.
    pub exif_item_id: Option<u32>,
    /// XMP item that describes the primary item.
    pub xmp_item_id: Option<u32>,
    /// The colours are premultiplied by the alpha plane.
    pub premultiplied_alpha: bool,
    /// Auxiliary images of the primary item, each with its kind.
    pub aux_items: Seq<(u32, AuxKind)>,
    /// The kind of the first alpha plane among them.
    pub alpha_aux_kind: Option<AuxKind>,
    /// The first depth map among them.
    pub depth_map_item_id: Option<u32>,
    /// The first HDR gain map among them.
    pub hdr_gain_map_item_id: Option<u32>,
    /// How many entity groups there are; none where they cannot be read.
    pub entity_group_count: usize,
    /// Which of the boxes that `mif1` calls for there are.
    pub mif1_compliance: Mif1Compliance,
    /// Operating point of the primary item.
    pub operating_point: Option<A1op>,
    /// Layer sizes of the primary item.
    pub layered_index: Option<A1lx>,
    /// Sample transform items.
    pub sato_item_ids: Seq<u32>,
    /// Tone map items.
    pub tmap_item_ids: Seq<u32>,
    /// Audits of the tone maps.
    pub tone_map_compliance: Seq<ToneMapCompliance>,
    /// Audits of the grids.
    pub grid_derivation_compliance: Seq<GridAuditView>,
    /// Identity derivations.
    pub iden_item_ids: Seq<u32>,
    /// Audits of the identity derivations.
    pub iden_compliance: Seq<IdenCompliance>,
    /// Audits of the alpha planes.
    pub alpha_bit_depth_compliance: Seq<AlphaBitDepthAudit>,
    /// Audits of the sequence headers.
    pub sequence_header_obu_compliance: Seq<SequenceHeaderObuAudit>,
    /// Audits of the declared profiles.
    pub avif_profile_compliance: Seq<AvifProfileCompliance>,
    /// The overlays, worked out.
    pub overlay_resolutions: Seq<OverlayResolutionView>,
    /// The identity derivations, worked out.
    pub iden_resolutions: Seq<IdenResolutionView>,
    /// The tone maps, worked out.
    pub tone_map_resolutions: Seq<ToneMapResolutionView>,
    /// The grids, worked out.
    pub grid_resolutions: Seq<GridResolutionView>,
}

impl View for AvifInfo {
    type V = InfoView;

    open spec fn view(&self) -> InfoView {
        InfoView {
            width: self.width,
            height: self.height,
            bits_per_channel: self.bits_per_channel@,
            pasp: self.pasp,
            av1c: self.av1c@,
            obu_bytes: self.obu_bytes@,
            is_grid: self.is_grid,
            has_alpha: self.has_alpha,
            brands: self.brands,
            colour: opt_colr(self.colour),
            mdcv: self.mdcv,
            clli: self.clli,
            cclv: self.cclv,
            amve: self.amve,
            bit_depth: self.bit_depth,
            monochrome: self.monochrome,
            chroma_subsampling: self.chroma_subsampling,
            thumbnail_item_ids: self.thumbnail_item_ids@,
            exif_item_id: self.exif_item_id,
            xmp_item_id: self.xmp_item_id,
            premultiplied_alpha: self.premultiplied_alpha,
            aux_items: self.aux_items@,
            alpha_aux_kind: self.alpha_aux_kind,
            depth_map_item_id: self.depth_map_item_id,
            hdr_gain_map_item_id: self.hdr_gain_map_item_id,
            entity_group_count: self.entity_group_count,
            mif1_compliance: self.mif1_compliance,
            operating_point: self.operating_point,
            layered_index: self.layered_index,
            sato_item_ids: self.sato_item_ids@,
            tmap_item_ids: self.tmap_item_ids@,
            tone_map_compliance: self.tone_map_compliance@,
            grid_derivation_compliance: views(self.grid_derivation_compliance@),
            iden_item_ids: self.iden_item_ids@,
            iden_compliance: self.iden_compliance@,
            alpha_bit_depth_compliance: self.alpha_bit_depth_compliance@,
            sequence_header_obu_compliance: self.sequence_header_obu_compliance@,
            avif_profile_compliance: self.avif_profile_compliance@,
            overlay_resolutions: views(self.overlay_resolutions@),
            iden_resolutions: views(self.iden_resolutions@),
            tone_map_resolutions: views(self.tone_map_resolutions@),
            grid_resolutions: views(self.grid_resolutions@),
        }
    }
}

// ---------------------------------------------------------------------
// What is read of the items

/// Bit depth, lack of chroma planes and chroma sampling in a
/// configuration record: bits of its third byte. Nothing is known of a
/// record that is too short.
pub open spec fn record_flags(s: Seq<u8>) -> (Option<u8>, bool, Option<(bool, bool)>) {
    if s.len() < 3 {
        (None, false, None)
    } else {
        let mono = s[2] / 16 % 2 == 1;
        (
            Some(coded_depth(s[2])),
            mono,
            if mono {
                None
            } else {
                Some((s[2] / 8 % 2 == 1, s[2] / 4 % 2 == 1))
            },
        )
    }
}

/// Read the bit depth, the lack of chroma planes and the chroma sampling
/// in a configuration record.
pub fn decode_av1c_flags(av1c: &[u8]) -> (r: (Option<u8>, bool, Option<(bool, bool)>))
    ensures
        r == record_flags(av1c@),
{
    if av1c.len() < 3 {
        return (None, false, None);
    }
    let b: u8 = av1c[2];
    let mono: bool = b / 16 % 2 == 1;
    let sampling: Option<(bool, bool)> = if mono {
        None
    } else {
        Some((b / 8 % 2 == 1, b / 4 % 2 == 1))
    };
    (Some(depth_of_record(av1c)), mono, sampling)
}

/// The MIME type of an item; empty where it has none.
pub open spec fn mime_type(info: ItemInfoView) -> Seq<char> {
    match info.content_type {
        Some(t) => t,
        None => Seq::empty(),
    }
}

/// Whether an item is XMP: a MIME item whose type begins so, in any case
/// of letters.
pub open spec fn is_xmp(info: ItemInfoView) -> bool {
    info.item_type == ITEM_TYPE_MIME && folded_begins(mime_type(info), "application/rdf+xml"@)
}

/// Whether an item is Exif: by its type, or a MIME item of a type that
/// Exif is wrapped in.
pub open spec fn is_exif(info: ItemInfoView) -> bool {
    info.item_type == ITEM_TYPE_EXIF || (info.item_type == ITEM_TYPE_MIME && (folded_equals(
        mime_type(info),
        "application/octet-stream"@,
    ) || folded_equals(mime_type(info), "image/tiff"@) || folded_equals(
        mime_type(info),
        "image/x-exif"@,
    )))
}

/// The first Exif item and the first XMP item among the first `n`
/// items.
pub open spec fn metadata_among(m: MetaView, ids: Seq<u32>, n: nat) -> (Option<u32>, Option<u32>)
    decreases n,
{
    if n == 0 {
        (None, None)
    } else {
        let (exif, xmp) = metadata_among(m, ids, (n - 1) as nat);
        let id = ids[n - 1];
        match m.item(id) {
            None => (exif, xmp),
            Some(info) => if exif is None && is_exif(info) {
                (Some(id), xmp)
            } else if xmp is None && is_xmp(info) {
                (exif, Some(id))
            } else {
                (exif, xmp)
            },
        }
    }
}

/// The first Exif item and the first XMP item that describe an item.
pub open spec fn metadata_of(m: MetaView, id: u32) -> (Option<u32>, Option<u32>) {
    metadata_among(m, m.sources(CDSC, id), m.sources(CDSC, id).len())
}

fn content_type_of(info: &ItemInfo) -> (r: &str)
    ensures
        r@ == mime_type(info@),
{
    match &info.content_type {
        Some(t) => t.as_str(),
        None => {
            proof {
                reveal_strlit("");
                assert(""@ =~= Seq::empty());
            }
            ""
        },
    }
}

fn item_is_xmp(info: &ItemInfo) -> (r: bool)
    ensures
        r == is_xmp(info@),
{
    same_type(&info.item_type, &ITEM_TYPE_MIME) && starts_folded(
        content_type_of(info),
        "application/rdf+xml",
    )
}

fn item_is_exif(info: &ItemInfo) -> (r: bool)
    ensures
        r == is_exif(info@),
{
    if same_type(&info.item_type, &ITEM_TYPE_EXIF) {
        return true;
    }
    if !same_type(&info.item_type, &ITEM_TYPE_MIME) {
        return false;
    }
    let t = content_type_of(info);
    same_folded(t, "application/octet-stream") || same_folded(t, "image/tiff") || same_folded(
        t,
        "image/x-exif",
    )
}

/// The first Exif item and the first XMP item that describe an item.
pub fn resolve_metadata_items(meta: &Meta, target_id: u32) -> (r: (Option<u32>, Option<u32>))
    ensures
        r == metadata_of(meta@, target_id),
{
    let ids = meta.iref_sources_of(&CDSC, target_id);
    let mut exif: Option<u32> = None;
    let mut xmp: Option<u32> = None;
    let mut i: usize = 0;
    while i < ids.len()
        invariant
            i <= ids@.len(),
            ids@ == meta@.sources(CDSC, target_id),
            (exif, xmp) == metadata_among(meta@, ids@, i as nat),
        decreases ids@.len() - i,
    {
        match meta.item_by_id(ids[i]) {
            None => {},
            Some(info) => {
                if exif.is_none() && item_is_exif(info) {
                    exif = Some(ids[i]);
                } else if xmp.is_none() && item_is_xmp(info) {
                    xmp = Some(ids[i]);
                }
            },
        }
        i = i + 1;
    }
    (exif, xmp)
}

/// Whether a `prem` reference links two items, in either direction.
pub open spec fn linked(m: MetaView, a: u32, b: u32) -> bool {
    exists|i: int|
        0 <= i < m.irefs.len() && (#[trigger] m.irefs[i]).reference_type == PREM && ((
        m.irefs[i].from_id == a && m.irefs[i].to_ids.contains(b)) || (m.irefs[i].from_id == b
            && m.irefs[i].to_ids.contains(a)))
}

/// Whether the colours of an item are premultiplied by its alpha plane.
pub open spec fn is_premultiplied(m: MetaView, id: u32) -> bool {
    match alpha_of(m, id) {
        Some(a) => linked(m, a, id),
        None => false,
    }
}

fn has_link(meta: &Meta, a: u32, b: u32) -> (r: bool)
    ensures
        r == linked(meta@, a, b),
{
    let ghost m = meta@;
    let mut i: usize = 0;
    while i < meta.irefs.len()
        invariant
            i <= meta.irefs@.len(),
            m == meta@,
            forall|j: int|
                0 <= j < i ==> !((#[trigger] m.irefs[j]).reference_type == PREM && ((
                m.irefs[j].from_id == a && m.irefs[j].to_ids.contains(b)) || (m.irefs[j].from_id
                    == b && m.irefs[j].to_ids.contains(a)))),
        decreases meta.irefs@.len() - i,
    {
        let e = &meta.irefs[i];
        proof {
            assert(m.irefs[i as int] == e@);
        }
        if same_type(&e.reference_type, &PREM) && ((e.from_id == a && contains_id(&e.to_ids, b))
            || (e.from_id == b && contains_id(&e.to_ids, a))) {
            return true;
        }
        i = i + 1;
    }
    false
}

/// The first auxiliary image of this kind, from place `i` on.
pub open spec fn aux_with(s: Seq<(u32, AuxKind)>, kind: AuxKind, i: int) -> Option<u32>
    decreases s.len() - i,
{
    if i < 0 || i >= s.len() {
        None
    } else if s[i].1 == kind {
        Some(s[i].0)
    } else {
        aux_with(s, kind, i + 1)
    }
}

fn find_aux(s: &Vec<(u32, AuxKind)>, kind: AuxKind) -> (r: Option<u32>)
    ensures
        r == aux_with(s@, kind, 0),
{
    let mut i: usize = 0;
    while i < s.len()
        invariant
            i <= s@.len(),
            aux_with(s@, kind, i as int) == aux_with(s@, kind, 0),
        decreases s@.len() - i,
    {
        if s[i].1 == kind {
            return Some(s[i].0);
        }
        i = i + 1;
    }
    None
}

/// How many entity groups there are; none where they cannot be read.
pub open spec fn group_count(m: MetaView) -> usize {
    match m.entity_groups() {
        Ok(g) => g.len() as usize,
        Err(_) => 0,
    }
}

fn count_groups(meta: &Meta) -> (r: usize)
    ensures
        r == group_count(meta@),
{
    match meta.groups() {
        Ok(g) => g.len(),
        Err(_) => 0,
    }
}

/// What the primary item itself says of the image.
pub struct Core {
    /// Width of the image.
    pub width: u32,
    /// Height of the image.
    pub height: u32,
    /// Bits of each channel; empty where `pixi` is absent.
    pub bits_per_channel: Vec<u8>,
    /// Pixel aspect ratio.
    pub pasp: Option<Pasp>,
    /// Configuration record.
    pub av1c: Vec<u8>,
    /// Coded bytes; empty where the image is derived.
    pub obu_bytes: Vec<u8>,
    /// The primary item is a grid.
    pub is_grid: bool,
    /// Colour description.
    pub colour: Option<Colr>,
    /// Mastering display.
    pub mdcv: Option<Mdcv>,
    /// Content light level.
    pub clli: Option<Clli>,
    /// Colour volume luminance.
    pub cclv: Option<Cclv>,
    /// Ambient viewing environment.
    pub amve: Option<Amve>,
}

/// What the primary item itself says of the image, as contracts speak of
/// it.
#[verifier::ext_equal]
pub struct CoreView {
    /// Width of the image.
    pub width: u32,
    /// Height of the image.
    pub height: u32,
    /// Bits of each channel; empty where `pixi` is absent.
    pub bits_per_channel: Seq<u8>,
    /// Pixel aspect ratio.
    pub pasp: Option<Pasp>,
    /// Configuration record.
    pub av1c: Seq<u8>,
    /// Coded bytes; empty where the image is derived.
    pub obu_bytes: Seq<u8>,
    /// The primary item is a grid.
    pub is_grid: bool,
    /// Colour description.
    pub colour: Option<ColrView>,
    /// Mastering display.
    pub mdcv: Option<Mdcv>,
    /// Content light level.
    pub clli: Option<Clli>,
    /// Colour volume luminance.
    pub cclv: Option<Cclv>,
    /// Ambient viewing environment.
    pub amve: Option<Amve>,
}

impl View for Core {
    type V = CoreView;

    open spec fn view(&self) -> CoreView {
        CoreView {
            width: self.width,
            height: self.height,
            bits_per_channel: self.bits_per_channel@,
            pasp: self.pasp,
            av1c: self.av1c@,
            obu_bytes: self.obu_bytes@,
            is_grid: self.is_grid,
            colour: opt_colr(self.colour),
            mdcv: self.mdcv,
            clli: self.clli,
            cclv: self.cclv,
            amve: self.amve,
        }
    }
}

/// All that is said of an image, from what its item itself says.
pub open spec fn info_of(
    m: MetaView,
    file: Seq<u8>,
    id: u32,
    brands: BrandClass,
    mif1: Mif1Compliance,
    c: CoreView,
) -> InfoView {
    InfoView {
        width: c.width,
        height: c.height,
        bits_per_channel: c.bits_per_channel,
        pasp: c.pasp,
        av1c: c.av1c,
        obu_bytes: c.obu_bytes,
        is_grid: c.is_grid,
        has_alpha: alpha_of(m, id) is Some,
        brands,
        colour: c.colour,
        mdcv: c.mdcv,
        clli: c.clli,
        cclv: c.cclv,
        amve: c.amve,
        bit_depth: record_flags(c.av1c).0,
        monochrome: record_flags(c.av1c).1,
        chroma_subsampling: record_flags(c.av1c).2,
        thumbnail_item_ids: m.sources(THMB, id),
        exif_item_id: metadata_of(m, id).0,
        xmp_item_id: metadata_of(m, id).1,
        premultiplied_alpha: is_premultiplied(m, id),
        aux_items: m.aux_items(id),
        alpha_aux_kind: match aux_with(m.aux_items(id), AuxKind::Alpha, 0) {
            Some(_) => Some(AuxKind::Alpha),
            None => None,
        },
        depth_map_item_id: aux_with(m.aux_items(id), AuxKind::DepthMap, 0),
        hdr_gain_map_item_id: aux_with(m.aux_items(id), AuxKind::HdrGainMap, 0),
        entity_group_count: group_count(m),
        mif1_compliance: mif1,
        operating_point: m.a1op(id),
        layered_index: m.a1lx(id),
        sato_item_ids: m.ids_of(ITEM_TYPE_SATO),
        tmap_item_ids: m.ids_of(ITEM_TYPE_TMAP),
        tone_map_compliance: tone_map_audits(m),
        grid_derivation_compliance: grid_audits(m),
        iden_item_ids: m.ids_of(ITEM_TYPE_IDEN),
        iden_compliance: iden_audits(m),
        alpha_bit_depth_compliance: alpha_audits(m),
        sequence_header_obu_compliance: header_audits(m, file),
        avif_profile_compliance: profile_audits(m, brands),
        overlay_resolutions: overlay_resolutions(m, file),
        iden_resolutions: iden_resolutions(m, file),
        tone_map_resolutions: tone_map_resolutions(m, file),
        grid_resolutions: grid_resolutions(m, file),
    }
}

/// All that is said of an image, from what its item itself says.
fn complete(
    meta: &Meta,
    file: &[u8],
    id: u32,
    brands: BrandClass,
    mif1: Mif1Compliance,
    c: Core,
) -> (r: AvifInfo)
    ensures
        r@ == info_of(meta@, file@, id, brands, mif1, c@),
{
    let flags = decode_av1c_flags(c.av1c.as_slice());
    let described = resolve_metadata_items(meta, id);
    let alpha = find_alpha_item_id(meta, id);
    let premultiplied: bool = match alpha {
        Some(a) => has_link(meta, a, id),
        None => false,
    };
    let aux_items = meta.aux_items_for(id);
    let alpha_aux_kind: Option<AuxKind> = match find_aux(&aux_items, AuxKind::Alpha) {
        Some(_) => Some(AuxKind::Alpha),
        None => None,
    };
    let depth_map_item_id = find_aux(&aux_items, AuxKind::DepthMap);
    let hdr_gain_map_item_id = find_aux(&aux_items, AuxKind::HdrGainMap);
    AvifInfo {
        width: c.width,
        height: c.height,
        bits_per_channel: c.bits_per_channel,
        pasp: c.pasp,
        av1c: c.av1c,
        obu_bytes: c.obu_bytes,
        is_grid: c.is_grid,
        has_alpha: alpha.is_some(),
        brands,
        colour: c.colour,
        mdcv: c.mdcv,
        clli: c.clli,
        cclv: c.cclv,
        amve: c.amve,
        bit_depth: flags.0,
        monochrome: flags.1,
        chroma_subsampling: flags.2,
        thumbnail_item_ids: meta.iref_sources_of(&THMB, id),
        exif_item_id: described.0,
        xmp_item_id: described.1,
        premultiplied_alpha: premultiplied,
        aux_items,
        alpha_aux_kind,
        depth_map_item_id,
        hdr_gain_map_item_id,
        entity_group_count: count_groups(meta),
        mif1_compliance: mif1,
        operating_point: meta.a1op(id),
        layered_index: meta.a1lx(id),
        sato_item_ids: meta.item_ids_of_type(&ITEM_TYPE_SATO),
        tmap_item_ids: meta.item_ids_of_type(&ITEM_TYPE_TMAP),
        tone_map_compliance: audit_tone_map(meta),
        grid_derivation_compliance: audit_grid_derivations(meta),
        iden_item_ids: meta.item_ids_of_type(&ITEM_TYPE_IDEN),
        iden_compliance: audit_iden_derivations(meta),
        alpha_bit_depth_compliance: audit_alpha_bit_depth(meta),
        sequence_header_obu_compliance: audit_sequence_header_obu(meta, file),
        avif_profile_compliance: audit_avif_profile_compliance(meta, &brands),
        overlay_resolutions: resolve_overlays(meta, file),
        iden_resolutions: resolve_iden_derivations(meta, file),
        tone_map_resolutions: resolve_tone_maps(meta, file),
        grid_resolutions: resolve_grids(meta, file),
    }
}

/// What the primary item itself says of a coded image.
pub open spec fn coded_core(img: ImageView) -> Result<CoreView, Fault> {
    match img.av1c {
        None => Err(Fault::Invalid("avif: primary item missing av1C property"@)),
        Some(av1c) => match img.ispe {
            None => Err(Fault::Invalid("avif: primary item missing ispe property"@)),
            Some(e) => Ok(
                CoreView {
                    width: e.width,
                    height: e.height,
                    bits_per_channel: or_empty(img.pixi),
                    pasp: img.pasp,
                    av1c,
                    obu_bytes: img.primary_item_data,
                    is_grid: false,
                    colour: img.colr,
                    mdcv: img.mdcv,
                    clli: img.clli,
                    cclv: img.cclv,
                    amve: img.amve,
                },
            ),
        },
    }
}

/// These bytes, or none.
pub open spec fn or_empty(s: Option<Seq<u8>>) -> Seq<u8> {
    match s {
        Some(b) => b,
        None => Seq::empty(),
    }
}

/// What a derived image of this size says of itself: each of its
/// properties, or in its place that of an item it is made of.
pub open spec fn derived_core(
    m: MetaView,
    id: u32,
    part: u32,
    size: (u32, u32),
    is_grid: bool,
    av1c: Seq<u8>,
) -> CoreView {
    CoreView {
        width: size.0,
        height: size.1,
        bits_per_channel: or_empty(first_of(m.pixi(id), m.pixi(part))),
        pasp: first_of(m.pasp(id), m.pasp(part)),
        av1c,
        obu_bytes: Seq::empty(),
        is_grid,
        colour: first_of(m.colr(id), m.colr(part)),
        mdcv: first_of(m.mdcv(id), m.mdcv(part)),
        clli: first_of(m.clli(id), m.clli(part)),
        cclv: first_of(m.cclv(id), m.cclv(part)),
        amve: first_of(m.amve(id), m.amve(part)),
    }
}

/// What a grid says of itself. Its first tile stands for all of them.
pub open spec fn grid_core(h: HeaderView, id: u32) -> Result<CoreView, Fault> {
    let tiles = h.meta.targets(DIMG, id);
    match h.meta.location(id) {
        None => Err(Fault::Invalid("avif: grid item missing in iloc"@)),
        Some(loc) => match slice_with_idat(h.file, h.meta.idat, loc) {
            Err(f) => Err(f),
            Ok(s) => match grid_parsed(s) {
                Err(f) => Err(f),
                Ok(g) => if tiles.len() == 0 {
                    Err(Fault::Invalid("avif: grid item has no dimg iref"@))
                } else {
                    match h.meta.av1c(tiles[0]) {
                        None => Err(
                            Fault::Invalid("avif: first grid tile missing av1C property"@),
                        ),
                        Some(av1c) => Ok(
                            derived_core(
                                h.meta,
                                id,
                                tiles[0],
                                (g.output_width, g.output_height),
                                true,
                                av1c,
                            ),
                        ),
                    }
                },
            },
        },
    }
}

/// The first coded image that an item is made of, as deep as
/// derivations go: the item itself, or the first that one of its inputs
/// leads to.
pub open spec fn coded_leaf(m: MetaView, id: u32, depth: nat) -> Option<u32>
    decreases MAX_DERIVATION_DEPTH + 1 - depth, 0nat,
{
    if depth > MAX_DERIVATION_DEPTH {
        None
    } else {
        match m.item(id) {
            None => None,
            Some(info) => if info.item_type == ITEM_TYPE_AV01 {
                Some(id)
            } else {
                first_leaf(m, m.targets(DIMG, id), 0, depth + 1)
            },
        }
    }
}

/// The first coded image that one of the inputs from place `i` on leads
/// to.
pub open spec fn first_leaf(m: MetaView, ids: Seq<u32>, i: int, depth: nat) -> Option<u32>
    decreases MAX_DERIVATION_DEPTH + 1 - depth, 1 + ids.len() - i,
{
    if i < 0 || i >= ids.len() || depth > MAX_DERIVATION_DEPTH {
        None
    } else {
        match coded_leaf(m, ids[i], depth) {
            Some(leaf) => Some(leaf),
            None => first_leaf(m, ids, i + 1, depth),
        }
    }
}

/// What a derived image other than a grid says of itself. The first
/// coded image it is made of stands for all of them.
pub open spec fn other_core(h: HeaderView, id: u32) -> Result<CoreView, Fault> {
    match rebuilt(h.meta, h.file, id, 0) {
        None => Err(
            Fault::Invalid("avif: could not resolve derived primary output dimensions"@),
        ),
        Some((w, ht)) => match coded_leaf(h.meta, id, 0) {
            None => Err(Fault::Invalid("avif: derived primary has no coded av01 leaf for av1C"@)),
            Some(leaf) => match h.meta.av1c(leaf) {
                None => Err(
                    Fault::Invalid("avif: derived primary's coded leaf missing av1C property"@),
                ),
                Some(av1c) => Ok(
                    derived_core(h.meta, id, leaf, shown_size(h.meta, id, w, ht), false, av1c),
                ),
            },
        },
    }
}

/// All that is said of an image, where its item says enough.
pub open spec fn info_from(
    core: Result<CoreView, Fault>,
    m: MetaView,
    file: Seq<u8>,
    id: u32,
    brands: BrandClass,
    mif1: Mif1Compliance,
) -> Result<InfoView, Fault> {
    match core {
        Err(f) => Err(f),
        Ok(c) => Ok(info_of(m, file, id, brands, mif1, c)),
    }
}

/// Whether an item type is that of a derived image other than a grid.
pub open spec fn is_derived(t: BoxType) -> bool {
    t == ITEM_TYPE_IOVL || t == ITEM_TYPE_IDEN || t == ITEM_TYPE_TMAP || t == ITEM_TYPE_SATO
}

/// What a file says of its primary image.
pub open spec fn inspected(file: Seq<u8>) -> Result<InfoView, Fault> {
    match header_of(file) {
        Err(f) => Err(f),
        Ok(h) => match h.meta.primary_item_id {
            None => Err(Fault::Invalid("avif: missing pitm"@)),
            Some(id) => match h.meta.item(id) {
                None => Err(Fault::Invalid("avif: pitm references unknown item"@)),
                Some(info) => match classified(h.major_brand, h.compatible_brands) {
                    Err(f) => Err(f),
                    Ok(brands) => match mif1_of(file) {
                        Err(f) => Err(f),
                        Ok(mif1) => if info.item_type == ITEM_TYPE_GRID {
                            info_from(grid_core(h, id), h.meta, file, id, brands, mif1)
                        } else if is_derived(info.item_type) {
                            info_from(other_core(h, id), h.meta, file, id, brands, mif1)
                        } else {
                            match parsed(file) {
                                Err(f) => Err(f),
                                Ok(img) => info_from(
                                    coded_core(img),
                                    img.meta,
                                    file,
                                    img.primary_item_id,
                                    brands,
                                    mif1,
                                ),
                            }
                        },
                    },
                },
            },
        },
    }
}

fn bytes_or_empty(s: Option<Vec<u8>>) -> (r: Vec<u8>)
    ensures
        r@ == or_empty(opt_bytes(s)),
{
    match s {
        Some(b) => b,
        None => Vec::new(),
    }
}

fn derived_part(
    meta: &Meta,
    id: u32,
    part: u32,
    size: (u32, u32),
    is_grid: bool,
    av1c: Vec<u8>,
) -> (r: Core)
    ensures
        r@ == derived_core(meta@, id, part, size, is_grid, av1c@),
{
    let bits = match meta.pixi(id) {
        Some(b) => Some(b),
        None => meta.pixi(part),
    };
    let pasp = match meta.pasp(id) {
        Some(v) => Some(v),
        None => meta.pasp(part),
    };
    let colour = match meta.colr(id) {
        Some(v) => Some(v),
        None => meta.colr(part),
    };
    let mdcv = match meta.mdcv(id) {
        Some(v) => Some(v),
        None => meta.mdcv(part),
    };
    let clli = match meta.clli(id) {
        Some(v) => Some(v),
        None => meta.clli(part),
    };
    let cclv = match meta.cclv(id) {
        Some(v) => Some(v),
        None => meta.cclv(part),
    };
    let amve = match meta.amve(id) {
        Some(v) => Some(v),
        None => meta.amve(part),
    };
    let r = Core {
        width: size.0,
        height: size.1,
        bits_per_channel: bytes_or_empty(bits),
        pasp,
        av1c,
        obu_bytes: Vec::new(),
        is_grid,
        colour,
        mdcv,
        clli,
        cclv,
        amve,
    };
    proof {
        assert(r@ =~= derived_core(meta@, id, part, size, is_grid, av1c@));
    }
    r
}

/// What is said of a coded primary image.
pub(crate) fn build_info(
    img: &AvifImage<'_>,
    brands: BrandClass,
    mif1_compliance: Mif1Compliance,
    file: &[u8],
) -> (r: Result<AvifInfo, AvifError>)
    ensures
        outcome_view(r) == info_from(
            coded_core(img@),
            img@.meta,
            file@,
            img@.primary_item_id,
            brands,
            mif1_compliance,
        ),
{
    let av1c = match &img.av1c {
        Some(b) => slice_to_vec(b.as_slice()),
        None => {
            return Err(AvifError::invalid("avif: primary item missing av1C property"));
        },
    };
    let extents = match img.ispe {
        Some(e) => e,
        None => {
            return Err(AvifError::invalid("avif: primary item missing ispe property"));
        },
    };
    let bits_per_channel = match &img.pixi {
        Some(p) => slice_to_vec(p.bits_per_channel.as_slice()),
        None => Vec::new(),
    };
    let colour = match &img.colr {
        Some(c) => Some(c.clone()),
        None => None,
    };
    let core = Core {
        width: extents.width,
        height: extents.height,
        bits_per_channel,
        pasp: img.pasp,
        av1c,
        obu_bytes: slice_to_vec(img.primary_item_data),
        is_grid: false,
        colour,
        mdcv: img.mdcv,
        clli: img.clli,
        cclv: img.cclv,
        amve: img.amve,
    };
    proof {
        assert(core@ =~= coded_core(img@)->Ok_0);
    }
    Ok(complete(&img.meta, file, img.primary_item_id, brands, mif1_compliance, core))
}

/// What is said of a primary image that is a grid.
pub(crate) fn build_info_grid(
    hdr: &AvifHeader<'_>,
    primary_id: u32,
    brands: BrandClass,
    mif1_compliance: Mif1Compliance,
) -> (r: Result<AvifInfo, AvifError>)
    ensures
        outcome_view(r) == info_from(
            grid_core(hdr@, primary_id),
            hdr@.meta,
            hdr@.file,
            primary_id,
            brands,
            mif1_compliance,
        ),
{
    let loc = match hdr.meta.location_by_id(primary_id) {
        Some(l) => l,
        None => {
            return Err(AvifError::invalid("avif: grid item missing in iloc"));
        },
    };
    let bytes = item_bytes_with_idat(hdr.file, idat_of(&hdr.meta), loc)?;
    let grid = ImageGrid::parse(bytes)?;
    let tiles = hdr.meta.iref_targets(&DIMG, primary_id);
    if tiles.len() == 0 {
        return Err(AvifError::invalid("avif: grid item has no dimg iref"));
    }
    let av1c = match hdr.meta.av1c(tiles[0]) {
        Some(b) => b,
        None => {
            return Err(AvifError::invalid("avif: first grid tile missing av1C property"));
        },
    };
    let core = derived_part(
        &hdr.meta,
        primary_id,
        tiles[0],
        (grid.output_width, grid.output_height),
        true,
        av1c,
    );
    Ok(complete(&hdr.meta, hdr.file, primary_id, brands, mif1_compliance, core))
}

/// The first coded image that an item is made of.
fn first_coded_leaf(meta: &Meta, item_id: u32, depth: u32) -> (r: Option<u32>)
    requires
        depth <= MAX_DERIVATION_DEPTH + 1,
    ensures
        r == coded_leaf(meta@, item_id, depth as nat),
    decreases MAX_DERIVATION_DEPTH + 1 - depth,
{
    if depth > MAX_DERIVATION_DEPTH {
        return None;
    }
    let info = match meta.item_by_id(item_id) {
        None => {
            return None;
        },
        Some(info) => info,
    };
    if same_type(&info.item_type, &ITEM_TYPE_AV01) {
        return Some(item_id);
    }
    let inputs = meta.iref_targets(&DIMG, item_id);
    if depth == MAX_DERIVATION_DEPTH {
        return None;
    }
    let mut i: usize = 0;
    while i < inputs.len()
        invariant
            i <= inputs@.len(),
            depth < MAX_DERIVATION_DEPTH,
            first_leaf(meta@, inputs@, i as int, (depth + 1) as nat) == coded_leaf(
                meta@,
                item_id,
                depth as nat,
            ),
        decreases inputs@.len() - i,
    {
        match first_coded_leaf(meta, inputs[i], depth + 1) {
            Some(leaf) => {
                return Some(leaf);
            },
            None => {},
        }
        i = i + 1;
    }
    None
}

/// What is said of a primary image that is derived, other than a grid.
pub(crate) fn build_info_derived(
    hdr: &AvifHeader<'_>,
    primary_id: u32,
    brands: BrandClass,
    mif1_compliance: Mif1Compliance,
) -> (r: Result<AvifInfo, AvifError>)
    ensures
        outcome_view(r) == info_from(
            other_core(hdr@, primary_id),
            hdr@.meta,
            hdr@.file,
            primary_id,
            brands,
            mif1_compliance,
        ),
{
    let (w, h) = match reconstructed_dims(&hdr.meta, primary_id, hdr.file) {
        Some(size) => size,
        None => {
            return Err(
                AvifError::invalid("avif: could not resolve derived primary output dimensions"),
            );
        },
    };
    let size = output_dims_from_reconstructed(&hdr.meta, primary_id, w, h);
    let leaf: u32 = match first_coded_leaf(&hdr.meta, primary_id, 0) {
        Some(leaf) => leaf,
        None => {
            return Err(
                AvifError::invalid("avif: derived primary has no coded av01 leaf for av1C"),
            );
        },
    };
    let av1c = match hdr.meta.av1c(leaf) {
        Some(b) => b,
        None => {
            return Err(
                AvifError::invalid("avif: derived primary's coded leaf missing av1C property"),
            );
        },
    };
    let core = derived_part(&hdr.meta, primary_id, leaf, size, false, av1c);
    Ok(complete(&hdr.meta, hdr.file, primary_id, brands, mif1_compliance, core))
}

/// Say what a file says of its primary image: a coded image, a grid, or
/// another derived image.
pub fn inspect(file: &[u8]) -> (r: Result<AvifInfo, AvifError>)
    ensures
        outcome_view(r) == inspected(file@),
{
    let hdr = parse_header(file)?;
    let primary_id: u32 = match hdr.meta.primary_item_id {
        Some(id) => id,
        None => {
            return Err(AvifError::invalid("avif: missing pitm"));
        },
    };
    let item_type: BoxType = match hdr.meta.item_by_id(primary_id) {
        Some(info) => info.item_type,
        None => {
            return Err(AvifError::invalid("avif: pitm references unknown item"));
        },
    };
    let brands = classify_brands(&hdr.major_brand, hdr.compatible_brands.as_slice())?;
    let mif1 = audit_mif1(file)?;
    if same_type(&item_type, &ITEM_TYPE_GRID) {
        build_info_grid(&hdr, primary_id, brands, mif1)
    } else if same_type(&item_type, &ITEM_TYPE_IOVL) || same_type(&item_type, &ITEM_TYPE_IDEN)
        || same_type(&item_type, &ITEM_TYPE_TMAP) || same_type(&item_type, &ITEM_TYPE_SATO) {
        build_info_derived(&hdr, primary_id, brands, mif1)
    } else {
        let img = parse(file)?;
        build_info(&img, brands, mif1, file)
    }
}

/// The bytes of an item of a file.
pub open spec fn item_payload(file: Seq<u8>, id: u32) -> Result<Seq<u8>, Fault> {
    match header_of(file) {
        Err(f) => Err(f),
        Ok(h) => payload_bytes(file, h.meta, id),
    }
}

/// The bytes of an item of a file, wherever they lie. An Exif item
/// begins with the place of its TIFF header, in four bytes.
pub fn item_payload_bytes(file: &[u8], item_id: u32) -> (r: Result<Vec<u8>, AvifError>)
    ensures
        outcome_view(r) == item_payload(file@, item_id),
{
    let hdr = parse_header(file)?;
    item_bytes_owned_full(file, &hdr.meta, item_id)
}

/// The gain map metadata in an item of a file.
pub open spec fn gain_map_at(file: Seq<u8>, id: u32) -> Result<GainMapView, Fault> {
    match item_payload(file, id) {
        Err(f) => Err(f),
        Ok(s) => gain_map_of(s),
    }
}

/// The gain map metadata in an item of a file.
pub fn gain_map_metadata(file: &[u8], tmap_item_id: u32) -> (r: Result<GainMapMetadata, AvifError>)
    ensures
        outcome_view(r) == gain_map_at(file@, tmap_item_id),
{
    let bytes = item_payload_bytes(file, tmap_item_id)?;
    GainMapMetadata::parse(bytes.as_slice())
}

/// The largest of the first `n` values, or 0.
pub open spec fn largest(s: Seq<u8>, n: nat) -> u8
    decreases n,
{
    if n == 0 {
        0
    } else if s[n - 1] > largest(s, (n - 1) as nat) {
        s[n - 1]
    } else {
        largest(s, (n - 1) as nat)
    }
}

impl AvifInfo {
    /// How many channels there are; 0 where `pixi` is absent.
    pub fn num_channels(&self) -> (r: usize)
        ensures
            r == self@.bits_per_channel.len(),
    {
        self.bits_per_channel.len()
    }

    /// The bits of the deepest channel; 0 where `pixi` is absent.
    pub fn max_bit_depth(&self) -> (r: u8)
        ensures
            r == largest(self@.bits_per_channel, self@.bits_per_channel.len()),
    {
        let mut most: u8 = 0;
        let mut i: usize = 0;
        while i < self.bits_per_channel.len()
            invariant
                i <= self.bits_per_channel@.len(),
                most == largest(self.bits_per_channel@, i as nat),
            decreases self.bits_per_channel@.len() - i,
        {
            if self.bits_per_channel[i] > most {
                most = self.bits_per_channel[i];
            }
            i = i + 1;
        }
        most
    }

    /// Whether there is one channel.
    pub fn is_monochrome(&self) -> (r: bool)
        ensures
            r == (self@.bits_per_channel.len() == 1),
    {
        self.num_channels() == 1
    }

    /// Whether pixels are square: `pasp` is absent or says so.
    pub fn has_square_pixels(&self) -> (r: bool)
        ensures
            r == match self@.pasp {
                None => true,
                Some(p) => p.h_spacing == p.v_spacing && p.h_spacing != 0,
            },
    {
        match self.pasp {
            None => true,
            Some(p) => p.is_square(),
        }
    }

    /// Whether there is HDR metadata of the content.
    pub fn has_hdr_metadata(&self) -> (r: bool)
        ensures
            r == (self@.mdcv is Some || self@.clli is Some || self@.cclv is Some),
    {
        self.mdcv.is_some() || self.clli.is_some() || self.cclv.is_some()
    }

    /// Largest light level of a pixel, in cd/m²: that of `clli`, or else
    /// of `cclv`.
    pub fn max_cll(&self) -> (r: Option<u16>)
        ensures
            r == match self@.clli {
                Some(c) => Some(c.max_content_light_level),
                None => match self@.cclv {
                    Some(c) => Some(c.max_content_light_level),
                    None => None,
                },
            },
    {
        match self.clli {
            Some(c) => Some(c.max_content_light_level),
            None => match self.cclv {
                Some(c) => Some(c.max_content_light_level),
                None => None,
            },
        }
    }

    /// Largest average light level, in cd/m²: that of `clli`, or else of
    /// `cclv`.
    pub fn max_fall(&self) -> (r: Option<u16>)
        ensures
            r == match self@.clli {
                Some(c) => Some(c.max_pic_average_light_level),
                None => match self@.cclv {
                    Some(c) => Some(c.max_pic_average_light_level),
                    None => None,
                },
            },
    {
        match self.clli {
            Some(c) => Some(c.max_pic_average_light_level),
            None => match self.cclv {
                Some(c) => Some(c.max_pic_average_light_level),
                None => None,
            },
        }
    }

    /// Whether the viewing environment is described.
    pub fn has_ambient_viewing_environment(&self) -> (r: bool)
        ensures
            r == (self@.amve is Some),
    {
        self.amve.is_some()
    }

    /// Whether there are thumbnails.
    pub fn has_thumbnails(&self) -> (r: bool)
        ensures
            r == (self@.thumbnail_item_ids.len() > 0),
    {
        self.thumbnail_item_ids.len() > 0
    }

    /// Whether Exif or XMP describes the image.
    pub fn has_descriptive_metadata(&self) -> (r: bool)
        ensures
            r == (self@.exif_item_id is Some || self@.xmp_item_id is Some),
    {
        self.exif_item_id.is_some() || self.xmp_item_id.is_some()
    }

    /// Whether there is a depth map.
    pub fn has_depth_map(&self) -> (r: bool)
        ensures
            r == (self@.depth_map_item_id is Some),
    {
        self.depth_map_item_id.is_some()
    }

    /// Whether there is an HDR gain map.
    pub fn has_hdr_gain_map(&self) -> (r: bool)
        ensures
            r == (self@.hdr_gain_map_item_id is Some),
    {
        self.hdr_gain_map_item_id.is_some()
    }

    /// Whether there are sample transforms.
    pub fn has_sample_transform(&self) -> (r: bool)
        ensures
            r == (self@.sato_item_ids.len() > 0),
    {
        self.sato_item_ids.len() > 0
    }

    /// Whether there are tone maps.
    pub fn has_tone_map(&self) -> (r: bool)
        ensures
            r == (self@.tmap_item_ids.len() > 0),
    {
        self.tmap_item_ids.len() > 0
    }

    /// Whether every tone map keeps the recommendations; so where there
    /// is none.
    pub fn tone_map_strict_compliant(&self) -> (r: bool)
        ensures
            r == forall|i: int|
                0 <= i < self@.tone_map_compliance.len() ==> (#[trigger] self@.tone_map_compliance[i]).kept(),
    {
        let ghost all = self@.tone_map_compliance;
        let mut i: usize = 0;
        while i < self.tone_map_compliance.len()
            invariant
                all == self@.tone_map_compliance,
                i <= all.len(),
                all.len() == self.tone_map_compliance@.len(),
                forall|j: int| 0 <= j < i ==> (#[trigger] all[j]).kept(),
            decreases all.len() - i,
        {
            if !self.tone_map_compliance[i].is_compliant() {
                proof {
                    assert(!all[i as int].kept());
                }
                return false;
            }
            i = i + 1;
        }
        true
    }

    /// Whether no input of a grid is transformed; so where there is no
    /// grid.
    pub fn grid_derivations_strict_compliant(&self) -> (r: bool)
        ensures
            r == forall|i: int|
                0 <= i < self@.grid_derivation_compliance.len() ==> (#[trigger] self@.grid_derivation_compliance[i]).kept(),
    {
        let ghost all = self@.grid_derivation_compliance;
        let mut i: usize = 0;
        while i < self.grid_derivation_compliance.len()
            invariant
                all == self@.grid_derivation_compliance,
                i <= all.len(),
                all.len() == self.grid_derivation_compliance@.len(),
                forall|j: int| 0 <= j < i ==> (#[trigger] all[j]).kept(),
            decreases all.len() - i,
        {
            if !self.grid_derivation_compliance[i].is_compliant() {
                proof {
                    assert(!all[i as int].kept());
                }
                return false;
            }
            i = i + 1;
        }
        true
    }

    /// Whether there are identity derivations.
    pub fn has_iden(&self) -> (r: bool)
        ensures
            r == (self@.iden_item_ids.len() > 0),
    {
        self.iden_item_ids.len() > 0
    }

    /// Whether every identity derivation keeps the rules; so where there
    /// is none.
    pub fn iden_strict_compliant(&self) -> (r: bool)
        ensures
            r == forall|i: int|
                0 <= i < self@.iden_compliance.len() ==> (#[trigger] self@.iden_compliance[i]).kept(),
    {
        let ghost all = self@.iden_compliance;
        let mut i: usize = 0;
        while i < self.iden_compliance.len()
            invariant
                all == self@.iden_compliance,
                i <= all.len(),
                all.len() == self.iden_compliance@.len(),
                forall|j: int| 0 <= j < i ==> (#[trigger] all[j]).kept(),
            decreases all.len() - i,
        {
            if !self.iden_compliance[i].is_compliant() {
                proof {
                    assert(!all[i as int].kept());
                }
                return false;
            }
            i = i + 1;
        }
        true
    }

    /// Whether there are overlays that can be read.
    pub fn has_overlay(&self) -> (r: bool)
        ensures
            r == (self@.overlay_resolutions.len() > 0),
    {
        self.overlay_resolutions.len() > 0
    }

    /// The first overlay with this item, worked out.
    pub fn overlay_for(&self, iovl_item_id: u32) -> (r: Option<&OverlayResolution>)
        ensures
            match r {
                Some(v) => exists|i: int|
                    0 <= i < self@.overlay_resolutions.len() && v@ == #[trigger] self@.overlay_resolutions[i]
                        && v@.iovl_item_id == iovl_item_id && forall|j: int|
                        0 <= j < i ==> (#[trigger] self@.overlay_resolutions[j]).iovl_item_id != iovl_item_id,
                None => forall|i: int|
                    0 <= i < self@.overlay_resolutions.len() ==> (
                    #[trigger] self@.overlay_resolutions[i]).iovl_item_id != iovl_item_id,
            },
    {
        let ghost all = self@.overlay_resolutions;
        let mut i: usize = 0;
        while i < self.overlay_resolutions.len()
            invariant
                all == self@.overlay_resolutions,
                i <= all.len(),
                all.len() == self.overlay_resolutions@.len(),
                forall|j: int| 0 <= j < i ==> (#[trigger] all[j]).iovl_item_id != iovl_item_id,
            decreases all.len() - i,
        {
            proof {
                assert(all[i as int] == self.overlay_resolutions@[i as int]@);
            }
            if self.overlay_resolutions[i].iovl_item_id == iovl_item_id {
                return Some(&self.overlay_resolutions[i]);
            }
            i = i + 1;
        }
        None
    }

    /// The first identity derivation with this item, worked out.
    pub fn iden_resolution_for(&self, iden_item_id: u32) -> (r: Option<&IdenResolution>)
        ensures
            match r {
                Some(v) => exists|i: int|
                    0 <= i < self@.iden_resolutions.len() && v@ == #[trigger] self@.iden_resolutions[i]
                        && v@.iden_item_id == iden_item_id && forall|j: int|
                        0 <= j < i ==> (#[trigger] self@.iden_resolutions[j]).iden_item_id != iden_item_id,
                None => forall|i: int|
                    0 <= i < self@.iden_resolutions.len() ==> (
                    #[trigger] self@.iden_resolutions[i]).iden_item_id != iden_item_id,
            },
    {
        let ghost all = self@.iden_resolutions;
        let mut i: usize = 0;
        while i < self.iden_resolutions.len()
            invariant
                all == self@.iden_resolutions,
                i <= all.len(),
                all.len() == self.iden_resolutions@.len(),
                forall|j: int| 0 <= j < i ==> (#[trigger] all[j]).iden_item_id != iden_item_id,
            decreases all.len() - i,
        {
            proof {
                assert(all[i as int] == self.iden_resolutions@[i as int]@);
            }
            if self.iden_resolutions[i].iden_item_id == iden_item_id {
                return Some(&self.iden_resolutions[i]);
            }
            i = i + 1;
        }
        None
    }

    /// The first tone map with this item, worked out.
    pub fn tone_map_resolution_for(&self, tmap_item_id: u32) -> (r: Option<&ToneMapResolution>)
        ensures
            match r {
                Some(v) => exists|i: int|
                    0 <= i < self@.tone_map_resolutions.len() && v@ == #[trigger] self@.tone_map_resolutions[i]
                        && v@.tmap_item_id == tmap_item_id && forall|j: int|
                        0 <= j < i ==> (#[trigger] self@.tone_map_resolutions[j]).tmap_item_id != tmap_item_id,
                None => forall|i: int|
                    0 <= i < self@.tone_map_resolutions.len() ==> (
                    #[trigger] self@.tone_map_resolutions[i]).tmap_item_id != tmap_item_id,
            },
    {
        let ghost all = self@.tone_map_resolutions;
        let mut i: usize = 0;
        while i < self.tone_map_resolutions.len()
            invariant
                all == self@.tone_map_resolutions,
                i <= all.len(),
                all.len() == self.tone_map_resolutions@.len(),
                forall|j: int| 0 <= j < i ==> (#[trigger] all[j]).tmap_item_id != tmap_item_id,
            decreases all.len() - i,
        {
            proof {
                assert(all[i as int] == self.tone_map_resolutions@[i as int]@);
            }
            if self.tone_map_resolutions[i].tmap_item_id == tmap_item_id {
                return Some(&self.tone_map_resolutions[i]);
            }
            i = i + 1;
        }
        None
    }

    /// Whether there are grids that can be read.
    pub fn has_grid(&self) -> (r: bool)
        ensures
            r == (self@.grid_resolutions.len() > 0),
    {
        self.grid_resolutions.len() > 0
    }

    /// The first grid with this item, worked out.
    pub fn grid_resolution_for(&self, grid_item_id: u32) -> (r: Option<&GridResolution>)
        ensures
            match r {
                Some(v) => exists|i: int|
                    0 <= i < self@.grid_resolutions.len() && v@ == #[trigger] self@.grid_resolutions[i]
                        && v@.grid_item_id == grid_item_id && forall|j: int|
                        0 <= j < i ==> (#[trigger] self@.grid_resolutions[j]).grid_item_id != grid_item_id,
                None => forall|i: int|
                    0 <= i < self@.grid_resolutions.len() ==> (
                    #[trigger] self@.grid_resolutions[i]).grid_item_id != grid_item_id,
            },
    {
        let ghost all = self@.grid_resolutions;
        let mut i: usize = 0;
        while i < self.grid_resolutions.len()
            invariant
                all == self@.grid_resolutions,
                i <= all.len(),
                all.len() == self.grid_resolutions@.len(),
                forall|j: int| 0 <= j < i ==> (#[trigger] all[j]).grid_item_id != grid_item_id,
            decreases all.len() - i,
        {
            proof {
                assert(all[i as int] == self.grid_resolutions@[i as int]@);
            }
            if self.grid_resolutions[i].grid_item_id == grid_item_id {
                return Some(&self.grid_resolutions[i]);
            }
            i = i + 1;
        }
        None
    }

    /// Whether every alpha plane has the bit depth of its master; so
    /// where there is none.
    pub fn alpha_bit_depth_strict_compliant(&self) -> (r: bool)
        ensures
            r == forall|i: int|
                0 <= i < self@.alpha_bit_depth_compliance.len() ==> (#[trigger] self@.alpha_bit_depth_compliance[i]).kept(),
    {
        let ghost all = self@.alpha_bit_depth_compliance;
        let mut i: usize = 0;
        while i < self.alpha_bit_depth_compliance.len()
            invariant
                all == self@.alpha_bit_depth_compliance,
                i <= all.len(),
                all.len() == self.alpha_bit_depth_compliance@.len(),
                forall|j: int| 0 <= j < i ==> (#[trigger] all[j]).kept(),
            decreases all.len() - i,
        {
            if !self.alpha_bit_depth_compliance[i].is_compliant() {
                proof {
                    assert(!all[i as int].kept());
                }
                return false;
            }
            i = i + 1;
        }
        true
    }

    /// Whether every coded image holds one sequence header; so where
    /// there is none.
    pub fn sequence_header_obu_strict_compliant(&self) -> (r: bool)
        ensures
            r == forall|i: int|
                0 <= i < self@.sequence_header_obu_compliance.len() ==> (#[trigger] self@.sequence_header_obu_compliance[i]).kept(),
    {
        let ghost all = self@.sequence_header_obu_compliance;
        let mut i: usize = 0;
        while i < self.sequence_header_obu_compliance.len()
            invariant
                all == self@.sequence_header_obu_compliance,
                i <= all.len(),
                all.len() == self.sequence_header_obu_compliance@.len(),
                forall|j: int| 0 <= j < i ==> (#[trigger] all[j]).kept(),
            decreases all.len() - i,
        {
            if !self.sequence_header_obu_compliance[i].is_compliant() {
                proof {
                    assert(!all[i as int].kept());
                }
                return false;
            }
            i = i + 1;
        }
        true
    }

    /// Whether every coded image keeps the bounds of the declared
    /// profiles; so where there is none, or no profile.
    pub fn avif_profile_strict_compliant(&self) -> (r: bool)
        ensures
            r == forall|i: int|
                0 <= i < self@.avif_profile_compliance.len() ==> (#[trigger] self@.avif_profile_compliance[i]).kept(),
    {
        let ghost all = self@.avif_profile_compliance;
        let mut i: usize = 0;
        while i < self.avif_profile_compliance.len()
            invariant
                all == self@.avif_profile_compliance,
                i <= all.len(),
                all.len() == self.avif_profile_compliance@.len(),
                forall|j: int| 0 <= j < i ==> (#[trigger] all[j]).kept(),
            decreases all.len() - i,
        {
            if !self.avif_profile_compliance[i].is_compliant() {
                proof {
                    assert(!all[i as int].kept());
                }
                return false;
            }
            i = i + 1;
        }
        true
    }

    /// Whether the file claims `mif1` and has the boxes for it.
    pub fn is_strict_mif1(&self) -> (r: bool)
        ensures
            r == (self@.mif1_compliance.claims_mif1 && self@.mif1_compliance.complete()),
    {
        self.mif1_compliance.claims_mif1 && self.mif1_compliance.is_compliant()
    }

    /// The code points that the colour description stands for.
    pub fn effective_cicp(&self) -> (r: CicpTriple)
        ensures
            r == cicp_of(self@.colour),
    {
        match &self.colour {
            Some(c) => effective_cicp(Some(c)),
            None => effective_cicp(None),
        }
    }
}

} // verus!
