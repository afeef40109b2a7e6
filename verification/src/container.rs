//! The container writer: what a file is to hold, and the calls that
//! queue it.

use crate::box_parser::{be32, box_at, BoxType, UUID};
use crate::bytes::{b16, b32, box_bytes};
use crate::error::{outcome_view, AvifError, Fault};
use crate::meta::MetaView;
use crate::meta_parse::{
    IrefView, ItemInfoView, PropertyAssociation, ITEM_TYPE_EXIF, ITEM_TYPE_IDEN, ITEM_TYPE_IOVL,
    ITEM_TYPE_MIME, ITEM_TYPE_URI,
};
use crate::parser::{
    classified, header_of, listed, mif1_of, payload_bytes, BRAND_MIF1, ITEM_TYPE_GRID,
};
use crate::props::{
    A1lx, Amve, AuxCView, Clap, Clli, Colr, ColrView, Imir, Irot, Ispe, Mdcv, Pasp, PropertyView,
    AUXC, AV1C, ISPE, MDCV, NCLX, PROF,
};
use crate::props_parse::property_of;
use oxideav_heif::derived::{GridDescriptor, OverlayDescriptor};
use oxideav_heif::meta::RawProperty;
use oxideav_heif::props::Property as HeifProperty;
use oxideav_heif::{props as heif_props, Av1Config, HeifError, HeifFile, HeifWriter};
use vstd::prelude::*;
use vstd::utf8::encode_utf8;

verus! {

/// `dimg` — a reference from a derived image to its inputs.
pub const DIMG: BoxType = [0x64, 0x69, 0x6d, 0x67];

/// `cdsc` — a reference from a metadata item to the image it describes.
pub const CDSC: BoxType = [0x63, 0x64, 0x73, 0x63];

/// `auxl` — a reference from an auxiliary image to its master.
pub const AUXL: BoxType = [0x61, 0x75, 0x78, 0x6c];

/// `prem` — a reference from an image to the alpha that premultiplies it.
pub const PREM: BoxType = [0x70, 0x72, 0x65, 0x6d];

/// `pict` — the picture handler.
pub const PICT: BoxType = [0x70, 0x69, 0x63, 0x74];

// ---------------------------------------------------------------------
// Properties

/// Four zeros: version 0 and no flags.
pub open spec fn no_flags() -> Seq<u8> {
    seq![0u8, 0u8, 0u8, 0u8]
}

/// The body of a colour description. `Icc` stands for an unrestricted
/// profile.
pub open spec fn colr_body(c: ColrView) -> Seq<u8> {
    match c {
        ColrView::Nclx {
            colour_primaries,
            transfer_characteristics,
            matrix_coefficients,
            full_range,
        } => NCLX@ + b16(colour_primaries) + b16(transfer_characteristics) + b16(
            matrix_coefficients,
        ) + seq![
            if full_range {
                0x80u8
            } else {
                0u8
            },
        ],
        ColrView::Icc(profile) => PROF@ + profile,
        ColrView::Unknown(t) => t@,
    }
}

/// The body of a clean aperture.
pub open spec fn clap_body(c: Clap) -> Seq<u8> {
    b32(c.clean_aperture_width_n as u32) + b32(c.clean_aperture_width_d as u32) + b32(
        c.clean_aperture_height_n as u32,
    ) + b32(c.clean_aperture_height_d as u32) + b32(c.horiz_off_n as u32) + b32(
        c.horiz_off_d as u32,
    ) + b32(c.vert_off_n as u32) + b32(c.vert_off_d as u32)
}

/// The body of a mastering display colour volume.
pub open spec fn mdcv_body(m: Mdcv) -> Seq<u8> {
    b16(m.display_primaries_xy[0].0) + b16(m.display_primaries_xy[0].1) + b16(
        m.display_primaries_xy[1].0,
    ) + b16(m.display_primaries_xy[1].1) + b16(m.display_primaries_xy[2].0) + b16(
        m.display_primaries_xy[2].1,
    ) + b16(m.white_point_xy.0) + b16(m.white_point_xy.1) + b32(m.max_display_mastering_luminance)
        + b32(m.min_display_mastering_luminance)
}

/// The body of a layer index.
pub open spec fn a1lx_body(a: A1lx) -> Seq<u8> {
    if a.large_size {
        seq![1u8] + b32(a.layer_size[0]) + b32(a.layer_size[1]) + b32(a.layer_size[2])
    } else {
        seq![0u8] + b16(a.layer_size[0] as u16) + b16(a.layer_size[1] as u16) + b16(
            a.layer_size[2] as u16,
        )
    }
}

/// The body of a property that is written.
#[verifier::opaque]
pub open spec fn body_of(p: PropertyView) -> Seq<u8> {
    match p {
        PropertyView::Av1C(record) => record,
        PropertyView::Ispe(v) => no_flags() + b32(v.width) + b32(v.height),
        PropertyView::Colr(c) => colr_body(c),
        PropertyView::Pixi(bits) => no_flags() + seq![bits.len() as u8] + bits,
        PropertyView::Pasp(v) => b32(v.h_spacing) + b32(v.v_spacing),
        PropertyView::Irot(v) => seq![(v.angle % 4) as u8],
        PropertyView::Imir(v) => seq![(v.axis % 2) as u8],
        PropertyView::Clap(c) => clap_body(c),
        PropertyView::AuxC(a) => no_flags() + encode_utf8(a.aux_type) + seq![0u8] + a.aux_subtype,
        PropertyView::Mdcv(m) => mdcv_body(m),
        PropertyView::Clli(c) => b16(c.max_content_light_level) + b16(
            c.max_pic_average_light_level,
        ),
        PropertyView::Amve(a) => b32(a.ambient_illuminance) + b16(a.ambient_light_x) + b16(
            a.ambient_light_y,
        ),
        PropertyView::Lsel(l) => b16(l.layer_id),
        PropertyView::A1op(a) => seq![a.op_index],
        PropertyView::A1lx(a) => a1lx_body(a),
        _ => Seq::empty(),
    }
}

/// `oxideav_heif::props::Property`, a property that the container
/// writes.
#[verifier::external_type_specification]
#[verifier::external_body]
pub struct ExHeifProperty(HeifProperty);

/// The type and the body of the box that the container writes for a
/// property.
pub uninterp spec fn property_parts(p: HeifProperty) -> (BoxType, Seq<u8>);

/// The parts of a property of this crate.
pub open spec fn parts_of(p: PropertyView) -> (BoxType, Seq<u8>) {
    (p.kind(), body_of(p))
}

/// `oxideav_heif::Av1Config::parse`, on a record of at least four bytes:
/// a property that is written as the record stands. Only a record whose
/// first byte holds the marker bit and version 1 is taken.
#[verifier::external_body]
pub(crate) fn heif_av1c(record: &[u8]) -> (r: Option<HeifProperty>)
    requires
        record@.len() >= 4,
    ensures
        r is Some <==> record@[0] == 0x81,
        r is Some ==> property_parts(r->0) == parts_of(PropertyView::Av1C(record@)),
{
    Av1Config::parse(record).ok().map(HeifProperty::Av1C)
}

/// `oxideav_heif::props::Ispe::new`.
#[verifier::external_body]
pub(crate) fn heif_ispe(v: Ispe) -> (r: HeifProperty)
    ensures
        property_parts(r) == parts_of(PropertyView::Ispe(v)),
{
    HeifProperty::Ispe(heif_props::Ispe::new(v.width, v.height))
}

/// `oxideav_heif::props::Pixi::new`. The count is written in one byte.
#[verifier::external_body]
pub(crate) fn heif_pixi(bits: Vec<u8>) -> (r: HeifProperty)
    ensures
        property_parts(r) == parts_of(PropertyView::Pixi(bits@)),
{
    HeifProperty::Pixi(heif_props::Pixi::new(bits))
}

/// `oxideav_heif::props::Colr`, with code points.
#[verifier::external_body]
pub(crate) fn heif_nclx(
    colour_primaries: u16,
    transfer_characteristics: u16,
    matrix_coefficients: u16,
    full_range: bool,
) -> (r: HeifProperty)
    ensures
        property_parts(r) == parts_of(
            PropertyView::Colr(
                ColrView::Nclx {
                    colour_primaries,
                    transfer_characteristics,
                    matrix_coefficients,
                    full_range,
                },
            ),
        ),
{
    HeifProperty::Colr(
        heif_props::Colr::Nclx {
            primaries: colour_primaries,
            transfer: transfer_characteristics,
            matrix: matrix_coefficients,
            full_range,
        },
    )
}

/// `oxideav_heif::props::Colr`, with an unrestricted ICC profile.
#[verifier::external_body]
pub(crate) fn heif_icc(profile: Vec<u8>) -> (r: HeifProperty)
    ensures
        property_parts(r) == parts_of(PropertyView::Colr(ColrView::Icc(profile@))),
{
    HeifProperty::Colr(heif_props::Colr::Icc { restricted: false, profile })
}

/// `oxideav_heif::props::Pasp::new`.
#[verifier::external_body]
pub(crate) fn heif_pasp(v: Pasp) -> (r: HeifProperty)
    ensures
        property_parts(r) == parts_of(PropertyView::Pasp(v)),
{
    HeifProperty::Pasp(heif_props::Pasp::new(v.h_spacing, v.v_spacing))
}

/// `oxideav_heif::props::Clap::new`, which holds sizes and denominators
/// without a sign; the bits written are the same.
#[verifier::external_body]
pub(crate) fn heif_clap(c: Clap) -> (r: HeifProperty)
    ensures
        property_parts(r) == parts_of(PropertyView::Clap(c)),
{
    HeifProperty::Clap(
        heif_props::Clap::new(
            c.clean_aperture_width_n as u32,
            c.clean_aperture_width_d as u32,
            c.clean_aperture_height_n as u32,
            c.clean_aperture_height_d as u32,
            c.horiz_off_n,
            c.horiz_off_d as u32,
            c.vert_off_n,
            c.vert_off_d as u32,
        ),
    )
}

/// `oxideav_heif::props::Irot::new`. Two bits are written.
#[verifier::external_body]
pub(crate) fn heif_irot(v: Irot) -> (r: HeifProperty)
    ensures
        property_parts(r) == parts_of(PropertyView::Irot(v)),
{
    HeifProperty::Irot(heif_props::Irot::new(v.angle))
}

/// `oxideav_heif::props::Imir::new`. One bit is written.
#[verifier::external_body]
pub(crate) fn heif_imir(v: Imir) -> (r: HeifProperty)
    ensures
        property_parts(r) == parts_of(PropertyView::Imir(v)),
{
    HeifProperty::Imir(heif_props::Imir::new(v.axis))
}

/// `oxideav_heif::props::AuxC::new`, with no subtype.
#[verifier::external_body]
pub(crate) fn heif_auxc(urn: &str) -> (r: HeifProperty)
    ensures
        property_parts(r) == parts_of(
            PropertyView::AuxC(AuxCView { aux_type: urn@, aux_subtype: Seq::empty() }),
        ),
{
    HeifProperty::AuxC(heif_props::AuxC::new(urn.to_string(), Vec::new()))
}

/// `oxideav_heif::meta::RawProperty::new`: an `mdcv` box with this body,
/// written as it stands.
#[verifier::external_body]
pub(crate) fn heif_raw_mdcv(body: Vec<u8>) -> (r: HeifProperty)
    requires
        body@.len() == 24,
    ensures
        property_parts(r) == (MDCV, body@),
{
    HeifProperty::Unknown(RawProperty::new(MDCV, None, body, 32))
}

/// `oxideav_heif::props::Clli::new`.
#[verifier::external_body]
pub(crate) fn heif_clli(c: Clli) -> (r: HeifProperty)
    ensures
        property_parts(r) == parts_of(PropertyView::Clli(c)),
{
    HeifProperty::Clli(
        heif_props::Clli::new(c.max_content_light_level, c.max_pic_average_light_level),
    )
}

/// `oxideav_heif::props::Amve::new`.
#[verifier::external_body]
pub(crate) fn heif_amve(a: Amve) -> (r: HeifProperty)
    ensures
        property_parts(r) == parts_of(PropertyView::Amve(a)),
{
    HeifProperty::Amve(
        heif_props::Amve::new(a.ambient_illuminance, a.ambient_light_x, a.ambient_light_y),
    )
}

/// `oxideav_heif::props::Lsel::new`.
#[verifier::external_body]
pub(crate) fn heif_lsel(layer_id: u16) -> (r: HeifProperty)
    ensures
        property_parts(r) == parts_of(PropertyView::Lsel(crate::props::Lsel { layer_id })),
{
    HeifProperty::Lsel(heif_props::Lsel::new(layer_id))
}

/// `oxideav_heif::props::A1op::new`.
#[verifier::external_body]
pub(crate) fn heif_a1op(op_index: u8) -> (r: HeifProperty)
    ensures
        property_parts(r) == parts_of(PropertyView::A1op(crate::props::A1op { op_index })),
{
    HeifProperty::A1op(heif_props::A1op::new(op_index))
}

/// `oxideav_heif::props::A1lx::new`. Sizes of 16 bits lose what lies
/// above them.
#[verifier::external_body]
pub(crate) fn heif_a1lx(a: A1lx) -> (r: HeifProperty)
    ensures
        property_parts(r) == parts_of(PropertyView::A1lx(a)),
{
    HeifProperty::A1lx(heif_props::A1lx::new(a.large_size, a.layer_size))
}

/// `oxideav_heif::props::write::property_box`: the box of a property.
#[verifier::external_body]
pub(crate) fn property_box(p: &HeifProperty) -> (r: Vec<u8>)
    ensures
        r@ == box_bytes(property_parts(*p).0, property_parts(*p).1),
{
    heif_props::write::property_box(p)
}

// ---------------------------------------------------------------------
// What a file is to hold

/// A property of an item to be written.
#[verifier::ext_equal]
pub struct PropPlan {
    /// Box type.
    pub box_type: BoxType,
    /// Box body.
    pub body: Seq<u8>,
    /// Whether a reader must understand it.
    pub essential: bool,
}

/// What an item is made of.
pub enum BodyPlan {
    /// Coded image data.
    Coded(Seq<u8>),
    /// The descriptor of a derived image.
    Descriptor(Seq<u8>),
    /// An identity derivation, which has no body.
    Identity,
    /// A metadata payload.
    Metadata(Seq<u8>),
}

impl BodyPlan {
    /// The bytes of the body; an identity derivation has none.
    pub open spec fn bytes(self) -> Option<Seq<u8>> {
        match self {
            BodyPlan::Coded(b) => Some(b),
            BodyPlan::Descriptor(b) => Some(b),
            BodyPlan::Identity => None,
            BodyPlan::Metadata(b) => Some(b),
        }
    }
}

/// An item to be written.
#[verifier::ext_equal]
pub struct ItemPlan {
    /// Item type.
    pub item_type: BoxType,
    /// MIME type, of a `mime` item.
    pub content_type: Option<Seq<char>>,
    /// Whether the item is hidden.
    pub hidden: bool,
    /// What it is made of.
    pub body: BodyPlan,
    /// Its properties, in order.
    pub properties: Seq<PropPlan>,
}

/// What is read of a property with this type and body.
#[verifier::opaque]
pub open spec fn read_of(box_type: BoxType, body: Seq<u8>) -> Result<PropertyView, Fault> {
    property_of(box_type, body)
}

/// A file to be written. Item ids are places in `items`, from 1.
#[verifier::ext_equal]
pub struct FilePlan {
    /// Major and compatible brands.
    pub brands: Option<(BoxType, Seq<BoxType>)>,
    /// Items, in order.
    pub items: Seq<ItemPlan>,
    /// References, in order.
    pub references: Seq<IrefView>,
    /// Primary item.
    pub primary: Option<u32>,
}

/// A file with nothing in it.
pub open spec fn empty_plan() -> FilePlan {
    FilePlan { brands: None, items: Seq::empty(), references: Seq::empty(), primary: None }
}

/// How many properties the first `n` items have.
pub open spec fn property_count(items: Seq<ItemPlan>, n: nat) -> nat
    decreases n,
{
    if n == 0 {
        0
    } else {
        property_count(items, (n - 1) as nat) + items[n - 1].properties.len()
    }
}

/// The boxes of the first `n` properties of a list, after `before`. Of
/// equal boxes one is stored, but for decoder configurations, which are
/// never shared.
pub open spec fn stored_list(
    properties: Seq<PropPlan>,
    n: nat,
    before: Seq<(BoxType, Seq<u8>)>,
) -> Seq<(BoxType, Seq<u8>)>
    decreases n,
{
    if n == 0 {
        before
    } else {
        let s = stored_list(properties, (n - 1) as nat, before);
        let b = (properties[n - 1].box_type, properties[n - 1].body);
        if b.0 != AV1C && s.contains(b) {
            s
        } else {
            s.push(b)
        }
    }
}

/// The boxes that are stored for the properties of the first `n` items.
pub open spec fn stored(items: Seq<ItemPlan>, n: nat) -> Seq<(BoxType, Seq<u8>)>
    decreases n,
{
    if n == 0 {
        Seq::empty()
    } else {
        stored_list(
            items[n - 1].properties,
            items[n - 1].properties.len(),
            stored(items, (n - 1) as nat),
        )
    }
}

proof fn lemma_stored_list(properties: Seq<PropPlan>, n: nat, before: Seq<(BoxType, Seq<u8>)>)
    ensures
        stored_list(properties, n, before).len() <= before.len() + n,
    decreases n,
{
    if n > 0 {
        lemma_stored_list(properties, (n - 1) as nat, before);
    }
}

/// No more boxes are stored than there are properties.
pub proof fn lemma_stored(items: Seq<ItemPlan>, n: nat)
    ensures
        stored(items, n).len() <= property_count(items, n),
    decreases n,
{
    if n > 0 {
        lemma_stored(items, (n - 1) as nat);
        lemma_stored_list(
            items[n - 1].properties,
            items[n - 1].properties.len(),
            stored(items, (n - 1) as nat),
        );
    }
}

/// Whether a property that is written can be read. A `uuid` type would
/// need a longer box.
pub open spec fn readable_property(p: PropPlan) -> bool {
    p.box_type != UUID && read_of(p.box_type, p.body) is Ok
}

impl ItemPlan {
    /// Whether the item has a property of this type.
    pub open spec fn has(self, t: BoxType) -> bool {
        exists|j: int| 0 <= j < self.properties.len() && #[trigger] self.properties[j].box_type == t
    }

    /// What a reader needs of the item: an image has extents, coded data
    /// has its decoder configuration, and a `mime` item alone has a MIME
    /// type.
    pub open spec fn complete(self) -> bool {
        &&& self.item_type != ITEM_TYPE_URI
        &&& self.item_type == ITEM_TYPE_MIME <==> self.content_type is Some
        &&& self.properties.len() <= 255
        &&& self.body is Metadata || self.has(ISPE)
        &&& self.body is Coded ==> self.has(AV1C)
    }

    /// How `infe` describes the item under this id.
    pub open spec fn entry(self, id: u32) -> ItemInfoView {
        ItemInfoView {
            id,
            item_type: self.item_type,
            name: Seq::empty(),
            content_type: self.content_type,
            content_encoding: None,
            item_uri_type: None,
            flags: if self.hidden {
                1
            } else {
                0
            },
        }
    }
}

impl FilePlan {
    /// The major brand.
    pub open spec fn major(self) -> BoxType {
        match self.brands {
            Some((major, _)) => major,
            None => [0u8, 0u8, 0u8, 0u8],
        }
    }

    /// The compatible brands.
    pub open spec fn compatible(self) -> Seq<BoxType> {
        match self.brands {
            Some((_, compatible)) => compatible,
            None => Seq::empty(),
        }
    }

    /// The id that the next item gets.
    pub open spec fn next_id(self) -> u32 {
        (self.items.len() + 1) as u32
    }

    /// Whether there is an item with this id.
    pub open spec fn holds(self, id: u32) -> bool {
        1 <= id <= self.items.len()
    }

    /// The item with this id.
    pub open spec fn item(self, id: u32) -> ItemPlan {
        self.items[id - 1]
    }

    /// This file with one more item.
    pub open spec fn with_item(self, item: ItemPlan) -> FilePlan {
        FilePlan { items: self.items.push(item), ..self }
    }

    /// This file with one more reference.
    pub open spec fn with_reference(self, t: BoxType, from_id: u32, to_ids: Seq<u32>) -> FilePlan {
        FilePlan {
            references: self.references.push(IrefView { reference_type: t, from_id, to_ids }),
            ..self
        }
    }

    /// This file with an item hidden or shown.
    pub open spec fn with_hidden(self, id: u32, hidden: bool) -> FilePlan {
        if self.holds(id) {
            FilePlan {
                items: self.items.update(id - 1, ItemPlan { hidden, ..self.item(id) }),
                ..self
            }
        } else {
            self
        }
    }

    /// Whether a reference leads from an item of the file to items of
    /// the file. A `uuid` type would need a longer box.
    pub open spec fn resolves(self, e: IrefView) -> bool {
        &&& self.holds(e.from_id)
        &&& e.reference_type != UUID
        &&& e.to_ids.len() <= 0xffff
        &&& forall|j: int| 0 <= j < e.to_ids.len() ==> self.holds(#[trigger] e.to_ids[j])
    }

    /// Whether the file can be written: it has brands and a primary
    /// item, its items are complete, its references resolve, and the
    /// number of the properties that it stores fits 16 bits.
    pub open spec fn valid(self) -> bool {
        &&& self.brands is Some
        &&& self.items.len() < 0xffff_ffff
        &&& self.primary is Some && self.holds(self.primary->0)
        &&& forall|i: int| 0 <= i < self.items.len() ==> (#[trigger] self.items[i]).complete()
        &&& forall|i: int|
            0 <= i < self.references.len() ==> self.resolves(#[trigger] self.references[i])
        &&& self.stored_count() <= 0xffff
    }

    /// How many properties the file stores.
    pub open spec fn stored_count(self) -> nat {
        stored(self.items, self.items.len()).len()
    }

    /// Whether this crate reads the file: the brands say that it may
    /// hold images, and every property can be read.
    pub open spec fn readable(self) -> bool {
        &&& self.brands is Some
        &&& classified(self.major(), self.compatible()) is Ok
        &&& forall|i: int, j: int|
            #![trigger self.items[i].properties[j]]
            0 <= i < self.items.len() && 0 <= j < self.items[i].properties.len()
                ==> readable_property(self.items[i].properties[j])
    }
}

/// The places of the properties of an item.
pub open spec fn entries_of(meta: MetaView, id: u32) -> Seq<PropertyAssociation> {
    match meta.association(id) {
        None => Seq::empty(),
        Some(a) => a.entries,
    }
}

/// Whether an entry leads to a property as it is to be written.
pub open spec fn leads(meta: MetaView, e: PropertyAssociation, p: PropPlan) -> bool {
    &&& e.index < meta.properties.len()
    &&& Ok::<PropertyView, Fault>(meta.properties[e.index as int]) == read_of(p.box_type, p.body)
    &&& e.essential == p.essential
}

/// Whether the properties that `meta` lists for an item are these, in
/// this order.
pub open spec fn lists(meta: MetaView, id: u32, properties: Seq<PropPlan>) -> bool {
    &&& entries_of(meta, id).len() == properties.len()
    &&& forall|j: int|
        0 <= j < properties.len() ==> leads(
            meta,
            #[trigger] entries_of(meta, id)[j],
            properties[j],
        )
}

/// Whether a file holds the item under this id: its entry, its
/// properties and its bytes.
pub open spec fn stores(file: Seq<u8>, meta: MetaView, id: u32, item: ItemPlan) -> bool {
    &&& meta.item(id) == Some(item.entry(id))
    &&& lists(meta, id, item.properties)
    &&& item.body.bytes() is Some ==> payload_bytes(file, meta, id) == Ok::<Seq<u8>, Fault>(
        item.body.bytes()->0,
    )
    &&& item.body is Coded ==> meta.location(id) is Some && crate::parser::slice_of(
        file,
        meta.location(id)->0,
    ) == Ok::<Seq<u8>, Fault>(item.body.bytes()->0)
    &&& item.body is Descriptor ==> meta.location(id) is Some && crate::parser::slice_with_idat(
        file,
        meta.idat,
        meta.location(id)->0,
    ) == Ok::<Seq<u8>, Fault>(item.body.bytes()->0)
    &&& item.body is Identity ==> meta.location(id) is None
}

/// Whether a file reads back as what was to be written.
pub open spec fn reads_back(file: Seq<u8>, plan: FilePlan) -> bool {
    match header_of(file) {
        Err(_) => false,
        Ok(h) => {
            &&& h.major_brand == plan.major()
            &&& h.minor_version == 0
            &&& h.compatible_brands == plan.compatible()
            &&& h.meta.handler == Some(PICT)
            &&& h.meta.primary_item_id == plan.primary
            &&& h.meta.items.len() == plan.items.len()
            &&& h.meta.irefs == plan.references
            &&& h.meta.grpl is None
            &&& forall|id: u32|
                #![trigger plan.item(id)]
                plan.holds(id) ==> h.meta.items[id - 1] == plan.item(id).entry(id) && stores(
                    file,
                    h.meta,
                    id,
                    plan.item(id),
                )
            &&& mif1_of(file) matches Ok(m) && m.complete() && m.claims_mif1 == listed(
                BRAND_MIF1,
                plan.major(),
                plan.compatible(),
            )
        },
    }
}

// ---------------------------------------------------------------------
// The writer

/// `oxideav_heif::HeifWriter`, a file being queued.
#[verifier::external_type_specification]
#[verifier::external_body]
pub struct ExHeifWriter(HeifWriter);

/// What a writer has queued.
pub uninterp spec fn plan_of(w: HeifWriter) -> FilePlan;

/// The plan of a list of properties.
pub open spec fn queued(s: Seq<(HeifProperty, bool)>) -> Seq<PropPlan> {
    Seq::new(
        s.len(),
        |i: int|
            PropPlan {
                box_type: property_parts(s[i].0).0,
                body: property_parts(s[i].0).1,
                essential: s[i].1,
            },
    )
}

/// `HeifWriter::new`: nothing is queued.
pub assume_specification[ HeifWriter::new ]() -> (w: HeifWriter)
    ensures
        plan_of(w) == empty_plan(),
;

/// `HeifWriter::with_brands`: these brands in place of any others.
pub assume_specification[ HeifWriter::with_brands ](
    w: HeifWriter,
    major: [u8; 4],
    compatible: Vec<[u8; 4]>,
) -> (r: HeifWriter)
    ensures
        plan_of(r) == (FilePlan { brands: Some((major, compatible@)), ..plan_of(w) }),
;

/// `HeifWriter::add_coded_item`: one more item, with the next id.
pub assume_specification[ HeifWriter::add_coded_item ](
    w: &mut HeifWriter,
    item_type: [u8; 4],
    data: Vec<u8>,
    properties: Vec<(HeifProperty, bool)>,
) -> (id: u32)
    requires
        plan_of(*old(w)).items.len() < 0xffff_fffe,
    ensures
        id == plan_of(*old(w)).next_id(),
        plan_of(*final(w)) == plan_of(*old(w)).with_item(
            ItemPlan {
                item_type,
                content_type: None,
                hidden: false,
                body: BodyPlan::Coded(data@),
                properties: queued(properties@),
            },
        ),
;

/// `HeifWriter::add_identity`: an identity derivation of `input`.
pub assume_specification[ HeifWriter::add_identity ](
    w: &mut HeifWriter,
    input: u32,
    properties: Vec<(HeifProperty, bool)>,
) -> (id: u32)
    requires
        plan_of(*old(w)).items.len() < 0xffff_fffe,
    ensures
        id == plan_of(*old(w)).next_id(),
        plan_of(*final(w)) == plan_of(*old(w)).with_item(
            ItemPlan {
                item_type: ITEM_TYPE_IDEN,
                content_type: None,
                hidden: false,
                body: BodyPlan::Identity,
                properties: queued(properties@),
            },
        ).with_reference(DIMG, id, seq![input]),
;

/// An auxiliary image of `master`: a hidden coded item.
pub open spec fn with_auxiliary(
    plan: FilePlan,
    master: u32,
    item_type: BoxType,
    data: Seq<u8>,
    properties: Seq<PropPlan>,
) -> FilePlan {
    plan.with_item(
        ItemPlan {
            item_type,
            content_type: None,
            hidden: true,
            body: BodyPlan::Coded(data),
            properties,
        },
    ).with_reference(AUXL, plan.next_id(), seq![master])
}

/// Whether one of the properties is an auxiliary type.
pub open spec fn names_auxiliary(properties: Seq<PropPlan>) -> bool {
    exists|j: int| 0 <= j < properties.len() && #[trigger] properties[j].box_type == AUXC
}

/// `HeifWriter::add_alpha`, with properties that name the auxiliary
/// type: a hidden alpha auxiliary of `master`, with a `prem` reference
/// from it where it is premultiplied.
pub assume_specification[ HeifWriter::add_alpha ](
    w: &mut HeifWriter,
    master: u32,
    item_type: [u8; 4],
    data: Vec<u8>,
    properties: Vec<(HeifProperty, bool)>,
    premultiplied: bool,
) -> (id: u32)
    requires
        plan_of(*old(w)).items.len() < 0xffff_fffe,
        names_auxiliary(queued(properties@)),
    ensures
        id == plan_of(*old(w)).next_id(),
        !premultiplied ==> plan_of(*final(w)) == with_auxiliary(
            plan_of(*old(w)),
            master,
            item_type,
            data@,
            queued(properties@),
        ),
        premultiplied ==> plan_of(*final(w)) == with_auxiliary(
            plan_of(*old(w)),
            master,
            item_type,
            data@,
            queued(properties@),
        ).with_reference(PREM, master, seq![id]),
;

/// `HeifWriter::add_depth`, with properties that name the auxiliary
/// type: a hidden depth auxiliary of `master`.
pub assume_specification[ HeifWriter::add_depth ](
    w: &mut HeifWriter,
    master: u32,
    item_type: [u8; 4],
    data: Vec<u8>,
    properties: Vec<(HeifProperty, bool)>,
) -> (id: u32)
    requires
        plan_of(*old(w)).items.len() < 0xffff_fffe,
        names_auxiliary(queued(properties@)),
    ensures
        id == plan_of(*old(w)).next_id(),
        plan_of(*final(w)) == with_auxiliary(
            plan_of(*old(w)),
            master,
            item_type,
            data@,
            queued(properties@),
        ),
;

/// A metadata item that describes `image`.
pub open spec fn with_metadata(
    plan: FilePlan,
    image: u32,
    item_type: BoxType,
    content_type: Option<Seq<char>>,
    body: Seq<u8>,
) -> FilePlan {
    plan.with_item(
        ItemPlan {
            item_type,
            content_type,
            hidden: false,
            body: BodyPlan::Metadata(body),
            properties: Seq::empty(),
        },
    ).with_reference(CDSC, plan.next_id(), seq![image])
}

/// `HeifWriter::add_exif`: an Exif item whose body is four zeros and
/// `tiff`.
pub assume_specification[ HeifWriter::add_exif ](
    w: &mut HeifWriter,
    image: u32,
    tiff: &[u8],
) -> (id: u32)
    requires
        plan_of(*old(w)).items.len() < 0xffff_fffe,
    ensures
        id == plan_of(*old(w)).next_id(),
        plan_of(*final(w)) == with_metadata(
            plan_of(*old(w)),
            image,
            ITEM_TYPE_EXIF,
            None,
            no_flags() + tiff@,
        ),
;

/// `HeifWriter::add_xmp`: a `mime` item of the XMP type whose body is
/// the text in UTF-8.
pub assume_specification[ HeifWriter::add_xmp ](
    w: &mut HeifWriter,
    image: u32,
    xmp: &str,
) -> (id: u32)
    requires
        plan_of(*old(w)).items.len() < 0xffff_fffe,
    ensures
        id == plan_of(*old(w)).next_id(),
        plan_of(*final(w)) == with_metadata(
            plan_of(*old(w)),
            image,
            ITEM_TYPE_MIME,
            Some("application/rdf+xml"@),
            encode_utf8(xmp@),
        ),
;

/// `HeifWriter::add_reference`: one more reference.
pub assume_specification[ HeifWriter::add_reference ](
    w: &mut HeifWriter,
    reference_type: [u8; 4],
    from: u32,
    to: Vec<u32>,
)
    ensures
        plan_of(*final(w)) == plan_of(*old(w)).with_reference(reference_type, from, to@),
;

/// `HeifWriter::set_hidden`: the item with this id is hidden or shown.
pub assume_specification[ HeifWriter::set_hidden ](w: &mut HeifWriter, id: u32, hidden: bool)
    ensures
        plan_of(*final(w)) == plan_of(*old(w)).with_hidden(id, hidden),
;

/// `HeifWriter::set_primary`: the primary item has this id.
pub assume_specification[ HeifWriter::set_primary ](w: &mut HeifWriter, id: u32)
    ensures
        plan_of(*final(w)) == (FilePlan { primary: Some(id), ..plan_of(*old(w)) }),
;

/// The body of a grid item. Rows and columns are written less one, in
/// one byte each.
pub open spec fn grid_body(rows: u16, columns: u16, width: u32, height: u32) -> Seq<u8> {
    let head = seq![
        0u8,
        if width > 0xffff || height > 0xffff {
            1u8
        } else {
            0u8
        },
        ((rows - 1) % 0x100) as u8,
        ((columns - 1) % 0x100) as u8,
    ];
    if width > 0xffff || height > 0xffff {
        head + b32(width) + b32(height)
    } else {
        head + b16(width as u16) + b16(height as u16)
    }
}

/// `HeifWriter::add_grid`, with a descriptor made by
/// `GridDescriptor::new`, one tile for each place and properties that
/// give the extents: a grid over `tiles`.
#[verifier::external_body]
pub(crate) fn add_grid(
    w: &mut HeifWriter,
    rows: u16,
    columns: u16,
    width: u32,
    height: u32,
    tiles: &Vec<u32>,
    properties: Vec<(HeifProperty, bool)>,
) -> (r: Result<u32, String>)
    requires
        plan_of(*old(w)).items.len() < 0xffff_fffe,
        rows > 0,
        columns > 0,
        tiles@.len() == rows * columns,
        exists|j: int|
            0 <= j < properties@.len() && #[trigger] queued(properties@)[j].box_type == ISPE,
    ensures
        r == Ok::<u32, String>(plan_of(*old(w)).next_id()),
        plan_of(*final(w)) == plan_of(*old(w)).with_item(
            ItemPlan {
                item_type: ITEM_TYPE_GRID,
                content_type: None,
                hidden: false,
                body: BodyPlan::Descriptor(grid_body(rows, columns, width, height)),
                properties: queued(properties@),
            },
        ).with_reference(DIMG, plan_of(*old(w)).next_id(), tiles@),
{
    let descriptor = GridDescriptor::new(rows, columns, width, height);
    w.add_grid(descriptor, tiles, properties).map_err(|e| e.to_string())
}

/// Whether an offset does not fit 16 bits.
pub open spec fn wide_offset(o: (i32, i32)) -> bool {
    !(-0x8000 <= o.0 <= 0x7fff) || !(-0x8000 <= o.1 <= 0x7fff)
}

/// Whether the fields of an overlay take 32 bits.
pub open spec fn wide_overlay(width: u32, height: u32, offsets: Seq<(i32, i32)>) -> bool {
    ||| width > 0xffff
    ||| height > 0xffff
    ||| exists|i: int| 0 <= i < offsets.len() && wide_offset(#[trigger] offsets[i])
}

/// The first `n` offsets.
pub open spec fn offsets_body(offsets: Seq<(i32, i32)>, wide: bool, n: nat) -> Seq<u8>
    decreases n,
{
    if n == 0 {
        Seq::empty()
    } else {
        let before = offsets_body(offsets, wide, (n - 1) as nat);
        if wide {
            before + b32(offsets[n - 1].0 as u32) + b32(offsets[n - 1].1 as u32)
        } else {
            before + b16(offsets[n - 1].0 as u16) + b16(offsets[n - 1].1 as u16)
        }
    }
}

/// The body of an overlay item.
pub open spec fn overlay_body(
    fill: [u16; 4],
    width: u32,
    height: u32,
    offsets: Seq<(i32, i32)>,
) -> Seq<u8> {
    let wide = wide_overlay(width, height, offsets);
    let fills = b16(fill[0]) + b16(fill[1]) + b16(fill[2]) + b16(fill[3]);
    if wide {
        seq![0u8, 1u8] + fills + b32(width) + b32(height) + offsets_body(
            offsets,
            true,
            offsets.len(),
        )
    } else {
        seq![0u8, 0u8] + fills + b16(width as u16) + b16(height as u16) + offsets_body(
            offsets,
            false,
            offsets.len(),
        )
    }
}

/// `HeifWriter::add_overlay`, with a descriptor made by
/// `OverlayDescriptor::new`, one offset for each input and properties
/// that give the extents: an overlay over `inputs`.
#[verifier::external_body]
pub(crate) fn add_overlay(
    w: &mut HeifWriter,
    fill: [u16; 4],
    width: u32,
    height: u32,
    offsets: Vec<(i32, i32)>,
    inputs: &Vec<u32>,
    properties: Vec<(HeifProperty, bool)>,
) -> (r: Result<u32, String>)
    requires
        plan_of(*old(w)).items.len() < 0xffff_fffe,
        inputs@.len() == offsets@.len(),
        exists|j: int|
            0 <= j < properties@.len() && #[trigger] queued(properties@)[j].box_type == ISPE,
    ensures
        r == Ok::<u32, String>(plan_of(*old(w)).next_id()),
        plan_of(*final(w)) == plan_of(*old(w)).with_item(
            ItemPlan {
                item_type: ITEM_TYPE_IOVL,
                content_type: None,
                hidden: false,
                body: BodyPlan::Descriptor(overlay_body(fill, width, height, offsets@)),
                properties: queued(properties@),
            },
        ).with_reference(DIMG, plan_of(*old(w)).next_id(), inputs@),
{
    let descriptor = OverlayDescriptor::new(fill, width, height, offsets);
    w.add_overlay(descriptor, inputs, properties).map_err(|e| e.to_string())
}

/// Whether boxes fill `s` from `at` on, each with its size in its header.
pub open spec fn sized_from(s: Seq<u8>, at: int) -> bool
    decreases s.len() - at,
{
    if at < 0 || at >= s.len() {
        at == s.len()
    } else {
        match box_at(s, at) {
            Err(_) => false,
            Ok(b) => be32(s, at) != 0 && b.end > at && sized_from(s, b.end),
        }
    }
}

/// How many properties a file can store.
pub const MOST_STORED: usize = 0x7fff;

/// The fault of a file that would store more properties than it can.
pub open spec fn overfull() -> Fault {
    Fault::Invalid("more than 32767 properties"@)
}

/// The file that the container writes, or why it does not.
pub uninterp spec fn written(plan: FilePlan) -> Result<Seq<u8>, Fault>;

/// `HeifWriter::write_to_vec`, of a file that can be written. Of several
/// equal properties that are no decoder configuration one is stored, and
/// more than 32767 stored properties are refused. A file that this crate
/// reads gives back what was queued: the brands, the items with their
/// properties and bytes, the references and the primary item. How the
/// boxes are laid out is not stated, but that they fill the file and each
/// gives its size.
#[verifier::external_body]
pub(crate) fn write_file(w: &HeifWriter) -> (r: Result<Vec<u8>, AvifError>)
    requires
        plan_of(*w).valid(),
    ensures
        outcome_view(r) == written(plan_of(*w)),
        r is Ok <==> plan_of(*w).stored_count() <= MOST_STORED,
        r matches Err(e) ==> e@ == overfull(),
        r is Ok && plan_of(*w).readable() ==> reads_back(r->Ok_0@, plan_of(*w)),
        r is Ok ==> sized_from(r->Ok_0@, 0),
{
    w.write_to_vec().map_err(
        |e|
            match e {
                HeifError::Unsupported(s) => AvifError::Unsupported(s),
                HeifError::InvalidData(s) | HeifError::LimitExceeded(s) => AvifError::InvalidData(
                    s,
                ),
                other => AvifError::InvalidData(other.to_string()),
            },
    )
}

/// Where the bytes of an item lie in a file, or why that is not known.
pub uninterp spec fn file_spans(file: Seq<u8>, id: u32) -> Result<Seq<(usize, usize)>, Fault>;

/// Whether these places are those of the bytes of a coded item, in any
/// file that was written with it: one run of bytes, which hold what the
/// item was made of. A run of no bytes is not told apart from the rest
/// of the file.
pub open spec fn locates(file: Seq<u8>, id: u32, spans: Seq<(usize, usize)>) -> bool {
    forall|plan: FilePlan|
        plan.valid() && #[trigger] written(plan) == Ok::<Seq<u8>, Fault>(file) && plan.holds(id)
            && plan.item(id).body is Coded ==> {
            &&& spans.len() == 1
            &&& spans[0].0 <= spans[0].1 <= file.len()
            &&& plan.item(id).body.bytes()->0.len() > 0 ==> file.subrange(
                spans[0].0 as int,
                spans[0].1 as int,
            ) == plan.item(id).body.bytes()->0
        }
}

/// `oxideav_heif::HeifFile::parse` and `HeifFile::item_file_spans`, of a
/// file that the container wrote: the places of the bytes of an item in
/// the file. Those of a coded item hold its bytes.
#[verifier::external_body]
pub(crate) fn item_spans(file: &[u8], id: u32) -> (r: Result<Vec<(usize, usize)>, AvifError>)
    requires
        exists|plan: FilePlan|
            plan.valid() && #[trigger] written(plan) == Ok::<Seq<u8>, Fault>(file@),
    ensures
        outcome_view(r) == file_spans(file@, id),
        r is Ok ==> locates(file@, id, r->Ok_0@),
{
    HeifFile::parse(file).and_then(|f| f.item_file_spans(id)).map_err(
        |e|
            match e {
                HeifError::Unsupported(s) => AvifError::Unsupported(s),
                HeifError::InvalidData(s) | HeifError::LimitExceeded(s) => AvifError::InvalidData(
                    s,
                ),
                other => AvifError::InvalidData(other.to_string()),
            },
    )
}

} // verus!
