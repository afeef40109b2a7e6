//! Writing AVIF files: which items a file has, in which order, and with
//! which properties. The container writer lays them out.
//!
//! A file that is written reads back: the coded payloads and the
//! properties come out byte for byte.

use crate::alpha::ALPHA_URN_PREFIX;
use crate::box_parser::BoxType;
use crate::container::{
    empty_plan, lemma_stored, names_auxiliary, plan_of, property_count, queued,
    readable_property, reads_back, with_auxiliary, write_file, written, BodyPlan, FilePlan,
    ItemPlan, PropPlan, DIMG, PREM,
};
use crate::derived::DimTransform;
use crate::error::{outcome_view, AvifError, Fault};
use crate::lookup::opt_colr;
use crate::meta::opt_bytes;
use crate::meta_parse::{ITEM_TYPE_IDEN, ITEM_TYPE_MIME, ITEM_TYPE_URI};
use crate::mux_items::{
    add_exif_item, add_xmp_item, as_a1lx, as_a1op, as_amve, as_clap, as_clli, as_colr, as_imir,
    as_irot, as_lsel, as_mdcv, as_pasp, as_pixi, exif_fault, expect_id, growing, lemma_grow_ids,
    lemma_grow_item, lemma_grow_reference, lemma_grown, list_of, opt_colr_fault, push_a1lx,
    push_a1op, push_amve, push_clap, push_clli, push_colr, push_imir, push_irot, push_lsel,
    push_mdcv, push_pasp, push_pixi, with_exif, with_xmp, xmp_fault,
};
use crate::mux_props::{
    aux_type, opt_prop, prop, prop_auxc, prop_av1c, prop_ispe, push_prop, record_fault,
    law_still_brands_are_accepted, still_brands, still_codes, ProfileBrand, Prop,
};

use crate::parser::{BRAND_AVIF, ITEM_TYPE_AV01};
use crate::property_laws::{
    lemma_alpha_urn, lemma_depth_urn, lemma_readable_add, lemma_readable_one, lemma_readable_opt,
    no_nul, readable_list,
};
use crate::props::{
    Amve, Clap, Clli, Colr, ColrView, Imir, Irot, Ispe, Mdcv, Pasp, PropertyView, AUXC,
    AUX_URN_DEPTH_MPEG, AV1C, ISPE,
};
use oxideav_heif::HeifWriter;
use vstd::prelude::*;
use vstd::slice::slice_to_vec;

verus! {

/// An identity derivation of the coded image, as the
/// primary item, with transformations of its own.
#[derive(Clone, Copy, Debug)]
pub struct IdentityDerivation {
    /// Clean aperture of the derivation.
    pub clap: Option<Clap>,
    /// Rotation of the derivation, in quarter turns.
    pub irot: Option<u8>,
    /// Mirror axis of the derivation.
    pub imir: Option<u8>,
}

impl Default for IdentityDerivation {
    fn default() -> (r: IdentityDerivation)
        ensures
            r == (IdentityDerivation { clap: None, irot: None, imir: None }),
    {
        IdentityDerivation { clap: None, irot: None, imir: None }
    }
}

struct AuxCoded {
    payload: Vec<u8>,
    av1c: Vec<u8>,
    pixi: Option<Vec<u8>>,
}

/// An auxiliary image as contracts speak of it.
#[verifier::ext_equal]
pub struct AuxView {
    /// Coded bytes.
    pub payload: Seq<u8>,
    /// Configuration record.
    pub av1c: Seq<u8>,
    /// Bits per channel.
    pub pixi: Option<Seq<u8>>,
}

struct AlphaImage {
    image: AuxCoded,
    premultiplied: bool,
}

/// An alpha auxiliary as contracts speak of it.
#[verifier::ext_equal]
pub struct AlphaView {
    /// The image.
    pub image: AuxView,
    /// Whether the colours are premultiplied by it.
    pub premultiplied: bool,
}

impl View for AuxCoded {
    type V = AuxView;

    closed spec fn view(&self) -> AuxView {
        AuxView { payload: self.payload@, av1c: self.av1c@, pixi: opt_bytes(self.pixi) }
    }
}

spec fn opt_aux(a: Option<AuxCoded>) -> Option<AuxView> {
    match a {
        Some(x) => Some(x@),
        None => None,
    }
}

spec fn opt_alpha(a: Option<AlphaImage>) -> Option<AlphaView> {
    match a {
        Some(x) => Some(AlphaView { image: x.image@, premultiplied: x.premultiplied }),
        None => None,
    }
}

/// A file with one coded image, its auxiliaries and its metadata.
pub struct AvifMuxer {
    width: u32,
    height: u32,
    primary_payload: Vec<u8>,
    av1c: Vec<u8>,
    pixi: Option<Vec<u8>>,
    colr: Option<Colr>,
    pasp: Option<Pasp>,
    clap: Option<Clap>,
    irot: Option<Irot>,
    imir: Option<Imir>,
    mdcv: Option<Mdcv>,
    clli: Option<Clli>,
    amve: Option<Amve>,
    alpha: Option<AlphaImage>,
    depth: Option<AuxCoded>,
    exif: Option<Vec<u8>>,
    xmp: Option<Vec<u8>>,
    identity: Option<IdentityDerivation>,
    layered_index: Option<[u32; 3]>,
    layer_selector: Option<u16>,
    operating_point: Option<u8>,
    profile_brand: ProfileBrand,
}

/// An [`AvifMuxer`] as contracts speak of it.
#[verifier::ext_equal]
pub struct MuxerView {
    /// Width in pixels.
    pub width: u32,
    /// Height in pixels.
    pub height: u32,
    /// Coded bytes of the primary image.
    pub primary_payload: Seq<u8>,
    /// Its configuration record.
    pub av1c: Seq<u8>,
    /// Bits per channel.
    pub pixi: Option<Seq<u8>>,
    /// Colour description.
    pub colr: Option<ColrView>,
    /// Pixel aspect ratio.
    pub pasp: Option<Pasp>,
    /// Clean aperture.
    pub clap: Option<Clap>,
    /// Rotation.
    pub irot: Option<Irot>,
    /// Mirror.
    pub imir: Option<Imir>,
    /// Mastering display.
    pub mdcv: Option<Mdcv>,
    /// Content light level.
    pub clli: Option<Clli>,
    /// Ambient viewing environment.
    pub amve: Option<Amve>,
    /// Alpha auxiliary.
    pub alpha: Option<AlphaView>,
    /// Depth auxiliary.
    pub depth: Option<AuxView>,
    /// Exif item body.
    pub exif: Option<Seq<u8>>,
    /// XMP packet.
    pub xmp: Option<Seq<u8>>,
    /// Identity derivation of the primary image.
    pub identity: Option<IdentityDerivation>,
    /// Layer sizes.
    pub layered_index: Option<[u32; 3]>,
    /// Layer to present.
    pub layer_selector: Option<u16>,
    /// Operating point.
    pub operating_point: Option<u8>,
    /// Profile brand.
    pub profile_brand: ProfileBrand,
}

impl View for AvifMuxer {
    type V = MuxerView;

    closed spec fn view(&self) -> MuxerView {
        MuxerView {
            width: self.width,
            height: self.height,
            primary_payload: self.primary_payload@,
            av1c: self.av1c@,
            pixi: opt_bytes(self.pixi),
            colr: opt_colr(self.colr),
            pasp: self.pasp,
            clap: self.clap,
            irot: self.irot,
            imir: self.imir,
            mdcv: self.mdcv,
            clli: self.clli,
            amve: self.amve,
            alpha: opt_alpha(self.alpha),
            depth: opt_aux(self.depth),
            exif: opt_bytes(self.exif),
            xmp: opt_bytes(self.xmp),
            identity: self.identity,
            layered_index: self.layered_index,
            layer_selector: self.layer_selector,
            operating_point: self.operating_point,
            profile_brand: self.profile_brand,
        }
    }
}

/// A file with one coded image and nothing else said of it.
pub open spec fn plain_still(width: u32, height: u32, payload: Seq<u8>, av1c: Seq<u8>) -> MuxerView {
    MuxerView {
        width,
        height,
        primary_payload: payload,
        av1c,
        pixi: None,
        colr: None,
        pasp: None,
        clap: None,
        irot: None,
        imir: None,
        mdcv: None,
        clli: None,
        amve: None,
        alpha: None,
        depth: None,
        exif: None,
        xmp: None,
        identity: None,
        layered_index: None,
        layer_selector: None,
        operating_point: None,
        profile_brand: ProfileBrand::Baseline,
    }
}

/// The properties of the coded image.
pub open spec fn primary_props(m: MuxerView) -> Seq<PropPlan> {
    seq![
        prop(PropertyView::Av1C(m.av1c), true),
        prop(PropertyView::Ispe(Ispe { width: m.width, height: m.height }), false),
    ] + opt_prop(as_a1op(m.operating_point), true) + opt_prop(as_lsel(m.layer_selector), true)
        + opt_prop(as_a1lx(m.layered_index), false) + opt_prop(as_pixi(m.pixi), false) + opt_prop(
        as_colr(m.colr),
        false,
    ) + opt_prop(as_pasp(m.pasp), false) + opt_prop(as_mdcv(m.mdcv), false) + opt_prop(
        as_clli(m.clli),
        false,
    ) + opt_prop(as_amve(m.amve), false) + opt_prop(as_clap(m.clap), true) + opt_prop(
        as_irot(m.irot),
        true,
    ) + opt_prop(as_imir(m.imir), true)
}

/// The size of the coded image after its own aperture and rotation.
pub open spec fn shown_dims(m: MuxerView) -> (u32, u32) {
    let cropped = match m.clap {
        Some(c) => DimTransform::Crop {
            width_n: c.clean_aperture_width_n,
            width_d: c.clean_aperture_width_d,
            height_n: c.clean_aperture_height_n,
            height_d: c.clean_aperture_height_d,
        }.dims(m.width, m.height),
        None => (m.width, m.height),
    };
    match m.irot {
        Some(r) => DimTransform::Rotate { angle: r.angle }.dims(cropped.0, cropped.1),
        None => cropped,
    }
}

/// The transformations of an identity derivation, in range.
pub open spec fn turned(d: IdentityDerivation) -> Option<Irot> {
    match d.irot {
        Some(a) => Some(Irot { angle: (a % 4) as u8 }),
        None => None,
    }
}

/// The mirror of an identity derivation, in range.
pub open spec fn flipped(d: IdentityDerivation) -> Option<Imir> {
    match d.imir {
        Some(a) => Some(Imir { axis: (a % 2) as u8 }),
        None => None,
    }
}

/// The properties of the identity derivation.
pub open spec fn identity_props(m: MuxerView, d: IdentityDerivation) -> Seq<PropPlan> {
    seq![
        prop(
            PropertyView::Ispe(Ispe { width: shown_dims(m).0, height: shown_dims(m).1 }),
            false,
        ),
    ] + opt_prop(as_pixi(m.pixi), false) + opt_prop(as_clap(d.clap), true) + opt_prop(
        as_irot(turned(d)),
        true,
    ) + opt_prop(as_imir(flipped(d)), true)
}

/// The properties of an auxiliary image of the size of the coded image.
pub open spec fn auxiliary_props(m: MuxerView, a: AuxView, urn: Seq<char>) -> Seq<PropPlan> {
    seq![
        prop(PropertyView::Av1C(a.av1c), true),
        prop(PropertyView::Ispe(Ispe { width: m.width, height: m.height }), false),
        prop(aux_type(urn), false),
    ] + opt_prop(as_pixi(a.pixi), false)
}

/// The first fault of two.
pub open spec fn either(a: Option<Fault>, b: Option<Fault>) -> Option<Fault> {
    match a {
        Some(_) => a,
        None => b,
    }
}

/// Why an auxiliary image is refused, if it is.
pub open spec fn auxiliary_fault(a: Option<AuxView>, what: Seq<char>) -> Option<Fault> {
    match a {
        Some(x) => record_fault(x.av1c, what),
        None => None,
    }
}

/// The image of an alpha auxiliary.
pub open spec fn alpha_image(a: Option<AlphaView>) -> Option<AuxView> {
    match a {
        Some(x) => Some(x.image),
        None => None,
    }
}

/// Why the file is refused, if it is: the first of what its parts are
/// refused for, in the order in which they are queued.
pub open spec fn still_fault(m: MuxerView) -> Option<Fault> {
    either(
        record_fault(m.av1c, ""@),
        either(
            opt_colr_fault(m.colr),
            either(
                auxiliary_fault(alpha_image(m.alpha), "alpha "@),
                either(
                    auxiliary_fault(m.depth, "depth "@),
                    either(exif_fault(m.exif), xmp_fault(m.xmp)),
                ),
            ),
        ),
    )
}

/// The file with its coded image, item 1.
pub open spec fn coded_plan(m: MuxerView) -> FilePlan {
    FilePlan {
        brands: Some((BRAND_AVIF, still_codes(m.profile_brand))),
        ..empty_plan()
    }.with_item(
        ItemPlan {
            item_type: ITEM_TYPE_AV01,
            content_type: None,
            hidden: false,
            body: BodyPlan::Coded(m.primary_payload),
            properties: primary_props(m),
        },
    )
}

/// Then its identity derivation, where there is one.
pub open spec fn identity_plan(m: MuxerView) -> FilePlan {
    match m.identity {
        Some(d) => coded_plan(m).with_item(
            ItemPlan {
                item_type: ITEM_TYPE_IDEN,
                content_type: None,
                hidden: false,
                body: BodyPlan::Identity,
                properties: identity_props(m, d),
            },
        ).with_reference(DIMG, 2, seq![1u32]),
        None => coded_plan(m),
    }
}

/// Then its alpha auxiliary, where there is one.
pub open spec fn alpha_plan(m: MuxerView) -> FilePlan {
    let before = identity_plan(m);
    match m.alpha {
        Some(a) => {
            let with = with_auxiliary(
                before,
                1,
                ITEM_TYPE_AV01,
                a.image.payload,
                auxiliary_props(m, a.image, ALPHA_URN_PREFIX@),
            );
            if a.premultiplied {
                with.with_reference(PREM, 1, seq![before.next_id()])
            } else {
                with
            }
        },
        None => before,
    }
}

/// Then its depth auxiliary, where there is one.
pub open spec fn depth_plan(m: MuxerView) -> FilePlan {
    match m.depth {
        Some(a) => with_auxiliary(
            alpha_plan(m),
            1,
            ITEM_TYPE_AV01,
            a.payload,
            auxiliary_props(m, a, AUX_URN_DEPTH_MPEG@),
        ),
        None => alpha_plan(m),
    }
}

/// Then its metadata, and the primary item: the identity derivation
/// where there is one, the coded image otherwise.
pub open spec fn still_plan(m: MuxerView) -> FilePlan {
    FilePlan {
        primary: Some(
            if m.identity is Some {
                2
            } else {
                1
            },
        ),
        ..with_xmp(with_exif(depth_plan(m), 1, m.exif), 1, m.xmp)
    }
}

/// A property of this type is in a list that has it at a place.
proof fn lemma_has(item: ItemPlan, j: int, t: BoxType)
    requires
        0 <= j < item.properties.len(),
        item.properties[j].box_type == t,
    ensures
        item.has(t),
{
}

/// A coded item with its record first and its extents second is
/// complete.
pub proof fn lemma_coded_complete(item: ItemPlan)
    requires
        item.item_type == ITEM_TYPE_AV01,
        item.content_type is None,
        2 <= item.properties.len() <= 255,
        item.properties[0].box_type == AV1C,
        item.properties[1].box_type == ISPE,
    ensures
        item.complete(),
{
    lemma_has(item, 0, AV1C);
    lemma_has(item, 1, ISPE);
    assert(ITEM_TYPE_AV01[0] == 0x61);
    assert(ITEM_TYPE_MIME[0] == 0x6d && ITEM_TYPE_URI[0] == 0x75);
}

/// A derived item with its extents first is complete.
pub proof fn lemma_derived_complete(item: ItemPlan)
    requires
        item.item_type[0] != 0x6d,
        item.item_type[0] != 0x75,
        item.content_type is None,
        1 <= item.properties.len() <= 255,
        item.properties[0].box_type == ISPE,
        !(item.body is Coded),
    ensures
        item.complete(),
{
    lemma_has(item, 0, ISPE);
    assert(ITEM_TYPE_MIME[0] == 0x6d && ITEM_TYPE_URI[0] == 0x75);
}

/// How many properties the primary image has, at most.
proof fn lemma_primary_props(m: MuxerView)
    ensures
        2 <= primary_props(m).len() <= 14,
        primary_props(m)[0].box_type == AV1C,
        primary_props(m)[1].box_type == ISPE,
{
}

proof fn lemma_auxiliary_props(m: MuxerView, a: AuxView, urn: Seq<char>)
    ensures
        3 <= auxiliary_props(m, a, urn).len() <= 4,
        auxiliary_props(m, a, urn)[0].box_type == AV1C,
        auxiliary_props(m, a, urn)[1].box_type == ISPE,
        auxiliary_props(m, a, urn)[2].box_type == AUXC,
        names_auxiliary(auxiliary_props(m, a, urn)),
{
    assert(auxiliary_props(m, a, urn)[2].box_type == AUXC);
}

/// A metadata item is complete.
pub proof fn lemma_grow_metadata(
    plan: FilePlan,
    ids: nat,
    props: nat,
    image: u32,
    item_type: BoxType,
    content_type: Option<Seq<char>>,
    body: Seq<u8>,
)
    requires
        growing(plan, ids, props),
        plan.items.len() < ids,
        1 <= image <= ids,
        item_type != ITEM_TYPE_URI,
        item_type == ITEM_TYPE_MIME <==> content_type is Some,
    ensures
        growing(
            crate::container::with_metadata(plan, image, item_type, content_type, body),
            ids,
            props,
        ),
{
    let item = ItemPlan {
        item_type,
        content_type,
        hidden: false,
        body: BodyPlan::Metadata(body),
        properties: Seq::empty(),
    };
    lemma_grow_item(plan, ids, props, item);
    lemma_grow_reference(
        plan.with_item(item),
        ids,
        props,
        crate::container::CDSC,
        plan.next_id(),
        seq![image],
    );
}

/// The metadata that there is keeps a file on its way.
pub proof fn lemma_grow_described(
    plan: FilePlan,
    props: nat,
    image: u32,
    exif: Option<Seq<u8>>,
    xmp: Option<Seq<u8>>,
)
    requires
        growing(plan, plan.items.len(), props),
        plan.items.len() < 0xffff_fff0,
        1 <= image <= plan.items.len(),
    ensures
        ({
            let all = with_xmp(with_exif(plan, image, exif), image, xmp);
            &&& growing(all, all.items.len(), props)
            &&& plan.items.len() <= all.items.len() <= plan.items.len() + 2
        }),
{
    let first = with_exif(plan, image, exif);
    assert(crate::meta_parse::ITEM_TYPE_EXIF[0] == 0x45);
    assert(ITEM_TYPE_MIME[0] == 0x6d && ITEM_TYPE_URI[0] == 0x75);
    if exif is Some {
        lemma_grow_ids(plan, plan.items.len(), plan.items.len() + 1, props);
        lemma_grow_metadata(
            plan,
            plan.items.len() + 1,
            props,
            image,
            crate::meta_parse::ITEM_TYPE_EXIF,
            None,
            exif->0,
        );
    }
    if xmp is Some {
        lemma_grow_ids(first, first.items.len(), first.items.len() + 1, props);
        lemma_grow_metadata(
            first,
            first.items.len() + 1,
            props,
            image,
            ITEM_TYPE_MIME,
            Some("application/rdf+xml"@),
            xmp->0,
        );
    }
}

proof fn lemma_still_coded(m: MuxerView)
    ensures
        growing(coded_plan(m), 1, primary_props(m).len()),
        coded_plan(m).items.len() == 1,
{
    lemma_primary_props(m);
    let start = FilePlan {
        brands: Some((BRAND_AVIF, still_codes(m.profile_brand))),
        ..empty_plan()
    };
    let item = coded_plan(m).items[0];
    lemma_coded_complete(item);
    lemma_grow_item(start, 1, 0, item);
}

proof fn lemma_still_identity(m: MuxerView)
    ensures
        ({
            let p = identity_plan(m);
            &&& p.items.len() == if m.identity is Some {
                2nat
            } else {
                1nat
            }
            &&& exists|k: nat| k <= 19 && growing(p, p.items.len(), k)
        }),
{
    lemma_still_coded(m);
    lemma_primary_props(m);
    let first = coded_plan(m);
    if m.identity is Some {
        let d = m.identity->0;
        let item = identity_plan(m).items[1];
        assert(1 <= identity_props(m, d).len() <= 5);
        assert(identity_props(m, d)[0].box_type == ISPE);
        assert(ITEM_TYPE_IDEN[0] == 0x69);
        lemma_derived_complete(item);
        lemma_grow_ids(first, 1, 2, primary_props(m).len());
        lemma_grow_item(first, 2, primary_props(m).len(), item);
        let k = primary_props(m).len() + identity_props(m, d).len();
        lemma_grow_reference(first.with_item(item), 2, k, DIMG, 2, seq![1u32]);
        assert(growing(identity_plan(m), 2, k));
    } else {
        assert(growing(identity_plan(m), 1, primary_props(m).len()));
    }
}

/// An auxiliary image keeps a file on its way.
proof fn lemma_still_auxiliary(
    plan: FilePlan,
    k: nat,
    m: MuxerView,
    a: AuxView,
    urn: Seq<char>,
)
    requires
        growing(plan, plan.items.len(), k),
        1 <= plan.items.len() < 100,
    ensures
        ({
            let next = with_auxiliary(
                plan,
                1,
                ITEM_TYPE_AV01,
                a.payload,
                auxiliary_props(m, a, urn),
            );
            &&& next.items.len() == plan.items.len() + 1
            &&& growing(next, next.items.len(), k + auxiliary_props(m, a, urn).len())
        }),
{
    lemma_auxiliary_props(m, a, urn);
    let n = plan.items.len() + 1;
    let next = with_auxiliary(plan, 1, ITEM_TYPE_AV01, a.payload, auxiliary_props(m, a, urn));
    let item = next.items[n - 1];
    lemma_coded_complete(item);
    lemma_grow_ids(plan, plan.items.len(), n, k);
    lemma_grow_item(plan, n, k, item);
    let more = k + auxiliary_props(m, a, urn).len();
    lemma_grow_reference(
        plan.with_item(item),
        n,
        more,
        crate::container::AUXL,
        plan.next_id(),
        seq![1u32],
    );
}

/// The file can be written, and has few properties.
pub proof fn lemma_still_valid(m: MuxerView)
    ensures
        still_plan(m).valid(),
        still_plan(m).items.len() <= 6,
        property_count(still_plan(m).items, still_plan(m).items.len()) <= 27,
        still_plan(m).stored_count() <= 27,
{
    lemma_still_identity(m);
    let p2 = identity_plan(m);
    let k2 = choose|k: nat| k <= 19 && growing(p2, p2.items.len(), k);
    let p3 = alpha_plan(m);
    let k3: nat = match m.alpha {
        Some(a) => k2 + auxiliary_props(m, a.image, ALPHA_URN_PREFIX@).len(),
        None => k2,
    };
    if m.alpha is Some {
        let a = m.alpha->0;
        lemma_auxiliary_props(m, a.image, ALPHA_URN_PREFIX@);
        lemma_still_auxiliary(p2, k2, m, a.image, ALPHA_URN_PREFIX@);
        if a.premultiplied {
            let with = with_auxiliary(
                p2,
                1,
                ITEM_TYPE_AV01,
                a.image.payload,
                auxiliary_props(m, a.image, ALPHA_URN_PREFIX@),
            );
            lemma_grow_reference(with, with.items.len(), k3, PREM, 1, seq![p2.next_id()]);
        }
    }
    assert(growing(p3, p3.items.len(), k3));
    let p4 = depth_plan(m);
    let k4: nat = match m.depth {
        Some(a) => k3 + auxiliary_props(m, a, AUX_URN_DEPTH_MPEG@).len(),
        None => k3,
    };
    if m.depth is Some {
        let a = m.depth->0;
        lemma_auxiliary_props(m, a, AUX_URN_DEPTH_MPEG@);
        lemma_still_auxiliary(p3, k3, m, a, AUX_URN_DEPTH_MPEG@);
    }
    assert(growing(p4, p4.items.len(), k4));
    lemma_grow_described(p4, k4, 1, m.exif, m.xmp);
    let all = with_xmp(with_exif(p4, 1, m.exif), 1, m.xmp);
    let primary: u32 = if m.identity is Some {
        2
    } else {
        1
    };
    lemma_stored(all.items, all.items.len());
    lemma_grown(all, all.items.len(), k4, primary);
}

// ---------------------------------------------------------------------
// What is written can be read

proof fn lemma_primary_readable(m: MuxerView)
    requires
        !(m.colr matches Some(ColrView::Unknown(_))),
    ensures
        readable_list(primary_props(m)),
{
    let record = PropertyView::Av1C(m.av1c);
    let extents = PropertyView::Ispe(Ispe { width: m.width, height: m.height });
    lemma_readable_one(record, true);
    lemma_readable_one(extents, false);
    lemma_readable_add(seq![prop(record, true)], seq![prop(extents, false)]);
    let s0 = seq![prop(record, true), prop(extents, false)];
    assert(seq![prop(record, true)] + seq![prop(extents, false)] =~= s0);
    lemma_readable_opt(as_a1op(m.operating_point), true);
    let s1 = s0 + opt_prop(as_a1op(m.operating_point), true);
    lemma_readable_add(s0, opt_prop(as_a1op(m.operating_point), true));
    lemma_readable_opt(as_lsel(m.layer_selector), true);
    let s2 = s1 + opt_prop(as_lsel(m.layer_selector), true);
    lemma_readable_add(s1, opt_prop(as_lsel(m.layer_selector), true));
    lemma_readable_opt(as_a1lx(m.layered_index), false);
    let s3 = s2 + opt_prop(as_a1lx(m.layered_index), false);
    lemma_readable_add(s2, opt_prop(as_a1lx(m.layered_index), false));
    lemma_readable_opt(as_pixi(m.pixi), false);
    let s4 = s3 + opt_prop(as_pixi(m.pixi), false);
    lemma_readable_add(s3, opt_prop(as_pixi(m.pixi), false));
    lemma_readable_opt(as_colr(m.colr), false);
    let s5 = s4 + opt_prop(as_colr(m.colr), false);
    lemma_readable_add(s4, opt_prop(as_colr(m.colr), false));
    lemma_readable_opt(as_pasp(m.pasp), false);
    let s6 = s5 + opt_prop(as_pasp(m.pasp), false);
    lemma_readable_add(s5, opt_prop(as_pasp(m.pasp), false));
    lemma_readable_opt(as_mdcv(m.mdcv), false);
    let s7 = s6 + opt_prop(as_mdcv(m.mdcv), false);
    lemma_readable_add(s6, opt_prop(as_mdcv(m.mdcv), false));
    lemma_readable_opt(as_clli(m.clli), false);
    let s8 = s7 + opt_prop(as_clli(m.clli), false);
    lemma_readable_add(s7, opt_prop(as_clli(m.clli), false));
    lemma_readable_opt(as_amve(m.amve), false);
    let s9 = s8 + opt_prop(as_amve(m.amve), false);
    lemma_readable_add(s8, opt_prop(as_amve(m.amve), false));
    lemma_readable_opt(as_clap(m.clap), true);
    let s10 = s9 + opt_prop(as_clap(m.clap), true);
    lemma_readable_add(s9, opt_prop(as_clap(m.clap), true));
    lemma_readable_opt(as_irot(m.irot), true);
    let s11 = s10 + opt_prop(as_irot(m.irot), true);
    lemma_readable_add(s10, opt_prop(as_irot(m.irot), true));
    lemma_readable_opt(as_imir(m.imir), true);
    let s12 = s11 + opt_prop(as_imir(m.imir), true);
    lemma_readable_add(s11, opt_prop(as_imir(m.imir), true));
}

proof fn lemma_identity_readable(m: MuxerView, d: IdentityDerivation)
    ensures
        readable_list(identity_props(m, d)),
{
    let ispe = PropertyView::Ispe(Ispe { width: shown_dims(m).0, height: shown_dims(m).1 });
    lemma_readable_one(ispe, false);
    let s0 = seq![prop(ispe, false)];
    lemma_readable_opt(as_pixi(m.pixi), false);
    let s1 = s0 + opt_prop(as_pixi(m.pixi), false);
    lemma_readable_add(s0, opt_prop(as_pixi(m.pixi), false));
    lemma_readable_opt(as_clap(d.clap), true);
    let s2 = s1 + opt_prop(as_clap(d.clap), true);
    lemma_readable_add(s1, opt_prop(as_clap(d.clap), true));
    lemma_readable_opt(as_irot(turned(d)), true);
    let s3 = s2 + opt_prop(as_irot(turned(d)), true);
    lemma_readable_add(s2, opt_prop(as_irot(turned(d)), true));
    lemma_readable_opt(as_imir(flipped(d)), true);
    let s4 = s3 + opt_prop(as_imir(flipped(d)), true);
    lemma_readable_add(s3, opt_prop(as_imir(flipped(d)), true));
}

proof fn lemma_auxiliary_readable(m: MuxerView, a: AuxView, urn: Seq<char>)
    requires
        no_nul(urn),
    ensures
        readable_list(auxiliary_props(m, a, urn)),
{
    let record = PropertyView::Av1C(a.av1c);
    let extents = PropertyView::Ispe(Ispe { width: m.width, height: m.height });
    lemma_readable_one(record, true);
    lemma_readable_one(extents, false);
    lemma_readable_one(aux_type(urn), false);
    lemma_readable_add(seq![prop(record, true)], seq![prop(extents, false)]);
    lemma_readable_add(
        seq![prop(record, true)] + seq![prop(extents, false)],
        seq![prop(aux_type(urn), false)],
    );
    let s0 = seq![prop(record, true), prop(extents, false), prop(aux_type(urn), false)];
    assert(seq![prop(record, true)] + seq![prop(extents, false)] + seq![
        prop(aux_type(urn), false),
    ] =~= s0);
    lemma_readable_opt(as_pixi(a.pixi), false);
    lemma_readable_add(s0, opt_prop(as_pixi(a.pixi), false));
}

/// Whether the properties of every item can be read.
pub open spec fn readable_items(items: Seq<ItemPlan>) -> bool {
    forall|i: int| 0 <= i < items.len() ==> readable_list((#[trigger] items[i]).properties)
}

/// One more item that can be read.
pub proof fn lemma_readable_item(plan: FilePlan, item: ItemPlan)
    requires
        readable_items(plan.items),
        readable_list(item.properties),
    ensures
        readable_items(plan.with_item(item).items),
{
    let next = plan.with_item(item).items;
    assert forall|i: int| 0 <= i < next.len() implies readable_list(
        (#[trigger] next[i]).properties,
    ) by {
        if i < plan.items.len() {
            assert(next[i] == plan.items[i]);
        }
    }
}

/// Metadata has no properties.
pub proof fn lemma_readable_described(
    plan: FilePlan,
    image: u32,
    exif: Option<Seq<u8>>,
    xmp: Option<Seq<u8>>,
)
    requires
        readable_items(plan.items),
    ensures
        readable_items(with_xmp(with_exif(plan, image, exif), image, xmp).items),
{
    assert(readable_list(Seq::empty())) by {
        }
    let first = with_exif(plan, image, exif);
    if exif is Some {
        lemma_readable_item(plan, first.items.last());
        assert(first.items =~= plan.with_item(first.items.last()).items);
    }
    let all = with_xmp(first, image, xmp);
    if xmp is Some {
        lemma_readable_item(first, all.items.last());
        assert(all.items =~= first.with_item(all.items.last()).items);
    }
}

/// A file whose items can be read, with brands that are accepted, can be
/// read.
pub proof fn lemma_readable_plan(plan: FilePlan, profile: ProfileBrand)
    requires
        readable_items(plan.items),
        plan.brands == Some((BRAND_AVIF, still_codes(profile))),
    ensures
        plan.readable(),
{
    law_still_brands_are_accepted(profile);
    assert forall|i: int, j: int|
        #![trigger plan.items[i].properties[j]]
        0 <= i < plan.items.len() && 0 <= j < plan.items[i].properties.len() implies readable_property(
        plan.items[i].properties[j],
    ) by {
        assert(readable_list(plan.items[i].properties));
    }
}

/// The file can be read.
pub proof fn lemma_still_readable(m: MuxerView)
    requires
        still_fault(m) is None,
    ensures
        still_plan(m).readable(),
{
    let start = FilePlan {
        brands: Some((BRAND_AVIF, still_codes(m.profile_brand))),
        ..empty_plan()
    };
    lemma_primary_readable(m);
    lemma_readable_item(start, coded_plan(m).items[0]);
    let p1 = coded_plan(m);
    assert(readable_items(p1.items));
    let p2 = identity_plan(m);
    if m.identity is Some {
        lemma_identity_readable(m, m.identity->0);
        lemma_readable_item(p1, p2.items[1]);
        assert(p2.items =~= p1.with_item(p2.items[1]).items);
    }
    assert(readable_items(p2.items));
    let p3 = alpha_plan(m);
    if m.alpha is Some {
        lemma_alpha_urn();
        lemma_auxiliary_readable(m, m.alpha->0.image, ALPHA_URN_PREFIX@);
        lemma_readable_item(p2, p3.items.last());
        assert(p3.items =~= p2.with_item(p3.items.last()).items);
    }
    assert(readable_items(p3.items));
    let p4 = depth_plan(m);
    if m.depth is Some {
        lemma_depth_urn();
        lemma_auxiliary_readable(m, m.depth->0, AUX_URN_DEPTH_MPEG@);
        lemma_readable_item(p3, p4.items.last());
        assert(p4.items =~= p3.with_item(p4.items.last()).items);
    }
    assert(readable_items(p4.items));
    lemma_readable_described(p4, 1, m.exif, m.xmp);
    assert(still_plan(m).items =~= with_xmp(with_exif(p4, 1, m.exif), 1, m.xmp).items);
    lemma_readable_plan(still_plan(m), m.profile_brand);
}

/// Hiding an item that is hidden changes nothing.
pub proof fn lemma_hidden_already(plan: FilePlan, id: u32)
    requires
        plan.holds(id) ==> plan.item(id).hidden,
    ensures
        plan.with_hidden(id, true) == plan,
{
    if plan.holds(id) {
        assert(plan.with_hidden(id, true).items =~= plan.items);
    }
}

impl AvifMuxer {
    /// A file with one coded image of this size, with its coded bytes and
    /// its configuration record.
    pub fn new(width: u32, height: u32, payload: Vec<u8>, av1c: Vec<u8>) -> (r: AvifMuxer)
        ensures
            r@ == plain_still(width, height, payload@, av1c@),
    {
        AvifMuxer {
            width,
            height,
            primary_payload: payload,
            av1c,
            pixi: None,
            colr: None,
            pasp: None,
            clap: None,
            irot: None,
            imir: None,
            mdcv: None,
            clli: None,
            amve: None,
            alpha: None,
            depth: None,
            exif: None,
            xmp: None,
            identity: None,
            layered_index: None,
            layer_selector: None,
            operating_point: None,
            profile_brand: ProfileBrand::Baseline,
        }
    }

    /// The bits per channel.
    pub fn with_pixi(self, bits: Vec<u8>) -> (r: AvifMuxer)
        ensures
            r@ == (MuxerView { pixi: Some(bits@), ..self@ }),
    {
        let mut r = self;
        r.pixi = Some(bits);
        r
    }

    /// The colour description.
    pub fn with_colr(self, colr: Colr) -> (r: AvifMuxer)
        ensures
            r@ == (MuxerView { colr: Some(colr@), ..self@ }),
    {
        let mut r = self;
        r.colr = Some(colr);
        r
    }

    /// The pixel aspect ratio.
    pub fn with_pasp(self, pasp: Pasp) -> (r: AvifMuxer)
        ensures
            r@ == (MuxerView { pasp: Some(pasp), ..self@ }),
    {
        let mut r = self;
        r.pasp = Some(pasp);
        r
    }

    /// The clean aperture.
    pub fn with_clap(self, clap: Clap) -> (r: AvifMuxer)
        ensures
            r@ == (MuxerView { clap: Some(clap), ..self@ }),
    {
        let mut r = self;
        r.clap = Some(clap);
        r
    }

    /// The rotation, in quarter turns; two bits of it count.
    pub fn with_irot(self, angle: u8) -> (r: AvifMuxer)
        ensures
            r@ == (MuxerView { irot: Some(Irot { angle: (angle % 4) as u8 }), ..self@ }),
    {
        let mut r = self;
        r.irot = Some(Irot { angle: angle % 4 });
        r
    }

    /// The mirror axis; one bit of it counts.
    pub fn with_imir(self, axis: u8) -> (r: AvifMuxer)
        ensures
            r@ == (MuxerView { imir: Some(Imir { axis: (axis % 2) as u8 }), ..self@ }),
    {
        let mut r = self;
        r.imir = Some(Imir { axis: axis % 2 });
        r
    }

    /// The mastering display.
    pub fn with_mdcv(self, mdcv: Mdcv) -> (r: AvifMuxer)
        ensures
            r@ == (MuxerView { mdcv: Some(mdcv), ..self@ }),
    {
        let mut r = self;
        r.mdcv = Some(mdcv);
        r
    }

    /// The content light level.
    pub fn with_clli(self, clli: Clli) -> (r: AvifMuxer)
        ensures
            r@ == (MuxerView { clli: Some(clli), ..self@ }),
    {
        let mut r = self;
        r.clli = Some(clli);
        r
    }

    /// The ambient viewing environment.
    pub fn with_amve(self, amve: Amve) -> (r: AvifMuxer)
        ensures
            r@ == (MuxerView { amve: Some(amve), ..self@ }),
    {
        let mut r = self;
        r.amve = Some(amve);
        r
    }

    /// An Exif item: its offset word and its payload.
    pub fn with_exif(self, payload: Vec<u8>) -> (r: AvifMuxer)
        ensures
            r@ == (MuxerView { exif: Some(payload@), ..self@ }),
    {
        let mut r = self;
        r.exif = Some(payload);
        r
    }

    /// An XMP item.
    pub fn with_xmp(self, payload: Vec<u8>) -> (r: AvifMuxer)
        ensures
            r@ == (MuxerView { xmp: Some(payload@), ..self@ }),
    {
        let mut r = self;
        r.xmp = Some(payload);
        r
    }

    /// The Advanced profile brand in place of the Baseline one.
    pub fn advanced_profile(self) -> (r: AvifMuxer)
        ensures
            r@ == (MuxerView { profile_brand: ProfileBrand::Advanced, ..self@ }),
    {
        let mut r = self;
        r.profile_brand = ProfileBrand::Advanced;
        r
    }

    /// No profile brand.
    pub fn no_profile_brand(self) -> (r: AvifMuxer)
        ensures
            r@ == (MuxerView { profile_brand: ProfileBrand::Bare, ..self@ }),
    {
        let mut r = self;
        r.profile_brand = ProfileBrand::Bare;
        r
    }

    /// An alpha auxiliary of one channel of 8 bits.
    pub fn with_alpha(self, payload: Vec<u8>, av1c: Vec<u8>, premultiplied: bool) -> (r: AvifMuxer)
        ensures
            r@ == (MuxerView {
                alpha: Some(
                    AlphaView {
                        image: AuxView {
                            payload: payload@,
                            av1c: av1c@,
                            pixi: Some(seq![8u8]),
                        },
                        premultiplied,
                    },
                ),
                ..self@
            }),
    {
        let mut r = self;
        let bits = vec![8u8];
        proof {
            assert(bits@ =~= seq![8u8]);
        }
        r.alpha = Some(
            AlphaImage { image: AuxCoded { payload, av1c, pixi: Some(bits) }, premultiplied },
        );
        r
    }

    /// The bits per channel of the alpha auxiliary, where there is one.
    pub fn with_alpha_pixi(self, bits: Vec<u8>) -> (r: AvifMuxer)
        ensures
            r@ == (MuxerView {
                alpha: match self@.alpha {
                    Some(a) => Some(
                        AlphaView { image: AuxView { pixi: Some(bits@), ..a.image }, ..a },
                    ),
                    None => None,
                },
                ..self@
            }),
    {
        let mut r = self;
        r.alpha = match r.alpha {
            Some(a) => Some(
                AlphaImage {
                    image: AuxCoded {
                        payload: a.image.payload,
                        av1c: a.image.av1c,
                        pixi: Some(bits),
                    },
                    premultiplied: a.premultiplied,
                },
            ),
            None => None,
        };
        r
    }

    /// A depth auxiliary of one channel of 8 bits.
    pub fn with_depth(self, payload: Vec<u8>, av1c: Vec<u8>) -> (r: AvifMuxer)
        ensures
            r@ == (MuxerView {
                depth: Some(
                    AuxView { payload: payload@, av1c: av1c@, pixi: Some(seq![8u8]) },
                ),
                ..self@
            }),
    {
        let mut r = self;
        let bits = vec![8u8];
        proof {
            assert(bits@ =~= seq![8u8]);
        }
        r.depth = Some(AuxCoded { payload, av1c, pixi: Some(bits) });
        r
    }

    /// The layer sizes of a layered image.
    pub fn with_layered_index(self, layer_size: [u32; 3]) -> (r: AvifMuxer)
        ensures
            r@ == (MuxerView { layered_index: Some(layer_size), ..self@ }),
    {
        let mut r = self;
        r.layered_index = Some(layer_size);
        r
    }

    /// The layer to present.
    pub fn with_layer_selector(self, layer_id: u16) -> (r: AvifMuxer)
        ensures
            r@ == (MuxerView { layer_selector: Some(layer_id), ..self@ }),
    {
        let mut r = self;
        r.layer_selector = Some(layer_id);
        r
    }

    /// The operating point to process.
    pub fn with_operating_point(self, op_index: u8) -> (r: AvifMuxer)
        ensures
            r@ == (MuxerView { operating_point: Some(op_index), ..self@ }),
    {
        let mut r = self;
        r.operating_point = Some(op_index);
        r
    }

    /// The primary item as an identity derivation of the coded image.
    pub fn with_identity_derivation(self, derivation: IdentityDerivation) -> (r: AvifMuxer)
        ensures
            r@ == (MuxerView { identity: Some(derivation), ..self@ }),
    {
        let mut r = self;
        r.identity = Some(derivation);
        r
    }

    /// The properties of the coded image.
    fn coded_props(&self) -> (r: Result<Vec<Prop>, AvifError>)
        ensures
            match r {
                Ok(props) => either(
                    record_fault(self@.av1c, ""@),
                    opt_colr_fault(self@.colr),
                ) is None && queued(props@) == primary_props(self@),
                Err(e) => either(record_fault(self@.av1c, ""@), opt_colr_fault(self@.colr))
                    == Some(e@),
            },
    {
        let mut props = list_of(prop_av1c(self.av1c.as_slice(), "")?);
        push_prop(&mut props, prop_ispe(self.width, self.height));
        proof {
            let m = self@;
            assert(seq![prop(PropertyView::Av1C(m.av1c), true)] + seq![
                prop(PropertyView::Ispe(Ispe { width: m.width, height: m.height }), false),
            ] =~= seq![
                prop(PropertyView::Av1C(m.av1c), true),
                prop(PropertyView::Ispe(Ispe { width: m.width, height: m.height }), false),
            ]);
        }
        push_a1op(&mut props, self.operating_point);
        push_lsel(&mut props, self.layer_selector);
        push_a1lx(&mut props, self.layered_index);
        push_pixi(&mut props, &self.pixi);
        push_colr(&mut props, &self.colr)?;
        push_pasp(&mut props, self.pasp);
        push_mdcv(&mut props, self.mdcv);
        push_clli(&mut props, self.clli);
        push_amve(&mut props, self.amve);
        push_clap(&mut props, self.clap);
        push_irot(&mut props, self.irot);
        push_imir(&mut props, self.imir);
        Ok(props)
    }

    /// The properties of the identity derivation.
    fn derivation_props(&self, d: &IdentityDerivation) -> (r: Vec<Prop>)
        ensures
            queued(r@) == identity_props(self@, *d),
    {
        let mut size: (u32, u32) = (self.width, self.height);
        match self.clap {
            Some(c) => {
                size = DimTransform::Crop {
                    width_n: c.clean_aperture_width_n,
                    width_d: c.clean_aperture_width_d,
                    height_n: c.clean_aperture_height_n,
                    height_d: c.clean_aperture_height_d,
                }.apply_dims(size.0, size.1);
            },
            None => {},
        }
        match self.irot {
            Some(r) => {
                size = DimTransform::Rotate { angle: r.angle }.apply_dims(size.0, size.1);
            },
            None => {},
        }
        let turn = match d.irot {
            Some(a) => Some(Irot { angle: a % 4 }),
            None => None,
        };
        let flip = match d.imir {
            Some(a) => Some(Imir { axis: a % 2 }),
            None => None,
        };
        let mut props = list_of(prop_ispe(size.0, size.1));
        push_pixi(&mut props, &self.pixi);
        push_clap(&mut props, d.clap);
        push_irot(&mut props, turn);
        push_imir(&mut props, flip);
        props
    }

    /// The properties of an auxiliary image.
    fn auxiliary(&self, a: &AuxCoded, urn: &str, what: &str) -> (r: Result<Vec<Prop>, AvifError>)
        ensures
            match r {
                Ok(props) => record_fault(a@.av1c, what@) is None && queued(props@)
                    == auxiliary_props(self@, a@, urn@),
                Err(e) => record_fault(a@.av1c, what@) == Some(e@),
            },
    {
        let mut props = list_of(prop_av1c(a.av1c.as_slice(), what)?);
        push_prop(&mut props, prop_ispe(self.width, self.height));
        push_prop(&mut props, prop_auxc(urn));
        proof {
            assert(queued(props@) =~= seq![
                prop(PropertyView::Av1C(a@.av1c), true),
                prop(
                    PropertyView::Ispe(Ispe { width: self@.width, height: self@.height }),
                    false,
                ),
                prop(aux_type(urn@), false),
            ]);
        }
        push_pixi(&mut props, &a.pixi);
        Ok(props)
    }

    /// Write the file. It reads back: its brands, its items with their
    /// properties and their bytes, its references and its primary item
    /// are those of the plan.
    pub fn build(self) -> (r: Result<Vec<u8>, AvifError>)
        ensures
            match still_fault(self@) {
                Some(f) => outcome_view(r) == Err::<Seq<u8>, Fault>(f),
                None => {
                    &&& r is Ok
                    &&& outcome_view(r) == written(still_plan(self@))
                    &&& reads_back(r->Ok_0@, still_plan(self@))
                },
            },
    {
        let ghost m = self@;
        let (major, compat) = still_brands(self.profile_brand);
        let mut w = HeifWriter::new().with_brands(major, compat);
        let props = self.coded_props()?;
        let coded: u32 = w.add_coded_item(
            ITEM_TYPE_AV01,
            slice_to_vec(self.primary_payload.as_slice()),
            props,
        );
        expect_id(coded, 1, "primary")?;
        proof {
            assert(plan_of(w) == coded_plan(m));
        }
        let mut primary_id: u32 = coded;
        match &self.identity {
            Some(d) => {
                let iprops = self.derivation_props(d);
                primary_id = w.add_identity(coded, iprops);
            },
            None => {},
        }
        proof {
            assert(plan_of(w) == identity_plan(m));
        }
        match &self.alpha {
            Some(a) => {
                let aprops = self.auxiliary(&a.image, ALPHA_URN_PREFIX, "alpha ")?;
                proof {
                    lemma_auxiliary_props(m, a.image@, ALPHA_URN_PREFIX@);
                }
                let id: u32 = w.add_alpha(
                    coded,
                    ITEM_TYPE_AV01,
                    slice_to_vec(a.image.payload.as_slice()),
                    aprops,
                    a.premultiplied,
                );
                proof {
                    assert(plan_of(w) == alpha_plan(m));
                    lemma_hidden_already(plan_of(w), id);
                }
                w.set_hidden(id, true);
            },
            None => {},
        }
        proof {
            assert(plan_of(w) == alpha_plan(m));
        }
        match &self.depth {
            Some(a) => {
                let dprops = self.auxiliary(a, AUX_URN_DEPTH_MPEG, "depth ")?;
                proof {
                    lemma_auxiliary_props(m, a@, AUX_URN_DEPTH_MPEG@);
                }
                let id: u32 = w.add_depth(
                    coded,
                    ITEM_TYPE_AV01,
                    slice_to_vec(a.payload.as_slice()),
                    dprops,
                );
                proof {
                    assert(plan_of(w) == depth_plan(m));
                    lemma_hidden_already(plan_of(w), id);
                }
                w.set_hidden(id, true);
            },
            None => {},
        }
        proof {
            assert(plan_of(w) == depth_plan(m));
        }
        add_exif_item(&mut w, coded, &self.exif)?;
        add_xmp_item(&mut w, coded, &self.xmp)?;
        w.set_primary(primary_id);
        proof {
            lemma_still_valid(m);
            lemma_still_readable(m);
            assert(plan_of(w) == still_plan(m));
        }
        write_file(&w)
    }
}

/// A file with one coded image and its bits per channel.
pub fn encode_still_av1(
    width: u32,
    height: u32,
    payload: Vec<u8>,
    av1c: Vec<u8>,
    pixi_bits: Vec<u8>,
) -> (r: Result<Vec<u8>, AvifError>)
    ensures
        ({
            let m = MuxerView {
                pixi: Some(pixi_bits@),
                ..plain_still(width, height, payload@, av1c@)
            };
            match record_fault(av1c@, ""@) {
                Some(f) => outcome_view(r) == Err::<Seq<u8>, Fault>(f),
                None => {
                    &&& r is Ok
                    &&& outcome_view(r) == written(still_plan(m))
                    &&& reads_back(r->Ok_0@, still_plan(m))
                },
            }
        }),
{
    AvifMuxer::new(width, height, payload, av1c).with_pixi(pixi_bits).build()
}

} // verus!
