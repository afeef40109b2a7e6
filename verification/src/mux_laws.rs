//! Files that are written read back as what they were made of.

use crate::alpha::{alpha_of, is_alpha_item, ALPHA_URN_PREFIX};
use crate::box_parser::BoxType;
use crate::container::{
    body_of, entries_of, leads, lists, read_of, reads_back, stores, BodyPlan, FilePlan,
    PropPlan, AUXL, CDSC, DIMG, PREM,
};
use crate::error::Fault;
use crate::meta::{all_sources, aux_of, property_with, MetaView};
use crate::meta_parse::{IrefView, PropertyAssociation, ITEM_TYPE_EXIF};
use crate::mux::{
    alpha_plan, auxiliary_props, coded_plan, depth_plan, identity_plan, primary_props, still_fault,
    still_plan, AuxView, MuxerView,
};
use crate::mux_items::{
    as_a1lx, as_a1op, as_amve, as_clap, as_clli, as_colr, as_imir, as_irot, as_lsel, as_mdcv,
    as_pasp, as_pixi, with_exif, with_xmp,
};
use crate::mux_props::{aux_type, opt_prop, prop, still_codes};
use crate::parser::{header_of, parsed, BRAND_AVIF};
use crate::property_laws::{
    faithful, law_property_reads_back, lemma_alpha_urn, lemma_depth_urn, no_nul,
};
use crate::props::{
    AuxKind, Ispe, PropertyView, A1LX, A1OP, AMVE, AUXC, AUX_URN_DEPTH_MPEG, AV1C, CCLV, CLAP, CLLI, COLR, IMIR, IROT, ISPE,
    LSEL, MDCV, PASP, PIXI,
};
use vstd::prelude::*;

verus! {

/// The first property of this type from place `i` on.
pub open spec fn found(s: Seq<PropPlan>, kind: BoxType, i: int) -> Option<PropPlan>
    decreases s.len() - i,
{
    if i < 0 || i >= s.len() {
        None
    } else if s[i].box_type == kind {
        Some(s[i])
    } else {
        found(s, kind, i + 1)
    }
}

/// The first of two, or the second where there is no first.
pub open spec fn or_else(a: Option<PropPlan>, b: Option<PropPlan>) -> Option<PropPlan> {
    match a {
        Some(_) => a,
        None => b,
    }
}

/// In two lists joined, the first list comes first.
pub proof fn lemma_found_add(a: Seq<PropPlan>, b: Seq<PropPlan>, kind: BoxType, i: int)
    requires
        0 <= i <= a.len(),
    ensures
        found(a + b, kind, i) == or_else(found(a, kind, i), found(b, kind, 0)),
    decreases a.len() - i,
{
    if i < a.len() {
        assert((a + b)[i] == a[i]);
        lemma_found_add(a, b, kind, i + 1);
    } else {
        lemma_found_shift(a, b, kind, 0);
    }
}

proof fn lemma_found_shift(a: Seq<PropPlan>, b: Seq<PropPlan>, kind: BoxType, i: int)
    requires
        0 <= i <= b.len(),
    ensures
        found(a + b, kind, a.len() + i) == found(b, kind, i),
    decreases b.len() - i,
{
    if i < b.len() {
        assert((a + b)[a.len() + i] == b[i]);
        lemma_found_shift(a, b, kind, i + 1);
    }
}

/// A property where there is one and it is of this type.
pub open spec fn when_kind(p: Option<PropertyView>, essential: bool, kind: BoxType) -> Option<PropPlan> {
    match p {
        Some(v) => if v.kind() == kind {
            Some(prop(v, essential))
        } else {
            None
        },
        None => None,
    }
}

pub proof fn lemma_found_opt(p: Option<PropertyView>, essential: bool, kind: BoxType)
    ensures
        found(opt_prop(p, essential), kind, 0) == when_kind(p, essential, kind),
{
    reveal_with_fuel(found, 3);
}

/// What is read of a property has the type under which it is stored.
#[verifier::spinoff_prover]
#[verifier::rlimit(40)]
pub proof fn lemma_property_kind(t: BoxType, s: Seq<u8>)
    ensures
        read_of(t, s) matches Ok(p) ==> p.kind() == t,
{
    reveal(read_of);
}

/// Looking a property up gives the first one of its type.
pub proof fn lemma_lookup(meta: MetaView, id: u32, plans: Seq<PropPlan>, kind: BoxType)
    requires
        lists(meta, id, plans),
    ensures
        match found(plans, kind, 0) {
            None => meta.property(id, kind) is None,
            Some(p) => read_of(p.box_type, p.body) is Ok && meta.property(id, kind) == Some(
                read_of(p.box_type, p.body)->Ok_0,
            ),
        },
{
    lemma_lookup_from(meta, entries_of(meta, id), plans, kind, 0);
}

proof fn lemma_lookup_from(
    meta: MetaView,
    entries: Seq<PropertyAssociation>,
    plans: Seq<PropPlan>,
    kind: BoxType,
    i: int,
)
    requires
        0 <= i <= entries.len(),
        entries.len() == plans.len(),
        forall|j: int|
            0 <= j < plans.len() ==> leads(meta, #[trigger] entries[j], plans[j]),
    ensures
        match found(plans, kind, i) {
            None => property_with(entries, meta.properties, kind, i) is None,
            Some(p) => read_of(p.box_type, p.body) is Ok && property_with(
                entries,
                meta.properties,
                kind,
                i,
            ) == Some(read_of(p.box_type, p.body)->Ok_0),
        },
    decreases entries.len() - i,
{
    if i < entries.len() {
        assert(leads(meta, entries[i], plans[i]));
        lemma_property_kind(plans[i].box_type, plans[i].body);
        lemma_lookup_from(meta, entries, plans, kind, i + 1);
    }
}

/// A property that keeps its value is looked up as it was written.
pub proof fn lemma_kept(
    meta: MetaView,
    id: u32,
    plans: Seq<PropPlan>,
    p: PropertyView,
    essential: bool,
)
    requires
        lists(meta, id, plans),
        found(plans, p.kind(), 0) == Some(prop(p, essential)),
        faithful(p),
    ensures
        meta.property(id, p.kind()) == Some(p),
{
    lemma_lookup(meta, id, plans, p.kind());
    assert(read_of(p.kind(), body_of(p)) == Ok::<PropertyView, Fault>(p)) by {
        law_property_reads_back(p);
        reveal(read_of);
    }
}

/// Whether what a file says of its coded image keeps its value when it
/// is written: the bits per channel are counted in one byte, a rotation
/// takes two bits and a mirror one.
pub open spec fn keeps(m: MuxerView) -> bool {
    &&& m.pixi is Some ==> m.pixi->0.len() <= 255
    &&& m.irot is Some ==> m.irot->0.angle < 4
    &&& m.imir is Some ==> m.imir->0.axis < 2
}

/// What is found among the properties of the coded image.
pub open spec fn primary_found(m: MuxerView, kind: BoxType) -> Option<PropPlan> {
    let extents = PropertyView::Ispe(Ispe { width: m.width, height: m.height });
    let f0 = or_else(
        when_kind(Some(PropertyView::Av1C(m.av1c)), true, kind),
        when_kind(Some(extents), false, kind),
    );
    let f1 = or_else(f0, when_kind(as_a1op(m.operating_point), true, kind));
    let f2 = or_else(f1, when_kind(as_lsel(m.layer_selector), true, kind));
    let f3 = or_else(f2, when_kind(as_a1lx(m.layered_index), false, kind));
    let f4 = or_else(f3, when_kind(as_pixi(m.pixi), false, kind));
    let f5 = or_else(f4, when_kind(as_colr(m.colr), false, kind));
    let f6 = or_else(f5, when_kind(as_pasp(m.pasp), false, kind));
    let f7 = or_else(f6, when_kind(as_mdcv(m.mdcv), false, kind));
    let f8 = or_else(f7, when_kind(as_clli(m.clli), false, kind));
    let f9 = or_else(f8, when_kind(as_amve(m.amve), false, kind));
    let f10 = or_else(f9, when_kind(as_clap(m.clap), true, kind));
    let f11 = or_else(f10, when_kind(as_irot(m.irot), true, kind));
    or_else(f11, when_kind(as_imir(m.imir), true, kind))
}

proof fn lemma_primary_found(m: MuxerView, kind: BoxType)
    ensures
        found(primary_props(m), kind, 0) == primary_found(m, kind),
{
    let record = PropertyView::Av1C(m.av1c);
    let extents = PropertyView::Ispe(Ispe { width: m.width, height: m.height });
    let s0 = seq![prop(record, true), prop(extents, false)];
    assert(s0 =~= opt_prop(Some(record), true) + opt_prop(Some(extents), false));
    lemma_found_opt(Some(record), true, kind);
    lemma_found_opt(Some(extents), false, kind);
    lemma_found_add(opt_prop(Some(record), true), opt_prop(Some(extents), false), kind, 0);
    let s1 = s0 + opt_prop(as_a1op(m.operating_point), true);
    lemma_found_opt(as_a1op(m.operating_point), true, kind);
    lemma_found_add(s0, opt_prop(as_a1op(m.operating_point), true), kind, 0);
    let s2 = s1 + opt_prop(as_lsel(m.layer_selector), true);
    lemma_found_opt(as_lsel(m.layer_selector), true, kind);
    lemma_found_add(s1, opt_prop(as_lsel(m.layer_selector), true), kind, 0);
    let s3 = s2 + opt_prop(as_a1lx(m.layered_index), false);
    lemma_found_opt(as_a1lx(m.layered_index), false, kind);
    lemma_found_add(s2, opt_prop(as_a1lx(m.layered_index), false), kind, 0);
    let s4 = s3 + opt_prop(as_pixi(m.pixi), false);
    lemma_found_opt(as_pixi(m.pixi), false, kind);
    lemma_found_add(s3, opt_prop(as_pixi(m.pixi), false), kind, 0);
    let s5 = s4 + opt_prop(as_colr(m.colr), false);
    lemma_found_opt(as_colr(m.colr), false, kind);
    lemma_found_add(s4, opt_prop(as_colr(m.colr), false), kind, 0);
    let s6 = s5 + opt_prop(as_pasp(m.pasp), false);
    lemma_found_opt(as_pasp(m.pasp), false, kind);
    lemma_found_add(s5, opt_prop(as_pasp(m.pasp), false), kind, 0);
    let s7 = s6 + opt_prop(as_mdcv(m.mdcv), false);
    lemma_found_opt(as_mdcv(m.mdcv), false, kind);
    lemma_found_add(s6, opt_prop(as_mdcv(m.mdcv), false), kind, 0);
    let s8 = s7 + opt_prop(as_clli(m.clli), false);
    lemma_found_opt(as_clli(m.clli), false, kind);
    lemma_found_add(s7, opt_prop(as_clli(m.clli), false), kind, 0);
    let s9 = s8 + opt_prop(as_amve(m.amve), false);
    lemma_found_opt(as_amve(m.amve), false, kind);
    lemma_found_add(s8, opt_prop(as_amve(m.amve), false), kind, 0);
    let s10 = s9 + opt_prop(as_clap(m.clap), true);
    lemma_found_opt(as_clap(m.clap), true, kind);
    lemma_found_add(s9, opt_prop(as_clap(m.clap), true), kind, 0);
    let s11 = s10 + opt_prop(as_irot(m.irot), true);
    lemma_found_opt(as_irot(m.irot), true, kind);
    lemma_found_add(s10, opt_prop(as_irot(m.irot), true), kind, 0);
    lemma_found_opt(as_imir(m.imir), true, kind);
    lemma_found_add(s11, opt_prop(as_imir(m.imir), true), kind, 0);
}

/// The coded image stays the first item.
pub proof fn lemma_still_first(m: MuxerView)
    ensures
        still_plan(m).items.len() >= 1,
        still_plan(m).items[0] == coded_plan(m).items[0],
        still_plan(m).brands == Some((BRAND_AVIF, still_codes(m.profile_brand))),
{
    let p1 = coded_plan(m);
    let p2 = identity_plan(m);
    assert(p2.items[0] == p1.items[0]);
    let p3 = alpha_plan(m);
    assert(p3.items[0] == p2.items[0]);
    let p4 = depth_plan(m);
    assert(p4.items[0] == p3.items[0]);
    let p5 = with_exif(p4, 1, m.exif);
    assert(p5.items[0] == p4.items[0]);
    let p6 = with_xmp(p5, 1, m.xmp);
    assert(p6.items[0] == p5.items[0]);
}

/// What a reader finds of the coded image.
pub open spec fn image_kept(meta: MetaView, id: u32, m: MuxerView) -> bool {
    &&& meta.av1c(id) == Some(m.av1c)
    &&& meta.ispe(id) == Some(Ispe { width: m.width, height: m.height })
    &&& meta.pixi(id) == m.pixi
    &&& meta.colr(id) == m.colr
    &&& meta.pasp(id) == m.pasp
    &&& meta.mdcv(id) == m.mdcv
    &&& meta.clli(id) == m.clli
    &&& meta.cclv(id) is None
    &&& meta.amve(id) == m.amve
    &&& meta.property(id, CLAP) == as_clap(m.clap)
    &&& meta.property(id, IROT) == as_irot(m.irot)
    &&& meta.property(id, IMIR) == as_imir(m.imir)
    &&& meta.property(id, A1OP) == as_a1op(m.operating_point)
    &&& meta.property(id, LSEL) == as_lsel(m.layer_selector)
    &&& meta.property(id, A1LX) == as_a1lx(m.layered_index)
}

/// One optional property: kept where there is one, absent otherwise.
pub proof fn lemma_optional(
    meta: MetaView,
    id: u32,
    plans: Seq<PropPlan>,
    p: Option<PropertyView>,
    essential: bool,
    kind: BoxType,
)
    requires
        lists(meta, id, plans),
        found(plans, kind, 0) == when_kind(p, essential, kind),
        p is Some ==> p->0.kind() == kind && faithful(p->0),
    ensures
        meta.property(id, kind) == p,
{
    lemma_lookup(meta, id, plans, kind);
    match p {
        Some(v) => {
            lemma_kept(meta, id, plans, v, essential);
        },
        None => {},
    }
}

proof fn lemma_image_kept(meta: MetaView, id: u32, m: MuxerView)
    requires
        lists(meta, id, primary_props(m)),
        keeps(m),
        !(m.colr matches Some(crate::props::ColrView::Unknown(_))),
    ensures
        image_kept(meta, id, m),
{
    let s = primary_props(m);
    lemma_primary_found(m, AV1C);
    lemma_optional(meta, id, s, Some(PropertyView::Av1C(m.av1c)), true, AV1C);
    lemma_primary_found(m, ISPE);
    lemma_optional(
        meta,
        id,
        s,
        Some(PropertyView::Ispe(Ispe { width: m.width, height: m.height })),
        false,
        ISPE,
    );
    lemma_primary_found(m, PIXI);
    lemma_optional(meta, id, s, as_pixi(m.pixi), false, PIXI);
    lemma_primary_found(m, COLR);
    lemma_optional(meta, id, s, as_colr(m.colr), false, COLR);
    lemma_primary_found(m, PASP);
    lemma_optional(meta, id, s, as_pasp(m.pasp), false, PASP);
    lemma_primary_found(m, MDCV);
    lemma_optional(meta, id, s, as_mdcv(m.mdcv), false, MDCV);
    lemma_primary_found(m, CLLI);
    lemma_optional(meta, id, s, as_clli(m.clli), false, CLLI);
    lemma_primary_found(m, CCLV);
    lemma_optional(meta, id, s, None, false, CCLV);
    lemma_primary_found(m, AMVE);
    lemma_optional(meta, id, s, as_amve(m.amve), false, AMVE);
    lemma_primary_found(m, CLAP);
    lemma_optional(meta, id, s, as_clap(m.clap), true, CLAP);
    lemma_primary_found(m, IROT);
    lemma_optional(meta, id, s, as_irot(m.irot), true, IROT);
    lemma_primary_found(m, IMIR);
    lemma_optional(meta, id, s, as_imir(m.imir), true, IMIR);
    lemma_primary_found(m, A1OP);
    lemma_optional(meta, id, s, as_a1op(m.operating_point), true, A1OP);
    lemma_primary_found(m, LSEL);
    lemma_optional(meta, id, s, as_lsel(m.layer_selector), true, LSEL);
    lemma_primary_found(m, A1LX);
    lemma_optional(meta, id, s, as_a1lx(m.layered_index), false, A1LX);
}

/// A file that is written reads back: the brands, the coded bytes of the
/// image, and every property of it that keeps its value.
pub proof fn law_still_reads_back(m: MuxerView, file: Seq<u8>)
    requires
        still_fault(m) is None,
        keeps(m),
        reads_back(file, still_plan(m)),
    ensures
        header_of(file) is Ok,
        header_of(file)->Ok_0.major_brand == BRAND_AVIF,
        header_of(file)->Ok_0.compatible_brands == still_codes(m.profile_brand),
        header_of(file)->Ok_0.meta.primary_item_id == Some(
            if m.identity is Some {
                2u32
            } else {
                1u32
            },
        ),
        crate::parser::payload_bytes(file, header_of(file)->Ok_0.meta, 1) == Ok::<Seq<u8>, Fault>(
            m.primary_payload,
        ),
        image_kept(header_of(file)->Ok_0.meta, 1, m),
        m.identity is None ==> parsed(file) is Ok && parsed(file)->Ok_0.primary_item_data
            == m.primary_payload && parsed(file)->Ok_0.meta == header_of(file)->Ok_0.meta,
        crate::parser::mif1_of(file) is Ok && crate::parser::mif1_of(file)->Ok_0.complete(),
{
    lemma_still_first(m);
    let plan = still_plan(m);
    let h = header_of(file)->Ok_0;
    assert(plan.holds(1));
    assert(plan.item(1) == plan.items[0]);
    assert(stores(file, h.meta, 1, plan.item(1)));
    lemma_image_kept(h.meta, 1, m);
}

// ---------------------------------------------------------------------
// Auxiliary images and metadata

/// One more reference is one more source, if it is of this type and
/// leads there.
pub proof fn lemma_sources_push(s: Seq<IrefView>, e: IrefView, t: BoxType, to_id: u32)
    ensures
        all_sources(s.push(e), t, to_id, s.len() + 1) == if e.reference_type == t
            && e.to_ids.contains(to_id) {
            all_sources(s, t, to_id, s.len()).push(e.from_id)
        } else {
            all_sources(s, t, to_id, s.len())
        },
{
    lemma_sources_prefix(s.push(e), s, t, to_id, s.len());
}

pub proof fn lemma_sources_prefix(a: Seq<IrefView>, b: Seq<IrefView>, t: BoxType, to_id: u32, n: nat)
    requires
        n <= a.len(),
        n <= b.len(),
        forall|i: int| 0 <= i < n ==> a[i] == b[i],
    ensures
        all_sources(a, t, to_id, n) == all_sources(b, t, to_id, n),
    decreases n,
{
    if n > 0 {
        lemma_sources_prefix(a, b, t, to_id, (n - 1) as nat);
    }
}

/// The sources of the references of a file.
pub open spec fn plan_sources(plan: FilePlan, t: BoxType, to_id: u32) -> Seq<u32> {
    all_sources(plan.references, t, to_id, plan.references.len())
}

/// The id of the alpha auxiliary.
pub open spec fn alpha_id(m: MuxerView) -> u32 {
    identity_plan(m).next_id()
}

/// The id of the depth auxiliary.
pub open spec fn depth_id(m: MuxerView) -> u32 {
    alpha_plan(m).next_id()
}

/// The id of the Exif item.
pub open spec fn exif_id(m: MuxerView) -> u32 {
    depth_plan(m).next_id()
}

/// The id of the XMP item.
pub open spec fn xmp_id(m: MuxerView) -> u32 {
    with_exif(depth_plan(m), 1, m.exif).next_id()
}

/// How many items there are at each step.
pub proof fn lemma_still_lengths(m: MuxerView)
    ensures
        identity_plan(m).items.len() == if m.identity is Some {
            2nat
        } else {
            1nat
        },
        alpha_plan(m).items.len() == identity_plan(m).items.len() + if m.alpha is Some {
            1nat
        } else {
            0nat
        },
        depth_plan(m).items.len() == alpha_plan(m).items.len() + if m.depth is Some {
            1nat
        } else {
            0nat
        },
        with_exif(depth_plan(m), 1, m.exif).items.len() == depth_plan(m).items.len()
            + if m.exif is Some {
            1nat
        } else {
            0nat
        },
        still_plan(m).items.len() == with_exif(depth_plan(m), 1, m.exif).items.len()
            + if m.xmp is Some {
            1nat
        } else {
            0nat
        },
{
}

/// Items stay where they were queued.
pub proof fn lemma_still_items(m: MuxerView)
    ensures
        m.alpha is Some ==> still_plan(m).holds(alpha_id(m)) && still_plan(m).item(alpha_id(m))
            == alpha_plan(m).items.last(),
        m.depth is Some ==> still_plan(m).holds(depth_id(m)) && still_plan(m).item(depth_id(m))
            == depth_plan(m).items.last(),
        m.exif is Some ==> still_plan(m).holds(exif_id(m)) && still_plan(m).item(exif_id(m)).body
            == BodyPlan::Metadata(m.exif->0) && still_plan(m).item(exif_id(m)).item_type
            == ITEM_TYPE_EXIF,
        m.xmp is Some ==> still_plan(m).holds(xmp_id(m)) && still_plan(m).item(xmp_id(m)).body
            == BodyPlan::Metadata(m.xmp->0) && still_plan(m).item(xmp_id(m)).content_type == Some(
            "application/rdf+xml"@,
        ),
{
    lemma_still_lengths(m);
    let p3 = alpha_plan(m);
    let p4 = depth_plan(m);
    let p5 = with_exif(p4, 1, m.exif);
    let p6 = with_xmp(p5, 1, m.xmp);
    assert(forall|i: int| 0 <= i < p3.items.len() ==> p4.items[i] == p3.items[i]);
    assert(forall|i: int| 0 <= i < p4.items.len() ==> p5.items[i] == p4.items[i]);
    assert(forall|i: int| 0 <= i < p5.items.len() ==> p6.items[i] == p5.items[i]);
}

/// Which auxiliary images and metadata items refer to the coded image.
pub proof fn lemma_still_sources(m: MuxerView)
    ensures
        plan_sources(still_plan(m), AUXL, 1) == (if m.alpha is Some {
            seq![alpha_id(m)]
        } else {
            Seq::empty()
        }) + (if m.depth is Some {
            seq![depth_id(m)]
        } else {
            Seq::empty()
        }),
        plan_sources(still_plan(m), CDSC, 1) == (if m.exif is Some {
            seq![exif_id(m)]
        } else {
            Seq::empty()
        }) + (if m.xmp is Some {
            seq![xmp_id(m)]
        } else {
            Seq::empty()
        }),
{
    assert(AUXL[0] == 0x61 && CDSC[0] == 0x63 && DIMG[0] == 0x64 && PREM[0] == 0x70);
    let to = seq![1u32];
    assert(to[0] == 1);
    let p1 = coded_plan(m);
    let p2 = identity_plan(m);
    if m.identity is Some {
        let e = IrefView { reference_type: DIMG, from_id: 2, to_ids: to };
        assert(p2.references =~= p1.references.push(e));
        lemma_sources_push(p1.references, e, AUXL, 1);
        lemma_sources_push(p1.references, e, CDSC, 1);
    }
    assert(plan_sources(p2, AUXL, 1) =~= Seq::empty());
    assert(plan_sources(p2, CDSC, 1) =~= Seq::empty());
    let p3 = alpha_plan(m);
    if m.alpha is Some {
        let e = IrefView { reference_type: AUXL, from_id: alpha_id(m), to_ids: to };
        lemma_sources_push(p2.references, e, AUXL, 1);
        lemma_sources_push(p2.references, e, CDSC, 1);
        let mid = p2.references.push(e);
        if m.alpha->0.premultiplied {
            let f = IrefView { reference_type: PREM, from_id: 1, to_ids: seq![alpha_id(m)] };
            assert(p3.references =~= mid.push(f));
            lemma_sources_push(mid, f, AUXL, 1);
            lemma_sources_push(mid, f, CDSC, 1);
        } else {
            assert(p3.references =~= mid);
        }
        assert(plan_sources(p3, AUXL, 1) =~= seq![alpha_id(m)]);
    }
    assert(plan_sources(p3, CDSC, 1) =~= Seq::empty());
    let p4 = depth_plan(m);
    if m.depth is Some {
        let e = IrefView { reference_type: AUXL, from_id: depth_id(m), to_ids: to };
        assert(p4.references =~= p3.references.push(e));
        lemma_sources_push(p3.references, e, AUXL, 1);
        lemma_sources_push(p3.references, e, CDSC, 1);
    }
    assert(plan_sources(p4, CDSC, 1) =~= Seq::empty());
    let p5 = with_exif(p4, 1, m.exif);
    if m.exif is Some {
        let e = IrefView { reference_type: CDSC, from_id: exif_id(m), to_ids: to };
        assert(p5.references =~= p4.references.push(e));
        lemma_sources_push(p4.references, e, AUXL, 1);
        lemma_sources_push(p4.references, e, CDSC, 1);
    }
    assert(plan_sources(p5, AUXL, 1) == plan_sources(p4, AUXL, 1));
    let p6 = with_xmp(p5, 1, m.xmp);
    if m.xmp is Some {
        let e = IrefView { reference_type: CDSC, from_id: xmp_id(m), to_ids: to };
        assert(p6.references =~= p5.references.push(e));
        lemma_sources_push(p5.references, e, AUXL, 1);
        lemma_sources_push(p5.references, e, CDSC, 1);
    }
    assert(still_plan(m).references == p6.references);
    assert(plan_sources(still_plan(m), AUXL, 1) =~= (if m.alpha is Some {
        seq![alpha_id(m)]
    } else {
        Seq::empty()
    }) + (if m.depth is Some {
        seq![depth_id(m)]
    } else {
        Seq::empty()
    }));
    assert(plan_sources(still_plan(m), CDSC, 1) =~= (if m.exif is Some {
        seq![exif_id(m)]
    } else {
        Seq::empty()
    }) + (if m.xmp is Some {
        seq![xmp_id(m)]
    } else {
        Seq::empty()
    }));
}

/// What is found among the properties of an auxiliary image.
pub proof fn lemma_auxiliary_kept(meta: MetaView, id: u32, m: MuxerView, a: AuxView, urn: Seq<char>)
    requires
        lists(meta, id, auxiliary_props(m, a, urn)),
        no_nul(urn),
        a.pixi is Some ==> a.pixi->0.len() <= 255,
    ensures
        meta.av1c(id) == Some(a.av1c),
        meta.ispe(id) == Some(Ispe { width: m.width, height: m.height }),
        meta.pixi(id) == a.pixi,
        meta.property(id, AUXC) == Some(aux_type(urn)),
{
    let s = auxiliary_props(m, a, urn);
    let record = PropertyView::Av1C(a.av1c);
    let extents = PropertyView::Ispe(Ispe { width: m.width, height: m.height });
    let s0 = opt_prop(Some(record), true) + opt_prop(Some(extents), false);
    let s1 = s0 + opt_prop(Some(aux_type(urn)), false);
    assert(s =~= s1 + opt_prop(as_pixi(a.pixi), false));
    assert forall|kind: BoxType| #[trigger]
        found(s, kind, 0) == or_else(
            or_else(
                or_else(when_kind(Some(record), true, kind), when_kind(Some(extents), false, kind)),
                when_kind(Some(aux_type(urn)), false, kind),
            ),
            when_kind(as_pixi(a.pixi), false, kind),
        ) by {
        lemma_found_opt(Some(record), true, kind);
        lemma_found_opt(Some(extents), false, kind);
        lemma_found_opt(Some(aux_type(urn)), false, kind);
        lemma_found_opt(as_pixi(a.pixi), false, kind);
        lemma_found_add(opt_prop(Some(record), true), opt_prop(Some(extents), false), kind, 0);
        lemma_found_add(s0, opt_prop(Some(aux_type(urn)), false), kind, 0);
        lemma_found_add(s1, opt_prop(as_pixi(a.pixi), false), kind, 0);
    }
    lemma_optional(meta, id, s, Some(record), true, AV1C);
    lemma_optional(meta, id, s, Some(extents), false, ISPE);
    lemma_optional(meta, id, s, Some(aux_type(urn)), false, AUXC);
    lemma_optional(meta, id, s, as_pixi(a.pixi), false, PIXI);
}

/// The alpha auxiliary of a file reads back: it is found from the coded
/// image, it is hidden, and its bytes and properties are those it had.
pub proof fn law_alpha_reads_back(m: MuxerView, file: Seq<u8>)
    requires
        still_fault(m) is None,
        reads_back(file, still_plan(m)),
        m.alpha is Some,
        m.alpha->0.image.pixi is Some ==> m.alpha->0.image.pixi->0.len() <= 255,
    ensures
        ({
            let meta = header_of(file)->Ok_0.meta;
            let a = m.alpha->0;
            &&& alpha_of(meta, 1) == Some(alpha_id(m))
            &&& meta.item(alpha_id(m)) is Some && meta.item(alpha_id(m))->0.flags == 1
            &&& crate::parser::payload_bytes(file, meta, alpha_id(m)) == Ok::<Seq<u8>, Fault>(
                a.image.payload,
            )
            &&& meta.av1c(alpha_id(m)) == Some(a.image.av1c)
            &&& meta.pixi(alpha_id(m)) == a.image.pixi
            &&& a.premultiplied ==> meta.premultiplied(1)
        }),
{
    let meta = header_of(file)->Ok_0.meta;
    let a = m.alpha->0;
    let id = alpha_id(m);
    lemma_still_items(m);
    lemma_still_lengths(m);
    lemma_still_sources(m);
    assert(stores(file, meta, id, still_plan(m).item(id)));
    lemma_alpha_urn();
    lemma_auxiliary_kept(meta, id, m, a.image, ALPHA_URN_PREFIX@);
    let sources = meta.sources(AUXL, 1);
    assert(sources[0] == id);
    assert(ALPHA_URN_PREFIX@.subrange(0, ALPHA_URN_PREFIX@.len() as int) =~= ALPHA_URN_PREFIX@);
    assert(is_alpha_item(meta, id));
    if a.premultiplied {
        lemma_premultiplied(m, meta);
    }
}

/// The premultiplied alpha of a file is seen from the coded image.
proof fn lemma_premultiplied(m: MuxerView, meta: MetaView)
    requires
        m.alpha is Some,
        m.alpha->0.premultiplied,
        meta.irefs == still_plan(m).references,
        meta.sources(AUXL, 1).len() > 0,
        meta.sources(AUXL, 1)[0] == alpha_id(m),
        meta.property(alpha_id(m), AUXC) == Some(aux_type(ALPHA_URN_PREFIX@)),
    ensures
        meta.premultiplied(1),
{
    let p2 = identity_plan(m);
    let p3 = alpha_plan(m);
    let p4 = depth_plan(m);
    let p5 = with_exif(p4, 1, m.exif);
    let p6 = with_xmp(p5, 1, m.xmp);
    let i = p2.references.len() as int + 1;
    let f = IrefView { reference_type: PREM, from_id: 1, to_ids: seq![alpha_id(m)] };
    assert(p3.references[i] == f);
    assert(p4.references[i] == f);
    assert(p5.references[i] == f);
    assert(p6.references[i] == f);
    assert(meta.irefs[i].to_ids[0] == alpha_id(m));
    let sources = meta.sources(AUXL, 1);
    lemma_aux_first(meta, sources, sources.len());
    assert(meta.is_alpha_of(meta.irefs[i].to_ids[0], 1));
}

/// The first source, if it is an alpha plane, is listed as one.
pub proof fn lemma_aux_first(meta: MetaView, sources: Seq<u32>, n: nat)
    requires
        1 <= n <= sources.len(),
        meta.property(sources[0], AUXC) == Some(aux_type(ALPHA_URN_PREFIX@)),
    ensures
        aux_of(meta, sources, n).len() > 0,
        aux_of(meta, sources, n)[0] == (sources[0], AuxKind::Alpha),
    decreases n,
{
    if n > 1 {
        lemma_aux_first(meta, sources, (n - 1) as nat);
    } else {
        assert(aux_of(meta, sources, 0) =~= Seq::empty());
    }
}

/// The depth auxiliary of a file reads back: it refers to the coded
/// image, it is hidden, its type names a depth map, and its bytes and
/// properties are those it had.
pub proof fn law_depth_reads_back(m: MuxerView, file: Seq<u8>)
    requires
        still_fault(m) is None,
        reads_back(file, still_plan(m)),
        m.depth is Some,
        m.depth->0.pixi is Some ==> m.depth->0.pixi->0.len() <= 255,
    ensures
        ({
            let meta = header_of(file)->Ok_0.meta;
            &&& meta.sources(AUXL, 1).contains(depth_id(m))
            &&& meta.item(depth_id(m)) is Some && meta.item(depth_id(m))->0.flags == 1
            &&& crate::parser::payload_bytes(file, meta, depth_id(m)) == Ok::<Seq<u8>, Fault>(
                m.depth->0.payload,
            )
            &&& meta.av1c(depth_id(m)) == Some(m.depth->0.av1c)
            &&& meta.pixi(depth_id(m)) == m.depth->0.pixi
            &&& meta.property(depth_id(m), AUXC) == Some(aux_type(AUX_URN_DEPTH_MPEG@))
        }),
{
    let meta = header_of(file)->Ok_0.meta;
    let id = depth_id(m);
    lemma_still_items(m);
    lemma_still_lengths(m);
    lemma_still_sources(m);
    assert(stores(file, meta, id, still_plan(m).item(id)));
    lemma_depth_urn();
    lemma_auxiliary_kept(meta, id, m, m.depth->0, AUX_URN_DEPTH_MPEG@);
    assert(meta.sources(AUXL, 1).last() == id);
}

/// The metadata of a file reads back: each item describes the coded
/// image, and its bytes are those it had.
pub proof fn law_metadata_reads_back(m: MuxerView, file: Seq<u8>)
    requires
        still_fault(m) is None,
        reads_back(file, still_plan(m)),
    ensures
        ({
            let meta = header_of(file)->Ok_0.meta;
            &&& m.exif is Some ==> meta.sources(CDSC, 1).contains(exif_id(m)) && meta.item(
                exif_id(m),
            ) is Some && meta.item(exif_id(m))->0.item_type == ITEM_TYPE_EXIF
                && crate::parser::payload_bytes(file, meta, exif_id(m)) == Ok::<Seq<u8>, Fault>(
                m.exif->0,
            )
            &&& m.xmp is Some ==> meta.sources(CDSC, 1).contains(xmp_id(m)) && meta.item(
                xmp_id(m),
            ) is Some && meta.item(xmp_id(m))->0.content_type == Some("application/rdf+xml"@)
                && crate::parser::payload_bytes(file, meta, xmp_id(m)) == Ok::<Seq<u8>, Fault>(
                m.xmp->0,
            )
        }),
{
    let meta = header_of(file)->Ok_0.meta;
    lemma_still_items(m);
    lemma_still_lengths(m);
    lemma_still_sources(m);
    if m.exif is Some {
        assert(stores(file, meta, exif_id(m), still_plan(m).item(exif_id(m))));
        assert(meta.sources(CDSC, 1)[0] == exif_id(m));
    }
    if m.xmp is Some {
        assert(stores(file, meta, xmp_id(m), still_plan(m).item(xmp_id(m))));
        assert(meta.sources(CDSC, 1).last() == xmp_id(m));
    }
}

} // verus!
