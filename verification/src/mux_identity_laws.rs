//! Files whose primary item is an identity derivation are inspected as
//! what they were made of.

use crate::box_parser::BoxType;
use crate::container::{lists, reads_back, stores, PropPlan, DIMG};
use crate::derived::{chain_of, dim_transform, shown_size, size_after, transforms_of, DimTransform};
use crate::inspect::{coded_leaf, first_leaf, inspected, or_empty};
use crate::meta::{targets_with, MetaView};
use crate::meta_parse::{IrefView, ITEM_TYPE_IDEN, ITEM_TYPE_IOVL};
use crate::mux::{
    alpha_plan, coded_plan, depth_plan, flipped, identity_plan, identity_props, primary_props,
    shown_dims, still_fault, still_plan, turned, IdentityDerivation, MuxerView,
};
use crate::mux_inspect_laws::{
    is_transform_type, lemma_planned_add, lemma_planned_opt, lemma_planned_transforms,
    planned_transforms,
};
use crate::mux_items::{
    as_a1lx, as_a1op, as_amve, as_clap, as_clli, as_colr, as_imir, as_irot, as_lsel, as_mdcv,
    as_pasp, as_pixi, with_exif, with_xmp,
};
use crate::mux_laws::{
    found, keeps, law_still_reads_back, lemma_found_add, lemma_found_opt, lemma_optional, or_else,
    when_kind,
};
use crate::mux_props::{opt_prop, prop};
use crate::parser::{header_of, ITEM_TYPE_AV01, ITEM_TYPE_GRID};
use crate::props::{
    Clap, Imir, Irot, Ispe, PropertyView, AMVE, CCLV, CLAP, CLLI, COLR, IMIR, IROT, ISPE, MDCV,
    PASP, PIXI,
};
use crate::resolve::rebuilt;
use vstd::prelude::*;

verus! {

/// One property, where there is one.
pub open spec fn one(p: Option<PropertyView>) -> Seq<PropertyView> {
    match p {
        Some(v) => seq![v],
        None => Seq::empty(),
    }
}

/// The transformations that an image is given.
pub open spec fn given(clap: Option<Clap>, irot: Option<Irot>, imir: Option<Imir>) -> Seq<
    PropertyView,
> {
    one(as_clap(clap)) + one(as_irot(irot)) + one(as_imir(imir))
}

/// A size after an aperture and a rotation.
pub open spec fn dims_after(clap: Option<Clap>, irot: Option<Irot>, width: u32, height: u32) -> (
    u32,
    u32,
) {
    let cropped = match clap {
        Some(c) => DimTransform::Crop {
            width_n: c.clean_aperture_width_n,
            width_d: c.clean_aperture_width_d,
            height_n: c.clean_aperture_height_n,
            height_d: c.clean_aperture_height_d,
        }.dims(width, height),
        None => (width, height),
    };
    match irot {
        Some(r) => DimTransform::Rotate { angle: r.angle }.dims(cropped.0, cropped.1),
        None => cropped,
    }
}

/// The size of an item with these transformations as it is shown.
proof fn lemma_given_size(
    meta: MetaView,
    id: u32,
    clap: Option<Clap>,
    irot: Option<Irot>,
    imir: Option<Imir>,
    width: u32,
    height: u32,
)
    requires
        transforms_of(meta, id) == given(clap, irot, imir),
    ensures
        shown_size(meta, id, width, height) == dims_after(clap, irot, width, height),
{
    let all = given(clap, irot, imir);
    let chain = chain_of(meta, id);
    reveal_with_fuel(size_after, 4);
    let a = one(as_clap(clap));
    let b = one(as_irot(irot));
    if clap is Some {
        assert(all[0] == PropertyView::Clap(clap->0));
        assert(chain[0] == dim_transform(all[0]));
    }
    if irot is Some {
        assert(all[a.len() as int] == PropertyView::Irot(irot->0));
        assert(chain[a.len() as int] == dim_transform(all[a.len() as int]));
    }
    if imir is Some {
        let k = (a.len() + b.len()) as int;
        assert(all[k] == PropertyView::Imir(imir->0));
        assert(chain[k] == dim_transform(all[k]));
    }
}

/// A property that is no transformation adds none.
proof fn lemma_step(s: Seq<PropPlan>, p: Option<PropertyView>, essential: bool)
    requires
        p is Some ==> !is_transform_type(p->0.kind()),
        planned_transforms(s, s.len()) == Seq::<PropertyView>::empty(),
    ensures
        ({
            let next = s + opt_prop(p, essential);
            planned_transforms(next, next.len()) == Seq::<PropertyView>::empty()
        }),
{
    let o = opt_prop(p, essential);
    lemma_planned_add(s, o, o.len());
    lemma_planned_opt(p, essential);
    assert((s + o).len() == s.len() + o.len());
    assert(Seq::<PropertyView>::empty() + Seq::<PropertyView>::empty() =~= Seq::empty());
}

/// The transformations at the end of a list.
proof fn lemma_last_steps(
    s: Seq<PropPlan>,
    clap: Option<Clap>,
    irot: Option<Irot>,
    imir: Option<Imir>,
)
    requires
        planned_transforms(s, s.len()) == Seq::<PropertyView>::empty(),
        irot is Some ==> irot->0.angle < 4,
        imir is Some ==> imir->0.axis < 2,
    ensures
        ({
            let all = s + opt_prop(as_clap(clap), true) + opt_prop(as_irot(irot), true) + opt_prop(
                as_imir(imir),
                true,
            );
            planned_transforms(all, all.len()) == given(clap, irot, imir)
        }),
{
    let (a, b, c) = (
        opt_prop(as_clap(clap), true),
        opt_prop(as_irot(irot), true),
        opt_prop(as_imir(imir), true),
    );
    lemma_planned_add(s, a, a.len());
    lemma_planned_add(s + a, b, b.len());
    lemma_planned_add(s + a + b, c, c.len());
    lemma_planned_opt(as_clap(clap), true);
    lemma_planned_opt(as_irot(irot), true);
    lemma_planned_opt(as_imir(imir), true);
    assert((s + a).len() == s.len() + a.len());
    assert((s + a + b).len() == (s + a).len() + b.len());
    assert((s + a + b + c).len() == (s + a + b).len() + c.len());
    assert(planned_transforms(s + a + b + c, (s + a + b + c).len()) =~= given(clap, irot, imir));
}

/// None of these types is that of a transformation.
proof fn lemma_no_transforms()
    ensures
        !is_transform_type(crate::props::AV1C),
        !is_transform_type(ISPE),
        !is_transform_type(crate::props::A1OP),
        !is_transform_type(crate::props::LSEL),
        !is_transform_type(crate::props::A1LX),
        !is_transform_type(PIXI),
        !is_transform_type(COLR),
        !is_transform_type(PASP),
        !is_transform_type(MDCV),
        !is_transform_type(CLLI),
        !is_transform_type(AMVE),
{
    assert(CLAP[0] == 0x63 && CLAP[1] == 0x6c && CLAP[2] == 0x61);
    assert(IROT[0] == 0x69 && IROT[1] == 0x72 && IMIR[0] == 0x69 && IMIR[1] == 0x6d);
    assert(crate::props::AV1C[0] == 0x61 && ISPE[1] == 0x73 && crate::props::A1OP[0] == 0x61);
    assert(crate::props::LSEL[0] == 0x6c && crate::props::A1LX[0] == 0x61 && PIXI[0] == 0x70);
    assert(COLR[1] == 0x6f && PASP[0] == 0x70 && MDCV[0] == 0x6d && CLLI[2] == 0x6c);
    assert(AMVE[0] == 0x61);
}

/// The coded image has the transformations it was given.
proof fn lemma_primary_transforms(m: MuxerView)
    requires
        keeps(m),
    ensures
        planned_transforms(primary_props(m), primary_props(m).len()) == given(
            m.clap,
            m.irot,
            m.imir,
        ),
{
    lemma_no_transforms();
    let record = PropertyView::Av1C(m.av1c);
    let extents = PropertyView::Ispe(Ispe { width: m.width, height: m.height });
    let none = Seq::<PropPlan>::empty();
    lemma_step(none, Some(record), true);
    let s0 = none + opt_prop(Some(record), true);
    lemma_step(s0, Some(extents), false);
    let s1 = s0 + opt_prop(Some(extents), false);
    assert(s1 =~= seq![prop(record, true), prop(extents, false)]);
    lemma_step(s1, as_a1op(m.operating_point), true);
    let s2 = s1 + opt_prop(as_a1op(m.operating_point), true);
    lemma_step(s2, as_lsel(m.layer_selector), true);
    let s3 = s2 + opt_prop(as_lsel(m.layer_selector), true);
    lemma_step(s3, as_a1lx(m.layered_index), false);
    let s4 = s3 + opt_prop(as_a1lx(m.layered_index), false);
    lemma_step(s4, as_pixi(m.pixi), false);
    let s5 = s4 + opt_prop(as_pixi(m.pixi), false);
    lemma_step(s5, as_colr(m.colr), false);
    let s6 = s5 + opt_prop(as_colr(m.colr), false);
    lemma_step(s6, as_pasp(m.pasp), false);
    let s7 = s6 + opt_prop(as_pasp(m.pasp), false);
    lemma_step(s7, as_mdcv(m.mdcv), false);
    let s8 = s7 + opt_prop(as_mdcv(m.mdcv), false);
    lemma_step(s8, as_clli(m.clli), false);
    let s9 = s8 + opt_prop(as_clli(m.clli), false);
    lemma_step(s9, as_amve(m.amve), false);
    let s10 = s9 + opt_prop(as_amve(m.amve), false);
    lemma_last_steps(s10, m.clap, m.irot, m.imir);
}

/// The identity derivation has the transformations it was given.
proof fn lemma_identity_transforms(m: MuxerView, d: IdentityDerivation)
    ensures
        planned_transforms(identity_props(m, d), identity_props(m, d).len()) == given(
            d.clap,
            turned(d),
            flipped(d),
        ),
{
    lemma_no_transforms();
    let extents = PropertyView::Ispe(Ispe { width: shown_dims(m).0, height: shown_dims(m).1 });
    let none = Seq::<PropPlan>::empty();
    lemma_step(none, Some(extents), false);
    let s0 = none + opt_prop(Some(extents), false);
    assert(s0 =~= seq![prop(extents, false)]);
    lemma_step(s0, as_pixi(m.pixi), false);
    let s1 = s0 + opt_prop(as_pixi(m.pixi), false);
    lemma_last_steps(s1, d.clap, turned(d), flipped(d));
}

/// What is found among the properties of the identity derivation.
pub open spec fn identity_found(m: MuxerView, d: IdentityDerivation, kind: BoxType) -> Option<
    PropPlan,
> {
    let extents = PropertyView::Ispe(Ispe { width: shown_dims(m).0, height: shown_dims(m).1 });
    let f0 = when_kind(Some(extents), false, kind);
    let f1 = or_else(f0, when_kind(as_pixi(m.pixi), false, kind));
    let f2 = or_else(f1, when_kind(as_clap(d.clap), true, kind));
    let f3 = or_else(f2, when_kind(as_irot(turned(d)), true, kind));
    or_else(f3, when_kind(as_imir(flipped(d)), true, kind))
}

proof fn lemma_identity_found(m: MuxerView, d: IdentityDerivation, kind: BoxType)
    ensures
        found(identity_props(m, d), kind, 0) == identity_found(m, d, kind),
{
    let extents = PropertyView::Ispe(Ispe { width: shown_dims(m).0, height: shown_dims(m).1 });
    let s0 = seq![prop(extents, false)];
    assert(s0 =~= opt_prop(Some(extents), false));
    lemma_found_opt(Some(extents), false, kind);
    let s1 = s0 + opt_prop(as_pixi(m.pixi), false);
    lemma_found_opt(as_pixi(m.pixi), false, kind);
    lemma_found_add(s0, opt_prop(as_pixi(m.pixi), false), kind, 0);
    let s2 = s1 + opt_prop(as_clap(d.clap), true);
    lemma_found_opt(as_clap(d.clap), true, kind);
    lemma_found_add(s1, opt_prop(as_clap(d.clap), true), kind, 0);
    let s3 = s2 + opt_prop(as_irot(turned(d)), true);
    lemma_found_opt(as_irot(turned(d)), true, kind);
    lemma_found_add(s2, opt_prop(as_irot(turned(d)), true), kind, 0);
    lemma_found_opt(as_imir(flipped(d)), true, kind);
    lemma_found_add(s3, opt_prop(as_imir(flipped(d)), true), kind, 0);
}

/// What a reader finds of the identity derivation.
pub open spec fn identity_kept(meta: MetaView, m: MuxerView, d: IdentityDerivation) -> bool {
    &&& meta.ispe(2) == Some(Ispe { width: shown_dims(m).0, height: shown_dims(m).1 })
    &&& meta.pixi(2) == m.pixi
    &&& meta.property(2, CLAP) == as_clap(d.clap)
    &&& meta.property(2, IROT) == as_irot(turned(d))
    &&& meta.property(2, IMIR) == as_imir(flipped(d))
    &&& meta.colr(2) is None
    &&& meta.pasp(2) is None
    &&& meta.mdcv(2) is None
    &&& meta.clli(2) is None
    &&& meta.cclv(2) is None
    &&& meta.amve(2) is None
}

proof fn lemma_identity_kept(meta: MetaView, m: MuxerView, d: IdentityDerivation)
    requires
        lists(meta, 2, identity_props(m, d)),
        keeps(m),
    ensures
        identity_kept(meta, m, d),
{
    let s = identity_props(m, d);
    let extents = PropertyView::Ispe(Ispe { width: shown_dims(m).0, height: shown_dims(m).1 });
    lemma_identity_found(m, d, ISPE);
    lemma_optional(meta, 2, s, Some(extents), false, ISPE);
    lemma_identity_found(m, d, PIXI);
    lemma_optional(meta, 2, s, as_pixi(m.pixi), false, PIXI);
    lemma_identity_found(m, d, CLAP);
    lemma_optional(meta, 2, s, as_clap(d.clap), true, CLAP);
    lemma_identity_found(m, d, IROT);
    lemma_optional(meta, 2, s, as_irot(turned(d)), true, IROT);
    lemma_identity_found(m, d, IMIR);
    lemma_optional(meta, 2, s, as_imir(flipped(d)), true, IMIR);
    lemma_identity_found(m, d, COLR);
    lemma_optional(meta, 2, s, None, false, COLR);
    lemma_identity_found(m, d, PASP);
    lemma_optional(meta, 2, s, None, false, PASP);
    lemma_identity_found(m, d, MDCV);
    lemma_optional(meta, 2, s, None, false, MDCV);
    lemma_identity_found(m, d, CLLI);
    lemma_optional(meta, 2, s, None, false, CLLI);
    lemma_identity_found(m, d, CCLV);
    lemma_optional(meta, 2, s, None, false, CCLV);
    lemma_identity_found(m, d, AMVE);
    lemma_optional(meta, 2, s, None, false, AMVE);
}

/// The identity derivation stays the second item, and its reference the
/// first.
proof fn lemma_identity_second(m: MuxerView)
    requires
        m.identity is Some,
    ensures
        still_plan(m).items.len() >= 2,
        still_plan(m).items[1] == identity_plan(m).items[1],
        still_plan(m).references.len() >= 1,
        still_plan(m).references[0] == (IrefView {
            reference_type: DIMG,
            from_id: 2,
            to_ids: seq![1u32],
        }),
{
    let p2 = identity_plan(m);
    assert(coded_plan(m).references.len() == 0);
    let p3 = alpha_plan(m);
    assert(p3.items[1] == p2.items[1] && p3.references[0] == p2.references[0]);
    let p4 = depth_plan(m);
    assert(p4.items[1] == p3.items[1] && p4.references[0] == p3.references[0]);
    let p5 = with_exif(p4, 1, m.exif);
    assert(p5.items[1] == p4.items[1] && p5.references[0] == p4.references[0]);
    let p6 = with_xmp(p5, 1, m.xmp);
    assert(p6.items[1] == p5.items[1] && p6.references[0] == p5.references[0]);
}

/// The identity derivation of a file reads back: its extents are the size
/// of the coded image as it is shown, and its own transformations are
/// those it was given.
pub proof fn law_identity_reads_back(m: MuxerView, file: Seq<u8>)
    requires
        still_fault(m) is None,
        keeps(m),
        m.identity is Some,
        reads_back(file, still_plan(m)),
    ensures
        ({
            let meta = header_of(file)->Ok_0.meta;
            let d = m.identity->0;
            &&& meta.primary_item_id == Some(2u32)
            &&& meta.item(2) is Some
            &&& meta.item(2)->0.item_type == ITEM_TYPE_IDEN
            &&& meta.targets(DIMG, 2) == seq![1u32]
            &&& identity_kept(meta, m, d)
            &&& shown_size(meta, 1, m.width, m.height) == shown_dims(m)
            &&& shown_size(meta, 2, shown_dims(m).0, shown_dims(m).1) == dims_after(
                d.clap,
                turned(d),
                shown_dims(m).0,
                shown_dims(m).1,
            )
        }),
{
    law_still_reads_back(m, file);
    let meta = header_of(file)->Ok_0.meta;
    let plan = still_plan(m);
    let d = m.identity->0;
    lemma_identity_second(m);
    crate::mux_laws::lemma_still_first(m);
    assert(plan.holds(1) && plan.holds(2));
    assert(plan.item(1) == plan.items[0] && plan.item(2) == plan.items[1]);
    assert(stores(file, meta, 1, plan.item(1)));
    assert(stores(file, meta, 2, plan.item(2)));
    lemma_identity_kept(meta, m, d);
    lemma_planned_transforms(meta, 1, primary_props(m));
    lemma_primary_transforms(m);
    lemma_given_size(meta, 1, m.clap, m.irot, m.imir, m.width, m.height);
    lemma_planned_transforms(meta, 2, identity_props(m, d));
    lemma_identity_transforms(m, d);
    lemma_given_size(
        meta,
        2,
        d.clap,
        turned(d),
        flipped(d),
        shown_dims(m).0,
        shown_dims(m).1,
    );
    assert(meta.irefs[0] == plan.references[0]);
    reveal_with_fuel(targets_with, 2);
}

/// A file whose primary item is an identity derivation is inspected as
/// what it was made of: the coded image with its own transformations and
/// those of the derivation, the properties of the derivation or in their
/// place those of the coded image, and the record of the coded image.
pub proof fn law_identity_inspects(m: MuxerView, file: Seq<u8>)
    requires
        still_fault(m) is None,
        keeps(m),
        m.identity is Some,
        reads_back(file, still_plan(m)),
    ensures
        inspected(file) is Ok,
        ({
            let v = inspected(file)->Ok_0;
            let d = m.identity->0;
            &&& (v.width, v.height) == dims_after(
                d.clap,
                turned(d),
                shown_dims(m).0,
                shown_dims(m).1,
            )
            &&& v.av1c == m.av1c
            &&& v.obu_bytes.len() == 0
            &&& !v.is_grid
            &&& v.bits_per_channel == or_empty(m.pixi)
            &&& v.colour == m.colr
            &&& v.pasp == m.pasp
            &&& v.mdcv == m.mdcv
            &&& v.clli == m.clli
            &&& v.cclv is None
            &&& v.amve == m.amve
            &&& v.mif1_compliance.complete()
        }),
{
    law_still_reads_back(m, file);
    law_identity_reads_back(m, file);
    let meta = header_of(file)->Ok_0.meta;
    let plan = still_plan(m);
    crate::mux_laws::lemma_still_first(m);
    assert(plan.holds(1));
    assert(plan.item(1) == plan.items[0]);
    assert(stores(file, meta, 1, plan.item(1)));
    assert(ITEM_TYPE_AV01[0] == 0x61 && ITEM_TYPE_GRID[0] == 0x67);
    assert(ITEM_TYPE_IDEN[1] == 0x64 && ITEM_TYPE_IOVL[1] == 0x6f);
    assert(meta.targets(DIMG, 2)[0] == 1);
    assert(rebuilt(meta, file, 1, 1) == Some((m.width, m.height)));
    assert(rebuilt(meta, file, 2, 0) == Some(shown_dims(m)));
    reveal_with_fuel(coded_leaf, 2);
    reveal_with_fuel(first_leaf, 2);
    assert(coded_leaf(meta, 1, 1) == Some(1u32));
    assert(coded_leaf(meta, 2, 0) == Some(1u32));
}

} // verus!
