//! Files that are written are inspected as what they were made of.

use crate::alpha::{alpha_of, first_alpha, names_alpha, ALPHA_URN_PREFIX};
use crate::box_parser::BoxType;
use crate::container::{
    body_of, entries_of, leads, lists, read_of, reads_back, stores, PropPlan, AUXL, CDSC,
    DIMG, PREM,
};
use crate::derived::{
    chain_of, names_transform, shown_size, size_after, transforms_of, transforms_with, DimTransform,
};
use crate::error::Fault;
use crate::inspect::{
    aux_with, coded_leaf, first_leaf, inspected, is_exif, is_xmp, linked, metadata_among,
    metadata_of, or_empty,
};
use crate::lookup::first_of;
use crate::meta::{aux_of, MetaView};
use crate::meta_parse::{IrefView, PropertyAssociation, ITEM_TYPE_EXIF, ITEM_TYPE_IOVL, ITEM_TYPE_MIME};
use crate::mux::{
    alpha_plan, depth_plan, identity_plan, still_fault, still_plan, MuxerView,
};
use crate::mux_items::{as_colr, as_imir, as_irot, as_pixi, with_exif, with_xmp};
use crate::mux_laws::{
    alpha_id, depth_id, exif_id, keeps, law_depth_reads_back, law_still_reads_back,
    lemma_auxiliary_kept, lemma_still_items, lemma_still_lengths, lemma_still_sources, xmp_id,
};
use crate::mux_overlay::{
    layer_id, layer_offsets, overlay_fault, overlay_plan, overlay_props, OverlayMuxerView,
};
use crate::mux_overlay_laws::{
    law_overlay_body_reads_back, law_overlay_reads_back, layer_kept, overlay_keeps,
};
use crate::mux_props::{aux_type, opt_prop, prop};
use crate::parser::{header_of, ITEM_TYPE_AV01, ITEM_TYPE_GRID};
use crate::property_laws::{faithful, law_property_reads_back, lemma_alpha_urn};
use crate::props::{
    aux_kind, AuxKind, PropertyView, AUXC, AUX_URN_ALPHA_HEVC, AUX_URN_ALPHA_MPEG,
    AUX_URN_DEPTH_MPEG, CLAP, IMIR, IROT,
};
use crate::resolve::{item_overlay, rebuilt};
use vstd::prelude::*;

verus! {

/// The auxiliary type of a depth map does not name an alpha plane.
proof fn lemma_depth_is_no_alpha()
    ensures
        !names_alpha(AUX_URN_DEPTH_MPEG@),
        aux_kind(AUX_URN_DEPTH_MPEG@) == AuxKind::DepthMap,
        aux_kind(ALPHA_URN_PREFIX@) == AuxKind::Alpha,
{
    reveal_strlit("urn:mpeg:mpegB:cicp:systems:auxiliary:depth");
    reveal_strlit("urn:mpeg:mpegB:cicp:systems:auxiliary:alpha");
    reveal_strlit("urn:mpeg:hevc:2015:auxid:1");
    let d = AUX_URN_DEPTH_MPEG@;
    let a = ALPHA_URN_PREFIX@;
    assert(d[38] == 'd' && a[38] == 'a');
    assert(d.subrange(0, a.len() as int)[38] != a[38]);
    assert(AUX_URN_ALPHA_MPEG@[38] == 'a');
    assert(AUX_URN_ALPHA_HEVC@.len() == 26);
}

/// The MIME type of XMP is that of no Exif item.
proof fn lemma_xmp_is_no_exif(info: crate::meta_parse::ItemInfoView)
    requires
        info.item_type == ITEM_TYPE_MIME,
        info.content_type == Some("application/rdf+xml"@),
    ensures
        is_xmp(info),
        !is_exif(info),
{
    reveal_strlit("application/rdf+xml");
    reveal_strlit("application/octet-stream");
    reveal_strlit("image/tiff");
    reveal_strlit("image/x-exif");
    assert(ITEM_TYPE_MIME[0] == 0x6d && ITEM_TYPE_EXIF[0] == 0x45);
}

/// Whether the auxiliary images keep the bits of their channels when
/// they are written.
pub open spec fn auxiliaries_keep(m: MuxerView) -> bool {
    &&& m.alpha is Some && m.alpha->0.image.pixi is Some ==> m.alpha->0.image.pixi->0.len() <= 255
    &&& m.depth is Some && m.depth->0.pixi is Some ==> m.depth->0.pixi->0.len() <= 255
}

/// The auxiliary images of the coded image, as a reader lists them.
proof fn lemma_still_auxiliaries(m: MuxerView, file: Seq<u8>)
    requires
        still_fault(m) is None,
        reads_back(file, still_plan(m)),
        auxiliaries_keep(m),
    ensures
        ({
            let meta = header_of(file)->Ok_0.meta;
            &&& alpha_of(meta, 1) == (if m.alpha is Some {
                Some(alpha_id(m))
            } else {
                None
            })
            &&& aux_with(meta.aux_items(1), AuxKind::DepthMap, 0) == (if m.depth is Some {
                Some(depth_id(m))
            } else {
                None
            })
        }),
{
    let meta = header_of(file)->Ok_0.meta;
    lemma_still_lengths(m);
    lemma_still_sources(m);
    if m.alpha is Some {
        lemma_alpha_typed(m, file);
    }
    if m.depth is Some {
        law_depth_reads_back(m, file);
    }
    lemma_two_auxiliaries(
        meta,
        if m.alpha is Some {
            Some(alpha_id(m))
        } else {
            None
        },
        if m.depth is Some {
            Some(depth_id(m))
        } else {
            None
        },
    );
}

/// One id, or none.
pub open spec fn one_or_none(id: Option<u32>) -> Seq<u32> {
    match id {
        Some(v) => seq![v],
        None => Seq::empty(),
    }
}

/// What a reader makes of an alpha plane and a depth map.
proof fn lemma_two_auxiliaries(meta: MetaView, a: Option<u32>, d: Option<u32>)
    requires
        meta.sources(AUXL, 1) == one_or_none(a) + one_or_none(d),
        a is Some ==> meta.property(a->0, AUXC) == Some(aux_type(ALPHA_URN_PREFIX@)),
        d is Some ==> meta.property(d->0, AUXC) == Some(aux_type(AUX_URN_DEPTH_MPEG@)),
    ensures
        alpha_of(meta, 1) == a,
        aux_with(meta.aux_items(1), AuxKind::DepthMap, 0) == d,
{
    lemma_depth_is_no_alpha();
    assert(ALPHA_URN_PREFIX@.subrange(0, ALPHA_URN_PREFIX@.len() as int) =~= ALPHA_URN_PREFIX@);
    let sources = meta.sources(AUXL, 1);
    let aux = meta.aux_items(1);
    reveal_with_fuel(first_alpha, 3);
    reveal_with_fuel(aux_of, 3);
    reveal_with_fuel(aux_with, 3);
    if a is Some && d is Some {
        assert(sources =~= seq![a->0, d->0]);
        assert(aux =~= seq![(a->0, AuxKind::Alpha), (d->0, AuxKind::DepthMap)]);
    } else if a is Some {
        assert(sources =~= seq![a->0]);
        assert(aux =~= seq![(a->0, AuxKind::Alpha)]);
    } else if d is Some {
        assert(sources =~= seq![d->0]);
        assert(aux =~= seq![(d->0, AuxKind::DepthMap)]);
    } else {
        assert(sources =~= Seq::empty());
        assert(aux =~= Seq::empty());
    }
}

/// The alpha auxiliary has the type of one.
proof fn lemma_alpha_typed(m: MuxerView, file: Seq<u8>)
    requires
        still_fault(m) is None,
        reads_back(file, still_plan(m)),
        m.alpha is Some,
        auxiliaries_keep(m),
    ensures
        header_of(file)->Ok_0.meta.property(alpha_id(m), AUXC) == Some(
            aux_type(ALPHA_URN_PREFIX@),
        ),
{
    let meta = header_of(file)->Ok_0.meta;
    let id = alpha_id(m);
    lemma_still_items(m);
    lemma_still_lengths(m);
    assert(stores(file, meta, id, still_plan(m).item(id)));
    lemma_alpha_urn();
    lemma_auxiliary_kept(meta, id, m, m.alpha->0.image, ALPHA_URN_PREFIX@);
}

/// The metadata items of the coded image, as a reader finds them.
proof fn lemma_still_metadata(m: MuxerView, file: Seq<u8>)
    requires
        still_fault(m) is None,
        reads_back(file, still_plan(m)),
    ensures
        metadata_of(header_of(file)->Ok_0.meta, 1) == (
            if m.exif is Some {
                Some(exif_id(m))
            } else {
                None
            },
            if m.xmp is Some {
                Some(xmp_id(m))
            } else {
                None
            },
        ),
{
    let meta = header_of(file)->Ok_0.meta;
    lemma_still_items(m);
    lemma_still_lengths(m);
    lemma_still_sources(m);
    if m.exif is Some {
        assert(stores(file, meta, exif_id(m), still_plan(m).item(exif_id(m))));
    }
    if m.xmp is Some {
        assert(stores(file, meta, xmp_id(m), still_plan(m).item(xmp_id(m))));
        lemma_xmp_type(m);
        lemma_xmp_is_no_exif(meta.item(xmp_id(m))->0);
    }
    lemma_two_metadata(
        meta,
        if m.exif is Some {
            Some(exif_id(m))
        } else {
            None
        },
        if m.xmp is Some {
            Some(xmp_id(m))
        } else {
            None
        },
    );
}

/// What a reader makes of an Exif item and an XMP item.
proof fn lemma_two_metadata(meta: MetaView, e: Option<u32>, x: Option<u32>)
    requires
        meta.sources(CDSC, 1) == one_or_none(e) + one_or_none(x),
        e is Some ==> meta.item(e->0) is Some && is_exif(meta.item(e->0)->0),
        x is Some ==> meta.item(x->0) is Some && is_xmp(meta.item(x->0)->0) && !is_exif(
            meta.item(x->0)->0,
        ),
    ensures
        metadata_of(meta, 1) == (e, x),
{
    let sources = meta.sources(CDSC, 1);
    reveal_with_fuel(metadata_among, 3);
    if e is Some && x is Some {
        assert(sources =~= seq![e->0, x->0]);
    } else if e is Some {
        assert(sources =~= seq![e->0]);
    } else if x is Some {
        assert(sources =~= seq![x->0]);
    } else {
        assert(sources =~= Seq::empty());
    }
}

proof fn lemma_xmp_type(m: MuxerView)
    requires
        m.xmp is Some,
    ensures
        still_plan(m).item(xmp_id(m)).item_type == ITEM_TYPE_MIME,
{
    lemma_still_lengths(m);
    let p5 = with_exif(depth_plan(m), 1, m.exif);
    let p6 = with_xmp(p5, 1, m.xmp);
    assert(p6.items.last().item_type == ITEM_TYPE_MIME);
}

/// The coded image and its alpha auxiliary are linked where the colours
/// are premultiplied, and only then.
proof fn lemma_still_link(m: MuxerView, meta: MetaView)
    requires
        m.alpha is Some,
        meta.irefs == still_plan(m).references,
    ensures
        linked(meta, alpha_id(m), 1) == m.alpha->0.premultiplied,
{
    assert(AUXL[0] == 0x61 && CDSC[0] == 0x63 && DIMG[0] == 0x64 && PREM[0] == 0x70);
    let p2 = identity_plan(m);
    let p3 = alpha_plan(m);
    let p4 = depth_plan(m);
    let p5 = with_exif(p4, 1, m.exif);
    let p6 = with_xmp(p5, 1, m.xmp);
    let k = p2.references.len() as int;
    if m.alpha->0.premultiplied {
        let f = IrefView { reference_type: PREM, from_id: 1, to_ids: seq![alpha_id(m)] };
        assert(p3.references[k + 1] == f);
        assert(p4.references[k + 1] == f);
        assert(p5.references[k + 1] == f);
        assert(p6.references[k + 1] == f);
        assert(meta.irefs[k + 1].to_ids[0] == alpha_id(m));
        assert(meta.irefs[k + 1].to_ids.contains(alpha_id(m)));
    } else {
        assert forall|i: int| 0 <= i < p6.references.len() implies (
        #[trigger] p6.references[i]).reference_type != PREM by {
            if i < p5.references.len() {
                assert(p6.references[i] == p5.references[i]);
                if i < p4.references.len() {
                    assert(p5.references[i] == p4.references[i]);
                    if i < p3.references.len() {
                        assert(p4.references[i] == p3.references[i]);
                        if i < k {
                            assert(p3.references[i] == p2.references[i]);
                        }
                    }
                }
            }
        }
    }
}

/// A file with a coded image is inspected as what it was made of: its
/// size, its bytes, its record and its other properties, its alpha and
/// depth auxiliaries and its metadata.
pub proof fn law_still_inspects(m: MuxerView, file: Seq<u8>)
    requires
        still_fault(m) is None,
        keeps(m),
        auxiliaries_keep(m),
        m.identity is None,
        reads_back(file, still_plan(m)),
    ensures
        inspected(file) is Ok,
        ({
            let v = inspected(file)->Ok_0;
            &&& v.width == m.width
            &&& v.height == m.height
            &&& v.av1c == m.av1c
            &&& v.obu_bytes == m.primary_payload
            &&& !v.is_grid
            &&& v.bits_per_channel == or_empty(m.pixi)
            &&& v.colour == m.colr
            &&& v.pasp == m.pasp
            &&& v.mdcv == m.mdcv
            &&& v.clli == m.clli
            &&& v.cclv is None
            &&& v.amve == m.amve
            &&& v.operating_point is Some == m.operating_point is Some
            &&& m.operating_point is Some ==> v.operating_point->0.op_index == m.operating_point->0
            &&& v.has_alpha == (m.alpha is Some)
            &&& v.premultiplied_alpha == (m.alpha is Some && m.alpha->0.premultiplied)
            &&& v.depth_map_item_id == (if m.depth is Some {
                Some(depth_id(m))
            } else {
                None
            })
            &&& v.exif_item_id == (if m.exif is Some {
                Some(exif_id(m))
            } else {
                None
            })
            &&& v.xmp_item_id == (if m.xmp is Some {
                Some(xmp_id(m))
            } else {
                None
            })
            &&& v.mif1_compliance.complete()
        }),
{
    law_still_reads_back(m, file);
    lemma_still_auxiliaries(m, file);
    lemma_still_metadata(m, file);
    let h = header_of(file)->Ok_0;
    assert(ITEM_TYPE_AV01[0] == 0x61 && ITEM_TYPE_GRID[0] == 0x67 && ITEM_TYPE_IOVL[0] == 0x69);
    if m.alpha is Some {
        lemma_still_link(m, h.meta);
    }
    lemma_still_type(m, file);
}

/// The primary item is a coded image.
proof fn lemma_still_type(m: MuxerView, file: Seq<u8>)
    requires
        reads_back(file, still_plan(m)),
        m.identity is None,
    ensures
        ({
            let h = header_of(file)->Ok_0;
            &&& h.meta.primary_item_id == Some(1u32)
            &&& h.meta.item(1) is Some
            &&& h.meta.item(1)->0.item_type == ITEM_TYPE_AV01
        }),
{
    let meta = header_of(file)->Ok_0.meta;
    crate::mux_laws::lemma_still_first(m);
    let plan = still_plan(m);
    assert(plan.holds(1));
    assert(plan.item(1) == plan.items[0]);
    assert(stores(file, meta, 1, plan.item(1)));
}

// ---------------------------------------------------------------------
// Overlays

/// Whether properties of this type transform the image.
pub open spec fn is_transform_type(t: BoxType) -> bool {
    t == CLAP || t == IROT || t == IMIR
}

/// What is read of a property transforms the image if its type says so.
#[verifier::spinoff_prover]
#[verifier::rlimit(40)]
proof fn lemma_transform_type(t: BoxType, s: Seq<u8>)
    ensures
        read_of(t, s) matches Ok(p) ==> names_transform(p) == is_transform_type(t),
{
    reveal(read_of);
}

/// What is read of the transformations among the first `n` properties.
pub open spec fn planned_transforms(plans: Seq<PropPlan>, n: nat) -> Seq<PropertyView>
    decreases n,
{
    if n == 0 {
        Seq::empty()
    } else {
        let before = planned_transforms(plans, (n - 1) as nat);
        let p = plans[n - 1];
        if is_transform_type(p.box_type) {
            before.push(read_of(p.box_type, p.body)->Ok_0)
        } else {
            before
        }
    }
}

/// The transformations of an item are those that were written.
pub proof fn lemma_planned_transforms(meta: MetaView, id: u32, plans: Seq<PropPlan>)
    requires
        lists(meta, id, plans),
    ensures
        transforms_of(meta, id) == planned_transforms(plans, plans.len()),
{
    lemma_planned_from(meta, entries_of(meta, id), plans, plans.len());
}

proof fn lemma_planned_from(
    meta: MetaView,
    entries: Seq<PropertyAssociation>,
    plans: Seq<PropPlan>,
    n: nat,
)
    requires
        n <= plans.len(),
        entries.len() == plans.len(),
        forall|j: int| 0 <= j < plans.len() ==> leads(meta, #[trigger] entries[j], plans[j]),
    ensures
        transforms_with(entries, meta.properties, n) == planned_transforms(plans, n),
    decreases n,
{
    if n > 0 {
        lemma_planned_from(meta, entries, plans, (n - 1) as nat);
        assert(leads(meta, entries[n - 1], plans[n - 1]));
        lemma_transform_type(plans[n - 1].box_type, plans[n - 1].body);
    }
}

/// In two lists joined, the transformations of the first come first.
pub proof fn lemma_planned_add(a: Seq<PropPlan>, b: Seq<PropPlan>, n: nat)
    requires
        n <= b.len(),
    ensures
        planned_transforms(a + b, a.len() + n) == planned_transforms(a, a.len())
            + planned_transforms(b, n),
    decreases n,
{
    if n > 0 {
        lemma_planned_add(a, b, (n - 1) as nat);
        assert((a + b)[a.len() + n - 1] == b[n - 1]);
        assert(planned_transforms(a + b, a.len() + n) =~= planned_transforms(a, a.len())
            + planned_transforms(b, n));
    } else {
        lemma_planned_prefix(a + b, a, a.len());
        assert(planned_transforms(a, a.len()) + planned_transforms(b, 0) =~= planned_transforms(
            a,
            a.len(),
        ));
    }
}

proof fn lemma_planned_prefix(a: Seq<PropPlan>, b: Seq<PropPlan>, n: nat)
    requires
        n <= a.len(),
        n <= b.len(),
        forall|i: int| 0 <= i < n ==> a[i] == b[i],
    ensures
        planned_transforms(a, n) == planned_transforms(b, n),
    decreases n,
{
    if n > 0 {
        lemma_planned_prefix(a, b, (n - 1) as nat);
    }
}

/// One optional property, as a transformation where it is one.
pub proof fn lemma_planned_opt(p: Option<PropertyView>, essential: bool)
    requires
        p is Some && is_transform_type(p->0.kind()) ==> faithful(p->0),
    ensures
        planned_transforms(opt_prop(p, essential), opt_prop(p, essential).len()) == match p {
            Some(v) => if is_transform_type(v.kind()) {
                seq![v]
            } else {
                Seq::empty()
            },
            None => Seq::empty(),
        },
{
    reveal_with_fuel(planned_transforms, 3);
    match p {
        Some(v) => {
            if is_transform_type(v.kind()) {
                assert(read_of(v.kind(), body_of(v)) == Ok::<PropertyView, Fault>(v)) by {
                    law_property_reads_back(v);
                    reveal(read_of);
                }
            }
            assert(planned_transforms(opt_prop(p, essential), 0) =~= Seq::empty());
        },
        None => {
            assert(opt_prop(p, essential) =~= Seq::empty());
        },
    }
}

/// A canvas as it is shown: turned where it is rotated by one or three
/// quarters.
pub open spec fn turned(m: OverlayMuxerView) -> (u32, u32) {
    if m.irot is Some && m.irot->0.angle % 2 == 1 {
        (m.output_height, m.output_width)
    } else {
        (m.output_width, m.output_height)
    }
}

proof fn lemma_overlay_shown(meta: MetaView, m: OverlayMuxerView)
    requires
        lists(meta, 1, overlay_props(m)),
        overlay_keeps(m),
        !(m.colr matches Some(crate::props::ColrView::Unknown(_))),
    ensures
        shown_size(meta, 1, m.output_width, m.output_height) == turned(m),
{
    let s = overlay_props(m);
    let extents = PropertyView::Ispe(
        crate::props::Ispe { width: m.output_width, height: m.output_height },
    );
    let s0 = seq![prop(extents, false)];
    assert(s0 =~= opt_prop(Some(extents), false));
    let (a, b) = (opt_prop(as_pixi(m.pixi), false), opt_prop(as_colr(m.colr), false));
    let (c, d) = (opt_prop(as_irot(m.irot), true), opt_prop(as_imir(m.imir), true));
    lemma_planned_transforms(meta, 1, s);
    lemma_planned_add(s0, a, a.len());
    lemma_planned_add(s0 + a, b, b.len());
    lemma_planned_add(s0 + a + b, c, c.len());
    lemma_planned_add(s0 + a + b + c, d, d.len());
    lemma_planned_opt(Some(extents), false);
    lemma_planned_opt(as_pixi(m.pixi), false);
    lemma_planned_opt(as_colr(m.colr), false);
    lemma_planned_opt(as_irot(m.irot), true);
    lemma_planned_opt(as_imir(m.imir), true);
    assert(CLAP[0] == 0x63 && CLAP[1] == 0x6c && CLAP[2] == 0x61);
    assert(IROT[1] == 0x72 && IMIR[1] == 0x6d);
    assert(crate::props::ISPE[1] == 0x73 && crate::props::PIXI[0] == 0x70
        && crate::props::COLR[1] == 0x6f);
    let all = transforms_of(meta, 1);
    reveal_with_fuel(size_after, 3);
    match (m.irot, m.imir) {
        (Some(r), Some(f)) => {
            assert(all =~= seq![PropertyView::Irot(r), PropertyView::Imir(f)]);
            assert(chain_of(meta, 1) =~= seq![
                DimTransform::Rotate { angle: r.angle },
                DimTransform::Mirror { axis: f.axis },
            ]);
        },
        (Some(r), None) => {
            assert(all =~= seq![PropertyView::Irot(r)]);
            assert(chain_of(meta, 1) =~= seq![DimTransform::Rotate { angle: r.angle }]);
        },
        (None, Some(f)) => {
            assert(all =~= seq![PropertyView::Imir(f)]);
            assert(chain_of(meta, 1) =~= seq![DimTransform::Mirror { axis: f.axis }]);
        },
        (None, None) => {
            assert(all =~= Seq::empty());
            assert(chain_of(meta, 1) =~= Seq::empty());
        },
    }
}

/// The first coded image of an overlay is its first layer.
proof fn lemma_overlay_leaf(meta: MetaView, first: u32)
    requires
        meta.item(1) is Some,
        meta.item(1)->0.item_type == ITEM_TYPE_IOVL,
        meta.targets(DIMG, 1).len() > 0,
        meta.targets(DIMG, 1)[0] == first,
        meta.item(first) is Some,
        meta.item(first)->0.item_type == ITEM_TYPE_AV01,
    ensures
        coded_leaf(meta, 1, 0) == Some(first),
{
    assert(ITEM_TYPE_AV01[0] == 0x61 && ITEM_TYPE_IOVL[0] == 0x69);
    reveal_with_fuel(coded_leaf, 2);
    reveal_with_fuel(first_leaf, 2);
    assert(coded_leaf(meta, first, 1) == Some(first));
}

/// A file with an overlay is inspected as what it was made of: the
/// canvas as it is shown, the properties of the overlay or in their place
/// those of the first layer, and the record of that layer.
pub proof fn law_overlay_inspects(m: OverlayMuxerView, file: Seq<u8>)
    requires
        overlay_fault(m) is None,
        overlay_keeps(m),
        m.layers[0].pixi is Some ==> m.layers[0].pixi->0.len() <= 255,
        reads_back(file, overlay_plan(m)),
        m.output_width * m.output_height <= 0x4000_0000,
    ensures
        inspected(file) is Ok,
        ({
            let v = inspected(file)->Ok_0;
            &&& (v.width, v.height) == turned(m)
            &&& !v.is_grid
            &&& v.obu_bytes.len() == 0
            &&& v.av1c == m.layers[0].av1c
            &&& v.bits_per_channel == or_empty(first_of(m.pixi, m.layers[0].pixi))
            &&& v.colour == first_of(m.colr, m.layers[0].colr)
            &&& v.mif1_compliance.complete()
        }),
{
    law_overlay_reads_back(m, file);
    let n = m.layers.len();
    lemma_few_layers(m);
    let offsets = layer_offsets(m.layers, n);
    law_overlay_body_reads_back(m.fill, m.output_width, m.output_height, offsets);
    let h = header_of(file)->Ok_0;
    let meta = h.meta;
    let plan = overlay_plan(m);
    assert(plan.holds(1)) by {
        lemma_overlay_first(m);
    }
    lemma_overlay_first(m);
    assert(stores(file, meta, 1, plan.item(1)));
    lemma_overlay_shown(meta, m);
    let first = layer_id(m.layers, 0);
    assert(meta.targets(DIMG, 1)[0] == first);
    assert(layer_kept(file, meta, first, m.layers[0]));
    lemma_layer_type(m, file);
    lemma_overlay_leaf(meta, first);
    assert(ITEM_TYPE_GRID[0] == 0x67 && ITEM_TYPE_IOVL[0] == 0x69);
    assert(item_overlay(meta, file, 1) is Some);
    assert(rebuilt(meta, file, 1, 0) == Some((m.output_width, m.output_height)));
}

/// The overlay is the first item.
proof fn lemma_overlay_first(m: OverlayMuxerView)
    ensures
        overlay_plan(m).items.len() > 0,
        overlay_plan(m).item(1).properties == overlay_props(m),
{
    let canvas = crate::mux_overlay::canvas_plan(m);
    crate::mux_overlay_laws::lemma_layer_places(canvas, m.layers, m.layers.len());
    assert(overlay_plan(m).items[0] == canvas.items[0]);
}

/// A file takes fewer layers than an overlay may name.
proof fn lemma_few_layers(m: OverlayMuxerView)
    requires
        overlay_fault(m) is None,
    ensures
        m.layers.len() <= 0x1_0000,
{
    crate::mux_overlay::lemma_coded_count(m.layers, 0, m.layers.len());
}

/// The first layer is a coded image.
proof fn lemma_layer_type(m: OverlayMuxerView, file: Seq<u8>)
    requires
        overlay_fault(m) is None,
        reads_back(file, overlay_plan(m)),
    ensures
        ({
            let meta = header_of(file)->Ok_0.meta;
            &&& meta.item(layer_id(m.layers, 0)) is Some
            &&& meta.item(layer_id(m.layers, 0))->0.item_type == ITEM_TYPE_AV01
        }),
{
    let meta = header_of(file)->Ok_0.meta;
    let plan = overlay_plan(m);
    let canvas = crate::mux_overlay::canvas_plan(m);
    crate::mux_overlay_laws::lemma_layer_item(canvas, m.layers, 0, m.layers.len());
    let id = layer_id(m.layers, 0);
    assert(plan.holds(id));
    assert(plan.item(id).item_type == ITEM_TYPE_AV01);
    assert(stores(file, meta, id, plan.item(id)));
}

} // verus!
