//! The alpha planes of the layers of an overlay read back.

use crate::alpha::{alpha_of, is_alpha_item, ALPHA_URN_PREFIX};
use crate::box_parser::BoxType;
use crate::container::{reads_back, stores, BodyPlan, FilePlan, ItemPlan, AUXL, DIMG, PREM};
use crate::error::Fault;
use crate::inspect::linked;
use crate::meta::{all_sources, MetaView};
use crate::meta_parse::IrefView;
use crate::mux_items::as_pixi;
use crate::mux_laws::{
    found, lemma_found_add, lemma_found_opt, lemma_optional, lemma_sources_push, or_else,
    plan_sources, when_kind,
};
use crate::mux_overlay::{
    alpha_props, canvas_plan, coded_count, layer_id, lemma_coded_count, overlay_fault, overlay_plan,
    with_layers, LayerView, OverlayMuxerView,
};
use crate::mux_overlay_laws::lemma_layer_places;
use crate::mux_props::{aux_type, opt_prop};
use crate::parser::{header_of, payload_bytes, ITEM_TYPE_AV01};
use crate::property_laws::lemma_alpha_urn;
use crate::props::{Ispe, PropertyView, AUXC, AV1C, ISPE, PIXI};
use vstd::prelude::*;

verus! {

/// The item of the alpha plane of a layer.
pub open spec fn layer_alpha_item(l: LayerView) -> ItemPlan {
    ItemPlan {
        item_type: ITEM_TYPE_AV01,
        content_type: None,
        hidden: true,
        body: BodyPlan::Coded(l.alpha_payload()),
        properties: alpha_props(l),
    }
}

/// The alpha plane of layer `i` stands behind the layer.
proof fn lemma_alpha_item(plan: FilePlan, layers: Seq<LayerView>, i: nat, n: nat)
    requires
        i < n <= layers.len(),
        layers[i as int].alpha is Some,
    ensures
        plan.items.len() + coded_count(layers, i) + 1 < with_layers(plan, layers, n).items.len(),
        with_layers(plan, layers, n).items[(plan.items.len() + coded_count(layers, i) + 1) as int]
            == layer_alpha_item(layers[i as int]),
    decreases n - i,
{
    let before = with_layers(plan, layers, (n - 1) as nat);
    lemma_layer_places(plan, layers, (n - 1) as nat);
    if i + 1 < n {
        lemma_alpha_item(plan, layers, i, (n - 1) as nat);
    } else {
        let all = with_layers(plan, layers, n);
        assert(all.items[(before.items.len() + 1) as int] == layer_alpha_item(layers[n - 1]));
    }
}

/// Layers have different ids.
proof fn lemma_ids_differ(layers: Seq<LayerView>, i: nat, j: nat)
    requires
        i < layers.len(),
        j < layers.len(),
        coded_count(layers, layers.len()) <= 0x8000,
    ensures
        (layer_id(layers, i) == layer_id(layers, j)) == (i == j),
        layer_id(layers, i) == 2 + coded_count(layers, i),
{
    lemma_coded_count(layers, i, layers.len());
    lemma_coded_count(layers, j, layers.len());
    if i < j {
        lemma_coded_count(layers, i, j);
    } else {
        lemma_coded_count(layers, j, i);
    }
}

/// The one auxiliary image of a layer is its alpha plane.
proof fn lemma_layer_sources(plan: FilePlan, layers: Seq<LayerView>, i: nat, n: nat)
    requires
        i < layers.len(),
        n <= layers.len(),
        coded_count(layers, layers.len()) <= 0x8000,
        plan.items.len() == 1,
        plan_sources(plan, AUXL, layer_id(layers, i)) == Seq::<u32>::empty(),
    ensures
        plan_sources(with_layers(plan, layers, n), AUXL, layer_id(layers, i)) == if i < n
            && layers[i as int].alpha is Some {
            seq![(layer_id(layers, i) + 1) as u32]
        } else {
            Seq::empty()
        },
    decreases n,
{
    if n > 0 {
        let before = with_layers(plan, layers, (n - 1) as nat);
        lemma_layer_sources(plan, layers, i, (n - 1) as nat);
        lemma_layer_places(plan, layers, (n - 1) as nat);
        lemma_ids_differ(layers, i, (n - 1) as nat);
        lemma_ids_differ(layers, (n - 1) as nat, i);
        let l = layers[n - 1];
        let id = layer_id(layers, (n - 1) as nat);
        let to = layer_id(layers, i);
        assert(before.next_id() == id);
        assert(AUXL[0] == 0x61 && PREM[0] == 0x70);
        if l.alpha is Some {
            let e = IrefView {
                reference_type: AUXL,
                from_id: (id + 1) as u32,
                to_ids: seq![id],
            };
            lemma_sources_push(before.references, e, AUXL, to);
            assert(e.to_ids[0] == id);
            assert(e.to_ids.contains(to) == (id == to));
            let both = before.references.push(e);
            if l.premultiplied {
                let f = IrefView {
                    reference_type: PREM,
                    from_id: id,
                    to_ids: seq![(id + 1) as u32],
                };
                lemma_sources_push(both, f, AUXL, to);
                assert(with_layers(plan, layers, n).references =~= both.push(f));
            } else {
                assert(with_layers(plan, layers, n).references =~= both);
            }
            if id == to {
                assert(Seq::<u32>::empty().push((id + 1) as u32) =~= seq![(id + 1) as u32]);
            }
        } else {
            assert(with_layers(plan, layers, n).references =~= before.references);
        }
    }
}

/// The premultiplied alpha of a layer is linked to it.
proof fn lemma_layer_link(plan: FilePlan, layers: Seq<LayerView>, i: nat, n: nat)
    requires
        i < n <= layers.len(),
        coded_count(layers, layers.len()) <= 0x8000,
        plan.items.len() == 1,
        layers[i as int].alpha is Some,
        layers[i as int].premultiplied,
    ensures
        with_layers(plan, layers, n).references.contains(
            IrefView {
                reference_type: PREM,
                from_id: layer_id(layers, i),
                to_ids: seq![(layer_id(layers, i) + 1) as u32],
            },
        ),
    decreases n,
{
    let f = IrefView {
        reference_type: PREM,
        from_id: layer_id(layers, i),
        to_ids: seq![(layer_id(layers, i) + 1) as u32],
    };
    let before = with_layers(plan, layers, (n - 1) as nat);
    let all = with_layers(plan, layers, n);
    lemma_layer_places(plan, layers, (n - 1) as nat);
    lemma_ids_differ(layers, i, i);
    if i + 1 < n {
        lemma_layer_link(plan, layers, i, (n - 1) as nat);
        let k = choose|k: int| 0 <= k < before.references.len() && before.references[k] == f;
        assert(all.references[k] == f);
    } else {
        assert(before.next_id() == layer_id(layers, i));
        assert(all.references.last() == f);
    }
}

proof fn lemma_layer_alpha_kept(meta: MetaView, id: u32, l: LayerView)
    requires
        crate::container::lists(meta, id, alpha_props(l)),
        l.alpha_pixi is Some ==> l.alpha_pixi->0.len() <= 255,
    ensures
        meta.av1c(id) == Some(l.alpha_record()),
        meta.ispe(id) == Some(Ispe { width: l.width, height: l.height }),
        meta.pixi(id) == l.alpha_pixi,
        meta.property(id, AUXC) == Some(aux_type(ALPHA_URN_PREFIX@)),
{
    lemma_alpha_urn();
    let s = alpha_props(l);
    let record = PropertyView::Av1C(l.alpha_record());
    let extents = PropertyView::Ispe(Ispe { width: l.width, height: l.height });
    let urn = aux_type(ALPHA_URN_PREFIX@);
    let s0 = opt_prop(Some(record), true) + opt_prop(Some(extents), false);
    let s1 = s0 + opt_prop(Some(urn), false);
    let s2 = s1 + opt_prop(as_pixi(l.alpha_pixi), false);
    let c = opt_prop(crate::mux_items::as_clap(l.clap), true);
    assert(s =~= s2 + c);
    assert forall|kind: BoxType| #[trigger]
        found(s, kind, 0) == or_else(
            or_else(
                or_else(
                    or_else(
                        when_kind(Some(record), true, kind),
                        when_kind(Some(extents), false, kind),
                    ),
                    when_kind(Some(urn), false, kind),
                ),
                when_kind(as_pixi(l.alpha_pixi), false, kind),
            ),
            when_kind(crate::mux_items::as_clap(l.clap), true, kind),
        ) by {
        lemma_found_opt(Some(record), true, kind);
        lemma_found_opt(Some(extents), false, kind);
        lemma_found_opt(Some(urn), false, kind);
        lemma_found_opt(as_pixi(l.alpha_pixi), false, kind);
        lemma_found_opt(crate::mux_items::as_clap(l.clap), true, kind);
        lemma_found_add(opt_prop(Some(record), true), opt_prop(Some(extents), false), kind, 0);
        lemma_found_add(s0, opt_prop(Some(urn), false), kind, 0);
        lemma_found_add(s1, opt_prop(as_pixi(l.alpha_pixi), false), kind, 0);
        lemma_found_add(s2, c, kind, 0);
    }
    lemma_optional(meta, id, s, Some(record), true, AV1C);
    lemma_optional(meta, id, s, Some(extents), false, ISPE);
    lemma_optional(meta, id, s, Some(urn), false, AUXC);
    lemma_optional(meta, id, s, as_pixi(l.alpha_pixi), false, PIXI);
}

/// The alpha plane of a layer reads back: it is found from the layer, it
/// is hidden, its bytes, its record and its size are those it had, and
/// it is linked to the layer where the colours are premultiplied.
pub proof fn law_layer_alpha_reads_back(m: OverlayMuxerView, file: Seq<u8>, i: int)
    requires
        overlay_fault(m) is None,
        reads_back(file, overlay_plan(m)),
        0 <= i < m.layers.len(),
        m.layers[i].alpha is Some,
        m.layers[i].alpha_pixi is Some ==> m.layers[i].alpha_pixi->0.len() <= 255,
    ensures
        ({
            let meta = header_of(file)->Ok_0.meta;
            let l = m.layers[i];
            let id = layer_id(m.layers, i as nat);
            let alpha = (id + 1) as u32;
            &&& alpha_of(meta, id) == Some(alpha)
            &&& meta.item(alpha) is Some && meta.item(alpha)->0.flags == 1
            &&& payload_bytes(file, meta, alpha) == Ok::<Seq<u8>, Fault>(l.alpha_payload())
            &&& meta.av1c(alpha) == Some(l.alpha_record())
            &&& meta.ispe(alpha) == Some(Ispe { width: l.width, height: l.height })
            &&& meta.pixi(alpha) == l.alpha_pixi
            &&& l.premultiplied ==> linked(meta, alpha, id)
        }),
{
    let meta = header_of(file)->Ok_0.meta;
    let n = m.layers.len();
    let l = m.layers[i];
    let plan = overlay_plan(m);
    let canvas = canvas_plan(m);
    let id = layer_id(m.layers, i as nat);
    let alpha = (id + 1) as u32;
    lemma_ids_differ(m.layers, i as nat, i as nat);
    lemma_layer_places(canvas, m.layers, n);
    lemma_alpha_item(canvas, m.layers, i as nat, n);
    assert(plan.holds(alpha));
    assert(plan.item(alpha) == layer_alpha_item(l));
    assert(stores(file, meta, alpha, plan.item(alpha)));
    lemma_layer_alpha_kept(meta, alpha, l);
    lemma_layer_alpha_found(m, meta, i);
}

/// The alpha plane of a layer is found from the layer.
#[verifier::spinoff_prover]
proof fn lemma_layer_alpha_found(m: OverlayMuxerView, meta: MetaView, i: int)
    requires
        overlay_fault(m) is None,
        0 <= i < m.layers.len(),
        m.layers[i].alpha is Some,
        meta.irefs == with_layers(canvas_plan(m), m.layers, m.layers.len()).references,
        meta.property((layer_id(m.layers, i as nat) + 1) as u32, AUXC) == Some(
            aux_type(ALPHA_URN_PREFIX@),
        ),
    ensures
        ({
            let id = layer_id(m.layers, i as nat);
            let alpha = (id + 1) as u32;
            &&& alpha_of(meta, id) == Some(alpha)
            &&& m.layers[i].premultiplied ==> linked(meta, alpha, id)
        }),
{
    let n = m.layers.len();
    let canvas = canvas_plan(m);
    let all = with_layers(canvas, m.layers, n);
    let id = layer_id(m.layers, i as nat);
    let alpha = (id + 1) as u32;
    assert(plan_sources(canvas, AUXL, id) == Seq::<u32>::empty()) by {
        assert(AUXL[0] == 0x61 && DIMG[0] == 0x64);
        reveal_with_fuel(all_sources, 2);
        assert(canvas.references.len() == 1);
        assert(canvas.references[0].reference_type == DIMG);
    }
    lemma_layer_sources(canvas, m.layers, i as nat, n);
    let sources = meta.sources(AUXL, id);
    assert(sources == seq![alpha]);
    assert(sources[0] == alpha);
    assert(ALPHA_URN_PREFIX@.subrange(0, ALPHA_URN_PREFIX@.len() as int) =~= ALPHA_URN_PREFIX@);
    assert(is_alpha_item(meta, alpha));
    if m.layers[i].premultiplied {
        lemma_layer_link(canvas, m.layers, i as nat, n);
        let f = IrefView { reference_type: PREM, from_id: id, to_ids: seq![alpha] };
        let k = choose|k: int| 0 <= k < all.references.len() && all.references[k] == f;
        assert(meta.irefs[k] == f);
        assert(f.to_ids[0] == alpha);
        assert(meta.irefs[k].to_ids.contains(alpha));
    }
}

} // verus!
