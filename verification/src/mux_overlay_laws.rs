//! Files whose primary item is an overlay read back as what they were
//! made of.

use crate::box_parser::{be16, BoxType};
use crate::bytes::{b16, b32, law_b32_reads_back};
use crate::compose::{OverlayEntry, OverlayView};
use crate::container::{
    lists, offsets_body, overlay_body, reads_back, stores, wide_overlay, FilePlan, DIMG,
};
use crate::error::Fault;
use crate::meta::MetaView;
use crate::meta_parse::ITEM_TYPE_IOVL;
use crate::mux_items::{as_clap, as_colr, as_imir, as_irot, as_pixi};
use crate::mux_laws::{
    found, lemma_found_add, lemma_found_opt, lemma_optional, or_else, when_kind,
};
use crate::mux_overlay::{
    canvas_plan, coded_count, layer_id, layer_ids, layer_item, layer_offsets, layer_props,
    overlay_fault, overlay_plan, overlay_props, with_layers, LayerView, OverlayMuxerView,
};
use crate::mux_props::{opt_prop, prop, still_codes};
use crate::parser::{header_of, payload_bytes, BRAND_AVIF};
use crate::property_laws::law_b16_reads_back;
use crate::props::{Ispe, PropertyView, AV1C, CLAP, COLR, IMIR, IROT, ISPE, PIXI};
use crate::resolve::{overlay_is_valid, overlay_is_wide, overlay_offset, overlay_parsed, overlay_size};
use vstd::prelude::*;

verus! {

/// Where an offset lies among the offsets.
proof fn lemma_offset_place(offsets: Seq<(i32, i32)>, wide: bool, n: nat, i: int)
    requires
        n <= offsets.len(),
        0 <= i < n,
    ensures
        wide ==> {
            let s = offsets_body(offsets, wide, n);
            &&& s.len() == 8 * n
            &&& s.subrange(8 * i, 8 * i + 4) == b32(offsets[i].0 as u32)
            &&& s.subrange(8 * i + 4, 8 * i + 8) == b32(offsets[i].1 as u32)
        },
        !wide ==> {
            let s = offsets_body(offsets, wide, n);
            &&& s.len() == 4 * n
            &&& s.subrange(4 * i, 4 * i + 2) == b16(offsets[i].0 as u16)
            &&& s.subrange(4 * i + 2, 4 * i + 4) == b16(offsets[i].1 as u16)
        },
    decreases n,
{
    let before = offsets_body(offsets, wide, (n - 1) as nat);
    let s = offsets_body(offsets, wide, n);
    lemma_offsets_len(offsets, wide, (n - 1) as nat);
    if i < n - 1 {
        lemma_offset_place(offsets, wide, (n - 1) as nat, i);
        if wide {
            assert(s.subrange(8 * i, 8 * i + 4) =~= before.subrange(8 * i, 8 * i + 4));
            assert(s.subrange(8 * i + 4, 8 * i + 8) =~= before.subrange(8 * i + 4, 8 * i + 8));
        } else {
            assert(s.subrange(4 * i, 4 * i + 2) =~= before.subrange(4 * i, 4 * i + 2));
            assert(s.subrange(4 * i + 2, 4 * i + 4) =~= before.subrange(4 * i + 2, 4 * i + 4));
        }
    } else if wide {
        assert(s.subrange(8 * i, 8 * i + 4) =~= b32(offsets[i].0 as u32));
        assert(s.subrange(8 * i + 4, 8 * i + 8) =~= b32(offsets[i].1 as u32));
    } else {
        assert(s.subrange(4 * i, 4 * i + 2) =~= b16(offsets[i].0 as u16));
        assert(s.subrange(4 * i + 2, 4 * i + 4) =~= b16(offsets[i].1 as u16));
    }
}

proof fn lemma_offsets_len(offsets: Seq<(i32, i32)>, wide: bool, n: nat)
    ensures
        wide ==> offsets_body(offsets, wide, n).len() == 8 * n,
        !wide ==> offsets_body(offsets, wide, n).len() == 4 * n,
    decreases n,
{
    if n > 0 {
        lemma_offsets_len(offsets, wide, (n - 1) as nat);
    }
}

/// A signed value reads back from the bits that hold it.
proof fn lemma_signed(x: i32)
    ensures
        (x as u32) as i32 == x,
        -0x8000 <= x <= 0x7fff ==> ((x as u16) as i16) as i32 == x,
{
    assert((x as u32) as i32 == x) by (bit_vector);
    assert(-0x8000 <= x <= 0x7fff ==> ((x as u16) as i16) as i32 == x) by (bit_vector);
}

/// An overlay descriptor reads back, where the canvas is not empty and
/// has no more than 2^30 pixels.
pub proof fn law_overlay_body_reads_back(
    fill: [u16; 4],
    width: u32,
    height: u32,
    offsets: Seq<(i32, i32)>,
)
    requires
        width > 0,
        height > 0,
        width * height <= 0x4000_0000,
        offsets.len() <= 0x1_0000,
    ensures
        overlay_parsed(overlay_body(fill, width, height, offsets), offsets.len()) == Ok::<
            OverlayView,
            Fault,
        >(
            OverlayView {
                canvas_fill_value: fill,
                output_width: width,
                output_height: height,
                entries: Seq::new(
                    offsets.len(),
                    |i: int|
                        OverlayEntry {
                            horizontal_offset: offsets[i].0,
                            vertical_offset: offsets[i].1,
                        },
                ),
            },
        ),
{
    let n = offsets.len();
    let s = overlay_body(fill, width, height, offsets);
    let wide = wide_overlay(width, height, offsets);
    let tail = offsets_body(offsets, wide, n);
    lemma_offsets_len(offsets, wide, n);
    assert(s.subrange(2, 4) =~= b16(fill[0]));
    assert(s.subrange(4, 6) =~= b16(fill[1]));
    assert(s.subrange(6, 8) =~= b16(fill[2]));
    assert(s.subrange(8, 10) =~= b16(fill[3]));
    law_b16_reads_back(fill[0], s, 2);
    law_b16_reads_back(fill[1], s, 4);
    law_b16_reads_back(fill[2], s, 6);
    law_b16_reads_back(fill[3], s, 8);
    let read = [be16(s, 2), be16(s, 4), be16(s, 6), be16(s, 8)];
    assert(read =~= fill);
    let from: int = if wide {
        18
    } else {
        14
    };
    if wide {
        assert(s.subrange(10, 14) =~= b32(width));
        assert(s.subrange(14, 18) =~= b32(height));
        law_b32_reads_back(width, s, 10);
        law_b32_reads_back(height, s, 14);
    } else {
        assert(s.subrange(10, 12) =~= b16(width as u16));
        assert(s.subrange(12, 14) =~= b16(height as u16));
        law_b16_reads_back(width as u16, s, 10);
        law_b16_reads_back(height as u16, s, 12);
    }
    assert(overlay_is_wide(s) == wide);
    assert(overlay_size(s) == (width, height));
    assert(overlay_is_valid(s, n));
    assert(s.subrange(from, s.len() as int) =~= tail);
    assert forall|i: int| 0 <= i < n implies #[trigger] overlay_offset(s, i) == offsets[i] by {
        lemma_offset_place(offsets, wide, n, i);
        let (x, y) = offsets[i];
        lemma_signed(x);
        lemma_signed(y);
        if wide {
            assert(s.subrange(18 + 8 * i, 18 + 8 * i + 4) =~= tail.subrange(8 * i, 8 * i + 4));
            assert(s.subrange(22 + 8 * i, 22 + 8 * i + 4) =~= tail.subrange(
                8 * i + 4,
                8 * i + 8,
            ));
            law_b32_reads_back(x as u32, s, 18 + 8 * i);
            law_b32_reads_back(y as u32, s, 22 + 8 * i);
        } else {
            assert(s.subrange(14 + 4 * i, 14 + 4 * i + 2) =~= tail.subrange(4 * i, 4 * i + 2));
            assert(s.subrange(16 + 4 * i, 16 + 4 * i + 2) =~= tail.subrange(
                4 * i + 2,
                4 * i + 4,
            ));
            law_b16_reads_back(x as u16, s, 14 + 4 * i);
            law_b16_reads_back(y as u16, s, 16 + 4 * i);
            assert(!crate::container::wide_offset(offsets[i]));
        }
    }
    assert(overlay_parsed(s, n)->Ok_0.entries =~= Seq::new(
        n,
        |i: int|
            OverlayEntry { horizontal_offset: offsets[i].0, vertical_offset: offsets[i].1 },
    ));
}

/// Layers follow the items before them.
pub proof fn lemma_layer_places(plan: FilePlan, layers: Seq<LayerView>, n: nat)
    requires
        n <= layers.len(),
    ensures
        with_layers(plan, layers, n).items.len() == plan.items.len() + coded_count(layers, n),
        with_layers(plan, layers, n).brands == plan.brands,
        with_layers(plan, layers, n).references.len() >= plan.references.len(),
        forall|i: int|
            0 <= i < plan.items.len() ==> with_layers(plan, layers, n).items[i] == plan.items[i],
        forall|i: int|
            0 <= i < plan.references.len() ==> with_layers(plan, layers, n).references[i]
                == plan.references[i],
    decreases n,
{
    if n > 0 {
        lemma_layer_places(plan, layers, (n - 1) as nat);
    }
}

/// Layer `i` stands where its id says.
pub proof fn lemma_layer_item(plan: FilePlan, layers: Seq<LayerView>, i: nat, n: nat)
    requires
        i < n <= layers.len(),
    ensures
        plan.items.len() + coded_count(layers, i) < with_layers(plan, layers, n).items.len(),
        with_layers(plan, layers, n).items[(plan.items.len() + coded_count(layers, i)) as int]
            == layer_item(layers[i as int]),
    decreases n - i,
{
    let before = with_layers(plan, layers, (n - 1) as nat);
    lemma_layer_places(plan, layers, (n - 1) as nat);
    if i + 1 < n {
        lemma_layer_item(plan, layers, i, (n - 1) as nat);
    } else {
        let all = with_layers(plan, layers, n);
        assert(all.items[before.items.len() as int] == layer_item(layers[n - 1]));
    }
}

/// Whether what a file says of its overlay keeps its value when it is
/// written.
pub open spec fn overlay_keeps(m: OverlayMuxerView) -> bool {
    &&& m.pixi is Some ==> m.pixi->0.len() <= 255
    &&& m.irot is Some ==> m.irot->0.angle < 4
    &&& m.imir is Some ==> m.imir->0.axis < 2
}

/// What a reader finds of the overlay.
pub open spec fn overlay_kept(meta: MetaView, m: OverlayMuxerView) -> bool {
    &&& meta.ispe(1) == Some(Ispe { width: m.output_width, height: m.output_height })
    &&& meta.pixi(1) == m.pixi
    &&& meta.colr(1) == m.colr
    &&& meta.property(1, IROT) == as_irot(m.irot)
    &&& meta.property(1, IMIR) == as_imir(m.imir)
}

proof fn lemma_overlay_kept(meta: MetaView, m: OverlayMuxerView)
    requires
        lists(meta, 1, overlay_props(m)),
        overlay_keeps(m),
        !(m.colr matches Some(crate::props::ColrView::Unknown(_))),
    ensures
        overlay_kept(meta, m),
{
    let s = overlay_props(m);
    let extents = PropertyView::Ispe(Ispe { width: m.output_width, height: m.output_height });
    let s0 = seq![prop(extents, false)];
    assert(s0 =~= opt_prop(Some(extents), false));
    let s1 = s0 + opt_prop(as_pixi(m.pixi), false);
    let s2 = s1 + opt_prop(as_colr(m.colr), false);
    let s3 = s2 + opt_prop(as_irot(m.irot), true);
    assert forall|kind: BoxType| #[trigger]
        found(s, kind, 0) == or_else(
            or_else(
                or_else(
                    or_else(
                        when_kind(Some(extents), false, kind),
                        when_kind(as_pixi(m.pixi), false, kind),
                    ),
                    when_kind(as_colr(m.colr), false, kind),
                ),
                when_kind(as_irot(m.irot), true, kind),
            ),
            when_kind(as_imir(m.imir), true, kind),
        ) by {
        lemma_found_opt(Some(extents), false, kind);
        lemma_found_opt(as_pixi(m.pixi), false, kind);
        lemma_found_opt(as_colr(m.colr), false, kind);
        lemma_found_opt(as_irot(m.irot), true, kind);
        lemma_found_opt(as_imir(m.imir), true, kind);
        lemma_found_add(s0, opt_prop(as_pixi(m.pixi), false), kind, 0);
        lemma_found_add(s1, opt_prop(as_colr(m.colr), false), kind, 0);
        lemma_found_add(s2, opt_prop(as_irot(m.irot), true), kind, 0);
        lemma_found_add(s3, opt_prop(as_imir(m.imir), true), kind, 0);
    }
    lemma_optional(meta, 1, s, Some(extents), false, ISPE);
    lemma_optional(meta, 1, s, as_pixi(m.pixi), false, PIXI);
    lemma_optional(meta, 1, s, as_colr(m.colr), false, COLR);
    lemma_optional(meta, 1, s, as_irot(m.irot), true, IROT);
    lemma_optional(meta, 1, s, as_imir(m.imir), true, IMIR);
}

/// What a reader finds of a layer.
pub open spec fn layer_kept(file: Seq<u8>, meta: MetaView, id: u32, l: LayerView) -> bool {
    &&& meta.item(id) is Some && meta.item(id)->0.flags == 1
    &&& payload_bytes(file, meta, id) == Ok::<Seq<u8>, Fault>(l.payload)
    &&& meta.av1c(id) == Some(l.av1c)
    &&& meta.ispe(id) == Some(Ispe { width: l.width, height: l.height })
    &&& l.pixi is None || l.pixi->0.len() <= 255 ==> meta.pixi(id) == l.pixi
    &&& meta.colr(id) == l.colr
    &&& meta.property(id, CLAP) == as_clap(l.clap)
}

proof fn lemma_layer_kept(file: Seq<u8>, meta: MetaView, id: u32, l: LayerView)
    requires
        stores(file, meta, id, layer_item(l)),
        !(l.colr matches Some(crate::props::ColrView::Unknown(_))),
    ensures
        layer_kept(file, meta, id, l),
{
    let s = layer_props(l);
    let record = PropertyView::Av1C(l.av1c);
    let extents = PropertyView::Ispe(Ispe { width: l.width, height: l.height });
    let s0 = opt_prop(Some(record), true) + opt_prop(Some(extents), false);
    assert(s0 =~= seq![prop(record, true), prop(extents, false)]);
    let s1 = s0 + opt_prop(as_pixi(l.pixi), false);
    let s2 = s1 + opt_prop(as_colr(l.colr), false);
    assert forall|kind: BoxType| #[trigger]
        found(s, kind, 0) == or_else(
            or_else(
                or_else(
                    or_else(
                        when_kind(Some(record), true, kind),
                        when_kind(Some(extents), false, kind),
                    ),
                    when_kind(as_pixi(l.pixi), false, kind),
                ),
                when_kind(as_colr(l.colr), false, kind),
            ),
            when_kind(as_clap(l.clap), true, kind),
        ) by {
        lemma_found_opt(Some(record), true, kind);
        lemma_found_opt(Some(extents), false, kind);
        lemma_found_opt(as_pixi(l.pixi), false, kind);
        lemma_found_opt(as_colr(l.colr), false, kind);
        lemma_found_opt(as_clap(l.clap), true, kind);
        lemma_found_add(opt_prop(Some(record), true), opt_prop(Some(extents), false), kind, 0);
        lemma_found_add(s0, opt_prop(as_pixi(l.pixi), false), kind, 0);
        lemma_found_add(s1, opt_prop(as_colr(l.colr), false), kind, 0);
        lemma_found_add(s2, opt_prop(as_clap(l.clap), true), kind, 0);
    }
    lemma_optional(meta, id, s, Some(record), true, AV1C);
    lemma_optional(meta, id, s, Some(extents), false, ISPE);
    if l.pixi is None || l.pixi->0.len() <= 255 {
        lemma_optional(meta, id, s, as_pixi(l.pixi), false, PIXI);
    }
    lemma_optional(meta, id, s, as_colr(l.colr), false, COLR);
    lemma_optional(meta, id, s, as_clap(l.clap), true, CLAP);
}

/// A file with an overlay reads back: the brands, the descriptor of the
/// overlay, its properties and its layers in order, each with its bytes
/// and its place on the canvas.
pub proof fn law_overlay_reads_back(m: OverlayMuxerView, file: Seq<u8>)
    requires
        overlay_fault(m) is None,
        overlay_keeps(m),
        reads_back(file, overlay_plan(m)),
    ensures
        header_of(file) is Ok,
        header_of(file)->Ok_0.major_brand == BRAND_AVIF,
        header_of(file)->Ok_0.compatible_brands == still_codes(m.profile_brand),
        ({
            let meta = header_of(file)->Ok_0.meta;
            let n = m.layers.len();
            &&& meta.primary_item_id == Some(1u32)
            &&& meta.item(1) is Some && meta.item(1)->0.item_type == ITEM_TYPE_IOVL
            &&& payload_bytes(file, meta, 1) == Ok::<Seq<u8>, Fault>(
                overlay_body(m.fill, m.output_width, m.output_height, layer_offsets(m.layers, n)),
            )
            &&& overlay_kept(meta, m)
            &&& meta.targets(DIMG, 1) == layer_ids(m.layers, n)
            &&& forall|i: int|
                0 <= i < n ==> layer_kept(
                    file,
                    meta,
                    layer_id(m.layers, i as nat),
                    #[trigger] m.layers[i],
                )
        }),
{
    let meta = header_of(file)->Ok_0.meta;
    let n = m.layers.len();
    let plan = overlay_plan(m);
    let canvas = canvas_plan(m);
    lemma_layer_places(canvas, m.layers, n);
    assert(plan.items[0] == canvas.items[0]);
    assert(plan.holds(1));
    assert(plan.item(1) == plan.items[0]);
    assert(stores(file, meta, 1, plan.item(1)));
    lemma_overlay_kept(meta, m);
    assert(meta.irefs[0] == canvas.references[0]);
    assert forall|i: int| 0 <= i < n implies layer_kept(
        file,
        meta,
        layer_id(m.layers, i as nat),
        #[trigger] m.layers[i],
    ) by {
        let id = layer_id(m.layers, i as nat);
        lemma_layer_item(canvas, m.layers, i as nat, n);
        lemma_counts(m.layers, i as nat, n);
        lemma_accepted(m.layers, 0, i);
        assert(plan.holds(id));
        assert(plan.item(id) == layer_item(m.layers[i]));
        assert(stores(file, meta, id, plan.item(id)));
        lemma_layer_kept(file, meta, id, m.layers[i]);
    }
}

proof fn lemma_counts(layers: Seq<LayerView>, i: nat, n: nat)
    requires
        i <= n,
    ensures
        coded_count(layers, i) <= coded_count(layers, n),
    decreases n - i,
{
    if i < n {
        lemma_counts(layers, i, (n - 1) as nat);
    }
}

proof fn lemma_accepted(layers: Seq<LayerView>, i: int, j: int)
    requires
        0 <= i <= j < layers.len(),
        crate::mux_overlay::layers_fault(layers, i) is None,
    ensures
        !(layers[j].colr matches Some(crate::props::ColrView::Unknown(_))),
    decreases j - i,
{
    if i < j {
        lemma_accepted(layers, i + 1, j);
    }
}

} // verus!
