//! What a written file lists: its items, its references, and which
//! properties of an item a reader must understand.

use crate::box_parser::BoxType;
use crate::container::{
    empty_plan, reads_back, stores, FilePlan, ItemPlan, PropPlan,
};
use crate::meta::MetaView;
use crate::meta_parse::IrefView;
use crate::mux::{
    alpha_plan, auxiliary_props, coded_plan, depth_plan, flipped, identity_plan, identity_props,
    primary_props, shown_dims, still_plan, turned, AuxView, IdentityDerivation, MuxerView,
};
use crate::mux_grid::{
    alpha_grid_plan, alpha_grid_props, colour_plan, grid_plan, grid_props, tile_props,
    with_grid, with_tiles, GridMuxerView, TileView,
};
use crate::mux_items::{
    as_a1lx, as_a1op, as_amve, as_clap, as_clli, as_colr, as_imir, as_irot, as_lsel, as_mdcv,
    as_pasp, as_pixi, with_exif,
};
use crate::mux_laws::lemma_property_kind;
use crate::mux_overlay::{
    alpha_props, canvas_plan, coded_count, layer_id, layer_props, overlay_plan, overlay_props,
    with_layers, LayerView, OverlayMuxerView,
};
use crate::mux_props::{
    aux_type, opt_prop, prop, sequence_codes, still_codes, ProfileBrand,
};
use crate::parser::header_of;
use crate::props::{Ispe, PropertyView};
use crate::sequence::{cover_plan, cover_props, CoverView};
use vstd::prelude::*;

verus! {

// ---------------------------------------------------------------------
// Properties

/// Whether a reader must understand properties of this type: the
/// configuration record, what chooses a layer or an operating point, and
/// what transforms the image.
pub open spec fn must_be_understood(t: BoxType) -> bool {
    ||| t == [0x61u8, 0x76u8, 0x31u8, 0x43u8]
    ||| t == [0x61u8, 0x31u8, 0x6fu8, 0x70u8]
    ||| t == [0x6cu8, 0x73u8, 0x65u8, 0x6cu8]
    ||| t == [0x63u8, 0x6cu8, 0x61u8, 0x70u8]
    ||| t == [0x69u8, 0x72u8, 0x6fu8, 0x74u8]
    ||| t == [0x69u8, 0x6du8, 0x69u8, 0x72u8]
}

/// Where properties of this type stand: what describes the image first,
/// then its aperture, its rotation and its mirror.
pub open spec fn rank(t: BoxType) -> int {
    if t == [0x63u8, 0x6cu8, 0x61u8, 0x70u8] {
        1
    } else if t == [0x69u8, 0x72u8, 0x6fu8, 0x74u8] {
        2
    } else if t == [0x69u8, 0x6du8, 0x69u8, 0x72u8] {
        3
    } else {
        0
    }
}

/// Whether the properties of an item are marked as they must be, and stand
/// in order.
pub open spec fn is_orderly(meta: MetaView, id: u32) -> bool {
    meta.association(id) matches Some(a) ==> {
        &&& forall|j: int|
            0 <= j < a.entries.len() ==> (#[trigger] a.entries[j]).index < meta.properties.len()
                && a.entries[j].essential == must_be_understood(
                meta.properties[a.entries[j].index as int].kind(),
            )
        &&& forall|i: int, j: int|
            #![trigger a.entries[i], a.entries[j]]
            0 <= i < j < a.entries.len() ==> rank(
                meta.properties[a.entries[i].index as int].kind(),
            ) <= rank(meta.properties[a.entries[j].index as int].kind())
    }
}

/// The same of properties that are planned, of which none stands behind
/// `last`.
spec fn orderly(s: Seq<PropPlan>, last: int) -> bool {
    &&& forall|j: int|
        0 <= j < s.len() ==> (#[trigger] s[j]).essential == must_be_understood(s[j].box_type)
            && rank(s[j].box_type) <= last
    &&& forall|i: int, j: int|
        #![trigger s[i], s[j]]
        0 <= i < j < s.len() ==> rank(s[i].box_type) <= rank(s[j].box_type)
}

proof fn lemma_orderly_add(s: Seq<PropPlan>, before: int, p: Option<PropertyView>, e: bool, last: int)
    requires
        orderly(s, before),
        before <= last,
        p matches Some(v) ==> before <= rank(v.kind()) <= last && e == must_be_understood(v.kind()),
    ensures
        orderly(s + opt_prop(p, e), last),
{
    let all = s + opt_prop(p, e);
    assert forall|i: int, j: int| #![trigger all[i], all[j]] 0 <= i < j < all.len() implies rank(
        all[i].box_type,
    ) <= rank(all[j].box_type) by {
        assert(all[i] == s[i]);
        if j < s.len() {
            assert(all[j] == s[j]);
        }
    }
}

/// What the codes of the properties are.
proof fn lemma_codes()
    ensures
        forall|p: PropertyView|
            (p is Av1C || p is A1op || p is Lsel) ==> must_be_understood(#[trigger] p.kind())
                && rank(p.kind()) == 0,
        forall|p: PropertyView|
            (p is Ispe || p is A1lx || p is Pixi || p is Colr || p is Pasp || p is Mdcv || p is Clli
                || p is Amve || p is AuxC) ==> !must_be_understood(#[trigger] p.kind()) && rank(
                p.kind(),
            ) == 0,
        forall|p: PropertyView|
            p is Clap ==> must_be_understood(#[trigger] p.kind()) && rank(p.kind()) == 1,
        forall|p: PropertyView|
            p is Irot ==> must_be_understood(#[trigger] p.kind()) && rank(p.kind()) == 2,
        forall|p: PropertyView|
            p is Imir ==> must_be_understood(#[trigger] p.kind()) && rank(p.kind()) == 3,
{
    let known: Seq<BoxType> = seq![
        [0x61u8, 0x76u8, 0x31u8, 0x43u8],
        [0x61u8, 0x31u8, 0x6fu8, 0x70u8],
        [0x6cu8, 0x73u8, 0x65u8, 0x6cu8],
        [0x63u8, 0x6cu8, 0x61u8, 0x70u8],
        [0x69u8, 0x72u8, 0x6fu8, 0x74u8],
        [0x69u8, 0x6du8, 0x69u8, 0x72u8],
    ];
    assert forall|p: PropertyView| true implies {
        let t = #[trigger] p.kind();
        &&& p is Av1C ==> t[0] == 0x61 && t[1] == 0x76
        &&& p is A1op ==> t[0] == 0x61 && t[1] == 0x31 && t[2] == 0x6f
        &&& p is A1lx ==> t[0] == 0x61 && t[1] == 0x31 && t[2] == 0x6c
        &&& p is Lsel ==> t[0] == 0x6c
        &&& p is Clap ==> t[0] == 0x63 && t[1] == 0x6c && t[2] == 0x61
        &&& p is Clli ==> t[0] == 0x63 && t[1] == 0x6c && t[2] == 0x6c
        &&& p is Colr ==> t[0] == 0x63 && t[1] == 0x6f
        &&& p is Irot ==> t[0] == 0x69 && t[1] == 0x72
        &&& p is Imir ==> t[0] == 0x69 && t[1] == 0x6d
        &&& p is Ispe ==> t[0] == 0x69 && t[1] == 0x73
        &&& p is Pixi ==> t[0] == 0x70
        &&& p is Pasp ==> t[0] == 0x70
        &&& p is Mdcv ==> t[0] == 0x6d
        &&& p is Amve ==> t[0] == 0x61 && t[1] == 0x6d
        &&& p is AuxC ==> t[0] == 0x61 && t[1] == 0x75
    } by {}
    assert(known[0][1] == 0x76 && known[1][2] == 0x6f && known[2][0] == 0x6c && known[3][2] == 0x61
        && known[4][1] == 0x72 && known[5][1] == 0x6d);
    assert(known[0][0] == 0x61 && known[1][0] == 0x61 && known[1][1] == 0x31 && known[3][0] == 0x63
        && known[3][1] == 0x6c && known[4][0] == 0x69 && known[5][0] == 0x69);
}

/// One property by itself.
proof fn lemma_orderly_first(p: PropertyView, e: bool)
    requires
        rank(p.kind()) == 0,
        e == must_be_understood(p.kind()),
    ensures
        orderly(seq![prop(p, e)], 0),
{
}

proof fn lemma_primary_props(m: MuxerView)
    ensures
        orderly(primary_props(m), 3),
{
    lemma_codes();
    let ispe = PropertyView::Ispe(Ispe { width: m.width, height: m.height });
    let s0 = seq![prop(PropertyView::Av1C(m.av1c), true), prop(ispe, false)];
    assert(s0 =~= seq![prop(PropertyView::Av1C(m.av1c), true)] + opt_prop(Some(ispe), false));
    lemma_orderly_first(PropertyView::Av1C(m.av1c), true);
    lemma_orderly_add(seq![prop(PropertyView::Av1C(m.av1c), true)], 0, Some(ispe), false, 0);
    let s1 = s0 + opt_prop(as_a1op(m.operating_point), true);
    lemma_orderly_add(s0, 0, as_a1op(m.operating_point), true, 0);
    let s2 = s1 + opt_prop(as_lsel(m.layer_selector), true);
    lemma_orderly_add(s1, 0, as_lsel(m.layer_selector), true, 0);
    let s3 = s2 + opt_prop(as_a1lx(m.layered_index), false);
    lemma_orderly_add(s2, 0, as_a1lx(m.layered_index), false, 0);
    let s4 = s3 + opt_prop(as_pixi(m.pixi), false);
    lemma_orderly_add(s3, 0, as_pixi(m.pixi), false, 0);
    let s5 = s4 + opt_prop(as_colr(m.colr), false);
    lemma_orderly_add(s4, 0, as_colr(m.colr), false, 0);
    let s6 = s5 + opt_prop(as_pasp(m.pasp), false);
    lemma_orderly_add(s5, 0, as_pasp(m.pasp), false, 0);
    let s7 = s6 + opt_prop(as_mdcv(m.mdcv), false);
    lemma_orderly_add(s6, 0, as_mdcv(m.mdcv), false, 0);
    let s8 = s7 + opt_prop(as_clli(m.clli), false);
    lemma_orderly_add(s7, 0, as_clli(m.clli), false, 0);
    let s9 = s8 + opt_prop(as_amve(m.amve), false);
    lemma_orderly_add(s8, 0, as_amve(m.amve), false, 0);
    let s10 = s9 + opt_prop(as_clap(m.clap), true);
    lemma_orderly_add(s9, 0, as_clap(m.clap), true, 1);
    let s11 = s10 + opt_prop(as_irot(m.irot), true);
    lemma_orderly_add(s10, 1, as_irot(m.irot), true, 2);
    lemma_orderly_add(s11, 2, as_imir(m.imir), true, 3);
}

proof fn lemma_identity_props(m: MuxerView, d: IdentityDerivation)
    ensures
        orderly(identity_props(m, d), 3),
{
    lemma_codes();
    let ispe = PropertyView::Ispe(Ispe { width: shown_dims(m).0, height: shown_dims(m).1 });
    let s0 = seq![prop(ispe, false)];
    lemma_orderly_first(ispe, false);
    let s1 = s0 + opt_prop(as_pixi(m.pixi), false);
    lemma_orderly_add(s0, 0, as_pixi(m.pixi), false, 0);
    let s2 = s1 + opt_prop(as_clap(d.clap), true);
    lemma_orderly_add(s1, 0, as_clap(d.clap), true, 1);
    let s3 = s2 + opt_prop(as_irot(turned(d)), true);
    lemma_orderly_add(s2, 1, as_irot(turned(d)), true, 2);
    lemma_orderly_add(s3, 2, as_imir(flipped(d)), true, 3);
}

proof fn lemma_three(a: PropertyView, b: PropertyView, c: PropertyView)
    requires
        a is Av1C,
        b is Ispe,
        c is AuxC || c is Pixi,
    ensures
        orderly(seq![prop(a, true), prop(b, false), prop(c, false)], 0),
{
    lemma_codes();
    let s = seq![prop(a, true), prop(b, false), prop(c, false)];
    assert(s[0].box_type == a.kind() && s[1].box_type == b.kind() && s[2].box_type == c.kind());
}

proof fn lemma_auxiliary_props(m: MuxerView, a: AuxView, urn: Seq<char>)
    ensures
        orderly(auxiliary_props(m, a, urn), 3),
{
    lemma_codes();
    let ispe = PropertyView::Ispe(Ispe { width: m.width, height: m.height });
    lemma_three(PropertyView::Av1C(a.av1c), ispe, aux_type(urn));
    let s0 = seq![
        prop(PropertyView::Av1C(a.av1c), true),
        prop(ispe, false),
        prop(aux_type(urn), false),
    ];
    lemma_orderly_add(s0, 0, as_pixi(a.pixi), false, 3);
}

/// Whether the properties of every item are orderly.
spec fn all_orderly(items: Seq<ItemPlan>) -> bool {
    forall|i: int| 0 <= i < items.len() ==> orderly((#[trigger] items[i]).properties, 3)
}

/// A file that reads back as planned is as orderly as its plan.
proof fn lemma_reads_orderly(file: Seq<u8>, plan: FilePlan, id: u32)
    requires
        reads_back(file, plan),
        all_orderly(plan.items),
        plan.holds(id),
    ensures
        is_orderly(header_of(file)->Ok_0.meta, id),
{
    let meta = header_of(file)->Ok_0.meta;
    let s = plan.item(id).properties;
    assert(stores(file, meta, id, plan.item(id)));
    assert(orderly(plan.items[id - 1].properties, 3));
    if meta.association(id) is Some {
        let e = meta.association(id)->Some_0.entries;
        assert forall|j: int| 0 <= j < e.len() implies (#[trigger] e[j]).index
            < meta.properties.len() && e[j].essential == s[j].essential
            && meta.properties[e[j].index as int].kind() == s[j].box_type by {
            assert(crate::container::leads(
                meta,
                crate::container::entries_of(meta, id)[j],
                s[j],
            ));
            lemma_property_kind(s[j].box_type, s[j].body);
        }
    }
}

/// A written file marks the properties of every item as essential where a
/// reader must understand them and nowhere else, and lists what describes
/// an image before its aperture, that before its rotation and that before
/// its mirror.
pub proof fn law_still_properties_are_orderly(m: MuxerView, file: Seq<u8>, id: u32)
    requires
        reads_back(file, still_plan(m)),
        1 <= id <= header_of(file)->Ok_0.meta.items.len(),
    ensures
        is_orderly(header_of(file)->Ok_0.meta, id),
{
    let plan = still_plan(m);
    lemma_primary_props(m);
    if m.identity is Some {
        lemma_identity_props(m, m.identity->0);
    }
    if m.alpha is Some {
        lemma_auxiliary_props(m, m.alpha->0.image, crate::alpha::ALPHA_URN_PREFIX@);
    }
    if m.depth is Some {
        lemma_auxiliary_props(m, m.depth->0, crate::props::AUX_URN_DEPTH_MPEG@);
    }
    assert(all_orderly(coded_plan(m).items));
    assert(all_orderly(identity_plan(m).items));
    assert(all_orderly(alpha_plan(m).items));
    assert(all_orderly(depth_plan(m).items));
    assert(all_orderly(with_exif(depth_plan(m), 1, m.exif).items));
    assert(all_orderly(plan.items));
    lemma_reads_orderly(file, plan, id);
}

proof fn lemma_tile_props(t: TileView)
    ensures
        orderly(tile_props(t), 3),
{
    lemma_codes();
    let ispe = PropertyView::Ispe(Ispe { width: t.width, height: t.height });
    let s = tile_props(t);
    assert(s[0].box_type == PropertyView::Av1C(t.av1c).kind() && s[1].box_type == ispe.kind());
}

proof fn lemma_grid_props(m: GridMuxerView)
    ensures
        orderly(grid_props(m), 3),
        orderly(alpha_grid_props(m), 3),
{
    lemma_codes();
    let ispe = PropertyView::Ispe(Ispe { width: m.output_width, height: m.output_height });
    let s0 = seq![prop(ispe, false)];
    lemma_orderly_first(ispe, false);
    let s1 = s0 + opt_prop(as_pixi(m.pixi), false);
    lemma_orderly_add(s0, 0, as_pixi(m.pixi), false, 0);
    let s2 = s1 + opt_prop(as_colr(m.colr), false);
    lemma_orderly_add(s1, 0, as_colr(m.colr), false, 0);
    let s3 = s2 + opt_prop(as_pasp(m.pasp), false);
    lemma_orderly_add(s2, 0, as_pasp(m.pasp), false, 0);
    let s4 = s3 + opt_prop(as_mdcv(m.mdcv), false);
    lemma_orderly_add(s3, 0, as_mdcv(m.mdcv), false, 0);
    let s5 = s4 + opt_prop(as_clli(m.clli), false);
    lemma_orderly_add(s4, 0, as_clli(m.clli), false, 0);
    let s6 = s5 + opt_prop(as_amve(m.amve), false);
    lemma_orderly_add(s5, 0, as_amve(m.amve), false, 0);
    let s7 = s6 + opt_prop(as_irot(m.irot), true);
    lemma_orderly_add(s6, 0, as_irot(m.irot), true, 2);
    lemma_orderly_add(s7, 2, as_imir(m.imir), true, 3);
    let urn = aux_type(crate::alpha::ALPHA_URN_PREFIX@);
    let a0 = seq![prop(ispe, false), prop(urn, false)];
    assert(a0 =~= s0 + opt_prop(Some(urn), false));
    lemma_orderly_add(s0, 0, Some(urn), false, 0);
    lemma_orderly_add(a0, 0, as_pixi(m.alpha_pixi), false, 3);
}

proof fn lemma_tiles_orderly(plan: FilePlan, tiles: Seq<TileView>, n: nat)
    requires
        all_orderly(plan.items),
    ensures
        all_orderly(with_tiles(plan, tiles, n).items),
        with_tiles(plan, tiles, n).items.len() == plan.items.len() + n,
        with_tiles(plan, tiles, n).references == plan.references,
    decreases n,
{
    if n > 0 {
        lemma_tiles_orderly(plan, tiles, (n - 1) as nat);
        lemma_tile_props(tiles[n - 1]);
    }
}

/// The same of a file with a grid.
pub proof fn law_grid_properties_are_orderly(m: GridMuxerView, file: Seq<u8>, id: u32)
    requires
        reads_back(file, grid_plan(m)),
        1 <= id <= header_of(file)->Ok_0.meta.items.len(),
    ensures
        is_orderly(header_of(file)->Ok_0.meta, id),
{
    lemma_grid_orderly(m);
    lemma_reads_orderly(file, grid_plan(m), id);
}

proof fn lemma_grid_orderly(m: GridMuxerView)
    ensures
        all_orderly(grid_plan(m).items),
        colour_plan(m).items.len() == 1 + m.tiles.len(),
        colour_plan(m).references == seq![
            IrefView {
                reference_type: crate::container::DIMG,
                from_id: 1,
                to_ids: crate::mux_grid::ids_from(2, m.tiles.len()),
            },
        ],
{
    lemma_grid_props(m);
    let start = FilePlan {
        brands: Some((crate::parser::BRAND_AVIF, still_codes(m.profile_brand))),
        ..empty_plan()
    };
    let first = with_grid(start, m, false, grid_props(m));
    lemma_tiles_orderly(first, m.tiles, m.tiles.len());
    let colour = colour_plan(m);
    assert(first.references =~= seq![
        IrefView {
            reference_type: crate::container::DIMG,
            from_id: 1,
            to_ids: crate::mux_grid::ids_from(2, m.tiles.len()),
        },
    ]);
    if m.alpha_tiles.len() > 0 {
        let next = with_grid(colour, m, true, alpha_grid_props(m));
        lemma_tiles_orderly(next, m.alpha_tiles, m.alpha_tiles.len());
    }
    assert(all_orderly(alpha_grid_plan(m).items));
    assert(all_orderly(with_exif(alpha_grid_plan(m), 1, m.exif).items));
}

proof fn lemma_layer_props(l: LayerView)
    ensures
        orderly(layer_props(l), 3),
        orderly(alpha_props(l), 3),
{
    lemma_codes();
    let ispe = PropertyView::Ispe(Ispe { width: l.width, height: l.height });
    let record = PropertyView::Av1C(l.av1c);
    let s0 = seq![prop(record, true), prop(ispe, false)];
    assert(s0 =~= seq![prop(record, true)] + opt_prop(Some(ispe), false));
    lemma_orderly_first(record, true);
    lemma_orderly_add(seq![prop(record, true)], 0, Some(ispe), false, 0);
    let s1 = s0 + opt_prop(as_pixi(l.pixi), false);
    lemma_orderly_add(s0, 0, as_pixi(l.pixi), false, 0);
    let s2 = s1 + opt_prop(as_colr(l.colr), false);
    lemma_orderly_add(s1, 0, as_colr(l.colr), false, 0);
    lemma_orderly_add(s2, 0, as_clap(l.clap), true, 3);
    let urn = aux_type(crate::alpha::ALPHA_URN_PREFIX@);
    lemma_three(PropertyView::Av1C(l.alpha_record()), ispe, urn);
    let a0 = seq![
        prop(PropertyView::Av1C(l.alpha_record()), true),
        prop(ispe, false),
        prop(urn, false),
    ];
    let a1 = a0 + opt_prop(as_pixi(l.alpha_pixi), false);
    lemma_orderly_add(a0, 0, as_pixi(l.alpha_pixi), false, 0);
    lemma_orderly_add(a1, 0, as_clap(l.clap), true, 3);
}

proof fn lemma_layers_orderly(plan: FilePlan, layers: Seq<LayerView>, n: nat)
    requires
        all_orderly(plan.items),
    ensures
        all_orderly(with_layers(plan, layers, n).items),
    decreases n,
{
    if n > 0 {
        lemma_layers_orderly(plan, layers, (n - 1) as nat);
        lemma_layer_props(layers[n - 1]);
    }
}

/// The same of a file with an overlay.
pub proof fn law_overlay_properties_are_orderly(m: OverlayMuxerView, file: Seq<u8>, id: u32)
    requires
        reads_back(file, overlay_plan(m)),
        1 <= id <= header_of(file)->Ok_0.meta.items.len(),
    ensures
        is_orderly(header_of(file)->Ok_0.meta, id),
{
    lemma_codes();
    let ispe = PropertyView::Ispe(Ispe { width: m.output_width, height: m.output_height });
    let s0 = seq![prop(ispe, false)];
    lemma_orderly_first(ispe, false);
    let s1 = s0 + opt_prop(as_pixi(m.pixi), false);
    lemma_orderly_add(s0, 0, as_pixi(m.pixi), false, 0);
    let s2 = s1 + opt_prop(as_colr(m.colr), false);
    lemma_orderly_add(s1, 0, as_colr(m.colr), false, 0);
    let s3 = s2 + opt_prop(as_irot(m.irot), true);
    lemma_orderly_add(s2, 0, as_irot(m.irot), true, 2);
    lemma_orderly_add(s3, 2, as_imir(m.imir), true, 3);
    assert(orderly(overlay_props(m), 3));
    assert(all_orderly(canvas_plan(m).items));
    lemma_layers_orderly(canvas_plan(m), m.layers, m.layers.len());
    lemma_reads_orderly(file, overlay_plan(m), id);
}

/// The same of the cover image of a sequence.
pub proof fn law_cover_properties_are_orderly(c: CoverView, file: Seq<u8>, id: u32)
    requires
        reads_back(file, cover_plan(c)),
        1 <= id <= header_of(file)->Ok_0.meta.items.len(),
    ensures
        is_orderly(header_of(file)->Ok_0.meta, id),
{
    lemma_codes();
    let ispe = PropertyView::Ispe(Ispe { width: c.width, height: c.height });
    lemma_three(PropertyView::Av1C(c.av1c), ispe, PropertyView::Pixi(c.pixi));
    let s0 = seq![
        prop(PropertyView::Av1C(c.av1c), true),
        prop(ispe, false),
        prop(PropertyView::Pixi(c.pixi), false),
    ];
    let s1 = s0 + opt_prop(as_colr(c.colr), false);
    lemma_orderly_add(s0, 0, as_colr(c.colr), false, 0);
    lemma_orderly_add(s1, 0, as_clap(c.clap), true, 3);
    assert(orderly(cover_props(c), 3));
    assert(all_orderly(cover_plan(c).items));
    lemma_reads_orderly(file, cover_plan(c), id);
}

// ---------------------------------------------------------------------
// References

/// A reference of this type from one item to another.
pub open spec fn reference(t: BoxType, from_id: int, to_id: int) -> IrefView {
    IrefView { reference_type: t, from_id: from_id as u32, to_ids: seq![to_id as u32] }
}

/// One reference, or none.
pub open spec fn when(c: bool, e: IrefView) -> Seq<IrefView> {
    if c {
        seq![e]
    } else {
        Seq::empty()
    }
}

/// One or none.
pub open spec fn one_if(c: bool) -> int {
    if c {
        1
    } else {
        0
    }
}

/// A file with one image lists the image, its identity derivation, its
/// alpha plane, its depth map, its Exif and its XMP, each where there is
/// one. The derivation refers to the image as `dimg`, the planes as `auxl`
/// and the metadata as `cdsc`, and the image refers to an alpha plane that
/// it is premultiplied by as `prem`; there are no other references. Only
/// the planes are hidden.
pub proof fn law_still_lists_its_references(m: MuxerView, file: Seq<u8>)
    requires
        reads_back(file, still_plan(m)),
    ensures
        ({
            let meta = header_of(file)->Ok_0.meta;
            let alpha = 2 + one_if(m.identity is Some);
            let depth = alpha + one_if(m.alpha is Some);
            let exif = depth + one_if(m.depth is Some);
            let xmp = exif + one_if(m.exif is Some);
            let auxl: BoxType = [0x61, 0x75, 0x78, 0x6c];
            let cdsc: BoxType = [0x63, 0x64, 0x73, 0x63];
            &&& meta.irefs == when(
                m.identity is Some,
                reference([0x64, 0x69, 0x6d, 0x67], 2, 1),
            ) + when(m.alpha is Some, reference(auxl, alpha, 1)) + when(
                m.alpha is Some && m.alpha->0.premultiplied,
                reference([0x70, 0x72, 0x65, 0x6d], 1, alpha),
            ) + when(m.depth is Some, reference(auxl, depth, 1)) + when(
                m.exif is Some,
                reference(cdsc, exif, 1),
            ) + when(m.xmp is Some, reference(cdsc, xmp, 1))
            &&& meta.items.len() == xmp - 1 + one_if(m.xmp is Some)
            &&& meta.items[0].item_type == [0x61u8, 0x76u8, 0x30u8, 0x31u8]
            &&& m.identity is Some ==> meta.items[1].item_type == [0x69u8, 0x64u8, 0x65u8, 0x6eu8]
            &&& m.alpha is Some ==> meta.items[alpha - 1].item_type == [
                0x61u8,
                0x76u8,
                0x30u8,
                0x31u8,
            ]
            &&& m.depth is Some ==> meta.items[depth - 1].item_type == [
                0x61u8,
                0x76u8,
                0x30u8,
                0x31u8,
            ]
            &&& forall|k: int|
                0 <= k < meta.items.len() ==> (#[trigger] meta.items[k]).id == k + 1
                    && meta.items[k].flags == one_if(
                    m.alpha is Some && k == alpha - 1 || m.depth is Some && k == depth - 1,
                )
        }),
{
    let meta = header_of(file)->Ok_0.meta;
    let plan = still_plan(m);
    let alpha = 2 + one_if(m.identity is Some);
    let depth = alpha + one_if(m.alpha is Some);
    let exif = depth + one_if(m.depth is Some);
    let xmp = exif + one_if(m.exif is Some);
    let auxl: BoxType = [0x61, 0x75, 0x78, 0x6c];
    let cdsc: BoxType = [0x63, 0x64, 0x73, 0x63];
    let r1 = when(m.identity is Some, reference([0x64, 0x69, 0x6d, 0x67], 2, 1));
    let r2 = r1 + when(m.alpha is Some, reference(auxl, alpha, 1)) + when(
        m.alpha is Some && m.alpha->0.premultiplied,
        reference([0x70, 0x72, 0x65, 0x6d], 1, alpha),
    );
    let r3 = r2 + when(m.depth is Some, reference(auxl, depth, 1));
    let r4 = r3 + when(m.exif is Some, reference(cdsc, exif, 1));
    let r5 = r4 + when(m.xmp is Some, reference(cdsc, xmp, 1));
    assert(coded_plan(m).items.len() == 1);
    assert(identity_plan(m).items.len() == alpha - 1);
    assert(alpha_plan(m).items.len() == depth - 1);
    assert(depth_plan(m).items.len() == exif - 1);
    let p4 = with_exif(depth_plan(m), 1, m.exif);
    assert(p4.items.len() == xmp - 1);
    assert(identity_plan(m).references =~= r1);
    assert(alpha_plan(m).references =~= r2);
    assert(depth_plan(m).references =~= r3);
    assert(p4.references =~= r4);
    assert(plan.references =~= r5);
    assert forall|k: int| 0 <= k < meta.items.len() implies (#[trigger] meta.items[k]).id == k + 1
        && meta.items[k].flags == one_if(
        m.alpha is Some && k == alpha - 1 || m.depth is Some && k == depth - 1,
    ) by {
        let id = (k + 1) as u32;
        assert(plan.holds(id));
        assert(meta.items[id - 1] == plan.item(id).entry(id));
    }
    assert(meta.items[0] == plan.item(1).entry(1));
    if m.identity is Some {
        assert(meta.items[1] == plan.item(2).entry(2));
    }
    if m.alpha is Some {
        assert(meta.items[alpha - 1] == plan.item(alpha as u32).entry(alpha as u32));
    }
    if m.depth is Some {
        assert(meta.items[depth - 1] == plan.item(depth as u32).entry(depth as u32));
    }
}

/// A file with a grid lists the grid, its tiles in reading order, the grid
/// of its alpha plane and the tiles of that, its Exif and its XMP. A grid
/// refers to its own tiles as `dimg`, in order; the alpha grid refers to
/// the grid as `auxl`, and the grid to an alpha grid that it is
/// premultiplied by as `prem`; there are no other references but those of
/// the metadata.
pub proof fn law_grid_lists_its_references(m: GridMuxerView, file: Seq<u8>)
    requires
        reads_back(file, grid_plan(m)),
        m.tiles.len() + m.alpha_tiles.len() <= 0xffff,
        m.alpha_tiles.len() == 0 || m.alpha_tiles.len() == m.tiles.len(),
    ensures
        ({
            let meta = header_of(file)->Ok_0.meta;
            let n = m.tiles.len() as int;
            let has = m.alpha_tiles.len() > 0;
            let last = if has {
                2 + 2 * n
            } else {
                1 + n
            };
            let dimg: BoxType = [0x64, 0x69, 0x6d, 0x67];
            let cdsc: BoxType = [0x63, 0x64, 0x73, 0x63];
            &&& meta.irefs == seq![
                IrefView {
                    reference_type: dimg,
                    from_id: 1,
                    to_ids: Seq::new(n as nat, |i: int| (2 + i) as u32),
                },
            ] + when(
                has,
                IrefView {
                    reference_type: dimg,
                    from_id: (n + 2) as u32,
                    to_ids: Seq::new(n as nat, |i: int| (n + 3 + i) as u32),
                },
            ) + when(has, reference([0x61, 0x75, 0x78, 0x6c], n + 2, 1)) + when(
                has && m.premultiplied,
                reference([0x70, 0x72, 0x65, 0x6d], 1, n + 2),
            ) + when(m.exif is Some, reference(cdsc, last + 1, 1)) + when(
                m.xmp is Some,
                reference(cdsc, last + 1 + one_if(m.exif is Some), 1),
            )
            &&& meta.items.len() == last + one_if(m.exif is Some) + one_if(m.xmp is Some)
        }),
{
    let plan = grid_plan(m);
    let n = m.tiles.len() as int;
    let has = m.alpha_tiles.len() > 0;
    let last = if has {
        2 + 2 * n
    } else {
        1 + n
    };
    let dimg: BoxType = [0x64, 0x69, 0x6d, 0x67];
    let cdsc: BoxType = [0x63, 0x64, 0x73, 0x63];
    lemma_grid_orderly(m);
    lemma_grid_props(m);
    let own = crate::mux_grid::ids_from(2, m.tiles.len());
    assert(own =~= Seq::new(n as nat, |i: int| (2 + i) as u32));
    let r1 = seq![
        IrefView {
            reference_type: dimg,
            from_id: 1,
            to_ids: Seq::new(n as nat, |i: int| (2 + i) as u32),
        },
    ];
    let colour = colour_plan(m);
    assert(colour.references =~= r1);
    let second = IrefView {
        reference_type: dimg,
        from_id: (n + 2) as u32,
        to_ids: Seq::new(n as nat, |i: int| (n + 3 + i) as u32),
    };
    let r2 = r1 + when(has, second) + when(has, reference([0x61, 0x75, 0x78, 0x6c], n + 2, 1))
        + when(has && m.premultiplied, reference([0x70, 0x72, 0x65, 0x6d], 1, n + 2));
    if has {
        let next = with_grid(colour, m, true, alpha_grid_props(m));
        lemma_tiles_counts(next, m.alpha_tiles, m.alpha_tiles.len());
        assert(crate::mux_grid::ids_from(colour.next_id() + 1, m.tiles.len()) =~= second.to_ids);
        assert(next.references =~= r1 + seq![second]);
    }
    assert(alpha_grid_plan(m).references =~= r2);
    assert(alpha_grid_plan(m).items.len() == last);
    let p = with_exif(alpha_grid_plan(m), 1, m.exif);
    let r3 = r2 + when(m.exif is Some, reference(cdsc, last + 1, 1));
    assert(p.references =~= r3);
    assert(plan.references =~= r3 + when(
        m.xmp is Some,
        reference(cdsc, last + 1 + one_if(m.exif is Some), 1),
    ));
}

proof fn lemma_tiles_counts(plan: FilePlan, tiles: Seq<TileView>, n: nat)
    ensures
        with_tiles(plan, tiles, n).items.len() == plan.items.len() + n,
        with_tiles(plan, tiles, n).references == plan.references,
    decreases n,
{
    if n > 0 {
        lemma_tiles_counts(plan, tiles, (n - 1) as nat);
    }
}

/// Whether a reference is one that layer `i` brings along: its alpha plane
/// refers to it as `auxl`, and it refers to a plane that it is
/// premultiplied by as `prem`.
pub open spec fn comes_with_layer(layers: Seq<LayerView>, i: int, e: IrefView) -> bool {
    let id = layer_id(layers, i as nat) as int;
    layers[i].alpha is Some && (e == reference([0x61, 0x75, 0x78, 0x6c], id + 1, id)
        || layers[i].premultiplied && e == reference([0x70, 0x72, 0x65, 0x6d], id, id + 1))
}

proof fn lemma_layer_references(plan: FilePlan, layers: Seq<LayerView>, n: nat, e: IrefView)
    requires
        plan.items.len() == 1,
        n <= layers.len(),
        2 + coded_count(layers, n) <= 0xffff,
    ensures
        with_layers(plan, layers, n).items.len() == 1 + coded_count(layers, n),
        with_layers(plan, layers, n).references.len() >= plan.references.len(),
        forall|k: int|
            0 <= k < plan.references.len() ==> with_layers(plan, layers, n).references[k]
                == #[trigger] plan.references[k],
        with_layers(plan, layers, n).references.contains(e) <==> plan.references.contains(e)
            || exists|i: int| 0 <= i < n && #[trigger] comes_with_layer(layers, i, e),
    decreases n,
{
    if n > 0 {
        lemma_layer_references(plan, layers, (n - 1) as nat, e);
        let before = with_layers(plan, layers, (n - 1) as nat);
        let l = layers[n - 1];
        let id = layer_id(layers, (n - 1) as nat) as int;
        assert(before.next_id() == id);
        let all = with_layers(plan, layers, n).references;
        let a = reference([0x61, 0x75, 0x78, 0x6c], id + 1, id);
        let p = reference([0x70, 0x72, 0x65, 0x6d], id, id + 1);
        let more = when(l.alpha is Some, a) + when(l.alpha is Some && l.premultiplied, p);
        assert(all =~= before.references + more);
        assert(more.contains(e) <==> comes_with_layer(layers, n - 1, e)) by {
            if l.alpha is Some {
                assert(more[0] == a);
                if l.premultiplied {
                    assert(more[1] == p);
                }
            }
        }
        assert(all.contains(e) <==> before.references.contains(e) || more.contains(e)) by {
            if before.references.contains(e) {
                let k = choose|k: int|
                    0 <= k < before.references.len() && before.references[k] == e;
                assert(all[k] == e);
            }
            if more.contains(e) {
                let k = choose|k: int| 0 <= k < more.len() && more[k] == e;
                assert(all[before.references.len() + k] == e);
            }
            if all.contains(e) {
                let k = choose|k: int| 0 <= k < all.len() && all[k] == e;
                if k < before.references.len() {
                    assert(before.references[k] == e);
                } else {
                    assert(more[k - before.references.len()] == e);
                }
            }
        }
    }
}

/// A file with an overlay lists the overlay and its layers, the bottom one
/// first, each before its own alpha plane. The first reference is the
/// overlay's, as `dimg`, to its layers in order; the others are those that
/// the layers bring along.
pub proof fn law_overlay_lists_its_references(m: OverlayMuxerView, file: Seq<u8>, e: IrefView)
    requires
        reads_back(file, overlay_plan(m)),
        2 + coded_count(m.layers, m.layers.len()) <= 0xffff,
    ensures
        ({
            let meta = header_of(file)->Ok_0.meta;
            let first = IrefView {
                reference_type: [0x64, 0x69, 0x6d, 0x67],
                from_id: 1,
                to_ids: Seq::new(m.layers.len(), |i: int| layer_id(m.layers, i as nat)),
            };
            &&& meta.irefs.len() > 0
            &&& meta.irefs[0] == first
            &&& meta.irefs.contains(e) <==> e == first || exists|i: int|
                0 <= i < m.layers.len() && #[trigger] comes_with_layer(m.layers, i, e)
        }),
{
    let plan = canvas_plan(m);
    let first = IrefView {
        reference_type: [0x64, 0x69, 0x6d, 0x67],
        from_id: 1,
        to_ids: Seq::new(m.layers.len(), |i: int| layer_id(m.layers, i as nat)),
    };
    assert(crate::mux_overlay::layer_ids(m.layers, m.layers.len()) =~= first.to_ids);
    assert(plan.references =~= seq![first]);
    assert(plan.references[0] == first);
    lemma_layer_references(plan, m.layers, m.layers.len(), e);
}

/// The first layer has the id behind the overlay, and every other the id
/// behind the layer below and its alpha plane.
pub proof fn law_layers_are_numbered_in_order(layers: Seq<LayerView>, i: nat)
    requires
        i < layers.len(),
        2 + coded_count(layers, i + 1) <= u32::MAX,
    ensures
        layer_id(layers, 0) == 2,
        layer_id(layers, i + 1) == layer_id(layers, i) + 1 + one_if(layers[i as int].alpha is Some),
{
}

// ---------------------------------------------------------------------
// Brands

/// The compatible brands of a still image and of a sequence, by their
/// codes.
pub proof fn law_brands_by_code(profile: ProfileBrand, all_sync: bool)
    ensures
        ({
            let more: Seq<BoxType> = match profile {
                ProfileBrand::Baseline => seq![[0x4du8, 0x41u8, 0x31u8, 0x42u8]],
                ProfileBrand::Advanced => seq![[0x4du8, 0x41u8, 0x31u8, 0x41u8]],
                ProfileBrand::Bare => Seq::empty(),
            };
            let sync: Seq<BoxType> = if all_sync {
                seq![[0x61u8, 0x76u8, 0x69u8, 0x6fu8]]
            } else {
                Seq::empty()
            };
            &&& still_codes(profile) == seq![
                [0x61u8, 0x76u8, 0x69u8, 0x66u8],
                [0x6du8, 0x69u8, 0x66u8, 0x31u8],
                [0x6du8, 0x69u8, 0x61u8, 0x66u8],
            ] + more
            &&& sequence_codes(profile, all_sync) == seq![
                [0x61u8, 0x76u8, 0x69u8, 0x73u8],
                [0x61u8, 0x76u8, 0x69u8, 0x66u8],
                [0x6du8, 0x69u8, 0x66u8, 0x31u8],
                [0x6du8, 0x73u8, 0x66u8, 0x31u8],
                [0x6du8, 0x69u8, 0x61u8, 0x66u8],
                [0x61u8, 0x76u8, 0x30u8, 0x31u8],
            ] + sync + more
        }),
{
}

} // verus!
