//! Writing AVIF files whose primary item is an overlay of coded layers.

use crate::alpha::ALPHA_URN_PREFIX;
use crate::container::{
    add_overlay, empty_plan, lemma_stored, names_auxiliary, overfull, overlay_body, plan_of,
    queued, reads_back, with_auxiliary, write_file, written, BodyPlan, FilePlan, ItemPlan,
    PropPlan, DIMG, MOST_STORED, PREM,
};
use crate::error::{lemma_views_push, outcome_view, views, AvifError, Fault};
use crate::lookup::opt_colr;
use crate::meta::opt_bytes;
use crate::meta_parse::{IrefView, ITEM_TYPE_IOVL};
use crate::mux::{
    either, lemma_coded_complete, lemma_derived_complete, lemma_hidden_already,
    lemma_readable_item, lemma_readable_plan, readable_items,
};
use crate::mux_grid::lemma_queued_hidden;
use crate::mux_items::{
    as_clap, as_colr, as_imir, as_irot, as_pixi, expect_id, growing, leads_to, lemma_grow_item,
    lemma_grow_reference, lemma_grown, list_of, opt_colr_fault, push_clap, push_colr, push_imir,
    push_irot, push_pixi,
};
use crate::mux_props::{
    aux_type, opt_prop, prop, prop_auxc, prop_av1c, prop_ispe, push_prop, record_fault,
    still_brands, still_codes, ProfileBrand, Prop,
};
use crate::parser::{BRAND_AVIF, ITEM_TYPE_AV01};
use crate::property_laws::{
    lemma_alpha_urn, lemma_readable_add, lemma_readable_one, lemma_readable_opt, readable_list,
};
use crate::props::{
    Clap, Colr, ColrView, Imir, Irot, Ispe, PropertyView, AUXC, AV1C, ISPE,
};
use crate::text::{dec, push_dec};
use oxideav_heif::HeifWriter;
use vstd::prelude::*;
use vstd::slice::slice_to_vec;

verus! {

/// One layer of an overlay: a hidden coded item at a place on the
/// canvas, with an alpha auxiliary where there is one.
pub struct OverlayLayer {
    /// Width in pixels.
    pub width: u32,
    /// Height in pixels.
    pub height: u32,
    /// Coded bytes.
    pub payload: Vec<u8>,
    /// Configuration record.
    pub av1c: Vec<u8>,
    /// Bits per channel.
    pub pixi: Option<Vec<u8>>,
    /// Colour description.
    pub colr: Option<Colr>,
    /// Clean aperture.
    pub clap: Option<Clap>,
    /// Coded bytes and configuration record of the alpha auxiliary.
    pub alpha: Option<(Vec<u8>, Vec<u8>)>,
    /// Bits per channel of the alpha auxiliary.
    pub alpha_pixi: Option<Vec<u8>>,
    /// Whether the colours are premultiplied by the alpha auxiliary.
    pub premultiplied: bool,
    /// Left edge on the canvas.
    pub offset_x: i32,
    /// Top edge on the canvas.
    pub offset_y: i32,
}

/// An [`OverlayLayer`] as contracts speak of it.
#[verifier::ext_equal]
pub struct LayerView {
    /// Width in pixels.
    pub width: u32,
    /// Height in pixels.
    pub height: u32,
    /// Coded bytes.
    pub payload: Seq<u8>,
    /// Configuration record.
    pub av1c: Seq<u8>,
    /// Bits per channel.
    pub pixi: Option<Seq<u8>>,
    /// Colour description.
    pub colr: Option<ColrView>,
    /// Clean aperture.
    pub clap: Option<Clap>,
    /// Coded bytes and configuration record of the alpha auxiliary.
    pub alpha: Option<(Seq<u8>, Seq<u8>)>,
    /// Bits per channel of the alpha auxiliary.
    pub alpha_pixi: Option<Seq<u8>>,
    /// Whether the colours are premultiplied by the alpha auxiliary.
    pub premultiplied: bool,
    /// Left edge on the canvas.
    pub offset_x: i32,
    /// Top edge on the canvas.
    pub offset_y: i32,
}

impl LayerView {
    /// The coded bytes of the alpha auxiliary, where there is one.
    pub open spec fn alpha_payload(self) -> Seq<u8> {
        match self.alpha {
            Some((payload, _)) => payload,
            None => Seq::empty(),
        }
    }

    /// The configuration record of the alpha auxiliary, where there is
    /// one.
    pub open spec fn alpha_record(self) -> Seq<u8> {
        match self.alpha {
            Some((_, record)) => record,
            None => Seq::empty(),
        }
    }
}

/// The bytes of an optional coded image and of its record.
pub open spec fn opt_coded(v: Option<(Vec<u8>, Vec<u8>)>) -> Option<(Seq<u8>, Seq<u8>)> {
    match v {
        Some((payload, record)) => Some((payload@, record@)),
        None => None,
    }
}

impl View for OverlayLayer {
    type V = LayerView;

    open spec fn view(&self) -> LayerView {
        LayerView {
            width: self.width,
            height: self.height,
            payload: self.payload@,
            av1c: self.av1c@,
            pixi: opt_bytes(self.pixi),
            colr: opt_colr(self.colr),
            clap: self.clap,
            alpha: opt_coded(self.alpha),
            alpha_pixi: opt_bytes(self.alpha_pixi),
            premultiplied: self.premultiplied,
            offset_x: self.offset_x,
            offset_y: self.offset_y,
        }
    }
}

/// A file whose primary item is an overlay of hidden layers.
pub struct AvifOverlayMuxer {
    output_width: u32,
    output_height: u32,
    fill: [u16; 4],
    layers: Vec<OverlayLayer>,
    pixi: Option<Vec<u8>>,
    colr: Option<Colr>,
    irot: Option<Irot>,
    imir: Option<Imir>,
    profile_brand: ProfileBrand,
}

/// An [`AvifOverlayMuxer`] as contracts speak of it.
#[verifier::ext_equal]
pub struct OverlayMuxerView {
    /// Width of the canvas.
    pub output_width: u32,
    /// Height of the canvas.
    pub output_height: u32,
    /// Red, green, blue and alpha of the canvas.
    pub fill: [u16; 4],
    /// Layers, the bottom one first.
    pub layers: Seq<LayerView>,
    /// Bits per channel.
    pub pixi: Option<Seq<u8>>,
    /// Colour description.
    pub colr: Option<ColrView>,
    /// Rotation.
    pub irot: Option<Irot>,
    /// Mirror.
    pub imir: Option<Imir>,
    /// Profile brand.
    pub profile_brand: ProfileBrand,
}

impl View for AvifOverlayMuxer {
    type V = OverlayMuxerView;

    closed spec fn view(&self) -> OverlayMuxerView {
        OverlayMuxerView {
            output_width: self.output_width,
            output_height: self.output_height,
            fill: self.fill,
            layers: views(self.layers@),
            pixi: opt_bytes(self.pixi),
            colr: opt_colr(self.colr),
            irot: self.irot,
            imir: self.imir,
            profile_brand: self.profile_brand,
        }
    }
}

/// A canvas without layers, filled with opaque black.
pub open spec fn plain_overlay(output_width: u32, output_height: u32) -> OverlayMuxerView {
    OverlayMuxerView {
        output_width,
        output_height,
        fill: [0u16, 0u16, 0u16, 65535u16],
        layers: Seq::empty(),
        pixi: None,
        colr: None,
        irot: None,
        imir: None,
        profile_brand: ProfileBrand::Baseline,
    }
}

/// Most coded items, of layers and their alpha auxiliaries, that a file
/// takes: each has a decoder configuration of its own, and a file has at
/// most 32767 properties.
pub const MOST_LAYERS: usize = 32766;

/// Why layer `i` is refused, if it is.
pub open spec fn layer_fault(l: LayerView, i: int) -> Option<Fault> {
    either(
        record_fault(l.av1c, "overlay layer "@ + dec(i as nat) + " "@),
        either(
            opt_colr_fault(l.colr),
            match l.alpha {
                Some((_, record)) => record_fault(
                    record,
                    "overlay layer "@ + dec(i as nat) + " alpha "@,
                ),
                None => None,
            },
        ),
    )
}

/// Why the first of the layers from place `i` on that is refused is
/// refused, if one is.
pub open spec fn layers_fault(layers: Seq<LayerView>, i: int) -> Option<Fault>
    decreases layers.len() - i,
{
    if i < 0 || i >= layers.len() {
        None
    } else {
        either(layer_fault(layers[i], i), layers_fault(layers, i + 1))
    }
}

/// How many coded items the first `n` layers make.
pub open spec fn coded_count(layers: Seq<LayerView>, n: nat) -> nat
    decreases n,
{
    if n == 0 {
        0
    } else {
        coded_count(layers, (n - 1) as nat) + if layers[n - 1].alpha is Some {
            2nat
        } else {
            1nat
        }
    }
}

/// How many properties the first `n` layers have.
pub open spec fn layers_props(layers: Seq<LayerView>, n: nat) -> nat
    decreases n,
{
    if n == 0 {
        0
    } else {
        layers_props(layers, (n - 1) as nat) + layer_props(layers[n - 1]).len()
            + if layers[n - 1].alpha is Some {
            alpha_props(layers[n - 1]).len()
        } else {
            0
        }
    }
}

/// The fault of a file with more coded items than it takes.
pub open spec fn crowded(m: OverlayMuxerView) -> Option<Fault> {
    if coded_count(m.layers, m.layers.len()) > MOST_LAYERS {
        Some(overfull())
    } else {
        None
    }
}

/// Why the file is refused before it is written, if it is.
pub open spec fn overlay_fault(m: OverlayMuxerView) -> Option<Fault> {
    if m.layers.len() == 0 {
        Some(Fault::Invalid("avif mux: overlay needs at least one layer"@))
    } else if m.output_width == 0 || m.output_height == 0 {
        Some(Fault::Invalid("avif mux: overlay canvas dimensions zero"@))
    } else {
        either(opt_colr_fault(m.colr), either(layers_fault(m.layers, 0), crowded(m)))
    }
}

/// The properties of the overlay.
pub open spec fn overlay_props(m: OverlayMuxerView) -> Seq<PropPlan> {
    seq![
        prop(
            PropertyView::Ispe(Ispe { width: m.output_width, height: m.output_height }),
            false,
        ),
    ] + opt_prop(as_pixi(m.pixi), false) + opt_prop(as_colr(m.colr), false) + opt_prop(
        as_irot(m.irot),
        true,
    ) + opt_prop(as_imir(m.imir), true)
}

/// The properties of a layer.
pub open spec fn layer_props(l: LayerView) -> Seq<PropPlan> {
    seq![
        prop(PropertyView::Av1C(l.av1c), true),
        prop(PropertyView::Ispe(Ispe { width: l.width, height: l.height }), false),
    ] + opt_prop(as_pixi(l.pixi), false) + opt_prop(as_colr(l.colr), false) + opt_prop(
        as_clap(l.clap),
        true,
    )
}

/// The properties of the alpha auxiliary of a layer that has one.
pub open spec fn alpha_props(l: LayerView) -> Seq<PropPlan> {
    seq![
        prop(PropertyView::Av1C(l.alpha_record()), true),
        prop(PropertyView::Ispe(Ispe { width: l.width, height: l.height }), false),
        prop(aux_type(ALPHA_URN_PREFIX@), false),
    ] + opt_prop(as_pixi(l.alpha_pixi), false) + opt_prop(as_clap(l.clap), true)
}

/// A layer as an item.
pub open spec fn layer_item(l: LayerView) -> ItemPlan {
    ItemPlan {
        item_type: ITEM_TYPE_AV01,
        content_type: None,
        hidden: true,
        body: BodyPlan::Coded(l.payload),
        properties: layer_props(l),
    }
}

/// A file with one more layer and its alpha auxiliary.
pub open spec fn with_layer(plan: FilePlan, l: LayerView) -> FilePlan {
    let with = plan.with_item(layer_item(l));
    match l.alpha {
        Some((payload, _)) => {
            let both = with_auxiliary(
                with,
                plan.next_id(),
                ITEM_TYPE_AV01,
                payload,
                alpha_props(l),
            );
            if l.premultiplied {
                both.with_reference(PREM, plan.next_id(), seq![with.next_id()])
            } else {
                both
            }
        },
        None => with,
    }
}

/// A file with the first `n` layers.
pub open spec fn with_layers(plan: FilePlan, layers: Seq<LayerView>, n: nat) -> FilePlan
    decreases n,
{
    if n == 0 {
        plan
    } else {
        with_layer(with_layers(plan, layers, (n - 1) as nat), layers[n - 1])
    }
}

/// The id of layer `i`.
pub open spec fn layer_id(layers: Seq<LayerView>, i: nat) -> u32 {
    (2 + coded_count(layers, i)) as u32
}

/// The ids of the first `n` layers.
pub open spec fn layer_ids(layers: Seq<LayerView>, n: nat) -> Seq<u32> {
    Seq::new(n, |i: int| layer_id(layers, i as nat))
}

/// Where the first `n` layers go.
pub open spec fn layer_offsets(layers: Seq<LayerView>, n: nat) -> Seq<(i32, i32)> {
    Seq::new(n, |i: int| (layers[i].offset_x, layers[i].offset_y))
}

/// The file with the overlay alone, item 1.
pub open spec fn canvas_plan(m: OverlayMuxerView) -> FilePlan {
    FilePlan {
        brands: Some((BRAND_AVIF, still_codes(m.profile_brand))),
        ..empty_plan()
    }.with_item(
        ItemPlan {
            item_type: ITEM_TYPE_IOVL,
            content_type: None,
            hidden: false,
            body: BodyPlan::Descriptor(
                overlay_body(
                    m.fill,
                    m.output_width,
                    m.output_height,
                    layer_offsets(m.layers, m.layers.len()),
                ),
            ),
            properties: overlay_props(m),
        },
    ).with_reference(DIMG, 1, layer_ids(m.layers, m.layers.len()))
}

/// Then its layers. The primary item is the overlay.
pub open spec fn overlay_plan(m: OverlayMuxerView) -> FilePlan {
    FilePlan {
        primary: Some(1),
        ..with_layers(canvas_plan(m), m.layers, m.layers.len())
    }
}

/// There are at least as many coded items as layers, and at most twice
/// as many.
pub proof fn lemma_coded_count(layers: Seq<LayerView>, i: nat, n: nat)
    requires
        i <= n,
    ensures
        coded_count(layers, i) + (n - i) <= coded_count(layers, n) <= coded_count(layers, i) + 2 * (
        n - i),
    decreases n - i,
{
    if i < n {
        lemma_coded_count(layers, i, (n - 1) as nat);
    }
}

/// How many items the first layers make.
proof fn lemma_layers_len(plan: FilePlan, layers: Seq<LayerView>, n: nat)
    ensures
        with_layers(plan, layers, n).items.len() == plan.items.len() + coded_count(layers, n),
        with_layers(plan, layers, n).brands == plan.brands,
    decreases n,
{
    if n > 0 {
        lemma_layers_len(plan, layers, (n - 1) as nat);
    }
}

proof fn lemma_layer_props(l: LayerView)
    ensures
        2 <= layer_props(l).len() <= 5,
        layer_props(l)[0].box_type == AV1C,
        layer_props(l)[1].box_type == ISPE,
        3 <= alpha_props(l).len() <= 5,
        alpha_props(l)[0].box_type == AV1C,
        alpha_props(l)[1].box_type == ISPE,
        names_auxiliary(alpha_props(l)),
{
    assert(alpha_props(l)[2].box_type == AUXC);
}

/// Layers keep a file on its way.
proof fn lemma_grow_layers(
    plan: FilePlan,
    ids: nat,
    props: nat,
    layers: Seq<LayerView>,
    n: nat,
)
    requires
        growing(plan, ids, props),
        plan.items.len() + coded_count(layers, n) <= ids,
        n <= layers.len(),
    ensures
        growing(with_layers(plan, layers, n), ids, props + layers_props(layers, n)),
    decreases n,
{
    if n > 0 {
        let k = (n - 1) as nat;
        lemma_grow_layers(plan, ids, props, layers, k);
        lemma_layers_len(plan, layers, k);
        let before = with_layers(plan, layers, k);
        let l = layers[n - 1];
        let p0 = props + layers_props(layers, k);
        lemma_layer_props(l);
        lemma_coded_complete(layer_item(l));
        lemma_grow_item(before, ids, p0, layer_item(l));
        if l.alpha is Some {
            let with = before.with_item(layer_item(l));
            let p1 = p0 + layer_props(l).len();
            let both = with_auxiliary(
                with,
                before.next_id(),
                ITEM_TYPE_AV01,
                l.alpha_payload(),
                alpha_props(l),
            );
            let item = both.items.last();
            lemma_coded_complete(item);
            lemma_grow_item(with, ids, p1, item);
            let p2 = p1 + alpha_props(l).len();
            lemma_grow_reference(
                with.with_item(item),
                ids,
                p2,
                crate::container::AUXL,
                with.next_id(),
                seq![before.next_id()],
            );
            assert(growing(both, ids, p2));
            if l.premultiplied {
                lemma_grow_reference(
                    both,
                    ids,
                    p2,
                    PREM,
                    before.next_id(),
                    seq![with.next_id()],
                );
            }
        }
    }
}

proof fn lemma_overlay_props(m: OverlayMuxerView)
    ensures
        1 <= overlay_props(m).len() <= 5,
        overlay_props(m)[0].box_type == ISPE,
{
}

/// Whether the properties that the file stores can be numbered in 16
/// bits, as those of at most 6553 layers always can.
pub open spec fn overlay_countable(m: OverlayMuxerView) -> bool {
    ||| m.layers.len() <= 6553
    ||| overlay_plan(m).stored_count() <= 0xffff
}

/// A layer and its alpha auxiliary have at most ten properties.
proof fn lemma_few_props(layers: Seq<LayerView>, n: nat)
    ensures
        layers_props(layers, n) <= 10 * n,
    decreases n,
{
    if n > 0 {
        lemma_few_props(layers, (n - 1) as nat);
        lemma_layer_props(layers[n - 1]);
    }
}

/// The file can be written.
pub proof fn lemma_overlay_valid(m: OverlayMuxerView)
    requires
        overlay_fault(m) is None,
        overlay_countable(m),
    ensures
        overlay_plan(m).valid(),
        overlay_plan(m).stored_count() <= 5 + 10 * m.layers.len(),
{
    let n = m.layers.len();
    let ids: nat = 1 + coded_count(m.layers, n);
    lemma_coded_count(m.layers, 0, n);
    lemma_overlay_props(m);
    let start = FilePlan {
        brands: Some((BRAND_AVIF, still_codes(m.profile_brand))),
        ..empty_plan()
    };
    assert(growing(start, ids, 0));
    let canvas = canvas_plan(m);
    let item = canvas.items[0];
    assert(ITEM_TYPE_IOVL[0] == 0x69);
    lemma_derived_complete(item);
    lemma_grow_item(start, ids, 0, item);
    let to = layer_ids(m.layers, n);
    assert forall|j: int| 0 <= j < to.len() implies 1 <= #[trigger] to[j] <= ids by {
        lemma_coded_count(m.layers, j as nat, n);
    }
    let e = IrefView { reference_type: DIMG, from_id: 1, to_ids: to };
    assert(leads_to(e, ids));
    lemma_grow_reference(start.with_item(item), ids, overlay_props(m).len(), DIMG, 1, to);
    assert(start.with_item(item).with_reference(DIMG, 1, to) == canvas);
    lemma_grow_layers(canvas, ids, overlay_props(m).len(), m.layers, n);
    lemma_layers_len(canvas, m.layers, n);
    let all = with_layers(canvas, m.layers, n);
    lemma_few_props(m.layers, n);
    lemma_stored(all.items, all.items.len());
    lemma_grown(all, ids, overlay_props(m).len() + layers_props(m.layers, n), 1);
}

proof fn lemma_overlay_props_readable(m: OverlayMuxerView)
    requires
        !(m.colr matches Some(ColrView::Unknown(_))),
    ensures
        readable_list(overlay_props(m)),
{
    let ispe = PropertyView::Ispe(Ispe { width: m.output_width, height: m.output_height });
    lemma_readable_one(ispe, false);
    let s0 = seq![prop(ispe, false)];
    lemma_readable_opt(as_pixi(m.pixi), false);
    let s1 = s0 + opt_prop(as_pixi(m.pixi), false);
    lemma_readable_add(s0, opt_prop(as_pixi(m.pixi), false));
    lemma_readable_opt(as_colr(m.colr), false);
    let s2 = s1 + opt_prop(as_colr(m.colr), false);
    lemma_readable_add(s1, opt_prop(as_colr(m.colr), false));
    lemma_readable_opt(as_irot(m.irot), true);
    let s3 = s2 + opt_prop(as_irot(m.irot), true);
    lemma_readable_add(s2, opt_prop(as_irot(m.irot), true));
    lemma_readable_opt(as_imir(m.imir), true);
    let s4 = s3 + opt_prop(as_imir(m.imir), true);
    lemma_readable_add(s3, opt_prop(as_imir(m.imir), true));
}

proof fn lemma_layer_props_readable(l: LayerView)
    requires
        !(l.colr matches Some(ColrView::Unknown(_))),
    ensures
        readable_list(layer_props(l)),
        readable_list(alpha_props(l)),
{
    let record = PropertyView::Av1C(l.av1c);
    let ispe = PropertyView::Ispe(Ispe { width: l.width, height: l.height });
    lemma_readable_one(record, true);
    lemma_readable_one(ispe, false);
    lemma_readable_add(seq![prop(record, true)], seq![prop(ispe, false)]);
    let s0 = seq![prop(record, true), prop(ispe, false)];
    assert(seq![prop(record, true)] + seq![prop(ispe, false)] =~= s0);
    lemma_readable_opt(as_pixi(l.pixi), false);
    let s1 = s0 + opt_prop(as_pixi(l.pixi), false);
    lemma_readable_add(s0, opt_prop(as_pixi(l.pixi), false));
    lemma_readable_opt(as_colr(l.colr), false);
    let s2 = s1 + opt_prop(as_colr(l.colr), false);
    lemma_readable_add(s1, opt_prop(as_colr(l.colr), false));
    lemma_readable_opt(as_clap(l.clap), true);
    let s3 = s2 + opt_prop(as_clap(l.clap), true);
    lemma_readable_add(s2, opt_prop(as_clap(l.clap), true));
    let other = PropertyView::Av1C(l.alpha_record());
    let aux = aux_type(ALPHA_URN_PREFIX@);
    lemma_alpha_urn();
    lemma_readable_one(other, true);
    lemma_readable_one(aux, false);
    lemma_readable_add(seq![prop(other, true)], seq![prop(ispe, false)]);
    let t0 = seq![prop(other, true)] + seq![prop(ispe, false)];
    lemma_readable_add(t0, seq![prop(aux, false)]);
    let t1 = seq![prop(other, true), prop(ispe, false), prop(aux, false)];
    assert(t0 + seq![prop(aux, false)] =~= t1);
    lemma_readable_opt(as_pixi(l.alpha_pixi), false);
    lemma_readable_add(t1, opt_prop(as_pixi(l.alpha_pixi), false));
    lemma_readable_add(
        t1 + opt_prop(as_pixi(l.alpha_pixi), false),
        opt_prop(as_clap(l.clap), true),
    );
}

/// A layer that is not refused has a colour description that can be
/// written, and records that can.
proof fn lemma_layer_accepted(layers: Seq<LayerView>, i: int, j: int)
    requires
        0 <= i <= j < layers.len(),
        layers_fault(layers, i) is None,
    ensures
        layer_fault(layers[j], j) is None,
    decreases j - i,
{
    if i < j {
        lemma_layer_accepted(layers, i + 1, j);
    }
}

/// Layers can be read.
proof fn lemma_readable_layers(plan: FilePlan, layers: Seq<LayerView>, n: nat)
    requires
        readable_items(plan.items),
        n <= layers.len(),
        layers_fault(layers, 0) is None,
    ensures
        readable_items(with_layers(plan, layers, n).items),
    decreases n,
{
    if n > 0 {
        let k = (n - 1) as nat;
        lemma_readable_layers(plan, layers, k);
        let l = layers[n - 1];
        lemma_layer_accepted(layers, 0, n - 1);
        lemma_layer_props_readable(l);
        let before = with_layers(plan, layers, k);
        lemma_readable_item(before, layer_item(l));
        if l.alpha is Some {
            let with = before.with_item(layer_item(l));
            let next = with_layer(before, l);
            lemma_readable_item(with, next.items.last());
            assert(next.items =~= with.with_item(next.items.last()).items);
        }
    }
}

/// The file can be read.
pub proof fn lemma_overlay_readable(m: OverlayMuxerView)
    requires
        overlay_fault(m) is None,
    ensures
        overlay_plan(m).readable(),
{
    let start = FilePlan {
        brands: Some((BRAND_AVIF, still_codes(m.profile_brand))),
        ..empty_plan()
    };
    lemma_overlay_props_readable(m);
    let canvas = canvas_plan(m);
    lemma_readable_item(start, canvas.items[0]);
    assert(canvas.items =~= start.with_item(canvas.items[0]).items);
    lemma_readable_layers(canvas, m.layers, m.layers.len());
    lemma_layers_len(canvas, m.layers, m.layers.len());
    lemma_readable_plan(overlay_plan(m), m.profile_brand);
}

/// The ids of the layers.
fn ids_of_layers(layers: &Vec<OverlayLayer>) -> (r: Vec<u32>)
    requires
        coded_count(views(layers@), layers@.len()) <= MOST_LAYERS,
    ensures
        r@ == layer_ids(views(layers@), layers@.len()),
{
    let mut out: Vec<u32> = Vec::new();
    let mut next: u32 = 2;
    let mut i: usize = 0;
    while i < layers.len()
        invariant
            i <= layers@.len(),
            coded_count(views(layers@), layers@.len()) <= MOST_LAYERS,
            next == 2 + coded_count(views(layers@), i as nat),
            out@ == layer_ids(views(layers@), i as nat),
        decreases layers@.len() - i,
    {
        proof {
            lemma_coded_count(views(layers@), (i + 1) as nat, layers@.len());
            assert(views(layers@)[i as int] == layers@[i as int]@);
        }
        out.push(next);
        if layers[i].alpha.is_some() {
            next = next + 2;
        } else {
            next = next + 1;
        }
        proof {
            assert(out@ =~= layer_ids(views(layers@), (i + 1) as nat));
        }
        i = i + 1;
    }
    out
}

/// Where the layers go.
fn offsets_of_layers(layers: &Vec<OverlayLayer>) -> (r: Vec<(i32, i32)>)
    ensures
        r@ == layer_offsets(views(layers@), layers@.len()),
{
    let mut out: Vec<(i32, i32)> = Vec::new();
    let mut i: usize = 0;
    while i < layers.len()
        invariant
            i <= layers@.len(),
            out@ == layer_offsets(views(layers@), i as nat),
        decreases layers@.len() - i,
    {
        out.push((layers[i].offset_x, layers[i].offset_y));
        proof {
            assert(views(layers@)[i as int] == layers@[i as int]@);
            assert(out@ =~= layer_offsets(views(layers@), (i + 1) as nat));
        }
        i = i + 1;
    }
    out
}

/// The name of layer `i`, and of its alpha auxiliary.
fn layer_name(i: usize, alpha: bool) -> (r: String)
    ensures
        r@ == "overlay layer "@ + dec(i as nat) + (if alpha {
            " alpha "@
        } else {
            " "@
        }),
{
    let mut s = "overlay layer ".to_string();
    push_dec(&mut s, i as u64);
    if alpha {
        s.append(" alpha ");
    } else {
        s.append(" ");
    }
    s
}

impl OverlayLayer {
    /// The properties of layer `i`.
    fn props(&self, i: usize) -> (r: Result<Vec<Prop>, AvifError>)
        ensures
            match r {
                Ok(props) => {
                    &&& queued(props@) == layer_props(self@)
                    &&& record_fault(self@.av1c, "overlay layer "@ + dec(i as nat) + " "@) is None
                    &&& opt_colr_fault(self@.colr) is None
                },
                Err(e) => either(
                    record_fault(self@.av1c, "overlay layer "@ + dec(i as nat) + " "@),
                    opt_colr_fault(self@.colr),
                ) == Some(e@),
            },
    {
        let name = layer_name(i, false);
        let mut props = list_of(prop_av1c(self.av1c.as_slice(), name.as_str())?);
        push_prop(&mut props, prop_ispe(self.width, self.height));
        proof {
            assert(queued(props@) =~= seq![
                prop(PropertyView::Av1C(self@.av1c), true),
                prop(
                    PropertyView::Ispe(Ispe { width: self@.width, height: self@.height }),
                    false,
                ),
            ]);
        }
        push_pixi(&mut props, &self.pixi);
        push_colr(&mut props, &self.colr)?;
        push_clap(&mut props, self.clap);
        Ok(props)
    }

    /// The properties of the alpha auxiliary of layer `i`.
    fn alpha_props(&self, record: &Vec<u8>, i: usize) -> (r: Result<Vec<Prop>, AvifError>)
        requires
            self@.alpha is Some,
            self@.alpha_record() == record@,
        ensures
            match r {
                Ok(props) => {
                    &&& queued(props@) == alpha_props(self@)
                    &&& record_fault(
                        record@,
                        "overlay layer "@ + dec(i as nat) + " alpha "@,
                    ) is None
                },
                Err(e) => record_fault(
                    record@,
                    "overlay layer "@ + dec(i as nat) + " alpha "@,
                ) == Some(e@),
            },
    {
        let name = layer_name(i, true);
        let mut props = list_of(prop_av1c(record.as_slice(), name.as_str())?);
        push_prop(&mut props, prop_ispe(self.width, self.height));
        push_prop(&mut props, prop_auxc(ALPHA_URN_PREFIX));
        proof {
            assert(queued(props@) =~= seq![
                prop(PropertyView::Av1C(self@.alpha_record()), true),
                prop(
                    PropertyView::Ispe(Ispe { width: self@.width, height: self@.height }),
                    false,
                ),
                prop(aux_type(ALPHA_URN_PREFIX@), false),
            ]);
        }
        push_pixi(&mut props, &self.alpha_pixi);
        push_clap(&mut props, self.clap);
        Ok(props)
    }

    /// Refuse layer `i` if it cannot be written.
    fn check(&self, i: usize) -> (r: Result<(), AvifError>)
        ensures
            match r {
                Ok(_) => layer_fault(self@, i as int) is None,
                Err(e) => layer_fault(self@, i as int) == Some(e@),
            },
    {
        let _props = self.props(i)?;
        match &self.alpha {
            Some((_, record)) => {
                let _props = self.alpha_props(record, i)?;
                Ok(())
            },
            None => Ok(()),
        }
    }

    /// Queue layer `i`, hidden, and its alpha auxiliary.
    fn queue(&self, w: &mut HeifWriter, i: usize, want: u32) -> (r: Result<(), AvifError>)
        requires
            plan_of(*old(w)).items.len() < 0xffff_fffd,
            want == plan_of(*old(w)).next_id(),
            layer_fault(self@, i as int) is None,
        ensures
            r is Ok,
            plan_of(*final(w)) == with_layer(plan_of(*old(w)), self@),
    {
        let props = self.props(i)?;
        proof {
            lemma_layer_props(self@);
            lemma_queued_hidden(
                plan_of(*w),
                ItemPlan { hidden: false, ..layer_item(self@) },
            );
        }
        let id: u32 = w.add_coded_item(ITEM_TYPE_AV01, slice_to_vec(self.payload.as_slice()), props);
        expect_id(id, want, "overlay layer")?;
        w.set_hidden(id, true);
        match &self.alpha {
            Some((payload, record)) => {
                let props = self.alpha_props(record, i)?;
                let alpha_id: u32 = w.add_alpha(
                    id,
                    ITEM_TYPE_AV01,
                    slice_to_vec(payload.as_slice()),
                    props,
                    self.premultiplied,
                );
                proof {
                    lemma_hidden_already(plan_of(*w), alpha_id);
                }
                w.set_hidden(alpha_id, true);
            },
            None => {},
        }
        Ok(())
    }
}

impl AvifOverlayMuxer {
    /// A canvas of this size, filled with opaque black.
    pub fn new(output_width: u32, output_height: u32) -> (r: AvifOverlayMuxer)
        ensures
            r@ == plain_overlay(output_width, output_height),
    {
        let r = AvifOverlayMuxer {
            output_width,
            output_height,
            fill: [0u16, 0u16, 0u16, 65535u16],
            layers: Vec::new(),
            pixi: None,
            colr: None,
            irot: None,
            imir: None,
            profile_brand: ProfileBrand::Baseline,
        };
        proof {
            assert(r@ =~= plain_overlay(output_width, output_height));
        }
        r
    }

    /// One more layer, above those before it.
    pub fn layer(self, layer: OverlayLayer) -> (r: AvifOverlayMuxer)
        ensures
            r@ == (OverlayMuxerView { layers: self@.layers.push(layer@), ..self@ }),
    {
        let mut r = self;
        proof {
            lemma_views_push(r.layers@, layer);
        }
        r.layers.push(layer);
        r
    }

    /// The red, green, blue and alpha of the canvas.
    pub fn with_fill(self, rgba: [u16; 4]) -> (r: AvifOverlayMuxer)
        ensures
            r@ == (OverlayMuxerView { fill: rgba, ..self@ }),
    {
        let mut r = self;
        r.fill = rgba;
        r
    }

    /// The bits per channel of the overlay.
    pub fn with_pixi(self, bits: Vec<u8>) -> (r: AvifOverlayMuxer)
        ensures
            r@ == (OverlayMuxerView { pixi: Some(bits@), ..self@ }),
    {
        let mut r = self;
        r.pixi = Some(bits);
        r
    }

    /// The colour description of the overlay.
    pub fn with_colr(self, colr: Colr) -> (r: AvifOverlayMuxer)
        ensures
            r@ == (OverlayMuxerView { colr: Some(colr@), ..self@ }),
    {
        let mut r = self;
        r.colr = Some(colr);
        r
    }

    /// The rotation of the overlay, in quarter turns; two bits of it count.
    pub fn with_irot(self, angle: u8) -> (r: AvifOverlayMuxer)
        ensures
            r@ == (OverlayMuxerView { irot: Some(Irot { angle: (angle % 4) as u8 }), ..self@ }),
    {
        let mut r = self;
        r.irot = Some(Irot { angle: angle % 4 });
        r
    }

    /// The mirror axis of the overlay; one bit of it counts.
    pub fn with_imir(self, axis: u8) -> (r: AvifOverlayMuxer)
        ensures
            r@ == (OverlayMuxerView { imir: Some(Imir { axis: (axis % 2) as u8 }), ..self@ }),
    {
        let mut r = self;
        r.imir = Some(Imir { axis: axis % 2 });
        r
    }

    /// The Advanced profile brand in place of the Baseline one.
    pub fn advanced_profile(self) -> (r: AvifOverlayMuxer)
        ensures
            r@ == (OverlayMuxerView { profile_brand: ProfileBrand::Advanced, ..self@ }),
    {
        let mut r = self;
        r.profile_brand = ProfileBrand::Advanced;
        r
    }

    /// No profile brand.
    pub fn no_profile_brand(self) -> (r: AvifOverlayMuxer)
        ensures
            r@ == (OverlayMuxerView { profile_brand: ProfileBrand::Bare, ..self@ }),
    {
        let mut r = self;
        r.profile_brand = ProfileBrand::Bare;
        r
    }

    /// The properties of the overlay.
    fn props(&self) -> (r: Result<Vec<Prop>, AvifError>)
        ensures
            match r {
                Ok(props) => opt_colr_fault(self@.colr) is None && queued(props@)
                    == overlay_props(self@),
                Err(e) => opt_colr_fault(self@.colr) == Some(e@),
            },
    {
        let mut props = list_of(prop_ispe(self.output_width, self.output_height));
        push_pixi(&mut props, &self.pixi);
        push_colr(&mut props, &self.colr)?;
        push_irot(&mut props, self.irot);
        push_imir(&mut props, self.imir);
        Ok(props)
    }

    /// Refuse the first layer that cannot be written.
    fn check_layers(&self) -> (r: Result<(), AvifError>)
        ensures
            match r {
                Ok(_) => layers_fault(self@.layers, 0) is None,
                Err(e) => layers_fault(self@.layers, 0) == Some(e@),
            },
    {
        let mut i: usize = 0;
        while i < self.layers.len()
            invariant
                i <= self.layers@.len(),
                layers_fault(views(self.layers@), i as int) == layers_fault(self@.layers, 0),
            decreases self.layers@.len() - i,
        {
            proof {
                assert(views(self.layers@)[i as int] == self.layers@[i as int]@);
            }
            self.layers[i].check(i)?;
            i = i + 1;
        }
        Ok(())
    }

    /// Whether there are more coded items than a file takes.
    fn is_crowded(&self) -> (r: bool)
        ensures
            r == (crowded(self@) is Some),
    {
        let mut coded: usize = 0;
        let mut i: usize = 0;
        while i < self.layers.len()
            invariant
                i <= self.layers@.len(),
                coded == coded_count(views(self.layers@), i as nat),
                coded <= MOST_LAYERS,
            decreases self.layers@.len() - i,
        {
            proof {
                assert(views(self.layers@)[i as int] == self.layers@[i as int]@);
                lemma_coded_count(views(self.layers@), (i + 1) as nat, self.layers@.len());
            }
            coded = coded + 1;
            if self.layers[i].alpha.is_some() {
                coded = coded + 1;
            }
            if coded > MOST_LAYERS {
                return true;
            }
            i = i + 1;
        }
        false
    }

    /// Queue the layers.
    fn queue_layers(&self, w: &mut HeifWriter, ids: &Vec<u32>) -> (r: Result<(), AvifError>)
        requires
            plan_of(*old(w)).items.len() == 1,
            ids@ == layer_ids(self@.layers, self@.layers.len()),
            layers_fault(self@.layers, 0) is None,
            crowded(self@) is None,
        ensures
            r is Ok,
            plan_of(*final(w)) == with_layers(
                plan_of(*old(w)),
                self@.layers,
                self@.layers.len(),
            ),
    {
        let ghost before = plan_of(*w);
        let ghost all = self@.layers;
        let mut i: usize = 0;
        while i < self.layers.len()
            invariant
                i <= self.layers@.len(),
                all == views(self.layers@),
                before.items.len() == 1,
                ids@ == layer_ids(all, all.len()),
                layers_fault(all, 0) is None,
                coded_count(all, all.len()) <= MOST_LAYERS,
                plan_of(*w) == with_layers(before, all, i as nat),
            decreases self.layers@.len() - i,
        {
            proof {
                lemma_layers_len(before, all, i as nat);
                lemma_coded_count(all, i as nat, all.len());
                lemma_layer_accepted(all, 0, i as int);
                assert(all[i as int] == self.layers@[i as int]@);
            }
            self.layers[i].queue(w, i, ids[i])?;
            i = i + 1;
        }
        Ok(())
    }

    /// Write the file. It reads back: its brands, its items with their
    /// properties and their bytes, its references and its primary item
    /// are those of the plan. A file is written exactly when the number
    /// of the properties that it stores fits 15 bits, so with at most
    /// 3000 layers always; that number must fit 16 bits where nothing
    /// else is wrong.
    pub fn build(self) -> (r: Result<Vec<u8>, AvifError>)
        requires
            overlay_fault(self@) is Some || overlay_countable(self@),
        ensures
            match overlay_fault(self@) {
                Some(f) => outcome_view(r) == Err::<Seq<u8>, Fault>(f),
                None => {
                    &&& outcome_view(r) == written(overlay_plan(self@))
                    &&& r is Ok <==> overlay_plan(self@).stored_count() <= MOST_STORED
                    &&& self@.layers.len() <= 3000 ==> r is Ok
                    &&& r matches Err(e) ==> e@ == overfull()
                    &&& r is Ok ==> reads_back(r->Ok_0@, overlay_plan(self@))
                },
            },
    {
        let ghost m = self@;
        if self.layers.len() == 0 {
            return Err(AvifError::invalid("avif mux: overlay needs at least one layer"));
        }
        if self.output_width == 0 || self.output_height == 0 {
            return Err(AvifError::invalid("avif mux: overlay canvas dimensions zero"));
        }
        let props = self.props()?;
        self.check_layers()?;
        if self.is_crowded() {
            return Err(AvifError::invalid("more than 32767 properties"));
        }
        let (major, compat) = still_brands(self.profile_brand);
        let mut w = HeifWriter::new().with_brands(major, compat);
        let ids = ids_of_layers(&self.layers);
        let offsets = offsets_of_layers(&self.layers);
        proof {
            lemma_overlay_props(m);
            assert(queued(props@)[0].box_type == ISPE);
        }
        let overlay_id: u32 = match add_overlay(
            &mut w,
            self.fill,
            self.output_width,
            self.output_height,
            offsets,
            &ids,
            props,
        ) {
            Ok(id) => id,
            Err(s) => {
                return Err(AvifError::InvalidData(s));
            },
        };
        expect_id(overlay_id, 1, "overlay")?;
        proof {
            assert(plan_of(w) == canvas_plan(m));
        }
        self.queue_layers(&mut w, &ids)?;
        w.set_primary(overlay_id);
        proof {
            lemma_overlay_valid(m);
            lemma_overlay_readable(m);
            assert(plan_of(w) == overlay_plan(m));
        }
        write_file(&w)
    }
}

} // verus!
