//! Writing AVIF files whose primary item is a grid of coded tiles.

use crate::alpha::ALPHA_URN_PREFIX;
use crate::container::{
    add_grid, empty_plan, grid_body, lemma_stored, overfull, plan_of, queued, reads_back,
    write_file, written, BodyPlan, FilePlan, ItemPlan, PropPlan, AUXL, DIMG, MOST_STORED, PREM,
};
use crate::error::{lemma_views_push, outcome_view, text_nnn, views, AvifError, Fault};
use crate::lookup::opt_colr;
use crate::meta::opt_bytes;
use crate::meta_parse::IrefView;
use crate::mux::{
    either, lemma_coded_complete, lemma_derived_complete, lemma_grow_described,
    lemma_readable_described, lemma_readable_item, lemma_readable_plan, readable_items,
};
use crate::mux_items::{
    add_exif_item, add_xmp_item, as_amve, as_clli, check_metadata, as_colr, as_imir, as_irot,
    as_mdcv, as_pasp, as_pixi, exif_fault, expect_id, growing, leads_to, lemma_grow_ids,
    lemma_grow_item, lemma_grow_reference, lemma_grown, list_of, opt_colr_fault, push_amve,
    push_clli, push_colr, push_imir, push_irot, push_mdcv, push_pasp, push_pixi, with_exif,
    with_xmp, xmp_fault,
};
use crate::mux_props::{
    aux_type, opt_prop, prop, prop_auxc, prop_av1c, prop_ispe, push_prop, record_fault,
    still_brands, still_codes, ProfileBrand, Prop,
};
use crate::parser::{BRAND_AVIF, ITEM_TYPE_AV01, ITEM_TYPE_GRID};
use crate::property_laws::{
    lemma_alpha_urn, lemma_readable_add, lemma_readable_one, lemma_readable_opt, readable_list,
};
use crate::props::{
    Amve, Clli, Colr, ColrView, Imir, Irot, Ispe, Mdcv, Pasp, PropertyView, AV1C, ISPE,
};
use crate::text::{dec, push_dec};
use oxideav_heif::HeifWriter;
use vstd::prelude::*;
use vstd::slice::slice_to_vec;

verus! {

/// One coded tile of a grid.
pub struct GridTile {
    /// Width in pixels.
    pub width: u32,
    /// Height in pixels.
    pub height: u32,
    /// Coded bytes.
    pub payload: Vec<u8>,
    /// Configuration record.
    pub av1c: Vec<u8>,
}

/// A [`GridTile`] as contracts speak of it.
#[verifier::ext_equal]
pub struct TileView {
    /// Width in pixels.
    pub width: u32,
    /// Height in pixels.
    pub height: u32,
    /// Coded bytes.
    pub payload: Seq<u8>,
    /// Configuration record.
    pub av1c: Seq<u8>,
}

impl View for GridTile {
    type V = TileView;

    open spec fn view(&self) -> TileView {
        TileView {
            width: self.width,
            height: self.height,
            payload: self.payload@,
            av1c: self.av1c@,
        }
    }
}

/// A file whose primary item is a grid of hidden tiles, with an alpha
/// grid of the same shape where there are alpha tiles.
pub struct AvifGridMuxer {
    rows: u16,
    columns: u16,
    output_width: u32,
    output_height: u32,
    tiles: Vec<GridTile>,
    pixi: Option<Vec<u8>>,
    colr: Option<Colr>,
    pasp: Option<Pasp>,
    irot: Option<Irot>,
    imir: Option<Imir>,
    mdcv: Option<Mdcv>,
    clli: Option<Clli>,
    amve: Option<Amve>,
    exif: Option<Vec<u8>>,
    xmp: Option<Vec<u8>>,
    alpha_tiles: Vec<GridTile>,
    alpha_pixi: Option<Vec<u8>>,
    premultiplied: bool,
    profile_brand: ProfileBrand,
}

/// An [`AvifGridMuxer`] as contracts speak of it.
#[verifier::ext_equal]
pub struct GridMuxerView {
    /// Rows of tiles.
    pub rows: u16,
    /// Columns of tiles.
    pub columns: u16,
    /// Width of the image.
    pub output_width: u32,
    /// Height of the image.
    pub output_height: u32,
    /// Colour tiles, in reading order.
    pub tiles: Seq<TileView>,
    /// Bits per channel.
    pub pixi: Option<Seq<u8>>,
    /// Colour description.
    pub colr: Option<ColrView>,
    /// Pixel aspect ratio.
    pub pasp: Option<Pasp>,
    /// Rotation.
    pub irot: Option<Irot>,
    /// Mirror.
    pub imir: Option<Imir>,
    /// Mastering display.
    pub mdcv: Option<Mdcv>,
    /// Content light level.
    pub clli: Option<Clli>,
    /// Ambient viewing environment.
    pub amve: Option<Amve>,
    /// Exif item body.
    pub exif: Option<Seq<u8>>,
    /// XMP packet.
    pub xmp: Option<Seq<u8>>,
    /// Alpha tiles, in reading order.
    pub alpha_tiles: Seq<TileView>,
    /// Bits per channel of the alpha grid.
    pub alpha_pixi: Option<Seq<u8>>,
    /// Whether the colours are premultiplied by the alpha grid.
    pub premultiplied: bool,
    /// Profile brand.
    pub profile_brand: ProfileBrand,
}

impl View for AvifGridMuxer {
    type V = GridMuxerView;

    closed spec fn view(&self) -> GridMuxerView {
        GridMuxerView {
            rows: self.rows,
            columns: self.columns,
            output_width: self.output_width,
            output_height: self.output_height,
            tiles: views(self.tiles@),
            pixi: opt_bytes(self.pixi),
            colr: opt_colr(self.colr),
            pasp: self.pasp,
            irot: self.irot,
            imir: self.imir,
            mdcv: self.mdcv,
            clli: self.clli,
            amve: self.amve,
            exif: opt_bytes(self.exif),
            xmp: opt_bytes(self.xmp),
            alpha_tiles: views(self.alpha_tiles@),
            alpha_pixi: opt_bytes(self.alpha_pixi),
            premultiplied: self.premultiplied,
            profile_brand: self.profile_brand,
        }
    }
}

/// A grid without tiles and nothing else said of it.
pub open spec fn plain_grid(
    rows: u16,
    columns: u16,
    output_width: u32,
    output_height: u32,
) -> GridMuxerView {
    GridMuxerView {
        rows,
        columns,
        output_width,
        output_height,
        tiles: Seq::empty(),
        pixi: None,
        colr: None,
        pasp: None,
        irot: None,
        imir: None,
        mdcv: None,
        clli: None,
        amve: None,
        exif: None,
        xmp: None,
        alpha_tiles: Seq::empty(),
        alpha_pixi: None,
        premultiplied: false,
        profile_brand: ProfileBrand::Baseline,
    }
}

/// Most tiles, of both grids, that a file takes: each has a decoder
/// configuration of its own, and a file has at most 32767 properties.
pub const MOST_TILES: usize = 32766;

/// The fault of a grid that lacks tiles or has too many.
pub open spec fn count_fault(m: GridMuxerView, grid: Seq<char>, got: nat) -> Fault {
    Fault::Invalid(
        "avif mux: "@ + dec(m.rows as nat) + "×"@ + dec(m.columns as nat) + grid + dec(
            (m.rows * m.columns) as nat,
        ) + " tiles, got "@ + dec(got),
    )
}

/// Why the first of the tiles from place `i` on that is refused is
/// refused, if one is.
pub open spec fn tiles_fault(tiles: Seq<TileView>, alpha: bool, i: int) -> Option<Fault>
    decreases tiles.len() - i,
{
    if i < 0 || i >= tiles.len() {
        None
    } else {
        let what = if alpha {
            "alpha grid tile "@ + dec(i as nat) + " "@
        } else {
            "grid tile "@
        };
        either(record_fault(tiles[i].av1c, what), tiles_fault(tiles, alpha, i + 1))
    }
}

/// Why the tiles are too few or too many, if they are.
pub open spec fn shape_fault(m: GridMuxerView) -> Option<Fault> {
    if m.tiles.len() != m.rows * m.columns {
        Some(count_fault(m, " grid needs "@, m.tiles.len()))
    } else if m.tiles.len() == 0 {
        Some(Fault::Invalid("avif mux: grid needs at least one tile"@))
    } else if m.alpha_tiles.len() > 0 && m.alpha_tiles.len() != m.rows * m.columns {
        Some(count_fault(m, " alpha grid needs "@, m.alpha_tiles.len()))
    } else {
        None
    }
}

/// The fault of a file with more tiles than it takes.
pub open spec fn crowded(m: GridMuxerView) -> Option<Fault> {
    if m.tiles.len() + m.alpha_tiles.len() > MOST_TILES {
        Some(overfull())
    } else {
        None
    }
}

/// Why the file is refused before it is written, if it is.
pub open spec fn grid_fault(m: GridMuxerView) -> Option<Fault> {
    either(
        shape_fault(m),
        either(
            opt_colr_fault(m.colr),
            either(
                tiles_fault(m.tiles, false, 0),
                either(
                    tiles_fault(m.alpha_tiles, true, 0),
                    either(exif_fault(m.exif), either(xmp_fault(m.xmp), crowded(m))),
                ),
            ),
        ),
    )
}

/// The properties of the grid.
pub open spec fn grid_props(m: GridMuxerView) -> Seq<PropPlan> {
    seq![
        prop(
            PropertyView::Ispe(Ispe { width: m.output_width, height: m.output_height }),
            false,
        ),
    ] + opt_prop(as_pixi(m.pixi), false) + opt_prop(as_colr(m.colr), false) + opt_prop(
        as_pasp(m.pasp),
        false,
    ) + opt_prop(as_mdcv(m.mdcv), false) + opt_prop(as_clli(m.clli), false) + opt_prop(
        as_amve(m.amve),
        false,
    ) + opt_prop(as_irot(m.irot), true) + opt_prop(as_imir(m.imir), true)
}

/// The properties of the alpha grid.
pub open spec fn alpha_grid_props(m: GridMuxerView) -> Seq<PropPlan> {
    seq![
        prop(
            PropertyView::Ispe(Ispe { width: m.output_width, height: m.output_height }),
            false,
        ),
        prop(aux_type(ALPHA_URN_PREFIX@), false),
    ] + opt_prop(as_pixi(m.alpha_pixi), false)
}

/// The properties of a tile.
pub open spec fn tile_props(t: TileView) -> Seq<PropPlan> {
    seq![
        prop(PropertyView::Av1C(t.av1c), true),
        prop(PropertyView::Ispe(Ispe { width: t.width, height: t.height }), false),
    ]
}

/// A tile as an item.
pub open spec fn tile_item(t: TileView) -> ItemPlan {
    ItemPlan {
        item_type: ITEM_TYPE_AV01,
        content_type: None,
        hidden: true,
        body: BodyPlan::Coded(t.payload),
        properties: tile_props(t),
    }
}

/// A file with the first `n` tiles.
pub open spec fn with_tiles(plan: FilePlan, tiles: Seq<TileView>, n: nat) -> FilePlan
    decreases n,
{
    if n == 0 {
        plan
    } else {
        with_tiles(plan, tiles, (n - 1) as nat).with_item(tile_item(tiles[n - 1]))
    }
}

/// `n` ids from `first` on.
pub open spec fn ids_from(first: int, n: nat) -> Seq<u32> {
    Seq::new(n, |i: int| (first + i) as u32)
}

/// A grid item over the `n` items that follow it.
pub open spec fn with_grid(
    plan: FilePlan,
    m: GridMuxerView,
    hidden: bool,
    properties: Seq<PropPlan>,
) -> FilePlan {
    plan.with_item(
        ItemPlan {
            item_type: ITEM_TYPE_GRID,
            content_type: None,
            hidden,
            body: BodyPlan::Descriptor(
                grid_body(m.rows, m.columns, m.output_width, m.output_height),
            ),
            properties,
        },
    ).with_reference(
        DIMG,
        plan.next_id(),
        ids_from(plan.next_id() + 1, m.tiles.len()),
    )
}

/// The file with the grid, item 1, and its tiles.
pub open spec fn colour_plan(m: GridMuxerView) -> FilePlan {
    with_tiles(
        with_grid(
            FilePlan {
                brands: Some((BRAND_AVIF, still_codes(m.profile_brand))),
                ..empty_plan()
            },
            m,
            false,
            grid_props(m),
        ),
        m.tiles,
        m.tiles.len(),
    )
}

/// Then the alpha grid and its tiles, where there are any.
pub open spec fn alpha_grid_plan(m: GridMuxerView) -> FilePlan {
    let before = colour_plan(m);
    if m.alpha_tiles.len() == 0 {
        before
    } else {
        let with = with_tiles(
            with_grid(before, m, true, alpha_grid_props(m)),
            m.alpha_tiles,
            m.alpha_tiles.len(),
        ).with_reference(AUXL, before.next_id(), seq![1u32]);
        if m.premultiplied {
            with.with_reference(PREM, 1, seq![before.next_id()])
        } else {
            with
        }
    }
}

/// Then the metadata. The primary item is the grid.
pub open spec fn grid_plan(m: GridMuxerView) -> FilePlan {
    FilePlan {
        primary: Some(1),
        ..with_xmp(with_exif(alpha_grid_plan(m), 1, m.exif), 1, m.xmp)
    }
}

/// How many items the first tiles make.
proof fn lemma_tiles_len(plan: FilePlan, tiles: Seq<TileView>, n: nat)
    ensures
        with_tiles(plan, tiles, n).items.len() == plan.items.len() + n,
        with_tiles(plan, tiles, n).references == plan.references,
        with_tiles(plan, tiles, n).brands == plan.brands,
    decreases n,
{
    if n > 0 {
        lemma_tiles_len(plan, tiles, (n - 1) as nat);
    }
}

/// Tiles keep a file on its way.
proof fn lemma_grow_tiles(plan: FilePlan, ids: nat, props: nat, tiles: Seq<TileView>, n: nat)
    requires
        growing(plan, ids, props),
        plan.items.len() + n <= ids,
        n <= tiles.len(),
    ensures
        growing(with_tiles(plan, tiles, n), ids, props + 2 * n),
    decreases n,
{
    if n > 0 {
        lemma_grow_tiles(plan, ids, props, tiles, (n - 1) as nat);
        lemma_tiles_len(plan, tiles, (n - 1) as nat);
        let item = tile_item(tiles[n - 1]);
        assert(item.properties[0].box_type == AV1C);
        assert(item.properties[1].box_type == ISPE);
        lemma_coded_complete(item);
        lemma_grow_item(with_tiles(plan, tiles, (n - 1) as nat), ids, props + 2 * (n - 1) as nat, item);
    }
}

/// Tiles can be read.
proof fn lemma_readable_tiles(plan: FilePlan, tiles: Seq<TileView>, n: nat)
    requires
        readable_items(plan.items),
        n <= tiles.len(),
    ensures
        readable_items(with_tiles(plan, tiles, n).items),
    decreases n,
{
    if n > 0 {
        lemma_readable_tiles(plan, tiles, (n - 1) as nat);
        let t = tiles[n - 1];
        let record = PropertyView::Av1C(t.av1c);
        let extents = PropertyView::Ispe(Ispe { width: t.width, height: t.height });
        lemma_readable_one(record, true);
        lemma_readable_one(extents, false);
        lemma_readable_add(seq![prop(record, true)], seq![prop(extents, false)]);
        assert(seq![prop(record, true)] + seq![prop(extents, false)] =~= tile_props(t));
        lemma_readable_item(with_tiles(plan, tiles, (n - 1) as nat), tile_item(t));
    }
}

/// A grid keeps a file on its way.
proof fn lemma_grow_grid(
    plan: FilePlan,
    ids: nat,
    props: nat,
    m: GridMuxerView,
    hidden: bool,
    properties: Seq<PropPlan>,
)
    requires
        growing(plan, ids, props),
        plan.items.len() + 1 + m.tiles.len() <= ids,
        m.tiles.len() <= 0xffff,
        1 <= properties.len() <= 255,
        properties[0].box_type == ISPE,
    ensures
        growing(with_grid(plan, m, hidden, properties), ids, props + properties.len()),
        with_grid(plan, m, hidden, properties).items.len() == plan.items.len() + 1,
{
    let next = with_grid(plan, m, hidden, properties);
    let item = next.items.last();
    assert(ITEM_TYPE_GRID[0] == 0x67);
    lemma_derived_complete(item);
    lemma_grow_item(plan, ids, props, item);
    let to = ids_from(plan.next_id() + 1, m.tiles.len());
    let e = IrefView { reference_type: DIMG, from_id: plan.next_id(), to_ids: to };
    assert forall|j: int| 0 <= j < to.len() implies 1 <= #[trigger] to[j] <= ids by {
        assert(plan.next_id() + 1 + j <= ids);
    }
    assert(leads_to(e, ids));
    lemma_grow_reference(plan.with_item(item), ids, props + properties.len(), DIMG, plan.next_id(), to);
}

/// A grid with tiles has rows and columns.
proof fn lemma_shape(m: GridMuxerView)
    requires
        shape_fault(m) is None,
    ensures
        m.rows > 0,
        m.columns > 0,
{
    let (r, c) = (m.rows as int, m.columns as int);
    assert(r * c > 0);
    assert(r > 0 && c > 0) by (nonlinear_arith)
        requires
            r * c > 0,
            r >= 0,
            c >= 0,
    ;
}

proof fn lemma_grid_props(m: GridMuxerView)
    ensures
        1 <= grid_props(m).len() <= 9,
        grid_props(m)[0].box_type == ISPE,
        2 <= alpha_grid_props(m).len() <= 3,
        alpha_grid_props(m)[0].box_type == ISPE,
{
}

proof fn lemma_colour_plan(m: GridMuxerView)
    requires
        m.tiles.len() <= 0x7fff,
    ensures
        colour_plan(m).items.len() == 1 + m.tiles.len(),
        growing(colour_plan(m), 1 + m.tiles.len(), grid_props(m).len() + 2 * m.tiles.len()),
        colour_plan(m).brands == Some((BRAND_AVIF, still_codes(m.profile_brand))),
{
    lemma_grid_props(m);
    let start = FilePlan {
        brands: Some((BRAND_AVIF, still_codes(m.profile_brand))),
        ..empty_plan()
    };
    let ids: nat = 1 + m.tiles.len();
    assert(growing(start, ids, 0));
    lemma_grow_grid(start, ids, 0, m, false, grid_props(m));
    let grid = with_grid(start, m, false, grid_props(m));
    lemma_grow_tiles(grid, ids, grid_props(m).len(), m.tiles, m.tiles.len());
    lemma_tiles_len(grid, m.tiles, m.tiles.len());
}

proof fn lemma_alpha_grid_plan(m: GridMuxerView)
    requires
        shape_fault(m) is None,
        crowded(m) is None,
    ensures
        ({
            let p = alpha_grid_plan(m);
            &&& 1 <= p.items.len() <= 2 + m.tiles.len() + m.alpha_tiles.len()
            &&& p.brands == Some((BRAND_AVIF, still_codes(m.profile_brand)))
            &&& exists|k: nat|
                k <= 12 + 2 * (m.tiles.len() + m.alpha_tiles.len()) && growing(
                    p,
                    p.items.len(),
                    k,
                )
        }),
{
    lemma_grid_props(m);
    lemma_colour_plan(m);
    let before = colour_plan(m);
    let k1 = grid_props(m).len() + 2 * m.tiles.len();
    if m.alpha_tiles.len() == 0 {
        assert(growing(alpha_grid_plan(m), before.items.len(), k1));
    } else {
        let ids = before.items.len() + 1 + m.tiles.len();
        lemma_grow_ids(before, before.items.len(), ids, k1);
        lemma_grow_grid(before, ids, k1, m, true, alpha_grid_props(m));
        let grid = with_grid(before, m, true, alpha_grid_props(m));
        let k2 = k1 + alpha_grid_props(m).len();
        lemma_grow_tiles(grid, ids, k2, m.alpha_tiles, m.alpha_tiles.len());
        lemma_tiles_len(grid, m.alpha_tiles, m.alpha_tiles.len());
        let tiled = with_tiles(grid, m.alpha_tiles, m.alpha_tiles.len());
        let k3 = k2 + 2 * m.alpha_tiles.len();
        lemma_grow_reference(tiled, ids, k3, AUXL, before.next_id(), seq![1u32]);
        let linked = tiled.with_reference(AUXL, before.next_id(), seq![1u32]);
        if m.premultiplied {
            lemma_grow_reference(linked, ids, k3, PREM, 1, seq![before.next_id()]);
        }
        assert(growing(alpha_grid_plan(m), ids, k3));
    }
}

/// Whether the properties that the file stores can be numbered in 16
/// bits, as those of at most 32761 tiles always can.
pub open spec fn grid_countable(m: GridMuxerView) -> bool {
    ||| m.tiles.len() + m.alpha_tiles.len() <= 32761
    ||| grid_plan(m).stored_count() <= 0xffff
}

/// The file can be written.
pub proof fn lemma_grid_valid(m: GridMuxerView)
    requires
        grid_fault(m) is None,
        grid_countable(m),
    ensures
        grid_plan(m).valid(),
        grid_plan(m).stored_count() <= 12 + 2 * (m.tiles.len() + m.alpha_tiles.len()),
{
    lemma_alpha_grid_plan(m);
    let p = alpha_grid_plan(m);
    let k = choose|k: nat|
        k <= 12 + 2 * (m.tiles.len() + m.alpha_tiles.len()) && growing(p, p.items.len(), k);
    lemma_grow_described(p, k, 1, m.exif, m.xmp);
    let all = with_xmp(with_exif(p, 1, m.exif), 1, m.xmp);
    lemma_stored(all.items, all.items.len());
    lemma_grown(all, all.items.len(), k, 1);
}

proof fn lemma_grid_props_readable(m: GridMuxerView)
    requires
        !(m.colr matches Some(ColrView::Unknown(_))),
    ensures
        readable_list(grid_props(m)),
{
    let ispe = PropertyView::Ispe(Ispe { width: m.output_width, height: m.output_height });
    lemma_readable_one(ispe, false);
    let s0 = seq![prop(ispe, false)];
    lemma_readable_opt(as_pixi(m.pixi), false);
    let s1 = s0 + opt_prop(as_pixi(m.pixi), false);
    lemma_readable_add(s0, opt_prop(as_pixi(m.pixi), false));
    lemma_readable_opt(as_colr(m.colr), false);
    let s2 = s1 + opt_prop(as_colr(m.colr), false);
    lemma_readable_add(s1, opt_prop(as_colr(m.colr), false));
    lemma_readable_opt(as_pasp(m.pasp), false);
    let s3 = s2 + opt_prop(as_pasp(m.pasp), false);
    lemma_readable_add(s2, opt_prop(as_pasp(m.pasp), false));
    lemma_readable_opt(as_mdcv(m.mdcv), false);
    let s4 = s3 + opt_prop(as_mdcv(m.mdcv), false);
    lemma_readable_add(s3, opt_prop(as_mdcv(m.mdcv), false));
    lemma_readable_opt(as_clli(m.clli), false);
    let s5 = s4 + opt_prop(as_clli(m.clli), false);
    lemma_readable_add(s4, opt_prop(as_clli(m.clli), false));
    lemma_readable_opt(as_amve(m.amve), false);
    let s6 = s5 + opt_prop(as_amve(m.amve), false);
    lemma_readable_add(s5, opt_prop(as_amve(m.amve), false));
    lemma_readable_opt(as_irot(m.irot), true);
    let s7 = s6 + opt_prop(as_irot(m.irot), true);
    lemma_readable_add(s6, opt_prop(as_irot(m.irot), true));
    lemma_readable_opt(as_imir(m.imir), true);
    let s8 = s7 + opt_prop(as_imir(m.imir), true);
    lemma_readable_add(s7, opt_prop(as_imir(m.imir), true));
}

proof fn lemma_alpha_grid_props_readable(m: GridMuxerView)
    ensures
        readable_list(alpha_grid_props(m)),
{
    let ispe = PropertyView::Ispe(Ispe { width: m.output_width, height: m.output_height });
    lemma_alpha_urn();
    lemma_readable_one(ispe, false);
    lemma_readable_one(aux_type(ALPHA_URN_PREFIX@), false);
    lemma_readable_add(seq![prop(ispe, false)], seq![prop(aux_type(ALPHA_URN_PREFIX@), false)]);
    let s0 = seq![prop(ispe, false), prop(aux_type(ALPHA_URN_PREFIX@), false)];
    assert(seq![prop(ispe, false)] + seq![prop(aux_type(ALPHA_URN_PREFIX@), false)] =~= s0);
    lemma_readable_opt(as_pixi(m.alpha_pixi), false);
    lemma_readable_add(s0, opt_prop(as_pixi(m.alpha_pixi), false));
}

/// The file can be read.
pub proof fn lemma_grid_readable(m: GridMuxerView)
    requires
        grid_fault(m) is None,
    ensures
        grid_plan(m).readable(),
{
    let start = FilePlan {
        brands: Some((BRAND_AVIF, still_codes(m.profile_brand))),
        ..empty_plan()
    };
    lemma_grid_props_readable(m);
    let grid = with_grid(start, m, false, grid_props(m));
    lemma_readable_item(start, grid.items.last());
    assert(grid.items =~= start.with_item(grid.items.last()).items);
    lemma_readable_tiles(grid, m.tiles, m.tiles.len());
    let before = colour_plan(m);
    let p = alpha_grid_plan(m);
    if m.alpha_tiles.len() > 0 {
        lemma_alpha_grid_props_readable(m);
        let alpha = with_grid(before, m, true, alpha_grid_props(m));
        lemma_readable_item(before, alpha.items.last());
        assert(alpha.items =~= before.with_item(alpha.items.last()).items);
        lemma_readable_tiles(alpha, m.alpha_tiles, m.alpha_tiles.len());
        assert(p.items =~= with_tiles(alpha, m.alpha_tiles, m.alpha_tiles.len()).items);
    }
    assert(readable_items(p.items));
    lemma_alpha_grid_plan(m);
    lemma_readable_described(p, 1, m.exif, m.xmp);
    assert(grid_plan(m).items =~= with_xmp(with_exif(p, 1, m.exif), 1, m.xmp).items);
    lemma_readable_plan(grid_plan(m), m.profile_brand);
}

/// An item queued and then hidden is a hidden item.
pub proof fn lemma_queued_hidden(plan: FilePlan, item: ItemPlan)
    requires
        plan.items.len() < 0xffff_fffe,
    ensures
        plan.with_item(item).with_hidden(plan.next_id(), true) == plan.with_item(
            ItemPlan { hidden: true, ..item },
        ),
{
    let a = plan.with_item(item).with_hidden(plan.next_id(), true);
    let b = plan.with_item(ItemPlan { hidden: true, ..item });
    assert(a.items =~= b.items);
}

/// `n` ids from `first` on.
fn ids_vec(first: u32, n: usize) -> (r: Vec<u32>)
    requires
        first + n <= 0xffff_ffff,
    ensures
        r@ == ids_from(first as int, n as nat),
{
    let mut out: Vec<u32> = Vec::new();
    let mut i: usize = 0;
    while i < n
        invariant
            i <= n,
            first + n <= 0xffff_ffff,
            out@ == ids_from(first as int, i as nat),
        decreases n - i,
    {
        out.push(first + i as u32);
        proof {
            assert(out@ =~= ids_from(first as int, (i + 1) as nat));
        }
        i = i + 1;
    }
    out
}

/// Refuse the first tile whose record is refused.
fn check_tiles(tiles: &Vec<GridTile>, alpha: bool) -> (r: Result<(), AvifError>)
    ensures
        match r {
            Ok(_) => tiles_fault(views(tiles@), alpha, 0) is None,
            Err(e) => tiles_fault(views(tiles@), alpha, 0) == Some(e@),
        },
{
    let mut i: usize = 0;
    while i < tiles.len()
        invariant
            i <= tiles@.len(),
            tiles_fault(views(tiles@), alpha, i as int) == tiles_fault(views(tiles@), alpha, 0),
        decreases tiles@.len() - i,
    {
        let mut what = String::new();
        if alpha {
            what.append("alpha grid tile ");
            push_dec(&mut what, i as u64);
            what.append(" ");
        } else {
            what.append("grid tile ");
        }
        proof {
            reveal_strlit("");
            assert(views(tiles@)[i as int] == tiles@[i as int]@);
            assert(what@ =~= if alpha {
                "alpha grid tile "@ + dec(i as nat) + " "@
            } else {
                "grid tile "@
            });
        }
        let _record = prop_av1c(tiles[i].av1c.as_slice(), what.as_str())?;
        i = i + 1;
    }
    Ok(())
}

/// Queue a tile, hidden.
fn add_tile(w: &mut HeifWriter, t: &GridTile, what: &str, want: u32) -> (r: Result<(), AvifError>)
    requires
        plan_of(*old(w)).items.len() < 0xffff_fffe,
        want == plan_of(*old(w)).next_id(),
        record_fault(t@.av1c, what@) is None,
    ensures
        r is Ok,
        plan_of(*final(w)) == plan_of(*old(w)).with_item(tile_item(t@)),
{
    let mut props = list_of(prop_av1c(t.av1c.as_slice(), what)?);
    push_prop(&mut props, prop_ispe(t.width, t.height));
    proof {
        assert(queued(props@) =~= tile_props(t@));
        lemma_queued_hidden(
            plan_of(*w),
            ItemPlan {
                item_type: ITEM_TYPE_AV01,
                content_type: None,
                hidden: false,
                body: BodyPlan::Coded(t@.payload),
                properties: tile_props(t@),
            },
        );
    }
    let id: u32 = w.add_coded_item(ITEM_TYPE_AV01, slice_to_vec(t.payload.as_slice()), props);
    expect_id(id, want, "grid tile")?;
    w.set_hidden(id, true);
    Ok(())
}

/// A record that is not refused is not refused under another name.
proof fn lemma_tile_record(tiles: Seq<TileView>, alpha: bool, i: int, j: int)
    requires
        0 <= i <= j < tiles.len(),
        tiles_fault(tiles, alpha, i) is None,
    ensures
        record_fault(tiles[j].av1c, "grid tile "@) is None,
    decreases j - i,
{
    if i < j {
        lemma_tile_record(tiles, alpha, i + 1, j);
    }
}

/// Queue all tiles.
fn add_tiles(w: &mut HeifWriter, tiles: &Vec<GridTile>, alpha: bool, first: u32) -> (r: Result<
    (),
    AvifError,
>)
    requires
        first == plan_of(*old(w)).next_id(),
        plan_of(*old(w)).items.len() + tiles@.len() < 0xffff_fffe,
        tiles_fault(views(tiles@), alpha, 0) is None,
    ensures
        r is Ok,
        plan_of(*final(w)) == with_tiles(plan_of(*old(w)), views(tiles@), tiles@.len()),
{
    let ghost before = plan_of(*w);
    let mut i: usize = 0;
    while i < tiles.len()
        invariant
            i <= tiles@.len(),
            first == before.next_id(),
            before.items.len() + tiles@.len() < 0xffff_fffe,
            tiles_fault(views(tiles@), alpha, 0) is None,
            plan_of(*w) == with_tiles(before, views(tiles@), i as nat),
        decreases tiles@.len() - i,
    {
        proof {
            lemma_tiles_len(before, views(tiles@), i as nat);
            lemma_tile_record(views(tiles@), alpha, 0, i as int);
            assert(views(tiles@)[i as int] == tiles@[i as int]@);
        }
        add_tile(w, &tiles[i], "grid tile ", first + i as u32)?;
        i = i + 1;
    }
    Ok(())
}

impl AvifGridMuxer {
    /// A grid of this many rows and columns whose image has this size.
    pub fn new(rows: u16, columns: u16, output_width: u32, output_height: u32) -> (r: AvifGridMuxer)
        ensures
            r@ == plain_grid(rows, columns, output_width, output_height),
    {
        let r = AvifGridMuxer {
            rows,
            columns,
            output_width,
            output_height,
            tiles: Vec::new(),
            pixi: None,
            colr: None,
            pasp: None,
            irot: None,
            imir: None,
            mdcv: None,
            clli: None,
            amve: None,
            exif: None,
            xmp: None,
            alpha_tiles: Vec::new(),
            alpha_pixi: None,
            premultiplied: false,
            profile_brand: ProfileBrand::Baseline,
        };
        proof {
            assert(r@ =~= plain_grid(rows, columns, output_width, output_height));
        }
        r
    }

    /// One more colour tile, in reading order.
    pub fn tile(self, tile: GridTile) -> (r: AvifGridMuxer)
        ensures
            r@ == (GridMuxerView { tiles: self@.tiles.push(tile@), ..self@ }),
    {
        let mut r = self;
        proof {
            lemma_views_push(r.tiles@, tile);
        }
        r.tiles.push(tile);
        r
    }

    /// One more alpha tile, in reading order.
    pub fn alpha_tile(self, tile: GridTile) -> (r: AvifGridMuxer)
        ensures
            r@ == (GridMuxerView { alpha_tiles: self@.alpha_tiles.push(tile@), ..self@ }),
    {
        let mut r = self;
        proof {
            lemma_views_push(r.alpha_tiles@, tile);
        }
        r.alpha_tiles.push(tile);
        r
    }

    /// The bits per channel of the alpha grid.
    pub fn with_alpha_pixi(self, bits: Vec<u8>) -> (r: AvifGridMuxer)
        ensures
            r@ == (GridMuxerView { alpha_pixi: Some(bits@), ..self@ }),
    {
        let mut r = self;
        r.alpha_pixi = Some(bits);
        r
    }

    /// Whether the colours are premultiplied by the alpha grid.
    pub fn premultiplied_alpha(self, premultiplied: bool) -> (r: AvifGridMuxer)
        ensures
            r@ == (GridMuxerView { premultiplied: premultiplied, ..self@ }),
    {
        let mut r = self;
        r.premultiplied = premultiplied;
        r
    }

    /// The pixel aspect ratio of the grid.
    pub fn with_pasp(self, pasp: Pasp) -> (r: AvifGridMuxer)
        ensures
            r@ == (GridMuxerView { pasp: Some(pasp), ..self@ }),
    {
        let mut r = self;
        r.pasp = Some(pasp);
        r
    }

    /// The rotation of the grid, in quarter turns; two bits of it count.
    pub fn with_irot(self, angle: u8) -> (r: AvifGridMuxer)
        ensures
            r@ == (GridMuxerView { irot: Some(Irot { angle: (angle % 4) as u8 }), ..self@ }),
    {
        let mut r = self;
        r.irot = Some(Irot { angle: angle % 4 });
        r
    }

    /// The mirror axis of the grid; one bit of it counts.
    pub fn with_imir(self, axis: u8) -> (r: AvifGridMuxer)
        ensures
            r@ == (GridMuxerView { imir: Some(Imir { axis: (axis % 2) as u8 }), ..self@ }),
    {
        let mut r = self;
        r.imir = Some(Imir { axis: axis % 2 });
        r
    }

    /// The mastering display of the grid.
    pub fn with_mdcv(self, mdcv: Mdcv) -> (r: AvifGridMuxer)
        ensures
            r@ == (GridMuxerView { mdcv: Some(mdcv), ..self@ }),
    {
        let mut r = self;
        r.mdcv = Some(mdcv);
        r
    }

    /// The content light level of the grid.
    pub fn with_clli(self, clli: Clli) -> (r: AvifGridMuxer)
        ensures
            r@ == (GridMuxerView { clli: Some(clli), ..self@ }),
    {
        let mut r = self;
        r.clli = Some(clli);
        r
    }

    /// The ambient viewing environment of the grid.
    pub fn with_amve(self, amve: Amve) -> (r: AvifGridMuxer)
        ensures
            r@ == (GridMuxerView { amve: Some(amve), ..self@ }),
    {
        let mut r = self;
        r.amve = Some(amve);
        r
    }

    /// An Exif item that describes the grid.
    pub fn with_exif(self, payload: Vec<u8>) -> (r: AvifGridMuxer)
        ensures
            r@ == (GridMuxerView { exif: Some(payload@), ..self@ }),
    {
        let mut r = self;
        r.exif = Some(payload);
        r
    }

    /// An XMP item that describes the grid.
    pub fn with_xmp(self, payload: Vec<u8>) -> (r: AvifGridMuxer)
        ensures
            r@ == (GridMuxerView { xmp: Some(payload@), ..self@ }),
    {
        let mut r = self;
        r.xmp = Some(payload);
        r
    }

    /// The bits per channel of the grid.
    pub fn with_pixi(self, bits: Vec<u8>) -> (r: AvifGridMuxer)
        ensures
            r@ == (GridMuxerView { pixi: Some(bits@), ..self@ }),
    {
        let mut r = self;
        r.pixi = Some(bits);
        r
    }

    /// The colour description of the grid.
    pub fn with_colr(self, colr: Colr) -> (r: AvifGridMuxer)
        ensures
            r@ == (GridMuxerView { colr: Some(colr@), ..self@ }),
    {
        let mut r = self;
        r.colr = Some(colr);
        r
    }

    /// The Advanced profile brand in place of the Baseline one.
    pub fn advanced_profile(self) -> (r: AvifGridMuxer)
        ensures
            r@ == (GridMuxerView { profile_brand: ProfileBrand::Advanced, ..self@ }),
    {
        let mut r = self;
        r.profile_brand = ProfileBrand::Advanced;
        r
    }

    /// No profile brand.
    pub fn no_profile_brand(self) -> (r: AvifGridMuxer)
        ensures
            r@ == (GridMuxerView { profile_brand: ProfileBrand::Bare, ..self@ }),
    {
        let mut r = self;
        r.profile_brand = ProfileBrand::Bare;
        r
    }

    /// Refuse a grid that lacks tiles or has too many.
    fn check_shape(&self) -> (r: Result<(), AvifError>)
        ensures
            match r {
                Ok(_) => shape_fault(self@) is None,
                Err(e) => shape_fault(self@) == Some(e@),
            },
    {
        proof {
            assert(self.rows * self.columns <= 0xffff * 0xffff) by (nonlinear_arith)
                requires
                    self.rows <= 0xffff,
                    self.columns <= 0xffff,
            ;
        }
        let expected: u64 = self.rows as u64 * self.columns as u64;
        if self.tiles.len() as u64 != expected {
            let mut s = text_nnn(
                "avif mux: ",
                self.rows as u64,
                "×",
                self.columns as u64,
                " grid needs ",
                expected,
                " tiles, got ",
            );
            push_dec(&mut s, self.tiles.len() as u64);
            return Err(AvifError::InvalidData(s));
        }
        if self.tiles.len() == 0 {
            return Err(AvifError::invalid("avif mux: grid needs at least one tile"));
        }
        if self.alpha_tiles.len() > 0 && self.alpha_tiles.len() as u64 != expected {
            let mut s = text_nnn(
                "avif mux: ",
                self.rows as u64,
                "×",
                self.columns as u64,
                " alpha grid needs ",
                expected,
                " tiles, got ",
            );
            push_dec(&mut s, self.alpha_tiles.len() as u64);
            return Err(AvifError::InvalidData(s));
        }
        Ok(())
    }

    /// The properties of the grid.
    fn props(&self) -> (r: Result<Vec<Prop>, AvifError>)
        ensures
            match r {
                Ok(props) => opt_colr_fault(self@.colr) is None && queued(props@) == grid_props(
                    self@,
                ),
                Err(e) => opt_colr_fault(self@.colr) == Some(e@),
            },
    {
        let mut props = list_of(prop_ispe(self.output_width, self.output_height));
        push_pixi(&mut props, &self.pixi);
        push_colr(&mut props, &self.colr)?;
        push_pasp(&mut props, self.pasp);
        push_mdcv(&mut props, self.mdcv);
        push_clli(&mut props, self.clli);
        push_amve(&mut props, self.amve);
        push_irot(&mut props, self.irot);
        push_imir(&mut props, self.imir);
        Ok(props)
    }

    /// The properties of the alpha grid.
    fn alpha_props(&self) -> (r: Vec<Prop>)
        ensures
            queued(r@) == alpha_grid_props(self@),
    {
        let mut props = list_of(prop_ispe(self.output_width, self.output_height));
        push_prop(&mut props, prop_auxc(ALPHA_URN_PREFIX));
        proof {
            assert(queued(props@) =~= seq![
                prop(
                    PropertyView::Ispe(
                        Ispe { width: self@.output_width, height: self@.output_height },
                    ),
                    false,
                ),
                prop(aux_type(ALPHA_URN_PREFIX@), false),
            ]);
        }
        push_pixi(&mut props, &self.alpha_pixi);
        props
    }

    /// Queue the alpha grid and its tiles.
    fn add_alpha(&self, w: &mut HeifWriter) -> (r: Result<(), AvifError>)
        requires
            plan_of(*old(w)) == colour_plan(self@),
            grid_fault(self@) is None,
        ensures
            r is Ok,
            plan_of(*final(w)) == alpha_grid_plan(self@),
    {
        let ghost m = self@;
        if self.alpha_tiles.len() == 0 {
            return Ok(());
        }
        proof {
            lemma_colour_plan(m);
            lemma_grid_props(m);
        }
        let alpha_grid_id: u32 = 2 + self.tiles.len() as u32;
        let ids = ids_vec(alpha_grid_id + 1, self.tiles.len());
        let props = self.alpha_props();
        let ghost before = plan_of(*w);
        proof {
            assert(queued(props@)[0].box_type == ISPE);
            lemma_shape(m);
        }
        let id: u32 = match add_grid(
            w,
            self.rows,
            self.columns,
            self.output_width,
            self.output_height,
            &ids,
            props,
        ) {
            Ok(id) => id,
            Err(s) => {
                return Err(AvifError::InvalidData(s));
            },
        };
        expect_id(id, alpha_grid_id, "alpha grid")?;
        w.set_hidden(id, true);
        proof {
            assert(plan_of(*w).items =~= with_grid(
                before,
                m,
                true,
                alpha_grid_props(m),
            ).items);
            assert(plan_of(*w) == with_grid(before, m, true, alpha_grid_props(m)));
        }
        add_tiles(w, &self.alpha_tiles, true, alpha_grid_id + 1)?;
        let grid: Vec<u32> = vec![1u32];
        proof {
            assert(grid@ =~= seq![1u32]);
        }
        w.add_reference(AUXL, id, grid);
        if self.premultiplied {
            let alpha: Vec<u32> = vec![id];
            proof {
                assert(alpha@ =~= seq![id]);
            }
            w.add_reference(PREM, 1, alpha);
        }
        Ok(())
    }

    /// Write the file. It reads back: its brands, its items with their
    /// properties and their bytes, its references and its primary item
    /// are those of the plan. A file is written exactly when the number
    /// of the properties that it stores fits 15 bits, so with at most
    /// 16000 tiles always; that number must fit 16 bits where nothing
    /// else is wrong.
    pub fn build(self) -> (r: Result<Vec<u8>, AvifError>)
        requires
            grid_fault(self@) is Some || grid_countable(self@),
        ensures
            match grid_fault(self@) {
                Some(f) => outcome_view(r) == Err::<Seq<u8>, Fault>(f),
                None => {
                    &&& outcome_view(r) == written(grid_plan(self@))
                    &&& r is Ok <==> grid_plan(self@).stored_count() <= MOST_STORED
                    &&& self@.tiles.len() + self@.alpha_tiles.len() <= 16000 ==> r is Ok
                    &&& r matches Err(e) ==> e@ == overfull()
                    &&& r is Ok ==> reads_back(r->Ok_0@, grid_plan(self@))
                },
            },
    {
        let ghost m = self@;
        self.check_shape()?;
        let props = self.props()?;
        check_tiles(&self.tiles, false)?;
        check_tiles(&self.alpha_tiles, true)?;
        let ghost so_far = either(
            shape_fault(m),
            either(
                opt_colr_fault(m.colr),
                either(tiles_fault(m.tiles, false, 0), tiles_fault(m.alpha_tiles, true, 0)),
            ),
        );
        proof {
            assert(so_far is None);
        }
        check_metadata(&self.exif, &self.xmp)?;
        if self.tiles.len() > MOST_TILES || self.alpha_tiles.len() > MOST_TILES - self.tiles.len() {
            return Err(AvifError::invalid("more than 32767 properties"));
        }
        proof {
            lemma_colour_plan(m);
            lemma_grid_props(m);
            lemma_alpha_grid_plan(m);
        }
        let (major, compat) = still_brands(self.profile_brand);
        let mut w = HeifWriter::new().with_brands(major, compat);
        let ids = ids_vec(2, self.tiles.len());
        proof {
            assert(queued(props@)[0].box_type == ISPE);
            lemma_shape(m);
        }
        let grid_id: u32 = match add_grid(
            &mut w,
            self.rows,
            self.columns,
            self.output_width,
            self.output_height,
            &ids,
            props,
        ) {
            Ok(id) => id,
            Err(s) => {
                return Err(AvifError::InvalidData(s));
            },
        };
        expect_id(grid_id, 1, "grid")?;
        add_tiles(&mut w, &self.tiles, false, 2)?;
        proof {
            assert(plan_of(w) == colour_plan(m));
        }
        self.add_alpha(&mut w)?;
        add_exif_item(&mut w, grid_id, &self.exif)?;
        add_xmp_item(&mut w, grid_id, &self.xmp)?;
        w.set_primary(grid_id);
        proof {
            lemma_grid_valid(m);
            lemma_grid_readable(m);
            assert(plan_of(w) == grid_plan(m));
        }
        write_file(&w)
    }
}

} // verus!
