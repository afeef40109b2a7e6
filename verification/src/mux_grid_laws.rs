//! Files whose primary item is a grid read back as what they were made
//! of.

use crate::alpha::{is_alpha_item, ALPHA_URN_PREFIX};
use crate::box_parser::BoxType;
use crate::bytes::{b16, b32, law_b32_reads_back};
use crate::container::{
    empty_plan, grid_body, lists, reads_back, stores, BodyPlan, FilePlan, PropPlan, AUXL, CDSC,
    DIMG, PREM,
};
use crate::error::Fault;
use crate::grid::{grid_is_valid, grid_parsed, grid_size, ImageGrid};
use crate::inspect::{inspected, linked};
use crate::meta::MetaView;
use crate::meta_parse::IrefView;
use crate::mux_grid::{
    alpha_grid_plan, alpha_grid_props, colour_plan, grid_fault, grid_plan, grid_props, ids_from,
    tile_item, tile_props, with_grid, with_tiles, GridMuxerView, TileView,
};
use crate::mux_items::{
    as_amve, as_clli, as_colr, as_imir, as_irot, as_mdcv, as_pasp, as_pixi, with_exif, with_xmp,
};
use crate::mux_laws::{
    found, lemma_found_add, lemma_found_opt, lemma_optional, lemma_sources_push, or_else,
    plan_sources, when_kind,
};
use crate::mux_props::{aux_type, opt_prop, prop, still_codes};
use crate::parser::{header_of, payload_bytes, BRAND_AVIF, ITEM_TYPE_GRID};
use crate::property_laws::{law_b16_reads_back, lemma_alpha_urn};
use crate::props::{
    Ispe, PropertyView, AMVE, AUXC, AV1C, CCLV, CLLI, COLR, IMIR, IROT, ISPE, MDCV, PASP, PIXI,
};
use vstd::prelude::*;

verus! {

/// A grid descriptor reads back, where rows and columns fit one byte and
/// the image is not empty and has no more than 2^30 pixels.
pub proof fn law_grid_body_reads_back(rows: u16, columns: u16, width: u32, height: u32)
    requires
        1 <= rows <= 256,
        1 <= columns <= 256,
        width > 0,
        height > 0,
        width * height <= 0x4000_0000,
    ensures
        grid_parsed(grid_body(rows, columns, width, height)) == Ok::<ImageGrid, Fault>(
            ImageGrid {
                version: 0,
                flags: if width > 0xffff || height > 0xffff {
                    1
                } else {
                    0
                },
                rows,
                columns,
                output_width: width,
                output_height: height,
            },
        ),
{
    let s = grid_body(rows, columns, width, height);
    if width > 0xffff || height > 0xffff {
        assert(s.subrange(4, 8) =~= b32(width));
        assert(s.subrange(8, 12) =~= b32(height));
        law_b32_reads_back(width, s, 4);
        law_b32_reads_back(height, s, 8);
    } else {
        assert(s.subrange(4, 6) =~= b16(width as u16));
        assert(s.subrange(6, 8) =~= b16(height as u16));
        law_b16_reads_back(width as u16, s, 4);
        law_b16_reads_back(height as u16, s, 6);
    }
    assert(grid_size(s) == (width, height));
    assert(grid_is_valid(s));
}

/// Tiles follow the items before them.
proof fn lemma_tile_places(plan: FilePlan, tiles: Seq<TileView>, n: nat)
    ensures
        with_tiles(plan, tiles, n).items.len() == plan.items.len() + n,
        with_tiles(plan, tiles, n).references == plan.references,
        forall|i: int|
            0 <= i < plan.items.len() ==> with_tiles(plan, tiles, n).items[i] == plan.items[i],
        forall|i: int|
            0 <= i < n ==> #[trigger] with_tiles(plan, tiles, n).items[plan.items.len() + i]
                == tile_item(tiles[i]),
    decreases n,
{
    if n > 0 {
        lemma_tile_places(plan, tiles, (n - 1) as nat);
        let before = with_tiles(plan, tiles, (n - 1) as nat);
        let all = with_tiles(plan, tiles, n);
        assert forall|i: int| 0 <= i < n implies #[trigger] all.items[plan.items.len() + i]
            == tile_item(tiles[i]) by {
            if i < n - 1 {
                assert(before.items[plan.items.len() + i] == tile_item(tiles[i]));
            }
        }
    }
}

/// Tiles leave the brands as they are.
proof fn lemma_tiles_brands(plan: FilePlan, tiles: Seq<TileView>, n: nat)
    ensures
        with_tiles(plan, tiles, n).brands == plan.brands,
    decreases n,
{
    if n > 0 {
        lemma_tiles_brands(plan, tiles, (n - 1) as nat);
    }
}

/// The id of the alpha grid, where there is one.
pub open spec fn alpha_grid_id(m: GridMuxerView) -> u32 {
    (m.tiles.len() + 2) as u32
}

/// The items and references of a file with a grid.
proof fn lemma_grid_items(m: GridMuxerView)
    requires
        grid_fault(m) is None,
    ensures
        ({
            let p = grid_plan(m);
            let n = m.tiles.len();
            &&& p.items.len() >= 1 + n
            &&& p.items[0].item_type == ITEM_TYPE_GRID
            &&& p.items[0].properties == grid_props(m)
            &&& p.items[0].body == BodyPlan::Descriptor(
                grid_body(m.rows, m.columns, m.output_width, m.output_height),
            )
            &&& forall|i: int| 0 <= i < n ==> #[trigger] p.items[1 + i] == tile_item(m.tiles[i])
            &&& p.references.len() >= 1
            &&& p.references[0] == IrefView {
                reference_type: DIMG,
                from_id: 1,
                to_ids: ids_from(2, n),
            }
            &&& p.brands == Some((BRAND_AVIF, still_codes(m.profile_brand)))
            &&& m.alpha_tiles.len() > 0 ==> {
                &&& p.items.len() >= 2 + 2 * n
                &&& p.items[1 + n as int].properties == alpha_grid_props(m)
                &&& p.items[1 + n as int].hidden
                &&& p.items[1 + n as int].body == BodyPlan::Descriptor(
                    grid_body(m.rows, m.columns, m.output_width, m.output_height),
                )
                &&& forall|i: int|
                    0 <= i < n ==> #[trigger] p.items[2 + n + i] == tile_item(m.alpha_tiles[i])
            }
        }),
{
    let n = m.tiles.len();
    let start = FilePlan {
        brands: Some((BRAND_AVIF, still_codes(m.profile_brand))),
        ..empty_plan()
    };
    let grid = with_grid(start, m, false, grid_props(m));
    lemma_tile_places(grid, m.tiles, n);
    let p1 = colour_plan(m);
    assert(p1.items.len() == 1 + n);
    assert(p1.items[0] == grid.items[0]);
    assert(p1.references[0] == grid.references[0]);
    assert forall|i: int| 0 <= i < n implies #[trigger] p1.items[1 + i] == tile_item(m.tiles[i]) by {
        assert(with_tiles(grid, m.tiles, n).items[grid.items.len() + i] == tile_item(m.tiles[i]));
    }
    let p2 = alpha_grid_plan(m);
    if m.alpha_tiles.len() > 0 {
        let second = with_grid(p1, m, true, alpha_grid_props(m));
        lemma_tile_places(second, m.alpha_tiles, n);
        let tiled = with_tiles(second, m.alpha_tiles, n);
        assert(p2.items == tiled.items);
        assert(second.references[0] == p1.references[0]);
        assert forall|i: int| 0 <= i < p1.items.len() implies p2.items[i] == p1.items[i] by {
            assert(second.items[i] == p1.items[i]);
            assert(tiled.items[i] == second.items[i]);
        }
        assert(tiled.items[1 + n as int] == second.items[1 + n as int]);
        assert forall|i: int| 0 <= i < n implies #[trigger] p2.items[2 + n + i] == tile_item(
            m.alpha_tiles[i],
        ) by {
            assert(tiled.items[second.items.len() + i] == tile_item(m.alpha_tiles[i]));
        }
    }
    assert(p2.references[0] == p1.references[0]);
    let p3 = with_exif(p2, 1, m.exif);
    let p4 = with_xmp(p3, 1, m.xmp);
    assert(forall|i: int| 0 <= i < p2.items.len() ==> p3.items[i] == p2.items[i]);
    assert(forall|i: int| 0 <= i < p3.items.len() ==> p4.items[i] == p3.items[i]);
    assert(p3.references[0] == p2.references[0]);
    assert(p4.references[0] == p3.references[0]);
    assert forall|i: int| 0 <= i < n implies #[trigger] grid_plan(m).items[1 + i] == tile_item(
        m.tiles[i],
    ) by {
        assert(p1.items[1 + i] == tile_item(m.tiles[i]));
        assert(p2.items[1 + i] == p1.items[1 + i]);
    }
    let p = grid_plan(m);
    assert(p.items[0] == p2.items[0]);
    assert(p.references[0] == p1.references[0]);
    assert(p.references[0].to_ids =~= ids_from(2, n));
    assert(p.references[0] == IrefView {
        reference_type: DIMG,
        from_id: 1,
        to_ids: ids_from(2, n),
    });
    lemma_tiles_brands(grid, m.tiles, n);
    assert(p1.brands == start.brands);
    if m.alpha_tiles.len() > 0 {
        lemma_tiles_brands(
            with_grid(p1, m, true, alpha_grid_props(m)),
            m.alpha_tiles,
            m.alpha_tiles.len(),
        );
    }
    assert(p2.brands == start.brands);
    assert(p.brands == start.brands);
    if m.alpha_tiles.len() > 0 {
        assert(m.alpha_tiles.len() == n);
        assert(p.items.len() >= 2 + 2 * n);
        assert(p.items[1 + n as int] == p2.items[1 + n as int]);
        assert(p.items[1 + n as int].properties == alpha_grid_props(m));
        assert forall|i: int| 0 <= i < n implies #[trigger] grid_plan(m).items[2 + n + i]
            == tile_item(m.alpha_tiles[i]) by {
            assert(p2.items[2 + n + i] == tile_item(m.alpha_tiles[i]));
        }
    }
}

/// Whether what a file says of its grid keeps its value when it is
/// written.
pub open spec fn grid_keeps(m: GridMuxerView) -> bool {
    &&& m.pixi is Some ==> m.pixi->0.len() <= 255
    &&& m.irot is Some ==> m.irot->0.angle < 4
    &&& m.imir is Some ==> m.imir->0.axis < 2
    &&& m.alpha_pixi is Some ==> m.alpha_pixi->0.len() <= 255
}

/// What is found among the properties of the grid.
pub open spec fn grid_found(m: GridMuxerView, kind: BoxType) -> Option<PropPlan> {
    let extents = PropertyView::Ispe(Ispe { width: m.output_width, height: m.output_height });
    let f0 = when_kind(Some(extents), false, kind);
    let f1 = or_else(f0, when_kind(as_pixi(m.pixi), false, kind));
    let f2 = or_else(f1, when_kind(as_colr(m.colr), false, kind));
    let f3 = or_else(f2, when_kind(as_pasp(m.pasp), false, kind));
    let f4 = or_else(f3, when_kind(as_mdcv(m.mdcv), false, kind));
    let f5 = or_else(f4, when_kind(as_clli(m.clli), false, kind));
    let f6 = or_else(f5, when_kind(as_amve(m.amve), false, kind));
    let f7 = or_else(f6, when_kind(as_irot(m.irot), true, kind));
    or_else(f7, when_kind(as_imir(m.imir), true, kind))
}

proof fn lemma_grid_found(m: GridMuxerView, kind: BoxType)
    ensures
        found(grid_props(m), kind, 0) == grid_found(m, kind),
{
    let extents = PropertyView::Ispe(Ispe { width: m.output_width, height: m.output_height });
    let s0 = seq![prop(extents, false)];
    assert(s0 =~= opt_prop(Some(extents), false));
    lemma_found_opt(Some(extents), false, kind);
    let s1 = s0 + opt_prop(as_pixi(m.pixi), false);
    lemma_found_opt(as_pixi(m.pixi), false, kind);
    lemma_found_add(s0, opt_prop(as_pixi(m.pixi), false), kind, 0);
    let s2 = s1 + opt_prop(as_colr(m.colr), false);
    lemma_found_opt(as_colr(m.colr), false, kind);
    lemma_found_add(s1, opt_prop(as_colr(m.colr), false), kind, 0);
    let s3 = s2 + opt_prop(as_pasp(m.pasp), false);
    lemma_found_opt(as_pasp(m.pasp), false, kind);
    lemma_found_add(s2, opt_prop(as_pasp(m.pasp), false), kind, 0);
    let s4 = s3 + opt_prop(as_mdcv(m.mdcv), false);
    lemma_found_opt(as_mdcv(m.mdcv), false, kind);
    lemma_found_add(s3, opt_prop(as_mdcv(m.mdcv), false), kind, 0);
    let s5 = s4 + opt_prop(as_clli(m.clli), false);
    lemma_found_opt(as_clli(m.clli), false, kind);
    lemma_found_add(s4, opt_prop(as_clli(m.clli), false), kind, 0);
    let s6 = s5 + opt_prop(as_amve(m.amve), false);
    lemma_found_opt(as_amve(m.amve), false, kind);
    lemma_found_add(s5, opt_prop(as_amve(m.amve), false), kind, 0);
    let s7 = s6 + opt_prop(as_irot(m.irot), true);
    lemma_found_opt(as_irot(m.irot), true, kind);
    lemma_found_add(s6, opt_prop(as_irot(m.irot), true), kind, 0);
    let s8 = s7 + opt_prop(as_imir(m.imir), true);
    lemma_found_opt(as_imir(m.imir), true, kind);
    lemma_found_add(s7, opt_prop(as_imir(m.imir), true), kind, 0);
}

/// What a reader finds of the grid.
pub open spec fn grid_kept(meta: MetaView, m: GridMuxerView) -> bool {
    &&& meta.ispe(1) == Some(Ispe { width: m.output_width, height: m.output_height })
    &&& meta.pixi(1) == m.pixi
    &&& meta.colr(1) == m.colr
    &&& meta.pasp(1) == m.pasp
    &&& meta.mdcv(1) == m.mdcv
    &&& meta.clli(1) == m.clli
    &&& meta.cclv(1) is None
    &&& meta.amve(1) == m.amve
    &&& meta.property(1, IROT) == as_irot(m.irot)
    &&& meta.property(1, IMIR) == as_imir(m.imir)
}

proof fn lemma_grid_kept(meta: MetaView, m: GridMuxerView)
    requires
        lists(meta, 1, grid_props(m)),
        grid_keeps(m),
        !(m.colr matches Some(crate::props::ColrView::Unknown(_))),
    ensures
        grid_kept(meta, m),
{
    let s = grid_props(m);
    lemma_grid_found(m, ISPE);
    lemma_optional(
        meta,
        1,
        s,
        Some(PropertyView::Ispe(Ispe { width: m.output_width, height: m.output_height })),
        false,
        ISPE,
    );
    lemma_grid_found(m, PIXI);
    lemma_optional(meta, 1, s, as_pixi(m.pixi), false, PIXI);
    lemma_grid_found(m, COLR);
    lemma_optional(meta, 1, s, as_colr(m.colr), false, COLR);
    lemma_grid_found(m, PASP);
    lemma_optional(meta, 1, s, as_pasp(m.pasp), false, PASP);
    lemma_grid_found(m, MDCV);
    lemma_optional(meta, 1, s, as_mdcv(m.mdcv), false, MDCV);
    lemma_grid_found(m, CLLI);
    lemma_optional(meta, 1, s, as_clli(m.clli), false, CLLI);
    lemma_grid_found(m, AMVE);
    lemma_optional(meta, 1, s, as_amve(m.amve), false, AMVE);
    lemma_grid_found(m, IROT);
    lemma_optional(meta, 1, s, as_irot(m.irot), true, IROT);
    lemma_grid_found(m, IMIR);
    lemma_optional(meta, 1, s, as_imir(m.imir), true, IMIR);
    lemma_grid_found(m, CCLV);
    lemma_optional(meta, 1, s, None, false, CCLV);
}

/// What a reader finds of a tile.
pub open spec fn tile_kept(file: Seq<u8>, meta: MetaView, id: u32, t: TileView) -> bool {
    &&& meta.item(id) is Some && meta.item(id)->0.flags == 1
    &&& payload_bytes(file, meta, id) == Ok::<Seq<u8>, Fault>(t.payload)
    &&& meta.av1c(id) == Some(t.av1c)
    &&& meta.ispe(id) == Some(Ispe { width: t.width, height: t.height })
    &&& meta.pixi(id) is None
    &&& meta.colr(id) is None
    &&& meta.pasp(id) is None
    &&& meta.mdcv(id) is None
    &&& meta.clli(id) is None
    &&& meta.cclv(id) is None
    &&& meta.amve(id) is None
}

proof fn lemma_tile_kept(file: Seq<u8>, meta: MetaView, id: u32, t: TileView)
    requires
        stores(file, meta, id, tile_item(t)),
    ensures
        tile_kept(file, meta, id, t),
{
    let s = tile_props(t);
    let record = PropertyView::Av1C(t.av1c);
    let extents = PropertyView::Ispe(Ispe { width: t.width, height: t.height });
    assert(s =~= opt_prop(Some(record), true) + opt_prop(Some(extents), false));
    assert forall|kind: BoxType| #[trigger]
        found(s, kind, 0) == or_else(
            when_kind(Some(record), true, kind),
            when_kind(Some(extents), false, kind),
        ) by {
        lemma_found_opt(Some(record), true, kind);
        lemma_found_opt(Some(extents), false, kind);
        lemma_found_add(opt_prop(Some(record), true), opt_prop(Some(extents), false), kind, 0);
    }
    lemma_optional(meta, id, s, Some(record), true, AV1C);
    lemma_optional(meta, id, s, Some(extents), false, ISPE);
    lemma_optional(meta, id, s, None, false, PIXI);
    lemma_optional(meta, id, s, None, false, COLR);
    lemma_optional(meta, id, s, None, false, PASP);
    lemma_optional(meta, id, s, None, false, MDCV);
    lemma_optional(meta, id, s, None, false, CLLI);
    lemma_optional(meta, id, s, None, false, CCLV);
    lemma_optional(meta, id, s, None, false, AMVE);
}

/// A file with a grid reads back: the brands, the descriptor of the
/// grid, its properties and its tiles in order, each with its bytes. A
/// grid of more than 256 rows or columns is left out, since they are
/// written in one byte, and so is an image that readers refuse.
pub proof fn law_grid_reads_back(m: GridMuxerView, file: Seq<u8>)
    requires
        grid_fault(m) is None,
        grid_keeps(m),
        reads_back(file, grid_plan(m)),
        m.rows <= 256,
        m.columns <= 256,
        m.output_width > 0,
        m.output_height > 0,
        m.output_width * m.output_height <= 0x4000_0000,
    ensures
        header_of(file) is Ok,
        header_of(file)->Ok_0.major_brand == BRAND_AVIF,
        header_of(file)->Ok_0.compatible_brands == still_codes(m.profile_brand),
        ({
            let meta = header_of(file)->Ok_0.meta;
            let n = m.tiles.len();
            &&& meta.primary_item_id == Some(1u32)
            &&& meta.item(1) is Some && meta.item(1)->0.item_type == ITEM_TYPE_GRID
            &&& payload_bytes(file, meta, 1) == Ok::<Seq<u8>, Fault>(
                grid_body(m.rows, m.columns, m.output_width, m.output_height),
            )
            &&& grid_kept(meta, m)
            &&& meta.targets(DIMG, 1) == ids_from(2, n)
            &&& forall|i: int|
                0 <= i < n ==> tile_kept(file, meta, (2 + i) as u32, #[trigger] m.tiles[i])
            &&& m.alpha_tiles.len() > 0 ==> forall|i: int|
                0 <= i < n ==> tile_kept(
                    file,
                    meta,
                    (3 + n + i) as u32,
                    #[trigger] m.alpha_tiles[i],
                )
        }),
{
    let meta = header_of(file)->Ok_0.meta;
    let n = m.tiles.len();
    let plan = grid_plan(m);
    lemma_grid_items(m);
    assert(plan.holds(1));
    assert(plan.item(1) == plan.items[0]);
    assert(stores(file, meta, 1, plan.item(1)));
    lemma_grid_kept(meta, m);
    assert(meta.irefs[0] == plan.references[0]);
    assert forall|i: int| 0 <= i < n implies tile_kept(
        file,
        meta,
        (2 + i) as u32,
        #[trigger] m.tiles[i],
    ) by {
        let id = (2 + i) as u32;
        assert(plan.items[1 + i] == tile_item(m.tiles[i]));
        assert(plan.holds(id));
        assert(plan.item(id) == plan.items[1 + i]);
        assert(stores(file, meta, id, plan.item(id)));
        lemma_tile_kept(file, meta, id, m.tiles[i]);
    }
    if m.alpha_tiles.len() > 0 {
        assert forall|i: int| 0 <= i < n implies tile_kept(
            file,
            meta,
            (3 + n + i) as u32,
            #[trigger] m.alpha_tiles[i],
        ) by {
            let id = (3 + n + i) as u32;
            assert(plan.items[2 + n + i] == tile_item(m.alpha_tiles[i]));
            assert(plan.holds(id));
            assert(plan.item(id) == plan.items[2 + n + i]);
            assert(stores(file, meta, id, plan.item(id)));
            lemma_tile_kept(file, meta, id, m.alpha_tiles[i]);
        }
    }
}

/// Which auxiliary images refer to the grid.
proof fn lemma_grid_sources(m: GridMuxerView)
    requires
        grid_fault(m) is None,
    ensures
        plan_sources(grid_plan(m), AUXL, 1) == if m.alpha_tiles.len() > 0 {
            seq![alpha_grid_id(m)]
        } else {
            Seq::empty()
        },
{
    assert(AUXL[0] == 0x61 && CDSC[0] == 0x63 && DIMG[0] == 0x64 && PREM[0] == 0x70);
    let n = m.tiles.len();
    let start = FilePlan {
        brands: Some((BRAND_AVIF, still_codes(m.profile_brand))),
        ..empty_plan()
    };
    let to = seq![1u32];
    assert(to[0] == 1);
    let grid = with_grid(start, m, false, grid_props(m));
    lemma_tile_places(grid, m.tiles, n);
    let p1 = colour_plan(m);
    let d = IrefView { reference_type: DIMG, from_id: 1, to_ids: ids_from(2, n) };
    assert(p1.references =~= start.references.push(d));
    lemma_sources_push(start.references, d, AUXL, 1);
    assert(plan_sources(p1, AUXL, 1) =~= Seq::empty());
    let p2 = alpha_grid_plan(m);
    if m.alpha_tiles.len() > 0 {
        let id = alpha_grid_id(m);
        assert(p1.items.len() == 1 + n);
        assert(p1.next_id() == id);
        let second = with_grid(p1, m, true, alpha_grid_props(m));
        lemma_tile_places(second, m.alpha_tiles, n);
        let d = IrefView { reference_type: DIMG, from_id: id, to_ids: ids_from(id + 1, n) };
        let a = IrefView { reference_type: AUXL, from_id: id, to_ids: to };
        let s1 = p1.references.push(d);
        assert(second.references =~= s1);
        lemma_sources_push(p1.references, d, AUXL, 1);
        let s2 = s1.push(a);
        lemma_sources_push(s1, a, AUXL, 1);
        if m.premultiplied {
            let f = IrefView { reference_type: PREM, from_id: 1, to_ids: seq![id] };
            assert(p2.references =~= s2.push(f));
            lemma_sources_push(s2, f, AUXL, 1);
        } else {
            assert(p2.references =~= s2);
        }
        assert(plan_sources(p2, AUXL, 1) =~= seq![id]);
    }
    let p3 = with_exif(p2, 1, m.exif);
    if m.exif is Some {
        let e = IrefView { reference_type: CDSC, from_id: p2.next_id(), to_ids: to };
        assert(p3.references =~= p2.references.push(e));
        lemma_sources_push(p2.references, e, AUXL, 1);
    }
    let p4 = with_xmp(p3, 1, m.xmp);
    if m.xmp is Some {
        let e = IrefView { reference_type: CDSC, from_id: p3.next_id(), to_ids: to };
        assert(p4.references =~= p3.references.push(e));
        lemma_sources_push(p3.references, e, AUXL, 1);
    }
    assert(grid_plan(m).references == p4.references);
}

/// The alpha grid names an alpha plane.
proof fn lemma_alpha_grid_named(meta: MetaView, id: u32, m: GridMuxerView)
    requires
        lists(meta, id, alpha_grid_props(m)),
    ensures
        is_alpha_item(meta, id),
        meta.property(id, AUXC) == Some(aux_type(ALPHA_URN_PREFIX@)),
{
    let s = alpha_grid_props(m);
    let extents = PropertyView::Ispe(Ispe { width: m.output_width, height: m.output_height });
    let aux = aux_type(ALPHA_URN_PREFIX@);
    let s0 = opt_prop(Some(extents), false) + opt_prop(Some(aux), false);
    assert(s =~= s0 + opt_prop(as_pixi(m.alpha_pixi), false));
    lemma_found_opt(Some(extents), false, AUXC);
    lemma_found_opt(Some(aux), false, AUXC);
    lemma_found_opt(as_pixi(m.alpha_pixi), false, AUXC);
    lemma_found_add(opt_prop(Some(extents), false), opt_prop(Some(aux), false), AUXC, 0);
    lemma_found_add(s0, opt_prop(as_pixi(m.alpha_pixi), false), AUXC, 0);
    lemma_alpha_urn();
    lemma_optional(meta, id, s, Some(aux), false, AUXC);
    assert(ALPHA_URN_PREFIX@.subrange(0, ALPHA_URN_PREFIX@.len() as int) =~= ALPHA_URN_PREFIX@);
}

/// The grid and the alpha grid are linked where the colours are
/// premultiplied, and only then.
proof fn lemma_grid_link(m: GridMuxerView, meta: MetaView)
    requires
        grid_fault(m) is None,
        m.alpha_tiles.len() > 0,
        meta.irefs == grid_plan(m).references,
    ensures
        linked(meta, alpha_grid_id(m), 1) == m.premultiplied,
{
    assert(AUXL[0] == 0x61 && CDSC[0] == 0x63 && DIMG[0] == 0x64 && PREM[0] == 0x70);
    let n = m.tiles.len();
    let start = FilePlan {
        brands: Some((BRAND_AVIF, still_codes(m.profile_brand))),
        ..empty_plan()
    };
    let grid = with_grid(start, m, false, grid_props(m));
    lemma_tile_places(grid, m.tiles, n);
    let p1 = colour_plan(m);
    let second = with_grid(p1, m, true, alpha_grid_props(m));
    lemma_tile_places(second, m.alpha_tiles, m.alpha_tiles.len());
    let p2 = alpha_grid_plan(m);
    let p3 = with_exif(p2, 1, m.exif);
    let p4 = with_xmp(p3, 1, m.xmp);
    let id = alpha_grid_id(m);
    assert(p1.references.len() == 1);
    assert(p2.references[0].reference_type == DIMG);
    assert(p2.references[1].reference_type == DIMG);
    assert(p2.references[2].reference_type == AUXL);
    if m.premultiplied {
        let f = IrefView { reference_type: PREM, from_id: 1, to_ids: seq![id] };
        assert(p2.references[3] == f);
        assert(p3.references[3] == f);
        assert(p4.references[3] == f);
        assert(meta.irefs[3].to_ids[0] == id);
        assert(meta.irefs[3].to_ids.contains(id));
    } else {
        assert(p2.references.len() == 3);
        assert forall|i: int| 0 <= i < p4.references.len() implies (
        #[trigger] p4.references[i]).reference_type != PREM by {
            if i < 3 {
                assert(p3.references[i] == p2.references[i]);
                assert(p4.references[i] == p3.references[i]);
            }
        }
    }
}

/// A file with a grid is inspected as what it was made of: the size of
/// the image, the properties of the grid, the record of the first tile,
/// and whether there is an alpha plane.
pub proof fn law_grid_inspects(m: GridMuxerView, file: Seq<u8>)
    requires
        grid_fault(m) is None,
        grid_keeps(m),
        reads_back(file, grid_plan(m)),
        m.rows <= 256,
        m.columns <= 256,
        m.output_width > 0,
        m.output_height > 0,
        m.output_width * m.output_height <= 0x4000_0000,
    ensures
        inspected(file) is Ok,
        ({
            let v = inspected(file)->Ok_0;
            &&& v.width == m.output_width
            &&& v.height == m.output_height
            &&& v.is_grid
            &&& v.obu_bytes.len() == 0
            &&& v.av1c == m.tiles[0].av1c
            &&& v.bits_per_channel == crate::inspect::or_empty(m.pixi)
            &&& v.colour == m.colr
            &&& v.pasp == m.pasp
            &&& v.mdcv == m.mdcv
            &&& v.clli == m.clli
            &&& v.amve == m.amve
            &&& v.has_alpha == (m.alpha_tiles.len() > 0)
            &&& v.premultiplied_alpha == (m.alpha_tiles.len() > 0 && m.premultiplied)
            &&& v.mif1_compliance.complete()
        }),
{
    law_grid_reads_back(m, file);
    law_grid_body_reads_back(m.rows, m.columns, m.output_width, m.output_height);
    lemma_grid_items(m);
    let h = header_of(file)->Ok_0;
    let meta = h.meta;
    let plan = grid_plan(m);
    assert(plan.holds(1));
    assert(plan.item(1) == plan.items[0]);
    assert(stores(file, meta, 1, plan.item(1)));
    assert(tile_kept(file, meta, 2, m.tiles[0]));
    assert(meta.targets(DIMG, 1)[0] == 2);
    lemma_grid_sources(m);
    assert(meta.irefs == plan.references);
    assert(meta.sources(AUXL, 1) == plan_sources(plan, AUXL, 1));
    if m.alpha_tiles.len() > 0 {
        let id = alpha_grid_id(m);
        assert(plan.holds(id));
        assert(plan.item(id) == plan.items[1 + m.tiles.len() as int]);
        assert(stores(file, meta, id, plan.item(id)));
        lemma_alpha_grid_named(meta, id, m);
        assert(meta.sources(AUXL, 1)[0] == id);
        lemma_grid_link(m, meta);
    }
}

} // verus!
