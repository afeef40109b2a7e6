//! Where the inputs of derived images go, and what sizes come out.

use crate::box_parser::BoxType;
use crate::compose::OverlayView;
use crate::derived::{
    chain_of, cropped, size_after, transforms_of, transforms_with, DimTransform,
};
use crate::grid::ImageGrid;
use crate::meta::MetaView;
use crate::meta_parse::PropertyAssociation;
use crate::props::PropertyView;
use crate::query_laws::{all_kept, lemma_all_next, lemma_all_none};
use crate::resolve::{
    covers, grid_resolution, grid_resolutions, grids_of, iden_resolutions, idens_of, item_grid,
    item_overlay, output_size, overlay_resolution, overlay_resolutions, overlays_of, rebuilt,
    tile_placement, tone_map_resolutions, tone_maps_of, IdenResolutionView,
    ToneMapResolutionView,
};
use vstd::prelude::*;

verus! {

// ---------------------------------------------------------------------
// Rectangles

/// Whether a pixel lies in a rectangle.
pub open spec fn lies_in(px: int, py: int, left: int, top: int, width: int, height: int) -> bool {
    left <= px < left + width && top <= py < top + height
}

/// The visible part of an input is what of it lies on the canvas, pixel by
/// pixel; there is none where no pixel of it does.
pub proof fn law_visible_part_lies_on_the_canvas(
    x: i32,
    y: i32,
    size: (u32, u32),
    canvas: (u32, u32),
)
    ensures
        covers(x, y, size, canvas) matches Some((l, t, w, h)) ==> w > 0 && h > 0 && forall|
            px: int,
            py: int,
        | #[trigger]
            lies_in(px, py, l as int, t as int, w as int, h as int) <==> lies_in(
                px,
                py,
                x as int,
                y as int,
                size.0 as int,
                size.1 as int,
            ) && lies_in(px, py, 0, 0, canvas.0 as int, canvas.1 as int),
        covers(x, y, size, canvas) is None ==> forall|px: int, py: int|
            !(#[trigger] lies_in(px, py, x as int, y as int, size.0 as int, size.1 as int)
                && lies_in(px, py, 0, 0, canvas.0 as int, canvas.1 as int)),
{
}

// ---------------------------------------------------------------------
// Overlays

proof fn lemma_overlays(m: MetaView, file: Seq<u8>, ids: Seq<u32>, n: nat)
    requires
        n <= ids.len(),
    ensures
        all_kept(
            n as int,
            |k: int| item_overlay(m, file, ids[k]) is Some,
            |k: int|
                overlay_resolution(m, file, ids[k], item_overlay(m, file, ids[k])->Some_0),
            overlays_of(m, file, ids, n),
        ),
    decreases n,
{
    let keep = |k: int| item_overlay(m, file, ids[k]) is Some;
    let value = |k: int|
        overlay_resolution(m, file, ids[k], item_overlay(m, file, ids[k])->Some_0);
    if n == 0 {
        lemma_all_none(keep, value);
    } else {
        lemma_overlays(m, file, ids, (n - 1) as nat);
        lemma_all_next(n - 1, keep, value, overlays_of(m, file, ids, (n - 1) as nat));
    }
}

/// The overlays are the `iovl` items that can be read, in order.
pub proof fn law_every_overlay_is_worked_out(m: MetaView, file: Seq<u8>)
    ensures
        ({
            let ids = m.ids_of([0x69, 0x6f, 0x76, 0x6c]);
            all_kept(
                ids.len() as int,
                |k: int| item_overlay(m, file, ids[k]) is Some,
                |k: int|
                    overlay_resolution(m, file, ids[k], item_overlay(m, file, ids[k])->Some_0),
                overlay_resolutions(m, file),
            )
        }),
{
    let ids = m.ids_of([0x69, 0x6f, 0x76, 0x6c]);
    lemma_overlays(m, file, ids, ids.len());
}

/// Input `i` of an overlay is what its reference names in place `i`; it
/// goes to the offsets in place `i`, with the size in which it is shown.
pub proof fn law_overlay_inputs_go_to_their_offsets(
    m: MetaView,
    file: Seq<u8>,
    id: u32,
    o: OverlayView,
    i: int,
)
    requires
        0 <= i < m.targets([0x64, 0x69, 0x6d, 0x67], id).len(),
    ensures
        ({
            let r = overlay_resolution(m, file, id, o);
            let inputs = m.targets([0x64, 0x69, 0x6d, 0x67], id);
            let p = r.placements[i];
            &&& r.iovl_item_id == id
            &&& r.overlay == o
            &&& r.placements.len() == inputs.len()
            &&& p.item_id == inputs[i]
            &&& p.offset_x == o.entries[i].horizontal_offset
            &&& p.offset_y == o.entries[i].vertical_offset
            &&& p.dims == output_size(m, file, inputs[i])
            &&& p.dims is None ==> p.visible is None
            &&& p.dims matches Some(size) ==> p.visible == covers(
                p.offset_x,
                p.offset_y,
                size,
                (o.output_width, o.output_height),
            )
        }),
{
}

// ---------------------------------------------------------------------
// Identity derivations and tone maps

/// What is worked out of the identity derivation `id`.
pub open spec fn identity_of(m: MetaView, file: Seq<u8>, id: u32) -> IdenResolutionView {
    let source = m.targets([0x64, 0x69, 0x6d, 0x67], id)[0];
    IdenResolutionView {
        iden_item_id: id,
        source_item_id: source,
        source_dims: output_size(m, file, source),
        transforms: chain_of(m, id),
        output_dims: output_size(m, file, id),
    }
}

proof fn lemma_idens(m: MetaView, file: Seq<u8>, ids: Seq<u32>, n: nat)
    requires
        n <= ids.len(),
    ensures
        all_kept(
            n as int,
            |k: int| m.targets([0x64, 0x69, 0x6d, 0x67], ids[k]).len() > 0,
            |k: int| identity_of(m, file, ids[k]),
            idens_of(m, file, ids, n),
        ),
    decreases n,
{
    let keep = |k: int| m.targets([0x64, 0x69, 0x6d, 0x67], ids[k]).len() > 0;
    let value = |k: int| identity_of(m, file, ids[k]);
    if n == 0 {
        lemma_all_none(keep, value);
    } else {
        lemma_idens(m, file, ids, (n - 1) as nat);
        lemma_all_next(n - 1, keep, value, idens_of(m, file, ids, (n - 1) as nat));
    }
}

/// Every `iden` item that has an input is worked out, in order: its source
/// is its first input, with the size in which that is shown, and its own
/// transformations give its own size.
pub proof fn law_identities_are_worked_out(m: MetaView, file: Seq<u8>)
    ensures
        ({
            let ids = m.ids_of([0x69, 0x64, 0x65, 0x6e]);
            all_kept(
                ids.len() as int,
                |k: int| m.targets([0x64, 0x69, 0x6d, 0x67], ids[k]).len() > 0,
                |k: int| identity_of(m, file, ids[k]),
                iden_resolutions(m, file),
            )
        }),
{
    let ids = m.ids_of([0x69, 0x64, 0x65, 0x6e]);
    lemma_idens(m, file, ids, ids.len());
}

/// What is worked out of the tone map `id`: the first input is the base
/// image and the others are the gain maps, each with the size in which it
/// is shown.
pub open spec fn tone_map_of(m: MetaView, file: Seq<u8>, id: u32) -> ToneMapResolutionView {
    let inputs = m.targets([0x64, 0x69, 0x6d, 0x67], id);
    ToneMapResolutionView {
        tmap_item_id: id,
        base_item_id: inputs[0],
        gain_map_item_ids: Seq::new((inputs.len() - 1) as nat, |i: int| inputs[i + 1]),
        base_dims: output_size(m, file, inputs[0]),
        gain_map_dims: Seq::new(
            (inputs.len() - 1) as nat,
            |i: int| output_size(m, file, inputs[i + 1]),
        ),
    }
}

proof fn lemma_tone_maps(m: MetaView, file: Seq<u8>, ids: Seq<u32>, n: nat)
    requires
        n <= ids.len(),
    ensures
        all_kept(
            n as int,
            |k: int| m.targets([0x64, 0x69, 0x6d, 0x67], ids[k]).len() > 0,
            |k: int| tone_map_of(m, file, ids[k]),
            tone_maps_of(m, file, ids, n),
        ),
    decreases n,
{
    let keep = |k: int| m.targets([0x64, 0x69, 0x6d, 0x67], ids[k]).len() > 0;
    let value = |k: int| tone_map_of(m, file, ids[k]);
    if n == 0 {
        lemma_all_none(keep, value);
    } else {
        lemma_tone_maps(m, file, ids, (n - 1) as nat);
        lemma_all_next(n - 1, keep, value, tone_maps_of(m, file, ids, (n - 1) as nat));
        let id = ids[n - 1];
        let inputs = m.targets([0x64, 0x69, 0x6d, 0x67], id);
        if inputs.len() > 0 {
            let r = crate::resolve::tone_map_resolution(m, file, id, inputs);
            let v = tone_map_of(m, file, id);
            assert(r.gain_map_item_ids =~= v.gain_map_item_ids);
            assert(r.gain_map_dims =~= v.gain_map_dims);
            assert(r == v);
        }
    }
}

/// Every `tmap` item that has an input is worked out, in order.
pub proof fn law_tone_maps_are_worked_out(m: MetaView, file: Seq<u8>)
    ensures
        ({
            let ids = m.ids_of([0x74, 0x6d, 0x61, 0x70]);
            all_kept(
                ids.len() as int,
                |k: int| m.targets([0x64, 0x69, 0x6d, 0x67], ids[k]).len() > 0,
                |k: int| tone_map_of(m, file, ids[k]),
                tone_map_resolutions(m, file),
            )
        }),
{
    let ids = m.ids_of([0x74, 0x6d, 0x61, 0x70]);
    lemma_tone_maps(m, file, ids, ids.len());
}

// ---------------------------------------------------------------------
// Grids

proof fn lemma_grids(m: MetaView, file: Seq<u8>, ids: Seq<u32>, n: nat)
    requires
        n <= ids.len(),
    ensures
        all_kept(
            n as int,
            |k: int| item_grid(m, file, ids[k]) is Some,
            |k: int|
                grid_resolution(
                    m,
                    file,
                    ids[k],
                    item_grid(m, file, ids[k])->Some_0,
                    m.targets([0x64, 0x69, 0x6d, 0x67], ids[k]),
                ),
            grids_of(m, file, ids, n),
        ),
    decreases n,
{
    let keep = |k: int| item_grid(m, file, ids[k]) is Some;
    let value = |k: int|
        grid_resolution(
            m,
            file,
            ids[k],
            item_grid(m, file, ids[k])->Some_0,
            m.targets([0x64, 0x69, 0x6d, 0x67], ids[k]),
        );
    if n == 0 {
        lemma_all_none(keep, value);
    } else {
        lemma_grids(m, file, ids, (n - 1) as nat);
        lemma_all_next(n - 1, keep, value, grids_of(m, file, ids, (n - 1) as nat));
    }
}

/// The grids are the `grid` items that can be read, in order, each with
/// the inputs that its reference names.
pub proof fn law_every_grid_is_worked_out(m: MetaView, file: Seq<u8>)
    ensures
        ({
            let ids = m.ids_of([0x67, 0x72, 0x69, 0x64]);
            all_kept(
                ids.len() as int,
                |k: int| item_grid(m, file, ids[k]) is Some,
                |k: int|
                    grid_resolution(
                        m,
                        file,
                        ids[k],
                        item_grid(m, file, ids[k])->Some_0,
                        m.targets([0x64, 0x69, 0x6d, 0x67], ids[k]),
                    ),
                grid_resolutions(m, file),
            )
        }),
{
    let ids = m.ids_of([0x67, 0x72, 0x69, 0x64]);
    lemma_grids(m, file, ids, ids.len());
}

/// The tiles of a grid have the size of the first, and there are as many
/// places as tiles or as the grid has, whichever is less.
pub proof fn law_grid_tiles_share_a_size(
    m: MetaView,
    file: Seq<u8>,
    id: u32,
    g: ImageGrid,
    inputs: Seq<u32>,
)
    ensures
        ({
            let r = grid_resolution(m, file, id, g, inputs);
            &&& r.grid_item_id == id
            &&& r.grid == g
            &&& inputs.len() == 0 ==> r.tile_dims is None
            &&& inputs.len() > 0 ==> r.tile_dims == output_size(m, file, inputs[0])
            &&& r.tile_dims is None ==> r.tiles.len() == 0
            &&& r.tile_dims is Some ==> r.tiles.len() <= inputs.len() && r.tiles.len() <= g.rows
                * g.columns && (r.tiles.len() == inputs.len() || r.tiles.len() == g.rows
                * g.columns)
            &&& r.tile_dims matches Some(size) ==> forall|i: int|
                0 <= i < r.tiles.len() ==> #[trigger] r.tiles[i] == tile_placement(
                    g,
                    size,
                    inputs[i],
                    i,
                )
        }),
{
    assert(g.rows * g.columns >= 0) by (nonlinear_arith)
        requires
            g.rows >= 0,
            g.columns >= 0,
    ;
}

/// Tile `i` is the one in row `i / columns` and column `i % columns`: its
/// left edge has as many tiles before it as its column says and its top
/// edge as many as its row says, and a pixel of it is visible where it
/// lies within the image.
pub proof fn law_tiles_stand_in_rows(g: ImageGrid, size: (u32, u32), id: u32, i: int)
    requires
        g.columns > 0,
        0 <= i < g.rows * g.columns,
        size.0 * g.columns <= u32::MAX,
        size.1 * g.rows <= u32::MAX,
    ensures
        ({
            let t = tile_placement(g, size, id, i);
            &&& t.item_id == id
            &&& t.column < g.columns
            &&& t.row < g.rows
            &&& t.row * g.columns + t.column == i
            &&& t.x == t.column * size.0
            &&& t.y == t.row * size.1
            &&& forall|dx: int|
                0 <= dx < size.0 ==> (#[trigger] (t.x + dx) < g.output_width <==> dx
                    < t.visible_width)
            &&& forall|dy: int|
                0 <= dy < size.1 ==> (#[trigger] (t.y + dy) < g.output_height <==> dy
                    < t.visible_height)
            &&& t.visible_width <= size.0
            &&& t.visible_height <= size.1
        }),
{
    let n = g.columns as int;
    let (row, column) = (i / n, i % n);
    vstd::arithmetic::div_mod::lemma_fundamental_div_mod(i, n);
    vstd::arithmetic::div_mod::lemma_mod_bound(i, n);
    assert(0 <= row < g.rows && row * n + column == i) by (nonlinear_arith)
        requires
            i == n * row + column,
            0 <= column < n,
            0 <= i < g.rows * g.columns,
            n == g.columns,
    ;
    assert(0 <= column * size.0 <= u32::MAX) by (nonlinear_arith)
        requires
            0 <= column < g.columns,
            size.0 * g.columns <= u32::MAX,
            size.0 >= 0,
    ;
    assert(0 <= row * size.1 <= u32::MAX) by (nonlinear_arith)
        requires
            0 <= row < g.rows,
            size.1 * g.rows <= u32::MAX,
            size.1 >= 0,
    ;
}

// ---------------------------------------------------------------------
// Sizes

/// Whether entry `j` of a property list is a transformation.
pub open spec fn transforms(m: MetaView, entries: Seq<PropertyAssociation>, j: int) -> bool {
    entries[j].index < m.properties.len() && (m.properties[entries[j].index as int] is Clap
        || m.properties[entries[j].index as int] is Irot
        || m.properties[entries[j].index as int] is Imir)
}

proof fn lemma_transforms(m: MetaView, entries: Seq<PropertyAssociation>, n: nat)
    requires
        n <= entries.len(),
    ensures
        all_kept(
            n as int,
            |j: int| transforms(m, entries, j),
            |j: int| m.properties[entries[j].index as int],
            transforms_with(entries, m.properties, n),
        ),
    decreases n,
{
    let keep = |j: int| transforms(m, entries, j);
    let value = |j: int| m.properties[entries[j].index as int];
    if n == 0 {
        lemma_all_none(keep, value);
    } else {
        lemma_transforms(m, entries, (n - 1) as nat);
        lemma_all_next(n - 1, keep, value, transforms_with(entries, m.properties, (n - 1) as nat));
    }
}

/// The transformations of an item are the apertures, rotations and mirrors
/// in its property list, in order, and its chain does to a size what each
/// of them says.
pub proof fn law_transformations_are_listed_in_order(m: MetaView, id: u32)
    ensures
        m.association(id) is None ==> transforms_of(m, id).len() == 0,
        m.association(id) matches Some(a) ==> all_kept(
            a.entries.len() as int,
            |j: int| transforms(m, a.entries, j),
            |j: int| m.properties[a.entries[j].index as int],
            transforms_of(m, id),
        ),
        chain_of(m, id).len() == transforms_of(m, id).len(),
        forall|i: int|
            0 <= i < chain_of(m, id).len() ==> {
                let t = #[trigger] chain_of(m, id)[i];
                let p = transforms_of(m, id)[i];
                &&& p matches PropertyView::Clap(c) ==> t == (DimTransform::Crop {
                    width_n: c.clean_aperture_width_n,
                    width_d: c.clean_aperture_width_d,
                    height_n: c.clean_aperture_height_n,
                    height_d: c.clean_aperture_height_d,
                })
                &&& p matches PropertyView::Irot(r) ==> t == (DimTransform::Rotate {
                    angle: r.angle,
                })
                &&& p matches PropertyView::Imir(r) ==> t == (DimTransform::Mirror {
                    axis: r.axis,
                })
            },
{
    if m.association(id) is Some {
        let e = m.association(id)->Some_0.entries;
        lemma_transforms(m, e, e.len());
    }
}

/// A quarter turn exchanges width and height, half a turn and a mirror
/// keep them, and an aperture makes them the whole number that its
/// fraction holds, or leaves them where that is nothing or too large.
pub proof fn law_transformations_of_a_size(t: DimTransform, width: u32, height: u32)
    ensures
        t matches DimTransform::Rotate { angle } ==> t.dims(width, height) == if angle % 2 == 1 {
            (height, width)
        } else {
            (width, height)
        },
        t is Mirror ==> t.dims(width, height) == (width, height),
        t matches DimTransform::Crop { width_n, width_d, height_n, height_d } ==> t.dims(
            width,
            height,
        ) == (cropped(width_n, width_d, width), cropped(height_n, height_d, height)),
{
}

/// An aperture of `n / d` of `full`: the largest whole number `w` with
/// `w * d <= n`, where there is one from 1 to `full`.
pub proof fn law_apertures_are_whole(n: i32, d: i32, full: u32, w: u32)
    requires
        0 < w <= full,
        d > 0,
        w * d <= n < (w + 1) * d,
    ensures
        cropped(n, d, full) == w,
        cropped(0, d, full) == full,
        cropped(n, 0, full) == full,
{
    let r = n - w * d;
    assert(n == w * d + r);
    assert(0 <= r < d) by (nonlinear_arith)
        requires
            r == n - w * d,
            w * d <= n < (w + 1) * d,
    ;
    vstd::arithmetic::div_mod::lemma_fundamental_div_mod_converse(
        n as int,
        d as int,
        w as int,
        r,
    );
    assert(w * d > 0) by (nonlinear_arith)
        requires
            w > 0,
            d > 0,
    ;
}

/// Transformations work one after the other: a chain does what its first
/// part does and then what the rest does.
pub proof fn law_transformations_follow_in_order(
    a: Seq<DimTransform>,
    b: Seq<DimTransform>,
    n: nat,
    width: u32,
    height: u32,
)
    requires
        n <= b.len(),
    ensures
        size_after(a + b, a.len() + n, width, height) == size_after(
            b,
            n,
            size_after(a, a.len(), width, height).0,
            size_after(a, a.len(), width, height).1,
        ),
        size_after(Seq::empty(), 0, width, height) == (width, height),
        n > 0 ==> size_after(b, n, width, height) == b[n - 1].dims(
            size_after(b, (n - 1) as nat, width, height).0,
            size_after(b, (n - 1) as nat, width, height).1,
        ),
    decreases n,
{
    if n == 0 {
        lemma_size_prefix(a, b, a.len(), width, height);
    } else {
        law_transformations_follow_in_order(a, b, (n - 1) as nat, width, height);
        assert((a + b)[a.len() + n - 1] == b[n - 1]);
    }
}

proof fn lemma_size_prefix(
    a: Seq<DimTransform>,
    b: Seq<DimTransform>,
    n: nat,
    width: u32,
    height: u32,
)
    requires
        n <= a.len(),
    ensures
        size_after(a + b, n, width, height) == size_after(a, n, width, height),
    decreases n,
{
    if n > 0 {
        lemma_size_prefix(a, b, (n - 1) as nat, width, height);
        assert((a + b)[n - 1] == a[n - 1]);
    }
}

/// The size of what an item makes: of a grid and an overlay what they
/// give, of an identity derivation and a tone map the size in which their
/// first input is shown, and of any other item its extents.
pub proof fn law_sizes_of_derivations(m: MetaView, file: Seq<u8>, id: u32, depth: nat)
    requires
        depth <= 15,
        m.item(id) is Some,
    ensures
        ({
            let t = m.item(id)->Some_0.item_type;
            let size = rebuilt(m, file, id, depth);
            let inputs = m.targets([0x64, 0x69, 0x6d, 0x67], id);
            let grid: BoxType = [0x67, 0x72, 0x69, 0x64];
            let iovl: BoxType = [0x69, 0x6f, 0x76, 0x6c];
            let iden: BoxType = [0x69, 0x64, 0x65, 0x6e];
            let tmap: BoxType = [0x74, 0x6d, 0x61, 0x70];
            &&& t == grid ==> (item_grid(m, file, id) matches Some(g) ==> size == Some(
                (g.output_width, g.output_height),
            ))
            &&& t == iovl ==> (item_overlay(m, file, id) matches Some(o) ==> size == Some(
                (o.output_width, o.output_height),
            ))
            &&& t == iden || t == tmap ==> (inputs.len() == 0 ==> size is None) && (inputs.len() > 0
                ==> size == match rebuilt(m, file, inputs[0], depth + 1) {
                Some((w, h)) => Some(
                    size_after(chain_of(m, inputs[0]), chain_of(m, inputs[0]).len(), w, h),
                ),
                None => None,
            })
            &&& t != grid && t != iovl && t != iden && t != tmap ==> size == match m.ispe(id) {
                Some(e) => Some((e.width, e.height)),
                None => None,
            }
        }),
        output_size(m, file, id) == match rebuilt(m, file, id, 0) {
            Some((w, h)) => Some(size_after(chain_of(m, id), chain_of(m, id).len(), w, h)),
            None => None,
        },
{
    let grid: BoxType = [0x67, 0x72, 0x69, 0x64];
    let iovl: BoxType = [0x69, 0x6f, 0x76, 0x6c];
    let iden: BoxType = [0x69, 0x64, 0x65, 0x6e];
    let tmap: BoxType = [0x74, 0x6d, 0x61, 0x70];
    assert(grid[0] != iovl[0] && iovl[1] != iden[1] && grid[0] != tmap[0] && iovl[0] != tmap[0]);
    assert(grid != iovl && grid != iden && grid != tmap && iovl != iden && iovl != tmap) by {
        assert(grid[0] == 0x67 && iovl[0] == 0x69 && iden[0] == 0x69 && tmap[0] == 0x74);
        assert(iovl[1] == 0x6f && iden[1] == 0x64);
    }
}

} // verus!
