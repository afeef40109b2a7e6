//! Where in the bytes of a file its fields stand, and which bytes are
//! those of an item.

use crate::box_parser::{be16, be32, type_at, BoxType};
use crate::cicp::{cicp_of, CicpTriple};
use crate::gain_map::{channel_at, channels_from, gain_map_of, GainMapChannel, GainMapRational};
use crate::inspect::largest;
use crate::meta::MetaView;
use crate::meta_parse::{IlocExtent, ItemLocationView};
use crate::parser::{
    class_of, codes_from, ftyp_of, joined_from, origin_bytes, payload_bytes, pieces_from,
};
use crate::props::ColrView;
use crate::query_laws::{all_kept, lemma_all_next, lemma_all_none, refers_from};
use crate::region::{
    derived_region, derived_regions, geometries_from, geometry_at, points_from, region_item_of,
    GeometryView,
};
use crate::sample_group::{
    entries_at, index_from, runs_at, samples_in, sbgp_of, sgpd_of, SampleToGroupRun,
};
use vstd::prelude::*;

verus! {

// ---------------------------------------------------------------------
// Brands

/// Whether a brand is the major one or among the compatible ones.
pub open spec fn has_brand(code: BoxType, major: BoxType, compat: Seq<BoxType>) -> bool {
    major == code || exists|i: int| 0 <= i < compat.len() && #[trigger] compat[i] == code
}

/// What the brands say of a file goes by their codes, wherever they stand.
pub proof fn law_brands_say_by_code(major: BoxType, compat: Seq<BoxType>)
    ensures
        ({
            let c = class_of(major, compat);
            &&& c.is_image == has_brand([0x61, 0x76, 0x69, 0x66], major, compat)
            &&& c.is_sequence == has_brand([0x61, 0x76, 0x69, 0x73], major, compat)
            &&& c.is_intra_only == has_brand([0x61, 0x76, 0x69, 0x6f], major, compat)
            &&& c.is_miaf == has_brand([0x6d, 0x69, 0x61, 0x66], major, compat)
            &&& c.has_mif1 == has_brand([0x6d, 0x69, 0x66, 0x31], major, compat)
            &&& c.has_msf1 == has_brand([0x6d, 0x73, 0x66, 0x31], major, compat)
            &&& c.is_baseline_profile == has_brand([0x4d, 0x41, 0x31, 0x42], major, compat)
            &&& c.is_advanced_profile == has_brand([0x4d, 0x41, 0x31, 0x41], major, compat)
            &&& c.usable() == (c.is_image || c.is_sequence || c.is_intra_only || c.has_mif1
                || c.has_msf1)
        }),
{
    let c = class_of(major, compat);
    assert forall|code: BoxType| crate::parser::listed(code, major, compat)
        == #[trigger] has_brand(code, major, compat) by {}
}

proof fn lemma_brand_codes(s: Seq<u8>, at: int, k: int)
    requires
        0 <= at,
        0 <= k,
        at + 4 * k + 4 <= s.len(),
    ensures
        codes_from(s, at).len() == (s.len() - at) / 4,
        codes_from(s, at)[k] == type_at(s, at + 4 * k),
    decreases k,
{
    lemma_brand_count(s, at);
    if k > 0 {
        lemma_brand_codes(s, at + 4, k - 1);
    }
}

proof fn lemma_brand_count(s: Seq<u8>, at: int)
    requires
        0 <= at <= s.len(),
    ensures
        codes_from(s, at).len() == (s.len() - at) / 4,
    decreases s.len() - at,
{
    if at + 4 <= s.len() {
        lemma_brand_count(s, at + 4);
    }
}

/// `ftyp` gives the major brand, the minor version and then the compatible
/// brands, four bytes each.
pub proof fn law_ftyp_fields(s: Seq<u8>, k: int)
    requires
        s.len() >= 8,
    ensures
        ftyp_of(s) matches Ok((major, minor, compat)) && {
            &&& major == [s[0], s[1], s[2], s[3]]
            &&& minor == be32(s, 4)
            &&& compat.len() == (s.len() - 8) / 4
            &&& 0 <= k < compat.len() ==> compat[k] == [
                s[8 + 4 * k],
                s[9 + 4 * k],
                s[10 + 4 * k],
                s[11 + 4 * k],
            ]
        },
{
    lemma_brand_count(s, 8);
    if 0 <= k < (s.len() - 8) / 4 {
        lemma_brand_codes(s, 8, k);
    }
}

// ---------------------------------------------------------------------
// Bytes of items

/// Whether an extent lies within `len` bytes.
pub open spec fn fits(base: u64, e: IlocExtent, len: nat) -> bool {
    base + e.offset + e.length <= len && base + e.offset + e.length <= u64::MAX
}

/// The bytes of an extent.
pub open spec fn extent_bytes(s: Seq<u8>, base: u64, e: IlocExtent) -> Seq<u8> {
    s.subrange(base + e.offset, base + e.offset + e.length)
}

/// The bytes of the first `n` extents, each out of its own source, one
/// behind the other.
pub open spec fn run_of(
    sources: spec_fn(int) -> Seq<u8>,
    loc: ItemLocationView,
    n: nat,
) -> Seq<u8>
    decreases n,
{
    if n == 0 {
        Seq::empty()
    } else {
        run_of(sources, loc, (n - 1) as nat) + extent_bytes(
            sources(n - 1),
            loc.base_offset,
            loc.extents[n - 1],
        )
    }
}

proof fn lemma_joined(s: Seq<u8>, what: Seq<char>, loc: ItemLocationView, i: int)
    requires
        0 <= i <= loc.extents.len(),
    ensures
        ({
            let r = joined_from(s, what, loc, i, run_of(|k: int| s, loc, i as nat));
            &&& r is Ok <==> forall|k: int|
                i <= k < loc.extents.len() ==> fits(
                    loc.base_offset,
                    #[trigger] loc.extents[k],
                    s.len(),
                )
            &&& r is Ok ==> r->Ok_0 == run_of(|k: int| s, loc, loc.extents.len())
        }),
    decreases loc.extents.len() - i,
{
    let sources = |k: int| s;
    if i < loc.extents.len() {
        lemma_joined(s, what, loc, i + 1);
        assert(run_of(sources, loc, (i + 1) as nat) == run_of(sources, loc, i as nat)
            + extent_bytes(s, loc.base_offset, loc.extents[i]));
    }
}

/// The bytes of an item are those of its extents, one behind the other,
/// counted from the base offset; in the file by construction method 0, and
/// in `idat` by method 1. They can be had where there is an extent and all
/// of them lie within.
pub proof fn law_item_bytes_join_its_extents(file: Seq<u8>, m: MetaView, id: u32)
    requires
        m.location(id) is Some,
        m.location(id)->Some_0.construction_method <= 1,
    ensures
        ({
            let loc = m.location(id)->Some_0;
            let r = payload_bytes(file, m, id);
            let inside = loc.construction_method == 1;
            let s = if inside {
                m.idat->Some_0
            } else {
                file
            };
            &&& inside && m.idat is None ==> r is Err
            &&& !inside || m.idat is Some ==> (r is Ok <==> loc.extents.len() > 0 && forall|k: int|
                0 <= k < loc.extents.len() ==> fits(
                    loc.base_offset,
                    #[trigger] loc.extents[k],
                    s.len(),
                ))
            &&& r is Ok ==> r->Ok_0 == run_of(|k: int| s, loc, loc.extents.len())
        }),
{
    let loc = m.location(id)->Some_0;
    let s = if loc.construction_method == 1 {
        m.idat->Some_0
    } else {
        file
    };
    let sources = |k: int| s;
    lemma_joined(s, "file"@, loc, 0);
    lemma_joined(s, "idat"@, loc, 0);
    assert(run_of(sources, loc, 0) == Seq::<u8>::empty());
    if loc.extents.len() == 1 {
        assert(run_of(sources, loc, 1) =~= extent_bytes(s, loc.base_offset, loc.extents[0])) by {
            assert(run_of(sources, loc, 0) =~= Seq::<u8>::empty());
        }
        assert(fits(loc.base_offset, loc.extents[0], s.len()) <==> forall|k: int|
            0 <= k < loc.extents.len() ==> fits(
                loc.base_offset,
                #[trigger] loc.extents[k],
                s.len(),
            ));
    }
}

proof fn lemma_pieces(file: Seq<u8>, m: MetaView, id: u32, loc: ItemLocationView, i: int)
    requires
        0 <= i <= loc.extents.len(),
    ensures
        ({
            let sources = |k: int| origin_bytes(file, m, id, loc.extents[k].index)->Ok_0;
            let r = pieces_from(file, m, id, loc, i, run_of(sources, loc, i as nat));
            r is Ok ==> r->Ok_0 == run_of(sources, loc, loc.extents.len())
        }),
    decreases loc.extents.len() - i,
{
    if i < loc.extents.len() {
        lemma_pieces(file, m, id, loc, i + 1);
    }
}

/// By construction method 2 every extent of an item is counted in the
/// bytes of another item: the one in the place, counted from 1, that the
/// extent gives among those that the item refers to as `iloc`.
pub proof fn law_item_bytes_out_of_other_items(file: Seq<u8>, m: MetaView, id: u32, k: int)
    requires
        m.location(id) is Some,
        m.location(id)->Some_0.construction_method == 2,
        payload_bytes(file, m, id) is Ok,
        0 <= k < m.location(id)->Some_0.extents.len(),
    ensures
        ({
            let loc = m.location(id)->Some_0;
            let sources = |k: int| origin_bytes(file, m, id, loc.extents[k].index)->Ok_0;
            payload_bytes(file, m, id)->Ok_0 == run_of(sources, loc, loc.extents.len())
        }),
        ({
            let index = m.location(id)->Some_0.extents[k].index;
            let others = m.targets([0x69, 0x6c, 0x6f, 0x63], id);
            origin_bytes(file, m, id, index) is Ok ==> 1 <= index <= others.len() && others[index
                - 1] != id && (m.location(others[index - 1]) matches Some(l)
                && l.construction_method <= 1 && origin_bytes(file, m, id, index) == payload_bytes(
                file,
                m,
                others[index - 1],
            ))
        }),
{
    let loc = m.location(id)->Some_0;
    let sources = |k: int| origin_bytes(file, m, id, loc.extents[k].index)->Ok_0;
    assert(run_of(sources, loc, 0) =~= Seq::<u8>::empty());
    lemma_pieces(file, m, id, loc, 0);
    if loc.extents.len() == 1 {
        assert(run_of(sources, loc, 1) =~= extent_bytes(
            sources(0),
            loc.base_offset,
            loc.extents[0],
        ));
    }
}

// ---------------------------------------------------------------------
// Gain maps

/// Whether a rational is the one at `at`, with this sign.
pub open spec fn is_rational(r: GainMapRational, s: Seq<u8>, at: int, signed: bool) -> bool {
    &&& at + 8 <= s.len()
    &&& r.denominator == be32(s, at + 4)
    &&& r.denominator > 0
    &&& signed ==> r.numerator == if be32(s, at) < 0x8000_0000 {
        be32(s, at) as int
    } else {
        be32(s, at) - 0x1_0000_0000
    }
    &&& !signed ==> r.numerator == be32(s, at)
}

/// Whether a channel is the one at `at`.
pub open spec fn is_channel(c: GainMapChannel, s: Seq<u8>, at: int) -> bool {
    &&& is_rational(c.gain_map_min, s, at, true)
    &&& is_rational(c.gain_map_max, s, at + 8, true)
    &&& is_rational(c.gamma, s, at + 16, false)
    &&& c.gamma.numerator > 0
    &&& is_rational(c.base_offset, s, at + 24, true)
    &&& is_rational(c.alternate_offset, s, at + 32, true)
}

proof fn lemma_signed(v: u32)
    ensures
        v < 0x8000_0000 ==> (v as i32) as i64 == v,
        v >= 0x8000_0000 ==> (v as i32) as i64 == v - 0x1_0000_0000,
{
    assert(v < 0x8000_0000u32 ==> (v as i32) as i64 == v as i64) by (bit_vector);
    assert(v >= 0x8000_0000u32 ==> (v as i32) as i64 == v - 0x1_0000_0000) by (bit_vector);
}

proof fn lemma_channel(s: Seq<u8>, at: int)
    requires
        channel_at(s, at) is Ok,
    ensures
        is_channel(channel_at(s, at)->Ok_0, s, at),
{
    lemma_signed(be32(s, at));
    lemma_signed(be32(s, at + 8));
    lemma_signed(be32(s, at + 24));
    lemma_signed(be32(s, at + 32));
}

proof fn lemma_channels(s: Seq<u8>, at: int, left: nat, done: Seq<GainMapChannel>)
    requires
        channels_from(s, at, left, done) is Ok,
    ensures
        ({
            let all = channels_from(s, at, left, done)->Ok_0;
            &&& all.len() == done.len() + left
            &&& forall|k: int| 0 <= k < done.len() ==> #[trigger] all[k] == done[k]
            &&& forall|k: int|
                0 <= k < left ==> is_channel(
                    #[trigger] all[done.len() + k],
                    s,
                    at + 40 * k,
                )
        }),
    decreases left,
{
    if left > 0 {
        lemma_channel(s, at);
        let c = channel_at(s, at)->Ok_0;
        lemma_channels(s, at + 40, (left - 1) as nat, done.push(c));
        let all = channels_from(s, at, left, done)->Ok_0;
        let next = done.push(c);
        assert forall|k: int| 0 <= k < done.len() implies #[trigger] all[k] == done[k] by {
            assert(all[k] == next[k]);
        }
        assert(all[done.len() as int] == next[done.len() as int]);
        assert forall|k: int| 0 <= k < left implies is_channel(
            #[trigger] all[done.len() + k],
            s,
            at + 40 * k,
        ) by {
            if k > 0 {
                assert(is_channel(all[next.len() + (k - 1)], s, at + 40 + 40 * (k - 1)));
            }
        }
    }
}

/// The metadata of a gain map: two versions, a byte of which the highest
/// bit says that there are three channels and the next that the base
/// colour space is used, the headrooms of the base and of the alternate
/// image, and the channels, 40 bytes each.
pub proof fn law_gain_map_fields(s: Seq<u8>)
    requires
        gain_map_of(s) is Ok,
    ensures
        ({
            let g = gain_map_of(s)->Ok_0;
            &&& g.minimum_version == 0
            &&& g.minimum_version == be16(s, 0)
            &&& g.writer_version == be16(s, 2)
            &&& g.is_multichannel <==> s[4] >= 128
            &&& g.use_base_colour_space <==> s[4] % 128 >= 64
            &&& is_rational(g.base_hdr_headroom, s, 5, false)
            &&& is_rational(g.alternate_hdr_headroom, s, 13, false)
            &&& g.channels.len() == if g.is_multichannel {
                3int
            } else {
                1int
            }
            &&& forall|k: int|
                0 <= k < g.channels.len() ==> is_channel(#[trigger] g.channels[k], s, 21 + 40 * k)
        }),
{
    let n: nat = if s[4] >= 128 {
        3
    } else {
        1
    };
    let none = Seq::<GainMapChannel>::empty();
    lemma_channels(s, 21, n, none);
    let g = gain_map_of(s)->Ok_0;
    assert forall|k: int| 0 <= k < g.channels.len() implies is_channel(
        #[trigger] g.channels[k],
        s,
        21 + 40 * k,
    ) by {
        assert(is_channel(g.channels[none.len() + k], s, 21 + 40 * k));
    }
}

// ---------------------------------------------------------------------
// Regions

/// The width of a field.
pub open spec fn field(large: bool) -> int {
    if large {
        4
    } else {
        2
    }
}

/// An unsigned field.
pub open spec fn plain_at(s: Seq<u8>, at: int, large: bool) -> int {
    if large {
        be32(s, at) as int
    } else {
        be16(s, at) as int
    }
}

/// A signed field.
pub open spec fn signed_value(s: Seq<u8>, at: int, large: bool) -> int {
    let v = plain_at(s, at, large);
    if large {
        if v < 0x8000_0000 {
            v
        } else {
            v - 0x1_0000_0000
        }
    } else if v < 0x8000 {
        v
    } else {
        v - 0x1_0000
    }
}

proof fn lemma_field(s: Seq<u8>, at: int, large: bool)
    ensures
        large ==> be32(s, at) as i32 == signed_value(s, at, large),
        !large ==> (be16(s, at) as i16) as i32 == signed_value(s, at, large),
{
    let v = be32(s, at);
    assert(v < 0x8000_0000u32 ==> v as i32 == v as i64) by (bit_vector);
    assert(v >= 0x8000_0000u32 ==> v as i32 == v - 0x1_0000_0000) by (bit_vector);
    let w = be16(s, at);
    assert(w < 0x8000u16 ==> (w as i16) as i32 == w as i32) by (bit_vector);
    assert(w >= 0x8000u16 ==> (w as i16) as i32 == w - 0x1_0000) by (bit_vector);
}

/// Whether `points` are those that stand at `at`, one behind the other.
pub open spec fn are_points(points: Seq<(i32, i32)>, s: Seq<u8>, at: int, large: bool) -> bool {
    forall|k: int|
        0 <= k < points.len() ==> (#[trigger] points[k]).0 == signed_value(
            s,
            at + 2 * field(large) * k,
            large,
        ) && points[k].1 == signed_value(s, at + 2 * field(large) * k + field(large), large)
}

proof fn lemma_points(s: Seq<u8>, at: int, large: bool, n: nat)
    requires
        points_from(s, at, large, n) is Ok,
    ensures
        ({
            let (points, end) = points_from(s, at, large, n)->Ok_0;
            &&& points.len() == n
            &&& end == at + 2 * field(large) * n
            &&& are_points(points, s, at, large)
        }),
    decreases n,
{
    let w = field(large);
    if n > 0 {
        let next = at + 2 * w;
        lemma_field(s, at, large);
        lemma_field(s, at + w, large);
        lemma_points(s, next, large, (n - 1) as nat);
        let (points, end) = points_from(s, at, large, n)->Ok_0;
        let rest = points_from(s, next, large, (n - 1) as nat)->Ok_0.0;
        assert(2 * w * n == 2 * w + 2 * w * (n - 1)) by (nonlinear_arith);
        assert forall|k: int| 0 <= k < points.len() implies (#[trigger] points[k]).0
            == signed_value(s, at + 2 * w * k, large) && points[k].1 == signed_value(
            s,
            at + 2 * w * k + w,
            large,
        ) by {
            if k > 0 {
                assert(points[k] == rest[k - 1]);
                assert(next + 2 * w * (k - 1) == at + 2 * w * k) by (nonlinear_arith)
                    requires
                        next == at + 2 * w,
                ;
            } else {
                assert(2 * w * 0 == 0) by (nonlinear_arith);
            }
        }
    } else {
        assert(2 * w * 0 == 0) by (nonlinear_arith);
    }
}

/// A region starts with its kind and goes on with its fields, of two or of
/// four bytes each: positions, then extents; of an outline the number of
/// points, then each point.
pub proof fn law_region_fields(s: Seq<u8>, at: int, large: bool, track: bool)
    requires
        0 <= at,
        geometry_at(s, at, large, track) is Ok,
    ensures
        ({
            let (g, end) = geometry_at(s, at, large, track)->Ok_0;
            let w = field(large);
            let a = at + 1;
            let frame = |x: i32, y: i32, u: u32, v: u32|
                x == signed_value(s, a, large) && y == signed_value(s, a + w, large) && u
                    == plain_at(s, a + 2 * w, large) && v == plain_at(s, a + 3 * w, large);
            match g {
                GeometryView::Point { x, y } => s[at] == 0 && x == signed_value(s, a, large) && y
                    == signed_value(s, a + w, large) && end == a + 2 * w,
                GeometryView::Rectangle { x, y, width, height } => s[at] == 1 && frame(
                    x,
                    y,
                    width,
                    height,
                ) && end == a + 4 * w,
                GeometryView::Ellipse { x, y, radius_x, radius_y } => s[at] == 2 && frame(
                    x,
                    y,
                    radius_x,
                    radius_y,
                ) && end == a + 4 * w,
                GeometryView::Polygon { points } => s[at] == 3 && points.len() == plain_at(
                    s,
                    a,
                    large,
                ) && are_points(points, s, a + w, large) && end == a + w + 2 * w * points.len(),
                GeometryView::Polyline { points } => s[at] == 6 && points.len() == plain_at(
                    s,
                    a,
                    large,
                ) && are_points(points, s, a + w, large) && end == a + w + 2 * w * points.len(),
                GeometryView::ReferencedMask { x, y, width, height, mask_ref_idx } => s[at] == 4
                    && frame(x, y, width, height) && (mask_ref_idx is Some <==> track) && (
                mask_ref_idx matches Some(i) ==> i == plain_at(s, a + 4 * w, large)) && end == a
                    + if track {
                    5 * w
                } else {
                    4 * w
                },
                GeometryView::InlineMask {
                    x,
                    y,
                    width,
                    height,
                    mask_coding_method,
                    mask_coding_parameters,
                    data,
                } => s[at] == 5 && frame(x, y, width, height) && mask_coding_method == s[a + 4 * w]
                    && (mask_coding_parameters is Some <==> mask_coding_method != 0) && (
                mask_coding_parameters matches Some(p) ==> p == be32(s, a + 4 * w + 1)) && data
                    == s.subrange(
                    a + 4 * w + if mask_coding_method != 0 {
                        5int
                    } else {
                        1int
                    },
                    s.len() as int,
                ) && end == s.len(),
            }
        }),
{
    let a = at + 1;
    let w = field(large);
    lemma_field(s, a, large);
    lemma_field(s, a + w, large);
    if s[at] == 3 || s[at] == 6 {
        lemma_points(s, a + w, large, plain_at(s, a, large) as nat);
    }
}

/// A region item gives its flags, of which the lowest makes fields wide,
/// the size of what its regions lie on, their number and the regions.
pub proof fn law_region_item_fields(s: Seq<u8>)
    requires
        region_item_of(s) is Ok,
    ensures
        ({
            let r = region_item_of(s)->Ok_0;
            let large = s[1] % 2 == 1;
            let w = field(large);
            &&& s[0] == 0
            &&& r.flags == s[1]
            &&& r.reference_width == plain_at(s, 2, large)
            &&& r.reference_height == plain_at(s, 2 + w, large)
            &&& r.regions.len() == s[2 + 2 * w]
            &&& r.regions.len() > 0 ==> (geometry_at(s, 3 + 2 * w, large, false) matches Ok((g, _))
                && g == r.regions[0])
        }),
{
    let large = s[1] % 2 == 1;
    lemma_regions(s, 3 + 2 * field(large), large, s[2 + 2 * field(large)] as nat);
}

proof fn lemma_regions(s: Seq<u8>, at: int, large: bool, n: nat)
    requires
        geometries_from(s, at, large, n) is Ok,
    ensures
        geometries_from(s, at, large, n)->Ok_0.len() == n,
    decreases n,
{
    if n > 0 {
        let next = geometry_at(s, at, large, false)->Ok_0.1;
        lemma_regions(s, next, large, (n - 1) as nat);
    }
}

/// Whether entry `j` of the items is a derived region item.
pub open spec fn derives_regions(m: MetaView, j: int) -> bool {
    m.items[j].item_type == [0x69u8, 0x64u8, 0x65u8, 0x6eu8] && exists|k: int|
        0 <= k < m.irefs.len() && #[trigger] refers_from(
            m,
            crate::region::REF_TYPE_DRGN,
            m.items[j].id,
            k,
        )
}

/// The derived region items are the `iden` items that refer to something
/// as `drgn`, in order.
pub proof fn law_derived_regions_are_listed(m: MetaView, n: nat)
    requires
        n <= m.items.len(),
    ensures
        crate::region::REF_TYPE_DRGN == [0x64u8, 0x72u8, 0x67u8, 0x6eu8],
        all_kept(
            n as int,
            |j: int| derives_regions(m, j),
            |j: int| derived_region(m, m.items[j].id),
            derived_regions(m, n),
        ),
    decreases n,
{
    let keep = |j: int| derives_regions(m, j);
    let value = |j: int| derived_region(m, m.items[j].id);
    if n == 0 {
        lemma_all_none(keep, value);
    } else {
        law_derived_regions_are_listed(m, (n - 1) as nat);
        lemma_all_next(n - 1, keep, value, derived_regions(m, (n - 1) as nat));
        crate::query_laws::law_references_are_counted(
            m,
            crate::region::REF_TYPE_DRGN,
            m.items[n - 1].id,
            m.irefs.len(),
        );
    }
}

/// A derived region item has a source where its references name one item
/// between them, and keeps the rule with one reference to one item and no
/// bytes of its own.
pub proof fn law_derived_region_has_one_source(m: MetaView, id: u32)
    requires
        m.targets_of([0x64, 0x72, 0x67, 0x6e], id).len() <= usize::MAX,
    ensures
        ({
            let d = derived_region(m, id);
            let inputs = m.targets_of([0x64, 0x72, 0x67, 0x6e], id);
            &&& d.derived_item_id == id
            &&& d.drgn_reference_count == inputs.len()
            &&& inputs.len() == 1 ==> d.source_region_item_id == Some(inputs[0])
            &&& inputs.len() != 1 ==> d.source_region_item_id is None
            &&& d.has_item_body <==> (m.location(id) matches Some(l) && exists|k: int|
                0 <= k < l.extents.len() && (#[trigger] l.extents[k]).length > 0)
            &&& d.compliant() <==> d.drgn_reference_count == 1 && d.drgn_iref_count == 1
                && !d.has_item_body
        }),
{
    if m.location(id) is Some {
        let l = m.location(id)->Some_0;
        if crate::meta::has_bytes(l) {
            let k = choose|k: int| 0 <= k < l.extents.len() && l.extents[k].length > 0;
            assert(l.extents[k].length > 0);
        }
    }
}

// ---------------------------------------------------------------------
// Sample groups

proof fn lemma_runs(s: Seq<u8>, at: int, n: nat, k: int)
    requires
        0 <= at,
        0 <= k < n,
        at + 8 * k + 8 <= s.len(),
    ensures
        k < runs_at(s, at, n).len() <= n,
        runs_at(s, at, n)[k] == (SampleToGroupRun {
            sample_count: be32(s, at + 8 * k),
            group_description_index: be32(s, at + 8 * k + 4),
        }),
    decreases n,
{
    if k > 0 {
        lemma_runs(s, at + 8, (n - 1) as nat, k - 1);
    } else {
        lemma_runs_len(s, at + 8, (n - 1) as nat);
    }
}

proof fn lemma_runs_len(s: Seq<u8>, at: int, n: nat)
    ensures
        runs_at(s, at, n).len() <= n,
    decreases n,
{
    if n > 0 {
        lemma_runs_len(s, at + 8, (n - 1) as nat);
    }
}

/// `sbgp` gives its grouping type, by version 1 a parameter, and runs of
/// samples: how many, and which description is theirs.
pub proof fn law_sbgp_fields(s: Seq<u8>, k: int)
    requires
        sbgp_of(s) is Ok,
        0 <= k,
    ensures
        ({
            let g = sbgp_of(s)->Ok_0;
            let at = if s[0] == 1 {
                12int
            } else {
                8int
            };
            &&& g.grouping_type == [s[4], s[5], s[6], s[7]]
            &&& g.grouping_type_parameter == if s[0] == 1 {
                Some(be32(s, 8))
            } else {
                None
            }
            &&& k < be32(s, at) && k < 0x10_0000 && at + 4 + 8 * k + 8 <= s.len() ==> k
                < g.runs.len() && g.runs[k].sample_count == be32(s, at + 4 + 8 * k)
                && g.runs[k].group_description_index == be32(s, at + 8 + 8 * k)
        }),
{
    let b = s.subrange(4, s.len() as int);
    let at = if s[0] == 1 {
        12int
    } else {
        8int
    };
    assert(crate::box_parser::full_box(s)->Ok_0.2 =~= b);
    lemma_shift(s, 4);
    assert(type_at(b, 0) =~= [s[4], s[5], s[6], s[7]]);
    if k < be32(s, at) && k < 0x10_0000 && at + 4 + 8 * k + 8 <= s.len() {
        let n = crate::sample_group::least(be32(b, at - 4) as int, 0x10_0000) as nat;
        assert(be32(b, at - 4) == be32(s, at));
        lemma_runs(b, at, n, k);
        assert(be32(b, at + 8 * k) == be32(s, at + 8 * k + 4));
        assert(be32(b, at + 8 * k + 4) == be32(s, at + 8 * k + 8));
    }
}

proof fn lemma_shift(s: Seq<u8>, n: int)
    requires
        0 <= n <= s.len(),
    ensures
        forall|at: int|
            0 <= at && at + n + 4 <= s.len() ==> #[trigger] be32(
                s.subrange(n, s.len() as int),
                at,
            ) == be32(s, at + n),
{
}

/// The description of a sample is that of the run that it lies in: as many
/// samples stand before that run as the runs before it have.
pub proof fn law_sample_belongs_to_its_run(runs: Seq<SampleToGroupRun>, sample: int, j: nat)
    requires
        j < runs.len(),
        samples_in(runs, j) <= sample < samples_in(runs, j) + runs[j as int].sample_count,
    ensures
        index_from(runs, 0, sample) == Some(runs[j as int].group_description_index),
{
    lemma_belongs(runs, sample, j, 0);
}

proof fn lemma_belongs(runs: Seq<SampleToGroupRun>, sample: int, j: nat, i: nat)
    requires
        i <= j < runs.len(),
        samples_in(runs, j) <= sample < samples_in(runs, j) + runs[j as int].sample_count,
    ensures
        index_from(runs, i as int, sample - samples_in(runs, i)) == Some(
            runs[j as int].group_description_index,
        ),
    decreases j - i,
{
    if i < j {
        lemma_belongs(runs, sample, j, i + 1);
        lemma_more(runs, i + 1, j);
    }
}

proof fn lemma_more(runs: Seq<SampleToGroupRun>, a: nat, b: nat)
    requires
        a <= b,
    ensures
        samples_in(runs, a) <= samples_in(runs, b),
    decreases b - a,
{
    if a < b {
        lemma_more(runs, a, (b - 1) as nat);
    }
}

/// `sgpd` with entries of one length lists them one behind the other.
pub proof fn law_entries_of_one_length(s: Seq<u8>, at: int, size: u32, n: nat, k: int)
    requires
        0 <= at,
        size > 0,
        0 <= k < n,
        at + size * (k + 1) <= s.len(),
    ensures
        k < entries_at(s, at, size, n).len(),
        entries_at(s, at, size, n)[k] == s.subrange(at + size * k, at + size * (k + 1)),
    decreases n,
{
    if k > 0 {
        assert(at + size + size * k == at + size * (k + 1)) by (nonlinear_arith);
        assert(at + size + size * (k - 1) == at + size * k) by (nonlinear_arith);
        assert(at + size <= at + size * (k + 1)) by (nonlinear_arith)
            requires
                k > 0,
                size > 0,
        ;
        law_entries_of_one_length(s, at + size, size, (n - 1) as nat, k - 1);
    } else {
        assert(size * 0 == 0 && size * (0 + 1) == size) by (nonlinear_arith);
    }
}

/// `sgpd` with entries that give their own length: the first entry stands
/// behind its length, and the others behind it.
pub proof fn law_entries_with_own_lengths(s: Seq<u8>, at: int, n: nat)
    requires
        0 <= at,
        n > 0,
        at + 4 + be32(s, at) <= s.len(),
    ensures
        entries_at(s, at, 0, n).len() > 0,
        entries_at(s, at, 0, n)[0] == s.subrange(at + 4, at + 4 + be32(s, at)),
        entries_at(s, at, 0, n).subrange(1, entries_at(s, at, 0, n).len() as int) == entries_at(
            s,
            at + 4 + be32(s, at),
            0,
            (n - 1) as nat,
        ),
{
    let all = entries_at(s, at, 0, n);
    assert(all.subrange(1, all.len() as int) =~= entries_at(
        s,
        at + 4 + be32(s, at),
        0,
        (n - 1) as nat,
    ));
}

/// `sgpd` gives its grouping type, by version 1 the length of its entries,
/// by later versions the description of samples in no group, and the
/// number of entries.
pub proof fn law_sgpd_fields(s: Seq<u8>)
    requires
        sgpd_of(s) is Ok,
    ensures
        ({
            let g = sgpd_of(s)->Ok_0;
            let at = if s[0] >= 1 {
                12int
            } else {
                8int
            };
            &&& g.version == s[0]
            &&& g.grouping_type == [s[4], s[5], s[6], s[7]]
            &&& g.default_length == if s[0] == 1 {
                Some(be32(s, 8))
            } else {
                None
            }
            &&& g.default_group_description_index == if s[0] >= 2 {
                Some(be32(s, 8))
            } else {
                None
            }
            &&& g.entry_count == be32(s, at)
            &&& s[0] == 0 ==> g.entries.len() == 0
            &&& s[0] >= 1 ==> g.entries == entries_at(
                s.subrange(4, s.len() as int),
                at,
                if s[0] == 1 {
                    be32(s, 8)
                } else {
                    0
                },
                g.entry_count as nat,
            )
        }),
{
    let b = s.subrange(4, s.len() as int);
    assert(crate::box_parser::full_box(s)->Ok_0.2 =~= b);
    lemma_shift(s, 4);
    assert(type_at(b, 0) =~= [s[4], s[5], s[6], s[7]]);
    assert(be32(b, 4) == be32(s, 8));
    if s[0] >= 1 {
        assert(be32(b, 8) == be32(s, 12));
    }
}

// ---------------------------------------------------------------------
// Values

/// The largest bit depth is one of those listed, and none is larger; it is
/// 0 where none is listed.
pub proof fn law_largest_is_largest(s: Seq<u8>, n: nat)
    requires
        n <= s.len(),
    ensures
        n == 0 ==> largest(s, n) == 0,
        forall|i: int| 0 <= i < n ==> #[trigger] s[i] <= largest(s, n),
        n > 0 ==> exists|i: int| 0 <= i < n && #[trigger] s[i] == largest(s, n),
    decreases n,
{
    if n > 0 {
        law_largest_is_largest(s, (n - 1) as nat);
        if n == 1 {
            assert(s[0] == largest(s, 1));
        } else if s[n - 1] <= largest(s, (n - 1) as nat) {
            let i = choose|i: int| 0 <= i < n - 1 && #[trigger] s[i] == largest(s, (n - 1) as nat);
            assert(s[i] == largest(s, n));
        } else {
            assert(s[n - 1] == largest(s, n));
        }
    }
}

/// The colours in effect are those of an `nclx` description, and
/// unspecified, in the limited range, by any other and by none.
pub proof fn law_colours_in_effect(p: u16, t: u16, m: u16, full: bool, other: Option<ColrView>)
    requires
        !(other matches Some(ColrView::Nclx { .. })),
    ensures
        ({
            let c = cicp_of(
                Some(
                    ColrView::Nclx {
                        colour_primaries: p,
                        transfer_characteristics: t,
                        matrix_coefficients: m,
                        full_range: full,
                    },
                ),
            );
            &&& c.colour_primaries == p
            &&& c.transfer_characteristics == t
            &&& c.matrix_coefficients == m
            &&& c.full_range == full
            &&& cicp_of(other) == (CicpTriple {
                colour_primaries: 2,
                transfer_characteristics: 2,
                matrix_coefficients: 2,
                full_range: false,
            })
        }),
{
}

} // verus!
