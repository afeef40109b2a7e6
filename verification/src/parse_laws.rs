//! Where the fields of the boxes in `meta` stand, and what follows from
//! them.

use crate::audits::{input_offenders, item_offenders, own_offenders};
use crate::box_parser::{be16, be32, be_n, tail, BoxType};
use crate::error::Fault;
use crate::groups::group_of;
use crate::inspect::{coded_leaf, first_leaf};
use crate::meta::MetaView;
use crate::meta_parse::{
    association_at, associations_from, extents_from, hdlr_of, ids_from, infe_of, ipma_entry_at,
    location_at, pitm_of, reference_of, skip, IlocExtent, IlocWidths, PropertyAssociation,
};
use crate::props::{aux_kind, div_up, leading_nonzero, AuxKind};
use crate::query_laws::{first_kept, is_first};
use crate::sequence::{frames_fault, sequence_fault, SequenceEncodeOptions};
use crate::still::{StillChroma, StillView};
use vstd::prelude::*;

verus! {

// ---------------------------------------------------------------------
// Single fields

/// `hdlr` gives its handler type behind four bytes, and `pitm` the primary
/// item, in 16 bits by version 0 and in 32 by any other.
pub proof fn law_handler_and_primary_item(s: Seq<u8>)
    requires
        s.len() >= 12,
    ensures
        hdlr_of(s) == Ok::<BoxType, Fault>([s[8], s[9], s[10], s[11]]),
        s[0] == 0 ==> pitm_of(s) == Ok::<u32, Fault>(be16(s, 4) as u32),
        s[0] != 0 ==> pitm_of(s) == Ok::<u32, Fault>(be32(s, 4)),
{
    let b = tail(s, 4);
    assert(b[0] == s[4] && b[1] == s[5] && b[2] == s[6] && b[3] == s[7]);
    assert(b[4] == s[8] && b[5] == s[9] && b[6] == s[10] && b[7] == s[11]);
}

/// `infe` gives the flags, the id and the type of an item: with an id of
/// 16 bits by version 2 and of 32 bits by version 3.
pub proof fn law_item_entry_fields(s: Seq<u8>)
    requires
        infe_of(s) is Ok,
    ensures
        ({
            let i = infe_of(s)->Ok_0;
            &&& s[0] == 2 || s[0] == 3
            &&& i.flags == s[1] * 0x1_0000 + s[2] * 0x100 + s[3]
            &&& s[0] == 2 ==> i.id == be16(s, 4) && i.item_type == [s[8], s[9], s[10], s[11]]
            &&& s[0] == 3 ==> i.id == be32(s, 4) && i.item_type == [s[10], s[11], s[12], s[13]]
            &&& i.content_type is Some <==> i.item_type == [0x6du8, 0x69u8, 0x6du8, 0x65u8]
            &&& i.item_uri_type is Some <==> i.item_type == [0x75u8, 0x72u8, 0x69u8, 0x20u8]
        }),
{
    let b = tail(s, 4);
    let mime: BoxType = [0x6d, 0x69, 0x6d, 0x65];
    let uri: BoxType = [0x75, 0x72, 0x69, 0x20];
    assert(mime[0] != uri[0]);
    assert(b[0] == s[4] && b[1] == s[5] && b[4] == s[8] && b[5] == s[9] && b[6] == s[10] && b[7]
        == s[11]);
    if s[0] == 3 {
        assert(b[2] == s[6] && b[3] == s[7] && b[8] == s[12] && b[9] == s[13]);
    }
}

// ---------------------------------------------------------------------
// References

/// How many bytes an id takes.
pub open spec fn id_size(wide: bool) -> int {
    if wide {
        4
    } else {
        2
    }
}

/// The id at `at`.
pub open spec fn id_value(s: Seq<u8>, at: int, wide: bool) -> u32 {
    if wide {
        be32(s, at)
    } else {
        be16(s, at) as u32
    }
}

proof fn lemma_ids(s: Seq<u8>, at: int, wide: bool, n: nat)
    requires
        ids_from(s, at, wide, n) is Ok,
    ensures
        ids_from(s, at, wide, n)->Ok_0.len() == n,
        forall|k: int|
            0 <= k < n ==> #[trigger] ids_from(s, at, wide, n)->Ok_0[k] == id_value(
                s,
                at + id_size(wide) * k,
                wide,
            ),
    decreases n,
{
    let w = id_size(wide);
    if n > 0 {
        lemma_ids(s, at + w, wide, (n - 1) as nat);
        let all = ids_from(s, at, wide, n)->Ok_0;
        let rest = ids_from(s, at + w, wide, (n - 1) as nat)->Ok_0;
        assert forall|k: int| 0 <= k < n implies #[trigger] all[k] == id_value(
            s,
            at + w * k,
            wide,
        ) by {
            if k > 0 {
                assert(all[k] == rest[k - 1]);
                assert(at + w + w * (k - 1) == at + w * k) by (nonlinear_arith);
            } else {
                assert(w * 0 == 0) by (nonlinear_arith);
            }
        }
    }
}

/// A reference gives where it starts, how many ends it has and then each
/// end, in order; its type is that of its box.
pub proof fn law_reference_fields(t: BoxType, s: Seq<u8>, wide: bool)
    requires
        reference_of(t, s, wide) is Ok,
    ensures
        ({
            let e = reference_of(t, s, wide)->Ok_0;
            let w = id_size(wide);
            &&& e.reference_type == t
            &&& e.from_id == id_value(s, 0, wide)
            &&& e.to_ids.len() == be16(s, w)
            &&& forall|k: int|
                0 <= k < e.to_ids.len() ==> #[trigger] e.to_ids[k] == id_value(
                    s,
                    w + 2 + w * k,
                    wide,
                )
        }),
{
    let w = id_size(wide);
    lemma_ids(s, w + 2, wide, be16(s, w) as nat);
}

// ---------------------------------------------------------------------
// Property lists

/// Whether an entry of a property list is the one at `at`: its highest bit
/// says that the property is essential, and the others count the
/// properties from 1.
pub open spec fn is_entry(e: PropertyAssociation, s: Seq<u8>, at: int, wide: bool) -> bool {
    if wide {
        be16(s, at) == e.index + 1 + if e.essential {
            0x8000int
        } else {
            0int
        } && e.index < 0x7fff
    } else {
        s[at] == e.index + 1 + if e.essential {
            0x80int
        } else {
            0int
        } && e.index < 0x7f
    }
}

#[verifier::spinoff_prover]
proof fn lemma_entry(s: Seq<u8>, at: int, wide: bool)
    requires
        association_at(s, at, wide) is Ok,
    ensures
        is_entry(association_at(s, at, wide)->Ok_0.0, s, at, wide),
        association_at(s, at, wide)->Ok_0.1 == at + if wide {
            2int
        } else {
            1int
        },
{
}

#[verifier::spinoff_prover]
#[verifier::rlimit(40)]
proof fn lemma_entries(s: Seq<u8>, at: int, wide: bool, n: nat)
    requires
        associations_from(s, at, wide, n) is Ok,
    ensures
        ({
            let (all, end) = associations_from(s, at, wide, n)->Ok_0;
            let w = if wide {
                2int
            } else {
                1int
            };
            &&& all.len() == n
            &&& end == at + w * n
            &&& forall|k: int| 0 <= k < n ==> is_entry(#[trigger] all[k], s, at + w * k, wide)
        }),
    decreases n,
{
    let w = if wide {
        2int
    } else {
        1int
    };
    if n > 0 {
        lemma_entry(s, at, wide);
        lemma_entries(s, at + w, wide, (n - 1) as nat);
        let all = associations_from(s, at, wide, n)->Ok_0.0;
        let rest = associations_from(s, at + w, wide, (n - 1) as nat)->Ok_0.0;
        assert forall|k: int| 0 <= k < n implies is_entry(
            #[trigger] all[k],
            s,
            at + w * k,
            wide,
        ) by {
            if k > 0 {
                assert(all[k] == rest[k - 1]);
                assert(is_entry(rest[k - 1], s, at + w + w * (k - 1), wide));
                assert(at + w + w * (k - 1) == at + w * k) by (nonlinear_arith);
            } else {
                assert(all[0] == association_at(s, at, wide)->Ok_0.0);
                assert(w * 0 == 0) by (nonlinear_arith);
            }
        }
    }
}

/// A property list gives its item, how many entries it has and then each
/// entry, in order.
pub proof fn law_property_list_fields(s: Seq<u8>, at: int, wide_id: bool, wide: bool)
    requires
        0 <= at,
        ipma_entry_at(s, at, wide_id, wide) is Ok,
    ensures
        ({
            let (a, end) = ipma_entry_at(s, at, wide_id, wide)->Ok_0;
            let i = id_size(wide_id);
            let w = if wide {
                2int
            } else {
                1int
            };
            &&& a.item_id == id_value(s, at, wide_id)
            &&& a.entries.len() == s[at + i]
            &&& end == at + i + 1 + w * a.entries.len()
            &&& forall|k: int|
                0 <= k < a.entries.len() ==> is_entry(
                    #[trigger] a.entries[k],
                    s,
                    at + i + 1 + w * k,
                    wide,
                )
        }),
{
    let i = id_size(wide_id);
    lemma_entries(s, at + i + 1, wide, s[at + i] as nat);
}

// ---------------------------------------------------------------------
// Locations

proof fn lemma_extents(s: Seq<u8>, z: IlocWidths, at: int, n: nat)
    requires
        0 <= at <= s.len() <= usize::MAX,
        z.index <= 15,
        z.offset <= 8,
        z.length <= 8,
        s.len() + 15 <= usize::MAX,
        extents_from(s, z, at, n) is Ok,
        z.offset + z.length > 0,
    ensures
        ({
            let (all, end) = extents_from(s, z, at, n)->Ok_0;
            let w = z.index + z.offset + z.length;
            &&& all.len() == n
            &&& forall|k: int|
                0 <= k < n ==> is_extent(#[trigger] all[k], s, z, at + w * k)
        }),
    decreases n,
{
    let w = (z.index + z.offset + z.length) as int;
    if n > 0 {
        let start = skip(at, z.index);
        assert(start == at + z.index);
        lemma_value(s, start, z.offset);
        lemma_value(s, start + z.offset, z.length);
        lemma_extents(s, z, at + w, (n - 1) as nat);
        let all = extents_from(s, z, at, n)->Ok_0.0;
        let rest = extents_from(s, z, at + w, (n - 1) as nat)->Ok_0.0;
        assert forall|k: int| 0 <= k < n implies is_extent(#[trigger] all[k], s, z, at + w * k) by {
            if k > 0 {
                assert(all[k] == rest[k - 1]);
                assert(is_extent(rest[k - 1], s, z, at + w + w * (k - 1)));
                assert(at + w + w * (k - 1) == at + w * k) by (nonlinear_arith);
            } else {
                assert(w * 0 == 0) by (nonlinear_arith);
            }
        }
    }
}

proof fn lemma_value(s: Seq<u8>, at: int, n: nat)
    requires
        n <= 8,
    ensures
        be_n(s, at, n) <= u64::MAX,
{
    reveal_with_fuel(be_n, 9);
}

/// Whether an extent is the one at `at`: behind its index its offset and
/// then its length.
pub open spec fn is_extent(e: IlocExtent, s: Seq<u8>, z: IlocWidths, at: int) -> bool {
    &&& e.offset == be_n(s, at + z.index, z.offset)
    &&& e.length == be_n(s, at + z.index + z.offset, z.length)
    &&& z.index == 0 ==> e.index == 1
}

/// A location gives its item, by versions 1 and 2 its construction method,
/// then the data reference, the base offset, how many extents it has and
/// then each extent, in order.
pub proof fn law_location_fields(s: Seq<u8>, z: IlocWidths, at: int)
    requires
        0 <= at,
        s.len() + 15 <= usize::MAX,
        z.version <= 2,
        z.index <= 15,
        z.base <= 8,
        z.offset <= 8,
        z.length <= 8,
        z.offset + z.length > 0,
        location_at(s, z, at) is Ok,
    ensures
        ({
            let l = location_at(s, z, at)->Ok_0.0;
            let i = id_size(z.version == 2);
            let m = at + i + if z.version == 0 {
                0int
            } else {
                2int
            };
            let w = z.index + z.offset + z.length;
            &&& l.id == id_value(s, at, z.version == 2)
            &&& l.construction_method == if z.version == 0 {
                0int
            } else {
                be16(s, at + i) as int % 16
            }
            &&& l.data_reference_index == be16(s, m)
            &&& l.base_offset == be_n(s, m + 2, z.base)
            &&& l.extents.len() == be16(s, m + 2 + z.base)
            &&& forall|k: int|
                0 <= k < l.extents.len() ==> is_extent(
                    #[trigger] l.extents[k],
                    s,
                    z,
                    m + 4 + z.base + w * k,
                )
        }),
{
    let i = id_size(z.version == 2);
    let m = at + i + if z.version == 0 {
        0int
    } else {
        2int
    };
    lemma_value(s, m + 2, z.base);
    lemma_extents(s, z, m + 4 + z.base, be16(s, m + 2 + z.base) as nat);
}

// ---------------------------------------------------------------------
// Groups

/// An entity group gives its id, how many members it has and then each
/// member, in order; its type is that of its box.
pub proof fn law_group_fields(t: BoxType, s: Seq<u8>)
    requires
        group_of(t, s) is Ok,
    ensures
        ({
            let g = group_of(t, s)->Ok_0;
            &&& g.grouping_type == t
            &&& g.group_id == be32(s, 4)
            &&& g.entity_ids.len() == be32(s, 8)
            &&& forall|k: int|
                0 <= k < g.entity_ids.len() ==> #[trigger] g.entity_ids[k] == be32(s, 12 + 4 * k)
        }),
{
    let b = tail(s, 4);
    assert(b[0] == s[4] && b[1] == s[5] && b[2] == s[6] && b[3] == s[7]);
    assert(b[4] == s[8] && b[5] == s[9] && b[6] == s[10] && b[7] == s[11]);
    let g = group_of(t, s)->Ok_0;
    assert forall|k: int| 0 <= k < g.entity_ids.len() implies #[trigger] g.entity_ids[k] == be32(
        s,
        12 + 4 * k,
    ) by {
        let at = 8 + 4 * k;
        assert(b[at] == s[at + 4] && b[at + 1] == s[at + 5] && b[at + 2] == s[at + 6] && b[at + 3]
            == s[at + 7]);
    }
}

// ---------------------------------------------------------------------
// Derivations

proof fn lemma_first_leaf(m: MetaView, ids: Seq<u32>, i: int, depth: nat)
    requires
        0 <= i <= ids.len(),
        depth <= 16,
        forall|j: int| 0 <= j < i ==> coded_leaf(m, #[trigger] ids[j], depth) is None,
    ensures
        first_kept(
            ids.len() as int,
            |j: int| coded_leaf(m, ids[j], depth) is Some,
            |j: int| coded_leaf(m, ids[j], depth)->Some_0,
            first_leaf(m, ids, i, depth),
        ),
    decreases ids.len() - i,
{
    let keep = |j: int| coded_leaf(m, ids[j], depth) is Some;
    if i < ids.len() {
        if coded_leaf(m, ids[i], depth) is Some {
            assert(is_first(ids.len() as int, keep, i));
        } else {
            lemma_first_leaf(m, ids, i + 1, depth);
        }
    }
}

/// The AV1 item that an item goes back to is the item itself where it is
/// one, and otherwise what the first of its inputs goes back to that goes
/// back to any.
pub proof fn law_leaf_is_the_first(m: MetaView, id: u32, depth: nat)
    requires
        depth <= 15,
        m.item(id) is Some,
    ensures
        ({
            let inputs = m.targets([0x64, 0x69, 0x6d, 0x67], id);
            let is_coded = m.item(id)->Some_0.item_type == [0x61u8, 0x76u8, 0x30u8, 0x31u8];
            &&& is_coded ==> coded_leaf(m, id, depth) == Some(id)
            &&& !is_coded ==> first_kept(
                inputs.len() as int,
                |j: int| coded_leaf(m, inputs[j], depth + 1) is Some,
                |j: int| coded_leaf(m, inputs[j], depth + 1)->Some_0,
                coded_leaf(m, id, depth),
            )
        }),
{
    let inputs = m.targets([0x64, 0x69, 0x6d, 0x67], id);
    lemma_first_leaf(m, inputs, 0, depth + 1);
}

proof fn lemma_joins<A>(a: Seq<A>, b: Seq<A>, x: A)
    ensures
        (a + b).contains(x) <==> a.contains(x) || b.contains(x),
{
    if a.contains(x) {
        let k = choose|k: int| 0 <= k < a.len() && a[k] == x;
        assert((a + b)[k] == x);
    }
    if b.contains(x) {
        let k = choose|k: int| 0 <= k < b.len() && b[k] == x;
        assert((a + b)[a.len() + k] == x);
    }
    if (a + b).contains(x) {
        let k = choose|k: int| 0 <= k < (a + b).len() && (a + b)[k] == x;
        if k < a.len() {
            assert(a[k] == x);
        } else {
            assert(b[k - a.len()] == x);
        }
    }
}

/// The offenders below a grid are found at every level: those of a list of
/// inputs are those of each input, and those of an input are its own
/// transformations and the offenders of its own inputs.
pub proof fn law_offenders_at_every_level(
    m: MetaView,
    ids: Seq<u32>,
    n: nat,
    depth: nat,
    o: (u32, BoxType),
)
    requires
        n <= ids.len(),
        depth <= 16,
    ensures
        input_offenders(m, ids, n, depth).contains(o) <==> exists|k: int|
            0 <= k < n && item_offenders(m, #[trigger] ids[k], depth).contains(o),
        n > 0 ==> ({
            let id = ids[0];
            let inputs = m.targets([0x64, 0x69, 0x6d, 0x67], id);
            item_offenders(m, id, depth).contains(o) <==> own_offenders(m, id).contains(o)
                || input_offenders(m, inputs, inputs.len(), depth + 1).contains(o)
        }),
    decreases n,
{
    if n > 0 {
        let id = ids[0];
        let inputs = m.targets([0x64, 0x69, 0x6d, 0x67], id);
        lemma_joins(
            own_offenders(m, id),
            input_offenders(m, inputs, inputs.len(), depth + 1),
            o,
        );
        law_offenders_at_every_level(m, ids, (n - 1) as nat, depth, o);
        lemma_joins(
            input_offenders(m, ids, (n - 1) as nat, depth),
            item_offenders(m, ids[n - 1], depth),
            o,
        );
        if item_offenders(m, ids[n - 1], depth).contains(o) {
            assert(item_offenders(m, ids[n - 1], depth).contains(o));
        }
    } else {
        assert(input_offenders(m, ids, n, depth) =~= Seq::empty());
    }
}

// ---------------------------------------------------------------------
// What is accepted

/// A still image is valid where it has an extent, a bit depth of 8, 10 or
/// 12, planes of its extents and no sample beyond its bit depth.
pub proof fn law_valid_images(v: StillView)
    ensures
        v.fault() is None <==> {
            let (w, h) = (v.width as int, v.height as int);
            let across = v.chroma == StillChroma::Yuv420 || v.chroma == StillChroma::Yuv422;
            let cw = if across {
                (w + 1) / 2
            } else {
                w
            };
            let ch = if v.chroma == StillChroma::Yuv420 {
                (h + 1) / 2
            } else {
                h
            };
            let area = if v.chroma == StillChroma::Monochrome {
                0
            } else {
                cw * ch
            };
            let most = if v.bit_depth == 8 {
                255int
            } else if v.bit_depth == 10 {
                1023int
            } else {
                4095int
            };
            &&& w > 0
            &&& h > 0
            &&& v.bit_depth == 8 || v.bit_depth == 10 || v.bit_depth == 12
            &&& v.y.len() == w * h
            &&& v.u.len() == area
            &&& v.v.len() == area
            &&& forall|i: int| 0 <= i < v.y.len() ==> #[trigger] v.y[i] <= most
            &&& forall|i: int| 0 <= i < v.u.len() ==> #[trigger] v.u[i] <= most
            &&& forall|i: int| 0 <= i < v.v.len() ==> #[trigger] v.v[i] <= most
        },
{
    let (cw, ch) = v.chroma_size();
    assert(0 * 0 == 0) by (nonlinear_arith);
}

proof fn lemma_no_fault(frames: Seq<StillView>, i: int)
    requires
        0 <= i <= frames.len(),
        forall|j: int|
            i <= j < frames.len() ==> (#[trigger] frames[j]).fault() is None && frames[j].width
                == frames[0].width && frames[j].height == frames[0].height
                && frames[j].bit_depth == frames[0].bit_depth && frames[j].chroma
                == frames[0].chroma && frames[j].alpha is None && frames[j].depth_map is None,
    ensures
        frames_fault(frames, i) is None,
    decreases frames.len() - i,
{
    if i < frames.len() {
        assert(frames[i].fault() is None);
        lemma_no_fault(frames, i + 1);
    }
}

/// A sequence of valid images that are all alike and have no auxiliary
/// image is accepted, up to 16384 pixels either way, with a duration and a
/// group length that is allowed or not asked for.
pub proof fn law_like_images_are_accepted(frames: Seq<StillView>, opts: SequenceEncodeOptions)
    requires
        frames.len() > 0,
        opts.timescale > 0,
        opts.frame_duration > 0,
        opts.all_intra || 1 <= opts.gop_length <= 64,
        frames[0].width <= 16384,
        frames[0].height <= 16384,
        forall|j: int|
            0 <= j < frames.len() ==> (#[trigger] frames[j]).fault() is None && frames[j].width
                == frames[0].width && frames[j].height == frames[0].height
                && frames[j].bit_depth == frames[0].bit_depth && frames[j].chroma
                == frames[0].chroma && frames[j].alpha is None && frames[j].depth_map is None,
    ensures
        sequence_fault(frames, opts) is None,
{
    lemma_no_fault(frames, 0);
}

// ---------------------------------------------------------------------
// Values

/// The kinds of auxiliary images by their names.
pub proof fn law_auxiliary_kinds_by_name(urn: Seq<char>)
    ensures
        aux_kind(urn) == AuxKind::Alpha <==> urn
            == "urn:mpeg:mpegB:cicp:systems:auxiliary:alpha"@ || urn
            == "urn:mpeg:hevc:2015:auxid:1"@,
        aux_kind(urn) == AuxKind::DepthMap <==> urn
            == "urn:mpeg:mpegB:cicp:systems:auxiliary:depth"@ || urn
            == "urn:mpeg:hevc:2015:auxid:2"@,
        aux_kind(urn) == AuxKind::HdrGainMap <==> urn
            == "urn:com:apple:photo:2020:aux:hdrgainmap"@,
{
    reveal_strlit("urn:mpeg:mpegB:cicp:systems:auxiliary:alpha");
    reveal_strlit("urn:mpeg:hevc:2015:auxid:1");
    reveal_strlit("urn:mpeg:mpegB:cicp:systems:auxiliary:depth");
    reveal_strlit("urn:mpeg:hevc:2015:auxid:2");
    reveal_strlit("urn:com:apple:photo:2020:aux:hdrgainmap");
    let a = "urn:mpeg:mpegB:cicp:systems:auxiliary:alpha"@;
    let b = "urn:mpeg:hevc:2015:auxid:1"@;
    let c = "urn:mpeg:mpegB:cicp:systems:auxiliary:depth"@;
    let d = "urn:mpeg:hevc:2015:auxid:2"@;
    let e = "urn:com:apple:photo:2020:aux:hdrgainmap"@;
    assert(a.len() == 43 && b.len() == 26 && c.len() == 43 && d.len() == 26 && e.len() == 39);
    assert(a[38] != c[38]);
    assert(b[25] != d[25]);
}

/// A quotient that is rounded up is the least that makes up the dividend.
pub proof fn law_rounding_up(n: int, d: int)
    requires
        0 <= n,
        0 < d,
    ensures
        div_up(n, d) * d >= n,
        (div_up(n, d) - 1) * d < n,
{
    vstd::arithmetic::div_mod::lemma_fundamental_div_mod(n, d);
    vstd::arithmetic::div_mod::lemma_mod_bound(n, d);
    let q = n / d;
    assert(q * d == d * q && (q + 1) * d == d * q + d && (q - 1) * d == d * q - d) by (nonlinear_arith);
}

/// The layers that are documented are those before the first without a
/// size.
pub proof fn law_layers_before_the_first_empty(s: Seq<u32>)
    ensures
        leading_nonzero(s) <= s.len(),
        forall|i: int| 0 <= i < leading_nonzero(s) ==> #[trigger] s[i] != 0,
        leading_nonzero(s) < s.len() ==> s[leading_nonzero(s) as int] == 0,
    decreases s.len(),
{
    if s.len() > 0 && s[0] != 0 {
        let t = s.skip(1);
        law_layers_before_the_first_empty(t);
        assert forall|i: int| 0 <= i < leading_nonzero(s) implies #[trigger] s[i] != 0 by {
            if i > 0 {
                assert(t[i - 1] == s[i]);
            }
        }
        if leading_nonzero(s) < s.len() {
            assert(t[leading_nonzero(t) as int] == s[leading_nonzero(s) as int]);
        }
    }
}

} // verus!
