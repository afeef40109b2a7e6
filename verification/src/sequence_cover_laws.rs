//! The cover image of an image sequence reads back.

use crate::box_parser::{be32, box_at, lemma_box_bounds, lemma_box_same, BoxType, UUID};
use crate::bytes::{box_bytes, law_box_reads_back};
use crate::container::{lists, reads_back, sized_from, stores};
use crate::error::Fault;
use crate::meta::{MetaView, ILOC};
use crate::meta_parse::ItemLocationView;
use crate::moov::{TrackView, MDAT, MOOV};
use crate::mux_items::{as_clap, as_colr};
use crate::mux_laws::{
    found, lemma_found_add, lemma_found_opt, lemma_optional, or_else, when_kind,
};
use crate::mux_props::opt_prop;
use crate::parser::{
    bytes_with_idat, header_of, joined_from, one_slice, origin_bytes, payload_bytes, pieces_from,
    top_from, HeaderView, TopBoxes, FTYP, META,
};
use crate::props::{Ispe, PropertyView, AV1C, CLAP, COLR, ISPE, PIXI};
use crate::sequence::{
    assembled, chunk_starts, cover_fault, cover_file, cover_of, cover_plan, cover_props, rest_box,
    rest_of, track_of, CoverView, SampleView, SequenceEncodeOptions,
};
use crate::still::StillView;
use vstd::prelude::*;

verus! {

/// Boxes that give their sizes are followed by what is added.
proof fn lemma_top_append(s: Seq<u8>, more: Seq<u8>, at: int, seen: TopBoxes)
    requires
        sized_from(s, at),
        0 <= at <= s.len(),
    ensures
        top_from(s, at, seen) is Ok,
        top_from(s + more, at, seen) == top_from(
            s + more,
            s.len() as int,
            top_from(s, at, seen)->Ok_0,
        ),
    decreases s.len() - at,
{
    if at < s.len() {
        lemma_box_same(s, more, at);
        lemma_box_bounds(s, at);
        let b = box_at(s, at)->Ok_0;
        let payload = s.subrange(b.payload, b.end);
        assert((s + more).subrange(b.payload, b.end) =~= payload);
        let next = if b.box_type == FTYP {
            TopBoxes { ftyp: Some(payload), ..seen }
        } else if b.box_type == META {
            TopBoxes { meta: Some(payload), ..seen }
        } else {
            seen
        };
        lemma_top_append(s, more, b.end, next);
    }
}

/// Boxes that give their sizes still do so when one more follows.
proof fn lemma_sized_append(s: Seq<u8>, t: BoxType, body: Seq<u8>, at: int)
    requires
        sized_from(s, at),
        0 <= at <= s.len(),
        t != UUID,
        body.len() + 16 <= u64::MAX,
    ensures
        sized_from(s + box_bytes(t, body), at),
    decreases s.len() - at,
{
    let more = box_bytes(t, body);
    let all = s + more;
    if at < s.len() {
        lemma_box_same(s, more, at);
        lemma_box_bounds(s, at);
        lemma_sized_append(s, t, body, box_at(s, at)->Ok_0.end);
    } else {
        law_box_reads_back(t, body, s, Seq::empty());
        assert(s + more + Seq::<u8>::empty() =~= all);
        lemma_box_size_given(s, t, body);
        assert(sized_from(all, all.len() as int));
    }
}

/// A box that follows has its size in its header.
proof fn lemma_box_size_given(s: Seq<u8>, t: BoxType, body: Seq<u8>)
    requires
        body.len() + 16 <= u64::MAX,
    ensures
        be32(s + box_bytes(t, body), s.len() as int) != 0,
{
    let all = s + box_bytes(t, body);
    let at = s.len() as int;
    assert(all.subrange(at, at + box_bytes(t, body).len()) =~= box_bytes(t, body));
    crate::bytes::lemma_box_size(t, body, all, at);
}

/// One more box behind the others leaves what the header of a file says,
/// where it is no header itself and every box gives its size.
pub proof fn law_header_ignores_what_follows(file: Seq<u8>, t: BoxType, body: Seq<u8>)
    requires
        sized_from(file, 0),
        t != UUID && t != FTYP && t != META,
        body.len() + 16 <= u64::MAX,
    ensures
        header_of(file + box_bytes(t, body)) == match header_of(file) {
            Ok(h) => Ok::<HeaderView, Fault>(
                HeaderView { file: file + box_bytes(t, body), ..h },
            ),
            Err(f) => Err(f),
        },
        sized_from(file + box_bytes(t, body), 0),
{
    let more = box_bytes(t, body);
    let all = file + more;
    let start = TopBoxes { ftyp: None, meta: None };
    lemma_top_append(file, more, 0, start);
    lemma_sized_append(file, t, body, 0);
    law_box_reads_back(t, body, file, Seq::empty());
    assert(file + more + Seq::<u8>::empty() =~= all);
    let seen = top_from(file, 0, start)->Ok_0;
    assert(top_from(all, all.len() as int, seen) == Ok::<TopBoxes, Fault>(seen));
    assert(top_from(all, file.len() as int, seen) == Ok::<TopBoxes, Fault>(seen));
}

proof fn lemma_slice_append(s: Seq<u8>, more: Seq<u8>, what: Seq<char>, loc: ItemLocationView)
    requires
        one_slice(s, what, loc) is Ok,
    ensures
        one_slice(s + more, what, loc) == one_slice(s, what, loc),
{
    let e = loc.extents[0];
    let a = (loc.base_offset + e.offset) as int;
    assert((s + more).subrange(a, a + e.length) =~= s.subrange(a, a + e.length));
}

proof fn lemma_joined_append(
    s: Seq<u8>,
    more: Seq<u8>,
    what: Seq<char>,
    loc: ItemLocationView,
    i: int,
    done: Seq<u8>,
)
    requires
        joined_from(s, what, loc, i, done) is Ok,
    ensures
        joined_from(s + more, what, loc, i, done) == joined_from(s, what, loc, i, done),
    decreases loc.extents.len() - i,
{
    if 0 <= i < loc.extents.len() {
        let e = loc.extents[i];
        let a = (loc.base_offset + e.offset) as int;
        let part = s.subrange(a, a + e.length);
        assert((s + more).subrange(a, a + e.length) =~= part);
        lemma_joined_append(s, more, what, loc, i + 1, done + part);
    }
}

/// The bytes of an item that lies in the file or in `idat` stay where
/// they are when more follows.
proof fn lemma_bytes_append(
    file: Seq<u8>,
    more: Seq<u8>,
    idat: Option<Seq<u8>>,
    loc: ItemLocationView,
)
    requires
        bytes_with_idat(file, idat, loc) is Ok,
    ensures
        bytes_with_idat(file + more, idat, loc) == bytes_with_idat(file, idat, loc),
{
    if loc.construction_method == 0 {
        if loc.extents.len() <= 1 {
            lemma_slice_append(file, more, "file"@, loc);
        } else {
            lemma_joined_append(file, more, "file"@, loc, 0, Seq::empty());
        }
    }
}

proof fn lemma_origin_append(
    file: Seq<u8>,
    more: Seq<u8>,
    meta: MetaView,
    id: u32,
    index: u64,
)
    requires
        origin_bytes(file, meta, id, index) is Ok,
    ensures
        origin_bytes(file + more, meta, id, index) == origin_bytes(file, meta, id, index),
{
    let origin = meta.location(meta.targets(ILOC, id)[index - 1])->0;
    lemma_bytes_append(file, more, meta.idat, origin);
}

proof fn lemma_pieces_append(
    file: Seq<u8>,
    more: Seq<u8>,
    meta: MetaView,
    id: u32,
    loc: ItemLocationView,
    i: int,
    done: Seq<u8>,
)
    requires
        pieces_from(file, meta, id, loc, i, done) is Ok,
    ensures
        pieces_from(file + more, meta, id, loc, i, done) == pieces_from(
            file,
            meta,
            id,
            loc,
            i,
            done,
        ),
    decreases loc.extents.len() - i,
{
    if 0 <= i < loc.extents.len() {
        let e = loc.extents[i];
        lemma_origin_append(file, more, meta, id, e.index);
        let b = origin_bytes(file, meta, id, e.index)->Ok_0;
        let at = (loc.base_offset + e.offset) as int;
        lemma_pieces_append(
            file,
            more,
            meta,
            id,
            loc,
            i + 1,
            done + b.subrange(at, at + e.length),
        );
    }
}

/// The bytes of an item stay where they are when more follows.
pub proof fn law_payload_ignores_what_follows(file: Seq<u8>, more: Seq<u8>, meta: MetaView, id: u32)
    requires
        payload_bytes(file, meta, id) is Ok,
    ensures
        payload_bytes(file + more, meta, id) == payload_bytes(file, meta, id),
{
    let loc = meta.location(id)->0;
    if loc.construction_method != 2 {
        lemma_bytes_append(file, more, meta.idat, loc);
    } else if loc.extents.len() == 1 {
        lemma_origin_append(file, more, meta, id, loc.extents[0].index);
    } else {
        lemma_pieces_append(file, more, meta, id, loc, 0, Seq::empty());
    }
}

/// What the header of a file says of the cover image of a sequence.
pub open spec fn header_keeps(file: Seq<u8>, h: HeaderView, c: CoverView) -> bool {
    &&& h.major_brand == c.major
    &&& h.compatible_brands == c.compatible
    &&& h.meta.primary_item_id == Some(1u32)
    &&& payload_bytes(file, h.meta, 1) == Ok::<Seq<u8>, Fault>(c.payload)
    &&& h.meta.av1c(1) == Some(c.av1c)
    &&& h.meta.ispe(1) == Some(Ispe { width: c.width, height: c.height })
    &&& h.meta.pixi(1) == Some(c.pixi)
    &&& h.meta.colr(1) == c.colr
    &&& h.meta.property(1, CLAP) == as_clap(c.clap)
}

/// Whether a reader finds the cover image in a file.
#[verifier::opaque]
pub open spec fn reads_cover(file: Seq<u8>, c: CoverView) -> bool {
    match header_of(file) {
        Err(_) => false,
        Ok(h) => header_keeps(file, h, c),
    }
}

/// The properties of the cover image read back.
proof fn lemma_cover_props_kept(meta: MetaView, c: CoverView)
    requires
        lists(meta, 1, cover_props(c)),
        c.pixi.len() <= 255,
        !(c.colr matches Some(crate::props::ColrView::Unknown(_))),
    ensures
        meta.av1c(1) == Some(c.av1c),
        meta.ispe(1) == Some(Ispe { width: c.width, height: c.height }),
        meta.pixi(1) == Some(c.pixi),
        meta.colr(1) == c.colr,
        meta.property(1, CLAP) == as_clap(c.clap),
{
    let s = cover_props(c);
    let record = PropertyView::Av1C(c.av1c);
    let extents = PropertyView::Ispe(Ispe { width: c.width, height: c.height });
    let bits = PropertyView::Pixi(c.pixi);
    let s0 = opt_prop(Some(record), true) + opt_prop(Some(extents), false);
    let s1 = s0 + opt_prop(Some(bits), false);
    let s2 = s1 + opt_prop(as_colr(c.colr), false);
    assert(s =~= s2 + opt_prop(as_clap(c.clap), true));
    assert forall|kind: BoxType| #[trigger]
        found(s, kind, 0) == or_else(
            or_else(
                or_else(
                    or_else(
                        when_kind(Some(record), true, kind),
                        when_kind(Some(extents), false, kind),
                    ),
                    when_kind(Some(bits), false, kind),
                ),
                when_kind(as_colr(c.colr), false, kind),
            ),
            when_kind(as_clap(c.clap), true, kind),
        ) by {
        lemma_found_opt(Some(record), true, kind);
        lemma_found_opt(Some(extents), false, kind);
        lemma_found_opt(Some(bits), false, kind);
        lemma_found_opt(as_colr(c.colr), false, kind);
        lemma_found_opt(as_clap(c.clap), true, kind);
        lemma_found_add(opt_prop(Some(record), true), opt_prop(Some(extents), false), kind, 0);
        lemma_found_add(s0, opt_prop(Some(bits), false), kind, 0);
        lemma_found_add(s1, opt_prop(as_colr(c.colr), false), kind, 0);
        lemma_found_add(s2, opt_prop(as_clap(c.clap), true), kind, 0);
    }
    lemma_optional(meta, 1, s, Some(record), true, AV1C);
    lemma_optional(meta, 1, s, Some(extents), false, ISPE);
    lemma_optional(meta, 1, s, Some(bits), false, PIXI);
    lemma_optional(meta, 1, s, as_colr(c.colr), false, COLR);
    lemma_optional(meta, 1, s, as_clap(c.clap), true, CLAP);
}

/// A box is at least as long as its body and the longest header it may
/// have, where it has that header.
proof fn lemma_body_fits(t: BoxType, body: Seq<u8>)
    requires
        box_bytes(t, body).len() <= u64::MAX,
    ensures
        body.len() + 16 <= u64::MAX,
{
}

/// A `moov` box and the samples behind a file leave what the header of
/// the file says.
proof fn lemma_track_behind(still: Seq<u8>, t: TrackView, offsets: Seq<u64>, rest: Seq<u8>)
    requires
        sized_from(still, 0),
        header_of(still) is Ok,
        (still + t.moov(offsets) + rest_box(rest)).len() <= u64::MAX,
    ensures
        ({
            let file = still + t.moov(offsets) + rest_box(rest);
            header_of(file) == Ok::<HeaderView, Fault>(
                HeaderView { file, ..header_of(still)->Ok_0 },
            )
        }),
{
    reveal(TrackView::moov);
    let body = t.mvhd() + box_bytes(crate::moov::TRAK, t.tkhd() + t.mdia(offsets));
    assert(t.moov(offsets) == box_bytes(MOOV, body));
    lemma_body_fits(MOOV, body);
    assert(UUID[0] == 0x75 && FTYP[0] == 0x66 && META[1] == 0x65);
    assert(MOOV[0] == 0x6d && MOOV[1] == 0x6f && MDAT[0] == 0x6d && MDAT[1] == 0x64);
    law_header_ignores_what_follows(still, MOOV, body);
    let middle = still + t.moov(offsets);
    if rest.len() > 0 {
        lemma_body_fits(MDAT, rest);
        law_header_ignores_what_follows(middle, MDAT, rest);
    } else {
        assert(middle + rest_box(rest) =~= middle);
    }
}

/// The cover image of a sequence reads back as it does from the file of
/// the cover image alone: the brands are those of a sequence, and the
/// primary item is the first sample, with the size, the record and the
/// colour description of the sequence.
pub proof fn law_sequence_cover_reads_back(
    v: StillView,
    opts: SequenceEncodeOptions,
    samples: Seq<SampleView>,
    av1c: Seq<u8>,
    still: Seq<u8>,
    file: Seq<u8>,
)
    requires
        assembled(v, opts, samples, av1c) == Ok::<Seq<u8>, Fault>(file),
        cover_file(cover_of(v, samples, av1c)) matches Ok(c) && c.0 == still,
        sized_from(still, 0),
        reads_cover(still, cover_of(v, samples, av1c)),
        file.len() <= u64::MAX,
    ensures
        reads_cover(file, cover_of(v, samples, av1c)),
{
    reveal(reads_cover);
    let h = header_of(still)->Ok_0;
    let more = lemma_behind(v, opts, samples, av1c, still, file, h);
    law_payload_ignores_what_follows(still, more, h.meta, 1);
}

/// The file of a sequence is that of the cover image with more behind it,
/// which leaves what the header says.
proof fn lemma_behind(
    v: StillView,
    opts: SequenceEncodeOptions,
    samples: Seq<SampleView>,
    av1c: Seq<u8>,
    still: Seq<u8>,
    file: Seq<u8>,
    h: HeaderView,
) -> (more: Seq<u8>)
    requires
        assembled(v, opts, samples, av1c) == Ok::<Seq<u8>, Fault>(file),
        cover_file(cover_of(v, samples, av1c)) matches Ok(c) && c.0 == still,
        sized_from(still, 0),
        header_of(still) == Ok::<HeaderView, Fault>(h),
        file.len() <= u64::MAX,
    ensures
        file == still + more,
        header_of(file) == Ok::<HeaderView, Fault>(HeaderView { file, ..h }),
        cover_fault(cover_of(v, samples, av1c)) is None,
{
    reveal(assembled);
    let c = cover_of(v, samples, av1c);
    let cover = cover_file(c)->Ok_0;
    let t = track_of(v, opts, samples, av1c);
    let offsets = chunk_starts(t, still.len(), cover.1 as u64);
    let rest = rest_of(samples, samples.len());
    let more = t.moov(offsets) + rest_box(rest);
    assert(still + t.moov(offsets) + rest_box(rest) =~= still + more);
    lemma_track_behind(still, t, offsets, rest);
    more
}

/// A reader finds the cover image in its file.
pub proof fn lemma_cover_kept(still: Seq<u8>, c: CoverView)
    requires
        cover_fault(c) is None,
        c.pixi.len() <= 255,
        reads_back(still, cover_plan(c)),
    ensures
        reads_cover(still, c),
{
    reveal(reads_cover);
    let meta = header_of(still)->Ok_0.meta;
    let plan = cover_plan(c);
    assert(plan.holds(1));
    assert(stores(still, meta, 1, plan.item(1)));
    lemma_cover_props_kept(meta, c);
}

} // verus!
