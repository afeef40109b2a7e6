//! What the boxes of a track say, field by field, as they are read.

use crate::box_parser::{be16, be32, be64, box_at, type_at, BoxType, UUID};
use crate::bytes::{
    b16, b32, b32s, b64, b64s, box_bytes, full_box_bytes, law_b32_reads_back, law_b64_reads_back,
    law_box_reads_back, narrow_b64s, zeros,
};
use crate::container::{body_of, PICT};
use crate::moov::{
    stco_of, wide_chunks, TrackView, CODER_NAME, HANDLER_NAME, UNITY_MATRIX,
};
use crate::props::PropertyView;
use vstd::prelude::*;

verus! {

/// A 32-bit field between other bytes.
proof fn lemma_at32(s: Seq<u8>, before: Seq<u8>, v: u32, after: Seq<u8>)
    requires
        s == before + b32(v) + after,
    ensures
        be32(s, before.len() as int) == v,
{
    let at = before.len() as int;
    assert(s.subrange(at, at + 4) =~= b32(v));
    law_b32_reads_back(v, s, at);
}

/// A 64-bit field between other bytes.
proof fn lemma_at64(s: Seq<u8>, before: Seq<u8>, v: u64, after: Seq<u8>)
    requires
        s == before + b64(v) + after,
    ensures
        be64(s, before.len() as int) == v,
{
    let at = before.len() as int;
    assert(s.subrange(at, at + 8) =~= b64(v));
    law_b64_reads_back(v, s, at);
}

/// Whether `s` is one box of this type with this body.
pub open spec fn is_box(s: Seq<u8>, t: BoxType, body: Seq<u8>) -> bool {
    box_at(s, 0) matches Ok(b) && b.box_type == t && b.end == s.len() && s.subrange(
        b.payload,
        b.end,
    ) == body
}

/// The body of a box.
pub open spec fn body_in(s: Seq<u8>) -> Seq<u8> {
    s.subrange(box_at(s, 0)->Ok_0.payload, box_at(s, 0)->Ok_0.end)
}

/// The body of a full box, behind its version and flags.
pub open spec fn full_body_in(s: Seq<u8>) -> Seq<u8> {
    s.subrange(box_at(s, 0)->Ok_0.payload + 4, box_at(s, 0)->Ok_0.end)
}

/// Whether `s` is one full box of this type, with this version, these
/// flags and this body.
pub open spec fn is_full_box(s: Seq<u8>, t: BoxType, version: u8, flags: u32, body: Seq<u8>) -> bool {
    box_at(s, 0) matches Ok(b) && b.box_type == t && b.end == s.len() && b.payload + 4 <= s.len()
        && s[b.payload] == version && be32(s, b.payload) % 0x100_0000 == flags && s.subrange(
        b.payload + 4,
        b.end,
    ) == body
}

proof fn lemma_is_box(t: BoxType, body: Seq<u8>)
    requires
        t != UUID,
        body.len() + 16 <= u64::MAX,
    ensures
        is_box(box_bytes(t, body), t, body),
{
    let s = box_bytes(t, body);
    law_box_reads_back(t, body, Seq::empty(), Seq::empty());
    assert(Seq::<u8>::empty() + s + Seq::<u8>::empty() =~= s);
}

#[verifier::spinoff_prover]
proof fn lemma_is_full_box(t: BoxType, version: u8, flags: u32, body: Seq<u8>)
    requires
        t != UUID,
        flags < 0x100,
        body.len() + 20 <= u64::MAX,
    ensures
        is_full_box(full_box_bytes(t, version, flags, body), t, version, flags, body),
{
    let head = seq![
        version,
        (flags / 0x1_0000 % 0x100) as u8,
        (flags / 0x100 % 0x100) as u8,
        (flags % 0x100) as u8,
    ];
    let s = full_box_bytes(t, version, flags, body);
    assert(head =~= seq![version, 0u8, 0u8, flags as u8]);
    lemma_is_box(t, head + body);
    let b = box_at(s, 0)->Ok_0;
    lemma_version(s, b.payload, b.end, version, flags as u8, body);
}

/// Version, flags and body of a full box.
#[verifier::spinoff_prover]
proof fn lemma_version(s: Seq<u8>, at: int, end: int, version: u8, flags: u8, body: Seq<u8>)
    requires
        0 <= at <= end <= s.len(),
        s.subrange(at, end) == seq![version, 0u8, 0u8, flags] + body,
    ensures
        at + 4 <= end,
        s[at] == version,
        be32(s, at) % 0x100_0000 == flags,
        s.subrange(at + 4, end) == body,
{
    let inner = seq![version, 0u8, 0u8, flags] + body;
    assert(inner.len() == end - at);
    assert(s[at] == inner[0] && s[at + 1] == inner[1] && s[at + 2] == inner[2] && s[at + 3]
        == inner[3]);
    assert(be16(s, at) == version * 0x100);
    assert(be16(s, at + 2) == flags);
    assert(s.subrange(at + 4, end) =~= body) by {
        assert forall|i: int| 0 <= i < body.len() implies s.subrange(at + 4, end)[i]
            == body[i] by {
            assert(s.subrange(at, end)[i + 4] == inner[i + 4]);
        }
    }
}

/// The times of a track: when it was made and changed is not said, and its
/// time scale and its whole duration are, in 64 bits where 32 do not hold
/// the duration.
#[verifier::spinoff_prover]
pub proof fn law_times_are_said(t: TrackView)
    requires
        t.sample_sizes.len() * t.frame_duration <= u64::MAX,
    ensures
        ({
            let total = t.sample_sizes.len() * t.frame_duration;
            &&& total <= u32::MAX ==> t.version() == 0 && be32(t.times(), 0) == 0 && be32(
                t.times(),
                4,
            ) == 0 && be32(t.times(), 8) == t.timescale && be32(t.times(), 12) == total
                && t.times().len() == 16
            &&& total > u32::MAX ==> t.version() == 1 && be64(t.times(), 0) == 0 && be64(
                t.times(),
                8,
            ) == 0 && be32(t.times(), 16) == t.timescale && be64(t.times(), 20) == total
                && t.times().len() == 28
            &&& total <= u32::MAX ==> be32(t.track_times(), 8) == 1 && be32(t.track_times(), 16)
                == total && t.track_times().len() == 20
            &&& total > u32::MAX ==> be32(t.track_times(), 16) == 1 && be64(t.track_times(), 24)
                == total && t.track_times().len() == 32
        }),
{
    let total = t.sample_sizes.len() * t.frame_duration;
    assert(total >= 0) by (nonlinear_arith)
        requires
            total == t.sample_sizes.len() * t.frame_duration,
            t.frame_duration >= 0,
    ;
    if total <= u32::MAX {
        let d = total as u32;
        lemma_words4(0, 0, t.timescale, d);
        lemma_words4(0, 0, 1, 0);
        lemma_grow(b32(0) + b32(0) + b32(1) + b32(0), d);
    } else {
        let d = total as u64;
        lemma_wide_times(t.timescale, d);
        lemma_wide_track_times(d);
    }
}

#[verifier::spinoff_prover]
proof fn lemma_wide_times(scale: u32, d: u64)
    ensures
        ({
            let s = b64(0) + b64(0) + b32(scale) + b64(d);
            &&& s.len() == 28
            &&& be64(s, 0) == 0
            &&& be64(s, 8) == 0
            &&& be32(s, 16) == scale
            &&& be64(s, 20) == d
        }),
{
    let none = Seq::<u8>::empty();
    let s = b64(0) + b64(0) + b32(scale) + b64(d);
    assert(s =~= none + b64(0) + (b64(0) + b32(scale) + b64(d)));
    lemma_at64(s, none, 0, b64(0) + b32(scale) + b64(d));
    assert(s =~= b64(0) + b64(0) + (b32(scale) + b64(d)));
    lemma_at64(s, b64(0), 0, b32(scale) + b64(d));
    lemma_at32(s, b64(0) + b64(0), scale, b64(d));
    assert(s =~= (b64(0) + b64(0) + b32(scale)) + b64(d) + none);
    lemma_at64(s, b64(0) + b64(0) + b32(scale), d, none);
}

#[verifier::spinoff_prover]
proof fn lemma_wide_track_times(d: u64)
    ensures
        ({
            let s = b64(0) + b64(0) + b32(1) + b32(0) + b64(d);
            &&& s.len() == 32
            &&& be32(s, 16) == 1
            &&& be64(s, 24) == d
        }),
{
    let none = Seq::<u8>::empty();
    let s = b64(0) + b64(0) + b32(1) + b32(0) + b64(d);
    assert(s =~= (b64(0) + b64(0)) + b32(1) + (b32(0) + b64(d)));
    lemma_at32(s, b64(0) + b64(0), 1, b32(0) + b64(d));
    assert(s =~= (b64(0) + b64(0) + b32(1) + b32(0)) + b64(d) + none);
    lemma_at64(s, b64(0) + b64(0) + b32(1) + b32(0), d, none);
}

proof fn lemma_list32(head: Seq<u8>, s: Seq<u32>, n: nat, i: int)
    requires
        n <= s.len(),
        0 <= i < n,
    ensures
        be32(head + b32s(s, n), head.len() + 4 * i) == s[i],
        b32s(s, n).len() == 4 * n,
    decreases n,
{
    let all = head + b32s(s, n);
    let before = b32s(s, (n - 1) as nat);
    lemma_list32_len(s, (n - 1) as nat);
    if i == n - 1 {
        assert(all =~= (head + before) + b32(s[i]) + Seq::<u8>::empty());
        lemma_at32(all, head + before, s[i], Seq::empty());
    } else {
        lemma_list32(head, s, (n - 1) as nat, i);
        let part = head + before;
        let at = head.len() + 4 * i;
        assert(all =~= part + b32(s[n - 1]));
        assert(all[at] == part[at] && all[at + 1] == part[at + 1] && all[at + 2] == part[at + 2]
            && all[at + 3] == part[at + 3]);
    }
}

proof fn lemma_list32_len(s: Seq<u32>, n: nat)
    ensures
        b32s(s, n).len() == 4 * n,
    decreases n,
{
    if n > 0 {
        lemma_list32_len(s, (n - 1) as nat);
    }
}

proof fn lemma_offsets(head: Seq<u8>, s: Seq<u64>, n: nat, i: int)
    requires
        n <= s.len(),
        0 <= i < n,
    ensures
        be64(head + b64s(s, n), head.len() + 8 * i) == s[i],
        s[i] <= u32::MAX ==> be32(head + narrow_b64s(s, n), head.len() + 4 * i) == s[i],
        b64s(s, n).len() == 8 * n,
        narrow_b64s(s, n).len() == 4 * n,
    decreases n,
{
    let before = b64s(s, (n - 1) as nat);
    let narrow = narrow_b64s(s, (n - 1) as nat);
    lemma_offsets_len(s, (n - 1) as nat);
    if i == n - 1 {
        let all = head + b64s(s, n);
        assert(all =~= (head + before) + b64(s[i]) + Seq::<u8>::empty());
        lemma_at64(all, head + before, s[i], Seq::empty());
        let all = head + narrow_b64s(s, n);
        assert(all =~= (head + narrow) + b32(s[i] as u32) + Seq::<u8>::empty());
        lemma_at32(all, head + narrow, s[i] as u32, Seq::empty());
    } else {
        lemma_offsets(head, s, (n - 1) as nat, i);
        let all = head + b64s(s, n);
        let part = head + before;
        let at = head.len() + 8 * i;
        assert(all =~= part + b64(s[n - 1]));
        assert(forall|k: int| 0 <= k < 8 ==> #[trigger] all[at + k] == part[at + k]);
        assert(all[at] == part[at + 0] && all[at + 1] == part[at + 1] && all[at + 2] == part[at + 2]
            && all[at + 3] == part[at + 3] && all[at + 4] == part[at + 4] && all[at + 5] == part[at
            + 5] && all[at + 6] == part[at + 6] && all[at + 7] == part[at + 7]);
        let all = head + narrow_b64s(s, n);
        let part = head + narrow;
        let at = head.len() + 4 * i;
        assert(all =~= part + b32(s[n - 1] as u32));
        assert(all[at] == part[at] && all[at + 1] == part[at + 1] && all[at + 2] == part[at + 2]
            && all[at + 3] == part[at + 3]);
    }
}

proof fn lemma_offsets_len(s: Seq<u64>, n: nat)
    ensures
        b64s(s, n).len() == 8 * n,
        narrow_b64s(s, n).len() == 4 * n,
    decreases n,
{
    if n > 0 {
        lemma_offsets_len(s, (n - 1) as nat);
    }
}

/// `mvhd` gives the times of the track and says that the next track would
/// be the second; `tkhd` says that the track is enabled and shown, and
/// gives its coded extents as whole numbers of 16.16 bits; `mdhd` gives
/// the times again.
#[verifier::spinoff_prover]
pub proof fn law_headers_of_a_track(t: TrackView)
    requires
        t.coded_width <= 0xffff,
        t.coded_height <= 0xffff,
    ensures
        ({
            let body = full_body_in(t.mvhd());
            &&& is_full_box(
                t.mvhd(),
                [0x6d, 0x76, 0x68, 0x64],
                t.version(),
                0,
                body,
            )
            &&& body.len() == t.times().len() + 80
            &&& body.subrange(0, t.times().len() as int) == t.times()
            &&& be32(body, body.len() - 4) == 2
        }),
        ({
            let body = full_body_in(t.tkhd());
            &&& is_full_box(
                t.tkhd(),
                [0x74, 0x6b, 0x68, 0x64],
                t.version(),
                3,
                body,
            )
            &&& body.len() == t.track_times().len() + 60
            &&& body.subrange(0, t.track_times().len() as int) == t.track_times()
            &&& be32(body, body.len() - 8) == t.coded_width * 0x1_0000
            &&& be32(body, body.len() - 4) == t.coded_height * 0x1_0000
        }),
        ({
            let body = full_body_in(t.mdhd());
            &&& is_full_box(
                t.mdhd(),
                [0x6d, 0x64, 0x68, 0x64],
                t.version(),
                0,
                body,
            )
            &&& body.len() == t.times().len() + 4
            &&& body.subrange(0, t.times().len() as int) == t.times()
        }),
{
    lemma_mvhd(t);
    lemma_tkhd(t);
    lemma_mdhd(t);
}

/// Bytes, a part that ends in a field, and where they stand.
proof fn lemma_ends_in(first: Seq<u8>, mid: Seq<u8>, v: u32)
    ensures
        ({
            let s = first + mid + b32(v);
            &&& s.len() == first.len() + mid.len() + 4
            &&& s.subrange(0, first.len() as int) == first
            &&& be32(s, s.len() - 4) == v
        }),
{
    let s = first + mid + b32(v);
    assert(s =~= (first + mid) + b32(v) + Seq::<u8>::empty());
    lemma_at32(s, first + mid, v, Seq::empty());
    assert(s.subrange(0, first.len() as int) =~= first);
}

#[verifier::spinoff_prover]
proof fn lemma_mvhd(t: TrackView)
    ensures
        ({
            let body = full_body_in(t.mvhd());
            &&& is_full_box(t.mvhd(), [0x6d, 0x76, 0x68, 0x64], t.version(), 0, body)
            &&& body.len() == t.times().len() + 80
            &&& body.subrange(0, t.times().len() as int) == t.times()
            &&& be32(body, body.len() - 4) == 2
        }),
{
    let mvhd: BoxType = [0x6d, 0x76, 0x68, 0x64];
    assert(mvhd[0] != UUID[0]);
    lemma_list32_len(UNITY_MATRIX@, 9);
    let matrix = b32s(UNITY_MATRIX@, 9);
    let mid = b32(0x1_0000) + b16(0x100) + zeros(10) + matrix + zeros(24);
    assert(t.times() + b32(0x1_0000) + b16(0x100) + zeros(10) + matrix + zeros(24) + b32(2)
        =~= t.times() + mid + b32(2));
    lemma_ends_in(t.times(), mid, 2);
    lemma_is_full_box(mvhd, t.version(), 0, t.times() + mid + b32(2));
}

#[verifier::spinoff_prover]
proof fn lemma_tkhd(t: TrackView)
    requires
        t.coded_width <= 0xffff,
        t.coded_height <= 0xffff,
    ensures
        ({
            let body = full_body_in(t.tkhd());
            &&& is_full_box(t.tkhd(), [0x74, 0x6b, 0x68, 0x64], t.version(), 3, body)
            &&& body.len() == t.track_times().len() + 60
            &&& body.subrange(0, t.track_times().len() as int) == t.track_times()
            &&& be32(body, body.len() - 8) == t.coded_width * 0x1_0000
            &&& be32(body, body.len() - 4) == t.coded_height * 0x1_0000
        }),
{
    let tkhd: BoxType = [0x74, 0x6b, 0x68, 0x64];
    assert(tkhd[0] != UUID[0]);
    lemma_list32_len(UNITY_MATRIX@, 9);
    let (w, h) = ((t.coded_width * 0x1_0000) as u32, (t.coded_height * 0x1_0000) as u32);
    let first = t.track_times();
    let mid = zeros(16) + b32s(UNITY_MATRIX@, 9);
    let body = first + zeros(16) + b32s(UNITY_MATRIX@, 9) + b32(w) + b32(h);
    assert(body =~= (first + mid + b32(w)) + b32(h));
    lemma_ends_in(first, mid, w);
    lemma_grow(first + mid + b32(w), h);
    assert(body.subrange(0, first.len() as int) =~= first);
    lemma_is_full_box(tkhd, t.version(), 3, body);
}

#[verifier::spinoff_prover]
proof fn lemma_mdhd(t: TrackView)
    ensures
        ({
            let body = full_body_in(t.mdhd());
            &&& is_full_box(t.mdhd(), [0x6d, 0x64, 0x68, 0x64], t.version(), 0, body)
            &&& body.len() == t.times().len() + 4
            &&& body.subrange(0, t.times().len() as int) == t.times()
        }),
{
    let mdhd: BoxType = [0x6d, 0x64, 0x68, 0x64];
    assert(mdhd[0] != UUID[0]);
    let body = t.times() + b16(0x55c4) + b16(0);
    lemma_is_full_box(mdhd, t.version(), 0, body);
    assert(body.subrange(0, t.times().len() as int) =~= t.times());
}

/// Whether the body of `stsz` lists these sizes one by one.
pub open spec fn lists_sizes(body: Seq<u8>, sizes: Seq<u32>) -> bool {
    &&& body.len() == 8 + 4 * sizes.len()
    &&& be32(body, 0) == 0
    &&& be32(body, 4) == sizes.len()
    &&& forall|i: int| 0 <= i < sizes.len() ==> be32(body, 8 + 4 * i) == #[trigger] sizes[i]
}

/// Whether the body of `stss` or `stco` lists these numbers.
pub open spec fn lists_numbers(body: Seq<u8>, numbers: Seq<u32>) -> bool {
    &&& body.len() == 4 + 4 * numbers.len()
    &&& be32(body, 0) == numbers.len()
    &&& forall|i: int| 0 <= i < numbers.len() ==> be32(body, 4 + 4 * i) == #[trigger] numbers[i]
}

/// The samples of a track: `stts` says that all of them last as long, in
/// one entry; `stsz` gives the size of each; `stss` gives the numbers of
/// the sync samples, and is absent where every sample is one.
#[verifier::spinoff_prover]
pub proof fn law_samples_of_a_track(t: TrackView)
    requires
        t.sample_sizes.len() <= u32::MAX,
        t.sync_samples matches Some(s) ==> s.len() <= u32::MAX,
    ensures
        ({
            let body = full_body_in(t.stts());
            &&& is_full_box(t.stts(), [0x73, 0x74, 0x74, 0x73], 0, 0, body)
            &&& body.len() == 12
            &&& be32(body, 0) == 1
            &&& be32(body, 4) == t.sample_sizes.len()
            &&& be32(body, 8) == t.frame_duration
        }),
        ({
            let body = full_body_in(t.stsz());
            &&& is_full_box(t.stsz(), [0x73, 0x74, 0x73, 0x7a], 0, 0, body)
            &&& lists_sizes(body, t.sample_sizes)
        }),
        t.sync_samples is None ==> t.stss().len() == 0,
        t.sync_samples matches Some(s) ==> {
            let body = full_body_in(t.stss());
            &&& is_full_box(t.stss(), [0x73, 0x74, 0x73, 0x73], 0, 0, body)
            &&& lists_numbers(body, s)
        },
{
    let stts: BoxType = [0x73, 0x74, 0x74, 0x73];
    let stsz: BoxType = [0x73, 0x74, 0x73, 0x7a];
    let stss: BoxType = [0x73, 0x74, 0x73, 0x73];
    assert(stts[0] != UUID[0] && stsz[0] != UUID[0] && stss[0] != UUID[0]);
    let n = t.sample_sizes.len();
    lemma_words3(1, n as u32, t.frame_duration);
    lemma_is_full_box(stts, 0, 0, b32(1) + b32(n as u32) + b32(t.frame_duration));
    lemma_size_list(t.sample_sizes);
    lemma_is_full_box(stsz, 0, 0, b32(0) + b32(n as u32) + b32s(t.sample_sizes, n));
    if t.sync_samples is Some {
        let s = t.sync_samples->Some_0;
        lemma_number_list(s);
        lemma_is_full_box(stss, 0, 0, b32(s.len() as u32) + b32s(s, s.len()));
    }
}

#[verifier::spinoff_prover]
proof fn lemma_words3(a: u32, b: u32, c: u32)
    ensures
        ({
            let s = b32(a) + b32(b) + b32(c);
            s.len() == 12 && be32(s, 0) == a && be32(s, 4) == b && be32(s, 8) == c
        }),
{
    let none = Seq::<u8>::empty();
    lemma_grow(none, a);
    assert(none + b32(a) =~= b32(a));
    lemma_grow(b32(a), b);
    lemma_grow(b32(a) + b32(b), c);
}

#[verifier::spinoff_prover]
proof fn lemma_size_list(sizes: Seq<u32>)
    requires
        sizes.len() <= u32::MAX,
    ensures
        lists_sizes(
            b32(0) + b32(sizes.len() as u32) + b32s(sizes, sizes.len()),
            sizes,
        ),
{
    let n = sizes.len() as u32;
    let list = b32s(sizes, sizes.len());
    let body = b32(0) + b32(n) + list;
    lemma_list32_len(sizes, sizes.len());
    lemma_at32(body, b32(0), n, list);
    assert(body =~= Seq::<u8>::empty() + b32(0) + (b32(n) + list));
    lemma_at32(body, Seq::empty(), 0, b32(n) + list);
    assert forall|i: int| 0 <= i < sizes.len() implies be32(body, 8 + 4 * i)
        == #[trigger] sizes[i] by {
        lemma_list32(b32(0) + b32(n), sizes, sizes.len(), i);
    }
}

#[verifier::spinoff_prover]
proof fn lemma_number_list(s: Seq<u32>)
    requires
        s.len() <= u32::MAX,
    ensures
        lists_numbers(b32(s.len() as u32) + b32s(s, s.len()), s),
{
    let n = s.len() as u32;
    let list = b32s(s, s.len());
    let body = b32(n) + list;
    lemma_list32_len(s, s.len());
    assert(body =~= Seq::<u8>::empty() + b32(n) + list);
    lemma_at32(body, Seq::empty(), n, list);
    assert forall|i: int| 0 <= i < s.len() implies be32(body, 4 + 4 * i) == #[trigger] s[i] by {
        lemma_list32(b32(n), s, s.len(), i);
    }
}

#[verifier::spinoff_prover]
proof fn lemma_wide_list(s: Seq<u64>)
    requires
        s.len() <= u32::MAX,
    ensures
        ({
            let body = b32(s.len() as u32) + b64s(s, s.len());
            &&& body.len() == 4 + 8 * s.len()
            &&& be32(body, 0) == s.len()
            &&& forall|i: int| 0 <= i < s.len() ==> be64(body, 4 + 8 * i) == #[trigger] s[i]
        }),
{
    let n = s.len() as u32;
    let list = b64s(s, s.len());
    let body = b32(n) + list;
    lemma_offsets_len(s, s.len());
    assert(body =~= Seq::<u8>::empty() + b32(n) + list);
    lemma_at32(body, Seq::empty(), n, list);
    assert forall|i: int| 0 <= i < s.len() implies be64(body, 4 + 8 * i) == #[trigger] s[i] by {
        lemma_offsets(b32(n), s, s.len(), i);
    }
}

#[verifier::spinoff_prover]
proof fn lemma_narrow_list(s: Seq<u64>)
    requires
        s.len() <= u32::MAX,
        forall|i: int| 0 <= i < s.len() ==> #[trigger] s[i] <= u32::MAX,
    ensures
        ({
            let body = b32(s.len() as u32) + narrow_b64s(s, s.len());
            &&& body.len() == 4 + 4 * s.len()
            &&& be32(body, 0) == s.len()
            &&& forall|i: int| 0 <= i < s.len() ==> be32(body, 4 + 4 * i) == #[trigger] s[i]
        }),
{
    let n = s.len() as u32;
    let list = narrow_b64s(s, s.len());
    let body = b32(n) + list;
    lemma_offsets_len(s, s.len());
    assert(body =~= Seq::<u8>::empty() + b32(n) + list);
    lemma_at32(body, Seq::empty(), n, list);
    assert forall|i: int| 0 <= i < s.len() implies be32(body, 4 + 4 * i) == #[trigger] s[i] by {
        lemma_offsets(b32(n), s, s.len(), i);
    }
}

/// One more field behind others.
proof fn lemma_grow(head: Seq<u8>, v: u32)
    ensures
        be32(head + b32(v), head.len() as int) == v,
        forall|at: int|
            0 <= at && at + 4 <= head.len() ==> #[trigger] be32(head + b32(v), at) == be32(head, at),
{
    let s = head + b32(v);
    assert(s =~= head + b32(v) + Seq::<u8>::empty());
    lemma_at32(s, head, v, Seq::empty());
    assert forall|at: int| 0 <= at && at + 4 <= head.len() implies #[trigger] be32(s, at) == be32(
        head,
        at,
    ) by {
        assert(s[at] == head[at] && s[at + 1] == head[at + 1] && s[at + 2] == head[at + 2] && s[at
            + 3] == head[at + 3]);
    }
}

#[verifier::spinoff_prover]
proof fn lemma_words4(a: u32, b: u32, c: u32, d: u32)
    ensures
        ({
            let s = b32(a) + b32(b) + b32(c) + b32(d);
            s.len() == 16 && be32(s, 0) == a && be32(s, 4) == b && be32(s, 8) == c && be32(s, 12)
                == d
        }),
{
    let none = Seq::<u8>::empty();
    lemma_grow(none, a);
    assert(none + b32(a) =~= b32(a));
    lemma_grow(b32(a), b);
    lemma_grow(b32(a) + b32(b), c);
    lemma_grow(b32(a) + b32(b) + b32(c), d);
}

#[verifier::spinoff_prover]
proof fn lemma_words7(a: u32, b: u32, c: u32, d: u32, e: u32, f: u32, g: u32)
    ensures
        ({
            let s = b32(a) + b32(b) + b32(c) + b32(d) + b32(e) + b32(f) + b32(g);
            s.len() == 28 && be32(s, 0) == a && be32(s, 4) == b && be32(s, 8) == c && be32(s, 12)
                == d && be32(s, 16) == e && be32(s, 20) == f && be32(s, 24) == g
        }),
{
    let four = b32(a) + b32(b) + b32(c) + b32(d);
    lemma_words4(a, b, c, d);
    lemma_grow(four, e);
    lemma_grow(four + b32(e), f);
    lemma_grow(four + b32(e) + b32(f), g);
}

#[verifier::spinoff_prover]
proof fn lemma_stsc(t: TrackView, chunks: nat)
    requires
        1 <= t.sample_sizes.len() <= u32::MAX,
    ensures
        ({
            let s = t.stsc(chunks);
            let body = full_body_in(s);
            let n = t.sample_sizes.len();
            &&& is_full_box(s, [0x73, 0x74, 0x73, 0x63], 0, 0, body)
            &&& chunks <= 1 || n == 1 ==> body.len() == 16 && be32(body, 0) == 1 && be32(body, 4)
                == 1 && be32(body, 8) == n && be32(body, 12) == 1
            &&& chunks > 1 && n > 1 ==> body.len() == 28 && be32(body, 0) == 2 && be32(body, 4)
                == 1 && be32(body, 8) == 1 && be32(body, 12) == 1 && be32(body, 16) == 2 && be32(
                body,
                20,
            ) == n - 1 && be32(body, 24) == 1
        }),
{
    let stsc: BoxType = [0x73, 0x74, 0x73, 0x63];
    assert(stsc[0] != UUID[0]);
    let n = t.sample_sizes.len();
    if chunks > 1 && n > 1 {
        let m = (n - 1) as u32;
        lemma_words7(2, 1, 1, 1, 2, m, 1);
        lemma_is_full_box(
            stsc,
            0,
            0,
            b32(2) + b32(1) + b32(1) + b32(1) + b32(2) + b32(m) + b32(1),
        );
    } else {
        lemma_words4(1, 1, n as u32, 1);
        lemma_is_full_box(stsc, 0, 0, b32(1) + b32(1) + b32(n as u32) + b32(1));
    }
}

/// The chunks of a track: `stsc` says that one chunk holds every sample,
/// or that the first of two holds the first sample and the second the
/// others; `stco` gives where each starts, and `co64` does where one
/// starts beyond 32 bits.
#[verifier::spinoff_prover]
pub proof fn law_chunks_of_a_track(t: TrackView, offsets: Seq<u64>)
    requires
        1 <= t.sample_sizes.len() <= u32::MAX,
        offsets.len() <= u32::MAX,
    ensures
        ({
            let s = t.stsc(offsets.len());
            let body = full_body_in(s);
            let n = t.sample_sizes.len();
            &&& is_full_box(s, [0x73, 0x74, 0x73, 0x63], 0, 0, body)
            &&& offsets.len() <= 1 || n == 1 ==> body.len() == 16 && be32(body, 0) == 1 && be32(
                body,
                4,
            ) == 1 && be32(body, 8) == n && be32(body, 12) == 1
            &&& offsets.len() > 1 && n > 1 ==> body.len() == 28 && be32(body, 0) == 2 && be32(
                body,
                4,
            ) == 1 && be32(body, 8) == 1 && be32(body, 12) == 1 && be32(body, 16) == 2 && be32(
                body,
                20,
            ) == n - 1 && be32(body, 24) == 1
        }),
        ({
            let s = stco_of(offsets);
            let body = full_body_in(s);
            let narrow = forall|i: int|
                0 <= i < offsets.len() ==> #[trigger] offsets[i] <= u32::MAX;
            &&& be32(body, 0) == offsets.len()
            &&& narrow ==> is_full_box(s, [0x73, 0x74, 0x63, 0x6f], 0, 0, body) && forall|i: int|
                0 <= i < offsets.len() ==> be32(body, 4 + 4 * i) == #[trigger] offsets[i]
            &&& !narrow ==> is_full_box(s, [0x63, 0x6f, 0x36, 0x34], 0, 0, body) && forall|i: int|
                0 <= i < offsets.len() ==> be64(body, 4 + 8 * i) == #[trigger] offsets[i]
        }),
{
    let stco: BoxType = [0x73, 0x74, 0x63, 0x6f];
    let co64: BoxType = [0x63, 0x6f, 0x36, 0x34];
    assert(stco[0] != UUID[0] && co64[0] != UUID[0]);
    lemma_stsc(t, offsets.len());
    let k = offsets.len();
    if wide_chunks(offsets) {
        lemma_wide_list(offsets);
        lemma_is_full_box(co64, 0, 0, b32(k as u32) + b64s(offsets, k));
    } else {
        assert forall|i: int| 0 <= i < k implies #[trigger] offsets[i] <= u32::MAX by {
            assert(!(offsets[i] > u32::MAX));
        }
        lemma_narrow_list(offsets);
        lemma_is_full_box(stco, 0, 0, b32(k as u32) + narrow_b64s(offsets, k));
    }
}

/// The sample entry of a track is an `av01` box with the coded extents,
/// then the configuration record, the colours and the aperture, each in a
/// box of its own where there is one; `stsd` lists this one entry.
#[verifier::spinoff_prover]
pub proof fn law_entry_of_a_track(t: TrackView)
    requires
        t.coded_width <= 0xffff,
        t.coded_height <= 0xffff,
        t.sample_entry().len() + 40 <= u32::MAX,
    ensures
        ({
            let body = body_in(t.sample_entry());
            &&& is_box(t.sample_entry(), [0x61, 0x76, 0x30, 0x31], body)
            &&& be16(body, 6) == 1
            &&& be16(body, 24) == t.coded_width
            &&& be16(body, 26) == t.coded_height
            &&& body.subrange(78, body.len() as int) == box_bytes(
                [0x61, 0x76, 0x31, 0x43],
                t.av1c,
            ) + (match t.colr {
                Some(c) => box_bytes([0x63, 0x6f, 0x6c, 0x72], body_of(PropertyView::Colr(c))),
                None => Seq::empty(),
            }) + (match t.clap {
                Some(c) => box_bytes([0x63, 0x6c, 0x61, 0x70], body_of(PropertyView::Clap(c))),
                None => Seq::empty(),
            })
        }),
        ({
            let body = full_body_in(t.stsd());
            &&& is_full_box(t.stsd(), [0x73, 0x74, 0x73, 0x64], 0, 0, body)
            &&& be32(body, 0) == 1
            &&& body.subrange(4, body.len() as int) == t.sample_entry()
        }),
{
    let av01: BoxType = [0x61, 0x76, 0x30, 0x31];
    assert(av01[0] != UUID[0]);
    let colr = match t.colr {
        Some(c) => box_bytes([0x63, 0x6f, 0x6c, 0x72], body_of(PropertyView::Colr(c))),
        None => Seq::empty(),
    };
    let clap = match t.clap {
        Some(c) => box_bytes([0x63, 0x6c, 0x61, 0x70], body_of(PropertyView::Clap(c))),
        None => Seq::empty(),
    };
    let head = entry_head(t.coded_width as u16, t.coded_height as u16);
    let av1c = box_bytes([0x61, 0x76, 0x31, 0x43], t.av1c);
    let body = head + av1c + colr + clap;
    assert(t.sample_entry() == box_bytes(av01, body));
    lemma_is_box(av01, body);
    lemma_entry_head(t.coded_width as u16, t.coded_height as u16);
    lemma_behind_head(head, av1c, colr, clap);
    lemma_stsd(t);
}

/// What a sample entry holds before its boxes.
spec fn entry_head(w: u16, h: u16) -> Seq<u8> {
    zeros(6) + b16(1) + zeros(16) + b16(w) + b16(h) + b32(0x48_0000) + b32(0x48_0000) + b32(0)
        + b16(1) + CODER_NAME@ + b16(0x18) + b16(0xffff)
}

#[verifier::spinoff_prover]
proof fn lemma_entry_head(w: u16, h: u16)
    ensures
        entry_head(w, h).len() == 78,
        be16(entry_head(w, h), 6) == 1,
        be16(entry_head(w, h), 24) == w,
        be16(entry_head(w, h), 26) == h,
{
    let a = zeros(6);
    let b = zeros(6) + b16(1) + zeros(16);
    let start = b + b16(w) + b16(h);
    let s = entry_head(w, h);
    assert(start.len() == 28);
    assert forall|i: int| 0 <= i < 28 implies s[i] == start[i] by {}
    assert(start[6] == b16(1)[0] && start[7] == b16(1)[1]);
    assert(start[24] == b16(w)[0] && start[25] == b16(w)[1]);
    assert(start[26] == b16(h)[0] && start[27] == b16(h)[1]);
    assert(s[6] == start[6] && s[7] == start[7] && s[24] == start[24] && s[25] == start[25]
        && s[26] == start[26] && s[27] == start[27]);
}

#[verifier::spinoff_prover]
proof fn lemma_behind_head(head: Seq<u8>, a: Seq<u8>, b: Seq<u8>, c: Seq<u8>)
    requires
        head.len() == 78,
    ensures
        ({
            let s = head + a + b + c;
            &&& s.subrange(78, s.len() as int) == a + b + c
            &&& be16(s, 6) == be16(head, 6)
            &&& be16(s, 24) == be16(head, 24)
            &&& be16(s, 26) == be16(head, 26)
        }),
{
    let s = head + a + b + c;
    assert(s.subrange(78, s.len() as int) =~= a + b + c);
    assert(s[6] == head[6] && s[7] == head[7] && s[24] == head[24] && s[25] == head[25] && s[26]
        == head[26] && s[27] == head[27]);
}

#[verifier::spinoff_prover]
proof fn lemma_stsd(t: TrackView)
    requires
        t.sample_entry().len() + 40 <= u32::MAX,
    ensures
        ({
            let body = full_body_in(t.stsd());
            &&& is_full_box(t.stsd(), [0x73, 0x74, 0x73, 0x64], 0, 0, body)
            &&& be32(body, 0) == 1
            &&& body.subrange(4, body.len() as int) == t.sample_entry()
        }),
{
    let stsd: BoxType = [0x73, 0x74, 0x73, 0x64];
    assert(stsd[0] != UUID[0]);
    lemma_counted(t.sample_entry());
    lemma_is_full_box(stsd, 0, 0, b32(1) + t.sample_entry());
}

proof fn lemma_counted(s: Seq<u8>)
    ensures
        be32(b32(1) + s, 0) == 1,
        (b32(1) + s).subrange(4, (b32(1) + s).len() as int) == s,
{
    let all = b32(1) + s;
    assert(all =~= Seq::<u8>::empty() + b32(1) + s);
    lemma_at32(all, Seq::empty(), 1, s);
    assert(all.subrange(4, all.len() as int) =~= s);
}

/// The boxes of a track stand in each other: `moov` holds `mvhd` and
/// `trak`, that holds `tkhd` and `mdia`, that holds `mdhd`, a handler of
/// the type `pict` and `minf`, and that ends in `stbl`, which holds the
/// tables in order.
#[verifier::spinoff_prover]
pub proof fn law_boxes_of_a_track_nest(t: TrackView, offsets: Seq<u64>)
    requires
        t.moov(offsets).len() <= u32::MAX,
    ensures
        ({
            let s = t.moov(offsets);
            let trak = behind(body_in(s), t.mvhd().len());
            let mdia = behind(body_in(trak), t.tkhd().len());
            let rest = behind(body_in(mdia), t.mdhd().len());
            let minf = behind(rest, 47);
            &&& is_box(s, [0x6d, 0x6f, 0x6f, 0x76], t.mvhd() + trak)
            &&& is_box(trak, [0x74, 0x72, 0x61, 0x6b], t.tkhd() + mdia)
            &&& is_box(mdia, [0x6d, 0x64, 0x69, 0x61], t.mdhd() + rest)
            &&& is_handler(rest.subrange(0, 47))
            &&& is_box(minf, [0x6d, 0x69, 0x6e, 0x66], body_in(minf))
            &&& t.stbl(offsets).is_suffix_of(body_in(minf))
        }),
        is_box(
            t.stbl(offsets),
            [0x73, 0x74, 0x62, 0x6c],
            t.stsd() + t.stts() + t.stss() + t.stsc(offsets.len()) + t.stsz() + stco_of(offsets),
        ),
{
    reveal(TrackView::moov);
    let tables = t.stsd() + t.stts() + t.stss() + t.stsc(offsets.len()) + t.stsz() + stco_of(
        offsets,
    );
    let head = full_box_bytes(crate::moov::VMHD, 0, 1, zeros(8)) + box_bytes(
        crate::moov::DINF,
        full_box_bytes(
            crate::moov::DREF,
            0,
            0,
            b32(1) + full_box_bytes(crate::moov::URL, 0, 1, Seq::empty()),
        ),
    );
    lemma_handler();
    lemma_nest(t.mvhd(), t.tkhd(), t.mdhd(), handler(), head, tables);
    assert(t.stbl(offsets) == box_bytes([0x73, 0x74, 0x62, 0x6c], tables));
    assert(t.minf(offsets) == box_bytes([0x6d, 0x69, 0x6e, 0x66], head + t.stbl(offsets)));
    assert(t.mdia(offsets) == box_bytes(
        [0x6d, 0x64, 0x69, 0x61],
        t.mdhd() + handler() + t.minf(offsets),
    ));
}

/// The handler box of a track.
spec fn handler() -> Seq<u8> {
    full_box_bytes(
        [0x68, 0x64, 0x6c, 0x72],
        0,
        0,
        b32(0) + PICT@ + zeros(12) + HANDLER_NAME@,
    )
}

#[verifier::spinoff_prover]
proof fn lemma_handler()
    ensures
        is_handler(handler()),
        handler().len() == 47,
{
    let hdlr: BoxType = [0x68, 0x64, 0x6c, 0x72];
    assert(hdlr[0] != UUID[0]);
    let inner = b32(0) + PICT@ + zeros(12) + HANDLER_NAME@;
    lemma_is_full_box(hdlr, 0, 0, inner);
    assert(inner[4] == PICT[0] && inner[5] == PICT[1] && inner[6] == PICT[2] && inner[7] == PICT[3]);
    assert(type_at(inner, 4) =~= [0x70u8, 0x69u8, 0x63u8, 0x74u8]);
}

proof fn lemma_box_grows(t: BoxType, body: Seq<u8>)
    ensures
        box_bytes(t, body).len() >= body.len() + 8,
{
}

proof fn lemma_inner(t: BoxType, a: Seq<u8>, b: Seq<u8>)
    requires
        t != UUID,
        a.len() + b.len() <= u32::MAX,
    ensures
        ({
            let s = box_bytes(t, a + b);
            &&& is_box(s, t, a + b)
            &&& body_in(s) == a + b
            &&& behind(body_in(s), a.len()) == b
        }),
{
    lemma_is_box(t, a + b);
    assert(behind(a + b, a.len()) =~= b);
}

#[verifier::spinoff_prover]
proof fn lemma_nest(
    mvhd: Seq<u8>,
    tkhd: Seq<u8>,
    mdhd: Seq<u8>,
    hdlr: Seq<u8>,
    head: Seq<u8>,
    tables: Seq<u8>,
)
    requires
        hdlr.len() == 47,
        ({
            let stbl = box_bytes([0x73, 0x74, 0x62, 0x6c], tables);
            let minf = box_bytes([0x6d, 0x69, 0x6e, 0x66], head + stbl);
            let mdia = box_bytes([0x6d, 0x64, 0x69, 0x61], mdhd + hdlr + minf);
            let trak = box_bytes([0x74, 0x72, 0x61, 0x6b], tkhd + mdia);
            box_bytes([0x6d, 0x6f, 0x6f, 0x76], mvhd + trak).len() <= u32::MAX
        }),
    ensures
        ({
            let stbl = box_bytes([0x73, 0x74, 0x62, 0x6c], tables);
            let minf = box_bytes([0x6d, 0x69, 0x6e, 0x66], head + stbl);
            let mdia = box_bytes([0x6d, 0x64, 0x69, 0x61], mdhd + hdlr + minf);
            let trak = box_bytes([0x74, 0x72, 0x61, 0x6b], tkhd + mdia);
            let moov = box_bytes([0x6d, 0x6f, 0x6f, 0x76], mvhd + trak);
            let rest = behind(body_in(mdia), mdhd.len());
            &&& behind(body_in(moov), mvhd.len()) == trak
            &&& behind(body_in(trak), tkhd.len()) == mdia
            &&& behind(rest, 47) == minf
            &&& rest.subrange(0, 47) == hdlr
            &&& is_box(moov, [0x6d, 0x6f, 0x6f, 0x76], mvhd + trak)
            &&& is_box(trak, [0x74, 0x72, 0x61, 0x6b], tkhd + mdia)
            &&& is_box(mdia, [0x6d, 0x64, 0x69, 0x61], mdhd + rest)
            &&& is_box(minf, [0x6d, 0x69, 0x6e, 0x66], body_in(minf))
            &&& stbl.is_suffix_of(body_in(minf))
            &&& is_box(stbl, [0x73, 0x74, 0x62, 0x6c], tables)
        }),
{
    let moov_t: BoxType = [0x6d, 0x6f, 0x6f, 0x76];
    let trak_t: BoxType = [0x74, 0x72, 0x61, 0x6b];
    let mdia_t: BoxType = [0x6d, 0x64, 0x69, 0x61];
    let minf_t: BoxType = [0x6d, 0x69, 0x6e, 0x66];
    let stbl_t: BoxType = [0x73, 0x74, 0x62, 0x6c];
    assert(moov_t[0] != UUID[0] && trak_t[0] != UUID[0] && mdia_t[0] != UUID[0] && minf_t[0]
        != UUID[0] && stbl_t[0] != UUID[0]);
    let stbl = box_bytes(stbl_t, tables);
    let minf = box_bytes(minf_t, head + stbl);
    let rest = hdlr + minf;
    let mdia = box_bytes(mdia_t, mdhd + rest);
    assert(mdhd + hdlr + minf =~= mdhd + rest);
    let trak = box_bytes(trak_t, tkhd + mdia);
    lemma_box_grows(moov_t, mvhd + trak);
    lemma_box_grows(trak_t, tkhd + mdia);
    lemma_box_grows(mdia_t, mdhd + rest);
    lemma_box_grows(minf_t, head + stbl);
    lemma_box_grows(stbl_t, tables);
    lemma_inner(moov_t, mvhd, trak);
    lemma_inner(trak_t, tkhd, mdia);
    lemma_inner(mdia_t, mdhd, rest);
    lemma_inner(minf_t, head, stbl);
    lemma_is_box(stbl_t, tables);
    assert(rest.subrange(0, 47) =~= hdlr);
    assert(behind(rest, 47) =~= minf);
    let all = head + stbl;
    assert(stbl =~= all.subrange(head.len() as int, all.len() as int));
}

/// What is left of `s` behind `n` bytes.
pub open spec fn behind(s: Seq<u8>, n: nat) -> Seq<u8> {
    s.subrange(n as int, s.len() as int)
}

/// Whether a box says that the track holds pictures.
pub open spec fn is_handler(s: Seq<u8>) -> bool {
    is_full_box(s, [0x68, 0x64, 0x6c, 0x72], 0, 0, full_body_in(s)) && full_body_in(s).len() >= 8
        && type_at(full_body_in(s), 4) == [0x70u8, 0x69u8, 0x63u8, 0x74u8]
}

} // verus!
