//! The samples of an image sequence lie where its track says.

use crate::box_parser::BoxType;
use crate::bytes::{b32, b64s, box_bytes, full_box_bytes, narrow_b64s};
use crate::error::Fault;
use crate::moov::{stco_of, wide_chunks, TrackView, MDIA, MINF, MOOV, STBL, TRAK};
use crate::sequence::{
    assembled, chunk_starts, cover_file, cover_of, place_behind, rest_box, rest_of, track_of,
    SampleView, SequenceEncodeOptions,
};
use crate::still::StillView;
use vstd::prelude::*;

verus! {

/// A longer body does not make a shorter box.
proof fn lemma_box_len(t: BoxType, a: Seq<u8>, b: Seq<u8>)
    requires
        a.len() <= b.len(),
    ensures
        box_bytes(t, a).len() <= box_bytes(t, b).len(),
        a.len() == b.len() ==> box_bytes(t, a).len() == box_bytes(t, b).len(),
        box_bytes(t, a).len() >= a.len() + 8,
{
}

proof fn lemma_offsets_len(s: Seq<u64>, n: nat)
    ensures
        narrow_b64s(s, n).len() == 4 * n,
        b64s(s, n).len() == 8 * n,
    decreases n,
{
    if n > 0 {
        lemma_offsets_len(s, (n - 1) as nat);
    }
}

/// Chunk offsets take more room where one of them takes 64 bits, and as
/// much room whatever they are otherwise.
proof fn lemma_stco_len(a: Seq<u64>, b: Seq<u64>)
    requires
        a.len() == b.len() <= 2,
        wide_chunks(a) ==> wide_chunks(b),
    ensures
        stco_of(a).len() <= stco_of(b).len(),
        wide_chunks(a) == wide_chunks(b) ==> stco_of(a).len() == stco_of(b).len(),
{
    lemma_offsets_len(a, a.len());
    lemma_offsets_len(b, b.len());
}

/// The `moov` box is as long whatever the chunk offsets are, as long as
/// they take the same number of bits, and no shorter where they take
/// more.
pub proof fn law_moov_length(t: TrackView, a: Seq<u64>, b: Seq<u64>)
    requires
        a.len() == b.len() <= 2,
        wide_chunks(a) ==> wide_chunks(b),
    ensures
        t.moov(a).len() <= t.moov(b).len(),
        wide_chunks(a) == wide_chunks(b) ==> t.moov(a).len() == t.moov(b).len(),
{
    reveal(TrackView::moov);
    lemma_stco_len(a, b);
    let head = t.stsd() + t.stts() + t.stss() + t.stsc(a.len()) + t.stsz();
    lemma_box_len(STBL, head + stco_of(a), head + stco_of(b));
    assert(t.stbl(a).len() <= t.stbl(b).len());
    assert(wide_chunks(a) == wide_chunks(b) ==> t.stbl(a).len() == t.stbl(b).len());
    let head = full_box_bytes(crate::moov::VMHD, 0, 1, crate::bytes::zeros(8)) + box_bytes(
        crate::moov::DINF,
        full_box_bytes(
            crate::moov::DREF,
            0,
            0,
            b32(1) + full_box_bytes(crate::moov::URL, 0, 1, Seq::empty()),
        ),
    );
    lemma_box_len(MINF, head + t.stbl(a), head + t.stbl(b));
    assert(t.minf(a) == box_bytes(MINF, head + t.stbl(a)));
    assert(t.minf(b) == box_bytes(MINF, head + t.stbl(b)));
    let head = t.mdhd() + full_box_bytes(
        crate::moov::HDLR,
        0,
        0,
        b32(0) + crate::container::PICT@ + crate::bytes::zeros(12) + crate::moov::HANDLER_NAME@,
    );
    lemma_box_len(MDIA, head + t.minf(a), head + t.minf(b));
    assert(t.mdia(a) == box_bytes(MDIA, head + t.minf(a)));
    assert(t.mdia(b) == box_bytes(MDIA, head + t.minf(b)));
    lemma_box_len(TRAK, t.tkhd() + t.mdia(a), t.tkhd() + t.mdia(b));
    let (x, y) = (
        box_bytes(TRAK, t.tkhd() + t.mdia(a)),
        box_bytes(TRAK, t.tkhd() + t.mdia(b)),
    );
    lemma_box_len(MOOV, t.mvhd() + x, t.mvhd() + y);
}

/// The second chunk starts behind the `moov` box that says so.
proof fn lemma_second_chunk(t: TrackView, file: nat, start: u64)
    requires
        t.count() > 1,
        file + t.moov(chunk_starts(t, file, start)).len() + 8 < u64::MAX,
    ensures
        chunk_starts(t, file, start).len() == 2,
        chunk_starts(t, file, start)[1] == file + t.moov(chunk_starts(t, file, start)).len() + 8,
{
    let zero = seq![start, 0u64];
    let short = t.moov(zero).len();
    let at = place_behind(file, short);
    let one = seq![start, at];
    let full = t.moov(one).len();
    assert(zero[0] == start && zero[1] == 0 && one[0] == start && one[1] == at);
    assert(wide_chunks(zero) ==> wide_chunks(one));
    law_moov_length(t, zero, one);
    if full != short {
        let last = seq![start, place_behind(file, full)];
        assert(last[1] == place_behind(file, full));
        assert(at > u32::MAX) by {
            if at <= u32::MAX && !wide_chunks(zero) {
                assert(!wide_chunks(one));
            }
        }
        assert(wide_chunks(one));
        assert(wide_chunks(last));
        law_moov_length(t, one, last);
    }
}

/// The bytes of a sample among those of all samples but the first.
proof fn lemma_rest_part(samples: Seq<SampleView>, i: nat, n: nat)
    requires
        1 <= i < n <= samples.len(),
    ensures
        rest_of(samples, i).len() + samples[i as int].data.len() <= rest_of(samples, n).len(),
        rest_of(samples, n).subrange(
            rest_of(samples, i).len() as int,
            (rest_of(samples, i).len() + samples[i as int].data.len()) as int,
        ) == samples[i as int].data,
    decreases n - i,
{
    let from = rest_of(samples, i).len() as int;
    let to = from + samples[i as int].data.len();
    let before = rest_of(samples, (n - 1) as nat);
    let all = rest_of(samples, n);
    if i + 1 < n {
        lemma_rest_part(samples, i, (n - 1) as nat);
        assert(all.subrange(from, to) =~= before.subrange(from, to));
    } else {
        assert(all.subrange(from, to) =~= samples[i as int].data);
    }
}

/// The samples lie where the track says: sample `i`, from 1 on, starts
/// as many bytes into the second chunk as the samples between take.
/// Samples that take more than 32 bits of size together are left out:
/// the header of their box is longer.
pub proof fn law_samples_lie_where_listed(
    v: StillView,
    opts: SequenceEncodeOptions,
    samples: Seq<SampleView>,
    av1c: Seq<u8>,
    out: Seq<u8>,
    i: nat,
)
    requires
        assembled(v, opts, samples, av1c) == Ok::<Seq<u8>, Fault>(out),
        1 <= i < samples.len(),
        samples[i as int].data.len() > 0,
        rest_of(samples, samples.len()).len() + 8 <= u32::MAX,
        out.len() < u64::MAX,
    ensures
        ({
            let t = track_of(v, opts, samples, av1c);
            let cover = cover_file(cover_of(v, samples, av1c))->Ok_0;
            let starts = chunk_starts(t, cover.0.len(), cover.1 as u64);
            let at = starts[1] + rest_of(samples, i).len();
            &&& starts.len() == 2
            &&& starts[0] == cover.1
            &&& at + samples[i as int].data.len() <= out.len()
            &&& out.subrange(at, at + samples[i as int].data.len()) == samples[i as int].data
        }),
{
    reveal(assembled);
    let t = track_of(v, opts, samples, av1c);
    let cover = cover_file(cover_of(v, samples, av1c))->Ok_0;
    let file = cover.0;
    let starts = chunk_starts(t, file.len(), cover.1 as u64);
    let moov = t.moov(starts);
    let rest = rest_of(samples, samples.len());
    let data = samples[i as int].data;
    lemma_rest_part(samples, i, samples.len());
    assert(out == file + moov + rest_box(rest));
    assert(rest_box(rest).len() == rest.len() + 8);
    lemma_second_chunk(t, file.len(), cover.1 as u64);
    let from = rest_of(samples, i).len() as int;
    let at = starts[1] + from;
    assert(out.subrange(at, at + data.len()) =~= rest.subrange(from, from + data.len()));
}

} // verus!
