//! What the images of a sequence become: how each is drawn out for coding,
//! which coded unit each sample holds, and how the track lists them.

use crate::av1::{
    coded_group, coded_key_frame, header_payload, record_of_header, CodedView, GroupView,
};
use crate::error::Fault;
use crate::obu::replaced_from;
use crate::props::ColrView;
use crate::sequence::{
    all_sync, assembled, coded_samples, cover_of, encoded, frame_fault, frames_fault, group_end,
    grouped_from, intra_from, padded, padded_all, sequence_fault, sync_numbers, track_of,
    units_from, SampleView, SequenceEncodeOptions,
};
use crate::still::{coded_size, padded_plane, StillChroma, StillView, STILL_MAX_CODED_DIM};
use vstd::arithmetic::div_mod::lemma_fundamental_div_mod_converse;
use vstd::prelude::*;

verus! {

// ---------------------------------------------------------------------
// Drawing images out

/// The sample in column `x` and row `y` of a plane that is `w` samples
/// wide.
pub open spec fn sample_at(plane: Seq<u16>, w: int, x: int, y: int) -> u16 {
    plane[y * w + x]
}

/// The nearest place up to `last`.
pub open spec fn nearest(x: int, last: int) -> int {
    if x > last {
        last
    } else {
        x
    }
}

/// Whether `t`, `tw` by `th`, is `s`, `w` by `h`, with its last column and
/// its last row drawn out: every place of `t` shows the nearest place of
/// `s`.
pub open spec fn goes_on(s: Seq<u16>, w: int, h: int, t: Seq<u16>, tw: int, th: int) -> bool {
    &&& w <= tw
    &&& h <= th
    &&& t.len() == tw * th
    &&& forall|x: int, y: int|
        0 <= x < tw && 0 <= y < th ==> #[trigger] sample_at(t, tw, x, y) == sample_at(
            s,
            w,
            nearest(x, w - 1),
            nearest(y, h - 1),
        )
}

/// How many samples `n` pixels have in a direction in which chroma is
/// halved or not.
pub open spec fn chroma_extent(n: int, halved: bool) -> int {
    if halved {
        (n + 1) / 2
    } else {
        n
    }
}

/// Whether `p` is `v` drawn out to the next multiples of 8, plane by plane.
pub open spec fn draws_out(v: StillView, p: CodedView) -> bool {
    let across = v.chroma == StillChroma::Yuv420 || v.chroma == StillChroma::Yuv422;
    let down = v.chroma == StillChroma::Yuv420;
    let (w, h) = (v.width as int, v.height as int);
    let (tw, th) = (p.width as int, p.height as int);
    &&& tw % 8 == 0 && w <= tw < w + 8
    &&& th % 8 == 0 && h <= th < h + 8
    &&& p.bit_depth == v.bit_depth
    &&& p.chroma == v.chroma
    &&& goes_on(v.y, w, h, p.y, tw, th)
    &&& v.chroma == StillChroma::Monochrome ==> p.u.len() == 0 && p.v.len() == 0
    &&& v.chroma != StillChroma::Monochrome ==> {
        let (cw, ch) = (chroma_extent(w, across), chroma_extent(h, down));
        let (tcw, tch) = (chroma_extent(tw, across), chroma_extent(th, down));
        &&& goes_on(v.u, cw, ch, p.u, tcw, tch)
        &&& goes_on(v.v, cw, ch, p.v, tcw, tch)
    }
}

proof fn lemma_plane_goes_on(s: Seq<u16>, w: int, h: int, tw: int, th: int)
    requires
        0 < w <= tw,
        0 < h <= th,
    ensures
        goes_on(s, w, h, padded_plane(s, w, h, tw, th), tw, th),
{
    let t = padded_plane(s, w, h, tw, th);
    assert(tw * th >= 0) by (nonlinear_arith)
        requires
            tw > 0,
            th > 0,
    ;
    assert forall|x: int, y: int| 0 <= x < tw && 0 <= y < th implies #[trigger] sample_at(
        t,
        tw,
        x,
        y,
    ) == sample_at(s, w, nearest(x, w - 1), nearest(y, h - 1)) by {
        let i = y * tw + x;
        lemma_fundamental_div_mod_converse(i, tw, y, x);
        assert(0 <= i < tw * th) by (nonlinear_arith)
            requires
                i == y * tw + x,
                0 <= x < tw,
                0 <= y <= th - 1,
        ;
    }
}

proof fn lemma_one_plane(s: Seq<u16>, w: int, h: int, a: Seq<u16>, b: Seq<u16>, tw: int, th: int)
    requires
        tw > 0,
        goes_on(s, w, h, a, tw, th),
        goes_on(s, w, h, b, tw, th),
    ensures
        a == b,
{
    assert forall|i: int| 0 <= i < a.len() implies a[i] == b[i] by {
        let (y, x) = (i / tw, i % tw);
        vstd::arithmetic::div_mod::lemma_fundamental_div_mod(i, tw);
        vstd::arithmetic::div_mod::lemma_mod_bound(i, tw);
        assert(0 <= y < th && i == y * tw + x) by (nonlinear_arith)
            requires
                i == tw * y + x,
                0 <= x < tw,
                0 <= i < tw * th,
        ;
        assert(sample_at(a, tw, x, y) == sample_at(b, tw, x, y));
    }
    assert(a =~= b);
}

/// An image is drawn out plane by plane: every sample of every plane stays
/// in its own plane and place, and what lies outside the image shows the
/// nearest edge sample of that same plane.
pub proof fn law_drawing_out_keeps_planes(v: StillView)
    requires
        v.fault() is None,
        coded_size(v.width) <= STILL_MAX_CODED_DIM,
        coded_size(v.height) <= STILL_MAX_CODED_DIM,
    ensures
        draws_out(v, padded(v)),
        forall|x: int, y: int|
            0 <= x < v.width && 0 <= y < v.height ==> #[trigger] sample_at(
                padded(v).y,
                padded(v).width as int,
                x,
                y,
            ) == v.y[y * v.width + x],
        v.chroma == StillChroma::Yuv444 ==> forall|x: int, y: int|
            0 <= x < v.width && 0 <= y < v.height ==> #[trigger] sample_at(
                padded(v).u,
                padded(v).width as int,
                x,
                y,
            ) == v.u[y * v.width + x] && sample_at(padded(v).v, padded(v).width as int, x, y)
                == v.v[y * v.width + x],
{
    let p = padded(v);
    lemma_plane_goes_on(
        v.y,
        v.width as int,
        v.height as int,
        p.width as int,
        p.height as int,
    );
    if v.chroma != StillChroma::Monochrome {
        let (cw, ch) = v.chroma_size();
        let pw = crate::still::sampled(p.width, v.chroma.shifts().0);
        let ph = crate::still::sampled(p.height, v.chroma.shifts().1);
        lemma_plane_goes_on(v.u, cw as int, ch as int, pw as int, ph as int);
        lemma_plane_goes_on(v.v, cw as int, ch as int, pw as int, ph as int);
    }
}

/// There is one way to draw an image out.
pub proof fn law_drawing_out_is_unique(v: StillView, p: CodedView)
    requires
        v.fault() is None,
        coded_size(v.width) <= STILL_MAX_CODED_DIM,
        coded_size(v.height) <= STILL_MAX_CODED_DIM,
        draws_out(v, p),
    ensures
        p == padded(v),
{
    law_drawing_out_keeps_planes(v);
    let q = padded(v);
    let (w, h) = (v.width as int, v.height as int);
    let (tw, th) = (p.width as int, p.height as int);
    assert(p.width == q.width && p.height == q.height);
    lemma_one_plane(v.y, w, h, p.y, q.y, tw, th);
    if v.chroma != StillChroma::Monochrome {
        let across = v.chroma == StillChroma::Yuv420 || v.chroma == StillChroma::Yuv422;
        let down = v.chroma == StillChroma::Yuv420;
        let (cw, ch) = (chroma_extent(w, across), chroma_extent(h, down));
        let (tcw, tch) = (chroma_extent(tw, across), chroma_extent(th, down));
        lemma_one_plane(v.u, cw, ch, p.u, q.u, tcw, tch);
        lemma_one_plane(v.v, cw, ch, p.v, q.v, tcw, tch);
    } else {
        assert(p.u =~= q.u);
        assert(p.v =~= q.v);
    }
}

// ---------------------------------------------------------------------
// Which unit each sample holds

/// Whether `data` is this unit as it is stored: with a header that says
/// full range in place of its own, where the range is full, and as it is
/// elsewhere.
pub open spec fn stores(data: Seq<u8>, unit: Seq<u8>, g: GroupView, full_range: bool) -> bool {
    if full_range {
        replaced_from(unit, 0, header_payload(g.header, true), Seq::empty()) == Ok::<Seq<u8>, Fault>(
            data,
        )
    } else {
        data == unit
    }
}

/// Whether every image of these is the picture in the same place, drawn
/// out.
pub open spec fn all_drawn_out(frames: Seq<StillView>, pictures: Seq<CodedView>) -> bool {
    &&& pictures.len() == frames.len()
    &&& forall|i: int| 0 <= i < frames.len() ==> draws_out(#[trigger] frames[i], pictures[i])
}

/// Whether the colours of an image take their full range.
pub open spec fn has_full_range(v: StillView) -> bool {
    v.colr matches Some(ColrView::Nclx { full_range, .. }) && full_range
}

proof fn lemma_frames_fault(frames: Seq<StillView>, i: int)
    requires
        0 <= i <= frames.len(),
        frames_fault(frames, i) is None,
    ensures
        forall|j: int|
            i <= j < frames.len() ==> (#[trigger] frames[j]).fault() is None && frames[j].width
                == frames[0].width && frames[j].height == frames[0].height
                && frames[j].bit_depth == frames[0].bit_depth && frames[j].chroma
                == frames[0].chroma && frames[j].alpha is None && frames[j].depth_map is None,
    decreases frames.len() - i,
{
    if i < frames.len() {
        assert(frame_fault(frames[i], frames[0], i) is None);
        lemma_frames_fault(frames, i + 1);
    }
}

/// A sequence is made only of valid images that are all alike and have no
/// auxiliary image, of a size that can be coded, with a duration and with
/// groups of a length that is allowed.
pub proof fn law_sequence_takes_like_images(frames: Seq<StillView>, opts: SequenceEncodeOptions)
    requires
        encoded(frames, opts) is Ok,
    ensures
        frames.len() > 0,
        opts.timescale > 0,
        opts.frame_duration > 0,
        opts.all_intra || 1 <= opts.gop_length <= 64,
        frames[0].width <= 16384,
        frames[0].height <= 16384,
        forall|j: int|
            0 <= j < frames.len() ==> (#[trigger] frames[j]).fault() is None && frames[j].width
                == frames[0].width && frames[j].height == frames[0].height
                && frames[j].bit_depth == frames[0].bit_depth && frames[j].chroma
                == frames[0].chroma && frames[j].alpha is None && frames[j].depth_map is None,
{
    assert(sequence_fault(frames, opts) is None);
    lemma_frames_fault(frames, 0);
}

proof fn lemma_pictures(
    frames: Seq<StillView>,
    opts: SequenceEncodeOptions,
    pictures: Seq<CodedView>,
)
    requires
        encoded(frames, opts) is Ok,
        all_drawn_out(frames, pictures),
    ensures
        pictures == padded_all(frames),
        frames.len() > 0,
{
    law_sequence_takes_like_images(frames, opts);
    assert forall|i: int| 0 <= i < frames.len() implies pictures[i] == padded_all(frames)[i] by {
        assert(draws_out(frames[i], pictures[i]));
        assert(frames[i].width == frames[0].width);
        law_drawing_out_is_unique(frames[i], pictures[i]);
    }
    assert(pictures =~= padded_all(frames));
}

proof fn lemma_intra(
    pictures: Seq<CodedView>,
    q: u8,
    full_range: bool,
    i: int,
    samples: Seq<SampleView>,
)
    requires
        0 <= i <= pictures.len(),
        samples.len() == pictures.len(),
        intra_from(pictures, q, full_range, i, samples.take(i)) is Ok,
        forall|j: int|
            0 <= j < samples.len() ==> (#[trigger] samples[j]).sync && (coded_key_frame(
                pictures[j],
                q,
            ) matches Ok(g) ==> stores(samples[j].data, g.units[0], g, full_range)),
    ensures
        intra_from(pictures, q, full_range, i, samples.take(i)) == Ok::<Seq<SampleView>, Fault>(
            samples,
        ),
        forall|j: int| i <= j < pictures.len() ==> coded_key_frame(#[trigger] pictures[j], q) is Ok,
    decreases pictures.len() - i,
{
    if i < pictures.len() {
        assert(samples[i].sync);
        assert(samples.take(i).push(
            SampleView { data: samples[i].data, sync: true },
        ) =~= samples.take(i + 1));
        lemma_intra(pictures, q, full_range, i + 1, samples);
    } else {
        assert(samples.take(i) =~= samples);
    }
}

/// Where every image is coded by itself, sample `i` is the one unit that
/// image `i` is coded as, every sample is a sync sample, and the
/// configuration record is that of the first image.
pub proof fn law_each_image_is_a_sample(
    frames: Seq<StillView>,
    opts: SequenceEncodeOptions,
    pictures: Seq<CodedView>,
    samples: Seq<SampleView>,
)
    requires
        encoded(frames, opts) is Ok,
        opts.all_intra,
        all_drawn_out(frames, pictures),
        samples.len() == frames.len(),
        forall|i: int|
            0 <= i < samples.len() ==> (#[trigger] samples[i]).sync && (coded_key_frame(
                pictures[i],
                opts.base_q_idx,
            ) matches Ok(g) ==> stores(samples[i].data, g.units[0], g, has_full_range(frames[0]))),
    ensures
        forall|i: int|
            0 <= i < frames.len() ==> coded_key_frame(#[trigger] pictures[i], opts.base_q_idx) is Ok,
        encoded(frames, opts) == assembled(
            frames[0],
            opts,
            samples,
            record_of_header(coded_key_frame(pictures[0], opts.base_q_idx)->Ok_0.header),
        ),
{
    lemma_pictures(frames, opts, pictures);
    assert(samples.take(0) =~= Seq::<SampleView>::empty());
    assert(frames[0].full_range() == has_full_range(frames[0]));
    lemma_intra(pictures, opts.base_q_idx, frames[0].full_range(), 0, samples);
}

/// The group that image `i` is coded in: `length` images, or what is left,
/// from a multiple of `length` on.
pub open spec fn group_of(pictures: Seq<CodedView>, length: int, i: int) -> Seq<CodedView> {
    let from = i - i % length;
    let to = if from + length < pictures.len() {
        from + length
    } else {
        pictures.len() as int
    };
    pictures.subrange(from, to)
}

/// Whether sample `i` is the unit of image `i` in its group, and a sync
/// sample where it is the first of the group.
pub open spec fn holds_its_unit(
    pictures: Seq<CodedView>,
    opts: SequenceEncodeOptions,
    full_range: bool,
    sample: SampleView,
    i: int,
) -> bool {
    let k = i % opts.gop_length as int;
    coded_group(group_of(pictures, opts.gop_length as int, i), opts.base_q_idx) matches Ok(g) ==> {
        &&& g.units.len() == group_of(pictures, opts.gop_length as int, i).len()
        &&& sample.sync == (k == 0)
        &&& stores(sample.data, g.units[k], g, full_range && k == 0)
    }
}

proof fn lemma_units(
    g: GroupView,
    full_range: bool,
    at: int,
    k: int,
    samples: Seq<SampleView>,
)
    requires
        0 <= at,
        0 <= k <= g.units.len(),
        at + g.units.len() <= samples.len(),
        units_from(g, full_range, k, samples.take(at + k)) is Ok,
        forall|j: int|
            at <= j < at + g.units.len() ==> (#[trigger] samples[j]).sync == (j == at) && stores(
                samples[j].data,
                g.units[j - at],
                g,
                full_range && j == at,
            ),
    ensures
        units_from(g, full_range, k, samples.take(at + k)) == Ok::<Seq<SampleView>, Fault>(
            samples.take(at + g.units.len()),
        ),
    decreases g.units.len() - k,
{
    if k < g.units.len() {
        let s = samples[at + k];
        assert(s.sync == (k == 0));
        assert(samples.take(at + k).push(SampleView { data: s.data, sync: k == 0 }) =~= samples.take(
            at + k + 1,
        ));
        lemma_units(g, full_range, at, k + 1, samples);
    }
}

proof fn lemma_groups(
    pictures: Seq<CodedView>,
    opts: SequenceEncodeOptions,
    full_range: bool,
    at: int,
    samples: Seq<SampleView>,
)
    requires
        0 <= at <= pictures.len(),
        opts.gop_length > 0,
        at < pictures.len() ==> at % opts.gop_length as int == 0,
        samples.len() == pictures.len(),
        grouped_from(pictures, opts, full_range, at, samples.take(at)) is Ok,
        forall|i: int|
            0 <= i < samples.len() ==> holds_its_unit(
                pictures,
                opts,
                full_range,
                #[trigger] samples[i],
                i,
            ),
    ensures
        grouped_from(pictures, opts, full_range, at, samples.take(at)) == Ok::<
            Seq<SampleView>,
            Fault,
        >(samples),
        at < pictures.len() ==> coded_group(
            group_of(pictures, opts.gop_length as int, at),
            opts.base_q_idx,
        ) is Ok,
    decreases pictures.len() - at,
{
    let n = pictures.len() as int;
    let length = opts.gop_length as int;
    if at < n {
        let end = group_end(n, opts.gop_length, at);
        assert(group_of(pictures, length, at) == pictures.subrange(at, end));
        let g = coded_group(pictures.subrange(at, end), opts.base_q_idx)->Ok_0;
        assert(holds_its_unit(pictures, opts, full_range, samples[at], at));
        assert forall|j: int| at <= j < at + g.units.len() implies (#[trigger] samples[j]).sync
            == (j == at) && stores(samples[j].data, g.units[j - at], g, full_range && j == at) by {
            assert(holds_its_unit(pictures, opts, full_range, samples[j], j));
            let q = at / length;
            vstd::arithmetic::div_mod::lemma_fundamental_div_mod(at, length);
            assert(j == q * length + (j - at)) by (nonlinear_arith)
                requires
                    at == length * q,
            ;
            lemma_fundamental_div_mod_converse(j, length, q, j - at);
            assert(j % length == j - at);
            assert(group_of(pictures, length, j) == pictures.subrange(at, end));
        }
        lemma_units(g, full_range, at, 0, samples);
        if end < n {
            assert(end == at + length);
            vstd::arithmetic::div_mod::lemma_mod_add_multiples_vanish(at, length);
        }
        lemma_groups(pictures, opts, full_range, end, samples);
    } else {
        assert(samples.take(at) =~= samples);
    }
}

/// Where images are coded in groups, sample `i` is the unit of image `i`
/// in its group of `gop_length` images, or of what is left, the first of
/// each group is a sync sample and no other is, and the configuration
/// record is that of the first group.
pub proof fn law_each_group_is_coded_in_order(
    frames: Seq<StillView>,
    opts: SequenceEncodeOptions,
    pictures: Seq<CodedView>,
    samples: Seq<SampleView>,
)
    requires
        encoded(frames, opts) is Ok,
        !opts.all_intra,
        all_drawn_out(frames, pictures),
        samples.len() == frames.len(),
        forall|i: int|
            0 <= i < samples.len() ==> holds_its_unit(
                pictures,
                opts,
                has_full_range(frames[0]),
                #[trigger] samples[i],
                i,
            ),
    ensures
        coded_group(group_of(pictures, opts.gop_length as int, 0), opts.base_q_idx) is Ok,
        encoded(frames, opts) == assembled(
            frames[0],
            opts,
            samples,
            record_of_header(
                coded_group(
                    group_of(pictures, opts.gop_length as int, 0),
                    opts.base_q_idx,
                )->Ok_0.header,
            ),
        ),
{
    law_sequence_takes_like_images(frames, opts);
    lemma_pictures(frames, opts, pictures);
    assert(samples.take(0) =~= Seq::<SampleView>::empty());
    assert(frames[0].full_range() == has_full_range(frames[0]));
    lemma_groups(pictures, opts, frames[0].full_range(), 0, samples);
    assert(coded_samples(pictures, opts, frames[0].full_range()) is Ok);
}

// ---------------------------------------------------------------------
// How the track lists the samples

proof fn lemma_sync_numbers(samples: Seq<SampleView>, n: nat)
    requires
        n <= samples.len(),
        samples.len() <= u32::MAX,
    ensures
        forall|k: u32|
            sync_numbers(samples, n).contains(k) <==> 1 <= k <= n && samples[k - 1].sync,
        forall|a: int, b: int|
            0 <= a < b < sync_numbers(samples, n).len() ==> sync_numbers(samples, n)[a]
                < sync_numbers(samples, n)[b],
    decreases n,
{
    if n > 0 {
        lemma_sync_numbers(samples, (n - 1) as nat);
        let before = sync_numbers(samples, (n - 1) as nat);
        let all = sync_numbers(samples, n);
        assert forall|k: u32| all.contains(k) <==> 1 <= k <= n && samples[k - 1].sync by {
            if samples[n - 1].sync {
                assert(all[before.len() as int] == n);
                if all.contains(k) {
                    let a = choose|a: int| 0 <= a < all.len() && all[a] == k;
                    if a < before.len() {
                        assert(before[a] == k);
                        assert(before.contains(k));
                    }
                }
                if before.contains(k) {
                    let a = choose|a: int| 0 <= a < before.len() && before[a] == k;
                    assert(all[a] == k);
                }
            }
        }
        if samples[n - 1].sync {
            assert forall|a: int, b: int| 0 <= a < b < all.len() implies all[a] < all[b] by {
                assert(before.contains(before[a]));
            }
        }
    } else {
        assert(sync_numbers(samples, n) =~= Seq::empty());
    }
}

/// The track of a sequence lists the samples in order: the size of each,
/// and the numbers of the sync samples, counted from 1 and in order, unless
/// every sample is one. Its time scale and duration are those asked for,
/// its extents those of the coded images, and its colours those of the
/// first image.
pub proof fn law_track_lists_its_samples(
    v: StillView,
    opts: SequenceEncodeOptions,
    samples: Seq<SampleView>,
    av1c: Seq<u8>,
)
    requires
        samples.len() <= u32::MAX,
        v.width <= 16384,
        v.height <= 16384,
    ensures
        ({
            let t = track_of(v, opts, samples, av1c);
            &&& t.timescale == opts.timescale
            &&& t.frame_duration == opts.frame_duration
            &&& t.av1c == av1c
            &&& t.colr == v.colr
            &&& t.coded_width % 8 == 0 && v.width <= t.coded_width < v.width + 8
            &&& t.coded_height % 8 == 0 && v.height <= t.coded_height < v.height + 8
            &&& t.clap is None <==> v.width % 8 == 0 && v.height % 8 == 0
            &&& t.clap matches Some(clap) ==> {
                &&& clap.clean_aperture_width_n == v.width
                &&& clap.clean_aperture_width_d == 1
                &&& clap.clean_aperture_height_n == v.height
                &&& clap.clean_aperture_height_d == 1
                &&& clap.horiz_off_n == v.width - t.coded_width
                &&& clap.horiz_off_d == 2
                &&& clap.vert_off_n == v.height - t.coded_height
                &&& clap.vert_off_d == 2
            }
            &&& t.sample_sizes.len() == samples.len()
            &&& forall|i: int|
                0 <= i < samples.len() && samples[i].data.len() <= u32::MAX
                    ==> #[trigger] t.sample_sizes[i] == samples[i].data.len()
            &&& t.sync_samples is None <==> forall|i: int|
                0 <= i < samples.len() ==> (#[trigger] samples[i]).sync
            &&& t.sync_samples matches Some(list) ==> {
                &&& forall|k: u32|
                    #[trigger] list.contains(k) <==> 1 <= k <= samples.len() && samples[k - 1].sync
                &&& forall|a: int, b: int| 0 <= a < b < list.len() ==> list[a] < list[b]
            }
        }),
{
    lemma_sync_numbers(samples, samples.len());
    assert(all_sync(samples) <==> forall|i: int|
        0 <= i < samples.len() ==> (#[trigger] samples[i]).sync);
}

/// The cover image of a sequence is its first sample, with the extents,
/// the aperture and the colours of the track, in a file of the brand
/// `avis`.
pub proof fn law_cover_is_the_first_sample(
    v: StillView,
    opts: SequenceEncodeOptions,
    samples: Seq<SampleView>,
    av1c: Seq<u8>,
)
    ensures
        ({
            let c = cover_of(v, samples, av1c);
            let t = track_of(v, opts, samples, av1c);
            &&& c.major == [0x61u8, 0x76u8, 0x69u8, 0x73u8]
            &&& c.payload == samples[0].data
            &&& c.av1c == av1c
            &&& c.width == t.coded_width
            &&& c.height == t.coded_height
            &&& c.clap == t.clap
            &&& c.colr == v.colr
            &&& c.pixi.len() == if v.chroma == StillChroma::Monochrome {
                1int
            } else {
                3int
            }
            &&& forall|k: int| 0 <= k < c.pixi.len() ==> #[trigger] c.pixi[k] == v.bit_depth
        }),
{
}

} // verus!
