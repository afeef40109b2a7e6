//! Image sequences: a cover image, a track that lists the samples, and
//! the samples.

use crate::av1::{
    av1_frame, code_group, code_key_frame, coded_group, coded_key_frame, config_record,
    frame_planes, from_encoder, header_payload, planes_of, record_of_header, write_header, CodedPicture,
    CodedView, GroupView,
};
use crate::bytes::{box_bytes, boxed};
use crate::container::{
    empty_plan, file_spans, item_spans, lemma_stored, plan_of, queued, readable_property, sized_from, write_file, written,
    BodyPlan, FilePlan, ItemPlan, PropPlan,
};
use crate::error::{lemma_views_push, outcome_view, views, AvifError, Fault};
use crate::meta::opt_view;
use crate::moov::{build_moov, moov_of, TrackLayout, TrackView, MDAT};
use crate::mux::{either, lemma_coded_complete};
use crate::mux_items::{
    as_clap, as_colr, growing, lemma_grow_item, lemma_grown, list_of, opt_colr_fault, push_clap,
};
use crate::mux_props::{
    law_sequence_brands_are_accepted, opt_prop, prop, prop_av1c, prop_colr, prop_ispe, prop_pixi,
    push_prop, record_fault, sequence_brands, sequence_codes, ProfileBrand,
};
use crate::obu::{replace_headers, replaced_from};
use crate::parser::{classified, BRAND_AVIS, ITEM_TYPE_AV01};
use crate::property_laws::{lemma_readable_add, lemma_readable_opt, readable_list};
use crate::props::{Clap, Colr, ColrView, Ispe, PropertyView, AV1C, ISPE};
use crate::sequence_cover_laws::{law_sequence_cover_reads_back, lemma_cover_kept, reads_cover};
use crate::still::{
    coded_extent, coded_size, lemma_padding_keeps_range, pad_plane, padded_plane, sample_limit,
    sampled, top_left_aperture, top_left_clap,
    StillChroma, StillImage, StillView, STILL_MAX_CODED_DIM,
};
use crate::text::{dec, push_dec};
use oxideav_av1::encoder::yuv_frame::YuvFrame as Av1Frame;
use oxideav_av1::sequence_header::SequenceHeader as Av1SequenceHeader;
use oxideav_heif::HeifWriter;
use vstd::prelude::*;
use vstd::slice::{slice_subrange, slice_to_vec};

verus! {

/// Most images that are coded together.
pub const GOP_MAX_FRAMES: usize = 64;

/// How to code an image sequence.
#[derive(Clone, Copy, Debug)]
pub struct SequenceEncodeOptions {
    /// Ticks per second.
    pub timescale: u32,
    /// Ticks that each image lasts.
    pub frame_duration: u32,
    /// AV1 quantiser index; 0 is lossless.
    pub base_q_idx: u8,
    /// Whether every image is coded by itself.
    pub all_intra: bool,
    /// Images that are coded together, from 1 to [`GOP_MAX_FRAMES`], where
    /// not every image is coded by itself.
    pub gop_length: usize,
}

impl Default for SequenceEncodeOptions {
    /// 30 images per second, lossless, in the largest groups.
    fn default() -> (r: SequenceEncodeOptions)
        ensures
            r.timescale == 30,
            r.frame_duration == 1,
            r.base_q_idx == 0,
            !r.all_intra,
            r.gop_length == GOP_MAX_FRAMES,
    {
        SequenceEncodeOptions {
            timescale: 30,
            frame_duration: 1,
            base_q_idx: 0,
            all_intra: false,
            gop_length: GOP_MAX_FRAMES,
        }
    }
}

/// One coded image of a sequence.
#[derive(Clone, Debug)]
pub struct CodedSample {
    /// Coded bytes.
    pub data: Vec<u8>,
    /// Whether it can be decoded without the samples before it.
    pub sync: bool,
}

/// A [`CodedSample`] as contracts speak of it.
#[verifier::ext_equal]
pub struct SampleView {
    /// Coded bytes.
    pub data: Seq<u8>,
    /// Whether it can be decoded without the samples before it.
    pub sync: bool,
}

impl View for CodedSample {
    type V = SampleView;

    open spec fn view(&self) -> SampleView {
        SampleView { data: self.data@, sync: self.sync }
    }
}

// ---------------------------------------------------------------------
// The cover image

/// The cover image of a sequence: its first sample as an item.
pub struct CoverStill<'a> {
    /// Major and compatible brands of the file.
    pub brands: ([u8; 4], Vec<[u8; 4]>),
    /// Coded width.
    pub width: u32,
    /// Coded height.
    pub height: u32,
    /// The first sample.
    pub payload: Vec<u8>,
    /// Configuration record.
    pub av1c: &'a [u8],
    /// Bits per channel.
    pub pixi: &'a [u8],
    /// Colour description.
    pub colr: Option<&'a Colr>,
    /// Clean aperture.
    pub clap: Option<Clap>,
}

/// A [`CoverStill`] as contracts speak of it.
#[verifier::ext_equal]
pub struct CoverView {
    /// Major brand.
    pub major: [u8; 4],
    /// Compatible brands.
    pub compatible: Seq<[u8; 4]>,
    /// Coded width.
    pub width: u32,
    /// Coded height.
    pub height: u32,
    /// The first sample.
    pub payload: Seq<u8>,
    /// Configuration record.
    pub av1c: Seq<u8>,
    /// Bits per channel.
    pub pixi: Seq<u8>,
    /// Colour description.
    pub colr: Option<ColrView>,
    /// Clean aperture.
    pub clap: Option<Clap>,
}

impl View for CoverStill<'_> {
    type V = CoverView;

    open spec fn view(&self) -> CoverView {
        CoverView {
            major: self.brands.0,
            compatible: self.brands.1@,
            width: self.width,
            height: self.height,
            payload: self.payload@,
            av1c: self.av1c@,
            pixi: self.pixi@,
            colr: opt_view(self.colr),
            clap: self.clap,
        }
    }
}

/// The properties of the cover image.
pub open spec fn cover_props(c: CoverView) -> Seq<PropPlan> {
    seq![
        prop(PropertyView::Av1C(c.av1c), true),
        prop(PropertyView::Ispe(Ispe { width: c.width, height: c.height }), false),
        prop(PropertyView::Pixi(c.pixi), false),
    ] + opt_prop(as_colr(c.colr), false) + opt_prop(as_clap(c.clap), true)
}

/// The file with the cover image alone.
pub open spec fn cover_plan(c: CoverView) -> FilePlan {
    FilePlan {
        primary: Some(1),
        ..FilePlan { brands: Some((c.major, c.compatible)), ..empty_plan() }.with_item(
            ItemPlan {
                item_type: ITEM_TYPE_AV01,
                content_type: None,
                hidden: false,
                body: BodyPlan::Coded(c.payload),
                properties: cover_props(c),
            },
        )
    }
}

/// Why the cover image is refused before it is written, if it is.
pub open spec fn cover_fault(c: CoverView) -> Option<Fault> {
    either(record_fault(c.av1c, "sequence "@), opt_colr_fault(c.colr))
}

/// The file with the cover image, and where its bytes lie in it.
pub open spec fn cover_file(c: CoverView) -> Result<(Seq<u8>, usize, usize), Fault> {
    match cover_fault(c) {
        Some(f) => Err(f),
        None => match written(cover_plan(c)) {
            Err(f) => Err(f),
            Ok(file) => match file_spans(file, 1) {
                Err(f) => Err(f),
                Ok(spans) => if spans.len() == 1 {
                    Ok((file, spans[0].0, spans[0].1))
                } else {
                    Err(
                        Fault::Invalid(
                            "avif mux: sequence cover still is not one contiguous span"@,
                        ),
                    )
                },
            },
        },
    }
}

proof fn lemma_cover_valid(c: CoverView)
    ensures
        cover_plan(c).valid(),
{
    let start = FilePlan { brands: Some((c.major, c.compatible)), ..empty_plan() };
    let item = cover_plan(c).items[0];
    assert(cover_props(c)[0].box_type == AV1C && cover_props(c)[1].box_type == ISPE);
    lemma_coded_complete(item);
    assert(growing(start, 1, 0));
    lemma_grow_item(start, 1, 0, item);
    lemma_stored(start.with_item(item).items, 1);
    lemma_grown(start.with_item(item), 1, cover_props(c).len(), 1);
}

proof fn lemma_cover_readable(c: CoverView)
    requires
        classified(c.major, c.compatible) is Ok,
        cover_fault(c) is None,
    ensures
        cover_plan(c).readable(),
{
    let plan = cover_plan(c);
    let s0 = opt_prop(Some(PropertyView::Av1C(c.av1c)), true);
    let extents = PropertyView::Ispe(Ispe { width: c.width, height: c.height });
    let s1 = s0 + opt_prop(Some(extents), false);
    let s2 = s1 + opt_prop(Some(PropertyView::Pixi(c.pixi)), false);
    let s3 = s2 + opt_prop(as_colr(c.colr), false);
    lemma_readable_opt(Some(PropertyView::Av1C(c.av1c)), true);
    lemma_readable_opt(Some(extents), false);
    lemma_readable_add(s0, opt_prop(Some(extents), false));
    lemma_readable_opt(Some(PropertyView::Pixi(c.pixi)), false);
    lemma_readable_add(s1, opt_prop(Some(PropertyView::Pixi(c.pixi)), false));
    lemma_readable_opt(as_colr(c.colr), false);
    lemma_readable_add(s2, opt_prop(as_colr(c.colr), false));
    lemma_readable_opt(as_clap(c.clap), true);
    lemma_readable_add(s3, opt_prop(as_clap(c.clap), true));
    assert(cover_props(c) =~= s3 + opt_prop(as_clap(c.clap), true));
    assert forall|i: int, j: int|
        #![trigger plan.items[i].properties[j]]
        0 <= i < plan.items.len() && 0 <= j < plan.items[i].properties.len()
            implies readable_property(plan.items[i].properties[j]) by {
        assert(readable_list(plan.items[i].properties));
    }
}

/// Write the cover image. Its bytes lie in the file where the result
/// says.
pub fn sequence_cover_still(cover: CoverStill<'_>) -> (r: Result<
    (Vec<u8>, (usize, usize)),
    AvifError,
>)
    ensures
        match r {
            Ok((file, span)) => {
                &&& cover_file(cover@) == Ok::<(Seq<u8>, usize, usize), Fault>(
                    (file@, span.0, span.1),
                )
                &&& span.0 <= span.1 <= file@.len()
                &&& cover@.payload.len() > 0 ==> file@.subrange(span.0 as int, span.1 as int)
                    == cover@.payload
                &&& sized_from(file@, 0)
                &&& classified(cover@.major, cover@.compatible) is Ok && cover@.pixi.len() <= 255
                    ==> reads_cover(file@, cover@)
            },
            Err(e) => cover_file(cover@) == Err::<(Seq<u8>, usize, usize), Fault>(e@),
        },
{
    let ghost c = cover@;
    let (major, compatible) = cover.brands;
    let mut w = HeifWriter::new().with_brands(major, compatible);
    let mut props = list_of(prop_av1c(cover.av1c, "sequence ")?);
    push_prop(&mut props, prop_ispe(cover.width, cover.height));
    push_prop(&mut props, prop_pixi(cover.pixi));
    proof {
        assert(queued(props@) =~= seq![
            prop(PropertyView::Av1C(c.av1c), true),
            prop(PropertyView::Ispe(Ispe { width: c.width, height: c.height }), false),
            prop(PropertyView::Pixi(c.pixi), false),
        ]);
    }
    match cover.colr {
        Some(colr) => {
            push_prop(&mut props, prop_colr(colr)?);
        },
        None => {
            proof {
                assert(queued(props@) + opt_prop(as_colr(c.colr), false) =~= queued(props@));
            }
        },
    }
    push_clap(&mut props, cover.clap);
    let id: u32 = w.add_coded_item(ITEM_TYPE_AV01, cover.payload, props);
    w.set_primary(id);
    proof {
        lemma_cover_valid(c);
        if classified(c.major, c.compatible) is Ok {
            lemma_cover_readable(c);
        }
        assert(plan_of(w) == cover_plan(c));
    }
    let bytes = write_file(&w)?;
    let spans = item_spans(bytes.as_slice(), id)?;
    if spans.len() == 1 {
        proof {
            assert(cover_plan(c).holds(1));
            assert(cover_plan(c).item(1).body == BodyPlan::Coded(c.payload));
            if classified(c.major, c.compatible) is Ok && c.pixi.len() <= 255 {
                lemma_cover_kept(bytes@, c);
            }
        }
        let span = spans[0];
        Ok((bytes, span))
    } else {
        Err(AvifError::invalid("avif mux: sequence cover still is not one contiguous span"))
    }
}

// ---------------------------------------------------------------------
// The track and the samples

/// The brand of a coded profile, which the configuration record gives.
pub open spec fn brand_of(av1c: Seq<u8>) -> ProfileBrand {
    if av1c.len() < 2 || av1c[1] / 32 > 1 {
        ProfileBrand::Bare
    } else if av1c[1] / 32 == 1 {
        ProfileBrand::Advanced
    } else {
        ProfileBrand::Baseline
    }
}

fn profile_brand(av1c: &[u8]) -> (r: ProfileBrand)
    ensures
        r == brand_of(av1c@),
{
    if av1c.len() < 2 || av1c[1] / 32 > 1 {
        ProfileBrand::Bare
    } else if av1c[1] / 32 == 1 {
        ProfileBrand::Advanced
    } else {
        ProfileBrand::Baseline
    }
}

/// Whether every sample is a sync sample.
pub open spec fn all_sync(samples: Seq<SampleView>) -> bool {
    forall|i: int| 0 <= i < samples.len() ==> (#[trigger] samples[i]).sync
}

/// The numbers, from 1, of the sync samples among the first `n`.
pub open spec fn sync_numbers(samples: Seq<SampleView>, n: nat) -> Seq<u32>
    decreases n,
{
    if n == 0 {
        Seq::empty()
    } else if samples[n - 1].sync {
        sync_numbers(samples, (n - 1) as nat).push(n as u32)
    } else {
        sync_numbers(samples, (n - 1) as nat)
    }
}

/// The sizes of the samples, 32 bits of each.
pub open spec fn sizes_of(samples: Seq<SampleView>, n: nat) -> Seq<u32> {
    Seq::new(n, |i: int| (samples[i].data.len() % 0x1_0000_0000) as u32)
}

/// The bytes of samples 1 to `n`, one after the other: all of the first
/// `n` but sample 0.
pub open spec fn rest_of(samples: Seq<SampleView>, n: nat) -> Seq<u8>
    decreases n,
{
    if n <= 1 {
        Seq::empty()
    } else {
        rest_of(samples, (n - 1) as nat) + samples[n - 1].data
    }
}

/// The clean aperture of an image that is coded with larger extents.
pub open spec fn aperture_of(v: StillView) -> Option<Clap> {
    let (w, h) = (coded_size(v.width), coded_size(v.height));
    if w != v.width || h != v.height {
        Some(top_left_aperture(v.width, v.height, w, h))
    } else {
        None
    }
}

/// The cover image of a sequence like `v`.
pub open spec fn cover_of(v: StillView, samples: Seq<SampleView>, av1c: Seq<u8>) -> CoverView {
    CoverView {
        major: BRAND_AVIS,
        compatible: sequence_codes(brand_of(av1c), all_sync(samples)),
        width: coded_size(v.width),
        height: coded_size(v.height),
        payload: samples[0].data,
        av1c,
        pixi: v.channel_bits(),
        colr: v.colr,
        clap: aperture_of(v),
    }
}

/// The track of a sequence like `v`.
pub open spec fn track_of(
    v: StillView,
    opts: SequenceEncodeOptions,
    samples: Seq<SampleView>,
    av1c: Seq<u8>,
) -> TrackView {
    TrackView {
        timescale: opts.timescale,
        frame_duration: opts.frame_duration,
        coded_width: coded_size(v.width),
        coded_height: coded_size(v.height),
        av1c,
        colr: v.colr,
        clap: aperture_of(v),
        sample_sizes: sizes_of(samples, samples.len()),
        sync_samples: if all_sync(samples) {
            None
        } else {
            Some(sync_numbers(samples, samples.len()))
        },
    }
}

/// Where the samples behind a `moov` box of `moov` bytes start, behind
/// the header of the box that holds them.
pub open spec fn place_behind(file: nat, moov: nat) -> u64 {
    if file + moov + 8 > u64::MAX {
        u64::MAX
    } else {
        (file + moov + 8) as u64
    }
}

/// Where the chunks start: sample 0 in the cover image, and the others
/// behind the `moov` box. A larger place can make that box longer, and
/// is then taken behind the longer one.
pub open spec fn chunk_starts(t: TrackView, file: nat, start: u64) -> Seq<u64> {
    if t.count() == 1 {
        seq![start]
    } else {
        let short = t.moov(seq![start, 0u64]).len();
        let at = place_behind(file, short);
        let full = t.moov(seq![start, at]).len();
        if full == short {
            seq![start, at]
        } else {
            seq![start, place_behind(file, full)]
        }
    }
}

/// The box that holds all samples but the first, where there are any
/// bytes.
pub open spec fn rest_box(rest: Seq<u8>) -> Seq<u8> {
    if rest.len() == 0 {
        Seq::empty()
    } else {
        box_bytes(MDAT, rest)
    }
}

/// The file of an image sequence like `v`, of these samples.
#[verifier::opaque]
pub open spec fn assembled(
    v: StillView,
    opts: SequenceEncodeOptions,
    samples: Seq<SampleView>,
    av1c: Seq<u8>,
) -> Result<Seq<u8>, Fault> {
    let t = track_of(v, opts, samples, av1c);
    match cover_file(cover_of(v, samples, av1c)) {
        Err(f) => Err(f),
        Ok((file, start, end)) => if end - start != samples[0].data.len() {
            Err(
                Fault::Invalid(
                    "avif sequence: cover still payload span does not match sample 0"@,
                ),
            )
        } else {
            match moov_of(t, chunk_starts(t, file.len(), start as u64)) {
                Err(f) => Err(f),
                Ok(moov) => Ok(file + moov + rest_box(rest_of(samples, samples.len()))),
            }
        },
    }
}

fn is_all_sync(samples: &Vec<CodedSample>) -> (r: bool)
    ensures
        r == all_sync(views(samples@)),
{
    let ghost s = views(samples@);
    let mut i: usize = 0;
    while i < samples.len()
        invariant
            i <= samples@.len(),
            s == views(samples@),
            forall|j: int| 0 <= j < i ==> (#[trigger] s[j]).sync,
        decreases samples@.len() - i,
    {
        proof {
            assert(s[i as int] == samples@[i as int]@);
        }
        if !samples[i].sync {
            return false;
        }
        i = i + 1;
    }
    true
}

fn list_sync(samples: &Vec<CodedSample>) -> (r: Vec<u32>)
    requires
        samples@.len() <= u32::MAX,
    ensures
        r@ == sync_numbers(views(samples@), samples@.len()),
        r@.len() <= samples@.len(),
{
    let mut out: Vec<u32> = Vec::new();
    let mut i: usize = 0;
    while i < samples.len()
        invariant
            i <= samples@.len() <= u32::MAX,
            out@ == sync_numbers(views(samples@), i as nat),
            out@.len() <= i,
        decreases samples@.len() - i,
    {
        proof {
            assert(views(samples@)[i as int] == samples@[i as int]@);
        }
        i = i + 1;
        if samples[i - 1].sync {
            out.push(i as u32);
        }
    }
    out
}

fn list_sizes(samples: &Vec<CodedSample>) -> (r: Vec<u32>)
    ensures
        r@ == sizes_of(views(samples@), samples@.len()),
{
    let mut out: Vec<u32> = Vec::new();
    let mut i: usize = 0;
    while i < samples.len()
        invariant
            i <= samples@.len(),
            out@ == sizes_of(views(samples@), i as nat),
        decreases samples@.len() - i,
    {
        out.push((samples[i].data.len() as u64 % 0x1_0000_0000) as u32);
        proof {
            assert(views(samples@)[i as int] == samples@[i as int]@);
            assert(out@ =~= sizes_of(views(samples@), (i + 1) as nat));
        }
        i = i + 1;
    }
    out
}

fn join_rest(samples: &Vec<CodedSample>) -> (r: Vec<u8>)
    requires
        samples@.len() >= 1,
    ensures
        r@ == rest_of(views(samples@), samples@.len()),
{
    let mut out: Vec<u8> = Vec::new();
    let mut i: usize = 1;
    while i < samples.len()
        invariant
            1 <= i <= samples@.len(),
            out@ == rest_of(views(samples@), i as nat),
        decreases samples@.len() - i,
    {
        proof {
            assert(views(samples@)[i as int] == samples@[i as int]@);
        }
        let mut part = slice_to_vec(samples[i].data.as_slice());
        out.append(&mut part);
        i = i + 1;
    }
    out
}

fn behind(file: usize, moov: usize) -> (r: u64)
    ensures
        r == place_behind(file as nat, moov as nat),
{
    (file as u64).saturating_add(moov as u64).saturating_add(8)
}

/// Write the track with its chunks where they will lie.
fn place_moov(t: &TrackLayout<'_>, file: usize, start: u64) -> (r: Result<Vec<u8>, AvifError>)
    requires
        t@.counted(),
        t@.count() >= 1,
    ensures
        outcome_view(r) == moov_of(t@, chunk_starts(t@, file as nat, start)),
{
    if t.sample_sizes.len() == 1 {
        let starts: Vec<u64> = vec![start];
        proof {
            assert(starts@ =~= seq![start]);
        }
        build_moov(t, starts.as_slice())
    } else {
        let starts: Vec<u64> = vec![start, 0u64];
        proof {
            assert(starts@ =~= seq![start, 0u64]);
        }
        let short = build_moov(t, starts.as_slice())?;
        let at: u64 = behind(file, short.len());
        let starts: Vec<u64> = vec![start, at];
        proof {
            assert(starts@ =~= seq![start, at]);
        }
        let full = build_moov(t, starts.as_slice())?;
        if full.len() == short.len() {
            Ok(full)
        } else {
            let at: u64 = behind(file, full.len());
            let starts: Vec<u64> = vec![start, at];
            proof {
                assert(starts@ =~= seq![start, at]);
            }
            build_moov(t, starts.as_slice())
        }
    }
}

/// The clean aperture of an image that is coded with larger extents.
fn aperture(first: &StillImage) -> (r: Option<Clap>)
    requires
        coded_size(first.width) <= STILL_MAX_CODED_DIM,
        coded_size(first.height) <= STILL_MAX_CODED_DIM,
    ensures
        r == aperture_of(first@),
{
    let width: u32 = coded_extent(first.width);
    let height: u32 = coded_extent(first.height);
    if width != first.width || height != first.height {
        Some(top_left_clap(first.width, first.height, width, height))
    } else {
        None
    }
}

/// Write the cover image of a sequence.
fn write_cover(first: &StillImage, samples: &Vec<CodedSample>, av1c: &[u8]) -> (r: Result<
    (Vec<u8>, (usize, usize)),
    AvifError,
>)
    requires
        samples@.len() >= 1,
        coded_size(first.width) <= STILL_MAX_CODED_DIM,
        coded_size(first.height) <= STILL_MAX_CODED_DIM,
    ensures
        match r {
            Ok((file, span)) => {
                &&& cover_file(cover_of(first@, views(samples@), av1c@)) == Ok::<
                    (Seq<u8>, usize, usize),
                    Fault,
                >((file@, span.0, span.1))
                &&& span.0 <= span.1 <= file@.len()
                &&& samples@[0].data@.len() > 0 ==> file@.subrange(span.0 as int, span.1 as int)
                    == samples@[0].data@
                &&& sized_from(file@, 0)
                &&& reads_cover(file@, cover_of(first@, views(samples@), av1c@))
            },
            Err(e) => cover_file(cover_of(first@, views(samples@), av1c@)) == Err::<
                (Seq<u8>, usize, usize),
                Fault,
            >(e@),
        },
{
    let ghost s = views(samples@);
    proof {
        assert(s[0] == samples@[0]@);
    }
    let pixi = first.pixi_bits();
    let cover = CoverStill {
        brands: sequence_brands(profile_brand(av1c), is_all_sync(samples)),
        width: coded_extent(first.width),
        height: coded_extent(first.height),
        payload: slice_to_vec(samples[0].data.as_slice()),
        av1c,
        pixi: pixi.as_slice(),
        colr: match &first.colr {
            Some(c) => Some(c),
            None => None,
        },
        clap: aperture(first),
    };
    proof {
        assert(cover@ =~= cover_of(first@, s, av1c@));
        law_sequence_brands_are_accepted(brand_of(av1c@), all_sync(s));
    }
    sequence_cover_still(cover)
}

/// Write the track of a sequence that follows a file of this length.
fn write_track(
    first: &StillImage,
    opts: &SequenceEncodeOptions,
    samples: &Vec<CodedSample>,
    av1c: &[u8],
    file: usize,
    start: u64,
) -> (r: Result<Vec<u8>, AvifError>)
    requires
        1 <= samples@.len() <= u32::MAX,
        coded_size(first.width) <= STILL_MAX_CODED_DIM,
        coded_size(first.height) <= STILL_MAX_CODED_DIM,
    ensures
        ({
            let t = track_of(first@, *opts, views(samples@), av1c@);
            outcome_view(r) == moov_of(t, chunk_starts(t, file as nat, start))
        }),
{
    let sizes = list_sizes(samples);
    let sync = list_sync(samples);
    let track = TrackLayout {
        timescale: opts.timescale,
        frame_duration: opts.frame_duration,
        coded_width: coded_extent(first.width),
        coded_height: coded_extent(first.height),
        av1c,
        colr: match &first.colr {
            Some(c) => Some(c),
            None => None,
        },
        clap: aperture(first),
        sample_sizes: sizes.as_slice(),
        sync_samples: if is_all_sync(samples) {
            None
        } else {
            Some(sync.as_slice())
        },
    };
    proof {
        assert(track@ =~= track_of(first@, *opts, views(samples@), av1c@));
    }
    place_moov(&track, file, start)
}

/// Write the file of an image sequence whose images are like `first`,
/// from its samples and their configuration record. The first sample is
/// the cover image too: it lies in the file once.
pub fn assemble_sequence(
    first: &StillImage,
    opts: &SequenceEncodeOptions,
    samples: &Vec<CodedSample>,
    av1c: &[u8],
) -> (r: Result<Vec<u8>, AvifError>)
    requires
        1 <= samples@.len() <= u32::MAX,
        coded_size(first.width) <= STILL_MAX_CODED_DIM,
        coded_size(first.height) <= STILL_MAX_CODED_DIM,
    ensures
        outcome_view(r) == assembled(first@, *opts, views(samples@), av1c@),
        r matches Ok(file) ==> cover_file(cover_of(first@, views(samples@), av1c@)) matches Ok(c)
            && file@.subrange(c.1 as int, c.2 as int) == samples@[0].data@,
        r matches Ok(file) ==> reads_cover(file@, cover_of(first@, views(samples@), av1c@)),
{
    let ghost s = views(samples@);
    proof {
        reveal(assembled);
        assert(s[0] == samples@[0]@);
    }
    let (mut file, (start, end)) = write_cover(first, samples, av1c)?;
    if end - start != samples[0].data.len() {
        return Err(
            AvifError::invalid("avif sequence: cover still payload span does not match sample 0"),
        );
    }
    let ghost still = file@;
    let mut moov = write_track(first, opts, samples, av1c, file.len(), start as u64)?;
    let ghost middle = moov@;
    file.append(&mut moov);
    let rest = join_rest(samples);
    if rest.len() > 0 {
        let mut last = boxed(&MDAT, rest.as_slice());
        file.append(&mut last);
    }
    proof {
        assert(file@ =~= still + middle + rest_box(rest@));
        assert(file@.subrange(start as int, end as int) =~= still.subrange(
            start as int,
            end as int,
        ));
        if samples@[0].data@.len() == 0 {
            assert(file@.subrange(start as int, end as int) =~= samples@[0].data@);
        }
        assert(file@.len() == file.len());
        law_sequence_cover_reads_back(first@, *opts, s, av1c@, still, file@);
    }
    Ok(file)
}

// ---------------------------------------------------------------------
// Coding the images

/// How an image is laid out, in words.
pub open spec fn layout_text(v: StillView) -> Seq<char> {
    dec(v.width as nat) + "x"@ + dec(v.height as nat) + " "@ + dec(v.bit_depth as nat) + "-bit "@
        + v.chroma.label()
}

fn push_layout(s: &mut String, f: &StillImage)
    ensures
        final(s)@ == old(s)@ + layout_text(f@),
{
    let ghost before = s@;
    push_dec(s, f.width as u64);
    s.append("x");
    push_dec(s, f.height as u64);
    s.append(" ");
    push_dec(s, f.bit_depth as u64);
    s.append("-bit ");
    s.append(f.chroma.name());
    proof {
        assert(s@ =~= before + layout_text(f@));
    }
}

/// Whether two images are laid out alike.
pub open spec fn alike(a: StillView, b: StillView) -> bool {
    &&& a.width == b.width
    &&& a.height == b.height
    &&& a.bit_depth == b.bit_depth
    &&& a.chroma == b.chroma
}

/// Why image `i` of a sequence is refused, if it is.
pub open spec fn frame_fault(v: StillView, first: StillView, i: int) -> Option<Fault> {
    if v.fault() is Some {
        v.fault()
    } else if !alike(v, first) {
        Some(
            Fault::Invalid(
                "avif sequence: frame "@ + dec(i as nat) + " ("@ + layout_text(v)
                    + ") differs from frame 0 ("@ + layout_text(first) + ")"@,
            ),
        )
    } else if v.alpha is Some || v.depth_map is Some {
        Some(
            Fault::Unsupported(
                "avif sequence: auxiliary (alpha / depth) image sequences are not supported"@,
            ),
        )
    } else {
        None
    }
}

/// Why the first of the images from place `i` on that is refused is
/// refused, if one is.
pub open spec fn frames_fault(frames: Seq<StillView>, i: int) -> Option<Fault>
    decreases frames.len() - i,
{
    if i < 0 || i >= frames.len() {
        None
    } else {
        either(frame_fault(frames[i], frames[0], i), frames_fault(frames, i + 1))
    }
}

/// Why a sequence is refused before it is coded, if it is.
pub open spec fn sequence_fault(frames: Seq<StillView>, opts: SequenceEncodeOptions) -> Option<
    Fault,
> {
    let (w, h) = (coded_size(frames[0].width), coded_size(frames[0].height));
    if frames.len() == 0 {
        Some(Fault::Invalid("avif sequence: no frames"@))
    } else if opts.timescale == 0 || opts.frame_duration == 0 {
        Some(Fault::Invalid("avif sequence: timescale and frame_duration must be non-zero"@))
    } else if !(1 <= opts.gop_length <= GOP_MAX_FRAMES) && !opts.all_intra {
        Some(
            Fault::Invalid(
                "avif sequence: gop_length "@ + dec(opts.gop_length as nat) + " outside 1..=64"@,
            ),
        )
    } else if w > STILL_MAX_CODED_DIM || h > STILL_MAX_CODED_DIM {
        Some(
            Fault::Unsupported(
                "avif sequence: coded extents "@ + dec(w as nat) + "x"@ + dec(h as nat)
                    + " exceed 16384"@,
            ),
        )
    } else {
        frames_fault(frames, 0)
    }
}

/// An image drawn out to its coded extents.
pub open spec fn padded(v: StillView) -> CodedView {
    let (w, h) = (coded_size(v.width), coded_size(v.height));
    let (cw, ch) = v.chroma_size();
    let pw = sampled(w, v.chroma.shifts().0);
    let ph = sampled(h, v.chroma.shifts().1);
    let chroma = v.chroma != StillChroma::Monochrome;
    CodedView {
        width: w,
        height: h,
        bit_depth: v.bit_depth,
        chroma: v.chroma,
        y: padded_plane(v.y, v.width as int, v.height as int, w as int, h as int),
        u: if chroma {
            padded_plane(v.u, cw as int, ch as int, pw as int, ph as int)
        } else {
            Seq::empty()
        },
        v: if chroma {
            padded_plane(v.v, cw as int, ch as int, pw as int, ph as int)
        } else {
            Seq::empty()
        },
    }
}

/// An image that is valid can be coded once it is drawn out.
proof fn lemma_padded_codable(v: StillView)
    requires
        v.fault() is None,
        coded_size(v.width) <= STILL_MAX_CODED_DIM,
        coded_size(v.height) <= STILL_MAX_CODED_DIM,
    ensures
        padded(v).codable(),
{
    let (w, h) = (coded_size(v.width), coded_size(v.height));
    let (cw, ch) = v.chroma_size();
    let limit = sample_limit(v.bit_depth);
    lemma_padding_keeps_range(v.y, v.width as int, v.height as int, w as int, h as int, limit);
    if v.chroma != StillChroma::Monochrome {
        let pw = sampled(w, v.chroma.shifts().0);
        let ph = sampled(h, v.chroma.shifts().1);
        lemma_padding_keeps_range(v.u, cw as int, ch as int, pw as int, ph as int, limit);
        lemma_padding_keeps_range(v.v, cw as int, ch as int, pw as int, ph as int, limit);
    }
}

/// Draw an image out to its coded extents.
fn pad_image(f: &StillImage) -> (r: CodedPicture)
    requires
        f@.fault() is None,
        coded_size(f.width) <= STILL_MAX_CODED_DIM,
        coded_size(f.height) <= STILL_MAX_CODED_DIM,
    ensures
        r@ == padded(f@),
        r@.codable(),
{
    let w: u32 = coded_extent(f.width);
    let h: u32 = coded_extent(f.height);
    let y = pad_plane(&f.y, f.width as usize, f.height as usize, w as usize, h as usize);
    let mut u: Vec<u16> = Vec::new();
    let mut v: Vec<u16> = Vec::new();
    if f.chroma.has_chroma() {
        let (sx, sy) = f.chroma.subsampling();
        let (cw, ch) = f.chroma_dims();
        let pw: u32 = if sx == 0 {
            w
        } else {
            w / 2
        };
        let ph: u32 = if sy == 0 {
            h
        } else {
            h / 2
        };
        proof {
            assert(pw == sampled(w, sx));
            assert(ph == sampled(h, sy));
        }
        u = pad_plane(&f.u, cw as usize, ch as usize, pw as usize, ph as usize);
        v = pad_plane(&f.v, cw as usize, ch as usize, pw as usize, ph as usize);
    }
    let r = CodedPicture { width: w, height: h, bit_depth: f.bit_depth, chroma: f.chroma, y, u, v };
    proof {
        assert(r@ =~= padded(f@));
        lemma_padded_codable(f@);
    }
    r
}

/// Refuse an image of a sequence that cannot be coded.
fn check_frame(f: &StillImage, first: &StillImage, i: usize) -> (r: Result<(), AvifError>)
    ensures
        match r {
            Ok(_) => frame_fault(f@, first@, i as int) is None,
            Err(e) => frame_fault(f@, first@, i as int) == Some(e@),
        },
{
    f.validate()?;
    if f.width != first.width || f.height != first.height || f.bit_depth != first.bit_depth
        || f.chroma != first.chroma {
        let mut s = "avif sequence: frame ".to_string();
        push_dec(&mut s, i as u64);
        s.append(" (");
        push_layout(&mut s, f);
        s.append(") differs from frame 0 (");
        push_layout(&mut s, first);
        s.append(")");
        return Err(AvifError::InvalidData(s));
    }
    if f.alpha.is_some() || f.depth_map.is_some() {
        return Err(
            AvifError::unsupported(
                "avif sequence: auxiliary (alpha / depth) image sequences are not supported",
            ),
        );
    }
    Ok(())
}

/// Refuse the first image that cannot be coded.
fn check_frames(frames: &[StillImage]) -> (r: Result<(), AvifError>)
    requires
        frames@.len() > 0,
    ensures
        match r {
            Ok(_) => frames_fault(views(frames@), 0) is None,
            Err(e) => frames_fault(views(frames@), 0) == Some(e@),
        },
{
    let ghost all = views(frames@);
    proof {
        assert(all[0] == frames@[0]@);
    }
    let mut i: usize = 0;
    while i < frames.len()
        invariant
            i <= frames@.len(),
            frames@.len() > 0,
            all == views(frames@),
            all[0] == frames@[0]@,
            frames_fault(all, i as int) == frames_fault(all, 0),
        decreases frames@.len() - i,
    {
        proof {
            assert(all[i as int] == frames@[i as int]@);
        }
        check_frame(&frames[i], &frames[0], i)?;
        i = i + 1;
    }
    Ok(())
}

/// Refuse options and images that cannot be coded.
fn check_sequence(frames: &[StillImage], opts: &SequenceEncodeOptions) -> (r: Result<
    (),
    AvifError,
>)
    ensures
        match r {
            Ok(_) => sequence_fault(views(frames@), *opts) is None,
            Err(e) => sequence_fault(views(frames@), *opts) == Some(e@),
        },
{
    let ghost all = views(frames@);
    if frames.len() == 0 {
        return Err(AvifError::invalid("avif sequence: no frames"));
    }
    proof {
        assert(all[0] == frames@[0]@);
    }
    if opts.timescale == 0 || opts.frame_duration == 0 {
        return Err(
            AvifError::invalid("avif sequence: timescale and frame_duration must be non-zero"),
        );
    }
    if !(1 <= opts.gop_length && opts.gop_length <= GOP_MAX_FRAMES) && !opts.all_intra {
        let mut s = "avif sequence: gop_length ".to_string();
        push_dec(&mut s, opts.gop_length as u64);
        s.append(" outside 1..=64");
        return Err(AvifError::InvalidData(s));
    }
    let w: u32 = coded_extent(frames[0].width);
    let h: u32 = coded_extent(frames[0].height);
    if w > STILL_MAX_CODED_DIM || h > STILL_MAX_CODED_DIM {
        let mut s = "avif sequence: coded extents ".to_string();
        push_dec(&mut s, w as u64);
        s.append("x");
        push_dec(&mut s, h as u64);
        s.append(" exceed 16384");
        return Err(AvifError::Unsupported(s));
    }
    check_frames(frames)
}

/// Images that are not refused are valid and alike.
proof fn lemma_frames_accepted(frames: Seq<StillView>, i: int, j: int)
    requires
        0 <= i <= j < frames.len(),
        frames_fault(frames, i) is None,
    ensures
        frames[j].fault() is None,
        alike(frames[j], frames[0]),
    decreases j - i,
{
    if i < j {
        lemma_frames_accepted(frames, i + 1, j);
    }
}

/// Draw all images out to their coded extents.
fn prepare(frames: &[StillImage]) -> (r: Vec<Av1Frame>)
    requires
        frames@.len() > 0,
        frames_fault(views(frames@), 0) is None,
        coded_size(frames@[0].width) <= STILL_MAX_CODED_DIM,
        coded_size(frames@[0].height) <= STILL_MAX_CODED_DIM,
    ensures
        r@.len() == frames@.len(),
        forall|i: int|
            0 <= i < r@.len() ==> frame_planes(#[trigger] r@[i]) == padded(frames@[i]@),
        forall|i: int| 0 <= i < r@.len() ==> frame_planes(#[trigger] r@[i]).codable(),
        forall|i: int|
            0 <= i < r@.len() ==> frame_planes(#[trigger] r@[i]).matches(frame_planes(r@[0])),
{
    let ghost all = views(frames@);
    let mut out: Vec<Av1Frame> = Vec::new();
    let mut i: usize = 0;
    while i < frames.len()
        invariant
            i <= frames@.len(),
            frames@.len() > 0,
            all == views(frames@),
            frames_fault(all, 0) is None,
            coded_size(frames@[0].width) <= STILL_MAX_CODED_DIM,
            coded_size(frames@[0].height) <= STILL_MAX_CODED_DIM,
            out@.len() == i,
            forall|j: int|
                0 <= j < i ==> frame_planes(#[trigger] out@[j]) == padded(frames@[j]@),
            forall|j: int| 0 <= j < i ==> frame_planes(#[trigger] out@[j]).codable(),
            forall|j: int|
                0 <= j < i ==> frame_planes(#[trigger] out@[j]).matches(padded(frames@[0]@)),
        decreases frames@.len() - i,
    {
        proof {
            lemma_frames_accepted(all, 0, i as int);
            assert(all[i as int] == frames@[i as int]@);
            assert(all[0] == frames@[0]@);
        }
        let picture = pad_image(&frames[i]);
        out.push(av1_frame(&picture));
        i = i + 1;
    }
    out
}

/// Whether these are the samples of `n` coded images: one for each, and
/// the first of each group a sync sample.
pub open spec fn coded_as(samples: Seq<SampleView>, n: nat, opts: SequenceEncodeOptions) -> bool {
    &&& samples.len() == n
    &&& forall|i: int|
        0 <= i < n ==> (#[trigger] samples[i]).sync == (opts.all_intra || i
            % opts.gop_length as int == 0)
}

/// The fault of images that the encoder refuses.
pub open spec fn coding_fault(what: Seq<char>, text: Seq<char>) -> Fault {
    Fault::Invalid("avif: AV1 encode of "@ + what + ": "@ + text)
}

fn coding_error(what: &str, text: &String) -> (r: AvifError)
    ensures
        r@ == coding_fault(what@, text@),
{
    let mut s = "avif: AV1 encode of ".to_string();
    s.append(what);
    s.append(": ");
    s.append(text.as_str());
    AvifError::InvalidData(s)
}

/// A coded unit as it is stored: where samples take their full range, its
/// sequence header says so.
pub open spec fn stored_unit(unit: Seq<u8>, header: Av1SequenceHeader, full_range: bool) -> Result<
    Seq<u8>,
    Fault,
> {
    if full_range {
        replaced_from(unit, 0, header_payload(header, true), Seq::empty())
    } else {
        Ok(unit)
    }
}

/// A coded unit as it is stored.
fn store_unit(unit: &Vec<u8>, header: &Av1SequenceHeader, full_range: bool) -> (r: Result<
    Vec<u8>,
    AvifError,
>)
    requires
        from_encoder(*header),
    ensures
        outcome_view(r) == stored_unit(unit@, *header, full_range),
{
    if full_range {
        replace_headers(unit.as_slice(), write_header(header, true).as_slice())
    } else {
        Ok(slice_to_vec(unit.as_slice()))
    }
}

/// `done`, then the images from place `i` on, each coded by itself.
pub open spec fn intra_from(
    frames: Seq<CodedView>,
    q: u8,
    full_range: bool,
    i: int,
    done: Seq<SampleView>,
) -> Result<Seq<SampleView>, Fault>
    decreases frames.len() - i,
{
    if i < 0 || i >= frames.len() {
        Ok(done)
    } else {
        match coded_key_frame(frames[i], q) {
            Err(text) => Err(coding_fault("sequence frame"@, text)),
            Ok(g) => match stored_unit(g.units[0], g.header, full_range) {
                Err(f) => Err(f),
                Ok(data) => intra_from(
                    frames,
                    q,
                    full_range,
                    i + 1,
                    done.push(SampleView { data, sync: true }),
                ),
            },
        }
    }
}

/// `done`, then the units of a group from place `i` on. The first unit of
/// a group is a sync sample, and the only one with a sequence header.
pub open spec fn units_from(g: GroupView, full_range: bool, i: int, done: Seq<SampleView>) -> Result<
    Seq<SampleView>,
    Fault,
>
    decreases g.units.len() - i,
{
    if i < 0 || i >= g.units.len() {
        Ok(done)
    } else {
        match stored_unit(g.units[i], g.header, full_range && i == 0) {
            Err(f) => Err(f),
            Ok(data) => units_from(
                g,
                full_range,
                i + 1,
                done.push(SampleView { data, sync: i == 0 }),
            ),
        }
    }
}

/// Where the group that starts at `at` ends.
pub open spec fn group_end(n: int, gop_length: usize, at: int) -> int {
    if gop_length < n - at {
        at + gop_length
    } else {
        n
    }
}

/// `done`, then the images from place `at` on, coded in groups.
pub open spec fn grouped_from(
    frames: Seq<CodedView>,
    opts: SequenceEncodeOptions,
    full_range: bool,
    at: int,
    done: Seq<SampleView>,
) -> Result<Seq<SampleView>, Fault>
    decreases frames.len() - at,
{
    let end = group_end(frames.len() as int, opts.gop_length, at);
    if at < 0 || at >= frames.len() || end <= at {
        Ok(done)
    } else {
        match coded_group(frames.subrange(at, end), opts.base_q_idx) {
            Err(text) => Err(coding_fault("sequence GOP"@, text)),
            Ok(g) => match units_from(g, full_range, 0, done) {
                Err(f) => Err(f),
                Ok(next) => grouped_from(frames, opts, full_range, end, next),
            },
        }
    }
}

/// What the first coded images say of the sequence.
pub open spec fn first_header(frames: Seq<CodedView>, opts: SequenceEncodeOptions) -> Av1SequenceHeader {
    if opts.all_intra {
        coded_key_frame(frames[0], opts.base_q_idx)->Ok_0.header
    } else {
        coded_group(
            frames.subrange(0, group_end(frames.len() as int, opts.gop_length, 0)),
            opts.base_q_idx,
        )->Ok_0.header
    }
}

/// The samples of these images, and their configuration record.
pub open spec fn coded_samples(
    frames: Seq<CodedView>,
    opts: SequenceEncodeOptions,
    full_range: bool,
) -> Result<(Seq<SampleView>, Seq<u8>), Fault> {
    let samples = if opts.all_intra {
        intra_from(frames, opts.base_q_idx, full_range, 0, Seq::empty())
    } else {
        grouped_from(frames, opts, full_range, 0, Seq::empty())
    };
    match samples {
        Err(f) => Err(f),
        Ok(s) => Ok((s, record_of_header(first_header(frames, opts)))),
    }
}

/// The outcome of coding, with the samples, the record and the error by
/// their views.
pub open spec fn samples_outcome(r: Result<(Vec<CodedSample>, Vec<u8>), AvifError>) -> Result<
    (Seq<SampleView>, Seq<u8>),
    Fault,
> {
    match r {
        Ok((samples, record)) => Ok((views(samples@), record@)),
        Err(e) => Err(e@),
    }
}

/// Code every image by itself.
fn code_intra(frames: &Vec<Av1Frame>, opts: &SequenceEncodeOptions, full_range: bool) -> (r: Result<
    (Vec<CodedSample>, Vec<u8>),
    AvifError,
>)
    requires
        frames@.len() > 0,
        opts.all_intra,
        forall|i: int| 0 <= i < frames@.len() ==> frame_planes(#[trigger] frames@[i]).codable(),
    ensures
        samples_outcome(r) == coded_samples(planes_of(frames@), *opts, full_range),
        r matches Ok(p) ==> coded_as(views(p.0@), frames@.len(), *opts) && p.1@.len() == 4
            && p.1@[0] == 0x81,
{
    let ghost planes = planes_of(frames@);
    let mut samples: Vec<CodedSample> = Vec::new();
    let mut record: Vec<u8> = Vec::new();
    let mut i: usize = 0;
    proof {
        assert(views(samples@) =~= Seq::empty());
    }
    while i < frames.len()
        invariant
            i <= frames@.len(),
            opts.all_intra,
            planes == planes_of(frames@),
            forall|j: int|
                0 <= j < frames@.len() ==> frame_planes(#[trigger] frames@[j]).codable(),
            intra_from(planes, opts.base_q_idx, full_range, 0, Seq::empty()) == intra_from(
                planes,
                opts.base_q_idx,
                full_range,
                i as int,
                views(samples@),
            ),
            samples@.len() == i,
            forall|j: int| 0 <= j < i ==> (#[trigger] samples@[j]).sync,
            i > 0 ==> record@ == record_of_header(first_header(planes, *opts)) && record@.len() == 4
                && record@[0] == 0x81,
        decreases frames@.len() - i,
    {
        let coded = match code_key_frame(&frames[i], opts.base_q_idx) {
            Ok(c) => c,
            Err(text) => {
                return Err(coding_error("sequence frame", &text));
            },
        };
        if i == 0 {
            record = config_record(&coded.header);
        }
        proof {
            assert(views(coded.units@)[0] == coded.units@[0]@);
        }
        let data = store_unit(&coded.units[0], &coded.header, full_range)?;
        let sample = CodedSample { data, sync: true };
        proof {
            lemma_views_push(samples@, sample);
        }
        samples.push(sample);
        i = i + 1;
    }
    proof {
        let s = views(samples@);
        assert forall|j: int| 0 <= j < s.len() implies (#[trigger] s[j]).sync by {
            assert(samples@[j].sync);
        }
    }
    Ok((samples, record))
}

/// Code one group of images, the first of them by itself.
fn code_one_group(
    frames: &[Av1Frame],
    opts: &SequenceEncodeOptions,
    full_range: bool,
    samples: &mut Vec<CodedSample>,
) -> (r: Result<Vec<u8>, AvifError>)
    requires
        frames@.len() > 0,
        forall|i: int| 0 <= i < frames@.len() ==> frame_planes(#[trigger] frames@[i]).codable(),
        forall|i: int|
            0 <= i < frames@.len() ==> frame_planes(#[trigger] frames@[i]).matches(
                frame_planes(frames@[0]),
            ),
    ensures
        match coded_group(planes_of(frames@), opts.base_q_idx) {
            Err(text) => r matches Err(e) && e@ == coding_fault("sequence GOP"@, text),
            Ok(g) => match units_from(g, full_range, 0, views(old(samples)@)) {
                Err(f) => r matches Err(e) && e@ == f,
                Ok(next) => r is Ok && r->Ok_0@ == record_of_header(g.header) && views(
                    final(samples)@,
                ) == next,
            },
        },
        r is Ok ==> r->Ok_0@.len() == 4 && r->Ok_0@[0] == 0x81,
        r is Ok ==> final(samples)@.len() == old(samples)@.len() + frames@.len(),
        r is Ok ==> forall|j: int|
            0 <= j < old(samples)@.len() ==> final(samples)@[j] == old(samples)@[j],
        r is Ok ==> forall|j: int|
            old(samples)@.len() <= j < final(samples)@.len() ==> (
            #[trigger] final(samples)@[j]).sync == (j == old(samples)@.len()),
{
    let ghost before = samples@;
    let coded = match code_group(frames, opts.base_q_idx) {
        Ok(c) => c,
        Err(text) => {
            return Err(coding_error("sequence GOP", &text));
        },
    };
    let ghost g = GroupView { units: views(coded.units@), header: coded.header };
    let mut i: usize = 0;
    while i < coded.units.len()
        invariant
            i <= coded.units@.len(),
            g == (GroupView { units: views(coded.units@), header: coded.header }),
            coded_group(planes_of(frames@), opts.base_q_idx) == Ok::<GroupView, Seq<char>>(g),
            from_encoder(coded.header),
            before == old(samples)@,
            units_from(g, full_range, 0, views(before)) == units_from(
                g,
                full_range,
                i as int,
                views(samples@),
            ),
            samples@.len() == before.len() + i,
            forall|j: int| 0 <= j < before.len() ==> samples@[j] == before[j],
            forall|j: int|
                before.len() <= j < samples@.len() ==> (#[trigger] samples@[j]).sync == (j
                    == before.len()),
        decreases coded.units@.len() - i,
    {
        proof {
            assert(g.units[i as int] == coded.units@[i as int]@);
        }
        let data = store_unit(&coded.units[i], &coded.header, full_range && i == 0)?;
        let sample = CodedSample { data, sync: i == 0 };
        proof {
            lemma_views_push(samples@, sample);
        }
        samples.push(sample);
        i = i + 1;
    }
    Ok(config_record(&coded.header))
}

/// Code the images in groups.
fn code_groups(frames: &Vec<Av1Frame>, opts: &SequenceEncodeOptions, full_range: bool) -> (r: Result<
    (Vec<CodedSample>, Vec<u8>),
    AvifError,
>)
    requires
        frames@.len() > 0,
        !opts.all_intra,
        1 <= opts.gop_length <= GOP_MAX_FRAMES,
        forall|i: int| 0 <= i < frames@.len() ==> frame_planes(#[trigger] frames@[i]).codable(),
        forall|i: int|
            0 <= i < frames@.len() ==> frame_planes(#[trigger] frames@[i]).matches(
                frame_planes(frames@[0]),
            ),
    ensures
        samples_outcome(r) == coded_samples(planes_of(frames@), *opts, full_range),
        r matches Ok(p) ==> coded_as(views(p.0@), frames@.len(), *opts) && p.1@.len() == 4
            && p.1@[0] == 0x81,
{
    let ghost planes = planes_of(frames@);
    let mut samples: Vec<CodedSample> = Vec::new();
    let mut record: Vec<u8> = Vec::new();
    let ghost mut groups: int = 0;
    let ghost len = opts.gop_length as int;
    let mut at: usize = 0;
    proof {
        assert(0 * len == 0) by (nonlinear_arith);
        assert(views(samples@) =~= Seq::empty());
    }
    while at < frames.len()
        invariant
            at <= frames@.len(),
            !opts.all_intra,
            planes == planes_of(frames@),
            len == opts.gop_length,
            1 <= len <= GOP_MAX_FRAMES,
            at == frames@.len() || at == groups * len,
            forall|j: int|
                0 <= j < frames@.len() ==> frame_planes(#[trigger] frames@[j]).codable(),
            forall|j: int|
                0 <= j < frames@.len() ==> frame_planes(#[trigger] frames@[j]).matches(
                    frame_planes(frames@[0]),
                ),
            grouped_from(planes, *opts, full_range, 0, Seq::empty()) == grouped_from(
                planes,
                *opts,
                full_range,
                at as int,
                views(samples@),
            ),
            samples@.len() == at,
            forall|j: int| 0 <= j < at ==> (#[trigger] samples@[j]).sync == (j % len == 0),
            at > 0 ==> record@ == record_of_header(first_header(planes, *opts)) && record@.len()
                == 4 && record@[0] == 0x81,
        decreases frames@.len() - at,
    {
        let end: usize = if opts.gop_length < frames.len() - at {
            at + opts.gop_length
        } else {
            frames.len()
        };
        let group = slice_subrange(frames.as_slice(), at, end);
        let ghost before = samples@;
        proof {
            assert(planes_of(group@) =~= planes.subrange(at as int, end as int));
            assert forall|j: int| 0 <= j < group@.len() implies frame_planes(
                #[trigger] group@[j],
            ).codable() by {
                assert(group@[j] == frames@[at + j]);
            }
            assert forall|j: int| 0 <= j < group@.len() implies frame_planes(
                #[trigger] group@[j],
            ).matches(frame_planes(group@[0])) by {
                assert(group@[j] == frames@[at + j]);
                assert(group@[0] == frames@[at as int]);
            }
        }
        let config = code_one_group(group, opts, full_range, &mut samples)?;
        if at == 0 {
            record = config;
        }
        proof {
            assert forall|j: int| 0 <= j < end implies (#[trigger] samples@[j]).sync == (j % len
                == 0) by {
                if j < at {
                    assert(samples@[j] == before[j]);
                } else {
                    vstd::arithmetic::div_mod::lemma_fundamental_div_mod_converse(
                        j,
                        len,
                        groups,
                        j - at,
                    );
                }
            }
            assert((groups + 1) * len == groups * len + len) by (nonlinear_arith);
            groups = groups + 1;
        }
        at = end;
    }
    proof {
        let s = views(samples@);
        assert forall|j: int| 0 <= j < s.len() implies (#[trigger] s[j]).sync == (j % len == 0) by {
            assert(samples@[j].sync == (j % len == 0));
        }
    }
    Ok((samples, record))
}

/// The images drawn out to their coded extents.
pub open spec fn padded_all(frames: Seq<StillView>) -> Seq<CodedView> {
    Seq::new(frames.len(), |i: int| padded(frames[i]))
}

/// The file of an image sequence.
pub open spec fn encoded(frames: Seq<StillView>, opts: SequenceEncodeOptions) -> Result<
    Seq<u8>,
    Fault,
> {
    match sequence_fault(frames, opts) {
        Some(f) => Err(f),
        None => match coded_samples(padded_all(frames), opts, frames[0].full_range()) {
            Err(f) => Err(f),
            Ok((samples, record)) => assembled(frames[0], opts, samples, record),
        },
    }
}

/// Code an image sequence and write its file. Every image has the same
/// extents, bit depth and chroma sampling, and none has an auxiliary
/// image. There is one sample for each image, the first of each group is
/// a sync sample, and the first of all is the cover image too.
pub fn encode_sequence(frames: &[StillImage], opts: &SequenceEncodeOptions) -> (r: Result<
    Vec<u8>,
    AvifError,
>)
    requires
        frames@.len() <= u32::MAX,
    ensures
        outcome_view(r) == encoded(views(frames@), *opts),
        r matches Ok(file) ==> {
            let all = views(frames@);
            coded_samples(padded_all(all), *opts, all[0].full_range()) matches Ok(c) && coded_as(
                c.0,
                all.len(),
                *opts,
            ) && reads_cover(file@, cover_of(all[0], c.0, c.1))
        },
{
    check_sequence(frames, opts)?;
    let ghost all = views(frames@);
    proof {
        assert(all[0] == frames@[0]@);
    }
    let prepared = prepare(frames);
    proof {
        assert(planes_of(prepared@) =~= padded_all(all)) by {
            assert forall|i: int| 0 <= i < all.len() implies planes_of(prepared@)[i] == padded_all(
                all,
            )[i] by {
                assert(frame_planes(prepared@[i]) == padded(frames@[i]@));
                assert(all[i] == frames@[i]@);
            }
        }
    }
    let full_range: bool = frames[0].is_full_range();
    let (samples, av1c) = if opts.all_intra {
        code_intra(&prepared, opts, full_range)?
    } else {
        code_groups(&prepared, opts, full_range)?
    };
    assemble_sequence(&frames[0], opts, &samples, av1c.as_slice())
}

} // verus!
