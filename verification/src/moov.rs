//! The `moov` box of an image sequence: one track with one AV1 sample
//! entry.

use crate::box_parser::BoxType;
use crate::bytes::{
    b16, b32, b32s, b64, b64s, box_bytes, boxed, full_box_bytes, full_boxed, narrow_b64s, zeros, W,
};
use crate::container::{body_of, property_box, PICT};
use crate::error::{outcome_view, AvifError, Fault};
use crate::meta::opt_view;
use crate::mux_props::{prop_clap, prop_colr};
use crate::parser::ITEM_TYPE_AV01;
use crate::props::{Clap, Colr, ColrView, PropertyView, AV1C, CLAP, COLR};
use crate::text::{lossy_text, utf8_lossy};
use vstd::prelude::*;

verus! {

/// `mvhd`.
pub const MVHD: BoxType = [0x6d, 0x76, 0x68, 0x64];

/// `tkhd`.
pub const TKHD: BoxType = [0x74, 0x6b, 0x68, 0x64];

/// `mdhd`.
pub const MDHD: BoxType = [0x6d, 0x64, 0x68, 0x64];

/// `hdlr`.
pub const HDLR: BoxType = [0x68, 0x64, 0x6c, 0x72];

/// `vmhd`.
pub const VMHD: BoxType = [0x76, 0x6d, 0x68, 0x64];

/// `url`.
pub const URL: BoxType = [0x75, 0x72, 0x6c, 0x20];

/// `dref`.
pub const DREF: BoxType = [0x64, 0x72, 0x65, 0x66];

/// `dinf`.
pub const DINF: BoxType = [0x64, 0x69, 0x6e, 0x66];

/// `stsd`.
pub const STSD: BoxType = [0x73, 0x74, 0x73, 0x64];

/// `stts`.
pub const STTS: BoxType = [0x73, 0x74, 0x74, 0x73];

/// `stss`.
pub const STSS: BoxType = [0x73, 0x74, 0x73, 0x73];

/// `stsc`.
pub const STSC: BoxType = [0x73, 0x74, 0x73, 0x63];

/// `stsz`.
pub const STSZ: BoxType = [0x73, 0x74, 0x73, 0x7a];

/// `stco`.
pub const STCO: BoxType = [0x73, 0x74, 0x63, 0x6f];

/// `co64`.
pub const CO64: BoxType = [0x63, 0x6f, 0x36, 0x34];

/// `stbl`.
pub const STBL: BoxType = [0x73, 0x74, 0x62, 0x6c];

/// `minf`.
pub const MINF: BoxType = [0x6d, 0x69, 0x6e, 0x66];

/// `mdia`.
pub const MDIA: BoxType = [0x6d, 0x64, 0x69, 0x61];

/// `trak`.
pub const TRAK: BoxType = [0x74, 0x72, 0x61, 0x6b];

/// `moov`.
pub const MOOV: BoxType = [0x6d, 0x6f, 0x6f, 0x76];

/// `mdat`.
pub const MDAT: BoxType = [0x6d, 0x64, 0x61, 0x74];

/// The matrix that leaves a picture as it is.
pub const UNITY_MATRIX: [u32; 9] = [0x0001_0000, 0, 0, 0, 0x0001_0000, 0, 0, 0, 0x4000_0000];

/// The name of the handler, `PictureHandler`, with a zero byte behind it.
pub const HANDLER_NAME: [u8; 15] = [0x50, 0x69, 0x63, 0x74, 0x75, 0x72, 0x65, 0x48, 0x61, 0x6e, 0x64, 0x6c, 0x65, 0x72, 0x00];

/// The name of the coder, `AOM Coding`, behind its length, filled up with
/// zero bytes.
pub const CODER_NAME: [u8; 32] = [
    0x0a, 0x41, 0x4f, 0x4d, 0x20, 0x43, 0x6f, 0x64, 0x69, 0x6e, 0x67,
    0x00, 0x00, 0x00, 0x00, 0x00, 0x00, 0x00, 0x00, 0x00, 0x00, 0x00, 0x00, 0x00, 0x00, 0x00, 0x00, 0x00, 0x00, 0x00, 0x00, 0x00,
];

/// What `moov` says of the one track of an image sequence.
pub struct TrackLayout<'a> {
    /// Ticks per second.
    pub timescale: u32,
    /// Ticks that each sample lasts.
    pub frame_duration: u32,
    /// Coded width.
    pub coded_width: u32,
    /// Coded height.
    pub coded_height: u32,
    /// Configuration record.
    pub av1c: &'a [u8],
    /// Colour description.
    pub colr: Option<&'a Colr>,
    /// Clean aperture.
    pub clap: Option<Clap>,
    /// Bytes of each sample.
    pub sample_sizes: &'a [u32],
    /// Numbers, from 1, of the sync samples; `None` where every sample is
    /// one.
    pub sync_samples: Option<&'a [u32]>,
}

/// A [`TrackLayout`] as contracts speak of it.
#[verifier::ext_equal]
pub struct TrackView {
    /// Ticks per second.
    pub timescale: u32,
    /// Ticks that each sample lasts.
    pub frame_duration: u32,
    /// Coded width.
    pub coded_width: u32,
    /// Coded height.
    pub coded_height: u32,
    /// Configuration record.
    pub av1c: Seq<u8>,
    /// Colour description.
    pub colr: Option<ColrView>,
    /// Clean aperture.
    pub clap: Option<Clap>,
    /// Bytes of each sample.
    pub sample_sizes: Seq<u32>,
    /// Numbers, from 1, of the sync samples; `None` where every sample is
    /// one.
    pub sync_samples: Option<Seq<u32>>,
}

/// The values of an optional list.
pub open spec fn opt_u32s(v: Option<&[u32]>) -> Option<Seq<u32>> {
    match v {
        Some(s) => Some(s@),
        None => None,
    }
}

impl View for TrackLayout<'_> {
    type V = TrackView;

    open spec fn view(&self) -> TrackView {
        TrackView {
            timescale: self.timescale,
            frame_duration: self.frame_duration,
            coded_width: self.coded_width,
            coded_height: self.coded_height,
            av1c: self.av1c@,
            colr: opt_view(self.colr),
            clap: self.clap,
            sample_sizes: self.sample_sizes@,
            sync_samples: opt_u32s(self.sync_samples),
        }
    }
}

/// The fault of a colour description that cannot be written.
pub open spec fn track_colr_fault(t: BoxType) -> Fault {
    Fault::Unsupported(
        "avif sequence: cannot emit colr of unknown type '"@ + lossy_text(t@) + "'"@,
    )
}

impl TrackView {
    /// How many samples there are.
    pub open spec fn count(self) -> nat {
        self.sample_sizes.len()
    }

    /// Ticks that the track lasts.
    pub open spec fn duration(self) -> int {
        self.count() * self.frame_duration
    }

    /// Whether the duration takes 64 bits.
    pub open spec fn wide(self) -> bool {
        self.duration() > u32::MAX
    }

    /// The version of the headers: 1 where the duration takes 64 bits.
    pub open spec fn version(self) -> u8 {
        if self.wide() {
            1
        } else {
            0
        }
    }

    /// Creation and modification time, 0, the timescale and the duration.
    pub open spec fn times(self) -> Seq<u8> {
        if self.wide() {
            b64(0) + b64(0) + b32(self.timescale) + b64(self.duration() as u64)
        } else {
            b32(0) + b32(0) + b32(self.timescale) + b32(self.duration() as u32)
        }
    }

    /// The same of the track: number 1 in place of the timescale.
    pub open spec fn track_times(self) -> Seq<u8> {
        if self.wide() {
            b64(0) + b64(0) + b32(1) + b32(0) + b64(self.duration() as u64)
        } else {
            b32(0) + b32(0) + b32(1) + b32(0) + b32(self.duration() as u32)
        }
    }

    /// The movie header: rate 1, full volume, no transformation, and 2 as
    /// the next track.
    pub open spec fn mvhd(self) -> Seq<u8> {
        full_box_bytes(
            MVHD,
            self.version(),
            0,
            self.times() + b32(0x1_0000) + b16(0x100) + zeros(10) + b32s(UNITY_MATRIX@, 9) + zeros(
                24,
            ) + b32(2),
        )
    }

    /// The track header: enabled and in the movie, no transformation, and
    /// the coded extents in 16.16 bits.
    pub open spec fn tkhd(self) -> Seq<u8> {
        full_box_bytes(
            TKHD,
            self.version(),
            3,
            self.track_times() + zeros(16) + b32s(UNITY_MATRIX@, 9) + b32(
                (self.coded_width * 0x1_0000) as u32,
            ) + b32((self.coded_height * 0x1_0000) as u32),
        )
    }

    /// The media header; the language is `und`.
    pub open spec fn mdhd(self) -> Seq<u8> {
        full_box_bytes(MDHD, self.version(), 0, self.times() + b16(0x55c4) + b16(0))
    }

    /// The sample entry: the coded extents, 72 dpi, one frame per sample,
    /// the name of the coder, a depth of 24, then the configuration
    /// record, the colour description and the clean aperture.
    pub open spec fn sample_entry(self) -> Seq<u8> {
        box_bytes(
            ITEM_TYPE_AV01,
            zeros(6) + b16(1) + zeros(16) + b16(self.coded_width as u16) + b16(
                self.coded_height as u16,
            ) + b32(0x48_0000) + b32(0x48_0000) + b32(0) + b16(1) + CODER_NAME@ + b16(0x18) + b16(
                0xffff,
            ) + box_bytes(AV1C, self.av1c) + (match self.colr {
                Some(c) => box_bytes(COLR, body_of(PropertyView::Colr(c))),
                None => Seq::empty(),
            }) + (match self.clap {
                Some(c) => box_bytes(CLAP, body_of(PropertyView::Clap(c))),
                None => Seq::empty(),
            }),
        )
    }

    /// The sample descriptions: one.
    pub open spec fn stsd(self) -> Seq<u8> {
        full_box_bytes(STSD, 0, 0, b32(1) + self.sample_entry())
    }

    /// The durations: one run.
    pub open spec fn stts(self) -> Seq<u8> {
        full_box_bytes(STTS, 0, 0, b32(1) + b32(self.count() as u32) + b32(self.frame_duration))
    }

    /// The sync samples, where not every sample is one.
    pub open spec fn stss(self) -> Seq<u8> {
        match self.sync_samples {
            Some(s) => full_box_bytes(STSS, 0, 0, b32(s.len() as u32) + b32s(s, s.len())),
            None => Seq::empty(),
        }
    }

    /// The chunks: the first sample in one and the others in another,
    /// where there are two, and all in one otherwise.
    pub open spec fn stsc(self, chunks: nat) -> Seq<u8> {
        full_box_bytes(
            STSC,
            0,
            0,
            if chunks > 1 && self.count() > 1 {
                b32(2) + b32(1) + b32(1) + b32(1) + b32(2) + b32((self.count() - 1) as u32) + b32(1)
            } else {
                b32(1) + b32(1) + b32(self.count() as u32) + b32(1)
            },
        )
    }

    /// The sample sizes.
    pub open spec fn stsz(self) -> Seq<u8> {
        full_box_bytes(
            STSZ,
            0,
            0,
            b32(0) + b32(self.count() as u32) + b32s(self.sample_sizes, self.count()),
        )
    }

    /// The sample table.
    pub open spec fn stbl(self, offsets: Seq<u64>) -> Seq<u8> {
        box_bytes(
            STBL,
            self.stsd() + self.stts() + self.stss() + self.stsc(offsets.len()) + self.stsz()
                + stco_of(offsets),
        )
    }

    /// The media information: a video header, one data reference, to the
    /// file itself, and the sample table.
    pub open spec fn minf(self, offsets: Seq<u64>) -> Seq<u8> {
        box_bytes(
            MINF,
            full_box_bytes(VMHD, 0, 1, zeros(8)) + box_bytes(
                DINF,
                full_box_bytes(DREF, 0, 0, b32(1) + full_box_bytes(URL, 0, 1, Seq::empty())),
            ) + self.stbl(offsets),
        )
    }

    /// The media: its header, a `pict` handler and its information.
    pub open spec fn mdia(self, offsets: Seq<u64>) -> Seq<u8> {
        box_bytes(
            MDIA,
            self.mdhd() + full_box_bytes(
                HDLR,
                0,
                0,
                b32(0) + PICT@ + zeros(12) + HANDLER_NAME@,
            ) + self.minf(offsets),
        )
    }

    /// The whole box.
    #[verifier::opaque]
    pub open spec fn moov(self, offsets: Seq<u64>) -> Seq<u8> {
        box_bytes(MOOV, self.mvhd() + box_bytes(TRAK, self.tkhd() + self.mdia(offsets)))
    }

    /// Why the track cannot be written, if it cannot.
    pub open spec fn fault(self) -> Option<Fault> {
        if self.coded_width > 0xffff || self.coded_height > 0xffff {
            Some(
                Fault::Unsupported(
                    "avif sequence: coded extents exceed the 16-bit sample-entry fields"@,
                ),
            )
        } else {
            match self.colr {
                Some(ColrView::Unknown(t)) => Some(track_colr_fault(t)),
                _ => None,
            }
        }
    }

    /// Whether the numbers of samples fit their fields.
    pub open spec fn counted(self) -> bool {
        &&& self.count() <= u32::MAX
        &&& self.sync_samples is Some ==> self.sync_samples->0.len() <= u32::MAX
    }
}

/// Whether an offset takes 64 bits.
pub open spec fn wide_chunks(offsets: Seq<u64>) -> bool {
    exists|i: int| 0 <= i < offsets.len() && #[trigger] offsets[i] > u32::MAX
}

/// The chunk offsets, in 64 bits where one of them takes as many.
pub open spec fn stco_of(offsets: Seq<u64>) -> Seq<u8> {
    if wide_chunks(offsets) {
        full_box_bytes(CO64, 0, 0, b32(offsets.len() as u32) + b64s(offsets, offsets.len()))
    } else {
        full_box_bytes(STCO, 0, 0, b32(offsets.len() as u32) + narrow_b64s(offsets, offsets.len()))
    }
}

/// The `moov` box, or why it cannot be written.
pub open spec fn moov_of(t: TrackView, offsets: Seq<u64>) -> Result<Seq<u8>, Fault> {
    match t.fault() {
        Some(f) => Err(f),
        None => Ok(t.moov(offsets)),
    }
}

impl TrackLayout<'_> {
    fn duration(&self) -> (r: u64)
        requires
            self@.counted(),
        ensures
            r == self@.duration(),
    {
        let n: u64 = self.sample_sizes.len() as u64;
        let d: u64 = self.frame_duration as u64;
        proof {
            assert(0 <= n * d <= 0xffff_ffff * 0xffff_ffff) by (nonlinear_arith)
                requires
                    n <= 0xffff_ffff,
                    d <= 0xffff_ffff,
            ;
        }
        n * d
    }

    fn version(&self) -> (r: u8)
        requires
            self@.counted(),
        ensures
            r == self@.version(),
    {
        if self.duration() > 0xffff_ffff {
            1
        } else {
            0
        }
    }

    fn times(&self) -> (w: W)
        requires
            self@.counted(),
        ensures
            w@ == self@.times(),
    {
        let mut w = W::new();
        let duration: u64 = self.duration();
        if duration > 0xffff_ffff {
            w.u64(0);
            proof {
                assert(w@ =~= b64(0));
            }
            w.u64(0);
            w.u32(self.timescale);
            w.u64(duration);
        } else {
            w.u32(0);
            proof {
                assert(w@ =~= b32(0));
            }
            w.u32(0);
            w.u32(self.timescale);
            w.u32(duration as u32);
        }
        w
    }

    fn track_times(&self) -> (w: W)
        requires
            self@.counted(),
        ensures
            w@ == self@.track_times(),
    {
        let mut w = W::new();
        let duration: u64 = self.duration();
        if duration > 0xffff_ffff {
            w.u64(0);
            proof {
                assert(w@ =~= b64(0));
            }
            w.u64(0);
            w.u32(1);
            w.u32(0);
            w.u64(duration);
        } else {
            w.u32(0);
            proof {
                assert(w@ =~= b32(0));
            }
            w.u32(0);
            w.u32(1);
            w.u32(0);
            w.u32(duration as u32);
        }
        w
    }

    fn mvhd(&self) -> (r: Vec<u8>)
        requires
            self@.counted(),
        ensures
            r@ == self@.mvhd(),
    {
        let mut w = self.times();
        w.u32(0x0001_0000);
        w.u16(0x0100);
        w.zeros(10);
        w.u32s(UNITY_MATRIX.as_slice());
        w.zeros(24);
        w.u32(2);
        full_boxed(&MVHD, self.version(), 0, w.into_vec().as_slice())
    }

    fn tkhd(&self) -> (r: Vec<u8>)
        requires
            self@.counted(),
            self@.fault() is None,
        ensures
            r@ == self@.tkhd(),
    {
        let mut w = self.track_times();
        w.zeros(16);
        w.u32s(UNITY_MATRIX.as_slice());
        w.u32(self.coded_width * 0x1_0000);
        w.u32(self.coded_height * 0x1_0000);
        full_boxed(&TKHD, self.version(), 3, w.into_vec().as_slice())
    }

    fn mdhd(&self) -> (r: Vec<u8>)
        requires
            self@.counted(),
        ensures
            r@ == self@.mdhd(),
    {
        let mut w = self.times();
        w.u16(0x55c4);
        w.u16(0);
        full_boxed(&MDHD, self.version(), 0, w.into_vec().as_slice())
    }

    fn sample_entry(&self) -> (r: Vec<u8>)
        requires
            self@.fault() is None,
        ensures
            r@ == self@.sample_entry(),
    {
        let ghost t = self@;
        let mut w = W::new();
        w.zeros(6);
        proof {
            assert(w@ =~= zeros(6));
        }
        w.u16(1);
        w.zeros(16);
        w.u16(self.coded_width as u16);
        w.u16(self.coded_height as u16);
        w.u32(0x0048_0000);
        w.u32(0x0048_0000);
        w.u32(0);
        w.u16(1);
        w.bytes(CODER_NAME.as_slice());
        w.u16(0x0018);
        w.u16(0xffff);
        w.bytes(boxed(&AV1C, self.av1c).as_slice());
        let ghost before = w@;
        match self.colr {
            Some(c) => {
                match prop_colr(c) {
                    Ok(p) => {
                        w.bytes(property_box(&p.0).as_slice());
                    },
                    Err(_) => {},
                }
            },
            None => {
                proof {
                    assert(w@ + Seq::<u8>::empty() =~= w@);
                }
            },
        }
        match self.clap {
            Some(c) => {
                let p = prop_clap(c);
                w.bytes(property_box(&p.0).as_slice());
            },
            None => {
                proof {
                    assert(w@ + Seq::<u8>::empty() =~= w@);
                }
            },
        }
        boxed(&ITEM_TYPE_AV01, w.into_vec().as_slice())
    }

    fn stsd(&self) -> (r: Vec<u8>)
        requires
            self@.fault() is None,
        ensures
            r@ == self@.stsd(),
    {
        let entry = self.sample_entry();
        let mut w = W::new();
        w.u32(1);
        proof {
            assert(w@ =~= b32(1));
        }
        w.bytes(entry.as_slice());
        full_boxed(&STSD, 0, 0, w.into_vec().as_slice())
    }

    fn stts(&self) -> (r: Vec<u8>)
        requires
            self@.counted(),
        ensures
            r@ == self@.stts(),
    {
        let mut w = W::new();
        w.u32(1);
        proof {
            assert(w@ =~= b32(1));
        }
        w.u32(self.sample_sizes.len() as u32);
        w.u32(self.frame_duration);
        full_boxed(&STTS, 0, 0, w.into_vec().as_slice())
    }

    fn stss(&self) -> (r: Vec<u8>)
        requires
            self@.counted(),
        ensures
            r@ == self@.stss(),
    {
        match self.sync_samples {
            Some(s) => {
                let mut w = W::new();
                w.u32(s.len() as u32);
                proof {
                    assert(w@ =~= b32(s@.len() as u32));
                }
                w.u32s(s);
                full_boxed(&STSS, 0, 0, w.into_vec().as_slice())
            },
            None => Vec::new(),
        }
    }

    fn stsc(&self, chunks: usize) -> (r: Vec<u8>)
        requires
            self@.counted(),
        ensures
            r@ == self@.stsc(chunks as nat),
    {
        let count: u32 = self.sample_sizes.len() as u32;
        let mut w = W::new();
        if chunks > 1 && count > 1 {
            w.u32(2);
            proof {
                assert(w@ =~= b32(2));
            }
            w.u32(1);
            w.u32(1);
            w.u32(1);
            w.u32(2);
            w.u32(count - 1);
            w.u32(1);
        } else {
            w.u32(1);
            proof {
                assert(w@ =~= b32(1));
            }
            w.u32(1);
            w.u32(count);
            w.u32(1);
        }
        full_boxed(&STSC, 0, 0, w.into_vec().as_slice())
    }

    fn stsz(&self) -> (r: Vec<u8>)
        requires
            self@.counted(),
        ensures
            r@ == self@.stsz(),
    {
        let mut w = W::new();
        w.u32(0);
        proof {
            assert(w@ =~= b32(0));
        }
        w.u32(self.sample_sizes.len() as u32);
        w.u32s(self.sample_sizes);
        full_boxed(&STSZ, 0, 0, w.into_vec().as_slice())
    }

    fn stbl(&self, offsets: &[u64]) -> (r: Vec<u8>)
        requires
            self@.counted(),
            self@.fault() is None,
            offsets@.len() <= u32::MAX,
        ensures
            r@ == self@.stbl(offsets@),
    {
        let mut w = W::new();
        w.bytes(self.stsd().as_slice());
        proof {
            assert(w@ =~= self@.stsd());
        }
        w.bytes(self.stts().as_slice());
        w.bytes(self.stss().as_slice());
        w.bytes(self.stsc(offsets.len()).as_slice());
        w.bytes(self.stsz().as_slice());
        w.bytes(chunk_offsets_box(offsets).as_slice());
        boxed(&STBL, w.into_vec().as_slice())
    }

    fn minf(&self, offsets: &[u64]) -> (r: Vec<u8>)
        requires
            self@.counted(),
            self@.fault() is None,
            offsets@.len() <= u32::MAX,
        ensures
            r@ == self@.minf(offsets@),
    {
        let mut body = W::new();
        body.zeros(8);
        proof {
            assert(body@ =~= zeros(8));
        }
        let vmhd = full_boxed(&VMHD, 0, 1, body.into_vec().as_slice());
        let nothing: Vec<u8> = Vec::new();
        let url = full_boxed(&URL, 0, 1, nothing.as_slice());
        let mut body = W::new();
        body.u32(1);
        proof {
            assert(body@ =~= b32(1));
            assert(nothing@ =~= Seq::<u8>::empty());
        }
        body.bytes(url.as_slice());
        let dref = full_boxed(&DREF, 0, 0, body.into_vec().as_slice());
        let dinf = boxed(&DINF, dref.as_slice());
        let mut w = W::new();
        w.bytes(vmhd.as_slice());
        proof {
            assert(w@ =~= vmhd@);
        }
        w.bytes(dinf.as_slice());
        w.bytes(self.stbl(offsets).as_slice());
        boxed(&MINF, w.into_vec().as_slice())
    }

    fn mdia(&self, offsets: &[u64]) -> (r: Vec<u8>)
        requires
            self@.counted(),
            self@.fault() is None,
            offsets@.len() <= u32::MAX,
        ensures
            r@ == self@.mdia(offsets@),
    {
        let mut body = W::new();
        body.u32(0);
        proof {
            assert(body@ =~= b32(0));
        }
        body.fourcc(&PICT);
        body.zeros(12);
        body.bytes(HANDLER_NAME.as_slice());
        let hdlr = full_boxed(&HDLR, 0, 0, body.into_vec().as_slice());
        let mut w = W::new();
        w.bytes(self.mdhd().as_slice());
        proof {
            assert(w@ =~= self@.mdhd());
        }
        w.bytes(hdlr.as_slice());
        w.bytes(self.minf(offsets).as_slice());
        boxed(&MDIA, w.into_vec().as_slice())
    }
}

fn is_wide(offsets: &[u64]) -> (r: bool)
    ensures
        r == wide_chunks(offsets@),
{
    let mut i: usize = 0;
    while i < offsets.len()
        invariant
            i <= offsets@.len(),
            forall|j: int| 0 <= j < i ==> #[trigger] offsets@[j] <= u32::MAX,
        decreases offsets@.len() - i,
    {
        if offsets[i] > 0xffff_ffff {
            return true;
        }
        i = i + 1;
    }
    false
}

fn chunk_offsets_box(offsets: &[u64]) -> (r: Vec<u8>)
    requires
        offsets@.len() <= u32::MAX,
    ensures
        r@ == stco_of(offsets@),
{
    let mut w = W::new();
    w.u32(offsets.len() as u32);
    proof {
        assert(w@ =~= b32(offsets@.len() as u32));
    }
    if is_wide(offsets) {
        w.u64s(offsets);
        full_boxed(&CO64, 0, 0, w.into_vec().as_slice())
    } else {
        w.narrow_u64s(offsets);
        full_boxed(&STCO, 0, 0, w.into_vec().as_slice())
    }
}

/// Write the `moov` box of a track whose chunks start at these places.
pub fn build_moov(t: &TrackLayout<'_>, chunk_offsets: &[u64]) -> (r: Result<Vec<u8>, AvifError>)
    requires
        t@.counted(),
        chunk_offsets@.len() <= u32::MAX,
    ensures
        outcome_view(r) == moov_of(t@, chunk_offsets@),
{
    if t.coded_width > 0xffff || t.coded_height > 0xffff {
        return Err(
            AvifError::unsupported(
                "avif sequence: coded extents exceed the 16-bit sample-entry fields",
            ),
        );
    }
    match t.colr {
        Some(Colr::Unknown(code)) => {
            let mut s = "avif sequence: cannot emit colr of unknown type '".to_string();
            s.append(utf8_lossy(code).as_str());
            s.append("'");
            return Err(AvifError::Unsupported(s));
        },
        _ => {},
    }
    proof {
        reveal(TrackView::moov);
    }
    let mut trak = W::new();
    trak.bytes(t.tkhd().as_slice());
    proof {
        assert(trak@ =~= t@.tkhd());
    }
    trak.bytes(t.mdia(chunk_offsets).as_slice());
    let mut moov = W::new();
    moov.bytes(t.mvhd().as_slice());
    proof {
        assert(moov@ =~= t@.mvhd());
    }
    moov.bytes(boxed(&TRAK, trak.into_vec().as_slice()).as_slice());
    Ok(boxed(&MOOV, moov.into_vec().as_slice()))
}

} // verus!
