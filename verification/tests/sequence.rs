//! Image sequences.

use oxideav_avif::error::AvifError;
use oxideav_avif::inspect::inspect;
use oxideav_avif::moov::{build_moov, TrackLayout};
use oxideav_avif::parser::{parse, parse_header};
use oxideav_avif::props::{Colr, Property};
use oxideav_avif::sequence::{
    assemble_sequence, encode_sequence, sequence_cover_still, CodedSample, CoverStill,
    SequenceEncodeOptions,
};
use oxideav_avif::still::{
    coded_extent, pad_plane, top_left_clap, StillChroma, StillImage, STILL_MAX_CODED_DIM,
};

fn image(width: u32, height: u32, chroma: StillChroma, seed: u16) -> StillImage {
    let n = (width * height) as usize;
    let (cw, ch) = match chroma {
        StillChroma::Monochrome => (0, 0),
        StillChroma::Yuv420 => (width.div_ceil(2), height.div_ceil(2)),
        StillChroma::Yuv422 => (width.div_ceil(2), height),
        StillChroma::Yuv444 => (width, height),
    };
    let c = (cw * ch) as usize;
    StillImage {
        width,
        height,
        bit_depth: 8,
        chroma,
        y: (0..n).map(|i| (i as u16 * 3 + seed) & 0xff).collect(),
        u: (0..c).map(|i| (i as u16 * 5 + seed) & 0xff).collect(),
        v: (0..c).map(|i| (i as u16 * 7 + seed) & 0xff).collect(),
        alpha: None,
        depth_map: None,
        colr: None,
    }
}

fn u32_at(s: &[u8], at: usize) -> u32 {
    u32::from_be_bytes([s[at], s[at + 1], s[at + 2], s[at + 3]])
}

/// Where the first box of this type has its payload.
fn find(s: &[u8], code: &[u8; 4]) -> Option<usize> {
    (4..s.len() - 3).find(|&i| &s[i..i + 4] == code).map(|i| i + 4)
}

fn sample(data: &[u8], sync: bool) -> CodedSample {
    CodedSample {
        data: data.to_vec(),
        sync,
    }
}

#[test]
fn the_samples_lie_where_the_track_says() {
    let first = image(20, 12, StillChroma::Yuv420, 0);
    let samples = vec![
        sample(b"first", true),
        sample(b"second!", false),
        sample(b"third", true),
    ];
    let opts = SequenceEncodeOptions::default();
    let file = assemble_sequence(&first, &opts, &samples, &[0x81, 0, 0x0c, 0]).unwrap();
    let moov = find(&file, b"moov").unwrap();
    let stco = moov + find(&file[moov..], b"stco").unwrap();
    assert_eq!(u32_at(&file, stco + 4), 2);
    let (one, two) = (
        u32_at(&file, stco + 8) as usize,
        u32_at(&file, stco + 12) as usize,
    );
    assert_eq!(&file[one..one + 5], b"first");
    assert_eq!(&file[two..two + 7], b"second!");
    assert_eq!(&file[two + 7..two + 12], b"third");
    let stsz = moov + find(&file[moov..], b"stsz").unwrap();
    assert_eq!(
        (0..4).map(|i| u32_at(&file, stsz + 8 + i * 4)).collect::<Vec<_>>(),
        vec![3, 5, 7, 5]
    );
    let stss = moov + find(&file[moov..], b"stss").unwrap();
    assert_eq!(
        (0..3).map(|i| u32_at(&file, stss + 4 + i * 4)).collect::<Vec<_>>(),
        vec![2, 1, 3]
    );
}

#[test]
fn the_cover_image_is_the_first_sample() {
    let mut first = image(20, 12, StillChroma::Yuv420, 0);
    first.colr = Some(Colr::Nclx {
        colour_primaries: 1,
        transfer_characteristics: 13,
        matrix_coefficients: 6,
        full_range: true,
    });
    let samples = vec![sample(b"first", true), sample(b"second", true)];
    let opts = SequenceEncodeOptions {
        all_intra: true,
        ..SequenceEncodeOptions::default()
    };
    let file = assemble_sequence(&first, &opts, &samples, &[0x81, 0, 0x0c, 0]).unwrap();
    let img = parse(&file).unwrap();
    assert_eq!(&img.major_brand, b"avis");
    assert_eq!(
        img.compatible_brands,
        vec![
            *b"avis", *b"avif", *b"mif1", *b"msf1", *b"miaf", *b"av01", *b"avio", *b"MA1B"
        ]
    );
    assert_eq!(&*img.primary_item_data, b"first");
    assert_eq!(img.av1c.as_deref(), Some(&[0x81, 0, 0x0c, 0][..]));
    let ispe = img.ispe.unwrap();
    assert_eq!((ispe.width, ispe.height), (24, 16));
    assert_eq!(img.colr, first.colr);
    assert!(matches!(img.meta.property_for(1, b"clap"),
        Some(Property::Clap(c)) if *c == top_left_clap(20, 12, 24, 16)));
    assert!(find(&file[..], b"stss").is_none());
    let info = inspect(&file).unwrap();
    assert!(info.brands.is_sequence && info.brands.is_intra_only);
}

#[test]
fn one_sample_makes_one_chunk() {
    let first = image(16, 8, StillChroma::Monochrome, 0);
    let opts = SequenceEncodeOptions::default();
    let file =
        assemble_sequence(&first, &opts, &vec![sample(b"only", true)], &[0x81, 0, 0x10, 0]).unwrap();
    let stco = find(&file, b"stco").unwrap();
    assert_eq!(u32_at(&file, stco + 4), 1);
    let at = u32_at(&file, stco + 8) as usize;
    assert_eq!(&file[at..at + 4], b"only");
    assert_eq!(parse_header(&file).unwrap().meta.primary_item_id, Some(1));
}

#[test]
fn a_cover_image_lies_in_its_file_once() {
    let cover = CoverStill {
        brands: (*b"avis", vec![*b"avis", *b"mif1"]),
        width: 8,
        height: 8,
        payload: b"payload".to_vec(),
        av1c: &[0x81, 0, 0, 0],
        pixi: &[8],
        colr: None,
        clap: None,
    };
    let (file, (start, end)) = sequence_cover_still(cover).unwrap();
    assert_eq!(&file[start..end], b"payload");
}

#[test]
fn the_moov_box_is_laid_out_as_listed() {
    let t = TrackLayout {
        timescale: 25,
        frame_duration: 2,
        coded_width: 64,
        coded_height: 32,
        av1c: &[0x81, 0, 0x0c, 0],
        colr: None,
        clap: None,
        sample_sizes: &[10, 20, 30],
        sync_samples: None,
    };
    let moov = build_moov(&t, &[100, 200]).unwrap();
    assert_eq!(u32_at(&moov, 0) as usize, moov.len());
    assert_eq!(&moov[4..8], b"moov");
    let mvhd = find(&moov, b"mvhd").unwrap();
    let stts = find(&moov, b"stts").unwrap();
    assert_eq!(
        (0..3).map(|i| u32_at(&moov, stts + 4 + i * 4)).collect::<Vec<_>>(),
        vec![1, 3, 2]
    );
    let mdhd = find(&moov, b"mdhd").unwrap();
    assert!(mvhd < mdhd);
    let hdlr = find(&moov, b"hdlr").unwrap();
    assert_eq!(&moov[hdlr + 8..hdlr + 12], b"pict");
    let stsc = find(&moov, b"stsc").unwrap();
    assert_eq!(
        (0..7).map(|i| u32_at(&moov, stsc + 4 + i * 4)).collect::<Vec<_>>(),
        vec![2, 1, 1, 1, 2, 2, 1]
    );
    let wide = build_moov(&t, &[100, 0x1_0000_0000]).unwrap();
    assert!(find(&wide, b"co64").is_some() && find(&wide, b"stco").is_none());
    assert_eq!(wide.len(), moov.len() + 8);
    let large = TrackLayout {
        coded_width: 0x1_0000,
        ..t
    };
    assert!(matches!(
        build_moov(&large, &[100, 200]),
        Err(AvifError::Unsupported(_))
    ));
}

#[test]
fn sequences_are_coded_and_read() {
    let frames: Vec<StillImage> = (0..3)
        .map(|i| image(16, 16, StillChroma::Yuv420, i * 9))
        .collect();
    let opts = SequenceEncodeOptions {
        timescale: 10,
        gop_length: 2,
        ..SequenceEncodeOptions::default()
    };
    let file = encode_sequence(&frames, &opts).unwrap();
    let img = parse(&file).unwrap();
    assert_eq!(&img.major_brand, b"avis");
    assert!(!img.compatible_brands.contains(b"avio"));
    assert_eq!(img.av1c.as_ref().map(|r| r[0]), Some(0x81));
    let ispe = img.ispe.unwrap();
    assert_eq!((ispe.width, ispe.height), (16, 16));
    assert_eq!(img.pixi.unwrap().bits_per_channel, vec![8, 8, 8]);
    let moov = find(&file, b"moov").unwrap();
    let stss = moov + find(&file[moov..], b"stss").unwrap();
    assert_eq!(
        (0..3).map(|i| u32_at(&file, stss + 4 + i * 4)).collect::<Vec<_>>(),
        vec![2, 1, 3]
    );
    let stsz = moov + find(&file[moov..], b"stsz").unwrap();
    assert_eq!(
        u32_at(&file, stsz + 12) as usize,
        img.primary_item_data.len()
    );
    assert!(inspect(&file).unwrap().sequence_header_obu_strict_compliant());
}

#[test]
fn intra_sequences_are_all_sync() {
    let frames: Vec<StillImage> = (0..2)
        .map(|i| image(10, 9, StillChroma::Yuv444, i * 50))
        .collect();
    let opts = SequenceEncodeOptions {
        all_intra: true,
        gop_length: 0,
        ..SequenceEncodeOptions::default()
    };
    let file = encode_sequence(&frames, &opts).unwrap();
    let img = parse(&file).unwrap();
    assert!(img.compatible_brands.contains(b"avio"));
    assert!(find(&file, b"stss").is_none());
    assert!(matches!(img.meta.property_for(1, b"clap"),
        Some(Property::Clap(c)) if *c == top_left_clap(10, 9, 16, 16)));
}

#[test]
fn sequences_that_cannot_be_coded_are_refused() {
    let opts = SequenceEncodeOptions::default();
    let text = |r: Result<Vec<u8>, AvifError>| r.unwrap_err().to_string();
    assert_eq!(
        text(encode_sequence(&[], &opts)),
        "invalid data: avif sequence: no frames"
    );
    let a = image(16, 16, StillChroma::Yuv420, 0);
    assert_eq!(
        text(encode_sequence(
            &[a.clone()],
            &SequenceEncodeOptions {
                timescale: 0,
                ..opts
            }
        )),
        "invalid data: avif sequence: timescale and frame_duration must be non-zero"
    );
    assert_eq!(
        text(encode_sequence(
            &[a.clone()],
            &SequenceEncodeOptions {
                gop_length: 65,
                ..opts
            }
        )),
        "invalid data: avif sequence: gop_length 65 outside 1..=64"
    );
    let b = image(8, 16, StillChroma::Yuv420, 0);
    assert_eq!(
        text(encode_sequence(&[a.clone(), b], &opts)),
        "invalid data: avif sequence: frame 1 (8x16 8-bit Yuv420) differs from frame 0 (16x16 8-bit Yuv420)"
    );
    let mut c = a.clone();
    c.alpha = Some(vec![0; 256]);
    assert_eq!(
        text(encode_sequence(&[c], &opts)),
        "unsupported: avif sequence: auxiliary (alpha / depth) image sequences are not supported"
    );
}

#[test]
fn planes_are_drawn_out_to_whole_blocks() {
    assert_eq!(coded_extent(1), 8);
    assert_eq!(coded_extent(16), 16);
    assert_eq!(coded_extent(17), 24);
    assert_eq!(
        pad_plane(&vec![1, 2, 3, 4], 2, 2, 3, 3),
        vec![1, 2, 2, 3, 4, 4, 3, 4, 4]
    );
    assert_eq!(STILL_MAX_CODED_DIM, 16384);
}

#[test]
fn still_images_are_checked() {
    let a = image(5, 3, StillChroma::Yuv420, 0);
    assert!(a.validate().is_ok());
    assert_eq!(a.chroma_dims(), (3, 2));
    assert_eq!(a.pixi_bits(), vec![8, 8, 8]);
    assert_eq!(image(5, 3, StillChroma::Monochrome, 0).pixi_bits(), vec![8]);
    let mut short = a.clone();
    short.u.pop();
    assert!(short.validate().is_err());
    let mut deep = a.clone();
    deep.bit_depth = 9;
    assert!(deep.validate().is_err());
    let mut bright = a.clone();
    bright.y[0] = 256;
    assert!(bright.validate().is_err());
    let mut none = a;
    none.width = 0;
    assert!(none.validate().is_err());
}
