//! Brands, item payloads and whole files.

use oxideav_avif::error::AvifError;
use oxideav_avif::meta_parse::{IlocExtent, ItemLocation};
use oxideav_avif::mux::AvifMuxer;
use oxideav_avif::parser::{
    BRAND_AVIF, BRAND_AVIO, BRAND_AVIS, BRAND_MA1A, BRAND_MA1B, BRAND_MIAF, BRAND_MIF1,
    BRAND_MSF1, audit_mif1, classify_brands, item_bytes, item_bytes_owned, parse,
};

/// A monochrome picture with Exif metadata.
fn monochrome() -> Vec<u8> {
    let payload = vec![0x12, 0x00, 0x0a, 0x04, 0x00, 0x00, 0x00, 0x00];
    AvifMuxer::new(1280, 720, payload, vec![0x81, 0x05, 0x1c, 0x00])
        .with_pixi(vec![8])
        .with_exif(b"\x00\x00\x00\x00II*\x00\x08\x00\x00\x00".to_vec())
        .build()
        .expect("mux")
}

#[test]
fn classify_brands_baseline_profile() {
    // Real `monochrome.avif` ftyp: major=avif compat=[mif1,avif,miaf,MA1B].
    let cls = classify_brands(
        &BRAND_AVIF,
        &[BRAND_MIF1, BRAND_AVIF, BRAND_MIAF, BRAND_MA1B],
    )
    .unwrap();
    assert!(cls.is_image);
    assert!(cls.is_miaf);
    assert!(cls.has_mif1);
    assert!(cls.is_baseline_profile);
    assert!(!cls.is_sequence);
    assert!(!cls.is_advanced_profile);
}

#[test]
fn classify_brands_advanced_profile() {
    let cls = classify_brands(&BRAND_AVIF, &[BRAND_MIF1, BRAND_MIAF, BRAND_MA1A]).unwrap();
    assert!(cls.is_advanced_profile);
    assert!(!cls.is_baseline_profile);
    assert!(cls.is_image);
}

#[test]
fn classify_brands_sequence_with_intra_only() {
    let cls = classify_brands(
        &BRAND_AVIS,
        &[BRAND_AVIO, BRAND_MSF1, BRAND_MIAF, BRAND_MA1B],
    )
    .unwrap();
    assert!(cls.is_sequence);
    assert!(cls.is_intra_only);
    assert!(cls.has_msf1);
    assert!(cls.is_miaf);
    assert!(cls.is_baseline_profile);
    assert!(!cls.is_image);
}

#[test]
fn classify_brands_rejects_no_avif_or_heif_brand() {
    // `mp42` + `isom` is a valid generic ISOBMFF ftyp but says
    // nothing about AVIF/HEIF.
    let err = classify_brands(b"mp42", &[*b"isom"]).unwrap_err();
    let msg = format!("{err:?}");
    assert!(
        msg.contains("declares no AVIF/HEIF brand"),
        "expected AVIF/HEIF rejection, got: {msg}"
    );
    // Error must list the brands seen so the caller can debug.
    assert!(msg.contains("mp42"));
    assert!(msg.contains("isom"));
}

#[test]
fn classify_brands_accepts_mif1_only() {
    // Pure HEIF file with no AVIF brand still parses: caller can
    // inspect the meta to find out whether it carries an `av01` item.
    let cls = classify_brands(&BRAND_MIF1, &[]).unwrap();
    assert!(cls.has_mif1);
    assert!(!cls.is_image);
    assert!(!cls.is_sequence);
}

#[test]
fn classify_brands_lone_miaf_without_anchor_is_rejected() {
    // `miaf` alone isn't enough — a file must also claim either an
    // AVIF brand (`avif` / `avis` / `avio`) or a HEIF structural
    // brand (`mif1` / `msf1`).
    let err = classify_brands(&BRAND_MIAF, &[]).unwrap_err();
    assert!(format!("{err:?}").contains("declares no AVIF/HEIF brand"));
}

#[test]
fn parses_monochrome_fixture() {
    let file = monochrome();
    let img = parse(&file).expect("parse avif");
    assert_eq!(&img.major_brand, b"avif");
    assert!(img.compatible_brands.iter().any(|b| b == b"mif1"));
    assert_eq!(img.primary_item_id, 1);
    assert_eq!(&img.primary_item.item_type, b"av01");
    let ispe = img.ispe.expect("ispe for primary item");
    assert_eq!(ispe.width, 1280);
    assert_eq!(ispe.height, 720);
    // av1C starts with marker(1) | version(7) = 0x81.
    let av1c = img.av1c.as_deref().expect("av1C property");
    assert_eq!(av1c[0], 0x81);
    // The primary item bytes live in mdat and begin with an AV1
    // temporal-delimiter OBU (obu_type=2). Bit layout of the OBU
    // header byte: obu_forbidden(1) | obu_type(4) | obu_extension_flag(1)
    // | obu_has_size_field(1) | obu_reserved(1) — TD is type 2, and
    // this aom-encoded file sets has_size (low bit before reserved).
    let obu_type = (img.primary_item_data[0] >> 3) & 0x0f;
    assert_eq!(obu_type, 2, "first OBU should be temporal delimiter");
    // Monochrome file has a pixi with one 8-bit channel.
    let pixi = img.pixi.as_ref().expect("pixi");
    assert_eq!(pixi.bits_per_channel, vec![8]);
    // SDR fixture carries no HDR metadata.
    assert!(img.mdcv.is_none(), "SDR fixture must not have mdcv");
    assert!(img.clli.is_none(), "SDR fixture must not have clli");
    assert!(img.cclv.is_none(), "SDR fixture must not have cclv");
}

/// `item_bytes_owned` on a single-extent iloc returns the same data
/// as `item_bytes`. This path allocates but produces equal bytes.
#[test]
fn item_bytes_owned_single_extent_matches_item_bytes() {
    let data = b"hello world";
    // Synthetic loc: base_offset 0, extent offset=0, length=11.
    let loc = ItemLocation {
        id: 1,
        construction_method: 0,
        data_reference_index: 0,
        base_offset: 0,
        extents: vec![IlocExtent {
            offset: 0,
            length: 11,
            index: 1,
        }],
    };
    let slice = item_bytes(data, &loc).unwrap();
    let owned = item_bytes_owned(data, &loc).unwrap();
    assert_eq!(slice, owned.as_slice());
    assert_eq!(owned, b"hello world");
}

/// `item_bytes_owned` on a multi-extent iloc concatenates all extents.
#[test]
fn item_bytes_owned_multi_extent_concatenates() {
    let data = b"AAAA____BBBB"; // 12 bytes; extents at 0..4 and 8..12
    let loc = ItemLocation {
        id: 1,
        construction_method: 0,
        data_reference_index: 0,
        base_offset: 0,
        extents: vec![
            IlocExtent {
                offset: 0,
                length: 4,
                index: 1,
            },
            IlocExtent {
                offset: 8,
                length: 4,
                index: 1,
            },
        ],
    };
    let owned = item_bytes_owned(data, &loc).unwrap();
    assert_eq!(owned, b"AAAABBBB");
    let err = item_bytes(data, &loc).unwrap_err();
    assert!(
        matches!(err, AvifError::Unsupported(_)),
        "item_bytes must return Unsupported for multi-extent: {err:?}"
    );
}

/// `item_bytes_owned` rejects construction_method != 0.
#[test]
fn item_bytes_owned_rejects_idat_method() {
    let loc = ItemLocation {
        id: 1,
        construction_method: 1, // idat-based
        data_reference_index: 0,
        base_offset: 0,
        extents: vec![IlocExtent {
            offset: 0,
            length: 4,
            index: 1,
        }],
    };
    let err = item_bytes_owned(b"data", &loc).unwrap_err();
    assert!(matches!(err, AvifError::Unsupported(_)));
}

#[test]
fn audit_mif1_monochrome_fixture_is_compliant() {
    let m = audit_mif1(&monochrome()).expect("audit");
    assert!(m.claims_mif1, "fixture has mif1 in compatible_brands");
    assert!(m.has_hdlr);
    assert!(m.has_pitm);
    assert!(m.has_iinf);
    assert!(m.has_iloc);
    assert!(m.has_iprp);
    assert!(m.infe_count >= 1);
    assert!(m.is_compliant());
    assert!(m.missing().is_empty());
}

#[test]
fn audit_mif1_ftyp_only_reports_brand_no_boxes() {
    // Synth ftyp: major='mif1' minor=0 compat=[mif1]
    let mut buf = Vec::new();
    let payload_len: u32 = 4 + 4 + 4; // major + minor + one compat
    let size: u32 = 8 + payload_len;
    buf.extend_from_slice(&size.to_be_bytes());
    buf.extend_from_slice(b"ftyp");
    buf.extend_from_slice(b"mif1");
    buf.extend_from_slice(&0u32.to_be_bytes());
    buf.extend_from_slice(b"mif1");
    let m = audit_mif1(&buf).expect("audit");
    assert!(m.claims_mif1);
    assert!(!m.is_compliant());
    let missing = m.missing();
    assert!(missing.contains(&"hdlr"));
    assert!(missing.contains(&"pitm"));
}
