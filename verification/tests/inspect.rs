//! What a file says of its pictures.

use oxideav_avif::error::AvifError;
use oxideav_avif::inspect::{
    decode_av1c_flags, gain_map_metadata, inspect, item_payload_bytes, resolve_metadata_items,
};
use oxideav_avif::meta::Meta;
use oxideav_avif::meta_parse::{IrefEntry, ItemInfo};
use oxideav_avif::mux::AvifMuxer;

/// A monochrome picture with Exif metadata.
fn monochrome() -> Vec<u8> {
    let payload = vec![0x12, 0x00, 0x0a, 0x04, 0x00, 0x00, 0x00, 0x00];
    AvifMuxer::new(1280, 720, payload, vec![0x81, 0x05, 0x1c, 0x00])
        .with_pixi(vec![8])
        .with_exif(b"\x00\x00\x00\x00II*\x00\x08\x00\x00\x00".to_vec())
        .build()
        .expect("mux")
}

#[test]
fn inspect_extracts_primary_item() {
    let info = inspect(&monochrome()).expect("inspect");
    assert!(info.width > 0 && info.height > 0);
    // av1C always starts with the marker/version byte 0x81.
    assert_eq!(info.av1c[0], 0x81);
    assert!(!info.is_grid);
    assert!(!info.has_alpha);
}

/// `AvifInfo` carries `bit_depth` + `monochrome` + `chroma_subsampling`
/// decoded from `av1C`. The monochrome.avif fixture is 8-bit mono (4:0:0)
/// so `bit_depth` = 8, `monochrome` = true, `chroma_subsampling` = None.
#[test]
fn inspect_av1c_flags_decoded() {
    let info = inspect(&monochrome()).expect("inspect");
    // av1C is present and well-formed → bit_depth populated.
    let bd = info
        .bit_depth
        .expect("bit_depth should be populated from av1C");
    // Monochrome.avif is 8-bit.
    assert_eq!(bd, 8, "monochrome fixture should be 8-bit");
    // Monochrome means no chroma subsampling info.
    assert!(
        info.monochrome,
        "monochrome fixture should set monochrome=true"
    );
    assert!(
        info.chroma_subsampling.is_none(),
        "monochrome stream has no chroma planes"
    );
}

/// SDR fixture has no HDR metadata — all three HDR fields are `None`
/// and `has_hdr_metadata()` returns false.
#[test]
fn inspect_sdr_fixture_has_no_hdr_metadata() {
    let info = inspect(&monochrome()).expect("inspect");
    assert!(
        !info.has_hdr_metadata(),
        "SDR monochrome fixture must not have HDR metadata"
    );
    assert!(info.mdcv.is_none(), "mdcv should be None for SDR fixture");
    assert!(info.clli.is_none(), "clli should be None for SDR fixture");
    assert!(info.cclv.is_none(), "cclv should be None for SDR fixture");
    assert!(info.max_cll().is_none(), "max_cll() should be None for SDR");
    assert!(
        info.max_fall().is_none(),
        "max_fall() should be None for SDR"
    );
}

/// `decode_av1c_flags` correctly extracts 10-bit / 12-bit flags.
#[test]
fn decode_av1c_flags_hdr_bit_depths() {
    // Build synthetic av1C bytes:
    // byte 0 = 0x81 (marker + version=1)
    // byte 1 = 0x00 (seq_profile=0, level=0)
    // byte 2 encodes bitdepth: high_bitdepth(1 bit 6), twelve_bit(1 bit 5),
    //   monochrome(0 bit 4), subsampling_x(1 bit 3), subsampling_y(1 bit 2)
    // 10-bit: high_bitdepth=1, twelve_bit=0 → byte2 = 0b0100_1100 = 0x4c
    let av1c_10bit = [0x81, 0x00, 0x4c, 0x00];
    let (bd, mono, sub) = decode_av1c_flags(&av1c_10bit);
    assert_eq!(bd, Some(10));
    assert!(!mono);
    assert_eq!(sub, Some((true, true))); // subsampling_x + y set

    // 12-bit: high_bitdepth=1, twelve_bit=1 → byte2 = 0b0110_1100 = 0x6c
    let av1c_12bit = [0x81, 0x00, 0x6c, 0x00];
    let (bd, mono, sub) = decode_av1c_flags(&av1c_12bit);
    assert_eq!(bd, Some(12));
    assert!(!mono);
    assert!(sub.is_some());

    // Monochrome 8-bit: high=0, twelve=0, mono=1 → byte2 = 0b0001_0000 = 0x10
    let av1c_mono = [0x81, 0x00, 0x10, 0x00];
    let (bd, mono, sub) = decode_av1c_flags(&av1c_mono);
    assert_eq!(bd, Some(8));
    assert!(mono);
    assert!(sub.is_none()); // monochrome → no chroma subsampling

    // 8-bit 4:4:4 (subsampling_x=0, subsampling_y=0, mono=0): byte2=0x00
    let av1c_444 = [0x81, 0x00, 0x00, 0x00];
    let (bd, mono, sub) = decode_av1c_flags(&av1c_444);
    assert_eq!(bd, Some(8));
    assert!(!mono);
    assert_eq!(sub, Some((false, false))); // 4:4:4

    // Too short: < 3 bytes → graceful None.
    let (bd, mono, sub) = decode_av1c_flags(&[0x81]);
    assert!(bd.is_none());
    assert!(!mono);
    assert!(sub.is_none());
}

#[test]
fn inspect_fixture_resolves_native_exif_metadata_item() {
    let info = inspect(&monochrome()).expect("inspect");
    assert!(info.thumbnail_item_ids.is_empty());
    assert_eq!(
        info.exif_item_id,
        Some(2),
        "monochrome.avif fixture must surface its Exif metadata item via cdsc"
    );
    assert!(
        info.xmp_item_id.is_none(),
        "monochrome.avif ships no XMP item"
    );
    assert!(!info.premultiplied_alpha);
    assert!(!info.has_thumbnails());
    assert!(
        info.has_descriptive_metadata(),
        "Exif item presence implies has_descriptive_metadata() is true"
    );
    let exif_bytes = item_payload_bytes(&monochrome(), info.exif_item_id.unwrap())
        .expect("extract exif item bytes");
    assert!(
        exif_bytes.len() > 4,
        "exif payload at least carries the 4-byte tiff_header_offset"
    );
    let off = u32::from_be_bytes(exif_bytes[0..4].try_into().unwrap()) as usize;
    let tiff_start = 4 + off;
    assert!(
        tiff_start + 2 <= exif_bytes.len(),
        "tiff offset {off} fits inside payload of {} bytes",
        exif_bytes.len()
    );
    let bom = &exif_bytes[tiff_start..tiff_start + 2];
    assert!(
        bom == b"II" || bom == b"MM",
        "TIFF header BOM must be II or MM, got {bom:?}"
    );
}

fn make_item(id: u32, item_type: &[u8; 4]) -> ItemInfo {
    ItemInfo {
        id,
        item_type: *item_type,
        name: String::new(),
        content_type: None,
        content_encoding: None,
        item_uri_type: None,
        flags: 0,
    }
}

fn make_mime_item(id: u32, content_type: &str) -> ItemInfo {
    ItemInfo {
        id,
        item_type: *b"mime",
        name: String::new(),
        content_type: Some(content_type.to_string()),
        content_encoding: None,
        item_uri_type: None,
        flags: 0,
    }
}

/// Native Exif item: `item_type == 'Exif'` linked via `cdsc` iref to
/// the primary. Resolves as Exif.
#[test]
fn resolve_metadata_picks_native_exif_item() {
    let meta = Meta {
        items: vec![make_item(2, b"Exif")],
        irefs: vec![IrefEntry {
            reference_type: *b"cdsc",
            from_id: 2,
            to_ids: vec![1],
        }],
        ..Meta::default()
    };
    let (exif, xmp) = resolve_metadata_items(&meta, 1);
    assert_eq!(exif, Some(2));
    assert!(xmp.is_none());
}

/// `mime`-wrapped Exif: `item_type == 'mime'` +
/// `content_type == "application/octet-stream"` (one of the
/// real-world generic-MIME Exif carriers). Same outcome as native
/// Exif: resolves as Exif.
#[test]
fn resolve_metadata_picks_mime_wrapped_exif() {
    let meta = Meta {
        items: vec![make_mime_item(3, "application/octet-stream")],
        irefs: vec![IrefEntry {
            reference_type: *b"cdsc",
            from_id: 3,
            to_ids: vec![1],
        }],
        ..Meta::default()
    };
    let (exif, xmp) = resolve_metadata_items(&meta, 1);
    assert_eq!(exif, Some(3));
    assert!(xmp.is_none());
}

/// XMP item: `mime` + `application/rdf+xml`. Resolves as XMP.
#[test]
fn resolve_metadata_picks_xmp_mime_item() {
    let meta = Meta {
        items: vec![make_mime_item(4, "application/rdf+xml")],
        irefs: vec![IrefEntry {
            reference_type: *b"cdsc",
            from_id: 4,
            to_ids: vec![1],
        }],
        ..Meta::default()
    };
    let (exif, xmp) = resolve_metadata_items(&meta, 1);
    assert!(exif.is_none());
    assert_eq!(xmp, Some(4));
}

/// A file shipping both Exif and XMP attached to the primary: both
/// fields populate.
#[test]
fn resolve_metadata_picks_both_exif_and_xmp() {
    let meta = Meta {
        items: vec![
            make_item(2, b"Exif"),
            make_mime_item(3, "application/rdf+xml"),
        ],
        irefs: vec![
            IrefEntry {
                reference_type: *b"cdsc",
                from_id: 2,
                to_ids: vec![1],
            },
            IrefEntry {
                reference_type: *b"cdsc",
                from_id: 3,
                to_ids: vec![1],
            },
        ],
        ..Meta::default()
    };
    let (exif, xmp) = resolve_metadata_items(&meta, 1);
    assert_eq!(exif, Some(2));
    assert_eq!(xmp, Some(3));
}

/// Case-insensitive content-type matching: "Application/RDF+XML"
/// still resolves as XMP. Encoders in the wild disagree on
/// capitalisation.
#[test]
fn resolve_metadata_xmp_match_is_case_insensitive() {
    let meta = Meta {
        items: vec![make_mime_item(4, "Application/RDF+XML")],
        irefs: vec![IrefEntry {
            reference_type: *b"cdsc",
            from_id: 4,
            to_ids: vec![1],
        }],
        ..Meta::default()
    };
    let (_, xmp) = resolve_metadata_items(&meta, 1);
    assert_eq!(xmp, Some(4));
}

/// An item not linked by `cdsc` does NOT resolve — `iinf` alone is
/// insufficient, the iref is the binding signal.
#[test]
fn resolve_metadata_ignores_items_not_linked_via_cdsc() {
    let meta = Meta {
        items: vec![make_item(2, b"Exif")],
        // No iref — Exif item exists in iinf but isn't linked.
        irefs: vec![],
        ..Meta::default()
    };
    let (exif, xmp) = resolve_metadata_items(&meta, 1);
    assert!(exif.is_none());
    assert!(xmp.is_none());
}

/// A `cdsc` iref pointing at a different target does NOT bind to the
/// primary. The walker is target-scoped.
#[test]
fn resolve_metadata_only_targets_the_requested_item() {
    let meta = Meta {
        items: vec![make_item(2, b"Exif")],
        irefs: vec![IrefEntry {
            reference_type: *b"cdsc",
            from_id: 2,
            to_ids: vec![5], // not primary (1)
        }],
        ..Meta::default()
    };
    let (exif, _) = resolve_metadata_items(&meta, 1);
    assert!(exif.is_none());
    // Same iref does bind item 5, however.
    let (exif5, _) = resolve_metadata_items(&meta, 5);
    assert_eq!(exif5, Some(2));
}

#[test]
fn gain_map_metadata_unknown_id_is_invalid_data() {
    let err = gain_map_metadata(&monochrome(), 9999).unwrap_err();
    match err {
        AvifError::InvalidData(msg) => {
            assert!(
                msg.contains("missing in iloc"),
                "expected iloc-miss error message, got: {msg}"
            );
        }
        other => panic!("expected InvalidData on unknown item id, got {other:?}"),
    }
}
