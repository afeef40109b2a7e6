//! Item properties and the `meta` box.

use oxideav_avif::meta::Meta;
use oxideav_avif::meta_parse::{
    IrefEntry, ItemPropertyAssociation, PropertyAssociation, parse_infe, parse_iref,
};
use oxideav_avif::props::{
    AUX_URN_ALPHA_HEVC, AUX_URN_ALPHA_MPEG, AUX_URN_DEPTH_HEVC, AUX_URN_DEPTH_MPEG,
    AUX_URN_HDR_GAINMAP, Aebr, Afbr, Altt, AuxC, AuxKind, CRTT, Colr, Crtt, Dobr, Fobr,
    HEIF_EPOCH_TO_UNIX_EPOCH_SECONDS, Irot, Iscl, MDFT, Mdft, Pano, Property, Rref, Udes, Wbbr,
};
use oxideav_avif::props_parse::{
    parse_a1lx, parse_a1op, parse_aebr, parse_afbr, parse_altt, parse_auxc, parse_cclv,
    parse_clap, parse_clli, parse_colr, parse_crtt, parse_dobr, parse_fobr, parse_imir,
    parse_ipco, parse_irot, parse_iscl, parse_ispe, parse_lsel, parse_mdcv, parse_mdft,
    parse_pano, parse_pasp, parse_pixi, parse_rloc, parse_rref, parse_udes, parse_wbbr,
};

/// A fraction as a number.
fn quotient<T: Into<f64>>(terms: (T, T)) -> f64 {
    terms.0.into() / terms.1.into()
}

#[test]
fn colr_nclx() {
    // bt709 / sRGB / bt709 / full-range.
    let buf = [
        b'n', b'c', b'l', b'x', 0x00, 0x01, 0x00, 0x0d, 0x00, 0x05, 0x80,
    ];
    let c = parse_colr(&buf).unwrap();
    match c {
        Colr::Nclx {
            colour_primaries,
            transfer_characteristics,
            matrix_coefficients,
            full_range,
        } => {
            assert_eq!(colour_primaries, 1);
            assert_eq!(transfer_characteristics, 13);
            assert_eq!(matrix_coefficients, 5);
            assert!(full_range);
        }
        _ => panic!("expected nclx"),
    }
}

#[test]
fn ispe_round_trip() {
    let mut buf = vec![0u8; 4];
    buf.extend_from_slice(&100u32.to_be_bytes());
    buf.extend_from_slice(&200u32.to_be_bytes());
    let ispe = parse_ispe(&buf).unwrap();
    assert_eq!(ispe.width, 100);
    assert_eq!(ispe.height, 200);
}

#[test]
fn irot_imir_masks_reserved_bits() {
    let irot = parse_irot(&[0xff]).unwrap();
    assert_eq!(irot.angle, 3);
    let imir = parse_imir(&[0xff]).unwrap();
    assert_eq!(imir.axis, 1);
}

#[test]
fn clap_reads_all_fields() {
    let mut buf = Vec::new();
    for i in 0..8u32 {
        buf.extend_from_slice(&i.to_be_bytes());
    }
    let c = parse_clap(&buf).unwrap();
    assert_eq!(c.clean_aperture_width_n, 0);
    assert_eq!(c.clean_aperture_width_d, 1);
    assert_eq!(c.vert_off_d, 7);
}

#[test]
fn auxc_extracts_urn() {
    let mut buf = vec![0u8; 4]; // FullBox v=0 flags=0
    buf.extend_from_slice(b"urn:mpeg:mpegB:cicp:systems:auxiliary:alpha\0");
    let a = parse_auxc(&buf).unwrap();
    assert!(a
        .aux_type
        .starts_with("urn:mpeg:mpegB:cicp:systems:auxiliary:alpha"));
}

#[test]
fn pixi_parses_3_channel_8bit() {
    // FullBox(v=0, f=0) + num_channels=3 + [8,8,8].
    let mut buf = vec![0u8; 4];
    buf.push(3);
    buf.extend_from_slice(&[8, 8, 8]);
    let pixi = parse_pixi(&buf).unwrap();
    assert_eq!(pixi.num_channels(), 3);
    assert_eq!(pixi.bits_per_channel, vec![8, 8, 8]);
    assert_eq!(pixi.max_bit_depth(), 8);
    assert!(pixi.is_uniform_depth());
}

#[test]
fn pixi_parses_10bit_hdr() {
    let mut buf = vec![0u8; 4];
    buf.push(3);
    buf.extend_from_slice(&[10, 10, 10]);
    let pixi = parse_pixi(&buf).unwrap();
    assert_eq!(pixi.max_bit_depth(), 10);
    assert!(pixi.is_uniform_depth());
}

#[test]
fn pixi_handles_mixed_depth() {
    let mut buf = vec![0u8; 4];
    buf.push(3);
    buf.extend_from_slice(&[8, 10, 12]);
    let pixi = parse_pixi(&buf).unwrap();
    assert_eq!(pixi.max_bit_depth(), 12);
    assert!(!pixi.is_uniform_depth());
}

#[test]
fn pixi_rejects_truncated_channel_list() {
    // Declares 4 channels but only ships 2 bytes.
    let mut buf = vec![0u8; 4];
    buf.push(4);
    buf.extend_from_slice(&[8, 8]);
    assert!(parse_pixi(&buf).is_err());
}

#[test]
fn pixi_zero_channels_parses_empty() {
    // num_channels=0 is degenerate but technically encodable. The
    // parser should not panic; downstream consumers can detect the
    // empty list.
    let mut buf = vec![0u8; 4];
    buf.push(0);
    let pixi = parse_pixi(&buf).unwrap();
    assert_eq!(pixi.num_channels(), 0);
    assert_eq!(pixi.max_bit_depth(), 0);
    assert!(!pixi.is_uniform_depth());
}

#[test]
fn pasp_parses_square_and_anamorphic() {
    // 1:1 square pixels.
    let mut buf = Vec::new();
    buf.extend_from_slice(&1u32.to_be_bytes());
    buf.extend_from_slice(&1u32.to_be_bytes());
    let p = parse_pasp(&buf).unwrap();
    assert!(p.is_square());
    assert_eq!(p.ratio_terms().map(quotient), Some(1.0));
    // 16:11 anamorphic (DV NTSC widescreen).
    let mut buf = Vec::new();
    buf.extend_from_slice(&16u32.to_be_bytes());
    buf.extend_from_slice(&11u32.to_be_bytes());
    let p = parse_pasp(&buf).unwrap();
    assert!(!p.is_square());
    let r = p.ratio_terms().map(quotient).unwrap();
    assert!((r - 16.0 / 11.0).abs() < 1e-9);
}

#[test]
fn pasp_zero_v_spacing_is_safe() {
    // (4, 0) is malformed but must not divide-by-zero. ratio=None,
    // is_square=false.
    let mut buf = Vec::new();
    buf.extend_from_slice(&4u32.to_be_bytes());
    buf.extend_from_slice(&0u32.to_be_bytes());
    let p = parse_pasp(&buf).unwrap();
    assert_eq!(p.ratio_terms().map(quotient), None);
    assert!(!p.is_square());
}

#[test]
fn pasp_rejects_truncated() {
    let buf = vec![0u8; 4]; // need 8
    assert!(parse_pasp(&buf).is_err());
}

#[test]
fn iref_v0_round_trip() {
    // FullBox(v=0, f=0) + one `auxl` child referencing from_id=2 to {1}.
    let mut body = Vec::new();
    body.extend_from_slice(&[0u8; 4]); // fullbox
                                       // Child box header: size(4) + type(4)
    let child_payload: Vec<u8> = {
        let mut cp = Vec::new();
        cp.extend_from_slice(&2u16.to_be_bytes()); // from_id
        cp.extend_from_slice(&1u16.to_be_bytes()); // ref_count
        cp.extend_from_slice(&1u16.to_be_bytes()); // to_id = 1
        cp
    };
    let child_size = (8 + child_payload.len()) as u32;
    body.extend_from_slice(&child_size.to_be_bytes());
    body.extend_from_slice(b"auxl");
    body.extend_from_slice(&child_payload);
    let refs = parse_iref(&body).unwrap();
    assert_eq!(refs.len(), 1);
    assert_eq!(&refs[0].reference_type, b"auxl");
    assert_eq!(refs[0].from_id, 2);
    assert_eq!(refs[0].to_ids, vec![1]);
}

/// `mdcv` round-trip: 6 × u16 primaries + 2 × u16 white point +
/// 2 × u32 luminance values (no FullBox header).
#[test]
fn mdcv_round_trip() {
    let mut buf = Vec::new();
    // Rx=13250, Ry=34500  (BT.2020 red primary × 50000)
    buf.extend_from_slice(&13250u16.to_be_bytes());
    buf.extend_from_slice(&34500u16.to_be_bytes());
    // Gx=7500, Gy=40000  (BT.2020 green primary × 50000)
    buf.extend_from_slice(&7500u16.to_be_bytes());
    buf.extend_from_slice(&40000u16.to_be_bytes());
    // Bx=3000, By=1000   (BT.2020 blue primary × 50000)
    buf.extend_from_slice(&3000u16.to_be_bytes());
    buf.extend_from_slice(&1000u16.to_be_bytes());
    // White point: D65 = (15635, 16450)
    buf.extend_from_slice(&15635u16.to_be_bytes());
    buf.extend_from_slice(&16450u16.to_be_bytes());
    // Max luminance = 10000000 (1000 cd/m² × 10000 units)
    buf.extend_from_slice(&10_000_000u32.to_be_bytes());
    // Min luminance = 50 (0.005 cd/m² × 10000 units)
    buf.extend_from_slice(&50u32.to_be_bytes());
    let m = parse_mdcv(&buf).unwrap();
    assert_eq!(m.display_primaries_xy[0], (13250, 34500)); // R
    assert_eq!(m.display_primaries_xy[1], (7500, 40000)); // G
    assert_eq!(m.display_primaries_xy[2], (3000, 1000)); // B
    assert_eq!(m.white_point_xy, (15635, 16450));
    assert_eq!(m.max_display_mastering_luminance, 10_000_000);
    assert_eq!(m.min_display_mastering_luminance, 50);
}

/// `mdcv` rejects truncated input (< 24 bytes).
#[test]
fn mdcv_rejects_truncated() {
    let buf = vec![0u8; 23];
    assert!(parse_mdcv(&buf).is_err());
}

/// `clli` round-trip: MaxCLL + MaxFALL as two u16 values.
#[test]
fn clli_round_trip() {
    let mut buf = Vec::new();
    buf.extend_from_slice(&1000u16.to_be_bytes()); // MaxCLL = 1000 cd/m²
    buf.extend_from_slice(&400u16.to_be_bytes()); // MaxFALL = 400 cd/m²
    let c = parse_clli(&buf).unwrap();
    assert_eq!(c.max_content_light_level, 1000);
    assert_eq!(c.max_pic_average_light_level, 400);
}

/// `clli` rejects truncated input (< 4 bytes).
#[test]
fn clli_rejects_truncated() {
    let buf = vec![0u8; 3];
    assert!(parse_clli(&buf).is_err());
}

/// `cclv` has identical layout to `clli`.
#[test]
fn cclv_round_trip() {
    let mut buf = Vec::new();
    buf.extend_from_slice(&2000u16.to_be_bytes()); // MaxCLL
    buf.extend_from_slice(&800u16.to_be_bytes()); // MaxFALL
    let c = parse_cclv(&buf).unwrap();
    assert_eq!(c.max_content_light_level, 2000);
    assert_eq!(c.max_pic_average_light_level, 800);
}

/// `cclv` rejects truncated input.
#[test]
fn cclv_rejects_truncated() {
    let buf = vec![0u8; 1];
    assert!(parse_cclv(&buf).is_err());
}

/// Build a synthetic v2 `infe` payload with the given item_type +
/// optional trailing fields. The wrapper FullBox header lives in the
/// `body` argument's prefix to mirror what the iinf parser hands to
/// `parse_infe`.
fn build_infe_v2(item_type: &[u8; 4], name: &str, tail: &[u8]) -> Vec<u8> {
    // FullBox header: version=2, flags=0
    let mut buf = vec![2u8, 0, 0, 0];
    buf.extend_from_slice(&1u16.to_be_bytes()); // item_ID = 1
    buf.extend_from_slice(&0u16.to_be_bytes()); // protection_index = 0
    buf.extend_from_slice(item_type); // item_type
    buf.extend_from_slice(name.as_bytes());
    buf.push(0); // NUL for item_name
    buf.extend_from_slice(tail);
    buf
}

#[test]
fn infe_v2_mime_parses_content_type_and_encoding() {
    let mut tail = Vec::new();
    tail.extend_from_slice(b"application/rdf+xml\0");
    tail.extend_from_slice(b"\0"); // explicit empty content_encoding
    let payload = build_infe_v2(b"mime", "xmp", &tail);
    let info = parse_infe(&payload).unwrap();
    assert_eq!(info.id, 1);
    assert_eq!(&info.item_type, b"mime");
    assert_eq!(info.name, "xmp");
    assert_eq!(info.content_type.as_deref(), Some("application/rdf+xml"));
    assert!(info.content_encoding.is_none());
    assert!(info.item_uri_type.is_none());
}

/// 'mime' v3 infe shape (32-bit item_ID), Exif TIFF blob wrapped
/// with content_type=application/octet-stream — one of the
/// real-world Exif carriers seen in HEIF / AVIF files (alongside
/// the native `item_type == 'Exif'` form and the `image/tiff` MIME
/// variant).
#[test]
fn infe_v3_mime_octet_stream_for_exif() {
    // FullBox header: version=3, flags=0
    let mut buf = vec![3u8, 0, 0, 0];
    buf.extend_from_slice(&42u32.to_be_bytes()); // item_ID = 42
    buf.extend_from_slice(&0u16.to_be_bytes()); // protection
    buf.extend_from_slice(b"mime"); // item_type
    buf.extend_from_slice(b"\0"); // empty item_name
    buf.extend_from_slice(b"application/octet-stream\0");
    // content_encoding absent (box ends after content_type cstr)
    let info = parse_infe(&buf).unwrap();
    assert_eq!(info.id, 42);
    assert_eq!(&info.item_type, b"mime");
    assert_eq!(
        info.content_type.as_deref(),
        Some("application/octet-stream")
    );
    assert!(info.content_encoding.is_none());
}

/// 'uri ' item_type carries an item_uri_type cstr instead of
/// content_type/content_encoding.
#[test]
fn infe_v2_uri_parses_uri_type() {
    let mut tail = Vec::new();
    tail.extend_from_slice(b"https://example.invalid/spec\0");
    let payload = build_infe_v2(b"uri ", "uri-meta", &tail);
    let info = parse_infe(&payload).unwrap();
    assert_eq!(&info.item_type, b"uri ");
    assert!(info.content_type.is_none());
    assert_eq!(
        info.item_uri_type.as_deref(),
        Some("https://example.invalid/spec")
    );
}

/// Generic item types (`av01`, `Exif`, `grid`, …) stop after
/// `item_name`; no additional fields are parsed.
#[test]
fn infe_v2_generic_item_type_stops_at_name() {
    let payload = build_infe_v2(b"av01", "color", &[]);
    let info = parse_infe(&payload).unwrap();
    assert_eq!(&info.item_type, b"av01");
    assert!(info.content_type.is_none());
    assert!(info.content_encoding.is_none());
    assert!(info.item_uri_type.is_none());
    let payload = build_infe_v2(b"Exif", "exif-blob", &[]);
    let info = parse_infe(&payload).unwrap();
    assert_eq!(&info.item_type, b"Exif");
    assert!(info.content_type.is_none());
}

/// `iref_sources_of` returns every source whose `to_ids` contains
/// the target id. Two `thmb` irefs both pointing at the primary
/// (small + tiny thumbnails of one master) should both surface.
#[test]
fn iref_sources_of_returns_all_matches() {
    let m = Meta {
        irefs: vec![
            IrefEntry {
                reference_type: *b"thmb",
                from_id: 10,
                to_ids: vec![1],
            },
            IrefEntry {
                reference_type: *b"thmb",
                from_id: 11,
                to_ids: vec![1],
            },
            // Irrelevant: different reference_type
            IrefEntry {
                reference_type: *b"auxl",
                from_id: 12,
                to_ids: vec![1],
            },
            // Irrelevant: different target
            IrefEntry {
                reference_type: *b"thmb",
                from_id: 13,
                to_ids: vec![2],
            },
        ],
        ..Meta::default()
    };
    let mut got = m.iref_sources_of(b"thmb", 1);
    got.sort_unstable();
    assert_eq!(got, vec![10, 11]);
    assert!(m.iref_sources_of(b"thmb", 99).is_empty());
}

/// `is_alpha_premultiplied_for` detects HEIF `prem` iref linking an
/// alpha auxiliary to a colour image.
#[test]
fn is_alpha_premultiplied_for_detects_prem_iref() {
    let m = Meta {
        irefs: vec![IrefEntry {
            reference_type: *b"prem",
            from_id: 2,
            to_ids: vec![1],
        }],
        ..Meta::default()
    };
    assert!(m.is_alpha_premultiplied_for(1));
    assert!(!m.is_alpha_premultiplied_for(2));
    // Negative case: empty meta
    let empty = Meta::default();
    assert!(!empty.is_alpha_premultiplied_for(1));
}

/// `AuxC::kind` recognises the canonical alpha URNs (both MPEG and
/// HEVC HEIF spellings map to `AuxKind::Alpha`).
#[test]
fn auxc_kind_classifies_alpha() {
    let mpeg = AuxC {
        aux_type: AUX_URN_ALPHA_MPEG.to_string(),
        aux_subtype: Vec::new(),
    };
    assert_eq!(mpeg.kind(), AuxKind::Alpha);
    assert!(mpeg.is_alpha());
    assert!(!mpeg.is_depth_map());

    let hevc = AuxC {
        aux_type: AUX_URN_ALPHA_HEVC.to_string(),
        aux_subtype: Vec::new(),
    };
    assert_eq!(hevc.kind(), AuxKind::Alpha);
    assert!(hevc.is_alpha());
}

/// `AuxC::kind` recognises both depth-map URN spellings.
#[test]
fn auxc_kind_classifies_depth_map() {
    let mpeg = AuxC {
        aux_type: AUX_URN_DEPTH_MPEG.to_string(),
        aux_subtype: Vec::new(),
    };
    assert_eq!(mpeg.kind(), AuxKind::DepthMap);
    assert!(mpeg.is_depth_map());
    assert!(!mpeg.is_alpha());

    let hevc = AuxC {
        aux_type: AUX_URN_DEPTH_HEVC.to_string(),
        aux_subtype: Vec::new(),
    };
    assert_eq!(hevc.kind(), AuxKind::DepthMap);
}

/// `AuxC::kind` recognises Apple's HDR gain-map URN.
#[test]
fn auxc_kind_classifies_hdr_gain_map() {
    let g = AuxC {
        aux_type: AUX_URN_HDR_GAINMAP.to_string(),
        aux_subtype: Vec::new(),
    };
    assert_eq!(g.kind(), AuxKind::HdrGainMap);
    assert!(g.is_hdr_gain_map());
    assert!(!g.is_alpha());
}

#[test]
fn auxc_kind_other_for_unknown_urn() {
    let custom = AuxC {
        aux_type: "urn:example:foo:bar".to_string(),
        aux_subtype: Vec::new(),
    };
    assert_eq!(custom.kind(), AuxKind::Other);
    assert!(!custom.is_alpha());

    // Prefix-only match must not be classified as Alpha. A writer
    // that decorates the canonical URN with a trailing identifier
    // (e.g. for sub-typing) gets `Other` and the raw URN is still
    // visible on aux_type.
    let prefix = AuxC {
        aux_type: format!("{AUX_URN_ALPHA_MPEG}:extended"),
        aux_subtype: Vec::new(),
    };
    assert_eq!(prefix.kind(), AuxKind::Other);
}

/// `rloc` round-trip: FullBox v=0 + two big-endian u32 offsets.
#[test]
fn rloc_round_trip() {
    let mut buf = vec![0u8; 4]; // FullBox v=0 f=0
    buf.extend_from_slice(&96u32.to_be_bytes()); // horizontal_offset
    buf.extend_from_slice(&128u32.to_be_bytes()); // vertical_offset
    let r = parse_rloc(&buf).unwrap();
    assert_eq!(r.horizontal_offset, 96);
    assert_eq!(r.vertical_offset, 128);
}

/// `rloc` rejects unrecognised versions.
#[test]
fn rloc_rejects_nonzero_version() {
    let mut buf = vec![1u8, 0, 0, 0]; // FullBox v=1
    buf.extend_from_slice(&0u32.to_be_bytes());
    buf.extend_from_slice(&0u32.to_be_bytes());
    assert!(parse_rloc(&buf).is_err());
}

/// `rloc` rejects truncated payload.
#[test]
fn rloc_rejects_truncated() {
    let buf = vec![0u8; 4 + 4]; // missing vertical_offset
    assert!(parse_rloc(&buf).is_err());
}

/// `lsel` round-trip: ItemProperty (NO FullBox) carrying a single
/// u16 layer_id.
#[test]
fn lsel_round_trip() {
    let buf = 3u16.to_be_bytes();
    let l = parse_lsel(&buf).unwrap();
    assert_eq!(l.layer_id, 3);
}

/// `lsel` rejects truncated payload.
#[test]
fn lsel_rejects_truncated() {
    let buf = vec![0u8; 1];
    assert!(parse_lsel(&buf).is_err());
}

/// `rloc` plus `lsel` parse through the property-store dispatch so
/// associations land on items end-to-end. Build a minimal ipco
/// containing both boxes.
#[test]
fn ipco_dispatches_rloc_and_lsel() {
    // rloc body: FullBox(v=0,f=0) + horiz=10 + vert=20
    let rloc_body = {
        let mut b = vec![0u8; 4];
        b.extend_from_slice(&10u32.to_be_bytes());
        b.extend_from_slice(&20u32.to_be_bytes());
        b
    };
    // lsel body: ItemProperty + layer_id=5
    let lsel_body = 5u16.to_be_bytes().to_vec();
    // Build an ipco containing both child boxes.
    let mut ipco = Vec::new();
    let rloc_size = 8 + rloc_body.len() as u32;
    ipco.extend_from_slice(&rloc_size.to_be_bytes());
    ipco.extend_from_slice(b"rloc");
    ipco.extend_from_slice(&rloc_body);
    let lsel_size = 8 + lsel_body.len() as u32;
    ipco.extend_from_slice(&lsel_size.to_be_bytes());
    ipco.extend_from_slice(b"lsel");
    ipco.extend_from_slice(&lsel_body);
    let props = parse_ipco(&ipco).unwrap();
    assert_eq!(props.len(), 2);
    match &props[0] {
        Property::Rloc(r) => {
            assert_eq!(r.horizontal_offset, 10);
            assert_eq!(r.vertical_offset, 20);
        }
        other => panic!("expected Rloc, got {other:?}"),
    }
    match &props[1] {
        Property::Lsel(l) => assert_eq!(l.layer_id, 5),
        other => panic!("expected Lsel, got {other:?}"),
    }
}

/// `a1op` is a single u8 op_index in a bare ItemProperty.
#[test]
fn a1op_reads_op_index() {
    let a = parse_a1op(&[7]).unwrap();
    assert_eq!(a.op_index, 7);
    // Empty body is malformed.
    assert!(parse_a1op(&[]).is_err());
}

/// `a1lx` with large_size = 0 → three 16-bit layer sizes.
#[test]
fn a1lx_16bit_field_width() {
    // byte0: reserved(7)=0, large_size(1)=0
    let mut buf = vec![0x00u8];
    buf.extend_from_slice(&100u16.to_be_bytes());
    buf.extend_from_slice(&200u16.to_be_bytes());
    buf.extend_from_slice(&0u16.to_be_bytes());
    let a = parse_a1lx(&buf).unwrap();
    assert!(!a.large_size);
    assert_eq!(a.layer_size, [100, 200, 0]);
    // Two leading non-zero sizes → image has three layers.
    assert_eq!(a.documented_layers(), 2);
}

/// `a1lx` with large_size = 1 → three 32-bit layer sizes. The
/// reserved upper 7 bits of byte 0 must be ignored on read.
#[test]
fn a1lx_32bit_field_width_ignores_reserved() {
    // byte0: reserved bits all 1, large_size(1)=1 → 0xFF
    let mut buf = vec![0xFFu8];
    buf.extend_from_slice(&70_000u32.to_be_bytes());
    buf.extend_from_slice(&0u32.to_be_bytes());
    buf.extend_from_slice(&0u32.to_be_bytes());
    let a = parse_a1lx(&buf).unwrap();
    assert!(a.large_size);
    assert_eq!(a.layer_size, [70_000, 0, 0]);
    assert_eq!(a.documented_layers(), 1);
    // Truncated 32-bit body is rejected.
    let short = vec![0x01u8, 0, 0, 0, 0];
    assert!(parse_a1lx(&short).is_err());
}

/// `ipco` dispatch routes the two AV1-specific properties to their
/// typed variants rather than `Property::Other`.
#[test]
fn ipco_dispatches_a1op_and_a1lx() {
    let a1op_body = vec![3u8]; // op_index = 3
    let a1lx_body = {
        let mut b = vec![0x00u8]; // large_size = 0
        b.extend_from_slice(&5u16.to_be_bytes());
        b.extend_from_slice(&0u16.to_be_bytes());
        b.extend_from_slice(&0u16.to_be_bytes());
        b
    };
    let mut ipco = Vec::new();
    let s = 8 + a1op_body.len() as u32;
    ipco.extend_from_slice(&s.to_be_bytes());
    ipco.extend_from_slice(b"a1op");
    ipco.extend_from_slice(&a1op_body);
    let s = 8 + a1lx_body.len() as u32;
    ipco.extend_from_slice(&s.to_be_bytes());
    ipco.extend_from_slice(b"a1lx");
    ipco.extend_from_slice(&a1lx_body);
    let props = parse_ipco(&ipco).unwrap();
    assert_eq!(props.len(), 2);
    match &props[0] {
        Property::A1op(a) => assert_eq!(a.op_index, 3),
        other => panic!("expected A1op, got {other:?}"),
    }
    match &props[1] {
        Property::A1lx(a) => {
            assert!(!a.large_size);
            assert_eq!(a.layer_size, [5, 0, 0]);
        }
        other => panic!("expected A1lx, got {other:?}"),
    }
}

#[test]
fn unsupported_essential_property_detected() {
    let m = Meta {
        properties: vec![
            // index 0: a known property (irot) — recognised.
            Property::Irot(Irot { angle: 1 }),
            // index 1: an unknown property carried as Other.
            Property::Other(*b"zzzz", vec![0, 1, 2]),
        ],
        associations: vec![ItemPropertyAssociation {
            item_id: 1,
            entries: vec![
                // irot marked essential — recognised, so OK.
                PropertyAssociation {
                    index: 0,
                    essential: true,
                },
                // unknown 'zzzz' marked essential — must block.
                PropertyAssociation {
                    index: 1,
                    essential: true,
                },
            ],
        }],
        ..Meta::default()
    };
    assert!(m.has_unsupported_essential_property(1));
    assert_eq!(m.unsupported_essential_properties(1), vec![*b"zzzz"]);
    // An item with no associations is trivially processable.
    assert!(!m.has_unsupported_essential_property(99));
}

#[test]
fn non_essential_unknown_property_does_not_block() {
    let m = Meta {
        properties: vec![Property::Other(*b"zzzz", vec![0])],
        associations: vec![ItemPropertyAssociation {
            item_id: 1,
            entries: vec![PropertyAssociation {
                index: 0,
                essential: false,
            }],
        }],
        ..Meta::default()
    };
    assert!(!m.has_unsupported_essential_property(1));
    assert!(m.unsupported_essential_properties(1).is_empty());
}

#[test]
fn essential_property_with_dangling_index_blocks() {
    let m = Meta {
        properties: vec![],
        associations: vec![ItemPropertyAssociation {
            item_id: 1,
            entries: vec![PropertyAssociation {
                index: 5,
                essential: true,
            }],
        }],
        ..Meta::default()
    };
    assert!(m.has_unsupported_essential_property(1));
}


fn iscl_body(wn: u16, wd: u16, hn: u16, hd: u16) -> Vec<u8> {
    // FullBox(v=0, f=0) + four u16 fields.
    let mut buf = vec![0u8; 4];
    buf.extend_from_slice(&wn.to_be_bytes());
    buf.extend_from_slice(&wd.to_be_bytes());
    buf.extend_from_slice(&hn.to_be_bytes());
    buf.extend_from_slice(&hd.to_be_bytes());
    buf
}

#[test]
fn iscl_round_trip_reads_all_four_fields() {
    let buf = iscl_body(3, 2, 5, 4);
    let s = parse_iscl(&buf).unwrap();
    assert_eq!(s.target_width_numerator, 3);
    assert_eq!(s.target_width_denominator, 2);
    assert_eq!(s.target_height_numerator, 5);
    assert_eq!(s.target_height_denominator, 4);
    assert!(s.is_well_formed());
}

#[test]
fn iscl_rejects_truncated_body() {
    // FullBox header present but only 7 of the 8 body bytes.
    let mut buf = vec![0u8; 4];
    buf.extend_from_slice(&[0, 1, 0, 1, 0, 1, 0]);
    assert!(parse_iscl(&buf).is_err());
}

#[test]
fn iscl_rejects_unknown_version() {
    let mut buf = vec![1u8, 0, 0, 0]; // version=1, flags=0
    buf.extend_from_slice(&iscl_body(1, 1, 1, 1)[4..]);
    assert!(parse_iscl(&buf).is_err());
}

#[test]
fn iscl_is_well_formed_rejects_zero_field() {
    // Parser surfaces the bytes; the semantic check sits on the type.
    let s = parse_iscl(&iscl_body(0, 2, 5, 4)).unwrap();
    assert!(!s.is_well_formed());
    let s = parse_iscl(&iscl_body(3, 0, 5, 4)).unwrap();
    assert!(!s.is_well_formed());
    let s = parse_iscl(&iscl_body(3, 2, 0, 4)).unwrap();
    assert!(!s.is_well_formed());
    let s = parse_iscl(&iscl_body(3, 2, 5, 0)).unwrap();
    assert!(!s.is_well_formed());
}

#[test]
fn iscl_scaled_dims_applies_ceil_division() {
    // 100 × 3 / 2 = 150 (exact)
    // 100 × 5 / 4 = 125 (exact)
    let s = parse_iscl(&iscl_body(3, 2, 5, 4)).unwrap();
    assert_eq!(s.scaled_dims(100, 100), Some((150, 125)));

    // ceil((100 * 1) / 3) = ceil(33.33...) = 34
    // ceil((100 * 1) / 7) = ceil(14.28...) = 15
    let s = parse_iscl(&iscl_body(1, 3, 1, 7)).unwrap();
    assert_eq!(s.scaled_dims(100, 100), Some((34, 15)));

    // 1:1 → identity
    let s = parse_iscl(&iscl_body(1, 1, 1, 1)).unwrap();
    assert_eq!(s.scaled_dims(640, 480), Some((640, 480)));
}

#[test]
fn iscl_scaled_dims_short_circuits_zero_denominator() {
    // Parser allows zero; the helper guards.
    let s = parse_iscl(&iscl_body(1, 0, 1, 1)).unwrap();
    assert_eq!(s.scaled_dims(100, 100), None);
    let s = parse_iscl(&iscl_body(1, 1, 1, 0)).unwrap();
    assert_eq!(s.scaled_dims(100, 100), None);
}

#[test]
fn iscl_scaled_dims_saturates_on_u32_overflow() {
    // Numerator = max u16, denominator = 1, input = max u32 → product
    // overflows u32 but is well within u64; the saturating cast on
    // the back end keeps the helper total.
    let s = parse_iscl(&iscl_body(u16::MAX, 1, u16::MAX, 1)).unwrap();
    let dims = s.scaled_dims(u32::MAX, u32::MAX).unwrap();
    assert_eq!(dims, (u32::MAX, u32::MAX));
}

#[test]
fn iscl_dispatched_through_parse_ipco() {
    // Wrap an iscl property in a single-property ipco container and
    // confirm the dispatch produces `Property::Iscl`.
    let body = iscl_body(7, 5, 11, 3);
    let mut ipco = Vec::new();
    let s = 8 + body.len() as u32;
    ipco.extend_from_slice(&s.to_be_bytes());
    ipco.extend_from_slice(b"iscl");
    ipco.extend_from_slice(&body);
    let props = parse_ipco(&ipco).unwrap();
    assert_eq!(props.len(), 1);
    match &props[0] {
        Property::Iscl(s) => {
            assert_eq!(s.target_width_numerator, 7);
            assert_eq!(s.target_height_denominator, 3);
        }
        other => panic!("expected Iscl, got {other:?}"),
    }
    assert_eq!(props[0].kind(), *b"iscl");
}


fn rref_body(types: &[&[u8; 4]]) -> Vec<u8> {
    // FullBox(v=0, f=0) + u8 count + N u32 four-CCs.
    let mut buf = vec![0u8; 4];
    buf.push(types.len() as u8);
    for t in types {
        buf.extend_from_slice(&t[..]);
    }
    buf
}

#[test]
fn rref_round_trip_reads_typed_four_ccs() {
    let buf = rref_body(&[b"dimg", b"auxl", b"thmb"]);
    let r = parse_rref(&buf).unwrap();
    assert_eq!(r.count(), 3);
    assert_eq!(r.reference_types[0], *b"dimg");
    assert_eq!(r.reference_types[1], *b"auxl");
    assert_eq!(r.reference_types[2], *b"thmb");
    assert!(r.requires_type(&*b"dimg"));
    assert!(r.requires_type(&*b"thmb"));
    assert!(!r.requires_type(&*b"pred"));
}

#[test]
fn rref_empty_list_parses() {
    let buf = rref_body(&[]);
    let r = parse_rref(&buf).unwrap();
    assert_eq!(r.count(), 0);
    assert!(!r.requires_type(&*b"dimg"));
}

#[test]
fn rref_rejects_truncated_table() {
    // Declares 2 types but only ships one full four-CC + 2 bytes.
    let mut buf = vec![0u8; 4];
    buf.push(2);
    buf.extend_from_slice(b"dimg");
    buf.extend_from_slice(&[0x00, 0x00]); // 2 of the 4 bytes of the next type
    assert!(parse_rref(&buf).is_err());
}

#[test]
fn rref_rejects_unknown_version() {
    let mut buf = vec![1u8, 0, 0, 0]; // version=1, flags=0
    buf.push(0);
    assert!(parse_rref(&buf).is_err());
}

#[test]
fn rref_rejects_missing_count() {
    // FullBox header only — no `reference_type_count` byte.
    let buf = vec![0u8; 4];
    assert!(parse_rref(&buf).is_err());
}

#[test]
fn rref_dispatched_through_parse_ipco() {
    // Wrap an rref property in a single-property ipco container.
    let body = rref_body(&[b"dimg"]);
    let mut ipco = Vec::new();
    let s = 8 + body.len() as u32;
    ipco.extend_from_slice(&s.to_be_bytes());
    ipco.extend_from_slice(b"rref");
    ipco.extend_from_slice(&body);
    let props = parse_ipco(&ipco).unwrap();
    assert_eq!(props.len(), 1);
    match &props[0] {
        Property::Rref(r) => {
            assert_eq!(r.count(), 1);
            assert_eq!(r.reference_types[0], *b"dimg");
        }
        other => panic!("expected Rref, got {other:?}"),
    }
    assert_eq!(props[0].kind(), *b"rref");
}

#[test]
fn iscl_and_rref_essential_associations_are_recognised() {
    let m = Meta {
        properties: vec![
            Property::Iscl(Iscl {
                target_width_numerator: 1,
                target_width_denominator: 1,
                target_height_numerator: 1,
                target_height_denominator: 1,
            }),
            Property::Rref(Rref {
                reference_types: vec![*b"dimg"],
            }),
        ],
        associations: vec![ItemPropertyAssociation {
            item_id: 1,
            entries: vec![
                PropertyAssociation {
                    index: 0,
                    essential: true,
                },
                PropertyAssociation {
                    index: 1,
                    essential: true,
                },
            ],
        }],
        ..Meta::default()
    };
    assert!(!m.has_unsupported_essential_property(1));
    assert!(m.unsupported_essential_properties(1).is_empty());
}


fn crtt_body(creation_time: u64) -> Vec<u8> {
    // FullBox(v=0, f=0) + one u64.
    let mut buf = vec![0u8; 4];
    buf.extend_from_slice(&creation_time.to_be_bytes());
    buf
}

#[test]
fn crtt_round_trip_reads_creation_time() {
    // Pick a recognisable big-endian pattern so a byte swap in the
    // reader would surface immediately.
    let raw = 0x0102_0304_0506_0708u64;
    let c = parse_crtt(&crtt_body(raw)).unwrap();
    assert_eq!(c.creation_time, raw);
}

#[test]
fn crtt_rejects_truncated_body() {
    // FullBox header present but only 7 of the 8 body bytes follow.
    let mut buf = vec![0u8; 4];
    buf.extend_from_slice(&[0, 0, 0, 0, 0, 0, 0]);
    assert!(parse_crtt(&buf).is_err());
}

#[test]
fn crtt_rejects_unknown_version() {
    // version=1, flags=0; body bytes are otherwise well-formed.
    let mut buf = vec![1u8, 0, 0, 0];
    buf.extend_from_slice(&0u64.to_be_bytes());
    assert!(parse_crtt(&buf).is_err());
}

#[test]
fn crtt_rejects_missing_payload() {
    // FullBox header only — the u64 timestamp is absent entirely.
    let buf = vec![0u8; 4];
    assert!(parse_crtt(&buf).is_err());
}

#[test]
fn crtt_dispatched_through_parse_ipco() {
    // Wrap a `crtt` property in a single-property `ipco` container
    // and confirm the dispatch produces `Property::Crtt`.
    let body = crtt_body(0xDEAD_BEEF_CAFE_F00Du64);
    let mut ipco = Vec::new();
    let s = 8 + body.len() as u32;
    ipco.extend_from_slice(&s.to_be_bytes());
    ipco.extend_from_slice(b"crtt");
    ipco.extend_from_slice(&body);
    let props = parse_ipco(&ipco).unwrap();
    assert_eq!(props.len(), 1);
    match &props[0] {
        Property::Crtt(c) => assert_eq!(c.creation_time, 0xDEAD_BEEF_CAFE_F00Du64),
        other => panic!("expected Crtt, got {other:?}"),
    }
    assert_eq!(props[0].kind(), *b"crtt");
}

#[test]
fn crtt_seconds_since_unix_epoch_matches_documented_offset() {
    // `creation_time == 0` is exactly the 1904-01-01 UTC epoch —
    // precedes the Unix epoch, so the helper underflows to None.
    let c = Crtt { creation_time: 0 };
    assert_eq!(c.seconds_since_unix_epoch(), None);

    // Exactly the Unix epoch — 1970-01-01 00:00:00 UTC — sits
    // HEIF_EPOCH_TO_UNIX_EPOCH_SECONDS seconds after the HEIF
    // epoch, so it maps to 0 Unix seconds. Express in microseconds.
    let c = Crtt {
        creation_time: HEIF_EPOCH_TO_UNIX_EPOCH_SECONDS * 1_000_000,
    };
    assert_eq!(c.seconds_since_unix_epoch(), Some(0));

    // 1970-01-01 00:00:01 UTC → 1 Unix second.
    let c = Crtt {
        creation_time: (HEIF_EPOCH_TO_UNIX_EPOCH_SECONDS + 1) * 1_000_000,
    };
    assert_eq!(c.seconds_since_unix_epoch(), Some(1));
}

#[test]
fn crtt_subsecond_micros_isolates_remainder() {
    // 1.5 seconds past the Unix epoch in 1904-epoch microseconds.
    let secs = HEIF_EPOCH_TO_UNIX_EPOCH_SECONDS;
    let c = Crtt {
        creation_time: secs * 1_000_000 + 500_000,
    };
    assert_eq!(c.seconds_since_unix_epoch(), Some(0));
    assert_eq!(c.subsecond_micros(), 500_000);

    // No sub-second component → returns 0.
    let c = Crtt {
        creation_time: secs * 1_000_000,
    };
    assert_eq!(c.subsecond_micros(), 0);

    // Highest legal sub-second value (999_999 µs).
    let c = Crtt {
        creation_time: secs * 1_000_000 + 999_999,
    };
    assert_eq!(c.subsecond_micros(), 999_999);
}

#[test]
fn crtt_essential_association_is_recognised() {
    let m = Meta {
        properties: vec![Property::Crtt(Crtt { creation_time: 0 })],
        associations: vec![ItemPropertyAssociation {
            item_id: 1,
            entries: vec![PropertyAssociation {
                index: 0,
                essential: true,
            }],
        }],
        ..Meta::default()
    };
    assert!(!m.has_unsupported_essential_property(1));
    assert!(m.unsupported_essential_properties(1).is_empty());
}


fn mdft_body(modification_time: u64) -> Vec<u8> {
    // FullBox(v=0, f=0) + one u64.
    let mut buf = vec![0u8; 4];
    buf.extend_from_slice(&modification_time.to_be_bytes());
    buf
}

#[test]
fn mdft_round_trip_reads_modification_time() {
    // Distinct big-endian pattern (avoid the crtt sentinel) so a
    // byte swap or a field cross-wire would surface immediately.
    let raw = 0x1122_3344_5566_7788u64;
    let m = parse_mdft(&mdft_body(raw)).unwrap();
    assert_eq!(m.modification_time, raw);
}

#[test]
fn mdft_rejects_truncated_body() {
    // FullBox header present but only 7 of the 8 body bytes follow.
    let mut buf = vec![0u8; 4];
    buf.extend_from_slice(&[0, 0, 0, 0, 0, 0, 0]);
    assert!(parse_mdft(&buf).is_err());
}

#[test]
fn mdft_rejects_unknown_version() {
    // version=1, flags=0; body bytes are otherwise well-formed.
    let mut buf = vec![1u8, 0, 0, 0];
    buf.extend_from_slice(&0u64.to_be_bytes());
    assert!(parse_mdft(&buf).is_err());
}

#[test]
fn mdft_rejects_missing_payload() {
    // FullBox header only — the u64 timestamp is absent entirely.
    let buf = vec![0u8; 4];
    assert!(parse_mdft(&buf).is_err());
}

#[test]
fn mdft_dispatched_through_parse_ipco() {
    // Wrap an `mdft` property in a single-property `ipco` container
    // and confirm the dispatch produces `Property::Mdft`.
    let body = mdft_body(0xFEED_FACE_DEAD_BEEFu64);
    let mut ipco = Vec::new();
    let s = 8 + body.len() as u32;
    ipco.extend_from_slice(&s.to_be_bytes());
    ipco.extend_from_slice(b"mdft");
    ipco.extend_from_slice(&body);
    let props = parse_ipco(&ipco).unwrap();
    assert_eq!(props.len(), 1);
    match &props[0] {
        Property::Mdft(m) => assert_eq!(m.modification_time, 0xFEED_FACE_DEAD_BEEFu64),
        other => panic!("expected Mdft, got {other:?}"),
    }
    assert_eq!(props[0].kind(), *b"mdft");
}

#[test]
fn mdft_seconds_since_unix_epoch_matches_documented_offset() {
    // `modification_time == 0` is exactly the 1904-01-01 UTC epoch —
    // precedes the Unix epoch, so the helper underflows to None.
    let m = Mdft {
        modification_time: 0,
    };
    assert_eq!(m.seconds_since_unix_epoch(), None);

    // Exactly the Unix epoch — 1970-01-01 00:00:00 UTC — sits
    // HEIF_EPOCH_TO_UNIX_EPOCH_SECONDS seconds after the HEIF
    // epoch, so it maps to 0 Unix seconds. Express in microseconds.
    let m = Mdft {
        modification_time: HEIF_EPOCH_TO_UNIX_EPOCH_SECONDS * 1_000_000,
    };
    assert_eq!(m.seconds_since_unix_epoch(), Some(0));

    // 1970-01-01 00:00:01 UTC → 1 Unix second.
    let m = Mdft {
        modification_time: (HEIF_EPOCH_TO_UNIX_EPOCH_SECONDS + 1) * 1_000_000,
    };
    assert_eq!(m.seconds_since_unix_epoch(), Some(1));
}

#[test]
fn mdft_subsecond_micros_isolates_remainder() {
    // 0.5 seconds past the Unix epoch in 1904-epoch microseconds.
    let secs = HEIF_EPOCH_TO_UNIX_EPOCH_SECONDS;
    let m = Mdft {
        modification_time: secs * 1_000_000 + 500_000,
    };
    assert_eq!(m.seconds_since_unix_epoch(), Some(0));
    assert_eq!(m.subsecond_micros(), 500_000);

    // No sub-second component → returns 0.
    let m = Mdft {
        modification_time: secs * 1_000_000,
    };
    assert_eq!(m.subsecond_micros(), 0);

    // Highest legal sub-second value (999_999 µs).
    let m = Mdft {
        modification_time: secs * 1_000_000 + 999_999,
    };
    assert_eq!(m.subsecond_micros(), 999_999);
}

#[test]
fn mdft_essential_association_is_recognised() {
    let m = Meta {
        properties: vec![Property::Mdft(Mdft {
            modification_time: 0,
        })],
        associations: vec![ItemPropertyAssociation {
            item_id: 1,
            entries: vec![PropertyAssociation {
                index: 0,
                essential: true,
            }],
        }],
        ..Meta::default()
    };
    assert!(!m.has_unsupported_essential_property(1));
    assert!(m.unsupported_essential_properties(1).is_empty());
}

/// `mdft` + `crtt` may legally co-occur on the same item; the
/// dispatch returns both properties in insertion order, each
/// associable by its index, with `property_for` resolving each
/// kind independently.
#[test]
fn mdft_and_crtt_coexist_on_same_item() {
    let crtt_raw = 0x0102_0304_0506_0708u64;
    let mdft_raw = 0xAABB_CCDD_EEFF_0011u64;
    let crtt_b = crtt_body(crtt_raw);
    let mdft_b = mdft_body(mdft_raw);
    let mut ipco = Vec::new();
    // crtt entry
    let s1 = 8 + crtt_b.len() as u32;
    ipco.extend_from_slice(&s1.to_be_bytes());
    ipco.extend_from_slice(b"crtt");
    ipco.extend_from_slice(&crtt_b);
    // mdft entry
    let s2 = 8 + mdft_b.len() as u32;
    ipco.extend_from_slice(&s2.to_be_bytes());
    ipco.extend_from_slice(b"mdft");
    ipco.extend_from_slice(&mdft_b);

    let props = parse_ipco(&ipco).unwrap();
    assert_eq!(props.len(), 2);
    let m = Meta {
        properties: props,
        associations: vec![ItemPropertyAssociation {
            item_id: 7,
            entries: vec![
                PropertyAssociation {
                    index: 0,
                    essential: false,
                },
                PropertyAssociation {
                    index: 1,
                    essential: false,
                },
            ],
        }],
        ..Meta::default()
    };
    match m.property_for(7, &CRTT) {
        Some(Property::Crtt(c)) => assert_eq!(c.creation_time, crtt_raw),
        other => panic!("expected Crtt, got {other:?}"),
    }
    match m.property_for(7, &MDFT) {
        Some(Property::Mdft(d)) => assert_eq!(d.modification_time, mdft_raw),
        other => panic!("expected Mdft, got {other:?}"),
    }
}


fn udes_body(lang: &str, name: &str, description: &str, tags: &str) -> Vec<u8> {
    let mut buf = vec![0u8; 4];
    for s in [lang, name, description, tags] {
        buf.extend_from_slice(s.as_bytes());
        buf.push(0);
    }
    buf
}

#[test]
fn udes_round_trip_reads_all_four_fields() {
    // Distinct values per field so a cross-wire between lang /
    // name / description / tags would surface immediately.
    let u = parse_udes(&udes_body(
        "en-US",
        "Front porch",
        "Photo of the cabin's front porch at dusk",
        "outdoor,porch,dusk",
    ))
    .unwrap();
    assert_eq!(u.lang, "en-US");
    assert_eq!(u.name, "Front porch");
    assert_eq!(u.description, "Photo of the cabin's front porch at dusk");
    assert_eq!(u.tags, "outdoor,porch,dusk");
}

#[test]
fn udes_empty_strings_are_preserved_and_projectable_to_none() {
    let u = parse_udes(&udes_body("", "", "", "")).unwrap();
    assert_eq!(u.lang, "");
    assert_eq!(u.name, "");
    assert_eq!(u.description, "");
    assert_eq!(u.tags, "");
    assert_eq!(u.lang_opt(), None);
    assert_eq!(u.name_opt(), None);
    assert_eq!(u.description_opt(), None);
    assert_eq!(u.tags_opt(), None);
    assert!(u.tag_list().is_empty());
}

#[test]
fn udes_opt_helpers_round_trip_non_empty() {
    let u = parse_udes(&udes_body("fr-FR", "Mer", "Vue de la mer", "mer,été")).unwrap();
    assert_eq!(u.lang_opt(), Some("fr-FR"));
    assert_eq!(u.name_opt(), Some("Mer"));
    assert_eq!(u.description_opt(), Some("Vue de la mer"));
    assert_eq!(u.tags_opt(), Some("mer,été"));
}

/// `tag_list` splits on `','`, trims whitespace per segment, and
/// drops empty / whitespace-only segments. The raw `tags` field
/// is preserved verbatim — `tag_list` is a derived view.
#[test]
fn udes_tag_list_splits_and_trims() {
    let u = parse_udes(&udes_body(
        "en",
        "n",
        "d",
        "outdoor, sunset ,, beach,,, mountain",
    ))
    .unwrap();
    assert_eq!(u.tag_list(), vec!["outdoor", "sunset", "beach", "mountain"]);
    // raw field is untouched.
    assert_eq!(u.tags, "outdoor, sunset ,, beach,,, mountain");
}

/// UTF-8 multi-byte payloads (CJK + accented Latin) survive the
/// parser intact — the underlying cstring reader uses
/// `from_utf8_lossy`, so the round-trip is byte-equal for any
/// already-valid UTF-8 input.
#[test]
fn udes_preserves_utf8_multibyte() {
    let u = parse_udes(&udes_body(
        "zh-CN",
        "海岸",
        "夕暮れの海岸",
        "海, 夕暮れ, 風景",
    ))
    .unwrap();
    assert_eq!(u.lang, "zh-CN");
    assert_eq!(u.name, "海岸");
    assert_eq!(u.description, "夕暮れの海岸");
    assert_eq!(u.tag_list(), vec!["海", "夕暮れ", "風景"]);
}

#[test]
fn udes_rejects_unknown_version() {
    // version=1, flags=0; four empty strings would otherwise be
    // a well-formed v0 body.
    let mut buf = vec![1u8, 0, 0, 0];
    buf.extend_from_slice(&[0, 0, 0, 0]);
    assert!(parse_udes(&buf).is_err());
}

/// A body that runs out before the fourth nul is written must be
/// rejected — the `read_cstr` helper bails on an unterminated
/// string, which is exactly what we want here so a truncated
/// `udes` cannot be partially read.
#[test]
fn udes_rejects_truncated_body() {
    // FullBox header + three empty strings + start of the fourth
    // without a terminator.
    let mut buf = vec![0u8; 4];
    // lang = ""
    buf.push(0);
    // name = ""
    buf.push(0);
    // description = ""
    buf.push(0);
    // tags = "abc" with no trailing nul.
    buf.extend_from_slice(b"abc");
    assert!(parse_udes(&buf).is_err());
}

#[test]
fn udes_tolerates_trailing_bytes() {
    let mut body = udes_body("en", "n", "d", "t");
    body.extend_from_slice(&[0xAA, 0xBB, 0xCC]);
    let u = parse_udes(&body).unwrap();
    assert_eq!(u.lang, "en");
    assert_eq!(u.tags, "t");
}

#[test]
fn udes_dispatched_through_parse_ipco() {
    let body = udes_body("en-US", "Cabin", "Front porch", "outdoor,porch");
    let mut ipco = Vec::new();
    let s = 8 + body.len() as u32;
    ipco.extend_from_slice(&s.to_be_bytes());
    ipco.extend_from_slice(b"udes");
    ipco.extend_from_slice(&body);
    let props = parse_ipco(&ipco).unwrap();
    assert_eq!(props.len(), 1);
    match &props[0] {
        Property::Udes(u) => {
            assert_eq!(u.lang, "en-US");
            assert_eq!(u.name, "Cabin");
            assert_eq!(u.description, "Front porch");
            assert_eq!(u.tags, "outdoor,porch");
        }
        other => panic!("expected Udes, got {other:?}"),
    }
    assert_eq!(props[0].kind(), *b"udes");
}

#[test]
fn udes_essential_association_is_recognised() {
    let m = Meta {
        properties: vec![Property::Udes(Udes::default())],
        associations: vec![ItemPropertyAssociation {
            item_id: 1,
            entries: vec![PropertyAssociation {
                index: 0,
                essential: true,
            }],
        }],
        ..Meta::default()
    };
    assert!(!m.has_unsupported_essential_property(1));
    assert!(m.unsupported_essential_properties(1).is_empty());
}

#[test]
fn udes_multiple_languages_coexist_on_same_item() {
    let en = udes_body("en-US", "Beach", "Sunset over the bay", "beach,sunset");
    let fr = udes_body(
        "fr-FR",
        "Plage",
        "Coucher de soleil sur la baie",
        "plage,coucher",
    );
    let mut ipco = Vec::new();
    let se = 8 + en.len() as u32;
    ipco.extend_from_slice(&se.to_be_bytes());
    ipco.extend_from_slice(b"udes");
    ipco.extend_from_slice(&en);
    let sf = 8 + fr.len() as u32;
    ipco.extend_from_slice(&sf.to_be_bytes());
    ipco.extend_from_slice(b"udes");
    ipco.extend_from_slice(&fr);

    let props = parse_ipco(&ipco).unwrap();
    assert_eq!(props.len(), 2);
    let langs: Vec<&str> = props
        .iter()
        .filter_map(|p| match p {
            Property::Udes(u) => Some(u.lang.as_str()),
            _ => None,
        })
        .collect();
    assert_eq!(langs, vec!["en-US", "fr-FR"]);
}


fn altt_body(alt_text: &str, alt_lang: &str) -> Vec<u8> {
    let mut buf = vec![0u8; 4];
    for s in [alt_text, alt_lang] {
        buf.extend_from_slice(s.as_bytes());
        buf.push(0);
    }
    buf
}

#[test]
fn altt_round_trip_reads_text_then_lang() {
    // Distinct values per field so a cross-wire between
    // alt_text and alt_lang would surface immediately.
    let a = parse_altt(&altt_body(
        "Photo of the cabin's front porch at dusk",
        "en-US",
    ))
    .unwrap();
    assert_eq!(a.alt_text, "Photo of the cabin's front porch at dusk");
    assert_eq!(a.alt_lang, "en-US");
}

#[test]
fn altt_empty_strings_are_preserved_and_projectable_to_none() {
    let a = parse_altt(&altt_body("", "")).unwrap();
    assert_eq!(a.alt_text, "");
    assert_eq!(a.alt_lang, "");
    assert_eq!(a.alt_text_opt(), None);
    assert_eq!(a.alt_lang_opt(), None);
}

#[test]
fn altt_opt_helpers_round_trip_non_empty() {
    let a = parse_altt(&altt_body("Vue de la mer", "fr-FR")).unwrap();
    assert_eq!(a.alt_text_opt(), Some("Vue de la mer"));
    assert_eq!(a.alt_lang_opt(), Some("fr-FR"));
}

/// UTF-8 multi-byte payloads (CJK + accented Latin) survive the
/// parser intact — `read_cstr` uses `from_utf8_lossy`, so the
/// round-trip is byte-equal for already-valid UTF-8 input.
#[test]
fn altt_preserves_utf8_multibyte() {
    let a = parse_altt(&altt_body("夕暮れの海岸", "zh-CN")).unwrap();
    assert_eq!(a.alt_text, "夕暮れの海岸");
    assert_eq!(a.alt_lang, "zh-CN");
}

#[test]
fn altt_rejects_unknown_version() {
    // version=1, flags=0; two empty strings would otherwise be a
    // well-formed v0 body.
    let mut buf = vec![1u8, 0, 0, 0];
    buf.extend_from_slice(&[0, 0]);
    assert!(parse_altt(&buf).is_err());
}

/// A body that runs out before the second nul is written must be
/// rejected — `read_cstr` bails on an unterminated string, which
/// is exactly the behaviour we want so a truncated `altt` cannot
/// be partially read.
#[test]
fn altt_rejects_truncated_body() {
    // FullBox header + one empty string + start of the second
    // without a terminator.
    let mut buf = vec![0u8; 4];
    // alt_text = ""
    buf.push(0);
    // alt_lang = "en" with no trailing nul.
    buf.extend_from_slice(b"en");
    assert!(parse_altt(&buf).is_err());
}

#[test]
fn altt_tolerates_trailing_bytes() {
    let mut body = altt_body("hi", "en");
    body.extend_from_slice(&[0xDE, 0xAD, 0xBE, 0xEF]);
    let a = parse_altt(&body).unwrap();
    assert_eq!(a.alt_text, "hi");
    assert_eq!(a.alt_lang, "en");
}

#[test]
fn altt_dispatched_through_parse_ipco() {
    let body = altt_body("Cabin at dusk", "en-US");
    let mut ipco = Vec::new();
    let s = 8 + body.len() as u32;
    ipco.extend_from_slice(&s.to_be_bytes());
    ipco.extend_from_slice(b"altt");
    ipco.extend_from_slice(&body);
    let props = parse_ipco(&ipco).unwrap();
    assert_eq!(props.len(), 1);
    match &props[0] {
        Property::Altt(a) => {
            assert_eq!(a.alt_text, "Cabin at dusk");
            assert_eq!(a.alt_lang, "en-US");
        }
        other => panic!("expected Altt, got {other:?}"),
    }
    assert_eq!(props[0].kind(), *b"altt");
}

#[test]
fn altt_essential_association_is_recognised() {
    let m = Meta {
        properties: vec![Property::Altt(Altt::default())],
        associations: vec![ItemPropertyAssociation {
            item_id: 1,
            entries: vec![PropertyAssociation {
                index: 0,
                essential: true,
            }],
        }],
        ..Meta::default()
    };
    assert!(!m.has_unsupported_essential_property(1));
    assert!(m.unsupported_essential_properties(1).is_empty());
}

#[test]
fn altt_multiple_languages_coexist_on_same_item() {
    let en = altt_body("Sunset over the bay", "en-US");
    let fr = altt_body("Coucher de soleil sur la baie", "fr-FR");
    let mut ipco = Vec::new();
    let se = 8 + en.len() as u32;
    ipco.extend_from_slice(&se.to_be_bytes());
    ipco.extend_from_slice(b"altt");
    ipco.extend_from_slice(&en);
    let sf = 8 + fr.len() as u32;
    ipco.extend_from_slice(&sf.to_be_bytes());
    ipco.extend_from_slice(b"altt");
    ipco.extend_from_slice(&fr);

    let props = parse_ipco(&ipco).unwrap();
    assert_eq!(props.len(), 2);
    let langs: Vec<&str> = props
        .iter()
        .filter_map(|p| match p {
            Property::Altt(a) => Some(a.alt_lang.as_str()),
            _ => None,
        })
        .collect();
    assert_eq!(langs, vec!["en-US", "fr-FR"]);
}

#[test]
fn altt_field_order_is_text_then_lang_not_reversed() {
    // The wire bytes are unambiguous about which string is
    // `alt_text` and which is `alt_lang`. If the parser swapped
    // the assignment, the assertions below would flip.
    let a = parse_altt(&altt_body("Sunset", "en-US")).unwrap();
    assert_eq!(a.alt_text, "Sunset");
    assert_eq!(a.alt_lang, "en-US");
    // And the inverse — if a writer accidentally put the
    // language first, the parser MUST surface that wire-level
    // mistake by carrying the language tag as `alt_text` and the
    // English description as `alt_lang`, rather than silently
    // re-ordering for the caller.
    let mis = parse_altt(&altt_body("en-US", "Sunset")).unwrap();
    assert_eq!(mis.alt_text, "en-US");
    assert_eq!(mis.alt_lang, "Sunset");
}


fn aebr_body(exposure_step: i8, exposure_numerator: i8) -> Vec<u8> {
    let mut buf = vec![0u8; 4];
    buf.push(exposure_step as u8);
    buf.push(exposure_numerator as u8);
    buf
}

#[test]
fn aebr_round_trip_reads_step_then_numerator() {
    // Distinct values per field so a cross-wire between
    // exposure_step and exposure_numerator would surface
    // immediately.
    let a = parse_aebr(&aebr_body(3, 5)).unwrap();
    assert_eq!(a.exposure_step, 3);
    assert_eq!(a.exposure_numerator, 5);
}

#[test]
fn aebr_defined_step_enumeration() {
    for s in [
        Aebr::STEP_FULL,
        Aebr::STEP_HALF,
        Aebr::STEP_THIRD,
        Aebr::STEP_QUARTER,
    ] {
        let a = parse_aebr(&aebr_body(s, 1)).unwrap();
        assert!(a.is_defined_step(), "step {s} should be defined");
    }
    for s in [-1, 0, 5, 7, i8::MIN, i8::MAX] {
        let a = parse_aebr(&aebr_body(s, 1)).unwrap();
        assert!(!a.is_defined_step(), "step {s} must NOT be defined");
    }
}

#[test]
fn aebr_exposure_stops_matches_spec_ratio() {
    // Full-stop: -2 numerator → -2.0 stops (two stops darker).
    let a = parse_aebr(&aebr_body(1, -2)).unwrap();
    assert_eq!(a.exposure_terms().map(quotient), Some(-2.0));
    // Half-stop: 3 numerator → +1.5 stops.
    let a = parse_aebr(&aebr_body(2, 3)).unwrap();
    assert_eq!(a.exposure_terms().map(quotient), Some(1.5));
    // Third-stop: 4 numerator → +4/3 stops.
    let a = parse_aebr(&aebr_body(3, 4)).unwrap();
    let v = a.exposure_terms().map(quotient).unwrap();
    assert!((v - 4.0 / 3.0).abs() < 1e-12, "got {v}");
    // Quarter-stop: -3 numerator → -0.75 stops.
    let a = parse_aebr(&aebr_body(4, -3)).unwrap();
    assert_eq!(a.exposure_terms().map(quotient), Some(-0.75));
    // Zero step (reserved): no float interpretation.
    let a = parse_aebr(&aebr_body(0, 7)).unwrap();
    assert_eq!(a.exposure_terms().map(quotient), None);
}

/// Both fields are signed: the parser must read a negative
/// `exposure_numerator` as the two's-complement `i8` value, not
/// as an unsigned byte. A writer that produces `-1` (0xFF) for
/// "one stop darker" must round-trip to `-1`, not `255`.
#[test]
fn aebr_signed_byte_reinterpretation() {
    let a = parse_aebr(&aebr_body(1, -1)).unwrap();
    assert_eq!(a.exposure_numerator, -1);
    assert_eq!(a.exposure_terms().map(quotient), Some(-1.0));

    let a = parse_aebr(&aebr_body(-1, 5)).unwrap();
    assert_eq!(a.exposure_step, -1);
    // Reserved-step value; the helper still computes a ratio so
    // the caller can route through `is_defined_step` to gate the
    // enumeration explicitly.
    assert!(!a.is_defined_step());
    assert_eq!(a.exposure_terms().map(quotient), Some(-5.0));

    let a = parse_aebr(&aebr_body(i8::MIN, i8::MAX)).unwrap();
    assert_eq!(a.exposure_step, i8::MIN);
    assert_eq!(a.exposure_numerator, i8::MAX);
}

#[test]
fn aebr_rejects_unknown_version() {
    // version=1, flags=0; two zero bytes would otherwise be a
    // well-formed v0 body.
    let mut buf = vec![1u8, 0, 0, 0];
    buf.extend_from_slice(&[0, 0]);
    assert!(parse_aebr(&buf).is_err());
}

/// A body shorter than the two-byte fixed tail must be rejected
/// so a truncated `aebr` cannot be partially read.
#[test]
fn aebr_rejects_truncated_body() {
    // FullBox header alone — no fields at all.
    let buf = vec![0u8; 4];
    assert!(parse_aebr(&buf).is_err());
    // FullBox header + one field only.
    let mut buf = vec![0u8; 4];
    buf.push(2);
    assert!(parse_aebr(&buf).is_err());
}

/// Trailing bytes past the two-byte tail are forward-compat
/// space — the parser ignores them, mirroring the behaviour of
/// every other FullBox-headed property parser in this module.
#[test]
fn aebr_tolerates_trailing_bytes() {
    let mut body = aebr_body(2, 1);
    body.extend_from_slice(&[0xDE, 0xAD, 0xBE, 0xEF]);
    let a = parse_aebr(&body).unwrap();
    assert_eq!(a.exposure_step, 2);
    assert_eq!(a.exposure_numerator, 1);
}

#[test]
fn aebr_dispatched_through_parse_ipco() {
    let body = aebr_body(3, -2);
    let mut ipco = Vec::new();
    let s = 8 + body.len() as u32;
    ipco.extend_from_slice(&s.to_be_bytes());
    ipco.extend_from_slice(b"aebr");
    ipco.extend_from_slice(&body);
    let props = parse_ipco(&ipco).unwrap();
    assert_eq!(props.len(), 1);
    match &props[0] {
        Property::Aebr(a) => {
            assert_eq!(a.exposure_step, 3);
            assert_eq!(a.exposure_numerator, -2);
        }
        other => panic!("expected Aebr, got {other:?}"),
    }
    assert_eq!(props[0].kind(), *b"aebr");
}

#[test]
fn aebr_essential_association_is_recognised() {
    let m = Meta {
        properties: vec![Property::Aebr(Aebr::default())],
        associations: vec![ItemPropertyAssociation {
            item_id: 1,
            entries: vec![PropertyAssociation {
                index: 0,
                essential: true,
            }],
        }],
        ..Meta::default()
    };
    assert!(!m.has_unsupported_essential_property(1));
    assert!(m.unsupported_essential_properties(1).is_empty());
}

#[test]
fn aebr_lookup_via_property_for() {
    let m = Meta {
        properties: vec![Property::Aebr(Aebr {
            exposure_step: 2,
            exposure_numerator: -1,
        })],
        associations: vec![ItemPropertyAssociation {
            item_id: 9,
            entries: vec![PropertyAssociation {
                index: 0,
                essential: false,
            }],
        }],
        ..Meta::default()
    };
    match m.property_for(9, b"aebr") {
        Some(Property::Aebr(a)) => {
            assert_eq!(a.exposure_step, 2);
            assert_eq!(a.exposure_numerator, -1);
            assert_eq!(a.exposure_terms().map(quotient), Some(-0.5));
        }
        other => panic!("expected Aebr, got {other:?}"),
    }
    // No `aebr` for an item that doesn't carry the association.
    assert!(m.property_for(99, b"aebr").is_none());
}


fn wbbr_body(blue_amber: u16, green_magenta: i8) -> Vec<u8> {
    let mut buf = vec![0u8; 4];
    buf.extend_from_slice(&blue_amber.to_be_bytes());
    buf.push(green_magenta as u8);
    buf
}

#[test]
fn wbbr_round_trip_reads_blue_amber_then_green_magenta() {
    // Distinct, asymmetric values per field so a cross-wire
    // between `blue_amber` and `green_magenta` would surface
    // immediately. 5600 K is a midday-daylight Kelvin value
    // wide enough to require both bytes of the 16-bit field.
    let w = parse_wbbr(&wbbr_body(5600, 7)).unwrap();
    assert_eq!(w.blue_amber, 5600);
    assert_eq!(w.green_magenta, 7);
}

#[test]
fn wbbr_blue_amber_is_big_endian() {
    let w = parse_wbbr(&wbbr_body(0x15B0, 0)).unwrap();
    assert_eq!(w.blue_amber, 0x15B0);
    // Endpoint coverage: u16::MAX exercises the high bit.
    let w = parse_wbbr(&wbbr_body(u16::MAX, 0)).unwrap();
    assert_eq!(w.blue_amber, u16::MAX);
    let w = parse_wbbr(&wbbr_body(0, 0)).unwrap();
    assert_eq!(w.blue_amber, 0);
}

#[test]
fn wbbr_signed_green_magenta_reinterpretation() {
    let w = parse_wbbr(&wbbr_body(5600, -1)).unwrap();
    assert_eq!(w.green_magenta, -1);
    // Endpoint coverage: i8 min/max round-trip.
    let w = parse_wbbr(&wbbr_body(5600, i8::MIN)).unwrap();
    assert_eq!(w.green_magenta, i8::MIN);
    let w = parse_wbbr(&wbbr_body(5600, i8::MAX)).unwrap();
    assert_eq!(w.green_magenta, i8::MAX);
}

#[test]
fn wbbr_green_magenta_duv_projection() {
    let w = parse_wbbr(&wbbr_body(5600, -50)).unwrap();
    assert_eq!(quotient(w.green_magenta_terms()), -0.5);
    let w = parse_wbbr(&wbbr_body(5600, 50)).unwrap();
    assert_eq!(quotient(w.green_magenta_terms()), 0.5);
    let w = parse_wbbr(&wbbr_body(5600, 0)).unwrap();
    assert_eq!(quotient(w.green_magenta_terms()), 0.0);
    // Endpoint: i8::MIN as 1/100 Duv is -1.28 Duv (well past
    // any realistic camera adjustment, so this exercises the
    // projection arithmetic at the wire-format extreme).
    let w = parse_wbbr(&wbbr_body(5600, i8::MIN)).unwrap();
    assert!((quotient(w.green_magenta_terms()) - (-1.28)).abs() < 1e-12);
}

#[test]
fn wbbr_green_magenta_neutral_predicate() {
    let w = parse_wbbr(&wbbr_body(5600, 0)).unwrap();
    assert!(w.is_green_magenta_neutral());
    // `blue_amber` is independent: a non-default colour
    // temperature with a zero deviation is still neutral on
    // the green/magenta axis.
    let w = parse_wbbr(&wbbr_body(2700, 0)).unwrap();
    assert!(w.is_green_magenta_neutral());
    let w = parse_wbbr(&wbbr_body(0, 0)).unwrap();
    assert!(w.is_green_magenta_neutral());
    // Any non-zero deviation flips off the predicate.
    for gm in [-1, 1, -50, 50, i8::MIN, i8::MAX] {
        let w = parse_wbbr(&wbbr_body(5600, gm)).unwrap();
        assert!(
            !w.is_green_magenta_neutral(),
            "green_magenta {gm} must NOT be neutral"
        );
    }
    assert_eq!(Wbbr::NEUTRAL_GREEN_MAGENTA, 0);
}

#[test]
fn wbbr_rejects_unknown_version() {
    // version=1, flags=0; three zero bytes would otherwise be
    // a well-formed v0 body.
    let mut buf = vec![1u8, 0, 0, 0];
    buf.extend_from_slice(&[0, 0, 0]);
    assert!(parse_wbbr(&buf).is_err());
}

/// A body shorter than the three-byte fixed tail must be
/// rejected so a truncated `wbbr` cannot be partially read.
#[test]
fn wbbr_rejects_truncated_body() {
    // FullBox header alone — no fields at all.
    let buf = vec![0u8; 4];
    assert!(parse_wbbr(&buf).is_err());
    // FullBox header + `blue_amber` only (missing
    // `green_magenta`).
    let mut buf = vec![0u8; 4];
    buf.extend_from_slice(&[0x15, 0xB0]);
    assert!(parse_wbbr(&buf).is_err());
    // FullBox header + one byte of `blue_amber` only
    // (missing the second byte plus `green_magenta`).
    let mut buf = vec![0u8; 4];
    buf.push(0x15);
    assert!(parse_wbbr(&buf).is_err());
}

/// Trailing bytes past the three-byte tail are forward-compat
/// space — the parser ignores them, mirroring the behaviour of
/// every other FullBox-headed property parser in this module.
#[test]
fn wbbr_tolerates_trailing_bytes() {
    let mut body = wbbr_body(5600, -3);
    body.extend_from_slice(&[0xDE, 0xAD, 0xBE, 0xEF]);
    let w = parse_wbbr(&body).unwrap();
    assert_eq!(w.blue_amber, 5600);
    assert_eq!(w.green_magenta, -3);
}

#[test]
fn wbbr_dispatched_through_parse_ipco() {
    let body = wbbr_body(6500, -7);
    let mut ipco = Vec::new();
    let s = 8 + body.len() as u32;
    ipco.extend_from_slice(&s.to_be_bytes());
    ipco.extend_from_slice(b"wbbr");
    ipco.extend_from_slice(&body);
    let props = parse_ipco(&ipco).unwrap();
    assert_eq!(props.len(), 1);
    match &props[0] {
        Property::Wbbr(w) => {
            assert_eq!(w.blue_amber, 6500);
            assert_eq!(w.green_magenta, -7);
        }
        other => panic!("expected Wbbr, got {other:?}"),
    }
    assert_eq!(props[0].kind(), *b"wbbr");
}

#[test]
fn wbbr_essential_association_is_recognised() {
    let m = Meta {
        properties: vec![Property::Wbbr(Wbbr::default())],
        associations: vec![ItemPropertyAssociation {
            item_id: 1,
            entries: vec![PropertyAssociation {
                index: 0,
                essential: true,
            }],
        }],
        ..Meta::default()
    };
    assert!(!m.has_unsupported_essential_property(1));
    assert!(m.unsupported_essential_properties(1).is_empty());
}

#[test]
fn wbbr_lookup_via_property_for() {
    let m = Meta {
        properties: vec![Property::Wbbr(Wbbr {
            blue_amber: 4800,
            green_magenta: 25,
        })],
        associations: vec![ItemPropertyAssociation {
            item_id: 9,
            entries: vec![PropertyAssociation {
                index: 0,
                essential: false,
            }],
        }],
        ..Meta::default()
    };
    match m.property_for(9, b"wbbr") {
        Some(Property::Wbbr(w)) => {
            assert_eq!(w.blue_amber, 4800);
            assert_eq!(w.green_magenta, 25);
            assert_eq!(quotient(w.green_magenta_terms()), 0.25);
            assert!(!w.is_green_magenta_neutral());
        }
        other => panic!("expected Wbbr, got {other:?}"),
    }
    // No `wbbr` for an item that doesn't carry the association.
    assert!(m.property_for(99, b"wbbr").is_none());
}


fn fobr_body(num: u16, den: u16) -> Vec<u8> {
    let mut buf = vec![0u8; 4];
    buf.extend_from_slice(&num.to_be_bytes());
    buf.extend_from_slice(&den.to_be_bytes());
    buf
}

#[test]
fn fobr_round_trip_reads_numerator_then_denominator() {
    let f = parse_fobr(&fobr_body(17, 10)).unwrap();
    assert_eq!(f.focus_distance_numerator, 17);
    assert_eq!(f.focus_distance_denominator, 10);
}

#[test]
fn fobr_fields_are_big_endian() {
    let f = parse_fobr(&fobr_body(0x0125, 0x0008)).unwrap();
    assert_eq!(f.focus_distance_numerator, 0x0125);
    assert_eq!(f.focus_distance_denominator, 0x0008);
    // Endpoint coverage: u16::MAX exercises both high bits.
    let f = parse_fobr(&fobr_body(u16::MAX, u16::MAX)).unwrap();
    assert_eq!(f.focus_distance_numerator, u16::MAX);
    assert_eq!(f.focus_distance_denominator, u16::MAX);
    // Strict-infinity sentinel: both fields zero.
    let f = parse_fobr(&fobr_body(0, 0)).unwrap();
    assert_eq!(f.focus_distance_numerator, 0);
    assert_eq!(f.focus_distance_denominator, 0);
}

#[test]
fn fobr_focus_distance_metres_projection() {
    let f = parse_fobr(&fobr_body(17, 10)).unwrap();
    assert_eq!(f.focus_distance_terms().map(quotient), Some(1.7));
    // 1 / 1 = 1.0 m.
    let f = parse_fobr(&fobr_body(1, 1)).unwrap();
    assert_eq!(f.focus_distance_terms().map(quotient), Some(1.0));
    // 5 / 100 = 0.05 m (macro range).
    let f = parse_fobr(&fobr_body(5, 100)).unwrap();
    assert_eq!(f.focus_distance_terms().map(quotient), Some(0.05));
    // u16::MAX / 1 — extreme but representable on the wire.
    let f = parse_fobr(&fobr_body(u16::MAX, 1)).unwrap();
    assert_eq!(f.focus_distance_terms().map(quotient), Some(f64::from(u16::MAX)));
    let f = parse_fobr(&fobr_body(0, 0)).unwrap();
    assert_eq!(f.focus_distance_terms().map(quotient), None);
    let f = parse_fobr(&fobr_body(42, 0)).unwrap();
    assert_eq!(f.focus_distance_terms().map(quotient), None);
}

#[test]
fn fobr_is_focus_at_infinity_predicate() {
    let f = parse_fobr(&fobr_body(0, 0)).unwrap();
    assert!(f.is_focus_at_infinity());
    let f = parse_fobr(&fobr_body(42, 0)).unwrap();
    assert!(f.is_focus_at_infinity());
    // Any non-zero denominator flips off the predicate.
    for den in [1u16, 10, 100, 1000, u16::MAX] {
        let f = parse_fobr(&fobr_body(17, den)).unwrap();
        assert!(
            !f.is_focus_at_infinity(),
            "denominator {den} must NOT be infinity"
        );
    }
    assert_eq!(Fobr::INFINITY_DENOMINATOR, 0);
}

#[test]
fn fobr_well_formed_infinity_sentinel_predicate() {
    // Strict infinity: both zero.
    let f = parse_fobr(&fobr_body(0, 0)).unwrap();
    assert!(f.has_well_formed_infinity_sentinel());
    let f = parse_fobr(&fobr_body(1, 0)).unwrap();
    assert!(!f.has_well_formed_infinity_sentinel());
    let f = parse_fobr(&fobr_body(u16::MAX, 0)).unwrap();
    assert!(!f.has_well_formed_infinity_sentinel());
    // Numerator zero with a non-zero denominator: 0 / N = 0 m
    // (focus at the front element); not the infinity sentinel.
    let f = parse_fobr(&fobr_body(0, 1)).unwrap();
    assert!(!f.has_well_formed_infinity_sentinel());
    assert_eq!(f.focus_distance_terms().map(quotient), Some(0.0));
    // Generic non-infinity.
    let f = parse_fobr(&fobr_body(17, 10)).unwrap();
    assert!(!f.has_well_formed_infinity_sentinel());
}

#[test]
fn fobr_rejects_unknown_version() {
    // version=1, flags=0; four zero bytes would otherwise be a
    // well-formed v0 body.
    let mut buf = vec![1u8, 0, 0, 0];
    buf.extend_from_slice(&[0, 0, 0, 0]);
    assert!(parse_fobr(&buf).is_err());
}

/// A body shorter than the four-byte fixed tail must be
/// rejected so a truncated `fobr` cannot be partially read.
#[test]
fn fobr_rejects_truncated_body() {
    // FullBox header alone — no fields at all.
    let buf = vec![0u8; 4];
    assert!(parse_fobr(&buf).is_err());
    // FullBox header + `focus_distance_numerator` only
    // (missing the denominator).
    let mut buf = vec![0u8; 4];
    buf.extend_from_slice(&[0x00, 0x11]);
    assert!(parse_fobr(&buf).is_err());
    // FullBox header + numerator + one byte of denominator
    // (missing the second byte of the denominator).
    let mut buf = vec![0u8; 4];
    buf.extend_from_slice(&[0x00, 0x11, 0x00]);
    assert!(parse_fobr(&buf).is_err());
}

/// Trailing bytes past the four-byte tail are forward-compat
/// space — the parser ignores them, mirroring the behaviour of
/// every other FullBox-headed property parser in this module.
#[test]
fn fobr_tolerates_trailing_bytes() {
    let mut body = fobr_body(17, 10);
    body.extend_from_slice(&[0xDE, 0xAD, 0xBE, 0xEF]);
    let f = parse_fobr(&body).unwrap();
    assert_eq!(f.focus_distance_numerator, 17);
    assert_eq!(f.focus_distance_denominator, 10);
    assert_eq!(f.focus_distance_terms().map(quotient), Some(1.7));
}

#[test]
fn fobr_dispatched_through_parse_ipco() {
    let body = fobr_body(7, 2);
    let mut ipco = Vec::new();
    let s = 8 + body.len() as u32;
    ipco.extend_from_slice(&s.to_be_bytes());
    ipco.extend_from_slice(b"fobr");
    ipco.extend_from_slice(&body);
    let props = parse_ipco(&ipco).unwrap();
    assert_eq!(props.len(), 1);
    match &props[0] {
        Property::Fobr(f) => {
            assert_eq!(f.focus_distance_numerator, 7);
            assert_eq!(f.focus_distance_denominator, 2);
            assert_eq!(f.focus_distance_terms().map(quotient), Some(3.5));
        }
        other => panic!("expected Fobr, got {other:?}"),
    }
    assert_eq!(props[0].kind(), *b"fobr");
}

#[test]
fn fobr_essential_association_is_recognised() {
    let m = Meta {
        properties: vec![Property::Fobr(Fobr::default())],
        associations: vec![ItemPropertyAssociation {
            item_id: 1,
            entries: vec![PropertyAssociation {
                index: 0,
                essential: true,
            }],
        }],
        ..Meta::default()
    };
    assert!(!m.has_unsupported_essential_property(1));
    assert!(m.unsupported_essential_properties(1).is_empty());
}

#[test]
fn fobr_lookup_via_property_for() {
    let m = Meta {
        properties: vec![Property::Fobr(Fobr {
            focus_distance_numerator: 17,
            focus_distance_denominator: 10,
        })],
        associations: vec![ItemPropertyAssociation {
            item_id: 9,
            entries: vec![PropertyAssociation {
                index: 0,
                essential: false,
            }],
        }],
        ..Meta::default()
    };
    match m.property_for(9, b"fobr") {
        Some(Property::Fobr(f)) => {
            assert_eq!(f.focus_distance_numerator, 17);
            assert_eq!(f.focus_distance_denominator, 10);
            assert_eq!(f.focus_distance_terms().map(quotient), Some(1.7));
            assert!(!f.is_focus_at_infinity());
        }
        other => panic!("expected Fobr, got {other:?}"),
    }
    // No `fobr` for an item that doesn't carry the association.
    assert!(m.property_for(99, b"fobr").is_none());

    // Infinity sentinel via `property_for`.
    let m = Meta {
        properties: vec![Property::Fobr(Fobr {
            focus_distance_numerator: 0,
            focus_distance_denominator: 0,
        })],
        associations: vec![ItemPropertyAssociation {
            item_id: 5,
            entries: vec![PropertyAssociation {
                index: 0,
                essential: false,
            }],
        }],
        ..Meta::default()
    };
    match m.property_for(5, b"fobr") {
        Some(Property::Fobr(f)) => {
            assert!(f.is_focus_at_infinity());
            assert!(f.has_well_formed_infinity_sentinel());
            assert_eq!(f.focus_distance_terms().map(quotient), None);
        }
        other => panic!("expected Fobr, got {other:?}"),
    }
}


fn afbr_body(num: i8, den: i8) -> Vec<u8> {
    let mut buf = vec![0u8; 4];
    buf.push(num as u8);
    buf.push(den as u8);
    buf
}

#[test]
fn afbr_round_trip_reads_numerator_then_denominator() {
    // Distinct, asymmetric values per field so a cross-wire
    // between numerator and denominator would surface
    // immediately. 1 / 2 expresses +0.5 stops of flash, a
    // realistic mid-bracket position.
    let a = parse_afbr(&afbr_body(1, 2)).unwrap();
    assert_eq!(a.flash_exposure_numerator, 1);
    assert_eq!(a.flash_exposure_denominator, 2);
}

/// Both fields are `int(8)` (signed). A writer that emits `0xFF`
/// for the smallest dark direction must round-trip to `-1`, not
/// `255` — i.e. the parser must interpret the byte as `i8`.
#[test]
fn afbr_fields_are_signed() {
    // Lone negative numerator: -1 / +2 = -0.5 stops (under).
    let a = parse_afbr(&afbr_body(-1, 2)).unwrap();
    assert_eq!(a.flash_exposure_numerator, -1);
    assert_eq!(a.flash_exposure_denominator, 2);
    // Lone negative denominator: +1 / -2 = -0.5 stops (under,
    // expressed via the sign of the denominator).
    let a = parse_afbr(&afbr_body(1, -2)).unwrap();
    assert_eq!(a.flash_exposure_numerator, 1);
    assert_eq!(a.flash_exposure_denominator, -2);
    // Both negative: -1 / -2 = +0.5 stops (over).
    let a = parse_afbr(&afbr_body(-1, -2)).unwrap();
    assert_eq!(a.flash_exposure_numerator, -1);
    assert_eq!(a.flash_exposure_denominator, -2);
    // Signed endpoints: i8::MIN / i8::MAX = -128 / 127.
    let a = parse_afbr(&afbr_body(i8::MIN, i8::MAX)).unwrap();
    assert_eq!(a.flash_exposure_numerator, i8::MIN);
    assert_eq!(a.flash_exposure_denominator, i8::MAX);
    // The raw `0xFF` byte must read as `-1`, NOT `255` —
    // pins the `as i8` cast against a stray `as u8` regression.
    let mut buf = vec![0u8; 4];
    buf.extend_from_slice(&[0xFF, 0x02]);
    let a = parse_afbr(&buf).unwrap();
    assert_eq!(a.flash_exposure_numerator, -1);
    assert_eq!(a.flash_exposure_denominator, 2);
}

#[test]
fn afbr_flash_exposure_stops_projection() {
    // 1 / 2 = +0.5 stops (half-stop over).
    let a = parse_afbr(&afbr_body(1, 2)).unwrap();
    assert_eq!(a.flash_exposure_terms().map(quotient), Some(0.5));
    // -1 / 2 = -0.5 stops (half-stop under).
    let a = parse_afbr(&afbr_body(-1, 2)).unwrap();
    assert_eq!(a.flash_exposure_terms().map(quotient), Some(-0.5));
    // 1 / 1 = +1.0 stop (full-stop over).
    let a = parse_afbr(&afbr_body(1, 1)).unwrap();
    assert_eq!(a.flash_exposure_terms().map(quotient), Some(1.0));
    // -2 / 3 = -0.6667 stops (two-third-stop under).
    let a = parse_afbr(&afbr_body(-2, 3)).unwrap();
    let v = a.flash_exposure_terms().map(quotient).unwrap();
    assert!((v - (-2.0 / 3.0)).abs() < 1e-12, "got {v}");
    // i8::MIN / -1 must NOT integer-overflow — the f64 widening
    // gives 128.0 cleanly. This pins the `f64::from` widening
    // against a hypothetical `i8 / i8` integer-only divide
    // regression that would panic.
    let a = parse_afbr(&afbr_body(i8::MIN, -1)).unwrap();
    assert_eq!(a.flash_exposure_terms().map(quotient), Some(128.0));
    let a = parse_afbr(&afbr_body(1, 0)).unwrap();
    assert_eq!(a.flash_exposure_terms().map(quotient), None);
    // Zero numerator, non-zero denominator: 0 / N = 0.0 stops
    // (no flash variation relative to the camera setting).
    let a = parse_afbr(&afbr_body(0, 1)).unwrap();
    assert_eq!(a.flash_exposure_terms().map(quotient), Some(0.0));
    // Zero / zero: still undefined (denominator-zero path).
    let a = parse_afbr(&afbr_body(0, 0)).unwrap();
    assert_eq!(a.flash_exposure_terms().map(quotient), None);
}

#[test]
fn afbr_rejects_unknown_version() {
    // version=1, flags=0; two zero bytes would otherwise be a
    // well-formed v0 body.
    let mut buf = vec![1u8, 0, 0, 0];
    buf.extend_from_slice(&[0, 0]);
    assert!(parse_afbr(&buf).is_err());
}

/// A body shorter than the two-byte fixed tail must be rejected
/// so a truncated `afbr` cannot be partially read.
#[test]
fn afbr_rejects_truncated_body() {
    // FullBox header alone — no fields at all.
    let buf = vec![0u8; 4];
    assert!(parse_afbr(&buf).is_err());
    // FullBox header + `flash_exposure_numerator` only
    // (missing the denominator).
    let mut buf = vec![0u8; 4];
    buf.push(0x01);
    assert!(parse_afbr(&buf).is_err());
}

/// Trailing bytes past the two-byte tail are forward-compat
/// space — the parser ignores them, mirroring the behaviour of
/// every other FullBox-headed property parser in this module.
#[test]
fn afbr_tolerates_trailing_bytes() {
    let mut body = afbr_body(1, 2);
    body.extend_from_slice(&[0xDE, 0xAD, 0xBE, 0xEF]);
    let a = parse_afbr(&body).unwrap();
    assert_eq!(a.flash_exposure_numerator, 1);
    assert_eq!(a.flash_exposure_denominator, 2);
    assert_eq!(a.flash_exposure_terms().map(quotient), Some(0.5));
}

#[test]
fn afbr_dispatched_through_parse_ipco() {
    let body = afbr_body(-3, 4);
    let mut ipco = Vec::new();
    let s = 8 + body.len() as u32;
    ipco.extend_from_slice(&s.to_be_bytes());
    ipco.extend_from_slice(b"afbr");
    ipco.extend_from_slice(&body);
    let props = parse_ipco(&ipco).unwrap();
    assert_eq!(props.len(), 1);
    match &props[0] {
        Property::Afbr(a) => {
            assert_eq!(a.flash_exposure_numerator, -3);
            assert_eq!(a.flash_exposure_denominator, 4);
            assert_eq!(a.flash_exposure_terms().map(quotient), Some(-0.75));
        }
        other => panic!("expected Afbr, got {other:?}"),
    }
    assert_eq!(props[0].kind(), *b"afbr");
}

#[test]
fn afbr_essential_association_is_recognised() {
    let m = Meta {
        properties: vec![Property::Afbr(Afbr::default())],
        associations: vec![ItemPropertyAssociation {
            item_id: 1,
            entries: vec![PropertyAssociation {
                index: 0,
                essential: true,
            }],
        }],
        ..Meta::default()
    };
    assert!(!m.has_unsupported_essential_property(1));
    assert!(m.unsupported_essential_properties(1).is_empty());
}

#[test]
fn afbr_lookup_via_property_for() {
    let m = Meta {
        properties: vec![Property::Afbr(Afbr {
            flash_exposure_numerator: 1,
            flash_exposure_denominator: 2,
        })],
        associations: vec![ItemPropertyAssociation {
            item_id: 9,
            entries: vec![PropertyAssociation {
                index: 0,
                essential: false,
            }],
        }],
        ..Meta::default()
    };
    match m.property_for(9, b"afbr") {
        Some(Property::Afbr(a)) => {
            assert_eq!(a.flash_exposure_numerator, 1);
            assert_eq!(a.flash_exposure_denominator, 2);
            assert_eq!(a.flash_exposure_terms().map(quotient), Some(0.5));
        }
        other => panic!("expected Afbr, got {other:?}"),
    }
    // No `afbr` for an item that doesn't carry the association.
    assert!(m.property_for(99, b"afbr").is_none());

    // Negative bracket position via `property_for`.
    let m = Meta {
        properties: vec![Property::Afbr(Afbr {
            flash_exposure_numerator: -3,
            flash_exposure_denominator: 4,
        })],
        associations: vec![ItemPropertyAssociation {
            item_id: 5,
            entries: vec![PropertyAssociation {
                index: 0,
                essential: false,
            }],
        }],
        ..Meta::default()
    };
    match m.property_for(5, b"afbr") {
        Some(Property::Afbr(a)) => {
            assert_eq!(a.flash_exposure_numerator, -3);
            assert_eq!(a.flash_exposure_denominator, 4);
            assert_eq!(a.flash_exposure_terms().map(quotient), Some(-0.75));
        }
        other => panic!("expected Afbr, got {other:?}"),
    }

    // Zero-denominator "undefined" reading: still typed as Afbr,
    // just with `flash_exposure_stops() == None`.
    let m = Meta {
        properties: vec![Property::Afbr(Afbr {
            flash_exposure_numerator: 1,
            flash_exposure_denominator: 0,
        })],
        associations: vec![ItemPropertyAssociation {
            item_id: 7,
            entries: vec![PropertyAssociation {
                index: 0,
                essential: false,
            }],
        }],
        ..Meta::default()
    };
    match m.property_for(7, b"afbr") {
        Some(Property::Afbr(a)) => {
            assert_eq!(a.flash_exposure_numerator, 1);
            assert_eq!(a.flash_exposure_denominator, 0);
            assert_eq!(a.flash_exposure_terms().map(quotient), None);
        }
        other => panic!("expected Afbr, got {other:?}"),
    }
}


fn dobr_body(num: i8, den: i8) -> Vec<u8> {
    let mut buf = vec![0u8; 4];
    buf.push(num as u8);
    buf.push(den as u8);
    buf
}

#[test]
fn dobr_round_trip_reads_numerator_then_denominator() {
    // Distinct, asymmetric values per field so a cross-wire
    // between numerator and denominator would surface
    // immediately. 1 / 2 expresses +0.5 stops of aperture change,
    // a realistic mid-bracket position.
    let d = parse_dobr(&dobr_body(1, 2)).unwrap();
    assert_eq!(d.f_stop_numerator, 1);
    assert_eq!(d.f_stop_denominator, 2);
}

/// Both fields are `int(8)` (signed). A writer that emits `0xFF`
/// for the smallest shallow direction must round-trip to `-1`, not
/// `255` — i.e. the parser must interpret the byte as `i8`.
#[test]
fn dobr_fields_are_signed() {
    // Lone negative numerator: -1 / +2 = -0.5 stops (shallower).
    let d = parse_dobr(&dobr_body(-1, 2)).unwrap();
    assert_eq!(d.f_stop_numerator, -1);
    assert_eq!(d.f_stop_denominator, 2);
    // Lone negative denominator: +1 / -2 = -0.5 stops (shallower,
    // expressed via the sign of the denominator).
    let d = parse_dobr(&dobr_body(1, -2)).unwrap();
    assert_eq!(d.f_stop_numerator, 1);
    assert_eq!(d.f_stop_denominator, -2);
    // Both negative: -1 / -2 = +0.5 stops (deeper).
    let d = parse_dobr(&dobr_body(-1, -2)).unwrap();
    assert_eq!(d.f_stop_numerator, -1);
    assert_eq!(d.f_stop_denominator, -2);
    // Signed endpoints: i8::MIN / i8::MAX = -128 / 127.
    let d = parse_dobr(&dobr_body(i8::MIN, i8::MAX)).unwrap();
    assert_eq!(d.f_stop_numerator, i8::MIN);
    assert_eq!(d.f_stop_denominator, i8::MAX);
    // The raw `0xFF` byte must read as `-1`, NOT `255` —
    // pins the `as i8` cast against a stray `as u8` regression.
    let mut buf = vec![0u8; 4];
    buf.extend_from_slice(&[0xFF, 0x02]);
    let d = parse_dobr(&buf).unwrap();
    assert_eq!(d.f_stop_numerator, -1);
    assert_eq!(d.f_stop_denominator, 2);
}

#[test]
fn dobr_aperture_stops_projection() {
    // 1 / 2 = +0.5 stops (half-stop deeper).
    let d = parse_dobr(&dobr_body(1, 2)).unwrap();
    assert_eq!(d.aperture_terms().map(quotient), Some(0.5));
    // -1 / 2 = -0.5 stops (half-stop shallower).
    let d = parse_dobr(&dobr_body(-1, 2)).unwrap();
    assert_eq!(d.aperture_terms().map(quotient), Some(-0.5));
    // 1 / 1 = +1.0 stop (full-stop deeper).
    let d = parse_dobr(&dobr_body(1, 1)).unwrap();
    assert_eq!(d.aperture_terms().map(quotient), Some(1.0));
    // -2 / 3 = -0.6667 stops (two-third-stop shallower).
    let d = parse_dobr(&dobr_body(-2, 3)).unwrap();
    let v = d.aperture_terms().map(quotient).unwrap();
    assert!((v - (-2.0 / 3.0)).abs() < 1e-12, "got {v}");
    // i8::MIN / -1 must NOT integer-overflow — the f64 widening
    // gives 128.0 cleanly. This pins the `f64::from` widening
    // against a hypothetical `i8 / i8` integer-only divide
    // regression that would panic.
    let d = parse_dobr(&dobr_body(i8::MIN, -1)).unwrap();
    assert_eq!(d.aperture_terms().map(quotient), Some(128.0));
    let d = parse_dobr(&dobr_body(1, 0)).unwrap();
    assert_eq!(d.aperture_terms().map(quotient), None);
    // Zero numerator, non-zero denominator: 0 / N = 0.0 stops
    // (no aperture variation relative to the camera setting).
    let d = parse_dobr(&dobr_body(0, 1)).unwrap();
    assert_eq!(d.aperture_terms().map(quotient), Some(0.0));
    // Zero / zero: still undefined (denominator-zero path).
    let d = parse_dobr(&dobr_body(0, 0)).unwrap();
    assert_eq!(d.aperture_terms().map(quotient), None);
}

#[test]
fn dobr_rejects_unknown_version() {
    // version=1, flags=0; two zero bytes would otherwise be a
    // well-formed v0 body.
    let mut buf = vec![1u8, 0, 0, 0];
    buf.extend_from_slice(&[0, 0]);
    assert!(parse_dobr(&buf).is_err());
}

/// A body shorter than the two-byte fixed tail must be rejected
/// so a truncated `dobr` cannot be partially read.
#[test]
fn dobr_rejects_truncated_body() {
    // FullBox header alone — no fields at all.
    let buf = vec![0u8; 4];
    assert!(parse_dobr(&buf).is_err());
    // FullBox header + `f_stop_numerator` only
    // (missing the denominator).
    let mut buf = vec![0u8; 4];
    buf.push(0x01);
    assert!(parse_dobr(&buf).is_err());
}

/// Trailing bytes past the two-byte tail are forward-compat
/// space — the parser ignores them, mirroring the behaviour of
/// every other FullBox-headed property parser in this module.
#[test]
fn dobr_tolerates_trailing_bytes() {
    let mut body = dobr_body(1, 2);
    body.extend_from_slice(&[0xDE, 0xAD, 0xBE, 0xEF]);
    let d = parse_dobr(&body).unwrap();
    assert_eq!(d.f_stop_numerator, 1);
    assert_eq!(d.f_stop_denominator, 2);
    assert_eq!(d.aperture_terms().map(quotient), Some(0.5));
}

#[test]
fn dobr_dispatched_through_parse_ipco() {
    let body = dobr_body(-3, 4);
    let mut ipco = Vec::new();
    let s = 8 + body.len() as u32;
    ipco.extend_from_slice(&s.to_be_bytes());
    ipco.extend_from_slice(b"dobr");
    ipco.extend_from_slice(&body);
    let props = parse_ipco(&ipco).unwrap();
    assert_eq!(props.len(), 1);
    match &props[0] {
        Property::Dobr(d) => {
            assert_eq!(d.f_stop_numerator, -3);
            assert_eq!(d.f_stop_denominator, 4);
            assert_eq!(d.aperture_terms().map(quotient), Some(-0.75));
        }
        other => panic!("expected Dobr, got {other:?}"),
    }
    assert_eq!(props[0].kind(), *b"dobr");
}

#[test]
fn dobr_essential_association_is_recognised() {
    let m = Meta {
        properties: vec![Property::Dobr(Dobr::default())],
        associations: vec![ItemPropertyAssociation {
            item_id: 1,
            entries: vec![PropertyAssociation {
                index: 0,
                essential: true,
            }],
        }],
        ..Meta::default()
    };
    assert!(!m.has_unsupported_essential_property(1));
    assert!(m.unsupported_essential_properties(1).is_empty());
}

#[test]
fn dobr_lookup_via_property_for() {
    let m = Meta {
        properties: vec![Property::Dobr(Dobr {
            f_stop_numerator: 1,
            f_stop_denominator: 2,
        })],
        associations: vec![ItemPropertyAssociation {
            item_id: 9,
            entries: vec![PropertyAssociation {
                index: 0,
                essential: false,
            }],
        }],
        ..Meta::default()
    };
    match m.property_for(9, b"dobr") {
        Some(Property::Dobr(d)) => {
            assert_eq!(d.f_stop_numerator, 1);
            assert_eq!(d.f_stop_denominator, 2);
            assert_eq!(d.aperture_terms().map(quotient), Some(0.5));
        }
        other => panic!("expected Dobr, got {other:?}"),
    }
    // No `dobr` for an item that doesn't carry the association.
    assert!(m.property_for(99, b"dobr").is_none());

    // Negative bracket position via `property_for`.
    let m = Meta {
        properties: vec![Property::Dobr(Dobr {
            f_stop_numerator: -3,
            f_stop_denominator: 4,
        })],
        associations: vec![ItemPropertyAssociation {
            item_id: 5,
            entries: vec![PropertyAssociation {
                index: 0,
                essential: false,
            }],
        }],
        ..Meta::default()
    };
    match m.property_for(5, b"dobr") {
        Some(Property::Dobr(d)) => {
            assert_eq!(d.f_stop_numerator, -3);
            assert_eq!(d.f_stop_denominator, 4);
            assert_eq!(d.aperture_terms().map(quotient), Some(-0.75));
        }
        other => panic!("expected Dobr, got {other:?}"),
    }

    // Zero-denominator "undefined" reading: still typed as Dobr,
    // just with `aperture_stops() == None`.
    let m = Meta {
        properties: vec![Property::Dobr(Dobr {
            f_stop_numerator: 1,
            f_stop_denominator: 0,
        })],
        associations: vec![ItemPropertyAssociation {
            item_id: 7,
            entries: vec![PropertyAssociation {
                index: 0,
                essential: false,
            }],
        }],
        ..Meta::default()
    };
    match m.property_for(7, b"dobr") {
        Some(Property::Dobr(d)) => {
            assert_eq!(d.f_stop_numerator, 1);
            assert_eq!(d.f_stop_denominator, 0);
            assert_eq!(d.aperture_terms().map(quotient), None);
        }
        other => panic!("expected Dobr, got {other:?}"),
    }

    let m = Meta {
        properties: vec![
            Property::Dobr(Dobr {
                f_stop_numerator: 1,
                f_stop_denominator: 2,
            }),
            Property::Afbr(Afbr {
                flash_exposure_numerator: -1,
                flash_exposure_denominator: 2,
            }),
        ],
        associations: vec![ItemPropertyAssociation {
            item_id: 3,
            entries: vec![
                PropertyAssociation {
                    index: 0,
                    essential: false,
                },
                PropertyAssociation {
                    index: 1,
                    essential: false,
                },
            ],
        }],
        ..Meta::default()
    };
    match m.property_for(3, b"dobr") {
        Some(Property::Dobr(d)) => assert_eq!(d.aperture_terms().map(quotient), Some(0.5)),
        other => panic!("expected Dobr, got {other:?}"),
    }
    match m.property_for(3, b"afbr") {
        Some(Property::Afbr(a)) => assert_eq!(a.flash_exposure_terms().map(quotient), Some(-0.5)),
        other => panic!("expected Afbr, got {other:?}"),
    }
}


fn pano_body_linear(direction: u8) -> Vec<u8> {
    let mut buf = vec![0u8; 4];
    buf.push(direction);
    buf
}

fn pano_body_grid(direction: u8, rows_minus_one: u8, columns_minus_one: u8) -> Vec<u8> {
    let mut buf = pano_body_linear(direction);
    buf.push(rows_minus_one);
    buf.push(columns_minus_one);
    buf
}

#[test]
fn pano_linear_directions_have_no_grid() {
    for direction in [
        Pano::DIRECTION_LEFT_TO_RIGHT,
        Pano::DIRECTION_RIGHT_TO_LEFT,
        Pano::DIRECTION_BOTTOM_TO_TOP,
        Pano::DIRECTION_TOP_TO_BOTTOM,
    ] {
        let p = parse_pano(&pano_body_linear(direction)).unwrap();
        assert_eq!(p.panorama_direction, direction);
        assert_eq!(p.grid, None);
        assert!(p.is_defined_direction());
        assert!(!p.is_grid());
    }
}

#[test]
fn pano_grid_directions_carry_shape() {
    for direction in [Pano::DIRECTION_GRID_RASTER, Pano::DIRECTION_GRID_CONTINUOUS] {
        let p = parse_pano(&pano_body_grid(direction, 1, 2)).unwrap();
        assert_eq!(p.panorama_direction, direction);
        assert!(p.is_defined_direction());
        assert!(p.is_grid());
        let g = p.grid.expect("grid direction must carry shape");
        assert_eq!(g.rows_minus_one, 1);
        assert_eq!(g.columns_minus_one, 2);
        assert_eq!(g.rows(), 2);
        assert_eq!(g.columns(), 3);
    }
}

#[test]
fn pano_grid_dims_widen_past_u8() {
    let p = parse_pano(&pano_body_grid(Pano::DIRECTION_GRID_RASTER, 0xFF, 0xFF)).unwrap();
    let g = p.grid.unwrap();
    assert_eq!(g.rows(), 256);
    assert_eq!(g.columns(), 256);
    // And the all-zero floor reads as a 1×1 grid, not 0×0.
    let p = parse_pano(&pano_body_grid(Pano::DIRECTION_GRID_CONTINUOUS, 0, 0)).unwrap();
    let g = p.grid.unwrap();
    assert_eq!(g.rows(), 1);
    assert_eq!(g.columns(), 1);
}

#[test]
fn pano_undefined_direction_is_preserved_not_rejected() {
    for direction in [6u8, 7, 0x7F, 0xFF] {
        let p = parse_pano(&pano_body_linear(direction)).unwrap();
        assert_eq!(p.panorama_direction, direction);
        assert_eq!(p.grid, None);
        assert!(!p.is_defined_direction());
        assert!(!p.is_grid());
    }
}

#[test]
fn pano_rejects_unknown_version() {
    // version=1, flags=0; a direction byte that would otherwise
    // be a well-formed v0 linear body.
    let mut buf = vec![1u8, 0, 0, 0];
    buf.push(Pano::DIRECTION_LEFT_TO_RIGHT);
    assert!(parse_pano(&buf).is_err());
}

/// A body without even the direction byte is rejected, and a grid
/// direction whose conditional shape bytes are missing (in whole
/// or in part) is rejected as truncated.
#[test]
fn pano_rejects_truncated_body() {
    // FullBox header alone — no direction byte at all.
    let buf = vec![0u8; 4];
    assert!(parse_pano(&buf).is_err());
    // Grid direction with no shape bytes.
    assert!(parse_pano(&pano_body_linear(Pano::DIRECTION_GRID_RASTER)).is_err());
    // Grid direction with only `rows_minus_one`
    // (missing `columns_minus_one`).
    let mut buf = pano_body_linear(Pano::DIRECTION_GRID_CONTINUOUS);
    buf.push(2);
    assert!(parse_pano(&buf).is_err());
}

/// Trailing bytes past the syntax-mandated tail are forward-compat
/// space — the parser ignores them on both the linear (one-byte)
/// and grid (three-byte) shapes, mirroring the behaviour of every
/// other FullBox-headed property parser in this module.
#[test]
fn pano_tolerates_trailing_bytes() {
    let mut body = pano_body_linear(Pano::DIRECTION_TOP_TO_BOTTOM);
    body.extend_from_slice(&[0xDE, 0xAD]);
    let p = parse_pano(&body).unwrap();
    assert_eq!(p.panorama_direction, Pano::DIRECTION_TOP_TO_BOTTOM);
    assert_eq!(p.grid, None);

    let mut body = pano_body_grid(Pano::DIRECTION_GRID_RASTER, 3, 4);
    body.extend_from_slice(&[0xBE, 0xEF]);
    let p = parse_pano(&body).unwrap();
    let g = p.grid.unwrap();
    assert_eq!((g.rows(), g.columns()), (4, 5));
}

#[test]
fn pano_dispatched_through_parse_ipco() {
    let body = pano_body_grid(Pano::DIRECTION_GRID_CONTINUOUS, 2, 3);
    let mut ipco = Vec::new();
    let s = 8 + body.len() as u32;
    ipco.extend_from_slice(&s.to_be_bytes());
    ipco.extend_from_slice(b"pano");
    ipco.extend_from_slice(&body);
    let props = parse_ipco(&ipco).unwrap();
    assert_eq!(props.len(), 1);
    match &props[0] {
        Property::Pano(p) => {
            assert_eq!(p.panorama_direction, Pano::DIRECTION_GRID_CONTINUOUS);
            let g = p.grid.unwrap();
            assert_eq!((g.rows(), g.columns()), (3, 4));
        }
        other => panic!("expected Pano, got {other:?}"),
    }
    assert_eq!(props[0].kind(), *b"pano");
}

#[test]
fn pano_essential_association_is_recognised() {
    let m = Meta {
        properties: vec![Property::Pano(Pano::default())],
        associations: vec![ItemPropertyAssociation {
            item_id: 1,
            entries: vec![PropertyAssociation {
                index: 0,
                essential: true,
            }],
        }],
        ..Meta::default()
    };
    assert!(!m.has_unsupported_essential_property(1));
    assert!(m.unsupported_essential_properties(1).is_empty());
}

#[test]
fn pano_lookup_via_property_for() {
    let m = Meta {
        properties: vec![Property::Pano(Pano {
            panorama_direction: Pano::DIRECTION_RIGHT_TO_LEFT,
            grid: None,
        })],
        associations: vec![ItemPropertyAssociation {
            item_id: 9,
            entries: vec![PropertyAssociation {
                index: 0,
                essential: false,
            }],
        }],
        ..Meta::default()
    };
    match m.property_for(9, b"pano") {
        Some(Property::Pano(p)) => {
            assert_eq!(p.panorama_direction, Pano::DIRECTION_RIGHT_TO_LEFT);
            assert!(p.is_defined_direction());
            assert!(!p.is_grid());
        }
        other => panic!("expected Pano, got {other:?}"),
    }
    // No `pano` for an item that doesn't carry the association.
    assert!(m.property_for(99, b"pano").is_none());
}
