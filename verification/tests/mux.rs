//! The writer, read back.

use oxideav_avif::alpha::find_alpha_item_id;
use oxideav_avif::error::AvifError;
use oxideav_avif::grid::ImageGrid;
use oxideav_avif::inspect::{inspect, item_payload_bytes};
use oxideav_avif::mux::AvifMuxer;
use oxideav_avif::mux_grid::{AvifGridMuxer, GridTile};
use oxideav_avif::parser::{audit_mif1, item_bytes, parse, parse_header};
use oxideav_avif::props::{Amve, Clli, Colr, Mdcv, Pasp, Property};

/// A synthetic 4-byte av1C: marker=1 version=1, seq_profile=0
/// level=12, 4:2:0, no presentation delay.
fn synth_av1c() -> Vec<u8> {
    vec![0x81, 0x0c, 0x0c, 0x00]
}

#[test]
fn still_round_trips_through_parse() {
    let payload = b"\x12\x00\x0a\x0bfake-av1-obu-bytes".to_vec();
    let bytes = AvifMuxer::new(64, 48, payload.clone(), synth_av1c())
        .with_pixi(vec![8, 8, 8])
        .with_colr(Colr::Nclx {
            colour_primaries: 1,
            transfer_characteristics: 13,
            matrix_coefficients: 6,
            full_range: true,
        })
        .with_pasp(Pasp {
            h_spacing: 1,
            v_spacing: 1,
        })
        .build()
        .expect("mux");

    let img = parse(&bytes).expect("parse muxed avif");
    assert_eq!(&img.major_brand, b"avif");
    assert!(img.compatible_brands.iter().any(|b| b == b"mif1"));
    assert!(img.compatible_brands.iter().any(|b| b == b"MA1B"));
    assert_eq!(img.primary_item_id, 1);
    assert_eq!(&img.primary_item.item_type, b"av01");
    // Coded payload round-trips byte-for-byte.
    assert_eq!(&*img.primary_item_data, payload.as_slice());
    // av1C round-trips.
    assert_eq!(img.av1c.as_deref(), Some(synth_av1c().as_slice()));
    let ispe = img.ispe.expect("ispe");
    assert_eq!((ispe.width, ispe.height), (64, 48));
    assert_eq!(img.pixi.unwrap().bits_per_channel, vec![8, 8, 8]);
    match img.colr.unwrap() {
        Colr::Nclx {
            colour_primaries,
            transfer_characteristics,
            matrix_coefficients,
            full_range,
        } => {
            assert_eq!(colour_primaries, 1);
            assert_eq!(transfer_characteristics, 13);
            assert_eq!(matrix_coefficients, 6);
            assert!(full_range);
        }
        _ => panic!("expected nclx"),
    }
    let pasp = img.pasp.unwrap();
    assert_eq!((pasp.h_spacing, pasp.v_spacing), (1, 1));
}

#[test]
fn transforms_round_trip() {
    let payload = b"obu".to_vec();
    let bytes = AvifMuxer::new(10, 20, payload, synth_av1c())
        .with_irot(1)
        .with_imir(1)
        .build()
        .expect("mux");
    let hdr = parse_header(&bytes).expect("parse header");
    let irot = hdr.meta.property_for(1, b"irot").expect("irot");
    assert!(matches!(irot, Property::Irot(i) if i.angle == 1));
    let imir = hdr.meta.property_for(1, b"imir").expect("imir");
    assert!(matches!(imir, Property::Imir(i) if i.axis == 1));
}

#[test]
fn alpha_auxiliary_round_trips() {
    let color = b"color-obu".to_vec();
    let alpha = b"alpha-obu".to_vec();
    let bytes = AvifMuxer::new(32, 32, color, synth_av1c())
        .with_pixi(vec![8, 8, 8])
        .with_alpha(alpha.clone(), synth_av1c(), false)
        .build()
        .expect("mux");
    let hdr = parse_header(&bytes).expect("parse");
    // Alpha item is id 2, hidden, linked via auxl -> primary (id 1).
    let alpha_id = find_alpha_item_id(&hdr.meta, 1).expect("alpha id");
    assert_eq!(alpha_id, 2);
    let alpha_item = hdr.meta.item_by_id(2).expect("alpha item");
    assert!(alpha_item.is_hidden());
    // auxC URN classifies as alpha.
    let auxc = hdr.meta.property_for(2, b"auxC").expect("auxC");
    assert!(matches!(auxc, Property::AuxC(a) if a.is_alpha()));
    // Alpha payload resolvable and byte-exact.
    let loc = hdr.meta.location_by_id(2).expect("alpha iloc");
    let got = item_bytes(&bytes, loc).expect("alpha bytes");
    assert_eq!(got, alpha.as_slice());
}

#[test]
fn premultiplied_alpha_sets_prem_iref() {
    let bytes = AvifMuxer::new(8, 8, b"c".to_vec(), synth_av1c())
        .with_alpha(b"a".to_vec(), synth_av1c(), true)
        .build()
        .expect("mux");
    let hdr = parse_header(&bytes).expect("parse");
    assert!(hdr.meta.is_alpha_premultiplied_for(1));
}

#[test]
fn grid_round_trips_through_parse_header() {
    let av1c = synth_av1c();
    let mk = |n: u8| GridTile {
        width: 16,
        height: 16,
        payload: vec![n; 5],
        av1c: av1c.clone(),
    };
    let bytes = AvifGridMuxer::new(2, 2, 32, 32)
        .tile(mk(1))
        .tile(mk(2))
        .tile(mk(3))
        .tile(mk(4))
        .with_pixi(vec![8, 8, 8])
        .build()
        .expect("mux grid");
    let hdr = parse_header(&bytes).expect("parse grid header");
    assert_eq!(hdr.meta.primary_item_id, Some(1));
    let grid_item = hdr.meta.item_by_id(1).expect("grid item");
    assert_eq!(&grid_item.item_type, b"grid");
    // dimg links the grid to 4 tiles.
    let tiles = hdr.meta.iref_targets_of(b"dimg", 1);
    assert_eq!(tiles, vec![2, 3, 4, 5]);
    // Grid descriptor decodes to a 2×2 / 32×32 grid.
    assert!(hdr.meta.location_by_id(1).is_some(), "grid iloc");
    let payload = hdr.item_data(1).expect("grid bytes");
    let g = ImageGrid::parse(&payload).expect("grid parse");
    assert_eq!((g.rows, g.columns), (2, 2));
    assert_eq!((g.output_width, g.output_height), (32, 32));
    // Each tile item is hidden and carries its own av1C + ispe.
    for id in [2u32, 3, 4, 5] {
        assert!(hdr.meta.item_by_id(id).unwrap().is_hidden());
        assert!(hdr.meta.property_for(id, b"av1C").is_some());
        assert!(hdr.meta.property_for(id, b"ispe").is_some());
    }
}

#[test]
fn rejects_short_av1c() {
    let err = AvifMuxer::new(1, 1, vec![0], vec![0x81])
        .build()
        .unwrap_err();
    assert!(matches!(err, AvifError::InvalidData(_)));
}

#[test]
fn grid_rejects_tile_count_mismatch() {
    let err = AvifGridMuxer::new(2, 2, 32, 32)
        .tile(GridTile {
            width: 16,
            height: 16,
            payload: vec![0],
            av1c: synth_av1c(),
        })
        .build()
        .unwrap_err();
    assert!(matches!(err, AvifError::InvalidData(_)));
}

#[test]
fn hdr_metadata_round_trips() {
    let bytes = AvifMuxer::new(8, 8, b"obu".to_vec(), synth_av1c())
        .with_pixi(vec![10, 10, 10])
        .with_mdcv(Mdcv {
            display_primaries_xy: [(34000, 16000), (13250, 34500), (7500, 3000)],
            white_point_xy: (15635, 16450),
            max_display_mastering_luminance: 10_000_000,
            min_display_mastering_luminance: 50,
        })
        .with_clli(Clli {
            max_content_light_level: 1000,
            max_pic_average_light_level: 400,
        })
        .with_amve(Amve {
            ambient_illuminance: 100_000,
            ambient_light_x: 15635,
            ambient_light_y: 16450,
        })
        .build()
        .expect("mux hdr");
    let img = parse(&bytes).expect("parse");
    let mdcv = img.mdcv.expect("mdcv");
    assert_eq!(mdcv.white_point_xy, (15635, 16450));
    assert_eq!(mdcv.max_display_mastering_luminance, 10_000_000);
    assert_eq!(mdcv.display_primaries_xy[0], (34000, 16000));
    let clli = img.clli.expect("clli");
    assert_eq!(clli.max_content_light_level, 1000);
    assert_eq!(clli.max_pic_average_light_level, 400);
    let amve = img.amve.expect("amve");
    assert_eq!(amve.ambient_illuminance, 100_000);
    assert_eq!((amve.ambient_light_x, amve.ambient_light_y), (15635, 16450));
}

#[test]
fn exif_and_xmp_metadata_items_round_trip() {
    let exif = b"\x00\x00\x00\x00II*\x00exif-tiff".to_vec();
    let xmp = br#"<?xpacket?><x:xmpmeta/>"#.to_vec();
    let bytes = AvifMuxer::new(16, 16, b"obu".to_vec(), synth_av1c())
        .with_pixi(vec![8, 8, 8])
        .with_exif(exif.clone())
        .with_xmp(xmp.clone())
        .build()
        .expect("mux metadata");
    let info = inspect(&bytes).expect("inspect");
    assert!(info.has_descriptive_metadata());
    let exif_id = info.exif_item_id.expect("exif item");
    let xmp_id = info.xmp_item_id.expect("xmp item");
    // Payloads resolve byte-for-byte through the cdsc-linked items.
    let got_exif = item_payload_bytes(&bytes, exif_id).expect("exif");
    assert_eq!(got_exif, exif);
    let got_xmp = item_payload_bytes(&bytes, xmp_id).expect("xmp");
    assert_eq!(got_xmp, xmp);
}

#[test]
fn depth_auxiliary_round_trips() {
    let bytes = AvifMuxer::new(24, 24, b"color".to_vec(), synth_av1c())
        .with_pixi(vec![8, 8, 8])
        .with_depth(b"depth-obu".to_vec(), synth_av1c())
        .build()
        .expect("mux depth");
    let info = inspect(&bytes).expect("inspect");
    assert!(info.has_depth_map());
    let depth_id = info.depth_map_item_id.expect("depth id");
    let hdr = parse_header(&bytes).expect("parse");
    assert!(hdr.meta.item_by_id(depth_id).unwrap().is_hidden());
    let auxc = hdr.meta.property_for(depth_id, b"auxC").expect("auxC");
    assert!(matches!(auxc, Property::AuxC(a) if a.is_depth_map()));
}

#[test]
fn advanced_profile_sets_ma1a_brand() {
    let bytes = AvifMuxer::new(8, 8, b"obu".to_vec(), synth_av1c())
        .advanced_profile()
        .build()
        .expect("mux");
    let img = parse(&bytes).expect("parse");
    assert!(img.compatible_brands.iter().any(|b| b == b"MA1A"));
    assert!(!img.compatible_brands.iter().any(|b| b == b"MA1B"));
}

#[test]
fn no_profile_brand_omits_ma1a_and_ma1b() {
    let bytes = AvifMuxer::new(8, 8, b"obu".to_vec(), synth_av1c())
        .no_profile_brand()
        .build()
        .expect("mux");
    let img = parse(&bytes).expect("parse");
    assert!(!img.compatible_brands.iter().any(|b| b == b"MA1A"));
    assert!(!img.compatible_brands.iter().any(|b| b == b"MA1B"));
    assert!(img.compatible_brands.iter().any(|b| b == b"mif1"));
    assert!(img.compatible_brands.iter().any(|b| b == b"miaf"));
    // Still a conformant mif1 file.
    assert!(audit_mif1(&bytes)
        .expect("audit")
        .is_compliant());
}

#[test]
fn grid_muxer_profile_brand_controls() {
    let av1c = synth_av1c();
    let mk = |n: u8| GridTile {
        width: 16,
        height: 16,
        payload: vec![n; 5],
        av1c: av1c.clone(),
    };
    let adv = AvifGridMuxer::new(1, 2, 32, 16)
        .tile(mk(1))
        .tile(mk(2))
        .advanced_profile()
        .build()
        .expect("mux adv grid");
    let img = parse_header(&adv).expect("parse");
    assert!(img.compatible_brands.iter().any(|b| b == b"MA1A"));
    let bare = AvifGridMuxer::new(1, 2, 32, 16)
        .tile(mk(1))
        .tile(mk(2))
        .no_profile_brand()
        .build()
        .expect("mux bare grid");
    let img = parse_header(&bare).expect("parse");
    assert!(!img.compatible_brands.iter().any(|b| b == b"MA1A"));
    assert!(!img.compatible_brands.iter().any(|b| b == b"MA1B"));
}

#[test]
fn wide_grid_emits_32bit_descriptor() {
    let av1c = synth_av1c();
    let mut m = AvifGridMuxer::new(1, 2, 70_000, 8);
    for _ in 0..2 {
        m = m.tile(GridTile {
            width: 35_000,
            height: 8,
            payload: vec![7; 4],
            av1c: av1c.clone(),
        });
    }
    let bytes = m.build().expect("mux wide grid");
    let hdr = parse_header(&bytes).expect("parse");
    assert!(hdr.meta.location_by_id(1).is_some(), "grid iloc");
    let payload = hdr.item_data(1).expect("grid bytes");
    let g = ImageGrid::parse(&payload).expect("grid parse");
    assert_eq!((g.output_width, g.output_height), (70_000, 8));
    assert_eq!((g.rows, g.columns), (1, 2));
}
