//! Files that are written and read again.

use oxideav_avif::alpha::find_alpha_item_id;
use oxideav_avif::audits::AvifProfile;
use oxideav_avif::derived::{transform_chain, DimTransform};
use oxideav_avif::error::AvifError;
use oxideav_avif::inspect::{gain_map_metadata, inspect, item_payload_bytes};
use oxideav_avif::mux::{encode_still_av1, AvifMuxer, IdentityDerivation};
use oxideav_avif::mux_grid::{AvifGridMuxer, GridTile};
use oxideav_avif::mux_overlay::{AvifOverlayMuxer, OverlayLayer};
use oxideav_avif::parser::{audit_mif1, parse, parse_header};
use oxideav_avif::props::{Amve, AuxKind, Clap, Clli, Colr, Mdcv, Pasp, Property};
use oxideav_avif::resolve::{
    reconstructed_dims, resolve_grids, resolve_iden_derivations, resolve_overlays,
};

fn record() -> Vec<u8> {
    vec![0x81, 0x0c, 0x0c, 0x00]
}

fn nclx() -> Colr {
    Colr::Nclx {
        colour_primaries: 9,
        transfer_characteristics: 16,
        matrix_coefficients: 9,
        full_range: false,
    }
}

fn tile(n: u8) -> GridTile {
    GridTile {
        width: 16,
        height: 8,
        payload: vec![n; 3],
        av1c: record(),
    }
}

fn layer(n: u8, x: i32, y: i32) -> OverlayLayer {
    OverlayLayer {
        width: 10,
        height: 6,
        payload: vec![n; 4],
        av1c: record(),
        pixi: Some(vec![8, 8, 8]),
        colr: None,
        clap: None,
        alpha: None,
        alpha_pixi: None,
        premultiplied: false,
        offset_x: x,
        offset_y: y,
    }
}

#[test]
fn every_property_of_a_still_reads_back() {
    let clap = Clap {
        clean_aperture_width_n: 60,
        clean_aperture_width_d: 1,
        clean_aperture_height_n: 40,
        clean_aperture_height_d: 1,
        horiz_off_n: -2,
        horiz_off_d: 1,
        vert_off_n: -4,
        vert_off_d: 1,
    };
    let file = AvifMuxer::new(64, 48, b"coded".to_vec(), record())
        .with_pixi(vec![10, 10, 10])
        .with_colr(nclx())
        .with_pasp(Pasp {
            h_spacing: 4,
            v_spacing: 3,
        })
        .with_clap(clap)
        .with_irot(3)
        .with_imir(1)
        .with_mdcv(Mdcv {
            display_primaries_xy: [(1, 2), (3, 4), (5, 6)],
            white_point_xy: (7, 8),
            max_display_mastering_luminance: 9,
            min_display_mastering_luminance: 10,
        })
        .with_clli(Clli {
            max_content_light_level: 11,
            max_pic_average_light_level: 12,
        })
        .with_amve(Amve {
            ambient_illuminance: 13,
            ambient_light_x: 14,
            ambient_light_y: 15,
        })
        .with_layered_index([70_000, 2, 3])
        .with_layer_selector(2)
        .with_operating_point(5)
        .build()
        .unwrap();
    let img = parse(&file).unwrap();
    assert_eq!(&*img.primary_item_data, b"coded");
    assert_eq!(img.pixi.unwrap().bits_per_channel, vec![10, 10, 10]);
    assert_eq!(img.colr, Some(nclx()));
    let pasp = img.pasp.unwrap();
    assert_eq!((pasp.h_spacing, pasp.v_spacing), (4, 3));
    assert_eq!(img.mdcv.unwrap().display_primaries_xy[2], (5, 6));
    assert_eq!(img.clli.unwrap().max_pic_average_light_level, 12);
    assert_eq!(img.amve.unwrap().ambient_light_y, 15);
    let meta = &img.meta;
    assert!(matches!(meta.property_for(1, b"clap"), Some(Property::Clap(c)) if *c == clap));
    assert!(matches!(meta.property_for(1, b"irot"), Some(Property::Irot(r)) if r.angle == 3));
    assert!(matches!(meta.property_for(1, b"imir"), Some(Property::Imir(r)) if r.axis == 1));
    assert!(matches!(meta.property_for(1, b"lsel"), Some(Property::Lsel(l)) if l.layer_id == 2));
    assert!(matches!(meta.property_for(1, b"a1op"), Some(Property::A1op(a)) if a.op_index == 5));
    assert!(
        matches!(meta.property_for(1, b"a1lx"), Some(Property::A1lx(a)) if a.layer_size == [70_000, 2, 3])
    );
    assert!(audit_mif1(&file).unwrap().is_compliant());
}

#[test]
fn an_icc_profile_reads_back() {
    let file = AvifMuxer::new(2, 2, vec![1], record())
        .with_colr(Colr::Icc(vec![7, 8, 9]))
        .build()
        .unwrap();
    assert_eq!(inspect(&file).unwrap().colour, Some(Colr::Icc(vec![7, 8, 9])));
}

#[test]
fn a_still_with_auxiliaries_inspects_as_made() {
    let file = AvifMuxer::new(24, 16, b"colour".to_vec(), record())
        .with_pixi(vec![8, 8, 8])
        .with_alpha(b"alpha".to_vec(), record(), true)
        .with_alpha_pixi(vec![8])
        .with_depth(b"depth".to_vec(), record())
        .with_exif(b"\x00\x00\x00\x00II*\x00".to_vec())
        .with_xmp(b"<x/>".to_vec())
        .build()
        .unwrap();
    let info = inspect(&file).unwrap();
    assert_eq!((info.width, info.height), (24, 16));
    assert_eq!(info.obu_bytes, b"colour");
    assert!(info.has_alpha && info.premultiplied_alpha && !info.is_grid);
    assert_eq!(info.alpha_aux_kind, Some(AuxKind::Alpha));
    assert_eq!(info.depth_map_item_id, Some(3));
    assert_eq!(info.aux_items, vec![(2, AuxKind::Alpha), (3, AuxKind::DepthMap)]);
    assert_eq!(info.hdr_gain_map_item_id, None);
    assert_eq!(info.tone_map_compliance.len(), info.tmap_item_ids.len());
    assert_eq!(info.iden_compliance.len(), info.iden_item_ids.len());
    assert_eq!(info.chroma_subsampling.is_some(), info.bit_depth.is_some() && !info.monochrome);
    assert_eq!(info.exif_item_id, Some(4));
    assert_eq!(info.xmp_item_id, Some(5));
    assert_eq!(item_payload_bytes(&file, 2).unwrap(), b"alpha");
    assert_eq!(item_payload_bytes(&file, 3).unwrap(), b"depth");
    assert_eq!(item_payload_bytes(&file, 5).unwrap(), b"<x/>");
    assert!(info.alpha_bit_depth_strict_compliant());
    assert!(!info.sequence_header_obu_strict_compliant());
    assert!(info.is_strict_mif1());
    assert_eq!(info.num_channels(), 3);
    assert_eq!(info.max_bit_depth(), 8);
    assert!(!info.is_monochrome());
    assert_eq!(info.avif_profile_compliance[0].profile, AvifProfile::Baseline);
    assert_eq!(info.avif_profile_compliance[0].coded, Some((0, 12)));
    assert!(info.avif_profile_strict_compliant());
}

#[test]
fn straight_alpha_is_not_premultiplied() {
    let file = AvifMuxer::new(4, 4, vec![1], record())
        .with_alpha(vec![2], record(), false)
        .build()
        .unwrap();
    let info = inspect(&file).unwrap();
    assert!(info.has_alpha);
    assert!(!info.premultiplied_alpha);
    assert!(!parse_header(&file).unwrap().meta.is_alpha_premultiplied_for(1));
}

#[test]
fn an_identity_derivation_has_the_size_of_what_it_shows() {
    let file = AvifMuxer::new(40, 20, b"coded".to_vec(), record())
        .with_pixi(vec![8, 8, 8])
        .with_colr(nclx())
        .with_irot(1)
        .with_identity_derivation(IdentityDerivation {
            clap: Some(Clap {
                clean_aperture_width_n: 10,
                clean_aperture_width_d: 1,
                clean_aperture_height_n: 30,
                clean_aperture_height_d: 1,
                horiz_off_n: 0,
                horiz_off_d: 1,
                vert_off_n: 0,
                vert_off_d: 1,
            }),
            irot: Some(5),
            imir: Some(2),
        })
        .build()
        .unwrap();
    let header = parse_header(&file).unwrap();
    assert_eq!(header.meta.primary_item_id, Some(2));
    assert!(matches!(header.meta.property_for(2, b"ispe"),
        Some(Property::Ispe(e)) if (e.width, e.height) == (20, 40)));
    assert_eq!(reconstructed_dims(&header.meta, 2, &file), Some((20, 40)));
    assert_eq!(
        transform_chain(&header.meta, 2),
        vec![
            DimTransform::Crop {
                width_n: 10,
                width_d: 1,
                height_n: 30,
                height_d: 1,
            },
            DimTransform::Rotate { angle: 1 },
            DimTransform::Mirror { axis: 0 },
        ]
    );
    let info = inspect(&file).unwrap();
    assert_eq!((info.width, info.height), (30, 10));
    assert_eq!(info.av1c, record());
    assert!(info.obu_bytes.is_empty());
    assert_eq!(info.colour, Some(nclx()));
    assert_eq!(info.iden_item_ids, vec![2]);
    assert!(info.iden_strict_compliant());
    let one = &resolve_iden_derivations(&header.meta, &file)[0];
    assert_eq!(one.source_item_id, 1);
    assert_eq!(one.source_dims, Some((20, 40)));
    assert_eq!(one.output_dims, Some((30, 10)));
    assert_eq!(info.iden_resolution_for(2).unwrap().output_dims, Some((30, 10)));
    assert!(info.iden_resolution_for(1).is_none());
}

#[test]
fn a_grid_with_alpha_inspects_as_made() {
    let file = AvifGridMuxer::new(2, 2, 30, 15)
        .tile(tile(1))
        .tile(tile(2))
        .tile(tile(3))
        .tile(tile(4))
        .alpha_tile(tile(5))
        .alpha_tile(tile(6))
        .alpha_tile(tile(7))
        .alpha_tile(tile(8))
        .with_alpha_pixi(vec![8])
        .premultiplied_alpha(true)
        .with_pixi(vec![8, 8, 8])
        .with_colr(nclx())
        .with_irot(1)
        .with_xmp(b"<x/>".to_vec())
        .build()
        .unwrap();
    let info = inspect(&file).unwrap();
    assert!(info.is_grid && info.has_alpha && info.premultiplied_alpha);
    assert_eq!((info.width, info.height), (30, 15));
    assert_eq!(info.av1c, record());
    assert_eq!(info.colour, Some(nclx()));
    assert_eq!(info.xmp_item_id, Some(11));
    let header = parse_header(&file).unwrap();
    assert_eq!(header.meta.iref_targets(b"dimg", 1), vec![2, 3, 4, 5]);
    assert_eq!(header.meta.iref_targets(b"dimg", 6), vec![7, 8, 9, 10]);
    assert_eq!(find_alpha_item_id(&header.meta, 1), Some(6));
    assert_eq!(header.item_data(4).unwrap(), vec![3, 3, 3]);
    assert_eq!(header.item_data(10).unwrap(), vec![8, 8, 8]);
    let grids = resolve_grids(&header.meta, &file);
    assert_eq!(grids.len(), 2);
    assert_eq!(grids[0].tile_dims, Some((16, 8)));
    let last = grids[0].tiles[3];
    assert_eq!((last.row, last.column, last.x, last.y), (1, 1, 16, 8));
    assert_eq!((last.visible_width, last.visible_height), (14, 7));
    assert!(info.grid_derivations_strict_compliant());
    assert_eq!(info.grid_resolution_for(1).unwrap().tiles.len(), 4);
}

#[test]
fn an_overlay_inspects_as_made() {
    let mut second = layer(2, -3, 4);
    second.alpha = Some((b"alpha".to_vec(), record()));
    second.alpha_pixi = Some(vec![8]);
    second.premultiplied = true;
    let file = AvifOverlayMuxer::new(20, 12)
        .with_fill([1, 2, 3, 65535])
        .layer(layer(1, 0, 0))
        .layer(second)
        .layer(layer(3, 30, 0))
        .with_irot(1)
        .build()
        .unwrap();
    let info = inspect(&file).unwrap();
    assert_eq!((info.width, info.height), (12, 20));
    assert_eq!(info.av1c, record());
    assert_eq!(info.bits_per_channel, vec![8, 8, 8]);
    assert!(info.has_overlay() && !info.is_grid);
    let header = parse_header(&file).unwrap();
    assert_eq!(header.meta.iref_targets(b"dimg", 1), vec![2, 3, 5]);
    assert_eq!(find_alpha_item_id(&header.meta, 3), Some(4));
    assert_eq!(header.item_data(4).unwrap(), b"alpha");
    assert_eq!(header.item_data(5).unwrap(), vec![3; 4]);
    let one = &resolve_overlays(&header.meta, &file)[0];
    assert_eq!(one.overlay.canvas_fill_value, [1, 2, 3, 65535]);
    assert_eq!((one.overlay.output_width, one.overlay.output_height), (20, 12));
    assert_eq!(one.placements[1].offset_x, -3);
    assert_eq!(one.placements[1].offset_y, 4);
    assert_eq!(one.placements[1].dims, Some((10, 6)));
    assert_eq!(one.placements[1].visible, Some((0, 4, 7, 6)));
    assert_eq!(one.placements[2].visible, None);
    assert_eq!(info.overlay_for(1).unwrap().placements.len(), 3);
}

#[test]
fn offsets_of_more_than_sixteen_bits_read_back() {
    let file = AvifOverlayMuxer::new(70_000, 2)
        .layer(layer(1, -70_000, 40_000))
        .build()
        .unwrap();
    let header = parse_header(&file).unwrap();
    let one = &resolve_overlays(&header.meta, &file)[0];
    assert_eq!(one.overlay.entries[0].horizontal_offset, -70_000);
    assert_eq!(one.overlay.entries[0].vertical_offset, 40_000);
}

#[test]
fn the_muxers_say_why_they_refuse() {
    assert_eq!(
        AvifMuxer::new(1, 1, vec![0], vec![1, 2, 3]).build(),
        Err(AvifError::InvalidData(
            "avif mux: av1C configuration record must be at least 4 bytes".to_string()
        ))
    );
    assert!(AvifMuxer::new(1, 1, vec![0], record())
        .with_colr(Colr::Unknown(*b"abcd"))
        .build()
        .is_err());
    assert!(AvifMuxer::new(1, 1, vec![0], record())
        .with_exif(vec![1, 2, 3])
        .build()
        .is_err());
    assert!(AvifMuxer::new(1, 1, vec![0], record())
        .with_xmp(vec![0xff])
        .build()
        .is_err());
    assert_eq!(
        AvifMuxer::new(1, 1, vec![0], vec![0x01, 0, 0, 0]).build(),
        Err(AvifError::InvalidData("av1C: marker bit is 0".to_string()))
    );
    assert_eq!(
        AvifMuxer::new(1, 1, vec![0], vec![0x82, 0, 0, 0]).build(),
        Err(AvifError::InvalidData("av1C: version 2 (expected 1)".to_string()))
    );
    assert!(AvifGridMuxer::new(0, 0, 1, 1).build().is_err());
    assert!(AvifGridMuxer::new(1, 1, 1, 1)
        .tile(tile(1))
        .alpha_tile(tile(1))
        .alpha_tile(tile(2))
        .build()
        .is_err());
    assert!(AvifOverlayMuxer::new(1, 1).build().is_err());
}

#[test]
fn the_short_form_writes_the_same_file() {
    let a = encode_still_av1(8, 6, b"x".to_vec(), record(), vec![8]).unwrap();
    let b = AvifMuxer::new(8, 6, b"x".to_vec(), record())
        .with_pixi(vec![8])
        .build()
        .unwrap();
    assert_eq!(a, b);
}

#[test]
fn files_that_are_cut_short_are_refused() {
    let file = AvifMuxer::new(8, 6, b"x".to_vec(), record()).build().unwrap();
    assert!(inspect(&file).is_ok());
    for n in 0..file.len() {
        assert!(parse(&file[..n]).is_err(), "{n}");
    }
    assert_eq!(
        parse(&[]).err().unwrap().to_string(),
        "invalid data: avif: missing ftyp"
    );
    assert!(gain_map_metadata(&file, 1).is_err());
}

#[test]
fn the_flags_tell_what_is_there() {
    let still = AvifMuxer::new(4, 4, vec![1], record())
        .with_pasp(Pasp {
            h_spacing: 4,
            v_spacing: 3,
        })
        .with_amve(Amve {
            ambient_illuminance: 13,
            ambient_light_x: 14,
            ambient_light_y: 15,
        })
        .build()
        .unwrap();
    let info = inspect(&still).unwrap();
    assert!(!info.has_square_pixels());
    assert!(info.has_ambient_viewing_environment());
    assert!(!info.has_hdr_gain_map() && !info.has_sample_transform());
    assert!(!info.has_tone_map() && info.tone_map_strict_compliant());
    assert!(info.tone_map_resolution_for(1).is_none());
    assert!(!info.has_iden() && !info.has_grid());
    let grid = AvifGridMuxer::new(1, 1, 16, 8).tile(tile(1)).build().unwrap();
    let info = inspect(&grid).unwrap();
    assert!(info.has_grid() && info.has_square_pixels());
    assert!(!info.has_ambient_viewing_environment());
    let derived = AvifMuxer::new(4, 4, vec![1], record())
        .with_identity_derivation(IdentityDerivation {
            clap: None,
            irot: Some(1),
            imir: None,
        })
        .build()
        .unwrap();
    assert!(inspect(&derived).unwrap().has_iden());
}

#[test]
fn a_grid_of_too_many_tiles_is_refused() {
    let many = |rows, columns, n: usize| {
        let mut m = AvifGridMuxer::new(rows, columns, 16, 8);
        for _ in 0..n {
            m = m.tile(tile(1));
        }
        m.build().unwrap_err().to_string()
    };
    assert_eq!(many(151, 217, 32767), "invalid data: more than 32767 properties");
    assert!(many(2, 2, 32762).contains("grid needs"));
    assert!(many(0, 0, 0).contains("at least one tile"));
}
