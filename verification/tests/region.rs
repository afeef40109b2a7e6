//! Region items.

use oxideav_avif::meta::Meta;
use oxideav_avif::meta_parse::{ITEM_TYPE_IDEN, IrefEntry, ItemInfo};
use oxideav_avif::region::{
    ITEM_TYPE_RGAN, REF_TYPE_DRGN, RegionGeometry, RegionItem, resolve_derived_region_items,
};

/// Build a 16-bit-field region-item payload from a list of geometry
/// byte-blobs (each already encoding its `geometry_type` + fields).
fn region_item_body(flags: u8, ref_w: u16, ref_h: u16, geoms: &[Vec<u8>]) -> Vec<u8> {
    let mut buf = vec![0u8, flags];
    let large = flags & 1 != 0;
    let push_u = |buf: &mut Vec<u8>, v: u32| {
        if large {
            buf.extend_from_slice(&v.to_be_bytes());
        } else {
            buf.extend_from_slice(&(v as u16).to_be_bytes());
        }
    };
    push_u(&mut buf, ref_w as u32);
    push_u(&mut buf, ref_h as u32);
    buf.push(geoms.len() as u8);
    for g in geoms {
        buf.extend_from_slice(g);
    }
    buf
}

fn i16b(v: i16) -> [u8; 2] {
    v.to_be_bytes()
}

fn u16b(v: u16) -> [u8; 2] {
    v.to_be_bytes()
}

#[test]
fn parses_point_rectangle_ellipse() {
    let mut point = vec![0u8]; // geometry_type 0
    point.extend_from_slice(&i16b(-5));
    point.extend_from_slice(&i16b(7));

    let mut rect = vec![1u8]; // geometry_type 1
    rect.extend_from_slice(&i16b(10));
    rect.extend_from_slice(&i16b(20));
    rect.extend_from_slice(&u16b(30));
    rect.extend_from_slice(&u16b(40));

    let mut ell = vec![2u8]; // geometry_type 2
    ell.extend_from_slice(&i16b(50));
    ell.extend_from_slice(&i16b(60));
    ell.extend_from_slice(&u16b(8));
    ell.extend_from_slice(&u16b(9));

    let body = region_item_body(0, 1920, 1080, &[point, rect, ell]);
    let ri = RegionItem::parse(&body).unwrap();
    assert!(!ri.is_large_field_size());
    assert_eq!(ri.reference_width, 1920);
    assert_eq!(ri.reference_height, 1080);
    assert_eq!(ri.region_count(), 3);
    assert_eq!(ri.regions[0], RegionGeometry::Point { x: -5, y: 7 });
    assert_eq!(
        ri.regions[1],
        RegionGeometry::Rectangle {
            x: 10,
            y: 20,
            width: 30,
            height: 40
        }
    );
    assert_eq!(
        ri.regions[2],
        RegionGeometry::Ellipse {
            x: 50,
            y: 60,
            radius_x: 8,
            radius_y: 9
        }
    );
    assert_eq!(ri.regions[0].geometry_type(), 0);
    assert_eq!(ri.regions[2].geometry_type(), 2);
}

#[test]
fn parses_polygon_and_polyline() {
    let mut poly = vec![3u8]; // geometry_type 3 (polygon)
    poly.extend_from_slice(&u16b(3)); // point_count
    for (px, py) in [(0i16, 0i16), (10, 0), (5, 8)] {
        poly.extend_from_slice(&i16b(px));
        poly.extend_from_slice(&i16b(py));
    }
    let mut line = vec![6u8]; // geometry_type 6 (polyline)
    line.extend_from_slice(&u16b(2));
    for (px, py) in [(-3i16, -4i16), (3, 4)] {
        line.extend_from_slice(&i16b(px));
        line.extend_from_slice(&i16b(py));
    }
    let body = region_item_body(0, 100, 100, &[poly, line]);
    let ri = RegionItem::parse(&body).unwrap();
    assert_eq!(
        ri.regions[0],
        RegionGeometry::Polygon {
            points: vec![(0, 0), (10, 0), (5, 8)]
        }
    );
    assert_eq!(
        ri.regions[1],
        RegionGeometry::Polyline {
            points: vec![(-3, -4), (3, 4)]
        }
    );
}

#[test]
fn referenced_mask_has_no_ref_idx_in_region_item() {
    let mut mask = vec![4u8]; // geometry_type 4
    mask.extend_from_slice(&i16b(1));
    mask.extend_from_slice(&i16b(2));
    mask.extend_from_slice(&u16b(0)); // width 0 → defer to ispe
    mask.extend_from_slice(&u16b(0)); // height 0 → defer to ispe
    let body = region_item_body(0, 64, 64, &[mask]);
    let ri = RegionItem::parse(&body).unwrap();
    assert_eq!(
        ri.regions[0],
        RegionGeometry::ReferencedMask {
            x: 1,
            y: 2,
            width: 0,
            height: 0,
            mask_ref_idx: None,
        }
    );
    assert!(ri.regions[0].is_mask());
}

#[test]
fn inline_mask_uncompressed_takes_trailing_bits() {
    let mut mask = vec![5u8]; // geometry_type 5
    mask.extend_from_slice(&i16b(0));
    mask.extend_from_slice(&i16b(0));
    mask.extend_from_slice(&u16b(16)); // 16x2 mask = 32 bits = 4 bytes
    mask.extend_from_slice(&u16b(2));
    mask.push(0); // mask_coding_method = 0 (uncompressed)
    mask.extend_from_slice(&[0xAA, 0x55, 0xF0, 0x0F]); // 4 data bytes
    let body = region_item_body(0, 16, 2, &[mask]);
    let ri = RegionItem::parse(&body).unwrap();
    match &ri.regions[0] {
        RegionGeometry::InlineMask {
            width,
            height,
            mask_coding_method,
            mask_coding_parameters,
            data,
            ..
        } => {
            assert_eq!(*width, 16);
            assert_eq!(*height, 2);
            assert_eq!(*mask_coding_method, 0);
            assert_eq!(*mask_coding_parameters, None);
            assert_eq!(data, &[0xAA, 0x55, 0xF0, 0x0F]);
        }
        other => panic!("expected InlineMask, got {other:?}"),
    }
}

#[test]
fn inline_mask_deflate_carries_coding_parameters() {
    let mut mask = vec![5u8];
    mask.extend_from_slice(&i16b(0));
    mask.extend_from_slice(&i16b(0));
    mask.extend_from_slice(&u16b(8));
    mask.extend_from_slice(&u16b(8));
    mask.push(1); // deflate
    mask.extend_from_slice(&3u32.to_be_bytes()); // 3 coded bytes
    mask.extend_from_slice(&[0x01, 0x02, 0x03]);
    let body = region_item_body(0, 8, 8, &[mask]);
    let ri = RegionItem::parse(&body).unwrap();
    match &ri.regions[0] {
        RegionGeometry::InlineMask {
            mask_coding_method,
            mask_coding_parameters,
            data,
            ..
        } => {
            assert_eq!(*mask_coding_method, 1);
            assert_eq!(*mask_coding_parameters, Some(3));
            assert_eq!(data, &[0x01, 0x02, 0x03]);
        }
        other => panic!("expected InlineMask, got {other:?}"),
    }
}

#[test]
fn large_field_size_uses_32bit_fields() {
    let mut rect = vec![1u8];
    rect.extend_from_slice(&(-100000i32).to_be_bytes());
    rect.extend_from_slice(&42i32.to_be_bytes());
    rect.extend_from_slice(&70000u32.to_be_bytes());
    rect.extend_from_slice(&80000u32.to_be_bytes());
    let body = region_item_body(1, 65535, 65535, &[rect]);
    let ri = RegionItem::parse(&body).unwrap();
    assert!(ri.is_large_field_size());
    assert_eq!(
        ri.regions[0],
        RegionGeometry::Rectangle {
            x: -100000,
            y: 42,
            width: 70000,
            height: 80000,
        }
    );
}

#[test]
fn rejects_unknown_version() {
    let mut body = region_item_body(0, 10, 10, &[]);
    body[0] = 1;
    assert!(RegionItem::parse(&body).is_err());
}

#[test]
fn rejects_reserved_geometry_type() {
    let body = region_item_body(0, 10, 10, &[vec![7u8]]);
    assert!(RegionItem::parse(&body).is_err());
}

#[test]
fn rejects_truncated_region_array() {
    // region_count says 1 but no geometry bytes follow.
    let mut body = vec![0u8, 0];
    body.extend_from_slice(&u16b(10));
    body.extend_from_slice(&u16b(10));
    body.push(1); // region_count = 1
    assert!(RegionItem::parse(&body).is_err());
}

#[test]
fn zero_regions_parses_empty() {
    let body = region_item_body(0, 320, 240, &[]);
    let ri = RegionItem::parse(&body).unwrap();
    assert_eq!(ri.region_count(), 0);
    assert_eq!(ri.reference_width, 320);
}

fn iden_item(id: u32) -> ItemInfo {
    ItemInfo {
        id,
        item_type: ITEM_TYPE_IDEN,
        name: String::new(),
        content_type: None,
        content_encoding: None,
        item_uri_type: None,
        flags: 0,
    }
}

fn rgan_item(id: u32) -> ItemInfo {
    ItemInfo {
        id,
        item_type: ITEM_TYPE_RGAN,
        name: String::new(),
        content_type: None,
        content_encoding: None,
        item_uri_type: None,
        flags: 0,
    }
}

/// A conformant identity derived region item: `'iden'` typed, one
/// `'drgn'` reference to a region item, no item body.
#[test]
fn derived_region_iden_is_compliant() {
    let meta = Meta {
        items: vec![iden_item(2), rgan_item(3)],
        irefs: vec![IrefEntry {
            reference_type: REF_TYPE_DRGN,
            from_id: 2,
            to_ids: vec![3],
        }],
        ..Meta::default()
    };
    let derived = resolve_derived_region_items(&meta);
    assert_eq!(derived.len(), 1);
    assert_eq!(derived[0].derived_item_id, 2);
    assert_eq!(derived[0].source_region_item_id, Some(3));
    assert_eq!(derived[0].drgn_reference_count, 1);
    assert!(derived[0].is_compliant());
    assert!(derived[0].missing().is_empty());
}

#[test]
fn derived_region_multi_input_is_non_compliant() {
    let meta = Meta {
        items: vec![iden_item(2)],
        irefs: vec![IrefEntry {
            reference_type: REF_TYPE_DRGN,
            from_id: 2,
            to_ids: vec![3, 4],
        }],
        ..Meta::default()
    };
    let d = &resolve_derived_region_items(&meta)[0];
    assert_eq!(d.drgn_reference_count, 2);
    assert_eq!(d.source_region_item_id, None);
    assert!(!d.is_compliant());
    assert!(d.missing().contains(&"drgn-reference-count-eq-1"));
}

#[test]
fn iden_without_drgn_is_not_a_derived_region() {
    let meta = Meta {
        items: vec![iden_item(2)],
        irefs: vec![IrefEntry {
            reference_type: *b"dimg",
            from_id: 2,
            to_ids: vec![3],
        }],
        ..Meta::default()
    };
    assert!(resolve_derived_region_items(&meta).is_empty());
}
