//! Boxes, coded units, groups, gain maps and colour.

use oxideav_avif::audits::{audit_iden_derivations, audit_tone_map};
use oxideav_avif::box_parser::{find_box, parse_box_header, read_var_uint};
use oxideav_avif::cicp::{effective_cicp, CicpTriple};
use oxideav_avif::error::AvifError;
use oxideav_avif::gain_map::{GainMapMetadata, GainMapRational};
use oxideav_avif::groups::{parse_grpl, BracketingKind};
use oxideav_avif::image::{AvifFrame, AvifPixelFormat, AvifPlane};
use oxideav_avif::meta::{
    IlocExtent, IrefEntry, ItemInfo, ItemLocation, ItemPropertyAssociation, Meta,
    PropertyAssociation,
};
use oxideav_avif::meta_parse::parse_iloc;
use oxideav_avif::obu::{push_leb, read_leb, read_obu, replace_headers};
use oxideav_avif::overlay::{unpack_planes, SamplePlanes};
use oxideav_avif::parser::item_bytes_owned_full;
use oxideav_avif::props::{Colr, Crtt, Ispe, Property};
use oxideav_avif::props_parse::parse_udes;
use oxideav_avif::region::{parse_geometry, RegionGeometry, RegionItem};
use oxideav_avif::resolve::resolve_tone_maps;

fn boxed(code: &[u8; 4], body: &[u8]) -> Vec<u8> {
    let mut out = ((body.len() + 8) as u32).to_be_bytes().to_vec();
    out.extend_from_slice(code);
    out.extend_from_slice(body);
    out
}

fn item(id: u32, code: &[u8; 4], flags: u32) -> ItemInfo {
    ItemInfo {
        id,
        item_type: *code,
        name: String::new(),
        content_type: None,
        content_encoding: None,
        item_uri_type: None,
        flags,
    }
}

#[test]
fn box_sizes_come_in_three_forms() {
    let mut s = boxed(b"aaaa", b"xy");
    s.extend_from_slice(&[0, 0, 0, 1]);
    s.extend_from_slice(b"bbbb");
    s.extend_from_slice(&18u64.to_be_bytes());
    s.extend_from_slice(b"zw");
    s.extend_from_slice(&[0, 0, 0, 0]);
    s.extend_from_slice(b"cccc");
    s.extend_from_slice(b"rest");
    let a = parse_box_header(&s, 0).unwrap();
    assert_eq!((a.payload_start, a.payload_len), (8, 2));
    let b = parse_box_header(&s, 10).unwrap();
    assert_eq!((&b.box_type, b.payload_start, b.payload_len), (b"bbbb", 26, 2));
    let c = find_box(&s, b"cccc").unwrap().unwrap();
    assert_eq!((c.payload_start, c.payload_len, c.end()), (36, 4, s.len()));
    assert!(find_box(&s, b"dddd").unwrap().is_none());
    assert!(parse_box_header(&s[..7], 0).is_err());
    assert!(parse_box_header(&[0, 0, 0, 7, 0, 0, 0, 0], 0).is_err());
    assert_eq!(read_var_uint(&[1, 2, 3], 0, 2).unwrap(), 0x102);
    assert_eq!(read_var_uint(&[1, 2, 3], 0, 0).unwrap(), 0);
}

#[test]
fn values_of_seven_bits_a_byte_read_back() {
    for n in [0u64, 1, 127, 128, 300, 16_383, 16_384, (1 << 56) - 1] {
        let mut s = vec![9];
        push_leb(&mut s, n);
        assert_eq!(read_leb(&s, 1), Some((n, s.len())));
    }
    assert_eq!(read_leb(&[0x80, 0x80], 0), None);
    assert_eq!(read_leb(&[0x80; 9], 0), None);
}

#[test]
fn coded_units_are_found_and_replaced() {
    let data = [0x12, 0x00, 0x0a, 0x02, 7, 8, 0x32, 0x01, 9];
    let header = read_obu(&data, 2).unwrap();
    assert_eq!((header.kind, header.payload, header.end), (1, 4, 6));
    let rest = read_obu(&[0x30, 1, 2, 3], 0).unwrap();
    assert_eq!((rest.kind, rest.payload, rest.end), (6, 1, 4));
    assert_eq!(
        replace_headers(&data, &[1, 2, 3]).unwrap(),
        vec![0x12, 0x00, 0x0a, 0x03, 1, 2, 3, 0x32, 0x01, 9]
    );
    assert!(read_obu(&[0x80], 0).is_err());
    assert!(read_obu(&[0x0a, 0x05, 1], 0).is_err());
    assert!(read_obu(&[0x0e], 0).is_err());
}

#[test]
fn entity_groups_are_listed() {
    let mut body = vec![0, 0, 0, 0];
    body.extend_from_slice(&7u32.to_be_bytes());
    body.extend_from_slice(&2u32.to_be_bytes());
    body.extend_from_slice(&1u32.to_be_bytes());
    body.extend_from_slice(&2u32.to_be_bytes());
    let groups = parse_grpl(&boxed(b"altr", &body)).unwrap();
    assert_eq!(groups.len(), 1);
    assert_eq!(&groups[0].grouping_type, b"altr");
    assert_eq!(groups[0].group_id, 7);
    assert_eq!(groups[0].entity_ids, vec![1, 2]);
    assert!(parse_grpl(&boxed(b"altr", &body[..14])).is_err());
    assert_eq!(BracketingKind::from_four_cc(b"fobr"), Some(BracketingKind::Focus));
    assert_eq!(BracketingKind::from_four_cc(b"none"), None);
}

fn rational(out: &mut Vec<u8>, n: i32, d: u32) {
    out.extend_from_slice(&n.to_be_bytes());
    out.extend_from_slice(&d.to_be_bytes());
}

fn gain_map(channels: usize) -> Vec<u8> {
    let mut s = vec![0, 0, 0, 1, if channels == 3 { 0xc0 } else { 0x00 }];
    rational(&mut s, 1, 2);
    rational(&mut s, 3, 4);
    for i in 0..channels as i32 {
        rational(&mut s, -5 - i, 6);
        rational(&mut s, 7, 8);
        rational(&mut s, 9, 10);
        rational(&mut s, 11, 12);
        rational(&mut s, -13, 14);
    }
    s
}

#[test]
fn gain_map_metadata_is_read() {
    let one = GainMapMetadata::parse(&gain_map(1)).unwrap();
    assert_eq!((one.minimum_version, one.writer_version), (0, 1));
    assert!(!one.is_multichannel && !one.use_base_colour_space);
    assert_eq!(
        one.base_hdr_headroom,
        GainMapRational {
            numerator: 1,
            denominator: 2
        }
    );
    assert_eq!(one.channels.len(), 1);
    assert_eq!(one.channels[0].gain_map_min.numerator, -5);
    assert_eq!(one.channels[0].alternate_offset.denominator, 14);
    let three = GainMapMetadata::parse(&gain_map(3)).unwrap();
    assert!(three.is_multichannel && three.use_base_colour_space);
    assert_eq!(three.channels[2].gain_map_min.numerator, -7);
    let s = gain_map(1);
    for n in 0..s.len() {
        assert!(GainMapMetadata::parse(&s[..n]).is_err(), "{n}");
    }
    let mut zero = gain_map(1);
    zero[9..13].copy_from_slice(&[0; 4]);
    assert!(matches!(GainMapMetadata::parse(&zero), Err(AvifError::InvalidData(_))));
    let mut flat = gain_map(1);
    flat[37..41].copy_from_slice(&[0; 4]);
    assert!(matches!(GainMapMetadata::parse(&flat), Err(AvifError::InvalidData(_))));
    let mut new = gain_map(1);
    new[1] = 1;
    assert!(matches!(GainMapMetadata::parse(&new), Err(AvifError::Unsupported(_))));
}

#[test]
fn tone_maps_are_worked_out() {
    let mut altr = vec![0, 0, 0, 0];
    altr.extend_from_slice(&9u32.to_be_bytes());
    altr.extend_from_slice(&2u32.to_be_bytes());
    altr.extend_from_slice(&1u32.to_be_bytes());
    altr.extend_from_slice(&3u32.to_be_bytes());
    let meta = Meta {
        items: vec![item(1, b"av01", 0), item(2, b"av01", 1), item(3, b"tmap", 0)],
        irefs: vec![IrefEntry {
            reference_type: *b"dimg",
            from_id: 3,
            to_ids: vec![1, 2],
        }],
        grpl: Some(boxed(b"altr", &altr)),
        ..Meta::default()
    };
    let audits = audit_tone_map(&meta);
    assert_eq!(audits.len(), 1);
    assert!(audits[0].paired_in_altr && audits[0].gain_maps_hidden);
    assert!(audits[0].is_compliant());
    let all = resolve_tone_maps(&meta, &[]);
    assert_eq!(all[0].base_item_id, 1);
    assert_eq!(all[0].gain_map_item_ids, vec![2]);
    assert_eq!(all[0].base_dims, None);
    let bare = Meta {
        grpl: None,
        ..meta
    };
    assert!(!audit_tone_map(&bare)[0].paired_in_altr);
    assert!(audit_iden_derivations(&bare).is_empty());
}

#[test]
fn items_inside_items_are_read() {
    let loc = |id, construction_method, offset, length| ItemLocation {
        id,
        construction_method,
        data_reference_index: 0,
        base_offset: 0,
        extents: vec![IlocExtent {
            offset,
            length,
            index: 1,
        }],
    };
    let meta = Meta {
        items: vec![item(1, b"av01", 0), item(2, b"mime", 0)],
        locations: vec![loc(1, 0, 1, 6), loc(2, 2, 2, 3), loc(3, 1, 0, 2)],
        irefs: vec![IrefEntry {
            reference_type: *b"iloc",
            from_id: 2,
            to_ids: vec![1],
        }],
        idat: Some(b"id".to_vec()),
        ..Meta::default()
    };
    let file = b"0123456789";
    assert_eq!(item_bytes_owned_full(file, &meta, 1).unwrap(), b"123456");
    assert_eq!(item_bytes_owned_full(file, &meta, 2).unwrap(), b"345");
    assert_eq!(item_bytes_owned_full(file, &meta, 3).unwrap(), b"id");
    assert_eq!(
        item_bytes_owned_full(file, &meta, 9).unwrap_err().to_string(),
        "invalid data: avif: item 9 missing in iloc"
    );
}

#[test]
fn colour_code_points_are_taken_from_nclx() {
    let colr = Colr::Nclx {
        colour_primaries: 1,
        transfer_characteristics: 2,
        matrix_coefficients: 3,
        full_range: true,
    };
    assert_eq!(
        effective_cicp(Some(&colr)),
        CicpTriple {
            colour_primaries: 1,
            transfer_characteristics: 2,
            matrix_coefficients: 3,
            full_range: true
        }
    );
    let none = effective_cicp(None);
    assert_eq!((none.colour_primaries, none.full_range), (2, false));
    assert_eq!(effective_cicp(Some(&Colr::Icc(vec![1]))), none);
}

#[test]
fn layouts_have_companions_with_alpha() {
    assert_eq!(
        AvifPixelFormat::Yuv420P.with_alpha(),
        Some(AvifPixelFormat::Yuva420P)
    );
    assert_eq!(AvifPixelFormat::Gray10Le.with_alpha(), Some(AvifPixelFormat::Ya16Le));
    assert_eq!(AvifPixelFormat::Ya8.with_alpha(), None);
    assert_eq!(AvifPixelFormat::Yuva444P12Le.plane_count(), 4);
    assert_eq!(AvifPixelFormat::Yuv422P.chroma_subsampling(), (1, 0));
    assert_eq!(
        AvifPixelFormat::from_layout(12, 1, 1, false, true),
        Some(AvifPixelFormat::Yuva420P12Le)
    );
}

#[test]
fn planes_that_are_too_short_are_refused() {
    let frame = AvifFrame {
        pts: None,
        planes: vec![AvifPlane {
            stride: 4,
            data: vec![0; 11],
        }],
    };
    assert!(unpack_planes(&frame, AvifPixelFormat::Gray8, 8, 4, 3).is_err());
    assert!(unpack_planes(&frame, AvifPixelFormat::Yuv420P, 8, 4, 2).is_err());
    let p = unpack_planes(&frame, AvifPixelFormat::Gray8, 8, 3, 2).unwrap();
    assert_eq!(p.y, vec![0; 6]);
}

#[test]
fn times_split_into_seconds_and_the_rest() {
    let c = Crtt {
        creation_time: 2_082_844_800_000_000 + 5_000_007,
    };
    assert_eq!(c.seconds_since_unix_epoch(), Some(5));
    assert_eq!(c.subsecond_micros(), 7);
}

#[test]
fn text_that_is_not_utf8_is_kept_readable() {
    let mut s = vec![0, 0, 0, 0];
    s.extend_from_slice(b"en\0a\xffb\0d\0x, y\0");
    let u = parse_udes(&s).unwrap();
    assert_eq!(u.name, "a\u{fffd}b");
    assert_eq!(u.tag_list(), vec!["x", "y"]);
}

#[test]
fn planes_have_a_format_without_their_alpha() {
    let mut planes = SamplePlanes {
        width: 2,
        height: 1,
        bit_depth: 8,
        sx: 1,
        sy: 0,
        gray: false,
        y: vec![1, 2],
        u: vec![3],
        v: vec![4],
        alpha: Some(vec![5, 6]),
    };
    assert_eq!(planes.base_format().unwrap(), AvifPixelFormat::Yuv422P);
    planes.gray = true;
    assert_eq!(planes.base_format().unwrap(), AvifPixelFormat::Gray8);
    planes.gray = false;
    planes.sx = 0;
    planes.sy = 1;
    assert!(matches!(planes.base_format(), Err(AvifError::Unsupported(_))));
}

#[test]
fn an_extent_lies_in_the_item_that_its_index_names() {
    let loc = |id, construction_method, extents: &[(u64, u64, u64)]| ItemLocation {
        id,
        construction_method,
        data_reference_index: 0,
        base_offset: 0,
        extents: extents
            .iter()
            .map(|&(offset, length, index)| IlocExtent {
                offset,
                length,
                index,
            })
            .collect(),
    };
    let meta = Meta {
        locations: vec![
            loc(1, 0, &[(0, 3, 1)]),
            loc(2, 0, &[(5, 4, 1)]),
            loc(3, 2, &[(1, 2, 2)]),
            loc(4, 2, &[(1, 1, 1), (0, 2, 2)]),
            loc(5, 2, &[(0, 1, 3)]),
            loc(6, 2, &[(0, 1, 0)]),
            loc(7, 2, &[(0, 1, 1)]),
            loc(8, 2, &[(0, 1, 1)]),
        ],
        irefs: (3..=6)
            .map(|from_id| IrefEntry {
                reference_type: *b"iloc",
                from_id,
                to_ids: vec![1, 2],
            })
            .chain([IrefEntry {
                reference_type: *b"iloc",
                from_id: 8,
                to_ids: vec![8],
            }])
            .collect(),
        ..Meta::default()
    };
    let file = b"0123456789";
    assert_eq!(item_bytes_owned_full(file, &meta, 3).unwrap(), b"67");
    assert_eq!(item_bytes_owned_full(file, &meta, 4).unwrap(), b"156");
    for (id, index) in [(5, 3), (6, 0), (7, 1)] {
        assert_eq!(
            item_bytes_owned_full(file, &meta, id).unwrap_err().to_string(),
            format!("invalid data: avif: item {id} lies in iloc reference {index}, which is absent")
        );
    }
    assert_eq!(
        item_bytes_owned_full(file, &meta, 8).unwrap_err().to_string(),
        "invalid data: avif: item 8 is its own data origin"
    );
}

#[test]
fn extent_indices_are_read() {
    let mut iloc = vec![1, 0, 0, 0, 0x11, 0x01, 0, 1];
    iloc.extend_from_slice(&[0, 7, 0, 2, 0, 0, 0, 1]);
    iloc.extend_from_slice(&[2, 5, 6]);
    let got = parse_iloc(&iloc).unwrap();
    assert_eq!(
        got[0].extents,
        vec![IlocExtent {
            offset: 5,
            length: 6,
            index: 2,
        }]
    );
}

#[test]
fn entries_that_point_outside_the_container_are_passed_over() {
    let meta = Meta {
        properties: vec![Property::Ispe(Ispe {
            width: 1,
            height: 2,
        })],
        associations: vec![ItemPropertyAssociation {
            item_id: 1,
            entries: vec![
                PropertyAssociation {
                    index: 5,
                    essential: false,
                },
                PropertyAssociation {
                    index: 0,
                    essential: false,
                },
            ],
        }],
        ..Meta::default()
    };
    assert!(matches!(meta.property_for(1, b"ispe"),
        Some(Property::Ispe(e)) if (e.width, e.height) == (1, 2)));
    assert!(meta.property_for(1, b"pixi").is_none());
}

#[test]
fn nothing_follows_an_inline_mask() {
    let mask = [5, 0, 0, 0, 0, 0, 8, 0, 1, 0, 0, 0];
    let (g, end) = parse_geometry(&mask, 0, false, false).unwrap();
    assert_eq!(end, mask.len());
    assert!(matches!(g, RegionGeometry::InlineMask { data, .. } if data == [0, 0]));
    let mut item = vec![0, 0, 0, 8, 0, 8, 1];
    item.extend_from_slice(&mask);
    assert_eq!(RegionItem::parse(&item).unwrap().regions.len(), 1);
    item[6] = 2;
    assert!(matches!(RegionItem::parse(&item), Err(AvifError::InvalidData(_))));
}

#[test]
fn unknown_boxes_inside_meta_change_nothing() {
    let mut pitm = boxed(b"pitm", &[0, 0, 0, 0, 0, 9]);
    let idat = boxed(b"idat", b"xyz");
    let strange = boxed(b"what", b"ever");
    let mut plain = vec![0, 0, 0, 0];
    plain.append(&mut pitm.clone());
    plain.extend_from_slice(&idat);
    let mut with = vec![0, 0, 0, 0];
    with.append(&mut pitm);
    with.extend_from_slice(&strange);
    with.extend_from_slice(&idat);
    for s in [plain, with] {
        let m = Meta::parse(&s).unwrap();
        assert_eq!(m.primary_item_id, Some(9));
        assert_eq!(m.idat.as_deref(), Some(&b"xyz"[..]));
    }
}

#[test]
fn tags_are_trimmed_of_all_white_space() {
    let mut body = vec![0, 0, 0, 0];
    body.extend_from_slice("en\0n\0d\0\u{3000}a b\u{a0},\u{85}\u{2003},\u{200b}c\u{1680}\0".as_bytes());
    let u = parse_udes(&body).unwrap();
    assert_eq!(u.tag_list(), vec!["a b", "\u{200b}c"]);
}
