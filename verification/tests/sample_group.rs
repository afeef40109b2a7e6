//! Sample groups.

use oxideav_avif::groups::BracketingKind;
use oxideav_avif::sample_group::{
    BitReader, BracketingEntry, SampleToGroupKind, SampleToGroupRun, VisualEquivalenceEntry,
    parse_csgp, parse_sample_group_descriptions, parse_sample_to_groups, parse_sbgp, parse_sgpd,
};

/// A fraction as a number.
fn quotient<T: Into<f64>>(terms: (T, T)) -> f64 {
    terms.0.into() / terms.1.into()
}

fn full_box(version: u8, flags: u32, body: &[u8]) -> Vec<u8> {
    let mut out = vec![
        version,
        (flags >> 16) as u8,
        (flags >> 8) as u8,
        flags as u8,
    ];
    out.extend_from_slice(body);
    out
}

fn wrap(btype: &[u8; 4], payload: &[u8]) -> Vec<u8> {
    let size = (8 + payload.len()) as u32;
    let mut out = size.to_be_bytes().to_vec();
    out.extend_from_slice(btype);
    out.extend_from_slice(payload);
    out
}

// ---- sbgp ----

#[test]
fn sbgp_v0_runs_and_per_sample_lookup() {
    // grouping_type 'roll', 2 entries: (3 samples -> idx 1),
    // (2 samples -> idx 2).
    let mut body = Vec::new();
    body.extend_from_slice(b"roll");
    body.extend_from_slice(&2u32.to_be_bytes()); // entry_count
    body.extend_from_slice(&3u32.to_be_bytes()); // sample_count
    body.extend_from_slice(&1u32.to_be_bytes()); // index
    body.extend_from_slice(&2u32.to_be_bytes()); // sample_count
    body.extend_from_slice(&2u32.to_be_bytes()); // index
    let payload = full_box(0, 0, &body);

    let stg = parse_sbgp(&payload).unwrap();
    assert_eq!(stg.kind, SampleToGroupKind::Sbgp);
    assert_eq!(&stg.grouping_type, b"roll");
    assert_eq!(stg.grouping_type_parameter, None);
    assert_eq!(stg.index_bits, 32);
    assert_eq!(stg.runs.len(), 2);
    assert_eq!(stg.covered_sample_count(), 5);
    // samples 0,1,2 -> idx 1; samples 3,4 -> idx 2; sample 5 -> None
    assert_eq!(stg.group_index_for_sample(0), Some(1));
    assert_eq!(stg.group_index_for_sample(2), Some(1));
    assert_eq!(stg.group_index_for_sample(3), Some(2));
    assert_eq!(stg.group_index_for_sample(4), Some(2));
    assert_eq!(stg.group_index_for_sample(5), None);
}

#[test]
fn sbgp_v1_carries_grouping_type_parameter() {
    let mut body = Vec::new();
    body.extend_from_slice(b"sync");
    body.extend_from_slice(&0xDEAD_BEEFu32.to_be_bytes()); // grouping_type_parameter
    body.extend_from_slice(&1u32.to_be_bytes()); // entry_count
    body.extend_from_slice(&4u32.to_be_bytes()); // sample_count
    body.extend_from_slice(&0u32.to_be_bytes()); // index 0 = no group
    let payload = full_box(1, 0, &body);
    let stg = parse_sbgp(&payload).unwrap();
    assert_eq!(stg.grouping_type_parameter, Some(0xDEAD_BEEF));
    assert_eq!(stg.runs.len(), 1);
    assert_eq!(stg.group_index_for_sample(0), Some(0));
}

#[test]
fn sbgp_truncated_entries_bounded() {
    // entry_count says 4 but only one full entry follows.
    let mut body = Vec::new();
    body.extend_from_slice(b"roll");
    body.extend_from_slice(&4u32.to_be_bytes());
    body.extend_from_slice(&2u32.to_be_bytes());
    body.extend_from_slice(&1u32.to_be_bytes());
    body.extend_from_slice(&7u32.to_be_bytes()); // dangling half-entry
    let payload = full_box(0, 0, &body);
    let stg = parse_sbgp(&payload).unwrap();
    assert_eq!(stg.runs.len(), 1);
}

#[test]
fn sbgp_too_short_header_errors() {
    let payload = full_box(0, 0, b"ro"); // not even a four-CC
    assert!(parse_sbgp(&payload).is_err());
}

// ---- csgp ----

#[test]
fn csgp_all_8bit_single_pattern() {
    // codes: index=1 (8b), count=1 (8b), pattern=1 (8b),
    // grouping_type_parameter_present = 0.
    // flags = index(0..1)=01 | count(2..3)=01<<2 | pattern(4..5)=01<<4
    let flags = 0b01 | (0b01 << 2) | (0b01 << 4);
    let mut body = Vec::new();
    body.extend_from_slice(b"roll"); // grouping_type (32, byte-aligned)
    body.extend_from_slice(&1u32.to_be_bytes()); // pattern_count (32)
                                                 // pattern 0: pattern_length=2 (8b), sample_count=5 (8b)
    body.push(2);
    body.push(5);
    // indices for pattern 0: [3, 4] (8b each)
    body.push(3);
    body.push(4);
    let payload = full_box(0, flags, &body);

    let stg = parse_csgp(&payload).unwrap();
    assert_eq!(stg.kind, SampleToGroupKind::Csgp);
    assert_eq!(&stg.grouping_type, b"roll");
    assert_eq!(stg.index_bits, 8);
    // pattern_length=2 over 5 samples: base=2, rem=1 -> runs [3 (3 samples), 4 (2 samples)]
    assert_eq!(stg.runs.len(), 2);
    assert_eq!(stg.runs[0].sample_count, 3);
    assert_eq!(stg.runs[0].group_description_index, 3);
    assert_eq!(stg.runs[1].sample_count, 2);
    assert_eq!(stg.runs[1].group_description_index, 4);
    assert_eq!(stg.covered_sample_count(), 5);
    assert_eq!(stg.group_index_for_sample(0), Some(3));
    assert_eq!(stg.group_index_for_sample(2), Some(3));
    assert_eq!(stg.group_index_for_sample(3), Some(4));
    assert_eq!(stg.group_index_for_sample(4), Some(4));
    assert_eq!(stg.group_index_for_sample(5), None);
}

#[test]
fn csgp_4bit_indices_packed() {
    // index_size_code = 0 -> 4-bit indices; count/pattern = 8-bit.
    let flags = (0b01 << 2) | (0b01 << 4);
    let mut body = Vec::new();
    body.extend_from_slice(b"abcd");
    body.extend_from_slice(&1u32.to_be_bytes()); // pattern_count
    body.push(3); // pattern_length = 3 (8b)
    body.push(3); // sample_count = 3 (8b)
                  // three 4-bit indices: 1, 2, 15 -> bytes 0x12, 0xF0 (last nibble padding)
    body.push(0x12);
    body.push(0xF0);
    let payload = full_box(0, flags, &body);
    let stg = parse_csgp(&payload).unwrap();
    assert_eq!(stg.index_bits, 4);
    assert_eq!(stg.runs.len(), 3);
    assert_eq!(stg.runs[0].group_description_index, 1);
    assert_eq!(stg.runs[1].group_description_index, 2);
    assert_eq!(stg.runs[2].group_description_index, 15);
    // base=1, rem=0 -> each run is 1 sample.
    assert_eq!(stg.runs.iter().map(|r| r.sample_count).sum::<u32>(), 3);
    assert_eq!(stg.group_index_for_sample(0), Some(1));
    assert_eq!(stg.group_index_for_sample(1), Some(2));
    assert_eq!(stg.group_index_for_sample(2), Some(15));
}

#[test]
fn csgp_grouping_type_parameter_present() {
    let flags = (0b01) | (0b01 << 2) | (0b01 << 4) | (1 << 6);
    let mut body = Vec::new();
    body.extend_from_slice(b"roll");
    body.extend_from_slice(&0x1234_5678u32.to_be_bytes()); // grouping_type_parameter
    body.extend_from_slice(&1u32.to_be_bytes()); // pattern_count
    body.push(1); // pattern_length
    body.push(2); // sample_count
    body.push(7); // single index
    let payload = full_box(0, flags, &body);
    let stg = parse_csgp(&payload).unwrap();
    assert_eq!(stg.grouping_type_parameter, Some(0x1234_5678));
    assert_eq!(stg.runs.len(), 1);
    assert_eq!(stg.runs[0].sample_count, 2);
    assert_eq!(stg.runs[0].group_description_index, 7);
}

#[test]
fn csgp_fragment_local_msb() {
    // 8-bit index with msb set -> fragment-local at bits=8.
    let run = SampleToGroupRun {
        sample_count: 1,
        group_description_index: 0x83, // msb of 8-bit set, low = 3
    };
    assert!(run.is_fragment_local(8));
    assert_eq!(run.description_index(8), 3);
    // at 32-bit width the same value's msb is clear.
    assert!(!run.is_fragment_local(32));
    assert_eq!(run.description_index(32), 0x83);
}

// ---- sgpd ----

#[test]
fn sgpd_v2_default_index() {
    let mut body = Vec::new();
    body.extend_from_slice(b"roll");
    body.extend_from_slice(&2u32.to_be_bytes()); // default_group_description_index
    body.extend_from_slice(&0u32.to_be_bytes()); // entry_count
    let payload = full_box(2, 0, &body);
    let sgpd = parse_sgpd(&payload).unwrap();
    assert_eq!(sgpd.version, 2);
    assert_eq!(&sgpd.grouping_type, b"roll");
    assert_eq!(sgpd.default_group_description_index, Some(2));
    assert_eq!(sgpd.default_length, None);
    assert_eq!(sgpd.entry_count, 0);
}

#[test]
fn sgpd_v1_default_length() {
    let mut body = Vec::new();
    body.extend_from_slice(b"sync");
    body.extend_from_slice(&8u32.to_be_bytes()); // default_length
    body.extend_from_slice(&1u32.to_be_bytes()); // entry_count
    let payload = full_box(1, 0, &body);
    let sgpd = parse_sgpd(&payload).unwrap();
    assert_eq!(sgpd.default_length, Some(8));
    assert_eq!(sgpd.default_group_description_index, None);
    assert_eq!(sgpd.entry_count, 1);
}


#[test]
fn sgpd_v1_fixed_length_slices_entries() {
    // 'aebr' with default_length=2 and two entries.
    let mut body = Vec::new();
    body.extend_from_slice(b"aebr");
    body.extend_from_slice(&2u32.to_be_bytes()); // default_length
    body.extend_from_slice(&2u32.to_be_bytes()); // entry_count
    body.extend_from_slice(&[1u8, 3u8]); // step=1 (full), num=3
    body.extend_from_slice(&[0xFEu8, 0x02u8]); // step=-2, num=2
    let sgpd = parse_sgpd(&full_box(1, 0, &body)).unwrap();
    assert_eq!(sgpd.entries.len(), 2);
    let decoded = sgpd.bracketing_entries().unwrap().unwrap();
    assert_eq!(
        decoded[0],
        BracketingEntry::AutoExposure {
            exposure_step: 1,
            exposure_numerator: 3,
        }
    );
    assert_eq!(
        decoded[1],
        BracketingEntry::AutoExposure {
            exposure_step: -2,
            exposure_numerator: 2,
        }
    );
}

#[test]
fn sgpd_v1_self_describing_entries() {
    // 'wbbr' with default_length=0 → each entry prefixed by its own
    // description_length. WhiteBalanceBracketingEntry is 3 bytes.
    let mut body = Vec::new();
    body.extend_from_slice(b"wbbr");
    body.extend_from_slice(&0u32.to_be_bytes()); // default_length = 0
    body.extend_from_slice(&1u32.to_be_bytes()); // entry_count
    body.extend_from_slice(&3u32.to_be_bytes()); // description_length
    body.extend_from_slice(&5500u16.to_be_bytes()); // blue_amber (K)
    body.push(0xF6u8); // green_magenta = -10 (1/100 Duv, magenta)
    let sgpd = parse_sgpd(&full_box(1, 0, &body)).unwrap();
    assert_eq!(sgpd.entries.len(), 1);
    let decoded = sgpd.bracketing_entries().unwrap().unwrap();
    assert_eq!(
        decoded[0],
        BracketingEntry::WhiteBalance {
            blue_amber: 5500,
            green_magenta: -10,
        }
    );
}

#[test]
fn bracketing_entry_focus_infinity_and_flash_and_dof() {
    // Focus at infinity: denominator 0.
    let focus = BracketingEntry::parse(
        BracketingKind::Focus,
        &[0x00, 0x00, 0x00, 0x00],
    )
    .unwrap();
    assert_eq!(
        focus,
        BracketingEntry::Focus {
            focus_distance_numerator: 0,
            focus_distance_denominator: 0,
        }
    );

    let flash =
        BracketingEntry::parse(BracketingKind::FlashExposure, &[0x01, 0x02])
            .unwrap();
    assert_eq!(
        flash,
        BracketingEntry::FlashExposure {
            flash_exposure_numerator: 1,
            flash_exposure_denominator: 2,
        }
    );

    let dof =
        BracketingEntry::parse(BracketingKind::DepthOfField, &[0xFF, 0x02])
            .unwrap();
    assert_eq!(
        dof,
        BracketingEntry::DepthOfField {
            f_stop_numerator: -1,
            f_stop_denominator: 2,
        }
    );
}

#[test]
fn bracketing_entry_rejects_truncated() {
    // A 1-byte slice cannot hold a 2-byte aebr entry.
    assert!(
        BracketingEntry::parse(BracketingKind::AutoExposure, &[0x01]).is_err()
    );
    // A 2-byte slice cannot hold a 3-byte wbbr entry.
    assert!(BracketingEntry::parse(
        BracketingKind::WhiteBalance,
        &[0x01, 0x02]
    )
    .is_err());
}

#[test]
fn sgpd_eqiv_entries_decode() {
    // 'eqiv' v1 default_length=4 with two VisualEquivalenceEntry.
    let mut body = Vec::new();
    body.extend_from_slice(b"eqiv");
    body.extend_from_slice(&4u32.to_be_bytes()); // default_length
    body.extend_from_slice(&2u32.to_be_bytes()); // entry_count
    body.extend_from_slice(&5i16.to_be_bytes()); // time_offset = +5
    body.extend_from_slice(&(1u16 << 8).to_be_bytes()); // multiplier 1.0
    body.extend_from_slice(&(-3i16).to_be_bytes()); // time_offset = -3
    body.extend_from_slice(&512u16.to_be_bytes()); // multiplier 2.0
    let sgpd = parse_sgpd(&full_box(1, 0, &body)).unwrap();
    let entries = sgpd.equivalence_entries().unwrap().unwrap();
    assert_eq!(entries.len(), 2);
    assert_eq!(entries[0].time_offset, 5);
    assert_eq!(entries[0].timescale_multiplier, 256);
    assert_eq!(entries[0].timescale_multiplier_terms().map(quotient), Some(1.0));
    assert_eq!(entries[1].time_offset, -3);
    assert_eq!(entries[1].timescale_multiplier_terms().map(quotient), Some(2.0));
    // a non-eqiv sgpd returns None.
    assert!(sgpd.bracketing_entries().is_none());
}

#[test]
fn eqiv_entry_reserved_multiplier_and_truncation() {
    let e = VisualEquivalenceEntry::parse(&[0x00, 0x00, 0x00, 0x00]).unwrap();
    assert_eq!(e.timescale_multiplier, 0);
    // 0 multiplier is reserved → no f64 value.
    assert_eq!(e.timescale_multiplier_terms().map(quotient), None);
    assert!(VisualEquivalenceEntry::parse(&[0x00, 0x00, 0x00]).is_err());
}

#[test]
fn bracketing_entries_none_for_non_bracket_grouping() {
    let mut body = Vec::new();
    body.extend_from_slice(b"roll");
    body.extend_from_slice(&0u32.to_be_bytes()); // entry_count (v0)
    let sgpd = parse_sgpd(&full_box(0, 0, &body)).unwrap();
    assert!(sgpd.bracketing_entries().is_none());
    // v0 boxes never slice per-entry payloads.
    assert!(sgpd.entries.is_empty());
}

// ---- stbl walkers ----

#[test]
fn walk_stbl_collects_sbgp_and_sgpd() {
    let mut sbgp_body = Vec::new();
    sbgp_body.extend_from_slice(b"roll");
    sbgp_body.extend_from_slice(&1u32.to_be_bytes());
    sbgp_body.extend_from_slice(&3u32.to_be_bytes());
    sbgp_body.extend_from_slice(&1u32.to_be_bytes());
    let mut sgpd_body = Vec::new();
    sgpd_body.extend_from_slice(b"roll");
    sgpd_body.extend_from_slice(&0u32.to_be_bytes()); // entry_count (v0)

    let mut stbl = Vec::new();
    stbl.extend_from_slice(&wrap(b"sbgp", &full_box(0, 0, &sbgp_body)));
    stbl.extend_from_slice(&wrap(b"sgpd", &full_box(0, 0, &sgpd_body)));

    let stgs = parse_sample_to_groups(&stbl);
    assert_eq!(stgs.len(), 1);
    assert_eq!(&stgs[0].grouping_type, b"roll");
    let sgpds = parse_sample_group_descriptions(&stbl);
    assert_eq!(sgpds.len(), 1);
    assert_eq!(&sgpds[0].grouping_type, b"roll");
}

#[test]
fn walk_stbl_collects_csgp() {
    let flags = 0b01 | (0b01 << 2) | (0b01 << 4);
    let mut csgp_body = Vec::new();
    csgp_body.extend_from_slice(b"roll");
    csgp_body.extend_from_slice(&1u32.to_be_bytes());
    csgp_body.push(1);
    csgp_body.push(2);
    csgp_body.push(5);
    let mut stbl = Vec::new();
    stbl.extend_from_slice(&wrap(b"csgp", &full_box(0, flags, &csgp_body)));
    let stgs = parse_sample_to_groups(&stbl);
    assert_eq!(stgs.len(), 1);
    assert_eq!(stgs[0].kind, SampleToGroupKind::Csgp);
    assert_eq!(stgs[0].runs[0].group_description_index, 5);
}

#[test]
fn bit_reader_crosses_byte_boundary() {
    // bytes 0b1010_0110, 0b1100_0000
    let buf = [0b1010_0110u8, 0b1100_0000u8];
    let mut r = BitReader::new(&buf);
    assert_eq!(r.read(4), Some(0b1010));
    assert_eq!(r.read(4), Some(0b0110));
    assert_eq!(r.read(2), Some(0b11));
    assert_eq!(r.read(8), None); // only 6 bits left
}
