//! Where the fields of the less common properties and of sample groups
//! stand, and what is accepted when a file is written.

use crate::audits::walk_units;
use crate::box_parser::{be16, be32, be64, box_at, cstr_at, nul_at, tail, BoxType};
use crate::derived::Mif1Compliance;
use crate::error::Fault;
use crate::groups::{bracketing_of, BracketingKind};
use crate::meta::MetaView;
use crate::meta_parse::iloc_widths;
use crate::mux_items::{exif_fault, xmp_fault};
use crate::mux_props::{record_fault, ProfileBrand};
use crate::obu::leb_from;
use crate::parser::mif1_from;
use crate::props::{
    comma_from, drop_white, skip_white, tags_from, trimmed, white_space, AlttView, UdesView,
};
use crate::props_parse::{
    aebr_of, afbr_of, altt_of, cclv_of, crtt_of, dobr_of, fobr_of, iscl_of, mdft_of, pano_of,
    rloc_of, rref_of, udes_of, wbbr_of,
};
use crate::sample_group::{
    bit_at, bits_at, bracketing_entry_of, csgp_of, equivalence_of, width_of, BracketingEntry,
};
use crate::sequence::brand_of;
use crate::text::lossy_text;
use vstd::prelude::*;

verus! {

// ---------------------------------------------------------------------
// Properties

proof fn lemma_tail(s: Seq<u8>)
    requires
        s.len() >= 4,
    ensures
        forall|i: int| 0 <= i < s.len() - 4 ==> #[trigger] tail(s, 4)[i] == s[i + 4],
        tail(s, 4).len() == s.len() - 4,
{
}

/// The fields of properties of fixed length, behind version and flags, of
/// which the version is 0.
pub proof fn law_fields_of_fixed_properties(s: Seq<u8>)
    requires
        s.len() >= 12,
        s[0] == 0,
    ensures
        rloc_of(s) matches Ok(r) && r.horizontal_offset == be32(s, 4) && r.vertical_offset == be32(
            s,
            8,
        ),
        iscl_of(s) matches Ok(r) && r.target_width_numerator == be16(s, 4)
            && r.target_width_denominator == be16(s, 6) && r.target_height_numerator == be16(s, 8)
            && r.target_height_denominator == be16(s, 10),
        crtt_of(s) matches Ok(r) && r.creation_time == be64(s, 4),
        mdft_of(s) matches Ok(r) && r.modification_time == be64(s, 4),
        aebr_of(s) matches Ok(r) && r.exposure_step == s[4] as i8 && r.exposure_numerator
            == s[5] as i8,
        wbbr_of(s) matches Ok(r) && r.blue_amber == be16(s, 4) && r.green_magenta == s[6] as i8,
        fobr_of(s) matches Ok(r) && r.focus_distance_numerator == be16(s, 4)
            && r.focus_distance_denominator == be16(s, 6),
        afbr_of(s) matches Ok(r) && r.flash_exposure_numerator == s[4] as i8
            && r.flash_exposure_denominator == s[5] as i8,
        dobr_of(s) matches Ok(r) && r.f_stop_numerator == s[4] as i8 && r.f_stop_denominator
            == s[5] as i8,
        pano_of(s) matches Ok(r) && r.panorama_direction == s[4] && (r.grid is Some <==> s[4] == 4
            || s[4] == 5) && (r.grid matches Some(g) ==> g.rows_minus_one == s[5]
            && g.columns_minus_one == s[6]),
        cclv_of(s) matches Ok(r) && r.max_content_light_level == be16(s, 0)
            && r.max_pic_average_light_level == be16(s, 2),
{
    lemma_tail(s);
    let b = tail(s, 4);
    assert(b[0] == s[4] && b[1] == s[5] && b[2] == s[6] && b[3] == s[7] && b[4] == s[8] && b[5]
        == s[9] && b[6] == s[10] && b[7] == s[11]);
}

/// `rref` counts the types of references that are needed, and lists them.
pub proof fn law_needed_references(s: Seq<u8>, k: int)
    requires
        rref_of(s) is Ok,
    ensures
        rref_of(s)->Ok_0.len() == s[4],
        0 <= k < s[4] ==> rref_of(s)->Ok_0[k] == [
            s[5 + 4 * k],
            s[6 + 4 * k],
            s[7 + 4 * k],
            s[8 + 4 * k],
        ],
{
    lemma_tail(s);
    let b = tail(s, 4);
    assert(b[0] == s[4]);
    if 0 <= k < s[4] {
        let at = 1 + k * 4;
        assert(b[at] == s[at + 4] && b[at + 1] == s[at + 5] && b[at + 2] == s[at + 6] && b[at + 3]
            == s[at + 7]);
    }
}

/// What brackets a sample in a group is what the property of the same kind
/// says with the same bytes.
pub proof fn law_brackets_agree_with_properties(e: Seq<u8>, s: Seq<u8>)
    requires
        e.len() >= 8,
        s == seq![0u8, 0u8, 0u8, 0u8] + e,
    ensures
        bracketing_entry_of(BracketingKind::AutoExposure, e) matches Ok(
            BracketingEntry::AutoExposure { exposure_step, exposure_numerator },
        ) && (aebr_of(s) matches Ok(p) && p.exposure_step == exposure_step && p.exposure_numerator
            == exposure_numerator),
        bracketing_entry_of(BracketingKind::WhiteBalance, e) matches Ok(
            BracketingEntry::WhiteBalance { blue_amber, green_magenta },
        ) && (wbbr_of(s) matches Ok(p) && p.blue_amber == blue_amber && p.green_magenta
            == green_magenta),
        bracketing_entry_of(BracketingKind::Focus, e) matches Ok(
            BracketingEntry::Focus { focus_distance_numerator, focus_distance_denominator },
        ) && (fobr_of(s) matches Ok(p) && p.focus_distance_numerator == focus_distance_numerator
            && p.focus_distance_denominator == focus_distance_denominator),
        bracketing_entry_of(BracketingKind::FlashExposure, e) matches Ok(
            BracketingEntry::FlashExposure { flash_exposure_numerator, flash_exposure_denominator },
        ) && (afbr_of(s) matches Ok(p) && p.flash_exposure_numerator == flash_exposure_numerator
            && p.flash_exposure_denominator == flash_exposure_denominator),
        bracketing_entry_of(BracketingKind::DepthOfField, e) matches Ok(
            BracketingEntry::DepthOfField { f_stop_numerator, f_stop_denominator },
        ) && (dobr_of(s) matches Ok(p) && p.f_stop_numerator == f_stop_numerator
            && p.f_stop_denominator == f_stop_denominator),
{
    assert(tail(s, 4) =~= e);
}

/// The kinds of brackets by their codes.
pub proof fn law_bracket_kinds_by_code(t: BoxType)
    ensures
        bracketing_of(t) == Some(BracketingKind::AutoExposure) <==> t == [
            0x61u8,
            0x65u8,
            0x62u8,
            0x72u8,
        ],
        bracketing_of(t) == Some(BracketingKind::WhiteBalance) <==> t == [
            0x77u8,
            0x62u8,
            0x62u8,
            0x72u8,
        ],
        bracketing_of(t) == Some(BracketingKind::Focus) <==> t == [0x66u8, 0x6fu8, 0x62u8, 0x72u8],
        bracketing_of(t) == Some(BracketingKind::FlashExposure) <==> t == [
            0x61u8,
            0x66u8,
            0x62u8,
            0x72u8,
        ],
        bracketing_of(t) == Some(BracketingKind::DepthOfField) <==> t == [
            0x64u8,
            0x6fu8,
            0x62u8,
            0x72u8,
        ],
{
    let a: BoxType = [0x61, 0x65, 0x62, 0x72];
    let b: BoxType = [0x77, 0x62, 0x62, 0x72];
    let c: BoxType = [0x66, 0x6f, 0x62, 0x72];
    let d: BoxType = [0x61, 0x66, 0x62, 0x72];
    let e: BoxType = [0x64, 0x6f, 0x62, 0x72];
    assert(a[0] == 0x61 && b[0] == 0x77 && c[0] == 0x66 && d[0] == 0x61 && e[0] == 0x64 && a[1]
        == 0x65 && d[1] == 0x66);
}

/// A visual equivalence gives a signed time offset and a multiplier.
pub proof fn law_equivalence_fields(s: Seq<u8>)
    requires
        s.len() >= 4,
    ensures
        equivalence_of(s) matches Ok(e) && e.time_offset == be16(s, 0) as i16
            && e.timescale_multiplier == be16(s, 2),
        width_of(0) == 4,
        width_of(1) == 8,
        width_of(2) == 16,
        width_of(3) == 32,
{
}

// ---------------------------------------------------------------------
// Texts

/// Whether no byte is a terminator.
pub open spec fn is_open(s: Seq<u8>) -> bool {
    forall|i: int| 0 <= i < s.len() ==> #[trigger] s[i] != 0
}

proof fn lemma_nul(s: Seq<u8>, at: int, end: int)
    requires
        0 <= at <= end < s.len(),
        s[end] == 0,
        forall|i: int| at <= i < end ==> #[trigger] s[i] != 0,
    ensures
        nul_at(s, at) == end,
    decreases end - at,
{
    if at < end {
        assert(s[at] != 0);
        lemma_nul(s, at + 1, end);
    }
}

proof fn lemma_text(before: Seq<u8>, a: Seq<u8>, rest: Seq<u8>)
    requires
        is_open(a),
    ensures
        cstr_at(before + a + seq![0u8] + rest, before.len() as int) == Ok::<(Seq<char>, int), Fault>(
            (lossy_text(a), (before.len() + a.len() + 1) as int),
        ),
{
    let s = before + a + seq![0u8] + rest;
    let at = before.len() as int;
    let end = at + a.len();
    assert forall|i: int| at <= i < end implies #[trigger] s[i] != 0 by {
        assert(a[i - at] == s[i]);
    }
    lemma_nul(s, at, end);
    assert(s.subrange(at, end) =~= a);
}

/// A user description gives its language, its name, its description and
/// its tags, in this order, and an alternative text itself and its
/// language, each ended by a zero.
pub proof fn law_texts_in_order(a: Seq<u8>, b: Seq<u8>, c: Seq<u8>, d: Seq<u8>)
    requires
        is_open(a),
        is_open(b),
        is_open(c),
        is_open(d),
    ensures
        ({
            let head = seq![0u8, 0u8, 0u8, 0u8];
            let z = seq![0u8];
            &&& udes_of(head + (a + z + b + z + c + z + d + z)) == Ok::<UdesView, Fault>(
                UdesView {
                    lang: lossy_text(a),
                    name: lossy_text(b),
                    description: lossy_text(c),
                    tags: lossy_text(d),
                },
            )
            &&& altt_of(head + (a + z + b + z)) == Ok::<AlttView, Fault>(
                AlttView { alt_text: lossy_text(a), alt_lang: lossy_text(b) },
            )
        }),
{
    let head = seq![0u8, 0u8, 0u8, 0u8];
    let z = seq![0u8];
    let none = Seq::<u8>::empty();
    let s = a + z + b + z + c + z + d + z;
    assert(tail(head + s, 4) =~= s);
    assert(s =~= none + a + z + (b + z + c + z + d + z));
    lemma_text(none, a, b + z + c + z + d + z);
    assert(s =~= (a + z) + b + z + (c + z + d + z));
    lemma_text(a + z, b, c + z + d + z);
    assert(s =~= (a + z + b + z) + c + z + (d + z));
    lemma_text(a + z + b + z, c, d + z);
    assert(s =~= (a + z + b + z + c + z) + d + z + none);
    lemma_text(a + z + b + z + c + z, d, none);
    let t = a + z + b + z;
    assert(tail(head + t, 4) =~= t);
    assert(t =~= none + a + z + (b + z));
    lemma_text(none, a, b + z);
    assert(t =~= (a + z) + b + z + none);
    lemma_text(a + z, b, none);
}

proof fn lemma_comma(s: Seq<char>, at: int)
    requires
        0 <= at <= s.len(),
    ensures
        at <= comma_from(s, at) <= s.len(),
        forall|i: int| at <= i < comma_from(s, at) ==> #[trigger] s[i] != ',',
        comma_from(s, at) < s.len() ==> s[comma_from(s, at)] == ',',
    decreases s.len() - at,
{
    if at < s.len() && s[at] != ',' {
        lemma_comma(s, at + 1);
    }
}

proof fn lemma_skip(s: Seq<char>, at: int, end: int)
    requires
        at <= end,
    ensures
        at <= skip_white(s, at, end) <= end,
        skip_white(s, at, end) < end ==> !white_space(s[skip_white(s, at, end)]),
    decreases end - at,
{
    if at < end && white_space(s[at]) {
        lemma_skip(s, at + 1, end);
    }
}

proof fn lemma_drop(s: Seq<char>, at: int, end: int)
    requires
        at <= end,
    ensures
        at <= drop_white(s, at, end) <= end,
        at < drop_white(s, at, end) ==> !white_space(s[drop_white(s, at, end) - 1]),
    decreases end - at,
{
    if at < end && white_space(s[end - 1]) {
        lemma_drop(s, at, end - 1);
    }
}

/// Whether a tag is what stands between two commas, without the white
/// space around it.
pub open spec fn is_tag(t: Seq<char>) -> bool {
    &&& t.len() > 0
    &&& !white_space(t[0])
    &&& !white_space(t[t.len() - 1])
    &&& forall|i: int| 0 <= i < t.len() ==> #[trigger] t[i] != ','
}

/// Every tag of a list has a letter at either end, and no comma in it.
pub proof fn law_tags_are_clean(s: Seq<char>, at: int)
    requires
        0 <= at <= s.len() + 1,
    ensures
        forall|k: int| 0 <= k < tags_from(s, at).len() ==> is_tag(#[trigger] tags_from(s, at)[k]),
    decreases s.len() + 1 - at,
{
    if at <= s.len() {
        lemma_comma(s, at);
        let end = comma_from(s, at);
        let rest = tags_from(s, end + 1);
        law_tags_are_clean(s, end + 1);
        lemma_skip(s, at, end);
        let from = skip_white(s, at, end);
        lemma_drop(s, from, end);
        let to = drop_white(s, from, end);
        let t = trimmed(s, at, end);
        assert(t =~= s.subrange(from, to));
        if t.len() > 0 {
            assert(t[0] == s[from] && t[t.len() - 1] == s[to - 1]);
            assert forall|i: int| 0 <= i < t.len() implies #[trigger] t[i] != ',' by {
                assert(t[i] == s[from + i]);
            }
            let all = tags_from(s, at);
            assert forall|k: int| 0 <= k < all.len() implies is_tag(#[trigger] all[k]) by {
                if k > 0 {
                    assert(all[k] == rest[k - 1]);
                }
            }
        }
    }
}

// ---------------------------------------------------------------------
// Required boxes

/// What is said of boxes of this type.
pub open spec fn is_said(m: Mif1Compliance, t: BoxType) -> bool {
    ||| t == [0x68u8, 0x64u8, 0x6cu8, 0x72u8] && m.has_hdlr
    ||| t == [0x70u8, 0x69u8, 0x74u8, 0x6du8] && m.has_pitm
    ||| t == [0x69u8, 0x69u8, 0x6eu8, 0x66u8] && m.has_iinf
    ||| t == [0x69u8, 0x6cu8, 0x6fu8, 0x63u8] && m.has_iloc
    ||| t == [0x69u8, 0x70u8, 0x72u8, 0x70u8] && m.has_iprp
}

/// Whether boxes of this type are called for.
pub open spec fn is_called_for(t: BoxType) -> bool {
    ||| t == [0x68u8, 0x64u8, 0x6cu8, 0x72u8]
    ||| t == [0x70u8, 0x69u8, 0x74u8, 0x6du8]
    ||| t == [0x69u8, 0x69u8, 0x6eu8, 0x66u8]
    ||| t == [0x69u8, 0x6cu8, 0x6fu8, 0x63u8]
    ||| t == [0x69u8, 0x70u8, 0x72u8, 0x70u8]
}

/// Whether a box of this type stands at `p`.
pub open spec fn stands_at(s: Seq<u8>, t: BoxType, p: int) -> bool {
    box_at(s, p) matches Ok(b) && b.box_type == t
}

proof fn lemma_codes_differ()
    ensures
        ({
            let a: BoxType = [0x68u8, 0x64u8, 0x6cu8, 0x72u8];
            let b: BoxType = [0x70u8, 0x69u8, 0x74u8, 0x6du8];
            let c: BoxType = [0x69u8, 0x69u8, 0x6eu8, 0x66u8];
            let d: BoxType = [0x69u8, 0x6cu8, 0x6fu8, 0x63u8];
            let e: BoxType = [0x69u8, 0x70u8, 0x72u8, 0x70u8];
            a != b && a != c && a != d && a != e && b != c && b != d && b != e && c != d && c != e
                && d != e
        }),
{
    let a: BoxType = [0x68u8, 0x64u8, 0x6cu8, 0x72u8];
    let b: BoxType = [0x70u8, 0x69u8, 0x74u8, 0x6du8];
    let c: BoxType = [0x69u8, 0x69u8, 0x6eu8, 0x66u8];
    let d: BoxType = [0x69u8, 0x6cu8, 0x6fu8, 0x63u8];
    let e: BoxType = [0x69u8, 0x70u8, 0x72u8, 0x70u8];
    assert(a[0] == 0x68 && b[0] == 0x70 && c[0] == 0x69 && d[0] == 0x69 && e[0] == 0x69);
    assert(c[1] == 0x69 && d[1] == 0x6c && e[1] == 0x70);
}

/// A box that `mif1` calls for is said to be there exactly where the walk
/// through `meta` meets one: what was said stays said, the box that the
/// walk starts at is said, and what is said newly stands further on.
#[verifier::spinoff_prover]
#[verifier::rlimit(40)]
pub proof fn law_required_boxes_are_found(s: Seq<u8>, at: int, m: Mif1Compliance, t: BoxType)
    requires
        0 <= at,
        mif1_from(s, at, m) is Ok,
        is_called_for(t),
    ensures
        is_said(m, t) ==> is_said(mif1_from(s, at, m)->Ok_0, t),
        at < s.len() && stands_at(s, t, at) ==> is_said(mif1_from(s, at, m)->Ok_0, t),
        is_said(mif1_from(s, at, m)->Ok_0, t) && !is_said(m, t) ==> exists|p: int|
            at <= p < s.len() && #[trigger] stands_at(s, t, p),
        mif1_from(s, at, m)->Ok_0.claims_mif1 == m.claims_mif1,
    decreases s.len() - at,
{
    lemma_codes_differ();
    if at < s.len() {
        let b = box_at(s, at)->Ok_0;
        let next = crate::parser::mif1_step(m, b.box_type, s.subrange(b.payload, b.end))->Ok_0;
        assert(is_said(next, t) <==> is_said(m, t) || b.box_type == t);
        if b.box_type == t {
            assert(stands_at(s, t, at));
        }
        if b.end > at {
            law_required_boxes_are_found(s, b.end, next, t);
        }
    }
}

// ---------------------------------------------------------------------
// What is accepted

/// A configuration record is written where it has four bytes at least and
/// starts with the marker and version 1; an Exif payload where it starts
/// with four zeros.
pub proof fn law_accepted_payloads(s: Seq<u8>, what: Seq<char>)
    ensures
        record_fault(s, what) is None <==> s.len() >= 4 && s[0] == 0x81,
        exif_fault(Some(s)) is None <==> s.len() >= 4 && s[0] == 0 && s[1] == 0 && s[2] == 0 && s[3]
            == 0,
        exif_fault(None) is None,
        xmp_fault(None) is None,
{
}

/// The profile of a sequence is that of its configuration record: profile
/// 0 is baseline, profile 1 advanced, and any other has no brand.
pub proof fn law_profile_of_the_record(av1c: Seq<u8>)
    requires
        av1c.len() >= 2,
    ensures
        brand_of(av1c) == if av1c[1] < 32 {
            ProfileBrand::Baseline
        } else if av1c[1] < 64 {
            ProfileBrand::Advanced
        } else {
            ProfileBrand::Bare
        },
{
}

/// Whether a reference as `prem` starts at `from` and has `to` among its
/// ends.
pub open spec fn says_prem(m: MetaView, from: u32, to: u32, j: int) -> bool {
    m.irefs[j].reference_type == [0x70u8, 0x72u8, 0x65u8, 0x6du8] && m.irefs[j].from_id == from
        && m.irefs[j].to_ids.contains(to)
}

/// The colours of an item are premultiplied where something refers to it
/// as `prem`, or where it refers so to an alpha plane of its own.
pub proof fn law_premultiplied_by_reference(m: MetaView, id: u32)
    ensures
        m.premultiplied(id) <==> (exists|from: u32, j: int|
            0 <= j < m.irefs.len() && #[trigger] says_prem(m, from, id, j)) || (exists|
            to: u32,
            j: int,
        |
            0 <= j < m.irefs.len() && #[trigger] says_prem(m, id, to, j) && m.is_alpha_of(to, id)),
{
    let prem: BoxType = [0x70, 0x72, 0x65, 0x6d];
    crate::query_laws::law_source_is_the_first(m, prem, id);
    let n = m.irefs.len() as int;
    let keep = |j: int| crate::query_laws::refers_to(m, prem, id, j);
    let found = crate::meta::source_with(m.irefs, prem, id, 0);
    if found is Some {
        let j = choose|j: int| #[trigger]
            crate::query_laws::is_first(n, keep, j) && found->Some_0 == m.irefs[j].from_id;
        assert(says_prem(m, m.irefs[j].from_id, id, j));
    }
    if exists|from: u32, j: int| 0 <= j < n && #[trigger] says_prem(m, from, id, j) {
        let (from, j) = choose|from: u32, j: int| 0 <= j < n && #[trigger] says_prem(m, from, id, j);
        assert(keep(j));
    }
    if crate::meta::premultiplies(m, id, m.irefs.len()) {
        let (i, j) = choose|i: int, j: int|
            #![trigger m.irefs[i].to_ids[j]]
            0 <= i < m.irefs.len() && m.irefs[i].reference_type == crate::meta::PREM
                && m.irefs[i].from_id == id && 0 <= j < m.irefs[i].to_ids.len() && m.is_alpha_of(
                m.irefs[i].to_ids[j],
                id,
            );
        let to = m.irefs[i].to_ids[j];
        assert(m.irefs[i].to_ids.contains(to));
        assert(says_prem(m, id, to, i));
    }
    if exists|to: u32, j: int|
        0 <= j < n && #[trigger] says_prem(m, id, to, j) && m.is_alpha_of(to, id) {
        let (to, i) = choose|to: u32, i: int|
            0 <= i < n && #[trigger] says_prem(m, id, to, i) && m.is_alpha_of(to, id);
        let ids = m.irefs[i].to_ids;
        let j = choose|j: int| 0 <= j < ids.len() && ids[j] == to;
        assert(m.irefs[i].to_ids[j] == to);
    }
}

/// `iloc` gives the widths of its fields in four bits each: offset, length
/// and base offset, and by versions 1 and 2 the index.
pub proof fn law_widths_of_locations(version: u8, b: Seq<u8>)
    requires
        b.len() >= 2,
        version <= 2,
    ensures
        ({
            let z = iloc_widths(version, b);
            &&& z.version == version
            &&& z.offset * 16 + z.length == b[0]
            &&& z.length < 16
            &&& version > 0 ==> z.base * 16 + z.index == b[1] && z.index < 16
            &&& version == 0 ==> z.base == b[1] as int / 16 && z.index == 0
        }),
{
}

// ---------------------------------------------------------------------
// Units

/// The walk through coded units goes from unit to unit and counts those
/// whose type is 1: it ends with the bytes, calls a unit cut off whose
/// highest bit is set, stops at one without a size of its own, and steps
/// over any other.
pub proof fn law_units_are_walked(s: Seq<u8>, at: int, count: nat)
    requires
        0 <= at,
    ensures
        at >= s.len() ==> walk_units(s, at, count) == (count, false, false),
        at < s.len() && s[at] >= 128 ==> walk_units(s, at, count) == (count, true, false),
        at < s.len() && s[at] < 128 && s[at] / 4 % 2 == 0 && s[at] / 2 % 2 == 0 ==> walk_units(
            s,
            at,
            count,
        ) == (if 8 <= s[at] < 16 {
            count + 1
        } else {
            count
        }, false, true),
        at + 2 <= s.len() && s[at] < 128 && s[at] / 4 % 2 == 0 && s[at] / 2 % 2 == 1 && s[at + 1]
            < 128 && at + 2 + s[at + 1] <= s.len() ==> walk_units(s, at, count) == walk_units(
            s,
            at + 2 + s[at + 1],
            if 8 <= s[at] < 16 {
                count + 1
            } else {
                count
            },
        ),
{
    if at + 2 <= s.len() && s[at + 1] < 128 {
        assert(crate::obu::pow128(0) == 1);
        let v = s[at + 1];
        assert((v % 128) * crate::obu::pow128(0) == v) by (nonlinear_arith)
            requires
                crate::obu::pow128(0) == 1,
                v < 128,
        ;
        assert(leb_from(s, at + 1, 0, 0) == Some((v as nat, at + 2)));
    }
}

// ---------------------------------------------------------------------
// Compact sample groups

/// `csgp` gives its grouping type and, where the seventh bit of its flags
/// is set, a parameter; the two lowest bits give the width of its indices.
pub proof fn law_csgp_fields(s: Seq<u8>)
    requires
        csgp_of(s) is Ok,
    ensures
        ({
            let g = csgp_of(s)->Ok_0;
            &&& g.grouping_type == [s[4], s[5], s[6], s[7]]
            &&& g.grouping_type_parameter is Some <==> s[3] / 64 % 2 == 1
            &&& g.grouping_type_parameter matches Some(p) ==> p == be32(s, 8)
            &&& g.index_bits == if s[3] % 4 == 0 {
                4int
            } else if s[3] % 4 == 1 {
                8int
            } else if s[3] % 4 == 2 {
                16int
            } else {
                32int
            }
        }),
{
    lemma_tail(s);
    let b = tail(s, 4);
    assert(b[0] == s[4] && b[1] == s[5] && b[2] == s[6] && b[3] == s[7]);
    assert(crate::box_parser::type_at(b, 0) =~= [s[4], s[5], s[6], s[7]]);
    let flags = crate::box_parser::be24(s, 1);
    assert(flags == s[1] * 0x1_0000 + s[2] * 0x100 + s[3]);
    assert(flags % 4 == s[3] % 4 && flags / 64 % 2 == s[3] / 64 % 2);
    if s[3] / 64 % 2 == 1 {
        assert(b[4] == s[8] && b[5] == s[9] && b[6] == s[10] && b[7] == s[11]);
    }
}

/// Bits are read from the highest of a byte down: eight of them from the
/// start of a byte are the byte.
pub proof fn law_bits_of_a_byte(s: Seq<u8>, i: int)
    requires
        0 <= i < s.len(),
    ensures
        bits_at(s, 8 * i, 8) == s[i],
        bits_at(s, 8 * i, 4) == s[i] / 16,
        bits_at(s, 8 * i + 4, 4) == s[i] % 16,
{
    vstd::arithmetic::power2::lemma2_to64();
    reveal_with_fuel(bits_at, 9);
    let b = s[i] as nat;
    assert(bit_at(s, 8 * i) == b / 128 % 2);
    assert(bit_at(s, 8 * i + 1) == b / 64 % 2);
    assert(bit_at(s, 8 * i + 2) == b / 32 % 2);
    assert(bit_at(s, 8 * i + 3) == b / 16 % 2);
    assert(bit_at(s, 8 * i + 4) == b / 8 % 2);
    assert(bit_at(s, 8 * i + 5) == b / 4 % 2);
    assert(bit_at(s, 8 * i + 6) == b / 2 % 2);
    assert(bit_at(s, 8 * i + 7) == b / 1 % 2);
    lemma_digits(b);
}

/// Four bits by themselves.
proof fn lemma_nibble(q: nat)
    requires
        q < 16,
    ensures
        q / 8 % 2 * 8 + q / 4 % 2 * 4 + q / 2 % 2 * 2 + q % 2 == q,
{
}

/// A byte by its bits.
proof fn lemma_digits(b: nat)
    requires
        b < 256,
    ensures
        b / 128 % 2 * 8 + b / 64 % 2 * 4 + b / 32 % 2 * 2 + b / 16 % 2 == b / 16,
        b / 8 % 2 * 8 + b / 4 % 2 * 4 + b / 2 % 2 * 2 + b % 2 == b % 16,
{
    let (q, r) = (b / 16, b % 16);
    lemma_nibble(q);
    lemma_nibble(r);
    assert(b / 128 == q / 8);
    assert(b / 64 == q / 4);
    assert(b / 32 == q / 2);
    assert(b / 8 % 2 == r / 8 % 2);
    assert(b / 4 % 2 == r / 4 % 2);
    assert(b / 2 % 2 == r / 2 % 2);
    assert(b % 2 == r % 2);
}

} // verus!
