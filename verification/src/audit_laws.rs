//! What the audits of a file find, in terms of its items, properties,
//! references and groups.

use crate::alpha::is_alpha_item;
use crate::audits::{
    alpha_audits, alpha_audits_of, declared, grid_audit, grid_audits, header_audit, header_audits,
    iden_audit, iden_audits, input_offenders, item_offenders, own_offenders, profile_audits,
    profile_audits_of, tone_map_audit, tone_map_audits, AlphaBitDepthAudit, AvifProfile,
    AvifProfileCompliance,
};
use crate::box_parser::BoxType;
use crate::derived::{transform_kinds, MAX_DERIVATION_DEPTH};
use crate::meta::MetaView;
use crate::parser::BrandClass;
use crate::query_laws::{law_references_are_counted, refers_from};
use vstd::prelude::*;

verus! {

// ---------------------------------------------------------------------
// Tone maps and identity derivations

/// Every `tmap` item has its audit, in order. It is paired where one
/// `altr` group holds both it and its first input, and its gain maps are
/// hidden where there is a further input and every one of them has the
/// lowest bit of its flags set.
pub proof fn law_tone_maps_are_audited(m: MetaView, i: int)
    requires
        0 <= i < m.ids_of([0x74, 0x6d, 0x61, 0x70]).len(),
    ensures
        ({
            let id = m.ids_of([0x74, 0x6d, 0x61, 0x70])[i];
            let inputs = m.targets([0x64, 0x69, 0x6d, 0x67], id);
            let a = tone_map_audits(m)[i];
            &&& tone_map_audits(m).len() == m.ids_of([0x74, 0x6d, 0x61, 0x70]).len()
            &&& a.tmap_item_id == id
            &&& a.paired_in_altr <==> inputs.len() > 0 && (m.entity_groups() matches Ok(groups)
                && exists|g: int|
                0 <= g < groups.len() && (#[trigger] groups[g]).grouping_type == [
                    0x61u8,
                    0x6cu8,
                    0x74u8,
                    0x72u8,
                ] && groups[g].entity_ids.contains(id) && groups[g].entity_ids.contains(inputs[0]))
            &&& a.gain_maps_hidden <==> inputs.len() >= 2 && forall|k: int|
                1 <= k < inputs.len() ==> (m.item(#[trigger] inputs[k]) matches Some(info)
                    && info.flags % 2 == 1)
            &&& a.kept() <==> a.paired_in_altr && a.gain_maps_hidden
        }),
{
    let id = m.ids_of([0x74, 0x6d, 0x61, 0x70])[i];
    assert(tone_map_audits(m)[i] == tone_map_audit(m, id));
}

/// Every `iden` item has its audit, in order: how many inputs its first
/// `dimg` reference names, how many such references it has, and whether it
/// has bytes of its own. It keeps the rule with one, one and none.
pub proof fn law_identities_are_audited(m: MetaView, i: int)
    requires
        0 <= i < m.ids_of([0x69, 0x64, 0x65, 0x6e]).len(),
        m.irefs.len() <= usize::MAX,
        m.targets([0x64, 0x69, 0x6d, 0x67], m.ids_of([0x69, 0x64, 0x65, 0x6e])[i]).len()
            <= usize::MAX,
    ensures
        ({
            let id = m.ids_of([0x69, 0x64, 0x65, 0x6e])[i];
            let a = iden_audits(m)[i];
            &&& iden_audits(m).len() == m.ids_of([0x69, 0x64, 0x65, 0x6e]).len()
            &&& a.iden_item_id == id
            &&& a.dimg_input_count == m.targets([0x64, 0x69, 0x6d, 0x67], id).len()
            &&& a.dimg_reference_count == 0 <==> forall|j: int|
                0 <= j < m.irefs.len() ==> !((#[trigger] m.irefs[j]).reference_type == [
                    0x64u8,
                    0x69u8,
                    0x6du8,
                    0x67u8,
                ] && m.irefs[j].from_id == id)
            &&& a.has_body <==> (m.location(id) matches Some(l) && exists|k: int|
                0 <= k < l.extents.len() && (#[trigger] l.extents[k]).length > 0)
            &&& a.kept() <==> a.dimg_input_count == 1 && a.dimg_reference_count == 1 && !a.has_body
        }),
{
    let id = m.ids_of([0x69, 0x64, 0x65, 0x6e])[i];
    let dimg: BoxType = [0x64, 0x69, 0x6d, 0x67];
    let a = iden_audits(m)[i];
    assert(a == iden_audit(m, id));
    law_references_are_counted(m, dimg, id, m.irefs.len());
    assert((forall|j: int| 0 <= j < m.irefs.len() ==> !#[trigger] refers_from(m, dimg, id, j)) <==> (
    forall|j: int|
        0 <= j < m.irefs.len() ==> !((#[trigger] m.irefs[j]).reference_type == dimg
            && m.irefs[j].from_id == id))) by {
        if forall|j: int| 0 <= j < m.irefs.len() ==> !#[trigger] refers_from(m, dimg, id, j) {
            assert forall|j: int| 0 <= j < m.irefs.len() implies !((
            #[trigger] m.irefs[j]).reference_type == dimg && m.irefs[j].from_id == id) by {
                assert(!refers_from(m, dimg, id, j));
            }
        }
    }
    if m.location(id) is Some {
        let l = m.location(id)->Some_0;
        if crate::meta::has_bytes(l) {
            let k = choose|k: int| 0 <= k < l.extents.len() && l.extents[k].length > 0;
            assert(l.extents[k].length > 0);
        }
    }
}

// ---------------------------------------------------------------------
// Grids

/// Whether an offender is an item that has a transformation of this kind.
pub open spec fn is_transformed(m: MetaView, o: (u32, BoxType)) -> bool {
    transform_kinds(m, o.0).contains(o.1)
}

proof fn lemma_own(m: MetaView, id: u32)
    ensures
        forall|o: (u32, BoxType)| #[trigger]
            own_offenders(m, id).contains(o) <==> o.0 == id && is_transformed(m, o),
{
    let kinds = transform_kinds(m, id);
    let all = own_offenders(m, id);
    assert forall|o: (u32, BoxType)| #[trigger] all.contains(o) <==> o.0 == id && is_transformed(
        m,
        o,
    ) by {
        if all.contains(o) {
            let k = choose|k: int| 0 <= k < all.len() && all[k] == o;
            assert(kinds[k] == o.1);
        }
        if o.0 == id && is_transformed(m, o) {
            let k = choose|k: int| 0 <= k < kinds.len() && kinds[k] == o.1;
            assert(all[k] == o);
        }
    }
}

proof fn lemma_joined<A>(a: Seq<A>, b: Seq<A>)
    ensures
        forall|x: A| #[trigger] (a + b).contains(x) <==> a.contains(x) || b.contains(x),
{
    assert forall|x: A| #[trigger] (a + b).contains(x) <==> a.contains(x) || b.contains(x) by {
        if a.contains(x) {
            let k = choose|k: int| 0 <= k < a.len() && a[k] == x;
            assert((a + b)[k] == x);
        }
        if b.contains(x) {
            let k = choose|k: int| 0 <= k < b.len() && b[k] == x;
            assert((a + b)[a.len() + k] == x);
        }
        if (a + b).contains(x) {
            let k = choose|k: int| 0 <= k < (a + b).len() && (a + b)[k] == x;
            if k < a.len() {
                assert(a[k] == x);
            } else {
                assert(b[k - a.len()] == x);
            }
        }
    }
}

proof fn lemma_item_offenders(m: MetaView, id: u32, depth: nat)
    ensures
        forall|o: (u32, BoxType)| #[trigger]
            item_offenders(m, id, depth).contains(o) ==> is_transformed(m, o),
        depth <= MAX_DERIVATION_DEPTH ==> forall|o: (u32, BoxType)|
            o.0 == id && #[trigger] is_transformed(m, o) ==> item_offenders(m, id, depth).contains(o),
    decreases MAX_DERIVATION_DEPTH + 1 - depth, 0nat,
{
    if depth <= MAX_DERIVATION_DEPTH {
        let inputs = m.targets(crate::container::DIMG, id);
        lemma_own(m, id);
        lemma_input_offenders(m, inputs, inputs.len(), depth + 1);
        lemma_joined(
            own_offenders(m, id),
            input_offenders(m, inputs, inputs.len(), depth + 1),
        );
    } else {
        assert(item_offenders(m, id, depth) =~= Seq::empty());
    }
}

proof fn lemma_input_offenders(m: MetaView, ids: Seq<u32>, n: nat, depth: nat)
    requires
        n <= ids.len(),
    ensures
        forall|o: (u32, BoxType)| #[trigger]
            input_offenders(m, ids, n, depth).contains(o) ==> is_transformed(m, o),
        depth <= MAX_DERIVATION_DEPTH ==> forall|k: int, o: (u32, BoxType)|
            #![trigger ids[k], is_transformed(m, o)]
            0 <= k < n && o.0 == ids[k] && is_transformed(m, o) ==> input_offenders(
                m,
                ids,
                n,
                depth,
            ).contains(o),
    decreases MAX_DERIVATION_DEPTH + 1 - depth, n + 1,
{
    if n > 0 && depth <= MAX_DERIVATION_DEPTH {
        lemma_input_offenders(m, ids, (n - 1) as nat, depth);
        lemma_item_offenders(m, ids[n - 1], depth);
        lemma_joined(
            input_offenders(m, ids, (n - 1) as nat, depth),
            item_offenders(m, ids[n - 1], depth),
        );
    } else {
        assert(input_offenders(m, ids, n, depth) =~= Seq::empty());
    }
}

/// Every `grid` item has its audit, in order. Every offender is an item
/// with such a transformation, and every transformation of an input of the
/// grid is an offence; a grid without any keeps the rule.
pub proof fn law_grids_are_audited(m: MetaView, i: int)
    requires
        0 <= i < m.ids_of([0x67, 0x72, 0x69, 0x64]).len(),
    ensures
        ({
            let id = m.ids_of([0x67, 0x72, 0x69, 0x64])[i];
            let inputs = m.targets([0x64, 0x69, 0x6d, 0x67], id);
            let a = grid_audits(m)[i];
            &&& grid_audits(m).len() == m.ids_of([0x67, 0x72, 0x69, 0x64]).len()
            &&& a.grid_item_id == id
            &&& forall|o: (u32, BoxType)| #[trigger]
                a.offenders.contains(o) ==> is_transformed(m, o)
            &&& forall|k: int, o: (u32, BoxType)|
                #![trigger inputs[k], is_transformed(m, o)]
                0 <= k < inputs.len() && o.0 == inputs[k] && is_transformed(m, o)
                    ==> a.offenders.contains(o)
        }),
{
    let id = m.ids_of([0x67, 0x72, 0x69, 0x64])[i];
    let inputs = m.targets([0x64, 0x69, 0x6d, 0x67], id);
    assert(grid_audits(m)[i] == grid_audit(m, id));
    lemma_input_offenders(m, inputs, inputs.len(), 0);
}

// ---------------------------------------------------------------------
// Alpha planes

/// The bit depth that a configuration record says.
pub open spec fn depth_said(record: Option<Seq<u8>>) -> Option<u8> {
    match record {
        Some(b) => if b.len() < 3 {
            None
        } else if b[2] / 32 % 2 == 1 {
            Some(12)
        } else if b[2] / 64 % 2 == 1 {
            Some(10)
        } else {
            Some(8)
        },
        None => None,
    }
}

/// Whether reference `j` makes `alpha` an alpha plane of `master`.
pub open spec fn is_alpha_plane(m: MetaView, alpha: u32, master: u32, j: int) -> bool {
    &&& m.irefs[j].reference_type == [0x61u8, 0x75u8, 0x78u8, 0x6cu8]
    &&& m.irefs[j].from_id == alpha
    &&& m.irefs[j].to_ids.contains(master)
    &&& is_alpha_item(m, alpha)
}

proof fn lemma_alpha_audits(m: MetaView, n: nat, a: AlphaBitDepthAudit)
    requires
        n <= m.irefs.len(),
    ensures
        alpha_audits_of(m, n).contains(a) <==> (exists|j: int|
            0 <= j < n && #[trigger] is_alpha_plane(m, a.alpha_item_id, a.master_item_id, j))
            && a.alpha_bit_depth == depth_said(m.av1c(a.alpha_item_id)) && a.master_bit_depth
            == depth_said(m.av1c(a.master_item_id)),
    decreases n,
{
    let (alpha, master) = (a.alpha_item_id, a.master_item_id);
    let right = a.alpha_bit_depth == depth_said(m.av1c(alpha)) && a.master_bit_depth == depth_said(
        m.av1c(master),
    );
    if n == 0 {
        assert(alpha_audits_of(m, n) =~= Seq::empty());
    } else {
        lemma_alpha_audits(m, (n - 1) as nat, a);
        let e = m.irefs[n - 1];
        let before = alpha_audits_of(m, (n - 1) as nat);
        if e.reference_type == crate::meta::AUXL && is_alpha_item(m, e.from_id) {
            let more = crate::audits::alpha_pairs(m, e.from_id, e.to_ids);
            lemma_joined(before, more);
            assert(alpha_audits_of(m, n) == before + more);
            if more.contains(a) {
                let k = choose|k: int| 0 <= k < more.len() && more[k] == a;
                assert(e.to_ids[k] == master);
                assert(e.to_ids.contains(master));
                assert(is_alpha_plane(m, alpha, master, n - 1));
            }
            if right && is_alpha_plane(m, alpha, master, n - 1) {
                let k = choose|k: int| 0 <= k < e.to_ids.len() && e.to_ids[k] == master;
                assert(more[k] == a);
            }
        } else {
            assert(alpha_audits_of(m, n) =~= before);
            assert(!is_alpha_plane(m, alpha, master, n - 1));
        }
    }
}

/// The audits of alpha planes are those of every alpha plane with every
/// image that it refers to: each gives the bit depths that the two
/// configuration records say, and keeps the rule where both say the same.
pub proof fn law_alpha_planes_are_audited(m: MetaView, a: AlphaBitDepthAudit)
    ensures
        alpha_audits(m).contains(a) <==> (exists|j: int|
            0 <= j < m.irefs.len() && #[trigger] is_alpha_plane(
                m,
                a.alpha_item_id,
                a.master_item_id,
                j,
            )) && a.alpha_bit_depth == depth_said(m.av1c(a.alpha_item_id)) && a.master_bit_depth
            == depth_said(m.av1c(a.master_item_id)),
        a.kept() <==> a.alpha_bit_depth is Some && a.alpha_bit_depth == a.master_bit_depth,
{
    lemma_alpha_audits(m, m.irefs.len(), a);
}

// ---------------------------------------------------------------------
// Sequence headers and profiles

/// Every `av01` item has the audit of its sequence headers, in order; it
/// keeps the rule with one header in bytes that are there, whole and
/// sized.
pub proof fn law_sequence_headers_are_audited(m: MetaView, file: Seq<u8>, i: int)
    requires
        0 <= i < m.ids_of([0x61, 0x76, 0x30, 0x31]).len(),
    ensures
        ({
            let ids = m.ids_of([0x61, 0x76, 0x30, 0x31]);
            let a = header_audits(m, file)[i];
            &&& header_audits(m, file).len() == ids.len()
            &&& a.item_id == ids[i]
            &&& a.missing_iloc <==> crate::parser::payload_bytes(file, m, ids[i]) is Err
            &&& a.kept() <==> a.sequence_header_count == 1 && !a.missing_iloc && !a.truncated_obu
                && !a.has_size_field_zero
        }),
{
    assert(header_audits(m, file)[i] == header_audit(
        m,
        file,
        m.ids_of([0x61, 0x76, 0x30, 0x31])[i],
    ));
}

/// The profiles that brands declare: baseline first.
pub open spec fn profile_count(brands: BrandClass) -> int {
    (if brands.is_baseline_profile {
        1int
    } else {
        0int
    }) + (if brands.is_advanced_profile {
        1int
    } else {
        0int
    })
}

proof fn lemma_profiles(m: MetaView, ids: Seq<u32>, profiles: Seq<AvifProfile>, n: nat, i: int, k: int)
    requires
        n <= ids.len(),
        0 <= i < n,
        0 <= k < profiles.len(),
    ensures
        profile_audits_of(m, ids, profiles, n).len() == n * profiles.len(),
        0 <= i * profiles.len() + k < n * profiles.len(),
        profile_audits_of(m, ids, profiles, n)[i * profiles.len() + k] == (AvifProfileCompliance {
            item_id: ids[i],
            profile: profiles[k],
            coded: crate::audits::record_profile(m.av1c(ids[i])),
        }),
    decreases n,
{
    let w = profiles.len() as int;
    let before = profile_audits_of(m, ids, profiles, (n - 1) as nat);
    assert(0 <= i * w + k < n * w && n * w == (n - 1) * w + w) by (nonlinear_arith)
        requires
            0 <= i < n,
            0 <= k < w,
    ;
    lemma_profiles_len(m, ids, profiles, (n - 1) as nat);
    if i < n - 1 {
        lemma_profiles(m, ids, profiles, (n - 1) as nat, i, k);
        assert(before.len() == (n - 1) * w);
        assert(i * w + k < (n - 1) * w) by (nonlinear_arith)
            requires
                0 <= i < n - 1,
                0 <= k < w,
        ;
    } else {
        assert(i * w + k == before.len() + k);
    }
}

proof fn lemma_profiles_len(m: MetaView, ids: Seq<u32>, profiles: Seq<AvifProfile>, n: nat)
    requires
        n <= ids.len(),
    ensures
        profile_audits_of(m, ids, profiles, n).len() == n * profiles.len(),
    decreases n,
{
    if n > 0 {
        lemma_profiles_len(m, ids, profiles, (n - 1) as nat);
        assert(n * profiles.len() == (n - 1) * profiles.len() + profiles.len()) by (nonlinear_arith);
    } else {
        assert(0 * profiles.len() == 0) by (nonlinear_arith);
    }
}

/// Every `av01` item is held against every profile that the brands
/// declare, item by item and baseline first; an audit gives the profile
/// and the level in the second byte of the configuration record. Baseline
/// asks for profile 0 and level 13 at most, advanced for profile 1 and
/// level 16 at most.
pub proof fn law_profiles_are_audited(m: MetaView, brands: BrandClass, i: int, k: int)
    requires
        0 <= i < m.ids_of([0x61, 0x76, 0x30, 0x31]).len(),
        0 <= k < profile_count(brands),
    ensures
        ({
            let ids = m.ids_of([0x61, 0x76, 0x30, 0x31]);
            let n = profile_count(brands);
            let all = profile_audits(m, brands);
            let a = all[i * n + k];
            &&& all.len() == ids.len() * n
            &&& a.item_id == ids[i]
            &&& a.profile == if k == 0 && brands.is_baseline_profile {
                AvifProfile::Baseline
            } else {
                AvifProfile::Advanced
            }
            &&& a.coded == match m.av1c(ids[i]) {
                Some(b) => if b.len() >= 2 {
                    Some(((b[1] / 32) as u8, (b[1] % 32) as u8))
                } else {
                    None
                },
                None => None,
            }
            &&& a.kept() <==> (a.coded matches Some((profile, level)) && if a.profile
                == AvifProfile::Baseline {
                profile == 0 && level <= 13
            } else {
                profile <= 1 && level <= 16
            })
        }),
{
    let ids = m.ids_of([0x61, 0x76, 0x30, 0x31]);
    assert(declared(brands).len() == profile_count(brands));
    lemma_profiles(m, ids, declared(brands), ids.len(), i, k);
}

} // verus!
