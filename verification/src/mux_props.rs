//! The brands of an AVIF file, and the properties of its items.

use crate::box_parser::BoxType;
use crate::bytes::W;
use crate::container::{
    body_of, heif_a1lx, heif_a1op, heif_amve, heif_auxc, heif_av1c, heif_clap, heif_clli, heif_icc,
    heif_imir, heif_irot, heif_ispe, heif_lsel, heif_nclx, heif_pasp, heif_pixi, heif_raw_mdcv,
    mdcv_body, property_parts, queued, PropPlan,
};
use crate::error::{invalid_n, AvifError, Fault};
use crate::parser::{
    class_of, classified, BRAND_AVIF, BRAND_AVIO, BRAND_AVIS, BRAND_MA1A, BRAND_MA1B, BRAND_MIAF,
    BRAND_MIF1, BRAND_MSF1, ITEM_TYPE_AV01,
};
use crate::props::{
    A1lx, A1op, Amve, AuxCView, Clap, Clli, Colr, ColrView, Imir, Irot, Ispe, Lsel, Mdcv, Pasp,
    PropertyView,
};
use crate::text::{dec, lossy_text, utf8_lossy};
use oxideav_heif::props::Property as HeifProperty;
use vstd::prelude::*;
use vstd::slice::slice_to_vec;

verus! {

/// The profile brand of a file.
#[derive(Clone, Copy, Debug, PartialEq, Eq, Structural)]
pub enum ProfileBrand {
    /// `MA1B`.
    Baseline,
    /// `MA1A`.
    Advanced,
    /// No profile brand.
    Bare,
}

/// The profile brand, where there is one.
pub open spec fn profile_codes(profile: ProfileBrand) -> Seq<BoxType> {
    match profile {
        ProfileBrand::Baseline => seq![BRAND_MA1B],
        ProfileBrand::Advanced => seq![BRAND_MA1A],
        ProfileBrand::Bare => Seq::empty(),
    }
}

fn push_profile(compat: &mut Vec<BoxType>, profile: ProfileBrand)
    ensures
        final(compat)@ == old(compat)@ + profile_codes(profile),
{
    let ghost before = compat@;
    match profile {
        ProfileBrand::Baseline => {
            compat.push(BRAND_MA1B);
        },
        ProfileBrand::Advanced => {
            compat.push(BRAND_MA1A);
        },
        ProfileBrand::Bare => {},
    }
    proof {
        assert(compat@ =~= before + profile_codes(profile));
    }
}

/// The compatible brands of an AVIF image.
pub open spec fn still_codes(profile: ProfileBrand) -> Seq<BoxType> {
    seq![BRAND_AVIF, BRAND_MIF1, BRAND_MIAF] + profile_codes(profile)
}

/// The brands of an AVIF image: major `avif`, compatible `avif`, `mif1`,
/// `miaf` and the profile brand.
pub fn still_brands(profile: ProfileBrand) -> (r: (BoxType, Vec<BoxType>))
    ensures
        r.0 == BRAND_AVIF,
        r.1@ == still_codes(profile),
{
    let mut compat: Vec<BoxType> = Vec::new();
    compat.push(BRAND_AVIF);
    compat.push(BRAND_MIF1);
    compat.push(BRAND_MIAF);
    proof {
        assert(compat@ =~= seq![BRAND_AVIF, BRAND_MIF1, BRAND_MIAF]);
    }
    push_profile(&mut compat, profile);
    (BRAND_AVIF, compat)
}

/// The compatible brands of an AVIF image sequence.
pub open spec fn sequence_codes(profile: ProfileBrand, all_sync: bool) -> Seq<BoxType> {
    seq![BRAND_AVIS, BRAND_AVIF, BRAND_MIF1, BRAND_MSF1, BRAND_MIAF, ITEM_TYPE_AV01] + (if all_sync {
        seq![BRAND_AVIO]
    } else {
        Seq::empty()
    }) + profile_codes(profile)
}

/// The brands of an AVIF image sequence: major `avis`, compatible
/// `avis`, `avif`, `mif1`, `msf1`, `miaf`, `av01`, then `avio` when every
/// sample is a sync sample, and the profile brand.
pub fn sequence_brands(profile: ProfileBrand, all_sync: bool) -> (r: (BoxType, Vec<BoxType>))
    ensures
        r.0 == BRAND_AVIS,
        r.1@ == sequence_codes(profile, all_sync),
{
    let mut compat: Vec<BoxType> = Vec::new();
    compat.push(BRAND_AVIS);
    compat.push(BRAND_AVIF);
    compat.push(BRAND_MIF1);
    compat.push(BRAND_MSF1);
    compat.push(BRAND_MIAF);
    compat.push(ITEM_TYPE_AV01);
    let ghost first = compat@;
    proof {
        assert(first =~= seq![
            BRAND_AVIS,
            BRAND_AVIF,
            BRAND_MIF1,
            BRAND_MSF1,
            BRAND_MIAF,
            ITEM_TYPE_AV01,
        ]);
    }
    if all_sync {
        compat.push(BRAND_AVIO);
    }
    proof {
        assert(compat@ =~= first + (if all_sync {
            seq![BRAND_AVIO]
        } else {
            Seq::empty()
        }));
    }
    push_profile(&mut compat, profile);
    (BRAND_AVIS, compat)
}

/// The brands of an image are accepted, and say that it is an image, that
/// it has image items and which profile it keeps.
pub proof fn law_still_brands_are_accepted(profile: ProfileBrand)
    ensures
        classified(BRAND_AVIF, still_codes(profile)) is Ok,
        class_of(BRAND_AVIF, still_codes(profile)).is_image,
        class_of(BRAND_AVIF, still_codes(profile)).has_mif1,
        class_of(BRAND_AVIF, still_codes(profile)).is_miaf,
        class_of(BRAND_AVIF, still_codes(profile)).is_baseline_profile == (profile
            == ProfileBrand::Baseline),
        class_of(BRAND_AVIF, still_codes(profile)).is_advanced_profile == (profile
            == ProfileBrand::Advanced),
        !class_of(BRAND_AVIF, still_codes(profile)).is_sequence,
{
    let s = still_codes(profile);
    assert(s[0] == BRAND_AVIF && s[1] == BRAND_MIF1 && s[2] == BRAND_MIAF);
    assert(BRAND_AVIF[3] == 0x66 && BRAND_AVIS[3] == 0x73);
    assert(BRAND_MIF1[0] == 0x6d && BRAND_MIAF[0] == 0x6d && BRAND_AVIS[0] == 0x61);
    assert(BRAND_MA1B[0] == 0x4d && BRAND_MA1A[0] == 0x4d && BRAND_MA1B[3] == 0x42 && BRAND_MA1A[3]
        == 0x41);
    match profile {
        ProfileBrand::Baseline => {
            assert(s[3] == BRAND_MA1B);
        },
        ProfileBrand::Advanced => {
            assert(s[3] == BRAND_MA1A);
        },
        ProfileBrand::Bare => {},
    }
}

/// The brands of a sequence are accepted, and say that it is a sequence,
/// that it has a still image too, and whether it is intra-only.
pub proof fn law_sequence_brands_are_accepted(profile: ProfileBrand, all_sync: bool)
    ensures
        classified(BRAND_AVIS, sequence_codes(profile, all_sync)) is Ok,
        class_of(BRAND_AVIS, sequence_codes(profile, all_sync)).is_sequence,
        class_of(BRAND_AVIS, sequence_codes(profile, all_sync)).is_image,
        class_of(BRAND_AVIS, sequence_codes(profile, all_sync)).has_msf1,
        class_of(BRAND_AVIS, sequence_codes(profile, all_sync)).is_intra_only == all_sync,
{
    let s = sequence_codes(profile, all_sync);
    assert(s[0] == BRAND_AVIS && s[1] == BRAND_AVIF && s[2] == BRAND_MIF1 && s[3] == BRAND_MSF1
        && s[4] == BRAND_MIAF && s[5] == ITEM_TYPE_AV01);
    assert(BRAND_AVIO[3] == 0x6f && BRAND_AVIS[3] == 0x73 && BRAND_AVIF[3] == 0x66);
    assert(BRAND_AVIO[0] == 0x61 && BRAND_MIF1[0] == 0x6d && BRAND_MSF1[0] == 0x6d && BRAND_MIAF[0]
        == 0x6d && ITEM_TYPE_AV01[3] == 0x31);
    assert(BRAND_MA1B[0] == 0x4d && BRAND_MA1A[0] == 0x4d);
    if all_sync {
        assert(s[6] == BRAND_AVIO);
    }
}

// ---------------------------------------------------------------------
// Properties

/// One property with its essential flag, as the container takes it.
pub type Prop = (HeifProperty, bool);

/// A property to be written.
pub open spec fn prop(p: PropertyView, essential: bool) -> PropPlan {
    PropPlan { box_type: p.kind(), body: body_of(p), essential }
}

/// What a property of the container stands for.
pub open spec fn planned(p: Prop) -> PropPlan {
    PropPlan { box_type: property_parts(p.0).0, body: property_parts(p.0).1, essential: p.1 }
}

/// One property where there is one, nothing otherwise.
pub open spec fn opt_prop(p: Option<PropertyView>, essential: bool) -> Seq<PropPlan> {
    match p {
        Some(v) => seq![prop(v, essential)],
        None => Seq::empty(),
    }
}

/// Appending a property appends what it stands for.
pub proof fn lemma_queued_push(s: Seq<Prop>, p: Prop)
    ensures
        queued(s.push(p)) == queued(s) + seq![planned(p)],
{
    assert(queued(s.push(p)) =~= queued(s) + seq![planned(p)]);
}

/// Append a property.
pub(crate) fn push_prop(props: &mut Vec<Prop>, p: Prop)
    ensures
        queued(final(props)@) == queued(old(props)@) + seq![planned(p)],
{
    proof {
        lemma_queued_push(props@, p);
    }
    props.push(p);
}

/// Why a record is refused, if it is.
pub open spec fn record_fault(record: Seq<u8>, what: Seq<char>) -> Option<Fault> {
    if record.len() < 4 {
        Some(
            Fault::Invalid(
                "avif mux: "@ + what + "av1C configuration record must be at least 4 bytes"@,
            ),
        )
    } else if record[0] < 0x80 {
        Some(Fault::Invalid("av1C: marker bit is 0"@))
    } else if record[0] != 0x81 {
        Some(
            Fault::Invalid("av1C: version "@ + dec((record[0] - 0x80) as nat) + " (expected 1)"@),
        )
    } else {
        None
    }
}

/// The configuration record, essential.
pub(crate) fn prop_av1c(av1c: &[u8], what: &str) -> (r: Result<Prop, AvifError>)
    ensures
        match r {
            Ok(p) => record_fault(av1c@, what@) is None && planned(p) == prop(
                PropertyView::Av1C(av1c@),
                true,
            ),
            Err(e) => record_fault(av1c@, what@) == Some(e@),
        },
{
    if av1c.len() < 4 {
        let mut s = "avif mux: ".to_string();
        s.append(what);
        s.append("av1C configuration record must be at least 4 bytes");
        return Err(AvifError::InvalidData(s));
    }
    if av1c[0] < 0x80 {
        return Err(AvifError::invalid("av1C: marker bit is 0"));
    }
    match heif_av1c(av1c) {
        Some(p) => Ok((p, true)),
        None => Err(invalid_n("av1C: version ", (av1c[0] - 0x80) as u64, " (expected 1)")),
    }
}

/// The extents.
pub(crate) fn prop_ispe(width: u32, height: u32) -> (r: Prop)
    ensures
        planned(r) == prop(PropertyView::Ispe(Ispe { width, height }), false),
{
    (heif_ispe(Ispe { width, height }), false)
}

/// The bits per channel.
pub(crate) fn prop_pixi(bits: &[u8]) -> (r: Prop)
    ensures
        planned(r) == prop(PropertyView::Pixi(bits@), false),
{
    (heif_pixi(slice_to_vec(bits)), false)
}

/// The fault of a colour type that is not written.
pub open spec fn colr_fault(t: BoxType) -> Fault {
    Fault::Unsupported(
        "avif mux: cannot emit colr of unknown type '"@ + lossy_text(t@) + "'"@,
    )
}

/// The colour description.
pub(crate) fn prop_colr(colr: &Colr) -> (r: Result<Prop, AvifError>)
    ensures
        match r {
            Ok(p) => !(colr@ is Unknown) && planned(p) == prop(PropertyView::Colr(colr@), false),
            Err(e) => colr@ matches ColrView::Unknown(t) && e@ == colr_fault(t),
        },
{
    match colr {
        Colr::Nclx {
            colour_primaries,
            transfer_characteristics,
            matrix_coefficients,
            full_range,
        } => Ok(
            (
                heif_nclx(
                    *colour_primaries,
                    *transfer_characteristics,
                    *matrix_coefficients,
                    *full_range,
                ),
                false,
            ),
        ),
        Colr::Icc(profile) => Ok((heif_icc(slice_to_vec(profile.as_slice())), false)),
        Colr::Unknown(t) => {
            let mut s = "avif mux: cannot emit colr of unknown type '".to_string();
            let code = utf8_lossy(t);
            s.append(code.as_str());
            s.append("'");
            Err(AvifError::Unsupported(s))
        },
    }
}

/// The pixel aspect ratio.
pub(crate) fn prop_pasp(pasp: Pasp) -> (r: Prop)
    ensures
        planned(r) == prop(PropertyView::Pasp(pasp), false),
{
    (heif_pasp(pasp), false)
}

/// The clean aperture, essential.
pub(crate) fn prop_clap(clap: Clap) -> (r: Prop)
    ensures
        planned(r) == prop(PropertyView::Clap(clap), true),
{
    (heif_clap(clap), true)
}

/// The rotation, essential.
pub(crate) fn prop_irot(irot: Irot) -> (r: Prop)
    ensures
        planned(r) == prop(PropertyView::Irot(irot), true),
{
    (heif_irot(irot), true)
}

/// The mirror, essential.
pub(crate) fn prop_imir(imir: Imir) -> (r: Prop)
    ensures
        planned(r) == prop(PropertyView::Imir(imir), true),
{
    (heif_imir(imir), true)
}

/// An auxiliary type without a subtype.
pub open spec fn aux_type(urn: Seq<char>) -> PropertyView {
    PropertyView::AuxC(AuxCView { aux_type: urn, aux_subtype: Seq::empty() })
}

/// The auxiliary type.
pub(crate) fn prop_auxc(urn: &str) -> (r: Prop)
    ensures
        planned(r) == prop(aux_type(urn@), false),
{
    (heif_auxc(urn), false)
}

/// The index of layers of these sizes: 16 bits each where all fit.
pub open spec fn layer_index(layer_size: [u32; 3]) -> A1lx {
    A1lx {
        large_size: layer_size[0] > 0xffff || layer_size[1] > 0xffff || layer_size[2] > 0xffff,
        layer_size,
    }
}

/// The layer index.
pub(crate) fn prop_a1lx(layer_size: [u32; 3]) -> (r: Prop)
    ensures
        planned(r) == prop(PropertyView::A1lx(layer_index(layer_size)), false),
{
    let large_size = layer_size[0] > 0xffff || layer_size[1] > 0xffff || layer_size[2] > 0xffff;
    (heif_a1lx(A1lx { large_size, layer_size }), false)
}

/// The layer selector, essential.
pub(crate) fn prop_lsel(layer_id: u16) -> (r: Prop)
    ensures
        planned(r) == prop(PropertyView::Lsel(Lsel { layer_id }), true),
{
    (heif_lsel(layer_id), true)
}

/// The operating point, essential.
pub(crate) fn prop_a1op(op_index: u8) -> (r: Prop)
    ensures
        planned(r) == prop(PropertyView::A1op(A1op { op_index }), true),
{
    (heif_a1op(op_index), true)
}

/// The mastering display, in the order in which this crate reads it:
/// three primaries, the white point, then the luminances.
pub(crate) fn prop_mdcv(m: Mdcv) -> (r: Prop)
    ensures
        planned(r) == prop(PropertyView::Mdcv(m), false),
{
    let p = m.display_primaries_xy;
    let mut w = W::new();
    w.u16(p[0].0);
    proof {
        assert(w@ =~= crate::bytes::b16(p[0].0));
    }
    w.u16(p[0].1);
    w.u16(p[1].0);
    w.u16(p[1].1);
    w.u16(p[2].0);
    w.u16(p[2].1);
    w.u16(m.white_point_xy.0);
    w.u16(m.white_point_xy.1);
    w.u32(m.max_display_mastering_luminance);
    w.u32(m.min_display_mastering_luminance);
    let body = w.into_vec();
    proof {
        assert(body@ == mdcv_body(m));
        reveal(body_of);
    }
    (heif_raw_mdcv(body), false)
}

/// The content light level.
pub(crate) fn prop_clli(c: Clli) -> (r: Prop)
    ensures
        planned(r) == prop(PropertyView::Clli(c), false),
{
    (heif_clli(c), false)
}

/// The ambient viewing environment.
pub(crate) fn prop_amve(a: Amve) -> (r: Prop)
    ensures
        planned(r) == prop(PropertyView::Amve(a), false),
{
    (heif_amve(a), false)
}

} // verus!
