//! Parsers of the item property boxes. Each takes the body of a property
//! box, after its size and type.

use crate::box_parser::{
    be16, be32, be64, box_at, cstr_at, full_box, lemma_box_bounds, parse_box_header, parse_full_box,
    payload_of, read_cstr, read_u16, read_u32, read_u64, same_type, tail, type_at, type_from,
    BoxType,
};
use crate::error::{
    invalid_n, invalid_nn, invalid_nnn, lemma_views_push, outcome, outcome_list, outcome_view,
    views, AvifError, Fault,
};
use crate::props::{
    A1lx, A1op, Aebr, Afbr, Altt, AlttView, Amve, AuxC, AuxCView, Cclv, Clap, Clli, Colr, ColrView,
    Crtt, Dobr, Fobr, Imir, Irot, Iscl, Ispe, Lsel, Mdcv, Mdft, Pano, PanoGrid, Pasp, Pixi,
    Property, PropertyView, Rloc, Rref, Udes, UdesView, Wbbr, A1LX, A1OP, AEBR, AFBR, ALTT, AMVE,
    AUXC, AV1C, CCLV, CLAP, CLLI, COLR, CRTT, DOBR, FOBR, IMIR, IROT, ISCL, ISPE, LSEL, MDCV, MDFT,
    NCLX, PANO, PASP, PIXI, PROF, RICC, RLOC, RREF, UDES, WBBR,
};
use crate::text::dec;
use vstd::prelude::*;
use vstd::slice::{slice_subrange, slice_to_vec};

verus! {

/// The fault of a body of `len` bytes where `need` are needed; `what`
/// says of which box.
pub open spec fn too_short(what: Seq<char>, len: nat, need: nat) -> Fault {
    Fault::Invalid(what + dec(len) + " < "@ + dec(need) + ")"@)
}

pub(crate) fn short_body(what: &str, len: usize, need: u64) -> (r: AvifError)
    ensures
        r@ == too_short(what@, len as nat, need as nat),
{
    invalid_nn(what, len as u64, " < ", need, ")")
}

/// The body of a full box whose version must be 0; `what` names the
/// version field in the fault.
pub open spec fn v0_body(s: Seq<u8>, what: Seq<char>) -> Result<Seq<u8>, Fault> {
    match full_box(s) {
        Err(f) => Err(f),
        Ok((version, _, body)) => if version != 0 {
            Err(Fault::Invalid(what + dec(version as nat) + " != 0"@))
        } else {
            Ok(body)
        },
    }
}

fn parse_v0<'a>(s: &'a [u8], what: &str) -> (r: Result<&'a [u8], AvifError>)
    ensures
        match r {
            Ok(body) => v0_body(s@, what@) == Ok::<Seq<u8>, Fault>(body@),
            Err(e) => v0_body(s@, what@) == Err::<Seq<u8>, Fault>(e@),
        },
{
    let (version, _flags, body) = parse_full_box(s)?;
    if version != 0 {
        return Err(invalid_n(what, version as u64, " != 0"));
    }
    Ok(body)
}

/// Image spatial extents in a property body.
pub open spec fn ispe_of(s: Seq<u8>) -> Result<Ispe, Fault> {
    match full_box(s) {
        Err(f) => Err(f),
        Ok((_, _, b)) => if b.len() < 8 {
            Err(Fault::Invalid("avif: ispe too short"@))
        } else {
            Ok(Ispe { width: be32(b, 0), height: be32(b, 4) })
        },
    }
}

/// Parse `ispe`: a full box with width and height.
pub fn parse_ispe(body: &[u8]) -> (r: Result<Ispe, AvifError>)
    ensures
        outcome(r) == ispe_of(body@),
{
    let (_v, _f, rest) = parse_full_box(body)?;
    if rest.len() < 8 {
        return Err(AvifError::invalid("avif: ispe too short"));
    }
    Ok(Ispe { width: read_u32(rest, 0)?, height: read_u32(rest, 4)? })
}

/// Colour information in a property body.
pub open spec fn colr_of(s: Seq<u8>) -> Result<ColrView, Fault> {
    if s.len() < 4 {
        Err(Fault::Invalid("avif: colr too short"@))
    } else if type_at(s, 0) == NCLX {
        if s.len() < 11 {
            Err(Fault::Invalid("avif: colr nclx too short"@))
        } else {
            Ok(
                ColrView::Nclx {
                    colour_primaries: be16(s, 4),
                    transfer_characteristics: be16(s, 6),
                    matrix_coefficients: be16(s, 8),
                    full_range: s[10] >= 0x80,
                },
            )
        }
    } else if type_at(s, 0) == RICC || type_at(s, 0) == PROF {
        Ok(ColrView::Icc(tail(s, 4)))
    } else {
        Ok(ColrView::Unknown(type_at(s, 0)))
    }
}

/// Parse `colr`: a colour type and, for `nclx`, three code points and
/// the full-range bit; for `rICC` and `prof`, the profile.
pub fn parse_colr(body: &[u8]) -> (r: Result<Colr, AvifError>)
    ensures
        outcome_view(r) == colr_of(body@),
{
    if body.len() < 4 {
        return Err(AvifError::invalid("avif: colr too short"));
    }
    let tag: BoxType = type_from(body, 0);
    if same_type(&tag, &NCLX) {
        if body.len() < 11 {
            return Err(AvifError::invalid("avif: colr nclx too short"));
        }
        return Ok(
            Colr::Nclx {
                colour_primaries: read_u16(body, 4)?,
                transfer_characteristics: read_u16(body, 6)?,
                matrix_coefficients: read_u16(body, 8)?,
                full_range: body[10] >= 0x80,
            },
        );
    }
    if same_type(&tag, &RICC) || same_type(&tag, &PROF) {
        return Ok(Colr::Icc(slice_to_vec(slice_subrange(body, 4, body.len()))));
    }
    Ok(Colr::Unknown(tag))
}

/// Pixel information in a property body.
pub open spec fn pixi_of(s: Seq<u8>) -> Result<Seq<u8>, Fault> {
    match full_box(s) {
        Err(f) => Err(f),
        Ok((_, _, b)) => if b.len() == 0 {
            Err(Fault::Invalid("avif: pixi too short"@))
        } else if b.len() < 1 + b[0] {
            Err(Fault::Invalid("avif: pixi channels truncated"@))
        } else {
            Ok(b.subrange(1, 1 + b[0]))
        },
    }
}

/// Parse `pixi`: a full box with a channel count and that many depths.
pub fn parse_pixi(body: &[u8]) -> (r: Result<Pixi, AvifError>)
    ensures
        outcome_view(r) == pixi_of(body@),
{
    let (_v, _f, rest) = parse_full_box(body)?;
    if rest.len() == 0 {
        return Err(AvifError::invalid("avif: pixi too short"));
    }
    let n: usize = rest[0] as usize;
    if rest.len() < 1 + n {
        return Err(AvifError::invalid("avif: pixi channels truncated"));
    }
    Ok(Pixi { bits_per_channel: slice_to_vec(slice_subrange(rest, 1, 1 + n)) })
}

/// Pixel aspect ratio in a property body.
pub open spec fn pasp_of(s: Seq<u8>) -> Result<Pasp, Fault> {
    if s.len() < 8 {
        Err(Fault::Invalid("avif: pasp too short"@))
    } else {
        Ok(Pasp { h_spacing: be32(s, 0), v_spacing: be32(s, 4) })
    }
}

/// Parse `pasp`: horizontal and vertical spacing.
pub fn parse_pasp(body: &[u8]) -> (r: Result<Pasp, AvifError>)
    ensures
        outcome(r) == pasp_of(body@),
{
    if body.len() < 8 {
        return Err(AvifError::invalid("avif: pasp too short"));
    }
    Ok(Pasp { h_spacing: read_u32(body, 0)?, v_spacing: read_u32(body, 4)? })
}

/// Image rotation in a property body: the two low bits of its first
/// byte.
pub open spec fn irot_of(s: Seq<u8>) -> Result<Irot, Fault> {
    if s.len() == 0 {
        Err(Fault::Invalid("avif: irot empty"@))
    } else {
        Ok(Irot { angle: (s[0] % 4) as u8 })
    }
}

/// Parse `irot`.
pub fn parse_irot(body: &[u8]) -> (r: Result<Irot, AvifError>)
    ensures
        outcome(r) == irot_of(body@),
{
    if body.len() == 0 {
        return Err(AvifError::invalid("avif: irot empty"));
    }
    Ok(Irot { angle: body[0] % 4 })
}

/// Image mirror in a property body: the low bit of its first byte.
pub open spec fn imir_of(s: Seq<u8>) -> Result<Imir, Fault> {
    if s.len() == 0 {
        Err(Fault::Invalid("avif: imir empty"@))
    } else {
        Ok(Imir { axis: (s[0] % 2) as u8 })
    }
}

/// Parse `imir`.
pub fn parse_imir(body: &[u8]) -> (r: Result<Imir, AvifError>)
    ensures
        outcome(r) == imir_of(body@),
{
    if body.len() == 0 {
        return Err(AvifError::invalid("avif: imir empty"));
    }
    Ok(Imir { axis: body[0] % 2 })
}

/// Clean aperture in a property body.
pub open spec fn clap_of(s: Seq<u8>) -> Result<Clap, Fault> {
    if s.len() < 32 {
        Err(Fault::Invalid("avif: clap too short"@))
    } else {
        Ok(
            Clap {
                clean_aperture_width_n: be32(s, 0) as i32,
                clean_aperture_width_d: be32(s, 4) as i32,
                clean_aperture_height_n: be32(s, 8) as i32,
                clean_aperture_height_d: be32(s, 12) as i32,
                horiz_off_n: be32(s, 16) as i32,
                horiz_off_d: be32(s, 20) as i32,
                vert_off_n: be32(s, 24) as i32,
                vert_off_d: be32(s, 28) as i32,
            },
        )
    }
}

/// Parse `clap`: eight 32-bit values in two's complement.
pub fn parse_clap(body: &[u8]) -> (r: Result<Clap, AvifError>)
    ensures
        outcome(r) == clap_of(body@),
{
    if body.len() < 32 {
        return Err(AvifError::invalid("avif: clap too short"));
    }
    Ok(
        Clap {
            clean_aperture_width_n: read_u32(body, 0)? as i32,
            clean_aperture_width_d: read_u32(body, 4)? as i32,
            clean_aperture_height_n: read_u32(body, 8)? as i32,
            clean_aperture_height_d: read_u32(body, 12)? as i32,
            horiz_off_n: read_u32(body, 16)? as i32,
            horiz_off_d: read_u32(body, 20)? as i32,
            vert_off_n: read_u32(body, 24)? as i32,
            vert_off_d: read_u32(body, 28)? as i32,
        },
    )
}

/// Auxiliary type in a property body.
pub open spec fn auxc_of(s: Seq<u8>) -> Result<AuxCView, Fault> {
    match full_box(s) {
        Err(f) => Err(f),
        Ok((_, _, b)) => match cstr_at(b, 0) {
            Err(f) => Err(f),
            Ok((urn, next)) => Ok(AuxCView { aux_type: urn, aux_subtype: tail(b, next) }),
        },
    }
}

/// Parse `auxC`: a full box with a URN and the bytes after it.
pub fn parse_auxc(body: &[u8]) -> (r: Result<AuxC, AvifError>)
    ensures
        outcome_view(r) == auxc_of(body@),
{
    let (_v, _f, rest) = parse_full_box(body)?;
    let (aux_type, next) = read_cstr(rest, 0)?;
    Ok(AuxC { aux_type, aux_subtype: slice_to_vec(slice_subrange(rest, next, rest.len())) })
}

/// Mastering display colour volume in a property body.
pub open spec fn mdcv_of(s: Seq<u8>) -> Result<Mdcv, Fault> {
    if s.len() < 24 {
        Err(too_short("avif: mdcv too short ("@, s.len(), 24))
    } else {
        Ok(
            Mdcv {
                display_primaries_xy: [
                    (be16(s, 0), be16(s, 2)),
                    (be16(s, 4), be16(s, 6)),
                    (be16(s, 8), be16(s, 10)),
                ],
                white_point_xy: (be16(s, 12), be16(s, 14)),
                max_display_mastering_luminance: be32(s, 16),
                min_display_mastering_luminance: be32(s, 20),
            },
        )
    }
}

/// Parse `mdcv`: three primaries, the white point, two luminances.
pub fn parse_mdcv(body: &[u8]) -> (r: Result<Mdcv, AvifError>)
    ensures
        outcome(r) == mdcv_of(body@),
{
    if body.len() < 24 {
        return Err(short_body("avif: mdcv too short (", body.len(), 24));
    }
    let rx: u16 = read_u16(body, 0)?;
    let ry: u16 = read_u16(body, 2)?;
    let gx: u16 = read_u16(body, 4)?;
    let gy: u16 = read_u16(body, 6)?;
    let bx: u16 = read_u16(body, 8)?;
    let by: u16 = read_u16(body, 10)?;
    let primaries = [(rx, ry), (gx, gy), (bx, by)];
    proof {
        let s = body@;
        assert(primaries =~= [
            (be16(s, 0), be16(s, 2)),
            (be16(s, 4), be16(s, 6)),
            (be16(s, 8), be16(s, 10)),
        ]);
    }
    Ok(
        Mdcv {
            display_primaries_xy: primaries,
            white_point_xy: (read_u16(body, 12)?, read_u16(body, 14)?),
            max_display_mastering_luminance: read_u32(body, 16)?,
            min_display_mastering_luminance: read_u32(body, 20)?,
        },
    )
}

/// Content light level in a property body.
pub open spec fn clli_of(s: Seq<u8>) -> Result<Clli, Fault> {
    if s.len() < 4 {
        Err(too_short("avif: clli too short ("@, s.len(), 4))
    } else {
        Ok(Clli { max_content_light_level: be16(s, 0), max_pic_average_light_level: be16(s, 2) })
    }
}

/// Parse `clli`.
pub fn parse_clli(body: &[u8]) -> (r: Result<Clli, AvifError>)
    ensures
        outcome(r) == clli_of(body@),
{
    if body.len() < 4 {
        return Err(short_body("avif: clli too short (", body.len(), 4));
    }
    Ok(
        Clli {
            max_content_light_level: read_u16(body, 0)?,
            max_pic_average_light_level: read_u16(body, 2)?,
        },
    )
}

/// Colour volume luminance in a property body.
pub open spec fn cclv_of(s: Seq<u8>) -> Result<Cclv, Fault> {
    if s.len() < 4 {
        Err(too_short("avif: cclv too short ("@, s.len(), 4))
    } else {
        Ok(Cclv { max_content_light_level: be16(s, 0), max_pic_average_light_level: be16(s, 2) })
    }
}

/// Parse `cclv`, laid out as `clli`.
pub fn parse_cclv(body: &[u8]) -> (r: Result<Cclv, AvifError>)
    ensures
        outcome(r) == cclv_of(body@),
{
    if body.len() < 4 {
        return Err(short_body("avif: cclv too short (", body.len(), 4));
    }
    Ok(
        Cclv {
            max_content_light_level: read_u16(body, 0)?,
            max_pic_average_light_level: read_u16(body, 2)?,
        },
    )
}

/// Ambient viewing environment in a property body.
pub open spec fn amve_of(s: Seq<u8>) -> Result<Amve, Fault> {
    if s.len() < 8 {
        Err(too_short("avif: amve too short ("@, s.len(), 8))
    } else {
        Ok(
            Amve {
                ambient_illuminance: be32(s, 0),
                ambient_light_x: be16(s, 4),
                ambient_light_y: be16(s, 6),
            },
        )
    }
}

/// Parse `amve`.
pub fn parse_amve(body: &[u8]) -> (r: Result<Amve, AvifError>)
    ensures
        outcome(r) == amve_of(body@),
{
    if body.len() < 8 {
        return Err(short_body("avif: amve too short (", body.len(), 8));
    }
    Ok(
        Amve {
            ambient_illuminance: read_u32(body, 0)?,
            ambient_light_x: read_u16(body, 4)?,
            ambient_light_y: read_u16(body, 6)?,
        },
    )
}

/// Layer selector in a property body.
pub open spec fn lsel_of(s: Seq<u8>) -> Result<Lsel, Fault> {
    if s.len() < 2 {
        Err(too_short("avif: lsel too short ("@, s.len(), 2))
    } else {
        Ok(Lsel { layer_id: be16(s, 0) })
    }
}

/// Parse `lsel`.
pub fn parse_lsel(body: &[u8]) -> (r: Result<Lsel, AvifError>)
    ensures
        outcome(r) == lsel_of(body@),
{
    if body.len() < 2 {
        return Err(short_body("avif: lsel too short (", body.len(), 2));
    }
    Ok(Lsel { layer_id: read_u16(body, 0)? })
}

/// Operating point selector in a property body.
pub open spec fn a1op_of(s: Seq<u8>) -> Result<A1op, Fault> {
    if s.len() == 0 {
        Err(Fault::Invalid("avif: a1op too short (0 < 1)"@))
    } else {
        Ok(A1op { op_index: s[0] })
    }
}

/// Parse `a1op`.
pub fn parse_a1op(body: &[u8]) -> (r: Result<A1op, AvifError>)
    ensures
        outcome(r) == a1op_of(body@),
{
    if body.len() == 0 {
        return Err(AvifError::invalid("avif: a1op too short (0 < 1)"));
    }
    Ok(A1op { op_index: body[0] })
}

/// Layered image indexing in a property body: the low bit of the first
/// byte selects 32-bit sizes over 16-bit ones.
pub open spec fn a1lx_of(s: Seq<u8>) -> Result<A1lx, Fault> {
    if s.len() == 0 {
        Err(Fault::Invalid("avif: a1lx too short (0 < 1)"@))
    } else if s[0] % 2 == 1 {
        if s.len() < 13 {
            Err(too_short("avif: a1lx too short ("@, s.len(), 13))
        } else {
            Ok(A1lx { large_size: true, layer_size: [be32(s, 1), be32(s, 5), be32(s, 9)] })
        }
    } else if s.len() < 7 {
        Err(too_short("avif: a1lx too short ("@, s.len(), 7))
    } else {
        Ok(
            A1lx {
                large_size: false,
                layer_size: [be16(s, 1) as u32, be16(s, 3) as u32, be16(s, 5) as u32],
            },
        )
    }
}

/// Parse `a1lx`.
pub fn parse_a1lx(body: &[u8]) -> (r: Result<A1lx, AvifError>)
    ensures
        outcome(r) == a1lx_of(body@),
{
    if body.len() == 0 {
        return Err(AvifError::invalid("avif: a1lx too short (0 < 1)"));
    }
    let large_size: bool = body[0] % 2 == 1;
    let field: usize = if large_size { 4 } else { 2 };
    let need: usize = 1 + field * 3;
    if body.len() < need {
        return Err(short_body("avif: a1lx too short (", body.len(), need as u64));
    }
    if large_size {
        let sizes = [read_u32(body, 1)?, read_u32(body, 5)?, read_u32(body, 9)?];
        proof {
            assert(sizes =~= [be32(body@, 1), be32(body@, 5), be32(body@, 9)]);
        }
        Ok(A1lx { large_size, layer_size: sizes })
    } else {
        let sizes = [
            read_u16(body, 1)? as u32,
            read_u16(body, 3)? as u32,
            read_u16(body, 5)? as u32,
        ];
        proof {
            assert(sizes =~= [
                be16(body@, 1) as u32,
                be16(body@, 3) as u32,
                be16(body@, 5) as u32,
            ]);
        }
        Ok(A1lx { large_size, layer_size: sizes })
    }
}

/// Relative location in a property body.
pub open spec fn rloc_of(s: Seq<u8>) -> Result<Rloc, Fault> {
    match v0_body(s, "avif: rloc version "@) {
        Err(f) => Err(f),
        Ok(b) => if b.len() < 8 {
            Err(too_short("avif: rloc too short ("@, b.len(), 8))
        } else {
            Ok(
                Rloc {
                    horizontal_offset: be32(b, 0),
                    vertical_offset: be32(b, 4),
                },
            )
        },
    }
}

/// Parse `rloc`.
pub fn parse_rloc(body: &[u8]) -> (r: Result<Rloc, AvifError>)
    ensures
        outcome(r) == rloc_of(body@),
{
    let rest = parse_v0(body, "avif: rloc version ")?;
    if rest.len() < 8 {
        return Err(short_body("avif: rloc too short (", rest.len(), 8));
    }
    Ok(
        Rloc {
            horizontal_offset: read_u32(rest, 0)?,
            vertical_offset: read_u32(rest, 4)?,
        },
    )
}

/// Image scaling in a property body.
pub open spec fn iscl_of(s: Seq<u8>) -> Result<Iscl, Fault> {
    match v0_body(s, "avif: iscl version "@) {
        Err(f) => Err(f),
        Ok(b) => if b.len() < 8 {
            Err(too_short("avif: iscl too short ("@, b.len(), 8))
        } else {
            Ok(
                Iscl {
                    target_width_numerator: be16(b, 0),
                    target_width_denominator: be16(b, 2),
                    target_height_numerator: be16(b, 4),
                    target_height_denominator: be16(b, 6),
                },
            )
        },
    }
}

/// Parse `iscl`.
pub fn parse_iscl(body: &[u8]) -> (r: Result<Iscl, AvifError>)
    ensures
        outcome(r) == iscl_of(body@),
{
    let rest = parse_v0(body, "avif: iscl version ")?;
    if rest.len() < 8 {
        return Err(short_body("avif: iscl too short (", rest.len(), 8));
    }
    Ok(
        Iscl {
            target_width_numerator: read_u16(rest, 0)?,
            target_width_denominator: read_u16(rest, 2)?,
            target_height_numerator: read_u16(rest, 4)?,
            target_height_denominator: read_u16(rest, 6)?,
        },
    )
}

/// Creation time in a property body.
pub open spec fn crtt_of(s: Seq<u8>) -> Result<Crtt, Fault> {
    match v0_body(s, "avif: crtt version "@) {
        Err(f) => Err(f),
        Ok(b) => if b.len() < 8 {
            Err(too_short("avif: crtt too short ("@, b.len(), 8))
        } else {
            Ok(
                Crtt {
                    creation_time: be64(b, 0),
                },
            )
        },
    }
}

/// Parse `crtt`.
pub fn parse_crtt(body: &[u8]) -> (r: Result<Crtt, AvifError>)
    ensures
        outcome(r) == crtt_of(body@),
{
    let rest = parse_v0(body, "avif: crtt version ")?;
    if rest.len() < 8 {
        return Err(short_body("avif: crtt too short (", rest.len(), 8));
    }
    Ok(
        Crtt {
            creation_time: read_u64(rest, 0)?,
        },
    )
}

/// Modification time in a property body.
pub open spec fn mdft_of(s: Seq<u8>) -> Result<Mdft, Fault> {
    match v0_body(s, "avif: mdft version "@) {
        Err(f) => Err(f),
        Ok(b) => if b.len() < 8 {
            Err(too_short("avif: mdft too short ("@, b.len(), 8))
        } else {
            Ok(
                Mdft {
                    modification_time: be64(b, 0),
                },
            )
        },
    }
}

/// Parse `mdft`.
pub fn parse_mdft(body: &[u8]) -> (r: Result<Mdft, AvifError>)
    ensures
        outcome(r) == mdft_of(body@),
{
    let rest = parse_v0(body, "avif: mdft version ")?;
    if rest.len() < 8 {
        return Err(short_body("avif: mdft too short (", rest.len(), 8));
    }
    Ok(
        Mdft {
            modification_time: read_u64(rest, 0)?,
        },
    )
}

/// Auto exposure in a property body.
pub open spec fn aebr_of(s: Seq<u8>) -> Result<Aebr, Fault> {
    match v0_body(s, "avif: aebr version "@) {
        Err(f) => Err(f),
        Ok(b) => if b.len() < 2 {
            Err(too_short("avif: aebr too short ("@, b.len(), 2))
        } else {
            Ok(
                Aebr {
                    exposure_step: b[0] as i8,
                    exposure_numerator: b[1] as i8,
                },
            )
        },
    }
}

/// Parse `aebr`.
pub fn parse_aebr(body: &[u8]) -> (r: Result<Aebr, AvifError>)
    ensures
        outcome(r) == aebr_of(body@),
{
    let rest = parse_v0(body, "avif: aebr version ")?;
    if rest.len() < 2 {
        return Err(short_body("avif: aebr too short (", rest.len(), 2));
    }
    Ok(
        Aebr {
            exposure_step: rest[0] as i8,
            exposure_numerator: rest[1] as i8,
        },
    )
}

/// White balance in a property body.
pub open spec fn wbbr_of(s: Seq<u8>) -> Result<Wbbr, Fault> {
    match v0_body(s, "avif: wbbr version "@) {
        Err(f) => Err(f),
        Ok(b) => if b.len() < 3 {
            Err(too_short("avif: wbbr too short ("@, b.len(), 3))
        } else {
            Ok(
                Wbbr {
                    blue_amber: be16(b, 0),
                    green_magenta: b[2] as i8,
                },
            )
        },
    }
}

/// Parse `wbbr`.
pub fn parse_wbbr(body: &[u8]) -> (r: Result<Wbbr, AvifError>)
    ensures
        outcome(r) == wbbr_of(body@),
{
    let rest = parse_v0(body, "avif: wbbr version ")?;
    if rest.len() < 3 {
        return Err(short_body("avif: wbbr too short (", rest.len(), 3));
    }
    Ok(
        Wbbr {
            blue_amber: read_u16(rest, 0)?,
            green_magenta: rest[2] as i8,
        },
    )
}

/// Focus in a property body.
pub open spec fn fobr_of(s: Seq<u8>) -> Result<Fobr, Fault> {
    match v0_body(s, "avif: fobr version "@) {
        Err(f) => Err(f),
        Ok(b) => if b.len() < 4 {
            Err(too_short("avif: fobr too short ("@, b.len(), 4))
        } else {
            Ok(
                Fobr {
                    focus_distance_numerator: be16(b, 0),
                    focus_distance_denominator: be16(b, 2),
                },
            )
        },
    }
}

/// Parse `fobr`.
pub fn parse_fobr(body: &[u8]) -> (r: Result<Fobr, AvifError>)
    ensures
        outcome(r) == fobr_of(body@),
{
    let rest = parse_v0(body, "avif: fobr version ")?;
    if rest.len() < 4 {
        return Err(short_body("avif: fobr too short (", rest.len(), 4));
    }
    Ok(
        Fobr {
            focus_distance_numerator: read_u16(rest, 0)?,
            focus_distance_denominator: read_u16(rest, 2)?,
        },
    )
}

/// Flash exposure in a property body.
pub open spec fn afbr_of(s: Seq<u8>) -> Result<Afbr, Fault> {
    match v0_body(s, "avif: afbr version "@) {
        Err(f) => Err(f),
        Ok(b) => if b.len() < 2 {
            Err(too_short("avif: afbr too short ("@, b.len(), 2))
        } else {
            Ok(
                Afbr {
                    flash_exposure_numerator: b[0] as i8,
                    flash_exposure_denominator: b[1] as i8,
                },
            )
        },
    }
}

/// Parse `afbr`.
pub fn parse_afbr(body: &[u8]) -> (r: Result<Afbr, AvifError>)
    ensures
        outcome(r) == afbr_of(body@),
{
    let rest = parse_v0(body, "avif: afbr version ")?;
    if rest.len() < 2 {
        return Err(short_body("avif: afbr too short (", rest.len(), 2));
    }
    Ok(
        Afbr {
            flash_exposure_numerator: rest[0] as i8,
            flash_exposure_denominator: rest[1] as i8,
        },
    )
}

/// Depth of field in a property body.
pub open spec fn dobr_of(s: Seq<u8>) -> Result<Dobr, Fault> {
    match v0_body(s, "avif: dobr version "@) {
        Err(f) => Err(f),
        Ok(b) => if b.len() < 2 {
            Err(too_short("avif: dobr too short ("@, b.len(), 2))
        } else {
            Ok(
                Dobr {
                    f_stop_numerator: b[0] as i8,
                    f_stop_denominator: b[1] as i8,
                },
            )
        },
    }
}

/// Parse `dobr`.
pub fn parse_dobr(body: &[u8]) -> (r: Result<Dobr, AvifError>)
    ensures
        outcome(r) == dobr_of(body@),
{
    let rest = parse_v0(body, "avif: dobr version ")?;
    if rest.len() < 2 {
        return Err(short_body("avif: dobr too short (", rest.len(), 2));
    }
    Ok(
        Dobr {
            f_stop_numerator: rest[0] as i8,
            f_stop_denominator: rest[1] as i8,
        },
    )
}

/// Required reference types in a property body.
pub open spec fn rref_of(s: Seq<u8>) -> Result<Seq<BoxType>, Fault> {
    match v0_body(s, "avif: rref version "@) {
        Err(f) => Err(f),
        Ok(b) => if b.len() == 0 {
            Err(Fault::Invalid("avif: rref too short (0 < 1)"@))
        } else if b.len() < 1 + b[0] * 4 {
            Err(
                too_short(
                    "avif: rref reference_type table truncated ("@,
                    b.len(),
                    (1 + b[0] * 4) as nat,
                ),
            )
        } else {
            Ok(Seq::new(b[0] as nat, |i: int| type_at(b, 1 + i * 4)))
        },
    }
}

/// Parse `rref`: a count and that many reference types. A table shorter
/// than its count is invalid.
pub fn parse_rref(body: &[u8]) -> (r: Result<Rref, AvifError>)
    ensures
        outcome_view(r) == rref_of(body@),
{
    let rest = parse_v0(body, "avif: rref version ")?;
    if rest.len() == 0 {
        return Err(AvifError::invalid("avif: rref too short (0 < 1)"));
    }
    let count: usize = rest[0] as usize;
    let need: usize = 1 + count * 4;
    if rest.len() < need {
        return Err(
            short_body("avif: rref reference_type table truncated (", rest.len(), need as u64),
        );
    }
    let mut reference_types: Vec<BoxType> = Vec::new();
    let mut i: usize = 0;
    while i < count
        invariant
            i <= count <= 255,
            1 + count * 4 <= rest.len(),
            reference_types@ == Seq::new(i as nat, |j: int| type_at(rest@, 1 + j * 4)),
        decreases count - i,
    {
        reference_types.push(type_from(rest, 1 + i * 4));
        i = i + 1;
        proof {
            assert(reference_types@ =~= Seq::new(i as nat, |j: int| type_at(rest@, 1 + j * 4)));
        }
    }
    Ok(Rref { reference_types })
}

/// User description in a property body: four strings.
pub open spec fn udes_of(s: Seq<u8>) -> Result<UdesView, Fault> {
    match v0_body(s, "avif: udes version "@) {
        Err(f) => Err(f),
        Ok(b) => match cstr_at(b, 0) {
            Err(f) => Err(f),
            Ok((lang, at1)) => match cstr_at(b, at1) {
                Err(f) => Err(f),
                Ok((name, at2)) => match cstr_at(b, at2) {
                    Err(f) => Err(f),
                    Ok((description, at3)) => match cstr_at(b, at3) {
                        Err(f) => Err(f),
                        Ok((tags, _)) => Ok(UdesView { lang, name, description, tags }),
                    },
                },
            },
        },
    }
}

/// Parse `udes`: language, name, description and tags. Bytes after the
/// fourth string are ignored.
pub fn parse_udes(body: &[u8]) -> (r: Result<Udes, AvifError>)
    ensures
        outcome_view(r) == udes_of(body@),
{
    let rest = parse_v0(body, "avif: udes version ")?;
    let (lang, at1) = read_cstr(rest, 0)?;
    let (name, at2) = read_cstr(rest, at1)?;
    let (description, at3) = read_cstr(rest, at2)?;
    let (tags, _at4) = read_cstr(rest, at3)?;
    Ok(Udes { lang, name, description, tags })
}

/// Accessibility text in a property body: two strings.
pub open spec fn altt_of(s: Seq<u8>) -> Result<AlttView, Fault> {
    match v0_body(s, "avif: altt version "@) {
        Err(f) => Err(f),
        Ok(b) => match cstr_at(b, 0) {
            Err(f) => Err(f),
            Ok((alt_text, at1)) => match cstr_at(b, at1) {
                Err(f) => Err(f),
                Ok((alt_lang, _)) => Ok(AlttView { alt_text, alt_lang }),
            },
        },
    }
}

/// Parse `altt`: the text, then its language. Bytes after the second
/// string are ignored.
pub fn parse_altt(body: &[u8]) -> (r: Result<Altt, AvifError>)
    ensures
        outcome_view(r) == altt_of(body@),
{
    let rest = parse_v0(body, "avif: altt version ")?;
    let (alt_text, at1) = read_cstr(rest, 0)?;
    let (alt_lang, _at2) = read_cstr(rest, at1)?;
    Ok(Altt { alt_text, alt_lang })
}

/// Panorama in a property body: a direction and, for the two grid
/// directions, a shape.
pub open spec fn pano_of(s: Seq<u8>) -> Result<Pano, Fault> {
    match v0_body(s, "avif: pano version "@) {
        Err(f) => Err(f),
        Ok(b) => if b.len() == 0 {
            Err(Fault::Invalid("avif: pano too short (0 < 1)"@))
        } else if 4 <= b[0] <= 5 {
            if b.len() < 3 {
                Err(
                    Fault::Invalid(
                        "avif: pano grid direction "@ + dec(b[0] as nat)
                            + " but body too short ("@ + dec(b.len()) + " < "@ + dec(3) + ")"@,
                    ),
                )
            } else {
                Ok(
                    Pano {
                        panorama_direction: b[0],
                        grid: Some(PanoGrid { rows_minus_one: b[1], columns_minus_one: b[2] }),
                    },
                )
            }
        } else {
            Ok(Pano { panorama_direction: b[0], grid: None })
        },
    }
}

/// Parse `pano`. An undefined direction is kept as it is.
pub fn parse_pano(body: &[u8]) -> (r: Result<Pano, AvifError>)
    ensures
        outcome(r) == pano_of(body@),
{
    let rest = parse_v0(body, "avif: pano version ")?;
    if rest.len() == 0 {
        return Err(AvifError::invalid("avif: pano too short (0 < 1)"));
    }
    let panorama_direction: u8 = rest[0];
    if Pano::DIRECTION_GRID_RASTER <= panorama_direction && panorama_direction
        <= Pano::DIRECTION_GRID_CONTINUOUS {
        if rest.len() < 3 {
            return Err(
                invalid_nnn(
                    "avif: pano grid direction ",
                    panorama_direction as u64,
                    " but body too short (",
                    rest.len() as u64,
                    " < ",
                    3,
                    ")",
                ),
            );
        }
        Ok(
            Pano {
                panorama_direction,
                grid: Some(PanoGrid { rows_minus_one: rest[1], columns_minus_one: rest[2] }),
            },
        )
    } else {
        Ok(Pano { panorama_direction, grid: None })
    }
}

/// The property that a box of type `t` with body `s` holds.
pub open spec fn property_of(t: BoxType, s: Seq<u8>) -> Result<PropertyView, Fault> {
    if t == AV1C {
        Ok(PropertyView::Av1C(s))
    } else if t == ISPE {
        match ispe_of(s) {
            Err(f) => Err(f),
            Ok(v) => Ok(PropertyView::Ispe(v)),
        }
    } else if t == COLR {
        match colr_of(s) {
            Err(f) => Err(f),
            Ok(v) => Ok(PropertyView::Colr(v)),
        }
    } else if t == PIXI {
        match pixi_of(s) {
            Err(f) => Err(f),
            Ok(v) => Ok(PropertyView::Pixi(v)),
        }
    } else if t == PASP {
        match pasp_of(s) {
            Err(f) => Err(f),
            Ok(v) => Ok(PropertyView::Pasp(v)),
        }
    } else if t == IROT {
        match irot_of(s) {
            Err(f) => Err(f),
            Ok(v) => Ok(PropertyView::Irot(v)),
        }
    } else if t == IMIR {
        match imir_of(s) {
            Err(f) => Err(f),
            Ok(v) => Ok(PropertyView::Imir(v)),
        }
    } else if t == CLAP {
        match clap_of(s) {
            Err(f) => Err(f),
            Ok(v) => Ok(PropertyView::Clap(v)),
        }
    } else if t == AUXC {
        match auxc_of(s) {
            Err(f) => Err(f),
            Ok(v) => Ok(PropertyView::AuxC(v)),
        }
    } else if t == MDCV {
        match mdcv_of(s) {
            Err(f) => Err(f),
            Ok(v) => Ok(PropertyView::Mdcv(v)),
        }
    } else if t == CLLI {
        match clli_of(s) {
            Err(f) => Err(f),
            Ok(v) => Ok(PropertyView::Clli(v)),
        }
    } else if t == CCLV {
        match cclv_of(s) {
            Err(f) => Err(f),
            Ok(v) => Ok(PropertyView::Cclv(v)),
        }
    } else if t == AMVE {
        match amve_of(s) {
            Err(f) => Err(f),
            Ok(v) => Ok(PropertyView::Amve(v)),
        }
    } else if t == RLOC {
        match rloc_of(s) {
            Err(f) => Err(f),
            Ok(v) => Ok(PropertyView::Rloc(v)),
        }
    } else if t == LSEL {
        match lsel_of(s) {
            Err(f) => Err(f),
            Ok(v) => Ok(PropertyView::Lsel(v)),
        }
    } else if t == A1OP {
        match a1op_of(s) {
            Err(f) => Err(f),
            Ok(v) => Ok(PropertyView::A1op(v)),
        }
    } else if t == A1LX {
        match a1lx_of(s) {
            Err(f) => Err(f),
            Ok(v) => Ok(PropertyView::A1lx(v)),
        }
    } else if t == ISCL {
        match iscl_of(s) {
            Err(f) => Err(f),
            Ok(v) => Ok(PropertyView::Iscl(v)),
        }
    } else if t == RREF {
        match rref_of(s) {
            Err(f) => Err(f),
            Ok(v) => Ok(PropertyView::Rref(v)),
        }
    } else if t == CRTT {
        match crtt_of(s) {
            Err(f) => Err(f),
            Ok(v) => Ok(PropertyView::Crtt(v)),
        }
    } else if t == MDFT {
        match mdft_of(s) {
            Err(f) => Err(f),
            Ok(v) => Ok(PropertyView::Mdft(v)),
        }
    } else if t == UDES {
        match udes_of(s) {
            Err(f) => Err(f),
            Ok(v) => Ok(PropertyView::Udes(v)),
        }
    } else if t == ALTT {
        match altt_of(s) {
            Err(f) => Err(f),
            Ok(v) => Ok(PropertyView::Altt(v)),
        }
    } else if t == AEBR {
        match aebr_of(s) {
            Err(f) => Err(f),
            Ok(v) => Ok(PropertyView::Aebr(v)),
        }
    } else if t == WBBR {
        match wbbr_of(s) {
            Err(f) => Err(f),
            Ok(v) => Ok(PropertyView::Wbbr(v)),
        }
    } else if t == FOBR {
        match fobr_of(s) {
            Err(f) => Err(f),
            Ok(v) => Ok(PropertyView::Fobr(v)),
        }
    } else if t == AFBR {
        match afbr_of(s) {
            Err(f) => Err(f),
            Ok(v) => Ok(PropertyView::Afbr(v)),
        }
    } else if t == DOBR {
        match dobr_of(s) {
            Err(f) => Err(f),
            Ok(v) => Ok(PropertyView::Dobr(v)),
        }
    } else if t == PANO {
        match pano_of(s) {
            Err(f) => Err(f),
            Ok(v) => Ok(PropertyView::Pano(v)),
        }
    } else {
        Ok(PropertyView::Other(t, s))
    }
}

/// Parse the body of a property box of type `t`.
pub fn parse_property(t: &BoxType, body: &[u8]) -> (r: Result<Property, AvifError>)
    ensures
        outcome_view(r) == property_of(*t, body@),
{
    if same_type(t, &AV1C) {
        Ok(Property::Av1C(slice_to_vec(body)))
    } else if same_type(t, &ISPE) {
        Ok(Property::Ispe(parse_ispe(body)?))
    } else if same_type(t, &COLR) {
        Ok(Property::Colr(parse_colr(body)?))
    } else if same_type(t, &PIXI) {
        Ok(Property::Pixi(parse_pixi(body)?))
    } else if same_type(t, &PASP) {
        Ok(Property::Pasp(parse_pasp(body)?))
    } else if same_type(t, &IROT) {
        Ok(Property::Irot(parse_irot(body)?))
    } else if same_type(t, &IMIR) {
        Ok(Property::Imir(parse_imir(body)?))
    } else if same_type(t, &CLAP) {
        Ok(Property::Clap(parse_clap(body)?))
    } else if same_type(t, &AUXC) {
        Ok(Property::AuxC(parse_auxc(body)?))
    } else if same_type(t, &MDCV) {
        Ok(Property::Mdcv(parse_mdcv(body)?))
    } else if same_type(t, &CLLI) {
        Ok(Property::Clli(parse_clli(body)?))
    } else if same_type(t, &CCLV) {
        Ok(Property::Cclv(parse_cclv(body)?))
    } else if same_type(t, &AMVE) {
        Ok(Property::Amve(parse_amve(body)?))
    } else if same_type(t, &RLOC) {
        Ok(Property::Rloc(parse_rloc(body)?))
    } else if same_type(t, &LSEL) {
        Ok(Property::Lsel(parse_lsel(body)?))
    } else if same_type(t, &A1OP) {
        Ok(Property::A1op(parse_a1op(body)?))
    } else if same_type(t, &A1LX) {
        Ok(Property::A1lx(parse_a1lx(body)?))
    } else if same_type(t, &ISCL) {
        Ok(Property::Iscl(parse_iscl(body)?))
    } else if same_type(t, &RREF) {
        Ok(Property::Rref(parse_rref(body)?))
    } else if same_type(t, &CRTT) {
        Ok(Property::Crtt(parse_crtt(body)?))
    } else if same_type(t, &MDFT) {
        Ok(Property::Mdft(parse_mdft(body)?))
    } else if same_type(t, &UDES) {
        Ok(Property::Udes(parse_udes(body)?))
    } else if same_type(t, &ALTT) {
        Ok(Property::Altt(parse_altt(body)?))
    } else if same_type(t, &AEBR) {
        Ok(Property::Aebr(parse_aebr(body)?))
    } else if same_type(t, &WBBR) {
        Ok(Property::Wbbr(parse_wbbr(body)?))
    } else if same_type(t, &FOBR) {
        Ok(Property::Fobr(parse_fobr(body)?))
    } else if same_type(t, &AFBR) {
        Ok(Property::Afbr(parse_afbr(body)?))
    } else if same_type(t, &DOBR) {
        Ok(Property::Dobr(parse_dobr(body)?))
    } else if same_type(t, &PANO) {
        Ok(Property::Pano(parse_pano(body)?))
    } else {
        Ok(Property::Other(*t, slice_to_vec(body)))
    }
}

/// The properties packed in `s` from `at` on, in order. The first
/// malformed box or property is the fault.
pub open spec fn properties_from(s: Seq<u8>, at: int) -> Result<Seq<PropertyView>, Fault>
    decreases s.len() - at,
{
    if at < 0 || at >= s.len() {
        Ok(Seq::empty())
    } else {
        match box_at(s, at) {
            Err(f) => Err(f),
            Ok(b) => match property_of(b.box_type, s.subrange(b.payload, b.end)) {
                Err(f) => Err(f),
                Ok(p) => if b.end <= at {
                    Ok(seq![p])
                } else {
                    match properties_from(s, b.end) {
                        Err(f) => Err(f),
                        Ok(rest) => Ok(seq![p] + rest),
                    }
                },
            },
        }
    }
}

/// `done` in front of what is still to come.
pub open spec fn after<A>(done: Seq<A>, rest: Result<Seq<A>, Fault>) -> Result<Seq<A>, Fault> {
    match rest {
        Err(f) => Err(f),
        Ok(r) => Ok(done + r),
    }
}

/// Parse `ipco`: the property boxes one after another.
pub fn parse_ipco(payload: &[u8]) -> (r: Result<Vec<Property>, AvifError>)
    ensures
        outcome_list(r) == properties_from(payload@, 0),
{
    let mut out: Vec<Property> = Vec::new();
    let mut at: usize = 0;
    proof {
        assert(after(views(out@), properties_from(payload@, 0)) == properties_from(payload@, 0)) by {
            if let Ok(p) = properties_from(payload@, 0) {
                assert(views(out@) + p =~= p);
            }
        }
    }
    while at < payload.len()
        invariant
            at <= payload.len(),
            after(views(out@), properties_from(payload@, at as int)) == properties_from(
                payload@,
                0,
            ),
        decreases payload.len() - at,
    {
        let h = parse_box_header(payload, at)?;
        proof {
            lemma_box_bounds(payload@, at as int);
        }
        let prop = parse_property(&h.box_type, payload_of(payload, &h))?;
        let ghost before = out@;
        out.push(prop);
        proof {
            lemma_views_push(before, prop);
            if let Ok(rest) = properties_from(payload@, h@.end) {
                assert(views(out@) + rest =~= views(before) + (seq![prop@] + rest));
            }
        }
        at = h.end();
    }
    proof {
        assert(views(out@) + Seq::<PropertyView>::empty() =~= views(out@));
    }
    Ok(out)
}

} // verus!
