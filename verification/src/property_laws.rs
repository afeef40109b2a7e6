//! Properties that are written read back as they were.

use crate::box_parser::{be16, be32, nul_at, tail, type_at, BoxType, UUID};
use crate::alpha::ALPHA_URN_PREFIX;
use crate::bytes::{b16, b32, law_b32_reads_back};
use crate::container::{
    a1lx_body, body_of, clap_body, colr_body, mdcv_body, read_of, readable_property, PropPlan,
};
use crate::error::Fault;
use crate::mux_props::{opt_prop, prop};
use crate::props::{
    A1lx, Amve, AuxCView, Clap, Clli, ColrView, Ispe, Lsel, Mdcv, Pasp, PropertyView, A1LX, A1OP,
    AMVE, AUXC, AUX_URN_DEPTH_MPEG, CLAP, CLLI, COLR, IMIR, IROT, ISPE, LSEL, MDCV, NCLX, PASP, PIXI, PROF,
};
use crate::props_parse::property_of;
use crate::text::lossy_text;
use vstd::prelude::*;
use vstd::utf8::{
    encode_utf8, encode_utf8_decode_utf8, encode_utf8_valid_utf8, is_ascii_chars,
    is_ascii_chars_encode_utf8,
};

verus! {

/// Whether the bytes of a text hold no zero.
pub open spec fn no_nul(s: Seq<char>) -> bool {
    forall|i: int| 0 <= i < encode_utf8(s).len() ==> #[trigger] encode_utf8(s)[i] != 0
}

/// Whether a property keeps its value when it is written. What does not
/// is a value wider than its field, a text with a NUL in it, a colour
/// type without a body, and a property of a kind that is not written.
pub open spec fn faithful(p: PropertyView) -> bool {
    match p {
        PropertyView::Av1C(_) => true,
        PropertyView::Ispe(_) => true,
        PropertyView::Colr(c) => !(c is Unknown),
        PropertyView::Pixi(bits) => bits.len() <= 255,
        PropertyView::Pasp(_) => true,
        PropertyView::Irot(v) => v.angle < 4,
        PropertyView::Imir(v) => v.axis < 2,
        PropertyView::Clap(_) => true,
        PropertyView::AuxC(a) => no_nul(a.aux_type),
        PropertyView::Mdcv(_) => true,
        PropertyView::Clli(_) => true,
        PropertyView::Amve(_) => true,
        PropertyView::Lsel(_) => true,
        PropertyView::A1op(_) => true,
        PropertyView::A1lx(a) => a.large_size || (a.layer_size[0] <= 0xffff && a.layer_size[1]
            <= 0xffff && a.layer_size[2] <= 0xffff),
        _ => false,
    }
}

/// The two bytes of a value read back as that value.
pub proof fn law_b16_reads_back(v: u16, s: Seq<u8>, at: int)
    requires
        0 <= at,
        at + 2 <= s.len(),
        s.subrange(at, at + 2) == b16(v),
    ensures
        be16(s, at) == v,
{
    let b = s.subrange(at, at + 2);
    assert(b[0] == s[at] && b[1] == s[at + 1]);
}

proof fn lemma_sign(v: i32)
    ensures
        (v as u32) as i32 == v,
{
    assert((v as u32) as i32 == v) by (bit_vector);
}

proof fn lemma_code(s: Seq<u8>, t: BoxType)
    requires
        s.len() >= 4,
        s.subrange(0, 4) == t@,
    ensures
        type_at(s, 0) == t,
{
    let b = s.subrange(0, 4);
    assert(b[0] == s[0] && b[1] == s[1] && b[2] == s[2] && b[3] == s[3]);
    assert(type_at(s, 0) =~= t);
}

proof fn lemma_colr(c: ColrView)
    requires
        !(c is Unknown),
    ensures
        crate::props_parse::colr_of(colr_body(c)) == Ok::<ColrView, Fault>(c),
{
    let s = colr_body(c);
    match c {
        ColrView::Nclx {
            colour_primaries,
            transfer_characteristics,
            matrix_coefficients,
            full_range,
        } => {
            assert(s.subrange(0, 4) =~= NCLX@);
            lemma_code(s, NCLX);
            assert(s.subrange(4, 6) =~= b16(colour_primaries));
            assert(s.subrange(6, 8) =~= b16(transfer_characteristics));
            assert(s.subrange(8, 10) =~= b16(matrix_coefficients));
            law_b16_reads_back(colour_primaries, s, 4);
            law_b16_reads_back(transfer_characteristics, s, 6);
            law_b16_reads_back(matrix_coefficients, s, 8);
        },
        ColrView::Icc(profile) => {
            assert(s.subrange(0, 4) =~= PROF@);
            lemma_code(s, PROF);
            assert(PROF[0] != NCLX[0]);
            assert(tail(s, 4) =~= profile);
        },
        _ => {},
    }
}

proof fn lemma_clap(c: Clap)
    ensures
        crate::props_parse::clap_of(clap_body(c)) == Ok::<Clap, Fault>(c),
{
    let s = clap_body(c);
    assert(s.subrange(0, 4) =~= b32(c.clean_aperture_width_n as u32));
    assert(s.subrange(4, 8) =~= b32(c.clean_aperture_width_d as u32));
    assert(s.subrange(8, 12) =~= b32(c.clean_aperture_height_n as u32));
    assert(s.subrange(12, 16) =~= b32(c.clean_aperture_height_d as u32));
    assert(s.subrange(16, 20) =~= b32(c.horiz_off_n as u32));
    assert(s.subrange(20, 24) =~= b32(c.horiz_off_d as u32));
    assert(s.subrange(24, 28) =~= b32(c.vert_off_n as u32));
    assert(s.subrange(28, 32) =~= b32(c.vert_off_d as u32));
    law_b32_reads_back(c.clean_aperture_width_n as u32, s, 0);
    law_b32_reads_back(c.clean_aperture_width_d as u32, s, 4);
    law_b32_reads_back(c.clean_aperture_height_n as u32, s, 8);
    law_b32_reads_back(c.clean_aperture_height_d as u32, s, 12);
    law_b32_reads_back(c.horiz_off_n as u32, s, 16);
    law_b32_reads_back(c.horiz_off_d as u32, s, 20);
    law_b32_reads_back(c.vert_off_n as u32, s, 24);
    law_b32_reads_back(c.vert_off_d as u32, s, 28);
    lemma_sign(c.clean_aperture_width_n);
    lemma_sign(c.clean_aperture_width_d);
    lemma_sign(c.clean_aperture_height_n);
    lemma_sign(c.clean_aperture_height_d);
    lemma_sign(c.horiz_off_n);
    lemma_sign(c.horiz_off_d);
    lemma_sign(c.vert_off_n);
    lemma_sign(c.vert_off_d);
}

proof fn lemma_mdcv(m: Mdcv)
    ensures
        crate::props_parse::mdcv_of(mdcv_body(m)) == Ok::<Mdcv, Fault>(m),
{
    let s = mdcv_body(m);
    let p = m.display_primaries_xy;
    assert(s.subrange(0, 2) =~= b16(p[0].0));
    assert(s.subrange(2, 4) =~= b16(p[0].1));
    assert(s.subrange(4, 6) =~= b16(p[1].0));
    assert(s.subrange(6, 8) =~= b16(p[1].1));
    assert(s.subrange(8, 10) =~= b16(p[2].0));
    assert(s.subrange(10, 12) =~= b16(p[2].1));
    assert(s.subrange(12, 14) =~= b16(m.white_point_xy.0));
    assert(s.subrange(14, 16) =~= b16(m.white_point_xy.1));
    assert(s.subrange(16, 20) =~= b32(m.max_display_mastering_luminance));
    assert(s.subrange(20, 24) =~= b32(m.min_display_mastering_luminance));
    law_b16_reads_back(p[0].0, s, 0);
    law_b16_reads_back(p[0].1, s, 2);
    law_b16_reads_back(p[1].0, s, 4);
    law_b16_reads_back(p[1].1, s, 6);
    law_b16_reads_back(p[2].0, s, 8);
    law_b16_reads_back(p[2].1, s, 10);
    law_b16_reads_back(m.white_point_xy.0, s, 12);
    law_b16_reads_back(m.white_point_xy.1, s, 14);
    law_b32_reads_back(m.max_display_mastering_luminance, s, 16);
    law_b32_reads_back(m.min_display_mastering_luminance, s, 20);
    let q = [
        (be16(s, 0), be16(s, 2)),
        (be16(s, 4), be16(s, 6)),
        (be16(s, 8), be16(s, 10)),
    ];
    assert(q[0] == p[0] && q[1] == p[1] && q[2] == p[2]);
    assert(q =~= p);
}

proof fn lemma_a1lx(a: A1lx)
    requires
        faithful(PropertyView::A1lx(a)),
    ensures
        crate::props_parse::a1lx_of(a1lx_body(a)) == Ok::<A1lx, Fault>(a),
{
    let s = a1lx_body(a);
    if a.large_size {
        assert(s.subrange(1, 5) =~= b32(a.layer_size[0]));
        assert(s.subrange(5, 9) =~= b32(a.layer_size[1]));
        assert(s.subrange(9, 13) =~= b32(a.layer_size[2]));
        law_b32_reads_back(a.layer_size[0], s, 1);
        law_b32_reads_back(a.layer_size[1], s, 5);
        law_b32_reads_back(a.layer_size[2], s, 9);
        let q = [be32(s, 1), be32(s, 5), be32(s, 9)];
        assert(q =~= a.layer_size);
    } else {
        assert(s.subrange(1, 3) =~= b16(a.layer_size[0] as u16));
        assert(s.subrange(3, 5) =~= b16(a.layer_size[1] as u16));
        assert(s.subrange(5, 7) =~= b16(a.layer_size[2] as u16));
        law_b16_reads_back(a.layer_size[0] as u16, s, 1);
        law_b16_reads_back(a.layer_size[1] as u16, s, 3);
        law_b16_reads_back(a.layer_size[2] as u16, s, 5);
        let q = [be16(s, 1) as u32, be16(s, 3) as u32, be16(s, 5) as u32];
        assert(q =~= a.layer_size);
    }
}

/// The first NUL of a text without any, followed by one.
proof fn lemma_nul(s: Seq<u8>, at: int, end: int)
    requires
        0 <= at <= end < s.len(),
        forall|i: int| at <= i < end ==> s[i] != 0,
        s[end] == 0,
    ensures
        nul_at(s, at) == end,
    decreases end - at,
{
    if at < end {
        lemma_nul(s, at + 1, end);
    }
}

proof fn lemma_auxc(a: AuxCView)
    requires
        no_nul(a.aux_type),
    ensures
        crate::props_parse::auxc_of(body_of(PropertyView::AuxC(a))) == Ok::<AuxCView, Fault>(a),
{
    reveal(body_of);
    let s = body_of(PropertyView::AuxC(a));
    let text = encode_utf8(a.aux_type);
    let b = tail(s, 4);
    assert(b =~= text + seq![0u8] + a.aux_subtype);
    lemma_nul(b, 0, text.len() as int);
    assert(b.subrange(0, text.len() as int) =~= text);
    encode_utf8_valid_utf8(a.aux_type);
    encode_utf8_decode_utf8(a.aux_type);
    assert(lossy_text(text) == a.aux_type);
    assert(tail(b, text.len() as int + 1) =~= a.aux_subtype);
}

proof fn lemma_ispe(v: Ispe)
    ensures
        crate::props_parse::ispe_of(body_of(PropertyView::Ispe(v))) == Ok::<Ispe, Fault>(v),
{
    reveal(body_of);
    let s = body_of(PropertyView::Ispe(v));
    let b = tail(s, 4);
    assert(b.subrange(0, 4) =~= b32(v.width));
    assert(b.subrange(4, 8) =~= b32(v.height));
    law_b32_reads_back(v.width, b, 0);
    law_b32_reads_back(v.height, b, 4);
}

proof fn lemma_pixi(bits: Seq<u8>)
    requires
        bits.len() <= 255,
    ensures
        crate::props_parse::pixi_of(body_of(PropertyView::Pixi(bits))) == Ok::<Seq<u8>, Fault>(bits),
{
    reveal(body_of);
    let s = body_of(PropertyView::Pixi(bits));
    let b = tail(s, 4);
    assert(b =~= seq![bits.len() as u8] + bits);
    assert(b.subrange(1, 1 + bits.len() as int) =~= bits);
}

proof fn lemma_pasp(v: Pasp)
    ensures
        crate::props_parse::pasp_of(body_of(PropertyView::Pasp(v))) == Ok::<Pasp, Fault>(v),
{
    reveal(body_of);
    let s = body_of(PropertyView::Pasp(v));
    assert(s.subrange(0, 4) =~= b32(v.h_spacing));
    assert(s.subrange(4, 8) =~= b32(v.v_spacing));
    law_b32_reads_back(v.h_spacing, s, 0);
    law_b32_reads_back(v.v_spacing, s, 4);
}

proof fn lemma_clli(c: Clli)
    ensures
        crate::props_parse::clli_of(body_of(PropertyView::Clli(c))) == Ok::<Clli, Fault>(c),
{
    reveal(body_of);
    let s = body_of(PropertyView::Clli(c));
    assert(s.subrange(0, 2) =~= b16(c.max_content_light_level));
    assert(s.subrange(2, 4) =~= b16(c.max_pic_average_light_level));
    law_b16_reads_back(c.max_content_light_level, s, 0);
    law_b16_reads_back(c.max_pic_average_light_level, s, 2);
}

proof fn lemma_amve(a: Amve)
    ensures
        crate::props_parse::amve_of(body_of(PropertyView::Amve(a))) == Ok::<Amve, Fault>(a),
{
    reveal(body_of);
    let s = body_of(PropertyView::Amve(a));
    assert(s.subrange(0, 4) =~= b32(a.ambient_illuminance));
    assert(s.subrange(4, 6) =~= b16(a.ambient_light_x));
    assert(s.subrange(6, 8) =~= b16(a.ambient_light_y));
    law_b32_reads_back(a.ambient_illuminance, s, 0);
    law_b16_reads_back(a.ambient_light_x, s, 4);
    law_b16_reads_back(a.ambient_light_y, s, 6);
}

proof fn lemma_lsel(l: Lsel)
    ensures
        crate::props_parse::lsel_of(body_of(PropertyView::Lsel(l))) == Ok::<Lsel, Fault>(l),
{
    reveal(body_of);
    let s = body_of(PropertyView::Lsel(l));
    assert(s.subrange(0, 2) =~= b16(l.layer_id));
    law_b16_reads_back(l.layer_id, s, 0);
}

#[verifier::spinoff_prover]
proof fn lemma_kind_ispe(s: Seq<u8>)
    requires
        crate::props_parse::ispe_of(s) is Ok,
    ensures
        property_of(ISPE, s) == Ok::<PropertyView, Fault>(
            PropertyView::Ispe(crate::props_parse::ispe_of(s)->Ok_0),
        ),
{
}

#[verifier::spinoff_prover]
proof fn lemma_kind_colr(s: Seq<u8>)
    requires
        crate::props_parse::colr_of(s) is Ok,
    ensures
        property_of(COLR, s) == Ok::<PropertyView, Fault>(
            PropertyView::Colr(crate::props_parse::colr_of(s)->Ok_0),
        ),
{
}

#[verifier::spinoff_prover]
proof fn lemma_kind_pixi(s: Seq<u8>)
    requires
        crate::props_parse::pixi_of(s) is Ok,
    ensures
        property_of(PIXI, s) == Ok::<PropertyView, Fault>(
            PropertyView::Pixi(crate::props_parse::pixi_of(s)->Ok_0),
        ),
{
}

#[verifier::spinoff_prover]
proof fn lemma_kind_pasp(s: Seq<u8>)
    requires
        crate::props_parse::pasp_of(s) is Ok,
    ensures
        property_of(PASP, s) == Ok::<PropertyView, Fault>(
            PropertyView::Pasp(crate::props_parse::pasp_of(s)->Ok_0),
        ),
{
}

#[verifier::spinoff_prover]
proof fn lemma_kind_irot(s: Seq<u8>)
    requires
        crate::props_parse::irot_of(s) is Ok,
    ensures
        property_of(IROT, s) == Ok::<PropertyView, Fault>(
            PropertyView::Irot(crate::props_parse::irot_of(s)->Ok_0),
        ),
{
}

#[verifier::spinoff_prover]
proof fn lemma_kind_imir(s: Seq<u8>)
    requires
        crate::props_parse::imir_of(s) is Ok,
    ensures
        property_of(IMIR, s) == Ok::<PropertyView, Fault>(
            PropertyView::Imir(crate::props_parse::imir_of(s)->Ok_0),
        ),
{
}

#[verifier::spinoff_prover]
proof fn lemma_kind_clap(s: Seq<u8>)
    requires
        crate::props_parse::clap_of(s) is Ok,
    ensures
        property_of(CLAP, s) == Ok::<PropertyView, Fault>(
            PropertyView::Clap(crate::props_parse::clap_of(s)->Ok_0),
        ),
{
}

#[verifier::spinoff_prover]
proof fn lemma_kind_auxc(s: Seq<u8>)
    requires
        crate::props_parse::auxc_of(s) is Ok,
    ensures
        property_of(AUXC, s) == Ok::<PropertyView, Fault>(
            PropertyView::AuxC(crate::props_parse::auxc_of(s)->Ok_0),
        ),
{
}

#[verifier::spinoff_prover]
proof fn lemma_kind_mdcv(s: Seq<u8>)
    requires
        crate::props_parse::mdcv_of(s) is Ok,
    ensures
        property_of(MDCV, s) == Ok::<PropertyView, Fault>(
            PropertyView::Mdcv(crate::props_parse::mdcv_of(s)->Ok_0),
        ),
{
}

#[verifier::spinoff_prover]
proof fn lemma_kind_clli(s: Seq<u8>)
    requires
        crate::props_parse::clli_of(s) is Ok,
    ensures
        property_of(CLLI, s) == Ok::<PropertyView, Fault>(
            PropertyView::Clli(crate::props_parse::clli_of(s)->Ok_0),
        ),
{
}

#[verifier::spinoff_prover]
proof fn lemma_kind_amve(s: Seq<u8>)
    requires
        crate::props_parse::amve_of(s) is Ok,
    ensures
        property_of(AMVE, s) == Ok::<PropertyView, Fault>(
            PropertyView::Amve(crate::props_parse::amve_of(s)->Ok_0),
        ),
{
}

#[verifier::spinoff_prover]
proof fn lemma_kind_lsel(s: Seq<u8>)
    requires
        crate::props_parse::lsel_of(s) is Ok,
    ensures
        property_of(LSEL, s) == Ok::<PropertyView, Fault>(
            PropertyView::Lsel(crate::props_parse::lsel_of(s)->Ok_0),
        ),
{
}

#[verifier::spinoff_prover]
proof fn lemma_kind_a1op(s: Seq<u8>)
    requires
        crate::props_parse::a1op_of(s) is Ok,
    ensures
        property_of(A1OP, s) == Ok::<PropertyView, Fault>(
            PropertyView::A1op(crate::props_parse::a1op_of(s)->Ok_0),
        ),
{
}

#[verifier::spinoff_prover]
proof fn lemma_kind_a1lx(s: Seq<u8>)
    requires
        crate::props_parse::a1lx_of(s) is Ok,
    ensures
        property_of(A1LX, s) == Ok::<PropertyView, Fault>(
            PropertyView::A1lx(crate::props_parse::a1lx_of(s)->Ok_0),
        ),
{
}

/// A property that keeps its value reads back as it was written.
pub proof fn law_property_reads_back(p: PropertyView)
    requires
        faithful(p),
    ensures
        property_of(p.kind(), body_of(p)) == Ok::<PropertyView, Fault>(p),
{
    reveal(body_of);
    let s = body_of(p);
    match p {
        PropertyView::Ispe(v) => {
            lemma_ispe(v);
            lemma_kind_ispe(s);
        },
        PropertyView::Colr(c) => {
            lemma_colr(c);
            lemma_kind_colr(s);
        },
        PropertyView::Pixi(bits) => {
            lemma_pixi(bits);
            lemma_kind_pixi(s);
        },
        PropertyView::Pasp(v) => {
            lemma_pasp(v);
            lemma_kind_pasp(s);
        },
        PropertyView::Irot(_) => {
            lemma_kind_irot(s);
        },
        PropertyView::Imir(_) => {
            lemma_kind_imir(s);
        },
        PropertyView::Clap(c) => {
            lemma_clap(c);
            lemma_kind_clap(s);
        },
        PropertyView::AuxC(a) => {
            lemma_auxc(a);
            lemma_kind_auxc(s);
        },
        PropertyView::Mdcv(m) => {
            lemma_mdcv(m);
            lemma_kind_mdcv(s);
        },
        PropertyView::Clli(c) => {
            lemma_clli(c);
            lemma_kind_clli(s);
        },
        PropertyView::Amve(a) => {
            lemma_amve(a);
            lemma_kind_amve(s);
        },
        PropertyView::Lsel(l) => {
            lemma_lsel(l);
            lemma_kind_lsel(s);
        },
        PropertyView::A1op(_) => {
            lemma_kind_a1op(s);
        },
        PropertyView::A1lx(a) => {
            lemma_a1lx(a);
            lemma_kind_a1lx(s);
        },
        _ => {},
    }
}

/// Whether a property is of a kind that is written.
pub open spec fn written_kind(p: PropertyView) -> bool {
    match p {
        PropertyView::Av1C(_) => true,
        PropertyView::Ispe(_) => true,
        PropertyView::Colr(c) => !(c is Unknown),
        PropertyView::Pixi(_) => true,
        PropertyView::Pasp(_) => true,
        PropertyView::Irot(_) => true,
        PropertyView::Imir(_) => true,
        PropertyView::Clap(_) => true,
        PropertyView::AuxC(a) => no_nul(a.aux_type),
        PropertyView::Mdcv(_) => true,
        PropertyView::Clli(_) => true,
        PropertyView::Amve(_) => true,
        PropertyView::Lsel(_) => true,
        PropertyView::A1op(_) => true,
        PropertyView::A1lx(_) => true,
        _ => false,
    }
}

proof fn lemma_any_pixi(bits: Seq<u8>)
    ensures
        property_of(PIXI, body_of(PropertyView::Pixi(bits))) is Ok,
{
    reveal(body_of);
    let s = body_of(PropertyView::Pixi(bits));
    let b = tail(s, 4);
    assert(b =~= seq![bits.len() as u8] + bits);
    assert(b[0] == bits.len() as u8);
    assert((bits.len() as u8) as int <= bits.len()) by {
        if bits.len() > 255 {
            assert((bits.len() as u8) <= 255);
        }
    }
    lemma_kind_pixi(s);
}

proof fn lemma_any_a1lx(a: A1lx)
    ensures
        property_of(A1LX, body_of(PropertyView::A1lx(a))) is Ok,
{
    reveal(body_of);
    let s = a1lx_body(a);
    assert(s[0] == if a.large_size { 1u8 } else { 0u8 });
    lemma_kind_a1lx(s);
}

/// A property that is written can be read, whatever value it had.
pub proof fn law_written_property_is_readable(p: PropertyView)
    requires
        written_kind(p),
    ensures
        p.kind() != UUID,
        property_of(p.kind(), body_of(p)) is Ok,
{
    reveal(body_of);
    assert(UUID[0] == 0x75 && p.kind()[0] != 0x75);
    match p {
        PropertyView::Pixi(bits) => {
            lemma_any_pixi(bits);
        },
        PropertyView::Irot(_) => {
            lemma_kind_irot(body_of(p));
        },
        PropertyView::Imir(_) => {
            lemma_kind_imir(body_of(p));
        },
        PropertyView::A1lx(a) => {
            lemma_any_a1lx(a);
        },
        _ => {
            law_property_reads_back(p);
        },
    }
}

/// Whether every property of a list can be read.
pub open spec fn readable_list(s: Seq<PropPlan>) -> bool {
    forall|j: int| 0 <= j < s.len() ==> readable_property(#[trigger] s[j])
}

/// Two lists that can be read make one that can be read.
pub proof fn lemma_readable_add(a: Seq<PropPlan>, b: Seq<PropPlan>)
    requires
        readable_list(a),
        readable_list(b),
    ensures
        readable_list(a + b),
{
    reveal(read_of);
    assert forall|j: int| 0 <= j < (a + b).len() implies readable_property(
        #[trigger] (a + b)[j],
    ) by {
        if j < a.len() {
            assert((a + b)[j] == a[j]);
        } else {
            assert((a + b)[j] == b[j - a.len()]);
        }
    }
}

/// A list of one property, where there is one, can be read.
pub proof fn lemma_readable_opt(p: Option<PropertyView>, essential: bool)
    requires
        p is Some ==> written_kind(p->0),
    ensures
        readable_list(opt_prop(p, essential)),
{
    reveal(read_of);
    if p is Some {
        law_written_property_is_readable(p->0);
    }
}

/// A list of one property that is written can be read.
pub proof fn lemma_readable_one(p: PropertyView, essential: bool)
    requires
        written_kind(p),
    ensures
        readable_list(seq![prop(p, essential)]),
{
    reveal(read_of);
    law_written_property_is_readable(p);
}

/// The auxiliary type of an alpha plane holds no zero byte.
pub proof fn lemma_alpha_urn()
    ensures
        no_nul(ALPHA_URN_PREFIX@),
{
    reveal_strlit("urn:mpeg:mpegB:cicp:systems:auxiliary:alpha");
    let s = ALPHA_URN_PREFIX@;
    assert(is_ascii_chars(s));
    is_ascii_chars_encode_utf8(s);
    assert(forall|i: int| 0 <= i < s.len() ==> #[trigger] s[i] as u8 != 0);
    assert forall|i: int| 0 <= i < encode_utf8(s).len() implies #[trigger] encode_utf8(s)[i] != 0 by {
        assert(s[i] as u8 == encode_utf8(s)[i]);
    }
}

/// The auxiliary type of a depth map holds no zero byte.
pub proof fn lemma_depth_urn()
    ensures
        no_nul(AUX_URN_DEPTH_MPEG@),
{
    reveal_strlit("urn:mpeg:mpegB:cicp:systems:auxiliary:depth");
    let s = AUX_URN_DEPTH_MPEG@;
    assert(is_ascii_chars(s));
    is_ascii_chars_encode_utf8(s);
    assert(forall|i: int| 0 <= i < s.len() ==> #[trigger] s[i] as u8 != 0);
    assert forall|i: int| 0 <= i < encode_utf8(s).len() implies #[trigger] encode_utf8(s)[i] != 0 by {
        assert(s[i] as u8 == encode_utf8(s)[i]);
    }
}

} // verus!
