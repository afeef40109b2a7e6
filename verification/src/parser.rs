//! Top-level file walk: `ftyp` and its brands, `meta`, and the bytes of
//! an item.

use crate::box_parser::{
    box_at, full_box, lemma_box_bounds, parse_box_header, parse_full_box, payload_of,
    read_u32, same_type, tail, type_at, type_from, BoxType,
};
use crate::derived::{no_mif1, Mif1Compliance};
use crate::error::{
    invalid_n, outcome, outcome_view, text_code, text_nn, unsupported_n, AvifError, Fault,
};
use crate::meta::{
    meta_of, opt_bytes, IlocExtent, ItemInfo, ItemLocation, Meta, MetaView, HDLR, IINF, ILOC, IPRP,
    PITM,
};
use crate::lookup::opt_colr;
use crate::meta_parse::{opt_text, ItemInfoView, ItemLocationView, INFE};
use crate::props::{Amve, Cclv, Clli, Colr, ColrView, Ispe, Mdcv, Pasp, Pixi};
use crate::text::{code_text, dec, push_code, push_dec};
use vstd::prelude::*;
use vstd::slice::{slice_subrange, slice_to_vec};

verus! {

/// `ftyp` — file type.
pub const FTYP: BoxType = [0x66, 0x74, 0x79, 0x70];

/// `meta` — what a file says of its items.
pub const META: BoxType = [0x6d, 0x65, 0x74, 0x61];

/// `avif` — AV1 images.
pub const BRAND_AVIF: BoxType = [0x61, 0x76, 0x69, 0x66];

/// `avis` — AV1 image sequences.
pub const BRAND_AVIS: BoxType = [0x61, 0x76, 0x69, 0x73];

/// `avio` — intra-only AV1.
pub const BRAND_AVIO: BoxType = [0x61, 0x76, 0x69, 0x6f];

/// `mif1` — image items.
pub const BRAND_MIF1: BoxType = [0x6d, 0x69, 0x66, 0x31];

/// `msf1` — image sequences.
pub const BRAND_MSF1: BoxType = [0x6d, 0x73, 0x66, 0x31];

/// `miaf` — multi-image application format.
pub const BRAND_MIAF: BoxType = [0x6d, 0x69, 0x61, 0x66];

/// `MA1B` — AVIF Baseline Profile.
pub const BRAND_MA1B: BoxType = [0x4d, 0x41, 0x31, 0x42];

/// `MA1A` — AVIF Advanced Profile.
pub const BRAND_MA1A: BoxType = [0x4d, 0x41, 0x31, 0x41];

/// `av01` — an AV1 image item.
pub const ITEM_TYPE_AV01: BoxType = [0x61, 0x76, 0x30, 0x31];

/// `grid` — an image grid.
pub const ITEM_TYPE_GRID: BoxType = [0x67, 0x72, 0x69, 0x64];

// ---------------------------------------------------------------------
// Brands

/// What the brands of a file say of it.
#[derive(Clone, Copy, Debug, PartialEq, Eq, Structural)]
pub struct BrandClass {
    /// `avif`: AV1 images.
    pub is_image: bool,
    /// `avis`: AV1 image sequences.
    pub is_sequence: bool,
    /// `avio`: intra-only.
    pub is_intra_only: bool,
    /// `miaf`: multi-image application format.
    pub is_miaf: bool,
    /// `mif1`: image items.
    pub has_mif1: bool,
    /// `msf1`: image sequences.
    pub has_msf1: bool,
    /// `MA1B`: Baseline Profile.
    pub is_baseline_profile: bool,
    /// `MA1A`: Advanced Profile.
    pub is_advanced_profile: bool,
}

impl Default for BrandClass {
    fn default() -> (r: BrandClass)
        ensures
            r == (BrandClass {
                is_image: false,
                is_sequence: false,
                is_intra_only: false,
                is_miaf: false,
                has_mif1: false,
                has_msf1: false,
                is_baseline_profile: false,
                is_advanced_profile: false,
            }),
    {
        BrandClass {
            is_image: false,
            is_sequence: false,
            is_intra_only: false,
            is_miaf: false,
            has_mif1: false,
            has_msf1: false,
            is_baseline_profile: false,
            is_advanced_profile: false,
        }
    }
}

/// Whether `brand` is the major brand or a compatible one.
pub open spec fn listed(brand: BoxType, major: BoxType, compat: Seq<BoxType>) -> bool {
    major == brand || compat.contains(brand)
}

/// What these brands say of a file.
pub open spec fn class_of(major: BoxType, compat: Seq<BoxType>) -> BrandClass {
    BrandClass {
        is_image: listed(BRAND_AVIF, major, compat),
        is_sequence: listed(BRAND_AVIS, major, compat),
        is_intra_only: listed(BRAND_AVIO, major, compat),
        is_miaf: listed(BRAND_MIAF, major, compat),
        has_mif1: listed(BRAND_MIF1, major, compat),
        has_msf1: listed(BRAND_MSF1, major, compat),
        is_baseline_profile: listed(BRAND_MA1B, major, compat),
        is_advanced_profile: listed(BRAND_MA1A, major, compat),
    }
}

impl BrandClass {
    /// Whether the file may hold AV1 images or image sequences. Neither
    /// `miaf` nor a profile brand says so by itself.
    pub open spec fn usable(self) -> bool {
        self.is_image || self.is_sequence || self.has_mif1 || self.has_msf1 || self.is_intra_only
    }
}

/// The first `n` codes, separated by commas.
pub open spec fn codes_text(s: Seq<BoxType>, n: nat) -> Seq<char>
    decreases n,
{
    if n == 0 {
        Seq::empty()
    } else if n == 1 {
        code_text(s[0])
    } else {
        codes_text(s, (n - 1) as nat) + ","@ + code_text(s[n - 1])
    }
}

/// What these brands say of a file; a file without a brand that AVIF or
/// HEIF defines for images or sequences is refused.
pub open spec fn classified(major: BoxType, compat: Seq<BoxType>) -> Result<BrandClass, Fault> {
    if class_of(major, compat).usable() {
        Ok(class_of(major, compat))
    } else {
        Err(
            Fault::Invalid(
                "avif: ftyp major='"@ + code_text(major) + "' compatible_brands=["@ + codes_text(
                    compat,
                    compat.len(),
                ) + "] declares no AVIF/HEIF brand (need one of avif, avis, avio, mif1, msf1)"@,
            ),
        )
    }
}

/// Whether `compat` holds `brand`.
pub fn contains_brand(compat: &[BoxType], brand: &BoxType) -> (r: bool)
    ensures
        r == compat@.contains(*brand),
{
    let mut i: usize = 0;
    while i < compat.len()
        invariant
            i <= compat@.len(),
            forall|j: int| 0 <= j < i ==> compat@[j] != *brand,
        decreases compat@.len() - i,
    {
        if same_type(&compat[i], brand) {
            return true;
        }
        i = i + 1;
    }
    false
}

fn is_listed(brand: &BoxType, major: &BoxType, compat: &[BoxType]) -> (r: bool)
    ensures
        r == listed(*brand, *major, compat@),
{
    same_type(major, brand) || contains_brand(compat, brand)
}

/// Append the codes, separated by commas.
fn push_codes(out: &mut String, s: &[BoxType])
    ensures
        final(out)@ == old(out)@ + codes_text(s@, s@.len()),
{
    let ghost before = out@;
    let mut i: usize = 0;
    while i < s.len()
        invariant
            i <= s@.len(),
            out@ == before + codes_text(s@, i as nat),
        decreases s@.len() - i,
    {
        let ghost so_far = out@;
        if i > 0 {
            out.append(",");
        }
        push_code(out, &s[i]);
        proof {
            if i > 0 {
                assert(out@ =~= before + codes_text(s@, (i + 1) as nat));
            } else {
                assert(so_far =~= before);
            }
        }
        i = i + 1;
    }
}

/// What the brands of a file say of it. A file whose brands include none
/// of `avif`, `avis`, `avio`, `mif1` and `msf1` is refused, with a
/// message that lists the brands seen.
pub fn classify_brands(major: &BoxType, compat: &[BoxType]) -> (r: Result<BrandClass, AvifError>)
    ensures
        outcome(r) == classified(*major, compat@),
{
    let cls = BrandClass {
        is_image: is_listed(&BRAND_AVIF, major, compat),
        is_sequence: is_listed(&BRAND_AVIS, major, compat),
        is_intra_only: is_listed(&BRAND_AVIO, major, compat),
        is_miaf: is_listed(&BRAND_MIAF, major, compat),
        has_mif1: is_listed(&BRAND_MIF1, major, compat),
        has_msf1: is_listed(&BRAND_MSF1, major, compat),
        is_baseline_profile: is_listed(&BRAND_MA1B, major, compat),
        is_advanced_profile: is_listed(&BRAND_MA1A, major, compat),
    };
    let usable = cls.is_image || cls.is_sequence || cls.has_mif1 || cls.has_msf1
        || cls.is_intra_only;
    if !usable {
        let mut msg = text_code("avif: ftyp major='", major, "' compatible_brands=[");
        push_codes(&mut msg, compat);
        msg.append("] declares no AVIF/HEIF brand (need one of avif, avis, avio, mif1, msf1)");
        return Err(AvifError::InvalidData(msg));
    }
    Ok(cls)
}

/// The four-character codes packed in `s` from `at` on. Up to three
/// bytes at the end are no code.
pub open spec fn codes_from(s: Seq<u8>, at: int) -> Seq<BoxType>
    decreases s.len() - at,
{
    if at < 0 || at + 4 > s.len() {
        Seq::empty()
    } else {
        seq![type_at(s, at)] + codes_from(s, at + 4)
    }
}

/// The major brand, the minor version and the compatible brands in an
/// `ftyp` payload.
pub open spec fn ftyp_of(s: Seq<u8>) -> Result<(BoxType, u32, Seq<BoxType>), Fault> {
    if s.len() < 8 {
        Err(Fault::Invalid("avif: ftyp too short"@))
    } else {
        Ok((type_at(s, 0), crate::box_parser::be32(s, 4), codes_from(s, 8)))
    }
}

fn parse_ftyp(payload: &[u8]) -> (r: Result<(BoxType, u32, Vec<BoxType>), AvifError>)
    ensures
        match r {
            Ok((major, minor, compat)) => ftyp_of(payload@) == Ok::<
                (BoxType, u32, Seq<BoxType>),
                Fault,
            >((major, minor, compat@)),
            Err(e) => ftyp_of(payload@) == Err::<(BoxType, u32, Seq<BoxType>), Fault>(e@),
        },
{
    if payload.len() < 8 {
        return Err(AvifError::invalid("avif: ftyp too short"));
    }
    let major = type_from(payload, 0);
    let minor: u32 = read_u32(payload, 4)?;
    let mut brands: Vec<BoxType> = Vec::new();
    let mut cursor: usize = 8;
    proof {
        assert(brands@ + codes_from(payload@, 8) =~= codes_from(payload@, 8));
    }
    while payload.len() - cursor >= 4
        invariant
            cursor <= payload@.len(),
            brands@ + codes_from(payload@, cursor as int) == codes_from(payload@, 8),
        decreases payload@.len() - cursor,
    {
        let ghost before = brands@;
        brands.push(type_from(payload, cursor));
        proof {
            assert(brands@ + codes_from(payload@, cursor + 4) =~= before + codes_from(
                payload@,
                cursor as int,
            ));
        }
        cursor = cursor + 4;
    }
    proof {
        assert(brands@ + codes_from(payload@, cursor as int) =~= brands@);
    }
    Ok((major, minor, brands))
}

// ---------------------------------------------------------------------
// Top-level boxes

/// The payloads of the top-level boxes that matter here; of several
/// boxes of one type, the last.
#[verifier::ext_equal]
pub struct TopBoxes {
    /// Payload of `ftyp`.
    pub ftyp: Option<Seq<u8>>,
    /// Payload of `meta`.
    pub meta: Option<Seq<u8>>,
}

/// The boxes packed in `s` from `at` on, after `seen`.
pub open spec fn top_from(s: Seq<u8>, at: int, seen: TopBoxes) -> Result<TopBoxes, Fault>
    decreases s.len() - at,
{
    if at < 0 || at >= s.len() {
        Ok(seen)
    } else {
        match box_at(s, at) {
            Err(f) => Err(f),
            Ok(b) => {
                let payload = s.subrange(b.payload, b.end);
                let next = if b.box_type == FTYP {
                    TopBoxes { ftyp: Some(payload), ..seen }
                } else if b.box_type == META {
                    TopBoxes { meta: Some(payload), ..seen }
                } else {
                    seen
                };
                if b.end <= at {
                    Ok(next)
                } else {
                    top_from(s, b.end, next)
                }
            },
        }
    }
}

/// The top-level boxes of a file.
pub open spec fn top_of(file: Seq<u8>) -> Result<TopBoxes, Fault> {
    top_from(file, 0, TopBoxes { ftyp: None, meta: None })
}

/// The bytes of an optional slice.
pub open spec fn opt_slice(v: Option<&[u8]>) -> Option<Seq<u8>> {
    match v {
        Some(b) => Some(b@),
        None => None,
    }
}

/// Find the top-level `ftyp` and `meta` payloads.
fn top_boxes(file: &[u8]) -> (r: Result<(Option<&[u8]>, Option<&[u8]>), AvifError>)
    ensures
        match r {
            Ok((f, m)) => top_of(file@) == Ok::<TopBoxes, Fault>(
                TopBoxes { ftyp: opt_slice(f), meta: opt_slice(m) },
            ),
            Err(e) => top_of(file@) == Err::<TopBoxes, Fault>(e@),
        },
{
    let mut ftyp: Option<&[u8]> = None;
    let mut meta: Option<&[u8]> = None;
    let mut at: usize = 0;
    while at < file.len()
        invariant
            at <= file.len(),
            top_from(
                file@,
                at as int,
                TopBoxes { ftyp: opt_slice(ftyp), meta: opt_slice(meta) },
            ) == top_of(file@),
        decreases file.len() - at,
    {
        let h = parse_box_header(file, at)?;
        proof {
            lemma_box_bounds(file@, at as int);
        }
        if same_type(&h.box_type, &FTYP) {
            ftyp = Some(payload_of(file, &h));
        } else if same_type(&h.box_type, &META) {
            meta = Some(payload_of(file, &h));
        }
        at = h.end();
    }
    Ok((ftyp, meta))
}

/// `ftyp` and `meta` of a file, read.
pub struct AvifHeader<'a> {
    /// The whole file.
    pub file: &'a [u8],
    /// Major brand.
    pub major_brand: BoxType,
    /// Minor version.
    pub minor_version: u32,
    /// Compatible brands, in order.
    pub compatible_brands: Vec<BoxType>,
    /// What the file says of its items.
    pub meta: Meta,
}

/// An [`AvifHeader`] as contracts speak of it.
#[verifier::ext_equal]
pub struct HeaderView {
    /// The whole file.
    pub file: Seq<u8>,
    /// Major brand.
    pub major_brand: BoxType,
    /// Minor version.
    pub minor_version: u32,
    /// Compatible brands, in order.
    pub compatible_brands: Seq<BoxType>,
    /// What the file says of its items.
    pub meta: MetaView,
}

impl<'a> View for AvifHeader<'a> {
    type V = HeaderView;

    open spec fn view(&self) -> HeaderView {
        HeaderView {
            file: self.file@,
            major_brand: self.major_brand,
            minor_version: self.minor_version,
            compatible_brands: self.compatible_brands@,
            meta: self.meta@,
        }
    }
}

/// What `ftyp` and `meta` of a file say.
pub open spec fn header_of(file: Seq<u8>) -> Result<HeaderView, Fault> {
    match top_of(file) {
        Err(f) => Err(f),
        Ok(top) => match top.ftyp {
            None => Err(Fault::Invalid("avif: missing ftyp"@)),
            Some(p) => match ftyp_of(p) {
                Err(f) => Err(f),
                Ok((major, minor, compat)) => match classified(major, compat) {
                    Err(f) => Err(f),
                    Ok(_) => match top.meta {
                        None => Err(Fault::Invalid("avif: missing meta"@)),
                        Some(m) => match meta_of(m) {
                            Err(f) => Err(f),
                            Ok(meta) => Ok(
                                HeaderView {
                                    file,
                                    major_brand: major,
                                    minor_version: minor,
                                    compatible_brands: compat,
                                    meta,
                                },
                            ),
                        },
                    },
                },
            },
        },
    }
}

/// Read `ftyp` and `meta` of a file, whatever its primary item is.
pub fn parse_header(file: &[u8]) -> (r: Result<AvifHeader<'_>, AvifError>)
    ensures
        outcome_view(r) == header_of(file@),
{
    let (ftyp_payload, meta_payload) = top_boxes(file)?;
    let ftyp = match ftyp_payload {
        None => {
            return Err(AvifError::invalid("avif: missing ftyp"));
        },
        Some(p) => p,
    };
    let (major_brand, minor_version, compatible_brands) = parse_ftyp(ftyp)?;
    let _class = classify_brands(&major_brand, compatible_brands.as_slice())?;
    let meta_p = match meta_payload {
        None => {
            return Err(AvifError::invalid("avif: missing meta"));
        },
        Some(p) => p,
    };
    let meta = Meta::parse(meta_p)?;
    Ok(AvifHeader { file, major_brand, minor_version, compatible_brands, meta })
}

// ---------------------------------------------------------------------
// Item payloads

/// Where one extent starts and ends in a source of `len` bytes that
/// messages call `what`.
pub open spec fn extent_at(len: nat, what: Seq<char>, base: u64, e: IlocExtent) -> Result<
    (int, int),
    Fault,
> {
    if base + e.offset > u64::MAX {
        Err(Fault::Invalid("avif: iloc offset overflow"@))
    } else if base + e.offset + e.length > u64::MAX {
        Err(Fault::Invalid("avif: iloc length overflow"@))
    } else if base + e.offset + e.length > len {
        Err(
            Fault::Invalid(
                "avif: iloc extent "@ + dec((base + e.offset) as nat) + ".."@ + dec(
                    (base + e.offset + e.length) as nat,
                ) + " exceeds "@ + what + " length "@ + dec(len),
            ),
        )
    } else {
        Ok((base + e.offset, base + e.offset + e.length))
    }
}

/// The same for extent `i` of several.
pub open spec fn nth_extent_at(
    len: nat,
    what: Seq<char>,
    base: u64,
    e: IlocExtent,
    i: nat,
) -> Result<(int, int), Fault> {
    if base + e.offset > u64::MAX {
        Err(Fault::Invalid("avif: iloc extent "@ + dec(i) + " offset overflow"@))
    } else if base + e.offset + e.length > u64::MAX {
        Err(Fault::Invalid("avif: iloc extent "@ + dec(i) + " length overflow"@))
    } else if base + e.offset + e.length > len {
        Err(
            Fault::Invalid(
                "avif: iloc extent "@ + dec(i) + " "@ + dec((base + e.offset) as nat) + ".."@ + dec(
                    (base + e.offset + e.length) as nat,
                ) + " exceeds "@ + what + " length "@ + dec(len),
            ),
        )
    } else {
        Ok((base + e.offset, base + e.offset + e.length))
    }
}

/// The one extent of an item in `source`. An item of several extents is
/// no single slice.
pub open spec fn one_slice(source: Seq<u8>, what: Seq<char>, loc: ItemLocationView) -> Result<
    Seq<u8>,
    Fault,
> {
    if loc.extents.len() == 0 {
        Err(Fault::Invalid("avif: iloc entry has no extents"@))
    } else if loc.extents.len() == 1 {
        match extent_at(source.len(), what, loc.base_offset, loc.extents[0]) {
            Err(f) => Err(f),
            Ok((start, end)) => Ok(source.subrange(start, end)),
        }
    } else {
        Err(
            Fault::Unsupported(
                "avif: item "@ + dec(loc.id as nat) + " has "@ + dec(loc.extents.len())
                    + " extents; multi-extent items require item_bytes_owned()"@,
            ),
        )
    }
}

/// `done`, then the extents from place `i` on.
pub open spec fn joined_from(
    source: Seq<u8>,
    what: Seq<char>,
    loc: ItemLocationView,
    i: int,
    done: Seq<u8>,
) -> Result<Seq<u8>, Fault>
    decreases loc.extents.len() - i,
{
    if i < 0 || i >= loc.extents.len() {
        Ok(done)
    } else {
        match nth_extent_at(source.len(), what, loc.base_offset, loc.extents[i], i as nat) {
            Err(f) => Err(f),
            Ok((start, end)) => joined_from(
                source,
                what,
                loc,
                i + 1,
                done + source.subrange(start, end),
            ),
        }
    }
}

/// All extents of an item in `source`, one after the other.
pub open spec fn joined(source: Seq<u8>, what: Seq<char>, loc: ItemLocationView) -> Result<
    Seq<u8>,
    Fault,
> {
    if loc.extents.len() <= 1 {
        one_slice(source, what, loc)
    } else {
        joined_from(source, what, loc, 0, Seq::empty())
    }
}

/// The bytes of an item of one extent at a file offset.
pub open spec fn slice_of(file: Seq<u8>, loc: ItemLocationView) -> Result<Seq<u8>, Fault> {
    if loc.construction_method != 0 {
        Err(
            Fault::Unsupported(
                "avif: iloc construction_method "@ + dec(loc.construction_method as nat)
                    + " not supported (only file-offset is handled)"@,
            ),
        )
    } else {
        one_slice(file, "file"@, loc)
    }
}

/// The bytes of an item at file offsets.
pub open spec fn bytes_of(file: Seq<u8>, loc: ItemLocationView) -> Result<Seq<u8>, Fault> {
    if loc.construction_method != 0 {
        Err(
            Fault::Unsupported(
                "avif: iloc construction_method "@ + dec(loc.construction_method as nat)
                    + " not supported"@,
            ),
        )
    } else {
        joined(file, "file"@, loc)
    }
}

/// The fault of an item in `idat` where there is none.
pub open spec fn no_idat(id: u32) -> Fault {
    Fault::Invalid("avif: item "@ + dec(id as nat) + " lies in idat, which is absent"@)
}

/// The bytes of an item of one extent at a file offset or in `idat`.
pub open spec fn slice_with_idat(
    file: Seq<u8>,
    idat: Option<Seq<u8>>,
    loc: ItemLocationView,
) -> Result<Seq<u8>, Fault> {
    if loc.construction_method == 1 {
        match idat {
            None => Err(no_idat(loc.id)),
            Some(b) => one_slice(b, "idat"@, loc),
        }
    } else {
        slice_of(file, loc)
    }
}

/// The bytes of an item at file offsets or in `idat`.
pub open spec fn bytes_with_idat(
    file: Seq<u8>,
    idat: Option<Seq<u8>>,
    loc: ItemLocationView,
) -> Result<Seq<u8>, Fault> {
    if loc.construction_method == 1 {
        match idat {
            None => Err(no_idat(loc.id)),
            Some(b) => joined(b, "idat"@, loc),
        }
    } else {
        bytes_of(file, loc)
    }
}

/// The bytes of the item that the `iloc` reference with this index, from
/// 1, names as the origin of an item.
pub open spec fn origin_bytes(file: Seq<u8>, meta: MetaView, id: u32, index: u64) -> Result<
    Seq<u8>,
    Fault,
> {
    let targets = meta.targets(ILOC, id);
    if index == 0 || index > targets.len() {
        Err(
            Fault::Invalid(
                "avif: item "@ + dec(id as nat) + " lies in iloc reference "@ + dec(index as nat)
                    + ", which is absent"@,
            ),
        )
    } else {
        let origin_id = targets[index - 1];
        if origin_id == id {
            Err(Fault::Invalid("avif: item "@ + dec(id as nat) + " is its own data origin"@))
        } else {
            match meta.location(origin_id) {
                None => Err(
                    Fault::Invalid("avif: item "@ + dec(origin_id as nat) + " missing in iloc"@),
                ),
                Some(origin) => bytes_with_idat(file, meta.idat, origin),
            }
        }
    }
}

/// `done`, then the extents from place `i` on, each out of its own
/// origin.
pub open spec fn pieces_from(
    file: Seq<u8>,
    meta: MetaView,
    id: u32,
    loc: ItemLocationView,
    i: int,
    done: Seq<u8>,
) -> Result<Seq<u8>, Fault>
    decreases loc.extents.len() - i,
{
    if i < 0 || i >= loc.extents.len() {
        Ok(done)
    } else {
        match origin_bytes(file, meta, id, loc.extents[i].index) {
            Err(f) => Err(f),
            Ok(b) => match nth_extent_at(
                b.len(),
                "item"@,
                loc.base_offset,
                loc.extents[i],
                i as nat,
            ) {
                Err(f) => Err(f),
                Ok((start, end)) => pieces_from(
                    file,
                    meta,
                    id,
                    loc,
                    i + 1,
                    done + b.subrange(start, end),
                ),
            },
        }
    }
}

/// The bytes of an item that lies inside others, which `iloc` references
/// name.
pub open spec fn inner_bytes(file: Seq<u8>, meta: MetaView, id: u32, loc: ItemLocationView) -> Result<
    Seq<u8>,
    Fault,
> {
    if loc.extents.len() == 0 {
        Err(Fault::Invalid("avif: iloc entry has no extents"@))
    } else if loc.extents.len() == 1 {
        match origin_bytes(file, meta, id, loc.extents[0].index) {
            Err(f) => Err(f),
            Ok(b) => one_slice(b, "item"@, loc),
        }
    } else {
        pieces_from(file, meta, id, loc, 0, Seq::empty())
    }
}

/// The bytes of an item, wherever they lie: at file offsets, in `idat`,
/// or inside other items.
pub open spec fn payload_bytes(file: Seq<u8>, meta: MetaView, id: u32) -> Result<Seq<u8>, Fault> {
    match meta.location(id) {
        None => Err(Fault::Invalid("avif: item "@ + dec(id as nat) + " missing in iloc"@)),
        Some(loc) => if loc.construction_method != 2 {
            bytes_with_idat(file, meta.idat, loc)
        } else {
            inner_bytes(file, meta, id, loc)
        },
    }
}

fn outside(a: &str, start: u64, end: u64, what: &str, len: usize) -> (r: AvifError)
    ensures
        r@ == Fault::Invalid(
            a@ + dec(start as nat) + ".."@ + dec(end as nat) + " exceeds "@ + what@ + " length "@
                + dec(len as nat),
        ),
{
    let mut s = text_nn(a, start, "..", end, " exceeds ");
    s.append(what);
    s.append(" length ");
    push_dec(&mut s, len as u64);
    AvifError::InvalidData(s)
}

fn one_of<'a>(source: &'a [u8], what: &str, loc: &ItemLocation) -> (r: Result<&'a [u8], AvifError>)
    ensures
        outcome_view(r) == one_slice(source@, what@, loc@),
{
    if loc.extents.len() == 0 {
        return Err(AvifError::invalid("avif: iloc entry has no extents"));
    }
    if loc.extents.len() == 1 {
        let e = loc.extents[0];
        if e.offset > u64::MAX - loc.base_offset {
            return Err(AvifError::invalid("avif: iloc offset overflow"));
        }
        let start: u64 = loc.base_offset + e.offset;
        if e.length > u64::MAX - start {
            return Err(AvifError::invalid("avif: iloc length overflow"));
        }
        let end: u64 = start + e.length;
        if end > source.len() as u64 {
            return Err(outside("avif: iloc extent ", start, end, what, source.len()));
        }
        return Ok(slice_subrange(source, start as usize, end as usize));
    }
    Err(
        AvifError::Unsupported(
            text_nn(
                "avif: item ",
                loc.id as u64,
                " has ",
                loc.extents.len() as u64,
                " extents; multi-extent items require item_bytes_owned()",
            ),
        ),
    )
}

fn nth_outside(i: usize, start: u64, end: u64, what: &str, len: usize) -> (r: AvifError)
    ensures
        r@ == Fault::Invalid(
            "avif: iloc extent "@ + dec(i as nat) + " "@ + dec(start as nat) + ".."@ + dec(
                end as nat,
            ) + " exceeds "@ + what@ + " length "@ + dec(len as nat),
        ),
{
    let a = crate::error::text_n("avif: iloc extent ", i as u64, " ");
    outside(a.as_str(), start, end, what, len)
}

fn joined_bytes(source: &[u8], what: &str, loc: &ItemLocation) -> (r: Result<Vec<u8>, AvifError>)
    ensures
        outcome_view(r) == joined(source@, what@, loc@),
{
    if loc.extents.len() <= 1 {
        let s = one_of(source, what, loc)?;
        return Ok(slice_to_vec(s));
    }
    let mut out: Vec<u8> = Vec::new();
    let mut i: usize = 0;
    while i < loc.extents.len()
        invariant
            i <= loc.extents@.len(),
            joined_from(source@, what@, loc@, i as int, out@) == joined(source@, what@, loc@),
        decreases loc.extents@.len() - i,
    {
        let e = loc.extents[i];
        if e.offset > u64::MAX - loc.base_offset {
            return Err(invalid_n("avif: iloc extent ", i as u64, " offset overflow"));
        }
        let start: u64 = loc.base_offset + e.offset;
        if e.length > u64::MAX - start {
            return Err(invalid_n("avif: iloc extent ", i as u64, " length overflow"));
        }
        let end: u64 = start + e.length;
        if end > source.len() as u64 {
            return Err(nth_outside(i, start, end, what, source.len()));
        }
        let mut part = slice_to_vec(slice_subrange(source, start as usize, end as usize));
        out.append(&mut part);
        i = i + 1;
    }
    Ok(out)
}

/// The bytes of an item of one extent at a file offset.
pub fn item_bytes<'a>(file: &'a [u8], loc: &ItemLocation) -> (r: Result<&'a [u8], AvifError>)
    ensures
        outcome_view(r) == slice_of(file@, loc@),
{
    if loc.construction_method != 0 {
        return Err(
            unsupported_n(
                "avif: iloc construction_method ",
                loc.construction_method as u64,
                " not supported (only file-offset is handled)",
            ),
        );
    }
    one_of(file, "file", loc)
}

/// The bytes of an item at file offsets, its extents one after the
/// other.
pub fn item_bytes_owned(file: &[u8], loc: &ItemLocation) -> (r: Result<Vec<u8>, AvifError>)
    ensures
        outcome_view(r) == bytes_of(file@, loc@),
{
    if loc.construction_method != 0 {
        return Err(
            unsupported_n(
                "avif: iloc construction_method ",
                loc.construction_method as u64,
                " not supported",
            ),
        );
    }
    joined_bytes(file, "file", loc)
}

/// The bytes of an item of one extent at a file offset or in `idat`.
pub fn item_bytes_with_idat<'a>(file: &'a [u8], idat: Option<&'a [u8]>, loc: &ItemLocation) -> (r:
    Result<&'a [u8], AvifError>)
    ensures
        outcome_view(r) == slice_with_idat(file@, opt_slice(idat), loc@),
{
    if loc.construction_method == 1 {
        match idat {
            None => Err(
                invalid_n("avif: item ", loc.id as u64, " lies in idat, which is absent"),
            ),
            Some(b) => one_of(b, "idat", loc),
        }
    } else {
        item_bytes(file, loc)
    }
}

/// The bytes of an item at file offsets or in `idat`, its extents one
/// after the other.
pub fn item_bytes_owned_with_idat(file: &[u8], idat: Option<&[u8]>, loc: &ItemLocation) -> (r:
    Result<Vec<u8>, AvifError>)
    ensures
        outcome_view(r) == bytes_with_idat(file@, opt_slice(idat), loc@),
{
    if loc.construction_method == 1 {
        match idat {
            None => Err(
                invalid_n("avif: item ", loc.id as u64, " lies in idat, which is absent"),
            ),
            Some(b) => joined_bytes(b, "idat", loc),
        }
    } else {
        item_bytes_owned(file, loc)
    }
}

/// The payload of `idat` as a slice.
pub(crate) fn idat_of(meta: &Meta) -> (r: Option<&[u8]>)
    ensures
        opt_slice(r) == meta@.idat,
{
    match &meta.idat {
        None => None,
        Some(b) => Some(b.as_slice()),
    }
}

/// Read the item that an `iloc` reference names as the origin of another.
fn read_origin(file: &[u8], meta: &Meta, item_id: u32, index: u64) -> (r: Result<Vec<u8>, AvifError>)
    ensures
        outcome_view(r) == origin_bytes(file@, meta@, item_id, index),
{
    let targets = meta.iref_targets(&ILOC, item_id);
    if index == 0 || index > targets.len() as u64 {
        return Err(
            AvifError::InvalidData(
                text_nn(
                    "avif: item ",
                    item_id as u64,
                    " lies in iloc reference ",
                    index,
                    ", which is absent",
                ),
            ),
        );
    }
    let origin_id: u32 = targets[(index - 1) as usize];
    if origin_id == item_id {
        return Err(invalid_n("avif: item ", item_id as u64, " is its own data origin"));
    }
    match meta.location_by_id(origin_id) {
        None => Err(invalid_n("avif: item ", origin_id as u64, " missing in iloc")),
        Some(origin) => item_bytes_owned_with_idat(file, idat_of(meta), origin),
    }
}

/// Read the extents of an item, each out of its own origin.
fn read_pieces(file: &[u8], meta: &Meta, item_id: u32, loc: &ItemLocation) -> (r: Result<
    Vec<u8>,
    AvifError,
>)
    ensures
        outcome_view(r) == pieces_from(file@, meta@, item_id, loc@, 0, Seq::empty()),
{
    let mut out: Vec<u8> = Vec::new();
    let mut i: usize = 0;
    proof {
        assert(out@ =~= Seq::<u8>::empty());
    }
    while i < loc.extents.len()
        invariant
            i <= loc.extents@.len(),
            pieces_from(file@, meta@, item_id, loc@, i as int, out@) == pieces_from(
                file@,
                meta@,
                item_id,
                loc@,
                0,
                Seq::empty(),
            ),
        decreases loc.extents@.len() - i,
    {
        let e = loc.extents[i];
        let source = read_origin(file, meta, item_id, e.index)?;
        if e.offset > u64::MAX - loc.base_offset {
            return Err(invalid_n("avif: iloc extent ", i as u64, " offset overflow"));
        }
        let start: u64 = loc.base_offset + e.offset;
        if e.length > u64::MAX - start {
            return Err(invalid_n("avif: iloc extent ", i as u64, " length overflow"));
        }
        let end: u64 = start + e.length;
        if end > source.len() as u64 {
            return Err(nth_outside(i, start, end, "item", source.len()));
        }
        let mut part = slice_to_vec(
            slice_subrange(source.as_slice(), start as usize, end as usize),
        );
        out.append(&mut part);
        i = i + 1;
    }
    Ok(out)
}

/// The bytes of an item, wherever they lie. An item of construction
/// method 2 lies inside the items that its `iloc` references name, which
/// lie at file offsets or in `idat`.
pub fn item_bytes_owned_full(file: &[u8], meta: &Meta, item_id: u32) -> (r: Result<
    Vec<u8>,
    AvifError,
>)
    ensures
        outcome_view(r) == payload_bytes(file@, meta@, item_id),
{
    let loc = match meta.location_by_id(item_id) {
        None => {
            return Err(invalid_n("avif: item ", item_id as u64, " missing in iloc"));
        },
        Some(l) => l,
    };
    if loc.construction_method != 2 {
        return item_bytes_owned_with_idat(file, idat_of(meta), loc);
    }
    if loc.extents.len() == 0 {
        return Err(AvifError::invalid("avif: iloc entry has no extents"));
    }
    if loc.extents.len() == 1 {
        let bytes = read_origin(file, meta, item_id, loc.extents[0].index)?;
        let part = one_of(bytes.as_slice(), "item", loc)?;
        return Ok(slice_to_vec(part));
    }
    read_pieces(file, meta, item_id, loc)
}

impl<'a> AvifHeader<'a> {
    /// The bytes of an item, wherever they lie.
    pub fn item_data(&self, item_id: u32) -> (r: Result<Vec<u8>, AvifError>)
        ensures
            outcome_view(r) == payload_bytes(self@.file, self@.meta, item_id),
    {
        item_bytes_owned_full(self.file, &self.meta, item_id)
    }
}

// ---------------------------------------------------------------------
// The `mif1` audit

/// How many `infe` boxes are packed in `s` from `at` on, after `n`.
pub open spec fn infe_from(s: Seq<u8>, at: int, n: nat) -> Result<nat, Fault>
    decreases s.len() - at,
{
    if at < 0 || at >= s.len() {
        Ok(n)
    } else {
        match box_at(s, at) {
            Err(f) => Err(f),
            Ok(b) => {
                let next = if b.box_type == INFE {
                    n + 1
                } else {
                    n
                };
                if b.end <= at {
                    Ok(next)
                } else {
                    infe_from(s, b.end, next)
                }
            },
        }
    }
}

/// How many `infe` boxes an `iinf` payload holds, whatever count it
/// declares.
pub open spec fn infe_of(p: Seq<u8>) -> Result<nat, Fault> {
    match full_box(p) {
        Err(f) => Err(f),
        Ok((version, _, b)) => {
            let start = if version == 0 {
                2int
            } else {
                4int
            };
            if b.len() < start {
                Ok(0)
            } else {
                infe_from(tail(b, start), 0, 0)
            }
        },
    }
}

fn count_infe(payload: &[u8]) -> (r: Result<usize, AvifError>)
    ensures
        match r {
            Ok(n) => infe_of(payload@) == Ok::<nat, Fault>(n as nat),
            Err(e) => infe_of(payload@) == Err::<nat, Fault>(e@),
        },
{
    let (version, _flags, body) = parse_full_box(payload)?;
    let start: usize = if version == 0 {
        2
    } else {
        4
    };
    if body.len() < start {
        return Ok(0);
    }
    let entries = slice_subrange(body, start, body.len());
    let mut n: usize = 0;
    let mut at: usize = 0;
    while at < entries.len()
        invariant
            n <= at <= entries.len(),
            infe_from(entries@, at as int, n as nat) == infe_of(payload@),
        decreases entries.len() - at,
    {
        let h = parse_box_header(entries, at)?;
        proof {
            lemma_box_bounds(entries@, at as int);
        }
        if same_type(&h.box_type, &INFE) {
            n = n + 1;
        }
        at = h.end();
    }
    Ok(n)
}

/// What one child box of `meta` adds to an audit.
pub open spec fn mif1_step(m: Mif1Compliance, t: BoxType, p: Seq<u8>) -> Result<
    Mif1Compliance,
    Fault,
> {
    if t == HDLR {
        Ok(Mif1Compliance { has_hdlr: true, ..m })
    } else if t == PITM {
        Ok(Mif1Compliance { has_pitm: true, ..m })
    } else if t == IINF {
        match infe_of(p) {
            Err(f) => Err(f),
            Ok(n) => Ok(Mif1Compliance { has_iinf: true, infe_count: n as usize, ..m }),
        }
    } else if t == ILOC {
        Ok(Mif1Compliance { has_iloc: true, ..m })
    } else if t == IPRP {
        Ok(Mif1Compliance { has_iprp: true, ..m })
    } else {
        Ok(m)
    }
}

/// What the child boxes packed in `s` from `at` on add to an audit.
pub open spec fn mif1_from(s: Seq<u8>, at: int, m: Mif1Compliance) -> Result<Mif1Compliance, Fault>
    decreases s.len() - at,
{
    if at < 0 || at >= s.len() {
        Ok(m)
    } else {
        match box_at(s, at) {
            Err(f) => Err(f),
            Ok(b) => match mif1_step(m, b.box_type, s.subrange(b.payload, b.end)) {
                Err(f) => Err(f),
                Ok(next) => if b.end <= at {
                    Ok(next)
                } else {
                    mif1_from(s, b.end, next)
                },
            },
        }
    }
}

/// Which of the boxes that `mif1` calls for a file has.
pub open spec fn mif1_of(file: Seq<u8>) -> Result<Mif1Compliance, Fault> {
    match top_of(file) {
        Err(f) => Err(f),
        Ok(top) => match top.ftyp {
            None => Err(Fault::Invalid("avif: audit_mif1 missing ftyp"@)),
            Some(p) => match ftyp_of(p) {
                Err(f) => Err(f),
                Ok((major, _, compat)) => {
                    let m = Mif1Compliance {
                        claims_mif1: listed(BRAND_MIF1, major, compat),
                        ..no_mif1()
                    };
                    match top.meta {
                        None => Ok(m),
                        Some(mp) => match full_box(mp) {
                            Err(f) => Err(f),
                            Ok((_, _, b)) => mif1_from(b, 0, m),
                        },
                    }
                },
            },
        },
    }
}

/// Which of the boxes that `mif1` calls for a file has.
/// A file without `meta` is reported, not refused.
pub fn audit_mif1(file: &[u8]) -> (r: Result<Mif1Compliance, AvifError>)
    ensures
        outcome(r) == mif1_of(file@),
{
    let (ftyp_payload, meta_payload) = top_boxes(file)?;
    let ftyp = match ftyp_payload {
        None => {
            return Err(AvifError::invalid("avif: audit_mif1 missing ftyp"));
        },
        Some(p) => p,
    };
    let (major, _minor, compat) = parse_ftyp(ftyp)?;
    let mut out = Mif1Compliance::default();
    out.claims_mif1 = is_listed(&BRAND_MIF1, &major, compat.as_slice());
    let meta_p = match meta_payload {
        None => {
            return Ok(out);
        },
        Some(p) => p,
    };
    let (_version, _flags, body) = parse_full_box(meta_p)?;
    let mut at: usize = 0;
    while at < body.len()
        invariant
            at <= body.len(),
            mif1_from(body@, at as int, out) == mif1_of(file@),
        decreases body.len() - at,
    {
        let h = parse_box_header(body, at)?;
        proof {
            lemma_box_bounds(body@, at as int);
        }
        if same_type(&h.box_type, &HDLR) {
            out.has_hdlr = true;
        } else if same_type(&h.box_type, &PITM) {
            out.has_pitm = true;
        } else if same_type(&h.box_type, &IINF) {
            out.infe_count = count_infe(payload_of(body, &h))?;
            out.has_iinf = true;
        } else if same_type(&h.box_type, &ILOC) {
            out.has_iloc = true;
        } else if same_type(&h.box_type, &IPRP) {
            out.has_iprp = true;
        }
        at = h.end();
    }
    Ok(out)
}

// ---------------------------------------------------------------------
// A file whose primary item is an AV1 image

/// A file whose primary item is an AV1 image, ready for an AV1 decoder.
#[derive(Clone, Debug)]
pub struct AvifImage<'a> {
    /// Major brand.
    pub major_brand: BoxType,
    /// Minor version.
    pub minor_version: u32,
    /// Compatible brands, in order.
    pub compatible_brands: Vec<BoxType>,
    /// What the file says of its items.
    pub meta: Meta,
    /// Primary item.
    pub primary_item_id: u32,
    /// What `infe` says of it.
    pub primary_item: ItemInfo,
    /// Its AV1 bitstream.
    pub primary_item_data: &'a [u8],
    /// Its AV1 configuration record.
    pub av1c: Option<Vec<u8>>,
    /// Its extents.
    pub ispe: Option<Ispe>,
    /// Its colour description.
    pub colr: Option<Colr>,
    /// Its bits per channel.
    pub pixi: Option<Pixi>,
    /// Its pixel aspect ratio.
    pub pasp: Option<Pasp>,
    /// Its mastering display.
    pub mdcv: Option<Mdcv>,
    /// Its content light level.
    pub clli: Option<Clli>,
    /// Its colour volume luminance.
    pub cclv: Option<Cclv>,
    /// Its ambient viewing environment.
    pub amve: Option<Amve>,
}

/// An [`AvifImage`] as contracts speak of it.
#[verifier::ext_equal]
pub struct ImageView {
    /// Major brand.
    pub major_brand: BoxType,
    /// Minor version.
    pub minor_version: u32,
    /// Compatible brands, in order.
    pub compatible_brands: Seq<BoxType>,
    /// What the file says of its items.
    pub meta: MetaView,
    /// Primary item.
    pub primary_item_id: u32,
    /// What `infe` says of it.
    pub primary_item: ItemInfoView,
    /// Its AV1 bitstream.
    pub primary_item_data: Seq<u8>,
    /// Its AV1 configuration record.
    pub av1c: Option<Seq<u8>>,
    /// Its extents.
    pub ispe: Option<Ispe>,
    /// Its colour description.
    pub colr: Option<ColrView>,
    /// Its bits per channel.
    pub pixi: Option<Seq<u8>>,
    /// Its pixel aspect ratio.
    pub pasp: Option<Pasp>,
    /// Its mastering display.
    pub mdcv: Option<Mdcv>,
    /// Its content light level.
    pub clli: Option<Clli>,
    /// Its colour volume luminance.
    pub cclv: Option<Cclv>,
    /// Its ambient viewing environment.
    pub amve: Option<Amve>,
}

/// Bits per channel by their view.
pub open spec fn opt_pixi(p: Option<Pixi>) -> Option<Seq<u8>> {
    match p {
        Some(v) => Some(v@),
        None => None,
    }
}

impl<'a> View for AvifImage<'a> {
    type V = ImageView;

    open spec fn view(&self) -> ImageView {
        ImageView {
            major_brand: self.major_brand,
            minor_version: self.minor_version,
            compatible_brands: self.compatible_brands@,
            meta: self.meta@,
            primary_item_id: self.primary_item_id,
            primary_item: self.primary_item@,
            primary_item_data: self.primary_item_data@,
            av1c: opt_bytes(self.av1c),
            ispe: self.ispe,
            colr: opt_colr(self.colr),
            pixi: opt_pixi(self.pixi),
            pasp: self.pasp,
            mdcv: self.mdcv,
            clli: self.clli,
            cclv: self.cclv,
            amve: self.amve,
        }
    }
}

/// What a file says of a primary item with this id, whose bytes are
/// `data`.
pub open spec fn image_of(h: HeaderView, id: u32, info: ItemInfoView, data: Seq<u8>) -> ImageView {
    ImageView {
        major_brand: h.major_brand,
        minor_version: h.minor_version,
        compatible_brands: h.compatible_brands,
        meta: h.meta,
        primary_item_id: id,
        primary_item: info,
        primary_item_data: data,
        av1c: h.meta.av1c(id),
        ispe: h.meta.ispe(id),
        colr: h.meta.colr(id),
        pixi: h.meta.pixi(id),
        pasp: h.meta.pasp(id),
        mdcv: h.meta.mdcv(id),
        clli: h.meta.clli(id),
        cclv: h.meta.cclv(id),
        amve: h.meta.amve(id),
    }
}

/// A file whose primary item is an AV1 image.
pub open spec fn parsed(file: Seq<u8>) -> Result<ImageView, Fault> {
    match header_of(file) {
        Err(f) => Err(f),
        Ok(h) => match h.meta.primary_item_id {
            None => Err(Fault::Invalid("avif: missing pitm"@)),
            Some(id) => match h.meta.item(id) {
                None => Err(Fault::Invalid("avif: pitm references unknown item"@)),
                Some(info) => if info.item_type != ITEM_TYPE_AV01 {
                    Err(
                        Fault::Unsupported(
                            "avif: primary item type '"@ + code_text(info.item_type)
                                + "' != 'av01'"@,
                        ),
                    )
                } else {
                    match h.meta.location(id) {
                        None => Err(Fault::Invalid("avif: primary item missing in iloc"@)),
                        Some(loc) => match slice_of(file, loc) {
                            Err(f) => Err(f),
                            Ok(data) => Ok(image_of(h, id, info, data)),
                        },
                    }
                },
            },
        },
    }
}

/// A copy of an optional text.
fn copy_text(s: &Option<String>) -> (r: Option<String>)
    ensures
        opt_text(r) == opt_text(*s),
{
    match s {
        None => None,
        Some(t) => Some(t.as_str().to_string()),
    }
}

/// A copy of an item entry.
fn copy_item(i: &ItemInfo) -> (r: ItemInfo)
    ensures
        r@ == i@,
{
    ItemInfo {
        id: i.id,
        item_type: i.item_type,
        name: i.name.as_str().to_string(),
        content_type: copy_text(&i.content_type),
        content_encoding: copy_text(&i.content_encoding),
        item_uri_type: copy_text(&i.item_uri_type),
        flags: i.flags,
    }
}

/// Read a file whose primary item is an AV1 image of one extent. Any
/// other primary item is refused; [`parse_header`] reads such a file.
pub fn parse(file: &[u8]) -> (r: Result<AvifImage<'_>, AvifError>)
    ensures
        outcome_view(r) == parsed(file@),
{
    let hdr = parse_header(file)?;
    let id: u32 = match hdr.meta.primary_item_id {
        None => {
            return Err(AvifError::invalid("avif: missing pitm"));
        },
        Some(id) => id,
    };
    let info = match hdr.meta.item_by_id(id) {
        None => {
            return Err(AvifError::invalid("avif: pitm references unknown item"));
        },
        Some(i) => copy_item(i),
    };
    if !same_type(&info.item_type, &ITEM_TYPE_AV01) {
        return Err(
            AvifError::Unsupported(
                text_code("avif: primary item type '", &info.item_type, "' != 'av01'"),
            ),
        );
    }
    let data = match hdr.meta.location_by_id(id) {
        None => {
            return Err(AvifError::invalid("avif: primary item missing in iloc"));
        },
        Some(loc) => item_bytes(file, loc)?,
    };
    let av1c = hdr.meta.av1c(id);
    let ispe = hdr.meta.ispe(id);
    let colr = hdr.meta.colr(id);
    let pixi = match hdr.meta.pixi(id) {
        None => None,
        Some(b) => Some(Pixi { bits_per_channel: b }),
    };
    let pasp = hdr.meta.pasp(id);
    let mdcv = hdr.meta.mdcv(id);
    let clli = hdr.meta.clli(id);
    let cclv = hdr.meta.cclv(id);
    let amve = hdr.meta.amve(id);
    Ok(
        AvifImage {
            major_brand: hdr.major_brand,
            minor_version: hdr.minor_version,
            compatible_brands: hdr.compatible_brands,
            meta: hdr.meta,
            primary_item_id: id,
            primary_item: info,
            primary_item_data: data,
            av1c,
            ispe,
            colr,
            pixi,
            pasp,
            mdcv,
            clli,
            cclv,
            amve,
        },
    )
}

} // verus!
