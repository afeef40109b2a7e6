//! What is said of the primary image, in terms of the items, the
//! properties and the references of the file.

use crate::alpha::{alpha_of, first_alpha, is_alpha_item, names_alpha};
use crate::error::Fault;
use crate::grid::grid_parsed;
use crate::inspect::{
    aux_with, coded_core, coded_leaf, grid_core, info_of, inspected, is_derived, is_exif, is_xmp,
    linked, metadata_among, other_core, CoreView, InfoView,
};
use crate::meta::MetaView;
use crate::meta_parse::ItemInfoView;
use crate::parser::{
    classified, header_of, mif1_of, parsed, slice_with_idat, BrandClass, HeaderView,
    ITEM_TYPE_GRID,
};
use crate::props::{AuxKind, PropertyView};
use crate::query_laws::{
    all_kept, first_kept, is_auxiliary, is_first, law_auxiliary_images_refer_to_the_item,
    law_ids_of_a_type, law_sources_refer_to_the_item, refers_to, says_it_is,
};
use crate::resolve::rebuilt;
use vstd::prelude::*;

verus! {

/// The header of a file.
pub open spec fn header(file: Seq<u8>) -> HeaderView {
    header_of(file)->Ok_0
}

/// The id of the primary item of a file.
pub open spec fn primary(file: Seq<u8>) -> u32 {
    header(file).meta.primary_item_id->Some_0
}

/// What is said of the image, but for its first part, comes from the
/// header and the primary item.
#[verifier::spinoff_prover]
#[verifier::rlimit(60)]
proof fn lemma_said_of_primary(file: Seq<u8>) -> (r: (BrandClass, CoreView))
    requires
        inspected(file) is Ok,
    ensures
        header_of(file) is Ok,
        header(file).meta.primary_item_id is Some,
        header(file).meta.item(primary(file)) is Some,
        inspected(file) == Ok::<InfoView, Fault>(
            info_of(header(file).meta, file, primary(file), r.0, mif1_of(file)->Ok_0, r.1),
        ),
        mif1_of(file) is Ok,
{
    let h = header(file);
    let id = primary(file);
    let t = h.meta.item(id)->Some_0.item_type;
    let brands = classified(h.major_brand, h.compatible_brands)->Ok_0;
    if t == ITEM_TYPE_GRID {
        (brands, grid_core(h, id)->Ok_0)
    } else if is_derived(t) {
        (brands, other_core(h, id)->Ok_0)
    } else {
        (brands, coded_core(parsed(file)->Ok_0)->Ok_0)
    }
}

/// A thumbnail of the image is what refers to the primary item as `thmb`:
/// an id is listed exactly when a reference of that type starts there and
/// has the primary item among its ends, and the list is in the order of
/// the references.
#[verifier::spinoff_prover]
#[verifier::rlimit(60)]
pub proof fn law_thumbnails_refer_to_the_primary_item(file: Seq<u8>)
    requires
        inspected(file) is Ok,
    ensures
        header_of(file) is Ok,
        header(file).meta.primary_item_id is Some,
        ({
            let m = header(file).meta;
            let v = inspected(file)->Ok_0;
            &&& forall|id: u32| #[trigger]
                v.thumbnail_item_ids.contains(id) <==> exists|j: int|
                    0 <= j < m.irefs.len() && (#[trigger] m.irefs[j]).reference_type == [
                        0x74u8,
                        0x68u8,
                        0x6du8,
                        0x62u8,
                    ] && m.irefs[j].from_id == id && m.irefs[j].to_ids.contains(primary(file))
            &&& all_kept(
                m.irefs.len() as int,
                |j: int| refers_to(m, [0x74, 0x68, 0x6d, 0x62], primary(file), j),
                |j: int| m.irefs[j].from_id,
                v.thumbnail_item_ids,
            )
        }),
{
    let _ = lemma_said_of_primary(file);
    law_sources_refer_to_the_item(header(file).meta, [0x74, 0x68, 0x6d, 0x62], primary(file));
}

/// The items of a kind of derivation are those of its item type.
#[verifier::spinoff_prover]
#[verifier::rlimit(60)]
pub proof fn law_derivations_are_listed_by_type(file: Seq<u8>)
    requires
        inspected(file) is Ok,
    ensures
        ({
            let m = header(file).meta;
            let v = inspected(file)->Ok_0;
            &&& all_kept(
                m.items.len() as int,
                |j: int| m.items[j].item_type == [0x73u8, 0x61u8, 0x74u8, 0x6fu8],
                |j: int| m.items[j].id,
                v.sato_item_ids,
            )
            &&& all_kept(
                m.items.len() as int,
                |j: int| m.items[j].item_type == [0x74u8, 0x6du8, 0x61u8, 0x70u8],
                |j: int| m.items[j].id,
                v.tmap_item_ids,
            )
            &&& all_kept(
                m.items.len() as int,
                |j: int| m.items[j].item_type == [0x69u8, 0x64u8, 0x65u8, 0x6eu8],
                |j: int| m.items[j].id,
                v.iden_item_ids,
            )
        }),
{
    let _ = lemma_said_of_primary(file);
    let m = header(file).meta;
    let sato: [u8; 4] = [0x73, 0x61, 0x74, 0x6f];
    let tmap: [u8; 4] = [0x74, 0x6d, 0x61, 0x70];
    let iden: [u8; 4] = [0x69, 0x64, 0x65, 0x6e];
    law_ids_of_a_type(m, sato);
    law_ids_of_a_type(m, tmap);
    law_ids_of_a_type(m, iden);
    assert((|j: int| m.items[j].item_type == sato) =~= (|j: int|
        m.items[j].item_type == [0x73u8, 0x61u8, 0x74u8, 0x6fu8]));
    assert((|j: int| m.items[j].item_type == tmap) =~= (|j: int|
        m.items[j].item_type == [0x74u8, 0x6du8, 0x61u8, 0x70u8]));
    assert((|j: int| m.items[j].item_type == iden) =~= (|j: int|
        m.items[j].item_type == [0x69u8, 0x64u8, 0x65u8, 0x6eu8]));
}

// ---------------------------------------------------------------------
// Descriptive metadata

/// Whether entry `k` of a list of ids is an item that `pred` holds of.
pub open spec fn is_item_with(
    m: MetaView,
    ids: Seq<u32>,
    pred: spec_fn(ItemInfoView) -> bool,
    k: int,
) -> bool {
    m.item(ids[k]) matches Some(info) && pred(info)
}

proof fn lemma_exif(m: MetaView, ids: Seq<u32>, n: nat)
    requires
        n <= ids.len(),
    ensures
        first_kept(
            n as int,
            |k: int| is_item_with(m, ids, |i: ItemInfoView| is_exif(i), k),
            |k: int| ids[k],
            metadata_among(m, ids, n).0,
        ),
        first_kept(
            n as int,
            |k: int| is_item_with(m, ids, |i: ItemInfoView| is_xmp(i), k),
            |k: int| ids[k],
            metadata_among(m, ids, n).1,
        ),
    decreases n,
{
    if n > 0 {
        lemma_exif(m, ids, (n - 1) as nat);
        let before = metadata_among(m, ids, (n - 1) as nat);
        let exif = |k: int| is_item_with(m, ids, |i: ItemInfoView| is_exif(i), k);
        let xmp = |k: int| is_item_with(m, ids, |i: ItemInfoView| is_xmp(i), k);
        if m.item(ids[n - 1]) is Some {
            lemma_exif_is_not_xmp(m.item(ids[n - 1])->Some_0);
        }
        if before.0 is Some {
            let i = choose|i: int| #[trigger] is_first(n - 1, exif, i) && before.0->Some_0 == ids[i];
            assert(is_first(n as int, exif, i));
        } else if exif(n - 1) {
            assert(is_first(n as int, exif, n - 1));
        }
        if before.1 is Some {
            let i = choose|i: int| #[trigger] is_first(n - 1, xmp, i) && before.1->Some_0 == ids[i];
            assert(is_first(n as int, xmp, i));
        } else if xmp(n - 1) {
            assert(is_first(n as int, xmp, n - 1));
        }
    }
}

proof fn lemma_exif_is_not_xmp(info: ItemInfoView)
    ensures
        !(is_exif(info) && is_xmp(info)),
{
    reveal_strlit("application/rdf+xml");
    reveal_strlit("application/octet-stream");
    reveal_strlit("image/tiff");
    reveal_strlit("image/x-exif");
    let t = crate::inspect::mime_type(info);
    if is_exif(info) && is_xmp(info) {
        assert(t.len() >= 19);
        assert(crate::text::fold(t[12]) == crate::text::fold("application/rdf+xml"@[12]));
        assert(crate::text::fold(t[0]) == crate::text::fold("application/rdf+xml"@[0]));
        if crate::text::folded_equals(t, "application/octet-stream"@) {
            assert(crate::text::fold(t[12]) == crate::text::fold("application/octet-stream"@[12]));
        }
    }
}

/// The Exif item is the first of those that describe the primary item that
/// is Exif, and the XMP item the first that is XMP.
#[verifier::spinoff_prover]
#[verifier::rlimit(60)]
pub proof fn law_metadata_describe_the_primary_item(file: Seq<u8>)
    requires
        inspected(file) is Ok,
    ensures
        ({
            let m = header(file).meta;
            let v = inspected(file)->Ok_0;
            let ids = m.sources([0x63, 0x64, 0x73, 0x63], primary(file));
            &&& first_kept(
                ids.len() as int,
                |k: int| is_item_with(m, ids, |i: ItemInfoView| is_exif(i), k),
                |k: int| ids[k],
                v.exif_item_id,
            )
            &&& first_kept(
                ids.len() as int,
                |k: int| is_item_with(m, ids, |i: ItemInfoView| is_xmp(i), k),
                |k: int| ids[k],
                v.xmp_item_id,
            )
        }),
{
    let _ = lemma_said_of_primary(file);
    let m = header(file).meta;
    let ids = m.sources([0x63, 0x64, 0x73, 0x63], primary(file));
    lemma_exif(m, ids, ids.len());
}

/// An item is Exif by its type, or by a content type of a `mime` item; it
/// is XMP by the content type of a `mime` item.
#[verifier::spinoff_prover]
#[verifier::rlimit(60)]
pub proof fn law_metadata_kinds(info: ItemInfoView)
    ensures
        info.item_type == [0x45u8, 0x78u8, 0x69u8, 0x66u8] ==> is_exif(info) && !is_xmp(info),
        info.item_type != [0x45u8, 0x78u8, 0x69u8, 0x66u8] && info.item_type != [
            0x6du8,
            0x69u8,
            0x6du8,
            0x65u8,
        ] ==> !is_exif(info) && !is_xmp(info),
        info.item_type == [0x6du8, 0x69u8, 0x6du8, 0x65u8] && info.content_type == Some(
            "application/rdf+xml"@,
        ) ==> is_xmp(info) && !is_exif(info),
        info.item_type == [0x6du8, 0x69u8, 0x6du8, 0x65u8] && info.content_type == Some(
            "image/tiff"@,
        ) ==> is_exif(info) && !is_xmp(info),
{
    lemma_exif_is_not_xmp(info);
    let exif: [u8; 4] = [0x45, 0x78, 0x69, 0x66];
    let mime: [u8; 4] = [0x6d, 0x69, 0x6d, 0x65];
    assert(exif[0] != mime[0]);
}

// ---------------------------------------------------------------------
// Auxiliary images

proof fn lemma_first_alpha(m: MetaView, ids: Seq<u32>, i: int)
    requires
        0 <= i <= ids.len(),
        forall|k: int| 0 <= k < i ==> !is_alpha_item(m, #[trigger] ids[k]),
    ensures
        first_kept(
            ids.len() as int,
            |k: int| is_alpha_item(m, ids[k]),
            |k: int| ids[k],
            first_alpha(m, ids, i),
        ),
    decreases ids.len() - i,
{
    let keep = |k: int| is_alpha_item(m, ids[k]);
    if i < ids.len() {
        if is_alpha_item(m, ids[i]) {
            assert(is_first(ids.len() as int, keep, i));
        } else {
            lemma_first_alpha(m, ids, i + 1);
        }
    }
}

/// The alpha plane of an item is the first of its auxiliary images whose
/// type names alpha.
#[verifier::spinoff_prover]
#[verifier::rlimit(60)]
pub proof fn law_alpha_is_the_first_of_its_kind(m: MetaView, id: u32)
    ensures
        ({
            let ids = m.sources([0x61, 0x75, 0x78, 0x6c], id);
            &&& first_kept(
                ids.len() as int,
                |k: int| is_alpha_item(m, ids[k]),
                |k: int| ids[k],
                alpha_of(m, id),
            )
            &&& forall|a: u32| #[trigger]
                is_alpha_item(m, a) <==> (m.property(a, [0x61, 0x75, 0x78, 0x43]) matches Some(
                    PropertyView::AuxC(x),
                ) && names_alpha(x.aux_type))
        }),
{
    lemma_first_alpha(m, m.sources([0x61, 0x75, 0x78, 0x6c], id), 0);
}

/// Whether a reference says that the colours of `a` or `b` are
/// premultiplied by the other.
pub open spec fn says_premultiplied(m: MetaView, a: u32, b: u32, j: int) -> bool {
    &&& m.irefs[j].reference_type == [0x70u8, 0x72u8, 0x65u8, 0x6du8]
    &&& (m.irefs[j].from_id == a && m.irefs[j].to_ids.contains(b)) || (m.irefs[j].from_id == b
        && m.irefs[j].to_ids.contains(a))
}

/// The image has alpha where an auxiliary image of the primary item is an
/// alpha plane, and is premultiplied where a `prem` reference links that
/// plane and the primary item. Its auxiliary images are those that refer
/// to the primary item, and the alpha, the depth map and the gain map
/// among them are found by kind.
#[verifier::spinoff_prover]
#[verifier::rlimit(60)]
pub proof fn law_auxiliary_images_of_the_primary_item(file: Seq<u8>)
    requires
        inspected(file) is Ok,
    ensures
        ({
            let m = header(file).meta;
            let p = primary(file);
            let v = inspected(file)->Ok_0;
            &&& v.has_alpha <==> exists|j: int|
                0 <= j < m.irefs.len() && (#[trigger] m.irefs[j]).reference_type == [
                    0x61u8,
                    0x75u8,
                    0x78u8,
                    0x6cu8,
                ] && m.irefs[j].to_ids.contains(p) && is_alpha_item(m, m.irefs[j].from_id)
            &&& v.premultiplied_alpha <==> (alpha_of(m, p) matches Some(a) && exists|j: int|
                0 <= j < m.irefs.len() && #[trigger] says_premultiplied(m, a, p, j))
            &&& all_kept(
                m.irefs.len() as int,
                |j: int| is_auxiliary(m, p, j),
                |j: int| (m.irefs[j].from_id, says_it_is(m, m.irefs[j].from_id)),
                v.aux_items,
            )
            &&& v.alpha_aux_kind == if exists|k: int|
                0 <= k < v.aux_items.len() && (#[trigger] v.aux_items[k]).1 == AuxKind::Alpha {
                Some(AuxKind::Alpha)
            } else {
                None
            }
        }),
{
    let _ = lemma_said_of_primary(file);
    let m = header(file).meta;
    let p = primary(file);
    let v = inspected(file)->Ok_0;
    let auxl: [u8; 4] = [0x61, 0x75, 0x78, 0x6c];
    let ids = m.sources(auxl, p);
    law_auxiliary_images_refer_to_the_item(m, p);
    law_alpha_is_the_first_of_its_kind(m, p);
    law_sources_refer_to_the_item(m, auxl, p);
    let keep = |k: int| is_alpha_item(m, ids[k]);
    if v.has_alpha {
        let i = choose|i: int| #[trigger] is_first(ids.len() as int, keep, i) && alpha_of(
            m,
            p,
        )->Some_0 == ids[i];
        assert(ids.contains(ids[i]));
        let j = choose|j: int|
            0 <= j < m.irefs.len() && (#[trigger] m.irefs[j]).reference_type == auxl
                && m.irefs[j].from_id == ids[i] && m.irefs[j].to_ids.contains(p);
        assert(m.irefs[j].to_ids.contains(p));
    }
    if exists|j: int|
        0 <= j < m.irefs.len() && (#[trigger] m.irefs[j]).reference_type == auxl
            && m.irefs[j].to_ids.contains(p) && is_alpha_item(m, m.irefs[j].from_id) {
        let j = choose|j: int|
            0 <= j < m.irefs.len() && (#[trigger] m.irefs[j]).reference_type == auxl
                && m.irefs[j].to_ids.contains(p) && is_alpha_item(m, m.irefs[j].from_id);
        let a = m.irefs[j].from_id;
        assert(ids.contains(a));
        let k = choose|k: int| 0 <= k < ids.len() && ids[k] == a;
        assert(keep(k));
    }
    if alpha_of(m, p) is Some {
        let a = alpha_of(m, p)->Some_0;
        assert(linked(m, a, p) <==> exists|j: int|
            0 <= j < m.irefs.len() && #[trigger] says_premultiplied(m, a, p, j)) by {
            if linked(m, a, p) {
                let i = choose|i: int|
                    0 <= i < m.irefs.len() && (#[trigger] m.irefs[i]).reference_type
                        == crate::meta::PREM && ((m.irefs[i].from_id == a
                        && m.irefs[i].to_ids.contains(p)) || (m.irefs[i].from_id == p
                        && m.irefs[i].to_ids.contains(a)));
                assert(says_premultiplied(m, a, p, i));
            }
            if exists|j: int| 0 <= j < m.irefs.len() && #[trigger] says_premultiplied(m, a, p, j) {
                let j = choose|j: int|
                    0 <= j < m.irefs.len() && #[trigger] says_premultiplied(m, a, p, j);
                assert(m.irefs[j].reference_type == crate::meta::PREM);
            }
        }
    }
    lemma_alpha_kind(v.aux_items, 0);
}

proof fn lemma_alpha_kind(s: Seq<(u32, AuxKind)>, i: int)
    requires
        0 <= i <= s.len(),
        forall|k: int| 0 <= k < i ==> (#[trigger] s[k]).1 != AuxKind::Alpha,
    ensures
        aux_with(s, AuxKind::Alpha, i) is Some <==> exists|k: int|
            0 <= k < s.len() && (#[trigger] s[k]).1 == AuxKind::Alpha,
    decreases s.len() - i,
{
    if i < s.len() {
        if s[i].1 != AuxKind::Alpha {
            lemma_alpha_kind(s, i + 1);
        }
    }
}

// ---------------------------------------------------------------------
// The image itself

/// Bit depth, monochrome and chroma sampling are those of the third byte
/// of the configuration record, and the operating point and the layers
/// those of the primary item.
#[verifier::spinoff_prover]
#[verifier::rlimit(60)]
pub proof fn law_record_says_the_sampling(file: Seq<u8>)
    requires
        inspected(file) is Ok,
    ensures
        ({
            let m = header(file).meta;
            let v = inspected(file)->Ok_0;
            &&& v.operating_point == m.a1op(primary(file))
            &&& v.layered_index == m.a1lx(primary(file))
            &&& v.av1c.len() < 3 ==> v.bit_depth is None && !v.monochrome
                && v.chroma_subsampling is None
            &&& v.av1c.len() >= 3 ==> {
                let b = v.av1c[2];
                &&& v.bit_depth == Some(
                    if b / 32 % 2 == 1 {
                        12u8
                    } else if b / 64 % 2 == 1 {
                        10u8
                    } else {
                        8u8
                    },
                )
                &&& v.monochrome == (b / 16 % 2 == 1)
                &&& b / 16 % 2 == 1 ==> v.chroma_subsampling is None
                &&& b / 16 % 2 == 0 ==> v.chroma_subsampling == Some(
                    (b / 8 % 2 == 1, b / 4 % 2 == 1),
                )
            }
        }),
{
    let _ = lemma_said_of_primary(file);
}

/// An AV1 primary item is described by its own properties, and its bytes
/// are those of its one extent in the file.
#[verifier::spinoff_prover]
#[verifier::rlimit(60)]
pub proof fn law_coded_image_is_described_by_its_properties(file: Seq<u8>)
    requires
        inspected(file) is Ok,
        header(file).meta.item(primary(file))->Some_0.item_type == [0x61u8, 0x76u8, 0x30u8, 0x31u8],
    ensures
        ({
            let m = header(file).meta;
            let p = primary(file);
            let v = inspected(file)->Ok_0;
            let loc = m.location(p)->Some_0;
            let at = loc.base_offset + loc.extents[0].offset;
            &&& !v.is_grid
            &&& m.ispe(p) is Some
            &&& v.width == m.ispe(p)->Some_0.width
            &&& v.height == m.ispe(p)->Some_0.height
            &&& m.av1c(p) == Some(v.av1c)
            &&& m.pixi(p) is Some ==> v.bits_per_channel == m.pixi(p)->Some_0
            &&& m.pixi(p) is None ==> v.bits_per_channel.len() == 0
            &&& v.pasp == m.pasp(p)
            &&& v.colour == m.colr(p)
            &&& v.mdcv == m.mdcv(p)
            &&& v.clli == m.clli(p)
            &&& v.cclv == m.cclv(p)
            &&& v.amve == m.amve(p)
            &&& m.location(p) is Some
            &&& loc.extents.len() == 1
            &&& at + loc.extents[0].length <= file.len()
            &&& v.obu_bytes == file.subrange(at, at + loc.extents[0].length)
        }),
{
}

/// The own value of an item where it has one, and that of a part of it
/// elsewhere.
pub open spec fn own_or<T>(own: Option<T>, part: Option<T>) -> Option<T> {
    if own is Some {
        own
    } else {
        part
    }
}

/// What is said of a derived image comes from its own properties, and
/// where it has none, from those of `part`; it has no bytes of its own.
pub open spec fn described_by(v: InfoView, m: MetaView, p: u32, part: u32) -> bool {
    &&& m.av1c(part) == Some(v.av1c)
    &&& v.obu_bytes.len() == 0
    &&& own_or(m.pixi(p), m.pixi(part)) is Some ==> v.bits_per_channel == own_or(
        m.pixi(p),
        m.pixi(part),
    )->Some_0
    &&& own_or(m.pixi(p), m.pixi(part)) is None ==> v.bits_per_channel.len() == 0
    &&& v.pasp == own_or(m.pasp(p), m.pasp(part))
    &&& v.colour == own_or(m.colr(p), m.colr(part))
    &&& v.mdcv == own_or(m.mdcv(p), m.mdcv(part))
    &&& v.clli == own_or(m.clli(p), m.clli(part))
    &&& v.cclv == own_or(m.cclv(p), m.cclv(part))
    &&& v.amve == own_or(m.amve(p), m.amve(part))
}

/// A grid has the size that it gives, and what it does not say itself is
/// what its first tile says.
#[verifier::spinoff_prover]
#[verifier::rlimit(60)]
pub proof fn law_grid_is_described_by_its_first_tile(file: Seq<u8>)
    requires
        inspected(file) is Ok,
        header(file).meta.item(primary(file))->Some_0.item_type == [0x67u8, 0x72u8, 0x69u8, 0x64u8],
    ensures
        ({
            let m = header(file).meta;
            let p = primary(file);
            let v = inspected(file)->Ok_0;
            let tiles = m.targets([0x64, 0x69, 0x6d, 0x67], p);
            &&& v.is_grid
            &&& tiles.len() > 0
            &&& described_by(v, m, p, tiles[0])
            &&& m.location(p) is Some
            &&& slice_with_idat(file, m.idat, m.location(p)->Some_0) matches Ok(s) && (grid_parsed(
                s,
            ) matches Ok(g) && v.width == g.output_width && v.height == g.output_height)
        }),
{
    let p = primary(file);
    let av01: [u8; 4] = [0x61, 0x76, 0x30, 0x31];
    let grid: [u8; 4] = [0x67, 0x72, 0x69, 0x64];
    assert(header(file).file == file);
}

/// A primary item of any other type than `av01` or `grid` is a derivation;
/// what it does not say itself is what the AV1 item says that it goes back
/// to first, and its size is that of what it makes, transformed as it is
/// shown.
#[verifier::spinoff_prover]
#[verifier::rlimit(60)]
pub proof fn law_derivation_is_described_by_its_leaf(file: Seq<u8>)
    requires
        inspected(file) is Ok,
        header(file).meta.item(primary(file))->Some_0.item_type != [0x67u8, 0x72u8, 0x69u8, 0x64u8],
        header(file).meta.item(primary(file))->Some_0.item_type != [0x61u8, 0x76u8, 0x30u8, 0x31u8],
    ensures
        ({
            let m = header(file).meta;
            let p = primary(file);
            let v = inspected(file)->Ok_0;
            let t = m.item(p)->Some_0.item_type;
            &&& t == [0x69u8, 0x6fu8, 0x76u8, 0x6cu8] || t == [0x69u8, 0x64u8, 0x65u8, 0x6eu8] || t
                == [0x74u8, 0x6du8, 0x61u8, 0x70u8] || t == [0x73u8, 0x61u8, 0x74u8, 0x6fu8]
            &&& !v.is_grid
            &&& coded_leaf(m, p, 0) is Some
            &&& described_by(v, m, p, coded_leaf(m, p, 0)->Some_0)
            &&& rebuilt(m, file, p, 0) matches Some((w, h)) && crate::derived::shown_size(m, p, w, h)
                == (v.width, v.height)
        }),
{
    assert(header(file).file == file);
}

} // verus!
