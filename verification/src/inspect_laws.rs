//! What holds of everything that is said of an image.

use crate::derived::Mif1Compliance;
use crate::error::Fault;
use crate::gain_map::{gain_map_of, GainMapView};
use crate::inspect::{aux_with, gain_map_at, info_of, inspected, item_payload, CoreView, InfoView};
use crate::meta::MetaView;
use crate::parser::{header_of, BrandClass};
use crate::props::AuxKind;
use vstd::prelude::*;

verus! {

/// Whether `id` is the first auxiliary image of this kind, or absent
/// where there is none.
pub open spec fn is_first_of_kind(s: Seq<(u32, AuxKind)>, kind: AuxKind, id: Option<u32>) -> bool {
    match id {
        Some(v) => exists|i: int|
            0 <= i < s.len() && #[trigger] s[i] == (v, kind) && forall|j: int|
                0 <= j < i ==> (#[trigger] s[j]).1 != kind,
        None => forall|j: int| 0 <= j < s.len() ==> (#[trigger] s[j]).1 != kind,
    }
}

/// What holds of all that is said of an image.
pub open spec fn info_holds_together(v: InfoView) -> bool {
    &&& v.premultiplied_alpha ==> v.has_alpha
    &&& v.chroma_subsampling is Some <==> v.bit_depth is Some && !v.monochrome
    &&& v.tone_map_compliance.len() == v.tmap_item_ids.len()
    &&& v.iden_compliance.len() == v.iden_item_ids.len()
    &&& is_first_of_kind(v.aux_items, AuxKind::DepthMap, v.depth_map_item_id)
    &&& is_first_of_kind(v.aux_items, AuxKind::HdrGainMap, v.hdr_gain_map_item_id)
}

proof fn lemma_aux_first(s: Seq<(u32, AuxKind)>, kind: AuxKind, i: int)
    requires
        0 <= i <= s.len(),
        forall|j: int| 0 <= j < i ==> (#[trigger] s[j]).1 != kind,
    ensures
        is_first_of_kind(s, kind, aux_with(s, kind, i)),
    decreases s.len() - i,
{
    if i < s.len() {
        if s[i].1 == kind {
            assert(s[i] == (s[i].0, kind));
        } else {
            lemma_aux_first(s, kind, i + 1);
        }
    }
}

proof fn lemma_info(
    m: MetaView,
    file: Seq<u8>,
    id: u32,
    brands: BrandClass,
    mif1: Mif1Compliance,
    c: CoreView,
)
    ensures
        info_holds_together(info_of(m, file, id, brands, mif1, c)),
{
    lemma_aux_first(m.aux_items(id), AuxKind::DepthMap, 0);
    lemma_aux_first(m.aux_items(id), AuxKind::HdrGainMap, 0);
}

/// What a file says of its primary image holds together: alpha that is
/// premultiplied is there; the chroma sampling is known exactly when the
/// bit depth is and there is chroma; every tone map and every identity
/// derivation has its audit; and the depth map and the gain map are the
/// first auxiliary images of their kinds.
pub proof fn law_inspection_holds_together(file: Seq<u8>)
    requires
        inspected(file) is Ok,
    ensures
        info_holds_together(inspected(file)->Ok_0),
{
    assert forall|
        m: MetaView,
        id: u32,
        brands: BrandClass,
        mif1: Mif1Compliance,
        c: CoreView,
    | info_holds_together(#[trigger] info_of(m, file, id, brands, mif1, c)) by {
        lemma_info(m, file, id, brands, mif1, c);
    }
}

/// Why the bytes of an item cannot be had is why its gain map metadata
/// cannot be, as where the item has no location; otherwise the metadata
/// are what those bytes say.
pub proof fn law_gain_map_faults_come_through(file: Seq<u8>, id: u32)
    ensures
        item_payload(file, id) matches Err(f) ==> gain_map_at(file, id) == Err::<GainMapView, Fault>(
            f,
        ),
        item_payload(file, id) matches Ok(b) ==> gain_map_at(file, id) == gain_map_of(b),
        header_of(file) matches Ok(h) && h.meta.location(id) is None ==> (gain_map_at(
            file,
            id,
        ) matches Err(Fault::Invalid(_))),
{
}

} // verus!
