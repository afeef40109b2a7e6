//! Alpha planes.

use crate::meta::{Meta, MetaView, AUXL};
use crate::props::{aux_kind, AuxKind, Property, PropertyView, AUXC};
use crate::text::{begins_with, starts_text};
use vstd::prelude::*;

verus! {

/// How the auxiliary type of an alpha plane begins.
pub const ALPHA_URN_PREFIX: &'static str = "urn:mpeg:mpegB:cicp:systems:auxiliary:alpha";

/// Whether an auxiliary type names an alpha plane: it begins as one, or
/// it is the HEVC spelling.
pub open spec fn names_alpha(urn: Seq<char>) -> bool {
    begins_with(urn, ALPHA_URN_PREFIX@) || aux_kind(urn) == AuxKind::Alpha
}

/// Whether an item has an auxiliary type that names an alpha plane.
pub open spec fn is_alpha_item(m: MetaView, id: u32) -> bool {
    match m.property(id, AUXC) {
        Some(PropertyView::AuxC(a)) => names_alpha(a.aux_type),
        _ => false,
    }
}

/// The first alpha plane among these items, from place `i` on.
pub open spec fn first_alpha(m: MetaView, ids: Seq<u32>, i: int) -> Option<u32>
    decreases ids.len() - i,
{
    if i < 0 || i >= ids.len() {
        None
    } else if is_alpha_item(m, ids[i]) {
        Some(ids[i])
    } else {
        first_alpha(m, ids, i + 1)
    }
}

/// The alpha plane of an item.
pub open spec fn alpha_of(m: MetaView, id: u32) -> Option<u32> {
    first_alpha(m, m.sources(AUXL, id), 0)
}

/// Whether an item has an auxiliary type that names an alpha plane.
pub(crate) fn names_alpha_plane(meta: &Meta, id: u32) -> (r: bool)
    ensures
        r == is_alpha_item(meta@, id),
{
    match meta.property_for(id, &AUXC) {
        Some(Property::AuxC(aux)) => starts_text(aux.aux_type.as_str(), ALPHA_URN_PREFIX)
            || aux.is_alpha(),
        _ => false,
    }
}

/// The alpha plane of an item: the first auxiliary image of it whose
/// type names an alpha plane.
pub fn find_alpha_item_id(meta: &Meta, primary_id: u32) -> (r: Option<u32>)
    ensures
        r == alpha_of(meta@, primary_id),
{
    let sources = meta.iref_sources_of(&AUXL, primary_id);
    let mut i: usize = 0;
    while i < sources.len()
        invariant
            i <= sources@.len(),
            sources@ == meta@.sources(AUXL, primary_id),
            first_alpha(meta@, sources@, i as int) == alpha_of(meta@, primary_id),
        decreases sources@.len() - i,
    {
        if names_alpha_plane(meta, sources[i]) {
            return Some(sources[i]);
        }
        i = i + 1;
    }
    None
}

} // verus!
