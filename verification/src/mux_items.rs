//! What the writers of AVIF files share: optional properties, metadata
//! items, and files that grow item by item.

use crate::box_parser::{BoxType, UUID};
use crate::container::{
    no_flags, plan_of, property_count, queued, with_metadata, FilePlan, ItemPlan,
};
use crate::error::{AvifError, Fault};
use crate::lookup::opt_colr;
use crate::meta::opt_bytes;
use crate::meta_parse::{IrefView, ITEM_TYPE_EXIF, ITEM_TYPE_MIME};
use crate::mux_props::{
    colr_fault, layer_index, opt_prop, planned, prop_a1lx, prop_a1op, prop_amve, prop_clap,
    prop_clli, prop_colr, prop_imir, prop_irot, prop_lsel, prop_mdcv, prop_pasp, prop_pixi,
    push_prop, Prop,
};
use crate::props::{
    A1op, Amve, Clap, Clli, Colr, ColrView, Imir, Irot, Lsel, Mdcv, Pasp, PropertyView,
};
use crate::text::{dec, push_dec, utf8_text};
use oxideav_heif::HeifWriter;
use vstd::prelude::*;
use vstd::slice::slice_subrange;
use vstd::utf8::{decode_utf8_encode_utf8, valid_utf8};

verus! {

// ---------------------------------------------------------------------
// Optional properties

/// Bits per channel as a property.
pub open spec fn as_pixi(bits: Option<Seq<u8>>) -> Option<PropertyView> {
    match bits {
        Some(b) => Some(PropertyView::Pixi(b)),
        None => None,
    }
}

/// A colour description as a property.
pub open spec fn as_colr(colr: Option<ColrView>) -> Option<PropertyView> {
    match colr {
        Some(c) => Some(PropertyView::Colr(c)),
        None => None,
    }
}

/// A layer selector as a property.
pub open spec fn as_lsel(layer: Option<u16>) -> Option<PropertyView> {
    match layer {
        Some(layer_id) => Some(PropertyView::Lsel(Lsel { layer_id })),
        None => None,
    }
}

/// An operating point as a property.
pub open spec fn as_a1op(op: Option<u8>) -> Option<PropertyView> {
    match op {
        Some(op_index) => Some(PropertyView::A1op(A1op { op_index })),
        None => None,
    }
}

/// Layer sizes as a property.
pub open spec fn as_a1lx(sizes: Option<[u32; 3]>) -> Option<PropertyView> {
    match sizes {
        Some(s) => Some(PropertyView::A1lx(layer_index(s))),
        None => None,
    }
}

/// A pixel aspect ratio as a property.
pub open spec fn as_pasp(v: Option<Pasp>) -> Option<PropertyView> {
    match v {
        Some(x) => Some(PropertyView::Pasp(x)),
        None => None,
    }
}

/// A mastering display as a property.
pub open spec fn as_mdcv(v: Option<Mdcv>) -> Option<PropertyView> {
    match v {
        Some(x) => Some(PropertyView::Mdcv(x)),
        None => None,
    }
}

/// A content light level as a property.
pub open spec fn as_clli(v: Option<Clli>) -> Option<PropertyView> {
    match v {
        Some(x) => Some(PropertyView::Clli(x)),
        None => None,
    }
}

/// An ambient viewing environment as a property.
pub open spec fn as_amve(v: Option<Amve>) -> Option<PropertyView> {
    match v {
        Some(x) => Some(PropertyView::Amve(x)),
        None => None,
    }
}

/// A clean aperture as a property.
pub open spec fn as_clap(v: Option<Clap>) -> Option<PropertyView> {
    match v {
        Some(x) => Some(PropertyView::Clap(x)),
        None => None,
    }
}

/// A rotation as a property.
pub open spec fn as_irot(v: Option<Irot>) -> Option<PropertyView> {
    match v {
        Some(x) => Some(PropertyView::Irot(x)),
        None => None,
    }
}

/// A mirror as a property.
pub open spec fn as_imir(v: Option<Imir>) -> Option<PropertyView> {
    match v {
        Some(x) => Some(PropertyView::Imir(x)),
        None => None,
    }
}

/// Append it where there is one.
pub(crate) fn push_pasp(props: &mut Vec<Prop>, v: Option<Pasp>)
    ensures
        queued(final(props)@) == queued(old(props)@) + opt_prop(as_pasp(v), false),
{
    match v {
        Some(x) => {
            push_prop(props, prop_pasp(x));
        },
        None => {
            proof {
                assert(queued(props@) + opt_prop(as_pasp(v), false) =~= queued(props@));
            }
        },
    }
}

/// Append it where there is one.
pub(crate) fn push_mdcv(props: &mut Vec<Prop>, v: Option<Mdcv>)
    ensures
        queued(final(props)@) == queued(old(props)@) + opt_prop(as_mdcv(v), false),
{
    match v {
        Some(x) => {
            push_prop(props, prop_mdcv(x));
        },
        None => {
            proof {
                assert(queued(props@) + opt_prop(as_mdcv(v), false) =~= queued(props@));
            }
        },
    }
}

/// Append it where there is one.
pub(crate) fn push_clli(props: &mut Vec<Prop>, v: Option<Clli>)
    ensures
        queued(final(props)@) == queued(old(props)@) + opt_prop(as_clli(v), false),
{
    match v {
        Some(x) => {
            push_prop(props, prop_clli(x));
        },
        None => {
            proof {
                assert(queued(props@) + opt_prop(as_clli(v), false) =~= queued(props@));
            }
        },
    }
}

/// Append it where there is one.
pub(crate) fn push_amve(props: &mut Vec<Prop>, v: Option<Amve>)
    ensures
        queued(final(props)@) == queued(old(props)@) + opt_prop(as_amve(v), false),
{
    match v {
        Some(x) => {
            push_prop(props, prop_amve(x));
        },
        None => {
            proof {
                assert(queued(props@) + opt_prop(as_amve(v), false) =~= queued(props@));
            }
        },
    }
}

/// Append it where there is one.
pub(crate) fn push_clap(props: &mut Vec<Prop>, v: Option<Clap>)
    ensures
        queued(final(props)@) == queued(old(props)@) + opt_prop(as_clap(v), true),
{
    match v {
        Some(x) => {
            push_prop(props, prop_clap(x));
        },
        None => {
            proof {
                assert(queued(props@) + opt_prop(as_clap(v), true) =~= queued(props@));
            }
        },
    }
}

/// Append it where there is one.
pub(crate) fn push_irot(props: &mut Vec<Prop>, v: Option<Irot>)
    ensures
        queued(final(props)@) == queued(old(props)@) + opt_prop(as_irot(v), true),
{
    match v {
        Some(x) => {
            push_prop(props, prop_irot(x));
        },
        None => {
            proof {
                assert(queued(props@) + opt_prop(as_irot(v), true) =~= queued(props@));
            }
        },
    }
}

/// Append it where there is one.
pub(crate) fn push_imir(props: &mut Vec<Prop>, v: Option<Imir>)
    ensures
        queued(final(props)@) == queued(old(props)@) + opt_prop(as_imir(v), true),
{
    match v {
        Some(x) => {
            push_prop(props, prop_imir(x));
        },
        None => {
            proof {
                assert(queued(props@) + opt_prop(as_imir(v), true) =~= queued(props@));
            }
        },
    }
}

/// Append it where there is one.
pub(crate) fn push_lsel(props: &mut Vec<Prop>, v: Option<u16>)
    ensures
        queued(final(props)@) == queued(old(props)@) + opt_prop(as_lsel(v), true),
{
    match v {
        Some(x) => {
            push_prop(props, prop_lsel(x));
        },
        None => {
            proof {
                assert(queued(props@) + opt_prop(as_lsel(v), true) =~= queued(props@));
            }
        },
    }
}

/// Append it where there is one.
pub(crate) fn push_a1op(props: &mut Vec<Prop>, v: Option<u8>)
    ensures
        queued(final(props)@) == queued(old(props)@) + opt_prop(as_a1op(v), true),
{
    match v {
        Some(x) => {
            push_prop(props, prop_a1op(x));
        },
        None => {
            proof {
                assert(queued(props@) + opt_prop(as_a1op(v), true) =~= queued(props@));
            }
        },
    }
}

/// Append it where there is one.
pub(crate) fn push_a1lx(props: &mut Vec<Prop>, v: Option<[u32; 3]>)
    ensures
        queued(final(props)@) == queued(old(props)@) + opt_prop(as_a1lx(v), false),
{
    match v {
        Some(x) => {
            push_prop(props, prop_a1lx(x));
        },
        None => {
            proof {
                assert(queued(props@) + opt_prop(as_a1lx(v), false) =~= queued(props@));
            }
        },
    }
}

/// Append it where there is one.
pub(crate) fn push_pixi(props: &mut Vec<Prop>, v: &Option<Vec<u8>>)
    ensures
        queued(final(props)@) == queued(old(props)@) + opt_prop(as_pixi(opt_bytes(*v)), false),
{
    match v {
        Some(x) => {
            push_prop(props, prop_pixi(x.as_slice()));
        },
        None => {
            proof {
                assert(queued(props@) + opt_prop(as_pixi(opt_bytes(*v)), false) =~= queued(props@));
            }
        },
    }
}

/// Why a colour description is refused, if it is.
pub open spec fn opt_colr_fault(colr: Option<ColrView>) -> Option<Fault> {
    match colr {
        Some(ColrView::Unknown(t)) => Some(colr_fault(t)),
        _ => None,
    }
}

/// Append it where there is one.
pub(crate) fn push_colr(props: &mut Vec<Prop>, v: &Option<Colr>) -> (r: Result<(), AvifError>)
    ensures
        match r {
            Ok(_) => opt_colr_fault(opt_colr(*v)) is None && queued(final(props)@) == queued(
                old(props)@,
            ) + opt_prop(as_colr(opt_colr(*v)), false),
            Err(e) => opt_colr_fault(opt_colr(*v)) == Some(e@),
        },
{
    match v {
        Some(x) => {
            let p = prop_colr(x)?;
            push_prop(props, p);
        },
        None => {
            proof {
                assert(queued(props@) + opt_prop(as_colr(opt_colr(*v)), false) =~= queued(props@));
            }
        },
    }
    Ok(())
}

/// A list with one property.
pub(crate) fn list_of(p: Prop) -> (r: Vec<Prop>)
    ensures
        queued(r@) == seq![planned(p)],
{
    let mut props: Vec<Prop> = Vec::new();
    props.push(p);
    proof {
        assert(queued(props@) =~= seq![planned(p)]);
    }
    props
}

// ---------------------------------------------------------------------
// Metadata items

/// Whether an Exif item body starts with a zero offset word.
pub open spec fn zero_offset(payload: Seq<u8>) -> bool {
    payload.len() >= 4 && payload[0] == 0 && payload[1] == 0 && payload[2] == 0 && payload[3] == 0
}

/// Why an Exif payload is refused, if it is.
pub open spec fn exif_fault(exif: Option<Seq<u8>>) -> Option<Fault> {
    match exif {
        Some(p) => if zero_offset(p) {
            None
        } else {
            Some(
                Fault::Unsupported(
                    "avif mux: Exif item body must start with a zero exif_tiff_header_offset word (the container writer prepends its own)"@,
                ),
            )
        },
        None => None,
    }
}

/// Why an XMP packet is refused, if it is.
pub open spec fn xmp_fault(xmp: Option<Seq<u8>>) -> Option<Fault> {
    match xmp {
        Some(p) => if valid_utf8(p) {
            None
        } else {
            Some(Fault::Unsupported("avif mux: XMP packet must be UTF-8"@))
        },
        None => None,
    }
}

/// A file with the metadata that there is, describing `image`.
pub open spec fn with_exif(plan: FilePlan, image: u32, exif: Option<Seq<u8>>) -> FilePlan {
    match exif {
        Some(p) => with_metadata(plan, image, ITEM_TYPE_EXIF, None, p),
        None => plan,
    }
}

/// A file with the metadata that there is, describing `image`.
pub open spec fn with_xmp(plan: FilePlan, image: u32, xmp: Option<Seq<u8>>) -> FilePlan {
    match xmp {
        Some(p) => with_metadata(plan, image, ITEM_TYPE_MIME, Some("application/rdf+xml"@), p),
        None => plan,
    }
}

/// Queue an Exif item. The container writes a zero offset word of its
/// own, so that only a body that starts with one can be written.
pub(crate) fn add_exif_item(w: &mut HeifWriter, image: u32, exif: &Option<Vec<u8>>) -> (r: Result<
    (),
    AvifError,
>)
    requires
        plan_of(*old(w)).items.len() < 0xffff_fffe,
    ensures
        match r {
            Ok(_) => exif_fault(opt_bytes(*exif)) is None && plan_of(*final(w)) == with_exif(
                plan_of(*old(w)),
                image,
                opt_bytes(*exif),
            ),
            Err(e) => exif_fault(opt_bytes(*exif)) == Some(e@),
        },
{
    match exif {
        Some(payload) => {
            if payload.len() >= 4 && payload[0] == 0 && payload[1] == 0 && payload[2] == 0
                && payload[3] == 0 {
                let tiff = slice_subrange(payload.as_slice(), 4, payload.len());
                proof {
                    assert(no_flags() + tiff@ =~= payload@);
                }
                let _id: u32 = w.add_exif(image, tiff);
                Ok(())
            } else {
                Err(
                    AvifError::unsupported(
                        "avif mux: Exif item body must start with a zero exif_tiff_header_offset word (the container writer prepends its own)",
                    ),
                )
            }
        },
        None => Ok(()),
    }
}

/// Queue an XMP item.
pub(crate) fn add_xmp_item(w: &mut HeifWriter, image: u32, xmp: &Option<Vec<u8>>) -> (r: Result<
    (),
    AvifError,
>)
    requires
        plan_of(*old(w)).items.len() < 0xffff_fffe,
    ensures
        match r {
            Ok(_) => xmp_fault(opt_bytes(*xmp)) is None && plan_of(*final(w)) == with_xmp(
                plan_of(*old(w)),
                image,
                opt_bytes(*xmp),
            ),
            Err(e) => xmp_fault(opt_bytes(*xmp)) == Some(e@),
        },
{
    match xmp {
        Some(payload) => match utf8_text(payload.as_slice()) {
            Some(text) => {
                proof {
                    decode_utf8_encode_utf8(payload@);
                }
                let _id: u32 = w.add_xmp(image, text);
                Ok(())
            },
            None => Err(AvifError::unsupported("avif mux: XMP packet must be UTF-8")),
        },
        None => Ok(()),
    }
}

/// Refuse metadata that cannot be queued.
pub(crate) fn check_metadata(exif: &Option<Vec<u8>>, xmp: &Option<Vec<u8>>) -> (r: Result<
    (),
    AvifError,
>)
    ensures
        match r {
            Ok(_) => exif_fault(opt_bytes(*exif)) is None && xmp_fault(opt_bytes(*xmp)) is None,
            Err(e) => exif_fault(opt_bytes(*exif)) == Some(e@) || (exif_fault(
                opt_bytes(*exif),
            ) is None && xmp_fault(opt_bytes(*xmp)) == Some(e@)),
        },
{
    match exif {
        Some(payload) => {
            if !(payload.len() >= 4 && payload[0] == 0 && payload[1] == 0 && payload[2] == 0
                && payload[3] == 0) {
                return Err(
                    AvifError::unsupported(
                        "avif mux: Exif item body must start with a zero exif_tiff_header_offset word (the container writer prepends its own)",
                    ),
                );
            }
        },
        None => {},
    }
    match xmp {
        Some(payload) => match utf8_text(payload.as_slice()) {
            Some(_) => {},
            None => {
                return Err(AvifError::unsupported("avif mux: XMP packet must be UTF-8"));
            },
        },
        None => {},
    }
    Ok(())
}

/// The fault of an item that did not get the id it was to have.
pub open spec fn id_fault(got: u32, want: u32, what: Seq<char>) -> Fault {
    Fault::Invalid(
        "avif mux: "@ + what + " got item id "@ + dec(got as nat) + ", expected "@ + dec(
            want as nat,
        ),
    )
}

/// Ids are given in the order in which items are queued, and a derived
/// image names its inputs before they are there.
pub(crate) fn expect_id(got: u32, want: u32, what: &str) -> (r: Result<(), AvifError>)
    ensures
        match r {
            Ok(_) => got == want,
            Err(e) => got != want && e@ == id_fault(got, want, what@),
        },
{
    if got != want {
        let mut s = "avif mux: ".to_string();
        s.append(what);
        s.append(" got item id ");
        push_dec(&mut s, got as u64);
        s.append(", expected ");
        push_dec(&mut s, want as u64);
        return Err(AvifError::InvalidData(s));
    }
    Ok(())
}

// ---------------------------------------------------------------------
// Files that grow

/// Whether a file is on its way to one that can be written, with ids up
/// to `ids` and this many properties so far.
pub open spec fn growing(plan: FilePlan, ids: nat, props: nat) -> bool {
    &&& plan.brands is Some
    &&& plan.items.len() <= ids < 0xffff_fffe
    &&& forall|i: int| 0 <= i < plan.items.len() ==> (#[trigger] plan.items[i]).complete()
    &&& forall|i: int|
        0 <= i < plan.references.len() ==> leads_to(#[trigger] plan.references[i], ids)
    &&& property_count(plan.items, plan.items.len()) == props
}

/// Whether a reference leads from and to ids up to `ids`.
pub open spec fn leads_to(e: IrefView, ids: nat) -> bool {
    &&& 1 <= e.from_id <= ids
    &&& e.reference_type != UUID
    &&& e.to_ids.len() <= 0xffff
    &&& forall|j: int| 0 <= j < e.to_ids.len() ==> 1 <= #[trigger] e.to_ids[j] <= ids
}

/// The first items count the same properties whatever follows them.
pub proof fn lemma_count_prefix(a: Seq<ItemPlan>, b: Seq<ItemPlan>, n: nat)
    requires
        n <= a.len(),
        n <= b.len(),
        forall|i: int| 0 <= i < n ==> a[i].properties == b[i].properties,
    ensures
        property_count(a, n) == property_count(b, n),
    decreases n,
{
    if n > 0 {
        lemma_count_prefix(a, b, (n - 1) as nat);
    }
}

/// One more item.
pub proof fn lemma_grow_item(plan: FilePlan, ids: nat, props: nat, item: ItemPlan)
    requires
        growing(plan, ids, props),
        plan.items.len() < ids,
        item.complete(),
    ensures
        growing(plan.with_item(item), ids, props + item.properties.len()),
{
    let next = plan.with_item(item);
    lemma_count_prefix(next.items, plan.items, plan.items.len());
    assert forall|i: int| 0 <= i < next.items.len() implies (
    #[trigger] next.items[i]).complete() by {
        if i < plan.items.len() {
            assert(next.items[i] == plan.items[i]);
        }
    }
}

/// One more reference.
pub proof fn lemma_grow_reference(
    plan: FilePlan,
    ids: nat,
    props: nat,
    t: BoxType,
    from_id: u32,
    to_ids: Seq<u32>,
)
    requires
        growing(plan, ids, props),
        leads_to(IrefView { reference_type: t, from_id, to_ids }, ids),
    ensures
        growing(plan.with_reference(t, from_id, to_ids), ids, props),
{
}

/// Room for more ids.
pub proof fn lemma_grow_ids(plan: FilePlan, ids: nat, more: nat, props: nat)
    requires
        growing(plan, ids, props),
        ids <= more < 0xffff_fffe,
    ensures
        growing(plan, more, props),
{
    assert forall|i: int| 0 <= i < plan.references.len() implies leads_to(
        #[trigger] plan.references[i],
        more,
    ) by {
        let e = plan.references[i];
        assert(leads_to(e, ids));
        assert forall|j: int| 0 <= j < e.to_ids.len() implies 1 <= #[trigger] e.to_ids[j] <= more by {
            assert(1 <= e.to_ids[j] <= ids);
        }
    }
}

/// A file with all its items and a primary item can be written.
pub proof fn lemma_grown(plan: FilePlan, ids: nat, props: nat, primary: u32)
    requires
        growing(plan, ids, props),
        plan.items.len() == ids,
        1 <= primary <= ids,
        plan.stored_count() <= 0xffff,
    ensures
        (FilePlan { primary: Some(primary), ..plan }).valid(),
{
    let next = FilePlan { primary: Some(primary), ..plan };
    assert forall|i: int| 0 <= i < next.references.len() implies next.resolves(
        #[trigger] next.references[i],
    ) by {
        let e = plan.references[i];
        assert(leads_to(e, ids));
        assert forall|j: int| 0 <= j < e.to_ids.len() implies next.holds(#[trigger] e.to_ids[j]) by {
            assert(1 <= e.to_ids[j] <= ids);
        }
    }
}

} // verus!
