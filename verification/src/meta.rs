//! The `meta` box: what a file says of its items.

use crate::box_parser::{
    box_at, full_box, lemma_box_bounds, parse_box_header, parse_full_box, payload_of, same_type,
    BoxType,
};
use crate::error::{outcome_list, outcome_view, views, AvifError, Fault};
use crate::groups::{groups_from, parse_grpl, EntityGroup, GroupView};
use crate::meta_parse::{
    hdlr_of, iinf_of, iloc_of, iprp_of, iref_of, parse_hdlr, parse_iinf, parse_iloc, parse_iprp,
    parse_iref, parse_pitm, pitm_of, AssociationView, IrefView, ItemInfoView, ItemLocationView,
};
use crate::props::{aux_kind, AuxKind, Property, PropertyView, AUXC};
use vstd::prelude::*;
use vstd::slice::slice_to_vec;

pub use crate::meta_parse::{
    IlocExtent, IrefEntry, ItemInfo, ItemLocation, ItemPropertyAssociation, PropertyAssociation,
    ITEM_TYPE_EXIF, ITEM_TYPE_IDEN, ITEM_TYPE_IOVL, ITEM_TYPE_MIME, ITEM_TYPE_SATO, ITEM_TYPE_TMAP,
    ITEM_TYPE_URI,
};

verus! {

/// `hdlr` — handler.
pub const HDLR: BoxType = [0x68, 0x64, 0x6c, 0x72];

/// `pitm` — primary item.
pub const PITM: BoxType = [0x70, 0x69, 0x74, 0x6d];

/// `iinf` — item information.
pub const IINF: BoxType = [0x69, 0x69, 0x6e, 0x66];

/// `iloc` — item locations.
pub const ILOC: BoxType = [0x69, 0x6c, 0x6f, 0x63];

/// `iprp` — item properties.
pub const IPRP: BoxType = [0x69, 0x70, 0x72, 0x70];

/// `iref` — item references.
pub const IREF: BoxType = [0x69, 0x72, 0x65, 0x66];

/// `grpl` — entity groups.
pub const GRPL: BoxType = [0x67, 0x72, 0x70, 0x6c];

/// `idat` — item data.
pub const IDAT: BoxType = [0x69, 0x64, 0x61, 0x74];

/// `prem` — a reference between an alpha plane and the image whose
/// colours it premultiplies.
pub const PREM: BoxType = [0x70, 0x72, 0x65, 0x6d];

/// `auxl` — a reference from an auxiliary image to its master.
pub const AUXL: BoxType = [0x61, 0x75, 0x78, 0x6c];

/// What the `meta` box holds.
#[derive(Clone, Debug)]
pub struct Meta {
    /// Handler type.
    pub handler: Option<BoxType>,
    /// Primary item.
    pub primary_item_id: Option<u32>,
    /// Items, in order.
    pub items: Vec<ItemInfo>,
    /// Item locations, in order.
    pub locations: Vec<ItemLocation>,
    /// Properties, in order.
    pub properties: Vec<Property>,
    /// Property lists, in order.
    pub associations: Vec<ItemPropertyAssociation>,
    /// References, in order.
    pub irefs: Vec<IrefEntry>,
    /// Payload of `grpl`, when there is one.
    pub grpl: Option<Vec<u8>>,
    /// Payload of `idat`, when there is one.
    pub idat: Option<Vec<u8>>,
}

/// A [`Meta`] as contracts speak of it.
#[verifier::ext_equal]
pub struct MetaView {
    /// Handler type.
    pub handler: Option<BoxType>,
    /// Primary item.
    pub primary_item_id: Option<u32>,
    /// Items, in order.
    pub items: Seq<ItemInfoView>,
    /// Item locations, in order.
    pub locations: Seq<ItemLocationView>,
    /// Properties, in order.
    pub properties: Seq<PropertyView>,
    /// Property lists, in order.
    pub associations: Seq<AssociationView>,
    /// References, in order.
    pub irefs: Seq<IrefView>,
    /// Payload of `grpl`.
    pub grpl: Option<Seq<u8>>,
    /// Payload of `idat`.
    pub idat: Option<Seq<u8>>,
}

/// The bytes of an optional buffer.
pub open spec fn opt_bytes(v: Option<Vec<u8>>) -> Option<Seq<u8>> {
    match v {
        Some(b) => Some(b@),
        None => None,
    }
}

impl View for Meta {
    type V = MetaView;

    open spec fn view(&self) -> MetaView {
        MetaView {
            handler: self.handler,
            primary_item_id: self.primary_item_id,
            items: views(self.items@),
            locations: views(self.locations@),
            properties: views(self.properties@),
            associations: views(self.associations@),
            irefs: views(self.irefs@),
            grpl: opt_bytes(self.grpl),
            idat: opt_bytes(self.idat),
        }
    }
}

/// A `meta` box that says nothing.
pub open spec fn empty_meta() -> MetaView {
    MetaView {
        handler: None,
        primary_item_id: None,
        items: Seq::empty(),
        locations: Seq::empty(),
        properties: Seq::empty(),
        associations: Seq::empty(),
        irefs: Seq::empty(),
        grpl: None,
        idat: None,
    }
}

impl Default for Meta {
    fn default() -> (r: Meta)
        ensures
            r@ == empty_meta(),
    {
        let r = Meta {
            handler: None,
            primary_item_id: None,
            items: Vec::new(),
            locations: Vec::new(),
            properties: Vec::new(),
            associations: Vec::new(),
            irefs: Vec::new(),
            grpl: None,
            idat: None,
        };
        proof {
            assert(r@ =~= empty_meta());
        }
        r
    }
}

/// What one child box adds to `m`. A later box of the same type takes
/// the place of an earlier one; a box of another type adds nothing.
pub open spec fn meta_step(m: MetaView, t: BoxType, p: Seq<u8>) -> Result<MetaView, Fault> {
    if t == HDLR {
        match hdlr_of(p) {
            Err(f) => Err(f),
            Ok(v) => Ok(MetaView { handler: Some(v), ..m }),
        }
    } else if t == PITM {
        match pitm_of(p) {
            Err(f) => Err(f),
            Ok(v) => Ok(MetaView { primary_item_id: Some(v), ..m }),
        }
    } else if t == IINF {
        match iinf_of(p) {
            Err(f) => Err(f),
            Ok(v) => Ok(MetaView { items: v, ..m }),
        }
    } else if t == ILOC {
        match iloc_of(p) {
            Err(f) => Err(f),
            Ok(v) => Ok(MetaView { locations: v, ..m }),
        }
    } else if t == IPRP {
        match iprp_of(p) {
            Err(f) => Err(f),
            Ok((v, a)) => Ok(MetaView { properties: v, associations: a, ..m }),
        }
    } else if t == IREF {
        match iref_of(p) {
            Err(f) => Err(f),
            Ok(v) => Ok(MetaView { irefs: v, ..m }),
        }
    } else if t == GRPL {
        Ok(MetaView { grpl: Some(p), ..m })
    } else if t == IDAT {
        Ok(MetaView { idat: Some(p), ..m })
    } else {
        Ok(m)
    }
}

/// What the child boxes packed in `s` from `at` on add to `m`.
pub open spec fn meta_from(s: Seq<u8>, at: int, m: MetaView) -> Result<MetaView, Fault>
    decreases s.len() - at,
{
    if at < 0 || at >= s.len() {
        Ok(m)
    } else {
        match box_at(s, at) {
            Err(f) => Err(f),
            Ok(b) => match meta_step(m, b.box_type, s.subrange(b.payload, b.end)) {
                Err(f) => Err(f),
                Ok(next) => if b.end <= at {
                    Ok(next)
                } else {
                    meta_from(s, b.end, next)
                },
            },
        }
    }
}

/// What a `meta` payload says.
pub open spec fn meta_of(s: Seq<u8>) -> Result<MetaView, Fault> {
    match full_box(s) {
        Err(f) => Err(f),
        Ok((_, _, b)) => meta_from(b, 0, empty_meta()),
    }
}

/// The view of what was found.
pub open spec fn opt_view<T: View>(r: Option<&T>) -> Option<T::V> {
    match r {
        Some(x) => Some(x@),
        None => None,
    }
}

/// The first item with this id, from place `i` on.
pub open spec fn item_with(s: Seq<ItemInfoView>, id: u32, i: int) -> Option<ItemInfoView>
    decreases s.len() - i,
{
    if i < 0 || i >= s.len() {
        None
    } else if s[i].id == id {
        Some(s[i])
    } else {
        item_with(s, id, i + 1)
    }
}

/// The first location with this id, from place `i` on.
pub open spec fn location_with(s: Seq<ItemLocationView>, id: u32, i: int) -> Option<
    ItemLocationView,
>
    decreases s.len() - i,
{
    if i < 0 || i >= s.len() {
        None
    } else if s[i].id == id {
        Some(s[i])
    } else {
        location_with(s, id, i + 1)
    }
}

/// The first property list of this item, from place `i` on.
pub open spec fn association_with(s: Seq<AssociationView>, id: u32, i: int) -> Option<
    AssociationView,
>
    decreases s.len() - i,
{
    if i < 0 || i >= s.len() {
        None
    } else if s[i].item_id == id {
        Some(s[i])
    } else {
        association_with(s, id, i + 1)
    }
}

/// The targets of the first reference of type `t` from `from_id`, from
/// place `i` on; none when there is no such reference.
pub open spec fn targets_with(s: Seq<IrefView>, t: BoxType, from_id: u32, i: int) -> Seq<u32>
    decreases s.len() - i,
{
    if i < 0 || i >= s.len() {
        Seq::empty()
    } else if s[i].reference_type == t && s[i].from_id == from_id {
        s[i].to_ids
    } else {
        targets_with(s, t, from_id, i + 1)
    }
}

/// The targets of the first `n` references, of those of type `t` from
/// `from_id`.
pub open spec fn all_targets(s: Seq<IrefView>, t: BoxType, from_id: u32, n: nat) -> Seq<u32>
    decreases n,
{
    if n == 0 {
        Seq::empty()
    } else {
        let before = all_targets(s, t, from_id, (n - 1) as nat);
        if s[n - 1].reference_type == t && s[n - 1].from_id == from_id {
            before + s[n - 1].to_ids
        } else {
            before
        }
    }
}

/// The source of the first reference of type `t` that leads to `to_id`,
/// from place `i` on.
pub open spec fn source_with(s: Seq<IrefView>, t: BoxType, to_id: u32, i: int) -> Option<u32>
    decreases s.len() - i,
{
    if i < 0 || i >= s.len() {
        None
    } else if s[i].reference_type == t && s[i].to_ids.contains(to_id) {
        Some(s[i].from_id)
    } else {
        source_with(s, t, to_id, i + 1)
    }
}

/// The sources of the first `n` references, of those of type `t` that
/// lead to `to_id`.
pub open spec fn all_sources(s: Seq<IrefView>, t: BoxType, to_id: u32, n: nat) -> Seq<u32>
    decreases n,
{
    if n == 0 {
        Seq::empty()
    } else {
        let before = all_sources(s, t, to_id, (n - 1) as nat);
        if s[n - 1].reference_type == t && s[n - 1].to_ids.contains(to_id) {
            before.push(s[n - 1].from_id)
        } else {
            before
        }
    }
}

/// The first property of this kind among the entries from place `i` on.
/// An entry that points outside the container is passed over.
pub open spec fn property_with(
    entries: Seq<PropertyAssociation>,
    props: Seq<PropertyView>,
    kind: BoxType,
    i: int,
) -> Option<PropertyView>
    decreases entries.len() - i,
{
    if i < 0 || i >= entries.len() {
        None
    } else if entries[i].index < props.len() && props[entries[i].index as int].kind() == kind {
        Some(props[entries[i].index as int])
    } else {
        property_with(entries, props, kind, i + 1)
    }
}

/// The types of the essential properties among the first `n` entries
/// that this crate does not interpret. An entry that points outside the
/// container counts, with a type of zeros.
pub open spec fn unknown_essential(
    entries: Seq<PropertyAssociation>,
    props: Seq<PropertyView>,
    n: nat,
) -> Seq<BoxType>
    decreases n,
{
    if n == 0 {
        Seq::empty()
    } else {
        let before = unknown_essential(entries, props, (n - 1) as nat);
        let e = entries[n - 1];
        if !e.essential {
            before
        } else if e.index >= props.len() {
            before.push([0u8, 0u8, 0u8, 0u8])
        } else {
            match props[e.index as int] {
                PropertyView::Other(t, _) => before.push(t),
                _ => before,
            }
        }
    }
}

/// The ids of the items of type `t` among the first `n`.
pub open spec fn ids_of_type(s: Seq<ItemInfoView>, t: BoxType, n: nat) -> Seq<u32>
    decreases n,
{
    if n == 0 {
        Seq::empty()
    } else {
        let before = ids_of_type(s, t, (n - 1) as nat);
        if s[n - 1].item_type == t {
            before.push(s[n - 1].id)
        } else {
            before
        }
    }
}

/// Of the first `n` sources, those with an auxiliary type, each with its
/// kind.
pub open spec fn aux_of(m: MetaView, sources: Seq<u32>, n: nat) -> Seq<(u32, AuxKind)>
    decreases n,
{
    if n == 0 {
        Seq::empty()
    } else {
        let before = aux_of(m, sources, (n - 1) as nat);
        match m.property(sources[n - 1], AUXC) {
            Some(PropertyView::AuxC(a)) => before.push((sources[n - 1], aux_kind(a.aux_type))),
            _ => before,
        }
    }
}

/// Whether one of the first `n` references is a `prem` reference from
/// `from_id` to one of its own alpha planes.
pub open spec fn premultiplies(m: MetaView, from_id: u32, n: nat) -> bool {
    exists|i: int, j: int|
        #![trigger m.irefs[i].to_ids[j]]
        0 <= i < n && m.irefs[i].reference_type == PREM && m.irefs[i].from_id == from_id && 0 <= j
            < m.irefs[i].to_ids.len() && m.is_alpha_of(m.irefs[i].to_ids[j], from_id)
}

impl MetaView {
    /// The item with this id.
    pub open spec fn item(self, id: u32) -> Option<ItemInfoView> {
        item_with(self.items, id, 0)
    }

    /// The location of this item.
    pub open spec fn location(self, id: u32) -> Option<ItemLocationView> {
        location_with(self.locations, id, 0)
    }

    /// The property list of this item.
    pub open spec fn association(self, id: u32) -> Option<AssociationView> {
        association_with(self.associations, id, 0)
    }

    /// The first property of this kind that this item has.
    pub open spec fn property(self, item_id: u32, kind: BoxType) -> Option<PropertyView> {
        match self.association(item_id) {
            None => None,
            Some(a) => property_with(a.entries, self.properties, kind, 0),
        }
    }

    /// The targets of the first reference of type `t` from `from_id`.
    pub open spec fn targets(self, t: BoxType, from_id: u32) -> Seq<u32> {
        targets_with(self.irefs, t, from_id, 0)
    }

    /// The targets of all references of type `t` from `from_id`.
    pub open spec fn targets_of(self, t: BoxType, from_id: u32) -> Seq<u32> {
        all_targets(self.irefs, t, from_id, self.irefs.len())
    }

    /// The sources of all references of type `t` that lead to `to_id`.
    pub open spec fn sources(self, t: BoxType, to_id: u32) -> Seq<u32> {
        all_sources(self.irefs, t, to_id, self.irefs.len())
    }

    /// The essential properties of this item that this crate does not
    /// interpret, by type.
    pub open spec fn unsupported(self, item_id: u32) -> Seq<BoxType> {
        match self.association(item_id) {
            None => Seq::empty(),
            Some(a) => unknown_essential(a.entries, self.properties, a.entries.len()),
        }
    }

    /// The ids of the items of type `t`.
    pub open spec fn ids_of(self, t: BoxType) -> Seq<u32> {
        ids_of_type(self.items, t, self.items.len())
    }

    /// The auxiliary items of this item, each with its kind.
    pub open spec fn aux_items(self, to_id: u32) -> Seq<(u32, AuxKind)> {
        aux_of(self, self.sources(AUXL, to_id), self.sources(AUXL, to_id).len())
    }

    /// Whether `aux_id` is an alpha plane of `to_id`.
    pub open spec fn is_alpha_of(self, aux_id: u32, to_id: u32) -> bool {
        self.aux_items(to_id).contains((aux_id, AuxKind::Alpha))
    }

    /// Whether the colours of this item are premultiplied by its alpha.
    pub open spec fn premultiplied(self, to_id: u32) -> bool {
        source_with(self.irefs, PREM, to_id, 0) is Some || premultiplies(
            self,
            to_id,
            self.irefs.len(),
        )
    }

    /// The entity groups.
    pub open spec fn entity_groups(self) -> Result<Seq<GroupView>, Fault> {
        match self.grpl {
            None => Ok(Seq::empty()),
            Some(b) => groups_from(b, 0),
        }
    }
}

/// Whether `v` holds `id`.
pub fn contains_id(v: &Vec<u32>, id: u32) -> (r: bool)
    ensures
        r == v@.contains(id),
{
    let mut i: usize = 0;
    while i < v.len()
        invariant
            i <= v.len(),
            forall|j: int| 0 <= j < i ==> v@[j] != id,
        decreases v.len() - i,
    {
        if v[i] == id {
            return true;
        }
        i = i + 1;
    }
    false
}

/// A copy of a list of ids.
pub fn copy_ids(v: &Vec<u32>) -> (r: Vec<u32>)
    ensures
        r@ == v@,
{
    slice_to_vec(v.as_slice())
}

fn step(m: &mut Meta, t: &BoxType, p: &[u8]) -> (r: Result<(), AvifError>)
    ensures
        match r {
            Ok(_) => meta_step(old(m)@, *t, p@) == Ok::<MetaView, Fault>(final(m)@),
            Err(e) => meta_step(old(m)@, *t, p@) == Err::<MetaView, Fault>(e@),
        },
{
    if same_type(t, &HDLR) {
        m.handler = Some(parse_hdlr(p)?);
    } else if same_type(t, &PITM) {
        m.primary_item_id = Some(parse_pitm(p)?);
    } else if same_type(t, &IINF) {
        m.items = parse_iinf(p)?;
    } else if same_type(t, &ILOC) {
        m.locations = parse_iloc(p)?;
    } else if same_type(t, &IPRP) {
        let (properties, associations) = parse_iprp(p)?;
        m.properties = properties;
        m.associations = associations;
    } else if same_type(t, &IREF) {
        m.irefs = parse_iref(p)?;
    } else if same_type(t, &GRPL) {
        m.grpl = Some(slice_to_vec(p));
    } else if same_type(t, &IDAT) {
        m.idat = Some(slice_to_vec(p));
    }
    Ok(())
}

impl Meta {
    /// Parse the payload of the top-level `meta` box, which starts with
    /// its version and flags.
    pub fn parse(meta_payload: &[u8]) -> (r: Result<Meta, AvifError>)
        ensures
            outcome_view(r) == meta_of(meta_payload@),
    {
        let (_version, _flags, body) = parse_full_box(meta_payload)?;
        let mut me = Meta::default();
        let mut at: usize = 0;
        while at < body.len()
            invariant
                at <= body.len(),
                meta_from(body@, at as int, me@) == meta_of(meta_payload@),
            decreases body.len() - at,
        {
            let h = parse_box_header(body, at)?;
            proof {
                lemma_box_bounds(body@, at as int);
            }
            step(&mut me, &h.box_type, payload_of(body, &h))?;
            at = h.end();
        }
        Ok(me)
    }

    /// The targets of the first reference of this type from `from_id`;
    /// empty when there is none.
    pub fn iref_targets(&self, reference_type: &BoxType, from_id: u32) -> (r: Vec<u32>)
        ensures
            r@ == self@.targets(*reference_type, from_id),
    {
        let mut i: usize = 0;
        while i < self.irefs.len()
            invariant
                i <= self.irefs@.len(),
                targets_with(self@.irefs, *reference_type, from_id, i as int) == self@.targets(
                    *reference_type,
                    from_id,
                ),
            decreases self.irefs@.len() - i,
        {
            let e = &self.irefs[i];
            proof {
                assert(self@.irefs[i as int] == self.irefs@[i as int]@);
            }
            if same_type(&e.reference_type, reference_type) && e.from_id == from_id {
                return copy_ids(&e.to_ids);
            }
            i = i + 1;
        }
        Vec::new()
    }

    /// The targets of every reference of this type from `from_id`, in
    /// order.
    pub fn iref_targets_of(&self, reference_type: &BoxType, from_id: u32) -> (r: Vec<u32>)
        ensures
            r@ == self@.targets_of(*reference_type, from_id),
    {
        let mut out: Vec<u32> = Vec::new();
        let mut i: usize = 0;
        while i < self.irefs.len()
            invariant
                i <= self.irefs@.len(),
                out@ == all_targets(self@.irefs, *reference_type, from_id, i as nat),
            decreases self.irefs@.len() - i,
        {
            let e = &self.irefs[i];
            proof {
                assert(self@.irefs[i as int] == self.irefs@[i as int]@);
            }
            if same_type(&e.reference_type, reference_type) && e.from_id == from_id {
                let mut more = copy_ids(&e.to_ids);
                out.append(&mut more);
            }
            i = i + 1;
        }
        out
    }

    /// The source of the first reference of this type that leads to
    /// `to_id`.
    pub fn iref_source_of(&self, reference_type: &BoxType, to_id: u32) -> (r: Option<u32>)
        ensures
            r == source_with(self@.irefs, *reference_type, to_id, 0),
    {
        let mut i: usize = 0;
        while i < self.irefs.len()
            invariant
                i <= self.irefs@.len(),
                source_with(self@.irefs, *reference_type, to_id, i as int) == source_with(
                    self@.irefs,
                    *reference_type,
                    to_id,
                    0,
                ),
            decreases self.irefs@.len() - i,
        {
            let e = &self.irefs[i];
            proof {
                assert(self@.irefs[i as int] == self.irefs@[i as int]@);
            }
            if same_type(&e.reference_type, reference_type) && contains_id(&e.to_ids, to_id) {
                return Some(e.from_id);
            }
            i = i + 1;
        }
        None
    }

    /// The sources of every reference of this type that leads to
    /// `to_id`, in order.
    pub fn iref_sources_of(&self, reference_type: &BoxType, to_id: u32) -> (r: Vec<u32>)
        ensures
            r@ == self@.sources(*reference_type, to_id),
    {
        let mut out: Vec<u32> = Vec::new();
        let mut i: usize = 0;
        while i < self.irefs.len()
            invariant
                i <= self.irefs@.len(),
                out@ == all_sources(self@.irefs, *reference_type, to_id, i as nat),
            decreases self.irefs@.len() - i,
        {
            let e = &self.irefs[i];
            proof {
                assert(self@.irefs[i as int] == self.irefs@[i as int]@);
            }
            if same_type(&e.reference_type, reference_type) && contains_id(&e.to_ids, to_id) {
                out.push(e.from_id);
            }
            i = i + 1;
        }
        out
    }

    /// Whether the colours of `to_id` are premultiplied by its alpha: a
    /// `prem` reference leads to it, or leads from it to one of its own
    /// alpha planes.
    pub fn is_alpha_premultiplied_for(&self, to_id: u32) -> (r: bool)
        ensures
            r == self@.premultiplied(to_id),
    {
        if self.iref_source_of(&PREM, to_id).is_some() {
            return true;
        }
        let aux = self.aux_items_for(to_id);
        let mut i: usize = 0;
        while i < self.irefs.len()
            invariant
                i <= self.irefs@.len(),
                aux@ == self@.aux_items(to_id),
                source_with(self@.irefs, PREM, to_id, 0) is None,
                !premultiplies(self@, to_id, i as nat),
            decreases self.irefs@.len() - i,
        {
            let e = &self.irefs[i];
            proof {
                assert(self@.irefs[i as int] == self.irefs@[i as int]@);
            }
            if same_type(&e.reference_type, &PREM) && e.from_id == to_id {
                let mut j: usize = 0;
                while j < e.to_ids.len()
                    invariant
                        i < self.irefs@.len(),
                        j <= e.to_ids@.len(),
                        *e == self.irefs@[i as int],
                        self@.irefs[i as int] == self.irefs@[i as int]@,
                        e.reference_type == PREM,
                        e.from_id == to_id,
                        aux@ == self@.aux_items(to_id),
                        forall|k: int|
                            0 <= k < j ==> !self@.is_alpha_of(#[trigger] e.to_ids@[k], to_id),
                    decreases e.to_ids@.len() - j,
                {
                    if has_alpha(&aux, e.to_ids[j]) {
                        proof {
                            let hit = self@.irefs[i as int].to_ids[j as int];
                            assert(self@.is_alpha_of(hit, to_id));
                        }
                        return true;
                    }
                    j = j + 1;
                }
            }
            i = i + 1;
        }
        false
    }

    /// The item with this id.
    pub fn item_by_id(&self, id: u32) -> (r: Option<&ItemInfo>)
        ensures
            opt_view(r) == self@.item(id),
    {
        let mut i: usize = 0;
        while i < self.items.len()
            invariant
                i <= self.items@.len(),
                item_with(self@.items, id, i as int) == self@.item(id),
            decreases self.items@.len() - i,
        {
            proof {
                assert(self@.items[i as int] == self.items@[i as int]@);
            }
            if self.items[i].id == id {
                return Some(&self.items[i]);
            }
            i = i + 1;
        }
        None
    }

    /// The location of this item.
    pub fn location_by_id(&self, id: u32) -> (r: Option<&ItemLocation>)
        ensures
            opt_view(r) == self@.location(id),
    {
        let mut i: usize = 0;
        while i < self.locations.len()
            invariant
                i <= self.locations@.len(),
                location_with(self@.locations, id, i as int) == self@.location(id),
            decreases self.locations@.len() - i,
        {
            proof {
                assert(self@.locations[i as int] == self.locations@[i as int]@);
            }
            if self.locations[i].id == id {
                return Some(&self.locations[i]);
            }
            i = i + 1;
        }
        None
    }

    /// The property list of this item.
    pub fn assoc_by_id(&self, id: u32) -> (r: Option<&ItemPropertyAssociation>)
        ensures
            opt_view(r) == self@.association(id),
    {
        let mut i: usize = 0;
        while i < self.associations.len()
            invariant
                i <= self.associations@.len(),
                association_with(self@.associations, id, i as int) == self@.association(id),
            decreases self.associations@.len() - i,
        {
            proof {
                assert(self@.associations[i as int] == self.associations@[i as int]@);
            }
            if self.associations[i].item_id == id {
                return Some(&self.associations[i]);
            }
            i = i + 1;
        }
        None
    }

    /// The first property of this kind that this item has. An entry that
    /// points outside the container is passed over.
    pub fn property_for(&self, item_id: u32, kind: &BoxType) -> (r: Option<&Property>)
        ensures
            opt_view(r) == self@.property(item_id, *kind),
    {
        let assoc = match self.assoc_by_id(item_id) {
            None => {
                return None;
            },
            Some(a) => a,
        };
        let mut i: usize = 0;
        while i < assoc.entries.len()
            invariant
                i <= assoc.entries@.len(),
                self@.property(item_id, *kind) == property_with(
                    assoc.entries@,
                    self@.properties,
                    *kind,
                    i as int,
                ),
            decreases assoc.entries@.len() - i,
        {
            let place: usize = assoc.entries[i].index as usize;
            if place < self.properties.len() {
                let p = &self.properties[place];
                proof {
                    assert(self@.properties[place as int] == self.properties@[place as int]@);
                }
                if same_type(&p.kind(), kind) {
                    return Some(p);
                }
            }
            i = i + 1;
        }
        None
    }

    /// The types of the essential properties of this item that this
    /// crate does not interpret. An item with any such property is not
    /// to be processed.
    pub fn unsupported_essential_properties(&self, item_id: u32) -> (r: Vec<BoxType>)
        ensures
            r@ == self@.unsupported(item_id),
    {
        let mut out: Vec<BoxType> = Vec::new();
        let assoc = match self.assoc_by_id(item_id) {
            None => {
                return out;
            },
            Some(a) => a,
        };
        let mut i: usize = 0;
        while i < assoc.entries.len()
            invariant
                i <= assoc.entries@.len(),
                out@ == unknown_essential(assoc.entries@, self@.properties, i as nat),
            decreases assoc.entries@.len() - i,
        {
            let e = assoc.entries[i];
            let place: usize = e.index as usize;
            if e.essential {
                if place >= self.properties.len() {
                    out.push([0u8, 0u8, 0u8, 0u8]);
                } else {
                    proof {
                        assert(self@.properties[place as int] == self.properties@[place as int]@);
                    }
                    match &self.properties[place] {
                        Property::Other(t, _) => {
                            out.push(*t);
                        },
                        _ => {},
                    }
                }
            }
            i = i + 1;
        }
        out
    }

    /// Whether this item has an essential property that this crate does
    /// not interpret.
    pub fn has_unsupported_essential_property(&self, item_id: u32) -> (r: bool)
        ensures
            r == (self@.unsupported(item_id).len() > 0),
    {
        self.unsupported_essential_properties(item_id).len() > 0
    }

    /// The entity groups; none when there is no `grpl`.
    pub fn groups(&self) -> (r: Result<Vec<EntityGroup>, AvifError>)
        ensures
            outcome_list(r) == self@.entity_groups(),
    {
        match &self.grpl {
            None => {
                let none: Vec<EntityGroup> = Vec::new();
                proof {
                    assert(views(none@) =~= Seq::<GroupView>::empty());
                }
                Ok(none)
            },
            Some(bytes) => parse_grpl(bytes.as_slice()),
        }
    }

    /// The auxiliary items of `to_id`, each with its kind. An item
    /// without an auxiliary type is left out.
    pub fn aux_items_for(&self, to_id: u32) -> (r: Vec<(u32, AuxKind)>)
        ensures
            r@ == self@.aux_items(to_id),
    {
        let sources = self.iref_sources_of(&AUXL, to_id);
        let mut out: Vec<(u32, AuxKind)> = Vec::new();
        let mut i: usize = 0;
        while i < sources.len()
            invariant
                i <= sources@.len(),
                sources@ == self@.sources(AUXL, to_id),
                out@ == aux_of(self@, sources@, i as nat),
            decreases sources@.len() - i,
        {
            match self.property_for(sources[i], &AUXC) {
                Some(Property::AuxC(aux)) => {
                    out.push((sources[i], aux.kind()));
                },
                _ => {},
            }
            i = i + 1;
        }
        out
    }

    /// The ids of the items of this type, in order.
    pub fn item_ids_of_type(&self, target: &BoxType) -> (r: Vec<u32>)
        ensures
            r@ == self@.ids_of(*target),
    {
        let mut out: Vec<u32> = Vec::new();
        let mut i: usize = 0;
        while i < self.items.len()
            invariant
                i <= self.items@.len(),
                out@ == ids_of_type(self@.items, *target, i as nat),
            decreases self.items@.len() - i,
        {
            proof {
                assert(self@.items[i as int] == self.items@[i as int]@);
            }
            if same_type(&self.items[i].item_type, target) {
                out.push(self.items[i].id);
            }
            i = i + 1;
        }
        out
    }
}

/// Whether `id` is listed as an alpha plane.
fn has_alpha(aux: &Vec<(u32, AuxKind)>, id: u32) -> (r: bool)
    ensures
        r == aux@.contains((id, AuxKind::Alpha)),
{
    let mut i: usize = 0;
    while i < aux.len()
        invariant
            i <= aux@.len(),
            forall|j: int| 0 <= j < i ==> aux@[j] != (id, AuxKind::Alpha),
        decreases aux@.len() - i,
    {
        if aux[i].0 == id && aux[i].1 == AuxKind::Alpha {
            return true;
        }
        i = i + 1;
    }
    false
}

/// How many of the first `n` references are of type `t` and start from
/// `from_id`.
pub open spec fn references_of(s: Seq<IrefView>, t: BoxType, from_id: u32, n: nat) -> nat
    decreases n,
{
    if n == 0 {
        0
    } else {
        references_of(s, t, from_id, (n - 1) as nat) + if s[n - 1].reference_type == t && s[n
            - 1].from_id == from_id {
            1nat
        } else {
            0nat
        }
    }
}

/// Count the references of type `t` that start from `from_id`.
pub fn count_references(meta: &Meta, t: &BoxType, from_id: u32) -> (r: usize)
    ensures
        r == references_of(meta@.irefs, *t, from_id, meta@.irefs.len()),
{
    let mut n: usize = 0;
    let mut i: usize = 0;
    while i < meta.irefs.len()
        invariant
            i <= meta.irefs@.len(),
            n <= i,
            n == references_of(meta@.irefs, *t, from_id, i as nat),
        decreases meta.irefs@.len() - i,
    {
        proof {
            assert(meta@.irefs[i as int] == meta.irefs@[i as int]@);
        }
        if same_type(&meta.irefs[i].reference_type, t) && meta.irefs[i].from_id == from_id {
            n = n + 1;
        }
        i = i + 1;
    }
    n
}

/// Whether an extent of this location has bytes.
pub open spec fn has_bytes(l: ItemLocationView) -> bool {
    exists|i: int| 0 <= i < l.extents.len() && l.extents[i].length > 0
}

fn any_bytes(l: &ItemLocation) -> (r: bool)
    ensures
        r == has_bytes(l@),
{
    let mut i: usize = 0;
    while i < l.extents.len()
        invariant
            i <= l.extents@.len(),
            forall|j: int| 0 <= j < i ==> l.extents@[j].length == 0,
        decreases l.extents@.len() - i,
    {
        if l.extents[i].length > 0 {
            proof {
                assert(l@.extents[i as int].length > 0);
            }
            return true;
        }
        i = i + 1;
    }
    false
}

/// Whether the item has a body: an extent with bytes.
pub open spec fn item_has_body(m: MetaView, id: u32) -> bool {
    match m.location(id) {
        None => false,
        Some(l) => has_bytes(l),
    }
}

/// Whether the item `id` has a body.
pub fn has_body(meta: &Meta, id: u32) -> (r: bool)
    ensures
        r == item_has_body(meta@, id),
{
    match meta.location_by_id(id) {
        None => false,
        Some(l) => any_bytes(l),
    }
}

} // verus!
