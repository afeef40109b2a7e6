//! What the questions put to a `meta` box are answered, over the lists that
//! it holds: its items, locations, property lists and references.

use crate::box_parser::BoxType;
use crate::meta::{
    all_sources, all_targets, association_with, aux_of, ids_of_type, item_with, location_with,
    property_with, references_of, source_with, targets_with, unknown_essential, MetaView,
};
use crate::meta_parse::{AssociationView, ItemInfoView, ItemLocationView, PropertyAssociation};
use crate::props::{aux_kind, AuxKind, PropertyView};
use vstd::prelude::*;

verus! {

// ---------------------------------------------------------------------
// First and all

/// Whether `i` is the first place below `n` that is kept.
pub open spec fn is_first(n: int, keep: spec_fn(int) -> bool, i: int) -> bool {
    &&& 0 <= i < n
    &&& keep(i)
    &&& forall|j: int| 0 <= j < i ==> !#[trigger] keep(j)
}

/// Whether `out` is what stands at the first place below `n` that is kept,
/// or absent where none is.
pub open spec fn first_kept<A>(
    n: int,
    keep: spec_fn(int) -> bool,
    value: spec_fn(int) -> A,
    out: Option<A>,
) -> bool {
    match out {
        Some(v) => exists|i: int| #[trigger] is_first(n, keep, i) && v == value(i),
        None => forall|j: int| 0 <= j < n ==> !#[trigger] keep(j),
    }
}

/// Whether `at` lists, in order and each once, the places below `n` that
/// are kept.
pub open spec fn picks(n: int, keep: spec_fn(int) -> bool, at: Seq<int>) -> bool {
    &&& forall|k: int| 0 <= k < at.len() ==> 0 <= #[trigger] at[k] < n && keep(at[k])
    &&& forall|a: int, b: int| 0 <= a < b < at.len() ==> at[a] < at[b]
    &&& forall|i: int| 0 <= i < n && #[trigger] keep(i) ==> at.contains(i)
}

/// Whether `out` is what stands at the places below `n` that are kept, in
/// order.
pub open spec fn all_kept<A>(
    n: int,
    keep: spec_fn(int) -> bool,
    value: spec_fn(int) -> A,
    out: Seq<A>,
) -> bool {
    exists|at: Seq<int>| #[trigger]
        picks(n, keep, at) && at.len() == out.len() && forall|k: int|
            0 <= k < out.len() ==> #[trigger] out[k] == value(at[k])
}

/// Nothing is kept below 0.
pub proof fn lemma_all_none<A>(keep: spec_fn(int) -> bool, value: spec_fn(int) -> A)
    ensures
        all_kept(0, keep, value, Seq::empty()),
{
    assert(picks(0, keep, Seq::empty()));
}

/// One more place.
pub proof fn lemma_all_next<A>(
    n: int,
    keep: spec_fn(int) -> bool,
    value: spec_fn(int) -> A,
    out: Seq<A>,
)
    requires
        0 <= n,
        all_kept(n, keep, value, out),
    ensures
        keep(n) ==> all_kept(n + 1, keep, value, out.push(value(n))),
        !keep(n) ==> all_kept(n + 1, keep, value, out),
{
    let at = choose|at: Seq<int>| #[trigger]
        picks(n, keep, at) && at.len() == out.len() && forall|k: int|
            0 <= k < out.len() ==> #[trigger] out[k] == value(at[k]);
    if keep(n) {
        let next = at.push(n);
        assert forall|i: int| 0 <= i < n + 1 && #[trigger] keep(i) implies next.contains(i) by {
            if i < n {
                assert(at.contains(i));
                let k = choose|k: int| 0 <= k < at.len() && at[k] == i;
                assert(next[k] == i);
            } else {
                assert(next[at.len() as int] == n);
            }
        }
        assert(picks(n + 1, keep, next));
        let more = out.push(value(n));
        assert forall|k: int| 0 <= k < more.len() implies #[trigger] more[k] == value(next[k]) by {
            if k < out.len() {
                assert(out[k] == value(at[k]));
            }
        }
    } else {
        assert forall|i: int| 0 <= i < n + 1 && #[trigger] keep(i) implies at.contains(i) by {
            assert(i < n);
        }
        assert(picks(n + 1, keep, at));
    }
}

/// What is listed is what stands at a place that is kept.
pub proof fn law_all_kept_are_listed<A>(
    n: int,
    keep: spec_fn(int) -> bool,
    value: spec_fn(int) -> A,
    out: Seq<A>,
)
    requires
        all_kept(n, keep, value, out),
    ensures
        forall|v: A| #[trigger]
            out.contains(v) <==> exists|i: int| 0 <= i < n && #[trigger] keep(i) && value(i) == v,
{
    let at = choose|at: Seq<int>| #[trigger]
        picks(n, keep, at) && at.len() == out.len() && forall|k: int|
            0 <= k < out.len() ==> #[trigger] out[k] == value(at[k]);
    assert forall|v: A| #[trigger] out.contains(v) <==> exists|i: int|
        0 <= i < n && #[trigger] keep(i) && value(i) == v by {
        if out.contains(v) {
            let k = choose|k: int| 0 <= k < out.len() && out[k] == v;
            let i = at[k];
            assert(keep(i) && value(i) == v);
        }
        if exists|i: int| 0 <= i < n && #[trigger] keep(i) && value(i) == v {
            let i = choose|i: int| 0 <= i < n && #[trigger] keep(i) && value(i) == v;
            let k = choose|k: int| 0 <= k < at.len() && at[k] == i;
            assert(out[k] == v);
        }
    }
}

/// There is one such list.
pub proof fn law_all_kept_is_one_list<A>(
    n: int,
    keep: spec_fn(int) -> bool,
    value: spec_fn(int) -> A,
    a: Seq<A>,
    b: Seq<A>,
)
    requires
        0 <= n,
        all_kept(n, keep, value, a),
        all_kept(n, keep, value, b),
    ensures
        a == b,
{
    let p = choose|at: Seq<int>| #[trigger]
        picks(n, keep, at) && at.len() == a.len() && forall|k: int|
            0 <= k < a.len() ==> #[trigger] a[k] == value(at[k]);
    let q = choose|at: Seq<int>| #[trigger]
        picks(n, keep, at) && at.len() == b.len() && forall|k: int|
            0 <= k < b.len() ==> #[trigger] b[k] == value(at[k]);
    lemma_one_pick(n, keep, p, q);
    assert(a =~= b);
}

proof fn lemma_one_pick(n: int, keep: spec_fn(int) -> bool, p: Seq<int>, q: Seq<int>)
    requires
        0 <= n,
        picks(n, keep, p),
        picks(n, keep, q),
    ensures
        p == q,
    decreases p.len(),
{
    if p.len() == 0 {
        if q.len() > 0 {
            assert(keep(q[0]));
            assert(p.contains(q[0]));
        }
        assert(p =~= q);
    } else {
        let last = p.last();
        assert(keep(last));
        assert(q.contains(last));
        assert(keep(q.last()));
        assert(p.contains(q.last()));
        assert(q.last() == last);
        assert forall|i: int| 0 <= i < last && #[trigger] keep(i) implies p.drop_last().contains(
            i,
        ) by {
            let k = choose|k: int| 0 <= k < p.len() && p[k] == i;
            assert(p.drop_last()[k] == i);
        }
        assert forall|i: int| 0 <= i < last && #[trigger] keep(i) implies q.drop_last().contains(
            i,
        ) by {
            let k = choose|k: int| 0 <= k < q.len() && q[k] == i;
            assert(q.drop_last()[k] == i);
        }
        lemma_one_pick(last, keep, p.drop_last(), q.drop_last());
        assert(p =~= p.drop_last().push(last));
        assert(q =~= q.drop_last().push(last));
    }
}

// ---------------------------------------------------------------------
// Items, locations and property lists

proof fn lemma_item(s: Seq<ItemInfoView>, id: u32, i: int)
    requires
        0 <= i <= s.len(),
        forall|j: int| 0 <= j < i ==> (#[trigger] s[j]).id != id,
    ensures
        first_kept(
            s.len() as int,
            |j: int| s[j].id == id,
            |j: int| s[j],
            item_with(s, id, i),
        ),
    decreases s.len() - i,
{
    let keep = |j: int| s[j].id == id;
    if i < s.len() {
        if s[i].id == id {
            assert(is_first(s.len() as int, keep, i));
        } else {
            lemma_item(s, id, i + 1);
        }
    }
}

proof fn lemma_location(s: Seq<ItemLocationView>, id: u32, i: int)
    requires
        0 <= i <= s.len(),
        forall|j: int| 0 <= j < i ==> (#[trigger] s[j]).id != id,
    ensures
        first_kept(
            s.len() as int,
            |j: int| s[j].id == id,
            |j: int| s[j],
            location_with(s, id, i),
        ),
    decreases s.len() - i,
{
    let keep = |j: int| s[j].id == id;
    if i < s.len() {
        if s[i].id == id {
            assert(is_first(s.len() as int, keep, i));
        } else {
            lemma_location(s, id, i + 1);
        }
    }
}

proof fn lemma_association(s: Seq<AssociationView>, id: u32, i: int)
    requires
        0 <= i <= s.len(),
        forall|j: int| 0 <= j < i ==> (#[trigger] s[j]).item_id != id,
    ensures
        first_kept(
            s.len() as int,
            |j: int| s[j].item_id == id,
            |j: int| s[j],
            association_with(s, id, i),
        ),
    decreases s.len() - i,
{
    let keep = |j: int| s[j].item_id == id;
    if i < s.len() {
        if s[i].item_id == id {
            assert(is_first(s.len() as int, keep, i));
        } else {
            lemma_association(s, id, i + 1);
        }
    }
}

/// The item, the location and the property list of an id are the first
/// that have this id.
pub proof fn law_entries_are_found_by_id(m: MetaView, id: u32)
    ensures
        first_kept(
            m.items.len() as int,
            |j: int| m.items[j].id == id,
            |j: int| m.items[j],
            m.item(id),
        ),
        first_kept(
            m.locations.len() as int,
            |j: int| m.locations[j].id == id,
            |j: int| m.locations[j],
            m.location(id),
        ),
        first_kept(
            m.associations.len() as int,
            |j: int| m.associations[j].item_id == id,
            |j: int| m.associations[j],
            m.association(id),
        ),
{
    lemma_item(m.items, id, 0);
    lemma_location(m.locations, id, 0);
    lemma_association(m.associations, id, 0);
}

proof fn lemma_ids(s: Seq<ItemInfoView>, t: BoxType, n: nat)
    requires
        n <= s.len(),
    ensures
        all_kept(
            n as int,
            |j: int| s[j].item_type == t,
            |j: int| s[j].id,
            ids_of_type(s, t, n),
        ),
    decreases n,
{
    let keep = |j: int| s[j].item_type == t;
    let value = |j: int| s[j].id;
    if n == 0 {
        lemma_all_none(keep, value);
    } else {
        lemma_ids(s, t, (n - 1) as nat);
        lemma_all_next(n - 1, keep, value, ids_of_type(s, t, (n - 1) as nat));
    }
}

/// The ids of a type are those of all items of that type, in order.
pub proof fn law_ids_of_a_type(m: MetaView, t: BoxType)
    ensures
        all_kept(
            m.items.len() as int,
            |j: int| m.items[j].item_type == t,
            |j: int| m.items[j].id,
            m.ids_of(t),
        ),
        forall|id: u32| #[trigger]
            m.ids_of(t).contains(id) <==> exists|j: int|
                0 <= j < m.items.len() && (#[trigger] m.items[j]).item_type == t && m.items[j].id
                    == id,
{
    lemma_ids(m.items, t, m.items.len());
    let keep = |j: int| m.items[j].item_type == t;
    let value = |j: int| m.items[j].id;
    law_all_kept_are_listed(m.items.len() as int, keep, value, m.ids_of(t));
    assert forall|id: u32| #[trigger] m.ids_of(t).contains(id) <==> exists|j: int|
        0 <= j < m.items.len() && (#[trigger] m.items[j]).item_type == t && m.items[j].id
            == id by {
        if m.ids_of(t).contains(id) {
            let j = choose|j: int| 0 <= j < m.items.len() && #[trigger] keep(j) && value(j) == id;
            assert(m.items[j].item_type == t);
        }
        if exists|j: int|
            0 <= j < m.items.len() && (#[trigger] m.items[j]).item_type == t && m.items[j].id
                == id {
            let j = choose|j: int|
                0 <= j < m.items.len() && (#[trigger] m.items[j]).item_type == t && m.items[j].id
                    == id;
            assert(keep(j) && value(j) == id);
        }
    }
}

// ---------------------------------------------------------------------
// References

/// Whether entry `i` refers from `from_id`, as `t`.
pub open spec fn refers_from(m: MetaView, t: BoxType, from_id: u32, i: int) -> bool {
    m.irefs[i].reference_type == t && m.irefs[i].from_id == from_id
}

/// Whether entry `i` refers to `to_id`, as `t`.
pub open spec fn refers_to(m: MetaView, t: BoxType, to_id: u32, i: int) -> bool {
    m.irefs[i].reference_type == t && m.irefs[i].to_ids.contains(to_id)
}

proof fn lemma_sources(m: MetaView, t: BoxType, to_id: u32, n: nat)
    requires
        n <= m.irefs.len(),
    ensures
        all_kept(
            n as int,
            |j: int| refers_to(m, t, to_id, j),
            |j: int| m.irefs[j].from_id,
            all_sources(m.irefs, t, to_id, n),
        ),
    decreases n,
{
    let keep = |j: int| refers_to(m, t, to_id, j);
    let value = |j: int| m.irefs[j].from_id;
    if n == 0 {
        lemma_all_none(keep, value);
    } else {
        lemma_sources(m, t, to_id, (n - 1) as nat);
        lemma_all_next(n - 1, keep, value, all_sources(m.irefs, t, to_id, (n - 1) as nat));
    }
}

/// What refers to an item is the start of every reference of that type
/// that has the item among its ends, in order.
pub proof fn law_sources_refer_to_the_item(m: MetaView, t: BoxType, to_id: u32)
    ensures
        all_kept(
            m.irefs.len() as int,
            |j: int| refers_to(m, t, to_id, j),
            |j: int| m.irefs[j].from_id,
            m.sources(t, to_id),
        ),
        forall|id: u32| #[trigger]
            m.sources(t, to_id).contains(id) <==> exists|j: int|
                0 <= j < m.irefs.len() && (#[trigger] m.irefs[j]).reference_type == t
                    && m.irefs[j].from_id == id && m.irefs[j].to_ids.contains(to_id),
{
    lemma_sources(m, t, to_id, m.irefs.len());
    let keep = |j: int| refers_to(m, t, to_id, j);
    let value = |j: int| m.irefs[j].from_id;
    law_all_kept_are_listed(m.irefs.len() as int, keep, value, m.sources(t, to_id));
    assert forall|id: u32| #[trigger] m.sources(t, to_id).contains(id) <==> exists|j: int|
        0 <= j < m.irefs.len() && (#[trigger] m.irefs[j]).reference_type == t
            && m.irefs[j].from_id == id && m.irefs[j].to_ids.contains(to_id) by {
        if m.sources(t, to_id).contains(id) {
            let j = choose|j: int| 0 <= j < m.irefs.len() && #[trigger] keep(j) && value(j) == id;
            assert(m.irefs[j].reference_type == t);
        }
        if exists|j: int|
            0 <= j < m.irefs.len() && (#[trigger] m.irefs[j]).reference_type == t
                && m.irefs[j].from_id == id && m.irefs[j].to_ids.contains(to_id) {
            let j = choose|j: int|
                0 <= j < m.irefs.len() && (#[trigger] m.irefs[j]).reference_type == t
                    && m.irefs[j].from_id == id && m.irefs[j].to_ids.contains(to_id);
            assert(keep(j) && value(j) == id);
        }
    }
}

proof fn lemma_targets(m: MetaView, t: BoxType, from_id: u32, i: int)
    requires
        0 <= i <= m.irefs.len(),
        forall|j: int| 0 <= j < i ==> !#[trigger] refers_from(m, t, from_id, j),
    ensures
        forall|j: int|
            is_first(m.irefs.len() as int, |k: int| refers_from(m, t, from_id, k), j)
                ==> targets_with(m.irefs, t, from_id, i) == #[trigger] m.irefs[j].to_ids,
        (forall|j: int| 0 <= j < m.irefs.len() ==> !#[trigger] refers_from(m, t, from_id, j))
            ==> targets_with(m.irefs, t, from_id, i) == Seq::<u32>::empty(),
    decreases m.irefs.len() - i,
{
    if i < m.irefs.len() {
        if refers_from(m, t, from_id, i) {
            let keep = |k: int| refers_from(m, t, from_id, k);
            assert(keep(i));
            assert forall|j: int| is_first(m.irefs.len() as int, keep, j) implies j == i by {
                if j > i {
                    assert(!keep(i));
                } else if j < i {
                    assert(!refers_from(m, t, from_id, j));
                }
            }
        } else {
            lemma_targets(m, t, from_id, i + 1);
        }
    }
}

proof fn lemma_source(m: MetaView, t: BoxType, to_id: u32, i: int)
    requires
        0 <= i <= m.irefs.len(),
        forall|j: int| 0 <= j < i ==> !#[trigger] refers_to(m, t, to_id, j),
    ensures
        first_kept(
            m.irefs.len() as int,
            |j: int| refers_to(m, t, to_id, j),
            |j: int| m.irefs[j].from_id,
            source_with(m.irefs, t, to_id, i),
        ),
    decreases m.irefs.len() - i,
{
    let keep = |j: int| refers_to(m, t, to_id, j);
    if i < m.irefs.len() {
        if refers_to(m, t, to_id, i) {
            assert(is_first(m.irefs.len() as int, keep, i));
        } else {
            lemma_source(m, t, to_id, i + 1);
        }
    }
}

/// What an item refers to is the list of the first reference of that type
/// from it, and nothing where there is none.
pub proof fn law_targets_are_the_first_list(m: MetaView, t: BoxType, from_id: u32)
    ensures
        forall|j: int|
            is_first(m.irefs.len() as int, |k: int| refers_from(m, t, from_id, k), j)
                ==> m.targets(t, from_id) == #[trigger] m.irefs[j].to_ids,
        (forall|j: int| 0 <= j < m.irefs.len() ==> !#[trigger] refers_from(m, t, from_id, j))
            ==> m.targets(t, from_id) == Seq::<u32>::empty(),
{
    lemma_targets(m, t, from_id, 0);
}

/// The one that refers to an item is the start of the first reference of
/// that type that has the item among its ends.
pub proof fn law_source_is_the_first(m: MetaView, t: BoxType, to_id: u32)
    ensures
        first_kept(
            m.irefs.len() as int,
            |j: int| refers_to(m, t, to_id, j),
            |j: int| m.irefs[j].from_id,
            source_with(m.irefs, t, to_id, 0),
        ),
{
    lemma_source(m, t, to_id, 0);
}

/// The references of one type from one item, one behind the other: one
/// more list is one more piece.
pub proof fn law_targets_of_join_all_lists(m: MetaView, t: BoxType, from_id: u32, n: nat, id: u32)
    requires
        n <= m.irefs.len(),
    ensures
        all_targets(m.irefs, t, from_id, n).contains(id) <==> exists|j: int|
            0 <= j < n && #[trigger] refers_from(m, t, from_id, j) && m.irefs[j].to_ids.contains(id),
    decreases n,
{
    let all = all_targets(m.irefs, t, from_id, n);
    if n > 0 {
        let before = all_targets(m.irefs, t, from_id, (n - 1) as nat);
        let last = m.irefs[n - 1].to_ids;
        law_targets_of_join_all_lists(m, t, from_id, (n - 1) as nat, id);
        if refers_from(m, t, from_id, n - 1) {
            assert(all == before + last);
            if before.contains(id) {
                let k = choose|k: int| 0 <= k < before.len() && before[k] == id;
                assert(all[k] == id);
            }
            if last.contains(id) {
                let k = choose|k: int| 0 <= k < last.len() && last[k] == id;
                assert(all[before.len() + k] == id);
            }
            if all.contains(id) && !before.contains(id) {
                let k = choose|k: int| 0 <= k < all.len() && all[k] == id;
                if k < before.len() {
                    assert(before[k] == id);
                } else {
                    assert(last[k - before.len()] == id);
                }
            }
        } else {
            assert(all == before);
        }
    }
}

/// The count of references is that of the references of one type from one
/// item.
pub proof fn law_references_are_counted(m: MetaView, t: BoxType, from_id: u32, n: nat)
    requires
        n <= m.irefs.len(),
    ensures
        references_of(m.irefs, t, from_id, n) <= n,
        references_of(m.irefs, t, from_id, n) == 0 <==> forall|j: int|
            0 <= j < n ==> !#[trigger] refers_from(m, t, from_id, j),
        n > 0 ==> references_of(m.irefs, t, from_id, n) == references_of(
            m.irefs,
            t,
            from_id,
            (n - 1) as nat,
        ) + (if refers_from(m, t, from_id, n - 1) {
            1int
        } else {
            0int
        }),
    decreases n,
{
    if n > 0 {
        law_references_are_counted(m, t, from_id, (n - 1) as nat);
        if references_of(m.irefs, t, from_id, n) == 0 {
            assert forall|j: int| 0 <= j < n implies !#[trigger] refers_from(m, t, from_id, j) by {
                if j == n - 1 {
                    assert(!refers_from(m, t, from_id, n - 1));
                }
            }
        } else if refers_from(m, t, from_id, n - 1) {
            assert(!(forall|j: int| 0 <= j < n ==> !#[trigger] refers_from(m, t, from_id, j)));
        }
    }
}

// ---------------------------------------------------------------------
// Properties

/// Whether entry `j` of a property list stands for a property of this
/// kind.
pub open spec fn stands_for(
    m: MetaView,
    entries: Seq<PropertyAssociation>,
    kind: BoxType,
    j: int,
) -> bool {
    entries[j].index < m.properties.len() && m.properties[entries[j].index as int].kind() == kind
}

proof fn lemma_property(m: MetaView, entries: Seq<PropertyAssociation>, kind: BoxType, i: int)
    requires
        0 <= i <= entries.len(),
        forall|j: int| 0 <= j < i ==> !#[trigger] stands_for(m, entries, kind, j),
    ensures
        first_kept(
            entries.len() as int,
            |j: int| stands_for(m, entries, kind, j),
            |j: int| m.properties[entries[j].index as int],
            property_with(entries, m.properties, kind, i),
        ),
    decreases entries.len() - i,
{
    let keep = |j: int| stands_for(m, entries, kind, j);
    if i < entries.len() {
        if stands_for(m, entries, kind, i) {
            assert(is_first(entries.len() as int, keep, i));
        } else {
            lemma_property(m, entries, kind, i + 1);
        }
    }
}

/// The property of a kind is the first of that kind in the property list
/// of the item; an item without a list has none.
pub proof fn law_property_is_the_first_of_its_kind(m: MetaView, id: u32, kind: BoxType)
    ensures
        m.association(id) is None ==> m.property(id, kind) is None,
        m.association(id) matches Some(a) ==> first_kept(
            a.entries.len() as int,
            |j: int| stands_for(m, a.entries, kind, j),
            |j: int| m.properties[a.entries[j].index as int],
            m.property(id, kind),
        ),
{
    if m.association(id) is Some {
        lemma_property(m, m.association(id)->Some_0.entries, kind, 0);
    }
}

/// The kind of a property is the type of its box.
pub proof fn law_kinds_are_box_types(p: PropertyView)
    ensures
        p.kind() == match p {
            PropertyView::Av1C(_) => [0x61u8, 0x76u8, 0x31u8, 0x43u8],
            PropertyView::Ispe(_) => [0x69u8, 0x73u8, 0x70u8, 0x65u8],
            PropertyView::Colr(_) => [0x63u8, 0x6fu8, 0x6cu8, 0x72u8],
            PropertyView::Pixi(_) => [0x70u8, 0x69u8, 0x78u8, 0x69u8],
            PropertyView::Pasp(_) => [0x70u8, 0x61u8, 0x73u8, 0x70u8],
            PropertyView::Irot(_) => [0x69u8, 0x72u8, 0x6fu8, 0x74u8],
            PropertyView::Imir(_) => [0x69u8, 0x6du8, 0x69u8, 0x72u8],
            PropertyView::Clap(_) => [0x63u8, 0x6cu8, 0x61u8, 0x70u8],
            PropertyView::AuxC(_) => [0x61u8, 0x75u8, 0x78u8, 0x43u8],
            PropertyView::Mdcv(_) => [0x6du8, 0x64u8, 0x63u8, 0x76u8],
            PropertyView::Clli(_) => [0x63u8, 0x6cu8, 0x6cu8, 0x69u8],
            PropertyView::Cclv(_) => [0x63u8, 0x63u8, 0x6cu8, 0x76u8],
            PropertyView::Amve(_) => [0x61u8, 0x6du8, 0x76u8, 0x65u8],
            PropertyView::Rloc(_) => [0x72u8, 0x6cu8, 0x6fu8, 0x63u8],
            PropertyView::Lsel(_) => [0x6cu8, 0x73u8, 0x65u8, 0x6cu8],
            PropertyView::A1op(_) => [0x61u8, 0x31u8, 0x6fu8, 0x70u8],
            PropertyView::A1lx(_) => [0x61u8, 0x31u8, 0x6cu8, 0x78u8],
            PropertyView::Iscl(_) => [0x69u8, 0x73u8, 0x63u8, 0x6cu8],
            PropertyView::Rref(_) => [0x72u8, 0x72u8, 0x65u8, 0x66u8],
            PropertyView::Crtt(_) => [0x63u8, 0x72u8, 0x74u8, 0x74u8],
            PropertyView::Mdft(_) => [0x6du8, 0x64u8, 0x66u8, 0x74u8],
            PropertyView::Udes(_) => [0x75u8, 0x64u8, 0x65u8, 0x73u8],
            PropertyView::Altt(_) => [0x61u8, 0x6cu8, 0x74u8, 0x74u8],
            PropertyView::Aebr(_) => [0x61u8, 0x65u8, 0x62u8, 0x72u8],
            PropertyView::Wbbr(_) => [0x77u8, 0x62u8, 0x62u8, 0x72u8],
            PropertyView::Fobr(_) => [0x66u8, 0x6fu8, 0x62u8, 0x72u8],
            PropertyView::Afbr(_) => [0x61u8, 0x66u8, 0x62u8, 0x72u8],
            PropertyView::Dobr(_) => [0x64u8, 0x6fu8, 0x62u8, 0x72u8],
            PropertyView::Pano(_) => [0x70u8, 0x61u8, 0x6eu8, 0x6fu8],
            PropertyView::Other(t, _) => t,
        },
{
}

/// What is asked of an item by name is its property of that box type.
pub proof fn law_properties_by_name(m: MetaView, id: u32)
    ensures
        m.av1c(id) == match m.property(id, [0x61, 0x76, 0x31, 0x43]) {
            Some(PropertyView::Av1C(v)) => Some(v),
            _ => None,
        },
        m.colr(id) == match m.property(id, [0x63, 0x6f, 0x6c, 0x72]) {
            Some(PropertyView::Colr(v)) => Some(v),
            _ => None,
        },
        m.pixi(id) == match m.property(id, [0x70, 0x69, 0x78, 0x69]) {
            Some(PropertyView::Pixi(v)) => Some(v),
            _ => None,
        },
        m.ispe(id) == match m.property(id, [0x69, 0x73, 0x70, 0x65]) {
            Some(PropertyView::Ispe(v)) => Some(v),
            _ => None,
        },
        m.pasp(id) == match m.property(id, [0x70, 0x61, 0x73, 0x70]) {
            Some(PropertyView::Pasp(v)) => Some(v),
            _ => None,
        },
        m.mdcv(id) == match m.property(id, [0x6d, 0x64, 0x63, 0x76]) {
            Some(PropertyView::Mdcv(v)) => Some(v),
            _ => None,
        },
        m.clli(id) == match m.property(id, [0x63, 0x6c, 0x6c, 0x69]) {
            Some(PropertyView::Clli(v)) => Some(v),
            _ => None,
        },
        m.cclv(id) == match m.property(id, [0x63, 0x63, 0x6c, 0x76]) {
            Some(PropertyView::Cclv(v)) => Some(v),
            _ => None,
        },
        m.amve(id) == match m.property(id, [0x61, 0x6d, 0x76, 0x65]) {
            Some(PropertyView::Amve(v)) => Some(v),
            _ => None,
        },
        m.a1op(id) == match m.property(id, [0x61, 0x31, 0x6f, 0x70]) {
            Some(PropertyView::A1op(v)) => Some(v),
            _ => None,
        },
        m.a1lx(id) == match m.property(id, [0x61, 0x31, 0x6c, 0x78]) {
            Some(PropertyView::A1lx(v)) => Some(v),
            _ => None,
        },
{
}

/// Whether entry `j` of a property list is one that must be understood and
/// is not: there is no such property, or it is of no known kind.
pub open spec fn is_not_understood(
    m: MetaView,
    entries: Seq<PropertyAssociation>,
    j: int,
) -> bool {
    entries[j].essential && (entries[j].index >= m.properties.len()
        || m.properties[entries[j].index as int] is Other)
}

/// The box type that stands for entry `j` of a property list where it is
/// not understood: zeros where there is no such property.
pub open spec fn not_understood_as(
    m: MetaView,
    entries: Seq<PropertyAssociation>,
    j: int,
) -> BoxType {
    if entries[j].index >= m.properties.len() {
        [0u8, 0u8, 0u8, 0u8]
    } else {
        m.properties[entries[j].index as int]->Other_0
    }
}

proof fn lemma_unknown(m: MetaView, entries: Seq<PropertyAssociation>, n: nat)
    requires
        n <= entries.len(),
    ensures
        all_kept(
            n as int,
            |j: int| is_not_understood(m, entries, j),
            |j: int| not_understood_as(m, entries, j),
            unknown_essential(entries, m.properties, n),
        ),
    decreases n,
{
    let keep = |j: int| is_not_understood(m, entries, j);
    let value = |j: int| not_understood_as(m, entries, j);
    if n == 0 {
        lemma_all_none(keep, value);
    } else {
        lemma_unknown(m, entries, (n - 1) as nat);
        lemma_all_next(n - 1, keep, value, unknown_essential(entries, m.properties, (n - 1) as nat));
    }
}

/// The properties of an item that are not supported are those that must be
/// understood and are not, in order.
pub proof fn law_unsupported_are_not_understood(m: MetaView, id: u32)
    ensures
        m.association(id) is None ==> m.unsupported(id).len() == 0,
        m.association(id) matches Some(a) ==> all_kept(
            a.entries.len() as int,
            |j: int| is_not_understood(m, a.entries, j),
            |j: int| not_understood_as(m, a.entries, j),
            m.unsupported(id),
        ),
{
    if m.association(id) is Some {
        let e = m.association(id)->Some_0.entries;
        lemma_unknown(m, e, e.len());
    }
}

// ---------------------------------------------------------------------
// Auxiliary images

/// Whether entry `j` of the references refers to `to_id` from an auxiliary
/// image that says what it is.
pub open spec fn is_auxiliary(m: MetaView, to_id: u32, j: int) -> bool {
    &&& m.irefs[j].reference_type == [0x61u8, 0x75u8, 0x78u8, 0x6cu8]
    &&& m.irefs[j].to_ids.contains(to_id)
    &&& m.property(m.irefs[j].from_id, [0x61, 0x75, 0x78, 0x43]) matches Some(PropertyView::AuxC(_))
}

/// What the auxiliary image says that it is.
pub open spec fn says_it_is(m: MetaView, id: u32) -> AuxKind {
    aux_kind(m.property(id, [0x61, 0x75, 0x78, 0x43])->Some_0->AuxC_0.aux_type)
}

proof fn lemma_aux_prefix(m: MetaView, s: Seq<u32>, x: u32, k: nat)
    requires
        k <= s.len(),
    ensures
        aux_of(m, s.push(x), k) == aux_of(m, s, k),
    decreases k,
{
    if k > 0 {
        lemma_aux_prefix(m, s, x, (k - 1) as nat);
        assert(s.push(x)[k - 1] == s[k - 1]);
    }
}

proof fn lemma_aux(m: MetaView, to_id: u32, n: nat)
    requires
        n <= m.irefs.len(),
    ensures
        ({
            let s = all_sources(m.irefs, [0x61, 0x75, 0x78, 0x6c], to_id, n);
            all_kept(
                n as int,
                |j: int| is_auxiliary(m, to_id, j),
                |j: int| (m.irefs[j].from_id, says_it_is(m, m.irefs[j].from_id)),
                aux_of(m, s, s.len()),
            )
        }),
    decreases n,
{
    let keep = |j: int| is_auxiliary(m, to_id, j);
    let value = |j: int| (m.irefs[j].from_id, says_it_is(m, m.irefs[j].from_id));
    let s = all_sources(m.irefs, [0x61, 0x75, 0x78, 0x6c], to_id, n);
    if n == 0 {
        lemma_all_none(keep, value);
    } else {
        let before = all_sources(m.irefs, [0x61, 0x75, 0x78, 0x6c], to_id, (n - 1) as nat);
        lemma_aux(m, to_id, (n - 1) as nat);
        lemma_all_next(n - 1, keep, value, aux_of(m, before, before.len()));
        if s.len() > before.len() {
            lemma_aux_prefix(m, before, m.irefs[n - 1].from_id, before.len());
            assert(s[before.len() as int] == m.irefs[n - 1].from_id);
        }
    }
}

/// The auxiliary images of an item are those that refer to it as such and
/// say what they are, in the order of the references.
pub proof fn law_auxiliary_images_refer_to_the_item(m: MetaView, to_id: u32)
    ensures
        all_kept(
            m.irefs.len() as int,
            |j: int| is_auxiliary(m, to_id, j),
            |j: int| (m.irefs[j].from_id, says_it_is(m, m.irefs[j].from_id)),
            m.aux_items(to_id),
        ),
{
    lemma_aux(m, to_id, m.irefs.len());
}

} // verus!
