//! Child boxes of `meta` that mean nothing to this crate change nothing.

use crate::box_parser::{
    be32, be64, box_at, lemma_box_bounds, lemma_box_same, type_at, BoxSpan, BoxType,
};
use crate::container::sized_from;
use crate::error::Fault;
use crate::meta::{
    empty_meta, meta_from, meta_of, meta_step, MetaView, GRPL, HDLR, IDAT, IINF, ILOC, IPRP,
    IREF, PITM,
};
use vstd::prelude::*;

verus! {

/// Whether a child box of `meta` with this type is read.
pub open spec fn is_known_child(t: BoxType) -> bool {
    t == HDLR || t == PITM || t == IINF || t == ILOC || t == IPRP || t == IREF || t == GRPL || t
        == IDAT
}

/// Whether `x` is one box that gives its size.
pub open spec fn is_sized_box(x: Seq<u8>) -> bool {
    box_at(x, 0) matches Ok(b) && b.end == x.len() && be32(x, 0) != 0
}

/// A box is the same box wherever it stands, with the same bytes behind
/// it.
proof fn lemma_box_moves(p: Seq<u8>, q: Seq<u8>, b: Seq<u8>, at: int)
    requires
        0 <= at < b.len(),
        box_at(p + b, p.len() + at) is Ok,
    ensures
        ({
            let o = box_at(p + b, p.len() + at)->Ok_0;
            let by = q.len() - p.len();
            &&& box_at(q + b, q.len() + at) == Ok::<BoxSpan, Fault>(
                BoxSpan { box_type: o.box_type, payload: o.payload + by, end: o.end + by },
            )
            &&& (q + b).subrange(o.payload + by, o.end + by) == (p + b).subrange(o.payload, o.end)
        }),
{
    let s = p + b;
    let r = q + b;
    let i = p.len() + at;
    let j = q.len() + at;
    let by = q.len() - p.len();
    assert(forall|k: int| i <= k < s.len() ==> #[trigger] s[k] == r[k + by]);
    assert(be32(s, i) == be32(r, j));
    assert(type_at(s, i + 4) == type_at(r, j + 4));
    if be32(s, i) == 1 {
        assert(be64(s, i + 8) == be64(r, j + 8));
    }
    lemma_box_bounds(s, i);
    let o = box_at(s, i)->Ok_0;
    assert(r.subrange(o.payload + by, o.end + by) =~= s.subrange(o.payload, o.end));
}

/// What the boxes packed in `s` from `at` on make of `m`, where `step`
/// says what each does.
spec fn walked<M>(
    s: Seq<u8>,
    at: int,
    m: M,
    step: spec_fn(M, BoxType, Seq<u8>) -> Result<M, Fault>,
) -> Result<M, Fault>
    decreases s.len() - at,
{
    if at < 0 || at >= s.len() {
        Ok(m)
    } else {
        match box_at(s, at) {
            Err(f) => Err(f),
            Ok(b) => match step(m, b.box_type, s.subrange(b.payload, b.end)) {
                Err(f) => Err(f),
                Ok(next) => if b.end <= at {
                    Ok(next)
                } else {
                    walked(s, b.end, next, step)
                },
            },
        }
    }
}

/// What boxes do does not depend on what stands before them.
proof fn lemma_walk_moves<M>(
    p: Seq<u8>,
    q: Seq<u8>,
    b: Seq<u8>,
    at: int,
    m: M,
    step: spec_fn(M, BoxType, Seq<u8>) -> Result<M, Fault>,
)
    requires
        0 <= at <= b.len(),
        walked(p + b, p.len() + at, m, step) is Ok,
    ensures
        walked(q + b, q.len() + at, m, step) == walked(p + b, p.len() + at, m, step),
    decreases b.len() - at,
{
    if at < b.len() {
        let o = box_at(p + b, p.len() + at)->Ok_0;
        lemma_box_moves(p, q, b, at);
        lemma_box_bounds(p + b, p.len() + at);
        let next = step(m, o.box_type, (p + b).subrange(o.payload, o.end))->Ok_0;
        lemma_walk_moves(p, q, b, o.end - p.len(), next, step);
    }
}

/// Whether boxes of type `t` do nothing.
#[verifier::opaque]
spec fn idle<M>(step: spec_fn(M, BoxType, Seq<u8>) -> Result<M, Fault>, t: BoxType) -> bool {
    forall|v: M, body: Seq<u8>| #[trigger] step(v, t, body) == Ok::<M, Fault>(v)
}

/// A box that does nothing can be left out where it comes next.
proof fn lemma_walk_skips<M>(
    a: Seq<u8>,
    x: Seq<u8>,
    b: Seq<u8>,
    m: M,
    step: spec_fn(M, BoxType, Seq<u8>) -> Result<M, Fault>,
)
    requires
        is_sized_box(x),
        idle(step, box_at(x, 0)->Ok_0.box_type),
    ensures
        walked(a + x + b, a.len() as int, m, step) == walked(
            a + x + b,
            (a + x).len() as int,
            m,
            step,
        ),
{
    reveal(idle);
    let with = a + x + b;
    let none = Seq::<u8>::empty();
    lemma_box_same(x, b, 0);
    lemma_box_bounds(x, 0);
    assert(none + (x + b) =~= x + b);
    assert(with =~= a + (x + b));
    lemma_box_moves(none, a, x + b, 0);
}

/// A box that does nothing changes nothing behind boxes that give their
/// sizes.
proof fn lemma_walk_ignores<M>(
    a: Seq<u8>,
    x: Seq<u8>,
    b: Seq<u8>,
    at: int,
    m: M,
    step: spec_fn(M, BoxType, Seq<u8>) -> Result<M, Fault>,
)
    requires
        0 <= at <= a.len(),
        sized_from(a, at),
        is_sized_box(x),
        idle(step, box_at(x, 0)->Ok_0.box_type),
        walked(a + b, at, m, step) is Ok,
    ensures
        walked(a + x + b, at, m, step) == walked(a + b, at, m, step),
    decreases a.len() - at,
{
    let with = a + x + b;
    if at < a.len() {
        assert(with =~= a + (x + b));
        lemma_box_same(a, b, at);
        lemma_box_same(a, x + b, at);
        lemma_box_bounds(a, at);
        let o = box_at(a, at)->Ok_0;
        let payload = a.subrange(o.payload, o.end);
        assert((a + b).subrange(o.payload, o.end) =~= payload);
        assert(with.subrange(o.payload, o.end) =~= payload);
        let next = step(m, o.box_type, payload)->Ok_0;
        lemma_walk_ignores(a, x, b, o.end, next, step);
    } else {
        lemma_walk_skips(a, x, b, m, step);
        lemma_walk_moves(a, a + x, b, 0, m, step);
    }
}

/// What a child box of `meta` does.
spec fn child_step() -> spec_fn(MetaView, BoxType, Seq<u8>) -> Result<MetaView, Fault> {
    |m: MetaView, t: BoxType, p: Seq<u8>| meta_step(m, t, p)
}

/// Reading `meta` walks over its child boxes.
proof fn lemma_meta_walks(s: Seq<u8>, at: int, m: MetaView)
    ensures
        meta_from(s, at, m) == walked(s, at, m, child_step()),
    decreases s.len() - at,
{
    if 0 <= at < s.len() {
        if let Ok(b) = box_at(s, at) {
            if let Ok(next) = meta_step(m, b.box_type, s.subrange(b.payload, b.end)) {
                if b.end > at {
                    lemma_meta_walks(s, b.end, next);
                }
            }
        }
    }
}

/// A box whose type means nothing does nothing.
proof fn lemma_unknown_idle(t: BoxType)
    requires
        !is_known_child(t),
    ensures
        idle(child_step(), t),
{
    reveal(idle);
}

/// The same on the child boxes alone.
proof fn lemma_child_ignored(a: Seq<u8>, x: Seq<u8>, b: Seq<u8>)
    requires
        sized_from(a, 0),
        is_sized_box(x),
        !is_known_child(box_at(x, 0)->Ok_0.box_type),
        walked(a + b, 0, empty_meta(), child_step()) is Ok,
    ensures
        walked(a + x + b, 0, empty_meta(), child_step()) == walked(
            a + b,
            0,
            empty_meta(),
            child_step(),
        ),
{
    lemma_unknown_idle(box_at(x, 0)->Ok_0.box_type);
    lemma_walk_ignores(a, x, b, 0, empty_meta(), child_step());
}

/// The child boxes of a `meta` payload lie behind its first four bytes.
proof fn lemma_meta_children(head: Seq<u8>, s: Seq<u8>)
    requires
        head.len() == 4,
    ensures
        meta_of(head + s) == walked(s, 0, empty_meta(), child_step()),
{
    assert((head + s).subrange(4, (head + s).len() as int) =~= s);
    lemma_meta_walks(s, 0, empty_meta());
}

/// A child box of `meta` whose type means nothing to this crate changes
/// nothing, wherever it stands among boxes that give their sizes.
#[verifier::spinoff_prover]
#[verifier::rlimit(40)]
pub proof fn law_unknown_child_is_ignored(head: Seq<u8>, a: Seq<u8>, x: Seq<u8>, b: Seq<u8>)
    requires
        head.len() == 4,
        sized_from(a, 0),
        is_sized_box(x),
        !is_known_child(box_at(x, 0)->Ok_0.box_type),
        meta_of(head + (a + b)) is Ok,
    ensures
        meta_of(head + (a + x + b)) == meta_of(head + (a + b)),
{
    lemma_meta_children(head, a + b);
    lemma_meta_children(head, a + x + b);
    lemma_child_ignored(a, x, b);
}

} // verus!
