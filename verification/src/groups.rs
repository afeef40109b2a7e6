//! Entity groups (`grpl`).

use crate::box_parser::{
    be32, box_at, full_box, get32, lemma_box_bounds, parse_box_header, parse_full_box, payload_of,
    read_u32, same_type, BoxType,
};
use crate::error::{invalid_nn, outcome_list, outcome_view, views, AvifError, Fault};
use crate::meta_parse::{lemma_after_all, lemma_after_none, lemma_after_push};
use crate::props::{AEBR, AFBR, DOBR, FOBR, WBBR};
use crate::props_parse::after;
use crate::text::dec;
use vstd::prelude::*;

verus! {

/// A set of items and tracks that belong together.
#[derive(Clone, Debug, PartialEq, Eq)]
pub struct EntityGroup {
    /// Grouping type (`altr`, `aebr`, …).
    pub grouping_type: BoxType,
    /// Group id.
    pub group_id: u32,
    /// Members, in order.
    pub entity_ids: Vec<u32>,
}

/// An [`EntityGroup`] as contracts speak of it.
#[verifier::ext_equal]
pub struct GroupView {
    /// Grouping type.
    pub grouping_type: BoxType,
    /// Group id.
    pub group_id: u32,
    /// Members, in order.
    pub entity_ids: Seq<u32>,
}

impl View for EntityGroup {
    type V = GroupView;

    open spec fn view(&self) -> GroupView {
        GroupView {
            grouping_type: self.grouping_type,
            group_id: self.group_id,
            entity_ids: self.entity_ids@,
        }
    }
}

/// The group in an entity-to-group payload.
pub open spec fn group_of(t: BoxType, s: Seq<u8>) -> Result<GroupView, Fault> {
    match full_box(s) {
        Err(f) => Err(f),
        Ok((_, _, b)) => match get32(b, 0) {
            Err(f) => Err(f),
            Ok(group_id) => match get32(b, 4) {
                Err(f) => Err(f),
                Ok(n) => if n * 4 > b.len() - 8 {
                    Err(
                        Fault::Invalid(
                            "avif: entity group declares "@ + dec(n as nat) + " entities but only "@
                                + dec((b.len() - 8) as nat) + " bytes follow"@,
                        ),
                    )
                } else {
                    Ok(
                        GroupView {
                            grouping_type: t,
                            group_id,
                            entity_ids: Seq::new(n as nat, |i: int| be32(b, 8 + i * 4)),
                        },
                    )
                },
            },
        },
    }
}

fn parse_group(t: BoxType, payload: &[u8]) -> (r: Result<EntityGroup, AvifError>)
    ensures
        outcome_view(r) == group_of(t, payload@),
{
    let (_v, _f, body) = parse_full_box(payload)?;
    let group_id: u32 = read_u32(body, 0)?;
    let n: u32 = read_u32(body, 4)?;
    let left: usize = body.len() - 8;
    if n as u64 > (left / 4) as u64 {
        return Err(
            invalid_nn(
                "avif: entity group declares ",
                n as u64,
                " entities but only ",
                left as u64,
                " bytes follow",
            ),
        );
    }
    let mut entity_ids: Vec<u32> = Vec::new();
    let mut i: u32 = 0;
    while i < n
        invariant
            i <= n,
            8 + n * 4 <= body.len(),
            entity_ids@ == Seq::new(i as nat, |j: int| be32(body@, 8 + j * 4)),
        decreases n - i,
    {
        entity_ids.push(read_u32(body, 8 + i as usize * 4)?);
        i = i + 1;
        proof {
            assert(entity_ids@ =~= Seq::new(i as nat, |j: int| be32(body@, 8 + j * 4)));
        }
    }
    Ok(EntityGroup { grouping_type: t, group_id, entity_ids })
}

/// The groups packed in `s` from `at` on.
pub open spec fn groups_from(s: Seq<u8>, at: int) -> Result<Seq<GroupView>, Fault>
    decreases s.len() - at,
{
    if at < 0 || at >= s.len() {
        Ok(Seq::empty())
    } else {
        match box_at(s, at) {
            Err(f) => Err(f),
            Ok(b) => match group_of(b.box_type, s.subrange(b.payload, b.end)) {
                Err(f) => Err(f),
                Ok(g) => if b.end <= at {
                    Ok(seq![g])
                } else {
                    after(seq![g], groups_from(s, b.end))
                },
            },
        }
    }
}

/// Parse `grpl`: entity groups one after another.
pub fn parse_grpl(payload: &[u8]) -> (r: Result<Vec<EntityGroup>, AvifError>)
    ensures
        outcome_list(r) == groups_from(payload@, 0),
{
    let mut out: Vec<EntityGroup> = Vec::new();
    let mut at: usize = 0;
    proof {
        lemma_after_none(views(out@), groups_from(payload@, 0));
    }
    while at < payload.len()
        invariant
            at <= payload.len(),
            after(views(out@), groups_from(payload@, at as int)) == groups_from(payload@, 0),
        decreases payload.len() - at,
    {
        let h = parse_box_header(payload, at)?;
        proof {
            lemma_box_bounds(payload@, at as int);
        }
        let g = parse_group(h.box_type, payload_of(payload, &h))?;
        proof {
            lemma_after_push(out@, g, groups_from(payload@, h@.end));
        }
        out.push(g);
        at = h.end();
    }
    proof {
        lemma_after_all(views(out@));
    }
    Ok(out)
}

/// What varies between the images of a bracketed set.
#[derive(Clone, Copy, Debug, PartialEq, Eq, Structural)]
pub enum BracketingKind {
    /// Exposure (`aebr`).
    AutoExposure,
    /// White balance (`wbbr`).
    WhiteBalance,
    /// Focus (`fobr`).
    Focus,
    /// Flash exposure (`afbr`).
    FlashExposure,
    /// Depth of field (`dobr`).
    DepthOfField,
}

/// The kind of bracketing that a grouping type stands for.
pub open spec fn bracketing_of(t: BoxType) -> Option<BracketingKind> {
    if t == AEBR {
        Some(BracketingKind::AutoExposure)
    } else if t == WBBR {
        Some(BracketingKind::WhiteBalance)
    } else if t == FOBR {
        Some(BracketingKind::Focus)
    } else if t == AFBR {
        Some(BracketingKind::FlashExposure)
    } else if t == DOBR {
        Some(BracketingKind::DepthOfField)
    } else {
        None
    }
}

impl BracketingKind {
    /// The kind of bracketing that a grouping type stands for.
    pub fn from_four_cc(t: &BoxType) -> (r: Option<BracketingKind>)
        ensures
            r == bracketing_of(*t),
    {
        if same_type(t, &AEBR) {
            Some(BracketingKind::AutoExposure)
        } else if same_type(t, &WBBR) {
            Some(BracketingKind::WhiteBalance)
        } else if same_type(t, &FOBR) {
            Some(BracketingKind::Focus)
        } else if same_type(t, &AFBR) {
            Some(BracketingKind::FlashExposure)
        } else if same_type(t, &DOBR) {
            Some(BracketingKind::DepthOfField)
        } else {
            None
        }
    }
}

} // verus!
