//! How far a file keeps the rules that HEIF and AVIF set for its
//! items.

use crate::alpha::is_alpha_item;
use crate::box_parser::{same_type, BoxType};
use crate::container::{AUXL, DIMG};
use crate::derived::{transform_kinds, transform_kinds_of, MAX_DERIVATION_DEPTH};
use crate::error::{lemma_views_push, views};
use crate::groups::{EntityGroup, GroupView};
use crate::meta::{
    contains_id, count_references, has_body, item_has_body, references_of, Meta, MetaView,
};
use crate::meta_parse::{ITEM_TYPE_IDEN, ITEM_TYPE_TMAP};
use crate::obu::{obu_at, read_obu, OBU_SEQUENCE_HEADER};
use crate::parser::{item_bytes_owned_full, payload_bytes, BrandClass, ITEM_TYPE_AV01, ITEM_TYPE_GRID};
use vstd::prelude::*;

verus! {

/// Grouping type of items that stand for each other.
pub const ALTR: BoxType = [0x61, 0x6c, 0x74, 0x72];

// ---------------------------------------------------------------------
// Tone maps

/// How far a tone-mapped item keeps what is recommended of it.
#[derive(Clone, Copy, Debug, PartialEq, Eq, Structural)]
pub struct ToneMapCompliance {
    /// The item.
    pub tmap_item_id: u32,
    /// It stands in one `altr` group with its base image.
    pub paired_in_altr: bool,
    /// Its gain maps, of which there is one at least, are hidden.
    pub gain_maps_hidden: bool,
}

impl ToneMapCompliance {
    /// Whether both recommendations are kept.
    pub open spec fn kept(self) -> bool {
        self.paired_in_altr && self.gain_maps_hidden
    }

    /// Whether both recommendations are kept.
    pub fn is_compliant(&self) -> (r: bool)
        ensures
            r == self.kept(),
    {
        self.paired_in_altr && self.gain_maps_hidden
    }
}

/// Whether one of the groups stands for these two.
pub open spec fn pairs(groups: Seq<GroupView>, a: u32, b: u32) -> bool {
    exists|i: int|
        0 <= i < groups.len() && (#[trigger] groups[i]).grouping_type == ALTR
            && groups[i].entity_ids.contains(a) && groups[i].entity_ids.contains(b)
}

/// Whether an item is hidden.
pub open spec fn is_hidden(m: MetaView, id: u32) -> bool {
    match m.item(id) {
        Some(info) => info.flags % 2 == 1,
        None => false,
    }
}

/// The audit of a tone-mapped item. Its first input is the base image,
/// and the others are gain maps.
pub open spec fn tone_map_audit(m: MetaView, id: u32) -> ToneMapCompliance {
    let inputs = m.targets(DIMG, id);
    ToneMapCompliance {
        tmap_item_id: id,
        paired_in_altr: inputs.len() > 0 && m.entity_groups() is Ok && pairs(
            m.entity_groups()->Ok_0,
            id,
            inputs[0],
        ),
        gain_maps_hidden: inputs.len() > 1 && forall|i: int|
            1 <= i < inputs.len() ==> is_hidden(m, #[trigger] inputs[i]),
    }
}

fn any_pairs(groups: &Vec<EntityGroup>, a: u32, b: u32) -> (r: bool)
    ensures
        r == pairs(views(groups@), a, b),
{
    let ghost all = views(groups@);
    let mut i: usize = 0;
    while i < groups.len()
        invariant
            i <= groups@.len(),
            all == views(groups@),
            forall|j: int|
                0 <= j < i ==> !((#[trigger] all[j]).grouping_type == ALTR
                    && all[j].entity_ids.contains(a) && all[j].entity_ids.contains(b)),
        decreases groups@.len() - i,
    {
        proof {
            assert(all[i as int] == groups@[i as int]@);
        }
        if same_type(&groups[i].grouping_type, &ALTR) && contains_id(&groups[i].entity_ids, a)
            && contains_id(&groups[i].entity_ids, b) {
            return true;
        }
        i = i + 1;
    }
    false
}

fn item_is_hidden(meta: &Meta, id: u32) -> (r: bool)
    ensures
        r == is_hidden(meta@, id),
{
    match meta.item_by_id(id) {
        Some(info) => info.flags % 2 == 1,
        None => false,
    }
}

fn audit_one_tone_map(meta: &Meta, id: u32) -> (r: ToneMapCompliance)
    ensures
        r == tone_map_audit(meta@, id),
{
    let inputs = meta.iref_targets(&DIMG, id);
    let paired_in_altr: bool = if inputs.len() > 0 {
        match meta.groups() {
            Ok(groups) => any_pairs(&groups, id, inputs[0]),
            Err(_) => false,
        }
    } else {
        false
    };
    let mut gain_maps_hidden: bool = inputs.len() > 1;
    let mut i: usize = 1;
    while i < inputs.len()
        invariant
            1 <= i,
            i <= inputs@.len() || i == 1,
            gain_maps_hidden == (inputs@.len() > 1 && forall|j: int|
                1 <= j < i ==> is_hidden(meta@, #[trigger] inputs@[j])),
        decreases inputs@.len() - i,
    {
        if !item_is_hidden(meta, inputs[i]) {
            gain_maps_hidden = false;
            proof {
                assert(!is_hidden(meta@, inputs@[i as int]));
            }
        }
        i = i + 1;
    }
    ToneMapCompliance { tmap_item_id: id, paired_in_altr, gain_maps_hidden }
}

/// The audits of the tone-mapped items, in order.
pub open spec fn tone_map_audits(m: MetaView) -> Seq<ToneMapCompliance> {
    let ids = m.ids_of(ITEM_TYPE_TMAP);
    Seq::new(ids.len(), |i: int| tone_map_audit(m, ids[i]))
}

/// Audit every tone-mapped item.
pub fn audit_tone_map(meta: &Meta) -> (r: Vec<ToneMapCompliance>)
    ensures
        r@ == tone_map_audits(meta@),
{
    let ids = meta.item_ids_of_type(&ITEM_TYPE_TMAP);
    let mut out: Vec<ToneMapCompliance> = Vec::new();
    let mut i: usize = 0;
    while i < ids.len()
        invariant
            i <= ids@.len(),
            ids@ == meta@.ids_of(ITEM_TYPE_TMAP),
            out@ =~= Seq::new(i as nat, |j: int| tone_map_audit(meta@, ids@[j])),
        decreases ids@.len() - i,
    {
        out.push(audit_one_tone_map(meta, ids[i]));
        i = i + 1;
    }
    out
}

// ---------------------------------------------------------------------
// Identity derivations

/// How far an identity derivation keeps the rules for it.
#[derive(Clone, Copy, Debug, PartialEq, Eq, Structural)]
pub struct IdenCompliance {
    /// The item.
    pub iden_item_id: u32,
    /// How many inputs its `dimg` reference names; the rule says one.
    pub dimg_input_count: usize,
    /// How many `dimg` references it has; the rule says one.
    pub dimg_reference_count: usize,
    /// It has a body; the rule says none.
    pub has_body: bool,
}

impl IdenCompliance {
    /// Whether the rules are kept.
    pub open spec fn kept(self) -> bool {
        self.dimg_input_count == 1 && self.dimg_reference_count == 1 && !self.has_body
    }

    /// Whether the rules are kept.
    pub fn is_compliant(&self) -> (r: bool)
        ensures
            r == self.kept(),
    {
        self.dimg_input_count == 1 && self.dimg_reference_count == 1 && !self.has_body
    }
}

/// The audit of an identity derivation.
pub open spec fn iden_audit(m: MetaView, id: u32) -> IdenCompliance {
    IdenCompliance {
        iden_item_id: id,
        dimg_input_count: m.targets(DIMG, id).len() as usize,
        dimg_reference_count: references_of(m.irefs, DIMG, id, m.irefs.len()) as usize,
        has_body: item_has_body(m, id),
    }
}

fn audit_one_iden(meta: &Meta, id: u32) -> (r: IdenCompliance)
    ensures
        r == iden_audit(meta@, id),
{
    IdenCompliance {
        iden_item_id: id,
        dimg_input_count: meta.iref_targets(&DIMG, id).len(),
        dimg_reference_count: count_references(meta, &DIMG, id),
        has_body: has_body(meta, id),
    }
}

/// The audits of the identity derivations, in order.
pub open spec fn iden_audits(m: MetaView) -> Seq<IdenCompliance> {
    let ids = m.ids_of(ITEM_TYPE_IDEN);
    Seq::new(ids.len(), |i: int| iden_audit(m, ids[i]))
}

/// Audit every identity derivation.
pub fn audit_iden_derivations(meta: &Meta) -> (r: Vec<IdenCompliance>)
    ensures
        r@ == iden_audits(meta@),
{
    let ids = meta.item_ids_of_type(&ITEM_TYPE_IDEN);
    let mut out: Vec<IdenCompliance> = Vec::new();
    let mut i: usize = 0;
    while i < ids.len()
        invariant
            i <= ids@.len(),
            ids@ == meta@.ids_of(ITEM_TYPE_IDEN),
            out@ =~= Seq::new(i as nat, |j: int| iden_audit(meta@, ids@[j])),
        decreases ids@.len() - i,
    {
        out.push(audit_one_iden(meta, ids[i]));
        i = i + 1;
    }
    out
}

// ---------------------------------------------------------------------
// Grids

/// How far a grid keeps the rule that no input of its derivation is
/// transformed.
#[derive(Clone, Debug, PartialEq, Eq)]
pub struct GridDerivationAudit {
    /// The grid.
    pub grid_item_id: u32,
    /// The inputs that are transformed, each with the type of the
    /// property that does it.
    pub offenders: Vec<(u32, BoxType)>,
}

/// A [`GridDerivationAudit`] as contracts speak of it.
#[verifier::ext_equal]
pub struct GridAuditView {
    /// The grid.
    pub grid_item_id: u32,
    /// The inputs that are transformed, each with the type of the
    /// property that does it.
    pub offenders: Seq<(u32, BoxType)>,
}

impl View for GridDerivationAudit {
    type V = GridAuditView;

    open spec fn view(&self) -> GridAuditView {
        GridAuditView { grid_item_id: self.grid_item_id, offenders: self.offenders@ }
    }
}

impl GridAuditView {
    /// Whether the rule is kept.
    pub open spec fn kept(self) -> bool {
        self.offenders.len() == 0
    }
}

impl GridDerivationAudit {
    /// Whether the rule is kept.
    pub fn is_compliant(&self) -> (r: bool)
        ensures
            r == self@.kept(),
    {
        self.offenders.len() == 0
    }
}

/// The transformations of one item, each with the item.
pub open spec fn own_offenders(m: MetaView, id: u32) -> Seq<(u32, BoxType)> {
    let kinds = transform_kinds(m, id);
    Seq::new(kinds.len(), |i: int| (id, kinds[i]))
}

/// The transformations of an item and of the inputs it is derived from,
/// as deep as derivations go.
pub open spec fn item_offenders(m: MetaView, id: u32, depth: nat) -> Seq<(u32, BoxType)>
    decreases MAX_DERIVATION_DEPTH + 1 - depth, 0nat,
{
    if depth > MAX_DERIVATION_DEPTH {
        Seq::empty()
    } else {
        own_offenders(m, id) + input_offenders(
            m,
            m.targets(DIMG, id),
            m.targets(DIMG, id).len(),
            depth + 1,
        )
    }
}

/// The transformations of the first `n` inputs.
pub open spec fn input_offenders(m: MetaView, ids: Seq<u32>, n: nat, depth: nat) -> Seq<
    (u32, BoxType),
>
    decreases MAX_DERIVATION_DEPTH + 1 - depth, n + 1,
{
    if n == 0 || depth > MAX_DERIVATION_DEPTH {
        Seq::empty()
    } else {
        input_offenders(m, ids, (n - 1) as nat, depth) + item_offenders(m, ids[n - 1], depth)
    }
}

/// The audit of a grid.
pub open spec fn grid_audit(m: MetaView, id: u32) -> GridAuditView {
    GridAuditView {
        grid_item_id: id,
        offenders: input_offenders(m, m.targets(DIMG, id), m.targets(DIMG, id).len(), 0),
    }
}

fn push_offenders(meta: &Meta, id: u32, depth: u32, out: &mut Vec<(u32, BoxType)>)
    ensures
        final(out)@ == old(out)@ + item_offenders(meta@, id, depth as nat),
    decreases MAX_DERIVATION_DEPTH + 1 - depth, 0nat,
{
    let ghost before = out@;
    if depth > MAX_DERIVATION_DEPTH {
        proof {
            assert(before + item_offenders(meta@, id, depth as nat) =~= before);
        }
        return;
    }
    let kinds = transform_kinds_of(meta, id);
    let mut i: usize = 0;
    proof {
        assert(before + own_offenders(meta@, id).take(0) =~= before);
    }
    while i < kinds.len()
        invariant
            i <= kinds@.len(),
            kinds@ == transform_kinds(meta@, id),
            out@ == before + own_offenders(meta@, id).take(i as int),
        decreases kinds@.len() - i,
    {
        out.push((id, kinds[i]));
        proof {
            assert(out@ =~= before + own_offenders(meta@, id).take((i + 1) as int));
        }
        i = i + 1;
    }
    proof {
        assert(own_offenders(meta@, id).take(i as int) =~= own_offenders(meta@, id));
    }
    let inputs = meta.iref_targets(&DIMG, id);
    push_input_offenders(meta, &inputs, depth + 1, out);
    proof {
        assert(out@ =~= before + item_offenders(meta@, id, depth as nat));
    }
}

fn push_input_offenders(meta: &Meta, ids: &Vec<u32>, depth: u32, out: &mut Vec<(u32, BoxType)>)
    requires
        depth <= MAX_DERIVATION_DEPTH + 1,
    ensures
        final(out)@ == old(out)@ + input_offenders(meta@, ids@, ids@.len(), depth as nat),
    decreases MAX_DERIVATION_DEPTH + 1 - depth, ids@.len() + 1,
{
    let ghost before = out@;
    proof {
        assert(before + input_offenders(meta@, ids@, 0, depth as nat) =~= before);
    }
    if depth > MAX_DERIVATION_DEPTH {
        return;
    }
    let mut i: usize = 0;
    while i < ids.len()
        invariant
            i <= ids@.len(),
            depth <= MAX_DERIVATION_DEPTH,
            out@ == before + input_offenders(meta@, ids@, i as nat, depth as nat),
        decreases ids@.len() - i,
    {
        push_offenders(meta, ids[i], depth, out);
        proof {
            assert(out@ =~= before + input_offenders(meta@, ids@, (i + 1) as nat, depth as nat));
        }
        i = i + 1;
    }
}

/// The audits of the grids, in order.
pub open spec fn grid_audits(m: MetaView) -> Seq<GridAuditView> {
    let ids = m.ids_of(ITEM_TYPE_GRID);
    Seq::new(ids.len(), |i: int| grid_audit(m, ids[i]))
}

/// Audit every grid.
pub fn audit_grid_derivations(meta: &Meta) -> (r: Vec<GridDerivationAudit>)
    ensures
        views(r@) == grid_audits(meta@),
{
    let ids = meta.item_ids_of_type(&ITEM_TYPE_GRID);
    let mut out: Vec<GridDerivationAudit> = Vec::new();
    let mut i: usize = 0;
    while i < ids.len()
        invariant
            i <= ids@.len(),
            ids@ == meta@.ids_of(ITEM_TYPE_GRID),
            views(out@) =~= Seq::new(i as nat, |j: int| grid_audit(meta@, ids@[j])),
        decreases ids@.len() - i,
    {
        let inputs = meta.iref_targets(&DIMG, ids[i]);
        let mut offenders: Vec<(u32, BoxType)> = Vec::new();
        push_input_offenders(meta, &inputs, 0, &mut offenders);
        let one = GridDerivationAudit { grid_item_id: ids[i], offenders };
        proof {
            assert(one@ =~= grid_audit(meta@, ids@[i as int]));
            lemma_views_push(out@, one);
        }
        out.push(one);
        i = i + 1;
    }
    out
}

// ---------------------------------------------------------------------
// Alpha planes

/// The bit depth in a configuration record.
pub open spec fn record_depth(record: Option<Seq<u8>>) -> Option<u8> {
    match record {
        Some(b) => if b.len() < 3 {
            None
        } else {
            Some(coded_depth(b[2]))
        },
        None => None,
    }
}

/// The bit depth in the third byte of a configuration record: bit 5 says
/// 12, bit 6 otherwise 10, and neither 8.
pub open spec fn coded_depth(b: u8) -> u8 {
    if b / 32 % 2 == 1 {
        12
    } else if b / 64 % 2 == 1 {
        10
    } else {
        8
    }
}

/// Whether an alpha plane has the bit depth of its master, as it shall.
#[derive(Clone, Copy, Debug, PartialEq, Eq, Structural)]
pub struct AlphaBitDepthAudit {
    /// The alpha plane.
    pub alpha_item_id: u32,
    /// The image it belongs to.
    pub master_item_id: u32,
    /// Bit depth of the alpha plane, where its record says it.
    pub alpha_bit_depth: Option<u8>,
    /// Bit depth of the image, where its record says it.
    pub master_bit_depth: Option<u8>,
}

impl AlphaBitDepthAudit {
    /// Whether both depths are known and equal.
    pub open spec fn kept(self) -> bool {
        self.alpha_bit_depth is Some && self.alpha_bit_depth == self.master_bit_depth
    }

    /// Whether both depths are known and equal.
    pub fn is_compliant(&self) -> (r: bool)
        ensures
            r == self.kept(),
    {
        match (self.alpha_bit_depth, self.master_bit_depth) {
            (Some(a), Some(b)) => a == b,
            _ => false,
        }
    }
}

/// The audit of an alpha plane and its master.
pub open spec fn alpha_audit(m: MetaView, alpha: u32, master: u32) -> AlphaBitDepthAudit {
    AlphaBitDepthAudit {
        alpha_item_id: alpha,
        master_item_id: master,
        alpha_bit_depth: record_depth(m.av1c(alpha)),
        master_bit_depth: record_depth(m.av1c(master)),
    }
}

/// The audits of an alpha plane with each of its masters.
pub open spec fn alpha_pairs(m: MetaView, alpha: u32, masters: Seq<u32>) -> Seq<
    AlphaBitDepthAudit,
> {
    Seq::new(masters.len(), |i: int| alpha_audit(m, alpha, masters[i]))
}

/// The audits that the first `n` references make: `auxl` references from
/// alpha planes.
pub open spec fn alpha_audits_of(m: MetaView, n: nat) -> Seq<AlphaBitDepthAudit>
    decreases n,
{
    if n == 0 {
        Seq::empty()
    } else {
        let e = m.irefs[n - 1];
        alpha_audits_of(m, (n - 1) as nat) + if e.reference_type == AUXL && is_alpha_item(
            m,
            e.from_id,
        ) {
            alpha_pairs(m, e.from_id, e.to_ids)
        } else {
            Seq::empty()
        }
    }
}

/// The audits of the alpha planes, in the order of their references.
pub open spec fn alpha_audits(m: MetaView) -> Seq<AlphaBitDepthAudit> {
    alpha_audits_of(m, m.irefs.len())
}

pub(crate) fn depth_of_record(record: &[u8]) -> (r: u8)
    requires
        record@.len() >= 3,
    ensures
        r == coded_depth(record@[2]),
{
    let b: u8 = record[2];
    if b / 32 % 2 == 1 {
        12
    } else if b / 64 % 2 == 1 {
        10
    } else {
        8
    }
}

fn depth_of_item(meta: &Meta, id: u32) -> (r: Option<u8>)
    ensures
        r == record_depth(meta@.av1c(id)),
{
    match meta.av1c(id) {
        Some(b) => if b.len() < 3 {
            None
        } else {
            Some(depth_of_record(b.as_slice()))
        },
        None => None,
    }
}

/// Audit every alpha plane with each of its masters.
pub fn audit_alpha_bit_depth(meta: &Meta) -> (r: Vec<AlphaBitDepthAudit>)
    ensures
        r@ == alpha_audits(meta@),
{
    let mut out: Vec<AlphaBitDepthAudit> = Vec::new();
    let mut i: usize = 0;
    while i < meta.irefs.len()
        invariant
            i <= meta.irefs@.len(),
            out@ == alpha_audits_of(meta@, i as nat),
        decreases meta.irefs@.len() - i,
    {
        let e = &meta.irefs[i];
        let ghost before = out@;
        proof {
            assert(meta@.irefs[i as int] == e@);
        }
        if same_type(&e.reference_type, &AUXL) && crate::alpha::names_alpha_plane(
            meta,
            e.from_id,
        ) {
            let ghost all = alpha_pairs(meta@, e.from_id, e.to_ids@);
            let mut j: usize = 0;
            proof {
                assert(before + all.take(0) =~= before);
            }
            while j < e.to_ids.len()
                invariant
                    j <= e.to_ids@.len(),
                    all == alpha_pairs(meta@, e.from_id, e.to_ids@),
                    out@ == before + all.take(j as int),
                decreases e.to_ids@.len() - j,
            {
                out.push(
                    AlphaBitDepthAudit {
                        alpha_item_id: e.from_id,
                        master_item_id: e.to_ids[j],
                        alpha_bit_depth: depth_of_item(meta, e.from_id),
                        master_bit_depth: depth_of_item(meta, e.to_ids[j]),
                    },
                );
                proof {
                    assert(out@ =~= before + all.take((j + 1) as int));
                }
                j = j + 1;
            }
            proof {
                assert(all.take(j as int) =~= all);
            }
        } else {
            proof {
                assert(before + Seq::<AlphaBitDepthAudit>::empty() =~= before);
            }
        }
        i = i + 1;
    }
    out
}

// ---------------------------------------------------------------------
// Sequence headers

/// Whether an image holds exactly one sequence header, as it shall.
#[derive(Clone, Copy, Debug, PartialEq, Eq, Structural)]
pub struct SequenceHeaderObuAudit {
    /// The image.
    pub item_id: u32,
    /// How many sequence headers were counted.
    pub sequence_header_count: usize,
    /// The bytes of the image are not there.
    pub missing_iloc: bool,
    /// A unit is cut off or has no valid header.
    pub truncated_obu: bool,
    /// A unit has no size of its own.
    pub has_size_field_zero: bool,
}

impl SequenceHeaderObuAudit {
    /// Whether the bytes could be read and hold one sequence header.
    pub open spec fn kept(self) -> bool {
        self.sequence_header_count == 1 && !self.missing_iloc && !self.truncated_obu
            && !self.has_size_field_zero
    }

    /// Whether the bytes could be read and hold one sequence header.
    pub fn is_compliant(&self) -> (r: bool)
        ensures
            r == self.kept(),
    {
        self.sequence_header_count == 1 && !self.missing_iloc && !self.truncated_obu
            && !self.has_size_field_zero
    }
}

/// What a walk over units finds, from byte `at` on, after `count`
/// sequence headers. It ends at a unit that cannot be read, and at one
/// without a size.
pub open spec fn walk_units(s: Seq<u8>, at: int, count: nat) -> (nat, bool, bool)
    decreases s.len() - at,
{
    if at < 0 || at >= s.len() {
        (count, false, false)
    } else {
        match obu_at(s, at) {
            Err(_) => (count, true, false),
            Ok(o) => {
                let next = if o.kind == OBU_SEQUENCE_HEADER {
                    count + 1
                } else {
                    count
                };
                if s[at] / 2 % 2 == 0 {
                    (next, false, true)
                } else if o.end <= at {
                    (next, true, false)
                } else {
                    walk_units(s, o.end, next)
                }
            },
        }
    }
}

/// The audit of an image.
pub open spec fn header_audit(m: MetaView, file: Seq<u8>, id: u32) -> SequenceHeaderObuAudit {
    match payload_bytes(file, m, id) {
        Err(_) => SequenceHeaderObuAudit {
            item_id: id,
            sequence_header_count: 0,
            missing_iloc: true,
            truncated_obu: false,
            has_size_field_zero: false,
        },
        Ok(s) => {
            let found = walk_units(s, 0, 0);
            SequenceHeaderObuAudit {
                item_id: id,
                sequence_header_count: found.0 as usize,
                missing_iloc: false,
                truncated_obu: found.1,
                has_size_field_zero: found.2,
            }
        },
    }
}

fn count_headers(s: &[u8]) -> (r: (usize, bool, bool))
    ensures
        ({
            let found = walk_units(s@, 0, 0);
            r.0 == found.0 && r.1 == found.1 && r.2 == found.2
        }),
{
    let mut count: usize = 0;
    let mut at: usize = 0;
    while at < s.len()
        invariant
            at <= s@.len(),
            count <= at,
            walk_units(s@, at as int, count as nat) == walk_units(s@, 0, 0),
        decreases s@.len() - at,
    {
        let o = match read_obu(s, at) {
            Ok(o) => o,
            Err(_) => {
                return (count, true, false);
            },
        };
        if o.kind == OBU_SEQUENCE_HEADER {
            count = count + 1;
        }
        if s[at] / 2 % 2 == 0 {
            return (count, false, true);
        }
        at = o.end;
    }
    (count, false, false)
}

fn audit_one_header(meta: &Meta, file: &[u8], id: u32) -> (r: SequenceHeaderObuAudit)
    ensures
        r == header_audit(meta@, file@, id),
{
    match item_bytes_owned_full(file, meta, id) {
        Err(_) => SequenceHeaderObuAudit {
            item_id: id,
            sequence_header_count: 0,
            missing_iloc: true,
            truncated_obu: false,
            has_size_field_zero: false,
        },
        Ok(s) => {
            let (count, cut, sizeless) = count_headers(s.as_slice());
            SequenceHeaderObuAudit {
                item_id: id,
                sequence_header_count: count,
                missing_iloc: false,
                truncated_obu: cut,
                has_size_field_zero: sizeless,
            }
        },
    }
}

/// The audits of the coded images, in order.
pub open spec fn header_audits(m: MetaView, file: Seq<u8>) -> Seq<SequenceHeaderObuAudit> {
    let ids = m.ids_of(ITEM_TYPE_AV01);
    Seq::new(ids.len(), |i: int| header_audit(m, file, ids[i]))
}

/// Audit the sequence headers of every coded image.
pub fn audit_sequence_header_obu(meta: &Meta, file: &[u8]) -> (r: Vec<SequenceHeaderObuAudit>)
    ensures
        r@ == header_audits(meta@, file@),
{
    let ids = meta.item_ids_of_type(&ITEM_TYPE_AV01);
    let mut out: Vec<SequenceHeaderObuAudit> = Vec::new();
    let mut i: usize = 0;
    while i < ids.len()
        invariant
            i <= ids@.len(),
            ids@ == meta@.ids_of(ITEM_TYPE_AV01),
            out@ =~= Seq::new(i as nat, |j: int| header_audit(meta@, file@, ids@[j])),
        decreases ids@.len() - i,
    {
        out.push(audit_one_header(meta, file, ids[i]));
        i = i + 1;
    }
    out
}

// ---------------------------------------------------------------------
// Profiles

/// A profile that a file can declare.
#[derive(Clone, Copy, Debug, PartialEq, Eq, Structural)]
pub enum AvifProfile {
    /// `MA1B`: Main profile, level 5.1 at most.
    Baseline,
    /// `MA1A`: High profile at most, level 6.0 at most.
    Advanced,
}

/// Whether a coded image keeps the bounds of a declared profile.
#[derive(Clone, Copy, Debug, PartialEq, Eq)]
pub struct AvifProfileCompliance {
    /// The image.
    pub item_id: u32,
    /// The declared profile.
    pub profile: AvifProfile,
    /// Coded profile and level index, where the configuration record says
    /// them.
    pub coded: Option<(u8, u8)>,
}

impl AvifProfileCompliance {
    /// Whether the coded profile and level are known and within bounds.
    pub open spec fn kept(self) -> bool {
        match self.coded {
            None => false,
            Some((profile, level)) => match self.profile {
                AvifProfile::Baseline => profile == 0 && level <= 13,
                AvifProfile::Advanced => profile <= 1 && level <= 16,
            },
        }
    }

    /// Whether the coded profile and level are known and within bounds.
    pub fn is_compliant(&self) -> (r: bool)
        ensures
            r == self.kept(),
    {
        match self.coded {
            None => false,
            Some((profile, level)) => match self.profile {
                AvifProfile::Baseline => profile == 0 && level <= 13,
                AvifProfile::Advanced => profile <= 1 && level <= 16,
            },
        }
    }
}

/// The profile and the level index in a configuration record.
pub open spec fn record_profile(record: Option<Seq<u8>>) -> Option<(u8, u8)> {
    match record {
        Some(b) => if b.len() < 2 {
            None
        } else {
            Some(((b[1] / 32) as u8, (b[1] % 32) as u8))
        },
        None => None,
    }
}

/// The profiles that the brands declare.
pub open spec fn declared(brands: BrandClass) -> Seq<AvifProfile> {
    (if brands.is_baseline_profile {
        seq![AvifProfile::Baseline]
    } else {
        Seq::empty()
    }) + (if brands.is_advanced_profile {
        seq![AvifProfile::Advanced]
    } else {
        Seq::empty()
    })
}

/// The audits of an image with each of the profiles.
pub open spec fn profile_pairs(m: MetaView, id: u32, profiles: Seq<AvifProfile>) -> Seq<
    AvifProfileCompliance,
> {
    Seq::new(
        profiles.len(),
        |i: int|
            AvifProfileCompliance {
                item_id: id,
                profile: profiles[i],
                coded: record_profile(m.av1c(id)),
            },
    )
}

/// The audits of the first `n` images.
pub open spec fn profile_audits_of(
    m: MetaView,
    ids: Seq<u32>,
    profiles: Seq<AvifProfile>,
    n: nat,
) -> Seq<AvifProfileCompliance>
    decreases n,
{
    if n == 0 {
        Seq::empty()
    } else {
        profile_audits_of(m, ids, profiles, (n - 1) as nat) + profile_pairs(
            m,
            ids[n - 1],
            profiles,
        )
    }
}

/// The audits of the coded images with each declared profile, in order.
pub open spec fn profile_audits(m: MetaView, brands: BrandClass) -> Seq<AvifProfileCompliance> {
    let ids = m.ids_of(ITEM_TYPE_AV01);
    profile_audits_of(m, ids, declared(brands), ids.len())
}

fn list_declared(brands: &BrandClass) -> (r: Vec<AvifProfile>)
    ensures
        r@ == declared(*brands),
{
    let mut out: Vec<AvifProfile> = Vec::new();
    if brands.is_baseline_profile {
        out.push(AvifProfile::Baseline);
    }
    if brands.is_advanced_profile {
        out.push(AvifProfile::Advanced);
    }
    proof {
        assert(out@ =~= declared(*brands));
    }
    out
}

fn profile_of_item(meta: &Meta, id: u32) -> (r: Option<(u8, u8)>)
    ensures
        r == record_profile(meta@.av1c(id)),
{
    match meta.av1c(id) {
        Some(b) => if b.len() < 2 {
            None
        } else {
            Some((b[1] / 32, b[1] % 32))
        },
        None => None,
    }
}

/// Audit every coded image with each declared profile.
pub fn audit_avif_profile_compliance(meta: &Meta, brands: &BrandClass) -> (r: Vec<
    AvifProfileCompliance,
>)
    ensures
        r@ == profile_audits(meta@, *brands),
{
    let ids = meta.item_ids_of_type(&ITEM_TYPE_AV01);
    let profiles = list_declared(brands);
    let mut out: Vec<AvifProfileCompliance> = Vec::new();
    let mut i: usize = 0;
    while i < ids.len()
        invariant
            i <= ids@.len(),
            profiles@ == declared(*brands),
            out@ == profile_audits_of(meta@, ids@, profiles@, i as nat),
        decreases ids@.len() - i,
    {
        let ghost before = out@;
        let ghost all = profile_pairs(meta@, ids@[i as int], profiles@);
        let coded = profile_of_item(meta, ids[i]);
        let mut j: usize = 0;
        proof {
            assert(before + all.take(0) =~= before);
        }
        while j < profiles.len()
            invariant
                i < ids@.len(),
                j <= profiles@.len(),
                all == profile_pairs(meta@, ids@[i as int], profiles@),
                coded == record_profile(meta@.av1c(ids@[i as int])),
                out@ == before + all.take(j as int),
            decreases profiles@.len() - j,
        {
            out.push(AvifProfileCompliance { item_id: ids[i], profile: profiles[j], coded });
            proof {
                assert(out@ =~= before + all.take((j + 1) as int));
            }
            j = j + 1;
        }
        proof {
            assert(all.take(j as int) =~= all);
        }
        i = i + 1;
    }
    out
}

} // verus!
