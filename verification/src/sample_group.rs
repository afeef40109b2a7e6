//! Sample groups of image sequence tracks: which samples belong to which
//! group (`sbgp`, `csgp`), and what the groups are (`sgpd`).

use crate::box_parser::{
    be16, be32, box_at, full_box, lemma_box_bounds, parse_box_header, parse_full_box, payload_of,
    read_u16, read_u32, same_type, type_at, type_from, BoxType,
};
use crate::error::{
    invalid_nn, lemma_views_push, outcome, outcome_view, views, AvifError, Fault,
};
use crate::groups::{bracketing_of, BracketingKind};
use crate::meta_parse::{lemma_after_all, lemma_after_none};
use crate::props_parse::{after, too_short};
use vstd::arithmetic::power2::{lemma2_to64, lemma_pow2_unfold, pow2};
use vstd::prelude::*;
use vstd::slice::{slice_subrange, slice_to_vec};

verus! {

/// `sbgp` — sample to group.
pub const SBGP: BoxType = [0x73, 0x62, 0x67, 0x70];

/// `csgp` — compact sample to group.
pub const CSGP: BoxType = [0x63, 0x73, 0x67, 0x70];

/// `sgpd` — sample group description.
pub const SGPD: BoxType = [0x73, 0x67, 0x70, 0x64];

/// `eqiv` — visual equivalence.
pub const EQIV: BoxType = [0x65, 0x71, 0x69, 0x76];

/// Most runs taken from one box.
pub const MAX_RUNS: usize = 0x10_0000;

/// A run of consecutive samples in one group. Index 0 stands for no
/// group.
#[derive(Clone, Copy, Debug, PartialEq, Eq, Structural)]
pub struct SampleToGroupRun {
    /// Number of samples.
    pub sample_count: u32,
    /// Group description index as it stands in the box.
    pub group_description_index: u32,
}

/// Whether the top bit of a field of `bits` bits is set in `index`.
pub open spec fn top_bit(index: u32, bits: u32) -> bool {
    0 < bits <= 32 && index as nat / pow2((bits - 1) as nat) % 2 == 1
}

fn power_of_two(k: u32) -> (r: u32)
    requires
        k < 32,
    ensures
        r == pow2(k as nat),
        r > 0,
{
    let mut r: u32 = 1;
    let mut i: u32 = 0;
    proof {
        lemma2_to64();
    }
    while i < k
        invariant
            i <= k < 32,
            r == pow2(i as nat),
            r > 0,
        decreases k - i,
    {
        proof {
            lemma_pow2_unfold((i + 1) as nat);
            lemma_pow2_bound((i + 1) as nat);
        }
        r = r * 2;
        i = i + 1;
    }
    r
}

proof fn lemma_pow2_bound(k: nat)
    requires
        k < 32,
    ensures
        pow2(k) <= 0x8000_0000,
{
    lemma2_to64();
    if k < 31 {
        vstd::arithmetic::power2::lemma_pow2_strictly_increases(k, 31);
    }
}

impl SampleToGroupRun {
    /// Whether the index is local to its fragment: the top bit of a
    /// field of `bits` bits.
    pub fn is_fragment_local(&self, bits: u32) -> (r: bool)
        ensures
            r == top_bit(self.group_description_index, bits),
    {
        if bits == 0 || bits > 32 {
            return false;
        }
        let top: u32 = power_of_two(bits - 1);
        self.group_description_index / top % 2 == 1
    }

    /// The index without the bit that says it is local to its fragment.
    pub fn description_index(&self, bits: u32) -> (r: u32)
        ensures
            top_bit(self.group_description_index, bits) ==> r + pow2((bits - 1) as nat)
                == self.group_description_index,
            !top_bit(self.group_description_index, bits) ==> r == self.group_description_index,
    {
        if !self.is_fragment_local(bits) {
            return self.group_description_index;
        }
        let top: u32 = power_of_two(bits - 1);
        proof {
            let x = self.group_description_index;
            if x < top {
                vstd::arithmetic::div_mod::lemma_basic_div(x as int, top as int);
            }
        }
        self.group_description_index - top
    }
}

/// The box a mapping was read from.
#[derive(Clone, Copy, Debug, PartialEq, Eq, Structural)]
pub enum SampleToGroupKind {
    /// `sbgp`: a run-length table.
    Sbgp,
    /// `csgp`: patterns of indices.
    Csgp,
}

/// Which samples of a track belong to which group of one type.
#[derive(Clone, Debug, PartialEq, Eq)]
pub struct SampleToGroup {
    /// The box it was read from.
    pub kind: SampleToGroupKind,
    /// Grouping type.
    pub grouping_type: BoxType,
    /// Grouping type parameter, when there is one.
    pub grouping_type_parameter: Option<u32>,
    /// Width in bits of an index in the box.
    pub index_bits: u32,
    /// The runs, in order.
    pub runs: Vec<SampleToGroupRun>,
}

/// A [`SampleToGroup`] as contracts speak of it.
#[verifier::ext_equal]
pub struct SampleToGroupView {
    /// The box it was read from.
    pub kind: SampleToGroupKind,
    /// Grouping type.
    pub grouping_type: BoxType,
    /// Grouping type parameter.
    pub grouping_type_parameter: Option<u32>,
    /// Width in bits of an index in the box.
    pub index_bits: u32,
    /// The runs, in order.
    pub runs: Seq<SampleToGroupRun>,
}

impl View for SampleToGroup {
    type V = SampleToGroupView;

    open spec fn view(&self) -> SampleToGroupView {
        SampleToGroupView {
            kind: self.kind,
            grouping_type: self.grouping_type,
            grouping_type_parameter: self.grouping_type_parameter,
            index_bits: self.index_bits,
            runs: self.runs@,
        }
    }
}

/// The number of samples in the first `n` runs.
pub open spec fn samples_in(runs: Seq<SampleToGroupRun>, n: nat) -> nat
    decreases n,
{
    if n == 0 {
        0
    } else {
        samples_in(runs, (n - 1) as nat) + runs[n - 1].sample_count as nat
    }
}

/// The index of the run, from run `i` on, that holds the sample `sample`
/// places after its start.
pub open spec fn index_from(runs: Seq<SampleToGroupRun>, i: int, sample: int) -> Option<u32>
    decreases runs.len() - i,
{
    if i < 0 || i >= runs.len() {
        None
    } else if sample < runs[i].sample_count {
        Some(runs[i].group_description_index)
    } else {
        index_from(runs, i + 1, sample - runs[i].sample_count)
    }
}

/// A sample has an index exactly when it lies among the samples covered.
pub proof fn law_covered_samples_have_an_index(runs: Seq<SampleToGroupRun>, sample: u32)
    ensures
        index_from(runs, 0, sample as int) is Some <==> sample < samples_in(runs, runs.len()),
{
    lemma_index_from(runs, 0, sample as int);
}

proof fn lemma_index_from(runs: Seq<SampleToGroupRun>, i: int, sample: int)
    requires
        0 <= i <= runs.len(),
        0 <= sample,
    ensures
        index_from(runs, i, sample) is Some <==> sample + samples_in(runs, i as nat) < samples_in(
            runs,
            runs.len(),
        ),
    decreases runs.len() - i,
{
    lemma_samples_grow(runs, i as nat, runs.len());
    if i < runs.len() {
        lemma_samples_grow(runs, (i + 1) as nat, runs.len());
        if sample >= runs[i].sample_count {
            lemma_index_from(runs, i + 1, sample - runs[i].sample_count);
        }
    }
}

proof fn lemma_samples_grow(runs: Seq<SampleToGroupRun>, a: nat, b: nat)
    requires
        a <= b,
    ensures
        samples_in(runs, a) <= samples_in(runs, b),
    decreases b,
{
    if a < b {
        lemma_samples_grow(runs, a, (b - 1) as nat);
    }
}

impl SampleToGroup {
    /// The number of samples that the runs cover, at most `u64::MAX`.
    pub fn covered_sample_count(&self) -> (r: u64)
        ensures
            samples_in(self.runs@, self.runs@.len()) <= u64::MAX ==> r == samples_in(
                self.runs@,
                self.runs@.len(),
            ),
            samples_in(self.runs@, self.runs@.len()) > u64::MAX ==> r == u64::MAX,
    {
        let mut total: u64 = 0;
        let mut i: usize = 0;
        while i < self.runs.len()
            invariant
                i <= self.runs@.len(),
                samples_in(self.runs@, i as nat) <= u64::MAX ==> total == samples_in(
                    self.runs@,
                    i as nat,
                ),
                samples_in(self.runs@, i as nat) > u64::MAX ==> total == u64::MAX,
            decreases self.runs@.len() - i,
        {
            let n: u64 = self.runs[i].sample_count as u64;
            total = if n > u64::MAX - total {
                u64::MAX
            } else {
                total + n
            };
            i = i + 1;
        }
        total
    }

    /// The index of the group that a sample, counted from 0, belongs to;
    /// nothing for a sample that no run covers.
    pub fn group_index_for_sample(&self, sample: u32) -> (r: Option<u32>)
        ensures
            r == index_from(self.runs@, 0, sample as int),
    {
        let mut left: u32 = sample;
        let mut i: usize = 0;
        while i < self.runs.len()
            invariant
                i <= self.runs@.len(),
                index_from(self.runs@, i as int, left as int) == index_from(
                    self.runs@,
                    0,
                    sample as int,
                ),
            decreases self.runs@.len() - i,
        {
            let run = self.runs[i];
            if left < run.sample_count {
                return Some(run.group_description_index);
            }
            left = left - run.sample_count;
            i = i + 1;
        }
        None
    }
}

/// What the groups of one type are.
#[derive(Clone, Debug, PartialEq, Eq)]
pub struct SampleGroupDescription {
    /// Box version.
    pub version: u8,
    /// Grouping type.
    pub grouping_type: BoxType,
    /// Length of every entry, in version 1; 0 when each entry says its
    /// own.
    pub default_length: Option<u32>,
    /// Group of the samples that no run covers, from version 2 on.
    pub default_group_description_index: Option<u32>,
    /// Number of entries that the box announces.
    pub entry_count: u32,
    /// The entries; none in version 0, which does not say their lengths.
    pub entries: Vec<Vec<u8>>,
}

/// A [`SampleGroupDescription`] as contracts speak of it.
#[verifier::ext_equal]
pub struct SampleGroupDescriptionView {
    /// Box version.
    pub version: u8,
    /// Grouping type.
    pub grouping_type: BoxType,
    /// Length of every entry.
    pub default_length: Option<u32>,
    /// Group of the samples that no run covers.
    pub default_group_description_index: Option<u32>,
    /// Number of entries that the box announces.
    pub entry_count: u32,
    /// The entries.
    pub entries: Seq<Seq<u8>>,
}

impl View for SampleGroupDescription {
    type V = SampleGroupDescriptionView;

    open spec fn view(&self) -> SampleGroupDescriptionView {
        SampleGroupDescriptionView {
            version: self.version,
            grouping_type: self.grouping_type,
            default_length: self.default_length,
            default_group_description_index: self.default_group_description_index,
            entry_count: self.entry_count,
            entries: views(self.entries@),
        }
    }
}

/// A 32-bit field at `at`; `what` is the fault when it is not all there.
pub open spec fn field32(s: Seq<u8>, at: int, what: Seq<char>) -> Result<u32, Fault> {
    if at + 4 <= s.len() {
        Ok(be32(s, at))
    } else {
        Err(Fault::Invalid(what))
    }
}

fn read_field32(buf: &[u8], at: usize, what: &str) -> (r: Result<u32, AvifError>)
    ensures
        outcome(r) == field32(buf@, at as int, what@),
        r is Ok ==> at + 4 <= buf.len(),
{
    match read_u32(buf, at) {
        Ok(v) => Ok(v),
        Err(_) => Err(AvifError::invalid(what)),
    }
}

/// The four-character code at `at`; `what` is the fault when it is not
/// all there.
pub open spec fn field_type(s: Seq<u8>, at: int, what: Seq<char>) -> Result<BoxType, Fault> {
    if at + 4 <= s.len() {
        Ok(type_at(s, at))
    } else {
        Err(Fault::Invalid(what))
    }
}

fn read_fourcc(buf: &[u8], what: &str) -> (r: Result<BoxType, AvifError>)
    ensures
        outcome(r) == field_type(buf@, 0, what@),
        r is Ok ==> 4 <= buf.len(),
{
    if buf.len() < 4 {
        return Err(AvifError::invalid(what));
    }
    Ok(type_from(buf, 0))
}

/// An optional 32-bit field at `at`, and the offset after it.
pub open spec fn optional32(s: Seq<u8>, at: int, present: bool, what: Seq<char>) -> Result<
    (Option<u32>, int),
    Fault,
> {
    if !present {
        Ok((None, at))
    } else {
        match field32(s, at, what) {
            Err(f) => Err(f),
            Ok(v) => Ok((Some(v), at + 4)),
        }
    }
}

fn read_optional32(buf: &[u8], at: usize, present: bool, what: &str) -> (r: Result<
    (Option<u32>, usize),
    AvifError,
>)
    requires
        at <= buf.len(),
    ensures
        crate::meta_parse::outcome_at(r) == optional32(buf@, at as int, present, what@),
        r matches Ok((_, next)) ==> at <= next <= buf.len(),
{
    if !present {
        return Ok((None, at));
    }
    let v: u32 = read_field32(buf, at, what)?;
    Ok((Some(v), at + 4))
}

/// At most `n` run-length entries from `at` on: as many as are all
/// there.
pub open spec fn runs_at(s: Seq<u8>, at: int, n: nat) -> Seq<SampleToGroupRun>
    decreases n,
{
    if n == 0 || at + 8 > s.len() {
        Seq::empty()
    } else {
        seq![
            SampleToGroupRun {
                sample_count: be32(s, at),
                group_description_index: be32(s, at + 4),
            },
        ] + runs_at(s, at + 8, (n - 1) as nat)
    }
}

/// The lesser of two numbers.
pub open spec fn least(a: int, b: int) -> int {
    if a < b {
        a
    } else {
        b
    }
}

/// The mapping in an `sbgp` payload.
pub open spec fn sbgp_of(s: Seq<u8>) -> Result<SampleToGroupView, Fault> {
    match full_box(s) {
        Err(f) => Err(f),
        Ok((version, _, b)) => match field_type(b, 0, "sbgp: truncated grouping_type"@) {
            Err(f) => Err(f),
            Ok(grouping_type) => match optional32(
                b,
                4,
                version == 1,
                "sbgp: truncated grouping_type_parameter"@,
            ) {
                Err(f) => Err(f),
                Ok((grouping_type_parameter, at)) => match field32(
                    b,
                    at,
                    "sbgp: truncated entry_count"@,
                ) {
                    Err(f) => Err(f),
                    Ok(count) => Ok(
                        SampleToGroupView {
                            kind: SampleToGroupKind::Sbgp,
                            grouping_type,
                            grouping_type_parameter,
                            index_bits: 32,
                            runs: runs_at(b, at + 4, least(count as int, MAX_RUNS as int) as nat),
                        },
                    ),
                },
            },
        },
    }
}

/// Parse `sbgp`. A table that ends early gives the runs before its end.
pub fn parse_sbgp(payload: &[u8]) -> (r: Result<SampleToGroup, AvifError>)
    ensures
        outcome_view(r) == sbgp_of(payload@),
{
    let (version, _flags, body) = parse_full_box(payload)?;
    let grouping_type = read_fourcc(body, "sbgp: truncated grouping_type")?;
    let (grouping_type_parameter, at0) = read_optional32(
        body,
        4,
        version == 1,
        "sbgp: truncated grouping_type_parameter",
    )?;
    let count: u32 = read_field32(body, at0, "sbgp: truncated entry_count")?;
    let mut runs: Vec<SampleToGroupRun> = Vec::new();
    let mut at: usize = at0 + 4;
    let mut left: usize = if count > 0x10_0000 {
        MAX_RUNS
    } else {
        count as usize
    };
    let ghost all = runs_at(body@, at as int, left as nat);
    proof {
        assert(runs@ + all =~= all);
    }
    while left > 0 && body.len() - at >= 8
        invariant
            at <= body.len(),
            runs@ + runs_at(body@, at as int, left as nat) == all,
        decreases left,
    {
        let run = SampleToGroupRun {
            sample_count: read_u32(body, at)?,
            group_description_index: read_u32(body, at + 4)?,
        };
        let ghost before = runs@;
        runs.push(run);
        proof {
            let rest = runs_at(body@, at + 8, (left - 1) as nat);
            assert(runs@ + rest =~= before + (seq![run] + rest));
        }
        at = at + 8;
        left = left - 1;
    }
    proof {
        assert(runs@ + Seq::<SampleToGroupRun>::empty() =~= runs@);
    }
    Ok(
        SampleToGroup {
            kind: SampleToGroupKind::Sbgp,
            grouping_type,
            grouping_type_parameter,
            index_bits: 32,
            runs,
        },
    )
}

/// The bit at place `p`, counted from the top bit of the first byte.
pub open spec fn bit_at(s: Seq<u8>, p: int) -> nat {
    s[p / 8] as nat / pow2((7 - p % 8) as nat) % 2
}

/// The value of the `n` bits from place `p` on, the first one highest.
pub open spec fn bits_at(s: Seq<u8>, p: int, n: nat) -> nat
    decreases n,
{
    if n == 0 {
        0
    } else {
        bits_at(s, p, (n - 1) as nat) * 2 + bit_at(s, p + n - 1)
    }
}

/// Whether `n` bits are there from place `p` on.
pub open spec fn has_bits(s: Seq<u8>, p: int, n: int) -> bool {
    p + n <= s.len() * 8
}

proof fn lemma_bits_bound(s: Seq<u8>, p: int, n: nat)
    ensures
        bits_at(s, p, n) < pow2(n),
    decreases n,
{
    lemma2_to64();
    if n > 0 {
        lemma_bits_bound(s, p, (n - 1) as nat);
        lemma_pow2_unfold(n);
    }
}

/// A value of at most 32 bits fits a `u32`.
proof fn lemma_bits_u32(s: Seq<u8>, p: int, n: nat)
    requires
        n <= 32,
    ensures
        bits_at(s, p, n) <= u32::MAX,
{
    lemma_bits_bound(s, p, n);
    lemma2_to64();
    if n < 32 {
        vstd::arithmetic::power2::lemma_pow2_strictly_increases(n, 32);
    }
}

/// A reader of fields of any width, from the top bit down.
pub struct BitReader<'a> {
    /// The bytes that are read.
    pub buf: &'a [u8],
    /// How many bits have been read.
    pub pos: u128,
}

impl<'a> BitReader<'a> {
    /// Whether no more bits have been read than there are.
    pub open spec fn wf(&self) -> bool {
        self.pos <= self.buf.len() * 8
    }

    /// A reader at the first bit.
    pub fn new(buf: &'a [u8]) -> (r: BitReader<'a>)
        ensures
            r.buf == buf,
            r.pos == 0,
            r.wf(),
    {
        BitReader { buf, pos: 0 }
    }

    /// Read `n` bits; nothing when fewer are left.
    pub fn read(&mut self, n: u32) -> (r: Option<u32>)
        requires
            n <= 32,
            old(self).wf(),
        ensures
            final(self).buf == old(self).buf,
            r is Some <==> has_bits(old(self).buf@, old(self).pos as int, n as int),
            r matches Some(v) ==> v == bits_at(old(self).buf@, old(self).pos as int, n as nat)
                && final(self).pos == old(self).pos + n,
            r is None ==> final(self).pos == old(self).pos,
            final(self).wf(),
    {
        let total: u128 = self.buf.len() as u128 * 8;
        if n as u128 > total - self.pos {
            return None;
        }
        let start: u128 = self.pos;
        let mut value: u32 = 0;
        let mut i: u32 = 0;
        while i < n
            invariant
                i <= n <= 32,
                start + n <= total,
                total == self.buf.len() * 8,
                self.buf == old(self).buf,
                self.pos == start + i,
                value == bits_at(self.buf@, start as int, i as nat),
            decreases n - i,
        {
            let byte: u8 = self.buf[(self.pos / 8) as usize];
            let shift: u32 = 7 - (self.pos % 8) as u32;
            let bit: u32 = byte as u32 / power_of_two(shift) % 2;
            proof {
                lemma_bits_u32(self.buf@, start as int, (i + 1) as nat);
                assert(bit as nat == bit_at(self.buf@, start + i));
            }
            value = value * 2 + bit;
            self.pos = self.pos + 1;
            i = i + 1;
        }
        Some(value)
    }
}

/// The width in bits that a two-bit code stands for.
pub open spec fn width_of(code: u32) -> u32 {
    if code == 0 {
        4
    } else if code == 1 {
        8
    } else if code == 2 {
        16
    } else {
        32
    }
}

fn width(code: u32) -> (r: u32)
    ensures
        r == width_of(code),
        4 <= r <= 32,
{
    if code == 0 {
        4
    } else if code == 1 {
        8
    } else if code == 2 {
        16
    } else {
        32
    }
}

/// At most `n` patterns from bit `p` on, each a length and a sample
/// count, and the place where reading stopped. A pattern that is not all
/// there is left out, though its length may have been read.
pub open spec fn patterns_at(s: Seq<u8>, p: int, wl: u32, wc: u32, n: nat) -> (Seq<(u32, u32)>, int)
    decreases n,
{
    if n == 0 || !has_bits(s, p, wl as int) {
        (Seq::empty(), p)
    } else if !has_bits(s, p + wl, wc as int) {
        (Seq::empty(), p + wl)
    } else {
        let (rest, end) = patterns_at(s, p + wl + wc, wl, wc, (n - 1) as nat);
        (
            seq![
                (bits_at(s, p, wl as nat) as u32, bits_at(s, p + wl, wc as nat) as u32),
            ] + rest,
            end,
        )
    }
}

/// The runs of one pattern of `len` indices over `count` samples: the
/// samples are shared out evenly, the first ones taking what is left
/// over.
pub open spec fn pattern_runs(s: Seq<u8>, p: int, wi: u32, len: u32, count: u32) -> Seq<
    SampleToGroupRun,
> {
    Seq::new(
        len as nat,
        |k: int|
            SampleToGroupRun {
                sample_count: (count / len + if k < count % len {
                    1int
                } else {
                    0int
                }) as u32,
                group_description_index: bits_at(s, p + k * wi, wi as nat) as u32,
            },
    )
}

/// The runs of the patterns from pattern `j` on, with the indices from
/// bit `p` on; `done` runs came before. An empty pattern gives none. The
/// runs end where the indices end, or where there would be too many.
pub open spec fn expanded(
    s: Seq<u8>,
    p: int,
    wi: u32,
    patterns: Seq<(u32, u32)>,
    j: int,
    done: nat,
) -> Seq<SampleToGroupRun>
    decreases patterns.len() - j,
{
    if j < 0 || j >= patterns.len() {
        Seq::empty()
    } else {
        let (len, count) = patterns[j];
        if len == 0 {
            expanded(s, p, wi, patterns, j + 1, done)
        } else if !has_bits(s, p, len * wi) || done + len > MAX_RUNS {
            Seq::empty()
        } else {
            pattern_runs(s, p, wi, len, count) + expanded(
                s,
                p + len * wi,
                wi,
                patterns,
                j + 1,
                done + len as nat,
            )
        }
    }
}

/// The runs of one pattern cover exactly its samples.
pub proof fn law_pattern_runs_cover_the_samples(s: Seq<u8>, p: int, wi: u32, len: u32, count: u32)
    requires
        len > 0,
    ensures
        samples_in(pattern_runs(s, p, wi, len, count), len as nat) == count,
{
    lemma_pattern_samples(s, p, wi, len, count, len as nat);
    vstd::arithmetic::div_mod::lemma_fundamental_div_mod(count as int, len as int);
    assert(len * (count / len) == (count / len) * len) by (nonlinear_arith);
}

proof fn lemma_pattern_samples(s: Seq<u8>, p: int, wi: u32, len: u32, count: u32, n: nat)
    requires
        len > 0,
        n <= len,
    ensures
        samples_in(pattern_runs(s, p, wi, len, count), n) == n * (count / len) + least(
            n as int,
            (count % len) as int,
        ),
    decreases n,
{
    if n > 0 {
        lemma_pattern_samples(s, p, wi, len, count, (n - 1) as nat);
        lemma_share_fits(count, len);
        assert(n * (count / len) == (n - 1) * (count / len) + (count / len)) by (nonlinear_arith)
            requires
                n > 0,
        ;
    } else {
        assert(0 * (count / len) == 0) by (nonlinear_arith);
    }
}

proof fn lemma_share_fits(count: u32, len: u32)
    requires
        len > 0,
    ensures
        count / len <= count,
        count % len > 0 ==> count / len + 1 <= count,
{
    assert(count / len <= count && (count % len > 0 ==> count / len + 1 <= count))
        by (nonlinear_arith)
        requires
            len > 0,
    ;
}

/// The mapping in a `csgp` payload.
pub open spec fn csgp_of(s: Seq<u8>) -> Result<SampleToGroupView, Fault> {
    match full_box(s) {
        Err(f) => Err(f),
        Ok((_, flags, b)) => match field_type(b, 0, "csgp: truncated grouping_type"@) {
            Err(f) => Err(f),
            Ok(grouping_type) => match optional32(
                b,
                4,
                flags / 64 % 2 == 1,
                "csgp: truncated grouping_type_parameter"@,
            ) {
                Err(f) => Err(f),
                Ok((grouping_type_parameter, at)) => match field32(
                    b,
                    at,
                    "csgp: truncated pattern_count"@,
                ) {
                    Err(f) => Err(f),
                    Ok(count) => {
                        let (patterns, p) = patterns_at(
                            b,
                            (at + 4) * 8,
                            width_of(flags / 16 % 4),
                            width_of(flags / 4 % 4),
                            least(count as int, MAX_RUNS as int) as nat,
                        );
                        Ok(
                            SampleToGroupView {
                                kind: SampleToGroupKind::Csgp,
                                grouping_type,
                                grouping_type_parameter,
                                index_bits: width_of(flags % 4),
                                runs: expanded(b, p, width_of(flags % 4), patterns, 0, 0),
                            },
                        )
                    },
                },
            },
        },
    }
}

fn read_patterns(reader: &mut BitReader<'_>, wl: u32, wc: u32, n: usize) -> (r: Vec<(u32, u32)>)
    requires
        4 <= wl <= 32,
        4 <= wc <= 32,
        old(reader).pos <= old(reader).buf.len() * 8,
    ensures
        final(reader).buf == old(reader).buf,
        final(reader).pos <= final(reader).buf.len() * 8,
        (r@, final(reader).pos as int) == patterns_at(
            old(reader).buf@,
            old(reader).pos as int,
            wl,
            wc,
            n as nat,
        ),
{
    let mut out: Vec<(u32, u32)> = Vec::new();
    let mut left: usize = n;
    let ghost all = patterns_at(reader.buf@, reader.pos as int, wl, wc, n as nat);
    proof {
        assert(out@ + all.0 =~= all.0);
    }
    while left > 0
        invariant
            4 <= wl <= 32,
            4 <= wc <= 32,
            reader.buf == old(reader).buf,
            reader.pos <= reader.buf.len() * 8,
            all == patterns_at(old(reader).buf@, old(reader).pos as int, wl, wc, n as nat),
            (
                out@ + patterns_at(reader.buf@, reader.pos as int, wl, wc, left as nat).0,
                patterns_at(reader.buf@, reader.pos as int, wl, wc, left as nat).1,
            ) == all,
        decreases left,
    {
        let ghost p = reader.pos as int;
        let len: u32 = match reader.read(wl) {
            None => {
                proof {
                    assert(out@ + Seq::<(u32, u32)>::empty() =~= out@);
                }
                return out;
            },
            Some(v) => v,
        };
        let count: u32 = match reader.read(wc) {
            None => {
                proof {
                    assert(out@ + Seq::<(u32, u32)>::empty() =~= out@);
                }
                return out;
            },
            Some(v) => v,
        };
        let ghost before = out@;
        out.push((len, count));
        proof {
            lemma_bits_u32(reader.buf@, p, wl as nat);
            lemma_bits_u32(reader.buf@, p + wl, wc as nat);
            let rest = patterns_at(reader.buf@, p + wl + wc, wl, wc, (left - 1) as nat).0;
            assert(out@ + rest =~= before + (seq![(len, count)] + rest));
        }
        left = left - 1;
    }
    proof {
        assert(out@ + Seq::<(u32, u32)>::empty() =~= out@);
    }
    out
}

fn read_pattern_runs(
    reader: &mut BitReader<'_>,
    wi: u32,
    len: u32,
    count: u32,
    runs: &mut Vec<SampleToGroupRun>,
)
    requires
        4 <= wi <= 32,
        len > 0,
        has_bits(old(reader).buf@, old(reader).pos as int, len * wi),
        old(reader).pos <= old(reader).buf.len() * 8,
    ensures
        final(reader).buf == old(reader).buf,
        final(reader).pos == old(reader).pos + len * wi,
        final(reader).pos <= final(reader).buf.len() * 8,
        final(runs)@ == old(runs)@ + pattern_runs(
            old(reader).buf@,
            old(reader).pos as int,
            wi,
            len,
            count,
        ),
{
    let base: u32 = count / len;
    let rem: u32 = count % len;
    let ghost before = runs@;
    let ghost p = reader.pos as int;
    let ghost s = reader.buf@;
    let ghost all = pattern_runs(s, p, wi, len, count);
    let mut k: u32 = 0;
    proof {
        lemma_share_fits(count, len);
        assert(before + all.take(0) =~= before);
        assert(0 * wi == 0) by (nonlinear_arith);
    }
    while k < len
        invariant
            k <= len,
            4 <= wi <= 32,
            len > 0,
            base == count / len,
            rem == count % len,
            base <= count,
            rem > 0 ==> base + 1 <= count,
            s == old(reader).buf@,
            p == old(reader).pos,
            reader.buf == old(reader).buf,
            reader.pos == p + k * wi,
            reader.pos <= reader.buf.len() * 8,
            has_bits(s, p, len * wi),
            all == pattern_runs(s, p, wi, len, count),
            runs@ == before + all.take(k as int),
        decreases len - k,
    {
        proof {
            assert((k + 1) * wi == k * wi + wi) by (nonlinear_arith);
            assert((k + 1) * wi <= len * wi) by (nonlinear_arith)
                requires
                    k + 1 <= len,
            ;
            lemma_bits_u32(s, p + k * wi, wi as nat);
        }
        let index: u32 = match reader.read(wi) {
            Some(v) => v,
            None => 0,
        };
        let share: u32 = if k < rem {
            base + 1
        } else {
            base
        };
        runs.push(SampleToGroupRun { sample_count: share, group_description_index: index });
        proof {
            assert(all.take(k + 1) =~= all.take(k as int).push(all[k as int]));
            assert(runs@ =~= before + all.take(k + 1));
        }
        k = k + 1;
    }
    proof {
        assert(all.take(len as int) =~= all);
    }
}

fn expand(reader: &mut BitReader<'_>, wi: u32, patterns: &Vec<(u32, u32)>) -> (r: Vec<
    SampleToGroupRun,
>)
    requires
        4 <= wi <= 32,
        old(reader).pos <= old(reader).buf.len() * 8,
    ensures
        r@ == expanded(old(reader).buf@, old(reader).pos as int, wi, patterns@, 0, 0),
{
    let mut runs: Vec<SampleToGroupRun> = Vec::new();
    let mut j: usize = 0;
    let ghost all = expanded(reader.buf@, reader.pos as int, wi, patterns@, 0, 0);
    proof {
        assert(runs@ + all =~= all);
    }
    while j < patterns.len()
        invariant
            j <= patterns@.len(),
            4 <= wi <= 32,
            reader.buf == old(reader).buf,
            reader.pos <= reader.buf.len() * 8,
            runs@.len() <= MAX_RUNS,
            all == expanded(old(reader).buf@, old(reader).pos as int, wi, patterns@, 0, 0),
            runs@ + expanded(
                reader.buf@,
                reader.pos as int,
                wi,
                patterns@,
                j as int,
                runs@.len(),
            ) == all,
        decreases patterns@.len() - j,
    {
        let (len, count) = patterns[j];
        if len > 0 {
            let total: u128 = reader.buf.len() as u128 * 8;
            proof {
                assert(len * wi <= 0xffff_ffff * 32) by (nonlinear_arith)
                    requires
                        len <= 0xffff_ffff,
                        wi <= 32,
                ;
                assert(len * wi >= 0) by (nonlinear_arith);
            }
            if len as u128 * wi as u128 > total - reader.pos || len as usize > MAX_RUNS
                - runs.len() {
                proof {
                    assert(runs@ + Seq::<SampleToGroupRun>::empty() =~= runs@);
                }
                return runs;
            }
            let ghost before = runs@;
            let ghost p = reader.pos as int;
            read_pattern_runs(reader, wi, len, count, &mut runs);
            proof {
                let mid = pattern_runs(reader.buf@, p, wi, len, count);
                let rest = expanded(
                    reader.buf@,
                    p + len * wi,
                    wi,
                    patterns@,
                    j + 1,
                    before.len() + len as nat,
                );
                assert(runs@.len() == before.len() + len);
                assert(runs@ + rest =~= before + (mid + rest));
            }
        }
        j = j + 1;
    }
    proof {
        assert(runs@ + Seq::<SampleToGroupRun>::empty() =~= runs@);
    }
    runs
}

/// Parse `csgp`. A body that ends early gives what comes before its end.
pub fn parse_csgp(payload: &[u8]) -> (r: Result<SampleToGroup, AvifError>)
    ensures
        outcome_view(r) == csgp_of(payload@),
{
    let (_version, flags, body) = parse_full_box(payload)?;
    let index_bits: u32 = width(flags % 4);
    let count_bits: u32 = width(flags / 4 % 4);
    let pattern_bits: u32 = width(flags / 16 % 4);
    let grouping_type = read_fourcc(body, "csgp: truncated grouping_type")?;
    let (grouping_type_parameter, at) = read_optional32(
        body,
        4,
        flags / 64 % 2 == 1,
        "csgp: truncated grouping_type_parameter",
    )?;
    let count: u32 = read_field32(body, at, "csgp: truncated pattern_count")?;
    let limit: usize = if count > 0x10_0000 {
        MAX_RUNS
    } else {
        count as usize
    };
    let mut reader = BitReader { buf: body, pos: (at + 4) as u128 * 8 };
    let patterns = read_patterns(&mut reader, pattern_bits, count_bits, limit);
    let runs = expand(&mut reader, index_bits, &patterns);
    Ok(
        SampleToGroup {
            kind: SampleToGroupKind::Csgp,
            grouping_type,
            grouping_type_parameter,
            index_bits,
            runs,
        },
    )
}

/// At most `n` entries from `at` on, of `fixed` bytes each or, when that
/// is 0, each after its own length: as many as are all there.
pub open spec fn entries_at(s: Seq<u8>, at: int, fixed: u32, n: nat) -> Seq<Seq<u8>>
    decreases n,
{
    if n == 0 {
        Seq::empty()
    } else if fixed != 0 {
        if at + fixed > s.len() {
            Seq::empty()
        } else {
            seq![s.subrange(at, at + fixed)] + entries_at(s, at + fixed, fixed, (n - 1) as nat)
        }
    } else if at + 4 > s.len() || at + 4 + be32(s, at) > s.len() {
        Seq::empty()
    } else {
        seq![s.subrange(at + 4, at + 4 + be32(s, at))] + entries_at(
            s,
            at + 4 + be32(s, at),
            fixed,
            (n - 1) as nat,
        )
    }
}

/// The description in an `sgpd` payload.
pub open spec fn sgpd_of(s: Seq<u8>) -> Result<SampleGroupDescriptionView, Fault> {
    match full_box(s) {
        Err(f) => Err(f),
        Ok((version, _, b)) => match field_type(b, 0, "sgpd: truncated grouping_type"@) {
            Err(f) => Err(f),
            Ok(grouping_type) => match optional32(
                b,
                4,
                version == 1,
                "sgpd: truncated default_length"@,
            ) {
                Err(f) => Err(f),
                Ok((default_length, at1)) => match optional32(
                    b,
                    at1,
                    version >= 2,
                    "sgpd: truncated default_group_description_index"@,
                ) {
                    Err(f) => Err(f),
                    Ok((default_group_description_index, at2)) => match field32(
                        b,
                        at2,
                        "sgpd: truncated entry_count"@,
                    ) {
                        Err(f) => Err(f),
                        Ok(entry_count) => Ok(
                            SampleGroupDescriptionView {
                                version,
                                grouping_type,
                                default_length,
                                default_group_description_index,
                                entry_count,
                                entries: if version >= 1 {
                                    entries_at(
                                        b,
                                        at2 + 4,
                                        match default_length {
                                            Some(n) => n,
                                            None => 0,
                                        },
                                        entry_count as nat,
                                    )
                                } else {
                                    Seq::empty()
                                },
                            },
                        ),
                    },
                },
            },
        },
    }
}

fn read_entries(buf: &[u8], start: usize, fixed: u32, n: u32) -> (r: Vec<Vec<u8>>)
    requires
        start <= buf.len(),
    ensures
        views(r@) == entries_at(buf@, start as int, fixed, n as nat),
{
    let mut out: Vec<Vec<u8>> = Vec::new();
    let mut at: usize = start;
    let mut left: u32 = n;
    let ghost all = entries_at(buf@, start as int, fixed, n as nat);
    proof {
        assert(views(out@) + all =~= all);
    }
    while left > 0
        invariant
            at <= buf.len(),
            all == entries_at(buf@, start as int, fixed, n as nat),
            views(out@) + entries_at(buf@, at as int, fixed, left as nat) == all,
        decreases left,
    {
        let ghost before = out@;
        let mut from: usize = at;
        let mut len: u32 = fixed;
        if fixed == 0 {
            match read_u32(buf, at) {
                Ok(v) => {
                    len = v;
                    from = at + 4;
                },
                Err(_) => {
                    proof {
                        assert(views(out@) + Seq::<Seq<u8>>::empty() =~= views(out@));
                    }
                    return out;
                },
            }
        }
        if len as u64 > (buf.len() - from) as u64 {
            proof {
                assert(views(out@) + Seq::<Seq<u8>>::empty() =~= views(out@));
            }
            return out;
        }
        let end: usize = from + len as usize;
        let entry = slice_to_vec(slice_subrange(buf, from, end));
        out.push(entry);
        proof {
            lemma_views_push(before, entry);
            let rest = entries_at(buf@, end as int, fixed, (left - 1) as nat);
            assert(views(out@) + rest =~= views(before) + (seq![entry@] + rest));
        }
        at = end;
        left = left - 1;
    }
    proof {
        assert(views(out@) + Seq::<Seq<u8>>::empty() =~= views(out@));
    }
    out
}

/// Parse `sgpd`. Entries that are not all there are left out.
pub fn parse_sgpd(payload: &[u8]) -> (r: Result<SampleGroupDescription, AvifError>)
    ensures
        outcome_view(r) == sgpd_of(payload@),
{
    let (version, _flags, body) = parse_full_box(payload)?;
    let grouping_type = read_fourcc(body, "sgpd: truncated grouping_type")?;
    let (default_length, at1) = read_optional32(
        body,
        4,
        version == 1,
        "sgpd: truncated default_length",
    )?;
    let (default_group_description_index, at2) = read_optional32(
        body,
        at1,
        version >= 2,
        "sgpd: truncated default_group_description_index",
    )?;
    let entry_count: u32 = read_field32(body, at2, "sgpd: truncated entry_count")?;
    let entries = if version >= 1 {
        let fixed: u32 = match default_length {
            Some(n) => n,
            None => 0,
        };
        read_entries(body, at2 + 4, fixed, entry_count)
    } else {
        Vec::new()
    };
    proof {
        if version == 0 {
            assert(views(entries@) =~= Seq::<Seq<u8>>::empty());
        }
    }
    Ok(
        SampleGroupDescription {
            version,
            grouping_type,
            default_length,
            default_group_description_index,
            entry_count,
            entries,
        },
    )
}

/// The mappings among the boxes packed in `s` from `at` on. A mapping
/// that does not parse is left out; a malformed box header ends the
/// list.
pub open spec fn mappings_from(s: Seq<u8>, at: int) -> Seq<SampleToGroupView>
    decreases s.len() - at,
{
    if at < 0 || at >= s.len() {
        Seq::empty()
    } else {
        match box_at(s, at) {
            Err(_) => Seq::empty(),
            Ok(b) => if b.end <= at {
                Seq::empty()
            } else {
                let p = s.subrange(b.payload, b.end);
                let rest = mappings_from(s, b.end);
                if b.box_type == SBGP {
                    match sbgp_of(p) {
                        Ok(m) => seq![m] + rest,
                        Err(_) => rest,
                    }
                } else if b.box_type == CSGP {
                    match csgp_of(p) {
                        Ok(m) => seq![m] + rest,
                        Err(_) => rest,
                    }
                } else {
                    rest
                }
            },
        }
    }
}

proof fn lemma_list_push<T: View>(done: Seq<T>, x: T, rest: Seq<T::V>)
    ensures
        views(done.push(x)) + rest == views(done) + (seq![x@] + rest),
{
    lemma_views_push(done, x);
    assert(views(done.push(x)) + rest =~= views(done) + (seq![x@] + rest));
}

/// Every sample-to-group mapping among the boxes of a sample table.
pub fn parse_sample_to_groups(stbl: &[u8]) -> (r: Vec<SampleToGroup>)
    ensures
        views(r@) == mappings_from(stbl@, 0),
{
    let mut out: Vec<SampleToGroup> = Vec::new();
    let mut at: usize = 0;
    proof {
        assert(views(out@) + mappings_from(stbl@, 0) =~= mappings_from(stbl@, 0));
    }
    while at < stbl.len()
        invariant
            at <= stbl.len(),
            views(out@) + mappings_from(stbl@, at as int) == mappings_from(stbl@, 0),
        decreases stbl.len() - at,
    {
        let h = match parse_box_header(stbl, at) {
            Ok(h) => h,
            Err(_) => {
                proof {
                    assert(views(out@) + Seq::<SampleToGroupView>::empty() =~= views(out@));
                }
                return out;
            },
        };
        proof {
            lemma_box_bounds(stbl@, at as int);
        }
        let p = payload_of(stbl, &h);
        let found: Option<SampleToGroup> = if same_type(&h.box_type, &SBGP) {
            match parse_sbgp(p) {
                Ok(m) => Some(m),
                Err(_) => None,
            }
        } else if same_type(&h.box_type, &CSGP) {
            match parse_csgp(p) {
                Ok(m) => Some(m),
                Err(_) => None,
            }
        } else {
            None
        };
        match found {
            Some(m) => {
                proof {
                    lemma_list_push(out@, m, mappings_from(stbl@, h@.end));
                }
                out.push(m);
            },
            None => {},
        }
        at = h.end();
    }
    proof {
        assert(views(out@) + Seq::<SampleToGroupView>::empty() =~= views(out@));
    }
    out
}

/// The group descriptions among the boxes packed in `s` from `at` on. A
/// description that does not parse is left out; a malformed box header
/// ends the list.
pub open spec fn descriptions_from(s: Seq<u8>, at: int) -> Seq<SampleGroupDescriptionView>
    decreases s.len() - at,
{
    if at < 0 || at >= s.len() {
        Seq::empty()
    } else {
        match box_at(s, at) {
            Err(_) => Seq::empty(),
            Ok(b) => if b.end <= at {
                Seq::empty()
            } else {
                let rest = descriptions_from(s, b.end);
                if b.box_type == SGPD {
                    match sgpd_of(s.subrange(b.payload, b.end)) {
                        Ok(d) => seq![d] + rest,
                        Err(_) => rest,
                    }
                } else {
                    rest
                }
            },
        }
    }
}

/// Every group description among the boxes of a sample table.
pub fn parse_sample_group_descriptions(stbl: &[u8]) -> (r: Vec<SampleGroupDescription>)
    ensures
        views(r@) == descriptions_from(stbl@, 0),
{
    let mut out: Vec<SampleGroupDescription> = Vec::new();
    let mut at: usize = 0;
    proof {
        assert(views(out@) + descriptions_from(stbl@, 0) =~= descriptions_from(stbl@, 0));
    }
    while at < stbl.len()
        invariant
            at <= stbl.len(),
            views(out@) + descriptions_from(stbl@, at as int) == descriptions_from(stbl@, 0),
        decreases stbl.len() - at,
    {
        let h = match parse_box_header(stbl, at) {
            Ok(h) => h,
            Err(_) => {
                proof {
                    assert(views(out@) + Seq::<SampleGroupDescriptionView>::empty() =~= views(
                        out@,
                    ));
                }
                return out;
            },
        };
        proof {
            lemma_box_bounds(stbl@, at as int);
        }
        if same_type(&h.box_type, &SGPD) {
            match parse_sgpd(payload_of(stbl, &h)) {
                Ok(d) => {
                    proof {
                        lemma_list_push(out@, d, descriptions_from(stbl@, h@.end));
                    }
                    out.push(d);
                },
                Err(_) => {},
            }
        }
        at = h.end();
    }
    proof {
        assert(views(out@) + Seq::<SampleGroupDescriptionView>::empty() =~= views(out@));
    }
    out
}

/// One entry of a bracketed set.
#[derive(Clone, Copy, Debug, PartialEq, Eq, Structural)]
pub enum BracketingEntry {
    /// Exposure, in stops: numerator over step.
    AutoExposure {
        /// Full, half, third or quarter stops.
        exposure_step: i8,
        /// Number of steps.
        exposure_numerator: i8,
    },
    /// White balance.
    WhiteBalance {
        /// Colour temperature in kelvin.
        blue_amber: u16,
        /// Colour deviation in hundredths of Duv.
        green_magenta: i8,
    },
    /// Focus distance in metres: numerator over denominator.
    Focus {
        /// Numerator.
        focus_distance_numerator: u16,
        /// Denominator; 0 for infinity.
        focus_distance_denominator: u16,
    },
    /// Flash exposure, in stops: numerator over denominator.
    FlashExposure {
        /// Numerator.
        flash_exposure_numerator: i8,
        /// Denominator.
        flash_exposure_denominator: i8,
    },
    /// Aperture change, in stops: numerator over denominator.
    DepthOfField {
        /// Numerator.
        f_stop_numerator: i8,
        /// Denominator.
        f_stop_denominator: i8,
    },
}

/// The least length of an entry of this kind.
pub open spec fn entry_length(kind: BracketingKind) -> nat {
    match kind {
        BracketingKind::AutoExposure => 2,
        BracketingKind::WhiteBalance => 3,
        BracketingKind::Focus => 4,
        BracketingKind::FlashExposure => 2,
        BracketingKind::DepthOfField => 2,
    }
}

/// The entry of this kind in `s`.
pub open spec fn bracketing_entry_of(kind: BracketingKind, s: Seq<u8>) -> Result<
    BracketingEntry,
    Fault,
> {
    if s.len() < entry_length(kind) {
        Err(too_short("sgpd: bracketing entry too short ("@, s.len(), entry_length(kind)))
    } else {
        Ok(
            match kind {
                BracketingKind::AutoExposure => BracketingEntry::AutoExposure {
                    exposure_step: s[0] as i8,
                    exposure_numerator: s[1] as i8,
                },
                BracketingKind::WhiteBalance => BracketingEntry::WhiteBalance {
                    blue_amber: be16(s, 0),
                    green_magenta: s[2] as i8,
                },
                BracketingKind::Focus => BracketingEntry::Focus {
                    focus_distance_numerator: be16(s, 0),
                    focus_distance_denominator: be16(s, 2),
                },
                BracketingKind::FlashExposure => BracketingEntry::FlashExposure {
                    flash_exposure_numerator: s[0] as i8,
                    flash_exposure_denominator: s[1] as i8,
                },
                BracketingKind::DepthOfField => BracketingEntry::DepthOfField {
                    f_stop_numerator: s[0] as i8,
                    f_stop_denominator: s[1] as i8,
                },
            },
        )
    }
}

impl BracketingEntry {
    /// Parse one entry of this kind.
    pub fn parse(kind: BracketingKind, entry: &[u8]) -> (r: Result<BracketingEntry, AvifError>)
        ensures
            outcome(r) == bracketing_entry_of(kind, entry@),
    {
        let need: usize = match kind {
            BracketingKind::AutoExposure => 2,
            BracketingKind::WhiteBalance => 3,
            BracketingKind::Focus => 4,
            BracketingKind::FlashExposure => 2,
            BracketingKind::DepthOfField => 2,
        };
        if entry.len() < need {
            return Err(
                invalid_nn(
                    "sgpd: bracketing entry too short (",
                    entry.len() as u64,
                    " < ",
                    need as u64,
                    ")",
                ),
            );
        }
        match kind {
            BracketingKind::AutoExposure => Ok(
                BracketingEntry::AutoExposure {
                    exposure_step: entry[0] as i8,
                    exposure_numerator: entry[1] as i8,
                },
            ),
            BracketingKind::WhiteBalance => Ok(
                BracketingEntry::WhiteBalance {
                    blue_amber: read_u16(entry, 0)?,
                    green_magenta: entry[2] as i8,
                },
            ),
            BracketingKind::Focus => Ok(
                BracketingEntry::Focus {
                    focus_distance_numerator: read_u16(entry, 0)?,
                    focus_distance_denominator: read_u16(entry, 2)?,
                },
            ),
            BracketingKind::FlashExposure => Ok(
                BracketingEntry::FlashExposure {
                    flash_exposure_numerator: entry[0] as i8,
                    flash_exposure_denominator: entry[1] as i8,
                },
            ),
            BracketingKind::DepthOfField => Ok(
                BracketingEntry::DepthOfField {
                    f_stop_numerator: entry[0] as i8,
                    f_stop_denominator: entry[1] as i8,
                },
            ),
        }
    }
}

/// The bracketing entries from entry `i` on.
pub open spec fn brackets_from(kind: BracketingKind, entries: Seq<Seq<u8>>, i: int) -> Result<
    Seq<BracketingEntry>,
    Fault,
>
    decreases entries.len() - i,
{
    if i < 0 || i >= entries.len() {
        Ok(Seq::empty())
    } else {
        match bracketing_entry_of(kind, entries[i]) {
            Err(f) => Err(f),
            Ok(e) => after(seq![e], brackets_from(kind, entries, i + 1)),
        }
    }
}

/// A visual equivalence entry: the time between an image item and a
/// sample.
#[derive(Clone, Copy, Debug, PartialEq, Eq, Structural)]
pub struct VisualEquivalenceEntry {
    /// Time offset.
    pub time_offset: i16,
    /// Multiplier of the media timescale, in 256ths; 0 is reserved.
    pub timescale_multiplier: u16,
}

/// The visual equivalence entry in `s`.
pub open spec fn equivalence_of(s: Seq<u8>) -> Result<VisualEquivalenceEntry, Fault> {
    if s.len() < 4 {
        Err(too_short("sgpd: eqiv entry too short ("@, s.len(), 4))
    } else {
        Ok(
            VisualEquivalenceEntry {
                time_offset: be16(s, 0) as i16,
                timescale_multiplier: be16(s, 2),
            },
        )
    }
}

impl VisualEquivalenceEntry {
    /// Parse one visual equivalence entry.
    pub fn parse(entry: &[u8]) -> (r: Result<VisualEquivalenceEntry, AvifError>)
        ensures
            outcome(r) == equivalence_of(entry@),
    {
        if entry.len() < 4 {
            return Err(
                invalid_nn("sgpd: eqiv entry too short (", entry.len() as u64, " < ", 4, ")"),
            );
        }
        Ok(
            VisualEquivalenceEntry {
                time_offset: read_u16(entry, 0)? as i16,
                timescale_multiplier: read_u16(entry, 2)?,
            },
        )
    }

    /// The terms of the timescale multiplier as a fraction; nothing for
    /// the reserved value.
    pub fn timescale_multiplier_terms(&self) -> (r: Option<(u16, u16)>)
        ensures
            self.timescale_multiplier == 0 ==> r is None,
            self.timescale_multiplier != 0 ==> r == Some((self.timescale_multiplier, 256u16)),
    {
        if self.timescale_multiplier == 0 {
            None
        } else {
            Some((self.timescale_multiplier, 256))
        }
    }
}

/// The visual equivalence entries from entry `i` on.
pub open spec fn equivalences_from(entries: Seq<Seq<u8>>, i: int) -> Result<
    Seq<VisualEquivalenceEntry>,
    Fault,
>
    decreases entries.len() - i,
{
    if i < 0 || i >= entries.len() {
        Ok(Seq::empty())
    } else {
        match equivalence_of(entries[i]) {
            Err(f) => Err(f),
            Ok(e) => after(seq![e], equivalences_from(entries, i + 1)),
        }
    }
}

/// The outcome of a call that may not apply and that returns a list.
pub open spec fn opt_outcome<T>(r: Option<Result<Vec<T>, AvifError>>) -> Option<
    Result<Seq<T>, Fault>,
> {
    match r {
        None => None,
        Some(Ok(v)) => Some(Ok(v@)),
        Some(Err(e)) => Some(Err(e@)),
    }
}

impl SampleGroupDescription {
    /// The entries as bracketing entries, when this is a bracketed set.
    /// The first entry that is too short is the error.
    pub fn bracketing_entries(&self) -> (r: Option<Result<Vec<BracketingEntry>, AvifError>>)
        ensures
            match bracketing_of(self.grouping_type) {
                None => r is None,
                Some(kind) => opt_outcome(r) == Some(brackets_from(kind, self@.entries, 0)),
            },
    {
        let kind = match BracketingKind::from_four_cc(&self.grouping_type) {
            None => {
                return None;
            },
            Some(k) => k,
        };
        let mut out: Vec<BracketingEntry> = Vec::new();
        let mut i: usize = 0;
        proof {
            lemma_after_none(out@, brackets_from(kind, self@.entries, 0));
        }
        while i < self.entries.len()
            invariant
                i <= self.entries@.len(),
                bracketing_of(self.grouping_type) == Some(kind),
                after(out@, brackets_from(kind, self@.entries, i as int)) == brackets_from(
                    kind,
                    self@.entries,
                    0,
                ),
            decreases self.entries@.len() - i,
        {
            proof {
                assert(self@.entries[i as int] == self.entries@[i as int]@);
            }
            let e = match BracketingEntry::parse(kind, self.entries[i].as_slice()) {
                Ok(e) => e,
                Err(x) => {
                    return Some(Err(x));
                },
            };
            let ghost before = out@;
            out.push(e);
            proof {
                if let Ok(rest) = brackets_from(kind, self@.entries, i + 1) {
                    assert(out@ + rest =~= before + (seq![e] + rest));
                }
            }
            i = i + 1;
        }
        proof {
            lemma_after_all(out@);
        }
        Some(Ok(out))
    }

    /// The entries as visual equivalence entries, when that is the
    /// grouping type. The first entry that is too short is the error.
    pub fn equivalence_entries(&self) -> (r: Option<
        Result<Vec<VisualEquivalenceEntry>, AvifError>,
    >)
        ensures
            self.grouping_type != EQIV ==> r is None,
            self.grouping_type == EQIV ==> opt_outcome(r) == Some(
                equivalences_from(self@.entries, 0),
            ),
    {
        if !same_type(&self.grouping_type, &EQIV) {
            return None;
        }
        let mut out: Vec<VisualEquivalenceEntry> = Vec::new();
        let mut i: usize = 0;
        proof {
            lemma_after_none(out@, equivalences_from(self@.entries, 0));
        }
        while i < self.entries.len()
            invariant
                i <= self.entries@.len(),
                self.grouping_type == EQIV,
                after(out@, equivalences_from(self@.entries, i as int)) == equivalences_from(
                    self@.entries,
                    0,
                ),
            decreases self.entries@.len() - i,
        {
            proof {
                assert(self@.entries[i as int] == self.entries@[i as int]@);
            }
            let e = match VisualEquivalenceEntry::parse(self.entries[i].as_slice()) {
                Ok(e) => e,
                Err(x) => {
                    return Some(Err(x));
                },
            };
            let ghost before = out@;
            out.push(e);
            proof {
                if let Ok(rest) = equivalences_from(self@.entries, i + 1) {
                    assert(out@ + rest =~= before + (seq![e] + rest));
                }
            }
            i = i + 1;
        }
        proof {
            lemma_after_all(out@);
        }
        Some(Ok(out))
    }
}

} // verus!
