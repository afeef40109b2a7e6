//! Open bitstream units: the packets that coded images are made of.

use crate::error::{outcome_view, AvifError, Fault};
use vstd::prelude::*;
use vstd::slice::{slice_subrange, slice_to_vec};

verus! {

/// Type of a sequence header unit.
pub const OBU_SEQUENCE_HEADER: u8 = 1;

/// `128` to the power of `i`.
pub open spec fn pow128(i: nat) -> nat
    decreases i,
{
    if i == 0 {
        1
    } else {
        pow128((i - 1) as nat) * 128
    }
}

/// The value at byte `at`, of which the first `i` bytes make `sum`: seven
/// bits in each byte, the low ones first, and the top bit set in all but
/// the last. At most eight bytes.
pub open spec fn leb_from(s: Seq<u8>, at: int, i: nat, sum: nat) -> Option<(nat, int)>
    decreases 8 - i,
{
    if i >= 8 || at + i >= s.len() {
        None
    } else {
        let b = s[at + i];
        let next = (sum + (b % 128) * pow128(i)) as nat;
        if b < 128 {
            Some((next, at + i + 1))
        } else {
            leb_from(s, at, i + 1, next)
        }
    }
}

/// The value at byte `at`, and the place behind it.
pub open spec fn leb_at(s: Seq<u8>, at: int) -> Option<(nat, int)> {
    leb_from(s, at, 0, 0)
}

/// Read the value at byte `at`.
pub fn read_leb(s: &[u8], at: usize) -> (r: Option<(u64, usize)>)
    requires
        at <= s@.len(),
    ensures
        match leb_at(s@, at as int) {
            None => r is None,
            Some((v, next)) => r matches Some(p) && p.0 == v && p.1 == next,
        },
        r matches Some(p) ==> at < p.1 <= s@.len(),
{
    let mut sum: u64 = 0;
    let mut scale: u64 = 1;
    let mut i: usize = 0;
    while i < 8 && i < s.len() - at
        invariant
            i <= 8,
            at + i <= s@.len(),
            scale == pow128(i as nat),
            1 <= scale <= 0x100_0000_0000_0000,
            i == 0 ==> scale == 1,
            i == 1 ==> scale == 0x80,
            i == 2 ==> scale == 0x4000,
            i == 3 ==> scale == 0x20_0000,
            i == 4 ==> scale == 0x1000_0000,
            i == 5 ==> scale == 0x8_0000_0000,
            i == 6 ==> scale == 0x400_0000_0000,
            i == 7 ==> scale == 0x2_0000_0000_0000,
            i == 8 ==> scale == 0x100_0000_0000_0000,
            sum < scale,
            leb_from(s@, at as int, i as nat, sum as nat) == leb_at(s@, at as int),
        decreases 8 - i,
    {
        let b: u8 = s[at + i];
        let part: u64 = (b % 128) as u64;
        proof {
            assert(0 <= part * scale <= 127 * scale) by (nonlinear_arith)
                requires
                    part <= 127,
                    scale >= 1,
            ;
            assert(pow128((i + 1) as nat) == pow128(i as nat) * 128);
        }
        sum = sum + part * scale;
        if b < 128 {
            return Some((sum, at + i + 1));
        }
        scale = scale * 128;
        i = i + 1;
    }
    None
}

/// Where a unit lies.
#[derive(Clone, Copy, Debug, PartialEq, Eq, Structural)]
pub struct Obu {
    /// Type of the unit.
    pub kind: u8,
    /// Where its payload starts.
    pub payload: usize,
    /// Where it ends.
    pub end: usize,
}

/// Where a unit lies, as contracts speak of it.
pub struct ObuView {
    /// Type of the unit.
    pub kind: u8,
    /// Where its payload starts.
    pub payload: int,
    /// Where it ends.
    pub end: int,
}

impl View for Obu {
    type V = ObuView;

    open spec fn view(&self) -> ObuView {
        ObuView { kind: self.kind, payload: self.payload as int, end: self.end as int }
    }
}

/// The unit at byte `at`: a header byte with the type, one more byte
/// where it has an extension, then its size, or none where it takes the
/// rest.
pub open spec fn obu_at(s: Seq<u8>, at: int) -> Result<ObuView, Fault> {
    let head = s[at];
    let start = at + 1 + (head / 4) % 2;
    if head >= 128 {
        Err(Fault::Invalid("avif: OBU forbidden bit is set"@))
    } else if start > s.len() {
        Err(Fault::Invalid("avif: OBU header ends early"@))
    } else if (head / 2) % 2 == 0 {
        Ok(ObuView { kind: (head / 8) as u8, payload: start, end: s.len() as int })
    } else {
        match leb_at(s, start) {
            None => Err(Fault::Invalid("avif: OBU size is not valid"@)),
            Some((size, payload)) => if payload + size > s.len() {
                Err(Fault::Invalid("avif: OBU exceeds its data"@))
            } else {
                Ok(ObuView { kind: (head / 8) as u8, payload, end: payload + size })
            },
        }
    }
}

/// Read the unit at byte `at`.
pub fn read_obu(s: &[u8], at: usize) -> (r: Result<Obu, AvifError>)
    requires
        at < s@.len(),
    ensures
        match r {
            Ok(o) => obu_at(s@, at as int) == Ok::<ObuView, Fault>(o@),
            Err(e) => obu_at(s@, at as int) == Err::<ObuView, Fault>(e@),
        },
        r matches Ok(o) ==> at < o.payload <= o.end <= s@.len(),
{
    let head: u8 = s[at];
    if head >= 128 {
        return Err(AvifError::invalid("avif: OBU forbidden bit is set"));
    }
    let mut start: usize = at + 1;
    if (head / 4) % 2 == 1 {
        if start >= s.len() {
            return Err(AvifError::invalid("avif: OBU header ends early"));
        }
        start = start + 1;
    }
    if (head / 2) % 2 == 0 {
        return Ok(Obu { kind: head / 8, payload: start, end: s.len() });
    }
    match read_leb(s, start) {
        None => Err(AvifError::invalid("avif: OBU size is not valid")),
        Some((size, payload)) => {
            if size > (s.len() - payload) as u64 {
                Err(AvifError::invalid("avif: OBU exceeds its data"))
            } else {
                Ok(Obu { kind: head / 8, payload, end: payload + size as usize })
            }
        },
    }
}

/// The sequence header units from byte `at` on, after `done`, each with
/// its payload.
pub open spec fn headers_from(s: Seq<u8>, at: int, done: Seq<Seq<u8>>) -> Result<
    Seq<Seq<u8>>,
    Fault,
>
    decreases s.len() - at,
{
    if at < 0 || at >= s.len() {
        Ok(done)
    } else {
        match obu_at(s, at) {
            Err(f) => Err(f),
            Ok(o) => if o.end <= at {
                Ok(done)
            } else {
                headers_from(
                    s,
                    o.end,
                    if o.kind == OBU_SEQUENCE_HEADER {
                        done.push(s.subrange(o.payload, o.end))
                    } else {
                        done
                    },
                )
            },
        }
    }
}

/// The sequence headers of coded data.
pub open spec fn sequence_headers(s: Seq<u8>) -> Result<Seq<Seq<u8>>, Fault> {
    headers_from(s, 0, Seq::empty())
}

/// A value in bytes of seven bits each, the low ones first.
pub open spec fn leb_bytes(n: nat) -> Seq<u8>
    decreases n,
{
    if n < 128 {
        seq![n as u8]
    } else {
        seq![(128 + n % 128) as u8] + leb_bytes(n / 128)
    }
}

/// Append a value in bytes of seven bits each.
pub fn push_leb(out: &mut Vec<u8>, n: u64)
    ensures
        final(out)@ == old(out)@ + leb_bytes(n as nat),
{
    let ghost before = out@;
    let ghost all = leb_bytes(n as nat);
    let mut left: u64 = n;
    proof {
        assert(before + all =~= out@ + leb_bytes(left as nat));
    }
    while left >= 128
        invariant
            before + all == out@ + leb_bytes(left as nat),
        decreases left,
    {
        let ghost now = out@;
        out.push((128 + left % 128) as u8);
        proof {
            assert(leb_bytes(left as nat) == seq![(128 + left % 128) as u8] + leb_bytes(
                (left / 128) as nat,
            ));
            assert(now + leb_bytes(left as nat) =~= out@ + leb_bytes((left / 128) as nat));
        }
        left = left / 128;
    }
    let ghost now = out@;
    out.push(left as u8);
    proof {
        assert(now + leb_bytes(left as nat) =~= out@);
    }
}

/// A sequence header unit with this payload.
pub open spec fn header_unit(header: Seq<u8>) -> Seq<u8> {
    seq![0x0au8] + leb_bytes(header.len()) + header
}

/// `done`, then the units from byte `at` on, each sequence header with
/// this payload in place of its own.
pub open spec fn replaced_from(s: Seq<u8>, at: int, header: Seq<u8>, done: Seq<u8>) -> Result<
    Seq<u8>,
    Fault,
>
    decreases s.len() - at,
{
    if at < 0 || at >= s.len() {
        Ok(done)
    } else {
        match obu_at(s, at) {
            Err(f) => Err(f),
            Ok(o) => if o.end <= at {
                Ok(done)
            } else {
                replaced_from(
                    s,
                    o.end,
                    header,
                    done + (if o.kind == OBU_SEQUENCE_HEADER {
                        header_unit(header)
                    } else {
                        s.subrange(at, o.end)
                    }),
                )
            },
        }
    }
}

/// Coded data with this payload in each sequence header, and all other
/// units as they are.
pub fn replace_headers(s: &[u8], header: &[u8]) -> (r: Result<Vec<u8>, AvifError>)
    ensures
        outcome_view(r) == replaced_from(s@, 0, header@, Seq::empty()),
{
    let mut out: Vec<u8> = Vec::new();
    let mut at: usize = 0;
    while at < s.len()
        invariant
            at <= s@.len(),
            replaced_from(s@, at as int, header@, out@) == replaced_from(
                s@,
                0,
                header@,
                Seq::empty(),
            ),
        decreases s@.len() - at,
    {
        let ghost before = out@;
        let o = read_obu(s, at)?;
        if o.kind == OBU_SEQUENCE_HEADER {
            out.push(0x0a);
            push_leb(&mut out, header.len() as u64);
            let mut part = slice_to_vec(header);
            out.append(&mut part);
            proof {
                assert(out@ =~= before + header_unit(header@));
            }
        } else {
            let mut part = slice_to_vec(slice_subrange(s, at, o.end));
            out.append(&mut part);
            proof {
                assert(out@ =~= before + s@.subrange(at as int, o.end as int));
            }
        }
        at = o.end;
    }
    Ok(out)
}

/// A value reads back from the bytes that hold it.
pub proof fn law_leb_reads_back(n: nat, before: Seq<u8>, after: Seq<u8>)
    requires
        n < pow128(8),
    ensures
        leb_at(before + leb_bytes(n) + after, before.len() as int) == Some(
            (n, (before.len() + leb_bytes(n).len()) as int),
        ),
{
    let s = before + leb_bytes(n) + after;
    let at = before.len() as int;
    assert(s.subrange(at + 0, at + 0 + leb_bytes(n).len()) =~= leb_bytes(n));
    lemma_leb_from(n, s, at, 0, 0);
    assert(pow128(0) == 1);
    assert(n * 1 == n);
}

proof fn lemma_leb_from(rest: nat, s: Seq<u8>, at: int, i: nat, sum: nat)
    requires
        i < 8,
        0 <= at,
        rest < pow128((8 - i) as nat),
        at + i + leb_bytes(rest).len() <= s.len(),
        s.subrange(at + i, at + i + leb_bytes(rest).len()) == leb_bytes(rest),
    ensures
        leb_from(s, at, i, sum) == Some(
            ((sum + rest * pow128(i)) as nat, at + i + leb_bytes(rest).len()),
        ),
    decreases 8 - i,
{
    let bytes = leb_bytes(rest);
    let part = s.subrange(at + i, at + i + bytes.len());
    assert(part[0] == s[at + i]);
    if rest < 128 {
        assert(s[at + i] == rest);
        assert(rest % 128 == rest);
    } else {
        let b = s[at + i];
        let more = rest / 128;
        let tail = leb_bytes(more);
        assert(bytes =~= seq![(128 + rest % 128) as u8] + tail);
        assert(b == 128 + rest % 128);
        assert(b % 128 == rest % 128);
        assert(s.subrange(at + i + 1, at + i + 1 + tail.len()) =~= tail) by {
            assert(bytes.subrange(1, bytes.len() as int) =~= tail);
            assert(s.subrange(at + i + 1, at + i + 1 + tail.len()) =~= part.subrange(
                1,
                part.len() as int,
            ));
        }
        assert(pow128((8 - i) as nat) == pow128((7 - i) as nat) * 128);
        assert(i < 7) by {
            if i == 7 {
                assert(pow128(0) == 1);
                assert(pow128(1) == 128);
            }
        }
        let next = (sum + (b % 128) * pow128(i)) as nat;
        lemma_leb_from(more, s, at, i + 1, next);
        let p = pow128(i);
        assert(pow128(i + 1) == p * 128);
        let low = (rest % 128) as int;
        assert(low * p + more * (p * 128) == rest * p) by (nonlinear_arith)
            requires
                rest == more * 128 + low,
        ;
    }
}

/// A value is read from its own bytes, wherever they stand.
proof fn lemma_leb_moves(s: Seq<u8>, at: int, r: Seq<u8>, to: int, e: int, i: nat, sum: nat)
    requires
        0 <= at,
        0 <= to,
        leb_from(s, at, i, sum) is Some,
        leb_end(leb_from(s, at, i, sum)) <= e,
        to + (e - at) <= r.len(),
        forall|j: int| at <= j < e ==> #[trigger] s[j] == r[to + (j - at)],
    ensures
        leb_from(r, to, i, sum) == Some(
            (
                leb_value(leb_from(s, at, i, sum)),
                to + (leb_end(leb_from(s, at, i, sum)) - at),
            ),
        ),
    decreases 8 - i,
{
    let b = s[at + i];
    lemma_leb_forward(s, at, i, sum);
    assert(r[to + i] == b);
    if b >= 128 {
        let next = (sum + (b % 128) * pow128(i)) as nat;
        lemma_leb_moves(s, at, r, to, e, i + 1, next);
    }
}

/// A value takes one byte at least, and lies in its buffer.
proof fn lemma_leb_forward(s: Seq<u8>, at: int, i: nat, sum: nat)
    requires
        0 <= at,
        leb_from(s, at, i, sum) is Some,
    ensures
        at + i < leb_end(leb_from(s, at, i, sum)) <= s.len(),
    decreases 8 - i,
{
    let b = s[at + i];
    if b >= 128 {
        lemma_leb_forward(s, at, i + 1, (sum + (b % 128) * pow128(i)) as nat);
    }
}

/// The place behind a value.
spec fn leb_end(v: Option<(nat, int)>) -> int {
    match v {
        Some((_, end)) => end,
        None => 0,
    }
}

/// The value itself.
spec fn leb_value(v: Option<(nat, int)>) -> nat {
    match v {
        Some((n, _)) => n,
        None => 0,
    }
}

/// A unit is the same unit wherever it stands; one without a size stands
/// at the end.
proof fn lemma_obu_moves(s: Seq<u8>, at: int, r: Seq<u8>, to: int)
    requires
        0 <= at < s.len(),
        0 <= to,
        obu_at(s, at) is Ok,
        ({
            let end = obu_at(s, at)->Ok_0.end;
            &&& at < end
            &&& to + (end - at) <= r.len()
            &&& r.subrange(to, to + (end - at)) == s.subrange(at, end)
            &&& end == s.len() ==> to + (end - at) == r.len()
        }),
    ensures
        ({
            let o = obu_at(s, at)->Ok_0;
            obu_at(r, to) == Ok::<ObuView, Fault>(
                ObuView { kind: o.kind, payload: to + (o.payload - at), end: to + (o.end - at) },
            )
        }),
{
    let o = obu_at(s, at)->Ok_0;
    let part = s.subrange(at, o.end);
    assert forall|j: int| at <= j < o.end implies #[trigger] s[j] == r[to + (j - at)] by {
        assert(part[j - at] == s[j]);
        assert(r.subrange(to, to + (o.end - at))[j - at] == r[to + (j - at)]);
    }
    let head = s[at];
    assert(r[to] == head);
    let start = at + 1 + (head / 4) % 2;
    if (head / 2) % 2 == 1 {
        lemma_leb_forward(s, start, 0, 0);
        let moved = to + (start - at);
        assert(leb_at(s, start) == leb_from(s, start, 0, 0));
        assert forall|j: int| start <= j < o.end implies #[trigger] s[j] == r[moved + (j
            - start)] by {
            assert(moved + (j - start) == to + (j - at));
        }
        lemma_leb_moves(s, start, r, moved, o.end, 0, 0);
    }
}

/// What is replaced stands behind what was done before.
proof fn lemma_replaced_prefix(s: Seq<u8>, at: int, header: Seq<u8>, done: Seq<u8>)
    requires
        replaced_from(s, at, header, done) is Ok,
    ensures
        done.len() <= replaced_from(s, at, header, done)->Ok_0.len(),
        replaced_from(s, at, header, done)->Ok_0.subrange(0, done.len() as int) == done,
    decreases s.len() - at,
{
    let r = replaced_from(s, at, header, done)->Ok_0;
    if 0 <= at < s.len() && obu_at(s, at)->Ok_0.end > at {
        let o = obu_at(s, at)->Ok_0;
        let unit = if o.kind == OBU_SEQUENCE_HEADER {
            header_unit(header)
        } else {
            s.subrange(at, o.end)
        };
        lemma_replaced_prefix(s, o.end, header, done + unit);
        assert(r.subrange(0, (done + unit).len() as int).subrange(0, done.len() as int) =~= done);
        assert(r.subrange(0, done.len() as int) =~= r.subrange(
            0,
            (done + unit).len() as int,
        ).subrange(0, done.len() as int));
    } else {
        assert(r.subrange(0, done.len() as int) =~= done);
    }
}

/// `n` headers with this payload.
pub open spec fn all_like(header: Seq<u8>, n: nat) -> Seq<Seq<u8>> {
    Seq::new(n, |i: int| header)
}

/// A sequence header unit is read where it stands.
proof fn lemma_header_unit(r: Seq<u8>, to: int, header: Seq<u8>)
    requires
        0 <= to,
        to + header_unit(header).len() <= r.len(),
        r.subrange(to, to + header_unit(header).len()) == header_unit(header),
        header.len() < pow128(8),
    ensures
        ({
            let end = to + header_unit(header).len();
            &&& obu_at(r, to) == Ok::<ObuView, Fault>(
                ObuView { kind: OBU_SEQUENCE_HEADER, payload: end - header.len(), end },
            )
            &&& r.subrange(end - header.len(), end) == header
        }),
{
    let unit = header_unit(header);
    let end = to + unit.len();
    let leb = leb_bytes(header.len());
    assert(r[to] == unit[0]) by {
        assert(r.subrange(to, end)[0] == r[to]);
    }
    let before = r.subrange(0, to + 1);
    let after = r.subrange(to + 1 + leb.len(), r.len() as int);
    assert(r.subrange(to + 1, to + 1 + leb.len()) =~= leb) by {
        assert(unit.subrange(1, (1 + leb.len()) as int) =~= leb);
        assert(r.subrange(to + 1, to + 1 + leb.len()) =~= r.subrange(to, end).subrange(
            1,
            (1 + leb.len()) as int,
        ));
    }
    assert(r =~= before + leb + after) by {
        assert(r =~= before + r.subrange(to + 1, to + 1 + leb.len()) + after);
    }
    law_leb_reads_back(header.len(), before, after);
    assert(r.subrange(end - header.len(), end) =~= header) by {
        assert(unit.subrange(unit.len() - header.len(), unit.len() as int) =~= header);
        assert(r.subrange(end - header.len(), end) =~= r.subrange(to, end).subrange(
            unit.len() - header.len(),
            unit.len() as int,
        ));
    }
}

proof fn lemma_replaced(
    s: Seq<u8>,
    at: int,
    header: Seq<u8>,
    done: Seq<u8>,
    old_headers: Seq<Seq<u8>>,
    n: nat,
)
    requires
        0 <= at <= s.len(),
        header.len() < pow128(8),
        replaced_from(s, at, header, done) is Ok,
        forall|i: int| 0 <= i < s.len() && obu_at(s, i) is Ok ==> i < (#[trigger] obu_at(
            s,
            i,
        ))->Ok_0.end <= s.len(),
    ensures
        headers_from(s, at, old_headers) is Ok,
        headers_from(s, at, old_headers)->Ok_0.len() >= old_headers.len(),
        headers_from(
            replaced_from(s, at, header, done)->Ok_0,
            done.len() as int,
            all_like(header, n),
        ) == Ok::<Seq<Seq<u8>>, Fault>(
            all_like(
                header,
                (n + headers_from(s, at, old_headers)->Ok_0.len() - old_headers.len()) as nat,
            ),
        ),
    decreases s.len() - at,
{
    let r = replaced_from(s, at, header, done)->Ok_0;
    if at < s.len() {
        let o = obu_at(s, at)->Ok_0;
        let is_header = o.kind == OBU_SEQUENCE_HEADER;
        let unit = if is_header {
            header_unit(header)
        } else {
            s.subrange(at, o.end)
        };
        let next = done + unit;
        let to = done.len() as int;
        lemma_replaced_prefix(s, o.end, header, next);
        assert(r.subrange(to, to + unit.len()) =~= unit) by {
            assert(next.subrange(to, to + unit.len()) =~= unit);
            assert(r.subrange(to, to + unit.len()) =~= r.subrange(
                0,
                next.len() as int,
            ).subrange(to, to + unit.len()));
        }
        if is_header {
            lemma_header_unit(r, to, header);
            assert(all_like(header, n).push(header) =~= all_like(header, n + 1));
            lemma_replaced(
                s,
                o.end,
                header,
                next,
                old_headers.push(s.subrange(o.payload, o.end)),
                n + 1,
            );
        } else {
            if o.end == s.len() {
                assert(r == next);
            }
            lemma_obu_moves(s, at, r, to);
            lemma_replaced(s, o.end, header, next, old_headers, n);
        }
    }
}

/// Units end behind where they start, inside their data.
proof fn lemma_obu_forward(s: Seq<u8>, at: int)
    requires
        0 <= at < s.len(),
        obu_at(s, at) is Ok,
    ensures
        at < obu_at(s, at)->Ok_0.end <= s.len(),
{
    let head = s[at];
    let start = at + 1 + (head / 4) % 2;
    if (head / 2) % 2 == 1 {
        lemma_leb_forward(s, start, 0, 0);
    }
}

/// Coded data whose sequence headers are replaced has as many of them as
/// before, all of them with the new payload.
pub proof fn law_replaced_headers(s: Seq<u8>, header: Seq<u8>)
    requires
        replaced_from(s, 0, header, Seq::empty()) is Ok,
        header.len() < pow128(8),
    ensures
        sequence_headers(s) is Ok,
        sequence_headers(replaced_from(s, 0, header, Seq::empty())->Ok_0) == Ok::<
            Seq<Seq<u8>>,
            Fault,
        >(all_like(header, sequence_headers(s)->Ok_0.len())),
{
    assert forall|i: int| 0 <= i < s.len() && obu_at(s, i) is Ok implies i < (#[trigger] obu_at(
        s,
        i,
    ))->Ok_0.end <= s.len() by {
        lemma_obu_forward(s, i);
    }
    lemma_replaced(s, 0, header, Seq::empty(), Seq::empty(), 0);
    assert(all_like(header, 0) =~= Seq::empty());
}

} // verus!
