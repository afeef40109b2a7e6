//! Boxes, the units that a file is made of.
//!
//! A box is `size(32) + type(32)`, followed by `largesize(64)` when the
//! size is 1, and runs to the end of the enclosing buffer when the size
//! is 0. A `uuid` box carries a 16-byte extended type after that header.
//! A full box starts its payload with `version(8) + flags(24)`.

use crate::error::{invalid_end, invalid_nn, invalid_nnn, outcome, AvifError, Fault};
use crate::text::{dec, lossy_text, utf8_lossy};
use vstd::prelude::*;
use vstd::slice::slice_subrange;

verus! {

/// A four-character code: a box type, brand, item type or reference type.
pub type BoxType = [u8; 4];

/// `uuid` — a box with an extended type.
pub const UUID: BoxType = [0x75, 0x75, 0x69, 0x64];

/// Whether two four-character codes are the same.
pub fn same_type(a: &BoxType, b: &BoxType) -> (r: bool)
    ensures
        r == (*a == *b),
{
    let r = a[0] == b[0] && a[1] == b[1] && a[2] == b[2] && a[3] == b[3];
    proof {
        if r {
            assert(*a =~= *b);
        }
    }
    r
}

/// The big-endian 16-bit value at `at`.
pub open spec fn be16(s: Seq<u8>, at: int) -> u16 {
    (s[at] * 0x100 + s[at + 1]) as u16
}

/// The big-endian 24-bit value at `at`.
pub open spec fn be24(s: Seq<u8>, at: int) -> u32 {
    (s[at] * 0x10000 + s[at + 1] * 0x100 + s[at + 2]) as u32
}

/// The big-endian 32-bit value at `at`.
pub open spec fn be32(s: Seq<u8>, at: int) -> u32 {
    (be16(s, at) * 0x10000 + be16(s, at + 2)) as u32
}

/// The big-endian 64-bit value at `at`.
pub open spec fn be64(s: Seq<u8>, at: int) -> u64 {
    (be32(s, at) * 0x1_0000_0000 + be32(s, at + 4)) as u64
}

/// The big-endian value of the `n` bytes at `at`; 0 for no bytes.
pub open spec fn be_n(s: Seq<u8>, at: int, n: nat) -> nat
    decreases n,
{
    if n == 0 {
        0
    } else {
        be_n(s, at, (n - 1) as nat) * 0x100 + s[at + n - 1] as nat
    }
}

/// The four-character code at `at`.
pub open spec fn type_at(s: Seq<u8>, at: int) -> BoxType {
    [s[at], s[at + 1], s[at + 2], s[at + 3]]
}

/// The part of `s` from `at` on.
pub open spec fn tail(s: Seq<u8>, at: int) -> Seq<u8> {
    s.subrange(at, s.len() as int)
}

/// Where a box and its payload lie inside the enclosing buffer.
pub struct BoxSpan {
    /// Box type.
    pub box_type: BoxType,
    /// Offset of the first payload byte.
    pub payload: int,
    /// Offset one past the last payload byte.
    pub end: int,
}

/// A box whose header of `header` bytes announces `total` bytes in all;
/// a `uuid` box has a longer header.
pub open spec fn span_of(t: BoxType, at: int, header: int, total: int) -> Result<BoxSpan, Fault> {
    if t == UUID {
        if header + 16 > total {
            Err(Fault::Invalid("avif: uuid box too short at offset "@ + dec(at as nat)))
        } else {
            Ok(BoxSpan { box_type: t, payload: at + header + 16, end: at + total })
        }
    } else {
        Ok(BoxSpan { box_type: t, payload: at + header, end: at + total })
    }
}

/// The box whose header starts at `at`.
pub open spec fn box_at(s: Seq<u8>, at: int) -> Result<BoxSpan, Fault> {
    let remaining = s.len() - at;
    if remaining < 8 {
        Err(
            Fault::Invalid(
                "avif: truncated box header at offset "@ + dec(at as nat) + " of "@ + dec(s.len())
                    + " bytes"@,
            ),
        )
    } else if be32(s, at) == 1 {
        if remaining < 16 {
            Err(Fault::Invalid("avif: truncated box largesize at offset "@ + dec(at as nat)))
        } else if be64(s, at + 8) < 16 || be64(s, at + 8) > remaining {
            Err(
                Fault::Invalid(
                    "avif: box largesize "@ + dec(be64(s, at + 8) as nat) + " out of range at offset "@
                        + dec(at as nat) + " ("@ + dec(remaining as nat) + " bytes remain)"@,
                ),
            )
        } else {
            span_of(type_at(s, at + 4), at, 16, be64(s, at + 8) as int)
        }
    } else if be32(s, at) == 0 {
        span_of(type_at(s, at + 4), at, 8, remaining)
    } else if be32(s, at) < 8 || be32(s, at) > remaining {
        Err(
            Fault::Invalid(
                "avif: box size "@ + dec(be32(s, at) as nat) + " out of range at offset "@ + dec(
                    at as nat,
                ) + " ("@ + dec(remaining as nat) + " bytes remain)"@,
            ),
        )
    } else {
        span_of(type_at(s, at + 4), at, 8, be32(s, at) as int)
    }
}

/// A box lies inside its buffer, after its own header.
pub proof fn lemma_box_bounds(s: Seq<u8>, at: int)
    requires
        0 <= at,
    ensures
        box_at(s, at) matches Ok(b) ==> at + 8 <= b.payload <= b.end <= s.len(),
{
}

/// A box that gives its size is the same box when more follows.
pub proof fn lemma_box_same(s: Seq<u8>, more: Seq<u8>, at: int)
    requires
        0 <= at < s.len(),
        box_at(s, at) is Ok,
        be32(s, at) != 0,
    ensures
        box_at(s + more, at) == box_at(s, at),
        be32(s + more, at) == be32(s, at),
{
    let all = s + more;
    assert(be32(all, at) == be32(s, at));
    assert(type_at(all, at + 4) == type_at(s, at + 4));
    if be32(s, at) == 1 {
        assert(be64(all, at + 8) == be64(s, at + 8));
    }
}

/// One box header, and where its payload lies inside the enclosing
/// buffer.
#[derive(Clone, Copy, Debug, PartialEq, Eq)]
pub struct BoxHeader {
    /// Box type (`ftyp`, `meta`, …).
    pub box_type: BoxType,
    /// Offset of the first payload byte.
    pub payload_start: usize,
    /// Payload length in bytes.
    pub payload_len: usize,
}

impl View for BoxHeader {
    type V = BoxSpan;

    open spec fn view(&self) -> BoxSpan {
        BoxSpan {
            box_type: self.box_type,
            payload: self.payload_start as int,
            end: self.payload_start + self.payload_len,
        }
    }
}

impl BoxHeader {
    /// Offset one past the last payload byte.
    pub fn end(&self) -> (r: usize)
        requires
            self@.end <= usize::MAX,
        ensures
            r == self@.end,
    {
        self.payload_start + self.payload_len
    }
}

/// The outcome of reading a box header.
pub open spec fn header_outcome(r: Result<BoxHeader, AvifError>) -> Result<BoxSpan, Fault> {
    match r {
        Ok(h) => Ok(h@),
        Err(e) => Err(e@),
    }
}

fn header_of(t: BoxType, at: usize, header: usize, total: usize) -> (r: Result<
    BoxHeader,
    AvifError,
>)
    requires
        8 <= header <= 16,
        header <= total,
        at + total <= usize::MAX,
    ensures
        header_outcome(r) == span_of(t, at as int, header as int, total as int),
{
    if same_type(&t, &UUID) {
        if total - header < 16 {
            return Err(invalid_end("avif: uuid box too short at offset ", at as u64));
        }
        Ok(
            BoxHeader {
                box_type: t,
                payload_start: at + header + 16,
                payload_len: total - header - 16,
            },
        )
    } else {
        Ok(BoxHeader { box_type: t, payload_start: at + header, payload_len: total - header })
    }
}

/// Read the box header at `at`.
pub fn parse_box_header(buf: &[u8], at: usize) -> (r: Result<BoxHeader, AvifError>)
    requires
        at <= buf@.len(),
    ensures
        header_outcome(r) == box_at(buf@, at as int),
{
    let remaining: usize = buf.len() - at;
    if remaining < 8 {
        return Err(
            invalid_nn(
                "avif: truncated box header at offset ",
                at as u64,
                " of ",
                buf.len() as u64,
                " bytes",
            ),
        );
    }
    let size: u32 = read_u32(buf, at)?;
    let t: BoxType = type_from(buf, at + 4);
    if size == 1 {
        if remaining < 16 {
            return Err(invalid_end("avif: truncated box largesize at offset ", at as u64));
        }
        let large: u64 = read_u64(buf, at + 8)?;
        if large < 16 || large > remaining as u64 {
            return Err(
                invalid_nnn(
                    "avif: box largesize ",
                    large,
                    " out of range at offset ",
                    at as u64,
                    " (",
                    remaining as u64,
                    " bytes remain)",
                ),
            );
        }
        header_of(t, at, 16, large as usize)
    } else if size == 0 {
        header_of(t, at, 8, remaining)
    } else if size < 8 || size as u64 > remaining as u64 {
        Err(
            invalid_nnn(
                "avif: box size ",
                size as u64,
                " out of range at offset ",
                at as u64,
                " (",
                remaining as u64,
                " bytes remain)",
            ),
        )
    } else {
        header_of(t, at, 8, size as usize)
    }
}

/// The payload of a box inside its buffer.
pub fn payload_of<'a>(buf: &'a [u8], h: &BoxHeader) -> (r: &'a [u8])
    requires
        h@.end <= buf.len(),
    ensures
        r@ == buf@.subrange(h@.payload, h@.end),
{
    slice_subrange(buf, h.payload_start, h.payload_start + h.payload_len)
}

/// The first box of type `t` at or after `at`: its span, or nothing when
/// the boxes end without one. The boxes are read in order, and the first
/// malformed header before it is the fault.
pub open spec fn first_box(s: Seq<u8>, at: int, t: BoxType) -> Result<Option<BoxSpan>, Fault>
    decreases s.len() - at,
{
    if at < 0 || at >= s.len() {
        Ok(None)
    } else {
        match box_at(s, at) {
            Err(f) => Err(f),
            Ok(b) => if b.box_type == t {
                Ok(Some(b))
            } else if b.end <= at {
                Ok(None)
            } else {
                first_box(s, b.end, t)
            },
        }
    }
}

/// Find the first box of type `t` among the boxes packed in `buf`.
pub fn find_box(buf: &[u8], t: &BoxType) -> (r: Result<Option<BoxHeader>, AvifError>)
    ensures
        match r {
            Err(e) => first_box(buf@, 0, *t) == Err::<Option<BoxSpan>, Fault>(e@),
            Ok(None) => first_box(buf@, 0, *t) == Ok::<Option<BoxSpan>, Fault>(None),
            Ok(Some(h)) => {
                &&& first_box(buf@, 0, *t) == Ok::<Option<BoxSpan>, Fault>(Some(h@))
                &&& h@.end <= buf@.len()
            },
        },
{
    let mut at: usize = 0;
    while at < buf.len()
        invariant
            at <= buf@.len(),
            first_box(buf@, 0, *t) == first_box(buf@, at as int, *t),
        decreases buf@.len() - at,
    {
        let h = parse_box_header(buf, at)?;
        proof {
            lemma_box_bounds(buf@, at as int);
        }
        if same_type(&h.box_type, t) {
            return Ok(Some(h));
        }
        at = h.end();
    }
    Ok(None)
}

/// `FullBox` prefix: version, flags and the body after them.
pub open spec fn full_box(s: Seq<u8>) -> Result<(u8, u32, Seq<u8>), Fault> {
    if s.len() < 4 {
        Err(Fault::Invalid("avif: truncated FullBox header"@))
    } else {
        Ok((s[0], be24(s, 1), tail(s, 4)))
    }
}

/// Read the version and flags of a full box.
pub fn parse_full_box(p: &[u8]) -> (r: Result<(u8, u32, &[u8]), AvifError>)
    ensures
        match r {
            Ok((v, f, body)) => full_box(p@) == Ok::<(u8, u32, Seq<u8>), Fault>((v, f, body@)),
            Err(e) => full_box(p@) == Err::<(u8, u32, Seq<u8>), Fault>(e@),
        },
{
    if p.len() < 4 {
        return Err(AvifError::invalid("avif: truncated FullBox header"));
    }
    let flags: u32 = p[1] as u32 * 0x10000 + p[2] as u32 * 0x100 + p[3] as u32;
    Ok((p[0], flags, slice_subrange(p, 4, p.len())))
}

/// The fault of a fixed-width read past the end of the buffer.
pub open spec fn short_read(at: int, n: nat, len: nat) -> Fault {
    Fault::Invalid(
        "avif: read of "@ + dec(n) + " bytes at offset "@ + dec(at as nat) + " past the end ("@
            + dec(len) + " bytes)"@,
    )
}

fn short_error(at: usize, n: u64, len: usize) -> (r: AvifError)
    ensures
        r@ == short_read(at as int, n as nat, len as nat),
{
    invalid_nnn("avif: read of ", n, " bytes at offset ", at as u64, " past the end (", len as u64, " bytes)")
}

/// A 16-bit read at `at`.
pub open spec fn get16(s: Seq<u8>, at: int) -> Result<u16, Fault> {
    if at + 2 <= s.len() {
        Ok(be16(s, at))
    } else {
        Err(short_read(at, 2, s.len()))
    }
}

/// A 32-bit read at `at`.
pub open spec fn get32(s: Seq<u8>, at: int) -> Result<u32, Fault> {
    if at + 4 <= s.len() {
        Ok(be32(s, at))
    } else {
        Err(short_read(at, 4, s.len()))
    }
}

/// A 64-bit read at `at`.
pub open spec fn get64(s: Seq<u8>, at: int) -> Result<u64, Fault> {
    if at + 8 <= s.len() {
        Ok(be64(s, at))
    } else {
        Err(short_read(at, 8, s.len()))
    }
}

/// Read a big-endian 16-bit value.
pub fn read_u16(buf: &[u8], at: usize) -> (r: Result<u16, AvifError>)
    ensures
        outcome(r) == get16(buf@, at as int),
        r is Ok ==> at + 2 <= buf.len(),
{
    if buf.len() < 2 || at > buf.len() - 2 {
        return Err(short_error(at, 2, buf.len()));
    }
    Ok(buf[at] as u16 * 0x100 + buf[at + 1] as u16)
}

/// Read a big-endian 32-bit value.
pub fn read_u32(buf: &[u8], at: usize) -> (r: Result<u32, AvifError>)
    ensures
        outcome(r) == get32(buf@, at as int),
        r is Ok ==> at + 4 <= buf.len(),
{
    if buf.len() < 4 || at > buf.len() - 4 {
        return Err(short_error(at, 4, buf.len()));
    }
    let hi: u32 = buf[at] as u32 * 0x100 + buf[at + 1] as u32;
    let lo: u32 = buf[at + 2] as u32 * 0x100 + buf[at + 3] as u32;
    Ok(hi * 0x10000 + lo)
}

/// Read a big-endian 64-bit value.
pub fn read_u64(buf: &[u8], at: usize) -> (r: Result<u64, AvifError>)
    ensures
        outcome(r) == get64(buf@, at as int),
        r is Ok ==> at + 8 <= buf.len(),
{
    if buf.len() < 8 || at > buf.len() - 8 {
        return Err(short_error(at, 8, buf.len()));
    }
    let hi: u32 = read_u32(buf, at)?;
    let lo: u32 = read_u32(buf, at + 4)?;
    Ok(hi as u64 * 0x1_0000_0000 + lo as u64)
}

/// The four-character code at `at`.
pub fn type_from(buf: &[u8], at: usize) -> (r: BoxType)
    requires
        at + 4 <= buf@.len(),
    ensures
        r == type_at(buf@, at as int),
{
    let r = [buf[at], buf[at + 1], buf[at + 2], buf[at + 3]];
    proof {
        assert(r =~= type_at(buf@, at as int));
    }
    r
}

/// A read of `size` bytes at `at`, 0 to 8 of them; no bytes read as 0.
pub open spec fn get_n(s: Seq<u8>, at: int, size: nat) -> Result<u64, Fault> {
    if size == 0 {
        Ok(0)
    } else if size > 8 {
        Err(Fault::Invalid("avif: unsupported field width "@ + dec(size)))
    } else if at + size <= s.len() {
        Ok(be_n(s, at, size) as u64)
    } else {
        Err(short_read(at, size, s.len()))
    }
}

/// 256 to the power `n`, for `n <= 8`.
spec fn pow256(n: nat) -> nat
    decreases n,
{
    if n == 0 {
        1
    } else {
        0x100 * pow256((n - 1) as nat)
    }
}

proof fn lemma_be_n_bound(s: Seq<u8>, at: int, n: nat)
    ensures
        be_n(s, at, n) < pow256(n),
    decreases n,
{
    if n > 0 {
        lemma_be_n_bound(s, at, (n - 1) as nat);
    }
}

proof fn lemma_be_n_u64(s: Seq<u8>, at: int, n: nat)
    requires
        n <= 8,
    ensures
        be_n(s, at, n) <= u64::MAX,
{
    lemma_be_n_bound(s, at, n);
    reveal_with_fuel(pow256, 9);
    lemma_pow256_mono(n);
}

proof fn lemma_pow256_mono(n: nat)
    requires
        n <= 8,
    ensures
        pow256(n) <= 0x1_0000_0000_0000_0000,
{
    reveal_with_fuel(pow256, 9);
}

/// Read a big-endian value of `size` bytes (0 to 8).
pub fn read_var_uint(buf: &[u8], at: usize, size: usize) -> (r: Result<u64, AvifError>)
    ensures
        outcome(r) == get_n(buf@, at as int, size as nat),
        r is Ok && size > 0 ==> at + size <= buf.len(),
{
    if size == 0 {
        return Ok(0);
    }
    if size > 8 {
        return Err(invalid_end("avif: unsupported field width ", size as u64));
    }
    if buf.len() < size || at > buf.len() - size {
        return Err(short_error(at, size as u64, buf.len()));
    }
    let mut value: u64 = 0;
    let mut i: usize = 0;
    while i < size
        invariant
            0 <= i <= size <= 8,
            at + size <= buf.len(),
            value == be_n(buf@, at as int, i as nat),
        decreases size - i,
    {
        proof {
            lemma_be_n_u64(buf@, at as int, (i + 1) as nat);
        }
        value = value * 0x100 + buf[at + i] as u64;
        i = i + 1;
    }
    Ok(value)
}

/// Offset of the first NUL byte at or after `at`; the length when there
/// is none.
pub open spec fn nul_at(s: Seq<u8>, at: int) -> int
    decreases s.len() - at,
{
    if at < 0 || at >= s.len() {
        s.len() as int
    } else if s[at] == 0 {
        at
    } else {
        nul_at(s, at + 1)
    }
}

/// A NUL-terminated string at `at`, and the offset after its terminator.
/// A string without a terminator is invalid.
pub open spec fn cstr_at(s: Seq<u8>, at: int) -> Result<(Seq<char>, int), Fault> {
    if nul_at(s, at) >= s.len() {
        Err(Fault::Invalid("avif: unterminated string at offset "@ + dec(at as nat)))
    } else {
        Ok((lossy_text(s.subrange(at, nul_at(s, at))), nul_at(s, at) + 1))
    }
}

/// A terminator found lies at or after the start of the string.
pub proof fn lemma_nul_bounds(s: Seq<u8>, at: int)
    requires
        0 <= at <= s.len(),
    ensures
        at <= nul_at(s, at) <= s.len(),
    decreases s.len() - at,
{
    if at < s.len() && s[at] != 0 {
        lemma_nul_bounds(s, at + 1);
    }
}

/// Read a NUL-terminated string and the offset after its terminator.
pub fn read_cstr(buf: &[u8], at: usize) -> (r: Result<(String, usize), AvifError>)
    requires
        at <= buf@.len(),
    ensures
        match r {
            Ok((s, next)) => {
                &&& cstr_at(buf@, at as int) == Ok::<(Seq<char>, int), Fault>((s@, next as int))
                &&& at < next <= buf@.len()
            },
            Err(e) => cstr_at(buf@, at as int) == Err::<(Seq<char>, int), Fault>(e@),
        },
{
    let mut end: usize = at;
    while end < buf.len() && buf[end] != 0
        invariant
            at <= end <= buf@.len(),
            nul_at(buf@, at as int) == nul_at(buf@, end as int),
        decreases buf@.len() - end,
    {
        end = end + 1;
    }
    if end >= buf.len() {
        return Err(invalid_end("avif: unterminated string at offset ", at as u64));
    }
    Ok((utf8_lossy(slice_subrange(buf, at, end)), end + 1))
}

} // verus!
