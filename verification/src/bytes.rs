//! Big-endian bytes, and boxes made of them.

use crate::box_parser::{be16, be32, be64, box_at, type_at, BoxSpan, BoxType, UUID};
use crate::error::Fault;
use vstd::prelude::*;
use vstd::slice::slice_to_vec;

verus! {

/// The two bytes of `v`, the high one first.
pub open spec fn b16(v: u16) -> Seq<u8> {
    seq![(v / 0x100) as u8, (v % 0x100) as u8]
}

/// The four bytes of `v`, the high one first.
pub open spec fn b32(v: u32) -> Seq<u8> {
    seq![
        (v / 0x100_0000) as u8,
        (v / 0x1_0000 % 0x100) as u8,
        (v / 0x100 % 0x100) as u8,
        (v % 0x100) as u8,
    ]
}

/// The eight bytes of `v`, the high one first.
pub open spec fn b64(v: u64) -> Seq<u8> {
    b32((v / 0x1_0000_0000) as u32) + b32((v % 0x1_0000_0000) as u32)
}

/// The bytes of the first `n` values of `s`, one after the other.
pub open spec fn b32s(s: Seq<u32>, n: nat) -> Seq<u8>
    decreases n,
{
    if n == 0 {
        Seq::empty()
    } else {
        b32s(s, (n - 1) as nat) + b32(s[n - 1])
    }
}

/// The bytes of the first `n` 64-bit values of `s`.
pub open spec fn b64s(s: Seq<u64>, n: nat) -> Seq<u8>
    decreases n,
{
    if n == 0 {
        Seq::empty()
    } else {
        b64s(s, (n - 1) as nat) + b64(s[n - 1])
    }
}

/// The first `n` 64-bit values of `s`, in 32 bits each.
pub open spec fn narrow_b64s(s: Seq<u64>, n: nat) -> Seq<u8>
    decreases n,
{
    if n == 0 {
        Seq::empty()
    } else {
        narrow_b64s(s, (n - 1) as nat) + b32(s[n - 1] as u32)
    }
}

/// `n` zero bytes.
pub open spec fn zeros(n: nat) -> Seq<u8> {
    Seq::new(n, |i: int| 0u8)
}

/// A box: its size in 32 bits, its type and its body; where the size
/// does not fit, 1 in its place and the size in 64 bits after the type.
pub open spec fn box_bytes(t: BoxType, body: Seq<u8>) -> Seq<u8> {
    if body.len() + 8 <= u32::MAX {
        b32((body.len() + 8) as u32) + t@ + body
    } else {
        b32(1) + t@ + b64((body.len() + 16) as u64) + body
    }
}

/// A full box: a box whose body starts with a version and 24 bits of
/// flags.
pub open spec fn full_box_bytes(t: BoxType, version: u8, flags: u32, body: Seq<u8>) -> Seq<u8> {
    box_bytes(
        t,
        seq![
            version,
            (flags / 0x1_0000 % 0x100) as u8,
            (flags / 0x100 % 0x100) as u8,
            (flags % 0x100) as u8,
        ] + body,
    )
}

/// `oxideav_heif::boxes::write::boxed`: a box with this type and body,
/// with a 64-bit size where 32 bits do not hold it.
#[verifier::external_body]
pub(crate) fn boxed(t: &BoxType, body: &[u8]) -> (r: Vec<u8>)
    ensures
        r@ == box_bytes(*t, body@),
{
    oxideav_heif::boxes::write::boxed(t, body)
}

/// `oxideav_heif::boxes::write::full_boxed`: the same for a box whose
/// body starts with a version and flags.
#[verifier::external_body]
pub(crate) fn full_boxed(t: &BoxType, version: u8, flags: u32, body: &[u8]) -> (r: Vec<u8>)
    ensures
        r@ == full_box_bytes(*t, version, flags, body@),
{
    oxideav_heif::boxes::write::full_boxed(t, version, flags, body)
}

/// Bytes being written.
pub(crate) struct W(pub Vec<u8>);

impl View for W {
    type V = Seq<u8>;

    closed spec fn view(&self) -> Seq<u8> {
        self.0@
    }
}

impl W {
    /// Nothing written yet.
    pub fn new() -> (r: W)
        ensures
            r@ == Seq::<u8>::empty(),
    {
        W(Vec::new())
    }

    /// Append `v`.
    pub fn u16(&mut self, v: u16)
        ensures
            final(self)@ == old(self)@ + b16(v),
    {
        let ghost before = self@;
        self.0.push((v / 0x100) as u8);
        self.0.push((v % 0x100) as u8);
        proof {
            assert(self@ =~= before + b16(v));
        }
    }

    /// Append `v`.
    pub fn u32(&mut self, v: u32)
        ensures
            final(self)@ == old(self)@ + b32(v),
    {
        let ghost before = self@;
        self.0.push((v / 0x100_0000) as u8);
        self.0.push((v / 0x1_0000 % 0x100) as u8);
        self.0.push((v / 0x100 % 0x100) as u8);
        self.0.push((v % 0x100) as u8);
        proof {
            assert(self@ =~= before + b32(v));
        }
    }

    /// Append `v`.
    pub fn u64(&mut self, v: u64)
        ensures
            final(self)@ == old(self)@ + b64(v),
    {
        let ghost before = self@;
        self.u32((v / 0x1_0000_0000) as u32);
        self.u32((v % 0x1_0000_0000) as u32);
        proof {
            assert(self@ =~= before + b64(v));
        }
    }

    /// Append `b`.
    pub fn bytes(&mut self, b: &[u8])
        ensures
            final(self)@ == old(self)@ + b@,
    {
        let mut part = slice_to_vec(b);
        self.0.append(&mut part);
    }

    /// Append a four-character code.
    pub fn fourcc(&mut self, t: &BoxType)
        ensures
            final(self)@ == old(self)@ + t@,
    {
        let ghost before = self@;
        self.0.push(t[0]);
        self.0.push(t[1]);
        self.0.push(t[2]);
        self.0.push(t[3]);
        proof {
            assert(self@ =~= before + t@);
        }
    }

    /// Append every value of `s`.
    pub fn u32s(&mut self, s: &[u32])
        ensures
            final(self)@ == old(self)@ + b32s(s@, s@.len()),
    {
        let ghost before = self@;
        let mut i: usize = 0;
        proof {
            assert(before + b32s(s@, 0) =~= before);
        }
        while i < s.len()
            invariant
                i <= s@.len(),
                self@ == before + b32s(s@, i as nat),
            decreases s@.len() - i,
        {
            self.u32(s[i]);
            proof {
                assert(self@ =~= before + b32s(s@, (i + 1) as nat));
            }
            i = i + 1;
        }
    }

    /// Append every value of `s`.
    pub fn u64s(&mut self, s: &[u64])
        ensures
            final(self)@ == old(self)@ + b64s(s@, s@.len()),
    {
        let ghost before = self@;
        let mut i: usize = 0;
        proof {
            assert(before + b64s(s@, 0) =~= before);
        }
        while i < s.len()
            invariant
                i <= s@.len(),
                self@ == before + b64s(s@, i as nat),
            decreases s@.len() - i,
        {
            self.u64(s[i]);
            proof {
                assert(self@ =~= before + b64s(s@, (i + 1) as nat));
            }
            i = i + 1;
        }
    }

    /// Append every value of `s` in 32 bits.
    pub fn narrow_u64s(&mut self, s: &[u64])
        ensures
            final(self)@ == old(self)@ + narrow_b64s(s@, s@.len()),
    {
        let ghost before = self@;
        let mut i: usize = 0;
        proof {
            assert(before + narrow_b64s(s@, 0) =~= before);
        }
        while i < s.len()
            invariant
                i <= s@.len(),
                self@ == before + narrow_b64s(s@, i as nat),
            decreases s@.len() - i,
        {
            self.u32(s[i] as u32);
            proof {
                assert(self@ =~= before + narrow_b64s(s@, (i + 1) as nat));
            }
            i = i + 1;
        }
    }

    /// Append `n` zero bytes.
    pub fn zeros(&mut self, n: usize)
        ensures
            final(self)@ == old(self)@ + zeros(n as nat),
    {
        let ghost before = self@;
        let mut i: usize = 0;
        proof {
            assert(before + zeros(0) =~= before);
        }
        while i < n
            invariant
                i <= n,
                self@ == before + zeros(i as nat),
            decreases n - i,
        {
            self.0.push(0);
            proof {
                assert(self@ =~= before + zeros((i + 1) as nat));
            }
            i = i + 1;
        }
    }

    /// What was written.
    pub fn into_vec(self) -> (r: Vec<u8>)
        ensures
            r@ == self@,
    {
        self.0
    }
}

/// The four bytes of a value read back as that value.
pub proof fn law_b32_reads_back(v: u32, s: Seq<u8>, at: int)
    requires
        0 <= at,
        at + 4 <= s.len(),
        s.subrange(at, at + 4) == b32(v),
    ensures
        be32(s, at) == v,
{
    let b = s.subrange(at, at + 4);
    assert(b[0] == s[at] && b[1] == s[at + 1] && b[2] == s[at + 2] && b[3] == s[at + 3]);
    assert(be16(s, at) == v / 0x1_0000);
    assert(be16(s, at + 2) == v % 0x1_0000);
}

/// The eight bytes of a value read back as that value.
pub proof fn law_b64_reads_back(v: u64, s: Seq<u8>, at: int)
    requires
        0 <= at,
        at + 8 <= s.len(),
        s.subrange(at, at + 8) == b64(v),
    ensures
        be64(s, at) == v,
{
    let b = s.subrange(at, at + 8);
    assert(s.subrange(at, at + 4) =~= b32((v / 0x1_0000_0000) as u32)) by {
        assert(b.subrange(0, 4) =~= b32((v / 0x1_0000_0000) as u32));
        assert(s.subrange(at, at + 4) =~= b.subrange(0, 4));
    }
    assert(s.subrange(at + 4, at + 8) =~= b32((v % 0x1_0000_0000) as u32)) by {
        assert(b.subrange(4, 8) =~= b32((v % 0x1_0000_0000) as u32));
        assert(s.subrange(at + 4, at + 8) =~= b.subrange(4, 8));
    }
    law_b32_reads_back((v / 0x1_0000_0000) as u32, s, at);
    law_b32_reads_back((v % 0x1_0000_0000) as u32, s, at + 4);
}

/// A box reads back: wherever it stands, its header gives its type, and
/// its payload is its body. An extended-type box carries sixteen more
/// header bytes and is left out.
#[verifier::spinoff_prover]
#[verifier::rlimit(30)]
pub proof fn law_box_reads_back(t: BoxType, body: Seq<u8>, before: Seq<u8>, after: Seq<u8>)
    requires
        t != UUID,
        body.len() + 16 <= u64::MAX,
    ensures
        ({
            let s = before + box_bytes(t, body) + after;
            let at = before.len() as int;
            let end = (before.len() + box_bytes(t, body).len()) as int;
            &&& box_at(s, at) == Ok::<BoxSpan, Fault>(
                BoxSpan { box_type: t, payload: end - body.len(), end },
            )
            &&& s.subrange(end - body.len(), end) == body
        }),
{
    let bytes = box_bytes(t, body);
    let s = before + bytes + after;
    let at = before.len() as int;
    let end = at + bytes.len();
    assert(s.subrange(at, end) =~= bytes);
    assert(s.subrange(at + 4, at + 8) =~= t@) by {
        assert(bytes.subrange(4, 8) =~= t@);
        assert(s.subrange(at + 4, at + 8) =~= bytes.subrange(4, 8));
    }
    let code = s.subrange(at + 4, at + 8);
    assert(code[0] == s[at + 4] && code[1] == s[at + 5] && code[2] == s[at + 6] && code[3] == s[at
        + 7]);
    assert(type_at(s, at + 4) =~= t);
    assert(s.subrange(end - body.len(), end) =~= body);
    lemma_box_size(t, body, s, at);
}

/// The size fields of a box that stands at `at`.
#[verifier::spinoff_prover]
pub proof fn lemma_box_size(t: BoxType, body: Seq<u8>, s: Seq<u8>, at: int)
    requires
        body.len() + 16 <= u64::MAX,
        0 <= at,
        at + box_bytes(t, body).len() <= s.len(),
        s.subrange(at, at + box_bytes(t, body).len()) == box_bytes(t, body),
    ensures
        body.len() + 8 <= u32::MAX ==> be32(s, at) == body.len() + 8,
        body.len() + 8 > u32::MAX ==> be32(s, at) == 1 && be64(s, at + 8) == body.len() + 16,
{
    let bytes = box_bytes(t, body);
    assert(s.subrange(at, at + 4) =~= bytes.subrange(0, 4));
    if body.len() + 8 <= u32::MAX {
        assert(bytes.subrange(0, 4) =~= b32((body.len() + 8) as u32));
        law_b32_reads_back((body.len() + 8) as u32, s, at);
    } else {
        assert(bytes.subrange(0, 4) =~= b32(1));
        law_b32_reads_back(1, s, at);
        assert(s.subrange(at + 8, at + 16) =~= b64((body.len() + 16) as u64)) by {
            assert(bytes.subrange(8, 16) =~= b64((body.len() + 16) as u64));
            assert(s.subrange(at + 8, at + 16) =~= bytes.subrange(8, 16));
        }
        law_b64_reads_back((body.len() + 16) as u64, s, at + 8);
    }
}

} // verus!
