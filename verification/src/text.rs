//! Text used in diagnostics: decimal numbers and four-character codes.

use vstd::prelude::*;
use vstd::utf8::*;

verus! {

/// The decimal digit `d`, for `d < 10`.
pub open spec fn digit(d: nat) -> char {
    if d == 0 { '0' } else if d == 1 { '1' } else if d == 2 { '2' } else if d == 3 { '3' }
    else if d == 4 { '4' } else if d == 5 { '5' } else if d == 6 { '6' }
    else if d == 7 { '7' } else if d == 8 { '8' } else { '9' }
}

/// `n` written in decimal, most significant digit first.
pub open spec fn dec(n: nat) -> Seq<char>
    decreases n,
{
    if n < 10 {
        seq![digit(n)]
    } else {
        dec(n / 10).push(digit(n % 10))
    }
}

fn digit_text(d: u64) -> (r: &'static str)
    requires
        d < 10,
    ensures
        r@ == seq![digit(d as nat)],
{
    proof {
        reveal_strlit("0");
        reveal_strlit("1");
        reveal_strlit("2");
        reveal_strlit("3");
        reveal_strlit("4");
        reveal_strlit("5");
        reveal_strlit("6");
        reveal_strlit("7");
        reveal_strlit("8");
        reveal_strlit("9");
    }
    if d == 0 { "0" } else if d == 1 { "1" } else if d == 2 { "2" } else if d == 3 { "3" }
    else if d == 4 { "4" } else if d == 5 { "5" } else if d == 6 { "6" }
    else if d == 7 { "7" } else if d == 8 { "8" } else { "9" }
}

/// Append `n` in decimal to `out`.
pub fn push_dec(out: &mut String, n: u64)
    ensures
        final(out)@ == old(out)@ + dec(n as nat),
    decreases n,
{
    if n >= 10 {
        push_dec(out, n / 10);
    }
    let ghost before = out@;
    out.append(digit_text(n % 10));
    proof {
        assert(before + seq![digit((n % 10) as nat)] =~= before.push(digit((n % 10) as nat)));
        if n >= 10 {
            assert(before.push(digit((n % 10) as nat)) =~= old(out)@ + dec(n as nat));
        } else {
            assert(before.push(digit((n % 10) as nat)) =~= old(out)@ + dec(n as nat));
        }
    }
}

/// One lower-case hexadecimal digit, for `d < 16`.
pub open spec fn hex_digit(d: nat) -> char {
    if d < 10 { digit(d) } else if d == 10 { 'a' } else if d == 11 { 'b' } else if d == 12 { 'c' }
    else if d == 13 { 'd' } else if d == 14 { 'e' } else { 'f' }
}

fn hex_text(d: u64) -> (r: &'static str)
    requires
        d < 16,
    ensures
        r@ == seq![hex_digit(d as nat)],
{
    proof {
        reveal_strlit("a");
        reveal_strlit("b");
        reveal_strlit("c");
        reveal_strlit("d");
        reveal_strlit("e");
        reveal_strlit("f");
    }
    if d < 10 { digit_text(d) } else if d == 10 { "a" } else if d == 11 { "b" }
    else if d == 12 { "c" } else if d == 13 { "d" } else if d == 14 { "e" } else { "f" }
}

/// What an ill-formed byte sequence reads as when every maximal
/// ill-formed part is replaced by U+FFFD.
pub uninterp spec fn replaced_text(bytes: Seq<u8>) -> Seq<char>;

/// The text of a byte sequence: UTF-8 where it is well formed.
pub open spec fn lossy_text(bytes: Seq<u8>) -> Seq<char> {
    if valid_utf8(bytes) {
        decode_utf8(bytes)
    } else {
        replaced_text(bytes)
    }
}

/// `String::from_utf8_lossy`: the text of `bytes`. Well-formed UTF-8 is
/// decoded as it stands; how ill-formed parts are replaced is left to
/// the name `replaced_text`.
#[verifier::external_body]
pub(crate) fn utf8_lossy(bytes: &[u8]) -> (r: String)
    ensures
        valid_utf8(bytes@) ==> r@ == decode_utf8(bytes@),
        !valid_utf8(bytes@) ==> r@ == replaced_text(bytes@),
{
    String::from_utf8_lossy(bytes).into_owned()
}

/// How one byte of a four-character code is shown: printable ASCII as
/// itself, anything else as `\xNN`.
pub open spec fn code_byte(b: u8) -> Seq<char> {
    if 0x20 <= b < 0x7f {
        seq![b as char]
    } else {
        seq!['\\', 'x', hex_digit((b / 16) as nat), hex_digit((b % 16) as nat)]
    }
}

/// A four-character code as shown in diagnostics.
pub open spec fn code_text(t: [u8; 4]) -> Seq<char> {
    code_byte(t[0]) + code_byte(t[1]) + code_byte(t[2]) + code_byte(t[3])
}

/// The text of one ASCII byte.
proof fn lemma_ascii_byte(b: u8)
    requires
        b < 0x80,
    ensures
        valid_utf8(seq![b]),
        decode_utf8(seq![b]) == seq![b as char],
{
    let c = b as char;
    assert(is_ascii_chars(seq![c]));
    is_ascii_chars_encode_utf8(seq![c]);
    assert(encode_utf8(seq![c]) =~= seq![b]);
    encode_utf8_valid_utf8(seq![c]);
    encode_utf8_decode_utf8(seq![c]);
}

fn push_code_byte(out: &mut String, b: u8)
    ensures
        final(out)@ == old(out)@ + code_byte(b),
{
    if 0x20 <= b && b < 0x7f {
        let one = [b];
        let text = utf8_lossy(&one);
        proof {
            lemma_ascii_byte(b);
            assert(one@ =~= seq![b]);
        }
        out.append(text.as_str());
    } else {
        proof {
            reveal_strlit("\\x");
        }
        out.append("\\x");
        out.append(hex_text((b / 16) as u64));
        out.append(hex_text((b % 16) as u64));
        proof {
            assert(out@ =~= old(out)@ + code_byte(b));
        }
    }
}

/// Append a four-character code to `out`.
pub fn push_code(out: &mut String, t: &[u8; 4])
    ensures
        final(out)@ == old(out)@ + code_text(*t),
{
    push_code_byte(out, t[0]);
    push_code_byte(out, t[1]);
    push_code_byte(out, t[2]);
    push_code_byte(out, t[3]);
    proof {
        assert(out@ =~= old(out)@ + code_text(*t));
    }
}

/// Whether `s` begins with `prefix`.
pub open spec fn begins_with(s: Seq<char>, prefix: Seq<char>) -> bool {
    prefix.len() <= s.len() && s.subrange(0, prefix.len() as int) == prefix
}

/// Whether `s` begins with `prefix`.
pub(crate) fn starts_text(s: &str, prefix: &str) -> (r: bool)
    ensures
        r == begins_with(s@, prefix@),
{
    let n: usize = prefix.unicode_len();
    if s.unicode_len() < n {
        return false;
    }
    let mut i: usize = 0;
    while i < n
        invariant
            i <= n,
            n == prefix@.len(),
            n <= s@.len(),
            s@.subrange(0, i as int) == prefix@.subrange(0, i as int),
        decreases n - i,
    {
        if s.get_char(i) != prefix.get_char(i) {
            proof {
                assert(s@.subrange(0, n as int)[i as int] != prefix@[i as int]);
            }
            return false;
        }
        proof {
            assert(s@.subrange(0, i + 1) =~= s@.subrange(0, i as int).push(s@[i as int]));
            assert(prefix@.subrange(0, i + 1) =~= prefix@.subrange(0, i as int).push(
                prefix@[i as int],
            ));
        }
        i = i + 1;
    }
    proof {
        assert(prefix@.subrange(0, n as int) =~= prefix@);
    }
    true
}

/// `std::str::from_utf8`: the text of well-formed UTF-8.
#[verifier::external_body]
pub(crate) fn utf8_text(bytes: &[u8]) -> (r: Option<&str>)
    ensures
        r is Some <==> valid_utf8(bytes@),
        r is Some ==> r->0@ == decode_utf8(bytes@),
{
    std::str::from_utf8(bytes).ok()
}

/// A character with capital letters `A` to `Z` made small.
pub open spec fn fold(c: char) -> int {
    if 'A' <= c <= 'Z' {
        c as int + 32
    } else {
        c as int
    }
}

/// Whether two texts are equal but for the case of letters.
pub open spec fn folded_equals(a: Seq<char>, b: Seq<char>) -> bool {
    a.len() == b.len() && folded_begins(a, b)
}

/// Whether `a` begins with `b` but for the case of letters.
pub open spec fn folded_begins(a: Seq<char>, b: Seq<char>) -> bool {
    a.len() >= b.len() && forall|i: int|
        0 <= i < b.len() ==> fold(#[trigger] a[i]) == fold(b[i])
}

fn folded(c: char) -> (r: u32)
    ensures
        r == fold(c),
{
    if 'A' <= c && c <= 'Z' {
        c as u32 + 32
    } else {
        c as u32
    }
}

/// Whether `a` begins with `b` but for the case of letters.
pub(crate) fn starts_folded(a: &str, b: &str) -> (r: bool)
    ensures
        r == folded_begins(a@, b@),
{
    let n: usize = b.unicode_len();
    if a.unicode_len() < n {
        return false;
    }
    let mut i: usize = 0;
    while i < n
        invariant
            i <= n,
            n == b@.len(),
            n <= a@.len(),
            forall|j: int| 0 <= j < i ==> fold(#[trigger] a@[j]) == fold(b@[j]),
        decreases n - i,
    {
        if folded(a.get_char(i)) != folded(b.get_char(i)) {
            return false;
        }
        i = i + 1;
    }
    true
}

/// Whether two texts are equal but for the case of letters.
pub(crate) fn same_folded(a: &str, b: &str) -> (r: bool)
    ensures
        r == folded_equals(a@, b@),
{
    a.unicode_len() == b.unicode_len() && starts_folded(a, b)
}

} // verus!
