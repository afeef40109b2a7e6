//! The crate's error type.

use crate::text::{dec, push_code, push_dec, code_text};
use vstd::prelude::*;

verus! {

/// What went wrong, as a value contracts can speak of.
pub enum Fault {
    /// The bytes or the arguments break a rule of the format.
    Invalid(Seq<char>),
    /// The input is well formed but outside what this crate handles.
    Unsupported(Seq<char>),
}

/// Errors raised by the container parser, the composition layer and the
/// writer. The text says which rule was broken, and where.
#[derive(Debug, PartialEq, Eq)]
pub enum AvifError {
    /// The bytes or the arguments break a rule of the format.
    InvalidData(String),
    /// The input is well formed but outside what this crate handles.
    Unsupported(String),
}

impl View for AvifError {
    type V = Fault;

    open spec fn view(&self) -> Fault {
        match self {
            AvifError::InvalidData(s) => Fault::Invalid(s@),
            AvifError::Unsupported(s) => Fault::Unsupported(s@),
        }
    }
}

/// The outcome of a call, with the error by its view.
pub open spec fn outcome<T>(r: Result<T, AvifError>) -> Result<T, Fault> {
    match r {
        Ok(v) => Ok(v),
        Err(e) => Err(e@),
    }
}

/// The outcome of a call, with the value and the error by their views.
pub open spec fn outcome_view<T: View>(r: Result<T, AvifError>) -> Result<T::V, Fault> {
    match r {
        Ok(v) => Ok(v@),
        Err(e) => Err(e@),
    }
}

/// The views of the elements of a sequence.
pub open spec fn views<T: View>(s: Seq<T>) -> Seq<T::V> {
    Seq::new(s.len(), |i: int| s[i]@)
}

/// The outcome of a call that returns a list, with its elements and the
/// error by their views.
pub open spec fn outcome_list<T: View>(r: Result<Vec<T>, AvifError>) -> Result<Seq<T::V>, Fault> {
    match r {
        Ok(v) => Ok(views(v@)),
        Err(e) => Err(e@),
    }
}

/// Appending an element appends its view.
pub proof fn lemma_views_push<T: View>(s: Seq<T>, x: T)
    ensures
        views(s.push(x)) == views(s).push(x@),
{
    assert(views(s.push(x)) =~= views(s).push(x@));
}

impl AvifError {
    /// An [`AvifError::InvalidData`] with this text.
    pub fn invalid(msg: &str) -> (r: AvifError)
        ensures
            r@ == Fault::Invalid(msg@),
    {
        AvifError::InvalidData(msg.to_string())
    }

    /// An [`AvifError::Unsupported`] with this text.
    pub fn unsupported(msg: &str) -> (r: AvifError)
        ensures
            r@ == Fault::Unsupported(msg@),
    {
        AvifError::Unsupported(msg.to_string())
    }

    /// The error as one line of text: its kind, then its message.
    pub fn to_string(&self) -> (r: String)
        ensures
            r@ == fault_text(self@),
    {
        let mut out = String::new();
        match self {
            AvifError::InvalidData(s) => {
                out.append("invalid data: ");
                out.append(s.as_str());
                proof {
                    assert(out@ =~= fault_text(self@));
                }
            },
            AvifError::Unsupported(s) => {
                out.append("unsupported: ");
                out.append(s.as_str());
                proof {
                    assert(out@ =~= fault_text(self@));
                }
            },
        }
        out
    }
}

/// A fault as one line of text: its kind, then its message.
pub open spec fn fault_text(f: Fault) -> Seq<char> {
    match f {
        Fault::Invalid(m) => "invalid data: "@ + m,
        Fault::Unsupported(m) => "unsupported: "@ + m,
    }
}

/// `a`, `n` in decimal, `b`.
pub(crate) fn text_n(a: &str, n: u64, b: &str) -> (r: String)
    ensures
        r@ == a@ + dec(n as nat) + b@,
{
    let mut s = a.to_string();
    push_dec(&mut s, n);
    s.append(b);
    s
}

/// `a`, `n` in decimal, `b`, `m` in decimal, `c`.
pub(crate) fn text_nn(a: &str, n: u64, b: &str, m: u64, c: &str) -> (r: String)
    ensures
        r@ == a@ + dec(n as nat) + b@ + dec(m as nat) + c@,
{
    let mut s = text_n(a, n, b);
    push_dec(&mut s, m);
    s.append(c);
    s
}

/// `a`, three numbers in decimal separated by `b` and `c`, then `d`.
pub(crate) fn text_nnn(a: &str, n: u64, b: &str, m: u64, c: &str, k: u64, d: &str) -> (r: String)
    ensures
        r@ == a@ + dec(n as nat) + b@ + dec(m as nat) + c@ + dec(k as nat) + d@,
{
    let mut s = text_nn(a, n, b, m, c);
    push_dec(&mut s, k);
    s.append(d);
    s
}

/// `a`, a four-character code, `b`.
pub(crate) fn text_code(a: &str, t: &[u8; 4], b: &str) -> (r: String)
    ensures
        r@ == a@ + code_text(*t) + b@,
{
    let mut s = a.to_string();
    push_code(&mut s, t);
    s.append(b);
    s
}

/// Invalid data, with a number at the end of the text.
pub(crate) fn invalid_end(a: &str, n: u64) -> (r: AvifError)
    ensures
        r@ == Fault::Invalid(a@ + dec(n as nat)),
{
    let mut s = a.to_string();
    push_dec(&mut s, n);
    AvifError::InvalidData(s)
}

/// Invalid data, with a number in the text.
pub(crate) fn invalid_n(a: &str, n: u64, b: &str) -> (r: AvifError)
    ensures
        r@ == Fault::Invalid(a@ + dec(n as nat) + b@),
{
    AvifError::InvalidData(text_n(a, n, b))
}

/// Invalid data, with two numbers in the text.
pub(crate) fn invalid_nn(a: &str, n: u64, b: &str, m: u64, c: &str) -> (r: AvifError)
    ensures
        r@ == Fault::Invalid(a@ + dec(n as nat) + b@ + dec(m as nat) + c@),
{
    AvifError::InvalidData(text_nn(a, n, b, m, c))
}

/// Invalid data, with two numbers, one of them at the end of the text.
pub(crate) fn invalid_nn_end(a: &str, n: u64, b: &str, m: u64) -> (r: AvifError)
    ensures
        r@ == Fault::Invalid(a@ + dec(n as nat) + b@ + dec(m as nat)),
{
    let mut s = text_n(a, n, b);
    push_dec(&mut s, m);
    AvifError::InvalidData(s)
}

/// Invalid data, with three numbers in the text.
pub(crate) fn invalid_nnn(a: &str, n: u64, b: &str, m: u64, c: &str, k: u64, d: &str) -> (r:
    AvifError)
    ensures
        r@ == Fault::Invalid(
            a@ + dec(n as nat) + b@ + dec(m as nat) + c@ + dec(k as nat) + d@,
        ),
{
    AvifError::InvalidData(text_nnn(a, n, b, m, c, k, d))
}

/// Unsupported, with a number at the end of the text.
pub(crate) fn unsupported_end(a: &str, n: u64) -> (r: AvifError)
    ensures
        r@ == Fault::Unsupported(a@ + dec(n as nat)),
{
    let mut s = a.to_string();
    push_dec(&mut s, n);
    AvifError::Unsupported(s)
}

/// Unsupported, with a number in the text.
pub(crate) fn unsupported_n(a: &str, n: u64, b: &str) -> (r: AvifError)
    ensures
        r@ == Fault::Unsupported(a@ + dec(n as nat) + b@),
{
    AvifError::Unsupported(text_n(a, n, b))
}

} // verus!
