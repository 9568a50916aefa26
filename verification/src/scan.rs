//! Byte classification and maximal-run scanning over the input buffer.
//!
//! Every grammar rule of the parser is built from two primitives: looking at
//! one byte, and taking the longest run of bytes of one class starting at a
//! position. `scan` is the mathematical form of the second primitive and
//! `scan_class` its executable counterpart.

use vstd::prelude::*;

verus! {

/// The classes of bytes the grammar distinguishes. Each names the set of
/// bytes a particular rule may consume.
#[derive(Clone, Copy, Debug, PartialEq, Eq)]
pub enum ByteClass {
    /// Whitespace: space, tab, carriage return, newline.
    Ws,
    /// ASCII decimal digits.
    Digit,
    /// The `.` characters trailing a move number.
    Dot,
    /// Bytes allowed inside a quoted tag value: anything but `"`.
    TagValue,
    /// Bytes allowed inside a tag key: anything but a space.
    TagKey,
    /// Bytes of a move-notation token: anything but space or newline.
    San,
    /// Bytes inside a `{ ... }` comment: anything but `}`.
    BraceComment,
    /// Bytes inside a `; ...` comment: anything but newline.
    LineComment,
}

pub open spec fn in_class(c: ByteClass, b: u8) -> bool {
    match c {
        ByteClass::Ws => b == ' ' as u8 || b == '\t' as u8 || b == '\r' as u8 || b == '\n' as u8,
        ByteClass::Digit => '0' as u8 <= b && b <= '9' as u8,
        ByteClass::Dot => b == '.' as u8,
        ByteClass::TagValue => b != '"' as u8,
        ByteClass::TagKey => b != ' ' as u8,
        ByteClass::San => b != ' ' as u8 && b != '\n' as u8,
        ByteClass::BraceComment => b != '}' as u8,
        ByteClass::LineComment => b != '\n' as u8,
    }
}

/// The end of the maximal run of bytes of class `c` that starts at `i`:
/// the first position at or after `i` holding no byte of `c`, or the end of
/// the input if the run reaches it.
pub open spec fn scan(s: Seq<u8>, i: int, c: ByteClass) -> int
    decreases s.len() - i,
{
    if i < s.len() && in_class(c, s[i]) {
        scan(s, i + 1, c)
    } else {
        i
    }
}

/// What `scan` returns: a position within bounds, every byte of the run in
/// the class, and the byte at the end (if any) outside it.
pub proof fn lemma_scan(s: Seq<u8>, i: int, c: ByteClass)
    requires
        0 <= i <= s.len(),
    ensures
        i <= scan(s, i, c) <= s.len(),
        forall|k: int| i <= k < scan(s, i, c) ==> in_class(c, s[k]),
        scan(s, i, c) < s.len() ==> !in_class(c, s[scan(s, i, c)]),
    decreases s.len() - i,
{
    if i < s.len() && in_class(c, s[i]) {
        lemma_scan(s, i + 1, c);
    }
}

/// `scan` lands exactly on a known boundary: when every byte from `i` to
/// `j` is in the class and the byte at `j` (if any) is not, the maximal run
/// from `i` ends at `j`.
pub proof fn lemma_scan_exact(s: Seq<u8>, i: int, j: int, c: ByteClass)
    requires
        0 <= i <= j <= s.len(),
        forall|k: int| i <= k < j ==> in_class(c, s[k]),
        j == s.len() || !in_class(c, s[j]),
    ensures
        scan(s, i, c) == j,
    decreases j - i,
{
    if i < j {
        lemma_scan_exact(s, i + 1, j, c);
    }
}

/// `scan` sees only the suffix it walks: scanning `s` from `d + i` is
/// scanning the suffix of `s` at `d` from `i`, shifted back by `d`.
pub proof fn lemma_scan_skip(s: Seq<u8>, d: int, i: int, c: ByteClass)
    requires
        0 <= d,
        0 <= i,
        d + i <= s.len(),
    ensures
        scan(s, d + i, c) == d + scan(s.skip(d), i, c),
    decreases s.len() - d - i,
{
    if d + i < s.len() && in_class(c, s[d + i]) {
        lemma_scan_skip(s, d, i + 1, c);
    }
}

/// `scan` never moves backwards, whatever the starting position.
pub proof fn lemma_scan_ge(s: Seq<u8>, i: int, c: ByteClass)
    ensures
        scan(s, i, c) >= i,
    decreases s.len() - i,
{
    if i < s.len() && in_class(c, s[i]) {
        lemma_scan_ge(s, i + 1, c);
    }
}

pub fn byte_in_class(c: ByteClass, b: u8) -> (r: bool)
    ensures
        r == in_class(c, b),
{
    match c {
        ByteClass::Ws => b == ' ' as u8 || b == '\t' as u8 || b == '\r' as u8 || b == '\n' as u8,
        ByteClass::Digit => '0' as u8 <= b && b <= '9' as u8,
        ByteClass::Dot => b == '.' as u8,
        ByteClass::TagValue => b != '"' as u8,
        ByteClass::TagKey => b != ' ' as u8,
        ByteClass::San => b != ' ' as u8 && b != '\n' as u8,
        ByteClass::BraceComment => b != '}' as u8,
        ByteClass::LineComment => b != '\n' as u8,
    }
}

/// Walks to the end of the maximal run of bytes of class `c` starting at `i`.
pub fn scan_class(s: &[u8], i: usize, c: ByteClass) -> (r: usize)
    requires
        i <= s@.len(),
    ensures
        r as int == scan(s@, i as int, c),
        i <= r <= s@.len(),
{
    let mut j: usize = i;
    while j < s.len() && byte_in_class(c, s[j])
        invariant
            i <= j <= s@.len(),
            scan(s@, i as int, c) == scan(s@, j as int, c),
        decreases s@.len() - j,
    {
        j = j + 1;
    }
    j
}

/// Whether byte `b` stands at position `i` of `s`.
pub open spec fn byte_at(s: Seq<u8>, i: int, b: u8) -> bool {
    0 <= i < s.len() && s[i] == b
}

pub fn check_byte_at(s: &[u8], i: usize, b: u8) -> (r: bool)
    ensures
        r == byte_at(s@, i as int, b),
{
    i < s.len() && s[i] == b
}

/// Whether the literal `lit` stands at position `i` of `s`.
pub open spec fn lit_at(s: Seq<u8>, i: int, lit: Seq<u8>) -> bool {
    0 <= i && i + lit.len() <= s.len() && s.subrange(i, i + lit.len()) == lit
}

pub fn check_lit_at(s: &[u8], i: usize, lit: &[u8]) -> (r: bool)
    requires
        i <= s@.len(),
    ensures
        r == lit_at(s@, i as int, lit@),
{
    let n = s.len();
    if n - i < lit.len() {
        return false;
    }
    let mut k: usize = 0;
    while k < lit.len()
        invariant
            i + lit@.len() <= s@.len() <= usize::MAX,
            k <= lit@.len(),
            forall|j: int| 0 <= j < k ==> s@[i + j] == lit@[j],
        decreases lit@.len() - k,
    {
        if s[i + k] != lit[k] {
            proof {
                assert(s@.subrange(i as int, i + lit@.len())[k as int] == s@[i + k]);
            }
            return false;
        }
        k = k + 1;
    }
    proof {
        assert(s@.subrange(i as int, i + lit@.len()) =~= lit@);
    }
    true
}

/// Byte-for-byte equality of two slices.
pub fn bytes_eq(a: &[u8], b: &[u8]) -> (r: bool)
    ensures
        r == (a@ == b@),
{
    if a.len() != b.len() {
        return false;
    }
    let mut k: usize = 0;
    while k < a.len()
        invariant
            a@.len() == b@.len(),
            k <= a@.len(),
            forall|j: int| 0 <= j < k ==> a@[j] == b@[j],
        decreases a@.len() - k,
    {
        if a[k] != b[k] {
            return false;
        }
        k = k + 1;
    }
    proof {
        assert(a@ =~= b@);
    }
    true
}

} // verus!
