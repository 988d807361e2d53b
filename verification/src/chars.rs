use vstd::prelude::*;

use crate::parsed::{Parsed, SpecParsed};

verus! {

/// DIGIT, `%x30-39`.
pub open spec fn spec_is_digit(b: u8) -> bool {
    0x30 <= b <= 0x39
}

#[verifier::when_used_as_spec(spec_is_digit)]
pub fn is_digit(b: u8) -> (r: bool)
    ensures
        r == spec_is_digit(b),
{
    0x30 <= b && b <= 0x39
}

/// ALPHA, `%x41-5A / %x61-7A`.
pub open spec fn spec_is_alpha(b: u8) -> bool {
    (0x41 <= b <= 0x5a) || (0x61 <= b <= 0x7a)
}

#[verifier::when_used_as_spec(spec_is_alpha)]
pub fn is_alpha(b: u8) -> (r: bool)
    ensures
        r == spec_is_alpha(b),
{
    (0x41 <= b && b <= 0x5a) || (0x61 <= b && b <= 0x7a)
}

/// base64-char = ALPHA / DIGIT / "+" / "/", case-sensitive.
pub open spec fn spec_is_base64_char(b: u8) -> bool {
    spec_is_alpha(b) || spec_is_digit(b) || b == 0x2b || b == 0x2f
}

#[verifier::when_used_as_spec(spec_is_base64_char)]
pub fn is_base64_char(b: u8) -> (r: bool)
    ensures
        r == spec_is_base64_char(b),
{
    is_alpha(b) || is_digit(b) || b == 0x2b || b == 0x2f
}

/// ATOM-CHAR: any byte of CHAR (`%x01-7F`) that is not an atom-special.
/// The atom-specials are `(`, `)`, `{`, SP, CTL (`%x00-1F / %x7F`), the list
/// wildcards `%` and `*`, the quoted-specials `"` and `\`, and `]`.
pub open spec fn spec_is_atom_char(b: u8) -> bool {
    0x21 <= b <= 0x7e && b != 0x28 && b != 0x29 && b != 0x7b && b != 0x25 && b != 0x2a
        && b != 0x22 && b != 0x5c && b != 0x5d
}

#[verifier::when_used_as_spec(spec_is_atom_char)]
pub fn is_atom_char(b: u8) -> (r: bool)
    ensures
        r == spec_is_atom_char(b),
{
    0x21 <= b && b <= 0x7e && b != 0x28 && b != 0x29 && b != 0x7b && b != 0x25 && b != 0x2a
        && b != 0x22 && b != 0x5c && b != 0x5d
}

/// ASCII lower-casing of one byte; bytes outside `A`-`Z` are unchanged.
pub open spec fn spec_lower(b: u8) -> u8 {
    if 0x41 <= b <= 0x5a {
        (b + 0x20) as u8
    } else {
        b
    }
}

#[verifier::when_used_as_spec(spec_lower)]
pub fn lower(b: u8) -> (r: u8)
    ensures
        r == spec_lower(b),
{
    if 0x41 <= b && b <= 0x5a {
        b + 0x20
    } else {
        b
    }
}

/// The numeric value of the digit byte `b`.
pub open spec fn digit_val(b: u8) -> int {
    b - 0x30
}

/// The digit predicate as a value, for use with `scan_end`.
pub open spec fn digit_p() -> spec_fn(u8) -> bool {
    |b: u8| spec_is_digit(b)
}

/// The ATOM-CHAR predicate as a value, for use with `scan_end`.
pub open spec fn atom_char_p() -> spec_fn(u8) -> bool {
    |b: u8| spec_is_atom_char(b)
}

/// The base64-char predicate as a value, for use with `scan_end`.
pub open spec fn base64_char_p() -> spec_fn(u8) -> bool {
    |b: u8| spec_is_base64_char(b)
}

/// The end of the maximal run of bytes satisfying `p` that starts at `i`:
/// the first position at or after `i` holding a byte outside `p`, or the
/// length of `s` when the run reaches the end of the input.
pub open spec fn scan_end(s: Seq<u8>, i: int, p: spec_fn(u8) -> bool) -> int
    decreases s.len() - i,
{
    if 0 <= i && i < s.len() && p(s[i]) {
        scan_end(s, i + 1, p)
    } else {
        i
    }
}

/// `scan_end` from the start of `s` is the unique position `e` such that all
/// bytes before `e` satisfy `p` and the byte at `e`, if any, does not.
pub proof fn lemma_scan_end(s: Seq<u8>, p: spec_fn(u8) -> bool, e: int)
    requires
        0 <= e <= s.len(),
        forall|j: int| 0 <= j < e ==> p(s[j]),
        e < s.len() ==> !p(s[e]),
    ensures
        scan_end(s, 0, p) == e,
{
    lemma_scan_end_from(s, p, 0, e);
}

/// Generalization of `lemma_scan_end` to a run that starts at `i`.
pub proof fn lemma_scan_end_from(s: Seq<u8>, p: spec_fn(u8) -> bool, i: int, e: int)
    requires
        0 <= i <= e <= s.len(),
        forall|j: int| i <= j < e ==> p(s[j]),
        e < s.len() ==> !p(s[e]),
    ensures
        scan_end(s, i, p) == e,
    decreases e - i,
{
    if i < e {
        lemma_scan_end_from(s, p, i + 1, e);
    }
}

/// Whether the first `n` bytes of `s` and `t` agree case-insensitively.
pub open spec fn eq_nc_upto(s: Seq<u8>, t: Seq<u8>, n: int) -> bool {
    forall|i: int| 0 <= i < n ==> spec_lower(s[i]) == spec_lower(t[i])
}

/// Matching the fixed word `t` case-insensitively against the head of `s`:
/// a mismatch anywhere in the overlap is a failure; agreement on all of `t`
/// is a match; agreement on a too-short `s` asks for the missing bytes.
pub open spec fn spec_tag_nc(s: Seq<u8>, t: Seq<u8>) -> SpecParsed<()> {
    if s.len() >= t.len() {
        if eq_nc_upto(s, t, t.len() as int) {
            SpecParsed::Matched { used: t.len() as int, val: () }
        } else {
            SpecParsed::Failed
        }
    } else {
        if eq_nc_upto(s, t, s.len() as int) {
            SpecParsed::Incomplete { needed: t.len() - s.len() }
        } else {
            SpecParsed::Failed
        }
    }
}

/// Recognizer for a fixed word, compared case-insensitively byte by byte.
pub fn tag_nc(input: &[u8], t: &[u8]) -> (r: Parsed<()>)
    ensures
        r@ == spec_tag_nc(input@, t@),
{
    let n: usize = if input.len() < t.len() {
        input.len()
    } else {
        t.len()
    };
    let mut i: usize = 0;
    while i < n
        invariant
            0 <= i <= n,
            n == if input@.len() < t@.len() {
                input@.len() as int
            } else {
                t@.len() as int
            },
            eq_nc_upto(input@, t@, i as int),
        decreases n - i,
    {
        if lower(input[i]) != lower(t[i]) {
            return Parsed::Failed;
        }
        i = i + 1;
    }
    if input.len() >= t.len() {
        Parsed::Matched { used: t.len(), val: () }
    } else {
        Parsed::Incomplete { needed: t.len() - input.len() }
    }
}

/// Whether the first `n` bytes of `s` and `t` agree exactly.
pub open spec fn eq_upto(s: Seq<u8>, t: Seq<u8>, n: int) -> bool {
    forall|i: int| 0 <= i < n ==> s[i] == t[i]
}

/// Matching the fixed word `t` byte-for-byte against the head of `s`.
pub open spec fn spec_tag(s: Seq<u8>, t: Seq<u8>) -> SpecParsed<()> {
    if s.len() >= t.len() {
        if eq_upto(s, t, t.len() as int) {
            SpecParsed::Matched { used: t.len() as int, val: () }
        } else {
            SpecParsed::Failed
        }
    } else {
        if eq_upto(s, t, s.len() as int) {
            SpecParsed::Incomplete { needed: t.len() - s.len() }
        } else {
            SpecParsed::Failed
        }
    }
}

/// Recognizer for a fixed word, compared case-sensitively byte by byte.
pub fn tag(input: &[u8], t: &[u8]) -> (r: Parsed<()>)
    ensures
        r@ == spec_tag(input@, t@),
{
    let n: usize = if input.len() < t.len() {
        input.len()
    } else {
        t.len()
    };
    let mut i: usize = 0;
    while i < n
        invariant
            0 <= i <= n,
            n == if input@.len() < t@.len() {
                input@.len() as int
            } else {
                t@.len() as int
            },
            eq_upto(input@, t@, i as int),
        decreases n - i,
    {
        if input[i] != t[i] {
            return Parsed::Failed;
        }
        i = i + 1;
    }
    if input.len() >= t.len() {
        Parsed::Matched { used: t.len(), val: () }
    } else {
        Parsed::Incomplete { needed: t.len() - input.len() }
    }
}

} // verus!
