use vstd::prelude::*;

use crate::chars::{digit_p, digit_val, is_digit, scan_end, spec_is_digit};
use crate::parsed::{Parsed, SpecParsed};
use vstd::slice::{slice_subrange, slice_to_vec};

verus! {

/// The numeric value of the digit run `s[i..e]`, read left to right.
pub open spec fn digits_value(s: Seq<u8>, i: int, e: int) -> int
    decreases e - i,
{
    if i >= e {
        0
    } else {
        digits_value(s, i, e - 1) * 10 + digit_val(s[e - 1])
    }
}

/// A digit run's value is never negative.
pub proof fn lemma_digits_value_nonneg(s: Seq<u8>, i: int, e: int)
    requires
        forall|j: int| i <= j < e ==> spec_is_digit(s[j]),
    ensures
        digits_value(s, i, e) >= 0,
    decreases e - i,
{
    if i < e {
        lemma_digits_value_nonneg(s, i, e - 1);
    }
}

/// Extending a digit run never shrinks its value.
pub proof fn lemma_digits_value_mono(s: Seq<u8>, i: int, j: int, e: int)
    requires
        i <= j <= e,
        forall|k: int| i <= k < e ==> spec_is_digit(s[k]),
    ensures
        digits_value(s, i, e) >= digits_value(s, i, j),
    decreases e - j,
{
    if j < e {
        lemma_digits_value_mono(s, i, j, e - 1);
        lemma_digits_value_nonneg(s, i, e - 1);
    }
}

/// literal = "{" number "}" CRLF *CHAR8
///
/// The header announces the payload's exact byte count `n`. When fewer than
/// `n` payload bytes are buffered the outcome is incomplete, asking for
/// exactly the missing count; when at least `n` are buffered exactly `n` are
/// consumed and copied, and whatever follows is left untouched. A count
/// beyond the protocol's 32-bit range is a failure.
pub open spec fn spec_literal(s: Seq<u8>) -> SpecParsed<Seq<u8>> {
    if s.len() == 0 {
        SpecParsed::Incomplete { needed: 1 }
    } else if s[0] != 0x7b {
        SpecParsed::Failed
    } else {
        let e = scan_end(s, 1, digit_p());
        if e == 1 && s.len() == 1 {
            SpecParsed::Incomplete { needed: 1 }
        } else if e == 1 {
            SpecParsed::Failed
        } else if e == s.len() {
            SpecParsed::Incomplete { needed: 1 }
        } else if digits_value(s, 1, e) > 0xffff_ffff {
            SpecParsed::Failed
        } else if s[e] != 0x7d {
            SpecParsed::Failed
        } else {
            let n = digits_value(s, 1, e);
            if e + 1 == s.len() {
                SpecParsed::Incomplete { needed: 1 }
            } else if s[e + 1] != 0x0d {
                SpecParsed::Failed
            } else if e + 2 == s.len() {
                SpecParsed::Incomplete { needed: 1 }
            } else if s[e + 2] != 0x0a {
                SpecParsed::Failed
            } else {
                let p = e + 3;
                if s.len() - p < n {
                    SpecParsed::Incomplete { needed: n - (s.len() - p) }
                } else {
                    SpecParsed::Matched { used: p + n, val: s.subrange(p, p + n) }
                }
            }
        }
    }
}

/// Recognizer for `literal`. The value is the payload alone, exactly as
/// many bytes as the header announced.
pub fn literal(input: &[u8]) -> (r: Parsed<Vec<u8>>)
    ensures
        r@ == spec_literal(input@),
{
    if input.len() == 0 {
        return Parsed::Incomplete { needed: 1 };
    }
    if input[0] != 0x7b {
        return Parsed::Failed;
    }
    let mut e: usize = 1;
    while e < input.len() && is_digit(input[e])
        invariant
            1 <= e <= input@.len(),
            forall|j: int| 1 <= j < e ==> spec_is_digit(input@[j]),
        decreases input@.len() - e,
    {
        e = e + 1;
    }
    proof {
        lemma_scan_end_from_one(input@, e as int);
    }
    if e == 1 && input.len() == 1 {
        return Parsed::Incomplete { needed: 1 };
    }
    if e == 1 {
        return Parsed::Failed;
    }
    if e == input.len() {
        return Parsed::Incomplete { needed: 1 };
    }
    // The announced count, watching for 32-bit overflow.
    let mut acc: u64 = 0;
    let mut i: usize = 1;
    while i < e
        invariant
            input@.len() > 0 && input@[0] == 0x7b,
            scan_end(input@, 1, digit_p()) == e as int,
            1 < e < input@.len(),
            1 <= i <= e,
            forall|j: int| 1 <= j < e ==> spec_is_digit(input@[j]),
            acc as int == digits_value(input@, 1, i as int),
            acc <= 0xffff_ffff,
        decreases e - i,
    {
        acc = acc * 10 + ((input[i] - 0x30) as u64);
        i = i + 1;
        if acc > 0xffff_ffff {
            proof {
                lemma_digits_value_mono(input@, 1, i as int, e as int);
            }
            return Parsed::Failed;
        }
    }
    if input[e] != 0x7d {
        return Parsed::Failed;
    }
    if e + 1 == input.len() {
        return Parsed::Incomplete { needed: 1 };
    }
    if input[e + 1] != 0x0d {
        return Parsed::Failed;
    }
    if e + 2 == input.len() {
        return Parsed::Incomplete { needed: 1 };
    }
    if input[e + 2] != 0x0a {
        return Parsed::Failed;
    }
    let p = e + 3;
    let n = acc as usize;
    proof {
        assert(n as int == acc as int);
    }
    let avail = input.len() - p;
    if avail < n {
        return Parsed::Incomplete { needed: n - avail };
    }
    let val = slice_to_vec(slice_subrange(input, p, p + n));
    proof {
        assert(val.deep_view() =~= input@.subrange(p as int, p as int + n as int));
    }
    Parsed::Matched { used: p + n, val }
}

/// The digit scan of a literal header stops exactly where the exec loop
/// stopped.
proof fn lemma_scan_end_from_one(s: Seq<u8>, e: int)
    requires
        1 <= e <= s.len(),
        forall|j: int| 1 <= j < e ==> spec_is_digit(s[j]),
        e < s.len() ==> !spec_is_digit(s[e]),
    ensures
        scan_end(s, 1, digit_p()) == e,
{
    crate::chars::lemma_scan_end_from(s, digit_p(), 1, e);
}

} // verus!
