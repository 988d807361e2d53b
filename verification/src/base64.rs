use vstd::prelude::*;

use crate::chars::{base64_char_p, is_base64_char, lemma_scan_end, scan_end};
use crate::parsed::{Parsed, SpecParsed};
use vstd::slice::{slice_subrange, slice_to_vec};

verus! {

/// base64 = *(4base64-char) [base64-terminal]
/// base64-terminal = (2base64-char "==") / (3base64-char "=")
///
/// Acceptance is structural only: the match is the maximal run of base64
/// characters followed by an optional `=` or `==`, with no requirement that
/// the total length be a multiple of four or that the padding be canonical.
/// A run or a lone `=` at the end of the input is reported incomplete.
pub open spec fn spec_base64(s: Seq<u8>) -> SpecParsed<Seq<u8>> {
    let e = scan_end(s, 0, base64_char_p());
    if e == s.len() {
        SpecParsed::Incomplete { needed: 1 }
    } else if s[e] != 0x3d {
        SpecParsed::Matched { used: e, val: s.subrange(0, e) }
    } else if e + 1 == s.len() {
        SpecParsed::Incomplete { needed: 1 }
    } else if s[e + 1] == 0x3d {
        SpecParsed::Matched { used: e + 2, val: s.subrange(0, e + 2) }
    } else {
        SpecParsed::Matched { used: e + 1, val: s.subrange(0, e + 1) }
    }
}

/// Recognizer for `base64`. The value is the matched prefix itself.
pub fn base64(input: &[u8]) -> (r: Parsed<Vec<u8>>)
    ensures
        r@ == spec_base64(input@),
{
    let mut i: usize = 0;
    while i < input.len() && is_base64_char(input[i])
        invariant
            0 <= i <= input@.len(),
            forall|j: int| 0 <= j < i ==> base64_char_p()(input@[j]),
        decreases input@.len() - i,
    {
        i = i + 1;
    }
    proof {
        lemma_scan_end(input@, base64_char_p(), i as int);
    }
    if i == input.len() {
        Parsed::Incomplete { needed: 1 }
    } else if input[i] != 0x3d {
        let val = slice_to_vec(slice_subrange(input, 0, i));
        proof {
            assert(val.deep_view() =~= input@.subrange(0, i as int));
        }
        Parsed::Matched { used: i, val }
    } else if i + 1 == input.len() {
        Parsed::Incomplete { needed: 1 }
    } else if input[i + 1] == 0x3d {
        let val = slice_to_vec(slice_subrange(input, 0, i + 2));
        proof {
            assert(val.deep_view() =~= input@.subrange(0, i + 2));
        }
        Parsed::Matched { used: i + 2, val }
    } else {
        let val = slice_to_vec(slice_subrange(input, 0, i + 1));
        proof {
            assert(val.deep_view() =~= input@.subrange(0, i + 1));
        }
        Parsed::Matched { used: i + 1, val }
    }
}

} // verus!
