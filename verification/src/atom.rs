use vstd::prelude::*;

use crate::chars::{atom_char_p, is_atom_char, lemma_scan_end, scan_end, spec_is_atom_char};
use crate::parsed::{Parsed, SpecParsed};
use vstd::slice::{slice_subrange, slice_to_vec};

verus! {

/// A byte sequence that may stand bare on the wire as an atom: non-empty,
/// every byte an ATOM-CHAR.
pub open spec fn atom_wf(s: Seq<u8>) -> bool {
    s.len() > 0 && forall|i: int| 0 <= i < s.len() ==> spec_is_atom_char(s[i])
}

/// A bare IMAP token. Well-formed values (see [`atom_wf`]) are what the
/// parser produces and what the encoder expects.
#[derive(Clone, Debug, PartialEq, Eq)]
pub struct Atom {
    pub bytes: Vec<u8>,
}

impl View for Atom {
    type V = Seq<u8>;

    open spec fn view(&self) -> Seq<u8> {
        self.bytes@
    }
}

impl DeepView for Atom {
    type V = Seq<u8>;

    open spec fn deep_view(&self) -> Seq<u8> {
        self.bytes@
    }
}

impl Atom {
    /// Whether this token respects the atom alphabet.
    pub open spec fn wf(&self) -> bool {
        atom_wf(self@)
    }

    /// Builds an atom, accepting exactly the well-formed byte sequences.
    pub fn new(bytes: Vec<u8>) -> (r: Option<Atom>)
        ensures
            match r {
                Some(a) => atom_wf(bytes@) && a@ == bytes@,
                None => !atom_wf(bytes@),
            },
    {
        let mut i: usize = 0;
        while i < bytes.len()
            invariant
                0 <= i <= bytes@.len(),
                forall|j: int| 0 <= j < i ==> spec_is_atom_char(bytes@[j]),
            decreases bytes@.len() - i,
        {
            if !is_atom_char(bytes[i]) {
                return None;
            }
            i = i + 1;
        }
        if bytes.len() == 0 {
            return None;
        }
        Some(Atom { bytes })
    }
}

/// atom = 1*ATOM-CHAR
///
/// The match is the maximal run of atom characters. A run that reaches the
/// end of the input is reported incomplete, since a further byte could
/// lengthen it.
pub open spec fn spec_atom(s: Seq<u8>) -> SpecParsed<Seq<u8>> {
    let e = scan_end(s, 0, atom_char_p());
    if e == s.len() {
        SpecParsed::Incomplete { needed: 1 }
    } else if e == 0 {
        SpecParsed::Failed
    } else {
        SpecParsed::Matched { used: e, val: s.subrange(0, e) }
    }
}

/// Every atom the parser yields is well-formed.
pub proof fn lemma_spec_atom_wf(s: Seq<u8>)
    ensures
        spec_atom(s) matches SpecParsed::Matched { used, val } ==> {
            &&& atom_wf(val)
            &&& 0 < used <= s.len()
            &&& val == s.subrange(0, used)
        },
{
    lemma_scan_end_bounds(s);
}

/// The scan stops within the input, after atom characters only.
proof fn lemma_scan_end_bounds(s: Seq<u8>)
    ensures
        0 <= scan_end(s, 0, atom_char_p()) <= s.len(),
        forall|j: int|
            0 <= j < scan_end(s, 0, atom_char_p()) ==> spec_is_atom_char(s[j]),
{
    lemma_scan_end_bounds_from(s, 0);
}

proof fn lemma_scan_end_bounds_from(s: Seq<u8>, i: int)
    requires
        0 <= i <= s.len(),
    ensures
        i <= scan_end(s, i, atom_char_p()) <= s.len(),
        forall|j: int|
            i <= j < scan_end(s, i, atom_char_p()) ==> spec_is_atom_char(s[j]),
    decreases s.len() - i,
{
    if i < s.len() && atom_char_p()(s[i]) {
        lemma_scan_end_bounds_from(s, i + 1);
    }
}

/// Recognizer for `atom`.
pub fn atom(input: &[u8]) -> (r: Parsed<Atom>)
    ensures
        r@ == spec_atom(input@),
{
    let mut i: usize = 0;
    while i < input.len() && is_atom_char(input[i])
        invariant
            0 <= i <= input@.len(),
            forall|j: int| 0 <= j < i ==> spec_is_atom_char(input@[j]),
        decreases input@.len() - i,
    {
        i = i + 1;
    }
    proof {
        lemma_scan_end(input@, atom_char_p(), i as int);
    }
    if i == input.len() {
        Parsed::Incomplete { needed: 1 }
    } else if i == 0 {
        Parsed::Failed
    } else {
        let bytes = slice_to_vec(slice_subrange(input, 0, i));
        Parsed::Matched { used: i, val: Atom { bytes } }
    }
}

} // verus!
