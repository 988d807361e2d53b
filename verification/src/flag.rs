use vstd::prelude::*;

use crate::atom::{atom, lemma_spec_atom_wf, spec_atom, Atom};
use crate::chars::{spec_tag, spec_tag_nc, tag, tag_nc};
use crate::parsed::{Parsed, SpecParsed};

verus! {

// --- Flag values ------------------------------------------------------------

/// A message flag: one of the fixed system flags, the contextual `\Recent`
/// and permanent-wildcard `\*` forms, an atom-named keyword, or a
/// `\`-prefixed extension atom.
#[derive(Clone, Debug, PartialEq, Eq)]
pub enum Flag {
    Answered,
    Flagged,
    Deleted,
    Seen,
    Draft,
    Recent,
    Permanent,
    Keyword(Atom),
    Extension(Atom),
}

/// Ghost image of [`Flag`], carrying atom contents as byte sequences.
pub enum SpecFlag {
    Answered,
    Flagged,
    Deleted,
    Seen,
    Draft,
    Recent,
    Permanent,
    Keyword(Seq<u8>),
    Extension(Seq<u8>),
}

impl DeepView for Flag {
    type V = SpecFlag;

    open spec fn deep_view(&self) -> SpecFlag {
        match self {
            Flag::Answered => SpecFlag::Answered,
            Flag::Flagged => SpecFlag::Flagged,
            Flag::Deleted => SpecFlag::Deleted,
            Flag::Seen => SpecFlag::Seen,
            Flag::Draft => SpecFlag::Draft,
            Flag::Recent => SpecFlag::Recent,
            Flag::Permanent => SpecFlag::Permanent,
            Flag::Keyword(a) => SpecFlag::Keyword(a.deep_view()),
            Flag::Extension(a) => SpecFlag::Extension(a.deep_view()),
        }
    }
}

/// A mailbox-listing flag: `\Noinferiors`, one of the three mutually
/// exclusive selectability flags, or an extension atom.
#[derive(Clone, Debug, PartialEq, Eq)]
pub enum FlagNameAttribute {
    Noinferiors,
    Noselect,
    Marked,
    Unmarked,
    Extension(Atom),
}

/// Ghost image of [`FlagNameAttribute`].
pub enum SpecFlagNameAttribute {
    Noinferiors,
    Noselect,
    Marked,
    Unmarked,
    Extension(Seq<u8>),
}

impl DeepView for FlagNameAttribute {
    type V = SpecFlagNameAttribute;

    open spec fn deep_view(&self) -> SpecFlagNameAttribute {
        match self {
            FlagNameAttribute::Noinferiors => SpecFlagNameAttribute::Noinferiors,
            FlagNameAttribute::Noselect => SpecFlagNameAttribute::Noselect,
            FlagNameAttribute::Marked => SpecFlagNameAttribute::Marked,
            FlagNameAttribute::Unmarked => SpecFlagNameAttribute::Unmarked,
            FlagNameAttribute::Extension(a) => SpecFlagNameAttribute::Extension(a.deep_view()),
        }
    }
}

// --- Wire words -------------------------------------------------------------

pub open spec fn word_answered() -> Seq<u8> {
    seq![0x5cu8, 0x41, 0x6e, 0x73, 0x77, 0x65, 0x72, 0x65, 0x64]  // \Answered
}

pub open spec fn word_flagged() -> Seq<u8> {
    seq![0x5cu8, 0x46, 0x6c, 0x61, 0x67, 0x67, 0x65, 0x64]  // \Flagged
}

pub open spec fn word_deleted() -> Seq<u8> {
    seq![0x5cu8, 0x44, 0x65, 0x6c, 0x65, 0x74, 0x65, 0x64]  // \Deleted
}

pub open spec fn word_seen() -> Seq<u8> {
    seq![0x5cu8, 0x53, 0x65, 0x65, 0x6e]  // \Seen
}

pub open spec fn word_draft() -> Seq<u8> {
    seq![0x5cu8, 0x44, 0x72, 0x61, 0x66, 0x74]  // \Draft
}

pub open spec fn word_recent() -> Seq<u8> {
    seq![0x5cu8, 0x52, 0x65, 0x63, 0x65, 0x6e, 0x74]  // \Recent
}

pub open spec fn word_star() -> Seq<u8> {
    seq![0x5cu8, 0x2a]  // \*
}

pub open spec fn word_noinferiors() -> Seq<u8> {
    seq![0x5cu8, 0x4e, 0x6f, 0x69, 0x6e, 0x66, 0x65, 0x72, 0x69, 0x6f, 0x72, 0x73]  // \Noinferiors
}

pub open spec fn word_noselect() -> Seq<u8> {
    seq![0x5cu8, 0x4e, 0x6f, 0x73, 0x65, 0x6c, 0x65, 0x63, 0x74]  // \Noselect
}

pub open spec fn word_marked() -> Seq<u8> {
    seq![0x5cu8, 0x4d, 0x61, 0x72, 0x6b, 0x65, 0x64]  // \Marked
}

pub open spec fn word_unmarked() -> Seq<u8> {
    seq![0x5cu8, 0x55, 0x6e, 0x6d, 0x61, 0x72, 0x6b, 0x65, 0x64]  // \Unmarked
}

// --- flag-extension and flag-keyword ---------------------------------------

/// flag-extension = "\" atom
pub open spec fn spec_flag_extension(s: Seq<u8>) -> SpecParsed<Seq<u8>> {
    if s.len() == 0 {
        SpecParsed::Incomplete { needed: 1 }
    } else if s[0] != 0x5c {
        SpecParsed::Failed
    } else {
        match spec_atom(s.skip(1)) {
            SpecParsed::Failed => SpecParsed::Failed,
            SpecParsed::Incomplete { needed } => SpecParsed::Incomplete { needed },
            SpecParsed::Matched { used, val } => SpecParsed::Matched { used: 1 + used, val },
        }
    }
}

/// Recognizer for `flag-extension`, yielding the atom after the backslash.
pub fn flag_extension(input: &[u8]) -> (r: Parsed<Atom>)
    ensures
        r@ == spec_flag_extension(input@),
{
    if input.len() == 0 {
        return Parsed::Incomplete { needed: 1 };
    }
    if input[0] != 0x5c {
        return Parsed::Failed;
    }
    match atom(vstd::slice::slice_subrange(input, 1, input.len())) {
        Parsed::Matched { used, val } => {
            proof {
                lemma_spec_atom_wf(input@.skip(1));
            }
            Parsed::Matched { used: 1 + used, val }
        },
        Parsed::Failed => Parsed::Failed,
        Parsed::Incomplete { needed } => Parsed::Incomplete { needed },
    }
}

/// flag-keyword = atom
pub open spec fn spec_flag_keyword(s: Seq<u8>) -> SpecParsed<SpecFlag> {
    match spec_atom(s) {
        SpecParsed::Failed => SpecParsed::Failed,
        SpecParsed::Incomplete { needed } => SpecParsed::Incomplete { needed },
        SpecParsed::Matched { used, val } => SpecParsed::Matched {
            used,
            val: SpecFlag::Keyword(val),
        },
    }
}

/// Recognizer for `flag-keyword`.
pub fn flag_keyword(input: &[u8]) -> (r: Parsed<Flag>)
    ensures
        r@ == spec_flag_keyword(input@),
{
    match atom(input) {
        Parsed::Matched { used, val } => Parsed::Matched { used, val: Flag::Keyword(val) },
        Parsed::Failed => Parsed::Failed,
        Parsed::Incomplete { needed } => Parsed::Incomplete { needed },
    }
}

// --- flag -------------------------------------------------------------------

/// One alternative of a flag alternation: the outcome of the fixed word `t`
/// standing for value `v`, with a mismatch falling through to `rest`.
pub open spec fn spec_flag_branch<V>(s: Seq<u8>, t: Seq<u8>, v: V, rest: SpecParsed<V>)
    -> SpecParsed<V> {
    match spec_tag_nc(s, t) {
        SpecParsed::Matched { used, val: _ } => SpecParsed::Matched { used, val: v },
        SpecParsed::Incomplete { needed } => SpecParsed::Incomplete { needed },
        SpecParsed::Failed => rest,
    }
}

/// flag = "\Answered" / "\Flagged" / "\Deleted" / "\Seen" / "\Draft" /
///        flag-keyword / flag-extension
///
/// The five fixed words are tried first, case-insensitively, so they always
/// take precedence over the open extension form; does not include `\Recent`.
pub open spec fn spec_flag(s: Seq<u8>) -> SpecParsed<SpecFlag> {
    spec_flag_branch(s, word_answered(), SpecFlag::Answered,
    spec_flag_branch(s, word_flagged(), SpecFlag::Flagged,
    spec_flag_branch(s, word_deleted(), SpecFlag::Deleted,
    spec_flag_branch(s, word_seen(), SpecFlag::Seen,
    spec_flag_branch(s, word_draft(), SpecFlag::Draft,
    match spec_flag_keyword(s) {
        SpecParsed::Matched { used, val } => SpecParsed::Matched { used, val },
        SpecParsed::Incomplete { needed } => SpecParsed::Incomplete { needed },
        SpecParsed::Failed => match spec_flag_extension(s) {
            SpecParsed::Matched { used, val } => SpecParsed::Matched {
                used,
                val: SpecFlag::Extension(val),
            },
            SpecParsed::Incomplete { needed } => SpecParsed::Incomplete { needed },
            SpecParsed::Failed => SpecParsed::Failed,
        },
    })))))
}

/// One tried alternative of the `flag` recognizer; `None` means the word
/// mismatched and the next alternative decides.
fn flag_step(input: &[u8], word: &[u8], v: Flag) -> (r: Option<Parsed<Flag>>)
    ensures
        match r {
            Some(p) => p@ == spec_flag_branch(
                input@,
                word@,
                v.deep_view(),
                SpecParsed::Failed,
            ) && !(p@ is Failed),
            None => spec_tag_nc(input@, word@) is Failed,
        },
{
    match tag_nc(input, word) {
        Parsed::Matched { used, val: _ } => Some(Parsed::Matched { used, val: v }),
        Parsed::Incomplete { needed } => Some(Parsed::Incomplete { needed }),
        Parsed::Failed => None,
    }
}

/// Recognizer for `flag`.
pub fn flag(input: &[u8]) -> (r: Parsed<Flag>)
    ensures
        r@ == spec_flag(input@),
{
    let answered: [u8; 9] = [0x5c, 0x41, 0x6e, 0x73, 0x77, 0x65, 0x72, 0x65, 0x64];
    let flagged: [u8; 8] = [0x5c, 0x46, 0x6c, 0x61, 0x67, 0x67, 0x65, 0x64];
    let deleted: [u8; 8] = [0x5c, 0x44, 0x65, 0x6c, 0x65, 0x74, 0x65, 0x64];
    let seen: [u8; 5] = [0x5c, 0x53, 0x65, 0x65, 0x6e];
    let draft: [u8; 6] = [0x5c, 0x44, 0x72, 0x61, 0x66, 0x74];
    proof {
        assert(answered@ =~= word_answered());
        assert(flagged@ =~= word_flagged());
        assert(deleted@ =~= word_deleted());
        assert(seen@ =~= word_seen());
        assert(draft@ =~= word_draft());
    }
    if let Some(p) = flag_step(input, answered.as_slice(), Flag::Answered) {
        return p;
    }
    if let Some(p) = flag_step(input, flagged.as_slice(), Flag::Flagged) {
        return p;
    }
    if let Some(p) = flag_step(input, deleted.as_slice(), Flag::Deleted) {
        return p;
    }
    if let Some(p) = flag_step(input, seen.as_slice(), Flag::Seen) {
        return p;
    }
    if let Some(p) = flag_step(input, draft.as_slice(), Flag::Draft) {
        return p;
    }
    match flag_keyword(input) {
        Parsed::Matched { used, val } => {
            return Parsed::Matched { used, val };
        },
        Parsed::Incomplete { needed } => {
            return Parsed::Incomplete { needed };
        },
        Parsed::Failed => {},
    }
    match flag_extension(input) {
        Parsed::Matched { used, val } => Parsed::Matched { used, val: Flag::Extension(val) },
        Parsed::Incomplete { needed } => Parsed::Incomplete { needed },
        Parsed::Failed => Parsed::Failed,
    }
}

/// A matched flag consumes at least one and at most all input bytes.
pub proof fn lemma_flag_used(s: Seq<u8>)
    ensures
        spec_flag(s) matches SpecParsed::Matched { used, val } ==> 0 < used <= s.len(),
{
    lemma_spec_atom_wf(s);
    if s.len() > 0 {
        lemma_spec_atom_wf(s.skip(1));
    }
}

// --- flag-fetch and flag-perm ----------------------------------------------

/// flag-fetch = flag / "\Recent"
pub open spec fn spec_flag_fetch(s: Seq<u8>) -> SpecParsed<SpecFlag> {
    match spec_flag(s) {
        SpecParsed::Matched { used, val } => SpecParsed::Matched { used, val },
        SpecParsed::Incomplete { needed } => SpecParsed::Incomplete { needed },
        SpecParsed::Failed => spec_flag_branch(
            s,
            word_recent(),
            SpecFlag::Recent,
            SpecParsed::Failed,
        ),
    }
}

/// Recognizer for `flag-fetch`.
pub fn flag_fetch(input: &[u8]) -> (r: Parsed<Flag>)
    ensures
        r@ == spec_flag_fetch(input@),
{
    match flag(input) {
        Parsed::Matched { used, val } => {
            return Parsed::Matched { used, val };
        },
        Parsed::Incomplete { needed } => {
            return Parsed::Incomplete { needed };
        },
        Parsed::Failed => {},
    }
    let recent: [u8; 7] = [0x5c, 0x52, 0x65, 0x63, 0x65, 0x6e, 0x74];
    proof {
        assert(recent@ =~= word_recent());
    }
    match flag_step(input, recent.as_slice(), Flag::Recent) {
        Some(p) => p,
        None => Parsed::Failed,
    }
}

/// flag-perm = flag / "\*"
///
/// The wildcard is matched case-sensitively, as on the wire.
pub open spec fn spec_flag_perm(s: Seq<u8>) -> SpecParsed<SpecFlag> {
    match spec_flag(s) {
        SpecParsed::Matched { used, val } => SpecParsed::Matched { used, val },
        SpecParsed::Incomplete { needed } => SpecParsed::Incomplete { needed },
        SpecParsed::Failed => match spec_tag(s, word_star()) {
            SpecParsed::Matched { used, val: _ } => SpecParsed::Matched {
                used,
                val: SpecFlag::Permanent,
            },
            SpecParsed::Incomplete { needed } => SpecParsed::Incomplete { needed },
            SpecParsed::Failed => SpecParsed::Failed,
        },
    }
}

/// Recognizer for `flag-perm`.
pub fn flag_perm(input: &[u8]) -> (r: Parsed<Flag>)
    ensures
        r@ == spec_flag_perm(input@),
{
    match flag(input) {
        Parsed::Matched { used, val } => {
            return Parsed::Matched { used, val };
        },
        Parsed::Incomplete { needed } => {
            return Parsed::Incomplete { needed };
        },
        Parsed::Failed => {},
    }
    let star: [u8; 2] = [0x5c, 0x2a];
    proof {
        assert(star@ =~= word_star());
    }
    match tag(input, star.as_slice()) {
        Parsed::Matched { used, val: _ } => Parsed::Matched { used, val: Flag::Permanent },
        Parsed::Incomplete { needed } => Parsed::Incomplete { needed },
        Parsed::Failed => Parsed::Failed,
    }
}

// --- flag-list --------------------------------------------------------------

/// The space-separated continuation of a flag list: from position `pos`,
/// either no separator or no further flag follows (the list ends, with the
/// separator unconsumed), or one more flag is appended.
pub open spec fn spec_sep_flags_more(s: Seq<u8>, pos: int, acc: Seq<SpecFlag>)
    -> SpecParsed<Seq<SpecFlag>>
    decreases s.len() - pos,
    via spec_sep_flags_more_dec
{
    if !(0 <= pos < s.len()) {
        SpecParsed::Incomplete { needed: 1 }
    } else if s[pos] != 0x20 {
        SpecParsed::Matched { used: pos, val: acc }
    } else {
        match spec_flag(s.skip(pos + 1)) {
            SpecParsed::Failed => SpecParsed::Matched { used: pos, val: acc },
            SpecParsed::Incomplete { needed } => SpecParsed::Incomplete { needed },
            SpecParsed::Matched { used, val } => spec_sep_flags_more(
                s,
                pos + 1 + used,
                acc.push(val),
            ),
        }
    }
}

#[via_fn]
proof fn spec_sep_flags_more_dec(s: Seq<u8>, pos: int, acc: Seq<SpecFlag>) {
    if 0 <= pos < s.len() {
        lemma_flag_used(s.skip(pos + 1));
    }
}

/// `[flag *(SP flag)]`: zero or more flags separated by single spaces.
pub open spec fn spec_sep_flags(s: Seq<u8>) -> SpecParsed<Seq<SpecFlag>> {
    match spec_flag(s) {
        SpecParsed::Failed => SpecParsed::Matched { used: 0, val: seq![] },
        SpecParsed::Incomplete { needed } => SpecParsed::Incomplete { needed },
        SpecParsed::Matched { used, val } => spec_sep_flags_more(s, used, seq![val]),
    }
}

/// flag-list = "(" [flag *(SP flag)] ")"
pub open spec fn spec_flag_list(s: Seq<u8>) -> SpecParsed<Seq<SpecFlag>> {
    if s.len() == 0 {
        SpecParsed::Incomplete { needed: 1 }
    } else if s[0] != 0x28 {
        SpecParsed::Failed
    } else {
        match spec_sep_flags(s.skip(1)) {
            SpecParsed::Failed => SpecParsed::Failed,
            SpecParsed::Incomplete { needed } => SpecParsed::Incomplete { needed },
            SpecParsed::Matched { used, val } => {
                let s1 = s.skip(1);
                if used == s1.len() {
                    SpecParsed::Incomplete { needed: 1 }
                } else if s1[used] != 0x29 {
                    SpecParsed::Failed
                } else {
                    SpecParsed::Matched { used: 1 + used + 1, val }
                }
            },
        }
    }
}

/// Recognizer for `flag-list`.
pub fn flag_list(input: &[u8]) -> (r: Parsed<Vec<Flag>>)
    ensures
        r@ == spec_flag_list(input@),
{
    if input.len() == 0 {
        return Parsed::Incomplete { needed: 1 };
    }
    if input[0] != 0x28 {
        return Parsed::Failed;
    }
    let s1 = vstd::slice::slice_subrange(input, 1, input.len());
    let mut acc: Vec<Flag> = Vec::new();
    let mut pos: usize = 0;
    match flag(s1) {
        Parsed::Failed => {
            proof {
                assert(acc.deep_view() =~= Seq::<SpecFlag>::empty());
            }
        },
        Parsed::Incomplete { needed } => {
            return Parsed::Incomplete { needed };
        },
        Parsed::Matched { used, val } => {
            proof {
                lemma_flag_used(s1@);
            }
            acc.push(val);
            pos = used;
            proof {
                assert(acc.deep_view() =~= seq![val.deep_view()]);
            }
            loop
                invariant
                    input@.len() > 0 && input@[0] == 0x28,
                    0 <= pos <= s1@.len(),
                    s1@ == input@.skip(1),
                    spec_sep_flags(s1@) == spec_sep_flags_more(s1@, pos as int, acc.deep_view()),
                ensures
                    0 <= pos <= s1@.len(),
                    s1@ == input@.skip(1),
                    spec_sep_flags(s1@) == (SpecParsed::Matched {
                        used: pos as int,
                        val: acc.deep_view(),
                    }),
                decreases s1@.len() - pos,
            {
                if pos == s1.len() {
                    return Parsed::Incomplete { needed: 1 };
                }
                if s1[pos] != 0x20 {
                    break;
                }
                match flag(vstd::slice::slice_subrange(s1, pos + 1, s1.len())) {
                    Parsed::Failed => {
                        break;
                    },
                    Parsed::Incomplete { needed } => {
                        return Parsed::Incomplete { needed };
                    },
                    Parsed::Matched { used, val } => {
                        proof {
                            lemma_flag_used(s1@.skip(pos + 1));
                        }
                        let ghost old_dv = acc.deep_view();
                        let ghost vdv = val.deep_view();
                        acc.push(val);
                        proof {
                            assert(acc.deep_view() =~= old_dv.push(vdv));
                        }
                        pos = pos + 1 + used;
                    },
                }
            }
        },
    }
    if pos == s1.len() {
        return Parsed::Incomplete { needed: 1 };
    }
    if s1[pos] != 0x29 {
        return Parsed::Failed;
    }
    Parsed::Matched { used: 1 + pos + 1, val: acc }
}

// --- mbx-list flags ---------------------------------------------------------

/// mbx-list-sflag = "\Noselect" / "\Marked" / "\Unmarked"
pub open spec fn spec_mbx_list_sflag(s: Seq<u8>) -> SpecParsed<SpecFlagNameAttribute> {
    spec_flag_branch(s, word_noselect(), SpecFlagNameAttribute::Noselect,
    spec_flag_branch(s, word_marked(), SpecFlagNameAttribute::Marked,
    spec_flag_branch(s, word_unmarked(), SpecFlagNameAttribute::Unmarked,
    SpecParsed::Failed)))
}

/// One tried alternative of the mailbox-flag recognizers.
fn mbx_step(input: &[u8], word: &[u8], v: FlagNameAttribute) -> (r: Option<
    Parsed<FlagNameAttribute>,
>)
    ensures
        match r {
            Some(p) => p@ == spec_flag_branch(
                input@,
                word@,
                v.deep_view(),
                SpecParsed::Failed,
            ) && !(p@ is Failed),
            None => spec_tag_nc(input@, word@) is Failed,
        },
{
    match tag_nc(input, word) {
        Parsed::Matched { used, val: _ } => Some(Parsed::Matched { used, val: v }),
        Parsed::Incomplete { needed } => Some(Parsed::Incomplete { needed }),
        Parsed::Failed => None,
    }
}

/// Recognizer for `mbx-list-sflag`.
pub fn mbx_list_sflag(input: &[u8]) -> (r: Parsed<FlagNameAttribute>)
    ensures
        r@ == spec_mbx_list_sflag(input@),
{
    let noselect: [u8; 9] = [0x5c, 0x4e, 0x6f, 0x73, 0x65, 0x6c, 0x65, 0x63, 0x74];
    let marked: [u8; 7] = [0x5c, 0x4d, 0x61, 0x72, 0x6b, 0x65, 0x64];
    let unmarked: [u8; 9] = [0x5c, 0x55, 0x6e, 0x6d, 0x61, 0x72, 0x6b, 0x65, 0x64];
    proof {
        assert(noselect@ =~= word_noselect());
        assert(marked@ =~= word_marked());
        assert(unmarked@ =~= word_unmarked());
    }
    if let Some(p) = mbx_step(input, noselect.as_slice(), FlagNameAttribute::Noselect) {
        return p;
    }
    if let Some(p) = mbx_step(input, marked.as_slice(), FlagNameAttribute::Marked) {
        return p;
    }
    if let Some(p) = mbx_step(input, unmarked.as_slice(), FlagNameAttribute::Unmarked) {
        return p;
    }
    Parsed::Failed
}

/// mbx-list-oflag = "\Noinferiors" / flag-extension
pub open spec fn spec_mbx_list_oflag(s: Seq<u8>) -> SpecParsed<SpecFlagNameAttribute> {
    spec_flag_branch(s, word_noinferiors(), SpecFlagNameAttribute::Noinferiors,
    match spec_flag_extension(s) {
        SpecParsed::Matched { used, val } => SpecParsed::Matched {
            used,
            val: SpecFlagNameAttribute::Extension(val),
        },
        SpecParsed::Incomplete { needed } => SpecParsed::Incomplete { needed },
        SpecParsed::Failed => SpecParsed::Failed,
    })
}

/// Recognizer for `mbx-list-oflag`.
pub fn mbx_list_oflag(input: &[u8]) -> (r: Parsed<FlagNameAttribute>)
    ensures
        r@ == spec_mbx_list_oflag(input@),
{
    let noinferiors: [u8; 12] = [
        0x5c,
        0x4e,
        0x6f,
        0x69,
        0x6e,
        0x66,
        0x65,
        0x72,
        0x69,
        0x6f,
        0x72,
        0x73,
    ];
    proof {
        assert(noinferiors@ =~= word_noinferiors());
    }
    if let Some(p) = mbx_step(input, noinferiors.as_slice(), FlagNameAttribute::Noinferiors) {
        return p;
    }
    match flag_extension(input) {
        Parsed::Matched { used, val } => Parsed::Matched {
            used,
            val: FlagNameAttribute::Extension(val),
        },
        Parsed::Incomplete { needed } => Parsed::Incomplete { needed },
        Parsed::Failed => Parsed::Failed,
    }
}

/// One element of `mbx-list-flags`: a selectability flag or an other-flag,
/// tried in that order.
pub open spec fn spec_mbx_elem(s: Seq<u8>) -> SpecParsed<SpecFlagNameAttribute> {
    match spec_mbx_list_sflag(s) {
        SpecParsed::Matched { used, val } => SpecParsed::Matched { used, val },
        SpecParsed::Incomplete { needed } => SpecParsed::Incomplete { needed },
        SpecParsed::Failed => spec_mbx_list_oflag(s),
    }
}

/// Recognizer for one `mbx-list-flags` element.
fn mbx_elem(input: &[u8]) -> (r: Parsed<FlagNameAttribute>)
    ensures
        r@ == spec_mbx_elem(input@),
{
    match mbx_list_sflag(input) {
        Parsed::Matched { used, val } => {
            return Parsed::Matched { used, val };
        },
        Parsed::Incomplete { needed } => {
            return Parsed::Incomplete { needed };
        },
        Parsed::Failed => {},
    }
    mbx_list_oflag(input)
}

/// A matched mailbox-flag element consumes at least one input byte.
pub proof fn lemma_mbx_elem_used(s: Seq<u8>)
    ensures
        spec_mbx_elem(s) matches SpecParsed::Matched { used, val } ==> 0 < used <= s.len(),
{
    if s.len() > 0 {
        lemma_spec_atom_wf(s.skip(1));
    }
}

/// Whether this attribute is one of the selectability flags, of which a
/// single list may carry at most one.
pub open spec fn spec_is_sflag(f: SpecFlagNameAttribute) -> bool {
    f is Noselect || f is Marked || f is Unmarked
}

/// How many selectability flags the list holds.
pub open spec fn sflag_count(l: Seq<SpecFlagNameAttribute>) -> int
    decreases l.len(),
{
    if l.len() == 0 {
        0
    } else {
        sflag_count(l.drop_last()) + (if spec_is_sflag(l.last()) {
            1int
        } else {
            0int
        })
    }
}

/// The space-separated continuation of `mbx-list-flags`.
pub open spec fn spec_mbx_more(s: Seq<u8>, pos: int, acc: Seq<SpecFlagNameAttribute>)
    -> SpecParsed<Seq<SpecFlagNameAttribute>>
    decreases s.len() - pos,
    via spec_mbx_more_dec
{
    if !(0 <= pos < s.len()) {
        SpecParsed::Incomplete { needed: 1 }
    } else if s[pos] != 0x20 {
        SpecParsed::Matched { used: pos, val: acc }
    } else {
        match spec_mbx_elem(s.skip(pos + 1)) {
            SpecParsed::Failed => SpecParsed::Matched { used: pos, val: acc },
            SpecParsed::Incomplete { needed } => SpecParsed::Incomplete { needed },
            SpecParsed::Matched { used, val } => spec_mbx_more(s, pos + 1 + used, acc.push(val)),
        }
    }
}

#[via_fn]
proof fn spec_mbx_more_dec(s: Seq<u8>, pos: int, acc: Seq<SpecFlagNameAttribute>) {
    if 0 <= pos < s.len() {
        lemma_mbx_elem_used(s.skip(pos + 1));
    }
}

/// The raw, unchecked reading of `mbx-list-flags`: one or more elements,
/// space separated.
pub open spec fn spec_mbx_raw(s: Seq<u8>) -> SpecParsed<Seq<SpecFlagNameAttribute>> {
    match spec_mbx_elem(s) {
        SpecParsed::Failed => SpecParsed::Failed,
        SpecParsed::Incomplete { needed } => SpecParsed::Incomplete { needed },
        SpecParsed::Matched { used, val } => spec_mbx_more(s, used, seq![val]),
    }
}

/// mbx-list-flags = *(mbx-list-oflag SP) mbx-list-sflag *(SP mbx-list-oflag) /
///                  mbx-list-oflag *(SP mbx-list-oflag)
///
/// Read as any non-empty flag sequence, then held to the grammar's arity
/// rule: a list carrying more than one selectability flag is rejected as a
/// verification failure, never silently corrected.
pub open spec fn spec_mbx_list_flags(s: Seq<u8>) -> SpecParsed<Seq<SpecFlagNameAttribute>> {
    match spec_mbx_raw(s) {
        SpecParsed::Failed => SpecParsed::Failed,
        SpecParsed::Incomplete { needed } => SpecParsed::Incomplete { needed },
        SpecParsed::Matched { used, val } => {
            if sflag_count(val) > 1 {
                SpecParsed::Failed
            } else {
                SpecParsed::Matched { used, val }
            }
        },
    }
}

/// Whether this attribute is one of the selectability flags.
fn is_sflag(f: &FlagNameAttribute) -> (r: bool)
    ensures
        r == spec_is_sflag(f.deep_view()),
{
    match f {
        FlagNameAttribute::Noselect => true,
        FlagNameAttribute::Marked => true,
        FlagNameAttribute::Unmarked => true,
        _ => false,
    }
}

/// Recognizer for `mbx-list-flags`.
pub fn mbx_list_flags(input: &[u8]) -> (r: Parsed<Vec<FlagNameAttribute>>)
    ensures
        r@ == spec_mbx_list_flags(input@),
{
    let mut acc: Vec<FlagNameAttribute> = Vec::new();
    let mut pos: usize;
    let mut count: usize = 0;
    match mbx_elem(input) {
        Parsed::Failed => {
            return Parsed::Failed;
        },
        Parsed::Incomplete { needed } => {
            return Parsed::Incomplete { needed };
        },
        Parsed::Matched { used, val } => {
            proof {
                lemma_mbx_elem_used(input@);
            }
            let ghost vdv = val.deep_view();
            if is_sflag(&val) {
                count = 1;
            }
            acc.push(val);
            pos = used;
            proof {
                assert(acc.deep_view() =~= seq![vdv]);
                assert(acc.deep_view().drop_last() =~= Seq::<SpecFlagNameAttribute>::empty());
                assert(sflag_count(Seq::<SpecFlagNameAttribute>::empty()) == 0);
            }
        },
    }
    loop
        invariant
            0 <= pos <= input@.len(),
            count as int == sflag_count(acc.deep_view()),
            count <= acc@.len() <= pos,
            spec_mbx_raw(input@) == spec_mbx_more(input@, pos as int, acc.deep_view()),
        ensures
            0 <= pos <= input@.len(),
            count as int == sflag_count(acc.deep_view()),
            spec_mbx_raw(input@) == (SpecParsed::Matched {
                used: pos as int,
                val: acc.deep_view(),
            }),
        decreases input@.len() - pos,
    {
        if pos == input.len() {
            return Parsed::Incomplete { needed: 1 };
        }
        if input[pos] != 0x20 {
            break;
        }
        match mbx_elem(vstd::slice::slice_subrange(input, pos + 1, input.len())) {
            Parsed::Failed => {
                break;
            },
            Parsed::Incomplete { needed } => {
                return Parsed::Incomplete { needed };
            },
            Parsed::Matched { used, val } => {
                proof {
                    lemma_mbx_elem_used(input@.skip(pos + 1));
                }
                let ghost old_dv = acc.deep_view();
                let ghost vdv = val.deep_view();
                if is_sflag(&val) {
                    count = count + 1;
                }
                acc.push(val);
                proof {
                    assert(acc.deep_view() =~= old_dv.push(vdv));
                    assert(old_dv.push(vdv).drop_last() =~= old_dv);
                }
                pos = pos + 1 + used;
            },
        }
    }
    if count > 1 {
        return Parsed::Failed;
    }
    Parsed::Matched { used: pos, val: acc }
}

} // verus!
