use imap_codec::atom::Atom;
use imap_codec::flag::{
    flag, flag_extension, flag_fetch, flag_keyword, flag_list, flag_perm, mbx_list_flags,
    mbx_list_oflag, mbx_list_sflag, Flag, FlagNameAttribute,
};
use imap_codec::parsed::Parsed;

fn atom_of(s: &[u8]) -> Atom {
    Atom::new(s.to_vec()).unwrap()
}

#[test]
fn test_flag_fixed_words_take_precedence() {
    // `\Seen` hits the fixed alternative, never the generic `\` + atom form.
    assert_eq!(flag(b"\\Seen"), Parsed::Matched { used: 5, val: Flag::Seen });
    assert_eq!(flag(b"\\seen "), Parsed::Matched { used: 5, val: Flag::Seen });
    assert_eq!(flag(b"\\SEEN)"), Parsed::Matched { used: 5, val: Flag::Seen });
    assert_eq!(flag(b"\\Answered"), Parsed::Matched { used: 9, val: Flag::Answered });
    assert_eq!(flag(b"\\Flagged "), Parsed::Matched { used: 8, val: Flag::Flagged });
    assert_eq!(flag(b"\\Deleted "), Parsed::Matched { used: 8, val: Flag::Deleted });
    assert_eq!(flag(b"\\Draft "), Parsed::Matched { used: 6, val: Flag::Draft });
}

#[test]
fn test_flag_keyword_and_extension() {
    assert_eq!(
        flag(b"MyKeyword "),
        Parsed::Matched { used: 9, val: Flag::Keyword(atom_of(b"MyKeyword")) }
    );
    assert_eq!(
        flag(b"\\XCustom "),
        Parsed::Matched { used: 8, val: Flag::Extension(atom_of(b"XCustom")) }
    );
    // A keyword at the end of input could still grow: incomplete.
    assert_eq!(flag(b"MyKeyword"), Parsed::Incomplete { needed: 1 });
    // A prefix of a fixed word is incomplete, not an extension.
    assert_eq!(flag(b"\\Se"), Parsed::Incomplete { needed: 2 });
    assert_eq!(flag(b"("), Parsed::Failed);
}

#[test]
fn test_flag_keyword_fn() {
    assert_eq!(
        flag_keyword(b"ToDo "),
        Parsed::Matched { used: 4, val: Flag::Keyword(atom_of(b"ToDo")) }
    );
    assert_eq!(flag_keyword(b"\\Seen"), Parsed::Failed);
}

#[test]
fn test_flag_extension_fn() {
    assert_eq!(flag_extension(b"\\XCustom "), Parsed::Matched { used: 8, val: atom_of(b"XCustom") });
    assert_eq!(flag_extension(b"XCustom "), Parsed::Failed);
    assert_eq!(flag_extension(b"\\"), Parsed::Incomplete { needed: 1 });
}

#[test]
fn test_flag_fetch() {
    // `flag` is tried first, and its extension arm already covers `\Recent`.
    assert_eq!(
        flag_fetch(b"\\Recent "),
        Parsed::Matched { used: 7, val: Flag::Extension(atom_of(b"Recent")) }
    );
    assert_eq!(flag_fetch(b"\\Seen "), Parsed::Matched { used: 5, val: Flag::Seen });
}

#[test]
fn test_flag_perm() {
    assert_eq!(flag_perm(b"\\*"), Parsed::Matched { used: 2, val: Flag::Permanent });
    assert_eq!(flag_perm(b"\\* "), Parsed::Matched { used: 2, val: Flag::Permanent });
    assert_eq!(flag_perm(b"\\Seen "), Parsed::Matched { used: 5, val: Flag::Seen });
}

#[test]
fn test_flag_list() {
    assert_eq!(flag_list(b"()"), Parsed::Matched { used: 2, val: vec![] });
    assert_eq!(
        flag_list(b"(\\Seen)"),
        Parsed::Matched { used: 7, val: vec![Flag::Seen] }
    );
    let input: &[u8] = b"(\\Seen \\Draft Custom)xxx";
    assert_eq!(
        flag_list(input),
        Parsed::Matched {
            used: 21,
            val: vec![Flag::Seen, Flag::Draft, Flag::Keyword(atom_of(b"Custom"))],
        }
    );
    assert_eq!(&input[21..], b"xxx");
    assert_eq!(flag_list(b"\\Seen)"), Parsed::Failed);
    assert_eq!(flag_list(b"(\\Seen"), Parsed::Incomplete { needed: 1 });
}

#[test]
fn test_mbx_list_flags_exclusivity() {
    // One selectability flag is fine, alone or beside other flags.
    assert_eq!(
        mbx_list_flags(b"\\Noselect)"),
        Parsed::Matched { used: 9, val: vec![FlagNameAttribute::Noselect] }
    );
    assert_eq!(
        mbx_list_flags(b"\\Marked)"),
        Parsed::Matched { used: 7, val: vec![FlagNameAttribute::Marked] }
    );
    assert_eq!(
        mbx_list_flags(b"\\Unmarked)"),
        Parsed::Matched { used: 9, val: vec![FlagNameAttribute::Unmarked] }
    );
    assert_eq!(
        mbx_list_flags(b"\\Noinferiors \\Marked)"),
        Parsed::Matched {
            used: 20,
            val: vec![FlagNameAttribute::Noinferiors, FlagNameAttribute::Marked],
        }
    );
    // Two selectability flags are a verification failure, in any combination.
    assert_eq!(mbx_list_flags(b"\\Noselect \\Marked)"), Parsed::Failed);
    assert_eq!(mbx_list_flags(b"\\Noselect \\Unmarked)"), Parsed::Failed);
    assert_eq!(mbx_list_flags(b"\\Marked \\Unmarked)"), Parsed::Failed);
    assert_eq!(mbx_list_flags(b"\\Marked \\Noselect)"), Parsed::Failed);
    assert_eq!(mbx_list_flags(b"\\Unmarked \\Noselect)"), Parsed::Failed);
    assert_eq!(mbx_list_flags(b"\\Unmarked \\Marked)"), Parsed::Failed);
    assert_eq!(mbx_list_flags(b"\\Marked \\Noinferiors \\Marked)"), Parsed::Failed);
}

#[test]
fn test_mbx_list_flags_shapes() {
    assert_eq!(
        mbx_list_flags(b"\\HasChildren)"),
        Parsed::Matched {
            used: 12,
            val: vec![FlagNameAttribute::Extension(atom_of(b"HasChildren"))],
        }
    );
    // The list stops before a separator that no flag follows.
    let input: &[u8] = b"\\Marked x";
    assert_eq!(
        mbx_list_flags(input),
        Parsed::Matched { used: 7, val: vec![FlagNameAttribute::Marked] }
    );
    assert_eq!(&input[7..], b" x");
    assert_eq!(mbx_list_flags(b"x"), Parsed::Failed);
    assert_eq!(mbx_list_flags(b"\\Marked"), Parsed::Incomplete { needed: 1 });
}

#[test]
fn test_mbx_list_oflag_sflag() {
    assert_eq!(
        mbx_list_sflag(b"\\noselect)"),
        Parsed::Matched { used: 9, val: FlagNameAttribute::Noselect }
    );
    assert_eq!(mbx_list_sflag(b"\\Noinferiors)"), Parsed::Failed);
    assert_eq!(
        mbx_list_oflag(b"\\Noinferiors)"),
        Parsed::Matched { used: 12, val: FlagNameAttribute::Noinferiors }
    );
    assert_eq!(
        mbx_list_oflag(b"\\Other)"),
        Parsed::Matched { used: 6, val: FlagNameAttribute::Extension(atom_of(b"Other")) }
    );
}

#[test]
fn test_atom_constructor() {
    assert!(Atom::new(b"abc".to_vec()).is_some());
    assert!(Atom::new(b"".to_vec()).is_none());
    assert!(Atom::new(b"a b".to_vec()).is_none());
    assert!(Atom::new(b"a\\b".to_vec()).is_none());
    assert!(Atom::new(b"a(b".to_vec()).is_none());
}
