//! A verified codec for the primitive layer of the IMAP4rev1 wire syntax:
//! incremental parsers for the lexical terminals of the grammar (base64 runs,
//! dates, times, timezones, flags, mailbox-listing flags, atoms, and
//! length-prefixed literals) together with encoders that serialize the parsed
//! values back into canonical wire bytes.
//!
//! Every parser is a pure function on a byte slice with a three-way outcome:
//! a match (with the number of bytes consumed), a definite mismatch, or a
//! request for more input, so that callers feeding the parser from a network
//! buffer can resume once more bytes arrive.

pub mod atom;
pub mod base64;
pub mod chars;
pub mod datetime;
pub mod encode;
pub mod flag;
pub mod laws;
pub mod literal;
pub mod parsed;
