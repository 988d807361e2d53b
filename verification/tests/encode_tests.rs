use imap_codec::atom::Atom;
use imap_codec::datetime::{date_text, date_time, time, zone, Date, DateTime, Time, Zone};
use imap_codec::encode::{
    encode_date, encode_date_time, encode_flag, encode_time, encode_zone,
};
use imap_codec::flag::{flag, flag_perm, Flag};
use imap_codec::parsed::Parsed;

fn atom_of(s: &[u8]) -> Atom {
    Atom::new(s.to_vec()).unwrap()
}

#[test]
fn test_encode_flag_bytes() {
    assert_eq!(encode_flag(&Flag::Answered), b"\\Answered".to_vec());
    assert_eq!(encode_flag(&Flag::Flagged), b"\\Flagged".to_vec());
    assert_eq!(encode_flag(&Flag::Deleted), b"\\Deleted".to_vec());
    assert_eq!(encode_flag(&Flag::Seen), b"\\Seen".to_vec());
    assert_eq!(encode_flag(&Flag::Draft), b"\\Draft".to_vec());
    assert_eq!(encode_flag(&Flag::Recent), b"\\Recent".to_vec());
    assert_eq!(encode_flag(&Flag::Permanent), b"\\*".to_vec());
    assert_eq!(encode_flag(&Flag::Keyword(atom_of(b"ToDo"))), b"ToDo".to_vec());
    assert_eq!(encode_flag(&Flag::Extension(atom_of(b"XCustom"))), b"\\XCustom".to_vec());
}

#[test]
fn test_flag_round_trip_concrete() {
    // Parsing a canonical encoding, with one terminator byte after it,
    // yields the original value and consumes exactly the encoding.
    for f in [
        Flag::Answered,
        Flag::Flagged,
        Flag::Deleted,
        Flag::Seen,
        Flag::Draft,
        Flag::Keyword(atom_of(b"ToDo")),
        Flag::Extension(atom_of(b"XCustom")),
    ] {
        let mut enc = encode_flag(&f);
        let n = enc.len();
        enc.push(b' ');
        assert_eq!(flag(&enc), Parsed::Matched { used: n, val: f.clone() });
        // Re-encoding the parsed value is byte-identical: a fixed point.
        match flag(&enc) {
            Parsed::Matched { used: _, val } => assert_eq!(encode_flag(&val), encode_flag(&f)),
            _ => panic!(),
        }
    }
    // The wildcard round-trips through flag-perm.
    let mut enc = encode_flag(&Flag::Permanent);
    let n = enc.len();
    enc.push(b' ');
    assert_eq!(flag_perm(&enc), Parsed::Matched { used: n, val: Flag::Permanent });
}

#[test]
fn test_flag_normalizing_fixed_point() {
    // A sloppily capitalized wire form normalizes in one parse-encode step.
    let r = flag(b"\\sEEn ");
    match r {
        Parsed::Matched { used, val } => {
            assert_eq!(used, 5);
            assert_eq!(encode_flag(&val), b"\\Seen".to_vec());
        },
        _ => panic!(),
    }
}

#[test]
fn test_encode_date_time_bytes() {
    let dt = DateTime {
        date: Date { year: 1985, month: 2, day: 1 },
        time: Time { hour: 12, minute: 34, second: 56 },
        zone: Zone { east_seconds: 3600 },
    };
    assert_eq!(encode_date_time(&dt), b"\"01-Feb-1985 12:34:56 +0100\"".to_vec());
    let west = DateTime {
        date: Date { year: 2020, month: 12, day: 31 },
        time: Time { hour: 0, minute: 0, second: 0 },
        zone: Zone { east_seconds: -(11 * 3600 + 59 * 60) },
    };
    assert_eq!(encode_date_time(&west), b"\"31-Dec-2020 00:00:00 -1159\"".to_vec());
}

#[test]
fn test_date_time_round_trip_concrete() {
    let dt = DateTime {
        date: Date { year: 1985, month: 2, day: 1 },
        time: Time { hour: 12, minute: 34, second: 56 },
        zone: Zone { east_seconds: 3600 },
    };
    let enc = encode_date_time(&dt);
    assert_eq!(date_time(&enc), Parsed::Matched { used: enc.len(), val: Some(dt) });
    // The canonical form is a fixed point even when the original wire form
    // was padded differently: " 1-Feb-1985..." re-encodes zero-padded.
    let loose: &[u8] = b"\" 1-Feb-1985 12:34:56 +0100\"";
    match date_time(loose) {
        Parsed::Matched { used: _, val: Some(v) } => {
            assert_eq!(encode_date_time(&v), enc);
        },
        _ => panic!(),
    }
}

#[test]
fn test_component_round_trips_concrete() {
    let d = Date { year: 2000, month: 2, day: 29 };
    let enc = encode_date(&d);
    assert_eq!(enc, b"29-Feb-2000".to_vec());
    assert_eq!(date_text(&enc), Parsed::Matched { used: 11, val: Some(d) });

    let t = Time { hour: 3, minute: 7, second: 9 };
    let enc = encode_time(&t);
    assert_eq!(enc, b"03:07:09".to_vec());
    assert_eq!(time(&enc), Parsed::Matched { used: 8, val: Some(t) });

    let z = Zone { east_seconds: -43140 };
    let enc = encode_zone(&z);
    assert_eq!(enc, b"-1159".to_vec());
    assert_eq!(zone(&enc), Parsed::Matched { used: 5, val: Some(z) });

    // A zero offset always re-emits as `+0000`, the canonical fixed point,
    // even when it was read from `-0000`.
    let r = zone(b"-0000");
    match r {
        Parsed::Matched { used: _, val: Some(v) } => {
            assert_eq!(encode_zone(&v), b"+0000".to_vec());
        },
        _ => panic!(),
    }
}
