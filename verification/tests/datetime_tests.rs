use imap_codec::datetime::{
    date, date_day, date_day_fixed, date_month, date_text, date_time, date_year, time, zone, Date,
    DateTime, Time, Zone,
};
use imap_codec::parsed::Parsed;

#[test]
fn test_date() {
    let input: &[u8] = b"1-Feb-2020xxx";
    let r = date(input);
    assert_eq!(
        r,
        Parsed::Matched { used: 10, val: Some(Date { year: 2020, month: 2, day: 1 }) }
    );
    assert_eq!(&input[10..], b"xxx");

    let input: &[u8] = b"\"1-Feb-2020\"xxx";
    let r = date(input);
    assert_eq!(
        r,
        Parsed::Matched { used: 12, val: Some(Date { year: 2020, month: 2, day: 1 }) }
    );
    assert_eq!(&input[12..], b"xxx");

    let input: &[u8] = b"\"01-Feb-2020\"xxx";
    let r = date(input);
    assert_eq!(
        r,
        Parsed::Matched { used: 13, val: Some(Date { year: 2020, month: 2, day: 1 }) }
    );
    assert_eq!(&input[13..], b"xxx");
}

#[test]
fn test_date_text() {
    let input: &[u8] = b"1-Feb-2020";
    let r = date_text(input);
    assert_eq!(
        r,
        Parsed::Matched { used: 10, val: Some(Date { year: 2020, month: 2, day: 1 }) }
    );
    assert_eq!(&input[10..], b"");
}

#[test]
fn test_date_day() {
    let input: &[u8] = b"1xxx";
    assert_eq!(date_day(input), Parsed::Matched { used: 1, val: 1 });
    assert_eq!(&input[1..], b"xxx");

    let input: &[u8] = b"01xxx";
    assert_eq!(date_day(input), Parsed::Matched { used: 2, val: 1 });
    assert_eq!(&input[2..], b"xxx");

    let input: &[u8] = b"999xxx";
    assert_eq!(date_day(input), Parsed::Matched { used: 2, val: 99 });
    assert_eq!(&input[2..], b"9xxx");
}

#[test]
fn test_date_month() {
    let input: &[u8] = b"jAn";
    assert_eq!(date_month(input), Parsed::Matched { used: 3, val: 1 });
    assert_eq!(&input[3..], b"");

    let input: &[u8] = b"DeCxxx";
    assert_eq!(date_month(input), Parsed::Matched { used: 3, val: 12 });
    assert_eq!(&input[3..], b"xxx");
}

#[test]
fn test_date_year() {
    let input: &[u8] = b"1985xxx";
    assert_eq!(date_year(input), Parsed::Matched { used: 4, val: 1985 });
    assert_eq!(&input[4..], b"xxx");

    let input: &[u8] = b"1991xxx";
    assert_eq!(date_year(input), Parsed::Matched { used: 4, val: 1991 });
    assert_eq!(&input[4..], b"xxx");
}

#[test]
fn test_date_day_fixed() {
    assert_eq!(date_day_fixed(b"00"), Parsed::Matched { used: 2, val: 0 });
    assert_eq!(date_day_fixed(b" 0"), Parsed::Matched { used: 2, val: 0 });
    assert_eq!(date_day_fixed(b"99"), Parsed::Matched { used: 2, val: 99 });
    assert_eq!(date_day_fixed(b" 9"), Parsed::Matched { used: 2, val: 9 });
}

#[test]
fn test_time() {
    assert_eq!(time(b"1:34:56xxx"), Parsed::Failed);
    assert_eq!(time(b"12:3:56xxx"), Parsed::Failed);
    assert_eq!(time(b"12:34:5xxx"), Parsed::Failed);

    let input: &[u8] = b"12:34:56xxx";
    assert_eq!(
        time(input),
        Parsed::Matched { used: 8, val: Some(Time { hour: 12, minute: 34, second: 56 }) }
    );
    assert_eq!(&input[8..], b"xxx");

    let input: &[u8] = b"99:99:99 ";
    assert_eq!(time(input), Parsed::Matched { used: 8, val: None });
    assert_eq!(&input[8..], b" ");

    let input: &[u8] = b"12:34:56";
    assert_eq!(
        time(input),
        Parsed::Matched { used: 8, val: Some(Time { hour: 12, minute: 34, second: 56 }) }
    );
    assert_eq!(&input[8..], b"");

    let input: &[u8] = b"99:99:99";
    assert_eq!(time(input), Parsed::Matched { used: 8, val: None });
}

#[test]
fn test_date_time() {
    let input: &[u8] = b"\" 1-Feb-1985 12:34:56 +0100\"xxx";
    let r = date_time(input);
    assert_eq!(
        r,
        Parsed::Matched {
            used: 28,
            val: Some(DateTime {
                date: Date { year: 1985, month: 2, day: 1 },
                time: Time { hour: 12, minute: 34, second: 56 },
                zone: Zone { east_seconds: 3600 },
            }),
        }
    );
    assert_eq!(&input[28..], b"xxx");
}

#[test]
fn test_zone() {
    let input: &[u8] = b"+0000xxx";
    assert_eq!(zone(input), Parsed::Matched { used: 5, val: Some(Zone { east_seconds: 0 }) });
    assert_eq!(&input[5..], b"xxx");

    let input: &[u8] = b"+0000";
    assert_eq!(zone(input), Parsed::Matched { used: 5, val: Some(Zone { east_seconds: 0 }) });
    assert_eq!(&input[5..], b"");

    let input: &[u8] = b"-0205xxx";
    assert_eq!(
        zone(input),
        Parsed::Matched { used: 5, val: Some(Zone { east_seconds: -(2 * 3600 + 5 * 60) }) }
    );
    assert_eq!(&input[5..], b"xxx");

    let input: &[u8] = b"-1159";
    assert_eq!(
        zone(input),
        Parsed::Matched { used: 5, val: Some(Zone { east_seconds: -(11 * 3600 + 59 * 60) }) }
    );
    assert_eq!(&input[5..], b"");

    let input: &[u8] = b"-1159";
    assert_eq!(
        zone(input),
        Parsed::Matched { used: 5, val: Some(Zone { east_seconds: -(11 * 3600 + 59 * 60) }) }
    );
}

#[test]
fn test_zone_out_of_range_is_absent() {
    // Syntactically fine, semantically void: 99 hours east is no real zone.
    assert_eq!(zone(b"+9900xxx"), Parsed::Matched { used: 5, val: None });
    assert_eq!(zone(b"-2400"), Parsed::Matched { used: 5, val: None });
    // The largest representable offsets still compose.
    assert_eq!(
        zone(b"+2359"),
        Parsed::Matched { used: 5, val: Some(Zone { east_seconds: 23 * 3600 + 59 * 60 }) }
    );
}

#[test]
fn test_date_time_invalid_calendar_is_absent() {
    // Day 31 of February is grammatical but names no instant.
    let input: &[u8] = b"\"31-Feb-2020 12:34:56 +0000\"xxx";
    assert_eq!(date_time(input), Parsed::Matched { used: 28, val: None });
    // An out-of-range time also voids the whole composition.
    let input: &[u8] = b"\" 1-Feb-2020 99:00:00 +0000\"";
    assert_eq!(date_time(input), Parsed::Matched { used: 28, val: None });
}

#[test]
fn test_datetime_incomplete() {
    assert_eq!(date_day(b"9"), Parsed::Incomplete { needed: 1 });
    assert_eq!(date_month(b"Ja"), Parsed::Incomplete { needed: 1 });
    assert_eq!(date_month(b"m"), Parsed::Incomplete { needed: 2 });
    assert_eq!(date_year(b"19"), Parsed::Incomplete { needed: 2 });
    assert_eq!(time(b"12:34:5"), Parsed::Incomplete { needed: 1 });
    assert_eq!(zone(b"+01"), Parsed::Incomplete { needed: 2 });
    assert_eq!(zone(b""), Parsed::Incomplete { needed: 1 });
    assert_eq!(date_day_fixed(b" "), Parsed::Incomplete { needed: 1 });
    assert_eq!(date_time(b"\" 1-Feb-1985 12:34:56 +01"), Parsed::Incomplete { needed: 2 });
}

#[test]
fn test_datetime_failures() {
    assert_eq!(date_day(b"xxx"), Parsed::Failed);
    assert_eq!(date_month(b"xxx"), Parsed::Failed);
    assert_eq!(date_year(b"19x5"), Parsed::Failed);
    assert_eq!(date_day_fixed(b" x"), Parsed::Failed);
    assert_eq!(zone(b"~0000"), Parsed::Failed);
    assert_eq!(date(b"x1-Feb-2020"), Parsed::Failed);
    assert_eq!(date_time(b"x"), Parsed::Failed);
}

#[test]
fn test_date_constructor() {
    assert_eq!(Date::new(2020, 2, 29), Some(Date { year: 2020, month: 2, day: 29 }));
    assert_eq!(Date::new(2021, 2, 29), None);
    assert_eq!(Date::new(1900, 2, 29), None);
    assert_eq!(Date::new(2000, 2, 29), Some(Date { year: 2000, month: 2, day: 29 }));
    assert_eq!(Date::new(2020, 13, 1), None);
    assert_eq!(Date::new(2020, 4, 31), None);
    assert_eq!(Time::new(23, 59, 59), Some(Time { hour: 23, minute: 59, second: 59 }));
    assert_eq!(Time::new(24, 0, 0), None);
    assert_eq!(Zone::from_parts(false, 23, 59), Some(Zone { east_seconds: 86340 }));
    assert_eq!(Zone::from_parts(true, 24, 0), None);
}
