use vstd::prelude::*;

use crate::datetime::{month_name, Date, DateTime, Time, Zone};
use crate::flag::{
    word_answered, word_deleted, word_draft, word_flagged, word_recent, word_seen, word_star, Flag,
    SpecFlag,
};

verus! {

/// The byte of the decimal digit `d`.
pub open spec fn digit_byte(d: int) -> u8 {
    (0x30 + d) as u8
}

/// Appends `w` to `out`.
fn extend_bytes(out: &mut Vec<u8>, w: &[u8])
    ensures
        final(out)@ == old(out)@ + w@,
{
    let mut i: usize = 0;
    while i < w.len()
        invariant
            0 <= i <= w@.len(),
            out@ == old(out)@ + w@.subrange(0, i as int),
        decreases w@.len() - i,
    {
        out.push(w[i]);
        proof {
            assert(out@ =~= old(out)@ + w@.subrange(0, i + 1));
        }
        i = i + 1;
    }
    proof {
        assert(old(out)@ + w@.subrange(0, w@.len() as int) =~= old(out)@ + w@);
    }
}

// --- Flags ------------------------------------------------------------------

/// The canonical bytes of a flag: the fixed words in their canonical
/// capitalization, a keyword as its bare atom, an extension as `\` plus its
/// atom.
pub open spec fn spec_encode_flag(f: SpecFlag) -> Seq<u8> {
    match f {
        SpecFlag::Answered => word_answered(),
        SpecFlag::Flagged => word_flagged(),
        SpecFlag::Deleted => word_deleted(),
        SpecFlag::Seen => word_seen(),
        SpecFlag::Draft => word_draft(),
        SpecFlag::Recent => word_recent(),
        SpecFlag::Permanent => word_star(),
        SpecFlag::Keyword(a) => a,
        SpecFlag::Extension(a) => seq![0x5cu8] + a,
    }
}

/// Serializer for a flag.
pub fn encode_flag(f: &Flag) -> (out: Vec<u8>)
    ensures
        out@ == spec_encode_flag(f.deep_view()),
{
    let mut out: Vec<u8> = Vec::new();
    match f {
        Flag::Answered => {
            let w: [u8; 9] = [0x5c, 0x41, 0x6e, 0x73, 0x77, 0x65, 0x72, 0x65, 0x64];
            proof {
                assert(w@ =~= word_answered());
            }
            extend_bytes(&mut out, w.as_slice());
        },
        Flag::Flagged => {
            let w: [u8; 8] = [0x5c, 0x46, 0x6c, 0x61, 0x67, 0x67, 0x65, 0x64];
            proof {
                assert(w@ =~= word_flagged());
            }
            extend_bytes(&mut out, w.as_slice());
        },
        Flag::Deleted => {
            let w: [u8; 8] = [0x5c, 0x44, 0x65, 0x6c, 0x65, 0x74, 0x65, 0x64];
            proof {
                assert(w@ =~= word_deleted());
            }
            extend_bytes(&mut out, w.as_slice());
        },
        Flag::Seen => {
            let w: [u8; 5] = [0x5c, 0x53, 0x65, 0x65, 0x6e];
            proof {
                assert(w@ =~= word_seen());
            }
            extend_bytes(&mut out, w.as_slice());
        },
        Flag::Draft => {
            let w: [u8; 6] = [0x5c, 0x44, 0x72, 0x61, 0x66, 0x74];
            proof {
                assert(w@ =~= word_draft());
            }
            extend_bytes(&mut out, w.as_slice());
        },
        Flag::Recent => {
            let w: [u8; 7] = [0x5c, 0x52, 0x65, 0x63, 0x65, 0x6e, 0x74];
            proof {
                assert(w@ =~= word_recent());
            }
            extend_bytes(&mut out, w.as_slice());
        },
        Flag::Permanent => {
            let w: [u8; 2] = [0x5c, 0x2a];
            proof {
                assert(w@ =~= word_star());
            }
            extend_bytes(&mut out, w.as_slice());
        },
        Flag::Keyword(a) => {
            extend_bytes(&mut out, a.bytes.as_slice());
        },
        Flag::Extension(a) => {
            out.push(0x5c);
            extend_bytes(&mut out, a.bytes.as_slice());
            proof {
                assert(out@ =~= seq![0x5cu8] + a.bytes@);
            }
        },
    }
    out
}

// --- Dates, times, zones ----------------------------------------------------

/// The canonical wire date: zero-padded two-digit day, canonical month
/// name, four-digit year.
pub open spec fn spec_encode_date(d: Date) -> Seq<u8> {
    seq![digit_byte(d.day as int / 10), digit_byte(d.day as int % 10), 0x2du8] + month_name(
        d.month as int,
    ) + seq![
        0x2du8,
        digit_byte(d.year as int / 1000),
        digit_byte((d.year as int / 100) % 10),
        digit_byte((d.year as int / 10) % 10),
        digit_byte(d.year as int % 10),
    ]
}

/// Appends the canonical three-byte name of month `m`.
fn push_month(out: &mut Vec<u8>, m: u8)
    requires
        1 <= m <= 12,
    ensures
        final(out)@ == old(out)@ + month_name(m as int),
{
    let name: [u8; 3] = if m == 1 {
        [0x4a, 0x61, 0x6e]
    } else if m == 2 {
        [0x46, 0x65, 0x62]
    } else if m == 3 {
        [0x4d, 0x61, 0x72]
    } else if m == 4 {
        [0x41, 0x70, 0x72]
    } else if m == 5 {
        [0x4d, 0x61, 0x79]
    } else if m == 6 {
        [0x4a, 0x75, 0x6e]
    } else if m == 7 {
        [0x4a, 0x75, 0x6c]
    } else if m == 8 {
        [0x41, 0x75, 0x67]
    } else if m == 9 {
        [0x53, 0x65, 0x70]
    } else if m == 10 {
        [0x4f, 0x63, 0x74]
    } else if m == 11 {
        [0x4e, 0x6f, 0x76]
    } else {
        [0x44, 0x65, 0x63]
    };
    proof {
        assert(name@ =~= month_name(m as int));
    }
    extend_bytes(out, name.as_slice());
}

/// Serializer for the canonical `date-text` form. The year must have at
/// most four digits, as the wire form does.
pub fn encode_date(d: &Date) -> (out: Vec<u8>)
    requires
        d.wf(),
        d.year < 10000,
    ensures
        out@ == spec_encode_date(*d),
{
    let mut out: Vec<u8> = Vec::new();
    out.push(0x30 + d.day / 10);
    out.push(0x30 + d.day % 10);
    out.push(0x2d);
    push_month(&mut out, d.month);
    out.push(0x2d);
    out.push(0x30 + (d.year / 1000) as u8);
    out.push(0x30 + ((d.year / 100) % 10) as u8);
    out.push(0x30 + ((d.year / 10) % 10) as u8);
    out.push(0x30 + (d.year % 10) as u8);
    proof {
        assert(out@ =~= spec_encode_date(*d));
    }
    out
}

/// The canonical wire time: zero-padded two-digit groups, colon separated.
pub open spec fn spec_encode_time(t: Time) -> Seq<u8> {
    seq![
        digit_byte(t.hour as int / 10),
        digit_byte(t.hour as int % 10),
        0x3au8,
        digit_byte(t.minute as int / 10),
        digit_byte(t.minute as int % 10),
        0x3au8,
        digit_byte(t.second as int / 10),
        digit_byte(t.second as int % 10),
    ]
}

/// Serializer for the canonical `time` form.
pub fn encode_time(t: &Time) -> (out: Vec<u8>)
    requires
        t.wf(),
    ensures
        out@ == spec_encode_time(*t),
{
    let mut out: Vec<u8> = Vec::new();
    out.push(0x30 + t.hour / 10);
    out.push(0x30 + t.hour % 10);
    out.push(0x3a);
    out.push(0x30 + t.minute / 10);
    out.push(0x30 + t.minute % 10);
    out.push(0x3a);
    out.push(0x30 + t.second / 10);
    out.push(0x30 + t.second % 10);
    proof {
        assert(out@ =~= spec_encode_time(*t));
    }
    out
}

/// The magnitude of a zone's offset, in seconds.
pub open spec fn zone_magnitude(z: Zone) -> int {
    if z.east_seconds < 0 {
        -(z.east_seconds as int)
    } else {
        z.east_seconds as int
    }
}

/// The canonical wire zone: `+` for zero or east, `-` for west, then the
/// offset's hours and minutes, two digits each.
pub open spec fn spec_encode_zone(z: Zone) -> Seq<u8> {
    seq![
        if z.east_seconds < 0 {
            0x2du8
        } else {
            0x2bu8
        },
        digit_byte(zone_magnitude(z) / 3600 / 10),
        digit_byte((zone_magnitude(z) / 3600) % 10),
        digit_byte((zone_magnitude(z) % 3600) / 60 / 10),
        digit_byte(((zone_magnitude(z) % 3600) / 60) % 10),
    ]
}

/// Serializer for the canonical `zone` form.
pub fn encode_zone(z: &Zone) -> (out: Vec<u8>)
    requires
        z.wf(),
    ensures
        out@ == spec_encode_zone(*z),
{
    let mut out: Vec<u8> = Vec::new();
    let magnitude: i32 = if z.east_seconds < 0 {
        out.push(0x2d);
        -z.east_seconds
    } else {
        out.push(0x2b);
        z.east_seconds
    };
    let hours: i32 = magnitude / 3600;
    let minutes: i32 = (magnitude % 3600) / 60;
    out.push(0x30 + (hours / 10) as u8);
    out.push(0x30 + (hours % 10) as u8);
    out.push(0x30 + (minutes / 10) as u8);
    out.push(0x30 + (minutes % 10) as u8);
    proof {
        assert(out@ =~= spec_encode_zone(*z));
    }
    out
}

// --- Timestamps ---------------------------------------------------------

/// The canonical wire `date-time`: the quoted, space-separated date, time,
/// and zone, with two/four-digit zero-padding throughout.
pub open spec fn spec_encode_date_time(dt: DateTime) -> Seq<u8> {
    seq![0x22u8] + spec_encode_date(dt.date) + seq![0x20u8] + spec_encode_time(dt.time) + seq![
        0x20u8,
    ] + spec_encode_zone(dt.zone) + seq![0x22u8]
}

/// Serializer for the canonical `date-time` form.
pub fn encode_date_time(dt: &DateTime) -> (out: Vec<u8>)
    requires
        dt.wf(),
        dt.date.year < 10000,
    ensures
        out@ == spec_encode_date_time(*dt),
{
    let mut out: Vec<u8> = Vec::new();
    out.push(0x22);
    let date_part = encode_date(&dt.date);
    extend_bytes(&mut out, date_part.as_slice());
    out.push(0x20);
    let time_part = encode_time(&dt.time);
    extend_bytes(&mut out, time_part.as_slice());
    out.push(0x20);
    let zone_part = encode_zone(&dt.zone);
    extend_bytes(&mut out, zone_part.as_slice());
    out.push(0x22);
    proof {
        assert(out@ =~= spec_encode_date_time(*dt));
    }
    out
}

} // verus!
