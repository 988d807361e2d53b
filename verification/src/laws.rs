use vstd::prelude::*;

use crate::atom::{atom_wf, spec_atom};
use crate::base64::spec_base64;
use crate::chars::{
    atom_char_p, base64_char_p, eq_nc_upto, spec_is_base64_char, lemma_scan_end, spec_is_alpha, spec_is_atom_char, spec_lower,
    spec_tag_nc,
};
use crate::datetime::{
    month_name, spec_date, spec_date_month, spec_date_text, spec_date_time, spec_time, spec_zone,
    valid_date, Date, DateTime, Time, Zone,
};
use crate::encode::{
    digit_byte, spec_encode_date, spec_encode_date_time, spec_encode_flag, spec_encode_time,
    spec_encode_zone, zone_magnitude,
};
use crate::flag::{
    spec_flag, spec_flag_fetch, spec_flag_list, spec_flag_perm, spec_sep_flags_more, word_answered, word_deleted, word_draft,
    word_flagged, word_seen, word_star, SpecFlag,
};
use crate::parsed::SpecParsed;

verus! {

/// Whether `s` begins with `t`, compared case-insensitively.
pub open spec fn starts_with_nc(s: Seq<u8>, t: Seq<u8>) -> bool {
    s.len() >= t.len() && eq_nc_upto(s, t, t.len() as int)
}

/// The flag values the `flag` parser itself can produce, written in the
/// canonical form the encoder emits: the five fixed words; any well-formed
/// keyword; and an extension whose atom does not begin, case-insensitively,
/// like a fixed word's name (such an atom would be swallowed by the fixed
/// alternative on re-parsing, so the parser never yields it).
pub open spec fn canonical_flag(f: SpecFlag) -> bool {
    match f {
        SpecFlag::Answered => true,
        SpecFlag::Flagged => true,
        SpecFlag::Deleted => true,
        SpecFlag::Seen => true,
        SpecFlag::Draft => true,
        SpecFlag::Recent => false,
        SpecFlag::Permanent => false,
        SpecFlag::Keyword(a) => atom_wf(a),
        SpecFlag::Extension(a) => atom_wf(a) && !starts_with_nc(a, word_answered().skip(1))
            && !starts_with_nc(a, word_flagged().skip(1)) && !starts_with_nc(
            a,
            word_deleted().skip(1),
        ) && !starts_with_nc(a, word_seen().skip(1)) && !starts_with_nc(a, word_draft().skip(1)),
    }
}

/// A `\`-prefixed atom that does not begin like the fixed word `w` never
/// matches `w`'s alternative, whatever follows the atom.
proof fn lemma_ext_tag_fails(a: Seq<u8>, suffix: Seq<u8>, w: Seq<u8>)
    requires
        atom_wf(a),
        suffix.len() > 0,
        !spec_is_atom_char(suffix[0]),
        w.len() >= 2,
        w[0] == 0x5c,
        forall|i: int| 1 <= i < w.len() ==> spec_is_alpha(w[i]),
        !starts_with_nc(a, w.skip(1)),
    ensures
        spec_tag_nc(seq![0x5cu8] + a + suffix, w) is Failed,
{
    let enc = seq![0x5cu8] + a + suffix;
    if a.len() >= w.len() - 1 {
        assert(!eq_nc_upto(a, w.skip(1), w.len() - 1));
        let j = choose|j: int|
            0 <= j < w.len() - 1 && spec_lower(a[j]) != spec_lower(w.skip(1)[j]);
        assert(spec_lower(enc[j + 1]) != spec_lower(w[j + 1]));
        assert(!eq_nc_upto(enc, w, w.len() as int));
    } else {
        if eq_nc_upto(a, w.skip(1), a.len() as int) {
            let k = 1 + a.len() as int;
            assert(enc[k] == suffix[0]);
            assert(spec_is_alpha(w[k]));
            assert(spec_lower(enc[k]) != spec_lower(w[k]));
            if enc.len() >= w.len() {
                assert(!eq_nc_upto(enc, w, w.len() as int));
            } else {
                assert(!eq_nc_upto(enc, w, enc.len() as int));
            }
        } else {
            let j = choose|j: int|
                0 <= j < a.len() && spec_lower(a[j]) != spec_lower(w.skip(1)[j]);
            assert(spec_lower(enc[j + 1]) != spec_lower(w[j + 1]));
            if enc.len() >= w.len() {
                assert(!eq_nc_upto(enc, w, w.len() as int));
            } else {
                assert(!eq_nc_upto(enc, w, enc.len() as int));
            }
        }
    }
}

/// ROUND TRIP for flags: parsing the canonical encoding of any flag the
/// parser can produce, followed by any byte that cannot extend it, yields
/// exactly that flag and consumes exactly the encoding.
pub proof fn lemma_flag_round_trip(f: SpecFlag, suffix: Seq<u8>)
    requires
        canonical_flag(f),
        suffix.len() > 0,
        !spec_is_atom_char(suffix[0]),
    ensures
        spec_flag(spec_encode_flag(f) + suffix) == (SpecParsed::Matched {
            used: spec_encode_flag(f).len() as int,
            val: f,
        }),
{
    let enc = spec_encode_flag(f) + suffix;
    match f {
        SpecFlag::Answered => {
            assert(eq_nc_upto(enc, word_answered(), 9));
        },
        SpecFlag::Flagged => {
            assert(spec_lower(enc[1]) != spec_lower(word_answered()[1]));
            assert(eq_nc_upto(enc, word_flagged(), 8));
        },
        SpecFlag::Deleted => {
            assert(spec_lower(enc[1]) != spec_lower(word_answered()[1]));
            assert(spec_lower(enc[1]) != spec_lower(word_flagged()[1]));
            assert(eq_nc_upto(enc, word_deleted(), 8));
        },
        SpecFlag::Seen => {
            assert(spec_lower(enc[1]) != spec_lower(word_answered()[1]));
            assert(spec_lower(enc[1]) != spec_lower(word_flagged()[1]));
            assert(spec_lower(enc[1]) != spec_lower(word_deleted()[1]));
            assert(eq_nc_upto(enc, word_seen(), 5));
        },
        SpecFlag::Draft => {
            assert(spec_lower(enc[1]) != spec_lower(word_answered()[1]));
            assert(spec_lower(enc[1]) != spec_lower(word_flagged()[1]));
            assert(spec_lower(enc[2]) != spec_lower(word_deleted()[2]));
            assert(spec_lower(enc[1]) != spec_lower(word_seen()[1]));
            assert(eq_nc_upto(enc, word_draft(), 6));
        },
        SpecFlag::Keyword(a) => {
            assert(enc[0] == a[0]);
            assert(spec_lower(enc[0]) != 0x5c);
            assert(spec_lower(enc[0]) != spec_lower(word_answered()[0]));
            assert(spec_tag_nc(enc, word_answered()) is Failed);
            assert(spec_tag_nc(enc, word_flagged()) is Failed);
            assert(spec_tag_nc(enc, word_deleted()) is Failed);
            assert(spec_tag_nc(enc, word_seen()) is Failed);
            assert(spec_tag_nc(enc, word_draft()) is Failed);
            lemma_scan_end(enc, atom_char_p(), a.len() as int);
            assert(enc.subrange(0, a.len() as int) =~= a);
        },
        SpecFlag::Extension(a) => {
            lemma_ext_tag_fails(a, suffix, word_answered());
            lemma_ext_tag_fails(a, suffix, word_flagged());
            lemma_ext_tag_fails(a, suffix, word_deleted());
            lemma_ext_tag_fails(a, suffix, word_seen());
            lemma_ext_tag_fails(a, suffix, word_draft());
            assert(enc =~= seq![0x5cu8] + a + suffix);
            lemma_scan_end(enc, atom_char_p(), 0);
            let inner = a + suffix;
            assert(enc.skip(1) =~= inner);
            lemma_scan_end(inner, atom_char_p(), a.len() as int);
            assert(inner.subrange(0, a.len() as int) =~= a);
        },
        SpecFlag::Recent => {},
        SpecFlag::Permanent => {},
    }
}

/// The flag a parse outcome carried, for stating re-encoding laws.
pub open spec fn flag_value_of(r: SpecParsed<SpecFlag>) -> SpecFlag {
    match r {
        SpecParsed::Matched { used: _, val } => val,
        _ => SpecFlag::Answered,
    }
}

/// IDEMPOTENT RE-ENCODING for flags: re-encoding the value parsed back from
/// a canonical encoding gives exactly the original bytes, so encoding is a
/// fixed point under parse-then-encode.
pub proof fn lemma_flag_reencode_idempotent(f: SpecFlag, suffix: Seq<u8>)
    requires
        canonical_flag(f),
        suffix.len() > 0,
        !spec_is_atom_char(suffix[0]),
    ensures
        spec_encode_flag(flag_value_of(spec_flag(spec_encode_flag(f) + suffix)))
            == spec_encode_flag(f),
{
    lemma_flag_round_trip(f, suffix);
}

/// ROUND TRIP for `flag-fetch` on the same values: the wider production
/// agrees with `flag` wherever `flag` matches.
pub proof fn lemma_flag_fetch_round_trip(f: SpecFlag, suffix: Seq<u8>)
    requires
        canonical_flag(f),
        suffix.len() > 0,
        !spec_is_atom_char(suffix[0]),
    ensures
        spec_flag_fetch(spec_encode_flag(f) + suffix) == (SpecParsed::Matched {
            used: spec_encode_flag(f).len() as int,
            val: f,
        }),
{
    lemma_flag_round_trip(f, suffix);
}

/// ROUND TRIP for `flag-perm`, which also covers the wildcard: every value
/// it can produce in canonical form re-parses to itself.
pub proof fn lemma_flag_perm_round_trip(f: SpecFlag, suffix: Seq<u8>)
    requires
        canonical_flag(f) || f == SpecFlag::Permanent,
        suffix.len() > 0,
        !spec_is_atom_char(suffix[0]),
    ensures
        spec_flag_perm(spec_encode_flag(f) + suffix) == (SpecParsed::Matched {
            used: spec_encode_flag(f).len() as int,
            val: f,
        }),
{
    let enc = spec_encode_flag(f) + suffix;
    if f is Permanent {
        assert(spec_lower(enc[1]) != spec_lower(word_answered()[1]));
        assert(spec_lower(enc[1]) != spec_lower(word_flagged()[1]));
        assert(spec_lower(enc[1]) != spec_lower(word_deleted()[1]));
        assert(spec_lower(enc[1]) != spec_lower(word_seen()[1]));
        assert(spec_lower(enc[1]) != spec_lower(word_draft()[1]));
        lemma_scan_end(enc, atom_char_p(), 0);
        let inner = word_star().skip(1) + suffix;
        assert(enc.skip(1) =~= inner);
        lemma_scan_end(inner, atom_char_p(), 0);
        assert(crate::chars::eq_upto(enc, word_star(), 2));
    } else {
        lemma_flag_round_trip(f, suffix);
    }
}

/// ROUND TRIP for atoms: an atom's bytes, followed by any byte outside the
/// atom alphabet, parse back to exactly that atom.
pub proof fn lemma_atom_round_trip(a: Seq<u8>, suffix: Seq<u8>)
    requires
        atom_wf(a),
        suffix.len() > 0,
        !spec_is_atom_char(suffix[0]),
    ensures
        spec_atom(a + suffix) == (SpecParsed::Matched { used: a.len() as int, val: a }),
{
    lemma_scan_end(a + suffix, atom_char_p(), a.len() as int);
    assert((a + suffix).subrange(0, a.len() as int) =~= a);
}

/// The month alternation reads back exactly the canonical name of any
/// month, whatever follows it.
pub proof fn lemma_month_parse(m: int, rest: Seq<u8>)
    requires
        1 <= m <= 12,
    ensures
        spec_date_month(month_name(m) + rest) == (SpecParsed::Matched { used: 3, val: m as u8 }),
{
    let s = month_name(m) + rest;
    assert(eq_nc_upto(s, month_name(m), 3));
        if m == 1 {
            // the first alternative already matches
        } else if m == 2 {
            assert(spec_lower(s[0]) != spec_lower(month_name(1)[0]));
        } else if m == 3 {
            assert(spec_lower(s[0]) != spec_lower(month_name(1)[0]));
            assert(spec_lower(s[0]) != spec_lower(month_name(2)[0]));
        } else if m == 4 {
            assert(spec_lower(s[0]) != spec_lower(month_name(1)[0]));
            assert(spec_lower(s[0]) != spec_lower(month_name(2)[0]));
            assert(spec_lower(s[0]) != spec_lower(month_name(3)[0]));
        } else if m == 5 {
            assert(spec_lower(s[0]) != spec_lower(month_name(1)[0]));
            assert(spec_lower(s[0]) != spec_lower(month_name(2)[0]));
            assert(spec_lower(s[2]) != spec_lower(month_name(3)[2]));
            assert(spec_lower(s[0]) != spec_lower(month_name(4)[0]));
        } else if m == 6 {
            assert(spec_lower(s[1]) != spec_lower(month_name(1)[1]));
            assert(spec_lower(s[0]) != spec_lower(month_name(2)[0]));
            assert(spec_lower(s[0]) != spec_lower(month_name(3)[0]));
            assert(spec_lower(s[0]) != spec_lower(month_name(4)[0]));
            assert(spec_lower(s[0]) != spec_lower(month_name(5)[0]));
        } else if m == 7 {
            assert(spec_lower(s[1]) != spec_lower(month_name(1)[1]));
            assert(spec_lower(s[0]) != spec_lower(month_name(2)[0]));
            assert(spec_lower(s[0]) != spec_lower(month_name(3)[0]));
            assert(spec_lower(s[0]) != spec_lower(month_name(4)[0]));
            assert(spec_lower(s[0]) != spec_lower(month_name(5)[0]));
            assert(spec_lower(s[2]) != spec_lower(month_name(6)[2]));
        } else if m == 8 {
            assert(spec_lower(s[0]) != spec_lower(month_name(1)[0]));
            assert(spec_lower(s[0]) != spec_lower(month_name(2)[0]));
            assert(spec_lower(s[0]) != spec_lower(month_name(3)[0]));
            assert(spec_lower(s[1]) != spec_lower(month_name(4)[1]));
            assert(spec_lower(s[0]) != spec_lower(month_name(5)[0]));
            assert(spec_lower(s[0]) != spec_lower(month_name(6)[0]));
            assert(spec_lower(s[0]) != spec_lower(month_name(7)[0]));
        } else if m == 9 {
            assert(spec_lower(s[0]) != spec_lower(month_name(1)[0]));
            assert(spec_lower(s[0]) != spec_lower(month_name(2)[0]));
            assert(spec_lower(s[0]) != spec_lower(month_name(3)[0]));
            assert(spec_lower(s[0]) != spec_lower(month_name(4)[0]));
            assert(spec_lower(s[0]) != spec_lower(month_name(5)[0]));
            assert(spec_lower(s[0]) != spec_lower(month_name(6)[0]));
            assert(spec_lower(s[0]) != spec_lower(month_name(7)[0]));
            assert(spec_lower(s[0]) != spec_lower(month_name(8)[0]));
        } else if m == 10 {
            assert(spec_lower(s[0]) != spec_lower(month_name(1)[0]));
            assert(spec_lower(s[0]) != spec_lower(month_name(2)[0]));
            assert(spec_lower(s[0]) != spec_lower(month_name(3)[0]));
            assert(spec_lower(s[0]) != spec_lower(month_name(4)[0]));
            assert(spec_lower(s[0]) != spec_lower(month_name(5)[0]));
            assert(spec_lower(s[0]) != spec_lower(month_name(6)[0]));
            assert(spec_lower(s[0]) != spec_lower(month_name(7)[0]));
            assert(spec_lower(s[0]) != spec_lower(month_name(8)[0]));
            assert(spec_lower(s[0]) != spec_lower(month_name(9)[0]));
        } else if m == 11 {
            assert(spec_lower(s[0]) != spec_lower(month_name(1)[0]));
            assert(spec_lower(s[0]) != spec_lower(month_name(2)[0]));
            assert(spec_lower(s[0]) != spec_lower(month_name(3)[0]));
            assert(spec_lower(s[0]) != spec_lower(month_name(4)[0]));
            assert(spec_lower(s[0]) != spec_lower(month_name(5)[0]));
            assert(spec_lower(s[0]) != spec_lower(month_name(6)[0]));
            assert(spec_lower(s[0]) != spec_lower(month_name(7)[0]));
            assert(spec_lower(s[0]) != spec_lower(month_name(8)[0]));
            assert(spec_lower(s[0]) != spec_lower(month_name(9)[0]));
            assert(spec_lower(s[0]) != spec_lower(month_name(10)[0]));
        } else if m == 12 {
            assert(spec_lower(s[0]) != spec_lower(month_name(1)[0]));
            assert(spec_lower(s[0]) != spec_lower(month_name(2)[0]));
            assert(spec_lower(s[0]) != spec_lower(month_name(3)[0]));
            assert(spec_lower(s[0]) != spec_lower(month_name(4)[0]));
            assert(spec_lower(s[0]) != spec_lower(month_name(5)[0]));
            assert(spec_lower(s[0]) != spec_lower(month_name(6)[0]));
            assert(spec_lower(s[0]) != spec_lower(month_name(7)[0]));
            assert(spec_lower(s[0]) != spec_lower(month_name(8)[0]));
            assert(spec_lower(s[0]) != spec_lower(month_name(9)[0]));
            assert(spec_lower(s[0]) != spec_lower(month_name(10)[0]));
            assert(spec_lower(s[0]) != spec_lower(month_name(11)[0]));
        }
}

/// ROUND TRIP for timestamps: the canonical encoding of any well-formed
/// timestamp with a four-digit year parses back to exactly that value,
/// consuming the whole quoted form.
#[verifier::rlimit(100)]
#[verifier::spinoff_prover]
pub proof fn lemma_date_time_round_trip(dt: DateTime)
    requires
        dt.wf(),
        dt.date.year < 10000,
    ensures
        spec_date_time(spec_encode_date_time(dt)) == (SpecParsed::Matched {
            used: 28,
            val: Some(dt),
        }),
{
    let s = spec_encode_date_time(dt);
    let d = dt.date;
    let t = dt.time;
    let z = dt.zone;
    let de = spec_encode_date(d);
    let te = spec_encode_time(t);
    let ze = spec_encode_zone(z);
    let day = d.day as int;
    let y = d.year as int;
    assert(month_name(d.month as int).len() == 3);
    assert(de.len() == 11);
    assert(te.len() == 8);
    assert(ze.len() == 5);
    assert(s.len() == 28);
    // day
    assert(s[1] == digit_byte(day / 10));
    assert(s[2] == digit_byte(day % 10));
    assert(10 * (day / 10) + day % 10 == day);
    // month
    assert(s[3] == 0x2d);
    assert(s.skip(4) =~= month_name(d.month as int) + s.skip(7));
    lemma_month_parse(d.month as int, s.skip(7));
    // year
    assert(s[7] == 0x2d);
    assert(s[8] == digit_byte(y / 1000));
    assert(s[9] == digit_byte((y / 100) % 10));
    assert(s[10] == digit_byte((y / 10) % 10));
    assert(s[11] == digit_byte(y % 10));
    assert(y / 1000 == (y / 100) / 10) by (nonlinear_arith)
        requires
            0 <= y,
    ;
    assert(10 * ((y / 100) / 10) + (y / 100) % 10 == y / 100);
    assert((y % 100) / 10 == (y / 10) % 10) by (nonlinear_arith)
        requires
            0 <= y,
    ;
    assert((y % 100) % 10 == y % 10) by {
        assert(100 == 10 * 10);
        vstd::arithmetic::div_mod::lemma_mod_mod(y, 10, 10);
    }
    assert(10 * ((y / 10) % 10) + y % 10 == y % 100);
    assert(100 * (y / 100) + y % 100 == y);
    // the separating spaces
    assert(s[12] == 0x20);
    assert(s[21] == 0x20);
    // time
    let hour = t.hour as int;
    let minute = t.minute as int;
    let second = t.second as int;
    assert(s[13] == digit_byte(hour / 10));
    assert(s[14] == digit_byte(hour % 10));
    assert(s[15] == 0x3a);
    assert(s[16] == digit_byte(minute / 10));
    assert(s[17] == digit_byte(minute % 10));
    assert(s[18] == 0x3a);
    assert(s[19] == digit_byte(second / 10));
    assert(s[20] == digit_byte(second % 10));
    assert(10 * (hour / 10) + hour % 10 == hour);
    assert(10 * (minute / 10) + minute % 10 == minute);
    assert(10 * (second / 10) + second % 10 == second);
    // zone
    let east = z.east_seconds as int;
    let mag = zone_magnitude(z);
    assert(s[22] == if z.east_seconds < 0 { 0x2du8 } else { 0x2bu8 });
    assert(s[23] == digit_byte(mag / 3600 / 10));
    assert(s[24] == digit_byte((mag / 3600) % 10));
    assert(s[25] == digit_byte((mag % 3600) / 60 / 10));
    assert(s[26] == digit_byte(((mag % 3600) / 60) % 10));
    assert(mag % 60 == 0) by {
        if east < 0 {
            assert(east % 60 == 0);
            assert(east == 60 * (east / 60));
            vstd::arithmetic::div_mod::lemma_mod_multiples_basic(-(east / 60), 60);
            assert((-(east / 60)) * 60 == -east) by (nonlinear_arith)
                requires
                    east == 60 * (east / 60),
            ;
        }
    }
    let hh = mag / 3600;
    let mm = (mag % 3600) / 60;
    assert(10 * (hh / 10) + hh % 10 == hh);
    assert(10 * (mm / 10) + mm % 10 == mm);
    assert((mag % 3600) % 60 == mag % 60) by {
        assert(3600 == 60 * 60);
        vstd::arithmetic::div_mod::lemma_mod_mod(mag, 60, 60);
    }
    assert(mag == 3600 * hh + (mag % 3600));
    assert(mag % 3600 == 60 * mm + (mag % 3600) % 60);
    assert(mag == 3600 * hh + 60 * mm);
    assert(0 <= hh <= 23);
    assert(0 <= mm <= 59);
    // the closing quote and the composition
    assert(s[27] == 0x22);
    assert(valid_date(y, d.month as int, day));
}

/// IDEMPOTENT RE-ENCODING for timestamps: whatever value the parser reads
/// back from a canonical encoding, encoding it again gives the same bytes.
pub proof fn lemma_date_time_reencode_idempotent(dt: DateTime)
    requires
        dt.wf(),
        dt.date.year < 10000,
    ensures
        forall|v: DateTime|
            spec_date_time(spec_encode_date_time(dt)) == (SpecParsed::Matched {
                used: 28,
                val: Some(v),
            }) ==> spec_encode_date_time(v) == spec_encode_date_time(dt),
{
    lemma_date_time_round_trip(dt);
}

/// ROUND TRIP for times: the canonical encoding of a well-formed time of
/// day parses back to exactly that value.
pub proof fn lemma_time_round_trip(t: Time)
    requires
        t.wf(),
    ensures
        spec_time(spec_encode_time(t)) == (SpecParsed::Matched { used: 8, val: Some(t) }),
{
    let s = spec_encode_time(t);
    let hour = t.hour as int;
    let minute = t.minute as int;
    let second = t.second as int;
    assert(10 * (hour / 10) + hour % 10 == hour);
    assert(10 * (minute / 10) + minute % 10 == minute);
    assert(10 * (second / 10) + second % 10 == second);
}

/// ROUND TRIP for zones: the canonical encoding of a well-formed zone
/// parses back to exactly that offset; in particular `-0000` never arises,
/// a zero offset always re-reads as `+0000`.
pub proof fn lemma_zone_round_trip(z: Zone)
    requires
        z.wf(),
    ensures
        spec_zone(spec_encode_zone(z)) == (SpecParsed::Matched { used: 5, val: Some(z) }),
{
    let s = spec_encode_zone(z);
    let east = z.east_seconds as int;
    let mag = zone_magnitude(z);
    assert(mag % 60 == 0) by {
        if east < 0 {
            assert(east == 60 * (east / 60));
            vstd::arithmetic::div_mod::lemma_mod_multiples_basic(-(east / 60), 60);
            assert((-(east / 60)) * 60 == -east) by (nonlinear_arith)
                requires
                    east == 60 * (east / 60),
            ;
        }
    }
    let hh = mag / 3600;
    let mm = (mag % 3600) / 60;
    assert(10 * (hh / 10) + hh % 10 == hh);
    assert(10 * (mm / 10) + mm % 10 == mm);
    assert((mag % 3600) % 60 == mag % 60) by {
        assert(3600 == 60 * 60);
        vstd::arithmetic::div_mod::lemma_mod_mod(mag, 60, 60);
    }
    assert(mag == 3600 * hh + 60 * mm);
}

/// ROUND TRIP for dates, alternation level: a canonically encoded date is
/// read by the bare branch of `date` and consumes the whole encoding.
pub proof fn lemma_date_round_trip(d: Date)
    requires
        d.wf(),
        d.year < 10000,
    ensures
        spec_date(spec_encode_date(d)) == (SpecParsed::Matched { used: 11, val: Some(d) }),
{
    lemma_date_text_round_trip(d);
}

/// ROUND TRIP for dates: the canonical encoding of a real calendar date
/// with a four-digit year parses back to exactly that date.
#[verifier::rlimit(100)]
#[verifier::spinoff_prover]
pub proof fn lemma_date_text_round_trip(d: Date)
    requires
        d.wf(),
        d.year < 10000,
    ensures
        spec_date_text(spec_encode_date(d)) == (SpecParsed::Matched { used: 11, val: Some(d) }),
{
    let s = spec_encode_date(d);
    let day = d.day as int;
    let y = d.year as int;
    assert(month_name(d.month as int).len() == 3);
    assert(s.len() == 11);
    assert(s[0] == digit_byte(day / 10));
    assert(s[1] == digit_byte(day % 10));
    assert(10 * (day / 10) + day % 10 == day);
    assert(s[2] == 0x2d);
    assert(s.skip(3) =~= month_name(d.month as int) + s.skip(6));
    lemma_month_parse(d.month as int, s.skip(6));
    assert(s[6] == 0x2d);
    assert(s[7] == digit_byte(y / 1000));
    assert(s[8] == digit_byte((y / 100) % 10));
    assert(s[9] == digit_byte((y / 10) % 10));
    assert(s[10] == digit_byte(y % 10));
    assert(y / 1000 == (y / 100) / 10) by (nonlinear_arith)
        requires
            0 <= y,
    ;
    assert(10 * ((y / 100) / 10) + (y / 100) % 10 == y / 100);
    assert((y % 100) / 10 == (y / 10) % 10) by (nonlinear_arith)
        requires
            0 <= y,
    ;
    assert((y % 100) % 10 == y % 10) by {
        assert(100 == 10 * 10);
        vstd::arithmetic::div_mod::lemma_mod_mod(y, 10, 10);
    }
    assert(10 * ((y / 10) % 10) + y % 10 == y % 100);
    assert(100 * (y / 100) + y % 100 == y);
    assert(valid_date(y, d.month as int, day));
}

/// Whether `v` is a text the `base64` rule recognizes whole: a run of
/// base64 characters followed by nothing, `=`, or `==`.
pub open spec fn base64_split_ok(v: Seq<u8>, k: int) -> bool {
    &&& 0 <= k <= v.len()
    &&& forall|j: int| 0 <= j < k ==> spec_is_base64_char(v[j])
    &&& (k == v.len() || (v[k] == 0x3d && (k + 1 == v.len() || (v[k + 1] == 0x3d && k + 2
        == v.len()))))
}

pub open spec fn canonical_base64(v: Seq<u8>) -> bool {
    exists|k: int| base64_split_ok(v, k)
}

/// ROUND TRIP for `base64`: a recognized text, re-parsed in front of a byte
/// that can extend neither the run nor the padding, is recognized whole and
/// unchanged, whatever its length modulo four.
pub proof fn lemma_base64_round_trip(v: Seq<u8>, suffix: Seq<u8>)
    requires
        canonical_base64(v),
        suffix.len() > 0,
        !spec_is_base64_char(suffix[0]),
        suffix[0] != 0x3d,
    ensures
        spec_base64(v + suffix) == (SpecParsed::Matched { used: v.len() as int, val: v }),
{
    let s = v + suffix;
    let k = choose|k: int| base64_split_ok(v, k);
    lemma_scan_end(s, base64_char_p(), k);
    if k == v.len() {
        assert(s.subrange(0, k) =~= v);
    } else if k + 1 == v.len() {
        assert(s.subrange(0, k + 1) =~= v);
    } else {
        assert(s.subrange(0, k + 2) =~= v);
    }
}

/// The wire tail of a flag list: a space before each further flag.
pub open spec fn sep_tail(l: Seq<SpecFlag>) -> Seq<u8>
    decreases l.len(),
{
    if l.len() == 0 {
        seq![]
    } else {
        seq![0x20u8] + spec_encode_flag(l[0]) + sep_tail(l.skip(1))
    }
}

/// The canonical bytes of a whole flag list: parenthesized, single-space
/// separated, no trailing separator.
pub open spec fn spec_encode_flag_list(l: Seq<SpecFlag>) -> Seq<u8> {
    if l.len() == 0 {
        seq![0x28u8, 0x29u8]
    } else {
        seq![0x28u8] + spec_encode_flag(l[0]) + sep_tail(l.skip(1)) + seq![0x29u8]
    }
}

/// The list continuation reads back exactly the flags of a canonical tail,
/// appending them to whatever was read so far, and stops at the parenthesis.
#[verifier::rlimit(100)]
#[verifier::spinoff_prover]
proof fn lemma_sep_flags_tail(s: Seq<u8>, pos: int, acc: Seq<SpecFlag>, l: Seq<SpecFlag>)
    requires
        0 <= pos <= s.len(),
        s.skip(pos) == sep_tail(l) + seq![0x29u8],
        forall|i: int| 0 <= i < l.len() ==> canonical_flag(#[trigger] l[i]),
    ensures
        spec_sep_flags_more(s, pos, acc) == (SpecParsed::Matched {
            used: pos + sep_tail(l).len(),
            val: acc + l,
        }),
    decreases l.len(),
{
    if l.len() == 0 {
        assert(sep_tail(l).len() == 0);
        assert(s.skip(pos).len() == 1);
        assert(s.skip(pos)[0] == s[pos]);
        assert(s.skip(pos)[0] == 0x29);
        assert(acc + l =~= acc);
    } else {
        let enc0 = spec_encode_flag(l[0]);
        let rest = sep_tail(l.skip(1)) + seq![0x29u8];
        assert(sep_tail(l) == seq![0x20u8] + enc0 + sep_tail(l.skip(1)));
        assert(s.skip(pos).len() == sep_tail(l).len() + 1);
        assert(s.skip(pos)[0] == s[pos]);
        assert(s.skip(pos)[0] == 0x20);
        assert(rest.len() > 0);
        assert(!spec_is_atom_char(rest[0])) by {
            if l.skip(1).len() > 0 {
                assert(sep_tail(l.skip(1)) == seq![0x20u8] + spec_encode_flag(l.skip(1)[0])
                    + sep_tail(l.skip(1).skip(1)));
                assert(rest[0] == 0x20);
            } else {
                assert(sep_tail(l.skip(1)).len() == 0);
                assert(rest[0] == 0x29);
            }
        }
        assert(s.skip(pos + 1) =~= s.skip(pos).skip(1));
        assert(s.skip(pos).skip(1) =~= enc0 + rest);
        lemma_flag_round_trip(l[0], rest);
        assert(spec_flag(s.skip(pos + 1)) == (SpecParsed::Matched {
            used: enc0.len() as int,
            val: l[0],
        }));
        let pos1 = pos + 1 + enc0.len() as int;
        assert(pos1 <= s.len());
        assert(s.skip(pos1) =~= s.skip(pos).skip(1 + enc0.len() as int));
        assert(s.skip(pos).skip(1 + enc0.len() as int) =~= sep_tail(l.skip(1)) + seq![0x29u8]);
        lemma_sep_flags_tail(s, pos1, acc.push(l[0]), l.skip(1));
        assert(acc.push(l[0]) + l.skip(1) =~= acc + l);
    }
}

/// ROUND TRIP for flag lists: the canonical encoding of any list of
/// canonical flags parses back to exactly that list, consuming the whole
/// parenthesized form.
#[verifier::rlimit(100)]
#[verifier::spinoff_prover]
pub proof fn lemma_flag_list_round_trip(l: Seq<SpecFlag>)
    requires
        forall|i: int| 0 <= i < l.len() ==> canonical_flag(#[trigger] l[i]),
    ensures
        spec_flag_list(spec_encode_flag_list(l)) == (SpecParsed::Matched {
            used: spec_encode_flag_list(l).len() as int,
            val: l,
        }),
{
    let s = spec_encode_flag_list(l);
    assert(s[0] == 0x28);
    let s1 = s.skip(1);
    if l.len() == 0 {
        assert(s1.len() == 1 && s1[0] == 0x29);
        assert(spec_lower(s1[0]) != spec_lower(word_answered()[0]));
        assert(spec_tag_nc(s1, word_answered()) is Failed);
        assert(spec_tag_nc(s1, word_flagged()) is Failed);
        assert(spec_tag_nc(s1, word_deleted()) is Failed);
        assert(spec_tag_nc(s1, word_seen()) is Failed);
        assert(spec_tag_nc(s1, word_draft()) is Failed);
        lemma_scan_end(s1, atom_char_p(), 0);
        assert(spec_flag(s1) is Failed);
        assert(l =~= Seq::<SpecFlag>::empty());
    } else {
        let enc0 = spec_encode_flag(l[0]);
        let rest = sep_tail(l.skip(1)) + seq![0x29u8];
        assert(rest.len() > 0);
        assert(!spec_is_atom_char(rest[0])) by {
            if l.skip(1).len() > 0 {
                assert(rest[0] == 0x20);
            } else {
                assert(rest[0] == 0x29);
            }
        }
        assert(s1 =~= enc0 + rest);
        assert(s1.len() == enc0.len() + rest.len());
        lemma_flag_round_trip(l[0], rest);
        let pos1 = enc0.len() as int;
        assert(s1.skip(pos1) =~= rest);
        lemma_sep_flags_tail(s1, pos1, seq![l[0]], l.skip(1));
        assert(seq![l[0]] + l.skip(1) =~= l);
        assert(s1[s1.len() - 1] == 0x29);
    }
}

} // verus!
