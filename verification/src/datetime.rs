use vstd::prelude::*;

use crate::chars::{digit_val, is_digit, spec_is_digit, spec_tag_nc, tag_nc};
use crate::parsed::{Parsed, SpecParsed};

verus! {

// --- Calendar model -------------------------------------------------------

/// Proleptic Gregorian leap-year rule.
pub open spec fn is_leap_year(y: int) -> bool {
    y % 4 == 0 && (y % 100 != 0 || y % 400 == 0)
}

/// Length of month `m` of year `y`, for `1 <= m <= 12`.
pub open spec fn days_in_month(y: int, m: int) -> int {
    if m == 2 {
        if is_leap_year(y) {
            29
        } else {
            28
        }
    } else if m == 4 || m == 6 || m == 9 || m == 11 {
        30
    } else {
        31
    }
}

/// Whether year/month/day name a real calendar date.
pub open spec fn valid_date(y: int, m: int, d: int) -> bool {
    1 <= m <= 12 && 1 <= d <= days_in_month(y, m)
}

// --- Owned calendar values ------------------------------------------------

/// A calendar date. Well-formed values name a real day; the constructor
/// accepts exactly those.
#[derive(Clone, Copy, Debug, PartialEq, Eq)]
pub struct Date {
    pub year: u16,
    pub month: u8,
    pub day: u8,
}

impl View for Date {
    type V = Date;

    open spec fn view(&self) -> Date {
        *self
    }
}

impl DeepView for Date {
    type V = Date;

    open spec fn deep_view(&self) -> Date {
        *self
    }
}

/// The date made of the given fields, when they name a real day.
pub open spec fn spec_date_new(year: u16, month: u8, day: u8) -> Option<Date> {
    if valid_date(year as int, month as int, day as int) {
        Some(Date { year, month, day })
    } else {
        None
    }
}

/// Relies on chrono::NaiveDate::from_ymd_opt: it returns `Some` exactly on
/// real proleptic-Gregorian calendar dates (every 16-bit year lies inside
/// chrono's supported year range).
#[verifier::external_body]
fn chrono_date_valid(year: u16, month: u8, day: u8) -> (r: bool)
    ensures
        r == valid_date(year as int, month as int, day as int),
{
    chrono::NaiveDate::from_ymd_opt(year as i32, month as u32, day as u32).is_some()
}

impl Date {
    pub open spec fn wf(&self) -> bool {
        valid_date(self.year as int, self.month as int, self.day as int)
    }

    /// Builds a date, accepting exactly the real calendar dates.
    pub fn new(year: u16, month: u8, day: u8) -> (r: Option<Date>)
        ensures
            r == spec_date_new(year, month, day),
            r matches Some(d) ==> d.wf(),
    {
        if chrono_date_valid(year, month, day) {
            Some(Date { year, month, day })
        } else {
            None
        }
    }
}

/// A time of day. Well-formed values have hour below 24 and minute and
/// second below 60.
#[derive(Clone, Copy, Debug, PartialEq, Eq)]
pub struct Time {
    pub hour: u8,
    pub minute: u8,
    pub second: u8,
}

impl View for Time {
    type V = Time;

    open spec fn view(&self) -> Time {
        *self
    }
}

impl DeepView for Time {
    type V = Time;

    open spec fn deep_view(&self) -> Time {
        *self
    }
}

/// The time of day made of the given fields, when they are in range.
pub open spec fn spec_time_new(hour: u8, minute: u8, second: u8) -> Option<Time> {
    if hour < 24 && minute < 60 && second < 60 {
        Some(Time { hour, minute, second })
    } else {
        None
    }
}

/// Relies on chrono::NaiveTime::from_hms_opt: it returns `Some` exactly when
/// the hour is below 24 and the minute and second are below 60.
#[verifier::external_body]
fn chrono_time_valid(hour: u8, minute: u8, second: u8) -> (r: bool)
    ensures
        r == (hour < 24 && minute < 60 && second < 60),
{
    chrono::NaiveTime::from_hms_opt(hour as u32, minute as u32, second as u32).is_some()
}

impl Time {
    pub open spec fn wf(&self) -> bool {
        self.hour < 24 && self.minute < 60 && self.second < 60
    }

    /// Builds a time of day, accepting exactly the in-range field values.
    pub fn new(hour: u8, minute: u8, second: u8) -> (r: Option<Time>)
        ensures
            r == spec_time_new(hour, minute, second),
            r matches Some(t) ==> t.wf(),
    {
        if chrono_time_valid(hour, minute, second) {
            Some(Time { hour, minute, second })
        } else {
            None
        }
    }
}

/// A fixed UTC offset, counted in seconds east of Greenwich. Well-formed
/// values lie strictly between plus and minus one day and are whole minutes,
/// which is all the wire syntax can carry.
#[derive(Clone, Copy, Debug, PartialEq, Eq)]
pub struct Zone {
    pub east_seconds: i32,
}

impl View for Zone {
    type V = Zone;

    open spec fn view(&self) -> Zone {
        *self
    }
}

impl DeepView for Zone {
    type V = Zone;

    open spec fn deep_view(&self) -> Zone {
        *self
    }
}

/// The signed offset denoted by a sign and two two-digit groups of the
/// wire form, in seconds east.
pub open spec fn zone_offset(negative: bool, hours: u8, minutes: u8) -> int {
    if negative {
        -(3600 * hours + 60 * minutes)
    } else {
        3600 * hours + 60 * minutes
    }
}

/// The zone made of a parsed sign and digit groups, when the offset is
/// representable; hour and minute groups up to 99 are syntactically fine,
/// so the bound can be exceeded and the result absent.
pub open spec fn spec_zone_new(negative: bool, hours: u8, minutes: u8) -> Option<Zone> {
    if -86400 < zone_offset(negative, hours, minutes) < 86400 {
        Some(Zone { east_seconds: zone_offset(negative, hours, minutes) as i32 })
    } else {
        None
    }
}

/// Relies on chrono::FixedOffset::east_opt: it returns `Some` exactly when
/// the offset lies strictly between minus and plus 86400 seconds.
#[verifier::external_body]
fn chrono_offset_valid(east_seconds: i32) -> (r: bool)
    ensures
        r == (-86400 < east_seconds < 86400),
{
    chrono::FixedOffset::east_opt(east_seconds).is_some()
}

impl Zone {
    pub open spec fn wf(&self) -> bool {
        -86400 < self.east_seconds < 86400 && self.east_seconds as int % 60 == 0
    }

    /// Builds a zone from the sign and digit groups of the wire form,
    /// accepting exactly the representable offsets.
    pub fn from_parts(negative: bool, hours: u8, minutes: u8) -> (r: Option<Zone>)
        ensures
            r == spec_zone_new(negative, hours, minutes),
            r matches Some(z) ==> z.wf(),
    {
        let magnitude: i32 = 3600 * (hours as i32) + 60 * (minutes as i32);
        let east_seconds: i32 = if negative {
            -magnitude
        } else {
            magnitude
        };
        proof {
            assert(magnitude == 60 * (60 * hours + minutes));
            assert(magnitude % 60 == 0) by (nonlinear_arith)
                requires
                    magnitude == 60 * (60 * hours + minutes),
            ;
        }
        if chrono_offset_valid(east_seconds) {
            Some(Zone { east_seconds })
        } else {
            None
        }
    }
}

/// A timezone-aware timestamp: a real calendar date, an in-range time of
/// day, and a representable zone.
#[derive(Clone, Copy, Debug, PartialEq, Eq)]
pub struct DateTime {
    pub date: Date,
    pub time: Time,
    pub zone: Zone,
}

impl View for DateTime {
    type V = DateTime;

    open spec fn view(&self) -> DateTime {
        *self
    }
}

impl DeepView for DateTime {
    type V = DateTime;

    open spec fn deep_view(&self) -> DateTime {
        *self
    }
}

impl DateTime {
    pub open spec fn wf(&self) -> bool {
        self.date.wf() && self.time.wf() && self.zone.wf()
    }
}

/// Composition of the parsed fields of a `date-time`: present only when the
/// date names a real day and the time and zone were themselves present.
pub open spec fn spec_compose_date_time(
    day: u8,
    month: u8,
    year: u16,
    time: Option<Time>,
    zone: Option<Zone>,
) -> Option<DateTime> {
    match (spec_date_new(year, month, day), time, zone) {
        (Some(d), Some(t), Some(z)) => Some(DateTime { date: d, time: t, zone: z }),
        _ => None,
    }
}

// --- Digit groups ---------------------------------------------------------

/// 2DIGIT: exactly two digits, valued 0 through 99.
pub open spec fn spec_digits2(s: Seq<u8>) -> SpecParsed<u8> {
    if s.len() == 0 {
        SpecParsed::Incomplete { needed: 2 }
    } else if !spec_is_digit(s[0]) {
        SpecParsed::Failed
    } else if s.len() == 1 {
        SpecParsed::Incomplete { needed: 1 }
    } else if !spec_is_digit(s[1]) {
        SpecParsed::Failed
    } else {
        SpecParsed::Matched { used: 2, val: (digit_val(s[0]) * 10 + digit_val(s[1])) as u8 }
    }
}

/// Recognizer for a two-digit group.
pub fn digits2(input: &[u8]) -> (r: Parsed<u8>)
    ensures
        r@ == spec_digits2(input@),
{
    if input.len() == 0 {
        return Parsed::Incomplete { needed: 2 };
    }
    if !is_digit(input[0]) {
        return Parsed::Failed;
    }
    if input.len() == 1 {
        return Parsed::Incomplete { needed: 1 };
    }
    if !is_digit(input[1]) {
        return Parsed::Failed;
    }
    Parsed::Matched { used: 2, val: (input[0] - 0x30) * 10 + (input[1] - 0x30) }
}

// --- date-day, date-month, date-year --------------------------------------

/// date-day = 1*2DIGIT
///
/// The match is maximal within the two-digit cap and is not calendar
/// checked: `999` reads as 99 with one digit left over. A digit at the end
/// of the input is incomplete, since a second digit could follow.
pub open spec fn spec_date_day(s: Seq<u8>) -> SpecParsed<u8> {
    if s.len() == 0 {
        SpecParsed::Incomplete { needed: 1 }
    } else if !spec_is_digit(s[0]) {
        SpecParsed::Failed
    } else if s.len() == 1 {
        SpecParsed::Incomplete { needed: 1 }
    } else if spec_is_digit(s[1]) {
        SpecParsed::Matched { used: 2, val: (digit_val(s[0]) * 10 + digit_val(s[1])) as u8 }
    } else {
        SpecParsed::Matched { used: 1, val: digit_val(s[0]) as u8 }
    }
}

/// Recognizer for `date-day`.
pub fn date_day(input: &[u8]) -> (r: Parsed<u8>)
    ensures
        r@ == spec_date_day(input@),
{
    if input.len() == 0 {
        return Parsed::Incomplete { needed: 1 };
    }
    if !is_digit(input[0]) {
        return Parsed::Failed;
    }
    if input.len() == 1 {
        return Parsed::Incomplete { needed: 1 };
    }
    if is_digit(input[1]) {
        Parsed::Matched { used: 2, val: (input[0] - 0x30) * 10 + (input[1] - 0x30) }
    } else {
        Parsed::Matched { used: 1, val: input[0] - 0x30 }
    }
}

/// date-day-fixed = (SP DIGIT) / 2DIGIT
///
/// The fixed-width day of `date-time`: either a space followed by one digit
/// or exactly two digits, always two bytes.
pub open spec fn spec_date_day_fixed(s: Seq<u8>) -> SpecParsed<u8> {
    if s.len() == 0 {
        SpecParsed::Incomplete { needed: 1 }
    } else if s[0] == 0x20 {
        if s.len() == 1 {
            SpecParsed::Incomplete { needed: 1 }
        } else if spec_is_digit(s[1]) {
            SpecParsed::Matched { used: 2, val: digit_val(s[1]) as u8 }
        } else {
            SpecParsed::Failed
        }
    } else {
        spec_digits2(s)
    }
}

/// Recognizer for `date-day-fixed`.
pub fn date_day_fixed(input: &[u8]) -> (r: Parsed<u8>)
    ensures
        r@ == spec_date_day_fixed(input@),
{
    if input.len() == 0 {
        return Parsed::Incomplete { needed: 1 };
    }
    if input[0] == 0x20 {
        if input.len() == 1 {
            return Parsed::Incomplete { needed: 1 };
        }
        if is_digit(input[1]) {
            return Parsed::Matched { used: 2, val: input[1] - 0x30 };
        }
        return Parsed::Failed;
    }
    digits2(input)
}

/// The wire name of month number `m`, for `1 <= m <= 12`.
pub open spec fn month_name(m: int) -> Seq<u8> {
    if m == 1 {
        seq![0x4au8, 0x61, 0x6e]  // Jan
    } else if m == 2 {
        seq![0x46u8, 0x65, 0x62]  // Feb
    } else if m == 3 {
        seq![0x4du8, 0x61, 0x72]  // Mar
    } else if m == 4 {
        seq![0x41u8, 0x70, 0x72]  // Apr
    } else if m == 5 {
        seq![0x4du8, 0x61, 0x79]  // May
    } else if m == 6 {
        seq![0x4au8, 0x75, 0x6e]  // Jun
    } else if m == 7 {
        seq![0x4au8, 0x75, 0x6c]  // Jul
    } else if m == 8 {
        seq![0x41u8, 0x75, 0x67]  // Aug
    } else if m == 9 {
        seq![0x53u8, 0x65, 0x70]  // Sep
    } else if m == 10 {
        seq![0x4fu8, 0x63, 0x74]  // Oct
    } else if m == 11 {
        seq![0x4eu8, 0x6f, 0x76]  // Nov
    } else {
        seq![0x44u8, 0x65, 0x63]  // Dec
    }
}

/// One alternative of `date-month`: a hit or a prefix of month `m` decides,
/// a mismatch falls through to `rest`.
pub open spec fn spec_month_branch(s: Seq<u8>, m: int, rest: SpecParsed<u8>) -> SpecParsed<u8> {
    match spec_tag_nc(s, month_name(m)) {
        SpecParsed::Matched { used, val: _ } => SpecParsed::Matched { used, val: m as u8 },
        SpecParsed::Incomplete { needed } => SpecParsed::Incomplete { needed },
        SpecParsed::Failed => rest,
    }
}

/// date-month = "Jan" / "Feb" / "Mar" / "Apr" / "May" / "Jun" /
///              "Jul" / "Aug" / "Sep" / "Oct" / "Nov" / "Dec"
///
/// Case-insensitive, tried in calendar order; the first name whose overlap
/// with the input agrees decides the outcome.
pub open spec fn spec_date_month(s: Seq<u8>) -> SpecParsed<u8> {
    spec_month_branch(s, 1,
    spec_month_branch(s, 2,
    spec_month_branch(s, 3,
    spec_month_branch(s, 4,
    spec_month_branch(s, 5,
    spec_month_branch(s, 6,
    spec_month_branch(s, 7,
    spec_month_branch(s, 8,
    spec_month_branch(s, 9,
    spec_month_branch(s, 10,
    spec_month_branch(s, 11,
    spec_month_branch(s, 12, SpecParsed::Failed))))))))))))
}

/// One step of the `date-month` recognizer: try the name of month `m`.
/// `None` means that this alternative failed and the next one decides.
fn month_step(input: &[u8], name: &[u8; 3], m: u8) -> (r: Option<Parsed<u8>>)
    requires
        1 <= m <= 12,
        name@ == month_name(m as int),
    ensures
        match r {
            Some(p) => p@ == spec_tag_result(input@, m as int) && !(p@ is Failed),
            None => spec_tag_nc(input@, month_name(m as int)) is Failed,
        },
{
    match tag_nc(input, name.as_slice()) {
        Parsed::Matched { used, val: _ } => Some(Parsed::Matched { used, val: m }),
        Parsed::Incomplete { needed } => Some(Parsed::Incomplete { needed }),
        Parsed::Failed => None,
    }
}

/// The outcome of the alternative for month `m` when its tag did not fail.
pub open spec fn spec_tag_result(s: Seq<u8>, m: int) -> SpecParsed<u8> {
    match spec_tag_nc(s, month_name(m)) {
        SpecParsed::Matched { used, val: _ } => SpecParsed::Matched { used, val: m as u8 },
        SpecParsed::Incomplete { needed } => SpecParsed::Incomplete { needed },
        SpecParsed::Failed => SpecParsed::Failed,
    }
}

/// Recognizer for `date-month`, yielding the month number 1 through 12.
pub fn date_month(input: &[u8]) -> (r: Parsed<u8>)
    ensures
        r@ == spec_date_month(input@),
{
    let jan: [u8; 3] = [0x4a, 0x61, 0x6e];
    let feb: [u8; 3] = [0x46, 0x65, 0x62];
    let mar: [u8; 3] = [0x4d, 0x61, 0x72];
    let apr: [u8; 3] = [0x41, 0x70, 0x72];
    let may: [u8; 3] = [0x4d, 0x61, 0x79];
    let jun: [u8; 3] = [0x4a, 0x75, 0x6e];
    let jul: [u8; 3] = [0x4a, 0x75, 0x6c];
    let aug: [u8; 3] = [0x41, 0x75, 0x67];
    let sep: [u8; 3] = [0x53, 0x65, 0x70];
    let oct: [u8; 3] = [0x4f, 0x63, 0x74];
    let nov: [u8; 3] = [0x4e, 0x6f, 0x76];
    let dec: [u8; 3] = [0x44, 0x65, 0x63];
    proof {
        assert(jan@ =~= month_name(1));
        assert(feb@ =~= month_name(2));
        assert(mar@ =~= month_name(3));
        assert(apr@ =~= month_name(4));
        assert(may@ =~= month_name(5));
        assert(jun@ =~= month_name(6));
        assert(jul@ =~= month_name(7));
        assert(aug@ =~= month_name(8));
        assert(sep@ =~= month_name(9));
        assert(oct@ =~= month_name(10));
        assert(nov@ =~= month_name(11));
        assert(dec@ =~= month_name(12));
    }
    if let Some(p) = month_step(input, &jan, 1) {
        return p;
    }
    if let Some(p) = month_step(input, &feb, 2) {
        return p;
    }
    if let Some(p) = month_step(input, &mar, 3) {
        return p;
    }
    if let Some(p) = month_step(input, &apr, 4) {
        return p;
    }
    if let Some(p) = month_step(input, &may, 5) {
        return p;
    }
    if let Some(p) = month_step(input, &jun, 6) {
        return p;
    }
    if let Some(p) = month_step(input, &jul, 7) {
        return p;
    }
    if let Some(p) = month_step(input, &aug, 8) {
        return p;
    }
    if let Some(p) = month_step(input, &sep, 9) {
        return p;
    }
    if let Some(p) = month_step(input, &oct, 10) {
        return p;
    }
    if let Some(p) = month_step(input, &nov, 11) {
        return p;
    }
    if let Some(p) = month_step(input, &dec, 12) {
        return p;
    }
    Parsed::Failed
}

/// date-year = 4DIGIT
pub open spec fn spec_date_year(s: Seq<u8>) -> SpecParsed<u16> {
    match spec_digits2(s) {
        SpecParsed::Failed => SpecParsed::Failed,
        SpecParsed::Incomplete { needed } => SpecParsed::Incomplete { needed },
        SpecParsed::Matched { used: _, val: hi } => match spec_digits2(s.skip(2)) {
            SpecParsed::Failed => SpecParsed::Failed,
            SpecParsed::Incomplete { needed } => SpecParsed::Incomplete { needed },
            SpecParsed::Matched { used: _, val: lo } => SpecParsed::Matched {
                used: 4,
                val: (100 * hi + lo) as u16,
            },
        },
    }
}

/// Recognizer for `date-year`.
pub fn date_year(input: &[u8]) -> (r: Parsed<u16>)
    ensures
        r@ == spec_date_year(input@),
{
    let hi = match digits2(input) {
        Parsed::Matched { used: _, val } => val,
        Parsed::Failed => {
            return Parsed::Failed;
        },
        Parsed::Incomplete { needed } => {
            return Parsed::Incomplete { needed };
        },
    };
    let rest = vstd::slice::slice_subrange(input, 2, input.len());
    let lo = match digits2(rest) {
        Parsed::Matched { used: _, val } => val,
        Parsed::Failed => {
            return Parsed::Failed;
        },
        Parsed::Incomplete { needed } => {
            return Parsed::Incomplete { needed };
        },
    };
    Parsed::Matched { used: 4, val: 100 * (hi as u16) + (lo as u16) }
}

// --- date-text and date ---------------------------------------------------

/// date-text = date-day "-" date-month "-" date-year
///
/// The digits are not calendar checked; composition is. A syntactically
/// well-formed text whose fields name no real day matches with an absent
/// value rather than failing.
pub open spec fn spec_date_text(s: Seq<u8>) -> SpecParsed<Option<Date>> {
    match spec_date_day(s) {
        SpecParsed::Failed => SpecParsed::Failed,
        SpecParsed::Incomplete { needed } => SpecParsed::Incomplete { needed },
        SpecParsed::Matched { used: u_day, val: day } => {
            let s1 = s.skip(u_day);
            if s1.len() == 0 {
                SpecParsed::Incomplete { needed: 1 }
            } else if s1[0] != 0x2d {
                SpecParsed::Failed
            } else {
                match spec_date_month(s1.skip(1)) {
                    SpecParsed::Failed => SpecParsed::Failed,
                    SpecParsed::Incomplete { needed } => SpecParsed::Incomplete { needed },
                    SpecParsed::Matched { used: u_mon, val: month } => {
                        let s2 = s1.skip(1 + u_mon);
                        if s2.len() == 0 {
                            SpecParsed::Incomplete { needed: 1 }
                        } else if s2[0] != 0x2d {
                            SpecParsed::Failed
                        } else {
                            match spec_date_year(s2.skip(1)) {
                                SpecParsed::Failed => SpecParsed::Failed,
                                SpecParsed::Incomplete { needed } => SpecParsed::Incomplete {
                                    needed,
                                },
                                SpecParsed::Matched { used: u_year, val: year } => {
                                    SpecParsed::Matched {
                                        used: u_day + 1 + u_mon + 1 + u_year,
                                        val: spec_date_new(year, month, day),
                                    }
                                },
                            }
                        }
                    },
                }
            }
        },
    }
}

/// Recognizer for `date-text`.
pub fn date_text(input: &[u8]) -> (r: Parsed<Option<Date>>)
    ensures
        r@ == spec_date_text(input@),
{
    let (u_day, day) = match date_day(input) {
        Parsed::Matched { used, val } => (used, val),
        Parsed::Failed => {
            return Parsed::Failed;
        },
        Parsed::Incomplete { needed } => {
            return Parsed::Incomplete { needed };
        },
    };
    let s1 = vstd::slice::slice_subrange(input, u_day, input.len());
    if s1.len() == 0 {
        return Parsed::Incomplete { needed: 1 };
    }
    if s1[0] != 0x2d {
        return Parsed::Failed;
    }
    let s1b = vstd::slice::slice_subrange(s1, 1, s1.len());
    let (u_mon, month) = match date_month(s1b) {
        Parsed::Matched { used, val } => (used, val),
        Parsed::Failed => {
            return Parsed::Failed;
        },
        Parsed::Incomplete { needed } => {
            return Parsed::Incomplete { needed };
        },
    };
    proof {
        lemma_month_used(s1b@);
    }
    let s2 = vstd::slice::slice_subrange(s1, 1 + u_mon, s1.len());
    if s2.len() == 0 {
        return Parsed::Incomplete { needed: 1 };
    }
    if s2[0] != 0x2d {
        return Parsed::Failed;
    }
    let s2b = vstd::slice::slice_subrange(s2, 1, s2.len());
    let (u_year, year) = match date_year(s2b) {
        Parsed::Matched { used, val } => (used, val),
        Parsed::Failed => {
            return Parsed::Failed;
        },
        Parsed::Incomplete { needed } => {
            return Parsed::Incomplete { needed };
        },
    };
    Parsed::Matched { used: u_day + 1 + u_mon + 1 + u_year, val: Date::new(year, month, day) }
}

/// A month match uses exactly the three bytes of its name.
pub proof fn lemma_month_used(s: Seq<u8>)
    ensures
        spec_date_month(s) matches SpecParsed::Matched { used, val } ==> {
            &&& used == 3 <= s.len()
            &&& 1 <= val <= 12
        },
{
}

/// date = date-text / DQUOTE date-text DQUOTE
pub open spec fn spec_date(s: Seq<u8>) -> SpecParsed<Option<Date>> {
    match spec_date_text(s) {
        SpecParsed::Matched { used, val } => SpecParsed::Matched { used, val },
        SpecParsed::Incomplete { needed } => SpecParsed::Incomplete { needed },
        SpecParsed::Failed => {
            if s.len() == 0 {
                SpecParsed::Incomplete { needed: 1 }
            } else if s[0] != 0x22 {
                SpecParsed::Failed
            } else {
                match spec_date_text(s.skip(1)) {
                    SpecParsed::Failed => SpecParsed::Failed,
                    SpecParsed::Incomplete { needed } => SpecParsed::Incomplete { needed },
                    SpecParsed::Matched { used, val } => {
                        let s1 = s.skip(1 + used);
                        if s1.len() == 0 {
                            SpecParsed::Incomplete { needed: 1 }
                        } else if s1[0] != 0x22 {
                            SpecParsed::Failed
                        } else {
                            SpecParsed::Matched { used: 1 + used + 1, val }
                        }
                    },
                }
            }
        },
    }
}

/// The text of a date uses no more bytes than the input holds.
pub proof fn lemma_date_text_used(s: Seq<u8>)
    ensures
        spec_date_text(s) matches SpecParsed::Matched { used, val } ==> 0 < used <= s.len(),
{
}

/// Recognizer for `date`.
pub fn date(input: &[u8]) -> (r: Parsed<Option<Date>>)
    ensures
        r@ == spec_date(input@),
{
    match date_text(input) {
        Parsed::Matched { used, val } => {
            return Parsed::Matched { used, val };
        },
        Parsed::Incomplete { needed } => {
            return Parsed::Incomplete { needed };
        },
        Parsed::Failed => {},
    }
    if input.len() == 0 {
        return Parsed::Incomplete { needed: 1 };
    }
    if input[0] != 0x22 {
        return Parsed::Failed;
    }
    let inner = vstd::slice::slice_subrange(input, 1, input.len());
    let (used, val) = match date_text(inner) {
        Parsed::Matched { used, val } => (used, val),
        Parsed::Failed => {
            return Parsed::Failed;
        },
        Parsed::Incomplete { needed } => {
            return Parsed::Incomplete { needed };
        },
    };
    proof {
        lemma_date_text_used(inner@);
    }
    let s1 = vstd::slice::slice_subrange(input, 1 + used, input.len());
    if s1.len() == 0 {
        return Parsed::Incomplete { needed: 1 };
    }
    if s1[0] != 0x22 {
        return Parsed::Failed;
    }
    Parsed::Matched { used: 1 + used + 1, val }
}

// --- time -----------------------------------------------------------------

/// time = 2DIGIT ":" 2DIGIT ":" 2DIGIT
///
/// The groups are pure digit captures: `99:99:99` matches, with an absent
/// value, since only composition checks the ranges.
pub open spec fn spec_time(s: Seq<u8>) -> SpecParsed<Option<Time>> {
    match spec_digits2(s) {
        SpecParsed::Failed => SpecParsed::Failed,
        SpecParsed::Incomplete { needed } => SpecParsed::Incomplete { needed },
        SpecParsed::Matched { used: _, val: hour } => {
            if s.len() == 2 {
                SpecParsed::Incomplete { needed: 1 }
            } else if s[2] != 0x3a {
                SpecParsed::Failed
            } else {
                match spec_digits2(s.skip(3)) {
                    SpecParsed::Failed => SpecParsed::Failed,
                    SpecParsed::Incomplete { needed } => SpecParsed::Incomplete { needed },
                    SpecParsed::Matched { used: _, val: minute } => {
                        if s.len() == 5 {
                            SpecParsed::Incomplete { needed: 1 }
                        } else if s[5] != 0x3a {
                            SpecParsed::Failed
                        } else {
                            match spec_digits2(s.skip(6)) {
                                SpecParsed::Failed => SpecParsed::Failed,
                                SpecParsed::Incomplete { needed } => SpecParsed::Incomplete {
                                    needed,
                                },
                                SpecParsed::Matched { used: _, val: second } => {
                                    SpecParsed::Matched {
                                        used: 8,
                                        val: spec_time_new(hour, minute, second),
                                    }
                                },
                            }
                        }
                    },
                }
            }
        },
    }
}

/// Recognizer for `time`.
pub fn time(input: &[u8]) -> (r: Parsed<Option<Time>>)
    ensures
        r@ == spec_time(input@),
{
    let hour = match digits2(input) {
        Parsed::Matched { used: _, val } => val,
        Parsed::Failed => {
            return Parsed::Failed;
        },
        Parsed::Incomplete { needed } => {
            return Parsed::Incomplete { needed };
        },
    };
    if input.len() == 2 {
        return Parsed::Incomplete { needed: 1 };
    }
    if input[2] != 0x3a {
        return Parsed::Failed;
    }
    let minute = match digits2(vstd::slice::slice_subrange(input, 3, input.len())) {
        Parsed::Matched { used: _, val } => val,
        Parsed::Failed => {
            return Parsed::Failed;
        },
        Parsed::Incomplete { needed } => {
            return Parsed::Incomplete { needed };
        },
    };
    if input.len() == 5 {
        return Parsed::Incomplete { needed: 1 };
    }
    if input[5] != 0x3a {
        return Parsed::Failed;
    }
    let second = match digits2(vstd::slice::slice_subrange(input, 6, input.len())) {
        Parsed::Matched { used: _, val } => val,
        Parsed::Failed => {
            return Parsed::Failed;
        },
        Parsed::Incomplete { needed } => {
            return Parsed::Incomplete { needed };
        },
    };
    Parsed::Matched { used: 8, val: Time::new(hour, minute, second) }
}

// --- zone -----------------------------------------------------------------

/// zone = ("+" / "-") 4DIGIT
///
/// Hours and minutes east (or west, under `-`) of Greenwich. Any two digit
/// groups are syntax; an offset at or beyond one day yields an absent value,
/// never a failure.
pub open spec fn spec_zone(s: Seq<u8>) -> SpecParsed<Option<Zone>> {
    if s.len() == 0 {
        SpecParsed::Incomplete { needed: 1 }
    } else if s[0] != 0x2b && s[0] != 0x2d {
        SpecParsed::Failed
    } else {
        match spec_digits2(s.skip(1)) {
            SpecParsed::Failed => SpecParsed::Failed,
            SpecParsed::Incomplete { needed } => SpecParsed::Incomplete { needed },
            SpecParsed::Matched { used: _, val: hours } => match spec_digits2(s.skip(3)) {
                SpecParsed::Failed => SpecParsed::Failed,
                SpecParsed::Incomplete { needed } => SpecParsed::Incomplete { needed },
                SpecParsed::Matched { used: _, val: minutes } => SpecParsed::Matched {
                    used: 5,
                    val: spec_zone_new(s[0] == 0x2d, hours, minutes),
                },
            },
        }
    }
}

/// Recognizer for `zone`.
pub fn zone(input: &[u8]) -> (r: Parsed<Option<Zone>>)
    ensures
        r@ == spec_zone(input@),
{
    if input.len() == 0 {
        return Parsed::Incomplete { needed: 1 };
    }
    if input[0] != 0x2b && input[0] != 0x2d {
        return Parsed::Failed;
    }
    let negative = input[0] == 0x2d;
    let hours = match digits2(vstd::slice::slice_subrange(input, 1, input.len())) {
        Parsed::Matched { used: _, val } => val,
        Parsed::Failed => {
            return Parsed::Failed;
        },
        Parsed::Incomplete { needed } => {
            return Parsed::Incomplete { needed };
        },
    };
    let minutes = match digits2(vstd::slice::slice_subrange(input, 3, input.len())) {
        Parsed::Matched { used: _, val } => val,
        Parsed::Failed => {
            return Parsed::Failed;
        },
        Parsed::Incomplete { needed } => {
            return Parsed::Incomplete { needed };
        },
    };
    Parsed::Matched { used: 5, val: Zone::from_parts(negative, hours, minutes) }
}

// --- date-time ------------------------------------------------------------

/// date-time = DQUOTE date-day-fixed "-" date-month "-" date-year
///             SP time SP zone DQUOTE
///
/// Syntax and meaning are split: a quoted body of the right shape always
/// matches, and the value is absent whenever the fields compose to no real
/// timezone-aware instant.
pub open spec fn spec_date_time(s: Seq<u8>) -> SpecParsed<Option<DateTime>> {
    if s.len() == 0 {
        SpecParsed::Incomplete { needed: 1 }
    } else if s[0] != 0x22 {
        SpecParsed::Failed
    } else {
        match spec_date_day_fixed(s.skip(1)) {
            SpecParsed::Failed => SpecParsed::Failed,
            SpecParsed::Incomplete { needed } => SpecParsed::Incomplete { needed },
            SpecParsed::Matched { used: u_day, val: day } => {
                let p1 = 1 + u_day;
                if s.len() == p1 {
                    SpecParsed::Incomplete { needed: 1 }
                } else if s[p1] != 0x2d {
                    SpecParsed::Failed
                } else {
                    match spec_date_month(s.skip(p1 + 1)) {
                        SpecParsed::Failed => SpecParsed::Failed,
                        SpecParsed::Incomplete { needed } => SpecParsed::Incomplete { needed },
                        SpecParsed::Matched { used: u_mon, val: month } => {
                            let p2 = p1 + 1 + u_mon;
                            if s.len() == p2 {
                                SpecParsed::Incomplete { needed: 1 }
                            } else if s[p2] != 0x2d {
                                SpecParsed::Failed
                            } else {
                                match spec_date_year(s.skip(p2 + 1)) {
                                    SpecParsed::Failed => SpecParsed::Failed,
                                    SpecParsed::Incomplete { needed } => SpecParsed::Incomplete {
                                        needed,
                                    },
                                    SpecParsed::Matched { used: u_year, val: year } => {
                                        let p3 = p2 + 1 + u_year;
                                        spec_date_time_tail(s, p3, day, month, year)
                                    },
                                }
                            }
                        },
                    }
                }
            },
        }
    }
}

/// The `SP time SP zone DQUOTE` tail of `date-time`, from position `p3`.
pub open spec fn spec_date_time_tail(s: Seq<u8>, p3: int, day: u8, month: u8, year: u16)
    -> SpecParsed<Option<DateTime>> {
    if s.len() == p3 {
        SpecParsed::Incomplete { needed: 1 }
    } else if s[p3] != 0x20 {
        SpecParsed::Failed
    } else {
        match spec_time(s.skip(p3 + 1)) {
            SpecParsed::Failed => SpecParsed::Failed,
            SpecParsed::Incomplete { needed } => SpecParsed::Incomplete { needed },
            SpecParsed::Matched { used: u_time, val: time_v } => {
                let p4 = p3 + 1 + u_time;
                if s.len() == p4 {
                    SpecParsed::Incomplete { needed: 1 }
                } else if s[p4] != 0x20 {
                    SpecParsed::Failed
                } else {
                    match spec_zone(s.skip(p4 + 1)) {
                        SpecParsed::Failed => SpecParsed::Failed,
                        SpecParsed::Incomplete { needed } => SpecParsed::Incomplete { needed },
                        SpecParsed::Matched { used: u_zone, val: zone_v } => {
                            let p5 = p4 + 1 + u_zone;
                            if s.len() == p5 {
                                SpecParsed::Incomplete { needed: 1 }
                            } else if s[p5] != 0x22 {
                                SpecParsed::Failed
                            } else {
                                SpecParsed::Matched {
                                    used: p5 + 1,
                                    val: spec_compose_date_time(day, month, year, time_v, zone_v),
                                }
                            }
                        },
                    }
                }
            },
        }
    }
}

/// Recognizer for `date-time`.
pub fn date_time(input: &[u8]) -> (r: Parsed<Option<DateTime>>)
    ensures
        r@ == spec_date_time(input@),
{
    if input.len() == 0 {
        return Parsed::Incomplete { needed: 1 };
    }
    if input[0] != 0x22 {
        return Parsed::Failed;
    }
    let (u_day, day) = match date_day_fixed(vstd::slice::slice_subrange(input, 1, input.len())) {
        Parsed::Matched { used, val } => (used, val),
        Parsed::Failed => {
            return Parsed::Failed;
        },
        Parsed::Incomplete { needed } => {
            return Parsed::Incomplete { needed };
        },
    };
    let p1 = 1 + u_day;
    if input.len() == p1 {
        return Parsed::Incomplete { needed: 1 };
    }
    if input[p1] != 0x2d {
        return Parsed::Failed;
    }
    let (u_mon, month) = match date_month(vstd::slice::slice_subrange(input, p1 + 1, input.len())) {
        Parsed::Matched { used, val } => (used, val),
        Parsed::Failed => {
            return Parsed::Failed;
        },
        Parsed::Incomplete { needed } => {
            return Parsed::Incomplete { needed };
        },
    };
    proof {
        lemma_month_used(input@.skip(p1 + 1));
    }
    let p2 = p1 + 1 + u_mon;
    if input.len() == p2 {
        return Parsed::Incomplete { needed: 1 };
    }
    if input[p2] != 0x2d {
        return Parsed::Failed;
    }
    let (u_year, year) = match date_year(vstd::slice::slice_subrange(input, p2 + 1, input.len())) {
        Parsed::Matched { used, val } => (used, val),
        Parsed::Failed => {
            return Parsed::Failed;
        },
        Parsed::Incomplete { needed } => {
            return Parsed::Incomplete { needed };
        },
    };
    let p3 = p2 + 1 + u_year;
    if input.len() == p3 {
        return Parsed::Incomplete { needed: 1 };
    }
    if input[p3] != 0x20 {
        return Parsed::Failed;
    }
    let (u_time, time_v) = match time(vstd::slice::slice_subrange(input, p3 + 1, input.len())) {
        Parsed::Matched { used, val } => (used, val),
        Parsed::Failed => {
            return Parsed::Failed;
        },
        Parsed::Incomplete { needed } => {
            return Parsed::Incomplete { needed };
        },
    };
    let p4 = p3 + 1 + u_time;
    if input.len() == p4 {
        return Parsed::Incomplete { needed: 1 };
    }
    if input[p4] != 0x20 {
        return Parsed::Failed;
    }
    let (u_zone, zone_v) = match zone(vstd::slice::slice_subrange(input, p4 + 1, input.len())) {
        Parsed::Matched { used, val } => (used, val),
        Parsed::Failed => {
            return Parsed::Failed;
        },
        Parsed::Incomplete { needed } => {
            return Parsed::Incomplete { needed };
        },
    };
    let p5 = p4 + 1 + u_zone;
    if input.len() == p5 {
        return Parsed::Incomplete { needed: 1 };
    }
    if input[p5] != 0x22 {
        return Parsed::Failed;
    }
    let date_v = Date::new(year, month, day);
    let val: Option<DateTime> = match (date_v, time_v, zone_v) {
        (Some(d), Some(t), Some(z)) => Some(DateTime { date: d, time: t, zone: z }),
        _ => None,
    };
    Parsed::Matched { used: p5 + 1, val }
}

} // verus!
