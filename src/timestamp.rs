//! Timestamps carried in file names, instants as seconds since the Unix
//! epoch (UTC), and their textual labels.
use vstd::prelude::*;
use chrono::TimeZone;
use crate::error::Error;

verus! {

/// Seconds in one day.
pub const SECONDS_PER_DAY: i64 = 86400;

pub open spec fn is_digit(c: char) -> bool {
    '0' as u32 <= c as u32 && c as u32 <= '9' as u32
}

pub open spec fn all_digits(s: Seq<char>) -> bool {
    forall|i: int| 0 <= i < s.len() ==> is_digit(#[trigger] s[i])
}

/// The number written by a sequence of decimal digits.
pub open spec fn digits_value(s: Seq<char>) -> int
    decreases s.len(),
{
    if s.len() == 0 {
        0
    } else {
        10 * digits_value(s.drop_last()) + (s.last() as u32 - '0' as u32)
    }
}

pub open spec fn pow10(n: nat) -> nat
    decreases n,
{
    if n == 0 { 1 } else { 10 * pow10((n - 1) as nat) }
}

pub open spec fn count_underscores(s: Seq<char>) -> nat
    decreases s.len(),
{
    if s.len() == 0 {
        0
    } else {
        count_underscores(s.drop_last()) + if s.last() == '_' { 1nat } else { 0nat }
    }
}

pub open spec fn is_leap_year(y: int) -> bool {
    (y % 4 == 0 && y % 100 != 0) || y % 400 == 0
}

pub open spec fn days_in_month(y: int, m: int) -> int {
    if m == 2 {
        if is_leap_year(y) { 29 } else { 28 }
    } else if m == 4 || m == 6 || m == 9 || m == 11 {
        30
    } else {
        31
    }
}

/// A date of the proleptic Gregorian calendar with a time of day.
pub open spec fn valid_civil(y: int, mo: int, d: int, h: int, mi: int, s: int) -> bool {
    &&& 1 <= mo <= 12
    &&& 1 <= d <= days_in_month(y, mo)
    &&& 0 <= h < 24
    &&& 0 <= mi < 60
    &&& 0 <= s < 60
}

/// Days from 1970-01-01 to a date of the proleptic Gregorian calendar,
/// counted in 400-year eras of 146097 days, each year starting in March.
pub open spec fn days_from_civil(y: int, m: int, d: int) -> int {
    let yp = if m <= 2 { y - 1 } else { y };
    let era = yp / 400;
    let yoe = yp - era * 400;
    let doy = (153 * ((m + 9) % 12) + 2) / 5 + d - 1;
    let doe = yoe * 365 + yoe / 4 - yoe / 100 + doy;
    era * 146097 + doe - 719468
}

/// Seconds since the Unix epoch of a UTC calendar date and time of day.
pub open spec fn utc_seconds_of(y: int, mo: int, d: int, h: int, mi: int, s: int) -> int {
    days_from_civil(y, mo, d) * 86400 + h * 3600 + mi * 60 + s
}

/// The text that chrono's `format` gives for an instant and a pattern.
pub uninterp spec fn utc_formatted(t: int, pattern: Seq<char>) -> Seq<char>;

/// The text that chrono's `Display` gives for a UTC instant.
pub uninterp spec fn utc_display_of(t: int) -> Seq<char>;

/// Relies on chrono's `TimeZone::with_ymd_and_hms` for `Utc` (through
/// `NaiveDate::from_ymd_opt` and `NaiveDate::and_hms_opt`) and on
/// `DateTime::timestamp`: a valid date and time of day gives exactly one
/// instant, its seconds since the epoch without leap seconds; an invalid one
/// gives none. Years 0 to 9999 give instants between 0000-01-01T00:00:00 and
/// 9999-12-31T23:59:59.
#[verifier::external_body]
pub(crate) fn utc_seconds(year: i32, month: u32, day: u32, hour: u32, min: u32, sec: u32) -> (r:
    Option<i64>)
    requires
        0 <= year <= 9999,
    ensures
        r.is_some() == valid_civil(
            year as int,
            month as int,
            day as int,
            hour as int,
            min as int,
            sec as int,
        ),
        r matches Some(t) ==> t == utc_seconds_of(
            year as int,
            month as int,
            day as int,
            hour as int,
            min as int,
            sec as int,
        ),
        r matches Some(t) ==> -62_167_219_200 <= t <= 253_402_300_799,
{
    chrono::Utc.with_ymd_and_hms(year, month, day, hour, min, sec).single().map(|t| t.timestamp())
}

/// Instants that chrono can represent, with room to spare.
pub open spec fn formattable(t: int) -> bool {
    -0x100_0000_0000 <= t <= 0x100_0000_0000
}

pub open spec fn day_first_pattern() -> Seq<char> {
    "%d.%m.%Y, %T"@
}

pub open spec fn year_first_pattern() -> Seq<char> {
    "%Y-%m-%d, %T"@
}

/// Relies on chrono's `DateTime::<Utc>::from_timestamp` (none only for
/// instants beyond about 262000 years from the epoch) and on
/// `DateTime::format` with one of two valid patterns.
#[verifier::external_body]
pub(crate) fn format_utc(t: i64, pattern: &str) -> (r: Option<String>)
    requires
        pattern@ == day_first_pattern() || pattern@ == year_first_pattern(),
    ensures
        r matches Some(s) ==> s@ == utc_formatted(t as int, pattern@),
        formattable(t as int) ==> r.is_some(),
{
    chrono::DateTime::from_timestamp(t, 0).map(|d| d.format(pattern).to_string())
}

/// Relies on chrono's `DateTime::<Utc>::from_timestamp` (none only for
/// instants beyond about 262000 years from the epoch) and on the `Display`
/// impl of `DateTime<Utc>`.
#[verifier::external_body]
pub(crate) fn display_utc(t: i64) -> (r: Option<String>)
    ensures
        r matches Some(s) ==> s@ == utc_display_of(t as int),
        formattable(t as int) ==> r.is_some(),
{
    chrono::DateTime::from_timestamp(t, 0).map(|d| d.to_string())
}

/// The date part `YYYYMMDD` of a well-shaped name.
pub open spec fn date_field(s: Seq<char>) -> Seq<char> {
    s.subrange(s.len() - 15, s.len() - 7)
}

/// The time part `HHMMSS` of a well-shaped name.
pub open spec fn time_field(s: Seq<char>) -> Seq<char> {
    s.subrange(s.len() - 6, s.len() as int)
}

/// Five `_`-separated fields, the fourth of eight digits and the fifth of six.
pub open spec fn well_shaped(s: Seq<char>) -> bool {
    &&& s.len() >= 16
    &&& count_underscores(s) == 4
    &&& s[s.len() - 16] == '_'
    &&& s[s.len() - 7] == '_'
    &&& all_digits(date_field(s))
    &&& all_digits(time_field(s))
}

pub open spec fn name_year(s: Seq<char>) -> int {
    digits_value(date_field(s).subrange(0, 4))
}

pub open spec fn name_month(s: Seq<char>) -> int {
    digits_value(date_field(s).subrange(4, 6))
}

pub open spec fn name_day(s: Seq<char>) -> int {
    digits_value(date_field(s).subrange(6, 8))
}

pub open spec fn name_hour(s: Seq<char>) -> int {
    digits_value(time_field(s).subrange(0, 2))
}

pub open spec fn name_minute(s: Seq<char>) -> int {
    digits_value(time_field(s).subrange(2, 4))
}

pub open spec fn name_second(s: Seq<char>) -> int {
    digits_value(time_field(s).subrange(4, 6))
}

/// `DD.MM.YYYY, HH:MM:SS`, taken from the digits of the name.
pub open spec fn name_label(s: Seq<char>) -> Seq<char> {
    let d = date_field(s);
    let t = time_field(s);
    d.subrange(6, 8) + seq!['.'] + d.subrange(4, 6) + seq!['.'] + d.subrange(0, 4) + seq![
        ',',
        ' ',
    ] + t.subrange(0, 2) + seq![':'] + t.subrange(2, 4) + seq![':'] + t.subrange(4, 6)
}

/// What a file name says: its instant and its label, or nothing when it is
/// malformed.
pub open spec fn parsed_name(s: Seq<char>) -> Option<(int, Seq<char>)> {
    if well_shaped(s) && valid_civil(
        name_year(s),
        name_month(s),
        name_day(s),
        name_hour(s),
        name_minute(s),
        name_second(s),
    ) {
        Some(
            (
                utc_seconds_of(
                    name_year(s),
                    name_month(s),
                    name_day(s),
                    name_hour(s),
                    name_minute(s),
                    name_second(s),
                ),
                name_label(s),
            ),
        )
    } else {
        None
    }
}

proof fn lemma_digits_step(s: Seq<char>, k: nat)
    requires
        s.len() > 0,
        all_digits(s),
        digits_value(s.drop_last()) < pow10(k),
    ensures
        digits_value(s) < pow10(k + 1),
{
    let v = digits_value(s.drop_last());
    assert(is_digit(s[s.len() - 1]));
    assert(10 * v <= 10 * (pow10(k) - 1)) by (nonlinear_arith)
        requires
            v <= pow10(k) - 1,
    ;
}

/// The number written by the digits `name[from..to]`.
fn digits_at(name: &str, from: usize, to: usize) -> (v: u32)
    requires
        from <= to <= name@.len(),
        to - from <= 4,
        all_digits(name@.subrange(from as int, to as int)),
    ensures
        v == digits_value(name@.subrange(from as int, to as int)),
        v < 10000,
{
    let mut v: u32 = 0;
    let mut i: usize = from;
    assert(pow10(4) == 10000) by {
        reveal_with_fuel(pow10, 5);
    }
    while i < to
        invariant
            from <= i <= to <= name@.len(),
            to - from <= 4,
            all_digits(name@.subrange(from as int, to as int)),
            v == digits_value(name@.subrange(from as int, i as int)),
            v < pow10((i - from) as nat),
            pow10(4) == 10000,
        decreases to - i,
    {
        let c = name.get_char(i);
        let ghost prev = name@.subrange(from as int, i as int);
        let ghost next = name@.subrange(from as int, i + 1);
        assert(next.drop_last() =~= prev);
        assert(next[i - from] == name@.subrange(from as int, to as int)[i - from]);
        assert(all_digits(next));
        proof {
            lemma_digits_step(next, (i - from) as nat);
            lemma_pow10_mono((i + 1 - from) as nat, 4);
        }
        v = 10 * v + (c as u32 - '0' as u32);
        i = i + 1;
    }
    proof {
        lemma_pow10_mono((to - from) as nat, 4);
    }
    v
}

proof fn lemma_pow10_mono(a: nat, b: nat)
    requires
        a <= b,
    ensures
        pow10(a) <= pow10(b),
    decreases b - a,
{
    if a < b {
        lemma_pow10_mono(a, (b - 1) as nat);
    }
}

/// Whether every character of `name[from..to]` is a decimal digit.
fn digits_in(name: &str, from: usize, to: usize) -> (r: bool)
    requires
        from <= to <= name@.len(),
    ensures
        r == all_digits(name@.subrange(from as int, to as int)),
{
    let mut i: usize = from;
    while i < to
        invariant
            from <= i <= to <= name@.len(),
            all_digits(name@.subrange(from as int, i as int)),
        decreases to - i,
    {
        let c = name.get_char(i);
        if !((c as u32) >= ('0' as u32) && (c as u32) <= ('9' as u32)) {
            assert(name@.subrange(from as int, to as int)[i - from] == c);
            return false;
        }
        assert forall|j: int| 0 <= j < i + 1 - from implies is_digit(
            #[trigger] name@.subrange(from as int, i + 1)[j],
        ) by {
            if j < i - from {
                assert(name@.subrange(from as int, i + 1)[j] == name@.subrange(
                    from as int,
                    i as int,
                )[j]);
            }
        }
        i = i + 1;
    }
    true
}

/// How many `_` the name holds.
fn underscores(name: &str) -> (n: usize)
    ensures
        n == count_underscores(name@),
{
    let len = name.unicode_len();
    let mut n: usize = 0;
    let mut i: usize = 0;
    while i < len
        invariant
            len == name@.len(),
            i <= len,
            n <= i,
            n == count_underscores(name@.take(i as int)),
        decreases len - i,
    {
        assert(name@.take(i + 1).drop_last() =~= name@.take(i as int));
        if name.get_char(i) == '_' {
            n = n + 1;
        }
        i = i + 1;
    }
    assert(name@.take(len as int) =~= name@);
    n
}

fn malformed(name: &str) -> (e: Error)
    ensures
        e matches Error::MalformedName(n) && n@ == name@,
{
    Error::MalformedName(name.to_string())
}

/// Reads the instant and the label `DD.MM.YYYY, HH:MM:SS` from a file name
/// (without directory or extension) of the shape
/// `<a>_<b>_<c>_YYYYMMDD_HHMMSS`, taken as UTC.
pub fn parse_date(name: &str) -> (r: Result<(i64, String), Error>)
    ensures
        match r {
            Ok((t, label)) => parsed_name(name@) == Some((t as int, label@)),
            Err(e) => parsed_name(name@) is None && (e matches Error::MalformedName(n) && n@
                == name@),
        },
{
    let len = name.unicode_len();
    if len < 16 || underscores(name) != 4 {
        return Err(malformed(name));
    }
    if name.get_char(len - 16) != '_' || name.get_char(len - 7) != '_' {
        return Err(malformed(name));
    }
    if !digits_in(name, len - 15, len - 7) || !digits_in(name, len - 6, len) {
        return Err(malformed(name));
    }
    let ghost s = name@;
    proof {
        assert forall|i: int| 0 <= i < 8 implies is_digit(#[trigger] date_field(s)[i]) by {}
        assert(date_field(s).subrange(0, 4) =~= s.subrange(len - 15, len - 11));
        assert(date_field(s).subrange(4, 6) =~= s.subrange(len - 11, len - 9));
        assert(date_field(s).subrange(6, 8) =~= s.subrange(len - 9, len - 7));
        assert(time_field(s).subrange(0, 2) =~= s.subrange(len - 6, len - 4));
        assert(time_field(s).subrange(2, 4) =~= s.subrange(len - 4, len - 2));
        assert(time_field(s).subrange(4, 6) =~= s.subrange(len - 2, len as int));
        assert forall|a: int, b: int|
            len - 15 <= a <= b <= len - 7 implies all_digits(#[trigger] s.subrange(a, b)) by {
            assert forall|i: int| 0 <= i < b - a implies is_digit(
                #[trigger] s.subrange(a, b)[i],
            ) by {
                assert(s.subrange(a, b)[i] == date_field(s)[a + i - (len - 15)]);
            }
        }
        assert forall|a: int, b: int|
            len - 6 <= a <= b <= len implies all_digits(#[trigger] s.subrange(a, b)) by {
            assert forall|i: int| 0 <= i < b - a implies is_digit(
                #[trigger] s.subrange(a, b)[i],
            ) by {
                assert(s.subrange(a, b)[i] == time_field(s)[a + i - (len - 6)]);
            }
        }
    }
    let year = digits_at(name, len - 15, len - 11);
    let month = digits_at(name, len - 11, len - 9);
    let day = digits_at(name, len - 9, len - 7);
    let hour = digits_at(name, len - 6, len - 4);
    let minute = digits_at(name, len - 4, len - 2);
    let second = digits_at(name, len - 2, len);
    match utc_seconds(year as i32, month, day, hour, minute, second) {
        None => Err(malformed(name)),
        Some(t) => {
            let mut label = String::new();
            label.append(name.substring_char(len - 9, len - 7));
            label.append(".");
            label.append(name.substring_char(len - 11, len - 9));
            label.append(".");
            label.append(name.substring_char(len - 15, len - 11));
            label.append(", ");
            label.append(name.substring_char(len - 6, len - 4));
            label.append(":");
            label.append(name.substring_char(len - 4, len - 2));
            label.append(":");
            label.append(name.substring_char(len - 2, len));
            proof {
                reveal_strlit(".");
                reveal_strlit(", ");
                reveal_strlit(":");
                assert(label@ =~= name_label(s));
            }
            Ok((t, label))
        },
    }
}

/// Seconds since midnight, UTC, of an instant.
pub open spec fn seconds_of_day(t: int) -> int {
    t % (SECONDS_PER_DAY as int)
}

/// Night is from `night_start` (inclusive) to `night_end` (exclusive), both
/// in seconds since midnight; when the window wraps past midnight it is the
/// union of the two halves of the day.
pub open spec fn in_night(t: int, night_start: int, night_end: int) -> bool {
    seconds_of_day(t) >= night_start || seconds_of_day(t) < night_end
}

pub fn time_of_day(t: i64) -> (r: i64)
    ensures
        r == seconds_of_day(t as int),
        0 <= r < SECONDS_PER_DAY,
{
    let r = t % SECONDS_PER_DAY;
    if r < 0 {
        r + SECONDS_PER_DAY
    } else {
        r
    }
}

/// Whether an instant falls in the night window.
pub fn is_night(t: i64, night_start: u32, night_end: u32) -> (r: bool)
    ensures
        r == in_night(t as int, night_start as int, night_end as int),
{
    let s = time_of_day(t);
    s >= night_start as i64 || s < night_end as i64
}

/// With equal bounds the night window covers the whole day.
pub proof fn lemma_equal_bounds_all_night(t: int, bound: int)
    ensures
        in_night(t, bound, bound),
{
}

/// Within a day, an instant is the day's midnight plus the seconds of its
/// time of day.
pub proof fn lemma_time_of_day_offset(y: int, mo: int, d: int, h: int, mi: int, s: int)
    ensures
        utc_seconds_of(y, mo, d, h, mi, s) == utc_seconds_of(y, mo, d, 0, 0, 0) + h * 3600 + mi
            * 60 + s,
{
}

} // verus!
