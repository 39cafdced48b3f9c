use vstd::prelude::*;

use crate::text::{digit_char, digit_of, push_char};

verus! {

/// Leap years of the proleptic Gregorian calendar.
pub open spec fn is_leap_year(year: int) -> bool {
    year % 4 == 0 && (year % 100 != 0 || year % 400 == 0)
}

/// The number of days of a month (1 to 12) of the given year.
pub open spec fn days_in_month(year: int, month: int) -> int {
    if month == 2 {
        if is_leap_year(year) {
            29
        } else {
            28
        }
    } else if month == 4 || month == 6 || month == 9 || month == 11 {
        30
    } else {
        31
    }
}

/// Relies on time::util::days_in_month: the length of a month of the proleptic
/// Gregorian calendar.
#[verifier::external_body]
fn month_length(year: u16, month: u8) -> (r: u8)
    requires
        1 <= month <= 12,
        year <= 9999,
    ensures
        r == days_in_month(year as int, month as int),
{
    time::util::days_in_month(time::Month::try_from(month).unwrap(), year as i32)
}

/// The largest distance from UTC, in minutes, that an offset may have
/// (25 hours and 59 minutes).
pub const MAX_OFFSET_MINUTES: i16 = 1559;

/// The number of characters of a timestamp in display form.
pub const DISPLAY_LEN: usize = 31;

/// A point in time, to the second, with the offset from UTC at which it was read.
#[derive(Clone, Copy, Debug, PartialEq, Eq, Structural)]
pub struct Time {
    pub year: u16,
    pub month: u8,
    pub day: u8,
    pub hour: u8,
    pub minute: u8,
    pub second: u8,
    /// Minutes east of UTC (negative to the west).
    pub offset_minutes: i16,
}

/// The layout of the display form `MM-DD-YYYY HH:MM:SS (UTC+HH:MM)`: `'0'` marks a
/// digit, `'+'` the sign of the offset, any other character stands for itself.
pub open spec fn display_pattern(k: int) -> char {
    if k == 2 || k == 5 {
        '-'
    } else if k == 10 || k == 19 {
        ' '
    } else if k == 13 || k == 16 || k == 27 {
        ':'
    } else if k == 20 {
        '('
    } else if k == 21 {
        'U'
    } else if k == 22 {
        'T'
    } else if k == 23 {
        'C'
    } else if k == 24 {
        '+'
    } else if k == 30 {
        ')'
    } else {
        '0'
    }
}

fn display_pattern_at(k: usize) -> (c: char)
    ensures
        c == display_pattern(k as int),
{
    if k == 2 || k == 5 {
        '-'
    } else if k == 10 || k == 19 {
        ' '
    } else if k == 13 || k == 16 || k == 27 {
        ':'
    } else if k == 20 {
        '('
    } else if k == 21 {
        'U'
    } else if k == 22 {
        'T'
    } else if k == 23 {
        'C'
    } else if k == 24 {
        '+'
    } else if k == 30 {
        ')'
    } else {
        '0'
    }
}

pub open spec fn abs_offset(t: Time) -> int {
    if t.offset_minutes < 0 {
        -t.offset_minutes
    } else {
        t.offset_minutes as int
    }
}

/// The digit that the display form of `t` holds at position `k`, where
/// `display_pattern(k) == '0'`.
pub open spec fn display_digit(t: Time, k: int) -> int {
    let off_h = abs_offset(t) / 60;
    let off_m = abs_offset(t) % 60;
    if k == 0 {
        (t.month as int) / 10
    } else if k == 1 {
        (t.month as int) % 10
    } else if k == 3 {
        (t.day as int) / 10
    } else if k == 4 {
        (t.day as int) % 10
    } else if k == 6 {
        (t.year as int) / 1000
    } else if k == 7 {
        (t.year as int) / 100 % 10
    } else if k == 8 {
        (t.year as int) / 10 % 10
    } else if k == 9 {
        (t.year as int) % 10
    } else if k == 11 {
        (t.hour as int) / 10
    } else if k == 12 {
        (t.hour as int) % 10
    } else if k == 14 {
        (t.minute as int) / 10
    } else if k == 15 {
        (t.minute as int) % 10
    } else if k == 17 {
        (t.second as int) / 10
    } else if k == 18 {
        (t.second as int) % 10
    } else if k == 25 {
        off_h / 10
    } else if k == 26 {
        off_h % 10
    } else if k == 28 {
        off_m / 10
    } else {
        off_m % 10
    }
}

/// Character `k` of the display form of `t`.
pub open spec fn display_char(t: Time, k: int) -> char {
    let p = display_pattern(k);
    if p == '0' {
        digit_char(display_digit(t, k))
    } else if p == '+' {
        if t.offset_minutes < 0 {
            '-'
        } else {
            '+'
        }
    } else {
        p
    }
}

/// The display form `MM-DD-YYYY HH:MM:SS (UTC+HH:MM)` of `t`.
pub open spec fn display_text(t: Time) -> Seq<char> {
    Seq::new(DISPLAY_LEN as nat, |k: int| display_char(t, k))
}

pub open spec fn is_digit(c: char) -> bool {
    '0' <= c && c <= '9'
}

pub open spec fn digit_value(c: char) -> int {
    c as int - 48
}

/// Whether `s` has the layout of the display form, digits and sign included,
/// whatever the values.
pub open spec fn display_shape(s: Seq<char>) -> bool {
    &&& s.len() == DISPLAY_LEN
    &&& forall|k: int|
        0 <= k < DISPLAY_LEN ==> {
            let p = #[trigger] display_pattern(k);
            if p == '0' {
                is_digit(s[k])
            } else if p == '+' {
                s[k] == '+' || s[k] == '-'
            } else {
                s[k] == p
            }
        }
}

pub open spec fn two_digits(s: Seq<char>, k: int) -> int {
    digit_value(s[k]) * 10 + digit_value(s[k + 1])
}

/// The fields that a text of display shape writes, whether or not they make a valid time.
pub open spec fn display_fields(s: Seq<char>) -> Time {
    let off = two_digits(s, 25) * 60 + two_digits(s, 28);
    Time {
        year: (two_digits(s, 6) * 100 + two_digits(s, 8)) as u16,
        month: two_digits(s, 0) as u8,
        day: two_digits(s, 3) as u8,
        hour: two_digits(s, 11) as u8,
        minute: two_digits(s, 14) as u8,
        second: two_digits(s, 17) as u8,
        offset_minutes: (if s[24] == '-' {
            -off
        } else {
            off
        }) as i16,
    }
}

/// The time that a display form denotes, if it has the shape, its offset minutes are
/// below 60, and it names a valid time.
pub open spec fn parse_display_spec(s: Seq<char>) -> Option<Time> {
    if display_shape(s) && two_digits(s, 28) < 60 && display_fields(s).wf() {
        Some(display_fields(s))
    } else {
        None
    }
}

impl Time {
    /// A valid calendar date from year 0 to 9999, a valid time of day, and an
    /// offset of at most 25 hours and 59 minutes.
    pub open spec fn wf(self) -> bool {
        &&& self.year <= 9999
        &&& 1 <= self.month <= 12
        &&& 1 <= self.day <= days_in_month(self.year as int, self.month as int)
        &&& self.hour < 24
        &&& self.minute < 60
        &&& self.second < 60
        &&& -MAX_OFFSET_MINUTES <= self.offset_minutes <= MAX_OFFSET_MINUTES
    }

    /// The time with these fields, if they make a valid one.
    pub fn new(
        year: u16,
        month: u8,
        day: u8,
        hour: u8,
        minute: u8,
        second: u8,
        offset_minutes: i16,
    ) -> (r: Option<Time>)
        ensures
            r == (if (Time { year, month, day, hour, minute, second, offset_minutes }).wf() {
                Some(Time { year, month, day, hour, minute, second, offset_minutes })
            } else {
                None
            }),
    {
        let t = Time { year, month, day, hour, minute, second, offset_minutes };
        if year > 9999 || month < 1 || month > 12 || hour >= 24 || minute >= 60 || second >= 60
            || offset_minutes < -MAX_OFFSET_MINUTES || offset_minutes > MAX_OFFSET_MINUTES {
            return None;
        }
        if day < 1 || day > month_length(year, month) {
            return None;
        }
        Some(t)
    }

    fn display_digit_at(&self, k: usize) -> (d: u8)
        requires
            self.wf(),
            k < DISPLAY_LEN,
        ensures
            d == display_digit(*self, k as int),
            d < 10,
    {
        let abs: u16 = if self.offset_minutes < 0 {
            (-self.offset_minutes) as u16
        } else {
            self.offset_minutes as u16
        };
        let off_h = (abs / 60) as u8;
        let off_m = (abs % 60) as u8;
        if k == 0 {
            self.month / 10
        } else if k == 1 {
            self.month % 10
        } else if k == 3 {
            self.day / 10
        } else if k == 4 {
            self.day % 10
        } else if k == 6 {
            (self.year / 1000) as u8
        } else if k == 7 {
            (self.year / 100 % 10) as u8
        } else if k == 8 {
            (self.year / 10 % 10) as u8
        } else if k == 9 {
            (self.year % 10) as u8
        } else if k == 11 {
            self.hour / 10
        } else if k == 12 {
            self.hour % 10
        } else if k == 14 {
            self.minute / 10
        } else if k == 15 {
            self.minute % 10
        } else if k == 17 {
            self.second / 10
        } else if k == 18 {
            self.second % 10
        } else if k == 25 {
            off_h / 10
        } else if k == 26 {
            off_h % 10
        } else if k == 28 {
            off_m / 10
        } else {
            off_m % 10
        }
    }

    /// Appends the display form of this time to `s`.
    pub(crate) fn push_display(&self, s: &mut String)
        requires
            self.wf(),
        ensures
            final(s)@ == old(s)@ + display_text(*self),
    {
        let ghost s0 = s@;
        let mut k: usize = 0;
        while k < DISPLAY_LEN
            invariant
                self.wf(),
                k <= DISPLAY_LEN,
                s@ == s0 + display_text(*self).take(k as int),
            decreases DISPLAY_LEN - k,
        {
            let p = display_pattern_at(k);
            let c = if p == '0' {
                digit_of(self.display_digit_at(k))
            } else if p == '+' {
                if self.offset_minutes < 0 {
                    '-'
                } else {
                    '+'
                }
            } else {
                p
            };
            push_char(s, c);
            k = k + 1;
            assert(s@ =~= s0 + display_text(*self).take(k as int));
        }
        assert(display_text(*self).take(DISPLAY_LEN as int) =~= display_text(*self));
    }

    /// The display form `MM-DD-YYYY HH:MM:SS (UTC+HH:MM)` of this time.
    pub fn display(&self) -> (r: String)
        requires
            self.wf(),
        ensures
            r@ == display_text(*self),
    {
        let mut s = String::new();
        self.push_display(&mut s);
        s
    }
}


/// Whether the characters of `cs` from `i` on have the layout of the display form.
pub(crate) fn display_shape_at(cs: &Vec<char>, i: usize) -> (r: bool)
    requires
        i + DISPLAY_LEN <= cs.len(),
    ensures
        r == display_shape(cs@.subrange(i as int, i + DISPLAY_LEN)),
{
    let ghost s = cs@.subrange(i as int, i + DISPLAY_LEN);
    let mut k: usize = 0;
    while k < DISPLAY_LEN
        invariant
            i + DISPLAY_LEN <= cs.len(),
            k <= DISPLAY_LEN,
            s == cs@.subrange(i as int, i + DISPLAY_LEN),
            forall|j: int|
                0 <= j < k ==> {
                    let p = #[trigger] display_pattern(j);
                    if p == '0' {
                        is_digit(s[j])
                    } else if p == '+' {
                        s[j] == '+' || s[j] == '-'
                    } else {
                        s[j] == p
                    }
                },
        decreases DISPLAY_LEN - k,
    {
        let p = display_pattern_at(k);
        let c = cs[i + k];
        assert(c == s[k as int]);
        let ok = if p == '0' {
            '0' <= c && c <= '9'
        } else if p == '+' {
            c == '+' || c == '-'
        } else {
            c == p
        };
        if !ok {
            assert(!display_shape(s)) by {
                assert(display_pattern(k as int) == p);
            }
            return false;
        }
        k = k + 1;
    }
    true
}

fn digit_value_at(cs: &Vec<char>, j: usize) -> (d: u8)
    requires
        j < cs@.len(),
        is_digit(cs@[j as int]),
    ensures
        d == digit_value(cs@[j as int]),
        d < 10,
{
    ((cs[j] as u32) - 48) as u8
}

fn two_digits_at(cs: &Vec<char>, j: usize) -> (d: u8)
    requires
        j + 1 < cs.len(),
        is_digit(cs@[j as int]),
        is_digit(cs@[j + 1]),
    ensures
        d == two_digits(cs@, j as int),
        d < 100,
{
    digit_value_at(cs, j) * 10 + digit_value_at(cs, j + 1)
}

/// The time written from `i` on in display form, if the layout and the values are right.
pub(crate) fn parse_display_at(cs: &Vec<char>, i: usize) -> (r: Option<Time>)
    requires
        i + DISPLAY_LEN <= cs.len(),
    ensures
        r == parse_display_spec(cs@.subrange(i as int, i + DISPLAY_LEN)),
{
    let ghost s = cs@.subrange(i as int, i + DISPLAY_LEN);
    if !display_shape_at(cs, i) {
        return None;
    }
    assert forall|k: int| 0 <= k < DISPLAY_LEN && display_pattern(k) == '0' implies is_digit(
        cs@[i + k],
    ) by {
        assert(s[k] == cs@[i + k]);
    }
    assert(display_pattern(0) == '0' && display_pattern(1) == '0' && display_pattern(3) == '0'
        && display_pattern(4) == '0' && display_pattern(6) == '0' && display_pattern(7) == '0'
        && display_pattern(8) == '0' && display_pattern(9) == '0' && display_pattern(11) == '0'
        && display_pattern(12) == '0' && display_pattern(14) == '0' && display_pattern(15) == '0'
        && display_pattern(17) == '0' && display_pattern(18) == '0' && display_pattern(25) == '0'
        && display_pattern(26) == '0' && display_pattern(28) == '0' && display_pattern(29) == '0');
    let month = two_digits_at(cs, i);
    let day = two_digits_at(cs, i + 3);
    let year = two_digits_at(cs, i + 6) as u16 * 100 + two_digits_at(cs, i + 8) as u16;
    let hour = two_digits_at(cs, i + 11);
    let minute = two_digits_at(cs, i + 14);
    let second = two_digits_at(cs, i + 17);
    let off_minutes = two_digits_at(cs, i + 28);
    if off_minutes >= 60 {
        assert(two_digits(cs@, i + 28) == two_digits(s, 28));
        return None;
    }
    let off = two_digits_at(cs, i + 25) as i16 * 60 + off_minutes as i16;
    let offset_minutes = if cs[i + 24] == '-' {
        -off
    } else {
        off
    };
    proof {
        assert(two_digits(cs@, i as int) == two_digits(s, 0));
        assert(two_digits(cs@, i + 3) == two_digits(s, 3));
        assert(two_digits(cs@, i + 6) == two_digits(s, 6));
        assert(two_digits(cs@, i + 8) == two_digits(s, 8));
        assert(two_digits(cs@, i + 11) == two_digits(s, 11));
        assert(two_digits(cs@, i + 14) == two_digits(s, 14));
        assert(two_digits(cs@, i + 17) == two_digits(s, 17));
        assert(two_digits(cs@, i + 25) == two_digits(s, 25));
        assert(two_digits(cs@, i + 28) == two_digits(s, 28));
        assert(cs@[i + 24] == s[24]);
    }
    Time::new(year, month, day, hour, minute, second, offset_minutes)
}

/// A valid time read back from its display form is the time itself.
pub proof fn lemma_display_round_trip(t: Time)
    requires
        t.wf(),
    ensures
        display_shape(display_text(t)),
        parse_display_spec(display_text(t)) == Some(t),
{
    let s = display_text(t);
    assert forall|k: int| 0 <= k < DISPLAY_LEN && display_pattern(k) == '0' implies is_digit(s[k])
        && digit_value(s[k]) == display_digit(t, k) by {
        assert(0 <= display_digit(t, k) < 10);
    }
    assert(display_pattern(0) == '0' && display_pattern(1) == '0' && display_pattern(3) == '0'
        && display_pattern(4) == '0' && display_pattern(6) == '0' && display_pattern(7) == '0'
        && display_pattern(8) == '0' && display_pattern(9) == '0' && display_pattern(11) == '0'
        && display_pattern(12) == '0' && display_pattern(14) == '0' && display_pattern(15) == '0'
        && display_pattern(17) == '0' && display_pattern(18) == '0' && display_pattern(25) == '0'
        && display_pattern(26) == '0' && display_pattern(28) == '0' && display_pattern(29) == '0');
    let y = t.year as int;
    assert((y / 1000 * 10 + y / 100 % 10) * 100 + (y / 10 % 10 * 10 + y % 10) == y) by (nonlinear_arith)
        requires 0 <= y <= 9999;
    let f = display_fields(s);
    assert(f.year == t.year);
    assert(f.month == t.month);
    assert(f.day == t.day);
    assert(f.hour == t.hour);
    assert(f.minute == t.minute);
    assert(f.second == t.second);
    assert(f.offset_minutes == t.offset_minutes);
    assert(f == t);
}

impl Time {
    /// The time that `s` writes in display form `MM-DD-YYYY HH:MM:SS (UTC+HH:MM)`, if it
    /// is exactly that and names a valid time.
    pub fn parse_display(s: &str) -> (r: Option<Time>)
        ensures
            r == parse_display_spec(s@),
    {
        let cs = crate::text::chars_of(s);
        if cs.len() != DISPLAY_LEN {
            return None;
        }
        assert(cs@.subrange(0, DISPLAY_LEN as int) =~= cs@);
        parse_display_at(&cs, 0)
    }
}


/// The instant that a valid time denotes, in seconds since 1970-01-01 00:00:00 UTC.
pub uninterp spec fn unix_seconds_of(t: Time) -> int;

/// Relies on time's `OffsetDateTime::unix_timestamp`, applied to the date, time of day
/// and offset of `t`: the seconds since the Unix epoch.
#[verifier::external_body]
fn unix_seconds(t: &Time) -> (r: i64)
    requires
        t.wf(),
    ensures
        r == unix_seconds_of(*t),
{
    let month = time::Month::try_from(t.month).unwrap();
    let date = time::Date::from_calendar_date(t.year as i32, month, t.day).unwrap();
    let offset = time::UtcOffset::from_whole_seconds(t.offset_minutes as i32 * 60).unwrap();
    date.with_hms(t.hour, t.minute, t.second).unwrap().assume_offset(offset).unix_timestamp()
}

/// The seconds from `start` to `end` (negative when `end` comes first).
pub open spec fn elapsed_spec(start: Time, end: Time) -> int {
    unix_seconds_of(end) - unix_seconds_of(start)
}

/// The whole seconds from `start` to `end`, negative when `end` comes first.
pub fn elapsed_seconds(start: &Time, end: &Time) -> (r: i128)
    requires
        start.wf(),
        end.wf(),
    ensures
        r == elapsed_spec(*start, *end),
        -(u64::MAX as int) <= r <= u64::MAX as int,
{
    unix_seconds(end) as i128 - unix_seconds(start) as i128
}


/// The year, month, day, hour, minute and second at UTC of the instant that a valid
/// time denotes, if that date lies in the range of years that the conversion supports.
pub uninterp spec fn utc_of(t: Time) -> Option<(i32, u8, u8, u8, u8, u8)>;

/// Relies on time's `OffsetDateTime::checked_to_offset` with `UtcOffset::UTC`: the same
/// instant read at UTC, or `None` out of range; a time already at UTC is kept as it is.
#[verifier::external_body]
pub(crate) fn utc_fields(t: &Time) -> (r: Option<(i32, u8, u8, u8, u8, u8)>)
    requires
        t.wf(),
    ensures
        r == utc_of(*t),
        t.offset_minutes == 0 ==> r == Some(
            (t.year as i32, t.month, t.day, t.hour, t.minute, t.second),
        ),
{
    let month = time::Month::try_from(t.month).unwrap();
    let date = time::Date::from_calendar_date(t.year as i32, month, t.day).unwrap();
    let offset = time::UtcOffset::from_whole_seconds(t.offset_minutes as i32 * 60).unwrap();
    let at = date.with_hms(t.hour, t.minute, t.second).unwrap().assume_offset(offset);
    at.checked_to_offset(time::UtcOffset::UTC).map(
        |u| (u.year(), u.month() as u8, u.day(), u.hour(), u.minute(), u.second()),
    )
}


/// The week of the year of a valid time's date, counted from the first Sunday (0 to 53).
pub uninterp spec fn sunday_week_of(t: Time) -> int;

/// Relies on time's `OffsetDateTime::sunday_based_week`: the week number of the date
/// in the time's own offset, weeks starting on Sunday.
#[verifier::external_body]
pub(crate) fn sunday_week(t: &Time) -> (r: u8)
    requires
        t.wf(),
    ensures
        r == sunday_week_of(*t),
{
    let month = time::Month::try_from(t.month).unwrap();
    let date = time::Date::from_calendar_date(t.year as i32, month, t.day).unwrap();
    let offset = time::UtcOffset::from_whole_seconds(t.offset_minutes as i32 * 60).unwrap();
    date.with_hms(t.hour, t.minute, t.second).unwrap().assume_offset(offset).sunday_based_week()
}

} // verus!
