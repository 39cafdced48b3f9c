use vstd::prelude::*;

use crate::log::{completed_wf, Session};
use crate::text::{digit_char, digit_of, push_char};
use crate::time::{elapsed_seconds, elapsed_spec, utc_fields, utc_of};

verus! {

/// One exported row: the start and end at UTC, the elapsed hours, minutes below an
/// hour and seconds below a minute, and the message.
#[derive(Clone, Debug)]
pub struct CsvRow {
    pub utc_start: String,
    pub utc_end: String,
    pub hours: i128,
    pub minutes: i128,
    pub seconds: i128,
    pub message: String,
}

/// Division that rounds toward zero.
pub open spec fn div_toward_zero(a: int, b: int) -> int {
    if a >= 0 {
        a / b
    } else {
        -((-a) / b)
    }
}

/// The remainder that goes with `div_toward_zero`, of the sign of `a`.
pub open spec fn rem_toward_zero(a: int, b: int) -> int {
    a - b * div_toward_zero(a, b)
}

pub open spec fn two_digit_text(n: int) -> Seq<char> {
    seq![digit_char(n / 10), digit_char(n % 10)]
}

/// A year as four digits, after `-` when it is negative.
pub open spec fn year_text(y: int) -> Seq<char> {
    let a = if y < 0 {
        -y
    } else {
        y
    };
    (if y < 0 {
        seq!['-']
    } else {
        Seq::empty()
    }) + seq![digit_char(a / 1000), digit_char(a / 100 % 10), digit_char(a / 10 % 10), digit_char(a % 10)]
}

/// `YYYY-MM-DDTHH:MM:SS`
pub open spec fn csv_timestamp(f: (i32, u8, u8, u8, u8, u8)) -> Seq<char> {
    year_text(f.0 as int) + seq!['-'] + two_digit_text(f.1 as int) + seq!['-'] + two_digit_text(
        f.2 as int,
    ) + seq!['T'] + two_digit_text(f.3 as int) + seq![':'] + two_digit_text(f.4 as int) + seq![':']
        + two_digit_text(f.5 as int)
}

pub open spec fn fits_csv(f: (i32, u8, u8, u8, u8, u8)) -> bool {
    -9999 <= f.0 <= 9999 && f.1 < 100 && f.2 < 100 && f.3 < 100 && f.4 < 100 && f.5 < 100
}

fn push_two(s: &mut String, n: u8)
    requires
        n < 100,
    ensures
        final(s)@ == old(s)@ + two_digit_text(n as int),
{
    let ghost s0 = s@;
    push_char(s, digit_of(n / 10));
    push_char(s, digit_of(n % 10));
    assert(s@ =~= s0 + two_digit_text(n as int));
}

/// `YYYY-MM-DDTHH:MM:SS` for a year, month, day, hour, minute and second.
pub fn format_csv_timestamp(f: (i32, u8, u8, u8, u8, u8)) -> (r: String)
    requires
        fits_csv(f),
    ensures
        r@ == csv_timestamp(f),
{
    let mut s = String::new();
    let y = f.0;
    if y < 0 {
        push_char(&mut s, '-');
    }
    let a: u16 = if y < 0 {
        (-y) as u16
    } else {
        y as u16
    };
    push_char(&mut s, digit_of((a / 1000) as u8));
    push_char(&mut s, digit_of((a / 100 % 10) as u8));
    push_char(&mut s, digit_of((a / 10 % 10) as u8));
    push_char(&mut s, digit_of((a % 10) as u8));
    assert(s@ =~= year_text(y as int));
    push_char(&mut s, '-');
    push_two(&mut s, f.1);
    push_char(&mut s, '-');
    push_two(&mut s, f.2);
    push_char(&mut s, 'T');
    push_two(&mut s, f.3);
    push_char(&mut s, ':');
    push_two(&mut s, f.4);
    push_char(&mut s, ':');
    push_two(&mut s, f.5);
    assert(s@ =~= csv_timestamp(f));
    s
}

/// Whole hours, minutes below an hour and seconds below a minute of a span of
/// `secs` seconds, each rounded toward zero and of the sign of `secs`.
pub fn split_elapsed(secs: i128) -> (r: (i128, i128, i128))
    ensures
        r.0 == div_toward_zero(secs as int, 3600),
        r.1 == rem_toward_zero(div_toward_zero(secs as int, 60), 60),
        r.2 == rem_toward_zero(secs as int, 60),
{
    let magnitude: u128 = if secs < 0 {
        (-(secs + 1)) as u128 + 1
    } else {
        secs as u128
    };
    let (h, m, s) = (
        (magnitude / 3600) as i128,
        (magnitude / 60 % 60) as i128,
        (magnitude % 60) as i128,
    );
    if secs < 0 {
        (-h, -m, -s)
    } else {
        (h, m, s)
    }
}

/// The exported row of a completed session, with both ends read at UTC; `None` when
/// one of them falls outside the years that the conversion or four digits can hold.
pub fn csv_row(session: &Session) -> (r: Option<CsvRow>)
    requires
        completed_wf(session@),
    ensures
        r is Some <== (utc_of(session.start) is Some && utc_of(session.end->0) is Some
            && fits_csv(utc_of(session.start)->0) && fits_csv(utc_of(session.end->0)->0)),
        r is Some ==> ({
            let row = r->0;
            let secs = elapsed_spec(session.start, session.end->0);
            &&& utc_of(session.start) is Some
            &&& utc_of(session.end->0) is Some
            &&& row.utc_start@ == csv_timestamp(utc_of(session.start)->0)
            &&& row.utc_end@ == csv_timestamp(utc_of(session.end->0)->0)
            &&& row.hours == div_toward_zero(secs, 3600)
            &&& row.minutes == rem_toward_zero(div_toward_zero(secs, 60), 60)
            &&& row.seconds == rem_toward_zero(secs, 60)
            &&& row.message@ == session.message->0@
        }),
{
    let end = session.end.unwrap();
    let (start_utc, end_utc) = match (utc_fields(&session.start), utc_fields(&end)) {
        (Some(a), Some(b)) => (a, b),
        _ => {
            return None;
        },
    };
    if start_utc.0 < -9999 || start_utc.0 > 9999 || start_utc.1 >= 100 || start_utc.2 >= 100
        || start_utc.3 >= 100 || start_utc.4 >= 100 || start_utc.5 >= 100 || end_utc.0 < -9999
        || end_utc.0 > 9999 || end_utc.1 >= 100 || end_utc.2 >= 100 || end_utc.3 >= 100
        || end_utc.4 >= 100 || end_utc.5 >= 100 {
        return None;
    }
    let secs = elapsed_seconds(&session.start, &end);
    let (hours, minutes, seconds) = split_elapsed(secs);
    let message = match &session.message {
        Some(m) => m.clone(),
        None => String::new(),
    };
    Some(
        CsvRow {
            utc_start: format_csv_timestamp(start_utc),
            utc_end: format_csv_timestamp(end_utc),
            hours,
            minutes,
            seconds,
            message,
        },
    )
}

} // verus!
