use vstd::prelude::*;

use crate::log::{completed_wf, Log, SessionView};
use crate::time::{elapsed_seconds, elapsed_spec, sunday_week, sunday_week_of, Time};

verus! {

/// Elapsed seconds over completed sessions: all of them, those that began and ended
/// on the date of `now`, and those that began and ended in the week of `now` (the
/// same year and the same week number, weeks starting on Sunday).
pub struct Totals {
    pub total: i128,
    pub today: i128,
    pub this_week: i128,
}

pub open spec fn same_date(a: Time, b: Time) -> bool {
    a.year == b.year && a.month == b.month && a.day == b.day
}

pub open spec fn on_day_of(s: SessionView, now: Time) -> bool {
    same_date(s.start, now) && same_date(s.end->0, now)
}

/// The week numbers of each session's start and end.
pub open spec fn weeks_of(ss: Seq<SessionView>) -> Seq<(int, int)> {
    Seq::new(ss.len(), |i: int| (sunday_week_of(ss[i].start), sunday_week_of(ss[i].end->0)))
}

pub open spec fn weeks_view(ws: Seq<(u8, u8)>) -> Seq<(int, int)> {
    ws.map_values(|w: (u8, u8)| (w.0 as int, w.1 as int))
}

pub open spec fn session_elapsed(s: SessionView) -> int {
    elapsed_spec(s.start, s.end->0)
}

pub open spec fn total_spec(ss: Seq<SessionView>) -> int
    decreases ss.len(),
{
    if ss.len() == 0 {
        0
    } else {
        total_spec(ss.drop_last()) + session_elapsed(ss.last())
    }
}

pub open spec fn today_spec(ss: Seq<SessionView>, now: Time) -> int
    decreases ss.len(),
{
    if ss.len() == 0 {
        0
    } else {
        today_spec(ss.drop_last(), now) + if on_day_of(ss.last(), now) {
            session_elapsed(ss.last())
        } else {
            0
        }
    }
}

/// The elapsed seconds of the sessions that start and end in `year` and whose start
/// and end weeks (`ws`, one pair for each session) both are `week`.
pub open spec fn week_spec(ss: Seq<SessionView>, ws: Seq<(int, int)>, week: int, year: int) -> int
    decreases ss.len(),
{
    if ss.len() == 0 {
        0
    } else {
        week_spec(ss.drop_last(), ws.take(ss.len() - 1), week, year) + if ws[ss.len() - 1].0
            == week && ws[ss.len() - 1].1 == week && ss.last().start.year == year
            && ss.last().end->0.year == year {
            session_elapsed(ss.last())
        } else {
            0
        }
    }
}

/// The bound on each session's elapsed seconds.
pub open spec fn span_bound() -> int {
    u64::MAX as int
}

impl Log {
    /// The elapsed time of the completed sessions: in all, on the date of `now`, and in
    /// its week (of the same year, weeks starting on Sunday).
    pub fn totals(&self, now: &Time) -> (r: Totals)
        requires
            self.wf(),
            now.wf(),
            self.completed.len() < 0x8000_0000_0000_0000,
        ensures
            r.total == total_spec(self@.completed),
            r.today == today_spec(self@.completed, *now),
            r.this_week == week_spec(self@.completed, weeks_of(self@.completed), sunday_week_of(*now), now.year as int),
    {
        let ghost ss = self@.completed;
        let mut weeks: Vec<(u8, u8)> = Vec::new();
        let mut i: usize = 0;
        while i < self.completed.len()
            invariant
                self.wf(),
                ss == self@.completed,
                i <= ss.len(),
                weeks@.len() == i,
                forall|j: int| 0 <= j < i ==> weeks_view(weeks@)[j] == weeks_of(ss)[j],
            decreases self.completed.len() - i,
        {
            let s = &self.completed[i];
            assert(completed_wf(ss[i as int]));
            assert(ss[i as int] == s@);
            let end = s.end.unwrap();
            weeks.push((sunday_week(&s.start), sunday_week(&end)));
            i = i + 1;
        }
        assert(weeks_view(weeks@) =~= weeks_of(ss));
        self.totals_in_weeks(now, &weeks, sunday_week(now))
    }

    /// The totals of `totals`, given the week numbers of each completed session's start
    /// and end and that of `now`.
    pub fn totals_in_weeks(&self, now: &Time, weeks: &Vec<(u8, u8)>, now_week: u8) -> (r: Totals)
        requires
            self.wf(),
            now.wf(),
            self.completed.len() < 0x8000_0000_0000_0000,
            weeks.len() == self.completed.len(),
        ensures
            r.total == total_spec(self@.completed),
            r.today == today_spec(self@.completed, *now),
            r.this_week == week_spec(
                self@.completed,
                weeks_view(weeks@),
                now_week as int,
                now.year as int,
            ),
    {
        let ghost ss = self@.completed;
        let ghost ws = weeks_view(weeks@);
        let mut total: i128 = 0;
        let mut today: i128 = 0;
        let mut this_week: i128 = 0;
        let mut i: usize = 0;
        while i < self.completed.len()
            invariant
                self.wf(),
                now.wf(),
                ss == self@.completed,
                ws == weeks_view(weeks@),
                weeks.len() == ss.len(),
                i <= ss.len() < 0x8000_0000_0000_0000,
                total == total_spec(ss.take(i as int)),
                today == today_spec(ss.take(i as int), *now),
                this_week == week_spec(
                    ss.take(i as int),
                    ws.take(i as int),
                    now_week as int,
                    now.year as int,
                ),
                -(i * span_bound()) <= total <= i * span_bound(),
                -(i * span_bound()) <= today <= i * span_bound(),
                -(i * span_bound()) <= this_week <= i * span_bound(),
            decreases self.completed.len() - i,
        {
            let s = &self.completed[i];
            assert(completed_wf(ss[i as int]));
            assert(ss[i as int] == s@);
            let end = s.end.unwrap();
            let e = elapsed_seconds(&s.start, &end);
            let (start_week, end_week) = weeks[i];
            proof {
                assert(ss.take(i + 1).drop_last() =~= ss.take(i as int));
                assert(ss.take(i + 1).last() == ss[i as int]);
                assert(ws.take(i + 1).take(i as int) =~= ws.take(i as int));
                assert(ws.take(i + 1)[i as int] == (start_week as int, end_week as int));
                assert((i + 1) * span_bound() == i * span_bound() + span_bound()) by (nonlinear_arith);
                assert((i + 1) * span_bound() <= i128::MAX) by (nonlinear_arith)
                    requires i + 1 <= 0x8000_0000_0000_0000;
            }
            total = total + e;
            if s.start.year == now.year && s.start.month == now.month && s.start.day == now.day
                && end.year == now.year && end.month == now.month && end.day == now.day {
                today = today + e;
            }
            if start_week == now_week && end_week == now_week && s.start.year == now.year
                && end.year == now.year {
                this_week = this_week + e;
            }
            i = i + 1;
        }
        assert(ss.take(i as int) =~= ss);
        assert(ws.take(i as int) =~= ws);
        Totals { total, today, this_week }
    }
}

} // verus!
