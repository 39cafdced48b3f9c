use vstd::prelude::*;

use crate::duration::{clause, duration_text, join_clauses};
use crate::log::{
    begin_spec, end_spec, CommandError, completed_line, completed_text, completed_wf, current_line, current_wf, is_single_line,
    log_text, log_wf, now_marker, LogView, SessionView,
};
use crate::parse::{
    close_paren, has_start, is_entry, line_message, open_paren, token_end, is_skipped,
    entry_start, line_end, ParseError, empty_log, find_close, has_end_time, has_now, is_space, parse_from, parse_text, skip_spaces,
    step,
};
use crate::text::{decimal, digit_char};
use crate::time::{
    display_pattern, display_shape, display_text, lemma_display_round_trip, parse_display_spec,
    Time,
};

verus! {

/// A message that does not end with a carriage return, which would be read as part
/// of the line ending.
pub open spec fn no_trailing_cr(m: Seq<char>) -> bool {
    m.len() == 0 || m.last() != '\r'
}

/// Neither a newline nor a closing parenthesis.
pub open spec fn is_plain(x: Seq<char>) -> bool {
    forall|k: int| 0 <= k < x.len() ==> x[k] != '\n' && x[k] != ')'
}

proof fn lemma_plain_concat(a: Seq<char>, b: Seq<char>)
    requires
        is_plain(a),
        is_plain(b),
    ensures
        is_plain(a + b),
{
    assert forall|k: int| 0 <= k < (a + b).len() implies (a + b)[k] != '\n' && (a + b)[k]
        != ')' by {
        if k >= a.len() {
            assert((a + b)[k] == b[k - a.len()]);
        }
    }
}

proof fn lemma_decimal_plain(n: nat)
    ensures
        is_plain(decimal(n)),
    decreases n,
{
    if n >= 10 {
        lemma_decimal_plain(n / 10);
        let d = digit_char((n % 10) as int);
        assert(d != '\n' && d != ')');
        lemma_plain_concat(decimal(n / 10), seq![d]);
        assert(decimal(n) =~= decimal(n / 10) + seq![d]);
    } else {
        assert(digit_char(n as int) != '\n' && digit_char(n as int) != ')');
    }
}

proof fn lemma_clause_plain(n: int, unit: Seq<char>)
    requires
        is_plain(unit),
    ensures
        is_plain(clause(n, unit)),
{
    if n == 1 {
        lemma_plain_concat(seq!['1', ' '], unit);
    } else if n > 1 {
        lemma_decimal_plain(n as nat);
        lemma_plain_concat(decimal(n as nat), seq![' ']);
        lemma_plain_concat(decimal(n as nat) + seq![' '], unit);
        lemma_plain_concat(decimal(n as nat) + seq![' '] + unit, seq!['s']);
    }
}

proof fn lemma_join_plain(a: Seq<char>, b: Seq<char>)
    requires
        is_plain(a),
        is_plain(b),
    ensures
        is_plain(join_clauses(a, b)),
{
    lemma_plain_concat(a, seq![',', ' ']);
    lemma_plain_concat(a + seq![',', ' '], b);
}

/// A duration's text holds neither a newline nor a closing parenthesis.
proof fn lemma_duration_plain(s: int)
    ensures
        is_plain(duration_text(s)),
{
    if s > 0 {
        lemma_clause_plain(s / 3600, crate::duration::hour_word());
        lemma_clause_plain(s / 60 % 60, crate::duration::minute_word());
        lemma_clause_plain(s % 60, crate::duration::second_word());
        lemma_join_plain(
            clause(s / 3600, crate::duration::hour_word()),
            clause(s / 60 % 60, crate::duration::minute_word()),
        );
        lemma_join_plain(
            join_clauses(
                clause(s / 3600, crate::duration::hour_word()),
                clause(s / 60 % 60, crate::duration::minute_word()),
            ),
            clause(s % 60, crate::duration::second_word()),
        );
    }
}

proof fn lemma_skip_spaces(l: Seq<char>, i: int, c: int)
    requires
        0 <= i <= c < l.len(),
        forall|k: int| i <= k < c ==> is_space(l[k]),
        !is_space(l[c]),
    ensures
        skip_spaces(l, i) == c,
    decreases c - i,
{
    if i < c {
        lemma_skip_spaces(l, i + 1, c);
    }
}

proof fn lemma_find_close(l: Seq<char>, i: int, c: int)
    requires
        0 <= i <= c < l.len(),
        forall|k: int| i <= k < c ==> l[k] != ')',
        l[c] == ')',
    ensures
        find_close(l, i) == c,
    decreases c - i,
{
    if i < c {
        lemma_find_close(l, i + 1, c);
    }
}

/// Reading on to the newline at `n` applies the line that ends there.
proof fn lemma_to_newline(
    st: Result<LogView, ParseError>,
    s: Seq<char>,
    start: int,
    pos: int,
    n: int,
)
    requires
        0 <= start <= pos <= n < s.len(),
        s[n] == '\n',
        forall|k: int| pos <= k < n ==> s[k] != '\n',
    ensures
        parse_from(st, s, start, pos) == parse_from(
            step(st, s.subrange(start, line_end(s, start, n))),
            s,
            n + 1,
            n + 1,
        ),
    decreases n - pos,
{
    if pos < n {
        lemma_to_newline(st, s, start, pos + 1, n);
    }
}

/// Text before the position being read plays no part.
proof fn lemma_shift(
    st: Result<LogView, ParseError>,
    a: Seq<char>,
    b: Seq<char>,
    i: int,
    j: int,
)
    requires
        0 <= i <= j <= b.len(),
    ensures
        parse_from(st, a + b, a.len() + i, a.len() + j) == parse_from(st, b, i, j),
    decreases b.len() - j,
{
    let s = a + b;
    if j >= b.len() {
        if i < b.len() {
            assert(s.subrange(a.len() + i, s.len() as int) =~= b.subrange(i, b.len() as int));
        }
    } else if b[j] == '\n' {
        assert(s[a.len() + j] == '\n');
        if j > i {
            assert(s[a.len() + j - 1] == b[j - 1]);
        }
        assert(line_end(s, a.len() + i, a.len() + j) == a.len() + line_end(b, i, j));
        assert(s.subrange(a.len() + i, a.len() + line_end(b, i, j)) =~= b.subrange(
            i,
            line_end(b, i, j),
        ));
        lemma_shift(step(st, b.subrange(i, line_end(b, i, j))), a, b, j + 1, j + 1);
    } else {
        assert(s[a.len() + j] == b[j]);
        lemma_shift(st, a, b, i, j + 1);
    }
}

proof fn lemma_display_plain(t: Time)
    requires
        t.wf(),
    ensures
        forall|k: int| 0 <= k < 31 ==> display_text(t)[k] != '\n',
        display_shape(display_text(t)),
        parse_display_spec(display_text(t)) == Some(t),
{
    lemma_display_round_trip(t);
}

/// A completed session's line reads back as that session.
#[verifier::rlimit(60)]
proof fn lemma_completed_line(log: LogView, sv: SessionView)
    requires
        completed_wf(sv),
        no_trailing_cr(sv.message->0),
    ensures
        is_single_line(completed_line(sv)),
        completed_line(sv).last() != '\r',
        step(Ok(log), completed_line(sv)) == Ok::<LogView, ParseError>(
            LogView { completed: log.completed.push(sv), current: log.current },
        ),
{
    let start = sv.start;
    let end = sv.end->0;
    let msg = sv.message->0;
    let dur = duration_text(crate::time::elapsed_spec(start, end));
    let l = completed_line(sv);
    lemma_display_plain(start);
    lemma_display_plain(end);
    lemma_duration_plain(crate::time::elapsed_spec(start, end));
    let c: int = 68 + dur.len() as int;
    assert(l.len() == c + 3 + msg.len());
    assert(l.subrange(0, 31) =~= display_text(start));
    assert(l.subrange(35, 66) =~= display_text(end));
    assert forall|k: int| 0 <= k < dur.len() implies l[68 + k] == dur[k] by {}
    assert(l[31] == ' ' && l[32] == '-' && l[33] == '>' && l[34] == ' ');
    assert(l[66] == ' ' && l[67] == '(');
    assert(l[c] == ')' && l[c + 1] == ':' && l[c + 2] == ' ');
    assert(l[0] == display_text(start)[0]);
    assert(display_pattern(0) == '0');
    assert(has_end_time(l));
    lemma_skip_spaces(l, 66, 67);
    lemma_find_close(l, 68, c);
    assert(l.subrange(c + 3, l.len() as int) =~= msg);
    assert forall|k: int| 0 <= k < l.len() implies l[k] != '\n' by {
        if k < 31 {
            assert(l[k] == display_text(start)[k]);
        } else if 35 <= k < 66 {
            assert(l[k] == display_text(end)[k - 35]);
        } else if 68 <= k < c {
            assert(l[k] == dur[k - 68]);
        } else if k >= c + 3 {
            assert(l[k] == msg[k - c - 3]);
        }
    }
    if msg.len() > 0 {
        assert(l.last() == msg.last());
    } else {
        assert(l.last() == l[c + 2]);
    }
    assert(sv == SessionView { start, end: Some(end), message: Some(msg) });
    assert(l.subrange(0, l.len() as int) =~= l);
    assert(entry_start(l, 0) == 0);
}

/// A current session's line reads back as that session, into a log without one.
#[verifier::rlimit(60)]
proof fn lemma_current_line(log: LogView, sv: SessionView, now: Time)
    requires
        current_wf(sv),
        now.wf(),
        log.current is None,
    ensures
        is_single_line(current_line(sv, now)),
        step(Ok(log), current_line(sv, now)) == Ok::<LogView, ParseError>(
            LogView { completed: log.completed, current: Some(sv) },
        ),
{
    let start = sv.start;
    let dur = duration_text(crate::time::elapsed_spec(start, now));
    let l = current_line(sv, now);
    lemma_display_plain(start);
    lemma_duration_plain(crate::time::elapsed_spec(start, now));
    let c: int = 68 + dur.len() as int;
    assert(l.len() == c + 1);
    assert(l.subrange(0, 31) =~= display_text(start));
    assert forall|k: int| 0 <= k < dur.len() implies l[68 + k] == dur[k] by {}
    assert(l[31] == ' ' && l[32] == '-' && l[33] == '>' && l[34] == ' ');
    assert(l[35] == '[' && l[36] == 'n' && l[37] == 'o' && l[38] == 'w' && l[39] == ']');
    assert forall|k: int| 40 <= k < 67 implies is_space(l[k]) by {
        assert(l[k] == now_marker()[k - 35]);
    }
    assert(l[67] == '(');
    assert(l[c] == ')');
    assert(l[0] == display_text(start)[0]);
    assert(display_pattern(0) == '0');
    assert(!display_shape(l.subrange(35, 66))) by {
        assert(l.subrange(35, 66)[0] == '[');
    }
    assert(!has_end_time(l));
    assert(has_now(l));
    lemma_skip_spaces(l, 40, 67);
    lemma_find_close(l, 68, c);
    assert forall|k: int| 0 <= k < l.len() implies l[k] != '\n' by {
        if k < 31 {
            assert(l[k] == display_text(start)[k]);
        } else if 35 <= k < 67 {
            assert(l[k] == now_marker()[k - 35]);
        } else if 68 <= k < c {
            assert(l[k] == dur[k - 68]);
        }
    }
    assert(sv == SessionView { start, end: None, message: None });
    assert(l.subrange(0, l.len() as int) =~= l);
    assert(entry_start(l, 0) == 0);
}

proof fn lemma_completed_text(log: LogView, ss: Seq<SessionView>, tail: Seq<char>)
    requires
        forall|i: int|
            0 <= i < ss.len() ==> completed_wf(#[trigger] ss[i]) && no_trailing_cr(
                ss[i].message->0,
            ),
    ensures
        parse_from(Ok(log), completed_text(ss) + tail, 0, 0) == parse_from(
            Ok(LogView { completed: log.completed + ss, current: log.current }),
            tail,
            0,
            0,
        ),
    decreases ss.len(),
{
    if ss.len() == 0 {
        assert(completed_text(ss) + tail =~= tail);
        assert(log.completed + ss =~= log.completed);
    } else {
        let line = completed_line(ss[0]);
        let a = line + seq!['\n'];
        let rest = ss.skip(1);
        let b = completed_text(rest) + tail;
        let t = completed_text(ss) + tail;
        assert(t =~= a + b);
        assert(completed_wf(ss[0]));
        lemma_completed_line(log, ss[0]);
        let log1 = LogView { completed: log.completed.push(ss[0]), current: log.current };
        assert(t.subrange(0, line.len() as int) =~= line);
        assert forall|k: int| 0 <= k < line.len() implies t[k] != '\n' by {
            assert(t[k] == line[k]);
        }
        assert(t[line.len() as int] == '\n');
        assert(t[line.len() - 1] == line.last());
        assert(line_end(t, 0, line.len() as int) == line.len());
        lemma_to_newline(Ok(log), t, 0, 0, line.len() as int);
        lemma_shift(Ok(log1), a, b, 0, 0);
        assert(no_trailing_cr(ss[0].message->0));
        assert forall|i: int| 0 <= i < rest.len() implies completed_wf(#[trigger] rest[i])
            && no_trailing_cr(rest[i].message->0) by {
            assert(rest[i] == ss[i + 1]);
        }
        lemma_completed_text(log1, rest, tail);
        assert(log1.completed + rest =~= log.completed + ss);
    }
}

/// Reading back the editable text of a well-formed log gives the log itself, at
/// whatever instant its current session was written out, as long as no message
/// ends with a carriage return.
pub proof fn law_round_trip(log: LogView, now: Time)
    requires
        log_wf(log),
        now.wf(),
        forall|i: int|
            0 <= i < log.completed.len() ==> no_trailing_cr(#[trigger] log.completed[i].message->0),
    ensures
        parse_text(log_text(log, now)) == Ok::<LogView, ParseError>(log),
{
    let cur = match log.current {
        Some(c) => current_line(c, now) + seq!['\n'],
        None => Seq::empty(),
    };
    lemma_completed_text(empty_log(), log.completed, cur);
    let log0 = LogView { completed: empty_log().completed + log.completed, current: None };
    assert(empty_log().completed + log.completed =~= log.completed);
    match log.current {
        Some(c) => {
            let line = current_line(c, now);
            lemma_current_line(log0, c, now);
            assert(cur.subrange(0, line.len() as int) =~= line);
            assert forall|k: int| 0 <= k < line.len() implies cur[k] != '\n' by {
                assert(cur[k] == line[k]);
            }
            lemma_to_newline(Ok(log0), cur, 0, 0, line.len() as int);
        },
        None => {},
    }
}


/// A second `begin` while the session of the first is going on is refused, and the
/// log keeps the first session as its current one.
pub proof fn law_begin_twice(log: LogView, first: Time, second: Time)
    requires
        log.current is None,
    ensures
        begin_spec(log, first) is Ok,
        begin_spec(log, first)->Ok_0.current == Some(
            SessionView { start: first, end: None, message: None },
        ),
        begin_spec(begin_spec(log, first)->Ok_0, second) == Err::<LogView, CommandError>(
            CommandError::AlreadyCurrent,
        ),
{
}

/// Ending the current session with a one-line message records it, from its start up
/// to the end time, with that message, and leaves no current session.
pub proof fn law_end_records(log: LogView, now: Time, message: Seq<char>)
    requires
        log.current is Some,
        is_single_line(message),
    ensures
        end_spec(log, now, message) is Ok,
        end_spec(log, now, message)->Ok_0.completed.last() == (SessionView {
            start: log.current->0.start,
            end: Some(now),
            message: Some(message),
        }),
        end_spec(log, now, message)->Ok_0.completed.drop_last() == log.completed,
        end_spec(log, now, message)->Ok_0.current is None,
{
    assert(end_spec(log, now, message)->Ok_0.completed.drop_last() =~= log.completed);
}


/// Text that ends with a newline is read in full before what follows it.
proof fn lemma_prefix(
    st: Result<LogView, ParseError>,
    a: Seq<char>,
    x: Seq<char>,
    i: int,
    j: int,
)
    requires
        a.len() > 0 ==> a.last() == '\n',
        0 <= i <= j <= a.len(),
        j == a.len() ==> i == j,
    ensures
        parse_from(st, a + x, i, j) == parse_from(parse_from(st, a, i, j), x, 0, 0),
    decreases a.len() - j,
{
    let s = a + x;
    if j == a.len() {
        lemma_shift(st, a, x, 0, 0);
    } else {
        assert(s[j] == a[j]);
        if a[j] == '\n' {
            if j > i {
                assert(s[j - 1] == a[j - 1]);
            }
            assert(line_end(s, i, j) == line_end(a, i, j));
            assert(s.subrange(i, line_end(s, i, j)) =~= a.subrange(i, line_end(a, i, j)));
            lemma_prefix(step(st, a.subrange(i, line_end(a, i, j))), a, x, j + 1, j + 1);
        } else {
            assert(j + 1 < a.len());
            lemma_prefix(st, a, x, i, j + 1);
        }
    }
}

/// A blank line, or one that starts with `#`, changes nothing, wherever it stands
/// between lines.
pub proof fn law_comment_ignored(before: Seq<char>, line: Seq<char>, after: Seq<char>)
    requires
        before.len() > 0 ==> before.last() == '\n',
        is_single_line(line),
        is_skipped(line),
    ensures
        parse_text(before + line + seq!['\n'] + after) == parse_text(before + after),
{
    let rest = line + seq!['\n'] + after;
    assert(before + line + seq!['\n'] + after =~= before + rest);
    lemma_prefix(Ok(empty_log()), before, rest, 0, 0);
    lemma_prefix(Ok(empty_log()), before, after, 0, 0);
    let st = parse_from(Ok(empty_log()), before, 0, 0);
    assert(rest.subrange(0, line.len() as int) =~= line);
    assert forall|k: int| 0 <= k < line.len() implies rest[k] != '\n' by {
        assert(rest[k] == line[k]);
    }
    assert(rest[line.len() as int] == '\n');
    lemma_to_newline(st, rest, 0, 0, line.len() as int);
    assert(step(st, line) == st);
    assert(rest =~= (line + seq!['\n']) + after);
    lemma_shift(st, line + seq!['\n'], after, 0, 0);
}


proof fn lemma_skip_spaces_agree(l1: Seq<char>, l2: Seq<char>, i: int, c: int)
    requires
        0 <= i <= c < l1.len(),
        c < l2.len(),
        skip_spaces(l1, i) == c,
        !is_space(l1[c]),
        forall|k: int| 0 <= k <= c ==> l1[k] == l2[k],
    ensures
        skip_spaces(l2, i) == c,
    decreases c - i,
{
    assert(l1[i] == l2[i]);
    if i < c {
        assert(is_space(l1[i]));
        lemma_skip_spaces_agree(l1, l2, i + 1, c);
    }
}

/// What stands between an entry's parentheses plays no part: putting other text
/// there, without a newline or a closing parenthesis, reads the same.
pub proof fn law_duration_ignored(
    st: Result<LogView, ParseError>,
    head: Seq<char>,
    d1: Seq<char>,
    d2: Seq<char>,
    tail: Seq<char>,
)
    requires
        is_entry(head + d1 + tail),
        open_paren(head + d1 + tail) == head.len() - 1,
        is_plain(d1),
        is_plain(d2),
        tail.len() > 0 && tail[0] == ')',
    ensures
        step(st, head + d1 + tail) == step(st, head + d2 + tail),
{
    let l1 = head + d1 + tail;
    let l2 = head + d2 + tail;
    let h = head.len() as int;
    assert forall|k: int| 0 <= k < h implies l1[k] == head[k] && l2[k] == head[k] by {}
    assert(l1.subrange(0, 31) =~= l2.subrange(0, 31));
    assert(h > token_end(l1) >= 40);
    if l1.len() >= 66 && h > 66 {
        assert(l1.subrange(35, 66) =~= l2.subrange(35, 66));
    }
    if !has_end_time(l1) {
        assert(l2[35] == '[');
        assert(display_pattern(0) == '0');
        if l2.len() >= 66 {
            assert(l2.subrange(35, 66)[0] == '[');
        }
    }
    assert(has_start(l1) == has_start(l2));
    assert(has_end_time(l1) == has_end_time(l2));
    assert(has_now(l1) == has_now(l2));
    assert(token_end(l1) == token_end(l2));
    lemma_skip_spaces_agree(l1, l2, token_end(l1), h - 1);
    assert forall|k: int| 0 <= k < d1.len() implies l1[h + k] == d1[k] by {}
    assert forall|k: int| 0 <= k < d2.len() implies l2[h + k] == d2[k] by {}
    lemma_find_close(l1, h, h + d1.len());
    lemma_find_close(l2, h, h + d2.len());
    let c1 = close_paren(l1);
    let c2 = close_paren(l2);
    assert forall|k: int| 0 <= k < tail.len() implies l1[c1 + k] == tail[k] && l2[c2 + k]
        == tail[k] by {}
    assert(l1.subrange(c1, l1.len() as int) =~= tail);
    assert(l2.subrange(c2, l2.len() as int) =~= tail);
    if c1 + 3 <= l1.len() {
        assert(l1.subrange(c1 + 3, l1.len() as int) =~= tail.subrange(3, tail.len() as int));
        assert(l2.subrange(c2 + 3, l2.len() as int) =~= tail.subrange(3, tail.len() as int));
    }
    assert(line_message(l1) == line_message(l2));
    assert(is_entry(l2));
    assert(l1.subrange(0, l1.len() as int) =~= l1);
    assert(l2.subrange(0, l2.len() as int) =~= l2);
    assert(entry_start(l1, 0) == 0);
    assert(entry_start(l2, 0) == 0);
}


/// Lines, each followed by a newline.
pub open spec fn lines_text(ls: Seq<Seq<char>>) -> Seq<char>
    decreases ls.len(),
{
    if ls.len() == 0 {
        Seq::empty()
    } else {
        ls[0] + seq!['\n'] + lines_text(ls.skip(1))
    }
}

/// Any number of blank lines and lines that start with `#` change nothing, wherever
/// they stand between lines.
pub proof fn law_comments_ignored(before: Seq<char>, ls: Seq<Seq<char>>, after: Seq<char>)
    requires
        before.len() > 0 ==> before.last() == '\n',
        forall|i: int| 0 <= i < ls.len() ==> is_single_line(#[trigger] ls[i]) && is_skipped(ls[i]),
    ensures
        parse_text(before + lines_text(ls) + after) == parse_text(before + after),
    decreases ls.len(),
{
    if ls.len() == 0 {
        assert(before + lines_text(ls) + after =~= before + after);
    } else {
        let rest = ls.skip(1);
        assert(is_single_line(ls[0]) && is_skipped(ls[0]));
        let tail = lines_text(rest) + after;
        assert(before + lines_text(ls) + after =~= before + ls[0] + seq!['\n'] + tail);
        law_comment_ignored(before, ls[0], tail);
        assert(before + tail =~= before + lines_text(rest) + after);
        assert forall|i: int| 0 <= i < rest.len() implies is_single_line(#[trigger] rest[i])
            && is_skipped(rest[i]) by {
            assert(rest[i] == ls[i + 1]);
        }
        law_comments_ignored(before, rest, after);
    }
}

proof fn lemma_to_end(st: Result<LogView, ParseError>, s: Seq<char>, start: int, pos: int)
    requires
        0 <= start <= pos <= s.len(),
        start < s.len(),
        forall|k: int| pos <= k < s.len() ==> s[k] != '\n',
    ensures
        parse_from(st, s, start, pos) == step(st, s.subrange(start, s.len() as int)),
    decreases s.len() - pos,
{
    if pos < s.len() {
        lemma_to_end(st, s, start, pos + 1);
    }
}

/// What follows a line ending of `after`, which is empty or starts with one.
pub open spec fn after_line_ending(after: Seq<char>) -> Seq<char> {
    if after.len() == 0 {
        after
    } else if after[0] == '\n' {
        after.skip(1)
    } else {
        after.skip(2)
    }
}

pub open spec fn starts_at_line_ending(after: Seq<char>) -> bool {
    after.len() == 0 || after[0] == '\n' || (after.len() >= 2 && after[0] == '\r' && after[1]
        == '\n')
}

/// A line, then its ending, are read as that line, then the rest.
proof fn lemma_one_line(st: Result<LogView, ParseError>, l: Seq<char>, after: Seq<char>)
    requires
        l.len() > 0,
        l.last() != '\r',
        is_single_line(l),
        starts_at_line_ending(after),
    ensures
        parse_from(st, l + after, 0, 0) == if after.len() == 0 {
            step(st, l)
        } else {
            parse_from(step(st, l), after_line_ending(after), 0, 0)
        },
{
    let s = l + after;
    let n = l.len() as int;
    assert forall|k: int| 0 <= k < n implies s[k] != '\n' by {
        assert(s[k] == l[k]);
    }
    assert(s[n - 1] == l.last());
    if after.len() == 0 {
        assert(s =~= l);
        lemma_to_end(st, s, 0, 0);
        assert(s.subrange(0, n) =~= l);
    } else if after[0] == '\n' {
        assert(s[n] == '\n');
        assert(line_end(s, 0, n) == n);
        assert(s.subrange(0, n) =~= l);
        lemma_to_newline(st, s, 0, 0, n);
        assert(s =~= (l + seq!['\n']) + after.skip(1));
        lemma_shift(step(st, l), l + seq!['\n'], after.skip(1), 0, 0);
    } else {
        assert(s[n] == '\r' && s[n + 1] == '\n');
        assert(line_end(s, 0, n + 1) == n);
        assert(s.subrange(0, n) =~= l);
        lemma_to_newline(st, s, 0, 0, n + 1);
        assert(s =~= (l + seq!['\r', '\n']) + after.skip(2));
        lemma_shift(step(st, l), l + seq!['\r', '\n'], after.skip(2), 0, 0);
    }
}

/// In a whole text, what stands between an entry's parentheses plays no part:
/// putting other text there, without a newline or a closing parenthesis, reads the
/// same. (A carriage return that ends the line belongs to `after`.)
pub proof fn law_duration_ignored_in_text(
    before: Seq<char>,
    head: Seq<char>,
    d1: Seq<char>,
    d2: Seq<char>,
    tail: Seq<char>,
    after: Seq<char>,
)
    requires
        before.len() > 0 ==> before.last() == '\n',
        is_single_line(head),
        is_single_line(tail),
        is_entry(head + d1 + tail),
        open_paren(head + d1 + tail) == head.len() - 1,
        is_plain(d1),
        is_plain(d2),
        tail.len() > 0 && tail[0] == ')',
        tail.last() != '\r',
        starts_at_line_ending(after),
    ensures
        parse_text(before + head + d1 + tail + after) == parse_text(
            before + head + d2 + tail + after,
        ),
{
    let l1 = head + d1 + tail;
    let l2 = head + d2 + tail;
    let st = parse_from(Ok(empty_log()), before, 0, 0);
    law_duration_ignored(st, head, d1, d2, tail);
    assert forall|k: int| 0 <= k < l1.len() implies l1[k] != '\n' by {
        if k < head.len() {
            assert(l1[k] == head[k]);
        } else if k < head.len() + d1.len() {
            assert(l1[k] == d1[k - head.len()]);
        } else {
            assert(l1[k] == tail[k - head.len() - d1.len()]);
        }
    }
    assert forall|k: int| 0 <= k < l2.len() implies l2[k] != '\n' by {
        if k < head.len() {
            assert(l2[k] == head[k]);
        } else if k < head.len() + d2.len() {
            assert(l2[k] == d2[k - head.len()]);
        } else {
            assert(l2[k] == tail[k - head.len() - d2.len()]);
        }
    }
    assert(l1.last() == tail.last());
    assert(l2.last() == tail.last());
    assert(before + head + d1 + tail + after =~= before + (l1 + after));
    assert(before + head + d2 + tail + after =~= before + (l2 + after));
    lemma_prefix(Ok(empty_log()), before, l1 + after, 0, 0);
    lemma_prefix(Ok(empty_log()), before, l2 + after, 0, 0);
    lemma_one_line(st, l1, after);
    lemma_one_line(st, l2, after);
}


proof fn lemma_completed_text_push(ss: Seq<SessionView>, x: SessionView)
    ensures
        completed_text(ss.push(x)) == completed_text(ss) + completed_line(x) + seq!['\n'],
    decreases ss.len(),
{
    if ss.len() == 0 {
        assert(ss.push(x).skip(1) =~= Seq::<SessionView>::empty());
        assert(ss.push(x)[0] == x);
        assert(completed_text(ss.push(x).skip(1)) == Seq::<char>::empty());
        assert(completed_text(ss) == Seq::<char>::empty());
        assert(completed_text(ss.push(x)) =~= completed_line(x) + seq!['\n']);
        assert(completed_text(ss) + completed_line(x) + seq!['\n'] =~= completed_line(x) + seq![
            '\n',
        ]);
    } else {
        assert(ss.push(x)[0] == ss[0]);
        assert(ss.push(x).skip(1) =~= ss.skip(1).push(x));
        lemma_completed_text_push(ss.skip(1), x);
        assert(completed_text(ss.push(x)) =~= completed_text(ss) + completed_line(x) + seq!['\n']);
    }
}

/// After `end`, the log's text is its earlier completed lines, then one line for the
/// session just ended, and no `[now]` line.
pub proof fn law_end_then_text(log: LogView, end: Time, message: Seq<char>, now: Time)
    requires
        log.current is Some,
        is_single_line(message),
    ensures
        end_spec(log, end, message) is Ok,
        log_text(end_spec(log, end, message)->Ok_0, now) == completed_text(log.completed)
            + completed_line(
            SessionView { start: log.current->0.start, end: Some(end), message: Some(message) },
        ) + seq!['\n'],
{
    let x = SessionView { start: log.current->0.start, end: Some(end), message: Some(message) };
    lemma_completed_text_push(log.completed, x);
    let after = end_spec(log, end, message)->Ok_0;
    assert(after.completed == log.completed.push(x));
    assert(log_text(after, now) =~= completed_text(after.completed));
}

} // verus!
