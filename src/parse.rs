use vstd::prelude::*;

use crate::log::{is_single_line, Log, LogView, Session, SessionView};
use crate::text::{chars_of, push_char};
use crate::time::{display_shape, display_shape_at, parse_display_at, parse_display_spec};

verus! {

/// Why the editable text of a log was refused.
#[derive(Clone, Copy, Debug, PartialEq, Eq, Structural)]
pub enum ParseError {
    /// A line is neither blank, a comment, nor an entry.
    Malformed,
    /// A `[now]` entry carries a message.
    CurrentWithMessage,
    /// A second `[now]` entry.
    MultipleCurrent,
    /// An entry with an end time has no message.
    CompletedWithoutMessage,
    /// A timestamp has the right layout but names no valid time.
    InvalidTimestamp,
}

pub open spec fn is_skipped(l: Seq<char>) -> bool {
    l.len() == 0 || l[0] == '#'
}

/// The characters that `char::is_whitespace` accepts: those of Unicode's
/// `White_Space` property.
pub open spec fn is_space(c: char) -> bool {
    c == ' ' || ('\t' <= c && c <= '\r') || c == '\u{85}' || c == '\u{A0}' || c == '\u{1680}'
        || ('\u{2000}' <= c && c <= '\u{200A}') || c == '\u{2028}' || c == '\u{2029}' || c
        == '\u{202F}' || c == '\u{205F}' || c == '\u{3000}'
}

fn is_space_char(c: char) -> (r: bool)
    ensures
        r == is_space(c),
{
    c == ' ' || ('\t' <= c && c <= '\r') || c == '\u{85}' || c == '\u{A0}' || c == '\u{1680}'
        || ('\u{2000}' <= c && c <= '\u{200A}') || c == '\u{2028}' || c == '\u{2029}' || c
        == '\u{202F}' || c == '\u{205F}' || c == '\u{3000}'
}

/// Where the line that began at `start` and whose newline is at `pos` ends: before
/// a carriage return that stands right before the newline.
pub open spec fn line_end(s: Seq<char>, start: int, pos: int) -> int {
    if pos > start && s[pos - 1] == '\r' {
        pos - 1
    } else {
        pos
    }
}

/// The first position from `i` on that does not hold a space or a tab.
pub open spec fn skip_spaces(l: Seq<char>, i: int) -> int
    decreases l.len() - i,
{
    if 0 <= i < l.len() && is_space(l[i]) {
        skip_spaces(l, i + 1)
    } else {
        i
    }
}

/// The first position from `i` on that holds `)`, or the length of `l`.
pub open spec fn find_close(l: Seq<char>, i: int) -> int
    decreases l.len() - i,
{
    if 0 <= i < l.len() {
        if l[i] == ')' {
            i
        } else {
            find_close(l, i + 1)
        }
    } else {
        l.len() as int
    }
}

/// A start timestamp in display layout, then `" -> "`.
pub open spec fn has_start(l: Seq<char>) -> bool {
    &&& l.len() >= 35
    &&& display_shape(l.subrange(0, 31))
    &&& l[31] == ' ' && l[32] == '-' && l[33] == '>' && l[34] == ' '
}

/// An end timestamp in display layout after the arrow.
pub open spec fn has_end_time(l: Seq<char>) -> bool {
    l.len() >= 66 && display_shape(l.subrange(35, 66))
}

/// `[now]` after the arrow.
pub open spec fn has_now(l: Seq<char>) -> bool {
    l.len() >= 40 && l[35] == '[' && l[36] == 'n' && l[37] == 'o' && l[38] == 'w' && l[39] == ']'
}

pub open spec fn token_end(l: Seq<char>) -> int {
    if has_end_time(l) {
        66
    } else {
        40
    }
}

pub open spec fn open_paren(l: Seq<char>) -> int {
    skip_spaces(l, token_end(l))
}

pub open spec fn close_paren(l: Seq<char>) -> int {
    find_close(l, open_paren(l) + 1)
}

/// `<start> -> <end or [now]>`, at least one space, then a parenthesised duration
/// whose contents are ignored.
pub open spec fn is_entry(l: Seq<char>) -> bool {
    &&& has_start(l)
    &&& has_end_time(l) || has_now(l)
    &&& token_end(l) < open_paren(l) < l.len()
    &&& l[open_paren(l)] == '('
    &&& close_paren(l) < l.len()
}

/// The rest of the line after `"): "`, if the duration is followed by it.
pub open spec fn line_message(l: Seq<char>) -> Option<Seq<char>> {
    let c = close_paren(l);
    if c + 3 <= l.len() && l[c + 1] == ':' && l[c + 2] == ' ' {
        Some(l.subrange(c + 3, l.len() as int))
    } else {
        None
    }
}

/// The first position from `i` on where an entry begins, or the length of `l`.
pub open spec fn entry_start(l: Seq<char>, i: int) -> int
    decreases l.len() - i,
{
    if 0 <= i < l.len() {
        if is_entry(l.subrange(i, l.len() as int)) {
            i
        } else {
            entry_start(l, i + 1)
        }
    } else {
        l.len() as int
    }
}

/// What a line does to the log read so far: nothing if it is blank or starts with
/// `#`; otherwise what its first entry, wherever it begins, does.
pub open spec fn step(st: Result<LogView, ParseError>, l: Seq<char>) -> Result<LogView, ParseError> {
    match st {
        Err(e) => Err(e),
        Ok(log) => {
            if is_skipped(l) {
                Ok(log)
            } else {
                entry_step(log, l.subrange(entry_start(l, 0), l.len() as int))
            }
        },
    }
}

/// What the text `l` of an entry does to the log read so far.
pub open spec fn entry_step(log: LogView, l: Seq<char>) -> Result<LogView, ParseError> {
            if !is_entry(l) {
                Err(ParseError::Malformed)
            } else if has_end_time(l) {
                match line_message(l) {
                    None => Err(ParseError::CompletedWithoutMessage),
                    Some(m) => match (
                        parse_display_spec(l.subrange(0, 31)),
                        parse_display_spec(l.subrange(35, 66)),
                    ) {
                        (Some(s), Some(e)) => Ok(
                            LogView {
                                completed: log.completed.push(
                                    SessionView { start: s, end: Some(e), message: Some(m) },
                                ),
                                current: log.current,
                            },
                        ),
                        _ => Err(ParseError::InvalidTimestamp),
                    },
                }
            } else if line_message(l) is Some {
                Err(ParseError::CurrentWithMessage)
            } else if log.current is Some {
                Err(ParseError::MultipleCurrent)
            } else {
                match parse_display_spec(l.subrange(0, 31)) {
                    Some(s) => Ok(
                        LogView {
                            completed: log.completed,
                            current: Some(SessionView { start: s, end: None, message: None }),
                        },
                    ),
                    None => Err(ParseError::InvalidTimestamp),
                }
            }
}

/// Reads `s` on from `pos`, where the line being read began at `start`: each line
/// ends at a newline (and a carriage return right before it) or at the end of the
/// text, and a newline at the very end starts no further line.
pub open spec fn parse_from(
    st: Result<LogView, ParseError>,
    s: Seq<char>,
    start: int,
    pos: int,
) -> Result<LogView, ParseError>
    decreases s.len() - pos,
{
    if pos >= s.len() {
        if start < s.len() {
            step(st, s.subrange(start, s.len() as int))
        } else {
            st
        }
    } else if s[pos] == '\n' {
        parse_from(step(st, s.subrange(start, line_end(s, start, pos))), s, pos + 1, pos + 1)
    } else {
        parse_from(st, s, start, pos + 1)
    }
}

pub open spec fn empty_log() -> LogView {
    LogView { completed: Seq::empty(), current: None }
}

/// The log that the editable text `s` describes, or the first error in it.
pub open spec fn parse_text(s: Seq<char>) -> Result<LogView, ParseError> {
    parse_from(Ok(empty_log()), s, 0, 0)
}

pub proof fn lemma_error_stays(e: ParseError, s: Seq<char>, start: int, pos: int)
    ensures
        parse_from(Err(e), s, start, pos) == Err::<LogView, ParseError>(e),
    decreases s.len() - pos,
{
    if pos < s.len() {
        if s[pos] == '\n' {
            lemma_error_stays(e, s, pos + 1, pos + 1);
        } else {
            lemma_error_stays(e, s, start, pos + 1);
        }
    }
}


fn skip_spaces_at(l: &Vec<char>, i: usize) -> (r: usize)
    requires
        i <= l.len(),
    ensures
        r == skip_spaces(l@, i as int),
        i <= r <= l.len(),
{
    let mut j = i;
    while j < l.len() && is_space_char(l[j])
        invariant
            i <= j <= l.len(),
            skip_spaces(l@, j as int) == skip_spaces(l@, i as int),
        decreases l.len() - j,
    {
        j = j + 1;
    }
    j
}

fn find_close_at(l: &Vec<char>, i: usize) -> (r: usize)
    requires
        i <= l.len(),
    ensures
        r == find_close(l@, i as int),
        i <= r <= l.len(),
{
    let mut j = i;
    while j < l.len() && l[j] != ')'
        invariant
            i <= j <= l.len(),
            find_close(l@, j as int) == find_close(l@, i as int),
        decreases l.len() - j,
    {
        j = j + 1;
    }
    j
}

/// The characters of `cs` from `lo` up to `hi`, as a string.
fn string_of(cs: &Vec<char>, lo: usize, hi: usize) -> (r: String)
    requires
        lo <= hi <= cs.len(),
    ensures
        r@ == cs@.subrange(lo as int, hi as int),
{
    let mut r = String::new();
    let mut j = lo;
    while j < hi
        invariant
            lo <= j <= hi <= cs.len(),
            r@ == cs@.subrange(lo as int, j as int),
        decreases hi - j,
    {
        push_char(&mut r, cs[j]);
        j = j + 1;
        assert(r@ =~= cs@.subrange(lo as int, j as int));
    }
    r
}

fn chars_between(cs: &Vec<char>, lo: usize, hi: usize) -> (r: Vec<char>)
    requires
        lo <= hi <= cs.len(),
    ensures
        r@ == cs@.subrange(lo as int, hi as int),
{
    let mut r: Vec<char> = Vec::new();
    let mut j = lo;
    while j < hi
        invariant
            lo <= j <= hi <= cs.len(),
            r@ == cs@.subrange(lo as int, j as int),
        decreases hi - j,
    {
        r.push(cs[j]);
        j = j + 1;
        assert(r@ =~= cs@.subrange(lo as int, j as int));
    }
    r
}

/// Whether `l` is an entry; if so, whether it has an end time, and where its
/// closing parenthesis stands.
fn entry_shape(l: &Vec<char>) -> (r: Option<(bool, usize)>)
    ensures
        r is Some == is_entry(l@),
        r is Some ==> (r->0).0 == has_end_time(l@) && (r->0).1 == close_paren(l@),
{
    let n = l.len();
    if n < 35 || !display_shape_at(l, 0) || l[31] != ' ' || l[32] != '-' || l[33] != '>' || l[34]
        != ' ' {
        return None;
    }
    let end_time = n >= 66 && display_shape_at(l, 35);
    let now = n >= 40 && l[35] == '[' && l[36] == 'n' && l[37] == 'o' && l[38] == 'w' && l[39]
        == ']';
    if !end_time && !now {
        return None;
    }
    let t: usize = if end_time {
        66
    } else {
        40
    };
    let o = skip_spaces_at(l, t);
    if o <= t || o >= n || l[o] != '(' {
        return None;
    }
    let c = find_close_at(l, o + 1);
    if c >= n {
        return None;
    }
    Some((end_time, c))
}

/// Applies one line of editable text to `log`.
fn step_line(log: &mut Log, l: &Vec<char>) -> (r: Result<(), ParseError>)
    requires
        old(log).wf(),
        is_single_line(l@),
    ensures
        final(log).wf(),
        r is Ok ==> step(Ok(old(log)@), l@) == Ok::<LogView, ParseError>(final(log)@),
        r is Err ==> step(Ok(old(log)@), l@) == Err::<LogView, ParseError>(r->Err_0),
{
    let n = l.len();
    if n == 0 || l[0] == '#' {
        return Ok(());
    }
    let mut i: usize = 0;
    let mut found = false;
    while i < n && !found
        invariant
            n == l.len(),
            i <= n,
            entry_start(l@, i as int) == entry_start(l@, 0),
            found ==> i < n && is_entry(l@.subrange(i as int, n as int)),
        decreases n - i + if found {
            0int
        } else {
            1int
        },
    {
        let rest = chars_between(l, i, n);
        if entry_shape(&rest).is_some() {
            found = true;
        } else {
            i = i + 1;
        }
    }
    assert(entry_start(l@, i as int) == i);
    let rest = chars_between(l, i, n);
    assert forall|k: int| 0 <= k < rest@.len() implies rest@[k] != '\n' by {
        assert(rest@[k] == l@[i + k]);
    }
    apply_entry(log, &rest)
}

/// Applies the text of an entry to `log`.
fn apply_entry(log: &mut Log, l: &Vec<char>) -> (r: Result<(), ParseError>)
    requires
        old(log).wf(),
        is_single_line(l@),
    ensures
        final(log).wf(),
        r is Ok ==> entry_step(old(log)@, l@) == Ok::<LogView, ParseError>(final(log)@),
        r is Err ==> entry_step(old(log)@, l@) == Err::<LogView, ParseError>(r->Err_0),
{
    let n = l.len();
    let (end_time, c) = match entry_shape(l) {
        Some(shape) => shape,
        None => {
            return Err(ParseError::Malformed);
        },
    };
    let has_message = n - c >= 3 && l[c + 1] == ':' && l[c + 2] == ' ';
    if end_time {
        if !has_message {
            return Err(ParseError::CompletedWithoutMessage);
        }
        let start = parse_display_at(l, 0);
        let end = parse_display_at(l, 35);
        match (start, end) {
            (Some(s), Some(e)) => {
                let m = string_of(l, c + 3, n);
                let ghost old_log = log@;
                log.completed.push(Session { start: s, end: Some(e), message: Some(m) });
                proof {
                    assert(log@.completed =~= old_log.completed.push(log.completed@.last()@));
                    assert forall|k: int| 0 <= k < m@.len() implies m@[k] != '\n' by {
                        assert(m@[k] == l@[c + 3 + k]);
                    }
                }
                Ok(())
            },
            _ => Err(ParseError::InvalidTimestamp),
        }
    } else if has_message {
        Err(ParseError::CurrentWithMessage)
    } else if log.current.is_some() {
        Err(ParseError::MultipleCurrent)
    } else {
        match parse_display_at(l, 0) {
            Some(s) => {
                log.current = Some(Session { start: s, end: None, message: None });
                Ok(())
            },
            None => Err(ParseError::InvalidTimestamp),
        }
    }
}

/// Reads the editable text of a log back: one session for each entry line, in the
/// order of the lines, skipping blank lines and lines that start with `#`.
pub fn parse_log(text: &str) -> (r: Result<Log, ParseError>)
    ensures
        match r {
            Ok(log) => parse_text(text@) == Ok::<LogView, ParseError>(log@) && log.wf(),
            Err(e) => parse_text(text@) == Err::<LogView, ParseError>(e),
        },
{
    let cs = chars_of(text);
    let mut log = Log::new();
    assert(log@.completed =~= empty_log().completed);
    let mut start: usize = 0;
    let mut pos: usize = 0;
    while pos < cs.len()
        invariant
            start <= pos <= cs.len(),
            cs@ == text@,
            log.wf(),
            parse_from(Ok(log@), cs@, start as int, pos as int) == parse_text(cs@),
            forall|k: int| start <= k < pos ==> cs@[k] != '\n',
        decreases cs.len() - pos,
    {
        if cs[pos] == '\n' {
            let end = if pos > start && cs[pos - 1] == '\r' {
                pos - 1
            } else {
                pos
            };
            let line = chars_between(&cs, start, end);
            let ghost before = log@;
            match step_line(&mut log, &line) {
                Ok(()) => {},
                Err(e) => {
                    proof {
                        lemma_error_stays(e, cs@, pos + 1, pos + 1);
                    }
                    return Err(e);
                },
            }
            pos = pos + 1;
            start = pos;
        } else {
            pos = pos + 1;
        }
    }
    if start < cs.len() {
        let line = chars_between(&cs, start, cs.len());
        match step_line(&mut log, &line) {
            Ok(()) => {},
            Err(e) => {
                return Err(e);
            },
        }
    }
    Ok(log)
}

} // verus!
