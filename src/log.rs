use vstd::prelude::*;

use crate::duration::{duration_text, format_duration};
use crate::text::{push_str};
use crate::time::{display_text, elapsed_seconds, elapsed_spec, Time};

verus! {

/// One tracked span of work: completed when it has an end and a message, current
/// (still going on) when it has neither.
#[derive(Clone, Debug)]
pub struct Session {
    pub start: Time,
    pub end: Option<Time>,
    pub message: Option<String>,
}

pub struct SessionView {
    pub start: Time,
    pub end: Option<Time>,
    pub message: Option<Seq<char>>,
}

impl View for Session {
    type V = SessionView;

    open spec fn view(&self) -> SessionView {
        SessionView {
            start: self.start,
            end: self.end,
            message: match self.message {
                Some(m) => Some(m@),
                None => None,
            },
        }
    }
}

/// All completed sessions, in the order they were recorded, and the current one.
#[derive(Clone, Debug)]
pub struct Log {
    pub completed: Vec<Session>,
    pub current: Option<Session>,
}

pub struct LogView {
    pub completed: Seq<SessionView>,
    pub current: Option<SessionView>,
}

impl View for Log {
    type V = LogView;

    open spec fn view(&self) -> LogView {
        LogView {
            completed: self.completed@.map_values(|s: Session| s@),
            current: match self.current {
                Some(s) => Some(s@),
                None => None,
            },
        }
    }
}

pub open spec fn is_single_line(m: Seq<char>) -> bool {
    forall|k: int| 0 <= k < m.len() ==> m[k] != '\n'
}

/// A completed session: valid times, an end, and a message of one line.
pub open spec fn completed_wf(s: SessionView) -> bool {
    &&& s.start.wf()
    &&& s.end is Some
    &&& s.end->0.wf()
    &&& s.message is Some
    &&& is_single_line(s.message->0)
}

/// A current session: a valid start, and neither end nor message.
pub open spec fn current_wf(s: SessionView) -> bool {
    &&& s.start.wf()
    &&& s.end is None
    &&& s.message is None
}

pub open spec fn log_wf(l: LogView) -> bool {
    &&& forall|i: int| 0 <= i < l.completed.len() ==> completed_wf(#[trigger] l.completed[i])
    &&& match l.current {
        Some(c) => current_wf(c),
        None => true,
    }
}

pub open spec fn arrow() -> Seq<char> {
    seq![' ', '-', '>', ' ']
}

/// `[now]` and the padding that puts the duration where a completed line has it.
pub open spec fn now_marker() -> Seq<char> {
    seq!['[', 'n', 'o', 'w', ']'] + Seq::new(27, |i: int| ' ')
}

/// `<start> -> <end> (<duration>): <message>`
pub open spec fn completed_line(s: SessionView) -> Seq<char> {
    display_text(s.start) + arrow() + display_text(s.end->0) + seq![' ', '('] + duration_text(
        elapsed_spec(s.start, s.end->0),
    ) + seq![')', ':', ' '] + s.message->0
}

/// `<start> -> [now]<padding>(<duration up to now>)`
pub open spec fn current_line(s: SessionView, now: Time) -> Seq<char> {
    display_text(s.start) + arrow() + now_marker() + seq!['('] + duration_text(
        elapsed_spec(s.start, now),
    ) + seq![')']
}

/// One line, ended by a newline, for each completed session in order.
pub open spec fn completed_text(ss: Seq<SessionView>) -> Seq<char>
    decreases ss.len(),
{
    if ss.len() == 0 {
        Seq::empty()
    } else {
        completed_line(ss[0]) + seq!['\n'] + completed_text(ss.skip(1))
    }
}

/// The editable text of a log: its completed sessions, then the current one, if
/// any, with its duration counted up to `now`.
pub open spec fn log_text(l: LogView, now: Time) -> Seq<char> {
    completed_text(l.completed) + match l.current {
        Some(c) => current_line(c, now) + seq!['\n'],
        None => Seq::empty(),
    }
}

impl Log {
    pub open spec fn wf(&self) -> bool {
        log_wf(self@)
    }

    /// A log with no sessions.
    pub fn new() -> (r: Log)
        ensures
            r@.completed.len() == 0,
            r@.current is None,
            r.wf(),
    {
        Log { completed: Vec::new(), current: None }
    }
}

fn push_completed_line(s: &mut String, session: &Session)
    requires
        completed_wf(session@),
    ensures
        final(s)@ == old(s)@ + completed_line(session@) + seq!['\n'],
{
    let ghost s0 = s@;
    let end = session.end.unwrap();
    session.start.push_display(s);
    push_str(s, " -> ");
    end.push_display(s);
    push_str(s, " (");
    let d = format_duration(elapsed_seconds(&session.start, &end));
    push_str(s, d.as_str());
    push_str(s, "): ");
    match &session.message {
        Some(m) => push_str(s, m.as_str()),
        None => {},
    }
    push_str(s, "\n");
    proof {
        reveal_strlit(" -> ");
        reveal_strlit(" (");
        reveal_strlit("): ");
        reveal_strlit("\n");
        assert(s@ =~= s0 + completed_line(session@) + seq!['\n']);
    }
}

fn push_current_line(s: &mut String, session: &Session, now: &Time)
    requires
        current_wf(session@),
        now.wf(),
    ensures
        final(s)@ == old(s)@ + current_line(session@, *now) + seq!['\n'],
{
    let ghost s0 = s@;
    session.start.push_display(s);
    push_str(s, " -> [now]                           (");
    let d = format_duration(elapsed_seconds(&session.start, now));
    push_str(s, d.as_str());
    push_str(s, ")\n");
    proof {
        reveal_strlit(" -> [now]                           (");
        reveal_strlit(")\n");
        assert(s@ =~= s0 + current_line(session@, *now) + seq!['\n']);
    }
}

/// The editable text of `log`: one line for each completed session, in order, then
/// one for the current session, whose duration runs up to `now`.
pub fn format_log(log: &Log, now: &Time) -> (r: String)
    requires
        log.wf(),
        now.wf(),
    ensures
        r@ == log_text(log@, *now),
{
    let mut s = String::new();
    let ghost ss = log@.completed;
    let mut i: usize = 0;
    assert(ss.skip(0) =~= ss);
    assert(s@ + completed_text(ss) =~= completed_text(ss));
    while i < log.completed.len()
        invariant
            log.wf(),
            ss == log@.completed,
            i <= ss.len(),
            s@ + completed_text(ss.skip(i as int)) == completed_text(ss),
        decreases log.completed.len() - i,
    {
        assert(ss[i as int] == log.completed[i as int]@);
        assert(completed_wf(ss[i as int]));
        let ghost before = s@;
        push_completed_line(&mut s, &log.completed[i]);
        proof {
            let rest = ss.skip(i as int);
            assert(rest[0] == ss[i as int]);
            assert(rest.skip(1) =~= ss.skip(i + 1));
            assert(completed_text(rest) == completed_line(ss[i as int]) + seq!['\n']
                + completed_text(ss.skip(i + 1)));
            assert(s@ + completed_text(ss.skip(i + 1)) =~= before + completed_text(rest));
        }
        i = i + 1;
    }
    assert(ss.skip(i as int).len() == 0);
    assert(s@ =~= completed_text(ss));
    match &log.current {
        Some(c) => {
            push_current_line(&mut s, c, now);
        },
        None => {},
    }
    assert(s@ =~= log_text(log@, *now));
    s
}


/// Why a command left the log as it was.
#[derive(Clone, Copy, Debug, PartialEq, Eq, Structural)]
pub enum CommandError {
    /// `begin` while a session is already going on.
    AlreadyCurrent,
    /// `end` or `cancel` with no session going on.
    NoCurrent,
    /// `end` with a message of more than one line.
    MultiLineMessage,
}

/// Whether `s` holds a newline.
pub fn has_newline(s: &str) -> (r: bool)
    ensures
        r == !is_single_line(s@),
{
    let cs = crate::text::chars_of(s);
    let mut i: usize = 0;
    while i < cs.len()
        invariant
            i <= cs.len(),
            cs@ == s@,
            forall|k: int| 0 <= k < i ==> cs@[k] != '\n',
        decreases cs.len() - i,
    {
        if cs[i] == '\n' {
            return true;
        }
        i = i + 1;
    }
    false
}

/// The log after `begin` at `now`, or why it stays as it was.
pub open spec fn begin_spec(l: LogView, now: Time) -> Result<LogView, CommandError> {
    if l.current is Some {
        Err(CommandError::AlreadyCurrent)
    } else {
        Ok(
            LogView {
                completed: l.completed,
                current: Some(SessionView { start: now, end: None, message: None }),
            },
        )
    }
}

/// The log after `end` at `now` with `message`, or why it stays as it was.
pub open spec fn end_spec(l: LogView, now: Time, message: Seq<char>) -> Result<
    LogView,
    CommandError,
> {
    if l.current is None {
        Err(CommandError::NoCurrent)
    } else if !is_single_line(message) {
        Err(CommandError::MultiLineMessage)
    } else {
        Ok(
            LogView {
                completed: l.completed.push(
                    SessionView { start: l.current->0.start, end: Some(now), message: Some(message) },
                ),
                current: None,
            },
        )
    }
}

impl Log {
    /// Starts a session at `now`, unless one is already going on.
    pub fn begin(&mut self, now: Time) -> (r: Result<(), CommandError>)
        requires
            old(self).wf(),
            now.wf(),
        ensures
            final(self).wf(),
            match begin_spec(old(self)@, now) {
                Ok(v) => r is Ok && final(self)@ == v,
                Err(e) => r == Err::<(), CommandError>(e) && final(self)@ == old(self)@,
            },
    {
        if self.current.is_some() {
            return Err(CommandError::AlreadyCurrent);
        }
        self.current = Some(Session { start: now, end: None, message: None });
        Ok(())
    }

    /// Ends the current session at `now` with `message` and records it as completed.
    /// Without a current session, or with a message of more than one line, the log
    /// stays as it was.
    pub fn end(&mut self, now: Time, message: String) -> (r: Result<(), CommandError>)
        requires
            old(self).wf(),
            now.wf(),
        ensures
            final(self).wf(),
            match end_spec(old(self)@, now, message@) {
                Ok(v) => r is Ok && final(self)@ == v,
                Err(e) => r == Err::<(), CommandError>(e) && final(self)@ == old(self)@,
            },
    {
        let start = match &self.current {
            None => {
                return Err(CommandError::NoCurrent);
            },
            Some(c) => c.start,
        };
        if has_newline(message.as_str()) {
            return Err(CommandError::MultiLineMessage);
        }
        let ghost old_log = self@;
        self.current = None;
        self.completed.push(Session { start, end: Some(now), message: Some(message) });
        assert(self@.completed =~= old_log.completed.push(self.completed@.last()@));
        Ok(())
    }

    /// Drops the current session without recording it, and gives back when it began.
    pub fn cancel(&mut self) -> (r: Result<Time, CommandError>)
        requires
            old(self).wf(),
        ensures
            final(self).wf(),
            old(self)@.current is None ==> r == Err::<Time, CommandError>(CommandError::NoCurrent)
                && final(self)@ == old(self)@,
            old(self)@.current is Some ==> r == Ok::<Time, CommandError>(
                old(self)@.current->0.start,
            ) && final(self)@ == (LogView { completed: old(self)@.completed, current: None }),
    {
        match &self.current {
            None => Err(CommandError::NoCurrent),
            Some(c) => {
                let start = c.start;
                self.current = None;
                Ok(start)
            },
        }
    }
}

} // verus!
