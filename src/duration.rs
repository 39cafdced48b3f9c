use vstd::prelude::*;

use crate::text::{decimal, push_char, push_decimal, push_str};

verus! {

pub open spec fn hour_word() -> Seq<char> {
    seq!['h', 'o', 'u', 'r']
}

pub open spec fn minute_word() -> Seq<char> {
    seq!['m', 'i', 'n', 'u', 't', 'e']
}

pub open spec fn second_word() -> Seq<char> {
    seq!['s', 'e', 'c', 'o', 'n', 'd']
}

pub open spec fn not_available() -> Seq<char> {
    seq!['N', '/', 'A']
}

/// `"1 <unit>"`, `"<n> <unit>s"` for `n` above 1, and nothing for `n` below 1.
pub open spec fn clause(n: int, unit: Seq<char>) -> Seq<char> {
    if n == 1 {
        seq!['1', ' '] + unit
    } else if n > 1 {
        decimal(n as nat) + seq![' '] + unit + seq!['s']
    } else {
        Seq::empty()
    }
}

/// `a` and `b` joined by `", "`, where an empty side is left out.
pub open spec fn join_clauses(a: Seq<char>, b: Seq<char>) -> Seq<char> {
    if a.len() == 0 {
        b
    } else if b.len() == 0 {
        a
    } else {
        a + seq![',', ' '] + b
    }
}

/// The readable form of a span of `s` whole seconds: its hours, minutes (below 60)
/// and seconds (below 60), each as a clause when it is at least 1, joined by
/// `", "`; `"N/A"` for a span that is zero or negative.
pub open spec fn duration_text(s: int) -> Seq<char> {
    if s <= 0 {
        not_available()
    } else {
        join_clauses(
            join_clauses(clause(s / 3600, hour_word()), clause(s / 60 % 60, minute_word())),
            clause(s % 60, second_word()),
        )
    }
}

/// Appends the clause for `n` units, after `", "` if `s` already holds one.
fn push_clause(s: &mut String, n: u128, unit: &str)
    requires
        unit@.len() > 0,
    ensures
        final(s)@ == join_clauses(old(s)@, clause(n as int, unit@)),
{
    let ghost s0 = s@;
    if n >= 1 {
        let nonempty = s.unicode_len() > 0;
        if nonempty {
            push_str(s, ", ");
        }
        let ghost s1 = s@;
        if n == 1 {
            push_str(s, "1 ");
            push_str(s, unit);
            proof {
                reveal_strlit("1 ");
            }
        } else {
            push_decimal(s, n);
            push_char(s, ' ');
            push_str(s, unit);
            push_char(s, 's');
        }
        proof {
            reveal_strlit(", ");
            assert(s@ =~= s1 + clause(n as int, unit@));
            assert(clause(n as int, unit@).len() > 0);
            assert(s@ =~= join_clauses(s0, clause(n as int, unit@)));
        }
    } else {
        assert(clause(n as int, unit@) =~= Seq::<char>::empty());
    }
}

/// The readable form of a span of `seconds` whole seconds, such as
/// `"1 hour, 1 minute, 1 second"`, or `"N/A"` when it is not positive.
pub fn format_duration(seconds: i128) -> (r: String)
    ensures
        r@ == duration_text(seconds as int),
{
    let mut r = String::new();
    if seconds <= 0 {
        push_str(&mut r, "N/A");
        proof {
            reveal_strlit("N/A");
            assert(r@ =~= not_available());
        }
        return r;
    }
    let s = seconds as u128;
    proof {
        reveal_strlit("hour");
        reveal_strlit("minute");
        reveal_strlit("second");
        assert("hour"@ =~= hour_word());
        assert("minute"@ =~= minute_word());
        assert("second"@ =~= second_word());
    }
    push_clause(&mut r, s / 3600, "hour");
    push_clause(&mut r, s / 60 % 60, "minute");
    push_clause(&mut r, s % 60, "second");
    r
}

} // verus!
