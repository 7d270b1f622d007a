//! What the desktop notifier and the main loop's timers decide.
use vstd::prelude::*;

verus! {

/// The urgency a notification is sent with: `low`, `normal` and
/// `critical` are kept, anything else becomes `normal`.
pub open spec fn urgency_level(u: Seq<char>) -> Seq<char> {
    if u == "low"@ || u == "normal"@ || u == "critical"@ {
        u
    } else {
        "normal"@
    }
}

/// The urgency a notification is sent with; see `urgency_level`.
pub fn notification_urgency(urgency: &str) -> (r: String)
    ensures
        r@ == urgency_level(urgency@),
{
    if crate::events::str_eq(urgency, "low") || crate::events::str_eq(urgency, "normal") || crate::events::str_eq(
        urgency,
        "critical",
    ) {
        urgency.to_string()
    } else {
        "normal".to_string()
    }
}

/// Text with each `"` preceded by a backslash, for a quoted script string.
pub open spec fn escaped_quotes(s: Seq<char>) -> Seq<char>
    decreases s.len(),
{
    if s.len() == 0 {
        Seq::empty()
    } else {
        escaped_quotes(s.drop_last()) + if s.last() == '"' {
            seq!['\\', '"']
        } else {
            seq![s.last()]
        }
    }
}

/// Escapes the quotes of a text; see `escaped_quotes`.
pub fn escape_quotes(s: &str) -> (r: String)
    ensures
        r@ == escaped_quotes(s@),
{
    let v = crate::text::chars_of(s);
    let mut out = String::new();
    let mut i: usize = 0;
    while i < v.len()
        invariant
            i <= v.len(),
            out@ == escaped_quotes(v@.take(i as int)),
        decreases v.len() - i,
    {
        assert(v@.take(i + 1).drop_last() =~= v@.take(i as int));
        if v[i] == '"' {
            out.push('\\');
            out.push('"');
        } else {
            out.push(v[i]);
        }
        i += 1;
        assert(out@ =~= escaped_quotes(v@.take(i as int)));
    }
    assert(v@.take(i as int) =~= v@);
    out
}

/// Longest wait of the main loop for input, in milliseconds.
pub const MAX_WAIT_MS: u64 = 50;

/// The deadlines (in milliseconds) that have passed at `now`.
pub open spec fn passed(deadlines: Seq<u64>, now: u64) -> Seq<bool> {
    Seq::new(deadlines.len(), |i: int| now >= deadlines[i])
}

/// How long the main loop waits for input: at most `MAX_WAIT_MS`, and no
/// longer than until the next deadline still to come.
pub open spec fn wait_ms(deadlines: Seq<u64>, now: u64) -> u64
    decreases deadlines.len(),
{
    if deadlines.len() == 0 {
        MAX_WAIT_MS
    } else {
        let rest = wait_ms(deadlines.drop_last(), now);
        let d = deadlines.last();
        if now < d && d - now < rest {
            (d - now) as u64
        } else {
            rest
        }
    }
}

/// Which deadlines have passed at `now`, and how long to wait for input;
/// see `passed` and `wait_ms`.
pub fn check_deadlines(deadlines: &Vec<u64>, now: u64) -> (r: (Vec<bool>, u64))
    ensures
        r.0@ == passed(deadlines@, now),
        r.1 == wait_ms(deadlines@, now),
        r.1 <= MAX_WAIT_MS,
{
    let mut expired: Vec<bool> = Vec::new();
    let mut wait: u64 = MAX_WAIT_MS;
    let mut i: usize = 0;
    while i < deadlines.len()
        invariant
            i <= deadlines.len(),
            expired@ == passed(deadlines@.take(i as int), now),
            wait == wait_ms(deadlines@.take(i as int), now),
            wait <= MAX_WAIT_MS,
        decreases deadlines.len() - i,
    {
        assert(deadlines@.take(i + 1).drop_last() =~= deadlines@.take(i as int));
        let d = deadlines[i];
        expired.push(now >= d);
        if now < d && d - now < wait {
            wait = d - now;
        }
        i += 1;
        assert(expired@ =~= passed(deadlines@.take(i as int), now));
    }
    assert(deadlines@.take(i as int) =~= deadlines@);
    (expired, wait)
}

/// How long, in milliseconds, a typing indicator stays up without a new
/// typing event.
pub const TYPING_SHOWN_MS: u64 = 5000;

/// A pane's typing indicator as the main loop tracks it: the typist shown
/// and when, in milliseconds on the loop's clock, to stop showing them.
pub struct TypingTimer {
    pub user: String,
    pub until: u64,
}

/// The timer of a pane whose typing line shows `shown` at `now`: none when
/// nobody is shown; the running timer while the same typist is shown;
/// otherwise a new one ending `TYPING_SHOWN_MS` from now (at the clock's
/// end if that lies beyond it).
pub open spec fn typing_timer_after(shown: Option<Seq<char>>, timer: Option<(Seq<char>, u64)>, now: u64) -> Option<(Seq<char>, u64)> {
    match shown {
        None => None,
        Some(u) => match timer {
            Some(t) => if t.0 == u {
                Some(t)
            } else {
                Some((u, if now + TYPING_SHOWN_MS > u64::MAX { u64::MAX } else { (now + TYPING_SHOWN_MS) as u64 }))
            },
            None => Some((u, if now + TYPING_SHOWN_MS > u64::MAX { u64::MAX } else { (now + TYPING_SHOWN_MS) as u64 })),
        },
    }
}

/// A timer as plain values.
pub open spec fn timer_view(t: Option<TypingTimer>) -> Option<(Seq<char>, u64)> {
    match t {
        Some(t) => Some((t.user@, t.until)),
        None => None,
    }
}

/// The timer of a pane's typing line; see `typing_timer_after`.
pub fn track_typing(shown: &Option<String>, timer: Option<TypingTimer>, now: u64) -> (r: Option<TypingTimer>)
    ensures
        timer_view(r) == typing_timer_after(crate::text::option_view(*shown), timer_view(timer), now),
{
    match shown {
        None => None,
        Some(u) => {
            match timer {
                Some(t) => {
                    if crate::events::str_eq(t.user.as_str(), u.as_str()) {
                        return Some(t);
                    }
                },
                None => {},
            }
            Some(TypingTimer { user: u.clone(), until: now.saturating_add(TYPING_SHOWN_MS) })
        },
    }
}

/// Whether the typing line should be cleared at `now`: its timer has run
/// out.
pub fn typing_expired(timer: &Option<TypingTimer>, now: u64) -> (r: bool)
    ensures
        r == (timer matches Some(t) && now >= t.until),
{
    match timer {
        Some(t) => now >= t.until,
        None => false,
    }
}

} // verus!
