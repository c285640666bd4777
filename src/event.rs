//! All-day calendar events and the summaries written on them.
use crate::anniversary::{ordinal_suffix, suffix_of};
use crate::date::{days_after, digit_char, next_day, year_in_range, Date};
use uuid::Uuid;
use vstd::prelude::*;

verus! {

/// The status of a calendar event; every event made here is confirmed.
#[derive(Clone, Copy, Debug, PartialEq, Eq, Structural)]
pub enum EventStatus {
    Confirmed,
}

/// An all-day event: it occupies the day `start`, and `end` is the day after,
/// the exclusive bound.
#[derive(Debug)]
pub struct CalendarEvent {
    pub uid: String,
    pub start: Date,
    pub end: Date,
    pub summary: String,
    pub status: EventStatus,
}

impl CalendarEvent {
    pub open spec fn wf(&self) -> bool {
        &&& self.start.wf()
        &&& self.end.wf()
        &&& self.end == next_day(self.start)
        &&& self.uid@.len() > 0
        &&& self.status == EventStatus::Confirmed
    }
}

/// The day after `d` still lies in the supported range of years.
pub open spec fn has_next_day(d: Date) -> bool {
    year_in_range(next_day(d).year as int)
}

/// The decimal digits of `n`, without leading zeros.
pub open spec fn decimal(n: nat) -> Seq<char>
    decreases n,
{
    if n < 10 {
        seq![digit_char(n as int)]
    } else {
        decimal(n / 10).push(digit_char((n % 10) as int))
    }
}

/// The summary of the event for `name`'s birthday at age `age`.
pub open spec fn age_summary(name: Seq<char>, age: nat) -> Seq<char> {
    name + "'s "@ + decimal(age) + suffix_of(age) + " Birthday"@
}

/// The summary of the one event for `name`'s birthday, without an age.
pub open spec fn plain_summary(name: Seq<char>) -> Seq<char> {
    name + "'s Birthday"@
}

fn digit_text(d: u32) -> (r: &'static str)
    requires
        d < 10,
    ensures
        r@ == seq![digit_char(d as int)],
{
    proof {
        reveal_strlit("0");
        reveal_strlit("1");
        reveal_strlit("2");
        reveal_strlit("3");
        reveal_strlit("4");
        reveal_strlit("5");
        reveal_strlit("6");
        reveal_strlit("7");
        reveal_strlit("8");
        reveal_strlit("9");
    }
    match d {
        0 => "0",
        1 => "1",
        2 => "2",
        3 => "3",
        4 => "4",
        5 => "5",
        6 => "6",
        7 => "7",
        8 => "8",
        _ => "9",
    }
}

fn push_decimal(s: &mut String, n: u32)
    ensures
        final(s)@ == old(s)@ + decimal(n as nat),
    decreases n,
{
    if n >= 10 {
        push_decimal(s, n / 10);
    }
    s.append(digit_text(n % 10));
    proof {
        if n >= 10 {
            assert(final(s)@ =~= old(s)@ + decimal(n as nat));
        } else {
            assert(final(s)@ =~= old(s)@ + decimal(n as nat));
        }
    }
}

/// The text of `n` in decimal digits.
pub fn decimal_text(n: u32) -> (r: String)
    ensures
        r@ == decimal(n as nat),
{
    let mut s = String::new();
    push_decimal(&mut s, n);
    assert(s@ =~= decimal(n as nat));
    s
}

/// `"{name}'s {age}{suffix} Birthday"`, the suffix chosen by `ordinal_suffix`.
pub fn birthday_summary(name: &str, age: u32) -> (r: String)
    ensures
        r@ == age_summary(name@, age as nat),
{
    let mut s = String::new();
    s.append(name);
    s.append("'s ");
    push_decimal(&mut s, age);
    s.append(ordinal_suffix(age));
    s.append(" Birthday");
    assert(s@ =~= age_summary(name@, age as nat));
    s
}

/// `"{name}'s Birthday"`.
pub fn plain_birthday_summary(name: &str) -> (r: String)
    ensures
        r@ == plain_summary(name@),
{
    let mut s = String::new();
    s.append(name);
    s.append("'s Birthday");
    assert(s@ =~= plain_summary(name@));
    s
}

/// Relies on uuid's `Uuid::new_v4`, a random identifier, written by its
/// `Display` in the hyphenated form of 36 characters.
#[verifier::external_body]
fn fresh_uid() -> (r: String)
    ensures
        r@.len() == 36,
{
    Uuid::new_v4().to_string()
}

/// A confirmed all-day event on `day` with the given summary and a fresh
/// random identifier; it ends, exclusively, on the day after.
pub fn all_day_event(name: String, day: Date) -> (r: CalendarEvent)
    requires
        day.wf(),
        has_next_day(day),
    ensures
        r.wf(),
        r.uid@.len() == 36,
        r.start == day,
        r.end == next_day(day),
        r.summary@ == name@,
        r.status == EventStatus::Confirmed,
{
    let uid = fresh_uid();
    assert(days_after(day, 1) == next_day(days_after(day, 0)));
    let end = match day.add_days(1) {
        Some(e) => e,
        None => day,
    };
    assert(end == next_day(day));
    CalendarEvent { uid, start: day, end, summary: name, status: EventStatus::Confirmed }
}

} // verus!
