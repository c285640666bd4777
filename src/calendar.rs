//! The calendar of birthday events built from a list of people.
use crate::anniversary::{anniversaries, expand, lemma_expand_exact, Occurrence};
use crate::date::{date_le, days_after, year_in_range, Date};
use crate::event::{
    age_summary, all_day_event, birthday_summary, has_next_day, plain_birthday_summary,
    plain_summary, CalendarEvent,
};
use vstd::prelude::*;

verus! {

/// How many days past today the horizon lies.
pub const HORIZON_DAYS: u32 = 365;

/// A person and their birth date.
#[derive(Debug)]
pub struct Person {
    pub name: String,
    pub birthday: Date,
}

/// Whether each person gets an event for every anniversary up to the horizon,
/// or a single event on the birth date itself.
#[derive(Clone, Copy, Debug, PartialEq, Eq, Structural)]
pub enum Mode {
    Expanding,
    Simple,
}

/// A calendar document: its product identifier and its events in the order
/// they were added. Its format version is `version()`.
#[derive(Debug)]
pub struct Calendar {
    pub product_id: String,
    pub events: Vec<CalendarEvent>,
}

/// The summary and the day of an event.
pub open spec fn entry_of(e: CalendarEvent) -> (Seq<char>, Date) {
    (e.summary@, e.start)
}

pub open spec fn entries_of(events: Seq<CalendarEvent>) -> Seq<(Seq<char>, Date)> {
    events.map_values(|e: CalendarEvent| entry_of(e))
}

/// The summaries and days of the events made for `p`.
pub open spec fn person_entries(p: Person, h: Date, mode: Mode) -> Seq<(Seq<char>, Date)> {
    match mode {
        Mode::Simple => seq![(plain_summary(p.name@), p.birthday)],
        Mode::Expanding => anniversaries(p.birthday, h).map_values(
            |o: Occurrence| (age_summary(p.name@, o.age as nat), o.date),
        ),
    }
}

/// The summaries and days of the events made for `people`, person by person
/// in their order.
pub open spec fn calendar_entries(people: Seq<Person>, h: Date, mode: Mode) -> Seq<
    (Seq<char>, Date),
>
    decreases people.len(),
{
    if people.len() == 0 {
        Seq::empty()
    } else {
        calendar_entries(people.drop_last(), h, mode) + person_entries(people.last(), h, mode)
    }
}

/// What building a calendar needs of a person: a valid birth date, and in
/// simple mode a birth date that is not the last supported day.
pub open spec fn person_ok(p: Person, mode: Mode) -> bool {
    &&& p.birthday.wf()
    &&& mode == Mode::Simple ==> has_next_day(p.birthday)
}

/// What building a calendar needs of the horizon in expanding mode: a valid
/// date that is not the last supported day.
pub open spec fn horizon_ok(h: Date, mode: Mode) -> bool {
    mode == Mode::Expanding ==> h.wf() && has_next_day(h)
}

/// A date on or before one that has a next day has one too.
proof fn lemma_next_day_below(d: Date, h: Date)
    requires
        d.wf(),
        h.wf(),
        date_le(d, h),
        has_next_day(h),
    ensures
        has_next_day(d),
{
}

/// The horizon for `today`: the date `HORIZON_DAYS` days later, where it lies
/// in the supported range.
pub fn horizon_from(today: Date) -> (r: Option<Date>)
    requires
        today.wf(),
    ensures
        r == (if year_in_range(days_after(today, HORIZON_DAYS as nat).year as int) {
            Some(days_after(today, HORIZON_DAYS as nat))
        } else {
            None
        }),
{
    today.add_days(HORIZON_DAYS)
}

impl Calendar {
    /// Every event is well formed.
    pub open spec fn wf(&self) -> bool {
        forall|i: int| 0 <= i < self.events@.len() ==> #[trigger] self.events@[i].wf()
    }

    /// An empty calendar with the given product identifier.
    pub fn new(product_id: String) -> (r: Calendar)
        ensures
            r.product_id == product_id,
            r.events@.len() == 0,
            r.wf(),
    {
        Calendar { product_id, events: Vec::new() }
    }

    /// The calendar format version written into every document.
    pub fn version(&self) -> (r: &'static str)
        ensures
            r@ == "2.0"@,
    {
        "2.0"
    }

    /// Appends `e` after the events already there.
    pub fn add_event(&mut self, e: CalendarEvent)
        requires
            old(self).wf(),
            e.wf(),
        ensures
            final(self).wf(),
            final(self).product_id == old(self).product_id,
            final(self).events@ == old(self).events@.push(e),
    {
        self.events.push(e);
    }

    /// Adds the events for `p`: one per anniversary up to `horizon` in
    /// expanding mode, one on the birth date in simple mode.
    pub fn add_person(&mut self, p: &Person, horizon: Date, mode: Mode)
        requires
            old(self).wf(),
            person_ok(*p, mode),
            horizon_ok(horizon, mode),
        ensures
            final(self).wf(),
            final(self).product_id == old(self).product_id,
            entries_of(final(self).events@) == entries_of(old(self).events@) + person_entries(
                *p,
                horizon,
                mode,
            ),
    {
        let ghost before = self.events@;
        match mode {
            Mode::Simple => {
                let e = all_day_event(plain_birthday_summary(p.name.as_str()), p.birthday);
                self.add_event(e);
                assert(entries_of(self.events@) =~= entries_of(before) + person_entries(
                    *p,
                    horizon,
                    mode,
                ));
            },
            Mode::Expanding => {
                let occ = expand(p.birthday, horizon);
                let ghost all = person_entries(*p, horizon, mode);
                proof {
                    lemma_expand_exact(p.birthday, horizon);
                }
                let mut i: usize = 0;
                while i < occ.len()
                    invariant
                        self.wf(),
                        self.product_id == old(self).product_id,
                        before == old(self).events@,
                        p.birthday.wf(),
                        horizon.wf(),
                        has_next_day(horizon),
                        mode == Mode::Expanding,
                        occ@ == anniversaries(p.birthday, horizon),
                        all == person_entries(*p, horizon, mode),
                        all.len() == occ@.len(),
                        0 <= i <= occ@.len(),
                        forall|k: int|
                            0 <= k < occ@.len() ==> #[trigger] occ@[k].date.wf() && date_le(
                                occ@[k].date,
                                horizon,
                            ),
                        entries_of(self.events@) =~= entries_of(before) + all.take(i as int),
                    decreases occ@.len() - i,
                {
                    let o = occ[i];
                    proof {
                        assert(occ@[i as int].date.wf());
                        lemma_next_day_below(o.date, horizon);
                    }
                    let e = all_day_event(birthday_summary(p.name.as_str(), o.age), o.date);
                    let ghost prev = self.events@;
                    self.add_event(e);
                    assert(entries_of(self.events@) =~= entries_of(prev).push(entry_of(e)));
                    assert(all.take(i + 1) =~= all.take(i as int).push(all[i as int]));
                    i = i + 1;
                }
                assert(all.take(i as int) =~= all);
            },
        }
    }
}

/// The calendar for `people` in the given mode: their events person by person
/// in list order, and for each person in order of age.
pub fn build_calendar(product_id: String, people: &Vec<Person>, horizon: Date, mode: Mode) -> (r:
    Calendar)
    requires
        horizon_ok(horizon, mode),
        forall|i: int| 0 <= i < people@.len() ==> person_ok(#[trigger] people@[i], mode),
    ensures
        r.wf(),
        r.product_id == product_id,
        entries_of(r.events@) == calendar_entries(people@, horizon, mode),
{
    let mut cal = Calendar::new(product_id);
    let mut i: usize = 0;
    while i < people.len()
        invariant
            cal.wf(),
            cal.product_id == product_id,
            horizon_ok(horizon, mode),
            forall|k: int| 0 <= k < people@.len() ==> person_ok(#[trigger] people@[k], mode),
            0 <= i <= people@.len(),
            entries_of(cal.events@) == calendar_entries(people@.take(i as int), horizon, mode),
        decreases people@.len() - i,
    {
        proof {
            assert(people@.take(i + 1).drop_last() =~= people@.take(i as int));
            assert(people@.take(i + 1).last() == people@[i as int]);
        }
        cal.add_person(&people[i], horizon, mode);
        i = i + 1;
    }
    proof {
        assert(people@.take(i as int) =~= people@);
        if people@.len() == 0 {
            assert(entries_of(cal.events@) =~= Seq::empty());
        }
    }
    cal
}

} // verus!
