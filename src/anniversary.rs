//! Expansion of a birth date into its anniversaries up to a horizon date.
use crate::date::{date_le, date_lt, in_year, is_leap_year, year_in_range, Date};
use vstd::prelude::*;

verus! {

/// One anniversary of a birth date: the age reached and the day it falls on.
#[derive(Clone, Copy, Debug, PartialEq, Eq, Structural)]
pub struct Occurrence {
    pub age: u32,
    pub date: Date,
}

/// The anniversaries of `b` from age `age` on that fall on or before `h`, in
/// order of age. An age whose day does not exist in its year is left out.
pub open spec fn anniversaries_from(b: Date, h: Date, age: nat) -> Seq<Occurrence>
    decreases h.year - b.year - age + 1,
{
    if b.year + age > h.year {
        Seq::empty()
    } else {
        let rest = anniversaries_from(b, h, age + 1);
        match in_year(b, b.year + age) {
            Some(c) => if date_le(c, h) {
                seq![Occurrence { age: age as u32, date: c }] + rest
            } else {
                rest
            },
            None => rest,
        }
    }
}

/// Every anniversary of `b`, from age zero, that falls on or before `h`.
pub open spec fn anniversaries(b: Date, h: Date) -> Seq<Occurrence> {
    anniversaries_from(b, h, 0)
}

/// `b` moved to the year in which it is reached at age `a`.
pub open spec fn at_age(b: Date, a: nat) -> Date {
    Date { year: (b.year + a) as i32, ..b }
}

/// The ordinal suffix written after an age: chosen by its last digit alone.
pub open spec fn suffix_of(age: nat) -> Seq<char> {
    if age % 10 == 1 {
        "st"@
    } else if age % 10 == 2 {
        "nd"@
    } else if age % 10 == 3 {
        "rd"@
    } else {
        "th"@
    }
}

/// Once an anniversary falls after the horizon, no later one is on or before it.
proof fn lemma_rest_past_horizon(b: Date, h: Date, age: nat, c: Date)
    requires
        in_year(b, b.year + age) == Some(c),
        date_lt(h, c),
    ensures
        anniversaries_from(b, h, age + 1) == Seq::<Occurrence>::empty(),
{
    assert(b.year + age + 1 > h.year);
}

/// The anniversaries of `birthday` that fall on or before `horizon`, in
/// increasing order of age from age zero.
pub fn expand(birthday: Date, horizon: Date) -> (r: Vec<Occurrence>)
    requires
        birthday.wf(),
        horizon.wf(),
    ensures
        r@ == anniversaries(birthday, horizon),
{
    let mut out: Vec<Occurrence> = Vec::new();
    let mut age: u32 = 0;
    let mut year: i32 = birthday.year;
    loop
        invariant
            birthday.wf(),
            horizon.wf(),
            year == birthday.year + age,
            birthday.year <= year,
            out@ + anniversaries_from(birthday, horizon, age as nat) == anniversaries(
                birthday,
                horizon,
            ),
        ensures
            out@ == anniversaries(birthday, horizon),
        decreases horizon.year + 1 - year,
    {
        if year > horizon.year {
            assert(out@ + anniversaries_from(birthday, horizon, age as nat) == out@);
            break ;
        }
        let ghost rest = anniversaries_from(birthday, horizon, age as nat + 1);
        match birthday.with_year(year) {
            None => {},
            Some(c) => {
                if c.is_after(&horizon) {
                    proof {
                        lemma_rest_past_horizon(birthday, horizon, age as nat, c);
                        assert(out@ + anniversaries_from(birthday, horizon, age as nat) == out@);
                    }
                    break ;
                }
                let ghost before = out@;
                out.push(Occurrence { age, date: c });
                assert(out@ + rest == before + anniversaries_from(birthday, horizon, age as nat));
            },
        }
        age = age + 1;
        year = year + 1;
    }
    out
}

/// The ordinal suffix for `age`, chosen by its last digit alone: "st", "nd"
/// and "rd" for 1, 2 and 3 (so 11, 12 and 13 get them too), "th" otherwise.
pub fn ordinal_suffix(age: u32) -> (r: &'static str)
    ensures
        r@ == suffix_of(age as nat),
{
    let last = age % 10;
    if last == 1 {
        "st"
    } else if last == 2 {
        "nd"
    } else if last == 3 {
        "rd"
    } else {
        "th"
    }
}

/// What the anniversaries from age `age` on are: their ages are at least
/// `age` and strictly increase, each is `b` moved to the year of its age and
/// lies on or before `h`, and each such age from `age` on is among them.
proof fn lemma_anniversaries_from_exact(b: Date, h: Date, age: nat)
    requires
        b.wf(),
        h.wf(),
    ensures
        ({
            let s = anniversaries_from(b, h, age);
            &&& forall|i: int| 0 <= i < s.len() ==> age <= #[trigger] s[i].age
            &&& forall|i: int, j: int| 0 <= i < j < s.len() ==> s[i].age < s[j].age
            &&& forall|i: int|
                0 <= i < s.len() ==> in_year(b, b.year + #[trigger] s[i].age) == Some(s[i].date)
                    && date_le(s[i].date, h)
            &&& forall|a: nat|
                #![trigger in_year(b, b.year + a)]
                age <= a && in_year(b, b.year + a) is Some && date_le(
                    in_year(b, b.year + a)->0,
                    h,
                ) ==> exists|i: int| 0 <= i < s.len() && s[i].age == a
        }),
    decreases h.year - b.year - age + 1,
{
    let s = anniversaries_from(b, h, age);
    if b.year + age > h.year {
        assert forall|a: nat|
            #![trigger in_year(b, b.year + a)]
            age <= a && in_year(b, b.year + a) is Some implies !date_le(
            in_year(b, b.year + a)->0,
            h,
        ) by {}
    } else {
        lemma_anniversaries_from_exact(b, h, age + 1);
        let rest = anniversaries_from(b, h, age + 1);
        assert forall|a: nat|
            #![trigger in_year(b, b.year + a)]
            age <= a && in_year(b, b.year + a) is Some && date_le(in_year(b, b.year + a)->0, h)
            implies exists|i: int| 0 <= i < s.len() && s[i].age == a by {
            if a == age {
                assert(s[0].age == a);
            } else {
                let j = choose|j: int| 0 <= j < rest.len() && rest[j].age == a;
                match in_year(b, b.year + age) {
                    Some(c) => if date_le(c, h) {
                        assert(s[j + 1] == rest[j]);
                    } else {
                        assert(s[j] == rest[j]);
                    },
                    None => {
                        assert(s[j] == rest[j]);
                    },
                }
            }
        }
    }
}

/// Expansion yields, in strictly increasing order of age, exactly the ages
/// whose anniversary day exists and falls on or before the horizon, each with
/// the birth date moved to the year of that age.
pub proof fn lemma_expand_exact(b: Date, h: Date)
    requires
        b.wf(),
        h.wf(),
    ensures
        ({
            let s = anniversaries(b, h);
            &&& forall|i: int, j: int| 0 <= i < j < s.len() ==> s[i].age < s[j].age
            &&& forall|i: int|
                0 <= i < s.len() ==> in_year(b, b.year + #[trigger] s[i].age) == Some(s[i].date)
                    && date_le(s[i].date, h)
            &&& forall|a: nat|
                #![trigger in_year(b, b.year + a)]
                in_year(b, b.year + a) is Some && date_le(in_year(b, b.year + a)->0, h)
                    ==> exists|i: int| 0 <= i < s.len() && s[i].age == a
        }),
{
    lemma_anniversaries_from_exact(b, h, 0);
}

/// A birth date other than February 29 falls on an existing day in every year.
pub open spec fn recurs_every_year(b: Date) -> bool {
    !(b.month == 2 && b.day == 29)
}

proof fn lemma_every_year_from(b: Date, h: Date, age: nat)
    requires
        b.wf(),
        h.wf(),
        recurs_every_year(b),
        b.year + age <= h.year + 1,
    ensures
        ({
            let s = anniversaries_from(b, h, age);
            &&& forall|i: int|
                0 <= i < s.len() ==> #[trigger] s[i] == Occurrence {
                    age: (age + i) as u32,
                    date: at_age(b, (age + i) as nat),
                }
            &&& date_lt(h, at_age(b, age + s.len()))
        }),
    decreases h.year - b.year - age + 1,
{
    let s = anniversaries_from(b, h, age);
    if b.year + age <= h.year {
        lemma_every_year_from(b, h, age + 1);
        let rest = anniversaries_from(b, h, age + 1);
        assert(in_year(b, b.year + age) == Some(at_age(b, age)));
        if date_le(at_age(b, age), h) {
            assert forall|i: int| 0 <= i < s.len() implies #[trigger] s[i] == Occurrence {
                age: (age + i) as u32,
                date: at_age(b, (age + i) as nat),
            } by {
                if i > 0 {
                    assert(s[i] == rest[i - 1]);
                }
            }
            assert(age + s.len() == age + 1 + rest.len());
        } else {
            assert(rest.len() == 0);
        }
    }
}

/// For a birth date other than February 29 and a horizon on or after it,
/// expansion yields the ages 0, 1, 2, ... in turn, each once, each on the
/// birth date moved to the year of that age, and ends with the first age whose
/// anniversary lies after the horizon.
pub proof fn lemma_expand_every_year(b: Date, h: Date)
    requires
        b.wf(),
        h.wf(),
        recurs_every_year(b),
        date_le(b, h),
    ensures
        ({
            let s = anniversaries(b, h);
            &&& s.len() >= 1
            &&& forall|i: int|
                0 <= i < s.len() ==> #[trigger] s[i] == Occurrence {
                    age: i as u32,
                    date: at_age(b, i as nat),
                }
            &&& date_lt(h, at_age(b, s.len()))
        }),
{
    lemma_every_year_from(b, h, 0);
    let s = anniversaries(b, h);
    assert(at_age(b, 0) == b);
    assert(in_year(b, b.year + 0) == Some(b));
}

/// For a February 29 birth date, every anniversary that expansion yields lies
/// in a leap year, and every age whose year is a leap year in the supported
/// range and whose anniversary is on or before the horizon is yielded; the
/// skipped years in between do not end the sequence.
pub proof fn lemma_expand_leap_day(b: Date, h: Date)
    requires
        b.wf(),
        h.wf(),
        b.month == 2,
        b.day == 29,
    ensures
        ({
            let s = anniversaries(b, h);
            &&& forall|i: int| 0 <= i < s.len() ==> is_leap_year(#[trigger] s[i].date.year as int)
            &&& forall|a: nat|
                is_leap_year(b.year + a) && year_in_range(b.year + a) && date_le(
                    #[trigger] at_age(b, a),
                    h,
                ) ==> exists|i: int| 0 <= i < s.len() && s[i].age == a
        }),
{
    lemma_expand_exact(b, h);
    let s = anniversaries(b, h);
    assert forall|i: int| 0 <= i < s.len() implies is_leap_year(#[trigger] s[i].date.year as int) by {
        assert(in_year(b, b.year + s[i].age) == Some(s[i].date));
    }
    assert forall|a: nat|
        is_leap_year(b.year + a) && year_in_range(b.year + a) && date_le(
            #[trigger] at_age(b, a),
            h,
        ) implies exists|i: int| 0 <= i < s.len() && s[i].age == a by {
        assert(in_year(b, b.year + a) == Some(at_age(b, a)));
    }
}

/// Expansion yields nothing exactly when the birth date itself lies after the
/// horizon; otherwise its first anniversary is age zero on the birth date.
pub proof fn lemma_expand_empty(b: Date, h: Date)
    requires
        b.wf(),
        h.wf(),
    ensures
        anniversaries(b, h).len() == 0 <==> date_lt(h, b),
        !date_lt(h, b) ==> anniversaries(b, h)[0] == (Occurrence { age: 0, date: b }),
{
    assert(in_year(b, b.year + 0) == Some(b));
    if !date_lt(h, b) {
        assert(anniversaries(b, h)[0] == Occurrence { age: 0, date: b });
    } else if b.year <= h.year {
        lemma_rest_past_horizon(b, h, 0, b);
    }
}

} // verus!
