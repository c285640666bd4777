use birthday_cal::anniversary::{expand, ordinal_suffix, Occurrence};
use birthday_cal::calendar::{build_calendar, horizon_from, Calendar, Mode, Person};
use birthday_cal::date::{Date, MAX_YEAR};
use birthday_cal::event::{
    all_day_event, birthday_summary, decimal_text, plain_birthday_summary, EventStatus,
};

fn ymd(year: i32, month: u32, day: u32) -> Date {
    Date::new(year, month, day).unwrap()
}

fn person(name: &str, birthday: Date) -> Person {
    Person { name: name.to_string(), birthday }
}

#[test]
fn new_date_accepts_only_existing_days() {
    assert_eq!(Date::new(2024, 2, 29), Some(Date { year: 2024, month: 2, day: 29 }));
    assert_eq!(Date::new(2023, 2, 29), None);
    assert_eq!(Date::new(1900, 2, 29), None);
    assert_eq!(Date::new(2000, 2, 29), Some(Date { year: 2000, month: 2, day: 29 }));
    assert_eq!(Date::new(2023, 4, 31), None);
    assert_eq!(Date::new(2023, 0, 1), None);
    assert_eq!(Date::new(2023, 13, 1), None);
    assert_eq!(Date::new(2023, 1, 0), None);
    assert_eq!(Date::new(MAX_YEAR + 1, 1, 1), None);
}

#[test]
fn with_year_skips_missing_leap_day() {
    let leap = ymd(2000, 2, 29);
    assert_eq!(leap.with_year(2023), None);
    assert_eq!(leap.with_year(2024), Some(ymd(2024, 2, 29)));
    assert_eq!(ymd(1990, 3, 15).with_year(2024), Some(ymd(2024, 3, 15)));
}

#[test]
fn add_days_crosses_month_and_year() {
    assert_eq!(ymd(2023, 12, 31).add_days(1), Some(ymd(2024, 1, 1)));
    assert_eq!(ymd(2024, 2, 28).add_days(1), Some(ymd(2024, 2, 29)));
    assert_eq!(ymd(2023, 2, 28).add_days(1), Some(ymd(2023, 3, 1)));
    assert_eq!(ymd(MAX_YEAR, 12, 31).add_days(1), None);
}

#[test]
fn horizon_is_365_days_later() {
    assert_eq!(horizon_from(ymd(2024, 1, 1)), Some(ymd(2024, 12, 31)));
    assert_eq!(horizon_from(ymd(2023, 1, 1)), Some(ymd(2024, 1, 1)));
}

#[test]
fn compact_date_text() {
    assert_eq!(ymd(2024, 3, 15).compact(), "20240315");
    assert_eq!(ymd(987, 1, 2).compact(), "09870102");
}

#[test]
fn is_after_orders_dates() {
    assert!(ymd(2024, 3, 16).is_after(&ymd(2024, 3, 15)));
    assert!(!ymd(2024, 3, 15).is_after(&ymd(2024, 3, 15)));
    assert!(ymd(2025, 1, 1).is_after(&ymd(2024, 12, 31)));
}

#[test]
fn ordinal_suffix_by_last_digit() {
    assert_eq!(ordinal_suffix(0), "th");
    assert_eq!(ordinal_suffix(1), "st");
    assert_eq!(ordinal_suffix(2), "nd");
    assert_eq!(ordinal_suffix(3), "rd");
    assert_eq!(ordinal_suffix(4), "th");
    assert_eq!(ordinal_suffix(10), "th");
    assert_eq!(ordinal_suffix(11), "st");
    assert_eq!(ordinal_suffix(12), "nd");
    assert_eq!(ordinal_suffix(13), "rd");
    assert_eq!(ordinal_suffix(21), "st");
    assert_eq!(ordinal_suffix(22), "nd");
    assert_eq!(ordinal_suffix(23), "rd");
}

#[test]
fn decimal_text_values() {
    assert_eq!(decimal_text(0), "0");
    assert_eq!(decimal_text(7), "7");
    assert_eq!(decimal_text(34), "34");
    assert_eq!(decimal_text(1200), "1200");
    assert_eq!(decimal_text(u32::MAX), "4294967295");
}

#[test]
fn summaries() {
    assert_eq!(birthday_summary("Ada", 34), "Ada's 34th Birthday");
    assert_eq!(birthday_summary("Bob", 11), "Bob's 11st Birthday");
    assert_eq!(birthday_summary("Cy", 0), "Cy's 0th Birthday");
    assert_eq!(plain_birthday_summary("Ada"), "Ada's Birthday");
}

#[test]
fn expand_every_year_until_horizon() {
    let b = ymd(1990, 3, 15);
    let occ = expand(b, ymd(2024, 12, 31));
    assert_eq!(occ.len(), 35);
    for (i, o) in occ.iter().enumerate() {
        assert_eq!(o.age as usize, i);
        assert_eq!(o.date, ymd(1990 + i as i32, 3, 15));
    }
    // the anniversary in the horizon's year is left out when it lies after it
    let occ = expand(b, ymd(2024, 3, 14));
    assert_eq!(occ.len(), 34);
    assert_eq!(occ[33], Occurrence { age: 33, date: ymd(2023, 3, 15) });
    // and kept when it falls on it
    let occ = expand(b, ymd(2024, 3, 15));
    assert_eq!(occ.len(), 35);
}

#[test]
fn expand_leap_day_only_in_leap_years() {
    let occ = expand(ymd(2000, 2, 29), ymd(2024, 12, 31));
    let ages: Vec<u32> = occ.iter().map(|o| o.age).collect();
    assert_eq!(ages, vec![0, 4, 8, 12, 16, 20, 24]);
    for o in occ.iter() {
        assert_eq!(o.date, ymd(2000 + o.age as i32, 2, 29));
    }
    let occ = expand(ymd(1896, 2, 29), ymd(1904, 3, 1));
    let ages: Vec<u32> = occ.iter().map(|o| o.age).collect();
    assert_eq!(ages, vec![0, 8]);
}

#[test]
fn expand_empty_only_when_birth_after_horizon() {
    assert!(expand(ymd(2025, 1, 1), ymd(2024, 12, 31)).is_empty());
    assert!(expand(ymd(2024, 12, 31), ymd(2024, 12, 30)).is_empty());
    let occ = expand(ymd(2024, 12, 31), ymd(2024, 12, 31));
    assert_eq!(occ, vec![Occurrence { age: 0, date: ymd(2024, 12, 31) }]);
}

#[test]
fn all_day_event_spans_one_day() {
    let a = all_day_event("Ada's Birthday".to_string(), ymd(2023, 12, 31));
    assert_eq!(a.start, ymd(2023, 12, 31));
    assert_eq!(a.end, ymd(2024, 1, 1));
    assert_eq!(a.summary, "Ada's Birthday");
    assert_eq!(a.status, EventStatus::Confirmed);
    assert_eq!(a.uid.len(), 36);
    let b = all_day_event("Ada's Birthday".to_string(), ymd(2023, 12, 31));
    assert_eq!(b.start, a.start);
    assert_eq!(b.summary, a.summary);
    assert!(!b.uid.is_empty());
    assert_ne!(a.uid, b.uid);
}

#[test]
fn calendar_keeps_event_order() {
    let mut cal = Calendar::new("-//me//birthdays//EN".to_string());
    assert_eq!(cal.version(), "2.0");
    assert!(cal.events.is_empty());
    cal.add_event(all_day_event("first".to_string(), ymd(2024, 5, 1)));
    cal.add_event(all_day_event("second".to_string(), ymd(2020, 1, 1)));
    assert_eq!(cal.product_id, "-//me//birthdays//EN");
    assert_eq!(cal.events.len(), 2);
    assert_eq!(cal.events[0].summary, "first");
    assert_eq!(cal.events[1].summary, "second");
}

#[test]
fn scenario_single_person_expanding() {
    let today = ymd(2024, 1, 1);
    let horizon = horizon_from(today).unwrap();
    let people = vec![person("Ada", ymd(1990, 3, 15))];
    let cal = build_calendar("pid".to_string(), &people, horizon, Mode::Expanding);
    assert_eq!(cal.product_id, "pid");
    assert_eq!(cal.events.len(), 35);
    let in_window: Vec<_> = cal
        .events
        .iter()
        .filter(|e| !today.is_after(&e.start) && !e.start.is_after(&horizon))
        .collect();
    assert_eq!(in_window.len(), 1);
    assert_eq!(in_window[0].start, ymd(2024, 3, 15));
    assert_eq!(in_window[0].end, ymd(2024, 3, 16));
    assert_eq!(in_window[0].summary, "Ada's 34th Birthday");
    assert_eq!(cal.events[0].summary, "Ada's 0th Birthday");
    for e in cal.events.iter() {
        assert_eq!(e.end, e.start.add_days(1).unwrap());
        assert_eq!(e.status, EventStatus::Confirmed);
    }
}

#[test]
fn scenario_leap_day_person() {
    let people = vec![person("Leap", ymd(2000, 2, 29))];
    let cal = build_calendar("pid".to_string(), &people, ymd(2024, 12, 31), Mode::Expanding);
    let from = ymd(2023, 1, 1);
    let in_window: Vec<_> = cal.events.iter().filter(|e| !from.is_after(&e.start)).collect();
    assert_eq!(in_window.len(), 1);
    assert_eq!(in_window[0].start, ymd(2024, 2, 29));
    assert_eq!(in_window[0].end, ymd(2024, 3, 1));
    assert_eq!(in_window[0].summary, "Leap's 24th Birthday");
    assert!(cal.events.iter().all(|e| e.start.year != 2023));
}

#[test]
fn scenario_simple_mode() {
    let people = vec![person("Ada", ymd(1990, 3, 15))];
    let cal = build_calendar("pid".to_string(), &people, ymd(2024, 12, 31), Mode::Simple);
    assert_eq!(cal.events.len(), 1);
    assert_eq!(cal.events[0].start, ymd(1990, 3, 15));
    assert_eq!(cal.events[0].end, ymd(1990, 3, 16));
    assert_eq!(cal.events[0].summary, "Ada's Birthday");
    assert_eq!(cal.events[0].start.compact(), "19900315");
    assert_eq!(cal.events[0].end.compact(), "19900316");
}

#[test]
fn people_keep_list_order() {
    let people = vec![
        person("Zed", ymd(2024, 6, 1)),
        person("Amy", ymd(2023, 7, 2)),
        person("Late", ymd(2030, 1, 1)),
    ];
    let cal = build_calendar("pid".to_string(), &people, ymd(2024, 12, 31), Mode::Expanding);
    let summaries: Vec<&str> = cal.events.iter().map(|e| e.summary.as_str()).collect();
    assert_eq!(summaries, vec!["Zed's 0th Birthday", "Amy's 0th Birthday", "Amy's 1st Birthday"]);
}
