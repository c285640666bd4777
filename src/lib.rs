//! Birthday calendars: expands each person's birth date into the
//! anniversaries that fall on or before a horizon date and turns each into an
//! all-day calendar event.
use vstd::prelude::*;

pub mod anniversary;
pub mod calendar;
pub mod date;
pub mod event;

verus! {

} // verus!
