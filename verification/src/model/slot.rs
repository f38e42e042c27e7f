use vstd::prelude::*;
use crate::model::time::{spec_datetime_of, datetime_of};

verus! {

/// A period of free time into which tasks may be planned, as Unix timestamps in seconds.
#[derive(Clone, Copy, Debug, PartialEq, Eq)]
pub struct Slot {
    starts_at: i64,
    ends_at: i64,
}

/// The mathematical model of a slot: its stored start and end.
pub struct SlotView {
    pub start: int,
    pub end: int,
}

impl View for Slot {
    type V = SlotView;

    closed spec fn view(&self) -> SlotView {
        SlotView { start: self.starts_at as int, end: self.ends_at as int }
    }
}

impl Slot {
    pub fn new(starts_at: i64, ends_at: i64) -> (s: Slot)
        ensures
            s@ == (SlotView { start: starts_at as int, end: ends_at as int }),
    {
        Slot { starts_at, ends_at }
    }

    /// The start as a calendar timestamp (the Unix epoch where the calendar cannot
    /// represent the stored value).
    pub fn starts_at(&self) -> (r: i64)
        ensures
            r == spec_datetime_of(self@.start),
    {
        datetime_of(self.starts_at)
    }

    /// The end as a calendar timestamp (the Unix epoch where the calendar cannot
    /// represent the stored value).
    pub fn ends_at(&self) -> (r: i64)
        ensures
            r == spec_datetime_of(self@.end),
    {
        datetime_of(self.ends_at)
    }

    /// The length of the slot in seconds: its end minus its start, both read as
    /// calendar timestamps.
    pub fn duration(&self) -> (r: i64)
        ensures
            r == spec_datetime_of(self@.end) - spec_datetime_of(self@.start),
    {
        self.ends_at() - self.starts_at()
    }

    /// The stored start, in seconds.
    pub fn start_secs(&self) -> (r: i64)
        ensures
            r == self@.start,
    {
        self.starts_at
    }

    /// The stored end, in seconds.
    pub fn end_secs(&self) -> (r: i64)
        ensures
            r == self@.end,
    {
        self.ends_at
    }
}

} // verus!
