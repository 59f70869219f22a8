//! The segmentation policy: when the current output file is full.
use vstd::prelude::*;

verus! {

/// How a recording is to be split, as configured by the caller.
pub enum Segment {
    /// Split after the given number of milliseconds.
    Time(u64),
    /// Split after the given number of bytes.
    Size(u64),
    /// Never split.
    Never,
}

/// Accumulators of elapsed time (milliseconds) and written size (bytes)
/// since the last split, with the budgets that trigger the next one.
/// A budget of `None` is never reached.
pub struct Segmentable {
    pub expected_time: Option<u64>,
    pub start_time: u64,
    pub current_time: u64,
    pub expected_size: Option<u64>,
    pub current_size: u64,
}

/// Elapsed time counted since the start position; a start beyond the
/// current position counts as nothing elapsed.
pub open spec fn elapsed(s: Segmentable) -> int {
    if s.current_time >= s.start_time { s.current_time - s.start_time } else { 0 }
}

/// The policy's verdict on a state.
pub open spec fn needed_spec(s: Segmentable) -> bool {
    (s.expected_time is Some && elapsed(s) >= s.expected_time->0 as int)
        || (s.expected_size is Some && s.current_size > s.expected_size->0)
}

pub open spec fn sat_add(a: u64, b: u64) -> u64 {
    if a + b > u64::MAX { u64::MAX } else { (a + b) as u64 }
}

impl Segmentable {
    pub fn new(expected_time: Option<u64>, expected_size: Option<u64>) -> (r: Self)
        ensures
            r.expected_time == expected_time,
            r.expected_size == expected_size,
            r.start_time == 0,
            r.current_time == 0,
            r.current_size == 0,
    {
        Segmentable { expected_time, start_time: 0, current_time: 0, expected_size, current_size: 0 }
    }

    /// A policy built from a split configuration.
    pub fn from_segment(segment: &Segment) -> (r: Self)
        ensures
            r.start_time == 0,
            r.current_time == 0,
            r.current_size == 0,
            r.expected_time == (match *segment {
                Segment::Time(t) => Some(t),
                _ => None,
            }),
            r.expected_size == (match *segment {
                Segment::Size(n) => Some(n),
                _ => None,
            }),
    {
        match segment {
            Segment::Time(t) => Segmentable::new(Some(*t), None),
            Segment::Size(n) => Segmentable::new(None, Some(*n)),
            Segment::Never => Segmentable::new(None, None),
        }
    }

    /// True iff the elapsed time has reached the time budget or the written
    /// size has gone beyond the size budget.
    pub fn needed(&self) -> (r: bool)
        ensures
            r == needed_spec(*self),
    {
        let time_due = match self.expected_time {
            Some(t) => {
                let elapsed: u64 = if self.current_time >= self.start_time {
                    self.current_time - self.start_time
                } else {
                    0
                };
                elapsed >= t
            },
            None => false,
        };
        let size_due = match self.expected_size {
            Some(n) => self.current_size > n,
            None => false,
        };
        time_due || size_due
    }

    pub fn increase_time(&mut self, number: u64)
        ensures
            final(self).current_time == sat_add(old(self).current_time, number),
            final(self).start_time == old(self).start_time,
            final(self).current_size == old(self).current_size,
            final(self).expected_time == old(self).expected_time,
            final(self).expected_size == old(self).expected_size,
    {
        self.current_time = self.current_time.saturating_add(number);
    }

    pub fn set_time_position(&mut self, number: u64)
        ensures
            *final(self) == (Segmentable { current_time: number, ..*old(self) }),
    {
        self.current_time = number;
    }

    pub fn set_start_time(&mut self, number: u64)
        ensures
            *final(self) == (Segmentable { start_time: number, ..*old(self) }),
    {
        self.start_time = number;
    }

    pub fn increase_size(&mut self, number: u64)
        ensures
            final(self).current_size == sat_add(old(self).current_size, number),
            final(self).start_time == old(self).start_time,
            final(self).current_time == old(self).current_time,
            final(self).expected_time == old(self).expected_time,
            final(self).expected_size == old(self).expected_size,
    {
        self.current_size = self.current_size.saturating_add(number);
    }

    pub fn set_size_position(&mut self, number: u64)
        ensures
            *final(self) == (Segmentable { current_size: number, ..*old(self) }),
    {
        self.current_size = number;
    }

    /// Zeroes both accumulators and the start position; the budgets stay.
    pub fn reset(&mut self)
        ensures
            *final(self) == (Segmentable {
                current_size: 0,
                current_time: 0,
                start_time: 0,
                ..*old(self)
            }),
            !needed_spec(*final(self)) || final(self).expected_time == Some(0u64),
    {
        self.current_size = 0;
        self.current_time = 0;
        self.start_time = 0;
    }
}

impl Default for Segmentable {
    fn default() -> (r: Self)
        ensures
            r == Segmentable::new_spec(),
    {
        Segmentable::new(None, None)
    }
}

impl Segmentable {
    /// The policy that never splits.
    pub open spec fn new_spec() -> Segmentable {
        Segmentable { expected_time: None, start_time: 0, current_time: 0, expected_size: None, current_size: 0 }
    }
}

} // verus!
