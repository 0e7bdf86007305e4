use vstd::prelude::*;

verus! {

/// One period of a zone's history during which its clocks keep a constant
/// distance from UTC.
#[derive(Clone, Copy, PartialEq, Eq, Hash, Debug)]
pub struct FixedTimespan {
    /// The zone's standard offset from UTC during this span, in seconds.
    pub utc_offset: i32,
    /// What is added to the standard offset during this span, in seconds;
    /// zero unless the span observes daylight saving time or the like.
    pub dst_offset: i32,
    /// The short label of the span, such as `IST`. Labels repeat within a
    /// zone and between zones.
    pub name: &'static str,
}

impl FixedTimespan {
    /// The distance of local clocks from UTC during this span, in seconds.
    pub open spec fn total(self) -> int {
        self.utc_offset + self.dst_offset
    }

    /// The distance of local clocks from UTC during this span, in seconds:
    /// the standard offset and the adjustment together.
    pub fn total_offset(&self) -> (seconds: i64)
        ensures
            seconds == self.total(),
    {
        self.utc_offset as i64 + self.dst_offset as i64
    }

    /// The short label of the span.
    pub fn abbreviation(&self) -> (label: &'static str)
        ensures
            label == self.name,
    {
        self.name
    }
}

/// What a wall-clock reading stands for in a zone.
#[derive(Clone, Copy, PartialEq, Eq, Hash, Debug)]
pub enum LocalResult {
    /// The reading was skipped when clocks were set forward: no instant
    /// shows it.
    Nonexistent,
    /// Exactly one instant shows the reading, and it lies in this span.
    Single(FixedTimespan),
    /// Clocks were set back over the reading, so two instants show it: the
    /// earlier one lies in the first span, the later one in the second.
    Ambiguous(FixedTimespan, FixedTimespan),
}

} // verus!
