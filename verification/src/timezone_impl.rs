use vstd::prelude::*;
use crate::span_table::SpanTable;
use crate::timespan::FixedTimespan;
use crate::timespan::LocalResult;

verus! {

/// The history of one zone: the span in force before the first recorded
/// change, and each change with the span that it brings.
///
/// A value of this type is always well-formed in the sense of
/// [`SpanTable::wf`]: `new` makes no other, and nothing changes one that was
/// made. So every lookup finds an answer, and no wall-clock reading has more
/// than two spans that can account for it.
#[derive(Clone, Copy, Debug)]
pub struct FixedTimespanSet {
    first: FixedTimespan,
    rest: &'static [(i64, FixedTimespan)],
}

impl View for FixedTimespanSet {
    type V = SpanTable;

    closed spec fn view(&self) -> SpanTable {
        SpanTable { first: self.first, rest: self.rest@ }
    }
}

/// A type that stands for a zone and knows the zone's history.
pub trait TimeSpans {
    /// The history of the zone.
    spec fn history(&self) -> SpanTable;

    /// The history of the zone.
    fn timespans(&self) -> (set: FixedTimespanSet)
        ensures
            set@ == self.history(),
            set@.wf(),
    ;
}

impl FixedTimespanSet {
    #[verifier::type_invariant]
    spec fn well_formed(self) -> bool {
        self@.wf()
    }

    /// The table with the given first span and changes, where these make a
    /// well-formed table, and nothing where they do not.
    pub fn new(first: FixedTimespan, rest: &'static [(i64, FixedTimespan)]) -> (made: Option<
        FixedTimespanSet,
    >)
        ensures
            made is Some <==> (SpanTable { first, rest: rest@ }).wf(),
            made matches Some(set) ==> set@ == (SpanTable { first, rest: rest@ }),
    {
        let ghost table = SpanTable { first, rest: rest@ };
        let n = rest.len();
        let mut i: usize = 1;
        while i < n
            invariant
                1 <= i,
                n == rest@.len(),
                table == (SpanTable { first, rest: rest@ }),
                forall|a: int, b: int|
                    1 <= a < b <= i && b <= n ==> table.starts_at(a) < table.starts_at(b),
                forall|k: int| 1 <= k < i && k < n ==> #[trigger] table.steady_at(k),
            decreases n - i,
        {
            let before = if i == 1 {
                first
            } else {
                rest[i - 2].1
            };
            let (begin, here) = rest[i - 1];
            let (end, after) = rest[i];
            if begin >= end {
                assert(!(table.starts_at(i as int) < table.starts_at(i + 1)));
                return None;
            }
            assert(table.span(i - 1) == before);
            assert(table.span(i as int) == here);
            assert(table.span(i + 1) == after);
            let start_here: i128 = begin as i128 + here.total_offset() as i128;
            let start_next: i128 = end as i128 + after.total_offset() as i128;
            let end_before: i128 = begin as i128 + before.total_offset() as i128;
            let end_here: i128 = end as i128 + here.total_offset() as i128;
            if start_here > start_next || end_before > end_here || end_before > start_next {
                assert(!table.steady_at(i as int));
                return None;
            }
            assert(table.steady_at(i as int));
            i += 1;
        }
        Some(FixedTimespanSet { first, rest })
    }

    /// The table with the given first span and changes, which are known to
    /// make a well-formed table.
    pub(crate) fn assemble(first: FixedTimespan, rest: &'static [(i64, FixedTimespan)]) -> (set:
        FixedTimespanSet)
        requires
            (SpanTable { first, rest: rest@ }).wf(),
        ensures
            set@ == (SpanTable { first, rest: rest@ }),
            set@.wf(),
    {
        FixedTimespanSet { first, rest }
    }

    /// The span in force before the first change.
    pub fn first(&self) -> (span: FixedTimespan)
        ensures
            span == self@.first,
            self@.wf(),
    {
        proof {
            use_type_invariant(self);
        }
        self.first
    }

    /// The changes in the order in which they occur, each as the instant at
    /// which it occurs and the span that it brings.
    pub fn rest(&self) -> (changes: &'static [(i64, FixedTimespan)])
        ensures
            changes@ == self@.rest,
            self@.wf(),
    {
        proof {
            use_type_invariant(self);
        }
        self.rest
    }

    /// Span `index` of the table.
    pub fn get(&self, index: usize) -> (span: FixedTimespan)
        requires
            index < self@.len(),
        ensures
            span == self@.span(index as int),
    {
        if index == 0 {
            self.first
        } else {
            self.rest[index - 1].1
        }
    }

    /// The number of the span in force at `instant`.
    pub fn index_at(&self, instant: i64) -> (index: usize)
        ensures
            index == self@.index_at(instant as int),
            self@.covers(index as int, instant as int),
    {
        proof {
            use_type_invariant(self);
        }
        let mut lo: usize = 0;
        let mut hi: usize = self.rest.len();
        while lo < hi
            invariant
                lo <= hi <= self.rest@.len(),
                lo == 0 || self@.starts_at(lo as int) <= instant,
                hi == self.rest@.len() || instant < self@.starts_at(hi + 1),
            decreases hi - lo,
        {
            let mid = hi - (hi - lo) / 2;
            if self.rest[mid - 1].0 <= instant {
                lo = mid;
            } else {
                hi = mid - 1;
            }
        }
        proof {
            self@.lemma_covers_unique(lo as int, instant as int);
        }
        lo
    }

    /// The span in force at `instant`: the last one that has begun by then,
    /// or the first span of the table where none has.
    pub fn offset_at(&self, instant: i64) -> (span: FixedTimespan)
        ensures
            span == self@.span_at(instant as int),
    {
        let index = self.index_at(instant);
        self.get(index)
    }

    /// The number of the last span that has begun to show wall-clock
    /// readings by `local`.
    fn pivot(&self, local: i64) -> (index: usize)
        ensures
            self@.pivot(index as int, local as int),
    {
        let mut lo: usize = 0;
        let mut hi: usize = self.rest.len();
        while lo < hi
            invariant
                lo <= hi <= self.rest@.len(),
                lo == 0 || self@.local_start(lo as int) <= local,
                hi == self.rest@.len() || local < self@.local_start(hi + 1),
            decreases hi - lo,
        {
            let mid = hi - (hi - lo) / 2;
            let (begin, span) = self.rest[mid - 1];
            assert(self@.span(mid as int) == span);
            if begin as i128 + span.total_offset() as i128 <= local as i128 {
                lo = mid;
            } else {
                hi = mid - 1;
            }
        }
        lo
    }

    /// Whether span `index` can account for the wall-clock reading `local`.
    fn accounts_for(&self, index: usize, local: i64) -> (yes: bool)
        requires
            index < self@.len(),
        ensures
            yes == self@.is_candidate(index as int, local as int),
    {
        let total = self.get(index).total_offset() as i128;
        let begun = index == 0 || self.rest[index - 1].0 as i128 + total <= local as i128;
        let ended = index < self.rest.len() && self.rest[index].0 as i128 + total <= local as i128;
        begun && !ended
    }

    /// What the wall-clock reading `local` stands for in the zone.
    ///
    /// The reading is given as the seconds from the epoch to the instant at
    /// which a clock that keeps UTC shows it. A span can account for the
    /// reading if the instant that shows it under the span's offset lies in
    /// that span. The result is `Nonexistent` where no span can, `Single`
    /// with the span where one can, and `Ambiguous` with the earlier and the
    /// later span where two can.
    pub fn offset_at_local(&self, local: i64) -> (outcome: LocalResult)
        ensures
            outcome == self@.resolve_local(local as int),
    {
        proof {
            use_type_invariant(self);
        }
        let p = self.pivot(local);
        proof {
            self@.lemma_candidates_at_pivot(p as int, local as int);
        }
        let here = self.accounts_for(p, local);
        if p >= 1 && self.accounts_for(p - 1, local) {
            if here {
                LocalResult::Ambiguous(self.get(p - 1), self.get(p))
            } else {
                LocalResult::Single(self.get(p - 1))
            }
        } else if here {
            LocalResult::Single(self.get(p))
        } else {
            LocalResult::Nonexistent
        }
    }
}

} // verus!
