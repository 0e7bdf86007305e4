use vstd::prelude::*;
use crate::timespan::FixedTimespan;
use crate::timespan::LocalResult;

verus! {

/// The history of one zone as a mathematical value.
///
/// The zone's spans are numbered from 0. Span 0 is `first` and has no
/// beginning; span `i`, for `i >= 1`, is `rest[i - 1].1` and begins at the
/// instant `rest[i - 1].0`, counted in seconds from the epoch. A span ends
/// where the next one begins, and the last span has no end.
pub struct SpanTable {
    pub first: FixedTimespan,
    pub rest: Seq<(i64, FixedTimespan)>,
}

impl SpanTable {
    /// The number of spans.
    pub open spec fn len(self) -> int {
        self.rest.len() as int + 1
    }

    /// Span `i`.
    pub open spec fn span(self, i: int) -> FixedTimespan {
        if i <= 0 {
            self.first
        } else {
            self.rest[i - 1].1
        }
    }

    /// The instant at which span `i` begins, for `1 <= i < len()`.
    pub open spec fn starts_at(self, i: int) -> int {
        self.rest[i - 1].0 as int
    }

    /// What a clock in the zone shows when span `i` begins, for
    /// `1 <= i < len()`.
    pub open spec fn local_start(self, i: int) -> int {
        self.starts_at(i) + self.span(i).total()
    }

    /// What a clock in the zone would show at the end of span `i` if it were
    /// not changed there, for `0 <= i < len() - 1`.
    pub open spec fn local_end(self, i: int) -> int {
        self.starts_at(i + 1) + self.span(i).total()
    }

    /// Later spans begin at later instants, and no two at the same one.
    pub open spec fn ordered(self) -> bool {
        forall|i: int, j: int| 1 <= i < j < self.len() ==> self.starts_at(i) < self.starts_at(j)
    }

    /// Span `i`, which has a beginning and an end, lasts at least as long as
    /// clocks are set back where it begins, where it ends, and at both
    /// places together.
    ///
    /// Stated over wall-clock readings: span `i` does not begin to show
    /// readings after the next span does, the span before it does not cease
    /// to show readings after span `i` does, and the spans on either side of
    /// span `i` share no reading.
    pub open spec fn steady_at(self, i: int) -> bool {
        &&& self.local_start(i) <= self.local_start(i + 1)
        &&& self.local_end(i - 1) <= self.local_end(i)
        &&& self.local_end(i - 1) <= self.local_start(i + 1)
    }

    /// Every span that has a beginning and an end is steady.
    pub open spec fn steady(self) -> bool {
        forall|i: int| 1 <= i < self.len() - 1 ==> #[trigger] self.steady_at(i)
    }

    /// The table is one that a zone can have: its spans are in order, and
    /// none is so short that a wall-clock reading could belong to more than
    /// two of them.
    pub open spec fn wf(self) -> bool {
        self.ordered() && self.steady()
    }

    /// Span `i` is in force at the instant `t`: it has begun, and the next
    /// one has not.
    pub open spec fn covers(self, i: int, t: int) -> bool {
        &&& 0 <= i < self.len()
        &&& (i == 0 || self.starts_at(i) <= t)
        &&& (i == self.len() - 1 || t < self.starts_at(i + 1))
    }

    /// The last of the spans `0..=k` that has begun by the instant `t`.
    pub open spec fn last_begun(self, k: int, t: int) -> int
        decreases k,
    {
        if k <= 0 {
            0
        } else if self.starts_at(k) <= t {
            k
        } else {
            self.last_begun(k - 1, t)
        }
    }

    /// The number of the span in force at the instant `t`.
    pub open spec fn index_at(self, t: int) -> int {
        self.last_begun(self.len() - 1, t)
    }

    /// The span in force at the instant `t`.
    pub open spec fn span_at(self, t: int) -> FixedTimespan {
        self.span(self.index_at(t))
    }

    /// Span `i` can account for the wall-clock reading `x`: the instant that
    /// shows `x` under the offset of span `i` lies in span `i` itself.
    pub open spec fn is_candidate(self, i: int, x: int) -> bool {
        self.covers(i, x - self.span(i).total())
    }

    /// The first span from `from` on that can account for the reading `x`,
    /// or `len()` where none can.
    pub open spec fn first_candidate(self, from: int, x: int) -> int
        decreases self.len() - from,
    {
        if from >= self.len() {
            self.len()
        } else if self.is_candidate(from, x) {
            from
        } else {
            self.first_candidate(from + 1, x)
        }
    }

    /// The last span up to `upto` that can account for the reading `x`, or
    /// -1 where none can.
    pub open spec fn last_candidate(self, upto: int, x: int) -> int
        decreases upto + 1,
    {
        if upto < 0 {
            -1
        } else if self.is_candidate(upto, x) {
            upto
        } else {
            self.last_candidate(upto - 1, x)
        }
    }

    /// What the wall-clock reading `x` stands for: nothing where no span can
    /// account for it, one span where exactly one can, and otherwise the
    /// earliest and the latest span that can, in that order.
    pub open spec fn resolve_local(self, x: int) -> LocalResult {
        let a = self.first_candidate(0, x);
        let b = self.last_candidate(self.len() - 1, x);
        if a >= self.len() {
            LocalResult::Nonexistent
        } else if a == b {
            LocalResult::Single(self.span(a))
        } else {
            LocalResult::Ambiguous(self.span(a), self.span(b))
        }
    }

    /// Span `p` is the last one to have begun showing readings by `x`.
    pub open spec fn pivot(self, p: int, x: int) -> bool {
        &&& 0 <= p < self.len()
        &&& (p == 0 || self.local_start(p) <= x)
        &&& (p == self.len() - 1 || x < self.local_start(p + 1))
    }

    /// What `resolve_local` comes to when only span `p` and the one before
    /// it are looked at.
    pub open spec fn resolve_around(self, p: int, x: int) -> LocalResult {
        if p >= 1 && self.is_candidate(p - 1, x) {
            if self.is_candidate(p, x) {
                LocalResult::Ambiguous(self.span(p - 1), self.span(p))
            } else {
                LocalResult::Single(self.span(p - 1))
            }
        } else if self.is_candidate(p, x) {
            LocalResult::Single(self.span(p))
        } else {
            LocalResult::Nonexistent
        }
    }

    /// Span `i` begins before the next span does.
    pub open spec fn rising_at(self, i: int) -> bool {
        self.starts_at(i) < self.starts_at(i + 1)
    }

    /// Spans of which each begins before the next are in order.
    pub proof fn lemma_ordered_by_neighbours(self)
        requires
            forall|i: int| 1 <= i < self.len() - 1 ==> #[trigger] self.rising_at(i),
        ensures
            self.ordered(),
    {
        assert forall|i: int, j: int| 1 <= i < j < self.len() implies self.starts_at(i)
            < self.starts_at(j) by {
            self.lemma_begins_before(i, j);
        }
    }

    proof fn lemma_begins_before(self, i: int, j: int)
        requires
            forall|k: int| 1 <= k < self.len() - 1 ==> #[trigger] self.rising_at(k),
            1 <= i < j < self.len(),
        ensures
            self.starts_at(i) < self.starts_at(j),
        decreases j - i,
    {
        assert(self.rising_at(j - 1));
        if i + 1 < j {
            self.lemma_begins_before(i, j - 1);
        }
    }

    /// In a well-formed table the spans begin to show wall-clock readings in
    /// the order in which they occur.
    pub proof fn lemma_local_starts_ordered(self, i: int, j: int)
        requires
            self.wf(),
            1 <= i <= j < self.len(),
        ensures
            self.local_start(i) <= self.local_start(j),
        decreases j - i,
    {
        if i < j {
            self.lemma_local_starts_ordered(i, j - 1);
            assert(self.steady_at(j - 1));
        }
    }

    /// In a well-formed table the spans cease to show wall-clock readings in
    /// the order in which they occur.
    pub proof fn lemma_local_ends_ordered(self, i: int, j: int)
        requires
            self.wf(),
            0 <= i <= j < self.len() - 1,
        ensures
            self.local_end(i) <= self.local_end(j),
        decreases j - i,
    {
        if i < j {
            self.lemma_local_ends_ordered(i, j - 1);
            assert(self.steady_at(j));
        }
    }

    /// `last_begun(k, t)` is a span among `0..=k` that has begun by `t`, and
    /// no later span among them has.
    pub proof fn lemma_last_begun(self, k: int, t: int)
        requires
            0 <= k < self.len(),
        ensures
            0 <= self.last_begun(k, t) <= k,
            self.last_begun(k, t) == 0 || self.starts_at(self.last_begun(k, t)) <= t,
            forall|j: int| self.last_begun(k, t) < j <= k ==> t < self.starts_at(j),
        decreases k,
    {
        if k > 0 && self.starts_at(k) > t {
            self.lemma_last_begun(k - 1, t);
        }
    }

    /// In an ordered table the span that covers an instant is the one that
    /// `index_at` gives, and no other.
    pub proof fn lemma_covers_unique(self, i: int, t: int)
        requires
            self.ordered(),
            self.covers(i, t),
        ensures
            self.index_at(t) == i,
    {
        let k = self.index_at(t);
        self.lemma_last_begun(self.len() - 1, t);
        if k < i {
            assert(t < self.starts_at(i));
        } else if k > i {
            if i + 1 < k {
                assert(self.starts_at(i + 1) < self.starts_at(k));
            }
        }
    }

    /// `first_candidate(from, x)` is the first candidate from `from` on.
    pub proof fn lemma_first_candidate(self, from: int, x: int)
        requires
            0 <= from <= self.len(),
        ensures
            from <= self.first_candidate(from, x) <= self.len(),
            self.first_candidate(from, x) < self.len() ==> self.is_candidate(
                self.first_candidate(from, x),
                x,
            ),
            forall|j: int|
                from <= j < self.first_candidate(from, x) ==> !#[trigger] self.is_candidate(j, x),
        decreases self.len() - from,
    {
        if from < self.len() && !self.is_candidate(from, x) {
            self.lemma_first_candidate(from + 1, x);
        }
    }

    /// `last_candidate(upto, x)` is the last candidate up to `upto`.
    pub proof fn lemma_last_candidate(self, upto: int, x: int)
        requires
            -1 <= upto < self.len(),
        ensures
            -1 <= self.last_candidate(upto, x) <= upto,
            self.last_candidate(upto, x) >= 0 ==> self.is_candidate(
                self.last_candidate(upto, x),
                x,
            ),
            forall|j: int|
                self.last_candidate(upto, x) < j <= upto ==> !#[trigger] self.is_candidate(j, x),
        decreases upto + 1,
    {
        if upto >= 0 && !self.is_candidate(upto, x) {
            self.lemma_last_candidate(upto - 1, x);
        }
    }

    /// Where the candidates of a reading are known to lie between two
    /// candidates `a <= b`, these two are what `resolve_local` goes by.
    pub proof fn lemma_resolve_between(self, a: int, b: int, x: int)
        requires
            a <= b,
            self.is_candidate(a, x),
            self.is_candidate(b, x),
            forall|j: int| #[trigger] self.is_candidate(j, x) ==> a <= j <= b,
        ensures
            self.first_candidate(0, x) == a,
            self.last_candidate(self.len() - 1, x) == b,
    {
        self.lemma_first_candidate(0, x);
        self.lemma_last_candidate(self.len() - 1, x);
    }

    /// Where no span can account for a reading, it does not exist.
    pub proof fn lemma_resolve_none(self, x: int)
        requires
            forall|j: int| !#[trigger] self.is_candidate(j, x),
        ensures
            self.resolve_local(x) == LocalResult::Nonexistent,
    {
        self.lemma_first_candidate(0, x);
    }

    /// In a well-formed table two spans that can account for the same
    /// reading are neighbours. So no reading has more than two candidates.
    pub proof fn lemma_candidates_adjacent(self, i: int, j: int, x: int)
        requires
            self.wf(),
            i < j,
            self.is_candidate(i, x),
            self.is_candidate(j, x),
        ensures
            j == i + 1,
    {
        if j >= i + 2 {
            assert(self.steady_at(i + 1));
            self.lemma_local_starts_ordered(i + 2, j);
        }
    }

    /// In a well-formed table only the pivot of a reading and the span
    /// before it can account for the reading.
    pub proof fn lemma_candidates_at_pivot(self, p: int, x: int)
        requires
            self.wf(),
            self.pivot(p, x),
        ensures
            forall|j: int| #[trigger] self.is_candidate(j, x) ==> j == p || j == p - 1,
            self.resolve_local(x) == self.resolve_around(p, x),
    {
        assert forall|j: int| #[trigger] self.is_candidate(j, x) implies j == p || j == p - 1 by {
            if j > p {
                self.lemma_local_starts_ordered(p + 1, j);
            } else if j < p - 1 {
                assert(self.steady_at(j + 1));
                self.lemma_local_starts_ordered(j + 2, p);
            }
        }
        if p >= 1 && self.is_candidate(p - 1, x) {
            if self.is_candidate(p, x) {
                self.lemma_resolve_between(p - 1, p, x);
            } else {
                self.lemma_resolve_between(p - 1, p - 1, x);
            }
        } else if self.is_candidate(p, x) {
            self.lemma_resolve_between(p, p, x);
        } else {
            self.lemma_resolve_none(x);
        }
    }
}

} // verus!
