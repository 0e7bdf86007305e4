use vstd::prelude::*;
use crate::span_table::SpanTable;
use crate::timespan::LocalResult;

verus! {

impl SpanTable {
    /// Clocks are set forward where span `k` begins, and the reading `x` is
    /// one of those that are skipped there.
    pub open spec fn in_gap(self, k: int, x: int) -> bool {
        1 <= k < self.len() && self.local_end(k - 1) <= x < self.local_start(k)
    }

    /// Clocks are set back where span `k` begins, and the reading `x` is one
    /// of those that are shown again there.
    pub open spec fn in_overlap(self, k: int, x: int) -> bool {
        1 <= k < self.len() && self.local_start(k) <= x < self.local_end(k - 1)
    }

    /// Every span that can account for the reading `x` is numbered from `lo`
    /// to `hi`.
    pub open spec fn candidates_within(self, lo: int, hi: int, x: int) -> bool {
        forall|j: int| #[trigger] self.is_candidate(j, x) ==> lo <= j <= hi
    }

    /// What a reading stands for goes by the spans that can account for it:
    /// it does not exist where none can; it is single, with that span, where
    /// one can; and it is ambiguous where two can, which are then
    /// neighbours and are given in their order. More than two never can.
    pub proof fn lemma_resolve_by_candidates(self, x: int)
        requires
            self.wf(),
        ensures
            match self.resolve_local(x) {
                LocalResult::Nonexistent => forall|j: int| !#[trigger] self.is_candidate(j, x),
                LocalResult::Single(span) => exists|i: int|
                    #[trigger] self.is_candidate(i, x) && span == self.span(i)
                        && self.candidates_within(i, i, x),
                LocalResult::Ambiguous(earlier, later) => exists|i: int|
                    #[trigger] self.is_candidate(i, x) && self.is_candidate(i + 1, x) && earlier
                        == self.span(i) && later == self.span(i + 1) && self.candidates_within(
                        i,
                        i + 1,
                        x,
                    ),
            },
    {
        let a = self.first_candidate(0, x);
        let b = self.last_candidate(self.len() - 1, x);
        self.lemma_first_candidate(0, x);
        self.lemma_last_candidate(self.len() - 1, x);
        if a < self.len() {
            assert(self.is_candidate(a, x));
            assert(a <= b);
            assert(self.is_candidate(b, x));
            if a < b {
                self.lemma_candidates_adjacent(a, b, x);
            }
            assert(self.candidates_within(a, b, x));
        }
    }

    /// At every instant exactly one span is in force: the one that `index_at`
    /// gives.
    pub proof fn lemma_one_span_in_force(self, t: int)
        requires
            self.ordered(),
        ensures
            self.covers(self.index_at(t), t),
            forall|i: int| self.covers(i, t) ==> i == self.index_at(t),
    {
        self.lemma_last_begun(self.len() - 1, t);
        assert forall|i: int| self.covers(i, t) implies i == self.index_at(t) by {
            self.lemma_covers_unique(i, t);
        }
    }

    /// The span in force does not change between two instants unless a
    /// change occurs after the first of them and by the second.
    ///
    /// A change that occurs at the second instant itself takes effect there.
    /// So for the spans at the two instants to be equal it is not enough that
    /// no change lies strictly between them: a change at the second instant
    /// must bring the span that was in force before it.
    pub proof fn lemma_constant_between_changes(self, t1: int, t2: int)
        requires
            self.ordered(),
            t1 < t2,
            forall|k: int| 1 <= k < self.len() ==> !(t1 < #[trigger] self.starts_at(k) < t2),
            forall|k: int|
                1 <= k < self.len() && #[trigger] self.starts_at(k) == t2 ==> self.span(k)
                    == self.span(k - 1),
        ensures
            self.span_at(t1) == self.span_at(t2),
            (forall|k: int| 1 <= k < self.len() ==> #[trigger] self.starts_at(k) != t2)
                ==> self.index_at(t1) == self.index_at(t2),
    {
        let i1 = self.index_at(t1);
        let i2 = self.index_at(t2);
        self.lemma_one_span_in_force(t1);
        self.lemma_one_span_in_force(t2);
        if i1 > i2 {
            if i2 + 1 < i1 {
                assert(self.starts_at(i2 + 1) < self.starts_at(i1));
            }
        } else if i1 < i2 {
            if i1 + 1 < i2 {
                assert(self.starts_at(i1 + 1) < self.starts_at(i2));
            }
        }
    }

    /// A reading that is skipped where clocks are set forward does not exist.
    pub proof fn lemma_gap_is_nonexistent(self, k: int, x: int)
        requires
            self.wf(),
            self.in_gap(k, x),
        ensures
            self.resolve_local(x) == LocalResult::Nonexistent,
    {
        assert forall|j: int| !#[trigger] self.is_candidate(j, x) by {
            if 0 <= j < k {
                self.lemma_local_ends_ordered(j, k - 1);
            } else if k <= j < self.len() {
                self.lemma_local_starts_ordered(k, j);
            }
        }
        self.lemma_resolve_none(x);
    }

    /// A reading that is shown again where clocks are set back is ambiguous
    /// between the span that ends there and the span that begins there, in
    /// that order. The two instants that show the reading lie as far apart as
    /// the clocks are set back.
    pub proof fn lemma_overlap_is_ambiguous(self, k: int, x: int)
        requires
            self.wf(),
            self.in_overlap(k, x),
        ensures
            self.resolve_local(x) == LocalResult::Ambiguous(self.span(k - 1), self.span(k)),
            self.covers(k - 1, x - self.span(k - 1).total()),
            self.covers(k, x - self.span(k).total()),
            (x - self.span(k).total()) - (x - self.span(k - 1).total()) == self.span(k - 1).total()
                - self.span(k).total(),
            self.span(k - 1).total() - self.span(k).total() > 0,
    {
        if k - 1 >= 1 {
            self.lemma_local_starts_ordered(k - 1, k);
        }
        if k < self.len() - 1 {
            self.lemma_local_ends_ordered(k - 1, k);
        }
        assert(self.is_candidate(k - 1, x));
        assert(self.is_candidate(k, x));
        assert forall|j: int| #[trigger] self.is_candidate(j, x) implies k - 1 <= j <= k by {
            if j < k - 1 {
                self.lemma_candidates_adjacent(j, k, x);
            } else if j > k {
                self.lemma_candidates_adjacent(k - 1, j, x);
            }
        }
        self.lemma_resolve_between(k - 1, k, x);
    }

    /// A reading that is neither skipped nor shown again at any change
    /// belongs to exactly one span.
    pub proof fn lemma_clear_is_single(self, x: int)
        requires
            self.wf(),
            forall|k: int| !#[trigger] self.in_gap(k, x),
            forall|k: int| !#[trigger] self.in_overlap(k, x),
        ensures
            self.is_candidate(self.first_candidate(0, x), x),
            forall|j: int| #[trigger] self.is_candidate(j, x) ==> j == self.first_candidate(0, x),
            self.resolve_local(x) == LocalResult::Single(self.span(self.first_candidate(0, x))),
    {
        let p = self.find_pivot(self.len() - 1, x);
        self.lemma_candidates_at_pivot(p, x);
        assert(!self.in_gap(p + 1, x));
        assert(!self.in_overlap(p, x));
        assert(self.is_candidate(p, x));
        self.lemma_resolve_between(p, p, x);
    }

    /// The last of the spans `0..=k` to have begun to show readings by `x`.
    proof fn find_pivot(self, k: int, x: int) -> (p: int)
        requires
            0 <= k < self.len(),
            k == self.len() - 1 || x < self.local_start(k + 1),
        ensures
            self.pivot(p, x),
        decreases k,
    {
        if k == 0 || self.local_start(k) <= x {
            k
        } else {
            self.find_pivot(k - 1, x)
        }
    }
}

} // verus!
