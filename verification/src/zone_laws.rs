use vstd::prelude::*;
use crate::timespan::FixedTimespan;
use crate::timespan::LocalResult;
use crate::timezone_impl::TimeSpans;
use crate::timezones::lemma_india_wf;
use crate::timezones::Tz;

verus! {

impl Tz {
    /// The zone is UTC under one of its names.
    pub open spec fn keeps_utc(self) -> bool {
        matches!(
            self,
            Tz::UTC | Tz::UCT | Tz::Universal | Tz::Zulu | Tz::Etc__UTC | Tz::Etc__UCT
                | Tz::Etc__Universal | Tz::Etc__Zulu
        )
    }
}

/// The history of every zone is well-formed. In particular its changes
/// occur at strictly increasing instants.
pub proof fn lemma_histories_wf(zone: Tz)
    ensures
        zone.history().wf(),
        zone.history().ordered(),
        forall|i: int, j: int|
            0 <= i < j < zone.history().rest.len() ==> (#[trigger] zone.history().rest[i]).0 < (
            #[trigger] zone.history().rest[j]).0,
{
    lemma_india_wf();
    let table = zone.history();
    assert forall|i: int, j: int| 0 <= i < j < table.rest.len() implies (#[trigger] table.rest[i]).0
        < (#[trigger] table.rest[j]).0 by {
        assert(table.starts_at(i + 1) < table.starts_at(j + 1));
    }
}

/// A zone that is UTC under one of its names is at no distance from UTC at
/// any instant, however early or late, and every wall-clock reading stands
/// for one instant there.
pub proof fn lemma_utc_never_changes(zone: Tz, t: int)
    requires
        zone.keeps_utc(),
    ensures
        zone.history().span_at(t).utc_offset == 0,
        zone.history().span_at(t).dst_offset == 0,
        zone.history().span_at(t) == zone.history().first,
        zone.history().resolve_local(t) == LocalResult::Single(zone.history().first),
{
    let table = zone.history();
    assert(table.len() == 1);
    assert(table.is_candidate(0, t));
    assert forall|j: int| #[trigger] table.is_candidate(j, t) implies 0 <= j <= 0 by {}
    table.lemma_resolve_between(0, 0, t);
}

/// Zones that are the same place under two names have the same history: the
/// names of UTC among themselves, and the two names of India.
pub proof fn lemma_aliases_share_history(one: Tz, other: Tz)
    requires
        one.keeps_utc() == other.keeps_utc(),
    ensures
        one.history() == other.history(),
{
}

/// Asking again gives the same answer: what `name`, `offset_at` and
/// `offset_at_local` promise of their results leaves room for one value
/// only. For `from_str` this is `lemma_lookup_unique`.
pub proof fn lemma_answers_repeat(
    zone: Tz,
    at: int,
    names: (Seq<char>, Seq<char>),
    spans: (FixedTimespan, FixedTimespan),
    outcomes: (LocalResult, LocalResult),
)
    requires
        names.0 == zone.spec_name(),
        names.1 == zone.spec_name(),
        spans.0 == zone.history().span_at(at),
        spans.1 == zone.history().span_at(at),
        outcomes.0 == zone.history().resolve_local(at),
        outcomes.1 == zone.history().resolve_local(at),
    ensures
        names.0 == names.1,
        spans.0 == spans.1,
        outcomes.0 == outcomes.1,
{
}

} // verus!
