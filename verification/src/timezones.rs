use vstd::prelude::*;
use vstd::string::StringExecFns;
use crate::span_table::SpanTable;
use crate::text::same_text;
use crate::timespan::FixedTimespan;
use crate::timespan::LocalResult;
use crate::timezone_impl::FixedTimespanSet;
use crate::timezone_impl::TimeSpans;

verus! {

/// The zones that the library knows, each with its history from the tz
/// database.
#[derive(Clone, Copy, PartialEq, Eq, Hash, Debug)]
pub enum Tz {
    /// Asia/Calcutta
    Asia__Calcutta,
    /// Asia/Kolkata
    Asia__Kolkata,
    /// Etc/UCT
    Etc__UCT,
    /// Etc/UTC
    Etc__UTC,
    /// Etc/Universal
    Etc__Universal,
    /// Etc/Zulu
    Etc__Zulu,
    /// UCT
    UCT,
    /// UTC
    UTC,
    /// Universal
    Universal,
    /// Zulu
    Zulu,
}

/// What `from_str` gives for a string that names no zone: a sentence that
/// holds the string.
pub type ParseError = String;

/// Every zone, once, in the order of the declaration.
pub const TZ_VARIANTS: [Tz; 10] = [
    Tz::Asia__Calcutta,
    Tz::Asia__Kolkata,
    Tz::Etc__UCT,
    Tz::Etc__UTC,
    Tz::Etc__Universal,
    Tz::Etc__Zulu,
    Tz::UCT,
    Tz::UTC,
    Tz::Universal,
    Tz::Zulu,
];

/// The sentence that `name` is not a valid timezone.
pub open spec fn invalid_timezone(name: Seq<char>) -> Seq<char> {
    "'"@ + name + "' is not a valid timezone"@
}

/// Some zone is called `name`.
pub open spec fn is_zone_name(name: Seq<char>) -> bool {
    exists|zone: Tz| #[trigger] zone.spec_name() == name
}

/// `found` is what looking for a zone called `name` comes to: the zone that
/// has the name, or, where no zone has it, the sentence that says so.
pub open spec fn is_lookup_of(name: Seq<char>, found: Result<Tz, ParseError>) -> bool {
    match found {
        Ok(zone) => zone.spec_name() == name,
        Err(message) => message@ == invalid_timezone(name) && forall|zone: Tz|
            #[trigger] zone.spec_name() != name,
    }
}

/// The place among a perfect hash map's entries at which `phf::Map::get`
/// finds `name`, or nothing where it finds none. The map is given by its hash
/// key, its displacements and the names that its entries stand under.
///
/// The place is computed from the bytes of `name`, from `key` and from
/// `disps` by a keyed hash.
pub uninterp spec fn phf_get(
    key: u64,
    disps: Seq<(u32, u32)>,
    names: Seq<Seq<char>>,
    name: Seq<char>,
) -> Option<int>;

/// The names that the entries of a map stand under.
pub open spec fn names_of(entries: Seq<(&'static str, Tz)>) -> Seq<Seq<char>> {
    entries.map_values(|entry: (&'static str, Tz)| entry.0@)
}

/// `phf::Map::get` on the map that `key`, `disps` and `entries` make.
///
/// The map computes a place among the entries and gives the zone of the
/// entry at that place if that entry's name equals `name`, and nothing
/// otherwise. So a zone that is found stands in `entries` beside `name`.
/// Nothing is claimed of which names are found: that depends on whether
/// `key` and `disps` were computed for these entries. Unless `disps` is
/// empty, the call divides by the lengths of `disps` and `entries` as 32-bit
/// numbers; the precondition keeps these from being zero.
#[verifier::external_body]
fn probe(
    key: u64,
    disps: &'static [(u32, u32)],
    entries: &'static [(&'static str, Tz)],
    name: &str,
) -> (hit: Option<Tz>)
    requires
        disps@.len() > 0 ==> disps@.len() <= u32::MAX && 0 < entries@.len() <= u32::MAX,
    ensures
        match phf_get(key, disps@, names_of(entries@), name@) {
            Some(i) => 0 <= i < entries@.len() && entries@[i].0@ == name@ && hit == Some(
                entries@[i].1,
            ),
            None => hit is None,
        },
{
    let map = phf::Map { key, disps, entries };
    map.get(name).copied()
}

/// The hash key of the map of zone names.
pub const REGISTRY_KEY: u64 = 14108922650502679131;

/// The displacements of the map of zone names.
pub open spec fn registry_disps() -> Seq<(u32, u32)> {
    seq![(3u32, 0u32), (9u32, 0u32)]
}

/// The zones in the order in which the map of zone names holds them.
pub open spec fn registry_zones() -> Seq<Tz> {
    seq![
        Tz::Asia__Calcutta,
        Tz::Asia__Kolkata,
        Tz::Etc__UTC,
        Tz::UCT,
        Tz::UTC,
        Tz::Etc__UCT,
        Tz::Etc__Universal,
        Tz::Zulu,
        Tz::Etc__Zulu,
        Tz::Universal,
    ]
}

/// What the map of zone names holds under `name`.
pub open spec fn hashed(name: Seq<char>) -> Option<Tz> {
    match phf_get(
        REGISTRY_KEY,
        registry_disps(),
        registry_zones().map_values(|zone: Tz| zone.spec_name()),
        name,
    ) {
        Some(i) => Some(registry_zones()[i]),
        None => None,
    }
}

/// Every zone stands in `TZ_VARIANTS`, and none stands there twice.
pub proof fn lemma_variants_complete(zone: Tz)
    ensures
        exists|i: int| 0 <= i < TZ_VARIANTS@.len() && #[trigger] TZ_VARIANTS@[i] == zone,
        forall|i: int, j: int|
            0 <= i < j < TZ_VARIANTS@.len() ==> #[trigger] TZ_VARIANTS@[i]
                != #[trigger] TZ_VARIANTS@[j],
{
    let all = TZ_VARIANTS@;
    assert(all.len() == 10);
    assert(all[0] == Tz::Asia__Calcutta && all[1] == Tz::Asia__Kolkata && all[2] == Tz::Etc__UCT
        && all[3] == Tz::Etc__UTC && all[4] == Tz::Etc__Universal);
    assert(all[5] == Tz::Etc__Zulu && all[6] == Tz::UCT && all[7] == Tz::UTC && all[8]
        == Tz::Universal && all[9] == Tz::Zulu);
}

/// No two zones have the same name.
pub proof fn lemma_names_distinct(a: Tz, b: Tz)
    requires
        a.spec_name() == b.spec_name(),
    ensures
        a == b,
{
    reveal_strlit("Asia/Calcutta");
    reveal_strlit("Asia/Kolkata");
    reveal_strlit("Etc/UCT");
    reveal_strlit("Etc/UTC");
    reveal_strlit("Etc/Universal");
    reveal_strlit("Etc/Zulu");
    reveal_strlit("UCT");
    reveal_strlit("UTC");
    reveal_strlit("Universal");
    reveal_strlit("Zulu");
    let x = a.spec_name();
    let y = b.spec_name();
    assert(x.len() == y.len());
    assert(x[0] == y[0]);
    assert(x.len() > 1 ==> x[1] == y[1]);
    assert(x.len() > 5 ==> x[5] == y[5]);
}

/// Looking a name up has one outcome only: where two values are each what
/// `from_str` may give for a name, both are the same zone, or both are the
/// same sentence.
pub proof fn lemma_lookup_unique(
    name: Seq<char>,
    one: Result<Tz, ParseError>,
    other: Result<Tz, ParseError>,
)
    requires
        is_lookup_of(name, one),
        is_lookup_of(name, other),
    ensures
        one matches Ok(zone) ==> other == Ok::<Tz, ParseError>(zone),
        one matches Err(message) ==> other is Err && other->Err_0@ == message@,
{
    if let Ok(zone) = one {
        if let Ok(second) = other {
            lemma_names_distinct(zone, second);
        }
    }
}

/// The history of India's clocks: local mean time at first, then seven
/// changes.
pub open spec fn india() -> SpanTable {
    SpanTable {
        first: FixedTimespan { utc_offset: 21208, dst_offset: 0, name: "LMT" },
        rest: seq![
            (-3645237208i64, FixedTimespan { utc_offset: 21200, dst_offset: 0, name: "HMT" }),
            (-3155694800i64, FixedTimespan { utc_offset: 19270, dst_offset: 0, name: "MMT" }),
            (-2019705670i64, FixedTimespan { utc_offset: 19800, dst_offset: 0, name: "IST" }),
            (-891581400i64, FixedTimespan { utc_offset: 19800, dst_offset: 3600, name: "+0630" }),
            (-872058600i64, FixedTimespan { utc_offset: 19800, dst_offset: 0, name: "IST" }),
            (-862637400i64, FixedTimespan { utc_offset: 19800, dst_offset: 3600, name: "+0630" }),
            (-764145000i64, FixedTimespan { utc_offset: 19800, dst_offset: 0, name: "IST" }),
        ],
    }
}

/// The history of a zone that keeps UTC: one span, and no change.
pub open spec fn utc() -> SpanTable {
    SpanTable {
        first: FixedTimespan { utc_offset: 0, dst_offset: 0, name: "UTC" },
        rest: Seq::empty(),
    }
}

/// India's history is well-formed.
pub proof fn lemma_india_wf()
    ensures
        india().wf(),
{
    let t = india();
    assert(t.len() == 8);
    assert forall|i: int| 1 <= i < t.len() - 1 implies #[trigger] t.rising_at(i) && t.steady_at(
        i,
    ) by {
        if i == 1 {
        } else if i == 2 {
        } else if i == 3 {
        } else if i == 4 {
        } else if i == 5 {
        } else {
        }
    }
    t.lemma_ordered_by_neighbours();
}

impl TimeSpans for Tz {
    open spec fn history(&self) -> SpanTable {
        match *self {
            Tz::Asia__Calcutta | Tz::Asia__Kolkata => india(),
            _ => utc(),
        }
    }

    fn timespans(&self) -> (set: FixedTimespanSet) {
        match *self {
            Tz::Asia__Calcutta => india_timespans(),
            Tz::Asia__Kolkata => india_timespans(),
            Tz::Etc__UCT => utc_timespans(),
            Tz::Etc__UTC => utc_timespans(),
            Tz::Etc__Universal => utc_timespans(),
            Tz::Etc__Zulu => utc_timespans(),
            Tz::UCT => utc_timespans(),
            Tz::UTC => utc_timespans(),
            Tz::Universal => utc_timespans(),
            Tz::Zulu => utc_timespans(),
        }
    }
}

fn india_timespans() -> (set: FixedTimespanSet)
    ensures
        set@ == india(),
        set@.wf(),
{
    let first = FixedTimespan { utc_offset: 21208, dst_offset: 0, name: "LMT" };
    let rest: &'static [(i64, FixedTimespan)] = &[
        (-3645237208, FixedTimespan { utc_offset: 21200, dst_offset: 0, name: "HMT" }),
        (-3155694800, FixedTimespan { utc_offset: 19270, dst_offset: 0, name: "MMT" }),
        (-2019705670, FixedTimespan { utc_offset: 19800, dst_offset: 0, name: "IST" }),
        (-891581400, FixedTimespan { utc_offset: 19800, dst_offset: 3600, name: "+0630" }),
        (-872058600, FixedTimespan { utc_offset: 19800, dst_offset: 0, name: "IST" }),
        (-862637400, FixedTimespan { utc_offset: 19800, dst_offset: 3600, name: "+0630" }),
        (-764145000, FixedTimespan { utc_offset: 19800, dst_offset: 0, name: "IST" }),
    ];
    proof {
        lemma_india_wf();
        assert(rest@ =~= india().rest);
    }
    FixedTimespanSet::assemble(first, rest)
}

fn utc_timespans() -> (set: FixedTimespanSet)
    ensures
        set@ == utc(),
        set@.wf(),
{
    let first = FixedTimespan { utc_offset: 0, dst_offset: 0, name: "UTC" };
    let rest: &'static [(i64, FixedTimespan)] = &[];
    proof {
        assert(rest@ =~= utc().rest);
    }
    FixedTimespanSet::assemble(first, rest)
}

impl Tz {
    /// The name of the zone as a sequence of characters.
    pub open spec fn spec_name(self) -> Seq<char> {
        match self {
            Tz::Asia__Calcutta => "Asia/Calcutta"@,
            Tz::Asia__Kolkata => "Asia/Kolkata"@,
            Tz::Etc__UCT => "Etc/UCT"@,
            Tz::Etc__UTC => "Etc/UTC"@,
            Tz::Etc__Universal => "Etc/Universal"@,
            Tz::Etc__Zulu => "Etc/Zulu"@,
            Tz::UCT => "UCT"@,
            Tz::UTC => "UTC"@,
            Tz::Universal => "Universal"@,
            Tz::Zulu => "Zulu"@,
        }
    }

    /// The name of the zone in the tz database.
    pub fn name(self) -> (name: &'static str)
        ensures
            name@ == self.spec_name(),
    {
        match self {
            Tz::Asia__Calcutta => "Asia/Calcutta",
            Tz::Asia__Kolkata => "Asia/Kolkata",
            Tz::Etc__UCT => "Etc/UCT",
            Tz::Etc__UTC => "Etc/UTC",
            Tz::Etc__Universal => "Etc/Universal",
            Tz::Etc__Zulu => "Etc/Zulu",
            Tz::UCT => "UCT",
            Tz::UTC => "UTC",
            Tz::Universal => "Universal",
            Tz::Zulu => "Zulu",
        }
    }

    /// The zone that the map of zone names holds under `name`. A zone that
    /// is found has that name.
    pub fn from_str_hashed(name: &str) -> (hit: Option<Tz>)
        ensures
            hit == hashed(name@),
            hit matches Some(zone) ==> zone.spec_name() == name@,
    {
        let disps: &'static [(u32, u32)] = &[(3, 0), (9, 0)];
        let entries: &'static [(&'static str, Tz)] = &[
            ("Asia/Calcutta", Tz::Asia__Calcutta),
            ("Asia/Kolkata", Tz::Asia__Kolkata),
            ("Etc/UTC", Tz::Etc__UTC),
            ("UCT", Tz::UCT),
            ("UTC", Tz::UTC),
            ("Etc/UCT", Tz::Etc__UCT),
            ("Etc/Universal", Tz::Etc__Universal),
            ("Zulu", Tz::Zulu),
            ("Etc/Zulu", Tz::Etc__Zulu),
            ("Universal", Tz::Universal),
        ];
        proof {
            let zones = registry_zones();
            assert forall|i: int| 0 <= i < 10 implies (#[trigger] entries@[i]).0@
                == zones[i].spec_name() && entries@[i].1 == zones[i] by {
                if i == 0 {
                } else if i == 1 {
                } else if i == 2 {
                } else if i == 3 {
                } else if i == 4 {
                } else if i == 5 {
                } else if i == 6 {
                } else if i == 7 {
                } else if i == 8 {
                } else {
                }
            }
            assert(names_of(entries@) =~= zones.map_values(|zone: Tz| zone.spec_name()));
            assert(disps@ =~= registry_disps());
        }
        probe(REGISTRY_KEY, disps, entries, name)
    }

    /// The zone whose name is `s`, letter for letter, or the sentence that
    /// `s` is not a valid timezone where no zone has that name.
    ///
    /// The name is first sought in the map of zone names. A name that is not
    /// found there is held against the name of every zone before it is
    /// turned down.
    pub fn from_str(s: &str) -> (found: Result<Tz, ParseError>)
        ensures
            found is Ok <==> is_zone_name(s@),
            is_lookup_of(s@, found),
    {
        match Self::from_str_hashed(s) {
            Some(zone) => {
                assert(zone.spec_name() == s@);
                Ok(zone)
            },
            None => Self::from_str_by_scan(s),
        }
    }

    /// The zone whose name is `s`, found by holding `s` against the name of
    /// each zone in turn.
    pub fn from_str_by_scan(s: &str) -> (found: Result<Tz, ParseError>)
        ensures
            found is Ok <==> is_zone_name(s@),
            is_lookup_of(s@, found),
    {
        let all = TZ_VARIANTS;
        let mut i: usize = 0;
        while i < 10
            invariant
                i <= 10,
                all == TZ_VARIANTS,
                forall|j: int| 0 <= j < i ==> (#[trigger] all@[j]).spec_name() != s@,
            decreases 10 - i,
        {
            let zone = all[i];
            if same_text(zone.name(), s) {
                assert(zone.spec_name() == s@);
                return Ok(zone);
            }
            i += 1;
        }
        proof {
            assert forall|zone: Tz| #[trigger] zone.spec_name() != s@ by {
                lemma_variants_complete(zone);
            }
        }
        Err(String::from_str("'").concat(s).concat("' is not a valid timezone"))
    }

    /// The span in force in the zone at `instant`, given in seconds from the
    /// epoch. A change takes effect at its own instant.
    pub fn offset_at(self, instant: i64) -> (span: FixedTimespan)
        ensures
            span == self.history().span_at(instant as int),
    {
        self.timespans().offset_at(instant)
    }

    /// What the wall-clock reading `local` stands for in the zone. The
    /// reading is given as the seconds from the epoch to the instant at
    /// which a clock that keeps UTC shows it.
    pub fn offset_at_local(self, local: i64) -> (outcome: LocalResult)
        ensures
            outcome == self.history().resolve_local(local as int),
    {
        self.timespans().offset_at_local(local)
    }
}

impl core::str::FromStr for Tz {
    type Err = ParseError;

    /// The zone whose name is `s`, letter for letter, or the sentence that
    /// `s` is not a valid timezone where no zone has that name: what
    /// `Tz::from_str` gives, for callers of `str::parse`.
    fn from_str(s: &str) -> (found: Result<Tz, ParseError>)
        ensures
            found is Ok <==> is_zone_name(s@),
            is_lookup_of(s@, found),
    {
        Tz::from_str(s)
    }
}

} // verus!
