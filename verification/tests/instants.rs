use zone_spans::FixedTimespan;
use zone_spans::FixedTimespanSet;
use zone_spans::TimeSpans;
use zone_spans::Tz;
use zone_spans::TZ_VARIANTS;

fn span(utc_offset: i32, dst_offset: i32, name: &'static str) -> FixedTimespan {
    FixedTimespan { utc_offset, dst_offset, name }
}

const UTC_FAMILY: [Tz; 8] = [
    Tz::UTC,
    Tz::UCT,
    Tz::Universal,
    Tz::Zulu,
    Tz::Etc__UTC,
    Tz::Etc__UCT,
    Tz::Etc__Universal,
    Tz::Etc__Zulu,
];

const INDIA: [(i64, i32, i32, &str); 7] = [
    (-3645237208, 21200, 0, "HMT"),
    (-3155694800, 19270, 0, "MMT"),
    (-2019705670, 19800, 0, "IST"),
    (-891581400, 19800, 3600, "+0630"),
    (-872058600, 19800, 0, "IST"),
    (-862637400, 19800, 3600, "+0630"),
    (-764145000, 19800, 0, "IST"),
];

#[test]
fn kolkata_changes_at_the_boundary() {
    let zone = Tz::from_str("Asia/Kolkata").unwrap();
    assert_eq!(zone.offset_at(-872058600 - 1), span(19800, 3600, "+0630"));
    assert_eq!(zone.offset_at(-872058600), span(19800, 0, "IST"));
}

#[test]
fn india_history_is_as_recorded() {
    for zone in [Tz::Asia__Calcutta, Tz::Asia__Kolkata] {
        let set = zone.timespans();
        assert_eq!(set.first(), span(21208, 0, "LMT"));
        let rest = set.rest();
        assert_eq!(rest.len(), 7);
        for (i, (at, utc, dst, name)) in INDIA.iter().enumerate() {
            assert_eq!(rest[i], (*at, span(*utc, *dst, name)));
        }
    }
}

#[test]
fn utc_history_is_one_span() {
    for zone in UTC_FAMILY {
        let set = zone.timespans();
        assert_eq!(set.first(), span(0, 0, "UTC"));
        assert!(set.rest().is_empty());
    }
}

#[test]
fn every_change_takes_effect_at_its_instant() {
    let zone = Tz::Asia__Calcutta;
    let mut before = span(21208, 0, "LMT");
    for (at, utc, dst, name) in INDIA {
        assert_eq!(zone.offset_at(at - 1), before);
        assert_eq!(zone.offset_at(at), span(utc, dst, name));
        assert_eq!(zone.offset_at(at + 1), span(utc, dst, name));
        before = span(utc, dst, name);
    }
}

#[test]
fn span_stays_between_changes() {
    let zone = Tz::Asia__Kolkata;
    assert_eq!(zone.offset_at(-891581400), zone.offset_at(-872058601));
    assert_eq!(zone.offset_at(-880000000), span(19800, 3600, "+0630"));
    assert_eq!(zone.offset_at(-764145000), zone.offset_at(0));
    assert_eq!(zone.offset_at(0), zone.offset_at(1_700_000_000));
}

#[test]
fn first_span_reaches_back_without_end() {
    let zone = Tz::Asia__Kolkata;
    assert_eq!(zone.offset_at(i64::MIN), span(21208, 0, "LMT"));
    assert_eq!(zone.offset_at(-3645237209), span(21208, 0, "LMT"));
}

#[test]
fn last_span_reaches_on_without_end() {
    let zone = Tz::Asia__Kolkata;
    assert_eq!(zone.offset_at(0), span(19800, 0, "IST"));
    assert_eq!(zone.offset_at(i64::MAX), span(19800, 0, "IST"));
}

#[test]
fn utc_family_never_changes() {
    for zone in UTC_FAMILY {
        for at in [i64::MIN, -3645237208, -1, 0, 1, 1_700_000_000, i64::MAX] {
            let found = zone.offset_at(at);
            assert_eq!(found.utc_offset, 0);
            assert_eq!(found.dst_offset, 0);
            assert_eq!(found, span(0, 0, "UTC"));
        }
    }
}

#[test]
fn aliases_share_their_history() {
    let one = Tz::from_str("UTC").unwrap().timespans();
    let other = Tz::from_str("Etc/UTC").unwrap().timespans();
    assert_ne!(Tz::from_str("UTC").unwrap().name(), Tz::from_str("Etc/UTC").unwrap().name());
    assert_eq!(one.first(), other.first());
    assert_eq!(one.rest(), other.rest());
    assert!(one.rest().is_empty());
    let calcutta = Tz::Asia__Calcutta.timespans();
    let kolkata = Tz::Asia__Kolkata.timespans();
    assert_eq!(calcutta.first(), kolkata.first());
    assert_eq!(calcutta.rest(), kolkata.rest());
}

#[test]
fn changes_are_strictly_increasing() {
    for zone in TZ_VARIANTS {
        let rest = zone.timespans().rest();
        for pair in rest.windows(2) {
            assert!(pair[0].0 < pair[1].0);
        }
    }
}

#[test]
fn index_counts_the_changes_gone_by() {
    let set = Tz::Asia__Kolkata.timespans();
    assert_eq!(set.index_at(i64::MIN), 0);
    assert_eq!(set.index_at(-3645237209), 0);
    assert_eq!(set.index_at(-3645237208), 1);
    assert_eq!(set.index_at(-3155694800), 2);
    assert_eq!(set.index_at(-2019705670), 3);
    assert_eq!(set.index_at(-891581400), 4);
    assert_eq!(set.index_at(-872058601), 4);
    assert_eq!(set.index_at(-872058600), 5);
    assert_eq!(set.index_at(-862637400), 6);
    assert_eq!(set.index_at(-764145001), 6);
    assert_eq!(set.index_at(-764145000), 7);
    assert_eq!(set.index_at(i64::MAX), 7);
    assert_eq!(Tz::UTC.timespans().index_at(12345), 0);
}

#[test]
fn get_gives_the_spans_in_order() {
    let set = Tz::Asia__Kolkata.timespans();
    assert_eq!(set.get(0), span(21208, 0, "LMT"));
    for (i, (_, utc, dst, name)) in INDIA.iter().enumerate() {
        assert_eq!(set.get(i + 1), span(*utc, *dst, name));
    }
    assert_eq!(Tz::Zulu.timespans().get(0), span(0, 0, "UTC"));
}

#[test]
fn instant_lookup_repeats() {
    for zone in TZ_VARIANTS {
        for at in [i64::MIN, -872058600, 0, i64::MAX] {
            assert_eq!(zone.offset_at(at), zone.offset_at(at));
        }
    }
}

#[test]
fn total_offset_adds_both_parts() {
    assert_eq!(span(19800, 3600, "+0630").total_offset(), 23400);
    assert_eq!(span(19800, 0, "IST").total_offset(), 19800);
    assert_eq!(span(-18000, 3600, "EDT").total_offset(), -14400);
    assert_eq!(span(i32::MAX, i32::MAX, "far").total_offset(), 4294967294);
    assert_eq!(span(i32::MIN, i32::MIN, "far").total_offset(), -4294967296);
}

#[test]
fn abbreviation_is_the_label() {
    assert_eq!(span(19800, 0, "IST").abbreviation(), "IST");
    assert_eq!(Tz::UTC.offset_at(0).abbreviation(), "UTC");
    assert_eq!(Tz::Asia__Kolkata.offset_at(-880000000).abbreviation(), "+0630");
}

#[test]
fn instant_lookup_at_the_ends_of_the_range() {
    const REST: &[(i64, FixedTimespan)] = &[
        (i64::MIN, FixedTimespan { utc_offset: 0, dst_offset: 0, name: "A" }),
        (i64::MAX, FixedTimespan { utc_offset: 0, dst_offset: 0, name: "B" }),
    ];
    let set = FixedTimespanSet::new(span(0, 0, "Z"), REST).unwrap();
    assert_eq!(set.offset_at(i64::MIN), span(0, 0, "A"));
    assert_eq!(set.offset_at(0), span(0, 0, "A"));
    assert_eq!(set.offset_at(i64::MAX - 1), span(0, 0, "A"));
    assert_eq!(set.offset_at(i64::MAX), span(0, 0, "B"));
}
