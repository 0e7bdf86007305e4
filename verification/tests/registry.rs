use zone_spans::directory;
use zone_spans::Tz;
use zone_spans::TZ_VARIANTS;

const NAMES: [(&str, Tz); 10] = [
    ("Asia/Calcutta", Tz::Asia__Calcutta),
    ("Asia/Kolkata", Tz::Asia__Kolkata),
    ("Etc/UCT", Tz::Etc__UCT),
    ("Etc/UTC", Tz::Etc__UTC),
    ("Etc/Universal", Tz::Etc__Universal),
    ("Etc/Zulu", Tz::Etc__Zulu),
    ("UCT", Tz::UCT),
    ("UTC", Tz::UTC),
    ("Universal", Tz::Universal),
    ("Zulu", Tz::Zulu),
];

#[test]
fn every_zone_has_its_name() {
    for (name, zone) in NAMES {
        assert_eq!(zone.name(), name);
    }
}

#[test]
fn every_name_is_found() {
    for (name, zone) in NAMES {
        assert_eq!(Tz::from_str(name), Ok(zone));
    }
}

#[test]
fn every_name_is_in_the_hash_map() {
    for (name, zone) in NAMES {
        assert_eq!(Tz::from_str_hashed(name), Some(zone));
    }
}

#[test]
fn hash_map_holds_no_other_name() {
    for name in ["Not/AZone", "", "utc", "UTC ", " UTC", "Asia", "Asia/", "Asia/Kolkat", "Etc/GMT"] {
        assert_eq!(Tz::from_str_hashed(name), None);
    }
}

#[test]
fn every_name_is_found_by_scan() {
    for (name, zone) in NAMES {
        assert_eq!(Tz::from_str_by_scan(name), Ok(zone));
    }
}

#[test]
fn scan_turns_unknown_name_down() {
    assert_eq!(
        Tz::from_str_by_scan("Europe/Paris"),
        Err("'Europe/Paris' is not a valid timezone".to_string())
    );
}

#[test]
fn names_round_trip() {
    for zone in TZ_VARIANTS {
        assert_eq!(Tz::from_str(zone.name()), Ok(zone));
    }
}

#[test]
fn unknown_name_fails() {
    assert_eq!(
        Tz::from_str("Not/AZone"),
        Err("'Not/AZone' is not a valid timezone".to_string())
    );
}

#[test]
fn unknown_name_is_never_utc() {
    for name in ["Not/AZone", "", "GMT", "Etc", "Europe/London"] {
        assert!(Tz::from_str(name).is_err());
    }
}

#[test]
fn empty_name_fails() {
    assert_eq!(Tz::from_str(""), Err("'' is not a valid timezone".to_string()));
}

#[test]
fn matching_is_case_sensitive() {
    assert_eq!(Tz::from_str("utc"), Err("'utc' is not a valid timezone".to_string()));
    assert_eq!(Tz::from_str("Utc"), Err("'Utc' is not a valid timezone".to_string()));
    assert_eq!(
        Tz::from_str("asia/kolkata"),
        Err("'asia/kolkata' is not a valid timezone".to_string())
    );
    assert_eq!(Tz::from_str("ZULU"), Err("'ZULU' is not a valid timezone".to_string()));
}

#[test]
fn matching_is_exact() {
    for name in ["UTC ", " UTC", "UT", "UTCC", "Asia/Kolkat", "Asia/Kolkata/", "Asia", "Etc/", "/UTC"] {
        assert!(Tz::from_str(name).is_err(), "{:?}", name);
    }
}

#[test]
fn names_beyond_ascii_fail() {
    assert_eq!(
        Tz::from_str("Zürich"),
        Err("'Zürich' is not a valid timezone".to_string())
    );
    assert!(Tz::from_str("UT\u{0421}").is_err());
}

#[test]
fn parse_goes_by_from_str() {
    assert_eq!("Asia/Kolkata".parse::<Tz>(), Ok(Tz::Asia__Kolkata));
    assert_eq!("Etc/Zulu".parse::<Tz>(), Ok(Tz::Etc__Zulu));
    assert_eq!(
        "Nowhere".parse::<Tz>(),
        Err("'Nowhere' is not a valid timezone".to_string())
    );
}

#[test]
fn lookup_repeats() {
    for name in ["UTC", "Asia/Calcutta", "Not/AZone"] {
        assert_eq!(Tz::from_str(name), Tz::from_str(name));
    }
}

#[test]
fn variants_hold_every_zone_once() {
    assert_eq!(TZ_VARIANTS.len(), 10);
    for (_, zone) in NAMES {
        assert_eq!(TZ_VARIANTS.iter().filter(|v| **v == zone).count(), 1);
    }
}

#[test]
fn variants_keep_their_order() {
    assert_eq!(
        TZ_VARIANTS,
        [
            Tz::Asia__Calcutta,
            Tz::Asia__Kolkata,
            Tz::Etc__UCT,
            Tz::Etc__UTC,
            Tz::Etc__Universal,
            Tz::Etc__Zulu,
            Tz::UCT,
            Tz::UTC,
            Tz::Universal,
            Tz::Zulu,
        ]
    );
    assert!(TZ_VARIANTS.iter().any(|v| *v == Tz::UTC));
}

#[test]
fn directory_names_the_zones() {
    assert_eq!(directory::UCT, Tz::UCT);
    assert_eq!(directory::UTC, Tz::UTC);
    assert_eq!(directory::Universal, Tz::Universal);
    assert_eq!(directory::Zulu, Tz::Zulu);
    assert_eq!(directory::Asia::Calcutta, Tz::Asia__Calcutta);
    assert_eq!(directory::Asia::Kolkata, Tz::Asia__Kolkata);
    assert_eq!(directory::Etc::UCT, Tz::Etc__UCT);
    assert_eq!(directory::Etc::UTC, Tz::Etc__UTC);
    assert_eq!(directory::Etc::Universal, Tz::Etc__Universal);
    assert_eq!(directory::Etc::Zulu, Tz::Etc__Zulu);
}

#[test]
fn zones_are_plain_values() {
    let zone = Tz::Asia__Kolkata;
    let copy = zone;
    assert_eq!(zone, copy);
    assert_ne!(Tz::UTC, Tz::Etc__UTC);
    assert_ne!(Tz::Asia__Kolkata, Tz::Asia__Calcutta);
}
