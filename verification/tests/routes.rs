use am4::aircraft::{AcId, AcName, Aircraft, AircraftType, EnginePriority, ShortName};
use am4::airport::db::Airports;
use am4::airport::{Airport, Iata, Icao, Id, Name};
use am4::route::{AbstractRoutes, CheckedAirport, RouteError, MIN_DISTANCE_MILLI};
use am4::user::GameMode;

fn ap(id: u16, iata: &str, icao: &str, name: &str, rwy: u16) -> Airport {
    Airport {
        id: Id(id),
        iata: Iata(iata.to_string()),
        icao: Icao(icao.to_string()),
        name: Name(name.to_string()),
        rwy,
    }
}

fn craft(range: u16, rwy: u16) -> Aircraft {
    Aircraft {
        id: AcId(1),
        shortname: ShortName("b744".to_string()),
        manufacturer: "Boeing".to_string(),
        name: AcName("B747-400".to_string()),
        ac_type: AircraftType::Pax,
        priority: EnginePriority(0),
        eid: 1,
        ename: "CF6".to_string(),
        cost: 280_000_000,
        capacity: 416,
        rwy,
        check_cost: 1_000_000,
        range,
        ceil: 13_700,
        maint: 800,
        pilots: 2,
        crew: 12,
        engineers: 2,
        technicians: 2,
        img: "b744.png".to_string(),
        wingspan: 64,
        length: 70,
    }
}

fn small_db() -> Airports {
    Airports::new(vec![
        ap(1, "AAA", "XAAA", "Alpha Field", 3000),
        ap(2, "BBB", "XBBB", "Bravo Field", 3000),
        ap(3, "CCC", "XCCC", "Charlie Field", 2000),
        ap(4, "DDD", "XDDD", "Delta Field", 3000),
    ])
}

#[test]
fn checked_airport_requires_known_record() {
    let db = small_db();
    let known = ap(2, "BBB", "XBBB", "Bravo Field", 3000);
    assert!(CheckedAirport::new(&db, &known).is_ok());
    let stranger = ap(99, "ZZZ", "XZZZ", "Zulu Field", 3000);
    match CheckedAirport::new(&db, &stranger) {
        Err(RouteError::AirportNotFound(a)) => assert_eq!(a.id, Id(99)),
        _ => panic!("expected AirportNotFound"),
    }
}

#[test]
fn self_referential_destination_is_rejected_independently() {
    let db = small_db();
    let origin = ap(1, "AAA", "XAAA", "Alpha Field", 3000);
    let dests = vec![
        ap(2, "BBB", "XBBB", "Bravo Field", 3000),
        ap(1, "AAA", "XAAA", "Alpha Field", 3000),
        ap(3, "CCC", "XCCC", "Charlie Field", 2000),
    ];
    let dists = vec![500_000u64, 0, 700_000];
    let routes = AbstractRoutes::new(&db, &origin, &dests, &dists).unwrap();
    assert_eq!(routes.routes().len(), 2);
    assert_eq!(routes.errors().len(), 1);
    match &routes.errors()[0] {
        RouteError::SelfReferential(a) => assert_eq!(a.id, Id(1)),
        _ => panic!("expected SelfReferential"),
    }
}

#[test]
fn unknown_destination_is_rejected_with_diagnostic() {
    let db = small_db();
    let origin = ap(1, "AAA", "XAAA", "Alpha Field", 3000);
    let dests = vec![ap(99, "ZZZ", "XZZZ", "Zulu Field", 3000)];
    let dists = vec![500_000u64];
    let routes = AbstractRoutes::new(&db, &origin, &dests, &dists).unwrap();
    assert_eq!(routes.routes().len(), 0);
    assert!(matches!(routes.errors()[0], RouteError::AirportNotFound(_)));
}

#[test]
fn unknown_origin_fails_the_whole_batch() {
    let db = small_db();
    let origin = ap(99, "ZZZ", "XZZZ", "Zulu Field", 3000);
    let dests = vec![ap(2, "BBB", "XBBB", "Bravo Field", 3000)];
    let dists = vec![500_000u64];
    assert!(matches!(
        AbstractRoutes::new(&db, &origin, &dests, &dists),
        Err(RouteError::AirportNotFound(_))
    ));
}

#[test]
fn distance_floor_boundary() {
    let db = small_db();
    let origin = ap(1, "AAA", "XAAA", "Alpha Field", 3000);
    let dests = vec![
        ap(2, "BBB", "XBBB", "Bravo Field", 3000),
        ap(3, "CCC", "XCCC", "Charlie Field", 2000),
        ap(4, "DDD", "XDDD", "Delta Field", 3000),
    ];
    // 99.999 units: below the floor; 100.000: at the floor, accepted;
    // 100.001: above it
    let dists = vec![99_999u64, 100_000, 100_001];
    assert_eq!(MIN_DISTANCE_MILLI, 100_000);
    let routes = AbstractRoutes::new(&db, &origin, &dests, &dists).unwrap();
    assert_eq!(routes.routes().len(), 2);
    assert_eq!(routes.errors().len(), 1);
    match &routes.errors()[0] {
        RouteError::DistanceTooShort(a, d) => {
            assert_eq!(a.id, Id(2));
            assert_eq!(*d, 99_999);
        }
        _ => panic!("expected DistanceTooShort"),
    }
    assert_eq!(routes.routes()[0].direct_distance(), 100_000);
    assert_eq!(routes.routes()[1].direct_distance(), 100_001);
}

#[test]
fn range_rule_boundary() {
    let db = small_db();
    let origin = ap(1, "AAA", "XAAA", "Alpha Field", 3000);
    let dests = vec![
        ap(2, "BBB", "XBBB", "Bravo Field", 3000),
        ap(3, "CCC", "XCCC", "Charlie Field", 2000),
    ];
    // an aircraft with one-way range 500 may fly strictly less than 1000.0:
    // 999.999 passes, 1000.0 is rejected
    let dists = vec![999_999u64, 1_000_000];
    let routes = AbstractRoutes::new(&db, &origin, &dests, &dists).unwrap();
    let ac = craft(500, 2000);
    let concrete = routes.with_aircraft(&ac, &GameMode::Easy);
    assert_eq!(concrete.routes().len(), 1);
    assert_eq!(concrete.routes()[0].direct_distance(), 999_999);
    assert_eq!(concrete.errors().len(), 1);
    match &concrete.errors()[0] {
        RouteError::DistanceAboveRange(a, d, t) => {
            assert_eq!(a.id, Id(3));
            assert_eq!(*d, 1_000_000);
            assert_eq!(*t, 1_000_000);
        }
        _ => panic!("expected DistanceAboveRange"),
    }
}

#[test]
fn runway_rule_depends_on_ruleset() {
    let db = small_db();
    let origin = ap(1, "AAA", "XAAA", "Alpha Field", 3000);
    let dests = vec![
        ap(2, "BBB", "XBBB", "Bravo Field", 3000),
        ap(3, "CCC", "XCCC", "Charlie Field", 2000),
    ];
    let dists = vec![500_000u64, 500_000];
    // requires a 3000 runway: the 2000 destination fails only under the
    // strict ruleset; an exactly long enough runway passes
    let ac = craft(20_000, 3000);
    let easy = AbstractRoutes::new(&db, &origin, &dests, &dists)
        .unwrap()
        .with_aircraft(&ac, &GameMode::Easy);
    assert_eq!(easy.routes().len(), 2);
    assert_eq!(easy.errors().len(), 0);
    let strict = AbstractRoutes::new(&db, &origin, &dests, &dists)
        .unwrap()
        .with_aircraft(&ac, &GameMode::Realism);
    assert_eq!(strict.routes().len(), 1);
    assert_eq!(strict.routes()[0].destination().airport().id, Id(2));
    match &strict.errors()[0] {
        RouteError::RunwayTooShort(a) => assert_eq!(a.id, Id(3)),
        _ => panic!("expected RunwayTooShort"),
    }
}

#[test]
fn diagnostics_of_both_stages_accumulate() {
    let db = small_db();
    let origin = ap(1, "AAA", "XAAA", "Alpha Field", 3000);
    let dests = vec![
        ap(1, "AAA", "XAAA", "Alpha Field", 3000),  // self-referential
        ap(2, "BBB", "XBBB", "Bravo Field", 3000),  // too far for the craft
        ap(3, "CCC", "XCCC", "Charlie Field", 2000),  // runway too short
        ap(4, "DDD", "XDDD", "Delta Field", 3000),  // accepted
    ];
    let dists = vec![500_000u64, 5_000_000, 500_000, 500_000];
    let ac = craft(1000, 2500);
    let concrete = AbstractRoutes::new(&db, &origin, &dests, &dists)
        .unwrap()
        .with_aircraft(&ac, &GameMode::Realism);
    assert_eq!(concrete.routes().len(), 1);
    assert_eq!(concrete.routes()[0].destination().airport().id, Id(4));
    assert_eq!(concrete.errors().len(), 3);
    assert!(matches!(concrete.errors()[0], RouteError::SelfReferential(_)));
    assert!(matches!(concrete.errors()[1], RouteError::DistanceAboveRange(_, _, _)));
    assert!(matches!(concrete.errors()[2], RouteError::RunwayTooShort(_)));
    assert_eq!(concrete.config().aircraft().id, AcId(1));
    assert_eq!(concrete.config().game_mode(), GameMode::Realism);
    assert_eq!(concrete.config().origin().airport().id, Id(1));
}
