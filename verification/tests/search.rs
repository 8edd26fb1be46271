use am4::airport::db::{AirportSearchError, Airports};
use am4::airport::{Airport, AirportError, Iata, Icao, Id, Name};

fn ap(id: u16, iata: &str, icao: &str, name: &str, rwy: u16) -> Airport {
    Airport {
        id: Id(id),
        iata: Iata(iata.to_string()),
        icao: Icao(icao.to_string()),
        name: Name(name.to_string()),
        rwy,
    }
}

fn small_db() -> Airports {
    Airports::new(vec![
        ap(3500, "HKG", "VHHH", "Hong Kong Intl", 3800),
        ap(3484, "LAX", "KLAX", "Los Angeles Intl", 3939),
        ap(597, "NRT", "RJAA", "Narita Intl", 4000),
    ])
}

#[test]
fn search_by_typed_keys() {
    let db = small_db();
    assert_eq!(db.search("id:3500").unwrap().iata.0, "HKG");
    assert_eq!(db.search("iata:Hkg").unwrap().iata.0, "HKG");
    assert_eq!(db.search("icao:vhhh").unwrap().iata.0, "HKG");
    assert_eq!(db.search("name:hong kong intl").unwrap().iata.0, "HKG");
}

#[test]
fn search_free_form() {
    let db = small_db();
    assert_eq!(db.search("3500").unwrap().iata.0, "HKG");
    assert_eq!(db.search("lax").unwrap().iata.0, "LAX");
    assert_eq!(db.search("KLAX").unwrap().iata.0, "LAX");
    assert_eq!(db.search("narita intl").unwrap().iata.0, "NRT");
}

#[test]
fn typed_prefix_is_case_insensitive() {
    let db = small_db();
    let a = db.search("ID:3500").unwrap();
    let b = db.search("id:3500").unwrap();
    assert_eq!(a.id, b.id);
    let c = db.search("IATA:HKG").unwrap();
    let d = db.search("iata:hkg").unwrap();
    assert_eq!(c.id, d.id);
}

#[test]
fn query_case_never_matters() {
    let db = small_db();
    for q in ["hkg", "HKG", "Hkg", "vhhh", "VHHH", "narita intl", "NARITA INTL"] {
        assert_eq!(db.search(q).unwrap().id, db.search(&q.to_uppercase()).unwrap().id);
        assert_eq!(db.search(q).unwrap().id, db.search(&q.to_lowercase()).unwrap().id);
    }
}

#[test]
fn query_is_trimmed() {
    let db = small_db();
    assert_eq!(db.search("  hkg  ").unwrap().iata.0, "HKG");
    assert_eq!(db.search("\tVHHH\n").unwrap().iata.0, "HKG");
}

#[test]
fn search_not_found() {
    let db = small_db();
    assert_eq!(db.search("hkgA").unwrap_err(), AirportSearchError::AirportNotFound);
    assert_eq!(db.search("VHHX").unwrap_err(), AirportSearchError::AirportNotFound);
    assert_eq!(db.search("hong kong").unwrap_err(), AirportSearchError::AirportNotFound);
}

#[test]
fn search_invalid_queries() {
    let db = small_db();
    // unknown typed prefix
    assert_eq!(
        db.search("city:hongkong").unwrap_err(),
        AirportSearchError::InvalidQueryType
    );
    // empty free-form value matches no key grammar
    assert_eq!(db.search("").unwrap_err(), AirportSearchError::InvalidQueryType);
    assert_eq!(db.search("   ").unwrap_err(), AirportSearchError::InvalidQueryType);
}

#[test]
fn search_id_overflow() {
    let db = small_db();
    // 65590 does not fit an unsigned 16-bit identifier
    assert!(db.search("65590").is_err());
    assert_eq!(
        db.search("id:65590").unwrap_err(),
        AirportSearchError::Airport(AirportError::InvalidId)
    );
}

#[test]
fn first_write_wins_on_key_collision() {
    let db = Airports::new(vec![
        ap(1, "AAA", "XAAA", "First Field", 2000),
        ap(2, "AAA", "XAAB", "Second Field", 2500),
    ]);
    // the colliding short code stays mapped to the record inserted first
    assert_eq!(db.search("iata:AAA").unwrap().id, Id(1));
    // the second record stays reachable through its other keys
    assert_eq!(db.search("icao:XAAB").unwrap().id, Id(2));
    assert_eq!(db.search("id:2").unwrap().id, Id(2));
}

#[test]
fn unicode_names_match_case_insensitively() {
    let db = Airports::new(vec![ap(88, "ZRH", "LSZH", "Z\u{fc}rich Intl", 3700)]);
    assert_eq!(db.search("z\u{fc}rich intl").unwrap().id, Id(88));
    assert_eq!(db.search("name:Z\u{dc}RICH INTL").unwrap().id, Id(88));
}

#[test]
fn end_to_end_scenario() {
    let db = small_db();
    let by_id = db.search("id:3500").unwrap();
    let by_iata = db.search("iata:Hkg").unwrap();
    let by_name = db.search("hong kong intl").unwrap();
    assert_eq!(by_id.id, Id(3500));
    assert_eq!(by_iata.id, Id(3500));
    assert_eq!(by_name.id, Id(3500));
    assert_eq!(db.search("hkgA").unwrap_err(), AirportSearchError::AirportNotFound);
    let suggs = db.suggest("hkgA").unwrap();
    assert_eq!(suggs[0].item.id, Id(3500));
}

#[test]
fn getters_expose_store_and_index() {
    let db = small_db();
    assert_eq!(db.data().len(), 3);
    // three records, four distinct keys each
    assert_eq!(db.index().len(), 12);
}
