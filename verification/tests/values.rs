use am4::aircraft::{AcId, AcName, AircraftError, AircraftType, EnginePriority, ShortName};
use am4::airport::{AirportError, Iata, Icao, Id, Name};

#[test]
fn airport_id_parsing() {
    assert_eq!(Id::parse("3500").unwrap(), Id(3500));
    assert_eq!(Id::parse("0").unwrap(), Id(0));
    assert_eq!(Id::parse("+12").unwrap(), Id(12));
    assert_eq!(Id::parse("65535").unwrap(), Id(65535));
    assert_eq!(Id::parse("65590").unwrap_err(), AirportError::InvalidId);
    assert_eq!(Id::parse("").unwrap_err(), AirportError::InvalidId);
    assert_eq!(Id::parse("+").unwrap_err(), AirportError::InvalidId);
    assert_eq!(Id::parse("-3").unwrap_err(), AirportError::InvalidId);
    assert_eq!(Id::parse("12a").unwrap_err(), AirportError::InvalidId);
    assert_eq!(Id::parse(" 12").unwrap_err(), AirportError::InvalidId);
}

#[test]
fn airport_code_lengths() {
    assert_eq!(Iata::parse("HK").unwrap().0, "HK");
    assert_eq!(Iata::parse("HKG").unwrap().0, "HKG");
    assert_eq!(Iata::parse("H").unwrap_err(), AirportError::InvalidIata);
    assert_eq!(Iata::parse("HKGX").unwrap_err(), AirportError::InvalidIata);
    assert_eq!(Icao::parse("VHHH").unwrap().0, "VHHH");
    assert_eq!(Icao::parse("VHH").unwrap_err(), AirportError::InvalidIcao);
    assert_eq!(Icao::parse("VHHHH").unwrap_err(), AirportError::InvalidIcao);
    assert_eq!(Name::parse("Hong Kong Intl").unwrap().0, "Hong Kong Intl");
    assert_eq!(Name::parse("").unwrap_err(), AirportError::InvalidName);
    let long = "x".repeat(41);
    assert_eq!(Name::parse(&long).unwrap_err(), AirportError::InvalidName);
}

#[test]
fn aircraft_id_and_priority_parsing() {
    assert_eq!(AcId::parse("330").unwrap(), AcId(330));
    assert_eq!(AcId::parse("70000").unwrap_err(), AircraftError::InvalidId);
    assert_eq!(EnginePriority::parse("0").unwrap(), EnginePriority(0));
    assert_eq!(EnginePriority::parse("255").unwrap(), EnginePriority(255));
    assert_eq!(
        EnginePriority::parse("256").unwrap_err(),
        AircraftError::InvalidPriority
    );
    assert_eq!(
        EnginePriority::parse("x").unwrap_err(),
        AircraftError::InvalidPriority
    );
}

#[test]
fn aircraft_name_lengths() {
    assert_eq!(ShortName::parse("b744").unwrap().0, "b744");
    let long = "x".repeat(21);
    assert_eq!(
        ShortName::parse(&long).unwrap_err(),
        AircraftError::InvalidShortName
    );
    assert_eq!(ShortName::parse("").unwrap_err(), AircraftError::InvalidShortName);
    assert_eq!(AcName::parse("B747-400").unwrap().0, "B747-400");
    let long = "x".repeat(41);
    assert_eq!(AcName::parse(&long).unwrap_err(), AircraftError::InvalidName);
}

#[test]
fn aircraft_type_parsing_is_case_insensitive() {
    assert_eq!(AircraftType::parse("pax").unwrap(), AircraftType::Pax);
    assert_eq!(AircraftType::parse("PAX").unwrap(), AircraftType::Pax);
    assert_eq!(AircraftType::parse("Cargo").unwrap(), AircraftType::Cargo);
    assert_eq!(AircraftType::parse("vip").unwrap(), AircraftType::Vip);
    assert_eq!(
        AircraftType::parse("bus").unwrap_err(),
        AircraftError::InvalidAircraftType
    );
}
