use am4::aircraft::custom::{CustomAircraft, Modification};
use am4::aircraft::{Aircraft, AircraftError, EnginePriority, Id, Name, ShortName};

#[test]
fn identifiers_are_decimal_numbers() {
    assert_eq!(Id::from_str("0"), Ok(Id(0)));
    assert_eq!(Id::from_str("65535"), Ok(Id(65535)));
    assert_eq!(Id::from_str("+12"), Ok(Id(12)));
    assert_eq!(Id::from_str("012"), Ok(Id(12)));
    assert_eq!(Id::from_str("65536"), Err(AircraftError::InvalidID));
    assert_eq!(Id::from_str(""), Err(AircraftError::InvalidID));
    assert_eq!(Id::from_str("b744"), Err(AircraftError::InvalidID));
    assert_eq!(Id::from_str(" 1"), Err(AircraftError::InvalidID));
    assert_eq!(Id::from_str("-1"), Err(AircraftError::InvalidID));
}

#[test]
fn short_codes_have_one_to_twenty_characters() {
    assert_eq!(ShortName::from_str("b744"), Ok(ShortName("b744".to_string())));
    assert_eq!(ShortName::from_str("x"), Ok(ShortName("x".to_string())));
    let twenty = "a".repeat(20);
    assert_eq!(ShortName::from_str(&twenty), Ok(ShortName(twenty.clone())));
    assert_eq!(ShortName::from_str(&"a".repeat(21)), Err(AircraftError::InvalidShortName));
    assert_eq!(ShortName::from_str(""), Err(AircraftError::InvalidShortName));
}

#[test]
fn short_codes_are_measured_in_characters() {
    let twenty = "é".repeat(20);
    assert_eq!(ShortName::from_str(&twenty), Ok(ShortName(twenty.clone())));
}

#[test]
fn names_have_one_to_forty_characters() {
    assert_eq!(Name::from_str("Boeing 747-400"), Ok(Name("Boeing 747-400".to_string())));
    let forty = "n".repeat(40);
    assert_eq!(Name::from_str(&forty), Ok(Name(forty.clone())));
    assert_eq!(Name::from_str(&"n".repeat(41)), Err(AircraftError::InvalidName));
    assert_eq!(Name::from_str(""), Err(AircraftError::InvalidName));
}

#[test]
fn modifiers_select_an_engine() {
    assert_eq!(Modification::from_str("1"), Ok(Modification { engine: EnginePriority(1) }));
    assert_eq!(Modification::from_str(" 12 "), Ok(Modification { engine: EnginePriority(12) }));
    assert_eq!(Modification::from_str("255"), Ok(Modification { engine: EnginePriority(255) }));
    assert_eq!(Modification::from_str("+3"), Ok(Modification { engine: EnginePriority(3) }));
}

#[test]
fn no_modifiers_are_the_default_ones() {
    assert_eq!(Modification::default(), Modification { engine: EnginePriority(0) });
    assert_eq!(Modification::from_str(""), Ok(Modification::default()));
    assert_eq!(Modification::from_str("   "), Ok(Modification::default()));
}

#[test]
fn malformed_modifiers_are_refused() {
    assert_eq!(Modification::from_str("GE90"), Err(AircraftError::InvalidModifier));
    assert_eq!(Modification::from_str("256"), Err(AircraftError::InvalidModifier));
    assert_eq!(Modification::from_str("1 2"), Err(AircraftError::InvalidModifier));
    assert_eq!(Modification::from_str("-1"), Err(AircraftError::InvalidModifier));
}

#[test]
fn every_error_is_described() {
    let all = [
        AircraftError::InvalidID,
        AircraftError::InvalidShortName,
        AircraftError::InvalidName,
        AircraftError::InvalidModifier,
    ];
    for (i, e) in all.iter().enumerate() {
        assert!(!e.to_string().is_empty());
        for other in &all[i + 1..] {
            assert_ne!(e.to_string(), other.to_string());
        }
    }
    assert_eq!(
        AircraftError::InvalidID.to_string(),
        "Invalid aircraft ID: not a number from 0 to 65535"
    );
}

#[test]
fn a_customised_record_holds_the_record_and_the_options() {
    let record = Aircraft {
        id: Id(1),
        shortname: ShortName("b744".to_string()),
        name: Name("Boeing 747-400".to_string()),
        priority: EnginePriority(2),
    };
    let modifiers = Modification { engine: EnginePriority(2) };
    let custom = CustomAircraft::from_aircraft_and_modifiers(record.clone(), modifiers);
    assert_eq!(custom.aircraft, record);
    assert_eq!(custom.modifiers, modifiers);
}

#[test]
fn a_copy_of_a_record_equals_it() {
    let record = Aircraft {
        id: Id(7),
        shortname: ShortName("a388".to_string()),
        name: Name("Airbus A380-800".to_string()),
        priority: EnginePriority(0),
    };
    assert_eq!(record.clone(), record);
    assert_eq!(record.shortname.clone(), ShortName("a388".to_string()));
    assert_eq!(record.name.clone(), Name("Airbus A380-800".to_string()));
}
