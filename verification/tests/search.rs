use am4::aircraft::custom::Modification;
use am4::aircraft::search::{AircraftSearchError, Aircrafts, QueryCtx};
use am4::aircraft::{Aircraft, AircraftError, EnginePriority, Id, Name, ShortName};

fn record(id: u16, shortname: &str, name: &str, priority: u8) -> Aircraft {
    Aircraft {
        id: Id(id),
        shortname: ShortName(shortname.to_string()),
        name: Name(name.to_string()),
        priority: EnginePriority(priority),
    }
}

fn records() -> Vec<Aircraft> {
    vec![
        record(1, "b744", "Boeing 747-400", 0),
        record(1, "b744", "Boeing 747-400", 1),
        record(1, "b744", "Boeing 747-400", 2),
        record(2, "a388", "Airbus A380-800", 0),
        record(2, "a388", "Airbus A380-800", 1),
        record(3, "mc214", "Irkut MC-21-400", 0),
        record(40, "123", "Antonov An-225 Mriya with a long name", 5),
        record(123, "c172", "40", 0),
    ]
}

fn fleet() -> Aircrafts {
    Aircrafts::from_records(records())
}

#[test]
fn the_catalog_keeps_its_records_in_order() {
    assert_eq!(fleet().data(), &records());
    assert_eq!(Aircrafts::from_records(Vec::new()).data().len(), 0);
}

#[test]
fn unterminated_bracket_is_reported() {
    let fleet = fleet();
    assert_eq!(
        fleet.search("B773[GE90").err(),
        Some(AircraftSearchError::MissingClosingBracket)
    );
    assert_eq!(
        fleet.search_engines("B773[GE90").err(),
        Some(AircraftSearchError::MissingClosingBracket)
    );
}

#[test]
fn every_record_is_found_by_its_identifier() {
    let fleet = fleet();
    for (position, r) in records().iter().enumerate() {
        let engines = fleet.search_engines(&format!("ID:{}", r.id.0)).unwrap();
        assert_eq!(engines.get(&r.priority), Some(position));
    }
}

#[test]
fn every_record_is_found_by_its_short_code_and_engine() {
    let fleet = fleet();
    for r in records() {
        let query = format!("SHORTNAME:{}[{}]", r.shortname.0, r.priority.0);
        let found = fleet.search(&query).unwrap();
        assert_eq!(found.aircraft, r);
        assert_eq!(found.modifiers, Modification { engine: r.priority });
    }
}

#[test]
fn an_engine_that_no_variant_has_is_not_found() {
    let fleet = fleet();
    assert_eq!(fleet.search("SHORTNAME:b744[3]").err(), Some(AircraftSearchError::EngineNotFound));
    assert_eq!(fleet.search("SHORTNAME:a388[2]").err(), Some(AircraftSearchError::EngineNotFound));
    assert_eq!(fleet.search("SHORTNAME:123").err(), Some(AircraftSearchError::EngineNotFound));
    assert_eq!(fleet.search("SHORTNAME:a388[1]").unwrap().aircraft, records()[4]);
}

#[test]
fn a_search_without_brackets_asks_for_the_first_engine() {
    let fleet = fleet();
    let found = fleet.search("b744").unwrap();
    assert_eq!(found.aircraft, records()[0]);
    assert_eq!(found.modifiers, Modification::default());
}

#[test]
fn letter_case_does_not_count() {
    let fleet = fleet();
    let lower = fleet.search("NAME:boeing 747-400").unwrap();
    let upper = fleet.search("NAME:BOEING 747-400").unwrap();
    let mixed = fleet.search("name:Boeing 747-400").unwrap();
    assert_eq!(lower, upper);
    assert_eq!(lower, mixed);
    assert_eq!(lower.aircraft, records()[0]);
    assert_eq!(fleet.search("B744").unwrap(), fleet.search("b744").unwrap());
}

#[test]
fn names_that_differ_in_case_only_resolve_to_the_same_key() {
    let foo = QueryCtx::from_str("NAME:foo").unwrap();
    let upper = QueryCtx::from_str("NAME:FOO").unwrap();
    assert_eq!((&foo).into(), (&upper).into());
    assert_eq!(foo, upper);
}

#[test]
fn a_number_is_looked_up_as_an_identifier_not_as_a_name_or_code() {
    let fleet = fleet();
    // 123 is the short code of one record and the identifier of another.
    let engines = fleet.search_engines("123").unwrap();
    assert_eq!(engines.to_vec(), vec![(EnginePriority(0), 7)]);
    assert_eq!(fleet.search("123").unwrap().aircraft, records()[7]);
    // 40 is the name of one record and the identifier of another.
    assert_eq!(fleet.search("40[5]").unwrap().aircraft, records()[6]);
    assert_eq!(fleet.search("NAME:40").unwrap().aircraft, records()[7]);
    // 41 is nobody's identifier.
    assert_eq!(fleet.search("41").err(), Some(AircraftSearchError::AircraftNotFound));
}

#[test]
fn a_numeral_that_is_only_a_name_is_not_found_unscoped() {
    let fleet = Aircrafts::from_records(vec![record(1, "x", "777", 0)]);
    assert_eq!(fleet.search("777").err(), Some(AircraftSearchError::AircraftNotFound));
    assert_eq!(fleet.search("name:777").unwrap().aircraft, record(1, "x", "777", 0));
}

#[test]
fn searching_every_identifier_never_misses() {
    let fleet = fleet();
    for r in records() {
        let result = fleet.search_engines(&format!("ID:{}", r.id.0));
        assert_ne!(result.err(), Some(AircraftSearchError::AircraftNotFound));
    }
}

#[test]
fn of_two_records_with_the_same_code_and_engine_the_later_is_found() {
    let fleet = Aircrafts::from_records(vec![
        record(1, "b744", "Boeing 747-400", 0),
        record(2, "a388", "Airbus A380-800", 0),
        record(9, "B744", "Boeing 747-400 (second)", 0),
    ]);
    let found = fleet.search("SHORTNAME:b744[0]").unwrap();
    assert_eq!(found.aircraft, record(9, "B744", "Boeing 747-400 (second)", 0));
    let engines = fleet.search_engines("SHORTNAME:b744").unwrap();
    assert_eq!(engines.to_vec(), vec![(EnginePriority(0), 2)]);
    // Under its other keys the earlier record is still found.
    assert_eq!(fleet.search("ID:1").unwrap().aircraft, record(1, "b744", "Boeing 747-400", 0));
    assert_eq!(fleet.data().len(), 3);
}

#[test]
fn variants_list_the_engines_in_the_order_of_the_records() {
    let fleet = fleet();
    let engines = fleet.search_engines("b744").unwrap();
    assert_eq!(engines.len(), 3);
    assert_eq!(
        engines.to_vec(),
        vec![(EnginePriority(0), 0), (EnginePriority(1), 1), (EnginePriority(2), 2)]
    );
    assert_eq!(engines.first(), Some((EnginePriority(0), 0)));
}

#[test]
fn unscoped_search_tries_code_then_name() {
    let fleet = fleet();
    assert_eq!(fleet.search("mc214").unwrap().aircraft, records()[5]);
    // Up to twenty characters a text is a short code, so this name is not found unscoped.
    assert_eq!(fleet.search("Boeing 747-400").err(), Some(AircraftSearchError::AircraftNotFound));
    // A longer text is a name.
    assert_eq!(
        fleet.search("antonov an-225 mriya with a long name[5]").unwrap().aircraft,
        records()[6]
    );
}

#[test]
fn a_text_that_can_be_no_key_is_an_invalid_query() {
    let fleet = fleet();
    assert_eq!(fleet.search("").err(), Some(AircraftSearchError::InvalidQueryType));
    assert_eq!(fleet.search(&"x".repeat(41)).err(), Some(AircraftSearchError::InvalidQueryType));
    assert_eq!(fleet.search_engines("  ").err(), Some(AircraftSearchError::InvalidQueryType));
    assert_eq!(fleet.search("what:b744").err(), Some(AircraftSearchError::InvalidQueryType));
}

#[test]
fn each_error_has_an_input_that_gives_it() {
    let fleet = fleet();
    assert_eq!(fleet.search("nope").err(), Some(AircraftSearchError::AircraftNotFound));
    assert_eq!(fleet.search("b744[9]").err(), Some(AircraftSearchError::EngineNotFound));
    assert_eq!(fleet.search("b744[").err(), Some(AircraftSearchError::MissingClosingBracket));
    assert_eq!(fleet.search("scope:b744").err(), Some(AircraftSearchError::InvalidQueryType));
    assert_eq!(
        fleet.search("id:x").err(),
        Some(AircraftSearchError::Aircraft(AircraftError::InvalidID))
    );
    assert_eq!(
        fleet.search("b744[x]").err(),
        Some(AircraftSearchError::Aircraft(AircraftError::InvalidModifier))
    );
}

#[test]
fn search_by_key_takes_a_parsed_query() {
    let fleet = fleet();
    let ctx = QueryCtx::from_str("id:2[1]").unwrap();
    let engines = fleet.search_by_key(&ctx).unwrap();
    assert_eq!(engines.to_vec(), vec![(EnginePriority(0), 3), (EnginePriority(1), 4)]);
    let missing = QueryCtx::from_str("id:77").unwrap();
    assert_eq!(fleet.search_by_key(&missing).err(), Some(AircraftSearchError::AircraftNotFound));
    let empty = QueryCtx::from_str("").unwrap();
    assert_eq!(fleet.search_by_key(&empty).err(), Some(AircraftSearchError::InvalidQueryType));
}

#[test]
fn the_catalog_is_usable_after_a_failed_search() {
    let fleet = fleet();
    assert!(fleet.search("b744[").is_err());
    assert!(fleet.search("nothing").is_err());
    assert_eq!(fleet.search("b744").unwrap().aircraft, records()[0]);
}

#[test]
fn a_search_does_not_change_the_catalog() {
    let fleet = fleet();
    let found = fleet.search("b744[1]").unwrap();
    assert_eq!(found.aircraft, records()[1]);
    assert_eq!(fleet.data(), &records());
}

#[test]
fn names_beyond_ascii_are_found_in_any_case() {
    let fleet = Aircrafts::from_records(vec![record(1, "il96", "Ильюшин Ил-96", 0)]);
    assert_eq!(fleet.search("name:ильюшин ил-96").unwrap().aircraft.id, Id(1));
    assert_eq!(fleet.search("name:ИЛЬЮШИН ИЛ-96").unwrap().aircraft.id, Id(1));
}
