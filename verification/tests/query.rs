use am4::aircraft::custom::Modification;
use am4::aircraft::search::{AircraftSearchError, QueryCtx, QueryKey, SearchKey};
use am4::aircraft::{AircraftError, EnginePriority, Id, Name, ShortName};

fn parsed(s: &str) -> QueryCtx {
    QueryCtx::from_str(s).unwrap()
}

#[test]
fn a_text_without_a_colon_is_of_unknown_kind() {
    let ctx = parsed("b744");
    assert_eq!(ctx.key, QueryKey::All("b744".to_string()));
    assert_eq!(ctx.modifiers, Modification::default());
}

#[test]
fn a_text_of_unknown_kind_keeps_its_letter_case() {
    assert_eq!(parsed("Boeing 747").key, QueryKey::All("Boeing 747".to_string()));
}

#[test]
fn white_space_around_a_query_does_not_count() {
    assert_eq!(parsed("  b744\n").key, QueryKey::All("b744".to_string()));
    assert_eq!(parsed("\tid:7 ").key, QueryKey::Id(Id(7)));
}

#[test]
fn scopes_are_recognised_in_any_letter_case() {
    assert_eq!(parsed("SHORTNAME:b744").key, QueryKey::ShortName(ShortName("B744".to_string())));
    assert_eq!(parsed("shortname:b744").key, QueryKey::ShortName(ShortName("B744".to_string())));
    assert_eq!(parsed("Name:Boeing").key, QueryKey::Name(Name("BOEING".to_string())));
    assert_eq!(parsed("iD:12").key, QueryKey::Id(Id(12)));
}

#[test]
fn only_the_first_colon_parts_scope_and_value() {
    assert_eq!(parsed("name:a:b:c").key, QueryKey::Name(Name("A:B:C".to_string())));
    assert_eq!(parsed("name::").key, QueryKey::Name(Name(":".to_string())));
}

#[test]
fn an_unknown_scope_is_refused() {
    assert_eq!(QueryCtx::from_str("code:b744").err(), Some(AircraftSearchError::InvalidQueryType));
    assert_eq!(QueryCtx::from_str(":b744").err(), Some(AircraftSearchError::InvalidQueryType));
    assert_eq!(QueryCtx::from_str("id :1").err(), Some(AircraftSearchError::InvalidQueryType));
}

#[test]
fn a_malformed_identifier_is_refused_with_its_own_error() {
    let expected = Some(AircraftSearchError::Aircraft(AircraftError::InvalidID));
    assert_eq!(QueryCtx::from_str("id:b744").err(), expected);
    assert_eq!(QueryCtx::from_str("id:").err(), expected);
    assert_eq!(QueryCtx::from_str("id:65536").err(), expected);
    assert_eq!(QueryCtx::from_str("id: 1").err(), expected);
}

#[test]
fn brackets_hold_the_modifiers() {
    let ctx = parsed("b744[1]");
    assert_eq!(ctx.key, QueryKey::All("b744".to_string()));
    assert_eq!(ctx.modifiers, Modification { engine: EnginePriority(1) });
    assert_eq!(parsed("id:3[ 12 ]").modifiers, Modification { engine: EnginePriority(12) });
    assert_eq!(parsed("b744[]").modifiers, Modification::default());
}

#[test]
fn what_follows_the_closing_bracket_is_not_read() {
    let ctx = parsed("b744[2]] and more [");
    assert_eq!(ctx.key, QueryKey::All("b744".to_string()));
    assert_eq!(ctx.modifiers, Modification { engine: EnginePriority(2) });
}

#[test]
fn white_space_before_the_bracket_stays_in_the_body() {
    assert_eq!(parsed("b744 [1]").key, QueryKey::All("b744 ".to_string()));
}

#[test]
fn a_bracket_that_is_not_closed_is_refused() {
    let expected = Some(AircraftSearchError::MissingClosingBracket);
    assert_eq!(QueryCtx::from_str("B773[GE90").err(), expected);
    assert_eq!(QueryCtx::from_str("b744[").err(), expected);
    assert_eq!(QueryCtx::from_str("[").err(), expected);
    assert_eq!(QueryCtx::from_str("]b744[").err(), expected);
}

#[test]
fn malformed_modifiers_are_refused_with_their_own_error() {
    let expected = Some(AircraftSearchError::Aircraft(AircraftError::InvalidModifier));
    assert_eq!(QueryCtx::from_str("B773[GE90]").err(), expected);
    assert_eq!(QueryCtx::from_str("b744[256]").err(), expected);
}

#[test]
fn of_two_mistakes_the_one_in_the_brackets_is_reported() {
    assert_eq!(
        QueryCtx::from_str("code:b744[x]").err(),
        Some(AircraftSearchError::Aircraft(AircraftError::InvalidModifier))
    );
    assert_eq!(
        QueryCtx::from_str("code:b744[").err(),
        Some(AircraftSearchError::MissingClosingBracket)
    );
}

#[test]
fn an_empty_query_is_parsed() {
    assert_eq!(parsed("").key, QueryKey::All(String::new()));
    assert_eq!(parsed("   ").key, QueryKey::All(String::new()));
    assert_eq!(parsed("[3]").key, QueryKey::All(String::new()));
    assert_eq!(parsed("name:").key, QueryKey::Name(Name(String::new())));
}

#[test]
fn an_empty_text_has_no_key() {
    assert_eq!((&parsed("")).into(), None);
}

#[test]
fn a_number_is_an_identifier_before_it_is_anything_else() {
    assert_eq!((&parsed("123")).into(), Some(SearchKey::Id(Id(123))));
    assert_eq!((&parsed("+7")).into(), Some(SearchKey::Id(Id(7))));
    assert_eq!((&parsed("65535")).into(), Some(SearchKey::Id(Id(65535))));
}

#[test]
fn a_number_too_large_for_an_identifier_is_a_short_code() {
    assert_eq!(
        (&parsed("65536")).into(),
        Some(SearchKey::ShortName(ShortName("65536".to_string())))
    );
}

#[test]
fn a_short_text_is_a_short_code_and_a_longer_one_a_name() {
    assert_eq!(
        (&parsed("b744")).into(),
        Some(SearchKey::ShortName(ShortName("B744".to_string())))
    );
    let twenty = "a".repeat(20);
    assert_eq!(
        (&parsed(&twenty)).into(),
        Some(SearchKey::ShortName(ShortName("A".repeat(20))))
    );
    let longer = "a".repeat(21);
    assert_eq!((&parsed(&longer)).into(), Some(SearchKey::Name(Name("A".repeat(21)))));
    let forty = "b".repeat(40);
    assert_eq!((&parsed(&forty)).into(), Some(SearchKey::Name(Name("B".repeat(40)))));
}

#[test]
fn a_text_too_long_for_a_name_has_no_key() {
    assert_eq!((&parsed(&"a".repeat(41))).into(), None);
}

#[test]
fn a_value_of_a_declared_kind_has_the_key_of_that_kind() {
    assert_eq!((&parsed("id:12")).into(), Some(SearchKey::Id(Id(12))));
    assert_eq!(
        (&parsed("shortname:123")).into(),
        Some(SearchKey::ShortName(ShortName("123".to_string())))
    );
    assert_eq!((&parsed("name:123")).into(), Some(SearchKey::Name(Name("123".to_string()))));
    let long = "x".repeat(60);
    assert_eq!(
        (&parsed(&format!("shortname:{}", long))).into(),
        Some(SearchKey::ShortName(ShortName("X".repeat(60))))
    );
}

#[test]
fn keys_hold_uppercase() {
    assert_eq!(
        SearchKey::from_shortname(ShortName("b744".to_string())),
        SearchKey::ShortName(ShortName("B744".to_string()))
    );
    assert_eq!(
        SearchKey::from_name(Name("Boeing 747-400".to_string())),
        SearchKey::Name(Name("BOEING 747-400".to_string()))
    );
    assert_eq!(SearchKey::from_id(Id(5)), SearchKey::Id(Id(5)));
}

#[test]
fn keys_of_different_kinds_differ() {
    let code = SearchKey::from_shortname(ShortName("123".to_string()));
    let name = SearchKey::from_name(Name("123".to_string()));
    let id = SearchKey::from_id(Id(123));
    assert!(!code.same(&name));
    assert!(!code.same(&id));
    assert!(!name.same(&id));
    assert!(code.same(&code.clone()));
    assert!(id.same(&SearchKey::Id(Id(123))));
    assert!(!id.same(&SearchKey::Id(Id(124))));
}

#[test]
fn the_text_of_a_key_is_what_it_is_compared_by() {
    assert_eq!(SearchKey::Id(Id(42)).text(), "42");
    assert_eq!(SearchKey::Id(Id(0)).text(), "0");
    assert_eq!(SearchKey::from_shortname(ShortName("b744".to_string())).text(), "B744");
    assert_eq!(SearchKey::from_name(Name("Airbus".to_string())).text(), "AIRBUS");
}

#[test]
fn search_errors_are_described() {
    assert_eq!(AircraftSearchError::InvalidQueryType.to_string(), "Invalid query type");
    assert_eq!(AircraftSearchError::AircraftNotFound.to_string(), "Aircraft not found");
    assert_eq!(
        AircraftSearchError::EngineNotFound.to_string(),
        "Engine does not exist for this aircraft"
    );
    assert_eq!(
        AircraftSearchError::MissingClosingBracket.to_string(),
        "Found opening `[` but no closing `]`."
    );
    assert_eq!(
        AircraftSearchError::Aircraft(AircraftError::InvalidID).to_string(),
        AircraftError::InvalidID.to_string()
    );
}

#[test]
fn a_value_error_becomes_a_search_error() {
    assert_eq!(
        AircraftSearchError::from(AircraftError::InvalidName),
        AircraftSearchError::Aircraft(AircraftError::InvalidName)
    );
}
