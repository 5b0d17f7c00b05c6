use geo_partition::error::ProcessingError;
use geo_partition::index::CountryIndex;
use geo_partition::loader::{load_countries, load_states};
use geo_partition::model::{City, Country, State};

fn country(id: u32, code: &str) -> Country {
    Country { id, code: code.to_string() }
}

fn parse_failure() -> serde_json::Error {
    serde_json::from_str::<serde_json::Value>("[{\"id\": 1,").unwrap_err()
}

#[test]
fn catalog_round_trips_through_the_index() {
    let index = CountryIndex::from_records(vec![country(1, "US"), country(2, "CA")]);
    assert_eq!(index.len(), 2);
    assert_eq!(index.get(1).map(|s| s.as_str()), Some("US"));
    assert_eq!(index.get(2).map(|s| s.as_str()), Some("CA"));
    assert_eq!(index.get(3), None);
}

#[test]
fn empty_catalog_gives_an_empty_index() {
    let index = CountryIndex::from_records(Vec::new());
    assert_eq!(index.len(), 0);
    assert_eq!(index.get(0), None);
}

#[test]
fn last_record_of_an_id_wins() {
    let index = CountryIndex::from_records(vec![
        country(1, "US"),
        country(2, "CA"),
        country(1, "UM"),
        country(3, "MX"),
        country(2, "CD"),
    ]);
    assert_eq!(index.len(), 3);
    assert_eq!(index.get(1).map(|s| s.as_str()), Some("UM"));
    assert_eq!(index.get(2).map(|s| s.as_str()), Some("CD"));
    assert_eq!(index.get(3).map(|s| s.as_str()), Some("MX"));
}

#[test]
fn unknown_country_resolves_to_the_fallback_code() {
    let index = CountryIndex::from_records(vec![country(1, "US")]);
    assert_eq!(index.code_for(1), "US");
    assert_eq!(index.code_for(999), "XX");
    assert_eq!(index.code_for(0), "XX");
}

#[test]
fn parsed_catalog_loads_into_an_index() {
    let index = load_countries(Ok(vec![country(1, "US"), country(2, "CA")])).unwrap();
    assert_eq!(index.len(), 2);
    assert_eq!(index.code_for(1), "US");
    assert_eq!(index.code_for(2), "CA");
}

#[test]
fn malformed_catalog_is_fatal() {
    let expected = parse_failure().to_string();
    match load_countries(Err(parse_failure())) {
        Err(ProcessingError::Json(e)) => assert_eq!(e.to_string(), expected),
        Err(other) => panic!("unexpected error: {:?}", other),
        Ok(_) => panic!("a malformed catalog gave an index"),
    }
    match load_states(Err(parse_failure())) {
        Err(ProcessingError::Json(e)) => assert_eq!(e.to_string(), expected),
        other => panic!("unexpected outcome: {:?}", other),
    }
}

#[test]
fn parsed_states_keep_their_order() {
    let states: Vec<State> = vec![
        State {
            id: 3,
            country_id: 2,
            name: "Ontario".to_string(),
            state_code: None,
            latitude: None,
            longitude: None,
            cities: vec![City { id: 9, name: "Toronto".to_string(), latitude: None, longitude: None }],
        },
        State {
            id: 1,
            country_id: 1,
            name: "California".to_string(),
            state_code: Some("CA".to_string()),
            latitude: Some("36.7783".to_string()),
            longitude: Some("-119.4179".to_string()),
            cities: vec![],
        },
    ];
    let loaded = load_states(Ok(states.clone())).unwrap();
    assert_eq!(loaded, states);
}
