use geo_partition::grouping::group_states_by_country;
use geo_partition::index::CountryIndex;
use geo_partition::model::{Country, State};
use geo_partition::partition::{plan_country_files, CountryFile};

fn state(id: u32, country_id: u32) -> State {
    State {
        id,
        country_id,
        name: format!("state {}", id),
        state_code: None,
        latitude: None,
        longitude: None,
        cities: vec![],
    }
}

fn index() -> CountryIndex {
    CountryIndex::from_records(vec![
        Country { id: 1, code: "US".to_string() },
        Country { id: 2, code: "CA".to_string() },
    ])
}

#[test]
fn one_artifact_per_group() {
    let groups = group_states_by_country(vec![state(1, 1), state(2, 1), state(3, 2)]);
    let mut files = plan_country_files(&groups, &index());
    assert_eq!(files.len(), 2);
    let mut progress: Vec<usize> = files.iter().map(|f| f.progress).collect();
    progress.sort();
    assert_eq!(progress, vec![50, 100]);
    files.sort_by_key(|f| f.country_id);
    assert_eq!(files[0].country_id, 1);
    assert_eq!(files[0].filename, "1_US.json");
    assert_eq!(files[0].state_count, 2);
    assert_eq!(files[1].country_id, 2);
    assert_eq!(files[1].filename, "2_CA.json");
    assert_eq!(files[1].state_count, 1);
}

#[test]
fn orphan_country_is_filed_under_the_fallback_code() {
    let groups = group_states_by_country(vec![state(5, 999)]);
    let files = plan_country_files(&groups, &index());
    assert_eq!(
        files,
        vec![CountryFile {
            country_id: 999,
            filename: "999_XX.json".to_string(),
            state_count: 1,
            progress: 100,
        }]
    );
}

#[test]
fn country_without_states_gets_no_artifact() {
    let groups = group_states_by_country(vec![state(1, 2)]);
    let files = plan_country_files(&groups, &index());
    assert_eq!(files.len(), 1);
    assert_eq!(files[0].filename, "2_CA.json");
}

#[test]
fn nothing_to_write_for_no_states() {
    let groups = group_states_by_country(Vec::new());
    assert!(plan_country_files(&groups, &index()).is_empty());
}

#[test]
fn progress_follows_the_order_of_writing() {
    let groups = group_states_by_country(vec![state(1, 10), state(2, 20), state(3, 30)]);
    let files = plan_country_files(&groups, &index());
    let progress: Vec<usize> = files.iter().map(|f| f.progress).collect();
    assert_eq!(progress, vec![33, 66, 100]);
    let mut ids: Vec<u32> = files.iter().map(|f| f.country_id).collect();
    ids.sort();
    assert_eq!(ids, vec![10, 20, 30]);
    for f in &files {
        assert_eq!(f.filename, format!("{}_XX.json", f.country_id));
        assert_eq!(f.state_count, 1);
    }
}

#[test]
fn planning_twice_names_the_same_artifacts() {
    let groups = group_states_by_country(vec![state(1, 1), state(2, 7), state(3, 2), state(4, 7)]);
    let mut first: Vec<String> =
        plan_country_files(&groups, &index()).into_iter().map(|f| f.filename).collect();
    let mut second: Vec<String> =
        plan_country_files(&groups, &index()).into_iter().map(|f| f.filename).collect();
    first.sort();
    second.sort();
    assert_eq!(first, second);
    assert_eq!(first, vec!["1_US.json", "2_CA.json", "7_XX.json"]);
}
