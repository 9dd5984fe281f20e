use json_ecs_sub::response::{component_values, match_row};
use json_ecs_sub::{EcsSubApi, QueryError, QuerySubReq, QuerySubResp, RawRow};

fn strings(items: &[&str]) -> Vec<String> {
    items.iter().map(|item| item.to_string()).collect()
}

fn pairs(items: &[(&str, &str)]) -> Vec<(String, String)> {
    items
        .iter()
        .map(|(name, value)| (name.to_string(), value.to_string()))
        .collect()
}

fn sorted(mut entries: Vec<(String, String)>) -> Vec<(String, String)> {
    entries.sort();
    entries
}

fn fetching(fetch: &[&str]) -> QuerySubReq {
    QuerySubReq {
        id: "q".to_string(),
        fetch: strings(fetch),
        filter: vec![],
    }
}

#[test]
fn component_values_pairs_names_with_values() {
    let entries = component_values(
        &strings(&["Health", "Location"]),
        &strings(&["{\"health\":99}", "{\"city\":\"Salmon\"}"]),
    );
    assert_eq!(
        sorted(entries),
        pairs(&[
            ("Health", "{\"health\":99}"),
            ("Location", "{\"city\":\"Salmon\"}")
        ])
    );
}

#[test]
fn component_values_keeps_the_last_value_of_a_repeated_name() {
    let entries = component_values(
        &strings(&["Health", "Location", "Health"]),
        &strings(&["1", "2", "3"]),
    );
    assert_eq!(
        sorted(entries),
        pairs(&[("Health", "3"), ("Location", "2")])
    );
}

#[test]
fn component_values_stops_where_either_list_ends() {
    let entries = component_values(&strings(&["A", "B", "C"]), &strings(&["1"]));
    assert_eq!(entries, pairs(&[("A", "1")]));
    let entries = component_values(&strings(&["A"]), &strings(&["1", "2", "3"]));
    assert_eq!(entries, pairs(&[("A", "1")]));
    assert_eq!(component_values(&strings(&[]), &strings(&["1"])), vec![]);
    assert_eq!(component_values(&strings(&["A"]), &strings(&[])), vec![]);
}

#[test]
fn match_row_takes_the_raw_value_of_each_item() {
    let row = RawRow {
        entity: 7,
        items: strings(&[" {\"city\": \"NYC\"}\n", "\t50 "]),
    };
    let (entity, components) = match_row(&strings(&["Location", "Health"]), &row).unwrap();
    assert_eq!(entity, 7);
    assert_eq!(
        sorted(components),
        pairs(&[("Health", "50"), ("Location", "{\"city\": \"NYC\"}")])
    );
}

#[test]
fn match_row_fails_on_text_that_is_not_json() {
    let row = RawRow {
        entity: 4,
        items: strings(&["1", "{\"city\":", "nonsense"]),
    };
    assert_eq!(
        match_row(&strings(&["A", "B", "C"]), &row),
        Err(QueryError::TypeMismatch {
            entity: 4,
            short_name: "B".to_string()
        })
    );
}

#[test]
fn match_row_reads_no_item_beyond_the_fetch_list() {
    let row = RawRow {
        entity: 4,
        items: strings(&["1", "nonsense"]),
    };
    assert_eq!(
        match_row(&strings(&["A"]), &row),
        Ok((4, pairs(&[("A", "1")])))
    );
}

#[test]
fn run_query_internal_answers_row_by_row() {
    let api = EcsSubApi::new();
    let rows = vec![
        RawRow {
            entity: 2,
            items: strings(&["{\"health\":1}"]),
        },
        RawRow {
            entity: 0,
            items: strings(&["{\"health\":2}"]),
        },
        RawRow {
            entity: 1,
            items: strings(&[]),
        },
    ];
    assert_eq!(
        api.run_query_internal(&fetching(&["Health"]), &rows),
        Ok(QuerySubResp {
            matches: vec![
                (2, pairs(&[("Health", "{\"health\":1}")])),
                (0, pairs(&[("Health", "{\"health\":2}")])),
                (1, vec![]),
            ]
        })
    );
}

#[test]
fn run_query_internal_without_rows_has_no_matches() {
    let api = EcsSubApi::new();
    assert_eq!(
        api.run_query_internal(&fetching(&["Health"]), &vec![]),
        Ok(QuerySubResp { matches: vec![] })
    );
}

#[test]
fn run_query_internal_fails_with_the_first_bad_row() {
    let api = EcsSubApi::new();
    let rows = vec![
        RawRow {
            entity: 5,
            items: strings(&["1", "2"]),
        },
        RawRow {
            entity: 6,
            items: strings(&["1", ""]),
        },
        RawRow {
            entity: 7,
            items: strings(&["x", "2"]),
        },
    ];
    assert_eq!(
        api.run_query_internal(&fetching(&["A", "B"]), &rows),
        Err(QueryError::TypeMismatch {
            entity: 6,
            short_name: "B".to_string()
        })
    );
}
