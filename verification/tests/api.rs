use bevy::ecs::component::ComponentId;
use json_ecs_sub::registry::ComponentIdRegistry;
use json_ecs_sub::{
    EcsSubApi, FetchKind, FilterKind, QueryError, QueryPlan, QuerySubReq, QuerySubResp, RawRow,
    ShortNameFilter,
};

fn registry() -> ComponentIdRegistry {
    let mut registry = ComponentIdRegistry::new();
    registry.register(ComponentId::new(0), "Health".to_string());
    registry.register(ComponentId::new(1), "Location".to_string());
    registry
}

fn request(id: &str, fetch: &[&str], filter: Vec<ShortNameFilter>) -> QuerySubReq {
    QuerySubReq {
        id: id.to_string(),
        fetch: fetch.iter().map(|name| name.to_string()).collect(),
        filter,
    }
}

fn row(entity: u64, items: &[&str]) -> RawRow {
    RawRow {
        entity,
        items: items.iter().map(|item| item.to_string()).collect(),
    }
}

fn one(name: &str, value: &str) -> Vec<(String, String)> {
    vec![(name.to_string(), value.to_string())]
}

#[test]
fn a_new_table_has_no_subscription() {
    let api = EcsSubApi::default();
    assert!(api.ids().is_empty());
    assert!(!api.contains("Both"));
    assert_eq!(api.query("Both"), None);
    assert_eq!(api.plan("Both"), None);
}

#[test]
fn subscribe_stores_the_request_with_its_plan() {
    let mut api = EcsSubApi::new();
    let query = request(
        "Both",
        &["Location"],
        vec![ShortNameFilter::Without("Health".to_string())],
    );
    assert_eq!(api.subscribe_components(query.clone(), &registry()), Ok(()));
    assert!(api.contains("Both"));
    assert_eq!(api.ids(), vec!["Both".to_string()]);
    assert_eq!(api.query("Both"), Some(&query));
    assert_eq!(
        api.plan("Both"),
        Some(&QueryPlan {
            fetches: vec![FetchKind::Ref(ComponentId::new(1))],
            filters: vec![FilterKind::Without(ComponentId::new(0))],
        })
    );
}

#[test]
fn subscribe_with_an_unknown_name_changes_nothing() {
    let mut api = EcsSubApi::new();
    let registry = registry();
    api.subscribe_components(request("a", &["Health"], vec![]), &registry)
        .unwrap();
    assert_eq!(
        api.subscribe_components(request("a", &["Speed"], vec![]), &registry),
        Err(QueryError::UnknownType("Speed".to_string()))
    );
    assert_eq!(
        api.subscribe_components(request("b", &["Speed"], vec![]), &registry),
        Err(QueryError::UnknownType("Speed".to_string()))
    );
    assert_eq!(api.ids(), vec!["a".to_string()]);
    assert_eq!(api.query("a"), Some(&request("a", &["Health"], vec![])));
}

#[test]
fn subscribing_again_under_an_id_replaces_the_subscription() {
    let mut api = EcsSubApi::new();
    let registry = registry();
    api.subscribe_components(request("q", &["Health"], vec![]), &registry)
        .unwrap();
    api.subscribe_components(request("q", &["Location"], vec![]), &registry)
        .unwrap();
    assert_eq!(api.ids(), vec!["q".to_string()]);
    assert_eq!(api.query("q"), Some(&request("q", &["Location"], vec![])));

    let executed: Vec<(String, Vec<RawRow>)> = api
        .ids()
        .into_iter()
        .map(|id| (id, vec![row(3, &["{\"city\":\"SLC\"}"])]))
        .collect();
    assert_eq!(
        api.run_all_queries(&executed),
        vec![Ok(QuerySubResp {
            matches: vec![(3, one("Location", "{\"city\":\"SLC\"}"))]
        })]
    );
}

#[test]
fn ids_lists_every_subscription_once() {
    let mut api = EcsSubApi::new();
    let registry = registry();
    for id in ["c", "a", "b", "a", "c"] {
        api.subscribe_components(request(id, &["Health"], vec![]), &registry)
            .unwrap();
    }
    let mut ids = api.ids();
    ids.sort();
    assert_eq!(ids, vec!["a".to_string(), "b".to_string(), "c".to_string()]);
}

#[test]
fn unsubscribe_removes_only_the_subscription_under_the_id() {
    let mut api = EcsSubApi::new();
    let registry = registry();
    api.subscribe_components(request("a", &["Health"], vec![]), &registry)
        .unwrap();
    api.subscribe_components(request("b", &["Location"], vec![]), &registry)
        .unwrap();
    api.unsubscribe("a");
    assert_eq!(api.ids(), vec!["b".to_string()]);
    assert!(!api.contains("a"));
    api.unsubscribe("a");
    api.unsubscribe("never");
    assert_eq!(api.ids(), vec!["b".to_string()]);
    assert_eq!(api.query("b"), Some(&request("b", &["Location"], vec![])));
}

#[test]
fn run_query_answers_by_the_fetch_list_of_the_subscription() {
    let mut api = EcsSubApi::new();
    api.subscribe_components(request("q", &["Location", "Health"], vec![]), &registry())
        .unwrap();
    let rows = vec![row(9, &["{\"city\":\"NYC\"}", "{\"health\":50}"])];
    let response = api.run_query("q", &rows).unwrap();
    assert_eq!(response.matches.len(), 1);
    assert_eq!(response.matches[0].0, 9);
    let mut components = response.matches[0].1.clone();
    components.sort();
    assert_eq!(
        components,
        vec![
            ("Health".to_string(), "{\"health\":50}".to_string()),
            ("Location".to_string(), "{\"city\":\"NYC\"}".to_string()),
        ]
    );
}

#[test]
fn run_query_fails_on_text_that_is_not_json() {
    let mut api = EcsSubApi::new();
    api.subscribe_components(request("q", &["Health"], vec![]), &registry())
        .unwrap();
    assert_eq!(
        api.run_query("q", &vec![row(1, &["{\"health\":1}"]), row(2, &["{health}"])]),
        Err(QueryError::TypeMismatch {
            entity: 2,
            short_name: "Health".to_string()
        })
    );
}

#[test]
fn run_all_queries_answers_in_the_order_of_the_runs() {
    let mut api = EcsSubApi::new();
    let registry = registry();
    api.subscribe_components(request("h", &["Health"], vec![]), &registry)
        .unwrap();
    api.subscribe_components(request("l", &["Location"], vec![]), &registry)
        .unwrap();
    let executed = vec![
        ("l".to_string(), vec![row(0, &["\"Salmon\""])]),
        ("h".to_string(), vec![row(0, &["99"]), row(3, &["40"])]),
    ];
    assert_eq!(
        api.run_all_queries(&executed),
        vec![
            Ok(QuerySubResp {
                matches: vec![(0, one("Location", "\"Salmon\""))]
            }),
            Ok(QuerySubResp {
                matches: vec![(0, one("Health", "99")), (3, one("Health", "40"))]
            }),
        ]
    );
}

#[test]
fn run_all_queries_passes_over_what_is_not_subscribed() {
    let mut api = EcsSubApi::new();
    api.subscribe_components(request("h", &["Health"], vec![]), &registry())
        .unwrap();
    let executed = vec![
        ("gone".to_string(), vec![row(0, &["1"])]),
        ("h".to_string(), vec![]),
    ];
    assert_eq!(
        api.run_all_queries(&executed),
        vec![Ok(QuerySubResp { matches: vec![] })]
    );
    assert_eq!(EcsSubApi::new().run_all_queries(&executed), vec![]);
}

#[test]
fn a_failure_ends_only_its_own_query() {
    let mut api = EcsSubApi::new();
    let registry = registry();
    api.subscribe_components(request("h", &["Health"], vec![]), &registry)
        .unwrap();
    api.subscribe_components(request("l", &["Location"], vec![]), &registry)
        .unwrap();
    let executed = vec![
        ("h".to_string(), vec![row(5, &["not json"])]),
        ("l".to_string(), vec![row(5, &["null"])]),
    ];
    assert_eq!(
        api.run_all_queries(&executed),
        vec![
            Err(QueryError::TypeMismatch {
                entity: 5,
                short_name: "Health".to_string()
            }),
            Ok(QuerySubResp {
                matches: vec![(5, one("Location", "null"))]
            }),
        ]
    );
}
