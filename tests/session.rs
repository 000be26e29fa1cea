use vscode_search::session::{items_from_uris, ActivationError, Item, SearchSession, SourceError};

fn strings(v: &[&str]) -> Vec<String> {
    v.iter().map(|s| s.to_string()).collect()
}

fn item(id: &str, target: &str) -> Item {
    Item { id: id.to_string(), name: id.to_string(), target: target.to_string() }
}

fn universe() -> Vec<Item> {
    vec![
        item("a", "file:///home/user/dev/mdcat"),
        item("b", "file:///home/user/dev/gnome-shell"),
    ]
}

fn loaded() -> SearchSession {
    let mut s = SearchSession::new();
    s.initial_search(Some(Ok(universe())), &strings(&["anything"])).unwrap();
    s
}

#[test]
fn initial_search_finds_matching_id() {
    let mut s = SearchSession::new();
    assert!(s.needs_source());
    let r = s.initial_search(Some(Ok(universe())), &strings(&["mdcat"])).unwrap();
    assert_eq!(r, strings(&["a"]));
    assert!(!s.needs_source());
}

#[test]
fn initial_search_orders_by_score() {
    let mut s = SearchSession::new();
    let r = s.initial_search(Some(Ok(universe())), &strings(&["dev"])).unwrap();
    assert_eq!(r, strings(&["a", "b"]));
}

#[test]
fn initial_search_reuses_loaded_universe() {
    let mut s = loaded();
    let r = s.initial_search(None, &strings(&["gnome"])).unwrap();
    assert_eq!(r, strings(&["b"]));
}

#[test]
fn subsearch_narrows_previous_result() {
    let s = loaded();
    assert_eq!(s.subsearch(&strings(&["a", "b"]), &strings(&["mdcat"])), strings(&["a"]));
    assert_eq!(s.subsearch(&strings(&["b"]), &strings(&["mdcat"])), Vec::<String>::new());
}

#[test]
fn subsearch_skips_unknown_ids() {
    let s = loaded();
    let previous = strings(&["zzz", "b", "a"]);
    let r = s.subsearch(&previous, &strings(&["dev"]));
    assert_eq!(r, strings(&["a", "b"]));
    assert!(r.iter().all(|id| previous.contains(id)));
    assert!(SearchSession::new().subsearch(&previous, &strings(&["dev"])).is_empty());
}

#[test]
fn activate_unknown_id_fails() {
    let s = loaded();
    match s.activate(&"missing-id".to_string(), &Vec::new(), 0) {
        Err(ActivationError::NotFound(id)) => assert_eq!(id, "missing-id"),
        other => panic!("unexpected {other:?}"),
    }
    assert!(matches!(
        SearchSession::new().activate(&"a".to_string(), &Vec::new(), 0),
        Err(ActivationError::NotFound(_))
    ));
}

#[test]
fn activate_known_id_launches_its_target() {
    let s = loaded();
    let launch = s.activate(&"b".to_string(), &Vec::new(), 0).unwrap();
    assert_eq!(launch.target.as_deref(), Some("file:///home/user/dev/gnome-shell"));
    assert_eq!(s.launch_default(&Vec::new(), 0).target, None);
}

#[test]
fn invalidating_twice_is_invalidating_once() {
    let mut once = loaded();
    once.invalidate();
    let mut twice = loaded();
    twice.invalidate();
    twice.invalidate();
    assert!(once.needs_source());
    assert!(twice.needs_source());
    let terms = strings(&["dev"]);
    let r1 = once.initial_search(Some(Ok(universe())), &terms).unwrap();
    let r2 = twice.initial_search(Some(Ok(universe())), &terms).unwrap();
    assert_eq!(r1, r2);
    assert_eq!(once.subsearch(&r1, &terms), twice.subsearch(&r2, &terms));
}

#[test]
fn source_error_leaves_universe_alone() {
    let mut s = loaded();
    let r = s.initial_search(Some(Err(SourceError::Io("disk".to_string()))), &strings(&["dev"]));
    assert!(matches!(r, Err(SourceError::Io(m)) if m == "disk"));
    assert_eq!(s.initial_search(None, &strings(&["dev"])).unwrap(), strings(&["a", "b"]));

    let mut empty = SearchSession::new();
    let r = empty.initial_search(Some(Err(SourceError::NotFound("db".to_string()))), &strings(&["dev"]));
    assert!(matches!(r, Err(SourceError::NotFound(_))));
    assert!(empty.needs_source());
}

#[test]
fn later_item_of_same_id_replaces_earlier_in_place() {
    let mut s = SearchSession::new();
    let items = vec![
        item("a", "file:///one/mdcat"),
        item("b", "file:///two/mdcat"),
        item("a", "file:///three/other"),
    ];
    let r = s.initial_search(Some(Ok(items)), &strings(&["mdcat"])).unwrap();
    assert_eq!(r, strings(&["b"]));
    let r = s.initial_search(None, &strings(&["o"])).unwrap();
    // "file:///three/other" scores 15/19, "file:///two/mdcat" 11/17
    assert_eq!(r, strings(&["a", "b"]));
}

#[test]
fn result_metadata_for_known_ids() {
    let mut s = SearchSession::new();
    let items = items_from_uris(strings(&["file:///home/user/my%20dev", "vscode-remote://h/x/y"]));
    assert_eq!(items[0].name, "my dev");
    assert_eq!(items[0].id, "file:///home/user/my%20dev");
    s.initial_search(Some(Ok(items)), &strings(&["x"])).unwrap();
    let metas = s.get_result_metadata(
        &strings(&["vscode-remote://h/x/y", "unknown", "file:///home/user/my%20dev"]),
        &Some("code".to_string()),
    );
    assert_eq!(metas.len(), 2);
    assert_eq!(metas[0].id, "vscode-remote://h/x/y");
    assert_eq!(metas[0].name, "y");
    assert_eq!(metas[0].description, "vscode-remote://h/x/y");
    assert_eq!(metas[0].icon.as_deref(), Some("code"));
    assert_eq!(metas[1].name, "my dev");
    assert_eq!(metas[1].description, "/home/user/my dev");
}
