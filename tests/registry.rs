use session_switch::roster::SessionRegistry;

fn names(list: &[&str]) -> Vec<String> {
    list.iter().map(|s| s.to_string()).collect()
}

fn roster_of(list: &[&str]) -> SessionRegistry {
    let mut r = SessionRegistry::new();
    r.reconcile(&names(list));
    r
}

#[test]
fn new_registry_is_empty() {
    let r = SessionRegistry::new();
    assert_eq!(r.len(), 0);
    assert_eq!(r.resolve_index(0), None);
}

#[test]
fn reconcile_twice_changes_nothing() {
    let mut r = roster_of(&["a", "b"]);
    r.reconcile(&names(&["c", "b", "d"]));
    let first = r.names();
    r.reconcile(&names(&["c", "b", "d"]));
    assert_eq!(r.names(), first);
    assert_eq!(first, names(&["b", "c", "d"]));
}

#[test]
fn kept_names_keep_their_order() {
    let mut r = roster_of(&["x", "y", "z"]);
    r.reconcile(&names(&["z", "y", "x", "w"]));
    assert_eq!(r.names(), names(&["x", "y", "z", "w"]));
    r.reconcile(&names(&["w", "z", "x"]));
    assert_eq!(r.names(), names(&["x", "z", "w"]));
}

#[test]
fn new_names_follow_in_report_order() {
    let mut r = roster_of(&["m"]);
    r.reconcile(&names(&["q", "m", "p"]));
    assert_eq!(r.names(), names(&["m", "q", "p"]));
}

#[test]
fn missing_name_leaves_and_returns_at_end() {
    let mut r = roster_of(&["a", "b", "c"]);
    r.reconcile(&names(&["b", "c"]));
    assert_eq!(r.names(), names(&["b", "c"]));
    r.reconcile(&names(&["a", "b", "c"]));
    assert_eq!(r.names(), names(&["b", "c", "a"]));
}

#[test]
fn empty_report_empties_roster() {
    let mut r = roster_of(&["a", "b"]);
    r.reconcile(&Vec::new());
    assert_eq!(r.len(), 0);
}

#[test]
fn repeated_name_in_report_is_kept_once() {
    let r = roster_of(&["a", "b", "a"]);
    assert_eq!(r.names(), names(&["a", "b"]));
}

#[test]
fn resolve_index_within_and_past_the_end() {
    let r = roster_of(&["a", "b", "c"]);
    assert_eq!(r.resolve_index(0), Some("a".to_string()));
    assert_eq!(r.resolve_index(1), Some("b".to_string()));
    assert_eq!(r.resolve_index(2), Some("c".to_string()));
    assert_eq!(r.resolve_index(3), None);
    assert_eq!(r.resolve_index(usize::MAX), None);
}
