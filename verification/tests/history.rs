use file_explorer::history::NavigationHistory;
use file_explorer::path::FsPath;

fn path(text: &str) -> FsPath {
    FsPath::new(
        "/".to_string(),
        text.split('/').filter(|s| !s.is_empty()).map(|s| s.to_string()).collect(),
    )
}

#[test]
fn new_history_is_empty_and_cannot_move() {
    let mut h = NavigationHistory::new();
    assert_eq!(h.len(), 0);
    assert_eq!(h.position(), 0);
    assert!(!h.can_go_back());
    assert!(!h.can_go_forward());
    assert_eq!(h.current(), None);
    assert_eq!(h.back(), None);
    assert_eq!(h.forward(), None);
    assert_eq!(h.len(), 0);
    assert_eq!(h.position(), 0);
}

#[test]
fn push_appends_and_moves_the_cursor() {
    let mut h = NavigationHistory::new();
    h.push(path("/a"));
    assert_eq!(h.len(), 1);
    assert_eq!(h.position(), 0);
    h.push(path("/b"));
    assert_eq!(h.len(), 2);
    assert_eq!(h.position(), 1);
    assert_eq!(h.current(), Some(&path("/b")));
    assert_eq!(h.entry(0), Some(&path("/a")));
    assert_eq!(h.entry(1), Some(&path("/b")));
    assert_eq!(h.entry(2), None);
}

#[test]
fn back_then_forward_returns_to_the_same_path() {
    let mut h = NavigationHistory::new();
    h.push(path("/a"));
    h.push(path("/a/b"));
    h.push(path("/a/b/c"));
    assert_eq!(h.position(), 2);
    let back = h.back();
    assert_eq!(back, Some(path("/a/b")));
    assert_eq!(h.position(), 1);
    let forward = h.forward();
    assert_eq!(forward, Some(path("/a/b/c")));
    assert_eq!(h.position(), 2);
    assert_eq!(h.len(), 3);
}

#[test]
fn back_at_the_oldest_path_returns_nothing() {
    let mut h = NavigationHistory::new();
    h.push(path("/a"));
    assert!(!h.can_go_back());
    assert_eq!(h.back(), None);
    assert_eq!(h.position(), 0);
    assert_eq!(h.current(), Some(&path("/a")));
}

#[test]
fn forward_at_the_newest_path_returns_nothing() {
    let mut h = NavigationHistory::new();
    h.push(path("/a"));
    h.push(path("/b"));
    assert!(!h.can_go_forward());
    assert_eq!(h.forward(), None);
    assert_eq!(h.position(), 1);
}

#[test]
fn pushing_the_current_path_changes_nothing() {
    let mut h = NavigationHistory::new();
    h.push(path("/a"));
    h.push(path("/b"));
    h.push(path("/b"));
    assert_eq!(h.len(), 2);
    assert_eq!(h.position(), 1);
    h.back();
    h.push(path("/a"));
    assert_eq!(h.len(), 2);
    assert_eq!(h.position(), 0);
    assert!(h.can_go_forward());
}

#[test]
fn pushing_after_a_step_back_drops_what_lay_ahead() {
    let mut h = NavigationHistory::new();
    h.push(path("/a"));
    h.push(path("/b"));
    h.push(path("/c"));
    h.back();
    h.back();
    assert_eq!(h.position(), 0);
    h.push(path("/d"));
    assert_eq!(h.len(), 2);
    assert_eq!(h.position(), 1);
    assert_eq!(h.entry(0), Some(&path("/a")));
    assert_eq!(h.entry(1), Some(&path("/d")));
    assert!(!h.can_go_forward());
    assert!(h.can_go_back());
}

#[test]
fn pushing_an_earlier_path_again_appends_it() {
    let mut h = NavigationHistory::new();
    h.push(path("/a"));
    h.push(path("/b"));
    h.push(path("/a"));
    assert_eq!(h.len(), 3);
    assert_eq!(h.position(), 2);
}
