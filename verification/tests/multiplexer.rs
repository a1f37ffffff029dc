use casterm::ids::IdSource;
use casterm::multiplexer::{Layout, SplitDirection, Window, WindowId};
use casterm::session::{Session, SessionId, SessionManager, SessionState};

fn main_window() -> Window {
    Window::new("main".to_string(), WindowId(1))
}

#[test]
fn first_create_pane_produces_single_layout() {
    let mut window = main_window();
    let id = window.create_pane();
    assert!(matches!(window.layout(), Some(Layout::Single(pane)) if *pane == id));
    assert_eq!(window.active_pane(), Some(id));
    assert_eq!(window.pane_count(), 1);
}

#[test]
fn second_create_pane_splits_existing_layout_instead_of_dropping_it() {
    let mut window = main_window();
    let first = window.create_pane();
    let second = window.create_pane();
    assert_eq!(window.pane_count(), 2);
    match window.layout() {
        Some(Layout::Split { first: f, second: s, .. }) => {
            assert!(matches!(**f, Layout::Single(id) if id == first));
            assert!(matches!(**s, Layout::Single(id) if id == second));
        }
        other => panic!("expected a Split layout, got {other:?}"),
    }
}

#[test]
fn split_pane_creates_split_layout_with_requested_direction() {
    let mut window = main_window();
    let first = window.create_pane();
    let second = window
        .split_pane(first, SplitDirection::Vertical)
        .expect("split against an existing pane succeeds");
    match window.layout() {
        Some(Layout::Split { direction, .. }) => {
            assert_eq!(*direction, SplitDirection::Vertical);
        }
        other => panic!("expected a Split layout, got {other:?}"),
    }
    assert_eq!(window.pane_count(), 2);
    assert!(window.get_pane(second).is_some());
}

#[test]
fn remove_pane_collapses_layout_to_surviving_sibling() {
    let mut window = main_window();
    let first = window.create_pane();
    let second = window.create_pane();
    window.remove_pane(second);
    assert!(matches!(window.layout(), Some(Layout::Single(id)) if *id == first));
    assert_eq!(window.pane_count(), 1);
}

#[test]
fn removing_active_pane_promotes_a_remaining_pane_to_active() {
    let mut window = main_window();
    let first = window.create_pane();
    let second = window.create_pane();
    window.set_active_pane(second);
    window.remove_pane(second);
    assert_eq!(window.active_pane(), Some(first));
}

#[test]
fn removing_last_pane_leaves_an_empty_layout() {
    let mut window = main_window();
    let id = window.create_pane();
    window.remove_pane(id);
    assert!(window.layout().is_none());
    assert_eq!(window.active_pane(), None);
    assert_eq!(window.pane_count(), 0);
}

#[test]
fn split_of_unknown_pane_changes_nothing() {
    let mut window = main_window();
    let first = window.create_pane();
    let before = window.pane_ids();
    assert!(window.split_pane(casterm::multiplexer::PaneId(999), SplitDirection::Horizontal).is_none());
    assert_eq!(window.pane_ids(), before);
    assert!(matches!(window.layout(), Some(Layout::Single(id)) if *id == first));
}

#[test]
fn remove_after_split_restores_layout() {
    let mut window = main_window();
    let a = window.create_pane();
    let b = window.create_pane();
    let c = window.split_pane(b, SplitDirection::Vertical).unwrap();
    window.remove_pane(c);
    match window.layout() {
        Some(Layout::Split { first, second, direction, ratio_percent }) => {
            assert_eq!(*direction, SplitDirection::Horizontal);
            assert_eq!(*ratio_percent, 50);
            assert!(matches!(**first, Layout::Single(id) if id == a));
            assert!(matches!(**second, Layout::Single(id) if id == b));
        }
        other => panic!("unexpected layout {other:?}"),
    }
    assert_eq!(window.pane_ids(), vec![a, b]);
}

#[test]
fn pane_titles_and_ids_are_kept() {
    let mut window = main_window();
    let a = window.create_pane();
    window.get_pane_mut(a).unwrap().set_title("shell".to_string());
    assert_eq!(window.get_pane(a).unwrap().title(), "shell");
    assert_eq!(window.get_pane(a).unwrap().id(), a);
    window.set_name("renamed".to_string());
    assert_eq!(window.name(), "renamed");
    assert_eq!(window.id(), WindowId(1));
}

#[test]
fn session_manager_tracks_active_session() {
    let mut ids = IdSource::new();
    let mut manager = SessionManager::new();
    let s1 = Session::with_window("one".to_string(), main_window(), SessionId::next(&mut ids));
    let s2 = Session::with_window("two".to_string(), main_window(), SessionId::next(&mut ids));
    let id1 = manager.insert(s1);
    let id2 = manager.insert(s2);
    assert_eq!(id1, SessionId(1));
    assert_eq!(manager.active().unwrap().id(), id1);
    manager.active_mut().unwrap().set_state(SessionState::Detached);
    assert_eq!(manager.active().unwrap().state(), SessionState::Detached);
    let removed = manager.remove(id1).unwrap();
    assert_eq!(removed.name(), "one");
    assert_eq!(manager.active().unwrap().id(), id2);
    manager.remove(id2);
    assert!(manager.active().is_none());
}
