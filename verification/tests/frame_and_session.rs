use casterm::config::StatusBarPosition;
use casterm::controller::status_pane_index;
use casterm::file_browser::{DirListing, FileBrowserState};
use casterm::multiplexer::PaneId;
use casterm::screen::{frame_areas, FrameAreas, PanelSide, Rect};
use casterm::session::{after_pane_closed, shutdown_plan, SaveAction, SessionState};
use casterm::state::{SessionState as SavedSession, StateManager};

fn rect(x: u16, y: u16, width: u16, height: u16) -> Rect {
    Rect { x, y, width, height }
}

#[test]
fn frame_is_divided_between_status_bar_panel_and_panes() {
    let full = rect(0, 0, 100, 30);
    assert_eq!(
        frame_areas(full, Some(StatusBarPosition::Bottom), None),
        FrameAreas { terminal: rect(0, 0, 100, 29), status: Some(rect(0, 29, 100, 1)), panel: None }
    );
    assert_eq!(
        frame_areas(full, Some(StatusBarPosition::Top), Some((30, PanelSide::Left))),
        FrameAreas { terminal: rect(30, 1, 70, 29), status: Some(rect(0, 0, 100, 1)), panel: Some(rect(0, 1, 30, 29)) }
    );
    assert_eq!(
        frame_areas(full, None, Some((30, PanelSide::Right))),
        FrameAreas { terminal: rect(0, 0, 70, 30), status: None, panel: Some(rect(70, 0, 30, 30)) }
    );
    // The panel always leaves the panes at least one column.
    assert_eq!(
        frame_areas(rect(0, 0, 10, 5), None, Some((40, PanelSide::Left))),
        FrameAreas { terminal: rect(9, 0, 1, 5), status: None, panel: Some(rect(0, 0, 9, 5)) }
    );
    assert_eq!(
        frame_areas(rect(0, 0, 1, 5), None, Some((40, PanelSide::Left))),
        FrameAreas { terminal: rect(0, 0, 1, 5), status: None, panel: None }
    );
}

#[test]
fn browser_scrolls_the_selection_into_view() {
    let dir = "/s";
    let children: Vec<(String, bool)> = (0..10).map(|i| (format!("/s/f{i}"), false)).collect();
    let ls = vec![DirListing { dir: dir.to_string(), children }];
    let mut b = FileBrowserState::new(dir.to_string(), false, &ls);
    b.move_selection(7);
    b.scroll_into_view(3);
    assert_eq!(b.scroll_offset(), 5);
    b.move_selection(-6);
    b.scroll_into_view(3);
    assert_eq!(b.scroll_offset(), 1);
    b.scroll_into_view(0);
    assert_eq!(b.scroll_offset(), 1);
}

fn saved(name: &str, attached: i64) -> SavedSession {
    SavedSession { name: name.to_string(), created_at: 0, last_attached: attached, windows: vec![] }
}

#[test]
fn restore_prefers_the_named_session_then_the_latest() {
    let mut m = StateManager::with_dir("/state".to_string());
    assert!(m.session_to_restore("main").is_none());
    m.insert_loaded(saved("old", 10));
    m.insert_loaded(saved("new", 30));
    m.insert_loaded(saved("mid", 20));
    assert_eq!(m.session_to_restore("old").unwrap().name, "old");
    assert_eq!(m.session_to_restore("main").unwrap().name, "new");
}

#[test]
fn status_bar_numbers_panes_in_identifier_order() {
    let ids = vec![PaneId(7), PaneId(2), PaneId(5)];
    assert_eq!(status_pane_index(&ids, Some(PaneId(7))), 2);
    assert_eq!(status_pane_index(&ids, Some(PaneId(2))), 0);
    assert_eq!(status_pane_index(&ids, Some(PaneId(5))), 1);
    assert_eq!(status_pane_index(&ids, Some(PaneId(9))), 0);
    assert_eq!(status_pane_index(&ids, None), 0);
}

#[test]
fn shutdown_and_last_pane_decisions() {
    assert_eq!(shutdown_plan(SessionState::Active, true), (SessionState::Detached, SaveAction::Persist));
    assert_eq!(shutdown_plan(SessionState::Active, false), (SessionState::Detached, SaveAction::Nothing));
    assert_eq!(shutdown_plan(SessionState::Dead, true), (SessionState::Dead, SaveAction::RemoveSaved));
    assert_eq!(after_pane_closed(0, SessionState::Active), (true, SessionState::Dead));
    assert_eq!(after_pane_closed(2, SessionState::Active), (false, SessionState::Active));
}
