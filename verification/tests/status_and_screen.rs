use casterm::multiplexer::{SplitDirection, Window, WindowId};
use casterm::screen::{layout_rects, pane_inner_size, split_rect, Rect};
use casterm::status::{branch_from_head, clock_hhmm, clock_hhmmss, truncate, StatusInfo};

fn info() -> StatusInfo {
    StatusInfo {
        session_name: "work".to_string(),
        window_index: 0,
        pane_index: 2,
        hostname: "box".to_string(),
        pane_title: "vim".to_string(),
        git_branch: Some(" main".to_string()),
    }
}

#[test]
fn status_segments_grow_with_width() {
    let i = info();
    assert_eq!(i.segments(40, "12:34", "12:34:56"), (String::new(), String::new()));
    assert_eq!(i.segments(62, "12:34", "12:34:56"), ("work".to_string(), String::new()));
    assert_eq!(i.segments(100, "12:34", "12:34:56"), ("work:0".to_string(), "12:34".to_string()));
    assert_eq!(i.segments(130, "12:34", "12:34:56"), ("work  0:2".to_string(), "12:34".to_string()));
    assert_eq!(i.segments(170, "12:34", "12:34:56"), ("work  0:2  vim".to_string(), "12:34:56".to_string()));
    assert_eq!(
        i.segments(210, "12:34", "12:34:56"),
        ("work  0:2  vim".to_string(), "box  12:34:56".to_string())
    );
    assert_eq!(
        i.segments(250, "12:34", "12:34:56"),
        ("work  0:2  vim    main".to_string(), "box  12:34:56".to_string())
    );
    let long = StatusInfo { session_name: "abcdefghijklmnopqrstuvwxyzabcdefghijklmnopqrstuvwxyzabcdefghij".to_string(), ..info() };
    assert_eq!(long.segments(65, "", "").0.chars().count(), 55);
}

#[test]
fn clock_formats_time_of_day() {
    assert_eq!(clock_hhmm(0), "00:00");
    assert_eq!(clock_hhmm(86400 + 3 * 3600 + 7 * 60 + 9), "03:07");
    assert_eq!(clock_hhmmss(23 * 3600 + 59 * 60 + 59), "23:59:59");
}

#[test]
fn truncate_counts_characters() {
    assert_eq!(truncate("héllo", 2), "hé");
    assert_eq!(truncate("hi", 10), "hi");
}

#[test]
fn git_head_gives_branch_or_short_hash() {
    assert_eq!(branch_from_head("ref: refs/heads/main\n"), Some(" main".to_string()));
    assert_eq!(branch_from_head("0123456789abcdef\n"), Some(" 0123456".to_string()));
    assert_eq!(branch_from_head("abc"), None);
}

#[test]
fn split_rect_halves_with_rounding() {
    let area = Rect { x: 0, y: 0, width: 5, height: 4 };
    let (a, b) = split_rect(area, SplitDirection::Horizontal, 50);
    assert_eq!(a, Rect { x: 0, y: 0, width: 3, height: 4 });
    assert_eq!(b, Rect { x: 3, y: 0, width: 2, height: 4 });
    let (c, d) = split_rect(area, SplitDirection::Vertical, 50);
    assert_eq!(c, Rect { x: 0, y: 0, width: 5, height: 2 });
    assert_eq!(d, Rect { x: 0, y: 2, width: 5, height: 2 });
}

#[test]
fn layout_rects_cover_every_pane_in_order() {
    let mut w = Window::new("w".to_string(), WindowId(1));
    let a = w.create_pane();
    let b = w.split_pane(a, SplitDirection::Horizontal).unwrap();
    let c = w.split_pane(b, SplitDirection::Vertical).unwrap();
    let rects = layout_rects(w.layout(), Rect { x: 0, y: 0, width: 80, height: 24 });
    assert_eq!(rects.len(), 3);
    assert_eq!(rects[0], (a, Rect { x: 0, y: 0, width: 40, height: 24 }));
    assert_eq!(rects[1], (b, Rect { x: 40, y: 0, width: 40, height: 12 }));
    assert_eq!(rects[2], (c, Rect { x: 40, y: 12, width: 40, height: 12 }));
    assert!(layout_rects(None, Rect { x: 0, y: 0, width: 1, height: 1 }).is_empty());
}

#[test]
fn pane_inner_size_leaves_room_for_borders() {
    let r = Rect { x: 0, y: 0, width: 10, height: 1 };
    let s = pane_inner_size(r, 2);
    assert_eq!((s.cols, s.rows), (8, 0));
    let t = pane_inner_size(r, 1);
    assert_eq!((t.cols, t.rows), (10, 1));
}
