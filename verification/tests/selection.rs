use casterm::selection::{in_selection, selection_text, Selection};
use casterm::terminal::{Terminal, TerminalSize};

#[test]
fn selection_range_single_row() {
    let sel = Selection { start: (2, 3), end: (2, 6) };
    assert!(!in_selection(sel, 2, 2));
    assert!(in_selection(sel, 2, 3));
    assert!(in_selection(sel, 2, 6));
    assert!(!in_selection(sel, 2, 7));
    assert!(!in_selection(sel, 3, 4));
}

#[test]
fn selection_range_multi_row_normalizes_reversed_order() {
    let sel = Selection { start: (5, 2), end: (3, 8) };
    assert!(in_selection(sel, 3, 8));
    assert!(in_selection(sel, 4, 0));
    assert!(in_selection(sel, 5, 2));
    assert!(!in_selection(sel, 5, 3));
    assert!(!in_selection(sel, 3, 7));
}

#[test]
fn selection_text_copies_rows_without_trailing_blanks() {
    let mut term = Terminal::new(TerminalSize { cols: 6, rows: 3 });
    term.write_str("ab  cd");
    term.set_cursor(1, 0);
    term.write_str("xy");
    let sel = Selection { start: (1, 1), end: (0, 2) };
    assert_eq!(selection_text(&term, sel), "  cd\nxy");
    let one = Selection { start: (0, 0), end: (0, 1) };
    assert_eq!(selection_text(&term, one), "ab");
}
