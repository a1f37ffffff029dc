use casterm::error::CastermError;
use casterm::pane::{check_pane_size, pane_shell, pty_environment};
use casterm::terminal::{Cell, Grid, Terminal, TerminalSize};
use casterm::vte_processor::osc_dispatch;
use casterm::theme::{parse_hex_color, ThemePalette};

#[test]
fn alternate_screen_round_trip_restores_primary_screen() {
    let mut t = Terminal::new(TerminalSize { cols: 4, rows: 2 });
    t.write_char('p');
    t.enter_alt_screen();
    assert_eq!(t.grid().get(0, 0).unwrap().char, '\0');
    t.write_char('a');
    t.enter_alt_screen();
    t.leave_alt_screen();
    assert_eq!(t.grid().get(0, 0).unwrap().char, 'p');
}

#[test]
fn writing_text_in_pieces_equals_writing_it_whole() {
    let mut a = Terminal::new(TerminalSize { cols: 5, rows: 3 });
    a.write_str("hello\nwor");
    a.write_str("ld!");
    let mut b = Terminal::new(TerminalSize { cols: 5, rows: 3 });
    b.write_str("hello\nworld!");
    for r in 0..3 {
        for c in 0..5 {
            assert_eq!(a.grid().get(r, c).unwrap().char, b.grid().get(r, c).unwrap().char);
        }
    }
    assert_eq!(a.cursor(), b.cursor());
}

#[test]
fn pane_size_zero_is_rejected() {
    assert_eq!(
        check_pane_size(TerminalSize { cols: 0, rows: 24 }),
        Err(CastermError::Terminal("terminal size must be non-zero".to_string()))
    );
    assert!(check_pane_size(TerminalSize { cols: 80, rows: 0 }).is_err());
    assert!(check_pane_size(TerminalSize { cols: 80, rows: 24 }).is_ok());
}

#[test]
fn pane_shell_and_environment() {
    assert_eq!(pane_shell(None, None, false), "/bin/sh");
    assert_eq!(pane_shell(None, Some("/bin/bash".to_string()), true), "/bin/bash");
    let env = pty_environment(None);
    assert_eq!(env, vec![("TERM".to_string(), "xterm-256color".to_string()), ("COLORTERM".to_string(), "truecolor".to_string())]);
    let env2 = pty_environment(Some("/cache/terminfo".to_string()));
    assert_eq!(env2[1], ("TERMINFO".to_string(), "/cache/terminfo".to_string()));
}

#[test]
fn hex_colors_parse_and_palette_falls_back() {
    assert_eq!(parse_hex_color("#282a36"), Some((0x28, 0x2a, 0x36)));
    assert_eq!(parse_hex_color("  f8f8f2 "), Some((0xf8, 0xf8, 0xf2)));
    assert_eq!(parse_hex_color("#12345"), None);
    assert_eq!(parse_hex_color("#zz0000"), None);
    let mut theme = ThemePalette::default();
    theme.red = "nonsense".to_string();
    assert_eq!(theme.ansi_color(1), (128, 128, 128));
    assert_eq!(theme.bg_rgb(), (0x28, 0x2a, 0x36));
}

#[test]
fn error_messages_carry_their_kind() {
    assert_eq!(CastermError::Serial("x".to_string()).message(), "Serial port error: x");
    assert_eq!(CastermError::NoDisplay.message(), "No display available");
}

#[test]
fn malformed_hex_colors_give_none() {
    assert_eq!(parse_hex_color("#ff8000"), Some((255, 128, 0)));
    assert_eq!(parse_hex_color(" ff8000 "), Some((255, 128, 0)));
    assert_eq!(parse_hex_color("#fff"), None);
    assert_eq!(parse_hex_color("#gg0000"), None);
    assert_eq!(parse_hex_color("+f+f+f"), None);
    assert_eq!(parse_hex_color("aébcd"), None);
    assert_eq!(parse_hex_color("#ééé"), None);
    let mut theme = ThemePalette::default();
    theme.blue = "aébcd".to_string();
    assert_eq!(theme.ansi_color(4), (128, 128, 128));
}

#[test]
fn cursor_stays_on_screen_whatever_is_written() {
    let size = TerminalSize { cols: 3, rows: 2 };
    let mut t = Terminal::new(size);
    t.write_str("abcdefgh\tij\n\n\r\x08kl\t\t");
    let c = t.cursor();
    assert!(c.row < size.rows && c.col < size.cols);
    t.set_cursor(40, 40);
    assert_eq!((t.cursor().row, t.cursor().col), (1, 2));
    t.write_char('z');
    let c = t.cursor();
    assert!(c.row < size.rows && c.col < size.cols);
    t.enter_alt_screen();
    t.clear();
    assert_eq!((t.cursor().row, t.cursor().col), (0, 0));
}

#[test]
fn leaving_the_alternate_screen_restores_it_cell_for_cell() {
    let mut t = Terminal::new(TerminalSize { cols: 4, rows: 2 });
    t.write_str("ab\ncd");
    t.leave_alt_screen();
    assert_eq!(t.grid().get(1, 1).unwrap().char, 'd');
    t.enter_alt_screen();
    t.write_str("wxyz12");
    t.set_cursor(0, 0);
    t.clear();
    t.write_str("q");
    t.leave_alt_screen();
    let expected = ['a', 'b', '\0', '\0', 'c', 'd', '\0', '\0'];
    for r in 0..2u16 {
        for c in 0..4u16 {
            assert_eq!(t.grid().get(r, c).unwrap().char, expected[(r * 4 + c) as usize]);
        }
    }
}

#[test]
fn title_comes_from_the_last_osc_title() {
    let mut t = Terminal::new(TerminalSize { cols: 10, rows: 2 });
    assert_eq!(t.title(), "");
    osc_dispatch(&mut t, &vec![b"0".to_vec(), b"hello".to_vec()]);
    assert_eq!(t.title(), "hello");
    osc_dispatch(&mut t, &vec![b"2".to_vec(), b"second".to_vec()]);
    assert_eq!(t.title(), "second");
    osc_dispatch(&mut t, &vec![b"7".to_vec(), b"file:///tmp".to_vec()]);
    assert_eq!(t.title(), "second");
    t.set_title("set".to_string());
    assert_eq!(t.title(), "set");
}

#[test]
fn resizing_to_the_same_width_keeps_rows() {
    let mut g = Grid::new(TerminalSize { cols: 3, rows: 2 });
    for (i, ch) in "abcdef".chars().enumerate() {
        g.set((i / 3) as u16, (i % 3) as u16, Cell::new(ch));
    }
    g.resize(TerminalSize { cols: 3, rows: 4 });
    assert_eq!(g.get(0, 2).unwrap().char, 'c');
    assert_eq!(g.get(1, 0).unwrap().char, 'd');
    assert_eq!(g.get(3, 2).unwrap().char, '\0');
    assert!(g.get(4, 0).is_none());
    g.resize(TerminalSize { cols: 3, rows: 1 });
    assert_eq!(g.get(0, 1).unwrap().char, 'b');
    assert!(g.get(1, 0).is_none());
}
