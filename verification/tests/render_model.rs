use casterm::render_model::{resolve_color, resolve_grid, xterm_256_rgb, Rgb};
use casterm::terminal::{CellAttrs, TermColor, Terminal, TerminalSize};
use casterm::theme::ThemePalette;

#[test]
fn resolve_color_default_uses_theme_defaults() {
    let theme = ThemePalette::default();
    let default_fg = Rgb(1, 2, 3);
    let default_bg = Rgb(4, 5, 6);
    assert_eq!(
        resolve_color(TermColor::Default, true, &theme, default_fg, default_bg),
        default_fg
    );
    assert_eq!(
        resolve_color(TermColor::Default, false, &theme, default_fg, default_bg),
        default_bg
    );
}

#[test]
fn resolve_color_rgb_passthrough() {
    let theme = ThemePalette::default();
    let default_fg = Rgb(0, 0, 0);
    let default_bg = Rgb(0, 0, 0);
    assert_eq!(
        resolve_color(TermColor::Rgb(10, 20, 30), true, &theme, default_fg, default_bg),
        Rgb(10, 20, 30)
    );
}

#[test]
fn xterm_256_grayscale_ramp() {
    assert_eq!(xterm_256_rgb(232), (8, 8, 8));
    assert_eq!(xterm_256_rgb(255), (238, 238, 238));
}

#[test]
fn resolve_grid_marks_visible_cursor() {
    let mut term = Terminal::new(TerminalSize { cols: 4, rows: 2 });
    term.write_char('a');
    term.write_char('b');
    term.set_cursor(0, 1);
    let theme = ThemePalette::default();
    let cells = resolve_grid(&term, &theme);
    let idx = 1;
    assert_eq!(cells[idx].fg, cells[0].bg);
    assert_eq!(cells[idx].bg, cells[0].fg);
}

#[test]
fn resolve_grid_null_char_renders_as_space() {
    let term = Terminal::new(TerminalSize { cols: 2, rows: 1 });
    let theme = ThemePalette::default();
    let cells = resolve_grid(&term, &theme);
    assert_eq!(cells[0].ch, ' ');
}

#[test]
fn resolve_grid_reverse_video_swaps_colors() {
    let mut term = Terminal::new(TerminalSize { cols: 1, rows: 1 });
    let attrs = CellAttrs { reverse: true, ..Default::default() };
    term.set_attrs(attrs);
    term.write_char('x');
    let theme = ThemePalette::default();
    let cells = resolve_grid(&term, &theme);
    let (dfr, dfg, dfb) = theme.fg_rgb();
    let (dbr, dbg, dbb) = theme.bg_rgb();
    assert_eq!(cells[0].fg, Rgb(dbr, dbg, dbb));
    assert_eq!(cells[0].bg, Rgb(dfr, dfg, dfb));
}

#[test]
fn xterm_256_cube_corner_values() {
    assert_eq!(xterm_256_rgb(16), (0, 0, 0));
    assert_eq!(xterm_256_rgb(231), (255, 255, 255));
    assert_eq!(xterm_256_rgb(196), (255, 0, 0));
}

#[test]
fn resolve_color_indexed_uses_palette() {
    let theme = ThemePalette::default();
    let expected = theme.ansi_color(1);
    assert_eq!(
        resolve_color(TermColor::Indexed(1), true, &theme, Rgb(0, 0, 0), Rgb(0, 0, 0)),
        Rgb(expected.0, expected.1, expected.2)
    );
}
