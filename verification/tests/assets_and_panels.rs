use std::cell::RefCell;

use casterm::assets::{list_themes, load_theme, Assets};
use casterm::config::KeyBindingsConfig;
use casterm::editor::{EditorState, FileRead};
use casterm::error::CastermError;
use casterm::file_browser::{DirListing, FileBrowserState};
use casterm::image_state::ImageState;
use casterm::keybindings::KeymapResolver;
use casterm::keys::{KeyCode, KeyModifiers};
use casterm::panels::{
    status_bar_cells, status_mode, BarStyle, EditorPanel, FileBrowserPanel, PanelRow, RowStyle, StatusMode,
};
use casterm::platform::MacOs;
use casterm::terminfo::{install, install_into};
use casterm::theme::ThemePalette;

fn bundle() -> Assets {
    Assets::new(vec![
        ("themes/dracula.toml".to_string(), b"background = \"#282a36\"\n".to_vec()),
        ("icons/app.png".to_string(), vec![0x89, b'P', b'N', b'G']),
        ("themes/nord.toml".to_string(), b"background = \"#2e3440\"\n".to_vec()),
        ("themes/README".to_string(), b"notes".to_vec()),
        ("themes/broken.toml".to_string(), vec![0xff, 0xfe]),
    ])
}

#[test]
fn assets_are_looked_up_by_path() {
    let a = bundle();
    assert_eq!(a.get_bytes("icons/app.png"), Some(vec![0x89, b'P', b'N', b'G']));
    assert_eq!(a.get_bytes("icons/missing.png"), None);
    assert_eq!(a.get_string("themes/dracula.toml"), Some("background = \"#282a36\"\n".to_string()));
    assert_eq!(a.get_string("themes/broken.toml"), None);
    assert_eq!(
        a.list_prefix("themes/"),
        vec![
            "themes/dracula.toml".to_string(),
            "themes/nord.toml".to_string(),
            "themes/README".to_string(),
            "themes/broken.toml".to_string(),
        ]
    );
}

#[test]
fn theme_names_come_from_toml_files_under_themes() {
    assert_eq!(
        list_themes(&bundle()),
        vec!["dracula".to_string(), "nord".to_string(), "broken".to_string()]
    );
    assert!(list_themes(&Assets::new(vec![])).is_empty());
}

#[test]
fn load_theme_reports_valid_names_in_error_for_unknown_theme() {
    let err = load_theme("not-a-real-theme", &Assets::new(vec![]), |_t: &str| Ok(ThemePalette::default()))
        .unwrap_err();
    assert!(err.message().contains("dracula"));
    assert!(err.message().starts_with("Theme error: Theme 'not-a-real-theme' not found (valid themes: "));
}

#[test]
fn load_theme_hands_the_file_to_the_parser() {
    let a = bundle();
    let seen = RefCell::new(String::new());
    let pal = load_theme("nord", &a, |t: &str| {
        *seen.borrow_mut() = t.to_string();
        Ok(ThemePalette::default())
    });
    assert!(pal.is_ok());
    assert_eq!(*seen.borrow(), "background = \"#2e3440\"\n");
    let err = load_theme("dracula", &a, |_t: &str| Err("expected a table".to_string())).unwrap_err();
    assert_eq!(err, CastermError::Theme("Failed to parse theme 'dracula': expected a table".to_string()));
}

#[test]
fn image_state_keeps_the_decoded_pixels() {
    let img = ImageState::load("/pics/a.png".to_string(), Ok((2, 1, vec![1, 2, 3, 4, 5, 6, 7, 8]))).unwrap();
    assert_eq!(img.width(), 2);
    assert_eq!(img.height(), 1);
    assert_eq!(img.rgba(), &vec![1, 2, 3, 4, 5, 6, 7, 8]);
    assert_eq!(img.path(), "/pics/a.png");
    let err = ImageState::load("/pics/b.png".to_string(), Err("bad header".to_string()));
    assert!(matches!(err, Err(CastermError::Gui(m)) if m == "failed to open image \"/pics/b.png\": bad header"));
}

#[test]
fn install_extracts_a_readable_entry() {
    let entry: Vec<u8> = vec![0x1a, 0x01, 0x30, 0x00, 0x1d, 0x00];
    let disk: RefCell<Vec<(String, String, Vec<u8>)>> = RefCell::new(Vec::new());
    let dir = install_into("/home/u/.cache/casapps/casterm", &entry, |d: &str, p: &str, b: &[u8]| {
        disk.borrow_mut().push((d.to_string(), p.to_string(), b.to_vec()));
        true
    })
    .expect("install succeeds when there is an entry");
    assert_eq!(dir, "/home/u/.cache/casapps/casterm/terminfo");
    let written = disk.borrow();
    assert_eq!(written.len(), 1);
    assert_eq!(written[0].0, "/home/u/.cache/casapps/casterm/terminfo/c");
    assert_eq!(written[0].1, format!("{dir}/c/casterm"));
    assert_eq!(written[0].2, entry);
}

#[test]
fn install_without_an_entry_or_on_failure_gives_nothing() {
    assert_eq!(install_into("/c", &[], |_d: &str, _p: &str, _b: &[u8]| true), None);
    assert_eq!(install_into("/c", &[1], |_d: &str, _p: &str, _b: &[u8]| false), None);
    assert_eq!(install(&[], |_d: &str, _p: &str, _b: &[u8]| true), None);
    let r = install(&[7], |_d: &str, p: &str, _b: &[u8]| p.ends_with("/casapps/casterm/terminfo/c/casterm"));
    assert!(r.unwrap().ends_with("/casapps/casterm/terminfo"));
}

#[test]
fn homebrew_shell_prefers_apple_silicon() {
    assert_eq!(MacOs::homebrew_shell("fish", true, true), Some("/opt/homebrew/bin/fish".to_string()));
    assert_eq!(MacOs::homebrew_shell("fish", false, true), Some("/usr/local/bin/fish".to_string()));
    assert_eq!(MacOs::homebrew_shell("fish", false, false), None);
}

fn row(text: &str, style: RowStyle) -> (String, RowStyle) {
    (text.to_string(), style)
}

fn rows(v: Vec<PanelRow>) -> Vec<(String, RowStyle)> {
    v.into_iter().map(|r| (r.text, r.style)).collect()
}

#[test]
fn editor_panel_shows_header_lines_and_hints() {
    let theme = ThemePalette::default();
    let mut ed = EditorState::load("/home/u/notes.txt".to_string(), FileRead::Contents("alpha\nbeta\ngamma\ndelta".to_string()))
        .unwrap();
    let panel = EditorPanel { state: &ed, theme: &theme, status: None };
    assert_eq!(
        rows(panel.frame(10, 4)),
        vec![
            row("notes.txt", RowStyle::Bar),
            row("alpha", RowStyle::Plain),
            row("beta", RowStyle::Plain),
            row("^S Save  ^", RowStyle::Bar),
        ]
    );
    assert!(panel.frame(0, 4).is_empty());
    assert_eq!(rows(panel.frame(5, 1)), vec![row("^S Sa", RowStyle::Bar)]);
    // Moving to the last line scrolls it into view; a change marks the header.
    ed.move_cursor(3, 0);
    ed.insert_char('!');
    let panel = EditorPanel { state: &ed, theme: &theme, status: Some("Saved") };
    assert_eq!(
        rows(panel.frame(30, 4)),
        vec![
            row("notes.txt [Modified]", RowStyle::Bar),
            row("gamma", RowStyle::Plain),
            row("!delta", RowStyle::Plain),
            row("Saved", RowStyle::Bar),
        ]
    );
}

#[test]
fn editor_panel_without_a_file_name() {
    let theme = ThemePalette::default();
    let ed = EditorState::load(String::new(), FileRead::NotFound).unwrap();
    let panel = EditorPanel { state: &ed, theme: &theme, status: None };
    assert_eq!(
        rows(panel.frame(12, 3)),
        vec![row("[No Name]", RowStyle::Bar), row("", RowStyle::Plain), row("^S Save  ^X ", RowStyle::Bar)]
    );
}

#[test]
fn file_browser_panel_marks_directories_and_selection() {
    let theme = ThemePalette::default();
    let dir = "/w";
    let ls = vec![
        DirListing {
            dir: dir.to_string(),
            children: vec![("/w/readme.md".to_string(), false), ("/w/src".to_string(), true)],
        },
        DirListing { dir: "/w/src".to_string(), children: vec![("/w/src/main.rs".to_string(), false)] },
    ];
    let mut state = FileBrowserState::new(dir.to_string(), false, &ls);
    let panel = FileBrowserPanel { state: &state, theme: &theme };
    assert_eq!(
        rows(panel.frame(20, 3)),
        vec![row("▶ src", RowStyle::Selected), row("  readme.md", RowStyle::Plain), row("", RowStyle::Plain)]
    );
    state.toggle_selected(&ls);
    let panel = FileBrowserPanel { state: &state, theme: &theme };
    assert_eq!(
        rows(panel.frame(8, 3)),
        vec![row("▼ src", RowStyle::Selected), row("    main", RowStyle::Plain), row("  readme", RowStyle::Plain)]
    );
}

#[test]
fn status_bar_places_badge_left_and_right_text() {
    let cells = status_bar_cells(20, StatusMode::Terminal, "work", "12:30");
    let text: String = cells.iter().map(|c| c.0).collect();
    assert_eq!(text, " TERM  work   12:30 ");
    assert!(cells[..6].iter().all(|c| c.1 == BarStyle::Badge));
    assert!(cells[6..].iter().all(|c| c.1 == BarStyle::Bar));
    // Too narrow for the right text: it is left out rather than overlapping.
    let text: String = status_bar_cells(12, StatusMode::Locked, "work", "12:30").iter().map(|c| c.0).collect();
    assert_eq!(text, " LOCK  work ");
    let text: String = status_bar_cells(4, StatusMode::Waiting, "", "").iter().map(|c| c.0).collect();
    assert_eq!(text, " WAI");
    assert!(status_bar_cells(0, StatusMode::Terminal, "x", "y").is_empty());
}

#[test]
fn status_mode_follows_the_resolver() {
    let mut r = KeymapResolver::new(&KeyBindingsConfig::default(), "C-t");
    assert_eq!(status_mode(&r), StatusMode::Terminal);
    r.resolve(KeyModifiers::control(), KeyCode::Char(' '));
    assert_eq!(status_mode(&r), StatusMode::Waiting);
}

#[test]
fn list_themes_returns_loadable_theme_names() {
    let assets = Assets::new(vec![
        ("themes/dracula.toml".to_string(), b"background = \"#282a36\"\n".to_vec()),
        ("themes/nord.toml".to_string(), b"background = \"#2e3440\"\n".to_vec()),
        ("icons/app.png".to_string(), vec![0x89, b'P', b'N', b'G']),
    ]);
    let names = list_themes(&assets);
    assert!(!names.is_empty());
    assert!(names.contains(&"dracula".to_string()));
    for name in &names {
        let loaded = load_theme(name, &assets, |t: &str| {
            if t.starts_with("background = ") {
                Ok(ThemePalette::default())
            } else {
                Err("missing background".to_string())
            }
        });
        assert!(loaded.is_ok(), "theme '{name}' failed to load");
    }
}
