use casterm::platform::{
    decide_ui_mode, is_truthy, shell_candidates, terminal_background, DisplayServer, Linux, MacOs, OsFamily,
    Platform, UiEnvironment, UiMode, Windows,
};
use casterm::theme::ThemeMode;
use casterm::theme_catalog::{theme_mode_for, SystemMode, ThemeCatalog};

#[test]
fn theme_names_resolve_by_mode() {
    assert_eq!(ThemeCatalog::resolve_theme_name("gruvbox", ThemeMode::Dark), "gruvbox_dark");
    assert_eq!(ThemeCatalog::resolve_theme_name("gruvbox", ThemeMode::Light), "gruvbox_light");
    assert_eq!(ThemeCatalog::resolve_theme_name("nord", ThemeMode::Light), "nord_light");
    assert_eq!(ThemeCatalog::resolve_theme_name("nord", ThemeMode::Dark), "nord");
    assert_eq!(ThemeCatalog::resolve_theme_name("dracula", ThemeMode::Light), "dracula");
    let auto = ThemeCatalog::resolve_theme_name("ayu", ThemeMode::Auto);
    assert!(auto == "ayu_dark" || auto == "ayu_light");
    assert_eq!(ThemeCatalog::resolve_theme_name_for("ayu", ThemeMode::Auto), "ayu_dark");
}

#[test]
fn theme_validity_and_sorted_catalog() {
    assert!(ThemeCatalog::is_valid_theme("dracula"));
    assert!(ThemeCatalog::is_valid_theme("tokyo_night"));
    assert!(ThemeCatalog::is_valid_theme("acme"));
    assert!(!ThemeCatalog::is_valid_theme("dracula_dark"));
    let all = ThemeCatalog::all_themes();
    assert_eq!(all.len(), 79);
    let mut sorted = all.clone();
    sorted.sort();
    assert_eq!(all, sorted);
    assert_eq!(all[0], "Cobalt2");
}

#[test]
fn system_preference_maps_to_light_only_for_light() {
    assert_eq!(theme_mode_for(SystemMode::Light), ThemeMode::Light);
    assert_eq!(theme_mode_for(SystemMode::Dark), ThemeMode::Dark);
    assert_eq!(theme_mode_for(SystemMode::Unspecified), ThemeMode::Dark);
    assert_eq!(theme_mode_for(SystemMode::Unknown), ThemeMode::Dark);
}

fn env() -> UiEnvironment {
    UiEnvironment {
        gui_supported: true,
        tui_supported: true,
        stdin_tty: true,
        stdout_tty: true,
        interactive_launch: true,
        tui_requires_formatting: true,
        machine_output_requested: false,
        local_windows_session: false,
        local_macos_session: false,
        remote_shell: false,
        display_variable: true,
        term_dumb: false,
        ci: false,
        no_color: false,
    }
}

#[test]
fn ui_mode_prefers_gui_then_tui_then_cli() {
    assert_eq!(decide_ui_mode(&env()), UiMode::Gui);
    assert_eq!(decide_ui_mode(&UiEnvironment { remote_shell: true, ..env() }), UiMode::Tui);
    assert_eq!(decide_ui_mode(&UiEnvironment { display_variable: false, ..env() }), UiMode::Tui);
    assert_eq!(
        decide_ui_mode(&UiEnvironment { display_variable: false, no_color: true, ..env() }),
        UiMode::Cli
    );
    assert_eq!(decide_ui_mode(&UiEnvironment { gui_supported: false, stdout_tty: false, ..env() }), UiMode::Cli);
}

#[test]
fn truthy_values_and_terminal_background() {
    assert!(is_truthy(Some("1")));
    assert!(is_truthy(Some("yes")));
    assert!(!is_truthy(Some("0")));
    assert!(!is_truthy(Some("FALSE")));
    assert!(!is_truthy(Some("")));
    assert!(!is_truthy(None));
    assert_eq!(terminal_background(Some("Light"), None), Some(ThemeMode::Light));
    assert_eq!(terminal_background(Some("other"), Some("15;0")), Some(ThemeMode::Dark));
    assert_eq!(terminal_background(None, Some("0;15")), Some(ThemeMode::Light));
    assert_eq!(terminal_background(None, Some("0;8")), None);
    assert_eq!(terminal_background(None, Some("nonsense")), None);
}

#[test]
fn platform_facts() {
    assert_eq!(Linux::display_server(true, true), DisplayServer::Wayland);
    assert_eq!(Linux::display_server(false, true), DisplayServer::X11);
    assert_eq!(Linux::display_server(false, false), DisplayServer::NoServer);
    assert_eq!(Linux::xdg_dir(None, Some("/home/u".to_string()), ".config", "/tmp".to_string()), "/home/u/.config");
    assert_eq!(MacOs::terminal_app("iTerm.app"), Some("iTerm2"));
    assert_eq!(MacOs::terminal_app("xterm"), None);
    assert_eq!(MacOs::homebrew_shell_candidates("fish"), vec!["/opt/homebrew/bin/fish".to_string(), "/usr/local/bin/fish".to_string()]);
    assert_eq!(Platform::default_fonts(OsFamily::Other), vec!["monospace"]);
    assert_eq!(Windows::cmd(), "C:\\Windows\\System32\\cmd.exe");
    assert!(Windows::has_conpty());
    assert_eq!(Windows::build_number(), None);
    let shells = shell_candidates(Some("/bin/zsh".to_string()), None, false);
    assert_eq!(shells[0], "/bin/zsh");
    assert_eq!(shells.len(), 7);
}

#[test]
fn login_shell_comes_before_shell_variable() {
    let shells = shell_candidates(Some("/usr/bin/fish".to_string()), Some("/bin/zsh".to_string()), false);
    assert_eq!(shells[0], "/bin/zsh");
    assert_eq!(shells[1], "/usr/bin/fish");
    assert_eq!(shells[2], "/bin/bash");
    let mac = shell_candidates(None, Some("/bin/zsh".to_string()), true);
    assert_eq!(mac[0], "/opt/homebrew/bin/bash");
    assert_eq!(mac[2], "/bin/zsh");
}
