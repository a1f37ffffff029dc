//! Platform facts and the decisions made from them: which front end to
//! run, which shell to start, which theme the terminal around us uses.
//! Reading the environment is left to the caller.
use vstd::prelude::*;

use crate::keybindings::{parse_u8_from, parse_u8_text};
use crate::text::{chars_of, str_eq};
use crate::theme::ThemeMode;

verus! {

/// UI mode.
#[derive(Debug, Clone, Copy, PartialEq, Eq, Structural)]
pub enum UiMode {
    Gui,
    Tui,
    Cli,
}

/// What the process knows about where it runs, as the UI choice needs it.
#[derive(Debug, Clone, Copy)]
pub struct UiEnvironment {
    pub gui_supported: bool,
    pub tui_supported: bool,
    pub stdin_tty: bool,
    pub stdout_tty: bool,
    pub interactive_launch: bool,
    pub tui_requires_formatting: bool,
    pub machine_output_requested: bool,
    pub local_windows_session: bool,
    pub local_macos_session: bool,
    /// One of `SSH_CONNECTION`, `SSH_CLIENT`, `SSH_TTY`, `MOSH_IP`, `MOSH_KEY` is set.
    pub remote_shell: bool,
    /// `WAYLAND_DISPLAY` or `DISPLAY` is set.
    pub display_variable: bool,
    /// `TERM` is `dumb`.
    pub term_dumb: bool,
    /// `CI` is truthy.
    pub ci: bool,
    /// `NO_COLOR` is truthy.
    pub no_color: bool,
}

/// The front end to run: the GUI when it is supported, the session is
/// local, a display is available and the launch is interactive; else the
/// TUI when it is supported and the terminal is interactive and formatted;
/// else the CLI.
pub open spec fn ui_mode_for(e: UiEnvironment) -> UiMode {
    let display_available = e.display_variable || e.local_windows_session || e.local_macos_session;
    let plain = !e.stdin_tty || !e.stdout_tty || e.term_dumb || e.ci || (e.no_color
        && e.tui_requires_formatting) || e.machine_output_requested;
    if e.gui_supported && !e.remote_shell && display_available && e.interactive_launch {
        UiMode::Gui
    } else if e.tui_supported && !plain {
        UiMode::Tui
    } else {
        UiMode::Cli
    }
}

/// Choose the front end for `e`.
pub fn decide_ui_mode(e: &UiEnvironment) -> (m: UiMode)
    ensures
        m == ui_mode_for(*e),
{
    let display_available = e.display_variable || e.local_windows_session || e.local_macos_session;
    if e.gui_supported && !e.remote_shell && display_available && e.interactive_launch {
        return UiMode::Gui;
    }
    let plain = !e.stdin_tty || !e.stdout_tty || e.term_dumb || e.ci || (e.no_color
        && e.tui_requires_formatting) || e.machine_output_requested;
    if e.tui_supported && !plain {
        return UiMode::Tui;
    }
    UiMode::Cli
}

/// What `str::to_lowercase` gives for a text.
pub uninterp spec fn lowercase_of(s: Seq<char>) -> Seq<char>;

/// `s` in lower case, by `str::to_lowercase` (Unicode case mapping, which
/// depends on the text alone).
#[verifier::external_body]
fn lowercase(s: &str) -> (r: String)
    ensures
        r@ == lowercase_of(s@),
{
    s.to_lowercase()
}

/// Whether an environment value counts as set: present, non-empty, not
/// `0`, and not `false` in any case.
pub open spec fn truthy_value(v: Option<Seq<char>>) -> bool {
    match v {
        Some(s) => s.len() > 0 && s != "0"@ && lowercase_of(s) != "false"@,
        None => false,
    }
}

pub fn is_truthy(v: Option<&str>) -> (b: bool)
    ensures
        b == truthy_value(
            match v {
                Some(s) => Some(s@),
                None => None,
            },
        ),
{
    match v {
        Some(s) => {
            if s.is_empty() || str_eq(s, "0") {
                false
            } else {
                let l = lowercase(s);
                !str_eq(l.as_str(), "false")
            }
        },
        None => false,
    }
}

/// The theme of the terminal we run inside, if it says: a
/// `TERMINAL_BACKGROUND` of `dark` or `light` (in any case) decides;
/// otherwise a `COLORFGBG` of the form `fg;bg` with a background colour
/// below 7 means dark and above 8 light.
pub open spec fn terminal_background_for(term_bg: Option<Seq<char>>, colorfgbg: Option<Seq<char>>) -> Option<
    ThemeMode,
> {
    let by_name = match term_bg {
        Some(v) => if lowercase_of(v) == "dark"@ {
            Some(ThemeMode::Dark)
        } else if lowercase_of(v) == "light"@ {
            Some(ThemeMode::Light)
        } else {
            None
        },
        None => None,
    };
    if by_name is Some {
        by_name
    } else {
        match colorfgbg {
            Some(v) => match v.index_of_first(';') {
                Some(i) => match parse_u8_text(v.skip(i + 1)) {
                    Some(n) => if n < 7 {
                        Some(ThemeMode::Dark)
                    } else if n > 8 {
                        Some(ThemeMode::Light)
                    } else {
                        None
                    },
                    None => None,
                },
                None => None,
            },
            None => None,
        }
    }
}

/// The terminal's background from the values of `TERMINAL_BACKGROUND` and
/// `COLORFGBG`.
pub fn terminal_background(term_bg: Option<&str>, colorfgbg: Option<&str>) -> (m: Option<ThemeMode>)
    ensures
        m == terminal_background_for(
            match term_bg {
                Some(s) => Some(s@),
                None => None,
            },
            match colorfgbg {
                Some(s) => Some(s@),
                None => None,
            },
        ),
{
    match term_bg {
        Some(v) => {
            let l = lowercase(v);
            if str_eq(l.as_str(), "dark") {
                return Some(ThemeMode::Dark);
            } else if str_eq(l.as_str(), "light") {
                return Some(ThemeMode::Light);
            }
        },
        None => {},
    }
    match colorfgbg {
        Some(v) => {
            let cs = chars_of(v);
            let mut i: usize = 0;
            while i < cs.len() && cs[i] != ';'
                invariant
                    i <= cs@.len(),
                    cs@ == v@,
                    forall|k: int| 0 <= k < i ==> cs@[k] != ';',
                decreases cs.len() - i,
            {
                i = i + 1;
            }
            proof {
                cs@.index_of_first_ensures(';');
                if i < cs@.len() {
                    match cs@.index_of_first(';') {
                        Some(k) => {
                            assert(k == i);
                        },
                        None => {},
                    }
                }
            }
            if i == cs.len() {
                return None;
            }
            match parse_u8_from(&cs, i + 1) {
                Some(n) => if n < 7 {
                    Some(ThemeMode::Dark)
                } else if n > 8 {
                    Some(ThemeMode::Light)
                } else {
                    None
                },
                None => None,
            }
        },
        None => None,
    }
}

/// Display server type.
#[derive(Debug, Clone, Copy, PartialEq, Eq, Structural)]
pub enum DisplayServer {
    Wayland,
    X11,
    NoServer,
}

/// Linux-specific platform facts.
pub struct Linux;

impl Linux {
/// The display server in use: Wayland when `WAYLAND_DISPLAY` is set, else
/// X11 when `DISPLAY` is set.
pub fn display_server(wayland_display: bool, display: bool) -> (d: DisplayServer)
    ensures
        d == if wayland_display {
            DisplayServer::Wayland
        } else if display {
            DisplayServer::X11
        } else {
            DisplayServer::NoServer
        },
{
    if wayland_display {
        DisplayServer::Wayland
    } else if display {
        DisplayServer::X11
    } else {
        DisplayServer::NoServer
    }
}

/// An XDG base directory: the variable's value when set, else `rel` in
/// the home directory, else the temporary directory.
pub fn xdg_dir(var: Option<String>, home: Option<String>, rel: &str, temp: String) -> (d: String)
    ensures
        d@ == match (var, home) {
            (Some(v), _) => v@,
            (None, Some(h)) => crate::config::joined_path(h@, rel@),
            (None, None) => temp@,
        },
{
    match var {
        Some(v) => v,
        None => match home {
            Some(h) => crate::config::join_path(h.as_str(), rel),
            None => temp,
        },
    }
}
}

/// The terminal application a `TERM_PROGRAM` value names.
pub open spec fn terminal_app_for(p: Seq<char>) -> Option<Seq<char>> {
    if p == "Apple_Terminal"@ {
        Some("Terminal.app"@)
    } else if p == "iTerm.app"@ {
        Some("iTerm2"@)
    } else if p == "Hyper"@ {
        Some("Hyper"@)
    } else if p == "WezTerm"@ {
        Some("WezTerm"@)
    } else if p == "Alacritty"@ {
        Some("Alacritty"@)
    } else if p == "kitty"@ {
        Some("kitty"@)
    } else {
        None
    }
}

/// macOS-specific platform facts.
pub struct MacOs;

impl MacOs {
/// The terminal application a `TERM_PROGRAM` value names, if known.
pub fn terminal_app(term_program: &str) -> (a: Option<&'static str>)
    ensures
        match a {
            Some(s) => terminal_app_for(term_program@) == Some(s@),
            None => terminal_app_for(term_program@) is None,
        },
{
    if str_eq(term_program, "Apple_Terminal") {
        Some("Terminal.app")
    } else if str_eq(term_program, "iTerm.app") {
        Some("iTerm2")
    } else if str_eq(term_program, "Hyper") {
        Some("Hyper")
    } else if str_eq(term_program, "WezTerm") {
        Some("WezTerm")
    } else if str_eq(term_program, "Alacritty") {
        Some("Alacritty")
    } else if str_eq(term_program, "kitty") {
        Some("kitty")
    } else {
        None
    }
}

/// Where Homebrew installs a shell called `name`, Apple silicon first.
pub fn homebrew_shell_candidates(name: &str) -> (v: Vec<String>)
    ensures
        v@.map_values(|s: String| s@) == seq!["/opt/homebrew/bin/"@ + name@, "/usr/local/bin/"@ + name@],
{
    proof {
        broadcast use vstd::string::group_string_axioms;
    }
    let mut arm = "/opt/homebrew/bin/".to_string();
    crate::text::push_str_chars(&mut arm, name);
    let mut intel = "/usr/local/bin/".to_string();
    crate::text::push_str_chars(&mut intel, name);
    let v = vec![arm, intel];
    assert(v@.map_values(|s: String| s@) =~= seq!["/opt/homebrew/bin/"@ + name@, "/usr/local/bin/"@ + name@]);
    v
}

/// The Homebrew shell called `name` that is installed: the Apple silicon
/// location when a file is there, else the Intel one, else none. The two
/// flags say whether a file exists at each location.
pub fn homebrew_shell(name: &str, arm_exists: bool, intel_exists: bool) -> (p: Option<String>)
    ensures
        arm_exists ==> (p matches Some(s) && s@ == "/opt/homebrew/bin/"@ + name@),
        !arm_exists && intel_exists ==> (p matches Some(s) && s@ == "/usr/local/bin/"@ + name@),
        !arm_exists && !intel_exists ==> p is None,
{
    let mut v = MacOs::homebrew_shell_candidates(name);
    assert(v@.map_values(|s: String| s@).len() == 2);
    assert(v@[0]@ == v@.map_values(|s: String| s@)[0]);
    assert(v@[1]@ == v@.map_values(|s: String| s@)[1]);
    if arm_exists {
        Some(v.swap_remove(0))
    } else if intel_exists {
        Some(v.swap_remove(1))
    } else {
        None
    }
}
}

/// Operating system family.
#[derive(Debug, Clone, Copy, PartialEq, Eq, Structural)]
pub enum OsFamily {
    Linux,
    MacOs,
    Windows,
    Other,
}

/// Default font families for an operating system, in order of preference.
pub open spec fn default_fonts_of(os: OsFamily) -> Seq<Seq<char>> {
    match os {
        OsFamily::MacOs => seq!["Menlo"@, "SF Mono"@, "Monaco"@],
        OsFamily::Windows => seq!["Cascadia Code"@, "Consolas"@, "Courier New"@],
        OsFamily::Linux => seq!["JetBrains Mono"@, "Fira Code"@, "DejaVu Sans Mono"@, "monospace"@],
        OsFamily::Other => seq!["monospace"@],
    }
}

/// Platform abstraction layer.
pub struct Platform;

impl Platform {
    /// Default font families for `os`.
    pub fn default_fonts(os: OsFamily) -> (v: Vec<&'static str>)
        ensures
            v@.map_values(|s: &str| s@) == default_fonts_of(os),
    {
        let v = match os {
            OsFamily::MacOs => vec!["Menlo", "SF Mono", "Monaco"],
            OsFamily::Windows => vec!["Cascadia Code", "Consolas", "Courier New"],
            OsFamily::Linux => vec!["JetBrains Mono", "Fira Code", "DejaVu Sans Mono", "monospace"],
            OsFamily::Other => vec!["monospace"],
        };
        assert(v@.map_values(|s: &str| s@) =~= default_fonts_of(os));
        v
    }

    /// Whether any of the remote-session variables is set.
    pub fn is_remote_session_from(ssh_connection: bool, ssh_client: bool, ssh_tty: bool, mosh_ip: bool, mosh_key: bool) -> (b: bool)
        ensures
            b == (ssh_connection || ssh_client || ssh_tty || mosh_ip || mosh_key),
    {
        ssh_connection || ssh_client || ssh_tty || mosh_ip || mosh_key
    }
}

/// Windows-specific platform facts.
pub struct Windows;

impl Windows {
    /// ConPTY is available on every supported Windows release.
    pub fn has_conpty() -> (b: bool)
        ensures
            b,
    {
        true
    }

    /// The Windows build number is not determined.
    pub fn build_number() -> (n: Option<u32>)
        ensures
            n is None,
    {
        None
    }

    /// Path of Windows PowerShell.
    pub fn powershell() -> (p: String)
        ensures
            p@ == "C:\\Windows\\System32\\WindowsPowerShell\\v1.0\\powershell.exe"@,
    {
        proof {
            broadcast use vstd::string::group_string_axioms;
        }
        "C:\\Windows\\System32\\WindowsPowerShell\\v1.0\\powershell.exe".to_string()
    }

    /// Path of `cmd.exe`.
    pub fn cmd() -> (p: String)
        ensures
            p@ == "C:\\Windows\\System32\\cmd.exe"@,
    {
        proof {
            broadcast use vstd::string::group_string_axioms;
        }
        "C:\\Windows\\System32\\cmd.exe".to_string()
    }
}

/// The shells to try on a Unix system, in order: Homebrew's bash when
/// `homebrew` (macOS), the account's login shell, the `SHELL` variable,
/// then the usual locations of bash, zsh, fish and sh.
pub open spec fn shell_candidates_of(shell_env: Option<Seq<char>>, passwd_shell: Option<Seq<char>>, homebrew: bool) -> Seq<Seq<char>> {
    (if homebrew {
        seq!["/opt/homebrew/bin/bash"@, "/usr/local/bin/bash"@]
    } else {
        Seq::empty()
    }) + (match passwd_shell {
        Some(s) => seq![s],
        None => Seq::empty(),
    }) + (match shell_env {
        Some(s) => seq![s],
        None => Seq::empty(),
    }) + seq!["/bin/bash"@, "/usr/bin/bash"@, "/bin/zsh"@, "/usr/bin/zsh"@, "/usr/bin/fish"@, "/bin/sh"@]
}

/// The shells to try, in order; the first that exists is the default.
pub fn shell_candidates(shell_env: Option<String>, passwd_shell: Option<String>, homebrew: bool) -> (v: Vec<String>)
    ensures
        v@.map_values(|s: String| s@) == shell_candidates_of(
            match shell_env {
                Some(s) => Some(s@),
                None => None,
            },
            match passwd_shell {
                Some(s) => Some(s@),
                None => None,
            },
            homebrew,
        ),
{
    proof {
        broadcast use vstd::string::group_string_axioms;
    }
    let ghost se = match &shell_env {
        Some(s) => Some(s@),
        None => None,
    };
    let ghost ps = match &passwd_shell {
        Some(s) => Some(s@),
        None => None,
    };
    let mut v: Vec<String> = Vec::new();
    if homebrew {
        v.push("/opt/homebrew/bin/bash".to_string());
        v.push("/usr/local/bin/bash".to_string());
    }
    match passwd_shell {
        Some(s) => v.push(s),
        None => {},
    }
    match shell_env {
        Some(s) => v.push(s),
        None => {},
    }
    v.push("/bin/bash".to_string());
    v.push("/usr/bin/bash".to_string());
    v.push("/bin/zsh".to_string());
    v.push("/usr/bin/zsh".to_string());
    v.push("/usr/bin/fish".to_string());
    v.push("/bin/sh".to_string());
    assert(v@.map_values(|s: String| s@) =~= shell_candidates_of(se, ps, homebrew));
    v
}

} // verus!
