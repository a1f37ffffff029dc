//! Configuration sections and their defaults.
use vstd::prelude::*;

use crate::text::push_str_chars;

verus! {

/// Copy-mode key style.
#[derive(Debug, Clone, Copy, PartialEq, Eq, Structural)]
pub enum CopyModeStyle {
    Vi,
    Emacs,
}

impl Default for CopyModeStyle {
    fn default() -> (s: Self)
        ensures
            s == CopyModeStyle::Vi,
    {
        CopyModeStyle::Vi
    }
}

/// One user-configured key binding.
#[derive(Debug, Clone)]
pub struct KeyBinding {
    pub key: String,
    pub action: String,
    pub context: Option<String>,
}

/// Key binding configuration.
#[derive(Debug, Clone)]
pub struct KeyBindingsConfig {
    /// Copy mode style: vi or emacs
    pub copy_mode_style: CopyModeStyle,
    /// Custom key bindings
    pub bindings: Vec<KeyBinding>,
}

impl Default for KeyBindingsConfig {
    fn default() -> (c: Self)
        ensures
            c.copy_mode_style == CopyModeStyle::Vi,
            c.bindings@.len() == 0,
    {
        KeyBindingsConfig { copy_mode_style: CopyModeStyle::Vi, bindings: Vec::new() }
    }
}

/// Shell configuration.
#[derive(Debug, Clone)]
pub struct ShellConfig {
    /// Full path to shell binary
    pub path: Option<String>,
    /// Shell arguments
    pub args: Vec<String>,
    /// Login shell
    pub login: bool,
}

impl Default for ShellConfig {
    fn default() -> (c: Self)
        ensures
            c.path is None,
            c.args@.len() == 0,
            c.login,
    {
        ShellConfig { path: None, args: Vec::new(), login: true }
    }
}

/// Cursor shape.
#[derive(Debug, Clone, Copy, PartialEq, Eq, Structural)]
pub enum CursorShape {
    Block,
    IBeam,
    Underline,
}

impl Default for CursorShape {
    fn default() -> (s: Self)
        ensures
            s == CursorShape::IBeam,
    {
        CursorShape::IBeam
    }
}

/// Cursor configuration.
#[derive(Debug, Clone)]
pub struct CursorConfig {
    pub shape: CursorShape,
    pub blink: bool,
    /// Blink interval in milliseconds
    pub blink_interval: u32,
    /// Cursor color (hex or theme reference)
    pub color: String,
}

impl Default for CursorConfig {
    fn default() -> (c: Self)
        ensures
            c.shape == CursorShape::IBeam,
            c.blink,
            c.blink_interval == 530,
            c.color@ == "#008080"@,
    {
        proof {
            broadcast use vstd::string::group_string_axioms;
        }
        CursorConfig { shape: CursorShape::IBeam, blink: true, blink_interval: 530, color: "#008080".to_string() }
    }
}

/// When to close a window after its shell exits.
#[derive(Debug, Clone, Copy, PartialEq, Eq, Structural)]
pub enum CloseOnExit {
    Always,
    Never,
    OnCleanExit,
}

impl Default for CloseOnExit {
    fn default() -> (c: Self)
        ensures
            c == CloseOnExit::OnCleanExit,
    {
        CloseOnExit::OnCleanExit
    }
}

/// Behavior configuration.
#[derive(Debug, Clone)]
pub struct BehaviorConfig {
    pub scrollback_lines: u32,
    pub audible_bell: bool,
    pub visual_bell: bool,
    /// Confirm before paste of dangerous content
    pub confirm_paste: bool,
    pub close_on_exit: CloseOnExit,
    pub url_detection: bool,
}

impl Default for BehaviorConfig {
    fn default() -> (c: Self)
        ensures
            c.scrollback_lines == 10000,
            !c.audible_bell,
            c.visual_bell,
            c.confirm_paste,
            c.close_on_exit == CloseOnExit::OnCleanExit,
            c.url_detection,
    {
        BehaviorConfig {
            scrollback_lines: 10000,
            audible_bell: false,
            visual_bell: true,
            confirm_paste: true,
            close_on_exit: CloseOnExit::OnCleanExit,
            url_detection: true,
        }
    }
}

/// Multiplexer configuration.
#[derive(Debug, Clone)]
pub struct MultiplexerConfig {
    pub prefix_key: String,
    pub mouse: bool,
    /// Default layout for new windows
    pub default_layout: String,
    pub auto_rename: bool,
    pub persist_sessions: bool,
}

impl Default for MultiplexerConfig {
    fn default() -> (c: Self)
        ensures
            c.prefix_key@ == "Ctrl+Space"@,
            c.mouse,
            c.default_layout@ == "even"@,
            c.auto_rename,
            c.persist_sessions,
    {
        proof {
            broadcast use vstd::string::group_string_axioms;
        }
        MultiplexerConfig {
            prefix_key: "Ctrl+Space".to_string(),
            mouse: true,
            default_layout: "even".to_string(),
            auto_rename: true,
            persist_sessions: true,
        }
    }
}

/// Status bar position.
#[derive(Debug, Clone, Copy, PartialEq, Eq, Structural)]
pub enum StatusBarPosition {
    Top,
    Bottom,
}

impl Default for StatusBarPosition {
    fn default() -> (p: Self)
        ensures
            p == StatusBarPosition::Bottom,
    {
        StatusBarPosition::Bottom
    }
}

/// Status bar configuration: which segments show on each side.
#[derive(Debug, Clone)]
pub struct StatusBarConfig {
    pub enabled: bool,
    pub position: StatusBarPosition,
    pub left: Vec<String>,
    pub center: Vec<String>,
    pub right: Vec<String>,
}

pub open spec fn strings_view(v: Seq<String>) -> Seq<Seq<char>> {
    v.map_values(|s: String| s@)
}

impl Default for StatusBarConfig {
    fn default() -> (c: Self)
        ensures
            c.enabled,
            c.position == StatusBarPosition::Bottom,
            strings_view(c.left@) == seq!["mode"@, "session"@, "window"@],
            strings_view(c.center@) == seq!["pane_title"@],
            strings_view(c.right@) == seq!["git_branch"@, "hostname"@, "time"@],
    {
        proof {
            broadcast use vstd::string::group_string_axioms;
        }
        let left = vec!["mode".to_string(), "session".to_string(), "window".to_string()];
        let center = vec!["pane_title".to_string()];
        let right = vec!["git_branch".to_string(), "hostname".to_string(), "time".to_string()];
        assert(strings_view(left@) =~= seq!["mode"@, "session"@, "window"@]);
        assert(strings_view(center@) =~= seq!["pane_title"@]);
        assert(strings_view(right@) =~= seq!["git_branch"@, "hostname"@, "time"@]);
        StatusBarConfig { enabled: true, position: StatusBarPosition::Bottom, left, center, right }
    }
}

/// Connection defaults.
#[derive(Debug, Clone)]
pub struct ConnectionsConfig {
    pub default_ssh_port: u16,
    /// SSH keepalive interval (seconds)
    pub ssh_keepalive: u32,
    pub auto_reconnect: bool,
}

impl Default for ConnectionsConfig {
    fn default() -> (c: Self)
        ensures
            c.default_ssh_port == 22,
            c.ssh_keepalive == 60,
            c.auto_reconnect,
    {
        ConnectionsConfig { default_ssh_port: 22, ssh_keepalive: 60, auto_reconnect: true }
    }
}

/// Update channel.
#[derive(Debug, Clone, Copy, PartialEq, Eq, Structural)]
pub enum UpdateChannel {
    Stable,
    Beta,
    Daily,
}

impl Default for UpdateChannel {
    fn default() -> (c: Self)
        ensures
            c == UpdateChannel::Stable,
    {
        UpdateChannel::Stable
    }
}

/// Update configuration (updates never happen without confirmation).
#[derive(Debug, Clone)]
pub struct UpdatesConfig {
    pub channel: UpdateChannel,
    pub check_on_startup: bool,
    pub auto_update: bool,
}

impl Default for UpdatesConfig {
    fn default() -> (c: Self)
        ensures
            c.channel == UpdateChannel::Stable,
            c.check_on_startup,
            !c.auto_update,
    {
        UpdatesConfig { channel: UpdateChannel::Stable, check_on_startup: true, auto_update: false }
    }
}

/// Session logging configuration.
#[derive(Debug, Clone)]
pub struct LoggingConfig {
    pub session_logging: bool,
    pub log_directory: String,
    pub log_filename_pattern: String,
    pub log_timestamps: bool,
    pub log_strip_ansi: bool,
}

impl LoggingConfig {
    /// The defaults, logging (when enabled) into `log_directory`.
    pub fn with_directory(log_directory: String) -> (c: Self)
        ensures
            !c.session_logging,
            c.log_directory == log_directory,
            c.log_filename_pattern@ == "%Y%m%d-%H%M%S-{session}.log"@,
            c.log_timestamps,
            c.log_strip_ansi,
    {
        proof {
            broadcast use vstd::string::group_string_axioms;
        }
        LoggingConfig {
            session_logging: false,
            log_directory,
            log_filename_pattern: "%Y%m%d-%H%M%S-{session}.log".to_string(),
            log_timestamps: true,
            log_strip_ansi: true,
        }
    }
}

impl Default for LoggingConfig {
    fn default() -> (c: Self)
        ensures
            !c.session_logging,
            c.log_filename_pattern@ == "%Y%m%d-%H%M%S-{session}.log"@,
            c.log_timestamps,
            c.log_strip_ansi,
    {
        LoggingConfig::with_directory(log_dir())
    }
}

/// A path joined onto `base` as `PathBuf::join` does for a relative path:
/// a `/` goes between them unless `base` is empty or already ends in one.
pub open spec fn joined_path(base: Seq<char>, rel: Seq<char>) -> Seq<char> {
    if base.len() == 0 {
        rel
    } else if base.last() == '/' {
        base + rel
    } else {
        base + seq!['/'] + rel
    }
}

/// `rel` joined onto `base`.
pub fn join_path(base: &str, rel: &str) -> (p: String)
    ensures
        p@ == joined_path(base@, rel@),
{
    proof {
        broadcast use vstd::string::group_string_axioms;
    }
    let b = crate::text::chars_of(base);
    let mut p = base.to_string();
    if b.len() > 0 && b[b.len() - 1] != '/' {
        push_str_chars(&mut p, "/");
        proof {
            reveal_strlit("/");
        }
    }
    push_str_chars(&mut p, rel);
    proof {
        if b@.len() > 0 && b@[b@.len() - 1] != '/' {
            assert(p@ =~= base@ + seq!['/'] + rel@);
        }
    }
    p
}

/// `dirs::config_dir`, as text. Which directory it is depends on the
/// platform and the environment, so nothing is claimed of it.
#[verifier::external_body]
fn platform_config_dir() -> Option<String> {
    dirs::config_dir().map(|p| p.to_string_lossy().into_owned())
}

/// `dirs::data_dir`, as text; nothing is claimed of it.
#[verifier::external_body]
fn platform_data_dir() -> Option<String> {
    dirs::data_dir().map(|p| p.to_string_lossy().into_owned())
}

/// `dirs::cache_dir`, as text; nothing is claimed of it.
#[verifier::external_body]
fn platform_cache_dir() -> Option<String> {
    dirs::cache_dir().map(|p| p.to_string_lossy().into_owned())
}

/// `dirs::state_dir`, as text; nothing is claimed of it.
#[verifier::external_body]
fn platform_state_dir() -> Option<String> {
    dirs::state_dir().map(|p| p.to_string_lossy().into_owned())
}

/// `dirs::data_local_dir`, as text; nothing is claimed of it.
#[verifier::external_body]
fn platform_data_local_dir() -> Option<String> {
    dirs::data_local_dir().map(|p| p.to_string_lossy().into_owned())
}

/// `dirs::home_dir`, as text; nothing is claimed of it.
#[verifier::external_body]
fn platform_home_dir() -> Option<String> {
    dirs::home_dir().map(|p| p.to_string_lossy().into_owned())
}

/// `rel` inside the platform directory `base`, or inside `.` when the
/// platform has none.
fn app_dir(base: Option<String>, rel: &str) -> (p: String)
    ensures
        p@ == joined_path(
            match base {
                Some(b) => b@,
                None => "."@,
            },
            rel@,
        ),
{
    match base {
        Some(b) => join_path(b.as_str(), rel),
        None => join_path(".", rel),
    }
}

/// The configuration directory: `casapps/casterm` inside the platform's
/// configuration directory (or `.`).
pub fn config_dir() -> (p: String)
    ensures
        exists|b: Seq<char>| p@ == #[trigger] joined_path(b, "casapps/casterm"@),
{
    app_dir(platform_config_dir(), "casapps/casterm")
}

/// The data directory: `casapps/casterm` inside the platform's data
/// directory (or `.`).
pub fn data_dir() -> (p: String)
    ensures
        exists|b: Seq<char>| p@ == #[trigger] joined_path(b, "casapps/casterm"@),
{
    app_dir(platform_data_dir(), "casapps/casterm")
}

/// The cache directory: `casapps/casterm` inside the platform's cache
/// directory (or `.`).
pub fn cache_dir() -> (p: String)
    ensures
        exists|b: Seq<char>| p@ == #[trigger] joined_path(b, "casapps/casterm"@),
{
    app_dir(platform_cache_dir(), "casapps/casterm")
}

/// The log directory: `casapps/casterm/logs` inside the platform's state
/// directory, else its local data directory (or `.`).
pub fn log_dir() -> (p: String)
    ensures
        exists|b: Seq<char>| p@ == #[trigger] joined_path(b, "casapps/casterm/logs"@),
{
    let base = match platform_state_dir() {
        Some(s) => Some(s),
        None => platform_data_local_dir(),
    };
    app_dir(base, "casapps/casterm/logs")
}

/// The configuration files looked for, in order: two in the configuration
/// directory `config_base`, two under the home directory `home`, and two in
/// the current directory.
pub open spec fn config_path_list(config_base: Option<Seq<char>>, home: Option<Seq<char>>) -> Seq<Seq<char>> {
    (match config_base {
        Some(c) => seq![
            joined_path(c, "casapps/casterm/config.yml"@),
            joined_path(c, "casapps/casterm/config.yaml"@),
        ],
        None => Seq::empty(),
    }) + (match home {
        Some(h) => seq![joined_path(h, ".config/casapps/casterm/config.yml"@), joined_path(h, ".castermrc"@)],
        None => Seq::empty(),
    }) + seq![".casterm.yml"@, "casterm.yml"@]
}

/// The configuration files looked for, in order: two in the platform's
/// configuration directory, two under the home directory, and two in the
/// current directory.
pub fn config_paths_from(config_base: Option<String>, home: Option<String>) -> (v: Vec<String>)
    ensures
        strings_view(v@) == config_path_list(
            match config_base {
                Some(c) => Some(c@),
                None => None,
            },
            match home {
                Some(h) => Some(h@),
                None => None,
            },
        ),
{
    proof {
        broadcast use vstd::string::group_string_axioms;
    }
    let mut v: Vec<String> = Vec::new();
    let ghost first = match &config_base {
        Some(c) => seq![
            joined_path(c@, "casapps/casterm/config.yml"@),
            joined_path(c@, "casapps/casterm/config.yaml"@),
        ],
        None => Seq::<Seq<char>>::empty(),
    };
    let ghost second = match &home {
        Some(h) => seq![
            joined_path(h@, ".config/casapps/casterm/config.yml"@),
            joined_path(h@, ".castermrc"@),
        ],
        None => Seq::<Seq<char>>::empty(),
    };
    match &config_base {
        Some(c) => {
            v.push(join_path(c.as_str(), "casapps/casterm/config.yml"));
            v.push(join_path(c.as_str(), "casapps/casterm/config.yaml"));
        },
        None => {},
    }
    assert(strings_view(v@) =~= first);
    let ghost v1 = v@;
    match &home {
        Some(h) => {
            v.push(join_path(h.as_str(), ".config/casapps/casterm/config.yml"));
            v.push(join_path(h.as_str(), ".castermrc"));
        },
        None => {},
    }
    assert(strings_view(v@) =~= first + second);
    v.push(".casterm.yml".to_string());
    v.push("casterm.yml".to_string());
    assert(strings_view(v@) =~= first + second + seq![".casterm.yml"@, "casterm.yml"@]);
    v
}

/// The configuration files looked for, in order.
pub fn config_paths() -> (v: Vec<String>)
    ensures
        exists|c: Option<Seq<char>>, h: Option<Seq<char>>| strings_view(v@) == #[trigger] config_path_list(c, h),
{
    config_paths_from(platform_config_dir(), platform_home_dir())
}

} // verus!
