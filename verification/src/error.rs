//! Error type shared by the library.
use vstd::prelude::*;

use crate::text::push_str_chars;

verus! {

/// Main error type.
#[derive(Debug, Clone, PartialEq, Eq)]
pub enum CastermError {
    Config(String),
    Io(String),
    Pty(String),
    Terminal(String),
    Ssh(String),
    Serial(String),
    Tui(String),
    Gui(String),
    Session(String),
    Theme(String),
    NoDisplay,
    UnsupportedPlatform(String),
    Other(String),
}

/// Result type alias using `CastermError`.
pub type Result<T> = core::result::Result<T, CastermError>;

/// The human-readable prefix of each error kind.
pub open spec fn error_prefix(e: CastermError) -> Seq<char> {
    match e {
        CastermError::Config(_) => "Configuration error: "@,
        CastermError::Io(_) => "IO error: "@,
        CastermError::Pty(_) => "PTY error: "@,
        CastermError::Terminal(_) => "Terminal error: "@,
        CastermError::Ssh(_) => "SSH error: "@,
        CastermError::Serial(_) => "Serial port error: "@,
        CastermError::Tui(_) => "TUI error: "@,
        CastermError::Gui(_) => "GUI error: "@,
        CastermError::Session(_) => "Session error: "@,
        CastermError::Theme(_) => "Theme error: "@,
        CastermError::NoDisplay => "No display available"@,
        CastermError::UnsupportedPlatform(_) => "Unsupported platform: "@,
        CastermError::Other(_) => ""@,
    }
}

/// The detail text an error carries (empty for `NoDisplay`).
pub open spec fn error_detail(e: CastermError) -> Seq<char> {
    match e {
        CastermError::Config(s) => s@,
        CastermError::Io(s) => s@,
        CastermError::Pty(s) => s@,
        CastermError::Terminal(s) => s@,
        CastermError::Ssh(s) => s@,
        CastermError::Serial(s) => s@,
        CastermError::Tui(s) => s@,
        CastermError::Gui(s) => s@,
        CastermError::Session(s) => s@,
        CastermError::Theme(s) => s@,
        CastermError::NoDisplay => ""@,
        CastermError::UnsupportedPlatform(s) => s@,
        CastermError::Other(s) => s@,
    }
}

impl CastermError {
    /// The message this error displays: its kind's prefix and its detail.
    pub fn message(&self) -> (m: String)
        ensures
            m@ == error_prefix(*self) + error_detail(*self),
    {
        let (prefix, detail): (&str, &str) = match self {
            CastermError::Config(s) => ("Configuration error: ", s.as_str()),
            CastermError::Io(s) => ("IO error: ", s.as_str()),
            CastermError::Pty(s) => ("PTY error: ", s.as_str()),
            CastermError::Terminal(s) => ("Terminal error: ", s.as_str()),
            CastermError::Ssh(s) => ("SSH error: ", s.as_str()),
            CastermError::Serial(s) => ("Serial port error: ", s.as_str()),
            CastermError::Tui(s) => ("TUI error: ", s.as_str()),
            CastermError::Gui(s) => ("GUI error: ", s.as_str()),
            CastermError::Session(s) => ("Session error: ", s.as_str()),
            CastermError::Theme(s) => ("Theme error: ", s.as_str()),
            CastermError::NoDisplay => ("No display available", ""),
            CastermError::UnsupportedPlatform(s) => ("Unsupported platform: ", s.as_str()),
            CastermError::Other(s) => ("", s.as_str()),
        };
        proof {
            broadcast use vstd::string::group_string_axioms;

            reveal_strlit("");
        }
        let mut m = prefix.to_string();
        push_str_chars(&mut m, detail);
        m
    }
}

} // verus!
