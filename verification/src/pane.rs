//! What a pane's backend needs decided before it starts, and the messages
//! its reader sends back.
use vstd::prelude::*;

use crate::error::CastermError;
use crate::terminal::TerminalSize;

verus! {

/// Output of a local shell's reader.
#[derive(Debug, Clone, PartialEq, Eq)]
pub enum PtyMsg {
    Data(Vec<u8>),
    Exit,
}

/// Output of a serial device's reader.
#[derive(Debug, Clone, PartialEq, Eq)]
pub enum SerialMsg {
    /// Bytes read from the device, hex-formatted in hex mode.
    Data(Vec<u8>),
    /// The device went away or reading failed for good.
    Disconnected,
}

/// Output of an SSH session's reader.
#[derive(Debug, Clone, PartialEq, Eq)]
pub enum SshMsg {
    Data(Vec<u8>),
    Exit,
}

/// How to start a local shell.
#[derive(Debug, Clone)]
pub struct PtyConfig {
    pub shell: String,
    pub args: Vec<String>,
    pub env: Vec<(String, String)>,
    pub cwd: Option<String>,
    pub rows: u16,
    pub cols: u16,
}

impl PtyConfig {
    /// The defaults for `shell`: no arguments or extra environment, the
    /// current directory, 24 rows of 80 columns.
    pub fn with_shell(shell: String) -> (c: PtyConfig)
        ensures
            c.shell == shell,
            c.args@.len() == 0,
            c.env@.len() == 0,
            c.cwd is None,
            c.rows == 24,
            c.cols == 80,
    {
        PtyConfig { shell, args: Vec::new(), env: Vec::new(), cwd: None, rows: 24, cols: 80 }
    }
}

/// A pane needs at least one row and one column: a terminal error otherwise.
pub fn check_pane_size(size: TerminalSize) -> (r: Result<(), CastermError>)
    ensures
        size.cols > 0 && size.rows > 0 <==> r is Ok,
        r matches Err(e) ==> e matches CastermError::Terminal(m) && m@ == "terminal size must be non-zero"@,
{
    proof {
        broadcast use vstd::string::group_string_axioms;
    }
    if size.cols == 0 || size.rows == 0 {
        return Err(CastermError::Terminal("terminal size must be non-zero".to_string()));
    }
    Ok(())
}

/// The shell a pane starts: the configured one, else the detected one,
/// else the platform's basic shell.
pub fn pane_shell(configured: Option<String>, detected: Option<String>, windows: bool) -> (s: String)
    ensures
        s@ == match (configured, detected) {
            (Some(c), _) => c@,
            (None, Some(d)) => d@,
            (None, None) => if windows {
                "cmd.exe"@
            } else {
                "/bin/sh"@
            },
        },
{
    proof {
        broadcast use vstd::string::group_string_axioms;
    }
    match configured {
        Some(c) => c,
        None => match detected {
            Some(d) => d,
            None => if windows {
                "cmd.exe".to_string()
            } else {
                "/bin/sh".to_string()
            },
        },
    }
}

pub open spec fn env_view(v: Seq<(String, String)>) -> Seq<(Seq<char>, Seq<char>)> {
    v.map_values(|p: (String, String)| (p.0@, p.1@))
}

/// The terminal identity a shell is started with: `TERM=casterm` and
/// `TERMINFO` pointing at the extracted entry when there is one, else
/// `TERM=xterm-256color`; and `COLORTERM=truecolor` either way.
pub fn pty_environment(terminfo_dir: Option<String>) -> (env: Vec<(String, String)>)
    ensures
        env_view(env@) == match terminfo_dir {
            Some(d) => seq![("TERM"@, "casterm"@), ("TERMINFO"@, d@), ("COLORTERM"@, "truecolor"@)],
            None => seq![("TERM"@, "xterm-256color"@), ("COLORTERM"@, "truecolor"@)],
        },
{
    proof {
        broadcast use vstd::string::group_string_axioms;
    }
    let mut env: Vec<(String, String)> = Vec::new();
    let ghost d = match &terminfo_dir {
        Some(d) => Some(d@),
        None => None,
    };
    match terminfo_dir {
        Some(dir) => {
            env.push(("TERM".to_string(), "casterm".to_string()));
            env.push(("TERMINFO".to_string(), dir));
        },
        None => {
            env.push(("TERM".to_string(), "xterm-256color".to_string()));
        },
    }
    env.push(("COLORTERM".to_string(), "truecolor".to_string()));
    proof {
        match d {
            Some(dv) => {
                assert(env_view(env@) =~= seq![("TERM"@, "casterm"@), ("TERMINFO"@, dv), ("COLORTERM"@, "truecolor"@)]);
            },
            None => {
                assert(env_view(env@) =~= seq![("TERM"@, "xterm-256color"@), ("COLORTERM"@, "truecolor"@)]);
            },
        }
    }
    env
}

} // verus!
