//! SSH connection manager: the host directory and each entry's state.
use vstd::prelude::*;

use crate::error::CastermError;
use crate::ids::IdSource;
use crate::text::{decimal, push_decimal, push_str_chars, str_eq};

verus! {

/// Unique connection identifier.
#[derive(Debug, Clone, Copy, PartialEq, Eq, Structural, Hash)]
pub struct ConnectionId(pub u64);

impl ConnectionId {
    /// Take the next identifier from `source`.
    pub fn next(source: &mut IdSource) -> (id: ConnectionId)
        ensures
            id.0 == old(source).peek(),
            final(source).peek() == if old(source).peek() == u64::MAX {
                0
            } else {
                (old(source).peek() + 1) as u64
            },
    {
        ConnectionId(source.fresh())
    }

    /// How the identifier is shown: `ssh-` and its number.
    pub fn label(&self) -> (s: String)
        ensures
            s@ == "ssh-"@ + decimal(self.0 as nat),
    {
        proof {
            broadcast use vstd::string::group_string_axioms;
        }
        let mut s = "ssh-".to_string();
        push_decimal(&mut s, self.0);
        s
    }
}

/// SSH authentication method.
#[derive(Debug, Clone)]
pub enum AuthMethod {
    /// Password authentication
    Password(String),
    /// Public key from the file at this path
    PublicKey(String),
    /// SSH agent
    Agent,
    /// Keyboard-interactive
    KeyboardInteractive,
    /// GSSAPI/Kerberos
    Gssapi,
}

/// SSH jump host configuration.
#[derive(Debug, Clone)]
pub struct JumpHost {
    pub host: String,
    pub port: u16,
    pub username: String,
    pub auth: AuthMethod,
}

/// Port forwarding rule; socket addresses are kept as their text.
#[derive(Debug, Clone)]
pub enum ForwardType {
    /// Local port forwarding (local:remote)
    Local { local_addr: String, remote_host: String, remote_port: u16 },
    /// Remote port forwarding (remote:local)
    Remote { remote_addr: String, local_host: String, local_port: u16 },
    /// Dynamic SOCKS proxy
    Dynamic { bind_addr: String },
}

/// SSH connection configuration.
#[derive(Debug, Clone)]
pub struct SshConfig {
    pub id: ConnectionId,
    /// Display name for this connection
    pub name: String,
    /// Remote hostname or IP address
    pub host: String,
    /// Remote port (default 22)
    pub port: u16,
    /// Username on remote host
    pub username: String,
    pub auth: AuthMethod,
    /// Jump host chain (traversed in order)
    pub jump_hosts: Vec<JumpHost>,
    pub forwards: Vec<ForwardType>,
    pub x11_forwarding: bool,
    pub agent_forwarding: bool,
    /// Keepalive interval in seconds (0 = disabled)
    pub keepalive_interval: u32,
    /// Connection timeout in seconds
    pub timeout: u32,
    pub reconnect_attempts: u32,
    /// Seconds between reconnect attempts
    pub reconnect_delay: u32,
    pub profile: Option<String>,
    /// Optional color label for visual identification
    pub color: Option<String>,
}

/// The login name to default to: the first of the `USER`, `USERNAME` and
/// `LOGNAME` values that is set, else `user`.
pub fn pick_username(user: Option<String>, username: Option<String>, logname: Option<String>) -> (u: String)
    ensures
        u@ == match (user, username, logname) {
            (Some(a), _, _) => a@,
            (None, Some(b), _) => b@,
            (None, None, Some(c)) => c@,
            (None, None, None) => "user"@,
        },
{
    proof {
        broadcast use vstd::string::group_string_axioms;
    }
    match user {
        Some(a) => a,
        None => match username {
            Some(b) => b,
            None => match logname {
                Some(c) => c,
                None => "user".to_string(),
            },
        },
    }
}

impl SshConfig {
    /// The default configuration for connection `id` logging in as
    /// `username`: port 22, agent authentication with agent forwarding, a
    /// 60 s keepalive, a 30 s timeout and 3 reconnect attempts 5 s apart.
    pub fn with_defaults(id: ConnectionId, username: String) -> (c: SshConfig)
        ensures
            c.id == id,
            c.name@ == Seq::<char>::empty(),
            c.host@ == Seq::<char>::empty(),
            c.port == 22,
            c.username == username,
            c.auth is Agent,
            c.jump_hosts@.len() == 0,
            c.forwards@.len() == 0,
            !c.x11_forwarding,
            c.agent_forwarding,
            c.keepalive_interval == 60,
            c.timeout == 30,
            c.reconnect_attempts == 3,
            c.reconnect_delay == 5,
            c.profile is None,
            c.color is None,
    {
        SshConfig {
            id,
            name: String::new(),
            host: String::new(),
            port: 22,
            username,
            auth: AuthMethod::Agent,
            jump_hosts: Vec::new(),
            forwards: Vec::new(),
            x11_forwarding: false,
            agent_forwarding: true,
            keepalive_interval: 60,
            timeout: 30,
            reconnect_attempts: 3,
            reconnect_delay: 5,
            profile: None,
            color: None,
        }
    }
}

/// SSH connection state.
#[derive(Debug, Clone, Copy, PartialEq, Eq, Structural)]
pub enum ConnectionState {
    Disconnected,
    Connecting,
    Connected,
    Reconnecting,
    Failed,
}

/// An SSH connection entry in the connection manager.
pub struct SshConnection {
    pub config: SshConfig,
    pub state: ConnectionState,
    /// Error message if state is Failed
    pub error: Option<String>,
}

impl SshConnection {
    pub fn new(config: SshConfig) -> (c: SshConnection)
        ensures
            c.config == config,
            c.state == ConnectionState::Disconnected,
            c.error is None,
    {
        SshConnection { config, state: ConnectionState::Disconnected, error: None }
    }
}

/// `s` without the entries for connection `id`.
pub open spec fn without_connection(s: Seq<SshConnection>, id: ConnectionId) -> Seq<SshConnection>
    decreases s.len(),
{
    if s.len() == 0 {
        s
    } else {
        without_connection(s.drop_last(), id) + if s.last().config.id == id {
            Seq::empty()
        } else {
            seq![s.last()]
        }
    }
}

/// The error a configuration is refused with, if any: an empty host, an
/// empty username, or port 0, checked in that order.
pub open spec fn ssh_config_error(c: SshConfig) -> Option<Seq<char>> {
    if c.host@.len() == 0 {
        Some("SSH host cannot be empty"@)
    } else if c.username@.len() == 0 {
        Some("SSH username cannot be empty"@)
    } else if c.port == 0 {
        Some("SSH port must be non-zero"@)
    } else {
        None
    }
}

/// How a connection is shown: `user@host`, with `:port` unless it is 22.
pub open spec fn connection_url_text(c: SshConfig) -> Seq<char> {
    if c.port == 22 {
        c.username@ + "@"@ + c.host@
    } else {
        c.username@ + "@"@ + c.host@ + ":"@ + decimal(c.port as nat)
    }
}

/// How a host is named in `known_hosts`: the bare host on port 22, else
/// `[host]:port`.
pub open spec fn host_label_text(host: Seq<char>, port: u16) -> Seq<char> {
    if port == 22 {
        host
    } else {
        "["@ + host + "]:"@ + decimal(port as nat)
    }
}

/// The name of `host` on `port` in `known_hosts`.
pub fn host_label(host: &str, port: u16) -> (s: String)
    ensures
        s@ == host_label_text(host@, port),
{
    proof {
        broadcast use vstd::string::group_string_axioms;
    }
    if port == 22 {
        host.to_string()
    } else {
        let mut s = "[".to_string();
        push_str_chars(&mut s, host);
        push_str_chars(&mut s, "]:");
        push_decimal(&mut s, port as u64);
        s
    }
}

/// SSH connection manager: the host directory and connection states.
pub struct SshManager {
    connections: Vec<SshConnection>,
}

impl SshManager {
    pub closed spec fn entries(&self) -> Seq<SshConnection> {
        self.connections@
    }

    pub fn new() -> (m: SshManager)
        ensures
            m.entries().len() == 0,
    {
        SshManager { connections: Vec::new() }
    }

    /// Add a connection to the host directory, returning its identifier.
    pub fn add(&mut self, config: SshConfig) -> (id: ConnectionId)
        ensures
            id == config.id,
            final(self).entries() == old(self).entries().push(SshConnection::new_spec(config)),
    {
        let id = config.id;
        self.connections.push(SshConnection::new(config));
        id
    }

    /// Remove every entry for connection `id`.
    pub fn remove(&mut self, id: ConnectionId)
        ensures
            final(self).entries() == without_connection(old(self).entries(), id),
    {
        let ghost old_entries = self.entries();
        let mut kept: Vec<SshConnection> = Vec::new();
        let mut rest: Vec<SshConnection> = Vec::new();
        std::mem::swap(&mut rest, &mut self.connections);
        let mut i: usize = 0;
        let n = rest.len();
        assert(old_entries.skip(0) =~= old_entries);
        assert(old_entries.take(0) =~= Seq::<SshConnection>::empty());
        while rest.len() > 0
            invariant
                rest@.len() + i == n,
                n == old_entries.len(),
                rest@ == old_entries.skip(i as int),
                kept@ == without_connection(old_entries.take(i as int), id),
            decreases rest.len(),
        {
            let c = rest.remove(0);
            proof {
                assert(old_entries.take(i + 1).drop_last() =~= old_entries.take(i as int));
                assert(old_entries.take(i + 1).last() == c);
                assert(rest@ =~= old_entries.skip(i + 1));
            }
            if c.config.id != id {
                kept.push(c);
            } else {
                proof {
                    assert(kept@ + Seq::<SshConnection>::empty() =~= kept@);
                }
            }
            i = i + 1;
        }
        assert(old_entries.take(n as int) =~= old_entries);
        self.connections = kept;
    }

    /// All entries.
    pub fn list(&self) -> (l: &Vec<SshConnection>)
        ensures
            l@ == self.entries(),
    {
        &self.connections
    }

    /// The first entry for connection `id`.
    pub fn get(&self, id: ConnectionId) -> (r: Option<&SshConnection>)
        ensures
            match r {
                Some(c) => exists|i: int|
                    0 <= i < self.entries().len() && #[trigger] self.entries()[i] == *c && c.config.id == id
                        && forall|j: int| 0 <= j < i ==> (#[trigger] self.entries()[j]).config.id != id,
                None => forall|j: int| 0 <= j < self.entries().len() ==> (#[trigger] self.entries()[j]).config.id != id,
            },
    {
        match self.index_of(id) {
            Some(i) => Some(&self.connections[i]),
            None => None,
        }
    }

    /// The first entry for connection `id`, mutably.
    pub fn get_mut(&mut self, id: ConnectionId) -> (r: Option<&mut SshConnection>)
        ensures
            match r {
                Some(c) => exists|i: int|
                    0 <= i < old(self).entries().len() && #[trigger] old(self).entries()[i] == *c && c.config.id == id
                        && (forall|j: int| 0 <= j < i ==> (#[trigger] old(self).entries()[j]).config.id != id)
                        && final(self).entries() == old(self).entries().update(i, *final(c)),
                None => (forall|j: int|
                    0 <= j < old(self).entries().len() ==> (#[trigger] old(self).entries()[j]).config.id != id)
                    && final(self).entries() == old(self).entries(),
            },
    {
        match self.index_of(id) {
            Some(i) => Some(&mut self.connections[i]),
            None => None,
        }
    }

    fn index_of(&self, id: ConnectionId) -> (r: Option<usize>)
        ensures
            match r {
                Some(i) => i < self.entries().len() && self.entries()[i as int].config.id == id && forall|j: int|
                    0 <= j < i ==> (#[trigger] self.entries()[j]).config.id != id,
                None => forall|j: int| 0 <= j < self.entries().len() ==> (#[trigger] self.entries()[j]).config.id != id,
            },
    {
        let mut i: usize = 0;
        while i < self.connections.len()
            invariant
                i <= self.entries().len(),
                forall|j: int| 0 <= j < i ==> (#[trigger] self.entries()[j]).config.id != id,
            decreases self.connections.len() - i,
        {
            if self.connections[i].config.id == id {
                return Some(i);
            }
            i = i + 1;
        }
        None
    }

    /// The first entry whose display name is `name`.
    pub fn find_by_name(&self, name: &str) -> (r: Option<&SshConnection>)
        ensures
            match r {
                Some(c) => exists|i: int|
                    0 <= i < self.entries().len() && #[trigger] self.entries()[i] == *c && c.config.name@ == name@
                        && forall|j: int| 0 <= j < i ==> (#[trigger] self.entries()[j]).config.name@ != name@,
                None => forall|j: int| 0 <= j < self.entries().len() ==> (#[trigger] self.entries()[j]).config.name@ != name@,
            },
    {
        let mut i: usize = 0;
        while i < self.connections.len()
            invariant
                i <= self.entries().len(),
                forall|j: int| 0 <= j < i ==> (#[trigger] self.entries()[j]).config.name@ != name@,
            decreases self.connections.len() - i,
        {
            if str_eq(self.connections[i].config.name.as_str(), name) {
                return Some(&self.connections[i]);
            }
            i = i + 1;
        }
        None
    }

    /// Check that a configuration has a host, a username and a port.
    pub fn validate(config: &SshConfig) -> (r: Result<(), CastermError>)
        ensures
            match ssh_config_error(*config) {
                None => r is Ok,
                Some(m) => r matches Err(CastermError::Config(s)) && s@ == m,
            },
    {
        proof {
            broadcast use vstd::string::group_string_axioms;
        }
        if config.host.as_str().is_empty() {
            return Err(CastermError::Config("SSH host cannot be empty".to_string()));
        }
        if config.username.as_str().is_empty() {
            return Err(CastermError::Config("SSH username cannot be empty".to_string()));
        }
        if config.port == 0 {
            return Err(CastermError::Config("SSH port must be non-zero".to_string()));
        }
        Ok(())
    }

    /// The connection as shown to the user: `user@host`, or
    /// `user@host:port` when the port is not 22.
    pub fn connection_url(config: &SshConfig) -> (s: String)
        ensures
            s@ == connection_url_text(*config),
    {
        let mut s = config.username.clone();
        push_str_chars(&mut s, "@");
        push_str_chars(&mut s, config.host.as_str());
        if config.port != 22 {
            push_str_chars(&mut s, ":");
            push_decimal(&mut s, config.port as u64);
        }
        s
    }
}

impl SshConnection {
    pub open spec fn new_spec(config: SshConfig) -> SshConnection {
        SshConnection { config, state: ConnectionState::Disconnected, error: None }
    }
}


/// What the transport does to authenticate: send a password, offer the key
/// in a file, or offer the agent's identities.
#[derive(Debug, Clone, PartialEq, Eq)]
pub enum AuthStep {
    Password(String),
    KeyFile(String),
    Agent,
}

/// The authentication step for `auth`. Keyboard-interactive and GSSAPI
/// authentication are refused with an error saying so.
pub fn auth_step(auth: &AuthMethod) -> (r: Result<AuthStep, CastermError>)
    ensures
        match *auth {
            AuthMethod::Password(p) => r == Ok::<AuthStep, CastermError>(AuthStep::Password(p)),
            AuthMethod::PublicKey(k) => r == Ok::<AuthStep, CastermError>(AuthStep::KeyFile(k)),
            AuthMethod::Agent => r == Ok::<AuthStep, CastermError>(AuthStep::Agent),
            AuthMethod::KeyboardInteractive => r matches Err(CastermError::Ssh(m)) && m@
                == "keyboard-interactive authentication is not yet supported"@,
            AuthMethod::Gssapi => r matches Err(CastermError::Ssh(m)) && m@
                == "GSSAPI authentication is not yet supported"@,
        },
{
    proof {
        broadcast use vstd::string::group_string_axioms;
    }
    match auth {
        AuthMethod::Password(p) => Ok(AuthStep::Password(p.clone())),
        AuthMethod::PublicKey(k) => Ok(AuthStep::KeyFile(k.clone())),
        AuthMethod::Agent => Ok(AuthStep::Agent),
        AuthMethod::KeyboardInteractive => Err(
            CastermError::Ssh("keyboard-interactive authentication is not yet supported".to_string()),
        ),
        AuthMethod::Gssapi => Err(CastermError::Ssh("GSSAPI authentication is not yet supported".to_string())),
    }
}

/// What an authentication attempt for `username` comes to: success, or an
/// error naming the user.
pub fn auth_result(success: bool, username: &str) -> (r: Result<(), CastermError>)
    ensures
        success ==> r is Ok,
        !success ==> (r matches Err(CastermError::Ssh(m)) && m@ == "authentication failed for "@ + username@),
{
    if success {
        Ok(())
    } else {
        proof {
            broadcast use vstd::string::group_string_axioms;
        }
        let mut m = "authentication failed for ".to_string();
        push_str_chars(&mut m, username);
        Err(CastermError::Ssh(m))
    }
}

/// The session's inactivity timeout and keepalive interval in seconds;
/// zero turns either off.
pub fn session_timeouts(config: &SshConfig) -> (r: (Option<u32>, Option<u32>))
    ensures
        r.0 == (if config.timeout > 0 {
            Some(config.timeout)
        } else {
            None::<u32>
        }),
        r.1 == (if config.keepalive_interval > 0 {
            Some(config.keepalive_interval)
        } else {
            None::<u32>
        }),
{
    (
        if config.timeout > 0 {
            Some(config.timeout)
        } else {
            None
        },
        if config.keepalive_interval > 0 {
            Some(config.keepalive_interval)
        } else {
            None
        },
    )
}


/// `v` as an optional setting: zero turns it off.
pub open spec fn nonzero(v: u32) -> Option<u32> {
    if v > 0 {
        Some(v)
    } else {
        None
    }
}

fn nonzero_exec(v: u32) -> (r: Option<u32>)
    ensures
        r == nonzero(v),
{
    if v > 0 {
        Some(v)
    } else {
        None
    }
}

/// A copy of an authentication method.
fn copy_auth(auth: &AuthMethod) -> (r: AuthMethod)
    ensures
        r == *auth,
{
    match auth {
        AuthMethod::Password(p) => AuthMethod::Password(p.clone()),
        AuthMethod::PublicKey(k) => AuthMethod::PublicKey(k.clone()),
        AuthMethod::Agent => AuthMethod::Agent,
        AuthMethod::KeyboardInteractive => AuthMethod::KeyboardInteractive,
        AuthMethod::Gssapi => AuthMethod::Gssapi,
    }
}

/// Where an SSH session is in its start-up: the call the transport is
/// waiting on, then running, or failed.
#[derive(Debug, Clone, Copy, PartialEq, Eq, Structural)]
pub enum SshStage {
    ConnectJump,
    AuthJump,
    OpenTunnel,
    ConnectOverTunnel,
    Connect,
    Authenticate,
    OpenChannel,
    RequestPty,
    RequestShell,
    Running,
    Failed,
}

/// What the transport does next. Each connection names the `known_hosts`
/// label its host key is checked under; the target's connection carries
/// its inactivity timeout and keepalive interval (`None` when off).
#[derive(Debug)]
pub enum SshAction {
    /// Connect to the jump host, with default session settings.
    ConnectJump { host: String, port: u16, label: String },
    /// Connect to the target directly.
    Connect { host: String, port: u16, label: String, inactivity: Option<u32>, keepalive: Option<u32> },
    /// Authenticate the session just connected.
    Authenticate { username: String, auth: AuthMethod },
    /// Open a tunnel from the jump host to the target.
    OpenDirectTcpip { host: String, port: u16 },
    /// Start the target's session over the tunnel.
    ConnectStream { label: String, inactivity: Option<u32>, keepalive: Option<u32> },
    /// Open the session channel.
    OpenSession,
    /// Ask for a pseudo-terminal of this type and size.
    RequestPty { term: String, cols: u16, rows: u16 },
    /// Start the remote shell.
    RequestShell,
    /// Tell the caller that start-up finished, or why it failed.
    Report(Result<(), String>),
    /// Nothing is left to start.
    Wait,
}

/// The error text a failure at `stage` reports, `e` being the failed
/// call's own error text.
pub open spec fn stage_failure_text(config: SshConfig, stage: SshStage, e: Seq<char>) -> Seq<char> {
    match stage {
        SshStage::ConnectJump => "failed to connect to jump host "@ + config.jump_hosts@[0].host@ + ": "@ + e,
        SshStage::AuthJump => "jump host authentication failed: "@ + e,
        SshStage::OpenTunnel => "failed to open jump-host tunnel: "@ + e,
        SshStage::ConnectOverTunnel => "failed to establish SSH session over jump host: "@ + e,
        SshStage::Connect => "failed to connect to "@ + config.host@ + ": "@ + e,
        SshStage::OpenChannel => "failed to open session channel: "@ + e,
        SshStage::RequestPty => "failed to request a PTY: "@ + e,
        SshStage::RequestShell => "failed to start a remote shell: "@ + e,
        _ => e,
    }
}

/// The terminal type asked for: `TERM` when set, else `xterm-256color`.
pub open spec fn pty_term(term: Option<String>) -> Seq<char> {
    match term {
        Some(t) => t@,
        None => "xterm-256color"@,
    }
}

/// The first step of a session: the jump host when one is configured (the
/// first of the chain), the target otherwise.
pub fn ssh_start(config: &SshConfig) -> (r: (SshStage, SshAction))
    ensures
        config.jump_hosts@.len() > 0 ==> {
            let j = config.jump_hosts@[0];
            &&& r.0 == SshStage::ConnectJump
            &&& r.1 matches SshAction::ConnectJump { host, port, label } && host@ == j.host@ && port == j.port
                && label@ == host_label_text(j.host@, j.port)
        },
        config.jump_hosts@.len() == 0 ==> {
            &&& r.0 == SshStage::Connect
            &&& r.1 matches SshAction::Connect { host, port, label, inactivity, keepalive } && host@
                == config.host@ && port == config.port && label@ == host_label_text(config.host@, config.port)
                && inactivity == nonzero(config.timeout) && keepalive == nonzero(config.keepalive_interval)
        },
{
    if config.jump_hosts.len() > 0 {
        let j = &config.jump_hosts[0];
        (
            SshStage::ConnectJump,
            SshAction::ConnectJump { host: j.host.clone(), port: j.port, label: host_label(j.host.as_str(), j.port) },
        )
    } else {
        (
            SshStage::Connect,
            SshAction::Connect {
                host: config.host.clone(),
                port: config.port,
                label: host_label(config.host.as_str(), config.port),
                inactivity: nonzero_exec(config.timeout),
                keepalive: nonzero_exec(config.keepalive_interval),
            },
        )
    }
}

/// `prefix` followed by `e`.
fn prefixed(prefix: &str, e: &str) -> (m: String)
    ensures
        m@ == prefix@ + e@,
{
    proof {
        broadcast use vstd::string::group_string_axioms;
    }
    let mut m = prefix.to_string();
    push_str_chars(&mut m, e);
    m
}

/// The next step of a session's start-up, given how the call of `stage`
/// went (`outcome`, with the call's error text on failure), the `TERM`
/// value and the pane's size. A failure at any stage ends start-up with
/// that stage's error; the shell starting ends it with success.
pub fn ssh_step(
    config: &SshConfig,
    stage: SshStage,
    outcome: Result<(), String>,
    term: Option<String>,
    cols: u16,
    rows: u16,
) -> (r: (SshStage, SshAction))
    requires
        stage == SshStage::ConnectJump ==> config.jump_hosts@.len() > 0,
    ensures
        stage == SshStage::Running || stage == SshStage::Failed ==> r.0 == stage && r.1 is Wait,
        stage != SshStage::Running && stage != SshStage::Failed && outcome is Err ==> {
            &&& r.0 == SshStage::Failed
            &&& r.1 matches SshAction::Report(Err(m)) && m@ == stage_failure_text(
                *config,
                stage,
                outcome->Err_0@,
            )
        },
        outcome is Ok ==> match stage {
            SshStage::ConnectJump => {
                let j = config.jump_hosts@[0];
                &&& r.0 == SshStage::AuthJump
                &&& r.1 matches SshAction::Authenticate { username, auth } && username@ == j.username@
                    && auth == j.auth
            },
            SshStage::AuthJump => {
                &&& r.0 == SshStage::OpenTunnel
                &&& r.1 matches SshAction::OpenDirectTcpip { host, port } && host@ == config.host@ && port
                    == config.port
            },
            SshStage::OpenTunnel => {
                &&& r.0 == SshStage::ConnectOverTunnel
                &&& r.1 matches SshAction::ConnectStream { label, inactivity, keepalive } && label@
                    == host_label_text(config.host@, config.port) && inactivity == nonzero(config.timeout)
                    && keepalive == nonzero(config.keepalive_interval)
            },
            SshStage::ConnectOverTunnel | SshStage::Connect => {
                &&& r.0 == SshStage::Authenticate
                &&& r.1 matches SshAction::Authenticate { username, auth } && username@ == config.username@
                    && auth == config.auth
            },
            SshStage::Authenticate => r.0 == SshStage::OpenChannel && r.1 is OpenSession,
            SshStage::OpenChannel => {
                &&& r.0 == SshStage::RequestPty
                &&& r.1 matches SshAction::RequestPty { term: t, cols: c, rows: w } && t@ == pty_term(term)
                    && c == cols && w == rows
            },
            SshStage::RequestPty => r.0 == SshStage::RequestShell && r.1 is RequestShell,
            SshStage::RequestShell => r.0 == SshStage::Running && r.1 matches SshAction::Report(Ok(())),
            _ => true,
        },
{
    proof {
        broadcast use vstd::string::group_string_axioms;
    }
    if stage == SshStage::Running || stage == SshStage::Failed {
        return (stage, SshAction::Wait);
    }
    match outcome {
        Err(e) => {
            let m = match stage {
                SshStage::ConnectJump => {
                    let host = config.jump_hosts[0].host.as_str();
                    let mut m = prefixed("failed to connect to jump host ", host);
                    push_str_chars(&mut m, ": ");
                    push_str_chars(&mut m, e.as_str());
                    m
                },
                SshStage::AuthJump => prefixed("jump host authentication failed: ", e.as_str()),
                SshStage::OpenTunnel => prefixed("failed to open jump-host tunnel: ", e.as_str()),
                SshStage::ConnectOverTunnel => prefixed(
                    "failed to establish SSH session over jump host: ",
                    e.as_str(),
                ),
                SshStage::Connect => {
                    let mut m = prefixed("failed to connect to ", config.host.as_str());
                    push_str_chars(&mut m, ": ");
                    push_str_chars(&mut m, e.as_str());
                    m
                },
                SshStage::OpenChannel => prefixed("failed to open session channel: ", e.as_str()),
                SshStage::RequestPty => prefixed("failed to request a PTY: ", e.as_str()),
                SshStage::RequestShell => prefixed("failed to start a remote shell: ", e.as_str()),
                _ => e,
            };
            (SshStage::Failed, SshAction::Report(Err(m)))
        },
        Ok(()) => match stage {
            SshStage::ConnectJump => {
                let j = &config.jump_hosts[0];
                (SshStage::AuthJump, SshAction::Authenticate { username: j.username.clone(), auth: copy_auth(&j.auth) })
            },
            SshStage::AuthJump => (
                SshStage::OpenTunnel,
                SshAction::OpenDirectTcpip { host: config.host.clone(), port: config.port },
            ),
            SshStage::OpenTunnel => (
                SshStage::ConnectOverTunnel,
                SshAction::ConnectStream {
                    label: host_label(config.host.as_str(), config.port),
                    inactivity: nonzero_exec(config.timeout),
                    keepalive: nonzero_exec(config.keepalive_interval),
                },
            ),
            SshStage::ConnectOverTunnel | SshStage::Connect => (
                SshStage::Authenticate,
                SshAction::Authenticate { username: config.username.clone(), auth: copy_auth(&config.auth) },
            ),
            SshStage::Authenticate => (SshStage::OpenChannel, SshAction::OpenSession),
            SshStage::OpenChannel => {
                let t = match term {
                    Some(t) => t,
                    None => "xterm-256color".to_string(),
                };
                (SshStage::RequestPty, SshAction::RequestPty { term: t, cols, rows })
            },
            SshStage::RequestPty => (SshStage::RequestShell, SshAction::RequestShell),
            _ => (SshStage::Running, SshAction::Report(Ok(()))),
        },
    }
}

/// What arrives on a running session's channel.
#[derive(Debug, Clone, PartialEq, Eq)]
pub enum ChannelEvent {
    Data(Vec<u8>),
    ExtendedData(Vec<u8>),
    ExitStatus,
    Close,
    /// The channel has nothing more to give.
    Ended,
    /// Anything else (window adjustments, EOF, requests).
    Other,
}

/// What the session loop does with a channel event.
#[derive(Debug, Clone, PartialEq, Eq)]
pub enum SshLoopAction {
    /// Hand these bytes to the pane.
    Forward(Vec<u8>),
    /// Report the session's end and stop.
    Exit,
    /// Keep waiting.
    Ignore,
}

/// Data and extended data (standard error) are both shown; an exit status,
/// a close or the channel's end finish the session; the rest is ignored.
pub fn ssh_channel_event(ev: ChannelEvent) -> (r: SshLoopAction)
    ensures
        match ev {
            ChannelEvent::Data(d) => r == SshLoopAction::Forward(d),
            ChannelEvent::ExtendedData(d) => r == SshLoopAction::Forward(d),
            ChannelEvent::ExitStatus | ChannelEvent::Close | ChannelEvent::Ended => r == SshLoopAction::Exit,
            ChannelEvent::Other => r == SshLoopAction::Ignore,
        },
{
    match ev {
        ChannelEvent::Data(d) => SshLoopAction::Forward(d),
        ChannelEvent::ExtendedData(d) => SshLoopAction::Forward(d),
        ChannelEvent::ExitStatus | ChannelEvent::Close | ChannelEvent::Ended => SshLoopAction::Exit,
        ChannelEvent::Other => SshLoopAction::Ignore,
    }
}

} // verus!
