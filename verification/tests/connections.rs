use casterm::error::CastermError;
use casterm::ids::IdSource;
use casterm::ssh::{auth_result, auth_step, host_label, pick_username, session_timeouts, AuthMethod, AuthStep, ConnectionId, SshConfig, SshManager};

fn config(id: u64, name: &str, host: &str, port: u16) -> SshConfig {
    let mut c = SshConfig::with_defaults(ConnectionId(id), "alice".to_string());
    c.name = name.to_string();
    c.host = host.to_string();
    c.port = port;
    c
}

#[test]
fn ssh_defaults_match_documented_values() {
    let c = SshConfig::with_defaults(ConnectionId(4), "bob".to_string());
    assert_eq!(c.port, 22);
    assert!(matches!(c.auth, AuthMethod::Agent));
    assert!(c.agent_forwarding && !c.x11_forwarding);
    assert_eq!((c.keepalive_interval, c.timeout, c.reconnect_attempts, c.reconnect_delay), (60, 30, 3, 5));
    assert_eq!(ConnectionId(4).label(), "ssh-4");
}

#[test]
fn connection_ids_come_in_order() {
    let mut ids = IdSource::new();
    assert_eq!(ConnectionId::next(&mut ids), ConnectionId(1));
    assert_eq!(ConnectionId::next(&mut ids), ConnectionId(2));
}

#[test]
fn ssh_validation_reports_the_first_missing_field() {
    let mut c = config(1, "x", "", 22);
    match SshManager::validate(&c) {
        Err(CastermError::Config(m)) => assert_eq!(m, "SSH host cannot be empty"),
        _ => panic!(),
    }
    c.host = "example.org".to_string();
    c.username = String::new();
    match SshManager::validate(&c) {
        Err(CastermError::Config(m)) => assert_eq!(m, "SSH username cannot be empty"),
        _ => panic!(),
    }
    c.username = "alice".to_string();
    c.port = 0;
    match SshManager::validate(&c) {
        Err(CastermError::Config(m)) => assert_eq!(m, "SSH port must be non-zero"),
        _ => panic!(),
    }
    c.port = 2222;
    assert!(SshManager::validate(&c).is_ok());
}

#[test]
fn connection_urls_and_known_host_labels() {
    assert_eq!(SshManager::connection_url(&config(1, "a", "h.example", 22)), "alice@h.example");
    assert_eq!(SshManager::connection_url(&config(1, "a", "h.example", 2222)), "alice@h.example:2222");
    assert_eq!(host_label("h.example", 22), "h.example");
    assert_eq!(host_label("h.example", 2022), "[h.example]:2022");
}

#[test]
fn host_directory_adds_finds_and_removes() {
    let mut m = SshManager::new();
    m.add(config(1, "web", "w", 22));
    m.add(config(2, "db", "d", 22));
    m.add(config(1, "web-again", "w2", 22));
    assert_eq!(m.list().len(), 3);
    assert_eq!(m.get(ConnectionId(1)).unwrap().config.name, "web");
    assert_eq!(m.find_by_name("db").unwrap().config.id, ConnectionId(2));
    m.get_mut(ConnectionId(2)).unwrap().error = Some("x".to_string());
    assert_eq!(m.get(ConnectionId(2)).unwrap().error, Some("x".to_string()));
    m.remove(ConnectionId(1));
    assert_eq!(m.list().len(), 1);
    assert!(m.get(ConnectionId(1)).is_none());
    assert!(m.find_by_name("nope").is_none());
}

#[test]
fn username_falls_back_in_order() {
    assert_eq!(pick_username(None, Some("u2".to_string()), Some("u3".to_string())), "u2");
    assert_eq!(pick_username(None, None, None), "user");
}

#[test]
fn authentication_steps_and_outcomes() {
    assert_eq!(auth_step(&AuthMethod::Password("pw".to_string())), Ok(AuthStep::Password("pw".to_string())));
    assert_eq!(auth_step(&AuthMethod::PublicKey("/k/id".to_string())), Ok(AuthStep::KeyFile("/k/id".to_string())));
    assert_eq!(auth_step(&AuthMethod::Agent), Ok(AuthStep::Agent));
    assert_eq!(
        auth_step(&AuthMethod::KeyboardInteractive),
        Err(CastermError::Ssh("keyboard-interactive authentication is not yet supported".to_string()))
    );
    assert_eq!(
        auth_step(&AuthMethod::Gssapi),
        Err(CastermError::Ssh("GSSAPI authentication is not yet supported".to_string()))
    );
    assert_eq!(auth_result(true, "ann"), Ok(()));
    assert_eq!(auth_result(false, "ann"), Err(CastermError::Ssh("authentication failed for ann".to_string())));
}

#[test]
fn session_timeouts_are_off_at_zero() {
    let mut c = config(1, "box", "box.example", 22);
    c.timeout = 0;
    c.keepalive_interval = 15;
    assert_eq!(session_timeouts(&c), (None, Some(15)));
    c.timeout = 30;
    c.keepalive_interval = 0;
    assert_eq!(session_timeouts(&c), (Some(30), None));
}
