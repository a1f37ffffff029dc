use casterm::ssh::{
    ssh_channel_event, ssh_start, ssh_step, AuthMethod, ChannelEvent, ConnectionId, JumpHost, SshAction, SshConfig,
    SshLoopAction, SshStage,
};

fn target() -> SshConfig {
    let mut c = SshConfig::with_defaults(ConnectionId(1), "alice".to_string());
    c.host = "db.example".to_string();
    c.port = 2222;
    c.auth = AuthMethod::Password("pw".to_string());
    c
}

fn with_jump() -> SshConfig {
    let mut c = target();
    c.jump_hosts.push(JumpHost {
        host: "bastion".to_string(),
        port: 22,
        username: "ops".to_string(),
        auth: AuthMethod::Agent,
    });
    c
}

fn failure(config: &SshConfig, stage: SshStage) -> String {
    match ssh_step(config, stage, Err("boom".to_string()), None, 80, 24) {
        (SshStage::Failed, SshAction::Report(Err(m))) => m,
        other => panic!("unexpected {other:?}"),
    }
}

#[test]
fn direct_session_walks_every_stage_to_ready() {
    let c = target();
    let (stage, action) = ssh_start(&c);
    assert_eq!(stage, SshStage::Connect);
    match action {
        SshAction::Connect { host, port, label, inactivity, keepalive } => {
            assert_eq!(host, "db.example");
            assert_eq!(port, 2222);
            assert_eq!(label, "[db.example]:2222");
            assert_eq!(inactivity, Some(30));
            assert_eq!(keepalive, Some(60));
        }
        other => panic!("unexpected {other:?}"),
    }
    let (stage, action) = ssh_step(&c, stage, Ok(()), None, 80, 24);
    assert_eq!(stage, SshStage::Authenticate);
    match action {
        SshAction::Authenticate { username, auth: AuthMethod::Password(p) } => {
            assert_eq!(username, "alice");
            assert_eq!(p, "pw");
        }
        other => panic!("unexpected {other:?}"),
    }
    let (stage, action) = ssh_step(&c, stage, Ok(()), None, 80, 24);
    assert_eq!(stage, SshStage::OpenChannel);
    assert!(matches!(action, SshAction::OpenSession));
    let (stage, action) = ssh_step(&c, stage, Ok(()), Some("screen".to_string()), 100, 30);
    assert_eq!(stage, SshStage::RequestPty);
    match action {
        SshAction::RequestPty { term, cols, rows } => {
            assert_eq!(term, "screen");
            assert_eq!((cols, rows), (100, 30));
        }
        other => panic!("unexpected {other:?}"),
    }
    let (stage, action) = ssh_step(&c, stage, Ok(()), None, 80, 24);
    assert_eq!(stage, SshStage::RequestShell);
    assert!(matches!(action, SshAction::RequestShell));
    let (stage, action) = ssh_step(&c, stage, Ok(()), None, 80, 24);
    assert_eq!(stage, SshStage::Running);
    assert!(matches!(action, SshAction::Report(Ok(()))));
    let (stage, action) = ssh_step(&c, stage, Ok(()), None, 80, 24);
    assert_eq!(stage, SshStage::Running);
    assert!(matches!(action, SshAction::Wait));
}

#[test]
fn pty_defaults_to_xterm_256color() {
    match ssh_step(&target(), SshStage::OpenChannel, Ok(()), None, 80, 24).1 {
        SshAction::RequestPty { term, .. } => assert_eq!(term, "xterm-256color"),
        other => panic!("unexpected {other:?}"),
    }
}

#[test]
fn jump_host_session_tunnels_to_the_target() {
    let c = with_jump();
    let (stage, action) = ssh_start(&c);
    assert_eq!(stage, SshStage::ConnectJump);
    match action {
        SshAction::ConnectJump { host, port, label } => {
            assert_eq!((host.as_str(), port, label.as_str()), ("bastion", 22, "bastion"));
        }
        other => panic!("unexpected {other:?}"),
    }
    let (stage, action) = ssh_step(&c, stage, Ok(()), None, 80, 24);
    assert_eq!(stage, SshStage::AuthJump);
    assert!(matches!(action, SshAction::Authenticate { ref username, auth: AuthMethod::Agent } if username == "ops"));
    let (stage, action) = ssh_step(&c, stage, Ok(()), None, 80, 24);
    assert_eq!(stage, SshStage::OpenTunnel);
    assert!(matches!(action, SshAction::OpenDirectTcpip { ref host, port: 2222 } if host == "db.example"));
    let (stage, action) = ssh_step(&c, stage, Ok(()), None, 80, 24);
    assert_eq!(stage, SshStage::ConnectOverTunnel);
    assert!(matches!(action, SshAction::ConnectStream { ref label, .. } if label == "[db.example]:2222"));
    let (stage, action) = ssh_step(&c, stage, Ok(()), None, 80, 24);
    assert_eq!(stage, SshStage::Authenticate);
    assert!(matches!(action, SshAction::Authenticate { ref username, .. } if username == "alice"));
}

#[test]
fn each_stage_reports_its_own_failure() {
    let j = with_jump();
    assert_eq!(failure(&j, SshStage::ConnectJump), "failed to connect to jump host bastion: boom");
    assert_eq!(failure(&j, SshStage::AuthJump), "jump host authentication failed: boom");
    assert_eq!(failure(&j, SshStage::OpenTunnel), "failed to open jump-host tunnel: boom");
    assert_eq!(failure(&j, SshStage::ConnectOverTunnel), "failed to establish SSH session over jump host: boom");
    let c = target();
    assert_eq!(failure(&c, SshStage::Connect), "failed to connect to db.example: boom");
    assert_eq!(failure(&c, SshStage::Authenticate), "boom");
    assert_eq!(failure(&c, SshStage::OpenChannel), "failed to open session channel: boom");
    assert_eq!(failure(&c, SshStage::RequestPty), "failed to request a PTY: boom");
    assert_eq!(failure(&c, SshStage::RequestShell), "failed to start a remote shell: boom");
}

#[test]
fn disabled_timeouts_are_none() {
    let mut c = target();
    c.timeout = 0;
    c.keepalive_interval = 0;
    c.port = 22;
    match ssh_start(&c).1 {
        SshAction::Connect { label, inactivity, keepalive, .. } => {
            assert_eq!(label, "db.example");
            assert_eq!((inactivity, keepalive), (None, None));
        }
        other => panic!("unexpected {other:?}"),
    }
}

#[test]
fn channel_events_forward_data_and_end_on_exit() {
    assert_eq!(ssh_channel_event(ChannelEvent::Data(b"hi".to_vec())), SshLoopAction::Forward(b"hi".to_vec()));
    assert_eq!(ssh_channel_event(ChannelEvent::ExtendedData(b"err".to_vec())), SshLoopAction::Forward(b"err".to_vec()));
    assert_eq!(ssh_channel_event(ChannelEvent::ExitStatus), SshLoopAction::Exit);
    assert_eq!(ssh_channel_event(ChannelEvent::Close), SshLoopAction::Exit);
    assert_eq!(ssh_channel_event(ChannelEvent::Ended), SshLoopAction::Exit);
    assert_eq!(ssh_channel_event(ChannelEvent::Other), SshLoopAction::Ignore);
}
