use casterm::config::{
    config_paths_from, join_path, BehaviorConfig, CloseOnExit, ConnectionsConfig, CursorConfig, CursorShape,
    LoggingConfig, MultiplexerConfig, StatusBarConfig, StatusBarPosition, UpdateChannel, UpdatesConfig,
};
use casterm::error::CastermError;
use casterm::state::{HistoryState, SessionState, StateManager, WindowState};

fn session(name: &str, attached: i64) -> SessionState {
    SessionState { name: name.to_string(), created_at: 1000, last_attached: attached, windows: Vec::<WindowState>::new() }
}

#[test]
fn history_dedups_and_trims() {
    let mut h = HistoryState::new(3);
    for c in ["ls", "cd /", "ls", "make", "git"] {
        h.add(c.to_string());
    }
    assert_eq!(h.commands, vec!["ls".to_string(), "make".to_string(), "git".to_string()]);
    assert_eq!(h.search("g"), vec!["git".to_string()]);
    let mut z = HistoryState::new(0);
    z.add("x".to_string());
    assert!(z.commands.is_empty());
}

#[test]
fn history_search_is_most_recent_first() {
    let mut h = HistoryState::new(10);
    for c in ["git status", "ls", "git log"] {
        h.add(c.to_string());
    }
    assert_eq!(h.search("git"), vec!["git log".to_string(), "git status".to_string()]);
    assert_eq!(h.search("").len(), 3);
}

#[test]
fn sessions_are_saved_through_the_writer_and_looked_up_by_name() {
    let mut m = StateManager::with_dir("/state".to_string());
    let mut seen = String::new();
    m.save_session(session("work", 2000), |p: &str, _s: &SessionState| {
        seen = p.to_string();
        Ok(())
    })
    .unwrap();
    assert_eq!(seen, "/state/work.json");
    assert_eq!(m.load_session("work").unwrap().last_attached, 2000);
    m.save_session(session("work", 3000), |_p: &str, _s: &SessionState| Ok(())).unwrap();
    assert_eq!(m.list_sessions().len(), 1);
    assert_eq!(m.load_session("work").unwrap().last_attached, 3000);
    let failed = m.save_session(session("other", 1), |_p: &str, _s: &SessionState| Err("disk full".to_string()));
    assert_eq!(failed, Err(CastermError::Io("disk full".to_string())));
    assert!(m.load_session("other").is_none());
}

#[test]
fn removing_a_session_forgets_it() {
    let mut m = StateManager::with_dir("/state".to_string());
    m.insert_loaded(session("scratch", 0));
    let mut removed = String::new();
    m.remove_session("scratch", |p: &str| {
        removed = p.to_string();
        Ok(())
    })
    .unwrap();
    assert_eq!(removed, "/state/scratch.json");
    assert!(m.load_session("scratch").is_none());
}

#[test]
fn configuration_defaults() {
    let c = CursorConfig::default();
    assert_eq!(c.shape, CursorShape::IBeam);
    assert_eq!(c.blink_interval, 530);
    assert_eq!(c.color, "#008080");
    let b = BehaviorConfig::default();
    assert_eq!(b.scrollback_lines, 10000);
    assert_eq!(b.close_on_exit, CloseOnExit::OnCleanExit);
    assert_eq!(MultiplexerConfig::default().prefix_key, "Ctrl+Space");
    let s = StatusBarConfig::default();
    assert_eq!(s.position, StatusBarPosition::Bottom);
    assert_eq!(s.right, vec!["git_branch".to_string(), "hostname".to_string(), "time".to_string()]);
    assert_eq!(ConnectionsConfig::default().default_ssh_port, 22);
    assert_eq!(UpdatesConfig::default().channel, UpdateChannel::Stable);
    let l = LoggingConfig::with_directory("/logs".to_string());
    assert_eq!(l.log_filename_pattern, "%Y%m%d-%H%M%S-{session}.log");
}

#[test]
fn paths_join_like_pathbuf() {
    assert_eq!(join_path("/home/u", "casapps/casterm"), "/home/u/casapps/casterm");
    assert_eq!(join_path("/home/u/", "x"), "/home/u/x");
    assert_eq!(join_path("", "x"), "x");
    let paths = config_paths_from(Some("/cfg".to_string()), None);
    assert_eq!(
        paths,
        vec![
            "/cfg/casapps/casterm/config.yml".to_string(),
            "/cfg/casapps/casterm/config.yaml".to_string(),
            ".casterm.yml".to_string(),
            "casterm.yml".to_string(),
        ]
    );
}
