use std::cell::RefCell;
use std::collections::HashMap;

use casterm::error::CastermError;
use casterm::known_hosts::{check_known_host, openssh_fields, verify_known_host};
use casterm::pane::check_pane_size;
use casterm::state::{PaneState, SessionState, StateManager, WindowState};
use casterm::terminal::TerminalSize;

const KNOWN: &str = "# comment line\n\
github.com,140.82.112.3 ssh-ed25519 AAAAgithub\n\
[box]:2222 ssh-rsa AAAAbox\n\
broken-line-without-key\n";

#[test]
fn known_host_lines_decide_by_host_type_and_key() {
    assert_eq!(check_known_host(KNOWN, "github.com", "ssh-ed25519", "AAAAgithub"), Some(true));
    assert_eq!(check_known_host(KNOWN, "140.82.112.3", "ssh-ed25519", "AAAAgithub"), Some(true));
    assert_eq!(check_known_host(KNOWN, "github.com", "ssh-ed25519", "AAAAother"), Some(false));
    assert_eq!(check_known_host(KNOWN, "[box]:2222", "ssh-ed25519", "AAAAbox"), Some(false));
    assert_eq!(check_known_host(KNOWN, "box", "ssh-rsa", "AAAAbox"), None);
    assert_eq!(check_known_host(KNOWN, "broken-line-without-key", "x", "y"), None);
    assert_eq!(check_known_host("", "github.com", "ssh-ed25519", "AAAAgithub"), None);
    assert_eq!(check_known_host("h\tssh-rsa\tK\r\n", "h", "ssh-rsa", "K"), Some(true));
}

#[test]
fn openssh_keys_split_at_the_first_space() {
    assert_eq!(openssh_fields("ssh-ed25519 AAAA key comment"), ("ssh-ed25519".to_string(), "AAAA key comment".to_string()));
    assert_eq!(openssh_fields("bare"), ("bare".to_string(), String::new()));
}

#[test]
fn unknown_hosts_are_recorded_and_then_checked() {
    let file = RefCell::new(String::from("a.example ssh-rsa AAAAa\n"));
    let record = |line: &str| {
        let mut f = file.borrow_mut();
        f.push_str(line);
        f.push('\n');
        Ok(())
    };
    let contents = Some(file.borrow().clone());
    assert_eq!(verify_known_host("b.example", "ssh-ed25519 AAAAb", contents, record), Ok(true));
    assert_eq!(*file.borrow(), "a.example ssh-rsa AAAAa\nb.example ssh-ed25519 AAAAb\n");
    let again = Some(file.borrow().clone());
    assert_eq!(verify_known_host("b.example", "ssh-ed25519 AAAAb", again.clone(), |_l: &str| Err("no".to_string())), Ok(true));
    assert_eq!(verify_known_host("b.example", "ssh-ed25519 AAAAz", again, |_l: &str| Ok(())), Ok(false));
    assert_eq!(
        verify_known_host("c.example", "ssh-ed25519 AAAAc", None, |_l: &str| Err("read-only".to_string())),
        Err("read-only".to_string())
    );
}

#[test]
fn spawn_pane_runtime_rejects_zero_size() {
    let zero_cols = TerminalSize { cols: 0, rows: 24 };
    let zero_rows = TerminalSize { cols: 80, rows: 0 };
    assert!(matches!(check_pane_size(zero_cols), Err(CastermError::Terminal(_))));
    assert!(matches!(check_pane_size(zero_rows), Err(CastermError::Terminal(_))));
    assert!(check_pane_size(TerminalSize { cols: 80, rows: 24 }).is_ok());
}

#[test]
fn spawn_ssh_pane_runtime_rejects_zero_size() {
    let zero = TerminalSize { cols: 0, rows: 0 };
    assert!(matches!(check_pane_size(zero), Err(CastermError::Terminal(_))));
}

#[test]
fn spawn_serial_pane_runtime_rejects_zero_size() {
    let zero_cols = TerminalSize { cols: 0, rows: 24 };
    assert!(matches!(check_pane_size(zero_cols), Err(CastermError::Terminal(_))));
}

fn work_session() -> SessionState {
    SessionState {
        name: "work".to_string(),
        created_at: 1000,
        last_attached: 2000,
        windows: vec![WindowState {
            name: "main".to_string(),
            index: 0,
            layout: "H0.5(S0|S1)".to_string(),
            panes: vec![
                PaneState { index: 0, cwd: Some("/tmp/one".to_string()), command: None },
                PaneState { index: 1, cwd: Some("/tmp/two".to_string()), command: Some("htop".to_string()) },
            ],
        }],
    }
}

#[test]
fn save_load_round_trip_preserves_window_pane_tree_and_cwd() {
    let disk: RefCell<HashMap<String, SessionState>> = RefCell::new(HashMap::new());
    let dir = "/tmp/casterm-state-test-round-trip".to_string();
    let mut manager = StateManager::with_dir(dir.clone());
    let state = work_session();
    manager
        .save_session(state.clone(), |p: &str, s: &SessionState| {
            disk.borrow_mut().insert(p.to_string(), s.clone());
            Ok(())
        })
        .expect("save succeeds");

    // A fresh manager over the same directory picks the session back up.
    let mut reloaded = StateManager::with_dir(dir.clone());
    for (path, s) in disk.borrow().iter() {
        if path.starts_with(&dir) && path.ends_with(".json") {
            reloaded.insert_loaded(s.clone());
        }
    }
    let loaded = reloaded.load_session("work").expect("saved session round-trips");

    assert_eq!(loaded.name, state.name);
    assert_eq!(loaded.last_attached, state.last_attached);
    assert_eq!(loaded.windows.len(), 1);
    assert_eq!(loaded.windows[0].layout, "H0.5(S0|S1)");
    assert_eq!(loaded.windows[0].panes.len(), 2);
    assert_eq!(loaded.windows[0].panes[0].cwd, Some("/tmp/one".to_string()));
    assert_eq!(loaded.windows[0].panes[1].command, Some("htop".to_string()));
}

#[test]
fn remove_session_deletes_from_disk_and_memory() {
    let disk: RefCell<HashMap<String, SessionState>> = RefCell::new(HashMap::new());
    let dir = "/tmp/casterm-state-test-remove".to_string();
    let mut manager = StateManager::with_dir(dir.clone());
    manager
        .save_session(
            SessionState { name: "scratch".to_string(), created_at: 0, last_attached: 0, windows: vec![] },
            |p: &str, s: &SessionState| {
                disk.borrow_mut().insert(p.to_string(), s.clone());
                Ok(())
            },
        )
        .expect("save succeeds");

    manager
        .remove_session("scratch", |p: &str| {
            disk.borrow_mut().remove(p);
            Ok(())
        })
        .expect("remove succeeds");
    assert!(manager.load_session("scratch").is_none());
    assert!(!disk.borrow().contains_key(&format!("{dir}/scratch.json")));
}
