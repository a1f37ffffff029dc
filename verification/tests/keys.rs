use casterm::controller::{action_for, browser_command, next_focus, route_key, BrowserCommand, KeyRoute, TuiAction};
use casterm::config::KeyBindingsConfig;
use casterm::keybindings::KeymapResolver;
use casterm::keys::{encode_key, encode_utf8, KeyCode, KeyEvent, KeyModifiers};
use casterm::multiplexer::PaneId;

#[test]
fn encode_key_basic_chars_and_control() {
    assert_eq!(encode_key(KeyEvent::new(KeyCode::Char('a'), KeyModifiers::none())), b"a".to_vec());
    assert_eq!(encode_key(KeyEvent::new(KeyCode::Char('c'), KeyModifiers::control())), vec![0x03]);
    assert_eq!(encode_key(KeyEvent::new(KeyCode::Enter, KeyModifiers::none())), vec![b'\r']);
    assert_eq!(encode_key(KeyEvent::new(KeyCode::Esc, KeyModifiers::none())), vec![0x1B]);
}

#[test]
fn encode_key_alt_prefixes_escape() {
    assert_eq!(encode_key(KeyEvent::new(KeyCode::Char('x'), KeyModifiers::alt())), vec![0x1B, b'x']);
}

#[test]
fn encode_key_arrow_and_function_keys() {
    assert_eq!(encode_key(KeyEvent::new(KeyCode::Up, KeyModifiers::none())), vec![0x1B, b'[', b'A']);
    assert_eq!(encode_key(KeyEvent::new(KeyCode::F(1), KeyModifiers::none())), vec![0x1B, b'O', b'P']);
}

#[test]
fn encode_key_control_punctuation_and_unicode() {
    assert_eq!(encode_key(KeyEvent::new(KeyCode::Char('@'), KeyModifiers::control())), vec![0x00]);
    assert_eq!(encode_key(KeyEvent::new(KeyCode::Char('['), KeyModifiers::control())), vec![0x1B]);
    assert_eq!(encode_key(KeyEvent::new(KeyCode::Char('C'), KeyModifiers::control())), vec![0x03]);
    assert_eq!(encode_key(KeyEvent::new(KeyCode::Char('é'), KeyModifiers::none())), "é".as_bytes().to_vec());
    assert_eq!(encode_key(KeyEvent::new(KeyCode::Char('€'), KeyModifiers::control())), "€".as_bytes().to_vec());
    assert_eq!(encode_key(KeyEvent::new(KeyCode::Tab, KeyModifiers::shift())), b"\x1b[Z".to_vec());
    assert_eq!(encode_key(KeyEvent::new(KeyCode::F(13), KeyModifiers::alt())), Vec::<u8>::new());
    assert_eq!(encode_key(KeyEvent::new(KeyCode::F(12), KeyModifiers::none())), b"\x1b[24~".to_vec());
    for c in ['a', 'ß', '中', '🦀'] {
        let mut buf = [0u8; 4];
        assert_eq!(encode_utf8(c), c.encode_utf8(&mut buf).as_bytes().to_vec());
    }
}

#[test]
fn routing_sends_plain_keys_and_swallows_mid_sequence() {
    let mut resolver = KeymapResolver::new(&KeyBindingsConfig::default(), "C-t");
    let a = KeyEvent::new(KeyCode::Char('a'), KeyModifiers::none());
    assert_eq!(route_key(&mut resolver, a, false, true), KeyRoute::Send(b"a".to_vec()));
    let prefix = KeyEvent::new(KeyCode::Char(' '), KeyModifiers::control());
    assert_eq!(route_key(&mut resolver, prefix, false, true), KeyRoute::Swallow);
    let z = KeyEvent::new(KeyCode::Char('z'), KeyModifiers::none());
    assert_eq!(route_key(&mut resolver, z, false, true), KeyRoute::Swallow);
    assert_eq!(route_key(&mut resolver, prefix, false, true), KeyRoute::Swallow);
    let x = KeyEvent::new(KeyCode::Char('x'), KeyModifiers::none());
    assert_eq!(route_key(&mut resolver, x, false, true), KeyRoute::Action("close-pane".to_string()));
    assert_eq!(route_key(&mut resolver, a, true, true), KeyRoute::ToBrowser);
    assert_eq!(route_key(&mut resolver, a, true, false), KeyRoute::ToEditor);
    let toggle = KeyEvent::new(KeyCode::Char('t'), KeyModifiers::control());
    assert_eq!(route_key(&mut resolver, toggle, true, false), KeyRoute::Action("toggle-file-browser".to_string()));
}

#[test]
fn action_names_map_to_front_end_actions() {
    assert_eq!(action_for("split-horizontal"), TuiAction::SplitHorizontal);
    assert_eq!(action_for("split-vertical"), TuiAction::SplitVertical);
    assert_eq!(action_for("detach"), TuiAction::Quit);
    assert_eq!(action_for("quit"), TuiAction::Quit);
    assert_eq!(action_for("send-literal-prefix"), TuiAction::SendLiteralPrefix);
    assert_eq!(action_for("copy-mode"), TuiAction::Ignored);
}

#[test]
fn browser_keys_map_to_commands() {
    assert_eq!(browser_command(KeyCode::Esc), BrowserCommand::Close);
    assert_eq!(browser_command(KeyCode::Char('k')), BrowserCommand::Move(-1));
    assert_eq!(browser_command(KeyCode::Down), BrowserCommand::Move(1));
    assert_eq!(browser_command(KeyCode::Char('l')), BrowserCommand::Open);
    assert_eq!(browser_command(KeyCode::Char('r')), BrowserCommand::Refresh);
    assert_eq!(browser_command(KeyCode::Char('q')), BrowserCommand::Nothing);
}

#[test]
fn focus_moves_to_next_pane_in_id_order() {
    let ids = vec![PaneId(3), PaneId(1), PaneId(7)];
    assert_eq!(next_focus(&ids, PaneId(1)), Some(PaneId(3)));
    assert_eq!(next_focus(&ids, PaneId(3)), Some(PaneId(7)));
    assert_eq!(next_focus(&ids, PaneId(7)), Some(PaneId(1)));
    assert_eq!(next_focus(&ids, PaneId(5)), Some(PaneId(3)));
    assert_eq!(next_focus(&vec![PaneId(1)], PaneId(1)), None);
}
