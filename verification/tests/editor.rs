use casterm::editor::{dispatch_editor_key, EditorKeyOutcome, EditorState, FileRead};
use casterm::keys::KeyCode;

fn no_write(_path: &str, _text: &str) -> Result<(), String> {
    Ok(())
}

fn temp_editor(name: &str) -> EditorState {
    EditorState::load(name.to_string(), FileRead::NotFound).unwrap()
}

#[test]
fn load_missing_file_starts_empty() {
    let state = EditorState::load("missing.txt".to_string(), FileRead::NotFound).unwrap();
    assert_eq!(state.lines(), vec![String::new()]);
    assert!(!state.dirty());
}

#[test]
fn insert_and_save_round_trip() {
    let mut state = temp_editor("roundtrip.txt");
    for ch in "hello".chars() {
        state.insert_char(ch);
    }
    state.newline();
    for ch in "world".chars() {
        state.insert_char(ch);
    }
    assert!(state.dirty());
    let mut written: Option<(String, String)> = None;
    state
        .save(|p: &str, t: &str| {
            written = Some((p.to_string(), t.to_string()));
            Ok(())
        })
        .unwrap();
    assert!(!state.dirty());
    let (path, on_disk) = written.unwrap();
    assert_eq!(path, "roundtrip.txt");
    assert_eq!(on_disk, "hello\nworld\n");
}

#[test]
fn backspace_joins_previous_line() {
    let mut state = temp_editor("backspace.txt");
    for ch in "ab".chars() {
        state.insert_char(ch);
    }
    state.newline();
    for ch in "cd".chars() {
        state.insert_char(ch);
    }
    state.move_cursor(0, -2);
    state.backspace();
    assert_eq!(state.lines(), vec!["abcd".to_string()]);
    assert_eq!(state.cursor(), (0, 2));
}

#[test]
fn delete_forward_joins_next_line() {
    let mut state = temp_editor("delete.txt");
    state.insert_char('a');
    state.newline();
    state.insert_char('b');
    state.move_cursor(-1, 0);
    state.move_end();
    state.delete_forward();
    assert_eq!(state.lines(), vec!["ab".to_string()]);
}

#[test]
fn move_cursor_clamps_to_bounds() {
    let mut state = temp_editor("clamp.txt");
    state.move_cursor(-10, -10);
    assert_eq!(state.cursor(), (0, 0));
    state.move_cursor(10, 10);
    assert_eq!(state.cursor(), (0, 0));
}

#[test]
fn ctrl_s_saves_and_reports_success() {
    let mut editor = temp_editor("dispatch-save.txt");
    editor.insert_char('x');
    let outcome = dispatch_editor_key(&mut editor, KeyCode::Char('s'), true, no_write);
    assert_eq!(outcome, EditorKeyOutcome::Saved(Ok(())));
    assert!(!editor.dirty());
}

#[test]
fn ctrl_x_exits() {
    let mut editor = temp_editor("dispatch-exit.txt");
    let outcome = dispatch_editor_key(&mut editor, KeyCode::Char('x'), true, no_write);
    assert_eq!(outcome, EditorKeyOutcome::Exit);
}

#[test]
fn plain_char_falls_through_to_insert() {
    let mut editor = temp_editor("dispatch-insert.txt");
    let outcome = dispatch_editor_key(&mut editor, KeyCode::Char('a'), false, no_write);
    assert_eq!(outcome, EditorKeyOutcome::Handled);
    assert_eq!(editor.lines(), vec!["a".to_string()]);
}

#[test]
fn ctrl_char_other_than_s_or_x_falls_through_to_insert() {
    let mut editor = temp_editor("dispatch-ctrl-other.txt");
    let outcome = dispatch_editor_key(&mut editor, KeyCode::Char('q'), true, no_write);
    assert_eq!(outcome, EditorKeyOutcome::Handled);
    assert_eq!(editor.lines(), vec!["q".to_string()]);
}

#[test]
fn enter_maps_to_newline() {
    let mut editor = temp_editor("dispatch-newline.txt");
    editor.insert_char('a');
    let outcome = dispatch_editor_key(&mut editor, KeyCode::Enter, false, no_write);
    assert_eq!(outcome, EditorKeyOutcome::Handled);
    assert_eq!(editor.lines(), vec!["a".to_string(), String::new()]);
}

#[test]
fn backspace_maps_to_backspace() {
    let mut editor = temp_editor("dispatch-backspace.txt");
    editor.insert_char('a');
    let outcome = dispatch_editor_key(&mut editor, KeyCode::Backspace, false, no_write);
    assert_eq!(outcome, EditorKeyOutcome::Handled);
    assert_eq!(editor.lines(), vec![String::new()]);
}

#[test]
fn arrow_and_home_end_map_to_cursor_movement() {
    let mut editor = temp_editor("dispatch-move.txt");
    for ch in "ab".chars() {
        editor.insert_char(ch);
    }
    dispatch_editor_key(&mut editor, KeyCode::Home, false, no_write);
    assert_eq!(editor.cursor(), (0, 0));
    dispatch_editor_key(&mut editor, KeyCode::End, false, no_write);
    assert_eq!(editor.cursor(), (0, 2));
    dispatch_editor_key(&mut editor, KeyCode::Left, false, no_write);
    assert_eq!(editor.cursor(), (0, 1));
    dispatch_editor_key(&mut editor, KeyCode::Right, false, no_write);
    assert_eq!(editor.cursor(), (0, 2));
}

#[test]
fn unmapped_key_is_a_no_op() {
    let mut editor = temp_editor("dispatch-unmapped.txt");
    let outcome = dispatch_editor_key(&mut editor, KeyCode::F(5), false, no_write);
    assert_eq!(outcome, EditorKeyOutcome::Handled);
    assert_eq!(editor.lines(), vec![String::new()]);
}

#[test]
fn failed_save_reports_io_error_and_stays_dirty() {
    let mut editor = temp_editor("readonly.txt");
    editor.insert_char('z');
    let outcome = dispatch_editor_key(&mut editor, KeyCode::Char('s'), true, |_p: &str, _t: &str| {
        Err("permission denied".to_string())
    });
    assert_eq!(outcome, EditorKeyOutcome::Saved(Err("IO error: permission denied".to_string())));
    assert!(editor.dirty());
}

#[test]
fn load_splits_text_into_lines_and_reports_read_errors() {
    let e = EditorState::load("a.txt".to_string(), FileRead::Contents("one\ntwo\n".to_string())).unwrap();
    assert_eq!(e.lines(), vec!["one".to_string(), "two".to_string(), String::new()]);
    assert_eq!(e.path(), "a.txt");
    let empty = EditorState::load("b.txt".to_string(), FileRead::Contents(String::new())).unwrap();
    assert_eq!(empty.lines(), vec![String::new()]);
    match EditorState::load("c.txt".to_string(), FileRead::Failed("denied".to_string())) {
        Err(casterm::error::CastermError::Io(m)) => assert_eq!(m, "denied"),
        _ => panic!("expected an I/O error"),
    }
}

#[test]
fn backspace_undoes_insert_on_concrete_buffer() {
    let mut e = EditorState::load("u.txt".to_string(), FileRead::Contents("héllo".to_string())).unwrap();
    e.move_cursor(0, 2);
    e.insert_char('X');
    assert_eq!(e.lines(), vec!["héXllo".to_string()]);
    e.backspace();
    assert_eq!(e.lines(), vec!["héllo".to_string()]);
    assert_eq!(e.cursor(), (0, 2));
    e.newline();
    assert_eq!(e.lines(), vec!["hé".to_string(), "llo".to_string()]);
    e.backspace();
    assert_eq!(e.lines(), vec!["héllo".to_string()]);
    assert_eq!(e.cursor(), (0, 2));
}

#[test]
fn tab_inserts_a_tab_and_contents_end_with_newline() {
    let mut e = temp_editor("t.txt");
    dispatch_editor_key(&mut e, KeyCode::Tab, false, no_write);
    assert_eq!(e.lines(), vec!["\t".to_string()]);
    assert_eq!(e.contents(), "\t\n");
}

#[test]
fn dirty_follows_edits_since_the_last_save() {
    let mut state = temp_editor("dirty.txt");
    assert!(!state.dirty());
    state.backspace();
    state.delete_forward();
    state.move_cursor(1, 1);
    state.move_home();
    state.move_end();
    assert!(!state.dirty());
    state.insert_char('x');
    assert!(state.dirty());
    state.save(no_write).unwrap();
    assert!(!state.dirty());
    state.move_home();
    state.delete_forward();
    assert!(state.dirty());
    assert_eq!(state.lines(), vec![String::new()]);
    let _ = state.save(|_p: &str, _t: &str| Err("disk full".to_string()));
    assert!(state.dirty());
    state.save(no_write).unwrap();
    state.newline();
    assert!(state.dirty());
    let (r, c) = state.cursor();
    assert!(r < state.lines().len());
    assert!(c <= state.lines()[r].chars().count());
}

#[test]
fn key_runs_keep_the_cursor_valid_and_track_unsaved_edits() {
    let mut state = temp_editor("keys.txt");
    let keys = [
        (KeyCode::Char('a'), false),
        (KeyCode::Enter, false),
        (KeyCode::Up, false),
        (KeyCode::End, false),
        (KeyCode::Delete, false),
        (KeyCode::Char('s'), true),
        (KeyCode::Right, false),
        (KeyCode::Home, false),
        (KeyCode::Backspace, false),
        (KeyCode::Char('x'), true),
        (KeyCode::F(2), false),
    ];
    for (code, ctrl) in keys {
        let _ = dispatch_editor_key(&mut state, code, ctrl, no_write);
        let (r, c) = state.cursor();
        assert!(r < state.lines().len());
        assert!(c <= state.lines()[r].chars().count());
    }
    assert!(!state.dirty());
    let _ = dispatch_editor_key(&mut state, KeyCode::Tab, false, no_write);
    assert!(state.dirty());
    assert_eq!(state.lines(), vec!["\ta".to_string()]);
}
