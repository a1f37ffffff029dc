use casterm::file_browser::{arrange_children, classify_path, is_probably_text, DirListing, FileBrowserState, FileKind};

#[test]
fn classify_text_file() {
    assert_eq!(classify_path(false, Some("txt"), || Some(b"hello world\n".to_vec())), FileKind::Text);
}

#[test]
fn classify_image_by_extension() {
    assert_eq!(
        classify_path(false, Some("png"), || Some(vec![0x89, b'P', b'N', b'G', 0x0d, 0x0a, 0x1a, 0x0a])),
        FileKind::Image
    );
    assert_eq!(classify_path(false, Some("JPEG"), || None), FileKind::Image);
}

#[test]
fn classify_binary_as_other() {
    assert_eq!(classify_path(false, Some("bin"), || Some(vec![0u8, 1, 2, 3, 255, 254])), FileKind::Other);
}

#[test]
fn classify_directory() {
    assert_eq!(classify_path(true, None, || None), FileKind::Directory);
}

#[test]
fn unreadable_file_is_other_and_only_the_sample_is_sniffed() {
    assert_eq!(classify_path(false, None, || None), FileKind::Other);
    let mut big = vec![b'a'; 512];
    big.push(0);
    assert_eq!(classify_path(false, None, move || Some(big)), FileKind::Text);
    assert!(!is_probably_text(&[0xff, 0xfe]));
    assert!(is_probably_text("héllo".as_bytes()));
}

fn listings(dir: &str) -> Vec<DirListing> {
    vec![
        DirListing {
            dir: dir.to_string(),
            children: vec![
                (format!("{dir}/top.txt"), false),
                (format!("{dir}/sub"), true),
                (format!("{dir}/.hidden"), false),
            ],
        },
        DirListing { dir: format!("{dir}/sub"), children: vec![(format!("{dir}/sub/inner.txt"), false)] },
    ]
}

#[test]
fn expand_collapse_updates_visible_entries() {
    let dir = "/tmp/browse";
    let ls = listings(dir);
    let mut state = FileBrowserState::new(dir.to_string(), false, &ls);
    assert_eq!(state.entries().len(), 2);

    assert_eq!(state.selected_index(), 0);
    assert!(state.selected_entry().unwrap().is_dir);
    state.toggle_selected(&ls);
    assert_eq!(state.entries().len(), 3);
    assert_eq!(state.entries()[1].path, "/tmp/browse/sub/inner.txt");
    assert_eq!(state.entries()[1].depth, 1);

    state.toggle_selected(&ls);
    assert_eq!(state.entries().len(), 2);
}

#[test]
fn move_selection_clamps_to_bounds() {
    let dir = "/tmp/clamp";
    let ls = vec![DirListing {
        dir: dir.to_string(),
        children: vec![(format!("{dir}/a.txt"), false), (format!("{dir}/b.txt"), false)],
    }];
    let mut state = FileBrowserState::new(dir.to_string(), false, &ls);

    state.move_selection(-5);
    assert_eq!(state.selected_index(), 0);
    state.move_selection(5);
    assert_eq!(state.selected_index(), state.entries().len() - 1);
}

#[test]
fn directories_sort_first_then_by_name_and_hidden_files_can_show() {
    let children = vec![
        ("/d/zeta".to_string(), false),
        ("/d/beta".to_string(), true),
        ("/d/.dot".to_string(), false),
        ("/d/alpha".to_string(), false),
        ("/d/gamma".to_string(), true),
    ];
    let shown = arrange_children(&children, false);
    let names: Vec<&str> = shown.iter().map(|(p, _)| p.as_str()).collect();
    assert_eq!(names, vec!["/d/beta", "/d/gamma", "/d/alpha", "/d/zeta"]);
    let all = arrange_children(&children, true);
    assert_eq!(all.len(), 5);
    assert_eq!(all[2].0, "/d/.dot");
}

#[test]
fn refresh_keeps_selection_on_a_row() {
    let dir = "/tmp/refresh";
    let ls = listings(dir);
    let mut state = FileBrowserState::new(dir.to_string(), false, &ls);
    state.move_selection(1);
    assert_eq!(state.selected_index(), 1);
    let fewer = vec![DirListing { dir: dir.to_string(), children: vec![(format!("{dir}/only"), false)] }];
    state.refresh(&fewer);
    assert_eq!(state.entries().len(), 1);
    assert_eq!(state.selected_index(), 0);
    assert!(state.is_expanded(dir));
    assert_eq!(state.directories_to_list(), vec![dir.to_string(), dir.to_string()]);
}

#[test]
fn refresh_keeps_a_selection_that_still_fits() {
    let dir = "/tmp/refresh_fits";
    let ls = listings(dir);
    let mut state = FileBrowserState::new(dir.to_string(), true, &ls);
    let rows = state.entries().len();
    assert!(rows >= 3);
    state.move_selection(2);
    state.refresh(&ls);
    assert_eq!(state.selected_index(), 2);
    let empty = vec![DirListing { dir: dir.to_string(), children: Vec::new() }];
    state.refresh(&empty);
    assert_eq!(state.entries().len(), 0);
    assert_eq!(state.selected_index(), 0);
}

#[test]
fn root_stays_expanded_while_directories_toggle() {
    let dir = "/tmp/root_law";
    let ls = listings(dir);
    let mut state = FileBrowserState::new(dir.to_string(), false, &ls);
    for i in 0..state.entries().len() {
        state.move_selection(i as isize - state.selected_index() as isize);
        state.toggle_selected(&ls);
        assert!(state.is_expanded(dir));
        state.toggle_selected(&ls);
        assert!(state.is_expanded(dir));
        state.refresh(&ls);
        assert!(state.is_expanded(dir));
    }
    let sub = format!("{dir}/sub");
    let at = state.entries().iter().position(|e| e.path == sub).unwrap();
    state.move_selection(at as isize - state.selected_index() as isize);
    let before = state.is_expanded(&sub);
    state.toggle_selected(&ls);
    assert_eq!(state.is_expanded(&sub), !before);
}
