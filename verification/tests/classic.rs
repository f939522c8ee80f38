use ttree::classic::{encode_key, handle_key, preview_args, AppState, KeyEffect, Session};
use ttree::input::{KeyCode, KeyEvent, KeyModifiers};
use ttree::state::{NavMode, Pane, Window};

fn st() -> AppState {
    let mut st = AppState::default();
    st.sessions.insert("$0".into(), Session { id: "$0".into(), name: "a".into(), windows: vec!["@0".into(), "@1".into()], expanded: true });
    st.sessions.insert("$1".into(), Session { id: "$1".into(), name: "b".into(), windows: vec!["@2".into()], expanded: false });
    for (wid, sid, panes, exp) in [("@0", "$0", vec!["%0", "%1"], true), ("@1", "$0", vec!["%2"], false), ("@2", "$1", vec!["%3"], false)] {
        st.windows.insert(
            wid.into(),
            Window { id: wid.into(), session_id: sid.into(), name: "w".into(), panes: panes.iter().map(|p| p.to_string()).collect(), active: false, width: 80, height: 24, expanded: exp },
        );
        for p in panes {
            st.panes.insert(p.into(), Pane { id: p.into(), window_id: wid.into(), title: "".into(), current_command: "".into(), active: false, region: None });
        }
    }
    st
}

#[test]
fn each_level_lists_its_own_ids() {
    let s = st();
    assert_eq!(s.get_flat_list(&NavMode::Session), vec!["$0", "$1"]);
    assert_eq!(s.get_flat_list(&NavMode::Window), vec!["@0", "@1"]);
    assert_eq!(s.get_flat_list(&NavMode::Pane), vec!["%0", "%1"]);
    assert_eq!(s.get_visible_list(), vec!["$0", "@0", "%0", "%1", "@1", "$1"]);
}

#[test]
fn moves_stop_at_the_ends() {
    let mut s = st();
    s.focus.nav_mode = NavMode::Session;
    s.move_selection_up();
    assert_eq!(s.focus.selected_id.as_deref(), Some("$1"));
    s.move_selection_down();
    assert_eq!(s.focus.selected_id.as_deref(), Some("$1"));
    s.move_selection_up();
    s.move_selection_up();
    assert_eq!(s.focus.selected_id.as_deref(), Some("$0"));
    s.focus.selected_id = Some("%9".into());
    s.move_selection_down();
    assert_eq!(s.focus.selected_id.as_deref(), Some("$0"));
}

#[test]
fn levels_change_and_uncover_the_selection() {
    let mut s = st();
    s.focus.nav_mode = NavMode::Session;
    s.focus.selected_id = Some("$1".into());
    s.switch_nav_right();
    assert_eq!(s.focus.nav_mode, NavMode::Window);
    assert_eq!(s.focus.selected_id.as_deref(), Some("@2"));
    // The window's session was collapsed; it is now expanded.
    assert_eq!(s.get_flat_list(&NavMode::Window), vec!["@0", "@1", "@2"]);
    s.switch_nav_right();
    assert_eq!(s.focus.nav_mode, NavMode::Pane);
    assert_eq!(s.focus.selected_id.as_deref(), Some("%3"));
    assert!(s.get_flat_list(&NavMode::Pane).contains(&"%3".to_string()));
    s.switch_nav_right();
    assert_eq!(s.focus.nav_mode, NavMode::Pane);
    s.switch_nav_left();
    assert_eq!(s.focus.selected_id.as_deref(), Some("@2"));
    s.switch_nav_left();
    assert_eq!(s.focus.selected_id.as_deref(), Some("$1"));
    assert_eq!(s.focus.nav_mode, NavMode::Session);
}

#[test]
fn toggling_flips_sessions_and_windows() {
    let mut s = st();
    s.focus.selected_id = Some("@1".into());
    s.toggle_expansion();
    assert_eq!(s.get_visible_list(), vec!["$0", "@0", "%0", "%1", "@1", "%2", "$1"]);
    s.focus.selected_id = Some("$0".into());
    s.toggle_expansion();
    assert_eq!(s.get_visible_list(), vec!["$0", "$1"]);
}

#[test]
fn scrolling_and_persistence() {
    let mut s = st();
    s.focus.selected_id = Some("$1".into());
    s.update_scroll(2);
    assert_eq!(s.focus.scroll_offset, 4);
    let p = s.persistent_state();
    assert_eq!(p.expanded_ids, vec!["$0", "@0"]);
    let back = AppState::from_persistent(Some(p));
    assert_eq!(back.focus.selected_id.as_deref(), Some("$1"));
}

fn lines(v: &[&str]) -> Vec<String> {
    v.iter().map(|s| s.to_string()).collect()
}

#[test]
fn sync_rebuilds_the_tree_and_keeps_expansion() {
    let mut s = AppState::default();
    let sessions = lines(&["$0\u{1f}main", "$1\u{1f}side", "junk"]);
    let windows = lines(&["@0\u{1f}$0\u{1f}w0\u{1f}1\u{1f}80\u{1f}24", "@1\u{1f}$1\u{1f}w1\u{1f}0\u{1f}x\u{1f}30"]);
    let panes = lines(&[
        "%0\u{1f}@0\u{1f}t\u{1f}vim\u{1f}1\u{1f}0\u{1f}0\u{1f}80\u{1f}24",
        "%1\u{1f}@1\u{1f}t\u{1f}sh\u{1f}0\u{1f}0\u{1f}0\u{1f}40\u{1f}30",
    ]);
    assert!(s.sync_state(&sessions, &windows, &panes));
    // Nothing was expanded, so everything is.
    assert_eq!(s.get_visible_list(), vec!["$0", "@0", "%0", "$1", "@1", "%1"]);
    assert_eq!(s.focus.selected_id.as_deref(), Some("$0"));
    assert_eq!(s.windows.get("@1").unwrap().width, 80);
    assert_eq!(s.windows.get("@1").unwrap().height, 30);

    s.focus.selected_id = Some("$1".into());
    s.toggle_expansion();
    assert!(!s.sync_state(&sessions, &windows, &panes));
    assert_eq!(s.get_visible_list(), vec!["$0", "@0", "%0", "$1"]);

    s.focus.selected_id = Some("%gone".into());
    s.sync_state(&sessions, &windows, &panes);
    assert_eq!(s.focus.selected_id.as_deref(), Some("$0"));
}

#[test]
fn keys_in_the_old_layout() {
    let k = |c, m| KeyEvent::new(c, m);
    assert_eq!(encode_key(&k(KeyCode::Char('a'), KeyModifiers::control())), vec![1]);
    assert_eq!(encode_key(&k(KeyCode::Char('A'), KeyModifiers::control())), vec![1]);
    assert_eq!(encode_key(&k(KeyCode::Char('?'), KeyModifiers::control())), Vec::<u8>::new());
    assert_eq!(encode_key(&k(KeyCode::Char('x'), KeyModifiers::alt())), b"\x1bx".to_vec());
    assert_eq!(encode_key(&k(KeyCode::Up, KeyModifiers::control())), b"\x1b[A".to_vec());
    assert_eq!(encode_key(&k(KeyCode::F(5), KeyModifiers::shift())), b"\x1b[15~".to_vec());

    let mut s = st();
    s.focus.selected_id = Some("@0".into());
    match handle_key(&mut s, &k(KeyCode::Enter, KeyModifiers::none()), false) {
        KeyEffect::Attach(t) => assert_eq!(t, "@0"),
        other => panic!("unexpected {:?}", other),
    }
    handle_key(&mut s, &k(KeyCode::Char('p'), KeyModifiers::control()), false);
    match handle_key(&mut s, &k(KeyCode::Char('z'), KeyModifiers::none()), true) {
        KeyEffect::Send(b) => assert_eq!(b, b"z".to_vec()),
        other => panic!("unexpected {:?}", other),
    }
    handle_key(&mut s, &k(KeyCode::Char('p'), KeyModifiers::control()), false);
    assert!(matches!(handle_key(&mut s, &k(KeyCode::Char('q'), KeyModifiers::none()), false), KeyEffect::Quit));

    assert_eq!(s.attach_args("%1"), vec!["select-pane", "-t", "%1", ";", "attach-session", "-t", "$0"]);
    assert_eq!(s.attach_args("@2"), vec!["attach-session", "-t", "$1"]);
    assert_eq!(preview_args("%3"), vec!["select-pane", "-t", "%3", ";", "attach-session", "-t", "%3"]);
    assert_eq!(preview_args("$1"), vec!["attach", "-t", "$1"]);
}
