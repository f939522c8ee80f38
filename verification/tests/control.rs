use ttree::control::{handle_key, handle_mouse, handle_paste, KeyEffect};
use ttree::input::{
    KeyCode, KeyEvent, KeyModifiers, MouseButton, MouseEvent, MouseEventKind, MouseProtocolMode, Prefix,
};
use ttree::preview::{
    attach_args, follow_client, mirror_step, mirror_window_target, preview_grid, session_id_of, window_and_pane_of,
    MirrorStep,
};
use ttree::state::{AppState, InputMode, Pane, Panel, Session, Window};

fn st() -> AppState {
    let mut st = AppState::default();
    st.sessions.insert(
        "$0".into(),
        Session { id: "$0".into(), name: "main".into(), windows: vec!["@0".into(), "@1".into()], expanded: true, last_attached: 0, attached: true },
    );
    st.sessions.insert(
        "$1".into(),
        Session { id: "$1".into(), name: "side".into(), windows: vec!["@2".into()], expanded: true, last_attached: 0, attached: false },
    );
    for (wid, sid, panes, active) in
        [("@0", "$0", vec!["%0", "%1"], false), ("@1", "$0", vec!["%2"], true), ("@2", "$1", vec!["%3"], true)]
    {
        st.windows.insert(
            wid.into(),
            Window {
                id: wid.into(),
                session_id: sid.into(),
                name: format!("w{}", wid),
                panes: panes.iter().map(|p| p.to_string()).collect(),
                active,
                width: 80,
                height: 24,
                expanded: true,
            },
        );
        for p in panes {
            st.panes.insert(
                p.into(),
                Pane { id: p.into(), window_id: wid.into(), title: "t".into(), current_command: "sh".into(), active: true, region: None },
            );
        }
    }
    st
}

fn key(code: KeyCode) -> KeyEvent {
    KeyEvent::new(code, KeyModifiers::none())
}

fn ctrl(c: char) -> KeyEvent {
    KeyEvent::new(KeyCode::Char(c), KeyModifiers::control())
}

#[test]
fn tree_keys_move_and_ask_for_a_save() {
    let mut s = st();
    s.focus.selected_id = Some("$0".into());
    let mut pending = false;
    let e = handle_key(&mut s, &key(KeyCode::Char('j')), Prefix::default(), &mut pending, false);
    assert!(matches!(e, KeyEffect::Save));
    assert_eq!(s.focus.selected_id.as_deref(), Some("@0"));
    let e = handle_key(&mut s, &key(KeyCode::Up), Prefix::default(), &mut pending, false);
    assert!(matches!(e, KeyEffect::Save));
    assert_eq!(s.focus.selected_id.as_deref(), Some("$0"));
}

#[test]
fn quit_and_attach() {
    let mut s = st();
    let mut pending = false;
    assert!(matches!(handle_key(&mut s, &key(KeyCode::Char('q')), Prefix::default(), &mut pending, false), KeyEffect::Quit));
    assert!(matches!(handle_key(&mut s, &ctrl('c'), Prefix::default(), &mut pending, false), KeyEffect::Quit));
    assert!(matches!(handle_key(&mut s, &key(KeyCode::Char('a')), Prefix::default(), &mut pending, false), KeyEffect::Nothing));
    s.focus.selected_id = Some("%2".into());
    match handle_key(&mut s, &key(KeyCode::Char('a')), Prefix::default(), &mut pending, false) {
        KeyEffect::Attach(t) => assert_eq!(t, "%2"),
        other => panic!("unexpected {:?}", other),
    }
    assert_eq!(s.last_target_id.as_deref(), Some("%2"));
}

#[test]
fn help_opens_and_closes() {
    let mut s = st();
    let mut pending = false;
    handle_key(&mut s, &key(KeyCode::Char('?')), Prefix::default(), &mut pending, false);
    assert!(s.show_help);
    handle_key(&mut s, &key(KeyCode::Char('j')), Prefix::default(), &mut pending, false);
    assert!(s.show_help);
    handle_key(&mut s, &key(KeyCode::Esc), Prefix::default(), &mut pending, false);
    assert!(!s.show_help);
}

#[test]
fn renaming_types_a_line_and_runs_tmux() {
    let mut s = st();
    s.focus.selected_id = Some("%3".into());
    let mut pending = false;
    handle_key(&mut s, &key(KeyCode::Char('r')), Prefix::default(), &mut pending, false);
    match &s.input_mode {
        InputMode::Renaming { session_id, input } => {
            assert_eq!(session_id, "$1");
            assert_eq!(input, "side");
        }
        other => panic!("unexpected {:?}", other),
    }
    handle_key(&mut s, &key(KeyCode::Backspace), Prefix::default(), &mut pending, false);
    handle_key(&mut s, &key(KeyCode::Char('x')), Prefix::default(), &mut pending, false);
    handle_key(&mut s, &ctrl('y'), Prefix::default(), &mut pending, false);
    match handle_key(&mut s, &key(KeyCode::Enter), Prefix::default(), &mut pending, false) {
        KeyEffect::Tmux(v) => assert_eq!(v, vec!["rename-session", "-t", "$1", "sidx"]),
        other => panic!("unexpected {:?}", other),
    }
    assert!(matches!(s.input_mode, InputMode::TuiNormal));
}

#[test]
fn a_blank_new_session_name_runs_nothing() {
    let mut s = st();
    let mut pending = false;
    handle_key(&mut s, &key(KeyCode::Char('n')), Prefix::default(), &mut pending, false);
    handle_key(&mut s, &key(KeyCode::Char(' ')), Prefix::default(), &mut pending, false);
    assert!(matches!(handle_key(&mut s, &key(KeyCode::Enter), Prefix::default(), &mut pending, false), KeyEffect::Nothing));
    handle_key(&mut s, &key(KeyCode::Char('n')), Prefix::default(), &mut pending, false);
    handle_key(&mut s, &key(KeyCode::Char('w')), Prefix::default(), &mut pending, false);
    match handle_key(&mut s, &key(KeyCode::Enter), Prefix::default(), &mut pending, false) {
        KeyEffect::Tmux(v) => assert_eq!(v, vec!["new-session", "-d", "-s", "w"]),
        other => panic!("unexpected {:?}", other),
    }
}

#[test]
fn the_prefix_then_d_goes_back_to_the_tree() {
    let mut s = st();
    let mut pending = false;
    handle_key(&mut s, &ctrl('p'), Prefix::default(), &mut pending, true);
    assert_eq!(s.focus.panel, Panel::Preview);
    assert!(matches!(handle_key(&mut s, &ctrl('b'), Prefix::default(), &mut pending, true), KeyEffect::Nothing));
    assert!(pending);
    handle_key(&mut s, &key(KeyCode::Char('d')), Prefix::default(), &mut pending, true);
    assert!(!pending);
    assert_eq!(s.focus.panel, Panel::Tree);
}

#[test]
fn the_prefix_twice_forwards_one_copy() {
    let mut s = st();
    s.focus.panel = Panel::Preview;
    let mut pending = false;
    handle_key(&mut s, &ctrl('b'), Prefix::default(), &mut pending, true);
    match handle_key(&mut s, &ctrl('b'), Prefix::default(), &mut pending, true) {
        KeyEffect::Send(b) => assert_eq!(b, vec![0x02, 0x02]),
        other => panic!("unexpected {:?}", other),
    }
    match handle_key(&mut s, &key(KeyCode::Char('x')), Prefix::default(), &mut pending, true) {
        KeyEffect::Send(b) => assert_eq!(b, b"x".to_vec()),
        other => panic!("unexpected {:?}", other),
    }
    assert!(matches!(handle_key(&mut s, &key(KeyCode::Char('x')), Prefix::default(), &mut pending, false), KeyEffect::Nothing));
}

#[test]
fn pastes_go_where_the_focus_is() {
    let mut s = st();
    assert_eq!(handle_paste(&mut s, "a\r\nb", true), None);
    s.input_mode = InputMode::NewSession { input: "x".into() };
    assert_eq!(handle_paste(&mut s, "y\r\nz\r", true), None);
    match &s.input_mode {
        InputMode::NewSession { input } => assert_eq!(input, "xyz"),
        other => panic!("unexpected {:?}", other),
    }
    s.focus.panel = Panel::Preview;
    assert_eq!(handle_paste(&mut s, "a\r\nb\rc\r\r\nd", true), Some(b"a\nb\nc\n\nd".to_vec()));
    assert_eq!(handle_paste(&mut s, "é", true), Some("é".as_bytes().to_vec()));
    assert_eq!(handle_paste(&mut s, "a", false), None);
}

fn mouse(kind: MouseEventKind, column: u16, row: u16) -> MouseEvent {
    MouseEvent { kind, column, row, modifiers: KeyModifiers::none() }
}

#[test]
fn dragging_the_separator_resizes_the_sidebar() {
    let mut s = st();
    s.sidebar_cols = 20;
    let mut dragging = false;
    let e = handle_mouse(&mut s, &mouse(MouseEventKind::Down(MouseButton::Left), 20, 5), &mut dragging, 100, 40, None);
    assert!(dragging && !e.save);
    let e = handle_mouse(&mut s, &mouse(MouseEventKind::Drag(MouseButton::Left), 30, 5), &mut dragging, 100, 40, None);
    assert!(e.save);
    assert_eq!(s.sidebar_cols, 31);
    handle_mouse(&mut s, &mouse(MouseEventKind::Drag(MouseButton::Left), 2, 5), &mut dragging, 100, 40, None);
    assert_eq!(s.sidebar_cols, 8);
    handle_mouse(&mut s, &mouse(MouseEventKind::Drag(MouseButton::Left), 99, 5), &mut dragging, 100, 40, None);
    assert_eq!(s.sidebar_cols, 80);
    handle_mouse(&mut s, &mouse(MouseEventKind::Up(MouseButton::Left), 99, 5), &mut dragging, 100, 40, None);
    assert!(!dragging);
}

#[test]
fn clicks_and_wheel_in_the_sidebar_select_rows() {
    let mut s = st();
    s.sidebar_cols = 20;
    let mut dragging = false;
    let e = handle_mouse(&mut s, &mouse(MouseEventKind::Down(MouseButton::Left), 3, 3), &mut dragging, 100, 40, None);
    assert!(e.save);
    // Rows: $0 @0 %0 %1 %2 %3 ; screen row 3 is the third row.
    assert_eq!(s.focus.selected_id.as_deref(), Some("%0"));
    let e = handle_mouse(&mut s, &mouse(MouseEventKind::Down(MouseButton::Left), 3, 30), &mut dragging, 100, 40, None);
    assert!(!e.save);
    handle_mouse(&mut s, &mouse(MouseEventKind::ScrollDown, 3, 3), &mut dragging, 100, 40, None);
    assert_eq!(s.focus.selected_id.as_deref(), Some("%1"));
}

#[test]
fn preview_events_are_clamped_and_encoded() {
    let mut s = st();
    s.sidebar_cols = 20;
    let mut dragging = false;
    let grid = Some((10u16, 30u16, MouseProtocolMode::Press));
    let e = handle_mouse(&mut s, &mouse(MouseEventKind::Down(MouseButton::Left), 60, 15), &mut dragging, 100, 40, grid);
    assert_eq!(e.send, Some(b"\x1b[<0;30;10M".to_vec()));
    let e = handle_mouse(&mut s, &mouse(MouseEventKind::Drag(MouseButton::Left), 25, 2), &mut dragging, 100, 40, grid);
    assert_eq!(e.send, None);
    let e = handle_mouse(&mut s, &mouse(MouseEventKind::Down(MouseButton::Left), 25, 2), &mut dragging, 100, 40, None);
    assert_eq!(e.send, None);
}

#[test]
fn selections_map_to_their_sessions() {
    let s = st();
    assert_eq!(session_id_of(&s, "$7").as_deref(), Some("$7"));
    assert_eq!(session_id_of(&s, "@2").as_deref(), Some("$1"));
    assert_eq!(session_id_of(&s, "%1").as_deref(), Some("$0"));
    assert_eq!(session_id_of(&s, "%9"), None);
}

#[test]
fn selections_map_to_a_window_and_pane() {
    let s = st();
    assert_eq!(window_and_pane_of(&s, "%1"), (Some("@0".to_string()), Some("%1".to_string())));
    assert_eq!(window_and_pane_of(&s, "@2"), (Some("@2".to_string()), None));
    // A session goes to its active window.
    assert_eq!(window_and_pane_of(&s, "$0"), (Some("@1".to_string()), None));
    assert_eq!(window_and_pane_of(&s, "nothing"), (None, None));
}

#[test]
fn the_selection_follows_the_client_in_the_preview() {
    let mut s = st();
    s.focus.panel = Panel::Preview;
    s.focus.selected_id = Some("%0".into());
    // Our grouped mirror stands for the session it groups with.
    assert!(!follow_client(&mut s, "$9", "%nope", Some("$9"), Some("$1")));
    assert_eq!(s.focus.selected_id.as_deref(), Some("%3"));
    follow_client(&mut s, "$0", "%2", None, None);
    assert_eq!(s.focus.selected_id.as_deref(), Some("%2"));
}

#[test]
fn drift_in_the_tree_asks_for_the_switch_again() {
    let mut s = st();
    s.focus.selected_id = Some("%3".into());
    assert!(follow_client(&mut s, "$0", "%0", None, None));
    assert!(!follow_client(&mut s, "$1", "%3", None, None));
    assert_eq!(s.focus.selected_id.as_deref(), Some("%3"));
}

#[test]
fn own_session_is_never_mirrored() {
    let mut s = st();
    s.own_session = Some("$1".into());
    s.focus.selected_id = Some("%3".into());
    s.update_mirror_suppressed();
    assert!(s.mirror_suppressed);
    s.focus.selected_id = Some("%0".into());
    s.update_mirror_suppressed();
    assert!(!s.mirror_suppressed);
    assert_eq!(s.forced_session(), None);
    s.focus.panel = Panel::Preview;
    assert_eq!(s.forced_session().as_deref(), Some("$0"));
}

#[test]
fn attach_and_target_commands() {
    assert_eq!(attach_args(true, Some("/s"), "%1"), vec!["switch-client", "-t", "%1"]);
    assert_eq!(attach_args(false, Some("/s"), "%1"), vec!["-S", "/s", "attach-session", "-t", "%1"]);
    assert_eq!(attach_args(false, None, "$2"), vec!["attach-session", "-t", "$2"]);
    assert_eq!(mirror_window_target("$5", "@1"), "$5:@1");
    assert_eq!(preview_grid(100, 40, 20), Some((39, 80)));
    assert_eq!(preview_grid(20, 40, 20), None);
}

#[test]
fn renaming_a_selected_window_renames_the_window() {
    let mut s = st();
    s.focus.selected_id = Some("@0".into());
    let mut pending = false;
    handle_key(&mut s, &key(KeyCode::Char('r')), Prefix::default(), &mut pending, false);
    match &s.input_mode {
        InputMode::RenamingWindow { window_id, input } => {
            assert_eq!(window_id, "@0");
            assert_eq!(input, "w@0");
        }
        other => panic!("unexpected {:?}", other),
    }
    handle_key(&mut s, &key(KeyCode::Char(' ')), Prefix::default(), &mut pending, false);
    handle_key(&mut s, &key(KeyCode::Char('x')), Prefix::default(), &mut pending, false);
    match handle_key(&mut s, &key(KeyCode::Enter), Prefix::default(), &mut pending, false) {
        KeyEffect::Tmux(v) => assert_eq!(v, vec!["rename-window", "-t", "@0", "w@0 x"]),
        other => panic!("unexpected {:?}", other),
    }
    assert!(matches!(s.input_mode, InputMode::TuiNormal));
}

#[test]
fn renaming_from_a_pane_renames_its_session() {
    let mut s = st();
    s.focus.selected_id = Some("%1".into());
    let mut pending = false;
    handle_key(&mut s, &key(KeyCode::Char('r')), Prefix::default(), &mut pending, false);
    match &s.input_mode {
        InputMode::Renaming { session_id, input } => {
            assert_eq!(session_id, "$0");
            assert_eq!(input, "main");
        }
        other => panic!("unexpected {:?}", other),
    }
    handle_key(&mut s, &key(KeyCode::Esc), Prefix::default(), &mut pending, false);
    assert!(matches!(s.input_mode, InputMode::TuiNormal));
}

#[test]
fn c_creates_a_window_in_the_session_of_the_selection() {
    let mut s = st();
    let mut pending = false;
    assert!(matches!(handle_key(&mut s, &key(KeyCode::Char('c')), Prefix::default(), &mut pending, false), KeyEffect::Nothing));
    s.focus.selected_id = Some("%3".into());
    match handle_key(&mut s, &key(KeyCode::Char('c')), Prefix::default(), &mut pending, false) {
        KeyEffect::Tmux(v) => assert_eq!(v, vec!["new-window", "-t", "$1", "-P", "-F", "#{window_id}"]),
        other => panic!("unexpected {:?}", other),
    }
    assert!(matches!(s.input_mode, InputMode::TuiNormal));
}

#[test]
fn a_session_id_that_is_not_a_tmux_id_runs_nothing() {
    let mut s = st();
    s.sessions.insert(
        "main".into(),
        Session { id: "main".into(), name: "odd".into(), windows: vec![], expanded: true, last_attached: 0, attached: false },
    );
    s.focus.selected_id = Some("main".into());
    let mut pending = false;
    assert!(matches!(handle_key(&mut s, &key(KeyCode::Char('c')), Prefix::default(), &mut pending, false), KeyEffect::Nothing));
    handle_key(&mut s, &key(KeyCode::Char('x')), Prefix::default(), &mut pending, false);
    assert!(matches!(s.input_mode, InputMode::TuiNormal));
}

#[test]
fn splits_go_beside_or_below_the_selected_pane() {
    let mut s = st();
    s.focus.selected_id = Some("%0".into());
    let mut pending = false;
    match handle_key(&mut s, &key(KeyCode::Char('%')), Prefix::default(), &mut pending, false) {
        KeyEffect::Tmux(v) => assert_eq!(v, vec!["split-window", "-h", "-t", "%0", "-P", "-F", "#{pane_id}"]),
        other => panic!("unexpected {:?}", other),
    }
    match handle_key(&mut s, &key(KeyCode::Char('"')), Prefix::default(), &mut pending, false) {
        KeyEffect::Tmux(v) => assert_eq!(v, vec!["split-window", "-v", "-t", "%0", "-P", "-F", "#{pane_id}"]),
        other => panic!("unexpected {:?}", other),
    }
    s.focus.selected_id = Some("@0".into());
    assert!(matches!(handle_key(&mut s, &key(KeyCode::Char('%')), Prefix::default(), &mut pending, false), KeyEffect::Nothing));
}

#[test]
fn a_kill_asks_first_and_names_its_target() {
    let mut s = st();
    s.focus.selected_id = Some("@1".into());
    let mut pending = false;
    assert!(matches!(handle_key(&mut s, &key(KeyCode::Char('x')), Prefix::default(), &mut pending, false), KeyEffect::Nothing));
    match &s.input_mode {
        InputMode::Confirming { prompt, command } => {
            assert_eq!(prompt, "Kill window w@1?");
            assert_eq!(command, &vec!["kill-window".to_string(), "-t".to_string(), "@1".to_string()]);
        }
        other => panic!("unexpected {:?}", other),
    }
    assert!(matches!(handle_key(&mut s, &key(KeyCode::Char('n')), Prefix::default(), &mut pending, false), KeyEffect::Nothing));
    assert!(matches!(s.input_mode, InputMode::TuiNormal));
    assert_eq!(s.focus.selected_id.as_deref(), Some("@1"));

    s.focus.selected_id = Some("%3".into());
    handle_key(&mut s, &key(KeyCode::Char('x')), Prefix::default(), &mut pending, false);
    match &s.input_mode {
        InputMode::Confirming { prompt, .. } => assert_eq!(prompt, "Kill pane sh?"),
        other => panic!("unexpected {:?}", other),
    }
    match handle_key(&mut s, &key(KeyCode::Char('y')), Prefix::default(), &mut pending, false) {
        KeyEffect::Tmux(v) => assert_eq!(v, vec!["kill-pane", "-t", "%3"]),
        other => panic!("unexpected {:?}", other),
    }
    assert!(matches!(s.input_mode, InputMode::TuiNormal));

    s.focus.selected_id = Some("$1".into());
    handle_key(&mut s, &key(KeyCode::Char('x')), Prefix::default(), &mut pending, false);
    match handle_key(&mut s, &key(KeyCode::Char('Y')), Prefix::default(), &mut pending, false) {
        KeyEffect::Tmux(v) => assert_eq!(v, vec!["kill-session", "-t", "$1"]),
        other => panic!("unexpected {:?}", other),
    }
}

#[test]
fn the_filter_keeps_matches_and_their_parents() {
    let mut s = st();
    let mut pending = false;
    assert_eq!(s.filtered_rows(), vec!["$0", "@0", "%0", "%1", "%2", "%3"]);
    handle_key(&mut s, &key(KeyCode::Char('/')), Prefix::default(), &mut pending, false);
    for c in "W@0".chars() {
        handle_key(&mut s, &key(KeyCode::Char(c)), Prefix::default(), &mut pending, false);
    }
    assert_eq!(s.filtered_rows(), vec!["$0", "@0"]);
    assert!(matches!(handle_key(&mut s, &key(KeyCode::Enter), Prefix::default(), &mut pending, false), KeyEffect::Nothing));
    assert_eq!(s.filter.as_deref(), Some("W@0"));
    assert_eq!(s.filtered_rows(), vec!["$0", "@0"]);
    assert_eq!(s.drawn_lines(10).iter().map(|l| l.id.clone()).collect::<Vec<_>>(), vec!["$0", "@0"]);
    s.focus.selected_id = Some("$0".into());
    handle_key(&mut s, &key(KeyCode::Char('j')), Prefix::default(), &mut pending, false);
    assert_eq!(s.focus.selected_id.as_deref(), Some("@0"));
    handle_key(&mut s, &key(KeyCode::Char('j')), Prefix::default(), &mut pending, false);
    assert_eq!(s.focus.selected_id.as_deref(), Some("$0"));
    handle_key(&mut s, &key(KeyCode::Esc), Prefix::default(), &mut pending, false);
    assert_eq!(s.filter, None);
    assert_eq!(s.filtered_rows().len(), 6);
}

#[test]
fn a_fuzzy_query_matches_in_order_and_escape_while_typing_drops_it() {
    let mut s = st();
    let mut pending = false;
    handle_key(&mut s, &key(KeyCode::Char('/')), Prefix::default(), &mut pending, false);
    handle_key(&mut s, &key(KeyCode::Char('m')), Prefix::default(), &mut pending, false);
    handle_key(&mut s, &key(KeyCode::Char('n')), Prefix::default(), &mut pending, false);
    assert_eq!(s.filtered_rows(), vec!["$0"]);
    handle_key(&mut s, &key(KeyCode::Backspace), Prefix::default(), &mut pending, false);
    handle_key(&mut s, &key(KeyCode::Char('z')), Prefix::default(), &mut pending, false);
    assert!(s.filtered_rows().is_empty());
    handle_key(&mut s, &key(KeyCode::Esc), Prefix::default(), &mut pending, false);
    assert!(matches!(s.input_mode, InputMode::TuiNormal));
    assert_eq!(s.filter, None);
    assert_eq!(s.filtered_rows().len(), 6);
}

#[test]
fn ctrl_p_toggles_between_the_tree_and_the_preview() {
    let mut s = st();
    let mut pending = false;
    handle_key(&mut s, &ctrl('p'), Prefix::default(), &mut pending, true);
    assert_eq!(s.focus.panel, Panel::Preview);
    assert!(matches!(handle_key(&mut s, &ctrl('p'), Prefix::default(), &mut pending, true), KeyEffect::Nothing));
    assert_eq!(s.focus.panel, Panel::Tree);
}

#[test]
fn a_selection_change_reuses_or_regroups_the_mirror() {
    let mut s = st();
    assert!(matches!(mirror_step(&s, true, None), MirrorStep::Stay));
    s.focus.selected_id = Some("%3".into());
    match mirror_step(&s, false, None) {
        MirrorStep::StartClient(t) => assert_eq!(t, "%3"),
        other => panic!("unexpected {:?}", other),
    }
    assert!(matches!(mirror_step(&s, true, Some("$1")), MirrorStep::ReuseMirror));
    match mirror_step(&s, true, Some("$0")) {
        MirrorStep::NewMirror(t) => assert_eq!(t, "$1"),
        other => panic!("unexpected {:?}", other),
    }
    s.focus.selected_id = Some("%9".into());
    match mirror_step(&s, true, Some("$0")) {
        MirrorStep::SwitchDirect(t) => assert_eq!(t, "%9"),
        other => panic!("unexpected {:?}", other),
    }
    s.mirror_suppressed = true;
    assert!(matches!(mirror_step(&s, true, Some("$0")), MirrorStep::StopClient));
}
