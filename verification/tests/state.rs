use ttree::state::{AppState, InputMode, NavMode, Pane, Panel, PersistentState, Session, Window};

fn session(id: &str, windows: &[&str], expanded: bool) -> Session {
    Session {
        id: id.into(),
        name: id.trim_start_matches('$').into(),
        windows: windows.iter().map(|w| w.to_string()).collect(),
        expanded,
        last_attached: 0,
        attached: false,
    }
}

fn window(id: &str, session_id: &str, panes: &[&str], expanded: bool) -> Window {
    Window {
        id: id.into(),
        session_id: session_id.into(),
        name: "win".into(),
        panes: panes.iter().map(|p| p.to_string()).collect(),
        active: true,
        width: 80,
        height: 24,
        expanded,
    }
}

fn pane(id: &str, window_id: &str) -> Pane {
    Pane {
        id: id.into(),
        window_id: window_id.into(),
        title: "sh".into(),
        current_command: "sh".into(),
        active: true,
        region: None,
    }
}

type WindowSpec<'a> = (&'a str, bool, &'a [&'a str]);

/// Build a state from (session, windows, panes-per-window) descriptions.
fn state_with(spec: &[(&str, bool, &[WindowSpec])]) -> AppState {
    let mut st = AppState::default();
    for (sid, sexp, windows) in spec {
        let wids: Vec<&str> = windows.iter().map(|(wid, _, _)| *wid).collect();
        st.sessions.insert(sid.to_string(), session(sid, &wids, *sexp));
        for (wid, wexp, panes) in *windows {
            st.windows.insert(wid.to_string(), window(wid, sid, panes, *wexp));
            for pid in *panes {
                st.panes.insert(pid.to_string(), pane(pid, wid));
            }
        }
    }
    st
}

#[test]
fn a_lone_pane_collapses_to_just_that_pane() {
    let st = state_with(&[("$0", true, &[("@0", true, &["%0"])])]);
    assert_eq!(st.get_dynamic_visible_items(), vec!["%0"]);
}

#[test]
fn a_single_window_session_skips_the_window_row() {
    let st = state_with(&[("$0", true, &[("@0", true, &["%0", "%1"])])]);
    assert_eq!(st.get_dynamic_visible_items(), vec!["$0", "%0", "%1"]);
}

#[test]
fn collapsing_a_session_hides_its_panes() {
    let st = state_with(&[("$0", false, &[("@0", true, &["%0", "%1"])])]);
    assert_eq!(st.get_dynamic_visible_items(), vec!["$0"]);
}

#[test]
fn multi_window_sessions_show_the_full_hierarchy() {
    let st = state_with(&[("$0", true, &[("@0", true, &["%0", "%1"]), ("@1", true, &["%2"])])]);
    assert_eq!(st.get_dynamic_visible_items(), vec!["$0", "@0", "%0", "%1", "%2"]);
}

#[test]
fn collapsing_a_window_hides_only_its_own_panes() {
    let st = state_with(&[("$0", true, &[("@0", false, &["%0", "%1"]), ("@1", true, &["%2"])])]);
    assert_eq!(st.get_dynamic_visible_items(), vec!["$0", "@0", "%2"]);
}

#[test]
fn selection_wraps_at_both_ends() {
    let mut st = state_with(&[("$0", true, &[("@0", true, &["%0", "%1"])])]);
    st.focus.selected_id = Some("%1".into());

    st.move_selection_down();
    assert_eq!(st.focus.selected_id.as_deref(), Some("$0"), "past the end wraps to the top");

    st.move_selection_up();
    assert_eq!(st.focus.selected_id.as_deref(), Some("%1"), "before the top wraps to the end");
}

#[test]
fn a_selection_that_left_the_list_falls_back_to_an_end() {
    let mut st = state_with(&[("$0", true, &[("@0", true, &["%0", "%1"])])]);
    st.focus.selected_id = Some("%99".into());
    st.move_selection_down();
    assert_eq!(st.focus.selected_id.as_deref(), Some("$0"));

    st.focus.selected_id = Some("%99".into());
    st.move_selection_up();
    assert_eq!(st.focus.selected_id.as_deref(), Some("%1"));
}

#[test]
fn selection_moves_are_safe_with_no_sessions() {
    let mut st = AppState::default();
    st.move_selection_down();
    st.move_selection_up();
    assert_eq!(st.focus.selected_id, None);
}

// The laws on concrete values.

#[test]
fn toggling_twice_restores_the_tree() {
    let mut st = state_with(&[("$0", true, &[("@0", true, &["%0", "%1"]), ("@1", true, &["%2"])])]);
    st.focus.selected_id = Some("@0".into());
    let before = st.get_dynamic_visible_items();
    st.toggle_expansion();
    assert_eq!(st.get_dynamic_visible_items(), vec!["$0", "@0", "%2"]);
    st.toggle_expansion();
    assert_eq!(st.get_dynamic_visible_items(), before);
}

#[test]
fn down_then_up_returns_to_the_same_row() {
    let mut st = state_with(&[("$0", true, &[("@0", true, &["%0", "%1"]), ("@1", true, &["%2"])])]);
    for start in ["$0", "@0", "%0", "%1", "%2"] {
        st.focus.selected_id = Some(start.into());
        st.move_selection_down();
        st.move_selection_up();
        assert_eq!(st.focus.selected_id.as_deref(), Some(start));
        st.move_selection_up();
        st.move_selection_down();
        assert_eq!(st.focus.selected_id.as_deref(), Some(start));
    }
}

#[test]
fn left_collapses_and_right_expands_again() {
    let mut st = state_with(&[("$0", true, &[("@0", true, &["%0", "%1"]), ("@1", true, &["%2"])])]);
    st.focus.selected_id = Some("$0".into());
    st.switch_nav_left();
    assert_eq!(st.get_dynamic_visible_items(), vec!["$0"]);
    st.switch_nav_right();
    assert_eq!(st.get_dynamic_visible_items(), vec!["$0", "@0", "%0", "%1", "%2"]);
    // Right on an expanded header descends to its first child.
    st.switch_nav_right();
    assert_eq!(st.focus.selected_id.as_deref(), Some("@0"));
}

#[test]
fn left_from_a_pane_goes_to_its_parent_row() {
    let mut st = state_with(&[("$0", true, &[("@0", true, &["%0", "%1"]), ("@1", true, &["%2"])])]);
    st.focus.selected_id = Some("%1".into());
    st.switch_nav_left();
    assert_eq!(st.focus.selected_id.as_deref(), Some("@0"));
    st.focus.selected_id = Some("%2".into());
    st.switch_nav_left();
    assert_eq!(st.focus.selected_id.as_deref(), Some("$0"));
}

#[test]
fn moves_keep_the_selection_on_a_row() {
    let mut st = state_with(&[("$0", false, &[("@0", true, &["%0", "%1"])]), ("$1", true, &[("@1", true, &["%2"])])]);
    st.focus.selected_id = Some("nowhere".into());
    st.move_selection_down();
    assert!(st.get_dynamic_visible_items().contains(&st.focus.selected_id.clone().unwrap()));
}

#[test]
fn scrolling_brings_the_selection_into_view() {
    let mut st = state_with(&[("$0", true, &[("@0", true, &["%0", "%1", "%2", "%3", "%4", "%5"])])]);
    st.focus.selected_id = Some("%5".into());
    st.update_scroll(3);
    assert_eq!(st.focus.scroll_offset, 4);
    st.focus.selected_id = Some("$0".into());
    st.update_scroll(3);
    assert_eq!(st.focus.scroll_offset, 0);
}

#[test]
fn persistent_state_round_trips() {
    let mut st = state_with(&[("$0", true, &[("@0", false, &["%0", "%1"]), ("@1", true, &["%2"])])]);
    st.focus.selected_id = Some("%2".into());
    st.focus.panel = Panel::Preview;
    st.sidebar_cols = 30;
    let p = st.persistent_state();
    assert_eq!(p.expanded_ids, vec!["$0", "@1"]);
    let back = AppState::from_persistent(Some(p));
    assert_eq!(back.focus.selected_id.as_deref(), Some("%2"));
    assert_eq!(back.focus.panel, Panel::Preview);
    assert_eq!(back.sidebar_cols, 30);
    assert_eq!(back.expanded_ids, vec!["$0", "@1"]);
    let fresh = AppState::from_persistent(None::<PersistentState>);
    assert_eq!(fresh.focus.nav_mode, NavMode::Window);
    assert!(matches!(fresh.input_mode, InputMode::TuiNormal));
}

#[test]
fn left_from_a_pane_of_a_one_window_session_goes_to_the_session_header() {
    let mut st = state_with(&[("$0", true, &[("@0", true, &["%0", "%1"])])]);
    assert_eq!(st.get_dynamic_visible_items(), vec!["$0", "%0", "%1"]);
    st.focus.selected_id = Some("%0".into());
    st.switch_nav_left();
    assert_eq!(st.focus.selected_id.as_deref(), Some("$0"));
    assert!(!st.sessions["$0"].expanded);
    assert!(st.windows["@0"].expanded);
    assert!(st.get_dynamic_visible_items().contains(&"$0".to_string()));
}

#[test]
fn left_on_a_lone_pane_stays_put() {
    let mut st = state_with(&[("$0", true, &[("@0", true, &["%0"])])]);
    assert_eq!(st.get_dynamic_visible_items(), vec!["%0"]);
    st.focus.selected_id = Some("%0".into());
    st.switch_nav_left();
    assert_eq!(st.focus.selected_id.as_deref(), Some("%0"));
}
