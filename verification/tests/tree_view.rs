use ttree::state::{AppState, Pane, Rect, Session, Window};
use ttree::tree_view::{command_hints, popup_rect};
use ttree::state::Panel;

fn add(st: &mut AppState, sid: &str, name: &str, attached: bool, windows: &[(&str, &[(&str, &str)])]) {
    st.sessions.insert(
        sid.into(),
        Session { id: sid.into(), name: name.into(), windows: windows.iter().map(|w| w.0.to_string()).collect(), expanded: true, last_attached: 0, attached },
    );
    for (wid, panes) in windows {
        st.windows.insert(
            wid.to_string(),
            Window { id: wid.to_string(), session_id: sid.into(), name: format!("win{}", wid), panes: panes.iter().map(|p| p.0.to_string()).collect(), active: false, width: 80, height: 24, expanded: true },
        );
        for (pid, cmd) in *panes {
            st.panes.insert(
                pid.to_string(),
                Pane { id: pid.to_string(), window_id: wid.to_string(), title: "title".into(), current_command: cmd.to_string(), active: true, region: None },
            );
        }
    }
}

#[test]
fn tree_lines_match_the_navigated_rows() {
    let mut st = AppState::default();
    add(&mut st, "$0", "solo", true, &[("@0", &[("%0", "vim")])]);
    add(&mut st, "$1", "pair", false, &[("@1", &[("%1", "sh"), ("%2", "")])]);
    add(&mut st, "$2", "many", true, &[("@2", &[("%3", "top")]), ("@3", &[("%4", "a"), ("%5", "b")])]);
    st.focus.selected_id = Some("%2".into());
    let lines = st.tree_lines();
    let ids: Vec<String> = lines.iter().map(|l| l.id.clone()).collect();
    assert_eq!(ids, st.get_dynamic_visible_items());
    let shown: Vec<String> = lines.iter().map(|l| format!("{}{}{}", l.icon, l.label, l.detail)).collect();
    assert_eq!(
        shown,
        vec![
            "► solo",
            "▼ pair (2)",
            "  ├─ sh",
            "  └─ title",
            "▼ many (2 (attached))",
            "  ► top",
            "  ▼ win@3",
            "    ├─ a",
            "    └─ b",
        ]
    );
    assert!(lines[3].selected && !lines[2].selected);
    assert!(lines[0].active && !lines[1].active);
    assert!(!lines[2].icon_colored && lines[1].icon_colored);
}

#[test]
fn hints_and_popups() {
    assert_eq!(command_hints(Panel::Preview).1, "PREVIEW");
    assert_eq!(command_hints(Panel::Tree).1, "TREE");
    let r = popup_rect(Rect::new(0, 0, 100, 30), 40, 3);
    assert_eq!(r, Rect::new(30, 13, 40, 3));
    let r = popup_rect(Rect::new(0, 0, 20, 2), 40, 3);
    assert_eq!(r, Rect::new(0, 0, 20, 3));
}
