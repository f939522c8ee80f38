//! What each row of the tree sidebar shows: its glyph, its label, whether the
//! label is drawn in the "active" color, and a gray detail.

use vstd::prelude::*;

use crate::state::{
    rect_new, Panel, Rect, capped_total_panes, model_rows, session_rows, tree_rows, window_rows, windows_rows, opt_view, strs, total_panes, window_pane_count, AppState, PaneView, Session,
    SessionView, TreeModel, Window, WindowView,
};
use crate::store::{
    entry_lookup, pane_entries, pane_map_get, session_entries, session_map_get_index, session_map_len,
    window_entries, window_map_get,
};
use crate::text::{chars_eq, chars_of, decimal, decimal_chars, extend_chars, owned, string_of};

verus! {

/// One row of the tree sidebar.
pub struct TreeLine {
    /// The id the row stands for (what selecting it selects).
    pub id: String,
    /// Whether the row is the selection.
    pub selected: bool,
    /// The glyph before the label, with its indentation.
    pub icon: String,
    /// Whether the glyph is drawn in the icon color (tree connectors are not).
    pub icon_colored: bool,
    pub label: String,
    /// Whether the label is drawn in the "active" color.
    pub active: bool,
    /// Gray text after the label (empty for none).
    pub detail: String,
}

pub struct LineView {
    pub id: Seq<char>,
    pub selected: bool,
    pub icon: Seq<char>,
    pub icon_colored: bool,
    pub label: Seq<char>,
    pub active: bool,
    pub detail: Seq<char>,
}

impl View for TreeLine {
    type V = LineView;

    open spec fn view(&self) -> LineView {
        LineView {
            id: self.id@,
            selected: self.selected,
            icon: self.icon@,
            icon_colored: self.icon_colored,
            label: self.label@,
            active: self.active,
            detail: self.detail@,
        }
    }
}

impl TreeLine {
    /// A copy of this line.
    pub fn duplicate(&self) -> (r: TreeLine)
        ensures
            r@ == self@,
    {
        TreeLine {
            id: self.id.clone(),
            selected: self.selected,
            icon: self.icon.clone(),
            icon_colored: self.icon_colored,
            label: self.label.clone(),
            active: self.active,
            detail: self.detail.clone(),
        }
    }
}

pub open spec fn line_views(v: Seq<TreeLine>) -> Seq<LineView> {
    v.map_values(|l: TreeLine| l@)
}

/// A pane's name in the tree: its running command, else its title.
pub open spec fn display_name(p: PaneView) -> Seq<char> {
    if p.current_command.len() > 0 {
        p.current_command
    } else {
        p.title
    }
}

pub open spec fn is_selected(m: TreeModel, id: Seq<char>) -> bool {
    m.selected == Some(id)
}

/// The expand/collapse glyph.
pub open spec fn fold_icon(expanded: bool) -> Seq<char> {
    if expanded { "▼"@ } else { "▶"@ }
}

/// `└─` for the last pane of a list, `├─` for the others, indented under a
/// session header (depth 1) or a window header (depth 2).
pub open spec fn connector(deep: bool, last: bool) -> Seq<char> {
    if deep {
        if last { "    └─ "@ } else { "    ├─ "@ }
    } else {
        if last { "  └─ "@ } else { "  ├─ "@ }
    }
}

/// ` (<count>)`, or ` (<count> (attached))`.
pub open spec fn count_detail(n: nat, attached: bool) -> Seq<char> {
    " ("@ + decimal(n) + (if attached { " (attached)"@ } else { Seq::empty() }) + ")"@
}

/// The rows of the first `n` of `pids`, a window's panes: one per pane that
/// exists, the connector closing at the list's last entry.
pub open spec fn pane_lines(m: TreeModel, pids: Seq<Seq<char>>, n: nat, deep: bool) -> Seq<LineView>
    decreases n,
{
    if n == 0 || n > pids.len() {
        Seq::empty()
    } else {
        let k = (n - 1) as int;
        pane_lines(m, pids, (n - 1) as nat, deep) + match entry_lookup(m.panes, pids[k]) {
            Some(p) => seq![
                LineView {
                    id: pids[k],
                    selected: is_selected(m, pids[k]),
                    icon: connector(deep, k == pids.len() - 1),
                    icon_colored: false,
                    label: display_name(p),
                    active: p.active,
                    detail: Seq::empty(),
                },
            ],
            None => Seq::empty(),
        }
    }
}

/// The rows of one window under an expanded session header: a window with at
/// most one pane is a leaf labelled by that pane (else by the window); a
/// larger window is a header followed, when expanded, by its panes.
pub open spec fn window_lines(m: TreeModel, wid: Seq<char>) -> Seq<LineView> {
    match entry_lookup(m.windows, wid) {
        None => Seq::empty(),
        Some(w) => if w.panes.len() <= 1 {
            let leaf = if w.panes.len() == 1 { w.panes[0] } else { wid };
            let p = if w.panes.len() == 1 { entry_lookup(m.panes, w.panes[0]) } else { None };
            seq![
                LineView {
                    id: leaf,
                    selected: is_selected(m, leaf),
                    icon: "  ► "@,
                    icon_colored: true,
                    label: match p { Some(pv) => display_name(pv), None => w.name },
                    active: match p { Some(pv) => pv.active, None => w.active },
                    detail: Seq::empty(),
                },
            ]
        } else {
            seq![
                LineView {
                    id: wid,
                    selected: is_selected(m, wid),
                    icon: "  "@ + fold_icon(w.expanded) + " "@,
                    icon_colored: true,
                    label: w.name,
                    active: w.active,
                    detail: Seq::empty(),
                },
            ] + if w.expanded { pane_lines(m, w.panes, w.panes.len(), true) } else { Seq::empty() }
        },
    }
}

pub open spec fn windows_lines(m: TreeModel, wins: Seq<Seq<char>>) -> Seq<LineView>
    decreases wins.len(),
{
    if wins.len() == 0 {
        Seq::empty()
    } else {
        windows_lines(m, wins.drop_last()) + window_lines(m, wins.last())
    }
}

/// The rows of one session, level-skipping as the rows of the tree do: a
/// lone pane is one leaf row labelled by the session; a single window lists
/// its panes under the session header (with the pane count); several
/// windows show the full hierarchy (with the window count).
pub open spec fn session_lines(m: TreeModel, s: SessionView) -> Seq<LineView> {
    let we = m.windows;
    if s.windows.len() <= 1 && total_panes(we, s.windows) <= 1 {
        let leaf = crate::state::single_leaf(we, s);
        let p = if s.windows.len() >= 1 && entry_lookup(we, s.windows[0]) is Some
            && entry_lookup(we, s.windows[0]).unwrap().panes.len() > 0 {
            entry_lookup(m.panes, entry_lookup(we, s.windows[0]).unwrap().panes[0])
        } else {
            None
        };
        seq![
            LineView {
                id: leaf,
                selected: is_selected(m, leaf),
                icon: "► "@,
                icon_colored: true,
                label: s.name,
                active: match p { Some(pv) => pv.active, None => s.attached },
                detail: Seq::empty(),
            },
        ]
    } else {
        let header = LineView {
            id: s.id,
            selected: is_selected(m, s.id),
            icon: fold_icon(s.expanded) + " "@,
            icon_colored: true,
            label: s.name,
            active: false,
            detail: count_detail(
                if s.windows.len() == 1 { total_panes(we, s.windows) } else { s.windows.len() },
                s.attached,
            ),
        };
        seq![header] + if !s.expanded {
            Seq::empty()
        } else if s.windows.len() == 1 {
            match entry_lookup(we, s.windows[0]) {
                Some(w) => pane_lines(m, w.panes, w.panes.len(), false),
                None => Seq::empty(),
            }
        } else {
            windows_lines(m, s.windows)
        }
    }
}

pub open spec fn sessions_lines(m: TreeModel, se: Seq<(Seq<char>, SessionView)>) -> Seq<LineView>
    decreases se.len(),
{
    if se.len() == 0 {
        Seq::empty()
    } else {
        sessions_lines(m, se.drop_last()) + session_lines(m, se.last().1)
    }
}

/// Every row of the tree, top to bottom.
pub open spec fn tree_lines(m: TreeModel) -> Seq<LineView> {
    sessions_lines(m, m.sessions)
}

fn push_line(out: &mut Vec<TreeLine>, l: TreeLine)
    ensures
        line_views(final(out)@) == line_views(old(out)@).push(l@),
{
    let ghost before = out@;
    let ghost lv = l@;
    out.push(l);
    assert(line_views(out@) =~= line_views(before).push(lv));
}

fn selected_is(state: &AppState, id: &String) -> (b: bool)
    ensures
        b == is_selected(state.model(), id@),
{
    match &state.focus.selected_id {
        Some(s) => chars_eq(chars_of(s.as_str()).as_slice(), chars_of(id.as_str()).as_slice()),
        None => false,
    }
}

pub(crate) fn pane_name(p: &crate::state::Pane) -> (s: String)
    ensures
        s@ == display_name(p@),
{
    if p.current_command.as_str().unicode_len() > 0 {
        p.current_command.clone()
    } else {
        p.title.clone()
    }
}

fn count_text(n: usize, attached: bool) -> (s: String)
    ensures
        s@ == count_detail(n as nat, attached),
{
    let mut v: Vec<char> = chars_of(" (");
    extend_chars(&mut v, decimal_chars(n as u64).as_slice());
    if attached {
        extend_chars(&mut v, chars_of(" (attached)").as_slice());
    }
    extend_chars(&mut v, chars_of(")").as_slice());
    assert(v@ =~= count_detail(n as nat, attached));
    string_of(v.as_slice())
}

fn fold_text(expanded: bool, indent: bool) -> (s: String)
    ensures
        s@ == (if indent { "  "@ + fold_icon(expanded) + " "@ } else { fold_icon(expanded) + " "@ }),
{
    let mut v: Vec<char> = Vec::new();
    if indent {
        extend_chars(&mut v, chars_of("  ").as_slice());
    }
    if expanded {
        extend_chars(&mut v, chars_of("▼").as_slice());
    } else {
        extend_chars(&mut v, chars_of("▶").as_slice());
    }
    extend_chars(&mut v, chars_of(" ").as_slice());
    assert(v@ =~= (if indent { "  "@ + fold_icon(expanded) + " "@ } else { fold_icon(expanded) + " "@ }));
    string_of(v.as_slice())
}

impl AppState {
    fn push_pane_lines(&self, pids: &Vec<String>, deep: bool, out: &mut Vec<TreeLine>)
        ensures
            line_views(final(out)@) == line_views(old(out)@) + pane_lines(self.model(), strs(pids@), pids.len() as nat, deep),
    {
        let ghost m = self.model();
        let ghost ps = strs(pids@);
        let ghost start = line_views(out@);
        let mut i: usize = 0;
        while i < pids.len()
            invariant
                i <= pids.len(),
                m == self.model(),
                ps == strs(pids@),
                line_views(out@) == start + pane_lines(m, ps, i as nat, deep),
            decreases pids.len() - i,
        {
            let pid = &pids[i];
            assert(ps[i as int] == pid@);
            match pane_map_get(&self.panes, pid.as_str()) {
                Some(p) => {
                    let last = i + 1 == pids.len();
                    let icon = if deep {
                        if last { owned("    └─ ") } else { owned("    ├─ ") }
                    } else {
                        if last { owned("  └─ ") } else { owned("  ├─ ") }
                    };
                    let line = TreeLine {
                        id: pid.clone(),
                        selected: selected_is(self, pid),
                        icon,
                        icon_colored: false,
                        label: pane_name(p),
                        active: p.active,
                        detail: string_of(Vec::new().as_slice()),
                    };
                    push_line(out, line);
                },
                None => {},
            }
            i = i + 1;
            assert(line_views(out@) =~= start + pane_lines(m, ps, i as nat, deep));
        }
    }

    fn push_window_lines(&self, wid: &String, out: &mut Vec<TreeLine>)
        ensures
            line_views(final(out)@) == line_views(old(out)@) + window_lines(self.model(), wid@),
    {
        let ghost start = line_views(out@);
        match window_map_get(&self.windows, wid.as_str()) {
            None => {
                assert(line_views(out@) =~= start + window_lines(self.model(), wid@));
            },
            Some(w) => {
                if w.panes.len() <= 1 {
                    let leaf = if w.panes.len() == 1 { w.panes[0].clone() } else { wid.clone() };
                    let (label, active) = if w.panes.len() == 1 {
                        match pane_map_get(&self.panes, w.panes[0].as_str()) {
                            Some(p) => (pane_name(p), p.active),
                            None => (w.name.clone(), w.active),
                        }
                    } else {
                        (w.name.clone(), w.active)
                    };
                    let selected = selected_is(self, &leaf);
                    let line = TreeLine {
                        id: leaf,
                        selected,
                        icon: owned("  ► "),
                        icon_colored: true,
                        label,
                        active,
                        detail: string_of(Vec::new().as_slice()),
                    };
                    push_line(out, line);
                    assert(line_views(out@) =~= start + window_lines(self.model(), wid@));
                } else {
                    let line = TreeLine {
                        id: wid.clone(),
                        selected: selected_is(self, wid),
                        icon: fold_text(w.expanded, true),
                        icon_colored: true,
                        label: w.name.clone(),
                        active: w.active,
                        detail: string_of(Vec::new().as_slice()),
                    };
                    push_line(out, line);
                    let ghost head = line_views(out@);
                    if w.expanded {
                        self.push_pane_lines(&w.panes, true, out);
                    }
                    assert(line_views(out@) =~= start + window_lines(self.model(), wid@));
                }
            },
        }
    }

    fn push_session_lines(&self, s: &Session, out: &mut Vec<TreeLine>)
        ensures
            line_views(final(out)@) == line_views(old(out)@) + session_lines(self.model(), s@),
    {
        let ghost m = self.model();
        let ghost start = line_views(out@);
        let nw = s.windows.len();
        let tp = capped_total_panes(&self.windows, &s.windows);
        if nw <= 1 && tp <= 1 {
            let mut leaf = s.id.clone();
            let mut active = s.attached;
            if nw >= 1 {
                match window_map_get(&self.windows, s.windows[0].as_str()) {
                    Some(w) => {
                        if w.panes.len() > 0 {
                            leaf = w.panes[0].clone();
                            match pane_map_get(&self.panes, w.panes[0].as_str()) {
                                Some(p) => {
                                    active = p.active;
                                },
                                None => {},
                            }
                        }
                    },
                    None => {},
                }
            }
            let selected = selected_is(self, &leaf);
            let line = TreeLine {
                id: leaf,
                selected,
                icon: owned("► "),
                icon_colored: true,
                label: s.name.clone(),
                active,
                detail: string_of(Vec::new().as_slice()),
            };
            push_line(out, line);
            assert(line_views(out@) =~= start + session_lines(m, s@));
            return;
        }
        let count: usize = if nw == 1 {
            match window_map_get(&self.windows, s.windows[0].as_str()) {
                Some(w) => w.panes.len(),
                None => 0,
            }
        } else {
            nw
        };
        proof {
            if nw == 1 {
                let ws = strs(s.windows@);
                assert(ws.drop_last() =~= Seq::<Seq<char>>::empty());
                assert(ws.last() == s.windows@[0]@);
                assert(total_panes(window_entries(self.windows), ws.drop_last()) == 0);
                assert(total_panes(window_entries(self.windows), ws) == window_pane_count(window_entries(self.windows), ws[0]));
                assert(count == total_panes(window_entries(self.windows), ws));
            }
        }
        let header = TreeLine {
            id: s.id.clone(),
            selected: selected_is(self, &s.id),
            icon: fold_text(s.expanded, false),
            icon_colored: true,
            label: s.name.clone(),
            active: false,
            detail: count_text(count, s.attached),
        };
        let ghost hv = header@;
        push_line(out, header);
        let ghost head = line_views(out@);
        assert(hv == session_lines(m, s@)[0]);
        let ghost rest = session_lines(m, s@).skip(1);
        assert(session_lines(m, s@) =~= seq![hv] + rest);
        if s.expanded {
            if nw == 1 {
                match window_map_get(&self.windows, s.windows[0].as_str()) {
                    Some(w) => {
                        self.push_pane_lines(&w.panes, false, out);
                    },
                    None => {},
                }
            } else {
                let mut j: usize = 0;
                while j < s.windows.len()
                    invariant
                        j <= s.windows.len(),
                        m == self.model(),
                        line_views(out@) == head + windows_lines(m, strs(s.windows@).take(j as int)),
                    decreases s.windows.len() - j,
                {
                    self.push_window_lines(&s.windows[j], out);
                    proof {
                        let t = strs(s.windows@).take(j + 1);
                        assert(t.drop_last() =~= strs(s.windows@).take(j as int));
                        assert(t.last() == s.windows@[j as int]@);
                    }
                    j = j + 1;
                }
                assert(strs(s.windows@).take(s.windows.len() as int) =~= strs(s.windows@));
            }
        }
        assert(line_views(out@) =~= head + rest);
        assert(start + session_lines(m, s@) =~= start.push(hv) + rest);
    }

    /// Every row of the tree sidebar, top to bottom; the sidebar draws the
    /// ones from the scroll offset on, as many as fit.
    pub fn tree_lines(&self) -> (lines: Vec<TreeLine>)
        ensures
            line_views(lines@) == tree_lines(self.model()),
    {
        let ghost m = self.model();
        let ghost se = session_entries(self.sessions);
        let mut out: Vec<TreeLine> = Vec::new();
        let n = session_map_len(&self.sessions);
        let mut i: usize = 0;
        assert(line_views(out@) =~= Seq::<LineView>::empty());
        while i < n
            invariant
                i <= n,
                n == se.len(),
                m == self.model(),
                se == session_entries(self.sessions),
                line_views(out@) == sessions_lines(m, se.take(i as int)),
            decreases n - i,
        {
            let (_k, s) = session_map_get_index(&self.sessions, i).unwrap();
            self.push_session_lines(s, &mut out);
            proof {
                let t = se.take(i + 1);
                assert(t.drop_last() =~= se.take(i as int));
                assert(t.last() == se[i as int]);
            }
            i = i + 1;
        }
        assert(se.take(n as int) =~= se);
        out
    }
}


// ---------------------------------------------------------------------------
// The rows drawn are the rows navigated.

pub open spec fn line_ids(ls: Seq<LineView>) -> Seq<Seq<char>> {
    ls.map_values(|l: LineView| l.id)
}

/// Every pane a window lists is in the pane map, as a sync leaves it.
pub open spec fn panes_present(m: TreeModel) -> bool {
    forall|i: int, j: int|
        0 <= i < m.windows.len() && 0 <= j < m.windows[i].1.panes.len() ==> (#[trigger] entry_lookup(
            m.panes,
            m.windows[i].1.panes[j],
        )) is Some
}

proof fn lemma_window_panes_present(m: TreeModel, wid: Seq<char>)
    requires
        panes_present(m),
        entry_lookup(m.windows, wid) is Some,
    ensures
        forall|j: int| 0 <= j < entry_lookup(m.windows, wid).unwrap().panes.len() ==> (#[trigger] entry_lookup(
            m.panes,
            entry_lookup(m.windows, wid).unwrap().panes[j],
        )) is Some,
{
    crate::store::lemma_entry_index(m.windows, wid);
    let i = crate::store::entry_index(m.windows, wid);
    assert forall|j: int| 0 <= j < entry_lookup(m.windows, wid).unwrap().panes.len() implies (#[trigger] entry_lookup(
        m.panes,
        entry_lookup(m.windows, wid).unwrap().panes[j],
    )) is Some by {
        assert(entry_lookup(m.panes, m.windows[i].1.panes[j]) is Some);
    }
}

proof fn lemma_pane_line_ids(m: TreeModel, pids: Seq<Seq<char>>, n: nat, deep: bool)
    requires
        n <= pids.len(),
        forall|j: int| 0 <= j < pids.len() ==> (#[trigger] entry_lookup(m.panes, pids[j])) is Some,
    ensures
        line_ids(pane_lines(m, pids, n, deep)) == pids.take(n as int),
    decreases n,
{
    if n > 0 {
        lemma_pane_line_ids(m, pids, (n - 1) as nat, deep);
        let k = n - 1;
        assert(entry_lookup(m.panes, pids[k as int]) is Some);
        let prev = pane_lines(m, pids, (n - 1) as nat, deep);
        let x = pane_lines(m, pids, n, deep);
        assert(x == prev + seq![x.last()]);
        assert(line_ids(x) =~= line_ids(prev).push(pids[k as int]));
        assert(pids.take(n as int) =~= pids.take(k as int).push(pids[k as int]));
    } else {
        assert(line_ids(pane_lines(m, pids, n, deep)) =~= pids.take(0));
    }
}

proof fn lemma_window_line_ids(m: TreeModel, wid: Seq<char>)
    requires
        panes_present(m),
    ensures
        line_ids(window_lines(m, wid)) == window_rows(m.windows, wid),
{
    match entry_lookup(m.windows, wid) {
        None => {
            assert(line_ids(window_lines(m, wid)) =~= window_rows(m.windows, wid));
        },
        Some(w) => {
            lemma_window_panes_present(m, wid);
            if w.panes.len() <= 1 {
                assert(line_ids(window_lines(m, wid)) =~= window_rows(m.windows, wid));
            } else {
                let hv = window_lines(m, wid)[0];
                if w.expanded {
                    lemma_pane_line_ids(m, w.panes, w.panes.len(), true);
                    assert(w.panes.take(w.panes.len() as int) =~= w.panes);
                    let pl = pane_lines(m, w.panes, w.panes.len(), true);
                    assert(line_ids(seq![hv] + pl) =~= seq![wid] + line_ids(pl));
                } else {
                    assert(line_ids(window_lines(m, wid)) =~= window_rows(m.windows, wid));
                }
            }
        },
    }
}

proof fn lemma_windows_line_ids(m: TreeModel, wins: Seq<Seq<char>>)
    requires
        panes_present(m),
    ensures
        line_ids(windows_lines(m, wins)) == windows_rows(m.windows, wins),
    decreases wins.len(),
{
    if wins.len() > 0 {
        lemma_windows_line_ids(m, wins.drop_last());
        lemma_window_line_ids(m, wins.last());
        let a = windows_lines(m, wins.drop_last());
        let b = window_lines(m, wins.last());
        assert(line_ids(a + b) =~= line_ids(a) + line_ids(b));
    } else {
        assert(line_ids(windows_lines(m, wins)) =~= windows_rows(m.windows, wins));
    }
}

proof fn lemma_session_line_ids(m: TreeModel, s: SessionView)
    requires
        panes_present(m),
    ensures
        line_ids(session_lines(m, s)) == session_rows(m.windows, s),
{
    let we = m.windows;
    if s.windows.len() <= 1 && total_panes(we, s.windows) <= 1 {
        assert(line_ids(session_lines(m, s)) =~= session_rows(we, s));
    } else {
        let ls = session_lines(m, s);
        let hv = ls[0];
        let rest = ls.skip(1);
        assert(ls =~= seq![hv] + rest);
        assert(line_ids(ls) =~= seq![s.id] + line_ids(rest));
        if !s.expanded {
            assert(line_ids(ls) =~= session_rows(we, s));
        } else if s.windows.len() == 1 {
            match entry_lookup(we, s.windows[0]) {
                Some(w) => {
                    lemma_window_panes_present(m, s.windows[0]);
                    lemma_pane_line_ids(m, w.panes, w.panes.len(), false);
                    assert(w.panes.take(w.panes.len() as int) =~= w.panes);
                    assert(rest =~= pane_lines(m, w.panes, w.panes.len(), false));
                },
                None => {
                    assert(rest =~= Seq::<LineView>::empty());
                },
            }
            assert(line_ids(ls) =~= session_rows(we, s));
        } else {
            lemma_windows_line_ids(m, s.windows);
            assert(rest =~= windows_lines(m, s.windows));
            assert(line_ids(ls) =~= session_rows(we, s));
        }
    }
}

proof fn lemma_sessions_line_ids(m: TreeModel, se: Seq<(Seq<char>, SessionView)>)
    requires
        panes_present(m),
    ensures
        line_ids(sessions_lines(m, se)) == tree_rows(se, m.windows),
    decreases se.len(),
{
    if se.len() > 0 {
        lemma_sessions_line_ids(m, se.drop_last());
        lemma_session_line_ids(m, se.last().1);
        let a = sessions_lines(m, se.drop_last());
        let b = session_lines(m, se.last().1);
        assert(line_ids(a + b) =~= line_ids(a) + line_ids(b));
    } else {
        assert(line_ids(sessions_lines(m, se)) =~= tree_rows(se, m.windows));
    }
}

/// The sidebar draws exactly the rows that navigation, clicks and scrolling
/// index, in the same order, whenever every pane a window lists is known.
pub proof fn drawn_rows_are_the_navigated_rows(m: TreeModel)
    requires
        panes_present(m),
    ensures
        line_ids(tree_lines(m)) == model_rows(m),
{
    lemma_sessions_line_ids(m, m.sessions);
}


// ---------------------------------------------------------------------------
// The command bar and the popups.

/// The key hints of the command bar and the label of its mode pill, for the
/// focused panel.
pub open spec fn hints_for(panel: Panel) -> (Seq<char>, Seq<char>) {
    match panel {
        Panel::Tree => ("SPACE toggle  ENTER preview  a attach  n new  r rename  ? help  Q quit"@, "TREE"@),
        Panel::Preview => ("C-b d  back to tree    C-b <key>  pass prefix to tmux"@, "PREVIEW"@),
    }
}

pub fn command_hints(panel: Panel) -> (r: (String, String))
    ensures
        (r.0@, r.1@) == hints_for(panel),
{
    match panel {
        Panel::Tree => (owned("SPACE toggle  ENTER preview  a attach  n new  r rename  ? help  Q quit"), owned("TREE")),
        Panel::Preview => (owned("C-b d  back to tree    C-b <key>  pass prefix to tmux"), owned("PREVIEW")),
    }
}

/// A `width` by `height` popup centred in `area` (its width no wider than
/// the area).
pub open spec fn popup_spec(area: Rect, width: u16, height: u16) -> Rect {
    rect_new(
        (area.x + crate::input::sat_sub(area.width, width) / 2) as u16,
        (area.y + crate::input::sat_sub(area.height, height) / 2) as u16,
        if width < area.width { width } else { area.width },
        height,
    )
}

pub fn popup_rect(area: Rect, width: u16, height: u16) -> (r: Rect)
    requires
        area.x + crate::input::sat_sub(area.width, width) / 2 <= u16::MAX,
        area.y + crate::input::sat_sub(area.height, height) / 2 <= u16::MAX,
    ensures
        r == popup_spec(area, width, height),
{
    let dx: u16 = if area.width >= width { area.width - width } else { 0 };
    let dy: u16 = if area.height >= height { area.height - height } else { 0 };
    Rect::new(area.x + dx / 2, area.y + dy / 2, if width < area.width { width } else { area.width }, height)
}


proof fn lemma_expanding_keeps_panes(we: Seq<(Seq<char>, WindowView)>, k: Seq<char>)
    ensures
        crate::state::set_window_expanded(we, k, true).len() == we.len(),
        forall|i: int| 0 <= i < we.len() ==> (#[trigger] crate::state::set_window_expanded(we, k, true)[i]).1.panes
            == we[i].1.panes,
{
    crate::store::lemma_entry_index(we, k);
}

/// After a sync, the sidebar draws exactly the rows that navigation, clicks
/// and scrolling index: every pane a rebuilt window lists is known, and
/// settling the selection only expands nodes.
pub proof fn synced_tree_draws_its_rows(
    m: TreeModel,
    saved: Seq<Seq<char>>,
    sl: Seq<Seq<char>>,
    wl: Seq<Seq<char>>,
    pl: Seq<Seq<char>>,
    tmux_pane: Option<Seq<char>>,
    last_target: Option<Seq<char>>,
)
    ensures
        ({
            let s = crate::sync::settled(crate::sync::rebuilt_tree(m, saved, sl, wl, pl), tmux_pane, last_target).0;
            line_ids(tree_lines(s)) == model_rows(s)
        }),
{
    let t = crate::sync::rebuilt_tree(m, saved, sl, wl, pl);
    crate::sync::rebuild_lists_each_pane_once(m, saved, sl, wl, pl);
    let s = crate::sync::settled(t, tmux_pane, last_target).0;
    assert(panes_present(t));
    assert(s.panes == t.panes);
    if s.windows != t.windows {
        let p = crate::sync::active_choice(t, tmux_pane, last_target).unwrap();
        lemma_expanding_keeps_panes(t.windows, p.window_id);
        assert(s.windows == crate::state::set_window_expanded(t.windows, p.window_id, true));
    }
    assert(panes_present(s));
    drawn_rows_are_the_navigated_rows(s);
}

} // verus!
