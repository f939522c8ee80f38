//! The level-at-a-time tree: every session, window and pane is a row of its
//! own, and navigation moves within one level (sessions, windows or panes),
//! chosen with left and right.

use vstd::prelude::*;
use indexmap::IndexMap;

use crate::state::{
    copy_strings, first_index, lemma_first_index, opt_view, position, scrolled, set_window_expanded,
    set_window_flag, strs, Focus, NavMode, Pane, PaneView, Window, WindowView,
};
use crate::store::{
    entry_index, entry_insert, entry_lookup, lemma_entry_index, lemma_entry_insert, pane_entries, pane_map_get, pane_map_new, window_entries, window_map_get,
    window_map_insert, window_map_new,
};
use crate::text::{chars_of, owned, split_chars, split_on, string_of};
use crate::input::{push_utf8, utf8, KeyCode, KeyEvent};
use crate::state::Panel;
use crate::sync::{
    contains_chars, expanded_window_ids, expanded_window_ids_of, field_sep, keys_differ, lemma_fields,
    pane_from_fields, pane_keys, pane_keys_changed, parsed_pane, parsed_window, window_from_fields,
};
use crate::store::{entry_keys, pane_map_clear, pane_map_contains_key, pane_map_insert, window_map_clear, window_map_contains_key};
use crate::state::default_focus;

verus! {

pub struct Session {
    pub id: String,
    pub name: String,
    pub windows: Vec<String>,
    pub expanded: bool,
}

pub struct SessionView {
    pub id: Seq<char>,
    pub name: Seq<char>,
    pub windows: Seq<Seq<char>>,
    pub expanded: bool,
}

impl View for Session {
    type V = SessionView;

    open spec fn view(&self) -> SessionView {
        SessionView { id: self.id@, name: self.name@, windows: strs(self.windows@), expanded: self.expanded }
    }
}

#[derive(Debug)]
pub enum InputMode {
    TuiNormal,
    PtyPassthrough { pane_id: String },
    FuzzySearch,
    Command,
}

pub struct AppState {
    pub sessions: IndexMap<String, Session>,
    pub windows: IndexMap<String, Window>,
    pub panes: IndexMap<String, Pane>,
    pub focus: Focus,
    pub input_mode: InputMode,
    pub show_help: bool,
    pub expanded_ids: Vec<String>,
}

/// The UI state that survives a restart.
pub struct PersistentState {
    pub focus: Focus,
    pub expanded_ids: Vec<String>,
}

/// The entries of a session map, in order, by view.
pub uninterp spec fn classic_session_entries(m: IndexMap<String, Session>) -> Seq<(Seq<char>, SessionView)>;

/// `IndexMap::new` for sessions.
#[verifier::external_body]
pub(crate) fn classic_map_new() -> (m: IndexMap<String, Session>)
    ensures
        classic_session_entries(m) == Seq::<(Seq<char>, SessionView)>::empty(),
{
    IndexMap::new()
}

/// `IndexMap::len` for sessions.
#[verifier::external_body]
pub(crate) fn classic_map_len(m: &IndexMap<String, Session>) -> (n: usize)
    ensures
        n == classic_session_entries(*m).len(),
{
    m.len()
}

/// `IndexMap::get_index` for sessions: the entry at a position, in order.
#[verifier::external_body]
pub(crate) fn classic_map_get_index(m: &IndexMap<String, Session>, i: usize) -> (r: Option<(&String, &Session)>)
    ensures
        i < classic_session_entries(*m).len() ==> r is Some && r.unwrap().0@ == classic_session_entries(*m)[i as int].0
            && r.unwrap().1@ == classic_session_entries(*m)[i as int].1,
        i >= classic_session_entries(*m).len() ==> r is None,
{
    m.get_index(i)
}

/// `IndexMap::get` for sessions.
#[verifier::external_body]
pub(crate) fn classic_map_get<'a>(m: &'a IndexMap<String, Session>, key: &str) -> (r: Option<&'a Session>)
    ensures
        r matches Some(v) ==> entry_lookup(classic_session_entries(*m), key@) == Some(v@),
        r is None ==> entry_lookup(classic_session_entries(*m), key@) is None,
{
    m.get(key)
}

/// `IndexMap::insert` for sessions.
#[verifier::external_body]
pub(crate) fn classic_map_insert(m: &mut IndexMap<String, Session>, key: String, value: Session)
    ensures
        classic_session_entries(*final(m)) == entry_insert(classic_session_entries(*old(m)), key@, value@),
{
    m.insert(key, value);
}

/// The tree, the selection and the navigation level, as values.
pub struct Model {
    pub sessions: Seq<(Seq<char>, SessionView)>,
    pub windows: Seq<(Seq<char>, WindowView)>,
    pub panes: Seq<(Seq<char>, PaneView)>,
    pub selected: Option<Seq<char>>,
    pub nav_mode: NavMode,
}

impl AppState {
    pub open spec fn model(&self) -> Model {
        Model {
            sessions: classic_session_entries(self.sessions),
            windows: window_entries(self.windows),
            panes: pane_entries(self.panes),
            selected: opt_view(self.focus.selected_id),
            nav_mode: self.focus.nav_mode,
        }
    }

    /// Everything but the tree, the selection and the navigation level.
    pub open spec fn same_rest(&self, other: &AppState) -> bool {
        &&& self.focus.panel == other.focus.panel
        &&& self.focus.scroll_offset == other.focus.scroll_offset
        &&& self.focus.enable_scrolling == other.focus.enable_scrolling
        &&& self.input_mode == other.input_mode
        &&& self.show_help == other.show_help
        &&& self.expanded_ids == other.expanded_ids
    }
}

// ---------------------------------------------------------------------------
// The rows of one level, and of the whole tree.

/// The ids of one window's level: the window itself (window level), or its
/// panes when it is expanded (pane level).
pub open spec fn window_flat(we: Seq<(Seq<char>, WindowView)>, wid: Seq<char>, mode: NavMode) -> Seq<Seq<char>> {
    if mode == NavMode::Window {
        seq![wid]
    } else {
        match entry_lookup(we, wid) {
            Some(w) => if w.expanded { w.panes } else { Seq::empty() },
            None => Seq::empty(),
        }
    }
}

pub open spec fn windows_flat(we: Seq<(Seq<char>, WindowView)>, wins: Seq<Seq<char>>, mode: NavMode) -> Seq<Seq<char>>
    decreases wins.len(),
{
    if wins.len() == 0 {
        Seq::empty()
    } else {
        windows_flat(we, wins.drop_last(), mode) + window_flat(we, wins.last(), mode)
    }
}

/// The ids one session contributes to a level: itself at session level;
/// below that, nothing when it is collapsed.
pub open spec fn session_flat(we: Seq<(Seq<char>, WindowView)>, s: SessionView, mode: NavMode) -> Seq<Seq<char>> {
    if mode == NavMode::Session {
        seq![s.id]
    } else if !s.expanded {
        Seq::empty()
    } else {
        windows_flat(we, s.windows, mode)
    }
}

pub open spec fn sessions_flat(
    se: Seq<(Seq<char>, SessionView)>,
    we: Seq<(Seq<char>, WindowView)>,
    mode: NavMode,
) -> Seq<Seq<char>>
    decreases se.len(),
{
    if se.len() == 0 {
        Seq::empty()
    } else {
        sessions_flat(se.drop_last(), we, mode) + session_flat(we, se.last().1, mode)
    }
}

/// The ids navigation moves through at a level.
pub open spec fn flat_rows(m: Model, mode: NavMode) -> Seq<Seq<char>> {
    sessions_flat(m.sessions, m.windows, mode)
}

/// The whole tree, as drawn: each session, then (when expanded) each of its
/// windows followed (when expanded) by its panes.
pub open spec fn window_tree(we: Seq<(Seq<char>, WindowView)>, wid: Seq<char>) -> Seq<Seq<char>> {
    seq![wid] + match entry_lookup(we, wid) {
        Some(w) => if w.expanded { w.panes } else { Seq::empty() },
        None => Seq::empty(),
    }
}

pub open spec fn windows_tree(we: Seq<(Seq<char>, WindowView)>, wins: Seq<Seq<char>>) -> Seq<Seq<char>>
    decreases wins.len(),
{
    if wins.len() == 0 {
        Seq::empty()
    } else {
        windows_tree(we, wins.drop_last()) + window_tree(we, wins.last())
    }
}

pub open spec fn sessions_tree(se: Seq<(Seq<char>, SessionView)>, we: Seq<(Seq<char>, WindowView)>) -> Seq<Seq<char>>
    decreases se.len(),
{
    if se.len() == 0 {
        Seq::empty()
    } else {
        sessions_tree(se.drop_last(), we) + seq![se.last().1.id] + if se.last().1.expanded {
            windows_tree(we, se.last().1.windows)
        } else {
            Seq::empty()
        }
    }
}

pub open spec fn tree_rows(m: Model) -> Seq<Seq<char>> {
    sessions_tree(m.sessions, m.windows)
}

fn push_all(list: &mut Vec<String>, items: &Vec<String>)
    ensures
        strs(final(list)@) == strs(old(list)@) + strs(items@),
{
    let ghost start = strs(list@);
    let mut i: usize = 0;
    while i < items.len()
        invariant
            i <= items.len(),
            strs(list@) == start + strs(items@).take(i as int),
        decreases items.len() - i,
    {
        let ghost before = list@;
        list.push(items[i].clone());
        assert(strs(list@) =~= strs(before).push(items@[i as int]@));
        i = i + 1;
        assert(strs(items@).take(i as int) =~= strs(items@).take(i - 1).push(items@[i - 1]@));
    }
    assert(strs(items@).take(items.len() as int) =~= strs(items@));
}

fn push_one(list: &mut Vec<String>, s: &String)
    ensures
        strs(final(list)@) == strs(old(list)@).push(s@),
{
    let ghost before = list@;
    list.push(s.clone());
    assert(strs(list@) =~= strs(before).push(s@));
}

impl AppState {
    fn push_window_flat(&self, wid: &String, mode: NavMode, list: &mut Vec<String>)
        requires
            mode != NavMode::Session,
        ensures
            strs(final(list)@) == strs(old(list)@) + window_flat(window_entries(self.windows), wid@, mode),
    {
        if mode == NavMode::Window {
            push_one(list, wid);
            return;
        }
        match window_map_get(&self.windows, wid.as_str()) {
            Some(w) => {
                if w.expanded {
                    push_all(list, &w.panes);
                } else {
                    assert(strs(list@) =~= strs(list@) + Seq::<Seq<char>>::empty());
                }
            },
            None => {
                assert(strs(list@) =~= strs(list@) + Seq::<Seq<char>>::empty());
            },
        }
    }

    /// The ids navigation moves through at the level `mode`.
    pub fn get_flat_list(&self, mode: &NavMode) -> (list: Vec<String>)
        ensures
            strs(list@) == flat_rows(self.model(), *mode),
    {
        let ghost se = classic_session_entries(self.sessions);
        let ghost we = window_entries(self.windows);
        let mut list: Vec<String> = Vec::new();
        let n = classic_map_len(&self.sessions);
        let mut i: usize = 0;
        assert(strs(list@) =~= Seq::<Seq<char>>::empty());
        while i < n
            invariant
                i <= n,
                n == se.len(),
                se == classic_session_entries(self.sessions),
                we == window_entries(self.windows),
                strs(list@) == sessions_flat(se.take(i as int), we, *mode),
            decreases n - i,
        {
            let (_k, s) = classic_map_get_index(&self.sessions, i).unwrap();
            let ghost before = strs(list@);
            if *mode == NavMode::Session {
                push_one(&mut list, &s.id);
            } else if s.expanded {
                let mut j: usize = 0;
                while j < s.windows.len()
                    invariant
                        j <= s.windows.len(),
                        *mode != NavMode::Session,
                        we == window_entries(self.windows),
                        strs(list@) == before + windows_flat(we, strs(s.windows@).take(j as int), *mode),
                    decreases s.windows.len() - j,
                {
                    self.push_window_flat(&s.windows[j], *mode, &mut list);
                    proof {
                        let t = strs(s.windows@).take(j + 1);
                        assert(t.drop_last() =~= strs(s.windows@).take(j as int));
                        assert(t.last() == s.windows@[j as int]@);
                    }
                    j = j + 1;
                }
                assert(strs(s.windows@).take(s.windows.len() as int) =~= strs(s.windows@));
            } else {
                assert(strs(list@) =~= before + Seq::<Seq<char>>::empty());
            }
            proof {
                let t = se.take(i + 1);
                assert(t.drop_last() =~= se.take(i as int));
                assert(t.last() == se[i as int]);
            }
            i = i + 1;
        }
        assert(se.take(n as int) =~= se);
        list
    }

    /// The whole tree, as drawn.
    pub fn get_visible_list(&self) -> (list: Vec<String>)
        ensures
            strs(list@) == tree_rows(self.model()),
    {
        let ghost se = classic_session_entries(self.sessions);
        let ghost we = window_entries(self.windows);
        let mut list: Vec<String> = Vec::new();
        let n = classic_map_len(&self.sessions);
        let mut i: usize = 0;
        assert(strs(list@) =~= Seq::<Seq<char>>::empty());
        while i < n
            invariant
                i <= n,
                n == se.len(),
                se == classic_session_entries(self.sessions),
                we == window_entries(self.windows),
                strs(list@) == sessions_tree(se.take(i as int), we),
            decreases n - i,
        {
            let (_k, s) = classic_map_get_index(&self.sessions, i).unwrap();
            let ghost before = strs(list@);
            push_one(&mut list, &s.id);
            let ghost head = strs(list@);
            if s.expanded {
                let mut j: usize = 0;
                while j < s.windows.len()
                    invariant
                        j <= s.windows.len(),
                        we == window_entries(self.windows),
                        strs(list@) == head + windows_tree(we, strs(s.windows@).take(j as int)),
                    decreases s.windows.len() - j,
                {
                    let wid = &s.windows[j];
                    let ghost before_w = strs(list@);
                    push_one(&mut list, wid);
                    match window_map_get(&self.windows, wid.as_str()) {
                        Some(w) => {
                            if w.expanded {
                                push_all(&mut list, &w.panes);
                            }
                        },
                        None => {},
                    }
                    assert(strs(list@) =~= before_w + window_tree(we, wid@));
                    proof {
                        let t = strs(s.windows@).take(j + 1);
                        assert(t.drop_last() =~= strs(s.windows@).take(j as int));
                        assert(t.last() == s.windows@[j as int]@);
                    }
                    j = j + 1;
                }
                assert(strs(s.windows@).take(s.windows.len() as int) =~= strs(s.windows@));
            }
            proof {
                let t = se.take(i + 1);
                assert(t.drop_last() =~= se.take(i as int));
                assert(t.last() == se[i as int]);
            }
            assert(strs(list@) =~= sessions_tree(se.take(i + 1), we));
            i = i + 1;
        }
        assert(se.take(n as int) =~= se);
        list
    }
}


// ---------------------------------------------------------------------------
// Moving within a level.

/// Up: the previous id of the level, staying put at the top; a selection
/// that is not on the level goes to its last id.
pub open spec fn step_up(rows: Seq<Seq<char>>, sel: Option<Seq<char>>) -> Option<Seq<char>> {
    if rows.len() == 0 {
        sel
    } else {
        match sel {
            Some(x) => if first_index(rows, x) >= 0 {
                if first_index(rows, x) > 0 { Some(rows[first_index(rows, x) - 1]) } else { sel }
            } else {
                Some(rows.last())
            },
            None => Some(rows.last()),
        }
    }
}

/// Down: the next id of the level, staying put at the bottom; a selection
/// that is not on the level goes to its first id.
pub open spec fn step_down(rows: Seq<Seq<char>>, sel: Option<Seq<char>>) -> Option<Seq<char>> {
    if rows.len() == 0 {
        sel
    } else {
        match sel {
            Some(x) => if first_index(rows, x) >= 0 {
                if first_index(rows, x) + 1 < rows.len() { Some(rows[first_index(rows, x) + 1]) } else { sel }
            } else {
                Some(rows[0])
            },
            None => Some(rows[0]),
        }
    }
}

impl AppState {
    /// Moves the selection to the previous id of the current level.
    pub fn move_selection_up(&mut self)
        ensures
            final(self).model() == (Model {
                selected: step_up(flat_rows(old(self).model(), old(self).focus.nav_mode), old(self).model().selected),
                ..old(self).model()
            }),
            final(self).same_rest(&*old(self)),
    {
        let mode = self.focus.nav_mode;
        let list = self.get_flat_list(&mode);
        let ghost rows = strs(list@);
        if list.len() == 0 {
            return;
        }
        proof {
            if self.model().selected is Some {
                lemma_first_index(rows, self.model().selected.unwrap());
            }
        }
        let pos = match &self.focus.selected_id {
            Some(sel) => position(&list, sel),
            None => None,
        };
        match pos {
            Some(p) => {
                if p > 0 {
                    assert(rows[p - 1] == list@[p - 1]@);
                    self.focus.selected_id = Some(list[p - 1].clone());
                }
            },
            None => {
                assert(rows.last() == list@[list.len() - 1]@);
                self.focus.selected_id = Some(list[list.len() - 1].clone());
            },
        }
    }

    /// Moves the selection to the next id of the current level.
    pub fn move_selection_down(&mut self)
        ensures
            final(self).model() == (Model {
                selected: step_down(flat_rows(old(self).model(), old(self).focus.nav_mode), old(self).model().selected),
                ..old(self).model()
            }),
            final(self).same_rest(&*old(self)),
    {
        let mode = self.focus.nav_mode;
        let list = self.get_flat_list(&mode);
        let ghost rows = strs(list@);
        if list.len() == 0 {
            return;
        }
        let pos = match &self.focus.selected_id {
            Some(sel) => position(&list, sel),
            None => None,
        };
        match pos {
            Some(p) => {
                if p + 1 < list.len() {
                    assert(rows[p + 1] == list@[p + 1]@);
                    self.focus.selected_id = Some(list[p + 1].clone());
                }
            },
            None => {
                assert(rows[0] == list@[0]@);
                self.focus.selected_id = Some(list[0].clone());
            },
        }
    }
}

// ---------------------------------------------------------------------------
// Changing level, and expanding.

/// The session entries with `k`'s expansion flag set to `b` (unchanged when
/// there is no such session).
pub open spec fn set_session_expanded(se: Seq<(Seq<char>, SessionView)>, k: Seq<char>, b: bool) -> Seq<(Seq<char>, SessionView)> {
    match entry_lookup(se, k) {
        Some(v) => entry_insert(se, k, SessionView { expanded: b, ..v }),
        None => se,
    }
}

/// Expands what the selection sits in, so it can be seen: a window's
/// session, or a pane's window and that window's session.
pub open spec fn ensure_expanded(m: Model) -> Model {
    match m.selected {
        None => m,
        Some(sel) => match entry_lookup(m.windows, sel) {
            Some(w) => Model { sessions: set_session_expanded(m.sessions, w.session_id, true), ..m },
            None => match entry_lookup(m.panes, sel) {
                Some(p) => match entry_lookup(m.windows, p.window_id) {
                    Some(w) => Model {
                        windows: set_window_expanded(m.windows, p.window_id, true),
                        sessions: set_session_expanded(m.sessions, w.session_id, true),
                        ..m
                    },
                    None => m,
                },
                None => m,
            },
        },
    }
}

/// Left: up one level (panes, windows, sessions), selecting the parent of the
/// selected pane or window.
pub open spec fn level_up(m: Model) -> Model {
    ensure_expanded(
        match m.nav_mode {
            NavMode::Pane => Model {
                nav_mode: NavMode::Window,
                selected: match m.selected {
                    Some(sel) => match entry_lookup(m.panes, sel) {
                        Some(p) => Some(p.window_id),
                        None => m.selected,
                    },
                    None => None,
                },
                ..m
            },
            NavMode::Window => Model {
                nav_mode: NavMode::Session,
                selected: match m.selected {
                    Some(sel) => match entry_lookup(m.windows, sel) {
                        Some(w) => Some(w.session_id),
                        None => m.selected,
                    },
                    None => None,
                },
                ..m
            },
            NavMode::Session => m,
        },
    )
}

/// Right: down one level, selecting the first child of the selected session
/// or window.
pub open spec fn level_down(m: Model) -> Model {
    ensure_expanded(
        match m.nav_mode {
            NavMode::Session => Model {
                nav_mode: NavMode::Window,
                selected: match m.selected {
                    Some(sel) => match entry_lookup(m.sessions, sel) {
                        Some(s) => if s.windows.len() > 0 { Some(s.windows[0]) } else { m.selected },
                        None => m.selected,
                    },
                    None => None,
                },
                ..m
            },
            NavMode::Window => Model {
                nav_mode: NavMode::Pane,
                selected: match m.selected {
                    Some(sel) => match entry_lookup(m.windows, sel) {
                        Some(w) => if w.panes.len() > 0 { Some(w.panes[0]) } else { m.selected },
                        None => m.selected,
                    },
                    None => None,
                },
                ..m
            },
            NavMode::Pane => m,
        },
    )
}

/// Space: flips the expansion of the selected session or window.
pub open spec fn toggled(m: Model) -> Model {
    match m.selected {
        None => m,
        Some(sel) => match entry_lookup(m.sessions, sel) {
            Some(s) => Model { sessions: set_session_expanded(m.sessions, sel, !s.expanded), ..m },
            None => match entry_lookup(m.windows, sel) {
                Some(w) => Model { windows: set_window_expanded(m.windows, sel, !w.expanded), ..m },
                None => m,
            },
        },
    }
}

impl Session {
    /// This session with its expansion flag set to `expanded`.
    pub fn with_expanded(&self, expanded: bool) -> (r: Session)
        ensures
            r@ == (SessionView { expanded, ..self@ }),
    {
        Session { id: self.id.clone(), name: self.name.clone(), windows: copy_strings(&self.windows), expanded }
    }
}

fn set_session_flag(m: &mut IndexMap<String, Session>, k: &str, b: bool)
    ensures
        classic_session_entries(*final(m)) == set_session_expanded(classic_session_entries(*old(m)), k@, b),
{
    let ns = match classic_map_get(m, k) {
        Some(s) => Some(s.with_expanded(b)),
        None => None,
    };
    match ns {
        Some(ns) => classic_map_insert(m, owned(k), ns),
        None => {},
    }
}

impl AppState {
    fn ensure_selected_expanded(&mut self)
        ensures
            final(self).model() == ensure_expanded(old(self).model()),
            final(self).same_rest(&*old(self)),
            final(self).focus == old(self).focus,
    {
        let sel = match &self.focus.selected_id {
            Some(s) => s.clone(),
            None => return,
        };
        match window_map_get(&self.windows, sel.as_str()) {
            Some(w) => {
                let sid = w.session_id.clone();
                set_session_flag(&mut self.sessions, sid.as_str(), true);
                return;
            },
            None => {},
        }
        let wid = match pane_map_get(&self.panes, sel.as_str()) {
            Some(p) => p.window_id.clone(),
            None => return,
        };
        let sid = match window_map_get(&self.windows, wid.as_str()) {
            Some(w) => w.session_id.clone(),
            None => return,
        };
        set_window_flag(&mut self.windows, wid.as_str(), true);
        set_session_flag(&mut self.sessions, sid.as_str(), true);
    }

    /// Left: up one level.
    pub fn switch_nav_left(&mut self)
        ensures
            final(self).model() == level_up(old(self).model()),
            final(self).same_rest(&*old(self)),
    {
        match self.focus.nav_mode {
            NavMode::Pane => {
                self.focus.nav_mode = NavMode::Window;
                let parent = match &self.focus.selected_id {
                    Some(sel) => match pane_map_get(&self.panes, sel.as_str()) {
                        Some(p) => Some(p.window_id.clone()),
                        None => None,
                    },
                    None => None,
                };
                if let Some(w) = parent {
                    self.focus.selected_id = Some(w);
                }
            },
            NavMode::Window => {
                self.focus.nav_mode = NavMode::Session;
                let parent = match &self.focus.selected_id {
                    Some(sel) => match window_map_get(&self.windows, sel.as_str()) {
                        Some(w) => Some(w.session_id.clone()),
                        None => None,
                    },
                    None => None,
                };
                if let Some(s) = parent {
                    self.focus.selected_id = Some(s);
                }
            },
            NavMode::Session => {},
        }
        self.ensure_selected_expanded();
    }

    /// Right: down one level.
    pub fn switch_nav_right(&mut self)
        ensures
            final(self).model() == level_down(old(self).model()),
            final(self).same_rest(&*old(self)),
    {
        match self.focus.nav_mode {
            NavMode::Session => {
                self.focus.nav_mode = NavMode::Window;
                let child = match &self.focus.selected_id {
                    Some(sel) => match classic_map_get(&self.sessions, sel.as_str()) {
                        Some(s) => if s.windows.len() > 0 {
                            assert(strs(s.windows@)[0] == s.windows@[0]@);
                            Some(s.windows[0].clone())
                        } else {
                            None
                        },
                        None => None,
                    },
                    None => None,
                };
                if let Some(w) = child {
                    self.focus.selected_id = Some(w);
                }
            },
            NavMode::Window => {
                self.focus.nav_mode = NavMode::Pane;
                let child = match &self.focus.selected_id {
                    Some(sel) => match window_map_get(&self.windows, sel.as_str()) {
                        Some(w) => if w.panes.len() > 0 {
                            assert(strs(w.panes@)[0] == w.panes@[0]@);
                            Some(w.panes[0].clone())
                        } else {
                            None
                        },
                        None => None,
                    },
                    None => None,
                };
                if let Some(p) = child {
                    self.focus.selected_id = Some(p);
                }
            },
            NavMode::Pane => {},
        }
        self.ensure_selected_expanded();
    }

    /// Flips the expansion of the selected session or window.
    pub fn toggle_expansion(&mut self)
        ensures
            final(self).model() == toggled(old(self).model()),
            final(self).same_rest(&*old(self)),
    {
        match &self.focus.selected_id {
            None => {},
            Some(sel) => {
                match classic_map_get(&self.sessions, sel.as_str()) {
                    Some(s) => {
                        let e = s.expanded;
                        set_session_flag(&mut self.sessions, sel.as_str(), !e);
                    },
                    None => {
                        match window_map_get(&self.windows, sel.as_str()) {
                            Some(w) => {
                                let e = w.expanded;
                                set_window_flag(&mut self.windows, sel.as_str(), !e);
                            },
                            None => {},
                        }
                    },
                }
            },
        }
    }
}


// ---------------------------------------------------------------------------
// Scrolling, defaults and what survives a restart.

impl AppState {
    /// No overflow in `scroll_offset + height` where the scroll update adds them.
    pub open spec fn scroll_fits(&self, height: usize) -> bool {
        match self.model().selected {
            Some(x) => {
                let pos = first_index(tree_rows(self.model()), x);
                pos >= 0 && pos >= self.focus.scroll_offset ==> self.focus.scroll_offset + height <= usize::MAX
            },
            None => true,
        }
    }

    /// Scrolls so the selected row is among the `height` rows shown.
    pub fn update_scroll(&mut self, height: usize)
        requires
            old(self).scroll_fits(height),
        ensures
            final(self).focus.scroll_offset == scrolled(
                tree_rows(old(self).model()),
                old(self).model().selected,
                old(self).focus.scroll_offset as int,
                height as int,
            ),
            final(self).model() == old(self).model(),
            final(self).focus.panel == old(self).focus.panel,
            final(self).focus.enable_scrolling == old(self).focus.enable_scrolling,
            final(self).input_mode == old(self).input_mode,
            final(self).show_help == old(self).show_help,
            final(self).expanded_ids == old(self).expanded_ids,
    {
        let visible = self.get_visible_list();
        let ghost rows = strs(visible@);
        proof {
            if self.model().selected is Some {
                lemma_first_index(rows, self.model().selected.unwrap());
            }
        }
        let pos = match &self.focus.selected_id {
            Some(sel) => position(&visible, sel),
            None => None,
        };
        match pos {
            Some(pos) => {
                assert(pos < visible.len());
                if pos < self.focus.scroll_offset {
                    self.focus.scroll_offset = pos;
                } else if pos >= self.focus.scroll_offset + height {
                    self.focus.scroll_offset = pos - height + 1;
                }
            },
            None => {},
        }
        if visible.len() > 0 {
            let max_offset = if visible.len() >= height { visible.len() - height } else { 0 };
            if self.focus.scroll_offset > max_offset {
                self.focus.scroll_offset = max_offset;
            }
        } else {
            self.focus.scroll_offset = 0;
        }
    }

    /// What is written to disk: the focus and the ids of the expanded
    /// sessions and windows, sessions first.
    pub fn persistent_state(&self) -> (p: PersistentState)
        ensures
            p.focus == self.focus,
            strs(p.expanded_ids@) == expanded_sessions(classic_session_entries(self.sessions))
                + crate::sync::expanded_window_ids(window_entries(self.windows)),
    {
        let ghost se = classic_session_entries(self.sessions);
        let mut ids: Vec<String> = Vec::new();
        let n = classic_map_len(&self.sessions);
        let mut i: usize = 0;
        assert(strs(ids@) =~= expanded_sessions(se.take(0)));
        while i < n
            invariant
                i <= n,
                n == se.len(),
                se == classic_session_entries(self.sessions),
                strs(ids@) == expanded_sessions(se.take(i as int)),
            decreases n - i,
        {
            let (k, s) = classic_map_get_index(&self.sessions, i).unwrap();
            if s.expanded {
                push_one(&mut ids, k);
            }
            proof {
                let t = se.take(i + 1);
                assert(t.drop_last() =~= se.take(i as int));
                assert(t.last() == se[i as int]);
            }
            i = i + 1;
        }
        assert(se.take(n as int) =~= se);
        let wins = crate::sync::expanded_window_ids_of(&self.windows);
        let ghost before = strs(ids@);
        push_all(&mut ids, &wins);
        PersistentState { focus: self.focus.duplicate(), expanded_ids: ids }
    }

    /// A fresh state, with what was read back from disk (if anything) applied.
    pub fn from_persistent(p: Option<PersistentState>) -> (st: AppState)
        ensures
            classic_session_entries(st.sessions).len() == 0,
            window_entries(st.windows).len() == 0,
            pane_entries(st.panes).len() == 0,
            st.input_mode == InputMode::TuiNormal,
            !st.show_help,
            p is None ==> default_focus(st.focus) && st.expanded_ids@.len() == 0,
            p matches Some(q) ==> st.focus == q.focus && st.expanded_ids == q.expanded_ids,
    {
        let mut st = AppState::default();
        match p {
            Some(q) => {
                st.focus = q.focus;
                st.expanded_ids = q.expanded_ids;
            },
            None => {},
        }
        st
    }
}

/// The ids of the expanded sessions, in order.
pub open spec fn expanded_sessions(se: Seq<(Seq<char>, SessionView)>) -> Seq<Seq<char>>
    decreases se.len(),
{
    if se.len() == 0 {
        Seq::empty()
    } else if se.last().1.expanded {
        expanded_sessions(se.drop_last()).push(se.last().0)
    } else {
        expanded_sessions(se.drop_last())
    }
}

impl Default for AppState {
    fn default() -> (st: Self)
        ensures
            classic_session_entries(st.sessions).len() == 0,
            window_entries(st.windows).len() == 0,
            pane_entries(st.panes).len() == 0,
            default_focus(st.focus),
            st.input_mode == InputMode::TuiNormal,
            !st.show_help,
            st.expanded_ids@.len() == 0,
    {
        AppState {
            sessions: classic_map_new(),
            windows: window_map_new(),
            panes: pane_map_new(),
            focus: Focus::default(),
            input_mode: InputMode::TuiNormal,
            show_help: false,
            expanded_ids: Vec::new(),
        }
    }
}

// ---------------------------------------------------------------------------
// Laws.

/// A move on a level that has ids lands on one of them, and never wraps: up
/// from the first id and down from the last stay put.
pub proof fn level_moves_stay_on_the_level(rows: Seq<Seq<char>>, sel: Option<Seq<char>>)
    requires
        rows.len() > 0,
    ensures
        step_up(rows, sel) is Some && rows.contains(step_up(rows, sel)->0),
        step_down(rows, sel) is Some && rows.contains(step_down(rows, sel)->0),
        sel == Some(rows[0]) ==> step_up(rows, sel) == sel,
        sel == Some(rows.last()) && first_index(rows, rows.last()) == rows.len() - 1 ==> step_down(rows, sel) == sel,
{
    if sel is Some {
        lemma_first_index(rows, sel->0);
    }
    let u = step_up(rows, sel)->0;
    let d = step_down(rows, sel)->0;
    if sel is Some && first_index(rows, sel->0) >= 0 {
        let p = first_index(rows, sel->0);
        let a = if p > 0 { p - 1 } else { p };
        let b = if p + 1 < rows.len() { p + 1 } else { p };
        assert(rows[a] == u);
        assert(rows[b] == d);
    } else {
        assert(rows[rows.len() - 1] == u);
        assert(rows[0] == d);
    }
    if sel == Some(rows[0]) {
        assert(first_index(rows, rows[0]) == 0);
    }
}

/// The selection can be seen: a selected window's session is expanded, and a
/// selected pane's window and that window's session are expanded.
pub open spec fn uncovered(m: Model) -> bool {
    match m.selected {
        None => true,
        Some(sel) => match entry_lookup(m.windows, sel) {
            Some(w) => match entry_lookup(m.sessions, w.session_id) {
                Some(s) => s.expanded,
                None => true,
            },
            None => match entry_lookup(m.panes, sel) {
                Some(p) => match entry_lookup(m.windows, p.window_id) {
                    Some(w) => w.expanded && match entry_lookup(m.sessions, w.session_id) {
                        Some(s) => s.expanded,
                        None => true,
                    },
                    None => true,
                },
                None => true,
            },
        },
    }
}

proof fn lemma_session_flag(se: Seq<(Seq<char>, SessionView)>, k: Seq<char>, q: Seq<char>)
    ensures
        entry_lookup(set_session_expanded(se, k, true), q) == if q == k {
            match entry_lookup(se, k) {
                Some(v) => Some(SessionView { expanded: true, ..v }),
                None => None,
            }
        } else {
            entry_lookup(se, q)
        },
{
    match entry_lookup(se, k) {
        Some(v) => lemma_entry_insert(se, k, SessionView { expanded: true, ..v }, q),
        None => {},
    }
}

proof fn lemma_window_flag(we: Seq<(Seq<char>, WindowView)>, k: Seq<char>, q: Seq<char>)
    ensures
        entry_lookup(set_window_expanded(we, k, true), q) == if q == k {
            match entry_lookup(we, k) {
                Some(v) => Some(WindowView { expanded: true, ..v }),
                None => None,
            }
        } else {
            entry_lookup(we, q)
        },
{
    match entry_lookup(we, k) {
        Some(v) => lemma_entry_insert(we, k, WindowView { expanded: true, ..v }, q),
        None => {},
    }
}

proof fn lemma_ensure_uncovers(m: Model)
    ensures
        uncovered(ensure_expanded(m)),
{
    match m.selected {
        None => {},
        Some(sel) => match entry_lookup(m.windows, sel) {
            Some(w) => {
                lemma_session_flag(m.sessions, w.session_id, w.session_id);
            },
            None => match entry_lookup(m.panes, sel) {
                Some(p) => match entry_lookup(m.windows, p.window_id) {
                    Some(w) => {
                        lemma_window_flag(m.windows, p.window_id, p.window_id);
                        lemma_window_flag(m.windows, p.window_id, sel);
                        lemma_session_flag(m.sessions, w.session_id, w.session_id);
                    },
                    None => {},
                },
                None => {},
            },
        },
    }
}

/// Changing level, either way, leaves the selection where it can be seen:
/// what it sits in is expanded.
pub proof fn level_changes_uncover_the_selection(m: Model)
    ensures
        uncovered(level_up(m)),
        uncovered(level_down(m)),
{
    let up = match m.nav_mode {
        NavMode::Pane => Model {
            nav_mode: NavMode::Window,
            selected: match m.selected {
                Some(sel) => match entry_lookup(m.panes, sel) {
                    Some(p) => Some(p.window_id),
                    None => m.selected,
                },
                None => None,
            },
            ..m
        },
        NavMode::Window => Model {
            nav_mode: NavMode::Session,
            selected: match m.selected {
                Some(sel) => match entry_lookup(m.windows, sel) {
                    Some(w) => Some(w.session_id),
                    None => m.selected,
                },
                None => None,
            },
            ..m
        },
        NavMode::Session => m,
    };
    lemma_ensure_uncovers(up);
    let down = match m.nav_mode {
        NavMode::Session => Model {
            nav_mode: NavMode::Window,
            selected: match m.selected {
                Some(sel) => match entry_lookup(m.sessions, sel) {
                    Some(s) => if s.windows.len() > 0 { Some(s.windows[0]) } else { m.selected },
                    None => m.selected,
                },
                None => None,
            },
            ..m
        },
        NavMode::Window => Model {
            nav_mode: NavMode::Pane,
            selected: match m.selected {
                Some(sel) => match entry_lookup(m.windows, sel) {
                    Some(w) => if w.panes.len() > 0 { Some(w.panes[0]) } else { m.selected },
                    None => m.selected,
                },
                None => None,
            },
            ..m
        },
        NavMode::Pane => m,
    };
    lemma_ensure_uncovers(down);
}


// ---------------------------------------------------------------------------
// Rebuilding the tree from tmux's listings.

/// Whether an id is marked expanded: every id is while nothing is marked.
pub open spec fn marked(exp: Seq<Seq<char>>, id: Seq<char>) -> bool {
    exp.len() == 0 || exp.contains(id)
}

/// One `list-sessions` line: `id, name, ...`.
pub open spec fn add_session_line(se: Seq<(Seq<char>, SessionView)>, line: Seq<char>, exp: Seq<Seq<char>>) -> Seq<(Seq<char>, SessionView)> {
    let f = split_on(line, field_sep());
    if f.len() >= 2 {
        entry_insert(se, f[0], SessionView { id: f[0], name: f[1], windows: Seq::empty(), expanded: marked(exp, f[0]) })
    } else {
        se
    }
}

pub open spec fn sessions_from(lines: Seq<Seq<char>>, exp: Seq<Seq<char>>) -> Seq<(Seq<char>, SessionView)>
    decreases lines.len(),
{
    if lines.len() == 0 {
        Seq::empty()
    } else {
        add_session_line(sessions_from(lines.drop_last(), exp), lines.last(), exp)
    }
}

/// One `list-windows` line: the window is kept, and listed under its session
/// when that session is known.
pub open spec fn add_window_line(
    t: (Seq<(Seq<char>, SessionView)>, Seq<(Seq<char>, WindowView)>),
    line: Seq<char>,
    exp: Seq<Seq<char>>,
) -> (Seq<(Seq<char>, SessionView)>, Seq<(Seq<char>, WindowView)>) {
    let f = split_on(line, field_sep());
    if f.len() >= 6 {
        let we = entry_insert(t.1, f[0], parsed_window(f, marked(exp, f[0])));
        match entry_lookup(t.0, f[1]) {
            Some(s) => (entry_insert(t.0, f[1], SessionView { windows: s.windows.push(f[0]), ..s }), we),
            None => (t.0, we),
        }
    } else {
        t
    }
}

pub open spec fn windows_from(
    t: (Seq<(Seq<char>, SessionView)>, Seq<(Seq<char>, WindowView)>),
    lines: Seq<Seq<char>>,
    exp: Seq<Seq<char>>,
) -> (Seq<(Seq<char>, SessionView)>, Seq<(Seq<char>, WindowView)>)
    decreases lines.len(),
{
    if lines.len() == 0 {
        t
    } else {
        add_window_line(windows_from(t, lines.drop_last(), exp), lines.last(), exp)
    }
}

/// One `list-panes` line: the pane is kept, and listed under its window when
/// that window is known.
pub open spec fn add_pane_line(
    t: (Seq<(Seq<char>, WindowView)>, Seq<(Seq<char>, PaneView)>),
    line: Seq<char>,
) -> (Seq<(Seq<char>, WindowView)>, Seq<(Seq<char>, PaneView)>) {
    let f = split_on(line, field_sep());
    if f.len() >= 9 {
        let pe = entry_insert(t.1, f[0], parsed_pane(f));
        match entry_lookup(t.0, f[1]) {
            Some(w) => (entry_insert(t.0, f[1], WindowView { panes: w.panes.push(f[0]), ..w }), pe),
            None => (t.0, pe),
        }
    } else {
        t
    }
}

pub open spec fn panes_from(
    t: (Seq<(Seq<char>, WindowView)>, Seq<(Seq<char>, PaneView)>),
    lines: Seq<Seq<char>>,
) -> (Seq<(Seq<char>, WindowView)>, Seq<(Seq<char>, PaneView)>)
    decreases lines.len(),
{
    if lines.len() == 0 {
        t
    } else {
        add_pane_line(panes_from(t, lines.drop_last()), lines.last())
    }
}

/// A selection that names nothing any more moves to the first session (or
/// to nothing when there is none); so does no selection.
pub open spec fn settled_selection(m: Model) -> Option<Seq<char>> {
    match m.selected {
        Some(x) if entry_lookup(m.sessions, x) is Some || entry_lookup(m.windows, x) is Some
            || entry_lookup(m.panes, x) is Some => Some(x),
        _ => if m.sessions.len() > 0 { Some(m.sessions[0].0) } else { None },
    }
}

/// The tree rebuilt from the listings, keeping which sessions and windows
/// were expanded (everything, while none was), with the selection settled.
pub open spec fn rebuilt(m: Model, sl: Seq<Seq<char>>, wl: Seq<Seq<char>>, pl: Seq<Seq<char>>) -> Model {
    let se1 = sessions_from(sl, expanded_sessions(m.sessions));
    let (se2, we1) = windows_from((se1, Seq::empty()), wl, expanded_window_ids(m.windows));
    let (we2, pe) = panes_from((we1, Seq::empty()), pl);
    let t = Model { sessions: se2, windows: we2, panes: pe, ..m };
    Model { selected: settled_selection(t), ..t }
}

fn expanded_session_ids_of(sessions: &IndexMap<String, Session>) -> (r: Vec<String>)
    ensures
        strs(r@) == expanded_sessions(classic_session_entries(*sessions)),
{
    let ghost se = classic_session_entries(*sessions);
    let mut ids: Vec<String> = Vec::new();
    let n = classic_map_len(sessions);
    let mut i: usize = 0;
    assert(strs(ids@) =~= expanded_sessions(se.take(0)));
    while i < n
        invariant
            i <= n,
            n == se.len(),
            se == classic_session_entries(*sessions),
            strs(ids@) == expanded_sessions(se.take(i as int)),
        decreases n - i,
    {
        let (k, s) = classic_map_get_index(sessions, i).unwrap();
        if s.expanded {
            push_one(&mut ids, k);
        }
        proof {
            let t = se.take(i + 1);
            assert(t.drop_last() =~= se.take(i as int));
            assert(t.last() == se[i as int]);
        }
        i = i + 1;
    }
    assert(se.take(n as int) =~= se);
    ids
}

fn marked_exec(exp: &Vec<String>, id: &[char]) -> (b: bool)
    ensures
        b == marked(strs(exp@), id@),
{
    exp.len() == 0 || contains_chars(exp, id)
}

impl Session {
    /// This session with `wid` added to its windows.
    pub fn with_window(&self, wid: String) -> (r: Session)
        ensures
            r@ == (SessionView { windows: self@.windows.push(wid@), ..self@ }),
    {
        let mut windows = copy_strings(&self.windows);
        let ghost before = windows@;
        windows.push(wid);
        assert(strs(windows@) =~= strs(before).push(wid@));
        Session { id: self.id.clone(), name: self.name.clone(), windows, expanded: self.expanded }
    }
}

fn add_sessions(sessions: &mut IndexMap<String, Session>, sessions_raw: &[String], exp_s: &Vec<String>)
    requires
        classic_session_entries(*old(sessions)) == Seq::<(Seq<char>, SessionView)>::empty(),
    ensures
        classic_session_entries(*final(sessions)) == sessions_from(strs(sessions_raw@), strs(exp_s@)),
{
    let mut i: usize = 0;
    while i < sessions_raw.len()
        invariant
            i <= sessions_raw.len(),
            classic_session_entries(*sessions) == sessions_from(strs(sessions_raw@).take(i as int), strs(exp_s@)),
        decreases sessions_raw.len() - i,
    {
        assert(strs(sessions_raw@).take(i + 1).drop_last() =~= strs(sessions_raw@).take(i as int));
        assert(strs(sessions_raw@).take(i + 1).last() == sessions_raw@[i as int]@);
        let line = chars_of(sessions_raw[i].as_str());
        let f = split_chars(line.as_slice(), '\u{1f}');
        proof { lemma_fields(f); }
        if f.len() >= 2 {
            let id = string_of(f[0].as_slice());
            let session = Session {
                id: string_of(f[0].as_slice()),
                name: string_of(f[1].as_slice()),
                windows: Vec::new(),
                expanded: marked_exec(exp_s, f[0].as_slice()),
            };
            assert(strs(session.windows@) =~= Seq::<Seq<char>>::empty());
            classic_map_insert(sessions, id, session);
        }
        i = i + 1;
    }
    assert(strs(sessions_raw@).take(sessions_raw.len() as int) =~= strs(sessions_raw@));
}

fn add_windows(
    sessions: &mut IndexMap<String, Session>,
    windows: &mut IndexMap<String, Window>,
    windows_raw: &[String],
    exp_w: &Vec<String>,
)
    ensures
        (classic_session_entries(*final(sessions)), window_entries(*final(windows))) == windows_from(
            (classic_session_entries(*old(sessions)), window_entries(*old(windows))),
            strs(windows_raw@),
            strs(exp_w@),
        ),
{
    let ghost t0 = (classic_session_entries(*sessions), window_entries(*windows));
    let mut i: usize = 0;
    while i < windows_raw.len()
        invariant
            i <= windows_raw.len(),
            (classic_session_entries(*sessions), window_entries(*windows)) == windows_from(
                t0,
                strs(windows_raw@).take(i as int),
                strs(exp_w@),
            ),
        decreases windows_raw.len() - i,
    {
        assert(strs(windows_raw@).take(i + 1).drop_last() =~= strs(windows_raw@).take(i as int));
        assert(strs(windows_raw@).take(i + 1).last() == windows_raw@[i as int]@);
        let line = chars_of(windows_raw[i].as_str());
        let f = split_chars(line.as_slice(), '\u{1f}');
        proof { lemma_fields(f); }
        if f.len() >= 6 {
            let id = string_of(f[0].as_slice());
            let sid = string_of(f[1].as_slice());
            let window = window_from_fields(&f, marked_exec(exp_w, f[0].as_slice()));
            crate::store::window_map_insert(windows, id, window);
            let updated = match classic_map_get(sessions, sid.as_str()) {
                Some(s) => Some(s.with_window(string_of(f[0].as_slice()))),
                None => None,
            };
            match updated {
                Some(ns) => classic_map_insert(sessions, sid, ns),
                None => {},
            }
        }
        i = i + 1;
    }
    assert(strs(windows_raw@).take(windows_raw.len() as int) =~= strs(windows_raw@));
}

fn add_panes(windows: &mut IndexMap<String, Window>, panes: &mut IndexMap<String, Pane>, panes_raw: &[String])
    ensures
        (window_entries(*final(windows)), pane_entries(*final(panes))) == panes_from(
            (window_entries(*old(windows)), pane_entries(*old(panes))),
            strs(panes_raw@),
        ),
{
    let ghost u0 = (window_entries(*windows), pane_entries(*panes));
    let mut i: usize = 0;
    while i < panes_raw.len()
        invariant
            i <= panes_raw.len(),
            (window_entries(*windows), pane_entries(*panes)) == panes_from(u0, strs(panes_raw@).take(i as int)),
        decreases panes_raw.len() - i,
    {
        assert(strs(panes_raw@).take(i + 1).drop_last() =~= strs(panes_raw@).take(i as int));
        assert(strs(panes_raw@).take(i + 1).last() == panes_raw@[i as int]@);
        let line = chars_of(panes_raw[i].as_str());
        let f = split_chars(line.as_slice(), '\u{1f}');
        proof { lemma_fields(f); }
        if f.len() >= 9 {
            let id = string_of(f[0].as_slice());
            let wid = string_of(f[1].as_slice());
            let pane = pane_from_fields(&f);
            pane_map_insert(panes, id.clone(), pane);
            let updated = match window_map_get(windows, wid.as_str()) {
                Some(w) => Some(w.with_pane(id)),
                None => None,
            };
            match updated {
                Some(nw) => crate::store::window_map_insert(windows, wid, nw),
                None => {},
            }
        }
        i = i + 1;
    }
    assert(strs(panes_raw@).take(panes_raw.len() as int) =~= strs(panes_raw@));
}

impl AppState {
    /// Rebuilds the tree from tmux's session, window and pane listings (one
    /// line per object, fields separated by `\u{1f}`) and settles the
    /// selection. Returns whether the set of pane ids changed.
    pub fn sync_state(&mut self, sessions_raw: &[String], windows_raw: &[String], panes_raw: &[String]) -> (changed: bool)
        ensures
            final(self).model() == rebuilt(old(self).model(), strs(sessions_raw@), strs(windows_raw@), strs(panes_raw@)),
            final(self).same_rest(&*old(self)),
            changed == pane_keys_changed(pane_entries(old(self).panes), pane_entries(final(self).panes)),
    {
        let ghost m0 = self.model();
        let old_keys = pane_keys(&self.panes);
        let exp_s = expanded_session_ids_of(&self.sessions);
        let exp_w = expanded_window_ids_of(&self.windows);
        self.sessions = classic_map_new();
        window_map_clear(&mut self.windows);
        pane_map_clear(&mut self.panes);

        add_sessions(&mut self.sessions, sessions_raw, &exp_s);
        add_windows(&mut self.sessions, &mut self.windows, windows_raw, &exp_w);
        add_panes(&mut self.windows, &mut self.panes, panes_raw);
        let ghost t = Model {
            sessions: classic_session_entries(self.sessions),
            windows: window_entries(self.windows),
            panes: pane_entries(self.panes),
            ..m0
        };
        assert(self.model() == (Model { selected: m0.selected, ..t }));

        let changed = keys_differ(&old_keys, &self.panes);

        let keep = match &self.focus.selected_id {
            Some(sel) => classic_map_get(&self.sessions, sel.as_str()).is_some()
                || window_map_contains_key(&self.windows, sel.as_str())
                || pane_map_contains_key(&self.panes, sel.as_str()),
            None => false,
        };
        if !keep {
            self.focus.selected_id = match classic_map_get_index(&self.sessions, 0) {
                Some((k, _)) => Some(k.clone()),
                None => None,
            };
        }
        changed
    }
}


// ---------------------------------------------------------------------------
// Keys.

/// The bytes a key sends to the embedded client: plain keys in their
/// unmodified forms; with control, the C0 code of `a`..`z` or of `@`..`_`
/// (going by the low byte of the character) and NUL for space, nothing for
/// other characters; with alt, ESC and the character.
pub open spec fn key_bytes(key: KeyEvent) -> Seq<u8> {
    match key.code {
        KeyCode::Char(c) => if key.modifiers.control {
            let low = (c as u32) % 256;
            if 'a' <= c <= 'z' {
                seq![((c as u32) - 0x60) as u8]
            } else if 0x40 <= low <= 0x5f {
                seq![(low - 0x40) as u8]
            } else if c == ' ' {
                seq![0u8]
            } else {
                Seq::empty()
            }
        } else if key.modifiers.alt {
            seq![0x1bu8] + utf8(c)
        } else {
            utf8(c)
        },
        KeyCode::Enter => seq![0x0du8],
        KeyCode::Esc => seq![0x1bu8],
        KeyCode::Backspace => seq![0x7fu8],
        KeyCode::Tab => seq![0x09u8],
        KeyCode::Up => seq![0x1bu8, 0x5bu8, 0x41u8],
        KeyCode::Down => seq![0x1bu8, 0x5bu8, 0x42u8],
        KeyCode::Right => seq![0x1bu8, 0x5bu8, 0x43u8],
        KeyCode::Left => seq![0x1bu8, 0x5bu8, 0x44u8],
        KeyCode::Home => seq![0x1bu8, 0x5bu8, 0x48u8],
        KeyCode::End => seq![0x1bu8, 0x5bu8, 0x46u8],
        KeyCode::PageUp => seq![0x1bu8, 0x5bu8, 0x35u8, 0x7eu8],
        KeyCode::PageDown => seq![0x1bu8, 0x5bu8, 0x36u8, 0x7eu8],
        KeyCode::Delete => seq![0x1bu8, 0x5bu8, 0x33u8, 0x7eu8],
        KeyCode::F(n) => crate::input::f_key_bytes(n, 1),
        _ => Seq::empty(),
    }
}

fn push_all_bytes(out: &mut Vec<u8>, b: &[u8])
    ensures
        final(out)@ == old(out)@ + b@,
{
    let ghost start = out@;
    let mut i: usize = 0;
    while i < b.len()
        invariant
            i <= b.len(),
            out@ == start + b@.take(i as int),
        decreases b.len() - i,
    {
        out.push(b[i]);
        i = i + 1;
        assert(out@ =~= start + b@.take(i as int));
    }
    assert(b@.take(i as int) =~= b@);
}

/// Encodes a key for the embedded client.
pub fn encode_key(key: &KeyEvent) -> (bytes: Vec<u8>)
    ensures
        bytes@ == key_bytes(*key),
{
    let mut bytes: Vec<u8> = Vec::new();
    match key.code {
        KeyCode::Char(c) => {
            if key.modifiers.control {
                let cu: u32 = c as u32;
                let low: u32 = cu % 256;
                if 0x61 <= cu && cu <= 0x7a {
                    bytes.push((cu - 0x60) as u8);
                } else if 0x40 <= low && low <= 0x5f {
                    bytes.push((low - 0x40) as u8);
                } else if c == ' ' {
                    bytes.push(0);
                }
            } else if key.modifiers.alt {
                bytes.push(0x1b);
                push_utf8(&mut bytes, c);
            } else {
                push_utf8(&mut bytes, c);
            }
        },
        KeyCode::Enter => bytes.push(0x0d),
        KeyCode::Esc => bytes.push(0x1b),
        KeyCode::Backspace => bytes.push(0x7f),
        KeyCode::Tab => bytes.push(0x09),
        KeyCode::Up => push_all_bytes(&mut bytes, &[0x1b, 0x5b, 0x41]),
        KeyCode::Down => push_all_bytes(&mut bytes, &[0x1b, 0x5b, 0x42]),
        KeyCode::Right => push_all_bytes(&mut bytes, &[0x1b, 0x5b, 0x43]),
        KeyCode::Left => push_all_bytes(&mut bytes, &[0x1b, 0x5b, 0x44]),
        KeyCode::Home => push_all_bytes(&mut bytes, &[0x1b, 0x5b, 0x48]),
        KeyCode::End => push_all_bytes(&mut bytes, &[0x1b, 0x5b, 0x46]),
        KeyCode::PageUp => push_all_bytes(&mut bytes, &[0x1b, 0x5b, 0x35, 0x7e]),
        KeyCode::PageDown => push_all_bytes(&mut bytes, &[0x1b, 0x5b, 0x36, 0x7e]),
        KeyCode::Delete => push_all_bytes(&mut bytes, &[0x1b, 0x5b, 0x33, 0x7e]),
        KeyCode::F(n) => {
            let plain = crate::input::KeyEvent::new(KeyCode::F(n), crate::input::KeyModifiers::none());
            crate::input::encode_key(&plain, &mut bytes);
        },
        _ => {},
    }
    assert(bytes@ =~= key_bytes(*key));
    bytes
}

/// What is left for the caller after a key.
#[derive(Debug)]
pub enum KeyEffect {
    Nothing,
    /// Leave the program.
    Quit,
    /// Leave the loop and attach to this target.
    Attach(String),
    /// Write these bytes to the embedded client.
    Send(Vec<u8>),
}

/// How a key changes the state, and what it leaves to the caller: control-p
/// switches panels; in the tree, the help popup swallows keys until closed,
/// `q` and control-c quit, `?` opens help, Enter attaches to the selection,
/// up/`k` and down/`j` move, space toggles; in the preview every key goes to
/// the embedded client.
pub open spec fn key_outcome(o: AppState, f: AppState, key: KeyEvent, has_terminal: bool, e: KeyEffect) -> bool {
    let ctrl = key.modifiers.control;
    if key.code == KeyCode::Char('p') && ctrl {
        f == (AppState {
            focus: Focus { panel: if o.focus.panel == Panel::Tree { Panel::Preview } else { Panel::Tree }, ..o.focus },
            ..o
        }) && e is Nothing
    } else if o.focus.panel == Panel::Tree {
        if o.show_help {
            e is Nothing && f == (AppState {
                show_help: !(key.code == KeyCode::Char('q') || key.code == KeyCode::Esc || key.code == KeyCode::Enter
                    || key.code == KeyCode::Char('?')),
                ..o
            })
        } else {
            match key.code {
                KeyCode::Char('q') => f == o && e is Quit,
                KeyCode::Char('c') if ctrl => f == o && e is Quit,
                KeyCode::Char('?') => f == (AppState { show_help: true, ..o }) && e is Nothing,
                KeyCode::Enter => f == o && match o.focus.selected_id {
                    Some(sel) => match e {
                        KeyEffect::Attach(t) => t@ == sel@,
                        _ => false,
                    },
                    None => e is Nothing,
                },
                KeyCode::Up | KeyCode::Char('k') => e is Nothing && f.same_rest(&o) && f.model() == (Model {
                    selected: step_up(flat_rows(o.model(), o.focus.nav_mode), o.model().selected),
                    ..o.model()
                }),
                KeyCode::Down | KeyCode::Char('j') => e is Nothing && f.same_rest(&o) && f.model() == (Model {
                    selected: step_down(flat_rows(o.model(), o.focus.nav_mode), o.model().selected),
                    ..o.model()
                }),
                KeyCode::Char(' ') => e is Nothing && f.same_rest(&o) && f.model() == toggled(o.model()),
                _ => f == o && e is Nothing,
            }
        }
    } else {
        f == o && if has_terminal && key_bytes(key).len() > 0 {
            match e {
                KeyEffect::Send(b) => b@ == key_bytes(key),
                _ => false,
            }
        } else {
            e is Nothing
        }
    }
}

/// Handles a key; `has_terminal` is whether an embedded client is running.
pub fn handle_key(state: &mut AppState, key: &KeyEvent, has_terminal: bool) -> (e: KeyEffect)
    ensures
        key_outcome(*old(state), *final(state), *key, has_terminal, e),
{
    let ctrl = key.modifiers.control;
    if key.code == KeyCode::Char('p') && ctrl {
        state.focus.panel = match state.focus.panel {
            Panel::Tree => Panel::Preview,
            Panel::Preview => Panel::Tree,
        };
        return KeyEffect::Nothing;
    }
    if state.focus.panel == Panel::Tree {
        if state.show_help {
            if key.code == KeyCode::Char('q') || key.code == KeyCode::Esc || key.code == KeyCode::Enter
                || key.code == KeyCode::Char('?') {
                state.show_help = false;
            }
            return KeyEffect::Nothing;
        }
        return match key.code {
            KeyCode::Char('q') => KeyEffect::Quit,
            KeyCode::Char('c') if ctrl => KeyEffect::Quit,
            KeyCode::Char('?') => {
                state.show_help = true;
                KeyEffect::Nothing
            },
            KeyCode::Enter => match &state.focus.selected_id {
                Some(sel) => KeyEffect::Attach(sel.clone()),
                None => KeyEffect::Nothing,
            },
            KeyCode::Up | KeyCode::Char('k') => {
                state.move_selection_up();
                KeyEffect::Nothing
            },
            KeyCode::Down | KeyCode::Char('j') => {
                state.move_selection_down();
                KeyEffect::Nothing
            },
            KeyCode::Char(' ') => {
                state.toggle_expansion();
                KeyEffect::Nothing
            },
            _ => KeyEffect::Nothing,
        };
    }
    if has_terminal {
        let bytes = encode_key(key);
        if bytes.len() > 0 {
            return KeyEffect::Send(bytes);
        }
    }
    KeyEffect::Nothing
}

// ---------------------------------------------------------------------------
// Attaching.

pub open spec fn is_pane_id(id: Seq<char>) -> bool {
    id.len() > 0 && id[0] == '%'
}

/// The session to attach to for a target: a window's session, a pane's
/// window's session, or the target itself.
pub open spec fn attach_session(m: Model, target: Seq<char>) -> Seq<char> {
    if entry_lookup(m.windows, target) is Some {
        entry_lookup(m.windows, target).unwrap().session_id
    } else if entry_lookup(m.panes, target) is Some {
        entry_lookup(m.windows, entry_lookup(m.panes, target).unwrap().window_id).unwrap().session_id
    } else {
        target
    }
}

/// Leaving to a target: a pane is selected first, then its session attached.
pub open spec fn attach_spec(m: Model, target: Seq<char>) -> Seq<Seq<char>> {
    if is_pane_id(target) {
        seq!["select-pane"@, "-t"@, target, ";"@, "attach-session"@, "-t"@, attach_session(m, target)]
    } else {
        seq!["attach-session"@, "-t"@, attach_session(m, target)]
    }
}

/// The embedded client's command for a selection.
pub open spec fn preview_spec(target: Seq<char>) -> Seq<Seq<char>> {
    if is_pane_id(target) {
        seq!["select-pane"@, "-t"@, target, ";"@, "attach-session"@, "-t"@, target]
    } else {
        seq!["attach"@, "-t"@, target]
    }
}

fn push_arg(v: &mut Vec<String>, a: &str)
    ensures
        strs(final(v)@) == strs(old(v)@).push(a@),
{
    v.push(owned(a));
    assert(strs(v@) =~= strs(old(v)@).push(a@));
}

impl AppState {
    /// The tmux arguments that attach to `target` on the way out. A pane
    /// whose window is unknown cannot be attached to.
    pub fn attach_args(&self, target: &str) -> (r: Vec<String>)
        requires
            entry_lookup(self.model().windows, target@) is None && entry_lookup(self.model().panes, target@) is Some
                ==> entry_lookup(self.model().windows, entry_lookup(self.model().panes, target@).unwrap().window_id) is Some,
        ensures
            strs(r@) == attach_spec(self.model(), target@),
    {
        let session: String = match window_map_get(&self.windows, target) {
            Some(w) => w.session_id.clone(),
            None => match pane_map_get(&self.panes, target) {
                Some(p) => match window_map_get(&self.windows, p.window_id.as_str()) {
                    Some(w) => w.session_id.clone(),
                    None => owned(target),
                },
                None => owned(target),
            },
        };
        let cs = chars_of(target);
        let mut v: Vec<String> = Vec::new();
        if cs.len() > 0 && cs[0] == '%' {
            push_arg(&mut v, "select-pane");
            push_arg(&mut v, "-t");
            push_arg(&mut v, target);
            push_arg(&mut v, ";");
        }
        push_arg(&mut v, "attach-session");
        push_arg(&mut v, "-t");
        push_arg(&mut v, session.as_str());
        assert(strs(v@) =~= attach_spec(self.model(), target@));
        v
    }
}

/// The embedded client's arguments for a selection.
pub fn preview_args(target: &str) -> (r: Vec<String>)
    ensures
        strs(r@) == preview_spec(target@),
{
    let cs = chars_of(target);
    let mut v: Vec<String> = Vec::new();
    if cs.len() > 0 && cs[0] == '%' {
        push_arg(&mut v, "select-pane");
        push_arg(&mut v, "-t");
        push_arg(&mut v, target);
        push_arg(&mut v, ";");
        push_arg(&mut v, "attach-session");
    } else {
        push_arg(&mut v, "attach");
    }
    push_arg(&mut v, "-t");
    push_arg(&mut v, target);
    assert(strs(v@) =~= preview_spec(target@));
    v
}

/// In window-level navigation a window list contributes its windows, in
/// order.
proof fn lemma_windows_flat_window_level(we: Seq<(Seq<char>, WindowView)>, wins: Seq<Seq<char>>)
    ensures
        windows_flat(we, wins, NavMode::Window) == wins,
    decreases wins.len(),
{
    if wins.len() > 0 {
        lemma_windows_flat_window_level(we, wins.drop_last());
        assert(wins.drop_last().push(wins.last()) =~= wins);
        assert(wins.drop_last() + seq![wins.last()] =~= wins);
    }
}

/// The rows the first `n` sessions contribute come first, in the same order,
/// in the rows of all of them.
proof fn lemma_flat_prefix(se: Seq<(Seq<char>, SessionView)>, we: Seq<(Seq<char>, WindowView)>, mode: NavMode, n: int)
    requires
        0 <= n <= se.len(),
    ensures
        sessions_flat(se.take(n), we, mode).len() <= sessions_flat(se, we, mode).len(),
        forall|i: int| 0 <= i < sessions_flat(se.take(n), we, mode).len()
            ==> #[trigger] sessions_flat(se, we, mode)[i] == sessions_flat(se.take(n), we, mode)[i],
    decreases se.len() - n,
{
    if n == se.len() {
        assert(se.take(n) =~= se);
    } else {
        lemma_flat_prefix(se, we, mode, n + 1);
        assert(se.take(n + 1).drop_last() =~= se.take(n));
        let a = sessions_flat(se.take(n), we, mode);
        let b = sessions_flat(se.take(n + 1), we, mode);
        assert(b == a + session_flat(we, se.take(n + 1).last().1, mode));
        assert forall|i: int| 0 <= i < a.len() implies #[trigger] sessions_flat(se, we, mode)[i] == a[i] by {
            assert(b[i] == a[i]);
        }
    }
}

/// Going down a level from a session starts at the top of that session's
/// windows: the window level becomes the navigation level, and the
/// selection is the first window row the session contributes to it, the
/// row right after the rows of the sessions before it. (The session's first
/// window is stored and belongs to it.)
pub proof fn going_down_from_a_session_starts_at_its_first_window_row(m: Model)
    requires
        m.nav_mode == NavMode::Session,
        m.selected is Some,
        entry_lookup(m.sessions, m.selected->0) is Some,
        entry_lookup(m.sessions, m.selected->0).unwrap().windows.len() > 0,
        entry_lookup(m.windows, entry_lookup(m.sessions, m.selected->0).unwrap().windows[0]) matches Some(w)
            && w.session_id == m.selected->0,
    ensures
        ({
            let r = level_down(m);
            let k = entry_index(m.sessions, m.selected->0);
            let before = sessions_flat(r.sessions.take(k), r.windows, NavMode::Window);
            &&& r.nav_mode == NavMode::Window
            &&& before.len() < flat_rows(r, NavMode::Window).len()
            &&& r.selected == Some(flat_rows(r, NavMode::Window)[before.len() as int])
        }),
{
    let sel = m.selected->0;
    let se = m.sessions;
    let we = m.windows;
    let s = entry_lookup(se, sel).unwrap();
    lemma_entry_index(se, sel);
    let k = entry_index(se, sel);
    let s2 = SessionView { expanded: true, ..s };
    let r = level_down(m);
    assert(r.sessions == entry_insert(se, sel, s2));
    assert(r.sessions == se.update(k, (sel, s2)));
    let se2 = r.sessions;
    assert(se2.take(k + 1).drop_last() =~= se2.take(k));
    assert(se2.take(k + 1).last() == (sel, s2));
    lemma_windows_flat_window_level(we, s.windows);
    let before = sessions_flat(se2.take(k), we, NavMode::Window);
    let upto = sessions_flat(se2.take(k + 1), we, NavMode::Window);
    assert(upto == before + s.windows);
    assert(upto[before.len() as int] == s.windows[0]);
    lemma_flat_prefix(se2, we, NavMode::Window, k + 1);
    assert(flat_rows(r, NavMode::Window)[before.len() as int] == upto[before.len() as int]);
}

/// The pane `row` is stored and belongs to the window `wid`.
pub open spec fn pane_of_window(m: Model, row: Seq<char>, wid: Seq<char>) -> bool {
    entry_lookup(m.panes, row) matches Some(p) && p.window_id == wid
}

/// The pane `pid` is stored and belongs to the window `wid`.
pub open spec fn points_back(pe: Seq<(Seq<char>, PaneView)>, pid: Seq<char>, wid: Seq<char>) -> bool {
    entry_lookup(pe, pid) matches Some(p) && p.window_id == wid
}

/// Every pane a stored window lists is stored and belongs to that window.
pub open spec fn panes_point_back(we: Seq<(Seq<char>, WindowView)>, pe: Seq<(Seq<char>, PaneView)>) -> bool {
    forall|wid: Seq<char>, l: int|
        entry_lookup(we, wid) is Some && 0 <= l < entry_lookup(we, wid).unwrap().panes.len() ==> #[trigger] points_back(
            pe,
            entry_lookup(we, wid).unwrap().panes[l],
            wid,
        )
}

/// The first row of `rows` that is a pane of `wid`, if any, is `y`.
pub open spec fn first_of_window_is(m: Model, rows: Seq<Seq<char>>, wid: Seq<char>, y: Seq<char>) -> bool {
    forall|i: int|
        0 <= i < rows.len() && pane_of_window(m, #[trigger] rows[i], wid) && (forall|h: int|
            0 <= h < i ==> !pane_of_window(m, #[trigger] rows[h], wid)) ==> rows[i] == y
}

proof fn lemma_first_of_window_concat(m: Model, a: Seq<Seq<char>>, b: Seq<Seq<char>>, wid: Seq<char>, y: Seq<char>)
    requires
        first_of_window_is(m, a, wid, y),
        first_of_window_is(m, b, wid, y),
    ensures
        first_of_window_is(m, a + b, wid, y),
{
    let c = a + b;
    assert forall|i: int|
        0 <= i < c.len() && pane_of_window(m, #[trigger] c[i], wid) && (forall|h: int|
            0 <= h < i ==> !pane_of_window(m, #[trigger] c[h], wid)) implies c[i] == y by {
        if i < a.len() {
            assert(c[i] == a[i]);
            assert forall|h: int| 0 <= h < i implies !pane_of_window(m, #[trigger] a[h], wid) by {
                assert(c[h] == a[h]);
            }
        } else {
            assert(c[i] == b[i - a.len()]);
            assert forall|h: int| 0 <= h < i - a.len() implies !pane_of_window(m, #[trigger] b[h], wid) by {
                assert(c[h + a.len()] == b[h]);
            }
        }
    }
}

proof fn lemma_window_flat_first(m: Model, we: Seq<(Seq<char>, WindowView)>, w: Seq<char>, wid: Seq<char>, y: Seq<char>)
    requires
        panes_point_back(we, m.panes),
        entry_lookup(we, wid) is Some,
        entry_lookup(we, wid).unwrap().panes.len() > 0,
        entry_lookup(we, wid).unwrap().panes[0] == y,
    ensures
        first_of_window_is(m, window_flat(we, w, NavMode::Pane), wid, y),
{
    let r = window_flat(we, w, NavMode::Pane);
    assert forall|i: int|
        0 <= i < r.len() && pane_of_window(m, #[trigger] r[i], wid) && (forall|h: int|
            0 <= h < i ==> !pane_of_window(m, #[trigger] r[h], wid)) implies r[i] == y by {
        let ww = entry_lookup(we, w).unwrap();
        assert(r == ww.panes);
        if w != wid {
            assert(points_back(m.panes, entry_lookup(we, w).unwrap().panes[i], w));
        } else if i > 0 {
            assert(points_back(m.panes, entry_lookup(we, w).unwrap().panes[0], w));
            assert(pane_of_window(m, r[0], wid));
        }
    }
}

proof fn lemma_windows_flat_first(m: Model, we: Seq<(Seq<char>, WindowView)>, wins: Seq<Seq<char>>, wid: Seq<char>, y: Seq<char>)
    requires
        panes_point_back(we, m.panes),
        entry_lookup(we, wid) is Some,
        entry_lookup(we, wid).unwrap().panes.len() > 0,
        entry_lookup(we, wid).unwrap().panes[0] == y,
    ensures
        first_of_window_is(m, windows_flat(we, wins, NavMode::Pane), wid, y),
    decreases wins.len(),
{
    if wins.len() > 0 {
        lemma_windows_flat_first(m, we, wins.drop_last(), wid, y);
        lemma_window_flat_first(m, we, wins.last(), wid, y);
        lemma_first_of_window_concat(m, windows_flat(we, wins.drop_last(), NavMode::Pane), window_flat(we, wins.last(), NavMode::Pane), wid, y);
    }
}

proof fn lemma_sessions_flat_first(
    m: Model,
    se: Seq<(Seq<char>, SessionView)>,
    we: Seq<(Seq<char>, WindowView)>,
    wid: Seq<char>,
    y: Seq<char>,
)
    requires
        panes_point_back(we, m.panes),
        entry_lookup(we, wid) is Some,
        entry_lookup(we, wid).unwrap().panes.len() > 0,
        entry_lookup(we, wid).unwrap().panes[0] == y,
    ensures
        first_of_window_is(m, sessions_flat(se, we, NavMode::Pane), wid, y),
    decreases se.len(),
{
    if se.len() > 0 {
        lemma_sessions_flat_first(m, se.drop_last(), we, wid, y);
        let s = se.last().1;
        if s.expanded {
            lemma_windows_flat_first(m, we, s.windows, wid, y);
        }
        lemma_first_of_window_concat(m, sessions_flat(se.drop_last(), we, NavMode::Pane), session_flat(we, s, NavMode::Pane), wid, y);
    }
}

/// Going down a level from a window starts at the top of that window's
/// panes: the pane level becomes the navigation level, the selection is a
/// pane of that window, and it is the first row of the pane level that is a
/// pane of that window. (The tree's windows list only stored panes that
/// belong to them.)
pub proof fn going_down_from_a_window_starts_at_its_first_pane_row(m: Model)
    requires
        m.nav_mode == NavMode::Window,
        m.selected is Some,
        entry_lookup(m.windows, m.selected->0) matches Some(w) && w.panes.len() > 0,
        panes_point_back(m.windows, m.panes),
    ensures
        ({
            let r = level_down(m);
            let wid = m.selected->0;
            &&& r.nav_mode == NavMode::Pane
            &&& r.selected matches Some(x) && pane_of_window(m, x, wid) && first_of_window_is(
                m,
                flat_rows(r, NavMode::Pane),
                wid,
                x,
            )
        }),
{
    let wid = m.selected->0;
    let we = m.windows;
    let w = entry_lookup(we, wid).unwrap();
    let y = w.panes[0];
    assert(points_back(m.panes, entry_lookup(we, wid).unwrap().panes[0], wid));
    let r = level_down(m);
    assert(r.selected == Some(y));
    crate::state::lemma_window_flag_keeps(we, wid, true, Seq::empty());
    let p = entry_lookup(m.panes, y).unwrap();
    crate::state::lemma_window_flag_keeps(we, p.window_id, true, Seq::empty());
    let we2 = r.windows;
    assert(we2 == we || we2 == set_window_expanded(we, p.window_id, true));
    assert(panes_point_back(we2, m.panes)) by {
        assert forall|q: Seq<char>, l: int|
            entry_lookup(we2, q) is Some && 0 <= l < entry_lookup(we2, q).unwrap().panes.len() implies #[trigger] points_back(
                m.panes,
                entry_lookup(we2, q).unwrap().panes[l],
                q,
            ) by {
            assert(entry_lookup(we2, q) is Some ==> entry_lookup(we, q) is Some);
            assert(entry_lookup(we2, q).unwrap().panes == entry_lookup(we, q).unwrap().panes);
            assert(points_back(m.panes, entry_lookup(we, q).unwrap().panes[l], q));
        }
    }
    assert(entry_lookup(we2, wid).unwrap().panes == w.panes);
    lemma_sessions_flat_first(m, r.sessions, we2, wid, y);
}

} // verus!
