//! The session / window / pane tree, the selection, and how navigation moves
//! through it.

use vstd::prelude::*;
use indexmap::IndexMap;

use crate::store::{
    entry_index, entry_insert, entry_lookup, lemma_entry_index, lemma_entry_insert, pane_entries,
    pane_map_get, session_entries, session_map_get, session_map_get_index, session_map_len,
    session_map_insert, window_entries, window_map_get, window_map_insert,
};
use crate::text::owned;
use crate::theme::default_theme;
use crate::store::{pane_map_new, session_map_new, window_map_new};
use crate::sync::{expanded_ids_now, expanded_session_ids, expanded_window_ids};
use crate::theme::Theme;

verus! {

/// A screen rectangle, in cells.
#[derive(Clone, Copy, Debug, PartialEq, Eq, Structural)]
pub struct Rect {
    pub x: u16,
    pub y: u16,
    pub width: u16,
    pub height: u16,
}

/// A rectangle whose right and bottom edges stay within `u16`: the width and
/// height are clamped so `x + width` and `y + height` do not overflow.
pub open spec fn rect_new(x: u16, y: u16, width: u16, height: u16) -> Rect {
    Rect {
        x,
        y,
        width: ((if x + width > u16::MAX { u16::MAX as int } else { x + width }) - x) as u16,
        height: ((if y + height > u16::MAX { u16::MAX as int } else { y + height }) - y) as u16,
    }
}

impl Rect {
    pub fn new(x: u16, y: u16, width: u16, height: u16) -> (r: Rect)
        ensures
            r == rect_new(x, y, width, height),
    {
        let w = if width > u16::MAX - x { u16::MAX - x } else { width };
        let h = if height > u16::MAX - y { u16::MAX - y } else { height };
        Rect { x, y, width: w, height: h }
    }
}

#[derive(Debug)]
pub struct Session {
    pub id: String,
    pub name: String,
    pub windows: Vec<String>,
    pub expanded: bool,
    pub last_attached: i64,
    pub attached: bool,
}

#[derive(Debug)]
pub struct Window {
    pub id: String,
    pub session_id: String,
    pub name: String,
    pub panes: Vec<String>,
    pub active: bool,
    pub width: u16,
    pub height: u16,
    pub expanded: bool,
}

#[derive(Debug)]
pub struct Pane {
    pub id: String,
    pub window_id: String,
    pub title: String,
    pub current_command: String,
    pub active: bool,
    pub region: Option<Rect>,
}

pub struct SessionView {
    pub id: Seq<char>,
    pub name: Seq<char>,
    pub windows: Seq<Seq<char>>,
    pub expanded: bool,
    pub last_attached: i64,
    pub attached: bool,
}

pub struct WindowView {
    pub id: Seq<char>,
    pub session_id: Seq<char>,
    pub name: Seq<char>,
    pub panes: Seq<Seq<char>>,
    pub active: bool,
    pub width: u16,
    pub height: u16,
    pub expanded: bool,
}

pub struct PaneView {
    pub id: Seq<char>,
    pub window_id: Seq<char>,
    pub title: Seq<char>,
    pub current_command: Seq<char>,
    pub active: bool,
    pub region: Option<Rect>,
}

/// The views of a list of strings.
pub open spec fn strs(v: Seq<String>) -> Seq<Seq<char>> {
    v.map_values(|s: String| s@)
}

impl View for Session {
    type V = SessionView;

    open spec fn view(&self) -> SessionView {
        SessionView {
            id: self.id@,
            name: self.name@,
            windows: strs(self.windows@),
            expanded: self.expanded,
            last_attached: self.last_attached,
            attached: self.attached,
        }
    }
}

impl View for Window {
    type V = WindowView;

    open spec fn view(&self) -> WindowView {
        WindowView {
            id: self.id@,
            session_id: self.session_id@,
            name: self.name@,
            panes: strs(self.panes@),
            active: self.active,
            width: self.width,
            height: self.height,
            expanded: self.expanded,
        }
    }
}

impl View for Pane {
    type V = PaneView;

    open spec fn view(&self) -> PaneView {
        PaneView {
            id: self.id@,
            window_id: self.window_id@,
            title: self.title@,
            current_command: self.current_command@,
            active: self.active,
            region: self.region,
        }
    }
}

#[derive(Clone, Copy, Debug, PartialEq, Eq, Structural)]
pub enum NavMode {
    Session,
    Window,
    Pane,
}

#[derive(Clone, Copy, Debug, PartialEq, Eq, Structural)]
pub enum Panel {
    Tree,
    Preview,
}

#[derive(Debug)]
pub enum InputMode {
    TuiNormal,
    Renaming { session_id: String, input: String },
    NewSession { input: String },
    /// Typing a new name for the window `window_id`.
    RenamingWindow { window_id: String, input: String },
    /// Asking before a destructive command: `prompt` names what it destroys,
    /// `command` is the tmux argument vector that runs on a yes.
    Confirming { prompt: String, command: Vec<String> },
    /// Typing a filter for the tree; the rows narrow as it is typed.
    Filtering { input: String },
    PtyPassthrough { pane_id: String },
    FuzzySearch,
    Command,
}

#[derive(Debug)]
pub struct Focus {
    pub panel: Panel,
    pub nav_mode: NavMode,
    pub selected_id: Option<String>,
    pub scroll_offset: usize,
    pub enable_scrolling: bool,
}

#[derive(Debug)]
pub struct AppState {
    pub sessions: IndexMap<String, Session>,
    pub windows: IndexMap<String, Window>,
    pub panes: IndexMap<String, Pane>,
    pub focus: Focus,
    pub input_mode: InputMode,
    pub show_help: bool,
    /// Expanded node ids restored from disk, used until the first sync has
    /// rebuilt the tree.
    pub expanded_ids: Vec<String>,
    pub last_target_id: Option<String>,
    pub sidebar_cols: u16,
    /// Colors adopted from the user's tmux status bar at startup.
    pub theme: Theme,
    /// The session this program itself runs in, when launched from inside tmux.
    pub own_session: Option<String>,
    /// Set when the selection lands in our own session, so the preview can say
    /// why it is empty.
    pub mirror_suppressed: bool,
    /// The filter left applied after typing one, if any.
    pub filter: Option<String>,
}

pub open spec fn opt_view(o: Option<String>) -> Option<Seq<char>> {
    match o {
        Some(s) => Some(s@),
        None => None,
    }
}

/// The tree and the selection, as mathematical values.
pub struct TreeModel {
    pub sessions: Seq<(Seq<char>, SessionView)>,
    pub windows: Seq<(Seq<char>, WindowView)>,
    pub panes: Seq<(Seq<char>, PaneView)>,
    pub selected: Option<Seq<char>>,
}

/// How many panes a window id stands for (none when it names no window).
pub open spec fn window_pane_count(we: Seq<(Seq<char>, WindowView)>, wid: Seq<char>) -> nat {
    match entry_lookup(we, wid) {
        Some(w) => w.panes.len(),
        None => 0,
    }
}

/// The panes of all the listed windows, counted.
pub open spec fn total_panes(we: Seq<(Seq<char>, WindowView)>, wins: Seq<Seq<char>>) -> nat
    decreases wins.len(),
{
    if wins.len() == 0 {
        0
    } else {
        total_panes(we, wins.drop_last()) + window_pane_count(we, wins.last())
    }
}

/// The rows one window contributes under an expanded session header: a
/// window with at most one pane is a single leaf row (its pane, else the
/// window), a larger window is a header followed, when expanded, by its panes.
pub open spec fn window_rows(we: Seq<(Seq<char>, WindowView)>, wid: Seq<char>) -> Seq<Seq<char>> {
    match entry_lookup(we, wid) {
        None => Seq::empty(),
        Some(w) => if w.panes.len() <= 1 {
            seq![if w.panes.len() == 1 { w.panes[0] } else { wid }]
        } else {
            seq![wid] + if w.expanded { w.panes } else { Seq::empty() }
        },
    }
}

pub open spec fn windows_rows(we: Seq<(Seq<char>, WindowView)>, wins: Seq<Seq<char>>) -> Seq<Seq<char>>
    decreases wins.len(),
{
    if wins.len() == 0 {
        Seq::empty()
    } else {
        windows_rows(we, wins.drop_last()) + window_rows(we, wins.last())
    }
}

/// The only row of a session with one window and at most one pane: the pane,
/// else the session itself.
pub open spec fn single_leaf(we: Seq<(Seq<char>, WindowView)>, s: SessionView) -> Seq<char> {
    if s.windows.len() >= 1 && entry_lookup(we, s.windows[0]) is Some
        && entry_lookup(we, s.windows[0]).unwrap().panes.len() > 0 {
        entry_lookup(we, s.windows[0]).unwrap().panes[0]
    } else {
        s.id
    }
}

/// The rows a session contributes. Levels that hold a single item are
/// skipped: one window and one pane is a single leaf row, one window with
/// several panes lists the panes right under the session header, and several
/// windows show the full hierarchy.
pub open spec fn session_rows(we: Seq<(Seq<char>, WindowView)>, s: SessionView) -> Seq<Seq<char>> {
    if s.windows.len() <= 1 && total_panes(we, s.windows) <= 1 {
        seq![single_leaf(we, s)]
    } else if s.windows.len() == 1 {
        seq![s.id] + if s.expanded {
            match entry_lookup(we, s.windows[0]) {
                Some(w) => w.panes,
                None => Seq::empty(),
            }
        } else {
            Seq::empty()
        }
    } else {
        seq![s.id] + if s.expanded { windows_rows(we, s.windows) } else { Seq::empty() }
    }
}

pub open spec fn tree_rows(se: Seq<(Seq<char>, SessionView)>, we: Seq<(Seq<char>, WindowView)>) -> Seq<Seq<char>>
    decreases se.len(),
{
    if se.len() == 0 {
        Seq::empty()
    } else {
        tree_rows(se.drop_last(), we) + session_rows(we, se.last().1)
    }
}

pub open spec fn model_rows(m: TreeModel) -> Seq<Seq<char>> {
    tree_rows(m.sessions, m.windows)
}

impl AppState {
    pub open spec fn model(&self) -> TreeModel {
        TreeModel {
            sessions: session_entries(self.sessions),
            windows: window_entries(self.windows),
            panes: pane_entries(self.panes),
            selected: opt_view(self.focus.selected_id),
        }
    }

    /// The ids of the rows the tree shows, top to bottom.
    pub open spec fn visible_rows(&self) -> Seq<Seq<char>> {
        model_rows(self.model())
    }
}

proof fn lemma_strs_push(v: Seq<String>, x: String)
    ensures
        strs(v.push(x)) == strs(v).push(x@),
{
    assert(strs(v.push(x)) =~= strs(v).push(x@));
}

/// Appends copies of all of `items` to `list`.
pub(crate) fn push_all(list: &mut Vec<String>, items: &Vec<String>)
    ensures
        strs(final(list)@) == strs(old(list)@) + strs(items@),
{
    let mut i: usize = 0;
    let ghost start = strs(list@);
    while i < items.len()
        invariant
            i <= items.len(),
            strs(list@) == start + strs(items@).take(i as int),
        decreases items.len() - i,
    {
        proof {
            lemma_strs_push(list@, items@[i as int]);
        }
        list.push(items[i].clone());
        i = i + 1;
        assert(strs(items@).take(i as int) =~= strs(items@).take(i - 1).push(items@[i - 1]@));
    }
    assert(strs(items@).take(items.len() as int) =~= strs(items@));
}

/// `min(total_panes, 2)`: enough to tell zero, one and several panes apart
/// without summing past what a `usize` holds.
pub(crate) fn capped_total_panes(windows: &IndexMap<String, Window>, wins: &Vec<String>) -> (n: usize)
    ensures
        n == if total_panes(window_entries(*windows), strs(wins@)) <= 2 {
            total_panes(window_entries(*windows), strs(wins@))
        } else {
            2
        },
{
    let ghost we = window_entries(*windows);
    let mut acc: usize = 0;
    let mut i: usize = 0;
    while i < wins.len()
        invariant
            i <= wins.len(),
            we == window_entries(*windows),
            acc == if total_panes(we, strs(wins@).take(i as int)) <= 2 {
                total_panes(we, strs(wins@).take(i as int))
            } else {
                2
            },
        decreases wins.len() - i,
    {
        let cnt: usize = match window_map_get(windows, wins[i].as_str()) {
            Some(w) => w.panes.len(),
            None => 0,
        };
        assert(strs(wins@).take(i + 1).drop_last() =~= strs(wins@).take(i as int));
        assert(strs(wins@).take(i + 1).last() == wins@[i as int]@);
        if cnt >= 2 || acc + cnt >= 2 {
            acc = 2;
        } else {
            acc = acc + cnt;
        }
        i = i + 1;
    }
    assert(strs(wins@).take(wins.len() as int) =~= strs(wins@));
    acc
}

impl AppState {
    /// The rows of one window under an expanded session header.
    fn push_window_rows(&self, wid: &String, list: &mut Vec<String>)
        ensures
            strs(final(list)@) == strs(old(list)@) + window_rows(window_entries(self.windows), wid@),
    {
        let ghost we = window_entries(self.windows);
        match window_map_get(&self.windows, wid.as_str()) {
            None => {
                assert(strs(list@) =~= strs(list@) + Seq::<Seq<char>>::empty());
            },
            Some(w) => {
                if w.panes.len() <= 1 {
                    let leaf = if w.panes.len() == 1 { w.panes[0].clone() } else { wid.clone() };
                    proof { lemma_strs_push(list@, leaf); }
                    list.push(leaf);
                } else {
                    proof { lemma_strs_push(list@, *wid); }
                    list.push(wid.clone());
                    if w.expanded {
                        push_all(list, &w.panes);
                    } else {
                        assert(strs(list@) =~= strs(list@) + Seq::<Seq<char>>::empty());
                    }
                }
            },
        }
    }

    /// The rows one session contributes.
    fn push_session_rows(&self, s: &Session, list: &mut Vec<String>)
        ensures
            strs(final(list)@) == strs(old(list)@) + session_rows(window_entries(self.windows), s@),
    {
        let ghost we = window_entries(self.windows);
        let nw = s.windows.len();
        let tp = capped_total_panes(&self.windows, &s.windows);
        if nw <= 1 && tp <= 1 {
            let mut leaf = s.id.clone();
            if nw >= 1 {
                match window_map_get(&self.windows, s.windows[0].as_str()) {
                    Some(w) => {
                        if w.panes.len() > 0 {
                            leaf = w.panes[0].clone();
                        }
                    },
                    None => {},
                }
            }
            proof { lemma_strs_push(list@, leaf); }
            list.push(leaf);
        } else if nw == 1 {
            proof { lemma_strs_push(list@, s.id); }
            list.push(s.id.clone());
            if s.expanded {
                match window_map_get(&self.windows, s.windows[0].as_str()) {
                    Some(w) => {
                        push_all(list, &w.panes);
                    },
                    None => {
                        assert(strs(list@) =~= strs(list@) + Seq::<Seq<char>>::empty());
                    },
                }
            } else {
                assert(strs(list@) =~= strs(list@) + Seq::<Seq<char>>::empty());
            }
        } else {
            proof { lemma_strs_push(list@, s.id); }
            list.push(s.id.clone());
            let ghost head = strs(list@);
            if s.expanded {
                let mut j: usize = 0;
                while j < s.windows.len()
                    invariant
                        j <= s.windows.len(),
                        we == window_entries(self.windows),
                        strs(list@) == head + windows_rows(we, strs(s.windows@).take(j as int)),
                    decreases s.windows.len() - j,
                {
                    self.push_window_rows(&s.windows[j], list);
                    proof {
                        let t = strs(s.windows@).take(j + 1);
                        assert(t.drop_last() =~= strs(s.windows@).take(j as int));
                        assert(t.last() == s.windows@[j as int]@);
                    }
                    j = j + 1;
                }
                assert(strs(s.windows@).take(s.windows.len() as int) =~= strs(s.windows@));
            } else {
                assert(strs(list@) =~= strs(list@) + Seq::<Seq<char>>::empty());
            }
        }
    }

    /// The ids of the rows the tree shows, top to bottom.
    pub fn get_dynamic_visible_items(&self) -> (list: Vec<String>)
        ensures
            strs(list@) == self.visible_rows(),
    {
        let ghost se = session_entries(self.sessions);
        let ghost we = window_entries(self.windows);
        let mut list: Vec<String> = Vec::new();
        let n = session_map_len(&self.sessions);
        let mut i: usize = 0;
        assert(strs(list@) =~= Seq::<Seq<char>>::empty());
        while i < n
            invariant
                i <= n,
                n == se.len(),
                se == session_entries(self.sessions),
                we == window_entries(self.windows),
                strs(list@) == tree_rows(se.take(i as int), we),
            decreases n - i,
        {
            let (_k, s) = session_map_get_index(&self.sessions, i).unwrap();
            self.push_session_rows(s, &mut list);
            proof {
                let t = se.take(i + 1);
                assert(t.drop_last() =~= se.take(i as int));
                assert(t.last() == se[i as int]);
            }
            i = i + 1;
        }
        assert(se.take(n as int) =~= se);
        list
    }

    /// The same rows as [`AppState::get_dynamic_visible_items`].
    pub fn get_visible_list(&self) -> (list: Vec<String>)
        ensures
            strs(list@) == self.visible_rows(),
    {
        self.get_dynamic_visible_items()
    }
}

/// Position of the first row equal to `x`, or -1 when there is none.
pub open spec fn first_index(rows: Seq<Seq<char>>, x: Seq<char>) -> int
    decreases rows.len(),
{
    if rows.len() == 0 {
        -1
    } else if rows[0] == x {
        0
    } else {
        let r = first_index(rows.drop_first(), x);
        if r < 0 {
            -1
        } else {
            r + 1
        }
    }
}

pub proof fn lemma_first_index(rows: Seq<Seq<char>>, x: Seq<char>)
    ensures
        -1 <= first_index(rows, x) < rows.len(),
        first_index(rows, x) >= 0 ==> rows[first_index(rows, x)] == x,
        forall|j: int| 0 <= j < rows.len() && (first_index(rows, x) < 0 || j < first_index(rows, x)) ==> #[trigger] rows[j] != x,
    decreases rows.len(),
{
    if rows.len() > 0 && rows[0] != x {
        let t = rows.drop_first();
        lemma_first_index(t, x);
        assert forall|j: int| 0 <= j < rows.len() && (first_index(rows, x) < 0 || j < first_index(rows, x)) implies #[trigger] rows[j] != x by {
            if j > 0 {
                assert(rows[j] == t[j - 1]);
            }
        }
    }
}

pub proof fn lemma_first_index_at(rows: Seq<Seq<char>>, i: int)
    requires
        0 <= i < rows.len(),
        forall|j: int| 0 <= j < i ==> #[trigger] rows[j] != rows[i],
    ensures
        first_index(rows, rows[i]) == i,
{
    lemma_first_index(rows, rows[i]);
}

/// Where the selection goes on "up": the row above, wrapping from the top to
/// the bottom; a selection that is not on screen goes to the bottom row.
pub open spec fn selection_up(rows: Seq<Seq<char>>, sel: Option<Seq<char>>) -> Option<Seq<char>> {
    if rows.len() == 0 {
        sel
    } else {
        match sel {
            Some(x) if first_index(rows, x) >= 0 => {
                let p = first_index(rows, x);
                Some(rows[if p > 0 { p - 1 } else { rows.len() - 1 }])
            },
            _ => Some(rows.last()),
        }
    }
}

/// Where the selection goes on "down": the row below, wrapping from the
/// bottom to the top; a selection that is not on screen goes to the top row.
pub open spec fn selection_down(rows: Seq<Seq<char>>, sel: Option<Seq<char>>) -> Option<Seq<char>> {
    if rows.len() == 0 {
        sel
    } else {
        match sel {
            Some(x) if first_index(rows, x) >= 0 => {
                let p = first_index(rows, x);
                Some(rows[if p + 1 < rows.len() { p + 1 } else { 0 }])
            },
            _ => Some(rows[0]),
        }
    }
}

/// The position of the first string equal to `x`.
pub fn position(list: &Vec<String>, x: &String) -> (r: Option<usize>)
    ensures
        r matches Some(p) ==> p as int == first_index(strs(list@), x@) && p < list@.len(),
        r is None ==> first_index(strs(list@), x@) < 0,
{
    let ghost rows = strs(list@);
    proof {
        lemma_first_index(rows, x@);
    }
    let mut i: usize = 0;
    while i < list.len()
        invariant
            i <= list.len(),
            rows == strs(list@),
            forall|j: int| 0 <= j < i ==> #[trigger] rows[j] != x@,
        decreases list.len() - i,
    {
        if list[i] == *x {
            proof {
                lemma_first_index_at(rows, i as int);
            }
            return Some(i);
        }
        i = i + 1;
    }
    proof {
        if first_index(rows, x@) >= 0 {
            assert(rows[first_index(rows, x@)] == x@);
        }
    }
    None
}

impl AppState {
    /// Everything but the tree and the selection.
    pub open spec fn same_settings(&self, other: &AppState) -> bool {
        &&& self.same_settings_but_scroll(other)
        &&& self.focus.scroll_offset == other.focus.scroll_offset
    }

    /// Everything but the tree, the selection and the scroll offset.
    pub open spec fn same_settings_but_scroll(&self, other: &AppState) -> bool {
        &&& self.same_prefs(other)
        &&& self.focus.nav_mode == other.focus.nav_mode
    }

    /// Everything but the tree, the selection, the scroll offset and the
    /// navigation mode.
    pub open spec fn same_prefs(&self, other: &AppState) -> bool {
        &&& self.focus.panel == other.focus.panel
        &&& self.focus.enable_scrolling == other.focus.enable_scrolling
        &&& self.input_mode == other.input_mode
        &&& self.show_help == other.show_help
        &&& self.expanded_ids == other.expanded_ids
        &&& self.last_target_id == other.last_target_id
        &&& self.sidebar_cols == other.sidebar_cols
        &&& self.theme == other.theme
        &&& self.own_session == other.own_session
        &&& self.mirror_suppressed == other.mirror_suppressed
        &&& self.filter == other.filter
    }

    /// Moves the selection one row up, wrapping around.
    pub fn move_selection_up(&mut self)
        ensures
            final(self).model() == (TreeModel {
                selected: selection_up(old(self).visible_rows(), old(self).model().selected),
                ..old(self).model()
            }),
            final(self).same_settings(&*old(self)),
    {
        let list = self.get_dynamic_visible_items();
        self.step_up_in(&list);
    }

    /// Moves the selection one row up in `list`, wrapping around.
    pub fn step_up_in(&mut self, list: &Vec<String>)
        ensures
            final(self).model() == (TreeModel {
                selected: selection_up(strs(list@), old(self).model().selected),
                ..old(self).model()
            }),
            final(self).same_settings(&*old(self)),
    {
        if list.len() == 0 {
            return;
        }
        let pos = match &self.focus.selected_id {
            Some(sel) => position(&list, sel),
            None => None,
        };
        match pos {
            Some(p) => {
                let next = if p > 0 { p - 1 } else { list.len() - 1 };
                assert(strs(list@)[next as int] == list@[next as int]@);
                self.focus.selected_id = Some(list[next].clone());
            },
            None => {
                assert(strs(list@).last() == list@[list.len() - 1]@);
                self.focus.selected_id = Some(list[list.len() - 1].clone());
            },
        }
    }

    /// Moves the selection one row down, wrapping around.
    pub fn move_selection_down(&mut self)
        ensures
            final(self).model() == (TreeModel {
                selected: selection_down(old(self).visible_rows(), old(self).model().selected),
                ..old(self).model()
            }),
            final(self).same_settings(&*old(self)),
    {
        let list = self.get_dynamic_visible_items();
        self.step_down_in(&list);
    }

    /// Moves the selection one row down in `list`, wrapping around.
    pub fn step_down_in(&mut self, list: &Vec<String>)
        ensures
            final(self).model() == (TreeModel {
                selected: selection_down(strs(list@), old(self).model().selected),
                ..old(self).model()
            }),
            final(self).same_settings(&*old(self)),
    {
        if list.len() == 0 {
            return;
        }
        let pos = match &self.focus.selected_id {
            Some(sel) => position(&list, sel),
            None => None,
        };
        match pos {
            Some(p) => {
                let next = if p + 1 < list.len() { p + 1 } else { 0 };
                assert(strs(list@)[next as int] == list@[next as int]@);
                self.focus.selected_id = Some(list[next].clone());
            },
            None => {
                assert(strs(list@)[0] == list@[0]@);
                self.focus.selected_id = Some(list[0].clone());
            },
        }
    }
}

/// Copies of a list of strings.
pub fn copy_strings(v: &Vec<String>) -> (r: Vec<String>)
    ensures
        r@ == v@,
{
    let mut r: Vec<String> = Vec::new();
    let mut i: usize = 0;
    while i < v.len()
        invariant
            i <= v.len(),
            r@ == v@.take(i as int),
        decreases v.len() - i,
    {
        r.push(v[i].clone());
        i = i + 1;
        assert(r@ =~= v@.take(i as int));
    }
    assert(v@.take(v.len() as int) =~= v@);
    r
}

impl Session {
    /// This session with its expansion flag set to `expanded`.
    pub fn with_expanded(&self, expanded: bool) -> (r: Session)
        ensures
            r@ == (SessionView { expanded, ..self@ }),
    {
        Session {
            id: self.id.clone(),
            name: self.name.clone(),
            windows: copy_strings(&self.windows),
            expanded,
            last_attached: self.last_attached,
            attached: self.attached,
        }
    }
}

impl Window {
    /// This window with its expansion flag set to `expanded`.
    pub fn with_expanded(&self, expanded: bool) -> (r: Window)
        ensures
            r@ == (WindowView { expanded, ..self@ }),
    {
        Window {
            id: self.id.clone(),
            session_id: self.session_id.clone(),
            name: self.name.clone(),
            panes: copy_strings(&self.panes),
            active: self.active,
            width: self.width,
            height: self.height,
            expanded,
        }
    }
}

/// The session entries with `k`'s expansion flag set to `b` (unchanged when
/// there is no such session).
pub open spec fn set_session_expanded(se: Seq<(Seq<char>, SessionView)>, k: Seq<char>, b: bool) -> Seq<(Seq<char>, SessionView)> {
    match entry_lookup(se, k) {
        Some(v) => entry_insert(se, k, SessionView { expanded: b, ..v }),
        None => se,
    }
}

/// The window entries with `k`'s expansion flag set to `b` (unchanged when
/// there is no such window).
pub open spec fn set_window_expanded(we: Seq<(Seq<char>, WindowView)>, k: Seq<char>, b: bool) -> Seq<(Seq<char>, WindowView)> {
    match entry_lookup(we, k) {
        Some(v) => entry_insert(we, k, WindowView { expanded: b, ..v }),
        None => we,
    }
}

pub(crate) fn set_session_flag(m: &mut IndexMap<String, Session>, k: &str, b: bool)
    ensures
        session_entries(*final(m)) == set_session_expanded(session_entries(*old(m)), k@, b),
{
    let ns = match session_map_get(m, k) {
        Some(s) => Some(s.with_expanded(b)),
        None => None,
    };
    match ns {
        Some(ns) => session_map_insert(m, owned(k), ns),
        None => {},
    }
}

pub(crate) fn set_window_flag(m: &mut IndexMap<String, Window>, k: &str, b: bool)
    ensures
        window_entries(*final(m)) == set_window_expanded(window_entries(*old(m)), k@, b),
{
    let nw = match window_map_get(m, k) {
        Some(w) => Some(w.with_expanded(b)),
        None => None,
    };
    match nw {
        Some(nw) => window_map_insert(m, owned(k), nw),
        None => {},
    }
}

/// Space: flips the expansion of the selected session or window.
pub open spec fn toggle_model(m: TreeModel) -> TreeModel {
    match m.selected {
        None => m,
        Some(sel) => match entry_lookup(m.sessions, sel) {
            Some(s) => TreeModel { sessions: set_session_expanded(m.sessions, sel, !s.expanded), ..m },
            None => match entry_lookup(m.windows, sel) {
                Some(w) => TreeModel { windows: set_window_expanded(m.windows, sel, !w.expanded), ..m },
                None => m,
            },
        },
    }
}

/// Left: collapse the selected node, or move to its parent when it is already
/// collapsed or is a pane.
pub open spec fn nav_left_model(m: TreeModel) -> TreeModel {
    match m.selected {
        None => m,
        Some(sel) => if entry_lookup(m.sessions, sel) is Some {
            if entry_lookup(m.sessions, sel).unwrap().expanded {
                TreeModel { sessions: set_session_expanded(m.sessions, sel, false), ..m }
            } else {
                m
            }
        } else if entry_lookup(m.windows, sel) is Some {
            let w = entry_lookup(m.windows, sel).unwrap();
            if w.expanded {
                TreeModel { windows: set_window_expanded(m.windows, sel, false), ..m }
            } else {
                TreeModel { selected: Some(w.session_id), ..m }
            }
        } else if entry_lookup(m.panes, sel) is Some {
            let wid = entry_lookup(m.panes, sel).unwrap().window_id;
            match entry_lookup(m.windows, wid) {
                None => m,
                Some(w) => {
                    let sid = w.session_id;
                    let nw = match entry_lookup(m.sessions, sid) {
                        Some(s) => s.windows.len(),
                        None => 0,
                    };
                    if w.panes.len() > 1 && nw > 1 {
                        // The parent is a window header.
                        TreeModel { selected: Some(wid), windows: set_window_expanded(m.windows, wid, false), ..m }
                    } else if nw > 1 {
                        // The window was a leaf row under a session header.
                        TreeModel { selected: Some(sid), ..m }
                    } else if w.panes.len() > 1 {
                        // One window with several panes: the window has no row of
                        // its own, the parent is the session header.
                        TreeModel { selected: Some(sid), sessions: set_session_expanded(m.sessions, sid, false), ..m }
                    } else {
                        // A lone pane is its session's only row: there is no parent row.
                        m
                    }
                },
            }
        } else {
            m
        },
    }
}

/// Right: expand the selected node, or move to its first child when it is
/// already expanded. Panes are leaves.
pub open spec fn nav_right_model(m: TreeModel) -> TreeModel {
    match m.selected {
        None => m,
        Some(sel) => if entry_lookup(m.sessions, sel) is Some {
            let s = entry_lookup(m.sessions, sel).unwrap();
            if !(s.windows.len() > 1 || total_panes(m.windows, s.windows) > 1) {
                m
            } else if !s.expanded {
                TreeModel { sessions: set_session_expanded(m.sessions, sel, true), ..m }
            } else {
                let rows = model_rows(m);
                let pos = first_index(rows, sel);
                if pos >= 0 && pos + 1 < rows.len() {
                    TreeModel { selected: Some(rows[pos + 1]), ..m }
                } else {
                    m
                }
            }
        } else if entry_lookup(m.windows, sel) is Some {
            let w = entry_lookup(m.windows, sel).unwrap();
            if !(w.panes.len() > 1) {
                m
            } else if !w.expanded {
                TreeModel { windows: set_window_expanded(m.windows, sel, true), ..m }
            } else {
                TreeModel { selected: Some(w.panes[0]), ..m }
            }
        } else {
            m
        },
    }
}

impl AppState {
    /// Flips the expansion of the selected session or window.
    pub fn toggle_expansion(&mut self)
        ensures
            final(self).model() == toggle_model(old(self).model()),
            final(self).same_settings(&*old(self)),
    {
        match &self.focus.selected_id {
            None => {},
            Some(sel) => {
                match session_map_get(&self.sessions, sel.as_str()) {
                    Some(s) => {
                        let e = s.expanded;
                        set_session_flag(&mut self.sessions, sel.as_str(), !e);
                    },
                    None => {
                        match window_map_get(&self.windows, sel.as_str()) {
                            Some(w) => {
                                let e = w.expanded;
                                set_window_flag(&mut self.windows, sel.as_str(), !e);
                            },
                            None => {},
                        }
                    },
                }
            },
        }
    }

    /// Left: collapse the selected node, or jump to its parent.
    pub fn switch_nav_left(&mut self)
        ensures
            final(self).model() == nav_left_model(old(self).model()),
            final(self).same_settings(&*old(self)),
    {
        let sel = match &self.focus.selected_id {
            Some(s) => s.clone(),
            None => return,
        };
        match session_map_get(&self.sessions, sel.as_str()) {
            Some(session) => {
                if session.expanded {
                    set_session_flag(&mut self.sessions, sel.as_str(), false);
                }
                return;
            },
            None => {},
        }
        match window_map_get(&self.windows, sel.as_str()) {
            Some(window) => {
                if window.expanded {
                    set_window_flag(&mut self.windows, sel.as_str(), false);
                } else {
                    let sid = window.session_id.clone();
                    self.focus.selected_id = Some(sid);
                }
                return;
            },
            None => {},
        }
        let wid = match pane_map_get(&self.panes, sel.as_str()) {
            Some(pane) => pane.window_id.clone(),
            None => return,
        };
        let (sid, many_panes) = match window_map_get(&self.windows, wid.as_str()) {
            Some(window) => (window.session_id.clone(), window.panes.len() > 1),
            None => return,
        };
        let num_windows: usize = match session_map_get(&self.sessions, sid.as_str()) {
            Some(s) => s.windows.len(),
            None => 0,
        };
        if many_panes && num_windows > 1 {
            // The parent is a window header.
            self.focus.selected_id = Some(wid.clone());
            set_window_flag(&mut self.windows, wid.as_str(), false);
        } else if num_windows > 1 {
            // The window was a leaf row under a session header.
            self.focus.selected_id = Some(sid);
        } else if many_panes {
            // One window with several panes: the window has no row of its
            // own, the parent is the session header.
            set_session_flag(&mut self.sessions, sid.as_str(), false);
            self.focus.selected_id = Some(sid);
        }
    }

    /// Right: expand the selected node, or descend to its first child.
    pub fn switch_nav_right(&mut self)
        ensures
            final(self).model() == nav_right_model(old(self).model()),
            final(self).same_settings(&*old(self)),
    {
        let sel = match &self.focus.selected_id {
            Some(s) => s.clone(),
            None => return,
        };
        match session_map_get(&self.sessions, sel.as_str()) {
            Some(s) => {
                let nw = s.windows.len();
                let tp = capped_total_panes(&self.windows, &s.windows);
                let can_expand = nw > 1 || tp > 1;
                let already_expanded = s.expanded;
                if !can_expand {
                    return;
                }
                if !already_expanded {
                    set_session_flag(&mut self.sessions, sel.as_str(), true);
                    return;
                }
                // Already expanded: move to the first child.
                let list = self.get_dynamic_visible_items();
                match position(&list, &sel) {
                    Some(pos) => {
                        assert(pos < list.len());
                        if pos + 1 < list.len() {
                            assert(strs(list@)[pos + 1] == list@[pos + 1]@);
                            self.focus.selected_id = Some(list[pos + 1].clone());
                        }
                    },
                    None => {},
                }
                return;
            },
            None => {},
        }
        match window_map_get(&self.windows, sel.as_str()) {
            Some(w) => {
                let can_expand = w.panes.len() > 1;
                if !can_expand {
                    return;
                }
                if !w.expanded {
                    set_window_flag(&mut self.windows, sel.as_str(), true);
                    return;
                }
                // Already expanded: move to the first pane.
                assert(strs(w.panes@)[0] == w.panes@[0]@);
                let pid = w.panes[0].clone();
                self.focus.selected_id = Some(pid);
            },
            None => {},
        }
    }
}

/// The scroll offset that brings the selected row into a window of `height`
/// rows, then clamped so the window does not run past the last row.
pub open spec fn scrolled(rows: Seq<Seq<char>>, sel: Option<Seq<char>>, off: int, height: int) -> int {
    let off1 = match sel {
        Some(x) if first_index(rows, x) >= 0 => {
            let pos = first_index(rows, x);
            if pos < off {
                pos
            } else if pos >= off + height {
                pos - height + 1
            } else {
                off
            }
        },
        _ => off,
    };
    if rows.len() > 0 {
        let max_offset = if rows.len() >= height { rows.len() - height } else { 0 };
        if off1 > max_offset {
            max_offset
        } else {
            off1
        }
    } else {
        0
    }
}

impl AppState {
    /// No overflow in `scroll_offset + height` where the scroll update adds them.
    pub open spec fn scroll_fits(&self, height: usize) -> bool {
        scroll_fits_in(self.visible_rows(), self.model().selected, self.focus.scroll_offset, height)
    }

    /// Scrolls so the selected row is among the `height` rows shown.
    pub fn update_scroll(&mut self, height: usize)
        requires
            old(self).scroll_fits(height),
        ensures
            final(self).focus.scroll_offset == scrolled(
                old(self).visible_rows(),
                old(self).model().selected,
                old(self).focus.scroll_offset as int,
                height as int,
            ),
            final(self).model() == old(self).model(),
            final(self).same_settings_but_scroll(&*old(self)),
            // A visible selection ends up on screen.
            ({
                let rows = old(self).visible_rows();
                let off = final(self).focus.scroll_offset;
                let x = old(self).model().selected->0;
                old(self).model().selected is Some && first_index(rows, x) >= 0 && height > 0
                    ==> off <= first_index(rows, x) < off + height
            }),
    {
        let visible = self.get_visible_list();
        self.update_scroll_in(&visible, height);
    }

    /// Scrolls the list of rows `visible` so the selected row is among the
    /// `height` rows shown.
    pub fn update_scroll_in(&mut self, visible: &Vec<String>, height: usize)
        requires
            scroll_fits_in(strs(visible@), old(self).model().selected, old(self).focus.scroll_offset, height),
        ensures
            final(self).focus.scroll_offset == scrolled(
                strs(visible@),
                old(self).model().selected,
                old(self).focus.scroll_offset as int,
                height as int,
            ),
            final(self).model() == old(self).model(),
            final(self).same_settings_but_scroll(&*old(self)),
            ({
                let rows = strs(visible@);
                let off = final(self).focus.scroll_offset;
                let x = old(self).model().selected->0;
                old(self).model().selected is Some && first_index(rows, x) >= 0 && height > 0
                    ==> off <= first_index(rows, x) < off + height
            }),
    {
        let ghost rows = strs(visible@);
        proof {
            if self.model().selected is Some {
                lemma_first_index(rows, self.model().selected.unwrap());
            }
        }
        let pos = match &self.focus.selected_id {
            Some(sel) => position(visible, sel),
            None => None,
        };
        match pos {
            Some(pos) => {
                assert(pos < visible.len());
                if pos < self.focus.scroll_offset {
                    self.focus.scroll_offset = pos;
                } else if pos >= self.focus.scroll_offset + height {
                    self.focus.scroll_offset = pos - height + 1;
                }
            },
            None => {},
        }
        if visible.len() > 0 {
            let max_offset = if visible.len() >= height { visible.len() - height } else { 0 };
            if self.focus.scroll_offset > max_offset {
                self.focus.scroll_offset = max_offset;
            }
        } else {
            self.focus.scroll_offset = 0;
        }
    }
}

/// No overflow in `offset + height` where the scroll update adds them.
pub open spec fn scroll_fits_in(rows: Seq<Seq<char>>, sel: Option<Seq<char>>, offset: usize, height: usize) -> bool {
    match sel {
        Some(x) => {
            let pos = first_index(rows, x);
            pos >= 0 && pos >= offset ==> offset + height <= usize::MAX
        },
        None => true,
    }
}

/// The UI state that survives a restart.
pub struct PersistentState {
    pub focus: Focus,
    pub expanded_ids: Vec<String>,
    pub sidebar_cols: u16,
}

pub open spec fn default_focus(f: Focus) -> bool {
    &&& f.panel == Panel::Tree
    &&& f.nav_mode == NavMode::Window
    &&& f.selected_id is None
    &&& f.scroll_offset == 0
    &&& !f.enable_scrolling
}

impl Default for Panel {
    fn default() -> (p: Self)
        ensures
            p == Panel::Tree,
    {
        Panel::Tree
    }
}

impl Default for NavMode {
    fn default() -> (m: Self)
        ensures
            m == NavMode::Window,
    {
        NavMode::Window
    }
}

impl Default for Focus {
    fn default() -> (f: Self)
        ensures
            default_focus(f),
    {
        Focus { panel: Panel::Tree, nav_mode: NavMode::Window, selected_id: None, scroll_offset: 0, enable_scrolling: false }
    }
}

impl Focus {
    /// A copy of this focus.
    pub fn duplicate(&self) -> (r: Focus)
        ensures
            r == *self,
    {
        Focus {
            panel: self.panel,
            nav_mode: self.nav_mode,
            selected_id: match &self.selected_id {
                Some(s) => Some(s.clone()),
                None => None,
            },
            scroll_offset: self.scroll_offset,
            enable_scrolling: self.enable_scrolling,
        }
    }
}

impl AppState {
    /// Everything but the focus, the remembered expansion and the sidebar width
    /// is as a fresh start has it.
    pub open spec fn fresh_apart_from_prefs(&self) -> bool {
        &&& session_entries(self.sessions).len() == 0
        &&& window_entries(self.windows).len() == 0
        &&& pane_entries(self.panes).len() == 0
        &&& self.input_mode == InputMode::TuiNormal
        &&& !self.show_help
        &&& self.last_target_id is None
        &&& self.theme == default_theme()
        &&& self.own_session is None
        &&& !self.mirror_suppressed
        &&& self.filter is None
    }

    /// The state a fresh start begins in.
    pub open spec fn is_fresh(&self) -> bool {
        &&& self.fresh_apart_from_prefs()
        &&& default_focus(self.focus)
        &&& self.expanded_ids@.len() == 0
        &&& self.sidebar_cols == 0
    }

    /// What is written to disk: the focus, the ids of the expanded sessions
    /// and windows, and the sidebar width.
    pub fn persistent_state(&self) -> (p: PersistentState)
        ensures
            p.focus == self.focus,
            strs(p.expanded_ids@) == expanded_session_ids(session_entries(self.sessions))
                + expanded_window_ids(window_entries(self.windows)),
            p.sidebar_cols == self.sidebar_cols,
    {
        PersistentState { focus: self.focus.duplicate(), expanded_ids: expanded_ids_now(self), sidebar_cols: self.sidebar_cols }
    }

    /// A fresh state, with what was read back from disk (if anything) applied.
    pub fn from_persistent(p: Option<PersistentState>) -> (st: AppState)
        ensures
            st.fresh_apart_from_prefs(),
            p is None ==> st.is_fresh(),
            p matches Some(q) ==> st.focus == q.focus && st.expanded_ids == q.expanded_ids && st.sidebar_cols == q.sidebar_cols,
    {
        let mut st = AppState::default();
        match p {
            Some(q) => {
                st.focus = q.focus;
                st.expanded_ids = q.expanded_ids;
                st.sidebar_cols = q.sidebar_cols;
            },
            None => {},
        }
        st
    }
}

impl Default for AppState {
    fn default() -> (st: Self)
        ensures
            st.is_fresh(),
    {
        AppState {
            sessions: session_map_new(),
            windows: window_map_new(),
            panes: pane_map_new(),
            focus: Focus::default(),
            input_mode: InputMode::TuiNormal,
            show_help: false,
            expanded_ids: Vec::new(),
            last_target_id: None,
            sidebar_cols: 0,
            theme: Theme::default(),
            own_session: None,
            mirror_suppressed: false,
            filter: None,
        }
    }
}

proof fn lemma_set_twice<V>(e: Seq<(Seq<char>, V)>, k: Seq<char>, v1: V)
    requires
        entry_lookup(e, k) is Some,
    ensures
        entry_insert(entry_insert(e, k, v1), k, entry_lookup(e, k).unwrap()) == e,
        entry_lookup(entry_insert(e, k, v1), k) == Some(v1),
{
    lemma_entry_index(e, k);
    let i = entry_index(e, k);
    let e1 = entry_insert(e, k, v1);
    lemma_entry_insert(e, k, v1, k);
    lemma_entry_index(e1, k);
    assert(entry_index(e1, k) == i) by {
        assert forall|j: int| 0 <= j < i implies #[trigger] e1[j].0 != k by {
            assert(e1[j] == e[j]);
        }
        assert(e1[i].0 == k);
        if entry_index(e1, k) >= 0 && entry_index(e1, k) != i {
            assert(entry_index(e1, k) > i);
        }
    }
    assert(entry_insert(e1, k, entry_lookup(e, k).unwrap()) =~= e);
}

proof fn lemma_flip_session_twice(se: Seq<(Seq<char>, SessionView)>, k: Seq<char>)
    requires
        entry_lookup(se, k) is Some,
    ensures
        ({
            let v = entry_lookup(se, k).unwrap();
            let se1 = set_session_expanded(se, k, !v.expanded);
            &&& entry_lookup(se1, k) == Some(SessionView { expanded: !v.expanded, ..v })
            &&& set_session_expanded(se1, k, v.expanded) == se
        }),
{
    let v = entry_lookup(se, k).unwrap();
    let v1 = SessionView { expanded: !v.expanded, ..v };
    lemma_set_twice(se, k, v1);
    assert(SessionView { expanded: v.expanded, ..v1 } == v);
}

proof fn lemma_flip_window_twice(we: Seq<(Seq<char>, WindowView)>, k: Seq<char>)
    requires
        entry_lookup(we, k) is Some,
    ensures
        ({
            let v = entry_lookup(we, k).unwrap();
            let we1 = set_window_expanded(we, k, !v.expanded);
            &&& entry_lookup(we1, k) == Some(WindowView { expanded: !v.expanded, ..v })
            &&& set_window_expanded(we1, k, v.expanded) == we
        }),
{
    let v = entry_lookup(we, k).unwrap();
    let v1 = WindowView { expanded: !v.expanded, ..v };
    lemma_set_twice(we, k, v1);
    assert(WindowView { expanded: v.expanded, ..v1 } == v);
}

/// Pressing space twice leaves the tree and the selection as they were.
pub proof fn toggle_twice_restores(m: TreeModel)
    ensures
        toggle_model(toggle_model(m)) == m,
{
    match m.selected {
        None => {},
        Some(sel) => {
            if entry_lookup(m.sessions, sel) is Some {
                lemma_flip_session_twice(m.sessions, sel);
            } else if entry_lookup(m.windows, sel) is Some {
                lemma_flip_window_twice(m.windows, sel);
            }
        },
    }
}

/// A header row: a session with more than one window or pane, or a window
/// with more than one pane.
pub open spec fn is_expandable_header(m: TreeModel, sel: Seq<char>) -> bool {
    if entry_lookup(m.sessions, sel) is Some {
        let s = entry_lookup(m.sessions, sel).unwrap();
        s.windows.len() > 1 || total_panes(m.windows, s.windows) > 1
    } else {
        entry_lookup(m.windows, sel) is Some && entry_lookup(m.windows, sel).unwrap().panes.len() > 1
    }
}

pub open spec fn is_expanded_node(m: TreeModel, sel: Seq<char>) -> bool {
    if entry_lookup(m.sessions, sel) is Some {
        entry_lookup(m.sessions, sel).unwrap().expanded
    } else {
        entry_lookup(m.windows, sel) is Some && entry_lookup(m.windows, sel).unwrap().expanded
    }
}

/// On an expanded header row, Left collapses it and Right expands it again:
/// the tree and the selection come back unchanged.
pub proof fn right_undoes_left_on_an_expanded_header(m: TreeModel)
    requires
        m.selected is Some,
        is_expandable_header(m, m.selected->0),
        is_expanded_node(m, m.selected->0),
    ensures
        nav_right_model(nav_left_model(m)) == m,
{
    let sel = m.selected->0;
    if entry_lookup(m.sessions, sel) is Some {
        lemma_flip_session_twice(m.sessions, sel);
    } else {
        lemma_flip_window_twice(m.windows, sel);
    }
}

/// Down then Up returns to the row it started from, in a tree where each row
/// appears once.
pub proof fn up_undoes_down(rows: Seq<Seq<char>>, x: Seq<char>)
    requires
        rows.no_duplicates(),
        rows.contains(x),
    ensures
        selection_up(rows, selection_down(rows, Some(x))) == Some(x),
{
    lemma_first_index(rows, x);
    let p = first_index(rows, x);
    if p < 0 {
        let j = choose|j: int| 0 <= j < rows.len() && rows[j] == x;
        assert(rows[j] != x);
    }
    let q = if p + 1 < rows.len() { p + 1 } else { 0 };
    lemma_first_index_at(rows, q);
}

/// Up then Down returns to the row it started from, in a tree where each row
/// appears once.
pub proof fn down_undoes_up(rows: Seq<Seq<char>>, x: Seq<char>)
    requires
        rows.no_duplicates(),
        rows.contains(x),
    ensures
        selection_down(rows, selection_up(rows, Some(x))) == Some(x),
{
    lemma_first_index(rows, x);
    let p = first_index(rows, x);
    if p < 0 {
        let j = choose|j: int| 0 <= j < rows.len() && rows[j] == x;
        assert(rows[j] != x);
    }
    let q = if p > 0 { p - 1 } else { rows.len() - 1 };
    lemma_first_index_at(rows, q);
}

/// Whenever there is a row to select, Up and Down leave the selection on a
/// row of the tree.
pub proof fn moves_land_on_a_row(rows: Seq<Seq<char>>, sel: Option<Seq<char>>)
    requires
        rows.len() > 0,
    ensures
        selection_up(rows, sel) is Some && rows.contains(selection_up(rows, sel)->0),
        selection_down(rows, sel) is Some && rows.contains(selection_down(rows, sel)->0),
{
    if sel is Some {
        lemma_first_index(rows, sel->0);
    }
    let u = selection_up(rows, sel)->0;
    let d = selection_down(rows, sel)->0;
    if sel is Some && first_index(rows, sel->0) >= 0 {
        let p = first_index(rows, sel->0);
        let a = if p > 0 { p - 1 } else { rows.len() - 1 };
        let b = if p + 1 < rows.len() { p + 1 } else { 0 };
        assert(rows[a] == u);
        assert(rows[b] == d);
    } else {
        assert(rows[rows.len() - 1] == u);
        assert(rows[0] == d);
    }
}

/// A consistent tree: each session is stored under its own id, once; every
/// window a session lists is stored and belongs to that session; every pane
/// a window lists is stored and belongs to that window; and no id names two
/// kinds of thing. What `sync_state` reads from tmux has this shape.
pub open spec fn tree_consistent(m: TreeModel) -> bool {
    let se = m.sessions;
    let we = m.windows;
    let pe = m.panes;
    &&& forall|i: int| 0 <= i < se.len() ==> (#[trigger] se[i]).1.id == se[i].0 && entry_index(se, se[i].0) == i
    &&& forall|i: int, j: int|
        0 <= i < se.len() && 0 <= j < se[i].1.windows.len() ==> (#[trigger] entry_lookup(we, se[i].1.windows[j])) is Some
            && entry_lookup(we, se[i].1.windows[j]).unwrap().session_id == se[i].0
    &&& forall|i: int, j: int|
        0 <= i < we.len() && 0 <= j < we[i].1.panes.len() ==> (#[trigger] entry_lookup(pe, we[i].1.panes[j])) is Some
            && entry_lookup(pe, we[i].1.panes[j]).unwrap().window_id == we[i].0
    &&& forall|q: Seq<char>| #[trigger] entry_lookup(se, q) is Some ==> entry_lookup(we, q) is None && entry_lookup(pe, q) is None
    &&& forall|q: Seq<char>| #[trigger] entry_lookup(we, q) is Some ==> entry_lookup(pe, q) is None
}

proof fn lemma_concat_contains(a: Seq<Seq<char>>, b: Seq<Seq<char>>, x: Seq<char>)
    ensures
        (a + b).contains(x) <==> a.contains(x) || b.contains(x),
{
    if a.contains(x) {
        let k = choose|k: int| 0 <= k < a.len() && a[k] == x;
        assert((a + b)[k] == x);
    }
    if b.contains(x) {
        let k = choose|k: int| 0 <= k < b.len() && b[k] == x;
        assert((a + b)[a.len() + k] == x);
    }
    if (a + b).contains(x) {
        let k = choose|k: int| 0 <= k < (a + b).len() && (a + b)[k] == x;
        if k < a.len() {
            assert(a[k] == x);
        } else {
            assert(b[k - a.len()] == x);
        }
    }
}

/// A row is in the tree exactly when it is among the rows of some session.
proof fn lemma_tree_rows_contains(se: Seq<(Seq<char>, SessionView)>, we: Seq<(Seq<char>, WindowView)>, x: Seq<char>)
    ensures
        tree_rows(se, we).contains(x) <==> exists|i: int| 0 <= i < se.len() && #[trigger] session_rows(we, se[i].1).contains(x),
    decreases se.len(),
{
    if se.len() > 0 {
        let d = se.drop_last();
        lemma_tree_rows_contains(d, we, x);
        lemma_concat_contains(tree_rows(d, we), session_rows(we, se.last().1), x);
        if tree_rows(se, we).contains(x) {
            if tree_rows(d, we).contains(x) {
                let i = choose|i: int| 0 <= i < d.len() && #[trigger] session_rows(we, d[i].1).contains(x);
                assert(d[i] == se[i]);
            } else {
                assert(session_rows(we, se[se.len() - 1].1).contains(x));
            }
        } else {
            assert forall|i: int| 0 <= i < se.len() implies !#[trigger] session_rows(we, se[i].1).contains(x) by {
                if i < se.len() - 1 {
                    assert(d[i] == se[i]);
                }
            }
        }
    }
}

/// A row is among the rows of a list of windows exactly when it is among the
/// rows of one of them.
proof fn lemma_windows_rows_contains(we: Seq<(Seq<char>, WindowView)>, wins: Seq<Seq<char>>, x: Seq<char>)
    ensures
        windows_rows(we, wins).contains(x) <==> exists|j: int| 0 <= j < wins.len() && #[trigger] window_rows(we, wins[j]).contains(x),
    decreases wins.len(),
{
    if wins.len() > 0 {
        let d = wins.drop_last();
        lemma_windows_rows_contains(we, d, x);
        lemma_concat_contains(windows_rows(we, d), window_rows(we, wins.last()), x);
        if windows_rows(we, wins).contains(x) {
            if windows_rows(we, d).contains(x) {
                let j = choose|j: int| 0 <= j < d.len() && #[trigger] window_rows(we, d[j]).contains(x);
                assert(d[j] == wins[j]);
            } else {
                assert(window_rows(we, wins[wins.len() - 1]).contains(x));
            }
        } else {
            assert forall|j: int| 0 <= j < wins.len() implies !#[trigger] window_rows(we, wins[j]).contains(x) by {
                if j < wins.len() - 1 {
                    assert(d[j] == wins[j]);
                }
            }
        }
    }
}

/// A looked-up value is the entry stored under that key.
proof fn lemma_lookup_entry<V>(e: Seq<(Seq<char>, V)>, k: Seq<char>)
    requires
        entry_lookup(e, k) is Some,
    ensures
        0 <= entry_index(e, k) < e.len(),
        e[entry_index(e, k)].0 == k,
        entry_lookup(e, k).unwrap() == e[entry_index(e, k)].1,
{
    lemma_entry_index(e, k);
}

/// A pane listed by the window stored under `wid` belongs to that window.
proof fn lemma_listed_pane(m: TreeModel, wid: Seq<char>, l: int)
    requires
        tree_consistent(m),
        entry_lookup(m.windows, wid) is Some,
        0 <= l < entry_lookup(m.windows, wid).unwrap().panes.len(),
    ensures
        entry_lookup(m.panes, entry_lookup(m.windows, wid).unwrap().panes[l]) is Some,
        entry_lookup(m.panes, entry_lookup(m.windows, wid).unwrap().panes[l]).unwrap().window_id == wid,
{
    lemma_lookup_entry(m.windows, wid);
    let idx = entry_index(m.windows, wid);
    assert(entry_lookup(m.panes, m.windows[idx].1.panes[l]) is Some);
}

/// What can be among the rows of the session stored at position `k` of a
/// consistent tree: the session itself (then it is shown as its own row), one
/// of its windows (then the session is expanded with several windows, and
/// the window is a header or empty), or a pane of one of its windows (then
/// the session is expanded if it has several windows).
proof fn lemma_block_member(m: TreeModel, k: int, x: Seq<char>)
    requires
        tree_consistent(m),
        0 <= k < m.sessions.len(),
        session_rows(m.windows, m.sessions[k].1).contains(x),
    ensures
        entry_lookup(m.sessions, x) is Some ==> x == m.sessions[k].0,
        entry_lookup(m.windows, x) is Some ==> m.sessions[k].1.windows.len() > 1 && m.sessions[k].1.expanded
            && m.sessions[k].1.windows.contains(x) && entry_lookup(m.windows, x).unwrap().panes.len() != 1,
        entry_lookup(m.panes, x) is Some ==> ({
            let wid = entry_lookup(m.panes, x).unwrap().window_id;
            &&& m.sessions[k].1.windows.contains(wid)
            &&& entry_lookup(m.windows, wid) is Some
            &&& entry_lookup(m.windows, wid).unwrap().session_id == m.sessions[k].0
            &&& (m.sessions[k].1.windows.len() > 1 ==> m.sessions[k].1.expanded)
        }),
{
    let se = m.sessions;
    let we = m.windows;
    let pe = m.panes;
    let s = se[k].1;
    assert(s.id == se[k].0);
    // A pane of the window `s.windows[j]`.
    let pane_of = |j: int, l: int| 0 <= j < s.windows.len() && entry_lookup(we, s.windows[j]) is Some
        && 0 <= l < entry_lookup(we, s.windows[j]).unwrap().panes.len() && x == entry_lookup(we, s.windows[j]).unwrap().panes[l];
    let via_pane = exists|j: int, l: int| #[trigger] pane_of(j, l);
    let is_window = exists|j: int| 0 <= j < s.windows.len() && s.windows[j] == x;
    if s.windows.len() <= 1 && total_panes(we, s.windows) <= 1 {
        assert(session_rows(we, s) == seq![single_leaf(we, s)]);
        if x != s.id {
            assert(pane_of(0, 0));
        }
        assert(x == s.id || via_pane);
        assert(!(s.windows.len() > 1));
    } else if s.windows.len() == 1 {
        lemma_concat_contains(seq![s.id], if s.expanded {
            match entry_lookup(we, s.windows[0]) {
                Some(w) => w.panes,
                None => Seq::empty(),
            }
        } else {
            Seq::empty()
        }, x);
        if x != s.id {
            let w = entry_lookup(we, s.windows[0]).unwrap();
            let l = choose|l: int| 0 <= l < w.panes.len() && w.panes[l] == x;
            assert(pane_of(0, l));
        }
        assert(x == s.id || via_pane);
    } else {
        let rest = if s.expanded { windows_rows(we, s.windows) } else { Seq::empty() };
        lemma_concat_contains(seq![s.id], rest, x);
        if x != s.id {
            assert(s.expanded);
            lemma_windows_rows_contains(we, s.windows, x);
            let j = choose|j: int| 0 <= j < s.windows.len() && #[trigger] window_rows(we, s.windows[j]).contains(x);
            let wid = s.windows[j];
            let w = entry_lookup(we, wid).unwrap();
            if w.panes.len() <= 1 {
                if w.panes.len() == 1 {
                    assert(x == w.panes[0]);
                    assert(pane_of(j, 0));
                } else {
                    assert(x == wid);
                }
            } else {
                lemma_concat_contains(seq![wid], if w.expanded { w.panes } else { Seq::empty() }, x);
                if x != wid {
                    let l = choose|l: int| 0 <= l < w.panes.len() && w.panes[l] == x;
                    assert(pane_of(j, l));
                }
            }
        }
        assert(x == s.id || is_window || via_pane);
    }
    assert(entry_lookup(se, s.id) is Some) by {
        assert(entry_index(se, se[k].0) == k);
    }
    if via_pane {
        let (j, l) = choose|j: int, l: int| #[trigger] pane_of(j, l);
        let wid = s.windows[j];
        lemma_listed_pane(m, wid, l);
        assert(entry_lookup(we, s.windows[j]) is Some);
        assert(s.windows.contains(wid));
        assert(entry_lookup(pe, x) is Some);
    }
    if is_window {
        let j = choose|j: int| 0 <= j < s.windows.len() && s.windows[j] == x;
        assert(entry_lookup(we, s.windows[j]) is Some);
    }
    if entry_lookup(se, x) is Some {
        if x != s.id {
            if is_window {
                let j = choose|j: int| 0 <= j < s.windows.len() && s.windows[j] == x;
                assert(entry_lookup(we, s.windows[j]) is Some);
            } else {
                let (j, l) = choose|j: int, l: int| #[trigger] pane_of(j, l);
                lemma_listed_pane(m, s.windows[j], l);
            }
        }
        lemma_entry_index(se, x);
    }
    if entry_lookup(we, x) is Some {
        assert(entry_lookup(se, s.id) is Some);
        if via_pane {
            let (j, l) = choose|j: int, l: int| #[trigger] pane_of(j, l);
            lemma_listed_pane(m, s.windows[j], l);
        }
    }
    if entry_lookup(pe, x) is Some {
        assert(x != s.id);
        if is_window && !via_pane {
            let j = choose|j: int| 0 <= j < s.windows.len() && s.windows[j] == x;
            assert(entry_lookup(we, s.windows[j]) is Some);
        }
        let (j, l) = choose|j: int, l: int| #[trigger] pane_of(j, l);
        lemma_listed_pane(m, s.windows[j], l);
        assert(s.windows.contains(s.windows[j]));
        assert(entry_lookup(we, s.windows[j]).unwrap().session_id == se[k].0);
    }
}

/// Flipping a window's expansion keeps every window's panes and session, and
/// so every count of panes.
pub(crate) proof fn lemma_window_flag_keeps(we: Seq<(Seq<char>, WindowView)>, k: Seq<char>, b: bool, wins: Seq<Seq<char>>)
    ensures
        forall|q: Seq<char>| #![trigger entry_lookup(set_window_expanded(we, k, b), q)]
            (entry_lookup(set_window_expanded(we, k, b), q) is Some <==> entry_lookup(we, q) is Some)
            && (entry_lookup(we, q) is Some ==> entry_lookup(set_window_expanded(we, k, b), q).unwrap().panes
                == entry_lookup(we, q).unwrap().panes && entry_lookup(set_window_expanded(we, k, b), q).unwrap().session_id
                == entry_lookup(we, q).unwrap().session_id)
            && (q != k ==> entry_lookup(set_window_expanded(we, k, b), q) == entry_lookup(we, q)),
        total_panes(set_window_expanded(we, k, b), wins) == total_panes(we, wins),
    decreases wins.len(),
{
    let we2 = set_window_expanded(we, k, b);
    assert forall|q: Seq<char>| #![trigger entry_lookup(we2, q)]
        (entry_lookup(we2, q) is Some <==> entry_lookup(we, q) is Some) && (entry_lookup(we, q) is Some
            ==> entry_lookup(we2, q).unwrap().panes == entry_lookup(we, q).unwrap().panes && entry_lookup(we2, q).unwrap().session_id
            == entry_lookup(we, q).unwrap().session_id) && (q != k ==> entry_lookup(we2, q) == entry_lookup(we, q)) by {
        match entry_lookup(we, k) {
            Some(v) => {
                crate::store::lemma_entry_insert(we, k, WindowView { expanded: b, ..v }, q);
            },
            None => {},
        }
    }
    if wins.len() > 0 {
        lemma_window_flag_keeps(we, k, b, wins.drop_last());
        assert(entry_lookup(we2, wins.last()) is Some <==> entry_lookup(we, wins.last()) is Some);
    }
}

/// The window stored under `wid` shows its own row when it has no pane or
/// several.
proof fn lemma_window_row_shown(we: Seq<(Seq<char>, WindowView)>, wid: Seq<char>)
    requires
        entry_lookup(we, wid) is Some,
        entry_lookup(we, wid).unwrap().panes.len() != 1,
    ensures
        window_rows(we, wid).contains(wid),
{
    let w = entry_lookup(we, wid).unwrap();
    if w.panes.len() > 1 {
        assert(window_rows(we, wid)[0] == wid);
    } else {
        assert(window_rows(we, wid)[0] == wid);
    }
}

/// The window `wid` of the session stored at position `k`, shown as a
/// header row (the session expanded with several windows, the window with no
/// pane or several), still has its row after any window's expansion flips.
proof fn lemma_window_header_after_flag(m: TreeModel, k: int, wid: Seq<char>, fk: Seq<char>, b: bool)
    requires
        0 <= k < m.sessions.len(),
        m.sessions[k].1.windows.len() > 1,
        m.sessions[k].1.expanded,
        m.sessions[k].1.windows.contains(wid),
        entry_lookup(m.windows, wid) is Some,
        entry_lookup(m.windows, wid).unwrap().panes.len() != 1,
    ensures
        tree_rows(m.sessions, set_window_expanded(m.windows, fk, b)).contains(wid),
{
    let s = m.sessions[k].1;
    let we2 = set_window_expanded(m.windows, fk, b);
    lemma_window_flag_keeps(m.windows, fk, b, s.windows);
    assert(entry_lookup(we2, wid) is Some);
    lemma_window_row_shown(we2, wid);
    let j = choose|j: int| 0 <= j < s.windows.len() && s.windows[j] == wid;
    assert(window_rows(we2, s.windows[j]).contains(wid));
    lemma_windows_rows_contains(we2, s.windows, wid);
    lemma_concat_contains(seq![s.id], windows_rows(we2, s.windows), wid);
    assert(session_rows(we2, s).contains(wid));
    lemma_tree_rows_contains(m.sessions, we2, wid);
}

/// The session stored at position `k` shows its own row when it has several
/// windows, or one window with several panes; collapsing it keeps that row.
proof fn lemma_session_header(m: TreeModel, k: int, b: bool)
    requires
        tree_consistent(m),
        0 <= k < m.sessions.len(),
        !(m.sessions[k].1.windows.len() <= 1 && total_panes(m.windows, m.sessions[k].1.windows) <= 1),
    ensures
        tree_rows(m.sessions, m.windows).contains(m.sessions[k].0),
        tree_rows(set_session_expanded(m.sessions, m.sessions[k].0, b), m.windows).contains(m.sessions[k].0),
{
    let se = m.sessions;
    let s = se[k].1;
    let s2 = SessionView { expanded: b, ..s };
    assert(s.id == se[k].0);
    assert(session_rows(m.windows, s)[0] == s.id);
    assert(session_rows(m.windows, s).contains(se[k].0));
    assert(session_rows(m.windows, s2)[0] == s.id);
    assert(session_rows(m.windows, s2).contains(se[k].0));
    lemma_tree_rows_contains(se, m.windows, se[k].0);
    assert(entry_index(se, se[k].0) == k);
    let se2 = set_session_expanded(se, se[k].0, b);
    assert(se2 == se.update(k, (se[k].0, s2)));
    assert(se2[k].1 == s2);
    assert(session_rows(m.windows, se2[k].1).contains(se[k].0));
    lemma_tree_rows_contains(se2, m.windows, se[k].0);
}

/// Left never leaves the selection on an id without a row: in a consistent
/// tree, from a selected row, Left selects a row of the tree it leaves
/// (collapsing a node keeps it selected on its row; moving to a parent moves
/// to the parent's row).
pub proof fn left_lands_on_a_row(m: TreeModel)
    requires
        tree_consistent(m),
        m.selected is Some,
        model_rows(m).contains(m.selected->0),
    ensures
        nav_left_model(m).selected is Some,
        model_rows(nav_left_model(m)).contains(nav_left_model(m).selected->0),
{
    let se = m.sessions;
    let we = m.windows;
    let pe = m.panes;
    let x = m.selected->0;
    lemma_tree_rows_contains(se, we, x);
    let k = choose|k: int| 0 <= k < se.len() && #[trigger] session_rows(we, se[k].1).contains(x);
    lemma_block_member(m, k, x);
    let s = se[k].1;
    if entry_lookup(se, x) is Some {
        assert(x == se[k].0);
        assert(entry_index(se, x) == k);
        lemma_entry_index(se, x);
        assert(entry_lookup(se, x).unwrap() == s);
        if s.expanded {
            if s.windows.len() <= 1 && total_panes(we, s.windows) <= 1 {
                let se2 = set_session_expanded(se, x, false);
                let s2 = SessionView { expanded: false, ..s };
                assert(se2 == se.update(k, (x, s2)));
                assert(session_rows(we, s2) == session_rows(we, s));
                assert(session_rows(we, se2[k].1).contains(x));
                lemma_tree_rows_contains(se2, we, x);
            } else {
                lemma_session_header(m, k, false);
            }
        }
    } else if entry_lookup(we, x) is Some {
        let w = entry_lookup(we, x).unwrap();
        if w.expanded {
            lemma_window_header_after_flag(m, k, x, x, false);
        } else {
            let j = choose|j: int| 0 <= j < s.windows.len() && s.windows[j] == x;
            assert(entry_lookup(we, s.windows[j]).unwrap().session_id == se[k].0);
            lemma_session_header(m, k, true);
        }
    } else if entry_lookup(pe, x) is Some {
        let wid = entry_lookup(pe, x).unwrap().window_id;
        let w = entry_lookup(we, wid).unwrap();
        let sid = w.session_id;
        assert(sid == se[k].0);
        assert(entry_index(se, se[k].0) == k);
        lemma_entry_index(se, sid);
        assert(entry_lookup(se, sid) == Some(s));
        let nw = s.windows.len();
        if w.panes.len() > 1 && nw > 1 {
            lemma_window_header_after_flag(m, k, wid, wid, false);
        } else if nw > 1 {
            lemma_session_header(m, k, true);
        } else if w.panes.len() > 1 {
            let j = choose|j: int| 0 <= j < s.windows.len() && s.windows[j] == wid;
            assert(j == 0);
            assert(s.windows.drop_last() =~= Seq::<Seq<char>>::empty());
            assert(total_panes(we, s.windows.drop_last()) == 0);
            assert(s.windows.last() == wid);
            assert(total_panes(we, s.windows) == window_pane_count(we, wid));
            lemma_session_header(m, k, false);
        }
    }
}

/// Wherever `x` occurs in `rows`, `y` comes right after it.
pub open spec fn followed_by(rows: Seq<Seq<char>>, x: Seq<char>, y: Seq<char>) -> bool {
    forall|i: int| 0 <= i < rows.len() && #[trigger] rows[i] == x ==> i + 1 < rows.len() && rows[i + 1] == y
}

proof fn lemma_followed_by_concat(a: Seq<Seq<char>>, b: Seq<Seq<char>>, x: Seq<char>, y: Seq<char>)
    requires
        followed_by(a, x, y),
        followed_by(b, x, y),
    ensures
        followed_by(a + b, x, y),
{
    let c = a + b;
    assert forall|i: int| 0 <= i < c.len() && #[trigger] c[i] == x implies i + 1 < c.len() && c[i + 1] == y by {
        if i < a.len() {
            assert(a[i] == x);
            assert(c[i + 1] == a[i + 1]);
        } else {
            assert(b[i - a.len()] == x);
            assert(c[i + 1] == b[i + 1 - a.len()]);
        }
    }
}

proof fn lemma_followed_by_absent(a: Seq<Seq<char>>, x: Seq<char>, y: Seq<char>)
    requires
        !a.contains(x),
    ensures
        followed_by(a, x, y),
{
    assert forall|i: int| 0 <= i < a.len() && #[trigger] a[i] == x implies i + 1 < a.len() && a[i + 1] == y by {
        assert(a.contains(x));
    }
}

/// No pane a stored window lists is the window `x`.
proof fn lemma_panes_are_not(m: TreeModel, wid: Seq<char>, x: Seq<char>)
    requires
        tree_consistent(m),
        entry_lookup(m.windows, wid) is Some,
        entry_lookup(m.windows, x) is Some,
    ensures
        !entry_lookup(m.windows, wid).unwrap().panes.contains(x),
{
    let ps = entry_lookup(m.windows, wid).unwrap().panes;
    if ps.contains(x) {
        let l = choose|l: int| 0 <= l < ps.len() && ps[l] == x;
        lemma_listed_pane(m, wid, l);
    }
}

/// In the rows of the windows `wins` (all stored), the expanded window `x`
/// with several panes is always followed by its first pane.
proof fn lemma_windows_rows_follow(m: TreeModel, wins: Seq<Seq<char>>, x: Seq<char>)
    requires
        tree_consistent(m),
        forall|j: int| 0 <= j < wins.len() ==> entry_lookup(m.windows, #[trigger] wins[j]) is Some,
        entry_lookup(m.windows, x) is Some,
        entry_lookup(m.windows, x).unwrap().expanded,
        entry_lookup(m.windows, x).unwrap().panes.len() > 1,
    ensures
        followed_by(windows_rows(m.windows, wins), x, entry_lookup(m.windows, x).unwrap().panes[0]),
    decreases wins.len(),
{
    let y = entry_lookup(m.windows, x).unwrap().panes[0];
    if wins.len() == 0 {
        lemma_followed_by_absent(Seq::empty(), x, y);
    } else {
        let d = wins.drop_last();
        assert forall|j: int| 0 <= j < d.len() implies entry_lookup(m.windows, #[trigger] d[j]) is Some by {
            assert(d[j] == wins[j]);
        }
        lemma_windows_rows_follow(m, d, x);
        let wid = wins.last();
        assert(entry_lookup(m.windows, wins[wins.len() - 1]) is Some);
        let w = entry_lookup(m.windows, wid).unwrap();
        lemma_panes_are_not(m, wid, x);
        let r = window_rows(m.windows, wid);
        if wid == x {
            let ps = w.panes;
            assert(r == seq![x] + ps);
            assert forall|i: int| 0 <= i < r.len() && #[trigger] r[i] == x implies i + 1 < r.len() && r[i + 1] == y by {
                if i > 0 {
                    assert(r[i] == ps[i - 1]);
                    assert(ps.contains(x));
                }
            }
        } else {
            if r.contains(x) {
                let i = choose|i: int| 0 <= i < r.len() && r[i] == x;
                if w.panes.len() <= 1 {
                    if w.panes.len() == 1 {
                        assert(w.panes[0] == x);
                        assert(w.panes.contains(x));
                    }
                } else {
                    assert(i > 0);
                    assert(r[i] == (if w.expanded { w.panes } else { Seq::empty() })[i - 1]);
                    assert(w.panes[i - 1] == x);
                    assert(w.panes.contains(x));
                }
            }
            lemma_followed_by_absent(r, x, y);
        }
        lemma_followed_by_concat(windows_rows(m.windows, d), r, x, y);
    }
}

/// In the rows of a consistent tree, the expanded window `x` with several
/// panes is always followed by its first pane.
proof fn lemma_tree_rows_follow(m: TreeModel, n: int, x: Seq<char>)
    requires
        tree_consistent(m),
        0 <= n <= m.sessions.len(),
        entry_lookup(m.windows, x) is Some,
        entry_lookup(m.windows, x).unwrap().expanded,
        entry_lookup(m.windows, x).unwrap().panes.len() > 1,
    ensures
        followed_by(tree_rows(m.sessions.take(n), m.windows), x, entry_lookup(m.windows, x).unwrap().panes[0]),
    decreases n,
{
    let y = entry_lookup(m.windows, x).unwrap().panes[0];
    let se = m.sessions;
    let we = m.windows;
    if n == 0 {
        assert(se.take(0) =~= Seq::<(Seq<char>, SessionView)>::empty());
        lemma_followed_by_absent(Seq::empty(), x, y);
    } else {
        lemma_tree_rows_follow(m, n - 1, x);
        assert(se.take(n).drop_last() =~= se.take(n - 1));
        assert(se.take(n).last() == se[n - 1]);
        let s = se[n - 1].1;
        assert(s.id == se[n - 1].0);
        assert(entry_index(se, se[n - 1].0) == n - 1);
        lemma_entry_index(se, s.id);
        assert(entry_lookup(se, s.id) is Some);
        assert(entry_lookup(we, s.id) is None);
        assert forall|j: int| 0 <= j < s.windows.len() implies entry_lookup(we, #[trigger] s.windows[j]) is Some by {
            assert(entry_lookup(we, se[n - 1].1.windows[j]) is Some);
        }
        let r = session_rows(we, s);
        if s.windows.len() <= 1 && total_panes(we, s.windows) <= 1 {
            let leaf = single_leaf(we, s);
            if leaf != s.id {
                lemma_panes_are_not(m, s.windows[0], x);
                assert(entry_lookup(we, s.windows[0]).unwrap().panes.contains(leaf));
            }
            assert(r == seq![leaf]);
            assert(!r.contains(x)) by {
                if r.contains(x) {
                    assert(r[0] == x);
                }
            }
            lemma_followed_by_absent(r, x, y);
        } else if s.windows.len() == 1 {
            let tail = if s.expanded {
                match entry_lookup(we, s.windows[0]) {
                    Some(w) => w.panes,
                    None => Seq::empty(),
                }
            } else {
                Seq::empty()
            };
            lemma_panes_are_not(m, s.windows[0], x);
            lemma_concat_contains(seq![s.id], tail, x);
            assert(!seq![s.id].contains(x)) by {
                if seq![s.id].contains(x) {
                    assert(seq![s.id][0] == x);
                }
            }
            lemma_followed_by_absent(r, x, y);
        } else {
            let head: Seq<Seq<char>> = seq![s.id];
            assert(!head.contains(x)) by {
                if head.contains(x) {
                    assert(head[0] == x);
                }
            }
            lemma_followed_by_absent(head, x, y);
            if s.expanded {
                lemma_windows_rows_follow(m, s.windows, x);
                lemma_followed_by_concat(head, windows_rows(we, s.windows), x, y);
            } else {
                assert(head + Seq::<Seq<char>>::empty() =~= head);
            }
        }
        lemma_followed_by_concat(tree_rows(se.take(n - 1), we), r, x, y);
    }
}

/// Right on an expanded window header with several panes moves down into
/// it: in a consistent tree, the new selection is the row right below the
/// window's row (its first pane), and the tree itself does not change.
pub proof fn right_enters_a_window_at_the_row_below(m: TreeModel)
    requires
        tree_consistent(m),
        m.selected is Some,
        model_rows(m).contains(m.selected->0),
        entry_lookup(m.windows, m.selected->0) is Some,
        entry_lookup(m.windows, m.selected->0).unwrap().expanded,
        entry_lookup(m.windows, m.selected->0).unwrap().panes.len() > 1,
    ensures
        ({
            let rows = model_rows(m);
            let p = first_index(rows, m.selected->0);
            &&& 0 <= p && p + 1 < rows.len()
            &&& nav_right_model(m).selected == Some(rows[p + 1])
            &&& model_rows(nav_right_model(m)) == rows
        }),
{
    let x = m.selected->0;
    let rows = model_rows(m);
    assert(entry_lookup(m.sessions, x) is None);
    lemma_tree_rows_follow(m, m.sessions.len() as int, x);
    assert(m.sessions.take(m.sessions.len() as int) =~= m.sessions);
    lemma_first_index(rows, x);
    let p = first_index(rows, x);
    assert(rows[p] == x);
}

} // verus!
