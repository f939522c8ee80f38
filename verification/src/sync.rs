//! Rebuilding the tree from what tmux lists, keeping the user's expansion and
//! selection where they still apply.

use vstd::prelude::*;

use crate::state::{
    model_rows, opt_view, rect_new, set_session_expanded, set_window_expanded, strs, AppState,
    NavMode, Pane, PaneView, Rect, Session, SessionView, TreeModel, Window, WindowView,
    first_index, lemma_first_index, position, set_session_flag, set_window_flag,
};
use crate::store::{
    entry_index, entry_insert, entry_keys, entry_lookup, lemma_entry_index, pane_entries,
    pane_map_clear, pane_map_contains_key, pane_map_get, pane_map_get_index, pane_map_insert,
    pane_map_len, session_entries, session_map_clear, session_map_contains_key, session_map_get,
    session_map_get_index, session_map_insert, session_map_len, window_entries, window_map_clear,
    window_map_get, window_map_get_index, window_map_insert, window_map_len,
};
use crate::text::{
    chars_eq, chars_of, has_prefix, parse_i64, parse_i64_spec, parse_u16, parse_u16_spec,
    split_chars, split_on, starts_with, string_of,
};

verus! {

/// Our own grouped mirror sessions are named with this prefix, which is how
/// they are kept out of the tree.
pub open spec fn mirror_prefix() -> Seq<char> {
    seq!['t', 't', 'r', 'e', 'e', '-', 'm', 'i', 'r', 'r', 'o', 'r', '-']
}

pub fn mirror_prefix_chars() -> (v: Vec<char>)
    ensures
        v@ == mirror_prefix(),
{
    let v = vec!['t', 't', 'r', 'e', 'e', '-', 'm', 'i', 'r', 'r', 'o', 'r', '-'];
    assert(v@ =~= mirror_prefix());
    v
}

/// The separator tmux puts between the fields of a listing line (`\u{1f}`).
pub open spec fn field_sep() -> char {
    '\u{1f}'
}

pub open spec fn one() -> Seq<char> {
    seq!['1']
}

pub open spec fn expanded_session_ids(se: Seq<(Seq<char>, SessionView)>) -> Seq<Seq<char>>
    decreases se.len(),
{
    if se.len() == 0 {
        Seq::empty()
    } else {
        let r = expanded_session_ids(se.drop_last());
        if se.last().1.expanded {
            r.push(se.last().0)
        } else {
            r
        }
    }
}

pub open spec fn expanded_window_ids(we: Seq<(Seq<char>, WindowView)>) -> Seq<Seq<char>>
    decreases we.len(),
{
    if we.len() == 0 {
        Seq::empty()
    } else {
        let r = expanded_window_ids(we.drop_last());
        if we.last().1.expanded {
            r.push(we.last().0)
        } else {
            r
        }
    }
}

/// The ids whose expansion a rebuild keeps: those expanded now, or, before the
/// first sync after a restart, the ones restored from disk.
pub open spec fn remembered(m: TreeModel, saved: Seq<Seq<char>>) -> Seq<Seq<char>> {
    let cur = expanded_session_ids(m.sessions) + expanded_window_ids(m.windows);
    if cur.len() == 0 && saved.len() > 0 {
        saved
    } else {
        cur
    }
}

/// The very first load with nothing remembered expands everything.
pub open spec fn expand_everything(m: TreeModel, saved: Seq<Seq<char>>) -> bool {
    m.sessions.len() == 0 && saved.len() == 0
}

pub open spec fn parsed_session(f: Seq<Seq<char>>, expanded: bool) -> SessionView {
    SessionView {
        id: f[0],
        name: f[1],
        windows: Seq::empty(),
        expanded,
        last_attached: match parse_i64_spec(f[2]) {
            Some(v) => v,
            None => 0,
        },
        attached: f[3] == one(),
    }
}

/// One `list-sessions` line: `id, name, last attached, attached`.
pub open spec fn add_session_line(se: Seq<(Seq<char>, SessionView)>, line: Seq<char>, exp: Seq<Seq<char>>, all: bool) -> Seq<(Seq<char>, SessionView)> {
    let f = split_on(line, field_sep());
    if f.len() >= 4 && !has_prefix(f[1], mirror_prefix()) {
        entry_insert(se, f[0], parsed_session(f, all || exp.contains(f[0])))
    } else {
        se
    }
}

pub open spec fn sessions_from(lines: Seq<Seq<char>>, exp: Seq<Seq<char>>, all: bool) -> Seq<(Seq<char>, SessionView)>
    decreases lines.len(),
{
    if lines.len() == 0 {
        Seq::empty()
    } else {
        add_session_line(sessions_from(lines.drop_last(), exp, all), lines.last(), exp, all)
    }
}

pub open spec fn parsed_window(f: Seq<Seq<char>>, expanded: bool) -> WindowView {
    WindowView {
        id: f[0],
        session_id: f[1],
        name: f[2],
        panes: Seq::empty(),
        active: f[3] == one(),
        width: match parse_u16_spec(f[4]) {
            Some(v) => v,
            None => 80,
        },
        height: match parse_u16_spec(f[5]) {
            Some(v) => v,
            None => 24,
        },
        expanded,
    }
}

/// One `list-windows` line: `id, session, name, active, width, height`.
/// Windows of sessions that were dropped (our mirrors) are dropped too.
pub open spec fn add_window_line(
    t: (Seq<(Seq<char>, SessionView)>, Seq<(Seq<char>, WindowView)>),
    line: Seq<char>,
    exp: Seq<Seq<char>>,
    all: bool,
) -> (Seq<(Seq<char>, SessionView)>, Seq<(Seq<char>, WindowView)>) {
    let f = split_on(line, field_sep());
    if f.len() >= 6 && entry_lookup(t.0, f[1]) is Some {
        let s = entry_lookup(t.0, f[1]).unwrap();
        (
            entry_insert(t.0, f[1], SessionView { windows: s.windows.push(f[0]), ..s }),
            entry_insert(t.1, f[0], parsed_window(f, all || exp.contains(f[0]))),
        )
    } else {
        t
    }
}

pub open spec fn windows_from(
    t: (Seq<(Seq<char>, SessionView)>, Seq<(Seq<char>, WindowView)>),
    lines: Seq<Seq<char>>,
    exp: Seq<Seq<char>>,
    all: bool,
) -> (Seq<(Seq<char>, SessionView)>, Seq<(Seq<char>, WindowView)>)
    decreases lines.len(),
{
    if lines.len() == 0 {
        t
    } else {
        add_window_line(windows_from(t, lines.drop_last(), exp, all), lines.last(), exp, all)
    }
}

pub open spec fn u16_or(s: Seq<char>, d: u16) -> u16 {
    match parse_u16_spec(s) {
        Some(v) => v,
        None => d,
    }
}

pub open spec fn parsed_pane(f: Seq<Seq<char>>) -> PaneView {
    PaneView {
        id: f[0],
        window_id: f[1],
        title: f[2],
        current_command: f[3],
        active: f[4] == one(),
        region: Some(rect_new(u16_or(f[5], 0), u16_or(f[6], 0), u16_or(f[7], 0), u16_or(f[8], 0))),
    }
}

/// One `list-panes` line: `id, window, title, command, active, left, top,
/// width, height`. A pane seen twice (a grouped session lists shared panes once
/// per session) keeps its first sighting.
pub open spec fn add_pane_line(
    t: (Seq<(Seq<char>, WindowView)>, Seq<(Seq<char>, PaneView)>),
    line: Seq<char>,
) -> (Seq<(Seq<char>, WindowView)>, Seq<(Seq<char>, PaneView)>) {
    let f = split_on(line, field_sep());
    if f.len() >= 9 && entry_lookup(t.1, f[0]) is None {
        let pe = entry_insert(t.1, f[0], parsed_pane(f));
        match entry_lookup(t.0, f[1]) {
            Some(w) => (entry_insert(t.0, f[1], WindowView { panes: w.panes.push(f[0]), ..w }), pe),
            None => (t.0, pe),
        }
    } else {
        t
    }
}

pub open spec fn panes_from(
    t: (Seq<(Seq<char>, WindowView)>, Seq<(Seq<char>, PaneView)>),
    lines: Seq<Seq<char>>,
) -> (Seq<(Seq<char>, WindowView)>, Seq<(Seq<char>, PaneView)>)
    decreases lines.len(),
{
    if lines.len() == 0 {
        t
    } else {
        add_pane_line(panes_from(t, lines.drop_last()), lines.last())
    }
}

/// The tree rebuilt from the three listings; the selection is not yet settled.
pub open spec fn rebuilt_tree(
    m: TreeModel,
    saved: Seq<Seq<char>>,
    sl: Seq<Seq<char>>,
    wl: Seq<Seq<char>>,
    pl: Seq<Seq<char>>,
) -> TreeModel {
    let exp = remembered(m, saved);
    let all = expand_everything(m, saved);
    let se1 = sessions_from(sl, exp, all);
    let (se2, we1) = windows_from((se1, Seq::empty()), wl, exp, all);
    let (we2, pe) = panes_from((we1, Seq::empty()), pl);
    TreeModel { sessions: se2, windows: we2, panes: pe, selected: m.selected }
}

pub(crate) proof fn lemma_fields(f: Vec<Vec<char>>)
    ensures
        f.deep_view().len() == f@.len(),
        forall|k: int| 0 <= k < f@.len() ==> #[trigger] f.deep_view()[k] == f@[k]@,
{
    assert forall|k: int| 0 <= k < f@.len() implies #[trigger] f.deep_view()[k] == f@[k]@ by {
        assert(f.deep_view()[k] =~= f@[k]@);
    }
}

proof fn lemma_strs_push(v: Seq<String>, x: String)
    ensures
        strs(v.push(x)) == strs(v).push(x@),
{
    assert(strs(v.push(x)) =~= strs(v).push(x@));
}

/// Whether one of `v` spells `x`.
pub fn contains_chars(v: &Vec<String>, x: &[char]) -> (b: bool)
    ensures
        b == strs(v@).contains(x@),
{
    let mut i: usize = 0;
    while i < v.len()
        invariant
            i <= v.len(),
            forall|j: int| 0 <= j < i ==> strs(v@)[j] != x@,
        decreases v.len() - i,
    {
        let c = chars_of(v[i].as_str());
        if chars_eq(c.as_slice(), x) {
            assert(strs(v@)[i as int] == x@);
            return true;
        }
        i = i + 1;
    }
    false
}

impl Session {
    /// This session with `wid` appended to its windows.
    pub fn with_window(&self, wid: String) -> (r: Session)
        ensures
            r@ == (SessionView { windows: self@.windows.push(wid@), ..self@ }),
    {
        let mut windows = crate::state::copy_strings(&self.windows);
        proof { lemma_strs_push(windows@, wid); }
        windows.push(wid);
        Session {
            id: self.id.clone(),
            name: self.name.clone(),
            windows,
            expanded: self.expanded,
            last_attached: self.last_attached,
            attached: self.attached,
        }
    }
}

impl Window {
    /// This window with `pid` appended to its panes.
    pub fn with_pane(&self, pid: String) -> (r: Window)
        ensures
            r@ == (WindowView { panes: self@.panes.push(pid@), ..self@ }),
    {
        let mut panes = crate::state::copy_strings(&self.panes);
        proof { lemma_strs_push(panes@, pid); }
        panes.push(pid);
        Window {
            id: self.id.clone(),
            session_id: self.session_id.clone(),
            name: self.name.clone(),
            panes,
            active: self.active,
            width: self.width,
            height: self.height,
            expanded: self.expanded,
        }
    }
}

/// The ids of the expanded sessions, then of the expanded windows.
pub fn expanded_ids_now(st: &AppState) -> (r: Vec<String>)
    ensures
        strs(r@) == expanded_session_ids(session_entries(st.sessions)) + expanded_window_ids(window_entries(st.windows)),
{
    let ghost se = session_entries(st.sessions);
    let ghost we = window_entries(st.windows);
    let mut r: Vec<String> = Vec::new();
    let n = session_map_len(&st.sessions);
    let mut i: usize = 0;
    while i < n
        invariant
            i <= n == se.len(),
            se == session_entries(st.sessions),
            strs(r@) == expanded_session_ids(se.take(i as int)),
        decreases n - i,
    {
        let (k, s) = session_map_get_index(&st.sessions, i).unwrap();
        assert(se.take(i + 1).drop_last() =~= se.take(i as int));
        if s.expanded {
            proof { lemma_strs_push(r@, *k); }
            r.push(k.clone());
        }
        i = i + 1;
    }
    assert(se.take(n as int) =~= se);
    let w = expanded_window_ids_of(&st.windows);
    crate::state::push_all(&mut r, &w);
    r
}

/// The ids of the expanded windows, in order.
pub(crate) fn expanded_window_ids_of(windows: &indexmap::IndexMap<String, Window>) -> (r: Vec<String>)
    ensures
        strs(r@) == expanded_window_ids(window_entries(*windows)),
{
    let ghost we = window_entries(*windows);
    let mut r: Vec<String> = Vec::new();
    let m = window_map_len(windows);
    let mut j: usize = 0;
    assert(strs(r@) =~= expanded_window_ids(we.take(0)));
    while j < m
        invariant
            j <= m == we.len(),
            we == window_entries(*windows),
            strs(r@) == expanded_window_ids(we.take(j as int)),
        decreases m - j,
    {
        let (k, w) = window_map_get_index(windows, j).unwrap();
        assert(we.take(j + 1).drop_last() =~= we.take(j as int));
        if w.expanded {
            proof { lemma_strs_push(r@, *k); }
            r.push(k.clone());
        }
        j = j + 1;
    }
    assert(we.take(m as int) =~= we);
    r
}

/// A window from the fields of its listing line.
pub(crate) fn window_from_fields(f: &Vec<Vec<char>>, expanded: bool) -> (w: Window)
    requires
        f.len() >= 6,
    ensures
        w@ == parsed_window(f.deep_view(), expanded),
{
    proof { lemma_fields(*f); }
    let one: [char; 1] = ['1'];
    let active = chars_eq(f[3].as_slice(), &one);
    assert(one@ =~= seq!['1']);
    let window = Window {
        id: string_of(f[0].as_slice()),
        session_id: string_of(f[1].as_slice()),
        name: string_of(f[2].as_slice()),
        panes: Vec::new(),
        active,
        width: match parse_u16(f[4].as_slice()) {
            Some(v) => v,
            None => 80,
        },
        height: match parse_u16(f[5].as_slice()) {
            Some(v) => v,
            None => 24,
        },
        expanded,
    };
    assert(strs(window.panes@) =~= Seq::<Seq<char>>::empty());
    window
}

fn u16_field(f: &[char], d: u16) -> (v: u16)
    ensures
        v == u16_or(f@, d),
{
    match parse_u16(f) {
        Some(v) => v,
        None => d,
    }
}

/// A pane from the fields of its listing line.
pub(crate) fn pane_from_fields(f: &Vec<Vec<char>>) -> (p: Pane)
    requires
        f.len() >= 9,
    ensures
        p@ == parsed_pane(f.deep_view()),
{
    proof { lemma_fields(*f); }
    let one: [char; 1] = ['1'];
    let active = chars_eq(f[4].as_slice(), &one);
    assert(one@ =~= seq!['1']);
    let left = u16_field(f[5].as_slice(), 0);
    let top = u16_field(f[6].as_slice(), 0);
    let width = u16_field(f[7].as_slice(), 0);
    let height = u16_field(f[8].as_slice(), 0);
    Pane {
        id: string_of(f[0].as_slice()),
        window_id: string_of(f[1].as_slice()),
        title: string_of(f[2].as_slice()),
        current_command: string_of(f[3].as_slice()),
        active,
        region: Some(Rect::new(left, top, width, height)),
    }
}

/// The listing lines of sessions, added to an empty session map.
fn add_sessions(
    sessions: &mut indexmap::IndexMap<String, Session>,
    lines: &[String],
    exp: &Vec<String>,
    all: bool,
)
    requires
        session_entries(*old(sessions)) == Seq::<(Seq<char>, SessionView)>::empty(),
    ensures
        session_entries(*final(sessions)) == sessions_from(strs(lines@), strs(exp@), all),
{
    let prefix = mirror_prefix_chars();
    let mut i: usize = 0;
    while i < lines.len()
        invariant
            i <= lines.len(),
            prefix@ == mirror_prefix(),
            session_entries(*sessions) == sessions_from(strs(lines@).take(i as int), strs(exp@), all),
        decreases lines.len() - i,
    {
        assert(strs(lines@).take(i + 1).drop_last() =~= strs(lines@).take(i as int));
        assert(strs(lines@).take(i + 1).last() == lines@[i as int]@);
        let line = chars_of(lines[i].as_str());
        let f = split_chars(line.as_slice(), '\u{1f}');
        proof { lemma_fields(f); }
        if f.len() >= 4 && !starts_with(f[1].as_slice(), prefix.as_slice()) {
            let id = string_of(f[0].as_slice());
            let expanded = all || contains_chars(exp, f[0].as_slice());
            let last_attached = match parse_i64(f[2].as_slice()) {
                Some(v) => v,
                None => 0,
            };
            let one: [char; 1] = ['1'];
            let attached = chars_eq(f[3].as_slice(), &one);
            assert(one@ =~= seq!['1']);
            let session = Session {
                id: id.clone(),
                name: string_of(f[1].as_slice()),
                windows: Vec::new(),
                expanded,
                last_attached,
                attached,
            };
            assert(strs(session.windows@) =~= Seq::<Seq<char>>::empty());
            session_map_insert(sessions, id, session);
        }
        i = i + 1;
    }
    assert(strs(lines@).take(lines.len() as int) =~= strs(lines@));
}

/// The listing lines of windows, added to the window map and to the window
/// lists of their sessions.
fn add_windows(
    sessions: &mut indexmap::IndexMap<String, Session>,
    windows: &mut indexmap::IndexMap<String, Window>,
    lines: &[String],
    exp: &Vec<String>,
    all: bool,
)
    ensures
        (session_entries(*final(sessions)), window_entries(*final(windows))) == windows_from(
            (session_entries(*old(sessions)), window_entries(*old(windows))),
            strs(lines@),
            strs(exp@),
            all,
        ),
{
    let ghost t0 = (session_entries(*sessions), window_entries(*windows));
    let mut i: usize = 0;
    while i < lines.len()
        invariant
            i <= lines.len(),
            (session_entries(*sessions), window_entries(*windows)) == windows_from(t0, strs(lines@).take(i as int), strs(exp@), all),
        decreases lines.len() - i,
    {
        assert(strs(lines@).take(i + 1).drop_last() =~= strs(lines@).take(i as int));
        assert(strs(lines@).take(i + 1).last() == lines@[i as int]@);
        let line = chars_of(lines[i].as_str());
        let f = split_chars(line.as_slice(), '\u{1f}');
        proof { lemma_fields(f); }
        if f.len() >= 6 {
            let sid = string_of(f[1].as_slice());
            let updated = match session_map_get(sessions, sid.as_str()) {
                Some(s) => Some(s.with_window(string_of(f[0].as_slice()))),
                None => None,
            };
            match updated {
                Some(ns) => {
                    let id = string_of(f[0].as_slice());
                    let expanded = all || contains_chars(exp, f[0].as_slice());
                    let window = window_from_fields(&f, expanded);
                    window_map_insert(windows, id, window);
                    session_map_insert(sessions, sid, ns);
                },
                None => {},
            }
        }
        i = i + 1;
    }
    assert(strs(lines@).take(lines.len() as int) =~= strs(lines@));
}

/// The listing lines of panes, added to the pane map and to the pane lists of
/// their windows.
fn add_panes(
    windows: &mut indexmap::IndexMap<String, Window>,
    panes: &mut indexmap::IndexMap<String, Pane>,
    lines: &[String],
)
    ensures
        (window_entries(*final(windows)), pane_entries(*final(panes))) == panes_from(
            (window_entries(*old(windows)), pane_entries(*old(panes))),
            strs(lines@),
        ),
{
    let ghost t0 = (window_entries(*windows), pane_entries(*panes));
    let mut i: usize = 0;
    while i < lines.len()
        invariant
            i <= lines.len(),
            (window_entries(*windows), pane_entries(*panes)) == panes_from(t0, strs(lines@).take(i as int)),
        decreases lines.len() - i,
    {
        assert(strs(lines@).take(i + 1).drop_last() =~= strs(lines@).take(i as int));
        assert(strs(lines@).take(i + 1).last() == lines@[i as int]@);
        let line = chars_of(lines[i].as_str());
        let f = split_chars(line.as_slice(), '\u{1f}');
        proof { lemma_fields(f); }
        if f.len() >= 9 {
            let id = string_of(f[0].as_slice());
            if !pane_map_contains_key(panes, id.as_str()) {
                let wid = string_of(f[1].as_slice());
                let pane = pane_from_fields(&f);
                pane_map_insert(panes, id.clone(), pane);
                let updated = match window_map_get(windows, wid.as_str()) {
                    Some(w) => Some(w.with_pane(id)),
                    None => None,
                };
                match updated {
                    Some(nw) => window_map_insert(windows, wid, nw),
                    None => {},
                }
            }
        }
        i = i + 1;
    }
    assert(strs(lines@).take(lines.len() as int) =~= strs(lines@));
}

/// The first of `ids` that names an active pane.
pub open spec fn first_active_pane(pe: Seq<(Seq<char>, PaneView)>, ids: Seq<Seq<char>>) -> Option<PaneView>
    decreases ids.len(),
{
    if ids.len() == 0 {
        None
    } else {
        match entry_lookup(pe, ids[0]) {
            Some(p) if p.active => Some(p),
            _ => first_active_pane(pe, ids.drop_first()),
        }
    }
}

/// The first active pane of the first active window of `wids` that has one.
pub open spec fn first_active_in_windows(
    we: Seq<(Seq<char>, WindowView)>,
    pe: Seq<(Seq<char>, PaneView)>,
    wids: Seq<Seq<char>>,
) -> Option<PaneView>
    decreases wids.len(),
{
    if wids.len() == 0 {
        None
    } else {
        match entry_lookup(we, wids[0]) {
            Some(w) if w.active && first_active_pane(pe, w.panes) is Some => first_active_pane(pe, w.panes),
            _ => first_active_in_windows(we, pe, wids.drop_first()),
        }
    }
}

/// The pane to focus for the last attach target: the pane itself, or the
/// active pane of a window, or of the active window of a session.
pub open spec fn target_pane(t: TreeModel, target: Seq<char>) -> Option<PaneView> {
    if entry_lookup(t.panes, target) is Some {
        entry_lookup(t.panes, target)
    } else if entry_lookup(t.windows, target) is Some {
        first_active_pane(t.panes, entry_lookup(t.windows, target).unwrap().panes)
    } else if entry_lookup(t.sessions, target) is Some {
        first_active_in_windows(t.windows, t.panes, entry_lookup(t.sessions, target).unwrap().windows)
    } else {
        None
    }
}

pub open spec fn pane_session(t: TreeModel, p: PaneView) -> Option<SessionView> {
    match entry_lookup(t.windows, p.window_id) {
        Some(w) => entry_lookup(t.sessions, w.session_id),
        None => None,
    }
}

pub open spec fn pane_time(t: TreeModel, p: PaneView) -> i64 {
    match pane_session(t, p) {
        Some(s) => s.last_attached,
        None => 0,
    }
}

pub open spec fn pane_attached(t: TreeModel, p: PaneView) -> bool {
    match pane_session(t, p) {
        Some(s) => s.attached,
        None => false,
    }
}

/// An active pane in an active window.
pub open spec fn is_candidate(t: TreeModel, p: PaneView) -> bool {
    p.active && match entry_lookup(t.windows, p.window_id) {
        Some(w) => w.active,
        None => false,
    }
}

/// `a` sorts before `b`: its session was attached more recently, or as
/// recently and is attached while `b`'s is not.
pub open spec fn ranks_above(t: TreeModel, a: PaneView, b: PaneView) -> bool {
    pane_time(t, a) > pane_time(t, b) || (pane_time(t, a) == pane_time(t, b) && pane_attached(t, a) && !pane_attached(t, b))
}

/// The first candidate among `ps` that no other candidate ranks above: the
/// head of a stable sort of the candidates, newest session first.
pub open spec fn best_pane(t: TreeModel, ps: Seq<(Seq<char>, PaneView)>) -> Option<PaneView>
    decreases ps.len(),
{
    if ps.len() == 0 {
        None
    } else {
        let b = best_pane(t, ps.drop_last());
        let p = ps.last().1;
        if is_candidate(t, p) && (b is None || ranks_above(t, p, b.unwrap())) {
            Some(p)
        } else {
            b
        }
    }
}

/// The pane to focus when nothing is selected: the pane we run in, else the
/// last attach target's, else the most recently used active pane.
pub open spec fn active_choice(t: TreeModel, tmux_pane: Option<Seq<char>>, last_target: Option<Seq<char>>) -> Option<PaneView> {
    let a1 = match tmux_pane {
        Some(x) => entry_lookup(t.panes, x),
        None => None,
    };
    if a1 is Some {
        a1
    } else {
        let a2 = match last_target {
            Some(x) => target_pane(t, x),
            None => None,
        };
        if a2 is Some {
            a2
        } else {
            best_pane(t, t.panes)
        }
    }
}

/// The selection after a rebuild: kept while its row is still shown;
/// otherwise the chosen active pane, with its window and session expanded
/// (and pane navigation), or failing that the first row. The flag says whether
/// the navigation mode switched to panes.
pub open spec fn settled(t: TreeModel, tmux_pane: Option<Seq<char>>, last_target: Option<Seq<char>>) -> (TreeModel, bool) {
    let rows = model_rows(t);
    let sel = match t.selected {
        Some(x) => if first_index(rows, x) >= 0 { Some(x) } else { None },
        None => None,
    };
    if sel is None && rows.len() > 0 {
        match active_choice(t, tmux_pane, last_target) {
            Some(p) => {
                let se = match entry_lookup(t.windows, p.window_id) {
                    Some(w) => set_session_expanded(t.sessions, w.session_id, true),
                    None => t.sessions,
                };
                (
                    TreeModel {
                        sessions: se,
                        windows: set_window_expanded(t.windows, p.window_id, true),
                        panes: t.panes,
                        selected: Some(p.id),
                    },
                    true,
                )
            },
            None => (TreeModel { selected: Some(rows[0]), ..t }, false),
        }
    } else {
        (TreeModel { selected: sel, ..t }, false)
    }
}

pub open spec fn opt_str_view(o: Option<&str>) -> Option<Seq<char>> {
    match o {
        Some(s) => Some(s@),
        None => None,
    }
}

fn first_active_pane_of<'a>(panes: &'a indexmap::IndexMap<String, Pane>, ids: &Vec<String>) -> (r: Option<&'a Pane>)
    ensures
        r matches Some(p) ==> first_active_pane(pane_entries(*panes), strs(ids@)) == Some(p@),
        r is None ==> first_active_pane(pane_entries(*panes), strs(ids@)) is None,
{
    let ghost pe = pane_entries(*panes);
    let mut i: usize = 0;
    assert(strs(ids@).skip(0) =~= strs(ids@));
    while i < ids.len()
        invariant
            i <= ids.len(),
            pe == pane_entries(*panes),
            first_active_pane(pe, strs(ids@)) == first_active_pane(pe, strs(ids@).skip(i as int)),
        decreases ids.len() - i,
    {
        let ghost rest = strs(ids@).skip(i as int);
        assert(rest[0] == ids@[i as int]@);
        assert(rest.drop_first() =~= strs(ids@).skip(i + 1));
        match pane_map_get(panes, ids[i].as_str()) {
            Some(p) => {
                if p.active {
                    return Some(p);
                }
            },
            None => {},
        }
        i = i + 1;
    }
    assert(strs(ids@).skip(ids.len() as int) =~= Seq::<Seq<char>>::empty());
    None
}

fn first_active_in_windows_of<'a>(
    windows: &indexmap::IndexMap<String, Window>,
    panes: &'a indexmap::IndexMap<String, Pane>,
    wids: &Vec<String>,
) -> (r: Option<&'a Pane>)
    ensures
        r matches Some(p) ==> first_active_in_windows(window_entries(*windows), pane_entries(*panes), strs(wids@)) == Some(p@),
        r is None ==> first_active_in_windows(window_entries(*windows), pane_entries(*panes), strs(wids@)) is None,
{
    let ghost we = window_entries(*windows);
    let ghost pe = pane_entries(*panes);
    let mut i: usize = 0;
    assert(strs(wids@).skip(0) =~= strs(wids@));
    while i < wids.len()
        invariant
            i <= wids.len(),
            pe == pane_entries(*panes),
            we == window_entries(*windows),
            first_active_in_windows(we, pe, strs(wids@)) == first_active_in_windows(we, pe, strs(wids@).skip(i as int)),
        decreases wids.len() - i,
    {
        let ghost rest = strs(wids@).skip(i as int);
        assert(rest[0] == wids@[i as int]@);
        assert(rest.drop_first() =~= strs(wids@).skip(i + 1));
        match window_map_get(windows, wids[i].as_str()) {
            Some(w) => {
                if w.active {
                    match first_active_pane_of(panes, &w.panes) {
                        Some(p) => {
                            return Some(p);
                        },
                        None => {},
                    }
                }
            },
            None => {},
        }
        i = i + 1;
    }
    assert(strs(wids@).skip(wids.len() as int) =~= Seq::<Seq<char>>::empty());
    None
}

/// (last attached, attached) of a pane's session, as the ranking reads them.
fn pane_rank(st: &AppState, p: &Pane) -> (r: (i64, bool))
    ensures
        r.0 == pane_time(st.model(), p@),
        r.1 == pane_attached(st.model(), p@),
{
    match window_map_get(&st.windows, p.window_id.as_str()) {
        Some(w) => match session_map_get(&st.sessions, w.session_id.as_str()) {
            Some(s) => (s.last_attached, s.attached),
            None => (0, false),
        },
        None => (0, false),
    }
}

fn is_candidate_pane(st: &AppState, p: &Pane) -> (b: bool)
    ensures
        b == is_candidate(st.model(), p@),
{
    p.active && match window_map_get(&st.windows, p.window_id.as_str()) {
        Some(w) => w.active,
        None => false,
    }
}

fn best_pane_of(st: &AppState) -> (r: Option<&Pane>)
    ensures
        r matches Some(p) ==> best_pane(st.model(), pane_entries(st.panes)) == Some(p@),
        r is None ==> best_pane(st.model(), pane_entries(st.panes)) is None,
{
    let ghost pe = pane_entries(st.panes);
    let ghost t = st.model();
    let n = pane_map_len(&st.panes);
    let mut best: Option<&Pane> = None;
    let mut best_rank: (i64, bool) = (0, false);
    let mut i: usize = 0;
    while i < n
        invariant
            i <= n == pe.len(),
            pe == pane_entries(st.panes),
            t == st.model(),
            best matches Some(b) ==> best_pane(t, pe.take(i as int)) == Some(b@)
                && best_rank.0 == pane_time(t, b@) && best_rank.1 == pane_attached(t, b@),
            best is None ==> best_pane(t, pe.take(i as int)) is None,
        decreases n - i,
    {
        let (_k, p) = pane_map_get_index(&st.panes, i).unwrap();
        assert(pe.take(i + 1).drop_last() =~= pe.take(i as int));
        assert(pe.take(i + 1).last() == pe[i as int]);
        if is_candidate_pane(st, p) {
            let r = pane_rank(st, p);
            let above = match best {
                None => true,
                Some(_) => r.0 > best_rank.0 || (r.0 == best_rank.0 && r.1 && !best_rank.1),
            };
            if above {
                best = Some(p);
                best_rank = r;
            }
        }
        i = i + 1;
    }
    assert(pe.take(n as int) =~= pe);
    best
}

/// The id and window of the pane `active_choice` picks.
fn choose_active(st: &AppState, tmux_pane: Option<&str>) -> (r: Option<(String, String)>)
    ensures
        r matches Some(c) ==> active_choice(st.model(), opt_str_view(tmux_pane), opt_view(st.last_target_id)) is Some
            && c.0@ == active_choice(st.model(), opt_str_view(tmux_pane), opt_view(st.last_target_id)).unwrap().id
            && c.1@ == active_choice(st.model(), opt_str_view(tmux_pane), opt_view(st.last_target_id)).unwrap().window_id,
        r is None ==> active_choice(st.model(), opt_str_view(tmux_pane), opt_view(st.last_target_id)) is None,
{
    let a1: Option<&Pane> = match tmux_pane {
        Some(x) => pane_map_get(&st.panes, x),
        None => None,
    };
    let chosen: Option<&Pane> = match a1 {
        Some(p) => Some(p),
        None => {
            let a2: Option<&Pane> = match &st.last_target_id {
                Some(target) => {
                    match pane_map_get(&st.panes, target.as_str()) {
                        Some(p) => Some(p),
                        None => match window_map_get(&st.windows, target.as_str()) {
                            Some(w) => first_active_pane_of(&st.panes, &w.panes),
                            None => match session_map_get(&st.sessions, target.as_str()) {
                                Some(s) => first_active_in_windows_of(&st.windows, &st.panes, &s.windows),
                                None => None,
                            },
                        },
                    }
                },
                None => None,
            };
            match a2 {
                Some(p) => Some(p),
                None => best_pane_of(st),
            }
        },
    };
    match chosen {
        Some(p) => Some((p.id.clone(), p.window_id.clone())),
        None => None,
    }
}

pub open spec fn pane_keys_changed(a: Seq<(Seq<char>, PaneView)>, b: Seq<(Seq<char>, PaneView)>) -> bool {
    entry_keys(a).to_set() != entry_keys(b).to_set()
}

pub proof fn lemma_lookup_iff_key<V>(e: Seq<(Seq<char>, V)>, k: Seq<char>)
    ensures
        entry_lookup(e, k) is Some <==> entry_keys(e).contains(k),
{
    lemma_entry_index(e, k);
    let i = entry_index(e, k);
    if i >= 0 {
        assert(entry_keys(e)[i] == k);
    }
    if entry_keys(e).contains(k) {
        let j = choose|j: int| 0 <= j < entry_keys(e).len() && entry_keys(e)[j] == k;
        assert(e[j].0 == k);
    }
}

pub(crate) fn pane_keys(panes: &indexmap::IndexMap<String, Pane>) -> (r: Vec<String>)
    ensures
        strs(r@) == entry_keys(pane_entries(*panes)),
{
    let ghost pe = pane_entries(*panes);
    let n = pane_map_len(panes);
    let mut r: Vec<String> = Vec::new();
    let mut i: usize = 0;
    while i < n
        invariant
            i <= n == pe.len(),
            pe == pane_entries(*panes),
            strs(r@) == entry_keys(pe.take(i as int)),
        decreases n - i,
    {
        let (k, _p) = pane_map_get_index(panes, i).unwrap();
        proof { lemma_strs_push(r@, *k); }
        r.push(k.clone());
        assert(entry_keys(pe.take(i + 1)) =~= entry_keys(pe.take(i as int)).push(pe[i as int].0));
        i = i + 1;
    }
    assert(pe.take(n as int) =~= pe);
    r
}

/// Whether the ids in `old_keys` and the keys of `panes` differ as sets.
pub(crate) fn keys_differ(old_keys: &Vec<String>, panes: &indexmap::IndexMap<String, Pane>) -> (b: bool)
    ensures
        b == (strs(old_keys@).to_set() != entry_keys(pane_entries(*panes)).to_set()),
{
    let ghost a = strs(old_keys@);
    let ghost pe = pane_entries(*panes);
    let ghost ks = entry_keys(pe);
    let mut i: usize = 0;
    while i < old_keys.len()
        invariant
            i <= old_keys.len(),
            a == strs(old_keys@),
            pe == pane_entries(*panes),
            ks == entry_keys(pe),
            forall|j: int| 0 <= j < i ==> ks.contains(#[trigger] a[j]),
        decreases old_keys.len() - i,
    {
        proof { lemma_lookup_iff_key(pe, a[i as int]); }
        if !pane_map_contains_key(panes, old_keys[i].as_str()) {
            assert(a.to_set().contains(a[i as int]));
            assert(!ks.to_set().contains(a[i as int]));
            return true;
        }
        i = i + 1;
    }
    let n = pane_map_len(panes);
    let mut j: usize = 0;
    while j < n
        invariant
            j <= n == pe.len(),
            a == strs(old_keys@),
            pe == pane_entries(*panes),
            ks == entry_keys(pe),
            forall|x: int| 0 <= x < a.len() ==> ks.contains(#[trigger] a[x]),
            forall|x: int| 0 <= x < j ==> a.contains(#[trigger] ks[x]),
        decreases n - j,
    {
        let (k, _p) = pane_map_get_index(panes, j).unwrap();
        let kc = chars_of(k.as_str());
        if !contains_chars(old_keys, kc.as_slice()) {
            assert(ks[j as int] == k@);
            assert(ks.to_set().contains(k@));
            assert(!a.to_set().contains(k@));
            return true;
        }
        j = j + 1;
    }
    assert(a.to_set() =~= ks.to_set()) by {
        assert forall|x: Seq<char>| a.to_set().contains(x) implies ks.to_set().contains(x) by {
            let y = choose|y: int| 0 <= y < a.len() && a[y] == x;
            assert(ks.contains(a[y]));
        }
        assert forall|x: Seq<char>| ks.to_set().contains(x) implies a.to_set().contains(x) by {
            let y = choose|y: int| 0 <= y < ks.len() && ks[y] == x;
            assert(a.contains(ks[y]));
        }
    }
    false
}

/// Rebuilds the tree from tmux's session, window and pane listings (one line
/// per object, fields separated by `\u{1f}`) and settles the selection.
/// `tmux_pane` is the pane this program runs in, if any. Returns whether the
/// set of pane ids changed.
pub fn sync_state(
    state: &mut AppState,
    sessions_raw: &[String],
    windows_raw: &[String],
    panes_raw: &[String],
    tmux_pane: Option<&str>,
) -> (changed: bool)
    ensures
        ({
            let t = rebuilt_tree(
                old(state).model(),
                strs(old(state).expanded_ids@),
                strs(sessions_raw@),
                strs(windows_raw@),
                strs(panes_raw@),
            );
            let s = settled(t, opt_str_view(tmux_pane), opt_view(old(state).last_target_id));
            &&& final(state).model() == s.0
            &&& final(state).focus.nav_mode == if s.1 { NavMode::Pane } else { old(state).focus.nav_mode }
        }),
        final(state).same_prefs(&*old(state)),
        final(state).focus.scroll_offset == old(state).focus.scroll_offset,
        changed == pane_keys_changed(pane_entries(old(state).panes), pane_entries(final(state).panes)),
        sessions_known(session_entries(final(state).sessions), window_entries(final(state).windows)),
        no_mirrors(session_entries(final(state).sessions)),
        panes_listed_once(window_entries(final(state).windows), pane_entries(final(state).panes)),
{
    let ghost m0 = state.model();
    proof {
        synced_tree_is_consistent(
            m0,
            strs(state.expanded_ids@),
            strs(sessions_raw@),
            strs(windows_raw@),
            strs(panes_raw@),
            opt_str_view(tmux_pane),
            opt_view(state.last_target_id),
        );
    }
    let ghost saved = strs(state.expanded_ids@);
    let old_keys = pane_keys(&state.panes);
    let now = expanded_ids_now(state);
    let is_initial_load = session_map_len(&state.sessions) == 0;
    let saved_empty = state.expanded_ids.len() == 0;
    let exp = if now.len() == 0 && !saved_empty {
        crate::state::copy_strings(&state.expanded_ids)
    } else {
        now
    };
    let all = is_initial_load && saved_empty;
    assert(strs(exp@) == remembered(m0, saved));
    assert(all == expand_everything(m0, saved));
    session_map_clear(&mut state.sessions);
    crate::store::window_map_clear(&mut state.windows);
    pane_map_clear(&mut state.panes);
    add_sessions(&mut state.sessions, sessions_raw, &exp, all);
    add_windows(&mut state.sessions, &mut state.windows, windows_raw, &exp, all);
    add_panes(&mut state.windows, &mut state.panes, panes_raw);
    let changed = keys_differ(&old_keys, &state.panes);
    let ghost t = state.model();
    assert(t == rebuilt_tree(m0, saved, strs(sessions_raw@), strs(windows_raw@), strs(panes_raw@)));
    let rows = state.get_dynamic_visible_items();
    let keep = match &state.focus.selected_id {
        Some(sel) => position(&rows, sel).is_some(),
        None => true,
    };
    if !keep {
        state.focus.selected_id = None;
    }
    if state.focus.selected_id.is_none() && rows.len() > 0 {
        proof {
            lemma_best_pane_same_tree(state.model(), t, t.panes);
        }
        assert(active_choice(state.model(), opt_str_view(tmux_pane), opt_view(state.last_target_id))
            == active_choice(t, opt_str_view(tmux_pane), opt_view(state.last_target_id)));
        match choose_active(state, tmux_pane) {
            Some(c) => {
                let (pid, wid) = c;
                let sid = match window_map_get(&state.windows, wid.as_str()) {
                    Some(w) => Some(w.session_id.clone()),
                    None => None,
                };
                set_window_flag(&mut state.windows, wid.as_str(), true);
                match sid {
                    Some(sid) => set_session_flag(&mut state.sessions, sid.as_str(), true),
                    None => {},
                }
                state.focus.selected_id = Some(pid);
                state.focus.nav_mode = NavMode::Pane;
            },
            None => {
                assert(strs(rows@)[0] == rows@[0]@);
                state.focus.selected_id = Some(rows[0].clone());
            },
        }
    }
    changed
}

/// The ranking reads only the sessions and windows of the model.
proof fn lemma_best_pane_same_tree(t1: TreeModel, t2: TreeModel, ps: Seq<(Seq<char>, PaneView)>)
    requires
        t1.sessions == t2.sessions,
        t1.windows == t2.windows,
    ensures
        best_pane(t1, ps) == best_pane(t2, ps),
    decreases ps.len(),
{
    if ps.len() > 0 {
        lemma_best_pane_same_tree(t1, t2, ps.drop_last());
    }
}

pub open spec fn sessions_follow(se: Seq<(Seq<char>, SessionView)>, exp: Seq<Seq<char>>, all: bool) -> bool {
    forall|i: int| 0 <= i < se.len() ==> (#[trigger] se[i]).1.expanded == (all || exp.contains(se[i].0))
}

pub open spec fn windows_follow(we: Seq<(Seq<char>, WindowView)>, exp: Seq<Seq<char>>, all: bool) -> bool {
    forall|i: int| 0 <= i < we.len() ==> (#[trigger] we[i]).1.expanded == (all || exp.contains(we[i].0))
}

proof fn lemma_insert_follows<V>(e: Seq<(Seq<char>, V)>, k: Seq<char>, v: V, f: spec_fn(V) -> bool, p: spec_fn(Seq<char>) -> bool)
    requires
        forall|i: int| 0 <= i < e.len() ==> f((#[trigger] e[i]).1) == p(e[i].0),
        f(v) == p(k),
    ensures
        forall|i: int| 0 <= i < entry_insert(e, k, v).len() ==> f((#[trigger] entry_insert(e, k, v)[i]).1) == p(entry_insert(e, k, v)[i].0),
{
    lemma_entry_index(e, k);
}

proof fn lemma_sessions_from_follow(lines: Seq<Seq<char>>, exp: Seq<Seq<char>>, all: bool)
    ensures
        sessions_follow(sessions_from(lines, exp, all), exp, all),
    decreases lines.len(),
{
    if lines.len() > 0 {
        lemma_sessions_from_follow(lines.drop_last(), exp, all);
        let se = sessions_from(lines.drop_last(), exp, all);
        let f = split_on(lines.last(), field_sep());
        if f.len() >= 4 && !has_prefix(f[1], mirror_prefix()) {
            lemma_insert_follows(se, f[0], parsed_session(f, all || exp.contains(f[0])),
                |v: SessionView| v.expanded, |k: Seq<char>| all || exp.contains(k));
        }
    }
}

proof fn lemma_windows_from_follow(
    t: (Seq<(Seq<char>, SessionView)>, Seq<(Seq<char>, WindowView)>),
    lines: Seq<Seq<char>>,
    exp: Seq<Seq<char>>,
    all: bool,
)
    requires
        sessions_follow(t.0, exp, all),
        windows_follow(t.1, exp, all),
    ensures
        sessions_follow(windows_from(t, lines, exp, all).0, exp, all),
        windows_follow(windows_from(t, lines, exp, all).1, exp, all),
    decreases lines.len(),
{
    if lines.len() > 0 {
        lemma_windows_from_follow(t, lines.drop_last(), exp, all);
        let u = windows_from(t, lines.drop_last(), exp, all);
        let f = split_on(lines.last(), field_sep());
        if f.len() >= 6 && entry_lookup(u.0, f[1]) is Some {
            let s = entry_lookup(u.0, f[1]).unwrap();
            lemma_entry_index(u.0, f[1]);
            lemma_insert_follows(u.0, f[1], SessionView { windows: s.windows.push(f[0]), ..s },
                |v: SessionView| v.expanded, |k: Seq<char>| all || exp.contains(k));
            lemma_insert_follows(u.1, f[0], parsed_window(f, all || exp.contains(f[0])),
                |v: WindowView| v.expanded, |k: Seq<char>| all || exp.contains(k));
        }
    }
}

proof fn lemma_panes_from_follow(
    t: (Seq<(Seq<char>, WindowView)>, Seq<(Seq<char>, PaneView)>),
    lines: Seq<Seq<char>>,
    exp: Seq<Seq<char>>,
    all: bool,
)
    requires
        windows_follow(t.0, exp, all),
    ensures
        windows_follow(panes_from(t, lines).0, exp, all),
    decreases lines.len(),
{
    if lines.len() > 0 {
        lemma_panes_from_follow(t, lines.drop_last(), exp, all);
        let u = panes_from(t, lines.drop_last());
        let f = split_on(lines.last(), field_sep());
        if f.len() >= 9 && entry_lookup(u.1, f[0]) is None {
            match entry_lookup(u.0, f[1]) {
                Some(w) => {
                    lemma_entry_index(u.0, f[1]);
                    lemma_insert_follows(u.0, f[1], WindowView { panes: w.panes.push(f[0]), ..w },
                        |v: WindowView| v.expanded, |k: Seq<char>| all || exp.contains(k));
                },
                None => {},
            }
        }
    }
}

/// A rebuild expands exactly the remembered sessions and windows (all of
/// them on the very first load, when nothing is remembered).
pub proof fn rebuild_expands_the_remembered(
    m: TreeModel,
    saved: Seq<Seq<char>>,
    sl: Seq<Seq<char>>,
    wl: Seq<Seq<char>>,
    pl: Seq<Seq<char>>,
)
    ensures
        ({
            let t = rebuilt_tree(m, saved, sl, wl, pl);
            let exp = remembered(m, saved);
            let all = expand_everything(m, saved);
            &&& sessions_follow(t.sessions, exp, all)
            &&& windows_follow(t.windows, exp, all)
        }),
{
    let exp = remembered(m, saved);
    let all = expand_everything(m, saved);
    lemma_sessions_from_follow(sl, exp, all);
    let se1 = sessions_from(sl, exp, all);
    lemma_windows_from_follow((se1, Seq::empty()), wl, exp, all);
    let w = windows_from((se1, Seq::empty()), wl, exp, all);
    lemma_panes_from_follow((w.1, Seq::empty()), pl, exp, all);
}

/// After a restart the tree comes back with the expansion saved before it:
/// restored from disk into an empty tree, the first rebuild expands exactly the
/// saved ids.
pub proof fn restart_restores_expansion(
    m: TreeModel,
    saved: Seq<Seq<char>>,
    sl: Seq<Seq<char>>,
    wl: Seq<Seq<char>>,
    pl: Seq<Seq<char>>,
)
    requires
        m.sessions.len() == 0,
        m.windows.len() == 0,
        saved.len() > 0,
    ensures
        sessions_follow(rebuilt_tree(m, saved, sl, wl, pl).sessions, saved, false),
        windows_follow(rebuilt_tree(m, saved, sl, wl, pl).windows, saved, false),
{
    rebuild_expands_the_remembered(m, saved, sl, wl, pl);
    assert(expanded_session_ids(m.sessions) + expanded_window_ids(m.windows) =~= Seq::<Seq<char>>::empty());
}

pub open spec fn no_mirrors(se: Seq<(Seq<char>, SessionView)>) -> bool {
    forall|i: int| 0 <= i < se.len() ==> !has_prefix((#[trigger] se[i]).1.name, mirror_prefix())
}

proof fn lemma_sessions_from_no_mirrors(lines: Seq<Seq<char>>, exp: Seq<Seq<char>>, all: bool)
    ensures
        no_mirrors(sessions_from(lines, exp, all)),
    decreases lines.len(),
{
    if lines.len() > 0 {
        lemma_sessions_from_no_mirrors(lines.drop_last(), exp, all);
        let se = sessions_from(lines.drop_last(), exp, all);
        let f = split_on(lines.last(), field_sep());
        if f.len() >= 4 && !has_prefix(f[1], mirror_prefix()) {
            lemma_insert_follows(se, f[0], parsed_session(f, all || exp.contains(f[0])),
                |v: SessionView| !has_prefix(v.name, mirror_prefix()), |k: Seq<char>| true);
        }
    }
}

proof fn lemma_windows_from_no_mirrors(
    t: (Seq<(Seq<char>, SessionView)>, Seq<(Seq<char>, WindowView)>),
    lines: Seq<Seq<char>>,
    exp: Seq<Seq<char>>,
    all: bool,
)
    requires
        no_mirrors(t.0),
    ensures
        no_mirrors(windows_from(t, lines, exp, all).0),
    decreases lines.len(),
{
    if lines.len() > 0 {
        lemma_windows_from_no_mirrors(t, lines.drop_last(), exp, all);
        let u = windows_from(t, lines.drop_last(), exp, all);
        let f = split_on(lines.last(), field_sep());
        if f.len() >= 6 && entry_lookup(u.0, f[1]) is Some {
            let s = entry_lookup(u.0, f[1]).unwrap();
            lemma_entry_index(u.0, f[1]);
            lemma_insert_follows(u.0, f[1], SessionView { windows: s.windows.push(f[0]), ..s },
                |v: SessionView| !has_prefix(v.name, mirror_prefix()), |k: Seq<char>| true);
        }
    }
}

/// Our own mirror sessions never appear in the tree.
pub proof fn rebuild_hides_mirror_sessions(
    m: TreeModel,
    saved: Seq<Seq<char>>,
    sl: Seq<Seq<char>>,
    wl: Seq<Seq<char>>,
    pl: Seq<Seq<char>>,
)
    ensures
        no_mirrors(rebuilt_tree(m, saved, sl, wl, pl).sessions),
{
    let exp = remembered(m, saved);
    let all = expand_everything(m, saved);
    lemma_sessions_from_no_mirrors(sl, exp, all);
    lemma_windows_from_no_mirrors((sessions_from(sl, exp, all), Seq::empty()), wl, exp, all);
}

/// Every pane a window lists is a known pane, and no window lists a pane twice.
pub open spec fn panes_listed_once(we: Seq<(Seq<char>, WindowView)>, pe: Seq<(Seq<char>, PaneView)>) -> bool {
    &&& forall|i: int, j: int| 0 <= i < we.len() && 0 <= j < we[i].1.panes.len()
        ==> entry_lookup(pe, #[trigger] we[i].1.panes[j]) is Some
    &&& forall|i: int| 0 <= i < we.len() ==> (#[trigger] we[i]).1.panes.no_duplicates()
}

pub open spec fn panes_empty(we: Seq<(Seq<char>, WindowView)>) -> bool {
    forall|i: int| 0 <= i < we.len() ==> (#[trigger] we[i]).1.panes.len() == 0
}

proof fn lemma_windows_from_empty_panes(
    t: (Seq<(Seq<char>, SessionView)>, Seq<(Seq<char>, WindowView)>),
    lines: Seq<Seq<char>>,
    exp: Seq<Seq<char>>,
    all: bool,
)
    requires
        panes_empty(t.1),
    ensures
        panes_empty(windows_from(t, lines, exp, all).1),
    decreases lines.len(),
{
    if lines.len() > 0 {
        lemma_windows_from_empty_panes(t, lines.drop_last(), exp, all);
        let u = windows_from(t, lines.drop_last(), exp, all);
        let f = split_on(lines.last(), field_sep());
        if f.len() >= 6 && entry_lookup(u.0, f[1]) is Some {
            lemma_insert_follows(u.1, f[0], parsed_window(f, all || exp.contains(f[0])),
                |v: WindowView| v.panes.len() == 0, |k: Seq<char>| true);
        }
    }
}

proof fn lemma_panes_from_once(t: (Seq<(Seq<char>, WindowView)>, Seq<(Seq<char>, PaneView)>), lines: Seq<Seq<char>>)
    requires
        panes_listed_once(t.0, t.1),
    ensures
        panes_listed_once(panes_from(t, lines).0, panes_from(t, lines).1),
    decreases lines.len(),
{
    if lines.len() > 0 {
        lemma_panes_from_once(t, lines.drop_last());
        let u = panes_from(t, lines.drop_last());
        let f = split_on(lines.last(), field_sep());
        if f.len() >= 9 && entry_lookup(u.1, f[0]) is None {
            let pe = entry_insert(u.1, f[0], parsed_pane(f));
            let v = add_pane_line(u, lines.last());
            assert forall|q: Seq<char>| entry_lookup(u.1, q) is Some implies entry_lookup(pe, q) is Some by {
                crate::store::lemma_entry_insert(u.1, f[0], parsed_pane(f), q);
            }
            crate::store::lemma_entry_insert(u.1, f[0], parsed_pane(f), f[0]);
            match entry_lookup(u.0, f[1]) {
                Some(w) => {
                    lemma_entry_index(u.0, f[1]);
                    let idx = entry_index(u.0, f[1]);
                    let nw = WindowView { panes: w.panes.push(f[0]), ..w };
                    assert(v.0 == u.0.update(idx, (f[1], nw)));
                    assert forall|i: int, j: int| 0 <= i < v.0.len() && 0 <= j < v.0[i].1.panes.len()
                        implies entry_lookup(v.1, #[trigger] v.0[i].1.panes[j]) is Some by {
                        if i == idx && j == w.panes.len() {
                        } else if i == idx {
                            assert(v.0[i].1.panes[j] == u.0[i].1.panes[j]);
                        } else {
                            assert(v.0[i] == u.0[i]);
                        }
                    }
                    assert forall|i: int| 0 <= i < v.0.len() implies (#[trigger] v.0[i]).1.panes.no_duplicates() by {
                        if i == idx {
                            assert forall|a: int, b: int| 0 <= a < b < nw.panes.len() implies nw.panes[a] != nw.panes[b] by {
                                if b == w.panes.len() {
                                    assert(entry_lookup(u.1, w.panes[a]) is Some);
                                } else {
                                    assert(u.0[i].1.panes.no_duplicates());
                                }
                            }
                        } else {
                            assert(v.0[i] == u.0[i]);
                        }
                    }
                },
                None => {
                    assert forall|i: int, j: int| 0 <= i < v.0.len() && 0 <= j < v.0[i].1.panes.len()
                        implies entry_lookup(v.1, #[trigger] v.0[i].1.panes[j]) is Some by {
                        assert(entry_lookup(u.1, u.0[i].1.panes[j]) is Some);
                    }
                },
            }
        }
    }
}

/// A pane that tmux lists once per session of a group (as it does for our
/// mirrors) still gets a single row: after a rebuild no window lists a pane
/// twice, and every listed pane is known.
pub proof fn rebuild_lists_each_pane_once(
    m: TreeModel,
    saved: Seq<Seq<char>>,
    sl: Seq<Seq<char>>,
    wl: Seq<Seq<char>>,
    pl: Seq<Seq<char>>,
)
    ensures
        panes_listed_once(rebuilt_tree(m, saved, sl, wl, pl).windows, rebuilt_tree(m, saved, sl, wl, pl).panes),
{
    let exp = remembered(m, saved);
    let all = expand_everything(m, saved);
    let se1 = sessions_from(sl, exp, all);
    lemma_windows_from_empty_panes((se1, Seq::empty()), wl, exp, all);
    let w = windows_from((se1, Seq::empty()), wl, exp, all);
    lemma_panes_from_once((w.1, Seq::empty()), pl);
}

/// Every window belongs to a session that is in the tree.
pub open spec fn sessions_known(se: Seq<(Seq<char>, SessionView)>, we: Seq<(Seq<char>, WindowView)>) -> bool {
    forall|i: int| 0 <= i < we.len() ==> entry_lookup(se, (#[trigger] we[i]).1.session_id) is Some
}

/// Inserting into a map keeps every key it had.
proof fn lemma_insert_keeps_keys<V>(e: Seq<(Seq<char>, V)>, k: Seq<char>, v: V)
    ensures
        forall|q: Seq<char>| entry_lookup(e, q) is Some ==> #[trigger] entry_lookup(entry_insert(e, k, v), q) is Some,
{
    assert forall|q: Seq<char>| entry_lookup(e, q) is Some implies #[trigger] entry_lookup(entry_insert(e, k, v), q) is Some by {
        crate::store::lemma_entry_insert(e, k, v, q);
    }
}

/// What a lookup finds is one of the entries.
proof fn lemma_lookup_is_entry<V>(e: Seq<(Seq<char>, V)>, k: Seq<char>)
    requires
        entry_lookup(e, k) is Some,
    ensures
        0 <= entry_index(e, k) < e.len(),
        entry_lookup(e, k) == Some(e[entry_index(e, k)].1),
{
    lemma_entry_index(e, k);
}

proof fn lemma_windows_from_known(
    t: (Seq<(Seq<char>, SessionView)>, Seq<(Seq<char>, WindowView)>),
    lines: Seq<Seq<char>>,
    exp: Seq<Seq<char>>,
    all: bool,
)
    requires
        sessions_known(t.0, t.1),
    ensures
        sessions_known(windows_from(t, lines, exp, all).0, windows_from(t, lines, exp, all).1),
    decreases lines.len(),
{
    if lines.len() > 0 {
        lemma_windows_from_known(t, lines.drop_last(), exp, all);
        let u = windows_from(t, lines.drop_last(), exp, all);
        let f = split_on(lines.last(), field_sep());
        if f.len() >= 6 && entry_lookup(u.0, f[1]) is Some {
            let s0 = entry_lookup(u.0, f[1]).unwrap();
            let se = entry_insert(u.0, f[1], SessionView { windows: s0.windows.push(f[0]), ..s0 });
            lemma_insert_keeps_keys(u.0, f[1], SessionView { windows: s0.windows.push(f[0]), ..s0 });
            crate::store::lemma_entry_insert(u.0, f[1], SessionView { windows: s0.windows.push(f[0]), ..s0 }, f[1]);
            assert forall|i: int| 0 <= i < u.1.len() implies entry_lookup(se, (#[trigger] u.1[i]).1.session_id) is Some by {
                assert(entry_lookup(u.0, u.1[i].1.session_id) is Some);
            }
            lemma_insert_follows(u.1, f[0], parsed_window(f, all || exp.contains(f[0])),
                |v: WindowView| entry_lookup(se, v.session_id) is Some, |k: Seq<char>| true);
        }
    }
}

proof fn lemma_panes_from_known(
    se: Seq<(Seq<char>, SessionView)>,
    t: (Seq<(Seq<char>, WindowView)>, Seq<(Seq<char>, PaneView)>),
    lines: Seq<Seq<char>>,
)
    requires
        sessions_known(se, t.0),
    ensures
        sessions_known(se, panes_from(t, lines).0),
    decreases lines.len(),
{
    if lines.len() > 0 {
        lemma_panes_from_known(se, t, lines.drop_last());
        let u = panes_from(t, lines.drop_last());
        let f = split_on(lines.last(), field_sep());
        if f.len() >= 9 && entry_lookup(u.1, f[0]) is None {
            match entry_lookup(u.0, f[1]) {
                Some(w) => {
                    lemma_lookup_is_entry(u.0, f[1]);
                    assert(entry_lookup(se, u.0[entry_index(u.0, f[1])].1.session_id) is Some);
                    lemma_insert_follows(u.0, f[1], WindowView { panes: w.panes.push(f[0]), ..w },
                        |v: WindowView| entry_lookup(se, v.session_id) is Some, |k: Seq<char>| true);
                },
                None => {},
            }
        }
    }
}

/// After a rebuild every window's session is in the tree.
pub proof fn rebuild_keeps_windows_under_known_sessions(
    m: TreeModel,
    saved: Seq<Seq<char>>,
    sl: Seq<Seq<char>>,
    wl: Seq<Seq<char>>,
    pl: Seq<Seq<char>>,
)
    ensures
        sessions_known(rebuilt_tree(m, saved, sl, wl, pl).sessions, rebuilt_tree(m, saved, sl, wl, pl).windows),
{
    let exp = remembered(m, saved);
    let all = expand_everything(m, saved);
    let se1 = sessions_from(sl, exp, all);
    lemma_windows_from_known((se1, Seq::empty()), wl, exp, all);
    let w = windows_from((se1, Seq::empty()), wl, exp, all);
    lemma_panes_from_known(w.0, (w.1, Seq::empty()), pl);
}

/// Every pane a window lists is known and listed once, as one predicate on
/// each window.
pub open spec fn window_panes_ok(pe: Seq<(Seq<char>, PaneView)>, v: WindowView) -> bool {
    &&& forall|j: int| 0 <= j < v.panes.len() ==> entry_lookup(pe, #[trigger] v.panes[j]) is Some
    &&& v.panes.no_duplicates()
}

/// Settling the selection only flips expansion flags and moves the
/// selection: the facts a rebuild establishes still hold.
proof fn lemma_settled_keeps(t: TreeModel, tmux_pane: Option<Seq<char>>, last_target: Option<Seq<char>>)
    requires
        sessions_known(t.sessions, t.windows),
        no_mirrors(t.sessions),
        panes_listed_once(t.windows, t.panes),
    ensures
        sessions_known(settled(t, tmux_pane, last_target).0.sessions, settled(t, tmux_pane, last_target).0.windows),
        no_mirrors(settled(t, tmux_pane, last_target).0.sessions),
        panes_listed_once(settled(t, tmux_pane, last_target).0.windows, settled(t, tmux_pane, last_target).0.panes),
{
    let r = settled(t, tmux_pane, last_target).0;
    let rows = model_rows(t);
    let sel = match t.selected {
        Some(x) => if first_index(rows, x) >= 0 { Some(x) } else { None },
        None => None,
    };
    if sel is None && rows.len() > 0 {
        match active_choice(t, tmux_pane, last_target) {
            Some(p) => {
                let se = match entry_lookup(t.windows, p.window_id) {
                    Some(w) => set_session_expanded(t.sessions, w.session_id, true),
                    None => t.sessions,
                };
                match entry_lookup(t.windows, p.window_id) {
                    Some(w) => {
                        match entry_lookup(t.sessions, w.session_id) {
                            Some(v) => {
                                lemma_lookup_is_entry(t.sessions, w.session_id);
                                assert(!has_prefix(t.sessions[entry_index(t.sessions, w.session_id)].1.name, mirror_prefix()));
                                lemma_insert_keeps_keys(t.sessions, w.session_id, SessionView { expanded: true, ..v });
                                lemma_insert_follows(t.sessions, w.session_id, SessionView { expanded: true, ..v },
                                    |x: SessionView| !has_prefix(x.name, mirror_prefix()), |k: Seq<char>| true);
                            },
                            None => {},
                        }
                    },
                    None => {},
                }
                assert forall|i: int| 0 <= i < t.windows.len() implies entry_lookup(se, (#[trigger] t.windows[i]).1.session_id) is Some by {
                    assert(entry_lookup(t.sessions, t.windows[i].1.session_id) is Some);
                }
                assert forall|i: int| 0 <= i < t.windows.len() implies window_panes_ok(t.panes, (#[trigger] t.windows[i]).1) by {
                    assert forall|j: int| 0 <= j < t.windows[i].1.panes.len() implies entry_lookup(t.panes, #[trigger] t.windows[i].1.panes[j]) is Some by {
                    }
                }
                match entry_lookup(t.windows, p.window_id) {
                    Some(v) => {
                        lemma_lookup_is_entry(t.windows, p.window_id);
                        let nv = WindowView { expanded: true, ..v };
                        lemma_insert_follows(t.windows, p.window_id, nv,
                            |x: WindowView| entry_lookup(se, x.session_id) is Some, |k: Seq<char>| true);
                        lemma_insert_follows(t.windows, p.window_id, nv,
                            |x: WindowView| window_panes_ok(t.panes, x), |k: Seq<char>| true);
                        let nw = set_window_expanded(t.windows, p.window_id, true);
                        assert forall|i: int| 0 <= i < nw.len() implies window_panes_ok(t.panes, (#[trigger] nw[i]).1) by {}
                        assert forall|i: int, j: int| 0 <= i < nw.len() && 0 <= j < nw[i].1.panes.len()
                            implies entry_lookup(t.panes, #[trigger] nw[i].1.panes[j]) is Some by {
                            assert(window_panes_ok(t.panes, nw[i].1));
                        }
                    },
                    None => {},
                }
            },
            None => {},
        }
    }
}

/// After a sync the tree is consistent: every window's session is in it, no
/// session of ours (a mirror) is, and every window lists only known panes,
/// each once; the selection settling on a row changes none of that.
pub proof fn synced_tree_is_consistent(
    m: TreeModel,
    saved: Seq<Seq<char>>,
    sl: Seq<Seq<char>>,
    wl: Seq<Seq<char>>,
    pl: Seq<Seq<char>>,
    tmux_pane: Option<Seq<char>>,
    last_target: Option<Seq<char>>,
)
    ensures
        ({
            let t = settled(rebuilt_tree(m, saved, sl, wl, pl), tmux_pane, last_target).0;
            &&& sessions_known(t.sessions, t.windows)
            &&& no_mirrors(t.sessions)
            &&& panes_listed_once(t.windows, t.panes)
        }),
{
    rebuild_keeps_windows_under_known_sessions(m, saved, sl, wl, pl);
    rebuild_hides_mirror_sessions(m, saved, sl, wl, pl);
    rebuild_lists_each_pane_once(m, saved, sl, wl, pl);
    lemma_settled_keeps(rebuilt_tree(m, saved, sl, wl, pl), tmux_pane, last_target);
}

/// When the session of `p` was last attached, read straight from the tree
/// (0 for a pane whose window or session is missing).
pub open spec fn session_time_of(t: TreeModel, p: PaneView) -> int {
    match entry_lookup(t.windows, p.window_id) {
        Some(w) => match entry_lookup(t.sessions, w.session_id) {
            Some(s) => s.last_attached as int,
            None => 0,
        },
        None => 0,
    }
}

/// Whether the session of `p` is attached, read straight from the tree.
pub open spec fn session_attached_of(t: TreeModel, p: PaneView) -> bool {
    match entry_lookup(t.windows, p.window_id) {
        Some(w) => match entry_lookup(t.sessions, w.session_id) {
            Some(s) => s.attached,
            None => false,
        },
        None => false,
    }
}

/// An active pane of an active window, read straight from the tree.
pub open spec fn active_in_active_window(t: TreeModel, p: PaneView) -> bool {
    &&& p.active
    &&& entry_lookup(t.windows, p.window_id) matches Some(w) && w.active
}

/// `p`, the pane at position `j`, is what sorting the active panes of active
/// windows of `ps` (newest session first, then attached sessions first,
/// keeping the listing order otherwise) puts first: no such pane belongs to
/// a session attached later; one of a session attached at the same time is
/// attached only if `p`'s is; and one listed before `p` comes strictly after
/// it in that order.
pub open spec fn sorts_first(t: TreeModel, ps: Seq<(Seq<char>, PaneView)>, j: int, p: PaneView) -> bool {
    &&& 0 <= j < ps.len()
    &&& ps[j].1 == p
    &&& active_in_active_window(t, p)
    &&& forall|i: int| 0 <= i < ps.len() && active_in_active_window(t, #[trigger] ps[i].1) ==> {
        let q = ps[i].1;
        &&& session_time_of(t, q) <= session_time_of(t, p)
        &&& (session_time_of(t, q) == session_time_of(t, p) && session_attached_of(t, q) ==> session_attached_of(t, p))
        &&& (i < j && session_time_of(t, q) == session_time_of(t, p) ==> session_attached_of(t, p)
            && !session_attached_of(t, q))
    }
}

/// The fallback pick is what sorting the active panes of active windows by
/// session activity puts first (see [`sorts_first`]), and there is a pick
/// exactly when `ps` has such a pane.
pub proof fn best_pane_is_the_newest_active_pane(t: TreeModel, ps: Seq<(Seq<char>, PaneView)>)
    ensures
        best_pane(t, ps) is Some <==> exists|i: int| 0 <= i < ps.len() && active_in_active_window(t, #[trigger] ps[i].1),
        best_pane(t, ps) matches Some(p) ==> exists|j: int| sorts_first(t, ps, j, p),
    decreases ps.len(),
{
    if ps.len() > 0 {
        let d = ps.drop_last();
        best_pane_is_the_newest_active_pane(t, d);
        let n = ps.len() - 1;
        let last = ps.last().1;
        assert(ps[n].1 == last);
        assert forall|i: int| 0 <= i < d.len() implies #[trigger] d[i] == ps[i] by {}
        let b = best_pane(t, d);
        if is_candidate(t, last) && (b is None || ranks_above(t, last, b.unwrap())) {
            assert(active_in_active_window(t, last));
            if b is Some {
                let bp = b.unwrap();
                let j = choose|j: int| sorts_first(t, d, j, bp);
                assert forall|i: int| 0 <= i < ps.len() && active_in_active_window(t, #[trigger] ps[i].1) implies ({
                    let q = ps[i].1;
                    &&& session_time_of(t, q) <= session_time_of(t, last)
                    &&& (session_time_of(t, q) == session_time_of(t, last) && session_attached_of(t, q)
                        ==> session_attached_of(t, last))
                    &&& (i < n && session_time_of(t, q) == session_time_of(t, last) ==> session_attached_of(t, last)
                        && !session_attached_of(t, q))
                }) by {
                    if i < n {
                        assert(d[i] == ps[i]);
                        assert(active_in_active_window(t, d[i].1));
                    }
                }
                assert(sorts_first(t, ps, n, last));
            } else {
                assert forall|i: int| 0 <= i < ps.len() && active_in_active_window(t, #[trigger] ps[i].1) implies i == n by {
                    if i < n {
                        assert(d[i] == ps[i]);
                        assert(active_in_active_window(t, d[i].1));
                    }
                }
                assert(sorts_first(t, ps, n, last));
            }
        } else {
            if b is Some {
                let bp = b.unwrap();
                let j = choose|j: int| sorts_first(t, d, j, bp);
                assert forall|i: int| 0 <= i < ps.len() && active_in_active_window(t, #[trigger] ps[i].1) implies ({
                    let q = ps[i].1;
                    &&& session_time_of(t, q) <= session_time_of(t, bp)
                    &&& (session_time_of(t, q) == session_time_of(t, bp) && session_attached_of(t, q)
                        ==> session_attached_of(t, bp))
                    &&& (i < j && session_time_of(t, q) == session_time_of(t, bp) ==> session_attached_of(t, bp)
                        && !session_attached_of(t, q))
                }) by {
                    if i < n {
                        assert(d[i] == ps[i]);
                        assert(active_in_active_window(t, d[i].1));
                    }
                }
                assert(sorts_first(t, ps, j, bp));
            } else {
                assert forall|i: int| 0 <= i < ps.len() implies !active_in_active_window(t, #[trigger] ps[i].1) by {
                    if i < n {
                        assert(d[i] == ps[i]);
                        assert(!active_in_active_window(t, d[i].1));
                    }
                }
            }
        }
        if exists|i: int| 0 <= i < d.len() && active_in_active_window(t, #[trigger] d[i].1) {
            let i = choose|i: int| 0 <= i < d.len() && active_in_active_window(t, #[trigger] d[i].1);
            assert(ps[i].1 == d[i].1);
        }
    }
}

/// With nothing selected, no pane of our own and no last target, a sync
/// whose tree has an active pane in an active window selects the active
/// pane of the most recently attached session (ties going to an attached
/// session, then to the first listed), and switches to pane navigation: see
/// [`sorts_first`].
pub proof fn sync_selects_the_newest_active_pane(t: TreeModel)
    requires
        t.selected is None,
        model_rows(t).len() > 0,
        exists|i: int| 0 <= i < t.panes.len() && active_in_active_window(t, #[trigger] t.panes[i].1),
    ensures
        exists|p: PaneView| {
            &&& settled(t, None, None).0.selected == Some(p.id)
            &&& settled(t, None, None).1
            &&& exists|j: int| sorts_first(t, t.panes, j, p)
        },
{
    best_pane_is_the_newest_active_pane(t, t.panes);
    let p = active_choice(t, None, None).unwrap();
    assert(settled(t, None, None).0.selected == Some(p.id));
}

} // verus!
