//! Keeping the embedded preview client on the selected row: which session a
//! selection belongs to, where to point the mirror, and following the client
//! back into the tree.

use vstd::prelude::*;

use crate::state::{opt_view, strs, AppState, Focus, Panel, TreeModel};
use crate::store::{entry_lookup, pane_map_get, session_map_get, window_map_contains_key, window_map_get};
use crate::text::{chars_eq, chars_of, owned, string_of};

verus! {

/// The session a selection id (`$session`, `@window` or `%pane`) belongs to.
/// An id with the session sigil is taken as it is.
pub open spec fn session_of(m: TreeModel, id: Seq<char>) -> Option<Seq<char>> {
    if id.len() > 0 && id[0] == '$' {
        Some(id)
    } else if entry_lookup(m.windows, id) is Some {
        Some(entry_lookup(m.windows, id).unwrap().session_id)
    } else if entry_lookup(m.panes, id) is Some && entry_lookup(m.windows, entry_lookup(m.panes, id).unwrap().window_id) is Some {
        Some(entry_lookup(m.windows, entry_lookup(m.panes, id).unwrap().window_id).unwrap().session_id)
    } else {
        None
    }
}

/// Maps a selection id to its session id.
pub fn session_id_of(state: &AppState, id: &str) -> (r: Option<String>)
    ensures
        opt_view(r) == session_of(state.model(), id@),
{
    let cs = chars_of(id);
    if cs.len() > 0 && cs[0] == '$' {
        return Some(owned(id));
    }
    if let Some(w) = window_map_get(&state.windows, id) {
        return Some(w.session_id.clone());
    }
    if let Some(p) = pane_map_get(&state.panes, id) {
        if let Some(w) = window_map_get(&state.windows, p.window_id.as_str()) {
            return Some(w.session_id.clone());
        }
    }
    None
}

/// The first of `wins` that is a window marked active.
pub open spec fn first_active_window(m: TreeModel, wins: Seq<Seq<char>>) -> Option<Seq<char>>
    decreases wins.len(),
{
    if wins.len() == 0 {
        None
    } else if entry_lookup(m.windows, wins[0]) is Some && entry_lookup(m.windows, wins[0]).unwrap().active {
        Some(wins[0])
    } else {
        first_active_window(m, wins.drop_first())
    }
}

/// The window and pane a selection points at: a pane and its window; a window
/// alone; for a session, its active window (else its first one).
pub open spec fn window_and_pane(m: TreeModel, id: Seq<char>) -> (Option<Seq<char>>, Option<Seq<char>>) {
    if entry_lookup(m.panes, id) is Some {
        (Some(entry_lookup(m.panes, id).unwrap().window_id), Some(id))
    } else if entry_lookup(m.windows, id) is Some {
        (Some(id), None)
    } else if entry_lookup(m.sessions, id) is Some {
        let wins = entry_lookup(m.sessions, id).unwrap().windows;
        (
            match first_active_window(m, wins) {
                Some(w) => Some(w),
                None => if wins.len() > 0 { Some(wins[0]) } else { None },
            },
            None,
        )
    } else {
        (None, None)
    }
}

/// The window and pane a selection points at, for driving the mirror's own
/// current window without touching anyone else's.
pub fn window_and_pane_of(state: &AppState, id: &str) -> (r: (Option<String>, Option<String>))
    ensures
        (opt_view(r.0), opt_view(r.1)) == window_and_pane(state.model(), id@),
{
    if let Some(pane) = pane_map_get(&state.panes, id) {
        return (Some(pane.window_id.clone()), Some(owned(id)));
    }
    if window_map_contains_key(&state.windows, id) {
        return (Some(owned(id)), None);
    }
    if let Some(session) = session_map_get(&state.sessions, id) {
        if let Some(w) = first_active_of(state, &session.windows) {
            return (Some(w), None);
        }
        if session.windows.len() > 0 {
            assert(strs(session.windows@)[0] == session.windows@[0]@);
            return (Some(session.windows[0].clone()), None);
        }
        return (None, None);
    }
    (None, None)
}

fn first_active_of(state: &AppState, windows: &Vec<String>) -> (r: Option<String>)
    ensures
        opt_view(r) == first_active_window(state.model(), strs(windows@)),
{
    let ghost wins = strs(windows@);
    let mut i: usize = 0;
    assert(wins.skip(0) =~= wins);
    while i < windows.len()
        invariant
            i <= windows.len(),
            wins == strs(windows@),
            first_active_window(state.model(), wins) == first_active_window(state.model(), wins.skip(i as int)),
        decreases windows.len() - i,
    {
        let wid = &windows[i];
        assert(wins.skip(i as int)[0] == wid@);
        assert(wins.skip(i as int).drop_first() =~= wins.skip(i + 1));
        match window_map_get(&state.windows, wid.as_str()) {
            Some(w) => {
                if w.active {
                    return Some(wid.clone());
                }
            },
            None => {},
        }
        i = i + 1;
    }
    assert(wins.skip(i as int) =~= Seq::<Seq<char>>::empty());
    None
}

/// Whether a row belongs to a session: the session itself, one of its
/// windows, or a pane of one of them.
pub open spec fn belongs_to(m: TreeModel, id: Seq<char>, sess: Seq<char>) -> bool {
    if id == sess {
        true
    } else if entry_lookup(m.windows, id) is Some {
        entry_lookup(m.windows, id).unwrap().session_id == sess
    } else if entry_lookup(m.panes, id) is Some {
        entry_lookup(m.windows, entry_lookup(m.panes, id).unwrap().window_id) is Some
            && entry_lookup(m.windows, entry_lookup(m.panes, id).unwrap().window_id).unwrap().session_id == sess
    } else {
        false
    }
}

/// The first row that belongs to the session.
pub open spec fn first_row_of(m: TreeModel, rows: Seq<Seq<char>>, sess: Seq<char>) -> Option<Seq<char>>
    decreases rows.len(),
{
    if rows.len() == 0 {
        None
    } else if belongs_to(m, rows[0], sess) {
        Some(rows[0])
    } else {
        first_row_of(m, rows.drop_first(), sess)
    }
}

/// The row to follow the embedded client to: its pane when that is a row,
/// else the first row of its session.
pub open spec fn follow_target(m: TreeModel, rows: Seq<Seq<char>>, pane: Seq<char>, sess: Seq<char>) -> Option<Seq<char>> {
    if rows.contains(pane) {
        Some(pane)
    } else {
        first_row_of(m, rows, sess)
    }
}

/// The session the client is on, seen from the tree: our grouped mirror
/// session stands for the session it is grouped with.
pub open spec fn seen_session(client: Seq<char>, mirror_id: Option<Seq<char>>, mirror_target: Option<Seq<char>>) -> Seq<char> {
    if client.len() > 0 && mirror_id == Some(client) && mirror_target is Some {
        mirror_target.unwrap()
    } else {
        client
    }
}

fn row_belongs(state: &AppState, id: &String, sess: &String) -> (b: bool)
    ensures
        b == belongs_to(state.model(), id@, sess@),
{
    if chars_eq(chars_of(id.as_str()).as_slice(), chars_of(sess.as_str()).as_slice()) {
        return true;
    }
    if let Some(w) = window_map_get(&state.windows, id.as_str()) {
        return chars_eq(chars_of(w.session_id.as_str()).as_slice(), chars_of(sess.as_str()).as_slice());
    }
    if let Some(p) = pane_map_get(&state.panes, id.as_str()) {
        return match window_map_get(&state.windows, p.window_id.as_str()) {
            Some(w) => chars_eq(chars_of(w.session_id.as_str()).as_slice(), chars_of(sess.as_str()).as_slice()),
            None => false,
        };
    }
    false
}

fn opt_eq(a: Option<&str>, b: &[char]) -> (r: bool)
    ensures
        r == (match a {
            Some(s) => s@ == b@,
            None => false,
        }),
{
    match a {
        Some(s) => chars_eq(chars_of(s).as_slice(), b),
        None => false,
    }
}

pub open spec fn opt_str(o: Option<&str>) -> Option<Seq<char>> {
    match o {
        Some(s) => Some(s@),
        None => None,
    }
}

/// While the preview has the focus, the selection follows the embedded
/// client (found on `client_session`, in `client_pane`); in the tree, the
/// client drifting off the selected session asks for the switch to be redone.
pub open spec fn follow_outcome(o: AppState, f: AppState, sess: Seq<char>, pane: Seq<char>, redo: bool) -> bool {
    if o.focus.panel == Panel::Preview {
        !redo && match follow_target(o.model(), o.visible_rows(), pane, sess) {
            Some(t) => f.model() == (TreeModel { selected: Some(t), ..o.model() }) && f.same_settings(&o),
            None => f == o,
        }
    } else {
        f == o && redo == match o.model().selected {
            Some(sel) => session_of(o.model(), sel) matches Some(want) && want != sess,
            None => false,
        }
    }
}

/// Follows the embedded client after a sync. Returns whether the switch to
/// the selected session has to be redone.
pub fn follow_client(
    state: &mut AppState,
    client_session: &str,
    client_pane: &str,
    mirror_id: Option<&str>,
    mirror_target: Option<&str>,
) -> (redo: bool)
    ensures
        follow_outcome(
            *old(state),
            *final(state),
            seen_session(client_session@, opt_str(mirror_id), opt_str(mirror_target)),
            client_pane@,
            redo,
        ),
{
    let cs = chars_of(client_session);
    let sess: String = if cs.len() > 0 && opt_eq(mirror_id, cs.as_slice()) && mirror_target.is_some() {
        match mirror_target {
            Some(t) => owned(t),
            None => owned(client_session),
        }
    } else {
        owned(client_session)
    };
    if state.focus.panel == Panel::Preview {
        let visible = state.get_dynamic_visible_items();
        let ghost rows = strs(visible@);
        let pane = owned(client_pane);
        let target: Option<String> = match crate::state::position(&visible, &pane) {
            Some(_) => Some(pane),
            None => first_row_belonging(state, &visible, &sess),
        };
        proof {
            crate::state::lemma_first_index(rows, client_pane@);
            if rows.contains(client_pane@) {
                assert(crate::state::first_index(rows, client_pane@) >= 0);
            }
        }
        if let Some(t) = target {
            state.focus.selected_id = Some(t);
        }
        return false;
    }
    let want = match &state.focus.selected_id {
        Some(sel) => session_id_of(state, sel.as_str()),
        None => None,
    };
    match want {
        Some(w) => !chars_eq(chars_of(w.as_str()).as_slice(), chars_of(sess.as_str()).as_slice()),
        None => false,
    }
}

fn first_row_belonging(state: &AppState, visible: &Vec<String>, sess: &String) -> (r: Option<String>)
    ensures
        opt_view(r) == first_row_of(state.model(), strs(visible@), sess@),
{
    let ghost rows = strs(visible@);
    let mut i: usize = 0;
    assert(rows.skip(0) =~= rows);
    while i < visible.len()
        invariant
            i <= visible.len(),
            rows == strs(visible@),
            first_row_of(state.model(), rows, sess@) == first_row_of(state.model(), rows.skip(i as int), sess@),
        decreases visible.len() - i,
    {
        assert(rows.skip(i as int)[0] == visible@[i as int]@);
        assert(rows.skip(i as int).drop_first() =~= rows.skip(i + 1));
        if row_belongs(state, &visible[i], sess) {
            return Some(visible[i].clone());
        }
        i = i + 1;
    }
    assert(rows.skip(i as int) =~= Seq::<Seq<char>>::empty());
    None
}

/// Whether the selection is in the session this program runs in, which is
/// never mirrored (the preview would show itself).
pub open spec fn suppressed(m: TreeModel, own: Option<Seq<char>>) -> bool {
    match (own, m.selected) {
        (Some(o), Some(id)) => session_of(m, id) == Some(o),
        _ => false,
    }
}

impl AppState {
    /// Recomputes [`AppState::mirror_suppressed`] for the current selection.
    pub fn update_mirror_suppressed(&mut self)
        ensures
            *final(self) == (AppState { mirror_suppressed: suppressed(old(self).model(), opt_view(old(self).own_session)), ..*old(self) }),
    {
        let s = match (&self.own_session, &self.focus.selected_id) {
            (Some(own), Some(id)) => match session_id_of(self, id.as_str()) {
                Some(sid) => chars_eq(chars_of(sid.as_str()).as_slice(), chars_of(own.as_str()).as_slice()),
                None => false,
            },
            _ => false,
        };
        self.mirror_suppressed = s;
    }

    /// The session whose window size is pinned: the selection's session, only
    /// while the preview has the focus.
    pub fn forced_session(&self) -> (r: Option<String>)
        ensures
            opt_view(r) == (if self.focus.panel == Panel::Preview {
                match self.model().selected {
                    Some(id) => session_of(self.model(), id),
                    None => None,
                }
            } else {
                None
            }),
    {
        if self.focus.panel == Panel::Preview {
            match &self.focus.selected_id {
                Some(id) => session_id_of(self, id.as_str()),
                None => None,
            }
        } else {
            None
        }
    }
}


// ---------------------------------------------------------------------------
// Commands and sizes around the embedded client.

fn push_arg(v: &mut Vec<String>, a: &str)
    ensures
        strs(final(v)@) == strs(old(v)@).push(a@),
{
    v.push(owned(a));
    assert(strs(v@) =~= strs(old(v)@).push(a@));
}

/// How to reach `target`: from inside tmux, move this client there; from
/// outside, attach, naming the socket of the server being browsed.
pub open spec fn attach_spec(inside_tmux: bool, socket: Option<Seq<char>>, target: Seq<char>) -> Seq<Seq<char>> {
    if inside_tmux {
        seq!["switch-client"@, "-t"@, target]
    } else {
        (match socket {
            Some(s) => seq!["-S"@, s],
            None => Seq::empty(),
        }) + seq!["attach-session"@, "-t"@, target]
    }
}

pub fn attach_args(inside_tmux: bool, socket: Option<&str>, target: &str) -> (r: Vec<String>)
    ensures
        strs(r@) == attach_spec(inside_tmux, opt_str(socket), target@),
{
    let mut v: Vec<String> = Vec::new();
    if inside_tmux {
        push_arg(&mut v, "switch-client");
        push_arg(&mut v, "-t");
        push_arg(&mut v, target);
        assert(strs(v@) =~= attach_spec(inside_tmux, opt_str(socket), target@));
        return v;
    }
    if let Some(s) = socket {
        push_arg(&mut v, "-S");
        push_arg(&mut v, s);
    }
    push_arg(&mut v, "attach-session");
    push_arg(&mut v, "-t");
    push_arg(&mut v, target);
    assert(strs(v@) =~= attach_spec(inside_tmux, opt_str(socket), target@));
    v
}

/// `<mirror>:<window>`: a window addressed through our own grouped session,
/// so selecting it moves only our session's current window.
pub fn mirror_window_target(mirror: &str, window: &str) -> (r: String)
    ensures
        r@ == mirror@ + seq![':'] + window@,
{
    let mut v = chars_of(mirror);
    v.push(':');
    crate::text::extend_chars(&mut v, chars_of(window).as_slice());
    assert(v@ =~= mirror@ + seq![':'] + window@);
    string_of(v.as_slice())
}

/// The embedded client's grid on a `width` by `height` screen: right of the
/// sidebar, above the command bar; `None` when nothing of it is left.
pub open spec fn grid_spec(width: u16, height: u16, sidebar_cols: u16) -> Option<(u16, u16)> {
    let cols = crate::input::sat_sub(width, sidebar_cols);
    let rows = crate::input::sat_sub(height, 1);
    if cols > 0 && rows > 0 { Some((rows as u16, cols as u16)) } else { None }
}

pub fn preview_grid(width: u16, height: u16, sidebar_cols: u16) -> (r: Option<(u16, u16)>)
    ensures
        r == grid_spec(width, height, sidebar_cols),
{
    let cols: u16 = if width >= sidebar_cols { width - sidebar_cols } else { 0 };
    let rows: u16 = if height >= 1 { height - 1 } else { 0 };
    if cols > 0 && rows > 0 {
        Some((rows, cols))
    } else {
        None
    }
}

/// What to do with the embedded client when the selection has changed.
#[derive(Debug)]
pub enum MirrorStep {
    /// Nothing is selected: leave the client as it is.
    Stay,
    /// The selection is in ttree's own session: stop the client and go back
    /// to the tree.
    StopClient,
    /// No client runs yet: start one on this target.
    StartClient(String),
    /// The mirror already follows the selection's session: point it at the
    /// selection.
    ReuseMirror,
    /// Group a new mirror with this session, then point it at the selection
    /// (or, if that fails, switch the client to the selection itself).
    NewMirror(String),
    /// The selection names no session: switch the client to it directly.
    SwitchDirect(String),
}

/// The step for a selection change: see [`MirrorStep`]. `mirror_target` is
/// the session the current mirror is grouped with.
pub open spec fn mirror_step_is(
    st: AppState,
    has_client: bool,
    mirror_target: Option<Seq<char>>,
    r: MirrorStep,
) -> bool {
    if st.mirror_suppressed {
        r is StopClient
    } else {
        match st.model().selected {
            None => r is Stay,
            Some(t) => if !has_client {
                r matches MirrorStep::StartClient(x) && x@ == t
            } else {
                match session_of(st.model(), t) {
                    Some(sid) => if mirror_target == Some(sid) {
                        r is ReuseMirror
                    } else {
                        r matches MirrorStep::NewMirror(x) && x@ == sid
                    },
                    None => r matches MirrorStep::SwitchDirect(x) && x@ == t,
                }
            },
        }
    }
}

/// Decides what the embedded client does when the selection has changed.
pub fn mirror_step(state: &AppState, has_client: bool, mirror_target: Option<&str>) -> (r: MirrorStep)
    ensures
        mirror_step_is(*state, has_client, match mirror_target {
            Some(m) => Some(m@),
            None => None,
        }, r),
{
    if state.mirror_suppressed {
        return MirrorStep::StopClient;
    }
    let t = match &state.focus.selected_id {
        Some(t) => t,
        None => return MirrorStep::Stay,
    };
    if !has_client {
        return MirrorStep::StartClient(t.clone());
    }
    match session_id_of(state, t.as_str()) {
        Some(sid) => {
            let same = match mirror_target {
                Some(m) => chars_eq(chars_of(m).as_slice(), chars_of(sid.as_str()).as_slice()),
                None => false,
            };
            if same {
                MirrorStep::ReuseMirror
            } else {
                MirrorStep::NewMirror(sid)
            }
        },
        None => MirrorStep::SwitchDirect(t.clone()),
    }
}

} // verus!
