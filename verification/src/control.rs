//! What the main loop does with a key, a paste or a mouse event: each handler
//! updates the state and says what is left for the caller to do outside it
//! (write the state to disk, run tmux, send bytes to the embedded client).

use vstd::prelude::*;

use crate::input::{
    encode_key, encode_mouse, forwards_mouse, key_bytes, prefix_matches, push_utf8, sat_sub, sgr_report,
    should_forward_mouse, utf8, KeyCode, KeyEvent, MouseButton, MouseEvent, MouseEventKind,
    MouseProtocolMode, Prefix,
};
use crate::actions::{argv_is, is_object_id, name_has_break, Actions};
use crate::state::{strs, AppState, Focus, InputMode, Panel, TreeModel, selection_down, selection_up, toggle_model, nav_left_model, nav_right_model};
use crate::store::{entry_lookup, pane_map_get, session_map_contains_key, session_map_get, window_map_get};
use crate::text::{chars_of, extend_chars, owned, push_char, string_of, trim, trimmed};
use crate::filter::shown_rows;
use crate::tree_view::{display_name, pane_name};

verus! {

/// What a key asks of the state, before any of it is done.
#[derive(Clone, Copy, Debug, PartialEq, Eq, Structural)]
pub enum KeyAction {
    /// Add a character to the line being typed.
    Type(char),
    /// Remove the last character of the line being typed.
    Erase,
    /// Finish the line being typed and run its command.
    Submit,
    /// Drop the line being typed.
    Cancel,
    /// Nothing.
    Ignore,
    /// Move the focus to the preview.
    Preview,
    /// Close the help popup.
    HideHelp,
    /// Open the help popup.
    Help,
    /// Leave the program.
    Quit,
    /// Leave and attach to the selection.
    Attach,
    Up,
    Down,
    Left,
    Right,
    /// Expand or collapse the selection.
    Toggle,
    /// Start typing a new session's name.
    NewSession,
    /// Start typing a new name for the selected session or window.
    Rename,
    /// Create a window in the session of the selection.
    NewWindow,
    /// Split the selected pane: below when `true`, beside it when `false`.
    Split(bool),
    /// Ask before killing the selection.
    AskKill,
    /// Yes to the question being asked: run its command.
    Confirm,
    /// Anything else while a question is asked: drop it.
    Decline,
    /// Start typing a filter for the tree.
    StartFilter,
    /// Drop the filter left applied.
    ClearFilter,
    /// The prefix, then `d`, or `Ctrl+P` in the preview: back to the tree.
    BackToTree,
    /// The prefix, then another key: both go to the embedded client.
    ForwardPrefixed,
    /// The prefix alone: wait for the next key.
    ArmPrefix,
    /// Any other key in the preview goes to the embedded client.
    Forward,
}

/// What is left for the caller to do after a key.
#[derive(Debug)]
pub enum KeyEffect {
    Nothing,
    /// The tree or the selection changed: write the state to disk.
    Save,
    /// Write the state to disk, put the pinned tmux options back and exit.
    Quit,
    /// Write the state to disk, leave the loop and attach to this target.
    Attach(String),
    /// Run tmux with these arguments.
    Tmux(Vec<String>),
    /// Write these bytes to the embedded client.
    Send(Vec<u8>),
}

pub open spec fn is_typing(m: InputMode) -> bool {
    m is Renaming || m is RenamingWindow || m is NewSession || m is Filtering
}

/// The action a key stands for, given where the focus is.
pub open spec fn key_action(
    mode: InputMode,
    panel: Panel,
    show_help: bool,
    pending: bool,
    prefix: Prefix,
    key: KeyEvent,
) -> KeyAction {
    let ctrl = key.modifiers.control;
    if is_typing(mode) {
        match key.code {
            KeyCode::Char(c) => if !ctrl { KeyAction::Type(c) } else { KeyAction::Ignore },
            KeyCode::Backspace => KeyAction::Erase,
            KeyCode::Enter => KeyAction::Submit,
            KeyCode::Esc => KeyAction::Cancel,
            _ => KeyAction::Ignore,
        }
    } else if mode is Confirming {
        if key.code == KeyCode::Char('y') || key.code == KeyCode::Char('Y') {
            KeyAction::Confirm
        } else {
            KeyAction::Decline
        }
    } else if key.code == KeyCode::Char('p') && ctrl && panel == Panel::Tree {
        KeyAction::Preview
    } else if panel == Panel::Tree {
        if show_help {
            if key.code == KeyCode::Char('q') || key.code == KeyCode::Esc || key.code == KeyCode::Enter
                || key.code == KeyCode::Char('?') {
                KeyAction::HideHelp
            } else {
                KeyAction::Ignore
            }
        } else {
            match key.code {
                KeyCode::Char('q') => KeyAction::Quit,
                KeyCode::Char('c') => if ctrl { KeyAction::Quit } else { KeyAction::NewWindow },
                KeyCode::Char('?') => KeyAction::Help,
                KeyCode::Enter => KeyAction::Preview,
                KeyCode::Char('a') => KeyAction::Attach,
                KeyCode::Up | KeyCode::Char('k') => KeyAction::Up,
                KeyCode::Down | KeyCode::Char('j') => KeyAction::Down,
                KeyCode::Left | KeyCode::Char('h') => KeyAction::Left,
                KeyCode::Right | KeyCode::Char('l') => KeyAction::Right,
                KeyCode::Char(' ') => KeyAction::Toggle,
                KeyCode::Char('n') => KeyAction::NewSession,
                KeyCode::Char('r') => KeyAction::Rename,
                KeyCode::Char('%') => KeyAction::Split(false),
                KeyCode::Char('"') => KeyAction::Split(true),
                KeyCode::Char('x') => KeyAction::AskKill,
                KeyCode::Char('/') => KeyAction::StartFilter,
                KeyCode::Esc => KeyAction::ClearFilter,
                _ => KeyAction::Ignore,
            }
        }
    } else if pending {
        if key.code == KeyCode::Char('d') && !ctrl {
            KeyAction::BackToTree
        } else {
            KeyAction::ForwardPrefixed
        }
    } else if prefix_matches(prefix, key) {
        KeyAction::ArmPrefix
    } else if key.code == KeyCode::Char('p') && ctrl {
        KeyAction::BackToTree
    } else {
        KeyAction::Forward
    }
}

/// The line being typed, in the modes that type one.
pub open spec fn input_of(m: InputMode) -> Seq<char> {
    match m {
        InputMode::Renaming { input, .. } => input@,
        InputMode::RenamingWindow { input, .. } => input@,
        InputMode::NewSession { input } => input@,
        InputMode::Filtering { input } => input@,
        _ => Seq::empty(),
    }
}

/// `after` is the typing mode `before` with its line replaced by `s`.
pub open spec fn retyped(before: InputMode, after: InputMode, s: Seq<char>) -> bool {
    match (before, after) {
        (InputMode::Renaming { session_id: a, .. }, InputMode::Renaming { session_id: b, input }) => a == b && input@ == s,
        (InputMode::RenamingWindow { window_id: a, .. }, InputMode::RenamingWindow { window_id: b, input }) => a == b
            && input@ == s,
        (InputMode::NewSession { .. }, InputMode::NewSession { input }) => input@ == s,
        (InputMode::Filtering { .. }, InputMode::Filtering { input }) => input@ == s,
        _ => false,
    }
}

/// Everything but the input mode is as in `o`.
pub open spec fn same_but_mode(f: AppState, o: AppState) -> bool {
    f == (AppState { input_mode: f.input_mode, ..o })
}

/// The state after the line being typed is finished: a filter stays applied
/// (none when its line is empty); the other lines only leave their mode.
pub open spec fn submitted(o: AppState) -> AppState {
    match o.input_mode {
        InputMode::Filtering { input } => AppState {
            input_mode: InputMode::TuiNormal,
            filter: if input@.len() == 0 { None } else { Some(input) },
            ..o
        },
        _ => AppState { input_mode: InputMode::TuiNormal, ..o },
    }
}

/// The state after the line being typed is dropped: dropping a filter's
/// line also drops the filter.
pub open spec fn cancelled(o: AppState) -> AppState {
    match o.input_mode {
        InputMode::Filtering { .. } => AppState { input_mode: InputMode::TuiNormal, filter: None, ..o },
        _ => AppState { input_mode: InputMode::TuiNormal, ..o },
    }
}

/// `e` runs tmux with exactly `argv`.
pub open spec fn runs(e: KeyEffect, argv: Seq<Seq<char>>) -> bool {
    e matches KeyEffect::Tmux(v) && strs(v@) == argv
}

/// The command a finished line runs, with the line trimmed: rename the
/// session or the window (when the id and the name pass the checks of
/// [`Actions`]), or create a session with that name; nothing for a line that
/// is blank once trimmed.
pub open spec fn submit_effect(mode: InputMode, e: KeyEffect) -> bool {
    let t = trimmed(input_of(mode));
    if t.len() == 0 {
        e is Nothing
    } else {
        match mode {
            InputMode::Renaming { session_id, .. } => if is_object_id(session_id@, '$') && !name_has_break(t) {
                runs(e, seq!["rename-session"@, "-t"@, session_id@, t])
            } else {
                e is Nothing
            },
            InputMode::RenamingWindow { window_id, .. } => if is_object_id(window_id@, '@') && !name_has_break(t) {
                runs(e, seq!["rename-window"@, "-t"@, window_id@, t])
            } else {
                e is Nothing
            },
            InputMode::NewSession { .. } => runs(e, seq!["new-session"@, "-d"@, "-s"@, t]),
            InputMode::Filtering { .. } => e is Nothing,
            _ => false,
        }
    }
}

/// What a kill of the selection asks, and the command a yes runs: the
/// selected session, window or pane, named by its name (a pane by what the
/// tree shows for it), when its id passes the check of [`Actions`].
pub open spec fn kill_plan(m: TreeModel, sel: Seq<char>) -> Option<(Seq<char>, Seq<Seq<char>>)> {
    if entry_lookup(m.sessions, sel) is Some {
        if is_object_id(sel, '$') {
            Some(("Kill session "@ + entry_lookup(m.sessions, sel).unwrap().name + "?"@, seq!["kill-session"@, "-t"@, sel]))
        } else {
            None
        }
    } else if entry_lookup(m.windows, sel) is Some {
        if is_object_id(sel, '@') {
            Some(("Kill window "@ + entry_lookup(m.windows, sel).unwrap().name + "?"@, seq!["kill-window"@, "-t"@, sel]))
        } else {
            None
        }
    } else if entry_lookup(m.panes, sel) is Some {
        if is_object_id(sel, '%') {
            Some(("Kill pane "@ + display_name(entry_lookup(m.panes, sel).unwrap()) + "?"@, seq!["kill-pane"@, "-t"@, sel]))
        } else {
            None
        }
    } else {
        None
    }
}

/// The session the selection belongs to: the selected session, or the
/// session of the selected window or pane.
pub open spec fn owning_session(m: TreeModel, sel: Seq<char>) -> Option<Seq<char>> {
    if entry_lookup(m.sessions, sel) is Some {
        Some(sel)
    } else if entry_lookup(m.windows, sel) is Some {
        Some(entry_lookup(m.windows, sel).unwrap().session_id)
    } else if entry_lookup(m.panes, sel) is Some && entry_lookup(m.windows, entry_lookup(m.panes, sel).unwrap().window_id) is Some {
        Some(entry_lookup(m.windows, entry_lookup(m.panes, sel).unwrap().window_id).unwrap().session_id)
    } else {
        None
    }
}

/// The name a rename starts from: the session's current name.
pub open spec fn session_name(m: TreeModel, sid: Seq<char>) -> Seq<char> {
    match entry_lookup(m.sessions, sid) {
        Some(s) => s.name,
        None => Seq::empty(),
    }
}

pub open spec fn with_panel(o: AppState, p: Panel) -> AppState {
    AppState { focus: Focus { panel: p, ..o.focus }, ..o }
}

/// A tree move: the model as the move's own contract gives it, everything but
/// the tree and the selection kept, and a save asked for.
pub open spec fn moved(o: AppState, f: AppState, m: TreeModel, e: KeyEffect) -> bool {
    f.model() == m && f.same_settings(&o) && e is Save
}

/// How a key changes the state and the prefix flag, and what it leaves to
/// the caller.
pub open spec fn key_outcome(
    o: AppState,
    f: AppState,
    pending: bool,
    pending_after: bool,
    prefix: Prefix,
    key: KeyEvent,
    has_terminal: bool,
    act: KeyAction,
    e: KeyEffect,
) -> bool {
    match act {
        KeyAction::Type(c) => pending_after == pending && same_but_mode(f, o) && retyped(
            o.input_mode,
            f.input_mode,
            input_of(o.input_mode).push(c),
        ) && e is Nothing,
        KeyAction::Erase => pending_after == pending && same_but_mode(f, o) && retyped(
            o.input_mode,
            f.input_mode,
            if input_of(o.input_mode).len() > 0 { input_of(o.input_mode).drop_last() } else { input_of(o.input_mode) },
        ) && e is Nothing,
        KeyAction::Submit => pending_after == pending && f == submitted(o) && submit_effect(o.input_mode, e),
        KeyAction::Cancel => pending_after == pending && f == cancelled(o) && e is Nothing,
        KeyAction::StartFilter => pending_after == pending && same_but_mode(f, o) && (match f.input_mode {
            InputMode::Filtering { input } => input@ == match o.filter {
                Some(q) => q@,
                None => Seq::empty(),
            },
            _ => false,
        }) && e is Nothing,
        KeyAction::ClearFilter => pending_after == pending && f == (AppState { filter: None, ..o }) && e is Nothing,
        KeyAction::Ignore => pending_after == pending && f == o && e is Nothing,
        KeyAction::Preview => pending_after == pending && f == with_panel(o, Panel::Preview) && e is Nothing,
        KeyAction::HideHelp => pending_after == pending && f == (AppState { show_help: false, ..o }) && e is Nothing,
        KeyAction::Help => pending_after == pending && f == (AppState { show_help: true, ..o }) && e is Nothing,
        KeyAction::Quit => pending_after == pending && f == o && e is Quit,
        KeyAction::Attach => pending_after == pending && match o.focus.selected_id {
            Some(sel) => f == (AppState { last_target_id: Some(sel), ..o }) && (match e {
                KeyEffect::Attach(t) => t@ == sel@,
                _ => false,
            }),
            None => f == o && e is Nothing,
        },
        KeyAction::Up => pending_after == pending && moved(
            o,
            f,
            TreeModel { selected: selection_up(shown_rows(o), o.model().selected), ..o.model() },
            e,
        ),
        KeyAction::Down => pending_after == pending && moved(
            o,
            f,
            TreeModel { selected: selection_down(shown_rows(o), o.model().selected), ..o.model() },
            e,
        ),
        KeyAction::Left => pending_after == pending && moved(o, f, nav_left_model(o.model()), e),
        KeyAction::Right => pending_after == pending && moved(o, f, nav_right_model(o.model()), e),
        KeyAction::Toggle => pending_after == pending && moved(o, f, toggle_model(o.model()), e),
        KeyAction::NewSession => pending_after == pending && same_but_mode(f, o) && (match f.input_mode {
            InputMode::NewSession { input } => input@.len() == 0,
            _ => false,
        }) && e is Nothing,
        KeyAction::Rename => pending_after == pending && e is Nothing && match o.model().selected {
            Some(sel) => if entry_lookup(o.model().sessions, sel) is None && entry_lookup(o.model().windows, sel) is Some {
                same_but_mode(f, o) && (match f.input_mode {
                    InputMode::RenamingWindow { window_id, input } => window_id@ == sel && input@ == entry_lookup(
                        o.model().windows,
                        sel,
                    ).unwrap().name,
                    _ => false,
                })
            } else {
                match owning_session(o.model(), sel) {
                    Some(sid) => same_but_mode(f, o) && (match f.input_mode {
                        InputMode::Renaming { session_id, input } => session_id@ == sid && input@ == session_name(
                            o.model(),
                            sid,
                        ),
                        _ => false,
                    }),
                    None => f == o,
                }
            },
            None => f == o,
        },
        KeyAction::NewWindow => pending_after == pending && f == o && match o.model().selected {
            Some(sel) => match owning_session(o.model(), sel) {
                Some(sid) => if is_object_id(sid, '$') {
                    runs(e, seq!["new-window"@, "-t"@, sid, "-P"@, "-F"@, "#{window_id}"@])
                } else {
                    e is Nothing
                },
                None => e is Nothing,
            },
            None => e is Nothing,
        },
        KeyAction::Split(below) => pending_after == pending && f == o && match o.model().selected {
            Some(sel) => if entry_lookup(o.model().panes, sel) is Some && is_object_id(sel, '%') {
                runs(e, seq!["split-window"@, if below { "-v"@ } else { "-h"@ }, "-t"@, sel, "-P"@, "-F"@, "#{pane_id}"@])
            } else {
                e is Nothing
            },
            None => e is Nothing,
        },
        KeyAction::AskKill => pending_after == pending && e is Nothing && match o.model().selected {
            Some(sel) => match kill_plan(o.model(), sel) {
                Some((question, argv)) => same_but_mode(f, o) && (match f.input_mode {
                    InputMode::Confirming { prompt, command } => prompt@ == question && strs(command@) == argv,
                    _ => false,
                }),
                None => f == o,
            },
            None => f == o,
        },
        KeyAction::Confirm => pending_after == pending && f == (AppState { input_mode: InputMode::TuiNormal, ..o })
            && match o.input_mode {
            InputMode::Confirming { command, .. } => runs(e, strs(command@)),
            _ => e is Nothing,
        },
        KeyAction::Decline => pending_after == pending && f == (AppState { input_mode: InputMode::TuiNormal, ..o })
            && e is Nothing,
        KeyAction::BackToTree => !pending_after && f == with_panel(o, Panel::Tree) && e is Nothing,
        KeyAction::ForwardPrefixed => !pending_after && f == o && (if has_terminal {
            match e {
                KeyEffect::Send(b) => b@ == seq![prefix.byte] + key_bytes(key),
                _ => false,
            }
        } else {
            e is Nothing
        }),
        KeyAction::ArmPrefix => pending_after && f == o && e is Nothing,
        KeyAction::Forward => pending_after == pending && f == o && (if has_terminal && key_bytes(key).len() > 0 {
            match e {
                KeyEffect::Send(b) => b@ == key_bytes(key),
                _ => false,
            }
        } else {
            e is Nothing
        }),
    }
}

/// Replaces the line being typed: one more character, or one fewer.
fn edit_input(state: &mut AppState, add: Option<char>)
    requires
        is_typing(old(state).input_mode),
    ensures
        same_but_mode(*final(state), *old(state)),
        retyped(
            old(state).input_mode,
            final(state).input_mode,
            match add {
                Some(c) => input_of(old(state).input_mode).push(c),
                None => if input_of(old(state).input_mode).len() > 0 {
                    input_of(old(state).input_mode).drop_last()
                } else {
                    input_of(old(state).input_mode)
                },
            },
        ),
{
    let mut mode = InputMode::TuiNormal;
    std::mem::swap(&mut mode, &mut state.input_mode);
    let new_mode = match mode {
        InputMode::Renaming { session_id, input } => InputMode::Renaming { session_id, input: edited(input, add) },
        InputMode::RenamingWindow { window_id, input } => InputMode::RenamingWindow {
            window_id,
            input: edited(input, add),
        },
        InputMode::NewSession { input } => InputMode::NewSession { input: edited(input, add) },
        InputMode::Filtering { input } => InputMode::Filtering { input: edited(input, add) },
        other => other,
    };
    state.input_mode = new_mode;
}

fn edited(s: String, add: Option<char>) -> (r: String)
    ensures
        r@ == match add {
            Some(c) => s@.push(c),
            None => if s@.len() > 0 { s@.drop_last() } else { s@ },
        },
{
    match add {
        Some(c) => {
            let mut s = s;
            push_char(&mut s, c);
            s
        },
        None => {
            let mut v = chars_of(s.as_str());
            if v.len() > 0 {
                v.pop();
            }
            string_of(v.as_slice())
        },
    }
}

fn push_arg(v: &mut Vec<String>, a: String)
    ensures
        strs(final(v)@) == strs(old(v)@).push(a@),
{
    let ghost before = v@;
    v.push(a);
    assert(strs(v@) =~= strs(before).push(a@));
}

/// The effect of a checked command: run it, or nothing when it was refused.
fn run_checked(r: Result<Vec<String>, crate::actions::ActionError>) -> (e: KeyEffect)
    ensures
        match r {
            Ok(v) => e matches KeyEffect::Tmux(w) && w == v,
            Err(_) => e is Nothing,
        },
{
    match r {
        Ok(v) => KeyEffect::Tmux(v),
        Err(_) => KeyEffect::Nothing,
    }
}

/// Finishes the line being typed.
fn submit(state: &mut AppState) -> (e: KeyEffect)
    requires
        is_typing(old(state).input_mode),
    ensures
        *final(state) == submitted(*old(state)),
        submit_effect(old(state).input_mode, e),
{
    let mut mode = InputMode::TuiNormal;
    std::mem::swap(&mut mode, &mut state.input_mode);
    match mode {
        InputMode::Filtering { input } => {
            if input.as_str().unicode_len() == 0 {
                state.filter = None;
            } else {
                state.filter = Some(input);
            }
            KeyEffect::Nothing
        },
        InputMode::Renaming { session_id, input } => {
            let t = string_of(trim(chars_of(input.as_str()).as_slice()).as_slice());
            if t.as_str().unicode_len() == 0 {
                return KeyEffect::Nothing;
            }
            run_checked(Actions::rename_session(session_id.as_str(), t.as_str()))
        },
        InputMode::RenamingWindow { window_id, input } => {
            let t = string_of(trim(chars_of(input.as_str()).as_slice()).as_slice());
            if t.as_str().unicode_len() == 0 {
                return KeyEffect::Nothing;
            }
            run_checked(Actions::rename_window(window_id.as_str(), t.as_str()))
        },
        InputMode::NewSession { input } => {
            let t = trim(chars_of(input.as_str()).as_slice());
            if t.len() == 0 {
                return KeyEffect::Nothing;
            }
            let mut v: Vec<String> = Vec::new();
            push_arg(&mut v, owned("new-session"));
            push_arg(&mut v, owned("-d"));
            push_arg(&mut v, owned("-s"));
            push_arg(&mut v, string_of(t.as_slice()));
            assert(strs(v@) =~= seq!["new-session"@, "-d"@, "-s"@, trimmed(input@)]);
            KeyEffect::Tmux(v)
        },
        _ => KeyEffect::Nothing,
    }
}

/// The session `sel` belongs to: see [`owning_session`].
fn owning_session_of(state: &AppState, sel: &str) -> (r: Option<String>)
    ensures
        match r {
            Some(sid) => owning_session(state.model(), sel@) == Some(sid@),
            None => owning_session(state.model(), sel@) is None,
        },
{
    if session_map_contains_key(&state.sessions, sel) {
        return Some(owned(sel));
    }
    match window_map_get(&state.windows, sel) {
        Some(w) => Some(w.session_id.clone()),
        None => match pane_map_get(&state.panes, sel) {
            Some(p) => match window_map_get(&state.windows, p.window_id.as_str()) {
                Some(w) => Some(w.session_id.clone()),
                None => None,
            },
            None => None,
        },
    }
}

/// Starts a rename: of the selected window, from its name; otherwise of the
/// selected session (or of the session of the selected pane), from the
/// session's name.
fn start_rename(state: &mut AppState)
    ensures
        match old(state).model().selected {
            Some(sel) => if entry_lookup(old(state).model().sessions, sel) is None && entry_lookup(
                old(state).model().windows,
                sel,
            ) is Some {
                same_but_mode(*final(state), *old(state)) && (match final(state).input_mode {
                    InputMode::RenamingWindow { window_id, input } => window_id@ == sel && input@ == entry_lookup(
                        old(state).model().windows,
                        sel,
                    ).unwrap().name,
                    _ => false,
                })
            } else {
                match owning_session(old(state).model(), sel) {
                    Some(sid) => same_but_mode(*final(state), *old(state)) && (match final(state).input_mode {
                        InputMode::Renaming { session_id, input } => session_id@ == sid && input@ == session_name(
                            old(state).model(),
                            sid,
                        ),
                        _ => false,
                    }),
                    None => *final(state) == *old(state),
                }
            },
            None => *final(state) == *old(state),
        },
{
    let sel = match &state.focus.selected_id {
        Some(s) => s.clone(),
        None => return,
    };
    if !session_map_contains_key(&state.sessions, sel.as_str()) {
        let window_name = match window_map_get(&state.windows, sel.as_str()) {
            Some(w) => Some(w.name.clone()),
            None => None,
        };
        if let Some(name) = window_name {
            state.input_mode = InputMode::RenamingWindow { window_id: sel, input: name };
            return;
        }
    }
    let sid = match owning_session_of(state, sel.as_str()) {
        Some(sid) => sid,
        None => return,
    };
    let name = match session_map_get(&state.sessions, sid.as_str()) {
        Some(s) => s.name.clone(),
        None => string_of(Vec::new().as_slice()),
    };
    state.input_mode = InputMode::Renaming { session_id: sid, input: name };
}

/// `what`, then `name`, then a question mark.
fn question(what: &str, name: &str) -> (q: String)
    ensures
        q@ == what@ + name@ + "?"@,
{
    let mut v = chars_of(what);
    extend_chars(&mut v, chars_of(name).as_slice());
    v.push('?');
    proof {
        reveal_strlit("?");
    }
    assert(v@ =~= what@ + name@ + "?"@);
    string_of(v.as_slice())
}

/// Asks before killing the selection: see [`kill_plan`].
fn ask_kill(state: &mut AppState)
    ensures
        match old(state).model().selected {
            Some(sel) => match kill_plan(old(state).model(), sel) {
                Some((q, argv)) => same_but_mode(*final(state), *old(state)) && (match final(state).input_mode {
                    InputMode::Confirming { prompt, command } => prompt@ == q && strs(command@) == argv,
                    _ => false,
                }),
                None => *final(state) == *old(state),
            },
            None => *final(state) == *old(state),
        },
{
    let sel = match &state.focus.selected_id {
        Some(s) => s.clone(),
        None => return,
    };
    let asked: Option<(String, Result<Vec<String>, crate::actions::ActionError>)> = match session_map_get(
        &state.sessions,
        sel.as_str(),
    ) {
        Some(s) => Some((question("Kill session ", s.name.as_str()), Actions::kill_session(sel.as_str()))),
        None => match window_map_get(&state.windows, sel.as_str()) {
            Some(w) => Some((question("Kill window ", w.name.as_str()), Actions::kill_window(sel.as_str()))),
            None => match pane_map_get(&state.panes, sel.as_str()) {
                Some(p) => Some((question("Kill pane ", pane_name(p).as_str()), Actions::kill_pane(sel.as_str()))),
                None => None,
            },
        },
    };
    match asked {
        Some((prompt, Ok(command))) => {
            state.input_mode = InputMode::Confirming { prompt, command };
        },
        _ => {},
    }
}

/// Creates a window in the session of the selection.
fn new_window_effect(state: &AppState) -> (e: KeyEffect)
    ensures
        match state.model().selected {
            Some(sel) => match owning_session(state.model(), sel) {
                Some(sid) => if is_object_id(sid, '$') {
                    runs(e, seq!["new-window"@, "-t"@, sid, "-P"@, "-F"@, "#{window_id}"@])
                } else {
                    e is Nothing
                },
                None => e is Nothing,
            },
            None => e is Nothing,
        },
{
    let sel = match &state.focus.selected_id {
        Some(s) => s,
        None => return KeyEffect::Nothing,
    };
    match owning_session_of(state, sel.as_str()) {
        Some(sid) => run_checked(Actions::new_window(sid.as_str())),
        None => KeyEffect::Nothing,
    }
}

/// Splits the selected pane.
fn split_effect(state: &AppState, below: bool) -> (e: KeyEffect)
    ensures
        match state.model().selected {
            Some(sel) => if entry_lookup(state.model().panes, sel) is Some && is_object_id(sel, '%') {
                runs(e, seq!["split-window"@, if below { "-v"@ } else { "-h"@ }, "-t"@, sel, "-P"@, "-F"@, "#{pane_id}"@])
            } else {
                e is Nothing
            },
            None => e is Nothing,
        },
{
    let sel = match &state.focus.selected_id {
        Some(s) => s,
        None => return KeyEffect::Nothing,
    };
    match pane_map_get(&state.panes, sel.as_str()) {
        Some(_) => run_checked(Actions::split_pane(sel.as_str(), below)),
        None => KeyEffect::Nothing,
    }
}

/// Handles a key: updates the state and the prefix flag, and says what is
/// left to do. `has_terminal` is whether an embedded client is running.
pub fn handle_key(
    state: &mut AppState,
    key: &KeyEvent,
    prefix: Prefix,
    prefix_pending: &mut bool,
    has_terminal: bool,
) -> (e: KeyEffect)
    ensures
        key_outcome(
            *old(state),
            *final(state),
            *old(prefix_pending),
            *final(prefix_pending),
            prefix,
            *key,
            has_terminal,
            key_action(
                old(state).input_mode,
                old(state).focus.panel,
                old(state).show_help,
                *old(prefix_pending),
                prefix,
                *key,
            ),
            e,
        ),
{
    let ctrl = key.modifiers.control;
    let typing = match &state.input_mode {
        InputMode::Renaming { .. } | InputMode::RenamingWindow { .. } | InputMode::NewSession { .. }
        | InputMode::Filtering { .. } => true,
        _ => false,
    };
    if typing {
        return match key.code {
            KeyCode::Char(c) => {
                if !ctrl {
                    edit_input(state, Some(c));
                }
                KeyEffect::Nothing
            },
            KeyCode::Backspace => {
                edit_input(state, None);
                KeyEffect::Nothing
            },
            KeyCode::Enter => submit(state),
            KeyCode::Esc => {
                if let InputMode::Filtering { .. } = &state.input_mode {
                    state.filter = None;
                }
                state.input_mode = InputMode::TuiNormal;
                KeyEffect::Nothing
            },
            _ => KeyEffect::Nothing,
        };
    }
    let asking = match &state.input_mode {
        InputMode::Confirming { .. } => true,
        _ => false,
    };
    if asking {
        let mut mode = InputMode::TuiNormal;
        std::mem::swap(&mut mode, &mut state.input_mode);
        if key.code == KeyCode::Char('y') || key.code == KeyCode::Char('Y') {
            if let InputMode::Confirming { command, .. } = mode {
                return KeyEffect::Tmux(command);
            }
        }
        return KeyEffect::Nothing;
    }
    if key.code == KeyCode::Char('p') && ctrl && state.focus.panel == Panel::Tree {
        state.focus.panel = Panel::Preview;
        return KeyEffect::Nothing;
    }
    if state.focus.panel == Panel::Tree {
        if state.show_help {
            if key.code == KeyCode::Char('q') || key.code == KeyCode::Esc || key.code == KeyCode::Enter
                || key.code == KeyCode::Char('?') {
                state.show_help = false;
            }
            return KeyEffect::Nothing;
        }
        return match key.code {
            KeyCode::Char('q') => KeyEffect::Quit,
            KeyCode::Char('c') => if ctrl { KeyEffect::Quit } else { new_window_effect(state) },
            KeyCode::Char('?') => {
                state.show_help = true;
                KeyEffect::Nothing
            },
            KeyCode::Enter => {
                state.focus.panel = Panel::Preview;
                KeyEffect::Nothing
            },
            KeyCode::Char('a') => {
                match &state.focus.selected_id {
                    Some(sel) => {
                        let target = sel.clone();
                        state.last_target_id = Some(sel.clone());
                        KeyEffect::Attach(target)
                    },
                    None => KeyEffect::Nothing,
                }
            },
            KeyCode::Up | KeyCode::Char('k') => {
                let rows = state.filtered_rows();
                state.step_up_in(&rows);
                KeyEffect::Save
            },
            KeyCode::Down | KeyCode::Char('j') => {
                let rows = state.filtered_rows();
                state.step_down_in(&rows);
                KeyEffect::Save
            },
            KeyCode::Left | KeyCode::Char('h') => {
                state.switch_nav_left();
                KeyEffect::Save
            },
            KeyCode::Right | KeyCode::Char('l') => {
                state.switch_nav_right();
                KeyEffect::Save
            },
            KeyCode::Char(' ') => {
                state.toggle_expansion();
                KeyEffect::Save
            },
            KeyCode::Char('n') => {
                state.input_mode = InputMode::NewSession { input: string_of(Vec::new().as_slice()) };
                KeyEffect::Nothing
            },
            KeyCode::Char('r') => {
                start_rename(state);
                KeyEffect::Nothing
            },
            KeyCode::Char('%') => split_effect(state, false),
            KeyCode::Char('"') => split_effect(state, true),
            KeyCode::Char('x') => {
                ask_kill(state);
                KeyEffect::Nothing
            },
            KeyCode::Char('/') => {
                let start = match &state.filter {
                    Some(q) => q.clone(),
                    None => string_of(Vec::new().as_slice()),
                };
                state.input_mode = InputMode::Filtering { input: start };
                KeyEffect::Nothing
            },
            KeyCode::Esc => {
                state.filter = None;
                KeyEffect::Nothing
            },
            _ => KeyEffect::Nothing,
        };
    }
    if *prefix_pending {
        *prefix_pending = false;
        if key.code == KeyCode::Char('d') && !ctrl {
            state.focus.panel = Panel::Tree;
            return KeyEffect::Nothing;
        }
        if has_terminal {
            let mut bytes: Vec<u8> = Vec::new();
            bytes.push(prefix.byte);
            encode_key(key, &mut bytes);
            return KeyEffect::Send(bytes);
        }
        return KeyEffect::Nothing;
    }
    if prefix.matches(key) {
        *prefix_pending = true;
        return KeyEffect::Nothing;
    }
    if key.code == KeyCode::Char('p') && ctrl {
        state.focus.panel = Panel::Tree;
        return KeyEffect::Nothing;
    }
    if has_terminal {
        let mut bytes: Vec<u8> = Vec::new();
        encode_key(key, &mut bytes);
        assert(bytes@ =~= key_bytes(*key));
        if bytes.len() > 0 {
            return KeyEffect::Send(bytes);
        }
    }
    KeyEffect::Nothing
}


/// The commands that destroy a session, a window or a pane.
pub open spec fn is_kill_command(argv: Seq<Seq<char>>) -> bool {
    argv.len() > 0 && (argv[0] == "kill-session"@ || argv[0] == "kill-window"@ || argv[0] == "kill-pane"@)
}

/// Kills ask first: a key runs a kill only when a question is being asked
/// and the key is `y` or `Y`; the question itself is posed with no command
/// run.
pub proof fn kills_ask_first(
    o: AppState,
    f: AppState,
    pending: bool,
    pending_after: bool,
    prefix: Prefix,
    key: KeyEvent,
    has_terminal: bool,
    e: KeyEffect,
)
    requires
        key_outcome(
            o,
            f,
            pending,
            pending_after,
            prefix,
            key,
            has_terminal,
            key_action(o.input_mode, o.focus.panel, o.show_help, pending, prefix, key),
            e,
        ),
        e matches KeyEffect::Tmux(v) && is_kill_command(strs(v@)),
    ensures
        o.input_mode is Confirming,
        key.code == KeyCode::Char('y') || key.code == KeyCode::Char('Y'),
{
    reveal_strlit("kill-session");
    reveal_strlit("kill-window");
    reveal_strlit("kill-pane");
    reveal_strlit("rename-session");
    reveal_strlit("rename-window");
    reveal_strlit("new-session");
    reveal_strlit("new-window");
    reveal_strlit("split-window");
    if let KeyEffect::Tmux(v) = e {
        assert(strs(v@)[0][0] == 'k');
    }
}


// ---------------------------------------------------------------------------
// Pastes.

/// Line breaks as the embedded client should get them: each CR LF, and each
/// lone CR, becomes a single LF.
pub open spec fn normalized_breaks(s: Seq<char>) -> Seq<char>
    decreases s.len(),
{
    if s.len() == 0 {
        Seq::empty()
    } else if s[0] == '\r' && s.len() > 1 && s[1] == '\n' {
        seq!['\n'] + normalized_breaks(s.skip(2))
    } else if s[0] == '\r' {
        seq!['\n'] + normalized_breaks(s.skip(1))
    } else {
        seq![s[0]] + normalized_breaks(s.skip(1))
    }
}

/// The text without its line breaks.
pub open spec fn without_breaks(s: Seq<char>) -> Seq<char>
    decreases s.len(),
{
    if s.len() == 0 {
        Seq::empty()
    } else if s.last() != '\n' && s.last() != '\r' {
        without_breaks(s.drop_last()).push(s.last())
    } else {
        without_breaks(s.drop_last())
    }
}

/// The UTF-8 bytes of a string.
pub open spec fn utf8_bytes(s: Seq<char>) -> Seq<u8>
    decreases s.len(),
{
    if s.len() == 0 {
        Seq::empty()
    } else {
        utf8_bytes(s.drop_last()) + utf8(s.last())
    }
}

fn normalize_breaks(s: &[char]) -> (r: Vec<char>)
    ensures
        r@ == normalized_breaks(s@),
{
    let mut out: Vec<char> = Vec::new();
    let mut i: usize = 0;
    assert(s@.skip(0) =~= s@);
    assert(out@ + normalized_breaks(s@) =~= normalized_breaks(s@));
    while i < s.len()
        invariant
            i <= s.len(),
            out@ + normalized_breaks(s@.skip(i as int)) == normalized_breaks(s@),
        decreases s.len() - i,
    {
        let ghost rest = s@.skip(i as int);
        assert(rest[0] == s@[i as int]);
        if s[i] == '\r' && i + 1 < s.len() && s[i + 1] == '\n' {
            assert(rest[1] == s@[i + 1]);
            assert(rest.skip(2) =~= s@.skip(i + 2));
            out.push('\n');
            i = i + 2;
        } else if s[i] == '\r' {
            assert(rest.skip(1) =~= s@.skip(i + 1));
            out.push('\n');
            i = i + 1;
        } else {
            assert(rest.skip(1) =~= s@.skip(i + 1));
            out.push(s[i]);
            i = i + 1;
        }
        assert(out@ + normalized_breaks(s@.skip(i as int)) =~= normalized_breaks(s@));
    }
    assert(s@.skip(i as int) =~= Seq::<char>::empty());
    assert(out@ + Seq::<char>::empty() =~= out@);
    out
}

fn encode_utf8(s: &[char]) -> (r: Vec<u8>)
    ensures
        r@ == utf8_bytes(s@),
{
    let mut out: Vec<u8> = Vec::new();
    let mut i: usize = 0;
    while i < s.len()
        invariant
            i <= s.len(),
            out@ == utf8_bytes(s@.take(i as int)),
        decreases s.len() - i,
    {
        assert(s@.take(i + 1).drop_last() =~= s@.take(i as int));
        push_utf8(&mut out, s[i]);
        i = i + 1;
    }
    assert(s@.take(i as int) =~= s@);
    out
}

fn push_without_breaks(input: String, text: &[char]) -> (r: String)
    ensures
        r@ == input@ + without_breaks(text@),
{
    let mut r = input;
    let ghost start = r@;
    let mut i: usize = 0;
    while i < text.len()
        invariant
            i <= text.len(),
            r@ == start + without_breaks(text@.take(i as int)),
        decreases text.len() - i,
    {
        let c = text[i];
        assert(text@.take(i + 1).drop_last() =~= text@.take(i as int));
        assert(text@.take(i + 1).last() == c);
        let ghost w = without_breaks(text@.take(i as int));
        assert(without_breaks(text@.take(i + 1)) == if c != '\n' && c != '\r' { w.push(c) } else { w });
        if c != '\n' && c != '\r' {
            push_char(&mut r, c);
            assert(start + w.push(c) =~= (start + w).push(c));
        }
        i = i + 1;
    }
    assert(text@.take(i as int) =~= text@);
    r
}

/// What a paste does: in the preview, the text goes to the embedded client
/// with its line breaks made LFs; while a name is being typed it is added to
/// the line without its line breaks; otherwise nothing.
pub open spec fn paste_outcome(o: AppState, f: AppState, text: Seq<char>, has_terminal: bool, send: Option<Vec<u8>>) -> bool {
    if o.focus.panel == Panel::Preview {
        f == o && (if has_terminal {
            send matches Some(b) && b@ == utf8_bytes(normalized_breaks(text))
        } else {
            send is None
        })
    } else if is_typing(o.input_mode) {
        same_but_mode(f, o) && retyped(o.input_mode, f.input_mode, input_of(o.input_mode) + without_breaks(text))
            && send is None
    } else {
        f == o && send is None
    }
}

/// Handles a paste. Pastes are not wrapped in bracketed-paste markers.
pub fn handle_paste(state: &mut AppState, text: &str, has_terminal: bool) -> (send: Option<Vec<u8>>)
    ensures
        paste_outcome(*old(state), *final(state), text@, has_terminal, send),
{
    let cs = chars_of(text);
    if state.focus.panel == Panel::Preview {
        if has_terminal {
            let n = normalize_breaks(cs.as_slice());
            return Some(encode_utf8(n.as_slice()));
        }
        return None;
    }
    let typing = match &state.input_mode {
        InputMode::Renaming { .. } | InputMode::RenamingWindow { .. } | InputMode::NewSession { .. }
        | InputMode::Filtering { .. } => true,
        _ => false,
    };
    if typing {
        let mut mode = InputMode::TuiNormal;
        std::mem::swap(&mut mode, &mut state.input_mode);
        let new_mode = match mode {
            InputMode::Renaming { session_id, input } => InputMode::Renaming {
                session_id,
                input: push_without_breaks(input, cs.as_slice()),
            },
            InputMode::RenamingWindow { window_id, input } => InputMode::RenamingWindow {
                window_id,
                input: push_without_breaks(input, cs.as_slice()),
            },
            InputMode::NewSession { input } => InputMode::NewSession { input: push_without_breaks(input, cs.as_slice()) },
            InputMode::Filtering { input } => InputMode::Filtering { input: push_without_breaks(input, cs.as_slice()) },
            other => other,
        };
        state.input_mode = new_mode;
    }
    None
}

// ---------------------------------------------------------------------------
// The mouse.

/// What a mouse event asks of the state.
#[derive(Clone, Copy, Debug, PartialEq, Eq, Structural)]
pub enum MouseAction {
    /// A press on the separator starts dragging it.
    StartDrag,
    /// Dragging the separator: the sidebar becomes this wide.
    Resize(u16),
    /// Releasing the separator.
    EndDrag,
    /// A click on the tree row at this index of the visible rows.
    Pick(usize),
    /// The wheel over the tree moves the selection.
    ScrollUp,
    ScrollDown,
    /// The event goes to the embedded client, clamped to its grid.
    Forward(MouseEvent),
    Ignore,
}

/// The separator column sits at the sidebar's last column; a press within
/// one column of it grabs it.
pub open spec fn near_separator(sidebar_cols: u16, column: u16) -> bool {
    let sep = sat_sub(sidebar_cols, 1);
    -1 <= column - sep <= 1
}

/// The sidebar width a drag to `column` gives: one past the pointer, at
/// least 8, at most the screen width less 20 (the last bound wins).
pub open spec fn dragged_width(column: u16, width: u16) -> u16 {
    let w = if column + 1 < 8 { 8 } else { column + 1 };
    let max = sat_sub(width, 20);
    (if w > max { max } else { w }) as u16
}

/// The embedded client's grid: rows, columns and the mouse tracking it asked
/// for; `None` when there is no client.
pub open spec fn mouse_action(
    dragging: bool,
    sidebar_cols: u16,
    width: u16,
    height: u16,
    scroll: usize,
    mouse: MouseEvent,
    grid: Option<(u16, u16, MouseProtocolMode)>,
) -> MouseAction {
    let left_down = mouse.kind == MouseEventKind::Down(MouseButton::Left);
    if left_down && near_separator(sidebar_cols, mouse.column) {
        MouseAction::StartDrag
    } else if mouse.kind == MouseEventKind::Drag(MouseButton::Left) && dragging {
        MouseAction::Resize(dragged_width(mouse.column, width))
    } else if mouse.kind == MouseEventKind::Up(MouseButton::Left) && dragging {
        MouseAction::EndDrag
    } else if mouse.column < sidebar_cols {
        if left_down {
            if 1 <= mouse.row < sat_sub(height, 1) {
                MouseAction::Pick((mouse.row - 1 + scroll) as usize)
            } else {
                MouseAction::Ignore
            }
        } else if mouse.kind == MouseEventKind::ScrollUp {
            MouseAction::ScrollUp
        } else if mouse.kind == MouseEventKind::ScrollDown {
            MouseAction::ScrollDown
        } else {
            MouseAction::Ignore
        }
    } else {
        match grid {
            Some((rows, cols, mode)) => if rows > 0 && cols > 0 && forwards_mouse(mouse.kind, mode) {
                MouseAction::Forward(
                    MouseEvent {
                        row: if mouse.row > rows - 1 { (rows - 1) as u16 } else { mouse.row },
                        column: if mouse.column > sidebar_cols + cols - 1 {
                            (sidebar_cols + cols - 1) as u16
                        } else {
                            mouse.column
                        },
                        ..mouse
                    },
                )
            } else {
                MouseAction::Ignore
            },
            None => MouseAction::Ignore,
        }
    }
}

/// What is left for the caller after a mouse event.
#[derive(Debug)]
pub struct MouseEffect {
    /// Write the state to disk.
    pub save: bool,
    /// Bytes for the embedded client.
    pub send: Option<Vec<u8>>,
}

pub open spec fn mouse_outcome(
    o: AppState,
    f: AppState,
    dragging: bool,
    dragging_after: bool,
    sidebar_cols: u16,
    act: MouseAction,
    e: MouseEffect,
) -> bool {
    match act {
        MouseAction::StartDrag => dragging_after && f == o && !e.save && e.send is None,
        MouseAction::Resize(w) => dragging_after == dragging && f == (AppState { sidebar_cols: w, ..o }) && e.save
            && e.send is None,
        MouseAction::EndDrag => !dragging_after && f == o && !e.save && e.send is None,
        MouseAction::Pick(i) => dragging_after == dragging && e.send is None && if 0 <= i < shown_rows(o).len() {
            f.model() == (TreeModel { selected: Some(shown_rows(o)[i as int]), ..o.model() }) && f.same_settings(&o)
                && e.save
        } else {
            f == o && !e.save
        },
        MouseAction::ScrollUp => dragging_after == dragging && e.send is None && e.save && f.model() == (TreeModel {
            selected: selection_up(shown_rows(o), o.model().selected),
            ..o.model()
        }) && f.same_settings(&o),
        MouseAction::ScrollDown => dragging_after == dragging && e.send is None && e.save && f.model() == (TreeModel {
            selected: selection_down(shown_rows(o), o.model().selected),
            ..o.model()
        }) && f.same_settings(&o),
        MouseAction::Forward(m) => dragging_after == dragging && f == o && !e.save && match sgr_report(m, sidebar_cols, 0) {
            Some(b) => e.send matches Some(v) && v@ == b,
            None => e.send is None,
        },
        MouseAction::Ignore => dragging_after == dragging && f == o && !e.save && e.send is None,
    }
}

/// Handles a mouse event on a `width` by `height` screen: the separator
/// drag first, then the tree, then the embedded client described by `grid`.
pub fn handle_mouse(
    state: &mut AppState,
    mouse: &MouseEvent,
    dragging: &mut bool,
    width: u16,
    height: u16,
    grid: Option<(u16, u16, MouseProtocolMode)>,
) -> (e: MouseEffect)
    requires
        mouse.column < u16::MAX,
        old(state).focus.scroll_offset <= usize::MAX - 65536,
        grid matches Some((rows, cols, mode)) ==> old(state).sidebar_cols + cols <= u16::MAX + 1,
    ensures
        mouse_outcome(
            *old(state),
            *final(state),
            *old(dragging),
            *final(dragging),
            old(state).sidebar_cols,
            mouse_action(
                *old(dragging),
                old(state).sidebar_cols,
                width,
                height,
                old(state).focus.scroll_offset,
                *mouse,
                grid,
            ),
            e,
        ),
{
    let sidebar = state.sidebar_cols;
    let sep: u16 = if sidebar >= 1 { sidebar - 1 } else { 0 };
    let near = if mouse.column >= sep { mouse.column - sep <= 1 } else { sep - mouse.column <= 1 };
    let left_down = mouse.kind == MouseEventKind::Down(MouseButton::Left);
    if left_down && near {
        *dragging = true;
        return MouseEffect { save: false, send: None };
    }
    if mouse.kind == MouseEventKind::Drag(MouseButton::Left) && *dragging {
        let w: u16 = if mouse.column + 1 < 8 { 8 } else { mouse.column + 1 };
        let max: u16 = if width >= 20 { width - 20 } else { 0 };
        state.sidebar_cols = if w > max { max } else { w };
        return MouseEffect { save: true, send: None };
    }
    if mouse.kind == MouseEventKind::Up(MouseButton::Left) && *dragging {
        *dragging = false;
        return MouseEffect { save: false, send: None };
    }
    if mouse.column < sidebar {
        if left_down {
            let bottom: u16 = if height >= 1 { height - 1 } else { 0 };
            if mouse.row >= 1 && mouse.row < bottom {
                let idx: usize = (mouse.row - 1) as usize + state.focus.scroll_offset;
                let visible = state.filtered_rows();
                if idx < visible.len() {
                    assert(strs(visible@)[idx as int] == visible@[idx as int]@);
                    state.focus.selected_id = Some(visible[idx].clone());
                    return MouseEffect { save: true, send: None };
                }
            }
            return MouseEffect { save: false, send: None };
        }
        if mouse.kind == MouseEventKind::ScrollUp {
            let rows = state.filtered_rows();
            state.step_up_in(&rows);
            return MouseEffect { save: true, send: None };
        }
        if mouse.kind == MouseEventKind::ScrollDown {
            let rows = state.filtered_rows();
            state.step_down_in(&rows);
            return MouseEffect { save: true, send: None };
        }
        return MouseEffect { save: false, send: None };
    }
    match grid {
        Some((rows, cols, mode)) => {
            if rows > 0 && cols > 0 && should_forward_mouse(&mouse.kind, mode) {
                let last_col: u16 = (sidebar as u32 + cols as u32 - 1) as u16;
                let m = MouseEvent {
                    kind: mouse.kind,
                    row: if mouse.row > rows - 1 { rows - 1 } else { mouse.row },
                    column: if mouse.column > last_col { last_col } else { mouse.column },
                    modifiers: mouse.modifiers,
                };
                let send = encode_mouse(&m, sidebar, 0);
                return MouseEffect { save: false, send };
            }
            MouseEffect { save: false, send: None }
        },
        None => MouseEffect { save: false, send: None },
    }
}

} // verus!
