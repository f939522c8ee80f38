use vstd::prelude::*;
use vstd::utf8::{decode_utf8, valid_utf8};

use crate::state::strs;
use crate::text::{chars_of, decode_lossy, is_ascii_digit, lossy_text, owned, trim_str, trimmed};

verus! {

/// Mutating tmux commands: everything that creates, renames or destroys a
/// session, window or pane. Each method checks its target and returns the
/// exact argument vector to hand to `tmux`; the caller runs it.
pub struct Actions;

/// Why a mutating tmux command was refused or failed.
#[derive(Debug)]
pub enum ActionError {
    /// `got` is not a literal tmux id of the `kind` whose sigil is `sigil`.
    BadId { kind: String, sigil: char, got: String },
    /// A name was empty.
    EmptyName,
    /// A name held a newline, a carriage return or a NUL.
    NameHasBreak,
    /// tmux itself reported a failure running `command`.
    Tmux { command: String, detail: String },
}

/// The exact form tmux hands back from `#{session_id}` and friends: the sigil
/// followed by one or more decimal digits.
pub open spec fn is_object_id(id: Seq<char>, sigil: char) -> bool {
    &&& id.len() >= 2
    &&& id[0] == sigil
    &&& forall|i: int| 1 <= i < id.len() ==> is_ascii_digit(#[trigger] id[i])
}

pub open spec fn is_bad_id_error(e: ActionError, kind: Seq<char>, sigil: char, got: Seq<char>) -> bool {
    e matches ActionError::BadId { kind: k, sigil: s, got: g } && k@ == kind && s == sigil && g@ == got
}

/// A refusal of `got`, which is not an id of the `kind` with `sigil`.
pub open spec fn refused_id<T>(r: Result<T, ActionError>, kind: Seq<char>, sigil: char, got: Seq<char>) -> bool {
    match r {
        Err(e) => is_bad_id_error(e, kind, sigil, got),
        Ok(_) => false,
    }
}

/// A name tmux can store and show on one line.
pub open spec fn name_has_break(name: Seq<char>) -> bool {
    exists|i: int| 0 <= i < name.len() && (name[i] == '\n' || name[i] == '\r' || name[i] == '\0')
}

/// Reject anything that is not a literal tmux object id of the expected kind.
///
/// tmux target strings are ambiguous: `-t work` is a name lookup and the sigil
/// decides the kind, so a kill aimed at a pane id given to `kill-session`
/// destroys the whole session. Only `$3` / `@7` / `%12` shaped ids pass.
pub fn check_id(id: &str, sigil: char, kind: &str) -> (r: Result<(), ActionError>)
    ensures
        r is Ok <==> is_object_id(id@, sigil),
        r matches Err(e) ==> is_bad_id_error(e, kind@, sigil, id@),
{
    let cs = chars_of(id);
    let mut ok = cs.len() >= 2 && cs[0] == sigil;
    let mut i: usize = 1;
    while ok && i < cs.len()
        invariant
            cs@ == id@,
            1 <= i,
            ok ==> i <= cs.len(),
            ok ==> cs@.len() >= 2 && cs@[0] == sigil,
            ok ==> forall|j: int| 1 <= j < i ==> is_ascii_digit(#[trigger] cs@[j]),
            !ok ==> !is_object_id(id@, sigil),
        decreases cs.len() + 1 - i,
    {
        if !('0' <= cs[i] && cs[i] <= '9') {
            ok = false;
        }
        i = i + 1;
    }
    if ok {
        Ok(())
    } else {
        Err(ActionError::BadId { kind: owned(kind), sigil, got: owned(id) })
    }
}

/// Names come from user typing, so spaces and punctuation survive; an empty
/// name, a newline, a carriage return or a NUL do not.
pub fn check_name(name: &str) -> (r: Result<(), ActionError>)
    ensures
        r is Ok <==> name@.len() > 0 && !name_has_break(name@),
        name@.len() == 0 ==> r matches Err(ActionError::EmptyName),
        name@.len() > 0 && name_has_break(name@) ==> r matches Err(ActionError::NameHasBreak),
{
    let cs = chars_of(name);
    if cs.len() == 0 {
        return Err(ActionError::EmptyName);
    }
    let mut i: usize = 0;
    while i < cs.len()
        invariant
            cs@ == name@,
            i <= cs.len(),
            forall|j: int| 0 <= j < i ==> !(cs@[j] == '\n' || cs@[j] == '\r' || cs@[j] == '\0'),
        decreases cs.len() - i,
    {
        if cs[i] == '\n' || cs[i] == '\r' || cs[i] == '\0' {
            return Err(ActionError::NameHasBreak);
        }
        i = i + 1;
    }
    Ok(())
}


/// What a finished tmux run gives, from its exit status and decoded output:
/// the trimmed standard output on success; on failure an error naming the
/// command (its first argument, `?` when there is none) with tmux's own
/// trimmed complaint, or `command failed` when it said nothing.
pub open spec fn tmux_outcome_spec(
    args: Seq<Seq<char>>,
    success: bool,
    stdout: Seq<char>,
    stderr: Seq<char>,
) -> Result<Seq<char>, (Seq<char>, Seq<char>)> {
    if success {
        Ok(trimmed(stdout))
    } else {
        Err((
            if args.len() > 0 { args[0] } else { "?"@ },
            if trimmed(stderr).len() == 0 { "command failed"@ } else { trimmed(stderr) },
        ))
    }
}

pub open spec fn outcome_matches(
    r: Result<String, ActionError>,
    o: Result<Seq<char>, (Seq<char>, Seq<char>)>,
) -> bool {
    match (r, o) {
        (Ok(s), Ok(t)) => s@ == t,
        (Err(ActionError::Tmux { command, detail }), Err((c, d))) => command@ == c && detail@ == d,
        _ => false,
    }
}

/// Turns a finished tmux run into its result: see [`tmux_outcome_spec`].
pub fn tmux_outcome(args: &Vec<String>, success: bool, stdout: &str, stderr: &str) -> (r: Result<String, ActionError>)
    ensures
        outcome_matches(r, tmux_outcome_spec(strs(args@), success, stdout@, stderr@)),
{
    if success {
        return Ok(trim_str(stdout));
    }
    let detail = trim_str(stderr);
    let detail = if detail.as_str().unicode_len() == 0 { owned("command failed") } else { detail };
    let command = if args.len() > 0 { args[0].clone() } else { owned("?") };
    Err(ActionError::Tmux { command, detail })
}

/// The result of a finished tmux run, from its exit status and raw output
/// bytes, decoded as UTF-8 with replacement.
pub fn run_result(args: &Vec<String>, success: bool, stdout: &[u8], stderr: &[u8]) -> (r: Result<String, ActionError>)
    ensures
        outcome_matches(r, tmux_outcome_spec(strs(args@), success, lossy_text(stdout@), lossy_text(stderr@))),
        valid_utf8(stdout@) && valid_utf8(stderr@) ==> outcome_matches(
            r,
            tmux_outcome_spec(strs(args@), success, decode_utf8(stdout@), decode_utf8(stderr@)),
        ),
{
    let out = decode_lossy(stdout);
    let err = decode_lossy(stderr);
    tmux_outcome(args, success, out.as_str(), err.as_str())
}

fn push_arg(v: &mut Vec<String>, a: &str)
    ensures
        strs(final(v)@) == strs(old(v)@).push(a@),
{
    v.push(owned(a));
    assert(strs(v@) =~= strs(old(v)@).push(a@));
}

/// The argument vector of a checked command: each piece is its own argv
/// element, so nothing a user types can become a separate word or a flag.
fn argv3(a: &str, b: &str, c: &str) -> (v: Vec<String>)
    ensures
        strs(v@) == seq![a@, b@, c@],
{
    let mut v: Vec<String> = Vec::new();
    push_arg(&mut v, a);
    push_arg(&mut v, b);
    push_arg(&mut v, c);
    assert(strs(v@) =~= seq![a@, b@, c@]);
    v
}

/// The result of a check-then-build: `Ok` with the argv exactly when every
/// check passed.
pub open spec fn argv_is(r: Result<Vec<String>, ActionError>, expected: Seq<Seq<char>>) -> bool {
    r matches Ok(v) && strs(v@) == expected
}

impl Actions {
    /// `kill-session -t <session_id>`, refused unless the id is a `$` id.
    pub fn kill_session(session_id: &str) -> (r: Result<Vec<String>, ActionError>)
        ensures
            is_object_id(session_id@, '$') ==> argv_is(r, seq!["kill-session"@, "-t"@, session_id@]),
            !is_object_id(session_id@, '$') ==> refused_id(r, "session"@, '$', session_id@),
    {
        match check_id(session_id, '$', "session") {
            Err(e) => Err(e),
            Ok(()) => Ok(argv3("kill-session", "-t", session_id)),
        }
    }

    /// `kill-window -t <window_id>`, refused unless the id is an `@` id.
    pub fn kill_window(window_id: &str) -> (r: Result<Vec<String>, ActionError>)
        ensures
            is_object_id(window_id@, '@') ==> argv_is(r, seq!["kill-window"@, "-t"@, window_id@]),
            !is_object_id(window_id@, '@') ==> refused_id(r, "window"@, '@', window_id@),
    {
        match check_id(window_id, '@', "window") {
            Err(e) => Err(e),
            Ok(()) => Ok(argv3("kill-window", "-t", window_id)),
        }
    }

    /// `kill-pane -t <pane_id>`, refused unless the id is a `%` id.
    pub fn kill_pane(pane_id: &str) -> (r: Result<Vec<String>, ActionError>)
        ensures
            is_object_id(pane_id@, '%') ==> argv_is(r, seq!["kill-pane"@, "-t"@, pane_id@]),
            !is_object_id(pane_id@, '%') ==> refused_id(r, "pane"@, '%', pane_id@),
    {
        match check_id(pane_id, '%', "pane") {
            Err(e) => Err(e),
            Ok(()) => Ok(argv3("kill-pane", "-t", pane_id)),
        }
    }

    /// `new-window -t <session_id> -P -F #{window_id}`: a session id as the
    /// target puts the window at the next free index, and `-P -F` makes tmux
    /// print the id it assigned.
    pub fn new_window(session_id: &str) -> (r: Result<Vec<String>, ActionError>)
        ensures
            is_object_id(session_id@, '$') ==> argv_is(
                r,
                seq!["new-window"@, "-t"@, session_id@, "-P"@, "-F"@, "#{window_id}"@],
            ),
            !is_object_id(session_id@, '$') ==> refused_id(r, "session"@, '$', session_id@),
    {
        match check_id(session_id, '$', "session") {
            Err(e) => Err(e),
            Ok(()) => {
                let mut v = argv3("new-window", "-t", session_id);
                push_arg(&mut v, "-P");
                push_arg(&mut v, "-F");
                push_arg(&mut v, "#{window_id}");
                assert(strs(v@) =~= seq!["new-window"@, "-t"@, session_id@, "-P"@, "-F"@, "#{window_id}"@]);
                Ok(v)
            },
        }
    }

    /// The id tmux printed for a new window, guarded so that a garbled reply
    /// cannot become a selection that later gets passed back to a kill.
    pub fn created_window(reply: &str) -> (r: Result<String, ActionError>)
        ensures
            r matches Ok(id) ==> id@ == reply@,
            is_object_id(reply@, '@') ==> r is Ok,
            !is_object_id(reply@, '@') ==> refused_id(r, "window"@, '@', reply@),
    {
        match check_id(reply, '@', "window") {
            Err(e) => Err(e),
            Ok(()) => Ok(owned(reply)),
        }
    }

    /// `split-window -v|-h -t <pane_id> -P -F #{pane_id}`. `vertical` is the
    /// split a user sees as a new pane stacked below, which is tmux's `-v`.
    pub fn split_pane(pane_id: &str, vertical: bool) -> (r: Result<Vec<String>, ActionError>)
        ensures
            is_object_id(pane_id@, '%') ==> argv_is(
                r,
                seq!["split-window"@, if vertical { "-v"@ } else { "-h"@ }, "-t"@, pane_id@, "-P"@, "-F"@, "#{pane_id}"@],
            ),
            !is_object_id(pane_id@, '%') ==> refused_id(r, "pane"@, '%', pane_id@),
    {
        match check_id(pane_id, '%', "pane") {
            Err(e) => Err(e),
            Ok(()) => {
                let direction = if vertical { "-v" } else { "-h" };
                let mut v = argv3("split-window", direction, "-t");
                push_arg(&mut v, pane_id);
                push_arg(&mut v, "-P");
                push_arg(&mut v, "-F");
                push_arg(&mut v, "#{pane_id}");
                assert(strs(v@) =~= seq!["split-window"@, if vertical { "-v"@ } else { "-h"@ }, "-t"@, pane_id@, "-P"@, "-F"@, "#{pane_id}"@]);
                Ok(v)
            },
        }
    }

    /// The id tmux printed for a new pane, guarded like [`Actions::created_window`].
    pub fn created_pane(reply: &str) -> (r: Result<String, ActionError>)
        ensures
            r matches Ok(id) ==> id@ == reply@,
            is_object_id(reply@, '%') ==> r is Ok,
            !is_object_id(reply@, '%') ==> refused_id(r, "pane"@, '%', reply@),
    {
        match check_id(reply, '%', "pane") {
            Err(e) => Err(e),
            Ok(()) => Ok(owned(reply)),
        }
    }

    /// `rename-window -t <window_id> <name>`, the name last and as its own
    /// argv element.
    pub fn rename_window(window_id: &str, name: &str) -> (r: Result<Vec<String>, ActionError>)
        ensures
            is_object_id(window_id@, '@') && name@.len() > 0 && !name_has_break(name@) ==> argv_is(
                r,
                seq!["rename-window"@, "-t"@, window_id@, name@],
            ),
            !is_object_id(window_id@, '@') ==> refused_id(r, "window"@, '@', window_id@),
            is_object_id(window_id@, '@') && name@.len() == 0 ==> r matches Err(ActionError::EmptyName),
            is_object_id(window_id@, '@') && name@.len() > 0 && name_has_break(name@) ==> r matches Err(
                ActionError::NameHasBreak,
            ),
    {
        if let Err(e) = check_id(window_id, '@', "window") {
            return Err(e);
        }
        if let Err(e) = check_name(name) {
            return Err(e);
        }
        let mut v = argv3("rename-window", "-t", window_id);
        push_arg(&mut v, name);
        assert(strs(v@) =~= seq!["rename-window"@, "-t"@, window_id@, name@]);
        Ok(v)
    }

    /// `rename-session -t <session_id> <name>`.
    pub fn rename_session(session_id: &str, name: &str) -> (r: Result<Vec<String>, ActionError>)
        ensures
            is_object_id(session_id@, '$') && name@.len() > 0 && !name_has_break(name@) ==> argv_is(
                r,
                seq!["rename-session"@, "-t"@, session_id@, name@],
            ),
            !is_object_id(session_id@, '$') ==> refused_id(r, "session"@, '$', session_id@),
            is_object_id(session_id@, '$') && name@.len() == 0 ==> r matches Err(ActionError::EmptyName),
            is_object_id(session_id@, '$') && name@.len() > 0 && name_has_break(name@) ==> r matches Err(
                ActionError::NameHasBreak,
            ),
    {
        if let Err(e) = check_id(session_id, '$', "session") {
            return Err(e);
        }
        if let Err(e) = check_name(name) {
            return Err(e);
        }
        let mut v = argv3("rename-session", "-t", session_id);
        push_arg(&mut v, name);
        assert(strs(v@) =~= seq!["rename-session"@, "-t"@, session_id@, name@]);
        Ok(v)
    }
}

} // verus!
