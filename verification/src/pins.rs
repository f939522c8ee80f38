//! The tmux settings changed while previewing, and the commands that put them
//! back however the program ends.

use vstd::prelude::*;

use crate::state::strs;
use crate::sync::{mirror_prefix, mirror_prefix_chars};
use crate::text::{decimal, decimal_chars, owned, string_of};
use crate::tmux::{restore_args, Tmux};

verus! {

/// The name of the `n`th throwaway session grouped with a mirrored session,
/// made by process `pid`: `ttree-mirror-<pid>-<n>`.
pub open spec fn mirror_name(pid: u32, n: u32) -> Seq<char> {
    mirror_prefix() + decimal(pid as nat) + seq!['-'] + decimal(n as nat)
}

pub fn mirror_session_name(pid: u32, n: u32) -> (s: String)
    ensures
        s@ == mirror_name(pid, n),
{
    let mut v = mirror_prefix_chars();
    let a = decimal_chars(pid as u64);
    let b = decimal_chars(n as u64);
    let mut i: usize = 0;
    while i < a.len()
        invariant
            i <= a.len(),
            v@ == mirror_prefix() + a@.take(i as int),
        decreases a.len() - i,
    {
        v.push(a[i]);
        i = i + 1;
        assert(v@ =~= mirror_prefix() + a@.take(i as int));
    }
    v.push('-');
    let ghost mid = v@;
    let mut j: usize = 0;
    while j < b.len()
        invariant
            j <= b.len(),
            v@ == mid + b@.take(j as int),
        decreases b.len() - j,
    {
        v.push(b[j]);
        j = j + 1;
        assert(v@ =~= mid + b@.take(j as int));
    }
    assert(a@.take(a.len() as int) =~= a@);
    assert(b@.take(b.len() as int) =~= b@);
    assert(v@ =~= mirror_name(pid, n));
    string_of(v.as_slice())
}

/// What has been changed in tmux and must be put back on the way out: the
/// throwaway mirror session, the session whose `window-size` was pinned (with
/// its prior value), and the session whose options were pinned (with each
/// option's prior value). An empty prior means the value was inherited.
pub struct Pins {
    pub mirror_session: Option<String>,
    pub forced_window_size: Option<(String, String)>,
    pub pinned_options: Option<(String, Vec<(String, String)>)>,
}

pub open spec fn pair_views(v: Seq<(String, String)>) -> Seq<(Seq<char>, Seq<char>)> {
    v.map_values(|p: (String, String)| (p.0@, p.1@))
}

/// The restore commands for pinned options, in the order they were pinned.
pub open spec fn option_restores(session: Seq<char>, priors: Seq<(Seq<char>, Seq<char>)>) -> Seq<Seq<Seq<char>>> {
    priors.map_values(|p: (Seq<char>, Seq<char>)| restore_args(session, p.0, p.1))
}

/// Everything put back, in order: the mirror session is killed, the window
/// size restored, then each pinned option.
pub open spec fn restore_plan(p: Pins) -> Seq<Seq<Seq<char>>> {
    (match p.mirror_session {
        Some(id) => seq![seq!["kill-session"@, "-t"@, id@]],
        None => Seq::empty(),
    }) + (match p.forced_window_size {
        Some((s, prior)) => seq![restore_args(s@, "window-size"@, prior@)],
        None => Seq::empty(),
    }) + (match p.pinned_options {
        Some((s, priors)) => option_restores(s@, pair_views(priors@)),
        None => Seq::empty(),
    })
}

/// `after` is `before` with the prior value of option `name` recorded: the
/// first option pinned names the session, later ones add to its list.
pub open spec fn recorded(before: Pins, after: Pins, session: Seq<char>, name: Seq<char>, prior: Seq<char>) -> bool {
    &&& after.mirror_session == before.mirror_session
    &&& after.forced_window_size == before.forced_window_size
    &&& match (before.pinned_options, after.pinned_options) {
        (Some((s0, v0)), Some((s1, v1))) => s1 == s0 && pair_views(v1@) == pair_views(v0@).push((name, prior)),
        (None, Some((s1, v1))) => s1@ == session && pair_views(v1@) == seq![(name, prior)],
        _ => false,
    }
}

pub open spec fn argvs(v: Seq<Vec<String>>) -> Seq<Seq<Seq<char>>> {
    v.map_values(|a: Vec<String>| strs(a@))
}

fn push_argv(out: &mut Vec<Vec<String>>, a: Vec<String>)
    ensures
        argvs(final(out)@) == argvs(old(out)@).push(strs(a@)),
{
    let ghost before = out@;
    out.push(a);
    assert(argvs(out@) =~= argvs(before).push(strs(a@)));
}

impl Pins {
    /// Nothing pinned.
    pub fn new() -> (p: Pins)
        ensures
            p.mirror_session is None,
            p.forced_window_size is None,
            p.pinned_options is None,
    {
        Pins { mirror_session: None, forced_window_size: None, pinned_options: None }
    }

    /// Records an option's prior value just before it is pinned. The first
    /// option pinned names the session.
    pub fn record_option(&mut self, session: &str, name: &str, prior: &str)
        ensures
            recorded(*old(self), *final(self), session@, name@, prior@),
    {
        let entry = (owned(name), owned(prior));
        let mut taken: Option<(String, Vec<(String, String)>)> = None;
        std::mem::swap(&mut taken, &mut self.pinned_options);
        let next = match taken {
            Some((s, v)) => {
                let ghost before = v@;
                let mut v = v;
                v.push(entry);
                assert(pair_views(v@) =~= pair_views(before).push((name@, prior@)));
                (s, v)
            },
            None => {
                let mut v: Vec<(String, String)> = Vec::new();
                v.push(entry);
                assert(pair_views(v@) =~= seq![(name@, prior@)]);
                (owned(session), v)
            },
        };
        self.pinned_options = Some(next);
    }

    /// The tmux commands that put everything back: see [`restore_plan`].
    pub fn restore_commands(&self) -> (r: Vec<Vec<String>>)
        ensures
            argvs(r@) == restore_plan(*self),
    {
        let mut out: Vec<Vec<String>> = Vec::new();
        let ghost g0 = argvs(out@);
        if let Some(id) = &self.mirror_session {
            let mut a: Vec<String> = Vec::new();
            a.push(owned("kill-session"));
            a.push(owned("-t"));
            a.push(id.clone());
            assert(strs(a@) =~= seq!["kill-session"@, "-t"@, id@]);
            push_argv(&mut out, a);
        }
        let ghost g1 = argvs(out@);
        if let Some((s, prior)) = &self.forced_window_size {
            push_argv(&mut out, Tmux::restore_option_args(s.as_str(), "window-size", prior.as_str()));
        }
        let ghost g2 = argvs(out@);
        if let Some((s, priors)) = &self.pinned_options {
            let ghost pv = pair_views(priors@);
            let mut i: usize = 0;
            while i < priors.len()
                invariant
                    i <= priors.len(),
                    pv == pair_views(priors@),
                    argvs(out@) == g2 + option_restores(s@, pv.take(i as int)),
                decreases priors.len() - i,
            {
                let (n, p) = &priors[i];
                assert(pv[i as int] == (n@, p@));
                push_argv(&mut out, Tmux::restore_option_args(s.as_str(), n.as_str(), p.as_str()));
                assert(option_restores(s@, pv.take(i + 1)) =~= option_restores(s@, pv.take(i as int)).push(
                    restore_args(s@, n@, p@),
                ));
                assert(argvs(out@) =~= g2 + option_restores(s@, pv.take(i + 1)));
                i = i + 1;
            }
            assert(pv.take(i as int) =~= pv);
        }
        assert(argvs(out@) =~= restore_plan(*self));
        out
    }
}

/// A pinned option is put back: once its prior value is recorded, the last
/// restore command sets it back to that value in the pinned session (the
/// session given with the first option pinned), or unsets it there when the
/// value was inherited; what was to be put back before is still put back,
/// in the same order, ahead of it.
pub proof fn a_recorded_option_is_put_back(
    before: Pins,
    after: Pins,
    session: Seq<char>,
    name: Seq<char>,
    prior: Seq<char>,
)
    requires
        recorded(before, after, session, name, prior),
    ensures
        after.pinned_options is Some,
        restore_plan(after) == restore_plan(before).push(
            restore_args(after.pinned_options.unwrap().0@, name, prior),
        ),
        before.pinned_options is None ==> after.pinned_options.unwrap().0@ == session,
{
    let s = after.pinned_options.unwrap().0@;
    let head = (match before.mirror_session {
        Some(id) => seq![seq!["kill-session"@, "-t"@, id@]],
        None => Seq::empty(),
    }) + (match before.forced_window_size {
        Some((w, p)) => seq![restore_args(w@, "window-size"@, p@)],
        None => Seq::empty(),
    });
    match before.pinned_options {
        Some((s0, v0)) => {
            let v1 = after.pinned_options.unwrap().1;
            assert(option_restores(s, pair_views(v1@)) =~= option_restores(s, pair_views(v0@)).push(
                restore_args(s, name, prior),
            ));
            assert(restore_plan(after) =~= head + option_restores(s, pair_views(v1@)));
            assert(restore_plan(before) =~= head + option_restores(s, pair_views(v0@)));
        },
        None => {
            let v1 = after.pinned_options.unwrap().1;
            assert(option_restores(s, pair_views(v1@)) =~= seq![restore_args(s, name, prior)]);
            assert(restore_plan(after) =~= head + option_restores(s, pair_views(v1@)));
            assert(restore_plan(before) =~= head);
        },
    }
}

} // verus!
