//! Reading what tmux prints, and the commands that put its options back.

use vstd::prelude::*;
use vstd::utf8::{decode_utf8, valid_utf8};

use crate::state::strs;
use crate::text::{
    chars_eq, chars_of, decimal, decimal_chars, decode_lossy, lines, lines_of, lossy_text, owned,
    split_chars, split_on, string_of, trim, trim_str, trimmed, words, words_of,
};

verus! {

/// Read-only tmux queries: this module holds what is done with their output.
pub struct Tmux;

/// The lines tagged with `tag` (their first character), with the tag removed.
pub open spec fn tagged(lines: Seq<Seq<char>>, tag: char) -> Seq<Seq<char>>
    decreases lines.len(),
{
    if lines.len() == 0 {
        Seq::empty()
    } else {
        let r = tagged(lines.drop_last(), tag);
        let l = lines.last();
        if l.len() > 0 && l[0] == tag {
            r.push(l.drop_first())
        } else {
            r
        }
    }
}

/// The fields of the first line that has exactly `n` whitespace-separated
/// fields, the first of them `pid`.
pub open spec fn client_line(lines: Seq<Seq<char>>, pid: Seq<char>, n: nat) -> Option<Seq<Seq<char>>>
    decreases lines.len(),
{
    if lines.len() == 0 {
        None
    } else {
        let w = words_of(lines[0]);
        if n > 0 && w.len() == n && w[0] == pid {
            Some(w)
        } else {
            client_line(lines.drop_first(), pid, n)
        }
    }
}

/// A trimmed value, or `None` when nothing is left of it.
pub open spec fn nonempty_trimmed(s: Seq<char>) -> Option<Seq<char>> {
    if trimmed(s).len() == 0 {
        None
    } else {
        Some(trimmed(s))
    }
}

/// The second whitespace-separated field, or nothing: what
/// `show-options -t <session> <name>` prints after the option's name.
pub open spec fn second_word(s: Seq<char>) -> Seq<char> {
    if words_of(s).len() > 1 {
        words_of(s)[1]
    } else {
        Seq::empty()
    }
}

/// The socket path in a `$TMUX` value: its first comma-separated field,
/// trimmed.
pub open spec fn socket_of(value: Seq<char>) -> Option<Seq<char>> {
    nonempty_trimmed(split_on(value, ',')[0])
}

/// `set-option -u -t <session> <name>` for a value that was inherited (an
/// empty prior), else `set-option -t <session> <name> <prior>`.
pub open spec fn restore_args(session: Seq<char>, name: Seq<char>, prior: Seq<char>) -> Seq<Seq<char>> {
    if prior.len() == 0 {
        seq!["set-option"@, "-u"@, "-t"@, session, name]
    } else {
        seq!["set-option"@, "-t"@, session, name, prior]
    }
}

pub open spec fn opt_view(o: Option<String>) -> Option<Seq<char>> {
    match o {
        Some(s) => Some(s@),
        None => None,
    }
}

fn to_strings(v: &Vec<Vec<char>>) -> (r: Vec<String>)
    ensures
        strs(r@) == v.deep_view(),
{
    let mut r: Vec<String> = Vec::new();
    let mut i: usize = 0;
    while i < v.len()
        invariant
            i <= v.len(),
            strs(r@) == v.deep_view().take(i as int),
        decreases v.len() - i,
    {
        assert(v.deep_view()[i as int] == v[i as int]@);
        let ghost before = r@;
        let s = string_of(v[i].as_slice());
        r.push(s);
        assert(strs(r@) =~= strs(before).push(s@));
        assert(v.deep_view().take(i + 1) =~= v.deep_view().take(i as int).push(v.deep_view()[i as int]));
        i = i + 1;
    }
    assert(v.deep_view().take(i as int) =~= v.deep_view());
    r
}

fn push_str(v: &mut Vec<String>, a: &str)
    ensures
        strs(final(v)@) == strs(old(v)@).push(a@),
{
    v.push(owned(a));
    assert(strs(v@) =~= strs(old(v)@).push(a@));
}

impl Tmux {
    /// Splits the text of the one tmux run that lists sessions, windows, panes
    /// and clients: each line is tagged `S`, `W`, `P` or `C`; other lines are
    /// dropped.
    pub fn split_snapshot(text: &str) -> (r: (Vec<String>, Vec<String>, Vec<String>, Vec<String>))
        ensures
            strs(r.0@) == tagged(lines_of(text@), 'S'),
            strs(r.1@) == tagged(lines_of(text@), 'W'),
            strs(r.2@) == tagged(lines_of(text@), 'P'),
            strs(r.3@) == tagged(lines_of(text@), 'C'),
    {
        let cs = chars_of(text);
        let ls = lines(cs.as_slice());
        let ghost lv = ls.deep_view();
        let mut sessions: Vec<String> = Vec::new();
        let mut windows: Vec<String> = Vec::new();
        let mut panes: Vec<String> = Vec::new();
        let mut clients: Vec<String> = Vec::new();
        let mut i: usize = 0;
        while i < ls.len()
            invariant
                i <= ls.len(),
                lv == ls.deep_view(),
                strs(sessions@) == tagged(lv.take(i as int), 'S'),
                strs(windows@) == tagged(lv.take(i as int), 'W'),
                strs(panes@) == tagged(lv.take(i as int), 'P'),
                strs(clients@) == tagged(lv.take(i as int), 'C'),
            decreases ls.len() - i,
        {
            let line = &ls[i];
            assert(line@ == lv[i as int]);
            assert(lv.take(i + 1).drop_last() =~= lv.take(i as int));
            assert(lv.take(i + 1).last() == lv[i as int]);
            if line.len() > 0 {
                let kind = line[0];
                let rest = string_of(crate::text::sub_chars(line.as_slice(), 1, line.len()).as_slice());
                assert(rest@ =~= line@.drop_first());
                if kind == 'S' {
                    sessions.push(rest);
                } else if kind == 'W' {
                    windows.push(rest);
                } else if kind == 'P' {
                    panes.push(rest);
                } else if kind == 'C' {
                    clients.push(rest);
                }
            }
            assert(strs(sessions@) =~= tagged(lv.take(i + 1), 'S'));
            assert(strs(windows@) =~= tagged(lv.take(i + 1), 'W'));
            assert(strs(panes@) =~= tagged(lv.take(i + 1), 'P'));
            assert(strs(clients@) =~= tagged(lv.take(i + 1), 'C'));
            i = i + 1;
        }
        assert(lv.take(i as int) =~= lv);
        (sessions, windows, panes, clients)
    }

    /// The snapshot lists from the raw output of that run.
    pub fn snapshot_from_output(stdout: &[u8]) -> (r: (Vec<String>, Vec<String>, Vec<String>, Vec<String>))
        ensures
            strs(r.0@) == tagged(lines_of(lossy_text(stdout@)), 'S'),
            strs(r.1@) == tagged(lines_of(lossy_text(stdout@)), 'W'),
            strs(r.2@) == tagged(lines_of(lossy_text(stdout@)), 'P'),
            strs(r.3@) == tagged(lines_of(lossy_text(stdout@)), 'C'),
            valid_utf8(stdout@) ==> strs(r.0@) == tagged(lines_of(decode_utf8(stdout@)), 'S') && strs(r.1@)
                == tagged(lines_of(decode_utf8(stdout@)), 'W') && strs(r.2@) == tagged(
                lines_of(decode_utf8(stdout@)),
                'P',
            ) && strs(r.3@) == tagged(lines_of(decode_utf8(stdout@)), 'C'),
    {
        let text = decode_lossy(stdout);
        Tmux::split_snapshot(text.as_str())
    }

    /// The lines of a listing's raw output.
    pub fn output_lines(stdout: &[u8]) -> (r: Vec<String>)
        ensures
            strs(r@) == lines_of(lossy_text(stdout@)),
            valid_utf8(stdout@) ==> strs(r@) == lines_of(decode_utf8(stdout@)),
    {
        let text = decode_lossy(stdout);
        let cs = chars_of(text.as_str());
        let ls = lines(cs.as_slice());
        to_strings(&ls)
    }

    /// A single value tmux printed (an option's value, a session id): the
    /// trimmed output, or `None` when it is empty.
    pub fn printed_value(stdout: &[u8]) -> (r: Option<String>)
        ensures
            opt_view(r) == nonempty_trimmed(lossy_text(stdout@)),
            valid_utf8(stdout@) ==> opt_view(r) == nonempty_trimmed(decode_utf8(stdout@)),
    {
        let text = decode_lossy(stdout);
        let t = trim_str(text.as_str());
        if t.as_str().unicode_len() == 0 {
            None
        } else {
            Some(t)
        }
    }

    /// The session-scoped value an option had, from the raw output of
    /// `show-options -t <session> <name>`; empty when it was inherited.
    pub fn prior_value(stdout: &[u8]) -> (r: String)
        ensures
            r@ == second_word(lossy_text(stdout@)),
            valid_utf8(stdout@) ==> r@ == second_word(decode_utf8(stdout@)),
    {
        let text = decode_lossy(stdout);
        let cs = chars_of(text.as_str());
        let w = words(cs.as_slice());
        if w.len() > 1 {
            string_of(w[1].as_slice())
        } else {
            assert(Seq::<char>::empty() =~= second_word(lossy_text(stdout@)));
            string_of(Vec::new().as_slice())
        }
    }

    /// The fields of the `list-clients` line of the client whose process is
    /// `pid`, when that line has exactly `n` fields.
    pub fn client_fields(listing: &str, pid: u32, n: usize) -> (r: Option<Vec<String>>)
        ensures
            match r {
                Some(v) => client_line(lines_of(listing@), decimal(pid as nat), n as nat) == Some(strs(v@)),
                None => client_line(lines_of(listing@), decimal(pid as nat), n as nat) is None,
            },
    {
        let cs = chars_of(listing);
        let ls = lines(cs.as_slice());
        let ghost lv = ls.deep_view();
        let pid_s = decimal_chars(pid as u64);
        let mut i: usize = 0;
        assert(lv.skip(0) =~= lv);
        while i < ls.len()
            invariant
                i <= ls.len(),
                lv == ls.deep_view(),
                lv == lines_of(listing@),
                pid_s@ == decimal(pid as nat),
                client_line(lv, pid_s@, n as nat) == client_line(lv.skip(i as int), pid_s@, n as nat),
            decreases ls.len() - i,
        {
            assert(lv.skip(i as int)[0] == lv[i as int]);
            assert(lv.skip(i as int).drop_first() =~= lv.skip(i + 1));
            assert(ls[i as int]@ == lv[i as int]);
            let w = words(ls[i].as_slice());
            assert(w.deep_view() == words_of(lv.skip(i as int)[0]));
            if w.len() > 0 {
                assert(w.deep_view()[0] == w[0]@);
            }
            if n > 0 && w.len() == n && chars_eq(w[0].as_slice(), pid_s.as_slice()) {
                assert(w.deep_view()[0] == w[0]@);
                return Some(to_strings(&w));
            }
            i = i + 1;
        }
        assert(lv.skip(i as int) =~= Seq::<Seq<char>>::empty());
        None
    }

    /// The socket ttree's tmux server listens on, from a `$TMUX` value.
    pub fn socket_path(tmux_env: &str) -> (r: Option<String>)
        ensures
            opt_view(r) == socket_of(tmux_env@),
    {
        let cs = chars_of(tmux_env);
        let pieces = split_chars(cs.as_slice(), ',');
        proof {
            crate::text::lemma_split_on_len(cs@, ',');
        }
        assert(pieces[0]@ == pieces.deep_view()[0]);
        let t = trim(pieces[0].as_slice());
        if t.len() == 0 {
            None
        } else {
            Some(string_of(t.as_slice()))
        }
    }

    /// The command that puts one pinned session option back.
    pub fn restore_option_args(session: &str, name: &str, prior: &str) -> (r: Vec<String>)
        ensures
            strs(r@) == restore_args(session@, name@, prior@),
    {
        let mut v: Vec<String> = Vec::new();
        push_str(&mut v, "set-option");
        if prior.unicode_len() == 0 {
            push_str(&mut v, "-u");
            push_str(&mut v, "-t");
            push_str(&mut v, session);
            push_str(&mut v, name);
        } else {
            push_str(&mut v, "-t");
            push_str(&mut v, session);
            push_str(&mut v, name);
            push_str(&mut v, prior);
        }
        assert(strs(v@) =~= restore_args(session@, name@, prior@));
        v
    }
}

} // verus!
