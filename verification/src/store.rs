//! The ordered maps the tree is kept in (`indexmap::IndexMap`, keyed by tmux
//! id), and the model the rest of the library reasons about: an `IndexMap` is
//! a sequence of (key, value) entries in insertion order, with distinct keys.

use vstd::prelude::*;
use indexmap::IndexMap;

use crate::state::{Pane, PaneView, Session, SessionView, Window, WindowView};

verus! {

#[verifier::external_type_specification]
#[verifier::external_body]
#[verifier::reject_recursive_types(K)]
#[verifier::reject_recursive_types(V)]
#[verifier::reject_recursive_types(S)]
pub struct ExIndexMap<K, V, S>(IndexMap<K, V, S>);

/// The entries of a session map, in order, by view.
pub uninterp spec fn session_entries(m: IndexMap<String, Session>) -> Seq<(Seq<char>, SessionView)>;

/// The entries of a window map, in order, by view.
pub uninterp spec fn window_entries(m: IndexMap<String, Window>) -> Seq<(Seq<char>, WindowView)>;

/// The entries of a pane map, in order, by view.
pub uninterp spec fn pane_entries(m: IndexMap<String, Pane>) -> Seq<(Seq<char>, PaneView)>;

/// Position of the entry whose key is `k`, or -1 when there is none.
pub open spec fn entry_index<V>(e: Seq<(Seq<char>, V)>, k: Seq<char>) -> int
    decreases e.len(),
{
    if e.len() == 0 {
        -1
    } else if e[0].0 == k {
        0
    } else {
        let r = entry_index(e.drop_first(), k);
        if r < 0 {
            -1
        } else {
            r + 1
        }
    }
}

/// The value stored under `k`, if any (`IndexMap::get`).
pub open spec fn entry_lookup<V>(e: Seq<(Seq<char>, V)>, k: Seq<char>) -> Option<V> {
    let i = entry_index(e, k);
    if i >= 0 {
        Some(e[i].1)
    } else {
        None
    }
}

/// `IndexMap::insert`: an existing key keeps its place and takes the new
/// value; a new key goes last.
pub open spec fn entry_insert<V>(e: Seq<(Seq<char>, V)>, k: Seq<char>, v: V) -> Seq<(Seq<char>, V)> {
    let i = entry_index(e, k);
    if i >= 0 {
        e.update(i, (k, v))
    } else {
        e.push((k, v))
    }
}

pub open spec fn entry_keys<V>(e: Seq<(Seq<char>, V)>) -> Seq<Seq<char>> {
    e.map_values(|p: (Seq<char>, V)| p.0)
}

pub proof fn lemma_entry_index<V>(e: Seq<(Seq<char>, V)>, k: Seq<char>)
    ensures
        -1 <= entry_index(e, k) < e.len(),
        entry_index(e, k) >= 0 ==> e[entry_index(e, k)].0 == k,
        forall|j: int| 0 <= j < e.len() && (entry_index(e, k) < 0 || j < entry_index(e, k)) ==> #[trigger] e[j].0 != k,
    decreases e.len(),
{
    if e.len() > 0 && e[0].0 != k {
        let t = e.drop_first();
        lemma_entry_index(t, k);
        assert forall|j: int| 0 <= j < e.len() && (entry_index(e, k) < 0 || j < entry_index(e, k)) implies #[trigger] e[j].0 != k by {
            if j > 0 {
                assert(e[j] == t[j - 1]);
            }
        }
    }
}

/// An entry at position `i` whose key no earlier entry shares is what a
/// lookup of that key finds.
pub proof fn lemma_entry_index_at<V>(e: Seq<(Seq<char>, V)>, i: int)
    requires
        0 <= i < e.len(),
        forall|j: int| 0 <= j < i ==> #[trigger] e[j].0 != e[i].0,
    ensures
        entry_index(e, e[i].0) == i,
{
    lemma_entry_index(e, e[i].0);
}

pub proof fn lemma_entry_insert<V>(e: Seq<(Seq<char>, V)>, k: Seq<char>, v: V, q: Seq<char>)
    ensures
        entry_lookup(entry_insert(e, k, v), q) == if q == k { Some(v) } else { entry_lookup(e, q) },
        entry_index(e, k) >= 0 ==> entry_insert(e, k, v).len() == e.len(),
        entry_index(e, k) >= 0 ==> forall|j: int| 0 <= j < e.len() ==> (#[trigger] entry_insert(e, k, v)[j]).0 == e[j].0,
{
    let n = entry_insert(e, k, v);
    lemma_entry_index(e, k);
    lemma_entry_index(e, q);
    lemma_entry_index(n, q);
    let i = entry_index(e, k);
    if i >= 0 {
        assert forall|j: int| 0 <= j < e.len() implies (#[trigger] n[j]).0 == e[j].0 by {}
        let iq = entry_index(e, q);
        let nq = entry_index(n, q);
        if iq >= 0 {
            lemma_entry_index_at(n, iq);
        }
        if nq >= 0 {
            assert(n[nq].0 == e[nq].0);
        }
    } else {
        let iq = entry_index(e, q);
        if q == k {
            lemma_entry_index_at(n, e.len() as int);
        } else if iq >= 0 {
            lemma_entry_index_at(n, iq);
        } else {
            let nq = entry_index(n, q);
            if nq >= 0 {
                assert(n[nq] == e[nq] || nq == e.len());
            }
        }
    }
}

/// `IndexMap::new` for sessions.
#[verifier::external_body]
pub(crate) fn session_map_new() -> (m: IndexMap<String, Session>)
    ensures
        session_entries(m) == Seq::<(Seq<char>, SessionView)>::empty(),
{
    IndexMap::new()
}

/// `IndexMap::len` for sessions.
#[verifier::external_body]
pub(crate) fn session_map_len(m: &IndexMap<String, Session>) -> (n: usize)
    ensures
        n == session_entries(*m).len(),
{
    m.len()
}

/// `IndexMap::get_index` for sessions: the entry at a position, in order.
#[verifier::external_body]
pub(crate) fn session_map_get_index(m: &IndexMap<String, Session>, i: usize) -> (r: Option<(&String, &Session)>)
    ensures
        i < session_entries(*m).len() ==> r is Some && r.unwrap().0@ == session_entries(*m)[i as int].0
            && r.unwrap().1@ == session_entries(*m)[i as int].1,
        i >= session_entries(*m).len() ==> r is None,
{
    m.get_index(i)
}

/// `IndexMap::get` for sessions.
#[verifier::external_body]
pub(crate) fn session_map_get<'a>(m: &'a IndexMap<String, Session>, key: &str) -> (r: Option<&'a Session>)
    ensures
        r matches Some(v) ==> entry_lookup(session_entries(*m), key@) == Some(v@),
        r is None ==> entry_lookup(session_entries(*m), key@) is None,
{
    m.get(key)
}

/// `IndexMap::contains_key` for sessions.
#[verifier::external_body]
pub(crate) fn session_map_contains_key(m: &IndexMap<String, Session>, key: &str) -> (b: bool)
    ensures
        b == entry_lookup(session_entries(*m), key@) is Some,
{
    m.contains_key(key)
}

/// `IndexMap::insert` for sessions.
#[verifier::external_body]
pub(crate) fn session_map_insert(m: &mut IndexMap<String, Session>, key: String, value: Session)
    ensures
        session_entries(*final(m)) == entry_insert(session_entries(*old(m)), key@, value@),
{
    m.insert(key, value);
}

/// `IndexMap::clear` for sessions.
#[verifier::external_body]
pub(crate) fn session_map_clear(m: &mut IndexMap<String, Session>)
    ensures
        session_entries(*final(m)) == Seq::<(Seq<char>, SessionView)>::empty(),
{
    m.clear();
}

/// `IndexMap::new` for windows.
#[verifier::external_body]
pub(crate) fn window_map_new() -> (m: IndexMap<String, Window>)
    ensures
        window_entries(m) == Seq::<(Seq<char>, WindowView)>::empty(),
{
    IndexMap::new()
}

/// `IndexMap::len` for windows.
#[verifier::external_body]
pub(crate) fn window_map_len(m: &IndexMap<String, Window>) -> (n: usize)
    ensures
        n == window_entries(*m).len(),
{
    m.len()
}

/// `IndexMap::get_index` for windows: the entry at a position, in order.
#[verifier::external_body]
pub(crate) fn window_map_get_index(m: &IndexMap<String, Window>, i: usize) -> (r: Option<(&String, &Window)>)
    ensures
        i < window_entries(*m).len() ==> r is Some && r.unwrap().0@ == window_entries(*m)[i as int].0
            && r.unwrap().1@ == window_entries(*m)[i as int].1,
        i >= window_entries(*m).len() ==> r is None,
{
    m.get_index(i)
}

/// `IndexMap::get` for windows.
#[verifier::external_body]
pub(crate) fn window_map_get<'a>(m: &'a IndexMap<String, Window>, key: &str) -> (r: Option<&'a Window>)
    ensures
        r matches Some(v) ==> entry_lookup(window_entries(*m), key@) == Some(v@),
        r is None ==> entry_lookup(window_entries(*m), key@) is None,
{
    m.get(key)
}

/// `IndexMap::contains_key` for windows.
#[verifier::external_body]
pub(crate) fn window_map_contains_key(m: &IndexMap<String, Window>, key: &str) -> (b: bool)
    ensures
        b == entry_lookup(window_entries(*m), key@) is Some,
{
    m.contains_key(key)
}

/// `IndexMap::insert` for windows.
#[verifier::external_body]
pub(crate) fn window_map_insert(m: &mut IndexMap<String, Window>, key: String, value: Window)
    ensures
        window_entries(*final(m)) == entry_insert(window_entries(*old(m)), key@, value@),
{
    m.insert(key, value);
}

/// `IndexMap::clear` for windows.
#[verifier::external_body]
pub(crate) fn window_map_clear(m: &mut IndexMap<String, Window>)
    ensures
        window_entries(*final(m)) == Seq::<(Seq<char>, WindowView)>::empty(),
{
    m.clear();
}

/// `IndexMap::new` for panes.
#[verifier::external_body]
pub(crate) fn pane_map_new() -> (m: IndexMap<String, Pane>)
    ensures
        pane_entries(m) == Seq::<(Seq<char>, PaneView)>::empty(),
{
    IndexMap::new()
}

/// `IndexMap::len` for panes.
#[verifier::external_body]
pub(crate) fn pane_map_len(m: &IndexMap<String, Pane>) -> (n: usize)
    ensures
        n == pane_entries(*m).len(),
{
    m.len()
}

/// `IndexMap::get_index` for panes: the entry at a position, in order.
#[verifier::external_body]
pub(crate) fn pane_map_get_index(m: &IndexMap<String, Pane>, i: usize) -> (r: Option<(&String, &Pane)>)
    ensures
        i < pane_entries(*m).len() ==> r is Some && r.unwrap().0@ == pane_entries(*m)[i as int].0
            && r.unwrap().1@ == pane_entries(*m)[i as int].1,
        i >= pane_entries(*m).len() ==> r is None,
{
    m.get_index(i)
}

/// `IndexMap::get` for panes.
#[verifier::external_body]
pub(crate) fn pane_map_get<'a>(m: &'a IndexMap<String, Pane>, key: &str) -> (r: Option<&'a Pane>)
    ensures
        r matches Some(v) ==> entry_lookup(pane_entries(*m), key@) == Some(v@),
        r is None ==> entry_lookup(pane_entries(*m), key@) is None,
{
    m.get(key)
}

/// `IndexMap::contains_key` for panes.
#[verifier::external_body]
pub(crate) fn pane_map_contains_key(m: &IndexMap<String, Pane>, key: &str) -> (b: bool)
    ensures
        b == entry_lookup(pane_entries(*m), key@) is Some,
{
    m.contains_key(key)
}

/// `IndexMap::insert` for panes.
#[verifier::external_body]
pub(crate) fn pane_map_insert(m: &mut IndexMap<String, Pane>, key: String, value: Pane)
    ensures
        pane_entries(*final(m)) == entry_insert(pane_entries(*old(m)), key@, value@),
{
    m.insert(key, value);
}

/// `IndexMap::clear` for panes.
#[verifier::external_body]
pub(crate) fn pane_map_clear(m: &mut IndexMap<String, Pane>)
    ensures
        pane_entries(*final(m)) == Seq::<(Seq<char>, PaneView)>::empty(),
{
    m.clear();
}

} // verus!
