//! The tree filter: a query narrows the rows to those whose label matches
//! it, together with the parent rows of each match, so the tree stays a tree.

use vstd::prelude::*;

use crate::state::{strs, AppState, InputMode, TreeModel};
use crate::store::{entry_lookup, pane_map_get, session_map_get, window_map_get};
use crate::text::chars_of;
use crate::tree_view::{display_name, line_views, pane_name, tree_lines, LineView, TreeLine};

verus! {

/// ASCII letters folded to lower case; every other character as it is.
pub open spec fn lower(c: char) -> char {
    if 'A' <= c && c <= 'Z' {
        ((c as u32) + 32) as char
    } else {
        c
    }
}

/// A fuzzy match: the characters of `q` occur in `t` in order, not
/// necessarily next to each other, ignoring ASCII case. The empty query
/// matches everything.
pub open spec fn fuzzy(q: Seq<char>, t: Seq<char>) -> bool
    decreases t.len(),
{
    if q.len() == 0 {
        true
    } else if t.len() == 0 {
        false
    } else if lower(q.last()) == lower(t.last()) {
        fuzzy(q.drop_last(), t.drop_last())
    } else {
        fuzzy(q, t.drop_last())
    }
}

/// What the tree shows for a row: a session's or a window's name, a pane's
/// running command (else its title); an id that names nothing is its own label.
pub open spec fn row_label(m: TreeModel, r: Seq<char>) -> Seq<char> {
    match entry_lookup(m.sessions, r) {
        Some(s) => s.name,
        None => match entry_lookup(m.windows, r) {
            Some(w) => w.name,
            None => match entry_lookup(m.panes, r) {
                Some(p) => display_name(p),
                None => r,
            },
        },
    }
}

/// The ids above a row: a window's session; a pane's window and that
/// window's session.
pub open spec fn parent_ids(m: TreeModel, r: Seq<char>) -> Seq<Seq<char>> {
    if entry_lookup(m.sessions, r) is Some {
        Seq::empty()
    } else if entry_lookup(m.windows, r) is Some {
        seq![entry_lookup(m.windows, r).unwrap().session_id]
    } else if entry_lookup(m.panes, r) is Some {
        let wid = entry_lookup(m.panes, r).unwrap().window_id;
        match entry_lookup(m.windows, wid) {
            Some(w) => seq![w.session_id, wid],
            None => seq![wid],
        }
    } else {
        Seq::empty()
    }
}

/// A row stays when its label matches, or when it is above a row of `rows`
/// whose label matches.
pub open spec fn kept(m: TreeModel, q: Seq<char>, rows: Seq<Seq<char>>, r: Seq<char>) -> bool {
    fuzzy(q, row_label(m, r)) || exists|j: int|
        0 <= j < rows.len() && fuzzy(q, row_label(m, rows[j])) && #[trigger] parent_ids(m, rows[j]).contains(r)
}

/// The rows of `rs` that stay, in order.
pub open spec fn keep_rows(m: TreeModel, q: Seq<char>, rows: Seq<Seq<char>>, rs: Seq<Seq<char>>) -> Seq<Seq<char>>
    decreases rs.len(),
{
    if rs.len() == 0 {
        Seq::empty()
    } else if kept(m, q, rows, rs.last()) {
        keep_rows(m, q, rows, rs.drop_last()).push(rs.last())
    } else {
        keep_rows(m, q, rows, rs.drop_last())
    }
}

/// The query in force: the line being typed while filtering, else the
/// filter left applied, else none.
pub open spec fn active_query(st: AppState) -> Seq<char> {
    match st.input_mode {
        InputMode::Filtering { input } => input@,
        _ => match st.filter {
            Some(q) => q@,
            None => Seq::empty(),
        },
    }
}

/// The rows the tree shows: all of them without a query, else those the
/// query keeps.
pub open spec fn shown_rows(st: AppState) -> Seq<Seq<char>> {
    let q = active_query(st);
    if q.len() == 0 {
        st.visible_rows()
    } else {
        keep_rows(st.model(), q, st.visible_rows(), st.visible_rows())
    }
}

/// The lines of `ls` whose row stays, in order.
pub open spec fn keep_lines(m: TreeModel, q: Seq<char>, rows: Seq<Seq<char>>, ls: Seq<LineView>) -> Seq<LineView>
    decreases ls.len(),
{
    if ls.len() == 0 {
        Seq::empty()
    } else if kept(m, q, rows, ls.last().id) {
        keep_lines(m, q, rows, ls.drop_last()).push(ls.last())
    } else {
        keep_lines(m, q, rows, ls.drop_last())
    }
}

/// The sidebar lines under the query in force, top to bottom.
pub open spec fn shown_lines(st: AppState) -> Seq<LineView> {
    let q = active_query(st);
    if q.len() == 0 {
        tree_lines(st.model())
    } else {
        keep_lines(st.model(), q, st.visible_rows(), tree_lines(st.model()))
    }
}

/// The part of `s` a window of `height` items starting at `offset` shows.
pub open spec fn on_screen<A>(s: Seq<A>, offset: int, height: int) -> Seq<A> {
    let a = if offset < s.len() { offset } else { s.len() as int };
    let b = if a + height < s.len() { a + height } else { s.len() as int };
    s.subrange(a, b)
}

fn lower_char(c: char) -> (r: char)
    ensures
        r == lower(c),
{
    if 'A' <= c && c <= 'Z' {
        ((c as u8) + 32) as char
    } else {
        c
    }
}

/// Whether `q` fuzzily matches `t`: see [`fuzzy`].
pub fn fuzzy_matches(q: &[char], t: &[char]) -> (b: bool)
    ensures
        b == fuzzy(q@, t@),
{
    let mut i: usize = q.len();
    let mut j: usize = t.len();
    assert(q@.take(i as int) =~= q@);
    assert(t@.take(j as int) =~= t@);
    while i > 0 && j > 0
        invariant
            i <= q.len(),
            j <= t.len(),
            fuzzy(q@, t@) == fuzzy(q@.take(i as int), t@.take(j as int)),
        decreases j,
    {
        let ghost qi = q@.take(i as int);
        let ghost tj = t@.take(j as int);
        assert(qi.last() == q@[i - 1]);
        assert(tj.last() == t@[j - 1]);
        assert(tj.drop_last() =~= t@.take(j - 1));
        if lower_char(q[i - 1]) == lower_char(t[j - 1]) {
            assert(qi.drop_last() =~= q@.take(i - 1));
            i = i - 1;
        }
        j = j - 1;
    }
    if i > 0 {
        assert(t@.take(j as int).len() == 0);
    }
    i == 0
}

impl AppState {
    /// The label the tree shows for a row: see [`row_label`].
    fn label_of(&self, r: &str) -> (l: Vec<char>)
        ensures
            l@ == row_label(self.model(), r@),
    {
        match session_map_get(&self.sessions, r) {
            Some(s) => chars_of(s.name.as_str()),
            None => match window_map_get(&self.windows, r) {
                Some(w) => chars_of(w.name.as_str()),
                None => match pane_map_get(&self.panes, r) {
                    Some(p) => chars_of(pane_name(p).as_str()),
                    None => chars_of(r),
                },
            },
        }
    }

    /// Whether `r` is above a row: see [`parent_ids`].
    fn is_parent_of(&self, r: &str, child: &str) -> (b: bool)
        ensures
            b == parent_ids(self.model(), child@).contains(r@),
    {
        if session_map_get(&self.sessions, child).is_some() {
            assert(parent_ids(self.model(), child@) =~= Seq::<Seq<char>>::empty());
            return false;
        }
        match window_map_get(&self.windows, child) {
            Some(w) => {
                let b = crate::text::chars_eq(chars_of(w.session_id.as_str()).as_slice(), chars_of(r).as_slice());
                assert(parent_ids(self.model(), child@) =~= seq![w.session_id@]);
                assert(b ==> seq![w.session_id@][0] == r@);
                b
            },
            None => match pane_map_get(&self.panes, child) {
                Some(p) => {
                    let by_window = crate::text::chars_eq(chars_of(p.window_id.as_str()).as_slice(), chars_of(r).as_slice());
                    match window_map_get(&self.windows, p.window_id.as_str()) {
                        Some(w) => {
                            let by_session = crate::text::chars_eq(
                                chars_of(w.session_id.as_str()).as_slice(),
                                chars_of(r).as_slice(),
                            );
                            let ghost ps = seq![w.session_id@, p.window_id@];
                            assert(parent_ids(self.model(), child@) =~= ps);
                            assert(ps.contains(r@) <==> (ps[0] == r@ || ps[1] == r@));
                            by_session || by_window
                        },
                        None => {
                            let ghost ps = seq![p.window_id@];
                            assert(parent_ids(self.model(), child@) =~= ps);
                            assert(ps.contains(r@) <==> ps[0] == r@);
                            by_window
                        },
                    }
                },
                None => {
                    assert(parent_ids(self.model(), child@) =~= Seq::<Seq<char>>::empty());
                    false
                },
            },
        }
    }

    /// The query in force: see [`active_query`].
    pub fn query(&self) -> (q: Vec<char>)
        ensures
            q@ == active_query(*self),
    {
        match &self.input_mode {
            InputMode::Filtering { input } => chars_of(input.as_str()),
            _ => match &self.filter {
                Some(f) => chars_of(f.as_str()),
                None => Vec::new(),
            },
        }
    }

    /// For each row, whether its label matches `q`.
    fn matching(&self, q: &Vec<char>, rows: &Vec<String>) -> (b: Vec<bool>)
        ensures
            b.len() == rows.len(),
            forall|j: int| 0 <= j < rows.len() ==> b@[j] == fuzzy(q@, row_label(self.model(), strs(rows@)[j])),
    {
        let ghost all = strs(rows@);
        let mut matching: Vec<bool> = Vec::new();
        let mut k: usize = 0;
        while k < rows.len()
            invariant
                k <= rows.len(),
                matching.len() == k,
                all == strs(rows@),
                forall|j: int| 0 <= j < k ==> matching@[j] == fuzzy(q@, row_label(self.model(), all[j])),
            decreases rows.len() - k,
        {
            assert(all[k as int] == rows@[k as int]@);
            let l = self.label_of(rows[k].as_str());
            matching.push(fuzzy_matches(q.as_slice(), l.as_slice()));
            k = k + 1;
        }
        matching
    }

    /// Whether the row `r` stays: see [`kept`].
    fn keeps(&self, q: &Vec<char>, rows: &Vec<String>, matching: &Vec<bool>, r: &str) -> (keep: bool)
        requires
            matching.len() == rows.len(),
            forall|j: int| 0 <= j < rows.len() ==> matching@[j] == fuzzy(q@, row_label(self.model(), strs(rows@)[j])),
        ensures
            keep == kept(self.model(), q@, strs(rows@), r@),
    {
        let ghost m = self.model();
        let ghost all = strs(rows@);
        let l = self.label_of(r);
        let mut keep = fuzzy_matches(q.as_slice(), l.as_slice());
        let mut j: usize = 0;
        while j < rows.len() && !keep
            invariant
                j <= rows.len(),
                matching.len() == rows.len(),
                all == strs(rows@),
                m == self.model(),
                forall|x: int| 0 <= x < rows.len() ==> matching@[x] == fuzzy(q@, row_label(m, all[x])),
                keep ==> kept(m, q@, all, r@),
                !keep ==> !fuzzy(q@, row_label(m, r@)) && forall|x: int|
                    0 <= x < j ==> !(fuzzy(q@, row_label(m, all[x])) && #[trigger] parent_ids(m, all[x]).contains(r@)),
            decreases rows.len() - j,
        {
            assert(all[j as int] == rows@[j as int]@);
            if matching[j] && self.is_parent_of(r, rows[j].as_str()) {
                keep = true;
            }
            j = j + 1;
        }
        keep
    }

    /// The ids of the rows the tree shows under the query in force, top to
    /// bottom: see [`shown_rows`].
    pub fn filtered_rows(&self) -> (list: Vec<String>)
        ensures
            strs(list@) == shown_rows(*self),
    {
        let q = self.query();
        let rows = self.get_dynamic_visible_items();
        if q.len() == 0 {
            return rows;
        }
        let ghost m = self.model();
        let ghost all = strs(rows@);
        let matching = self.matching(&q, &rows);
        let mut out: Vec<String> = Vec::new();
        let mut i: usize = 0;
        while i < rows.len()
            invariant
                i <= rows.len(),
                matching.len() == rows.len(),
                all == strs(rows@),
                m == self.model(),
                q@ == active_query(*self),
                forall|j: int| 0 <= j < rows.len() ==> matching@[j] == fuzzy(q@, row_label(m, all[j])),
                strs(out@) == keep_rows(m, q@, all, all.take(i as int)),
            decreases rows.len() - i,
        {
            let r = &rows[i];
            assert(all[i as int] == r@);
            let keep = self.keeps(&q, &rows, &matching, r.as_str());
            let ghost before = out@;
            if keep {
                out.push(r.clone());
                assert(strs(out@) =~= strs(before).push(r@));
            }
            assert(all.take(i + 1).drop_last() =~= all.take(i as int));
            assert(all.take(i + 1).last() == r@);
            i = i + 1;
        }
        assert(all.take(i as int) =~= all);
        out
    }

    /// The sidebar lines drawn in `height` rows: the lines the query in force
    /// keeps, from the scroll offset on, as many as fit.
    pub fn drawn_lines(&self, height: usize) -> (lines: Vec<TreeLine>)
        ensures
            line_views(lines@) == on_screen(shown_lines(*self), self.focus.scroll_offset as int, height as int),
    {
        let q = self.query();
        let all_lines = self.tree_lines();
        let ghost m = self.model();
        let ghost lv = line_views(all_lines@);
        let mut kept_lines: Vec<TreeLine> = Vec::new();
        if q.len() == 0 {
            kept_lines = all_lines;
        } else {
            let rows = self.get_dynamic_visible_items();
            let matching = self.matching(&q, &rows);
            let mut i: usize = 0;
            let mut src = all_lines;
            while i < src.len()
                invariant
                    i <= src.len(),
                    line_views(src@) == lv,
                    lv == tree_lines(m),
                    m == self.model(),
                    q@ == active_query(*self),
                    q@.len() > 0,
                    strs(rows@) == self.visible_rows(),
                    matching.len() == rows.len(),
                    forall|j: int| 0 <= j < rows.len() ==> matching@[j] == fuzzy(q@, row_label(m, strs(rows@)[j])),
                    line_views(kept_lines@) == keep_lines(m, q@, strs(rows@), lv.take(i as int)),
                decreases src.len() - i,
            {
                assert(lv[i as int] == src@[i as int]@);
                let keep = self.keeps(&q, &rows, &matching, src[i].id.as_str());
                let ghost before = kept_lines@;
                if keep {
                    kept_lines.push(src[i].duplicate());
                    assert(line_views(kept_lines@) =~= line_views(before).push(lv[i as int]));
                }
                assert(lv.take(i + 1).drop_last() =~= lv.take(i as int));
                assert(lv.take(i + 1).last() == lv[i as int]);
                i = i + 1;
            }
            assert(lv.take(i as int) =~= lv);
        }
        let ghost kv = line_views(kept_lines@);
        assert(kv == shown_lines(*self));
        let off = self.focus.scroll_offset;
        let a = if off < kept_lines.len() { off } else { kept_lines.len() };
        let b = if height < kept_lines.len() - a { a + height } else { kept_lines.len() };
        let mut out: Vec<TreeLine> = Vec::new();
        let mut k: usize = a;
        while k < b
            invariant
                a <= k <= b,
                b <= kept_lines.len(),
                line_views(kept_lines@) == kv,
                line_views(out@) == kv.subrange(a as int, k as int),
            decreases b - k,
        {
            let ghost before = out@;
            out.push(kept_lines[k].duplicate());
            assert(kv[k as int] == kept_lines@[k as int]@);
            assert(line_views(out@) =~= line_views(before).push(kv[k as int]));
            assert(kv.subrange(a as int, k + 1) =~= kv.subrange(a as int, k as int).push(kv[k as int]));
            k = k + 1;
        }
        out
    }
}

} // verus!
