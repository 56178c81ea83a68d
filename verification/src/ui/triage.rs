//! The Bear triage screen: rows grouped under their notes, marks, filter,
//! cursor. Every action (load, add, open, tick) is executed by the
//! application; this is display state.

use vstd::prelude::*;

use super::field::Field;
use super::rows::{
    display_width, fit, fitted, max0, push_span, span, span_views, spaces, spaces_of, spans_width, width_of, width_sum,
    Span, SpanView,
};
use super::theme::{color, dim, dim_style, fg, fg_style, plain, plain_style, tone_color, Style, Tone};
use crate::dates::{humanize, humanize_due, valid_datetime, DateTime};
use crate::models::same_str;
use crate::text::{
    chars_of, contains, contains_chars, copy_strings, dec, decimal, join, join_strings, lowercase, push_all,
    push_str, string_of, string_views, to_lower,
};
use crate::todos::{todo_key, Todo};
use crate::triage::{row_status, Status, TriageRow};

verus! {

#[derive(Debug, Clone, PartialEq, Eq)]
pub enum TriageLine {
    Blank,
    Header { title: String, tags: Vec<String> },
    /// Index into `Triage::rows`.
    Todo(usize),
}

/// A line as plain values.
pub enum LineView {
    Blank,
    Header(Seq<char>, Seq<Seq<char>>),
    Todo(int),
}

impl TriageLine {
    pub open spec fn view(&self) -> LineView {
        match self {
            TriageLine::Blank => LineView::Blank,
            TriageLine::Header { title, tags } => LineView::Header(title@, string_views(tags@)),
            TriageLine::Todo(i) => LineView::Todo(*i as int),
        }
    }
}

/// The plain values of a run of lines.
pub open spec fn line_views(ls: Seq<TriageLine>) -> Seq<LineView> {
    ls.map_values(|l: TriageLine| l.view())
}

/// A note's heading on the screen: its title, or "(untitled)".
pub open spec fn header_title(t: Todo) -> Seq<char> {
    if t.note_title@.len() == 0 {
        "(untitled)"@
    } else {
        t.note_title@
    }
}

/// Whether a row shows under a filter: an empty filter shows everything,
/// else the todo's text or its note's title must hold the filter, without
/// regard to case.
pub open spec fn row_shown(row: TriageRow, filter: Seq<char>) -> bool {
    let needle = lowercase(filter);
    ||| needle.len() == 0
    ||| contains(lowercase(row.todo.text@), needle)
    ||| contains(lowercase(row.todo.note_title@), needle)
}

/// The indices of the rows a filter shows, in order.
pub open spec fn shown_rows(rows: Seq<TriageRow>, filter: Seq<char>, n: int) -> Seq<int>
    decreases n,
{
    if n <= 0 {
        Seq::empty()
    } else {
        let r = shown_rows(rows, filter, n - 1);
        if row_shown(rows[n - 1], filter) {
            r.push(n - 1)
        } else {
            r
        }
    }
}

/// The shown rows grouped under note headers, a blank line between notes.
pub open spec fn grouped(rows: Seq<TriageRow>, vis: Seq<int>) -> Seq<LineView>
    decreases vis.len(),
{
    if vis.len() == 0 {
        Seq::empty()
    } else {
        let prev = grouped(rows, vis.drop_last());
        let t = rows[vis.last()].todo;
        let opened = vis.len() == 1 || rows[vis[vis.len() - 2]].todo.note_id@ != t.note_id@;
        let with_head = if opened {
            (if vis.len() > 1 {
                prev.push(LineView::Blank)
            } else {
                prev
            }).push(LineView::Header(header_title(t), string_views(t.note_tags@)))
        } else {
            prev
        };
        with_head.push(LineView::Todo(vis.last()))
    }
}

/// Row `i` is the todo with this (key, line).
pub open spec fn row_is(rows: Seq<TriageRow>, i: int, keep: (Seq<char>, Seq<char>)) -> bool {
    0 <= i < rows.len() && todo_key(rows[i].todo.note_id@, rows[i].todo.text@) == keep.0
        && rows[i].todo.line@ == keep.1
}

/// The first line, from `from` on, that shows the kept todo.
pub open spec fn kept_line(lines: Seq<LineView>, rows: Seq<TriageRow>, keep: (Seq<char>, Seq<char>), from: int) -> Option<int>
    decreases lines.len() - from,
{
    if from < 0 || from >= lines.len() {
        None
    } else if lines[from] matches LineView::Todo(i) && row_is(rows, i, keep) {
        Some(from)
    } else {
        kept_line(lines, rows, keep, from + 1)
    }
}

/// The next todo line from `from` in steps of `dir`, if one lies within the lines.
pub open spec fn step_target(lines: Seq<LineView>, from: int, dir: int) -> Option<int>
    decreases (if dir > 0 {
        lines.len() - from
    } else if dir < 0 {
        from + 1
    } else {
        0
    }),
{
    let i = from + dir;
    if dir == 0 || i < 0 || i >= lines.len() {
        None
    } else if lines[i] is Todo {
        Some(i)
    } else {
        step_target(lines, i, dir)
    }
}

/// The cursor after a regrouping: on the kept todo when it is still shown,
/// else on the second line, moved down to a todo when it is not on one.
pub open spec fn regrouped_cursor(lines: Seq<LineView>, rows: Seq<TriageRow>, keep: Option<(Seq<char>, Seq<char>)>) -> int {
    let wanted = match keep {
        Some(k) => match kept_line(lines, rows, k, 0) {
            Some(j) => j,
            None => 1,
        },
        None => 1,
    };
    let last = if lines.len() > 0 {
        lines.len() - 1
    } else {
        0
    };
    let c = if wanted < last {
        wanted
    } else {
        last
    };
    if lines.len() > 0 && !(lines[c] is Todo) {
        match step_target(lines, c, 1) {
            Some(j) => j,
            None => c,
        }
    } else {
        c
    }
}

/// The marked keys as a set.
pub open spec fn key_set(v: Seq<String>) -> Set<Seq<char>> {
    string_views(v).to_set()
}

/// No key is marked twice.
pub open spec fn no_repeats(v: Seq<String>) -> bool {
    forall|i: int, j: int| 0 <= i < j < v.len() ==> v[i]@ != v[j]@
}

/// The marked keys after toggling `key`: out when it was in, in when not.
pub open spec fn toggled(marks: Set<Seq<char>>, key: Seq<char>) -> Set<Seq<char>> {
    if marks.contains(key) {
        marks.remove(key)
    } else {
        marks.insert(key)
    }
}

/// Toggling a key twice leaves the marks as they were.
pub proof fn law_toggle_twice(marks: Set<Seq<char>>, key: Seq<char>)
    ensures
        toggled(toggled(marks, key), key) == marks,
{
    if marks.contains(key) {
        assert(marks.remove(key).insert(key) =~= marks);
    } else {
        assert(marks.insert(key).remove(key) =~= marks);
    }
}

#[derive(Debug, Clone)]
pub struct Triage {
    pub rows: Vec<TriageRow>,
    pub locked: usize,
    /// Todo keys marked for adding, each once.
    pub marked: Vec<String>,
    pub filter_text: String,
    pub filter: Option<Field>,
    pub filter_focused: bool,
    pub lines: Vec<TriageLine>,
    /// Index into `lines`, always on a `Todo` line when there is one.
    pub cursor: usize,
    pub scroll: usize,
    pub error: String,
    pub added_any: bool,
    pub adding: bool,
    pub loading: bool,
    pub loaded: bool,
    pub target_list: String,
    pub due: String,
}

impl Triage {
    /// The lines as plain values.
    pub open spec fn line_view(&self) -> Seq<LineView> {
        line_views(self.lines@)
    }

    /// The cursor stands on a todo line whenever there is a line, and every
    /// todo line names a row.
    pub open spec fn cursor_on_todo(&self) -> bool {
        &&& self.lines@.len() > 0 ==> self.cursor < self.lines@.len() && self.line_view()[self.cursor as int] is Todo
        &&& forall|j: int| 0 <= j < self.lines@.len() ==> (#[trigger] self.line_view()[j] matches LineView::Todo(i) ==> 0 <= i < self.rows@.len())
    }

    pub fn new(target_list: &str, due: &str) -> (t: Triage)
        ensures
            t.rows@.len() == 0,
            t.locked == 0,
            t.marked@.len() == 0,
            t.filter_text@ == Seq::<char>::empty(),
            t.filter is None,
            !t.filter_focused,
            t.lines@.len() == 0,
            t.cursor == 0,
            t.scroll == 0,
            t.error@ == Seq::<char>::empty(),
            !t.added_any && !t.adding && !t.loading && !t.loaded,
            t.target_list@ == target_list@,
            t.due@ == due@,
    {
        Triage {
            rows: Vec::new(),
            locked: 0,
            marked: Vec::new(),
            filter_text: String::new(),
            filter: None,
            filter_focused: false,
            lines: Vec::new(),
            cursor: 0,
            scroll: 0,
            error: String::new(),
            added_any: false,
            adding: false,
            loading: false,
            loaded: false,
            target_list: string_of(chars_of(target_list).as_slice()),
            due: string_of(chars_of(due).as_slice()),
        }
    }

    /// The indices of the rows the filter shows.
    fn visible(&self) -> (r: Vec<usize>)
        ensures
            r@.map_values(|i: usize| i as int) == shown_rows(self.rows@, self.filter_text@, self.rows@.len() as int),
            forall|k: int| 0 <= k < r@.len() ==> r@[k] < self.rows@.len(),
    {
        let needle = to_lower(self.filter_text.as_str());
        let nv = chars_of(needle.as_str());
        let mut out: Vec<usize> = Vec::new();
        let mut i: usize = 0;
        while i < self.rows.len()
            invariant
                i <= self.rows@.len(),
                nv@ == lowercase(self.filter_text@),
                out@.map_values(|i: usize| i as int) == shown_rows(self.rows@, self.filter_text@, i as int),
                forall|k: int| 0 <= k < out@.len() ==> out@[k] < i,
            decreases self.rows.len() - i,
        {
            let row = &self.rows[i];
            let shown = if nv.len() == 0 {
                true
            } else {
                let text = to_lower(row.todo.text.as_str());
                if contains_chars(chars_of(text.as_str()).as_slice(), nv.as_slice()) {
                    true
                } else {
                    let title = to_lower(row.todo.note_title.as_str());
                    contains_chars(chars_of(title.as_str()).as_slice(), nv.as_slice())
                }
            };
            assert(shown == row_shown(self.rows@[i as int], self.filter_text@));
            if shown {
                let ghost before = out@.map_values(|i: usize| i as int);
                out.push(i);
                assert(out@.map_values(|i: usize| i as int) =~= before.push(i as int));
            }
            i += 1;
        }
        out
    }

    /// The row under the cursor, when the cursor is on a todo line.
    pub fn current_row(&self) -> (r: Option<&TriageRow>)
        ensures
            match r {
                Some(row) => self.cursor < self.lines@.len() && (self.line_view()[self.cursor as int] matches LineView::Todo(i)
                    && 0 <= i < self.rows@.len() && *row == self.rows@[i]),
                None => !(self.cursor < self.lines@.len() && (self.line_view()[self.cursor as int] matches LineView::Todo(i)
                    && 0 <= i < self.rows@.len())),
            },
    {
        if self.cursor < self.lines.len() {
            match &self.lines[self.cursor] {
                TriageLine::Todo(i) => if *i < self.rows.len() {
                    Some(&self.rows[*i])
                } else {
                    None
                },
                _ => None,
            }
        } else {
            None
        }
    }

    /// Move the cursor to the next todo line in `direction`.
    pub fn step(&mut self, direction: i64)
        requires
            direction != 0 || old(self).cursor >= old(self).lines@.len() || old(self).line_view()[old(self).cursor as int] is Todo,
            old(self).lines@.len() + (if direction < 0 { -(direction as int) } else { direction as int }) <= i64::MAX,
            old(self).cursor + (if direction < 0 { -(direction as int) } else { direction as int }) <= i64::MAX,
        ensures
            *final(self) == (Triage {
                cursor: match step_target(old(self).line_view(), old(self).cursor as int, direction as int) {
                    Some(j) => j as usize,
                    None => old(self).cursor,
                },
                ..*old(self)
            }),
    {
        if direction == 0 {
            return;
        }
        let len = self.lines.len() as i64;
        let mut index = self.cursor as i64;
        loop
            invariant
                direction != 0,
                *self == *old(self),
                len == self.lines@.len(),
                self.lines@.len() <= usize::MAX,
                0 <= index,
                index <= self.cursor || index < len,
                len + (if direction < 0 { -(direction as int) } else { direction as int }) <= i64::MAX,
                self.cursor + (if direction < 0 { -(direction as int) } else { direction as int }) <= i64::MAX,
                step_target(self.line_view(), self.cursor as int, direction as int) == step_target(self.line_view(), index as int, direction as int),
            decreases (if direction > 0 {
                len - index
            } else {
                index + 1
            }),
        {
            let ghost before = index;
            index = index + direction;
            if index < 0 || index >= len {
                return;
            }
            assert(self.line_view()[index as int] == self.lines@[index as int].view());
            assert(step_target(self.line_view(), before as int, direction as int) == if self.line_view()[index as int] is Todo {
                Some(index as int)
            } else {
                step_target(self.line_view(), index as int, direction as int)
            });
            let at = index as usize;
            assert(at as int == index as int);
            let line = &self.lines[at];
            assert(*line == self.lines@[index as int]);
            match line {
                TriageLine::Todo(_) => {
                    assert(self.line_view()[index as int] is Todo);
                    assert(step_target(self.line_view(), self.cursor as int, direction as int) == Some(index as int));
                    self.cursor = index as usize;
                    return;
                },
                _ => {
                    assert(!(self.line_view()[index as int] is Todo));
                },
            }
        }
    }
}

proof fn lemma_step_target_is_todo(lines: Seq<LineView>, from: int, dir: int)
    ensures
        step_target(lines, from, dir) matches Some(j) ==> 0 <= j < lines.len() && lines[j] is Todo,
    decreases (if dir > 0 {
        lines.len() - from
    } else if dir < 0 {
        from + 1
    } else {
        0
    }),
{
    let i = from + dir;
    if dir != 0 && 0 <= i < lines.len() && !(lines[i] is Todo) {
        lemma_step_target_is_todo(lines, i, dir);
    }
}

proof fn lemma_step_down_finds(lines: Seq<LineView>, from: int)
    requires
        0 <= from < lines.len() - 1,
        lines.last() is Todo,
    ensures
        step_target(lines, from, 1) is Some,
    decreases lines.len() - from,
{
    if !(lines[from + 1] is Todo) {
        lemma_step_down_finds(lines, from + 1);
    }
}

proof fn lemma_kept_extends(s1: Seq<LineView>, s2: Seq<LineView>, rows: Seq<TriageRow>, keep: (Seq<char>, Seq<char>), from: int)
    requires
        0 <= from <= s1.len() <= s2.len(),
        s2.take(s1.len() as int) == s1,
    ensures
        kept_line(s1, rows, keep, from) matches Some(j) ==> kept_line(s2, rows, keep, from) == Some(j),
        kept_line(s1, rows, keep, from) is None ==> kept_line(s2, rows, keep, from) == kept_line(s2, rows, keep, s1.len() as int),
    decreases s1.len() - from,
{
    if from < s1.len() {
        assert(s2[from] == s1[from]);
        lemma_kept_extends(s1, s2, rows, keep, from + 1);
    }
}

proof fn lemma_grouped_shape(rows: Seq<TriageRow>, vis: Seq<int>)
    requires
        forall|k: int| 0 <= k < vis.len() ==> 0 <= #[trigger] vis[k] < rows.len(),
    ensures
        vis.len() > 0 ==> grouped(rows, vis).len() > 0 && grouped(rows, vis).last() is Todo,
        forall|j: int| 0 <= j < grouped(rows, vis).len() ==> (#[trigger] grouped(rows, vis)[j] matches LineView::Todo(i) ==> 0 <= i < rows.len()),
        grouped(rows, vis).len() <= 3 * vis.len(),
    decreases vis.len(),
{
    if vis.len() > 0 {
        let prev = vis.drop_last();
        assert forall|k: int| 0 <= k < prev.len() implies 0 <= #[trigger] prev[k] < rows.len() by {
            assert(prev[k] == vis[k]);
        }
        lemma_grouped_shape(rows, prev);
        let g = grouped(rows, vis);
        let p = grouped(rows, prev);
        assert forall|j: int| 0 <= j < g.len() implies (#[trigger] g[j] matches LineView::Todo(i) ==> 0 <= i < rows.len()) by {
            if j < p.len() {
                assert(g[j] == p[j]);
            }
        }
    }
}

proof fn lemma_step_down_is_first(lines: Seq<LineView>, from: int, to: int)
    requires
        0 <= from < to < lines.len(),
        lines[to] is Todo,
        forall|j: int| from < j < to ==> !(#[trigger] lines[j] is Todo),
    ensures
        step_target(lines, from, 1) == Some(to),
    decreases to - from,
{
    if from + 1 < to {
        lemma_step_down_is_first(lines, from + 1, to);
    }
}

/// The rows the todo lines show, in the order the lines stand.
pub open spec fn todo_entries(lines: Seq<LineView>) -> Seq<int>
    decreases lines.len(),
{
    if lines.len() == 0 {
        Seq::empty()
    } else {
        let p = todo_entries(lines.drop_last());
        match lines.last() {
            LineView::Todo(i) => p.push(i),
            _ => p,
        }
    }
}

/// `m` is the place, among the shown rows `vis`, of the first one that is
/// the kept todo.
pub open spec fn first_kept(rows: Seq<TriageRow>, vis: Seq<int>, keep: (Seq<char>, Seq<char>), m: int) -> bool {
    &&& 0 <= m < vis.len()
    &&& row_is(rows, vis[m], keep)
    &&& forall|n: int| 0 <= n < m ==> !row_is(rows, #[trigger] vis[n], keep)
}

proof fn lemma_shown_rows(rows: Seq<TriageRow>, filter: Seq<char>, n: int)
    requires
        0 <= n <= rows.len(),
    ensures
        forall|a: int| 0 <= a < shown_rows(rows, filter, n).len() ==> 0 <= #[trigger] shown_rows(rows, filter, n)[a] < n,
        forall|a: int, b: int|
            0 <= a < b < shown_rows(rows, filter, n).len() ==> #[trigger] shown_rows(rows, filter, n)[a] < #[trigger] shown_rows(rows, filter, n)[b],
        forall|i: int| 0 <= i < n ==> (#[trigger] shown_rows(rows, filter, n).contains(i) <==> row_shown(rows[i], filter)),
    decreases n,
{
    if n > 0 {
        lemma_shown_rows(rows, filter, n - 1);
        let r = shown_rows(rows, filter, n - 1);
        let s = shown_rows(rows, filter, n);
        if row_shown(rows[n - 1], filter) {
            assert(s == r.push(n - 1));
            assert forall|i: int| 0 <= i < n implies (#[trigger] s.contains(i) <==> row_shown(rows[i], filter)) by {
                if i < n - 1 {
                    if s.contains(i) {
                        let a = choose|a: int| 0 <= a < s.len() && s[a] == i;
                        if a < r.len() {
                            assert(r[a] == i);
                        }
                    }
                    if r.contains(i) {
                        let a = choose|a: int| 0 <= a < r.len() && r[a] == i;
                        assert(s[a] == i);
                    }
                } else {
                    assert(s[r.len() as int] == n - 1);
                }
            }
        } else {
            assert(s == r);
            assert forall|i: int| 0 <= i < n implies (#[trigger] s.contains(i) <==> row_shown(rows[i], filter)) by {
                if i == n - 1 && s.contains(i) {
                    let a = choose|a: int| 0 <= a < s.len() && s[a] == i;
                    assert(r[a] < n - 1);
                }
            }
        }
    }
}

proof fn lemma_todo_entries_grouped(rows: Seq<TriageRow>, vis: Seq<int>)
    ensures
        todo_entries(grouped(rows, vis)) == vis,
    decreases vis.len(),
{
    if vis.len() > 0 {
        let prev = vis.drop_last();
        lemma_todo_entries_grouped(rows, prev);
        let p = grouped(rows, prev);
        let g = grouped(rows, vis);
        let t = rows[vis.last()].todo;
        let hd = LineView::Header(header_title(t), string_views(t.note_tags@));
        let opened = vis.len() == 1 || rows[vis[vis.len() - 2]].todo.note_id@ != t.note_id@;
        let b = if vis.len() > 1 {
            p.push(LineView::Blank)
        } else {
            p
        };
        let with_head = if opened {
            b.push(hd)
        } else {
            p
        };
        assert(g == with_head.push(LineView::Todo(vis.last())));
        assert(g.drop_last() =~= with_head);
        assert(p.push(LineView::Blank).drop_last() =~= p);
        assert(todo_entries(b) == todo_entries(p));
        assert(b.push(hd).drop_last() =~= b);
        assert(todo_entries(with_head) == prev);
        assert(prev.push(vis.last()) =~= vis);
    }
}

proof fn lemma_kept_tail(s: Seq<LineView>, rows: Seq<TriageRow>, keep: (Seq<char>, Seq<char>), from: int)
    requires
        0 <= from < s.len(),
        forall|j: int| from <= j < s.len() - 1 ==> !(#[trigger] s[j] is Todo),
    ensures
        kept_line(s, rows, keep, from) == (match s.last() {
            LineView::Todo(i) => if row_is(rows, i, keep) {
                Some(s.len() - 1)
            } else {
                None::<int>
            },
            _ => None::<int>,
        }),
    decreases s.len() - from,
{
    if from < s.len() - 1 {
        lemma_kept_tail(s, rows, keep, from + 1);
    } else {
        assert(kept_line(s, rows, keep, from + 1) is None);
    }
}

proof fn lemma_kept_found(s: Seq<LineView>, rows: Seq<TriageRow>, keep: (Seq<char>, Seq<char>), from: int)
    requires
        0 <= from,
    ensures
        kept_line(s, rows, keep, from) matches Some(j) ==> from <= j < s.len() && (s[j] matches LineView::Todo(i) && row_is(rows, i, keep)),
    decreases s.len() - from,
{
    if from < s.len() {
        lemma_kept_found(s, rows, keep, from + 1);
    }
}

proof fn lemma_kept_grouped(rows: Seq<TriageRow>, vis: Seq<int>, keep: (Seq<char>, Seq<char>))
    ensures
        (forall|m: int| 0 <= m < vis.len() ==> !row_is(rows, #[trigger] vis[m], keep)) ==> kept_line(grouped(rows, vis), rows, keep, 0) is None,
        forall|m: int| #[trigger] first_kept(rows, vis, keep, m) ==> (kept_line(grouped(rows, vis), rows, keep, 0) matches Some(j)
            && 0 <= j < grouped(rows, vis).len() && grouped(rows, vis)[j] == LineView::Todo(vis[m])),
    decreases vis.len(),
{
    if vis.len() > 0 {
        let prev = vis.drop_last();
        lemma_kept_grouped(rows, prev, keep);
        let p = grouped(rows, prev);
        let g = grouped(rows, vis);
        let t = rows[vis.last()].todo;
        let hd = LineView::Header(header_title(t), string_views(t.note_tags@));
        let opened = vis.len() == 1 || rows[vis[vis.len() - 2]].todo.note_id@ != t.note_id@;
        let b = if vis.len() > 1 {
            p.push(LineView::Blank)
        } else {
            p
        };
        let with_head = if opened {
            b.push(hd)
        } else {
            p
        };
        assert(g == with_head.push(LineView::Todo(vis.last())));
        assert(g.take(p.len() as int) =~= p);
        assert forall|j: int| p.len() <= j < g.len() - 1 implies !(#[trigger] g[j] is Todo) by {
            if opened && vis.len() > 1 && j == p.len() {
                assert(g[j] == LineView::Blank);
            }
        }
        lemma_kept_extends(p, g, rows, keep, 0);
        lemma_kept_tail(g, rows, keep, p.len() as int);
        assert(g.last() == LineView::Todo(vis.last()));
        assert forall|n: int| 0 <= n < prev.len() implies #[trigger] prev[n] == vis[n] by {}
        assert forall|m: int| #[trigger] first_kept(rows, vis, keep, m) implies (kept_line(g, rows, keep, 0) matches Some(j) && 0 <= j
            < g.len() && g[j] == LineView::Todo(vis[m])) by {
            if m < vis.len() - 1 {
                assert(prev[m] == vis[m]);
                assert forall|n: int| 0 <= n < m implies !row_is(rows, #[trigger] prev[n], keep) by {
                    assert(prev[n] == vis[n]);
                    assert(!row_is(rows, vis[n], keep));
                }
                assert(first_kept(rows, prev, keep, m));
                let j = kept_line(p, rows, keep, 0)->0;
                assert(g[j] == p[j]);
            } else {
                assert forall|n: int| 0 <= n < prev.len() implies !row_is(rows, #[trigger] prev[n], keep) by {
                    assert(prev[n] == vis[n]);
                    assert(!row_is(rows, vis[n], keep));
                }
            }
        }
        if forall|m: int| 0 <= m < vis.len() ==> !row_is(rows, #[trigger] vis[m], keep) {
            assert forall|n: int| 0 <= n < prev.len() implies !row_is(rows, #[trigger] prev[n], keep) by {
                assert(prev[n] == vis[n]);
                assert(!row_is(rows, vis[n], keep));
            }
            assert(!row_is(rows, vis[vis.len() - 1], keep));
        }
    }
}

/// Regrouping lists the rows the filter shows, and only those, in their
/// order, each note's rows under its header with a blank line between
/// notes; the cursor lands on a todo line whenever there are lines, and on
/// the first shown row that is the kept todo when one is shown.
pub proof fn law_regroup_lists_shown_rows(rows: Seq<TriageRow>, filter: Seq<char>, keep: Option<(Seq<char>, Seq<char>)>)
    ensures
        ({
            let v = shown_rows(rows, filter, rows.len() as int);
            let lines = grouped(rows, v);
            let c = regrouped_cursor(lines, rows, keep);
            &&& todo_entries(lines) == v
            &&& forall|i: int| 0 <= i < rows.len() ==> (#[trigger] v.contains(i) <==> row_shown(rows[i], filter))
            &&& forall|a: int, b: int| 0 <= a < b < v.len() ==> #[trigger] v[a] < #[trigger] v[b]
            &&& (lines.len() == 0 && c == 0) || (0 <= c < lines.len() && lines[c] is Todo)
            &&& keep matches Some(k) ==> forall|m: int| #[trigger] first_kept(rows, v, k, m) ==> lines[c] == LineView::Todo(v[m])
        }),
{
    let n = rows.len() as int;
    lemma_shown_rows(rows, filter, n);
    let v = shown_rows(rows, filter, n);
    lemma_todo_entries_grouped(rows, v);
    lemma_grouped_shape(rows, v);
    let lines = grouped(rows, v);
    if let Some(k) = keep {
        lemma_kept_found(lines, rows, k, 0);
        lemma_kept_grouped(rows, v, k);
    }
    let c0 = from_cursor(lines, rows, keep);
    if lines.len() > 0 && !(lines[c0] is Todo) {
        lemma_step_down_finds(lines, c0);
        lemma_step_target_is_todo(lines, c0, 1);
    }
}

impl Triage {
    /// Regroup the visible rows under note headers, keeping the cursor on
    /// the todo `keep` names (its key and line) when it is still shown.
    pub fn rebuild(&mut self, keep: Option<(String, String)>)
        ensures
            final(self).line_view() == grouped(old(self).rows@, shown_rows(old(self).rows@, old(self).filter_text@, old(self).rows@.len() as int)),
            final(self).cursor == regrouped_cursor(final(self).line_view(), old(self).rows@, match keep {
                Some(k) => Some((k.0@, k.1@)),
                None => None,
            }),
            *final(self) == (Triage { lines: final(self).lines, cursor: final(self).cursor, ..*old(self) }),
            final(self).cursor_on_todo(),
    {
        let vis = self.visible();
        let ghost visv = vis@.map_values(|i: usize| i as int);
        let ghost keepv: Option<(Seq<char>, Seq<char>)> = match &keep {
            Some(k) => Some((k.0@, k.1@)),
            None => None,
        };
        let mut lines: Vec<TriageLine> = Vec::new();
        let mut cursor: Option<usize> = None;
        let mut k: usize = 0;
        proof {
            assert(visv.take(0) =~= Seq::<int>::empty());
            assert(line_views(lines@) =~= Seq::<LineView>::empty());
        }
        while k < vis.len()
            invariant
                k <= vis@.len(),
                visv == vis@.map_values(|i: usize| i as int),
                forall|m: int| 0 <= m < vis@.len() ==> vis@[m] < self.rows@.len(),
                line_views(lines@) == grouped(self.rows@, visv.take(k as int)),
                lines@.len() <= 3 * k,
                keepv == (match keep {
                    Some(k) => Some((k.0@, k.1@)),
                    None => None::<(Seq<char>, Seq<char>)>,
                }),
                match cursor {
                    None => keepv is None || kept_line(line_views(lines@), self.rows@, keepv.unwrap(), 0) is None,
                    Some(c) => keepv is Some && kept_line(line_views(lines@), self.rows@, keepv.unwrap(), 0) == Some(c as int),
                },
            decreases vis.len() - k,
        {
            let i = vis[k];
            let row = &self.rows[i];
            let ghost before = line_views(lines@);
            let ghost pre = visv.take(k as int);
            let ghost now = visv.take(k + 1);
            proof {
                assert(now.drop_last() =~= pre);
                assert(now.last() == i as int);
                if k > 0 {
                    assert(now[now.len() - 2] == vis@[k - 1] as int);
                }
            }
            let opened = k == 0 || self.rows[vis[k - 1]].todo.note_id != row.todo.note_id;
            if opened {
                if k > 0 {
                    lines.push(TriageLine::Blank);
                }
                let title = if row.todo.note_title.as_str().is_empty() {
                    string_of(chars_of("(untitled)").as_slice())
                } else {
                    row.todo.note_title.clone()
                };
                lines.push(TriageLine::Header { title, tags: copy_strings(row.todo.note_tags.as_slice()) });
            }
            let ghost mid = line_views(lines@);
            proof {
                assert(mid.len() >= before.len());
                assert(mid.take(before.len() as int) =~= before);
                assert(forall|j: int| before.len() <= j < mid.len() ==> !(#[trigger] mid[j] is Todo));
            }
            let here = lines.len();
            if cursor.is_none() {
                match &keep {
                    Some((key, line)) => {
                        let rk = row.todo.key();
                        if rk == *key && row.todo.line == *line {
                            cursor = Some(here);
                        }
                    },
                    None => {},
                }
            }
            lines.push(TriageLine::Todo(i));
            proof {
                let after = line_views(lines@);
                assert(after =~= mid.push(LineView::Todo(i as int)));
                assert(after =~= grouped(self.rows@, now));
                if let Some(kv) = keepv {
                    assert(after.take(mid.len() as int) =~= mid);
                    assert(after.take(before.len() as int) =~= before);
                    lemma_kept_extends(before, after, self.rows@, kv, 0);
                    lemma_kept_extends(mid, after, self.rows@, kv, before.len() as int);
                    assert(kept_line(mid, self.rows@, kv, before.len() as int) is None) by {
                        lemma_no_todo_no_keep(mid, self.rows@, kv, before.len() as int);
                    }
                    assert(after[mid.len() as int] == LineView::Todo(i as int));
                    assert(kept_line(after, self.rows@, kv, mid.len() as int + 1) is None);
                    assert(kept_line(after, self.rows@, kv, mid.len() as int) == (if row_is(self.rows@, i as int, kv) {
                        Some(mid.len() as int)
                    } else {
                        None
                    }));
                }
            }
            k += 1;
        }
        proof {
            assert(visv.take(vis@.len() as int) =~= visv);
            assert forall|m: int| 0 <= m < visv.len() implies 0 <= #[trigger] visv[m] < self.rows@.len() by {
                assert(visv[m] == vis@[m] as int);
            }
            lemma_grouped_shape(self.rows@, visv);
        }
        let n = lines.len();
        let last = if n > 0 {
            n - 1
        } else {
            0
        };
        let wanted = match cursor {
            Some(c) => c,
            None => 1,
        };
        let mut c = if wanted < last {
            wanted
        } else {
            last
        };
        if n > 0 {
            let on_todo = match &lines[c] {
                TriageLine::Todo(_) => true,
                _ => false,
            };
            assert(on_todo == (line_views(lines@)[c as int] is Todo));
            if !on_todo {
                let ghost from = c;
                proof {
                    lemma_step_down_finds(line_views(lines@), c as int);
                }
                assert(from < n - 1);
                let mut j = c + 1;
                while j < n
                    invariant_except_break
                        from < j <= n,
                        n == lines@.len(),
                        from < n - 1,
                        line_views(lines@).last() is Todo,
                        forall|m: int| from < m < j ==> !(#[trigger] line_views(lines@)[m] is Todo),
                    ensures
                        from < j < n,
                        line_views(lines@)[j as int] is Todo,
                        forall|m: int| from < m < j ==> !(#[trigger] line_views(lines@)[m] is Todo),
                    decreases n - j,
                {
                    let todo_here = match &lines[j] {
                        TriageLine::Todo(_) => true,
                        _ => false,
                    };
                    assert(todo_here == (line_views(lines@)[j as int] is Todo));
                    if todo_here {
                        break;
                    }
                    j += 1;
                }
                proof {
                    lemma_step_down_is_first(line_views(lines@), from as int, j as int);
                }
                c = j;
            }
        }
        self.lines = lines;
        self.cursor = c;
        proof {
            lemma_step_target_is_todo(self.line_view(), from_cursor(self.line_view(), self.rows@, keepv), 1);
        }
    }
}

/// Where the regrouped cursor starts before it moves to a todo.
pub open spec fn from_cursor(lines: Seq<LineView>, rows: Seq<TriageRow>, keep: Option<(Seq<char>, Seq<char>)>) -> int {
    let wanted = match keep {
        Some(k) => match kept_line(lines, rows, k, 0) {
            Some(j) => j,
            None => 1,
        },
        None => 1,
    };
    let last = if lines.len() > 0 {
        lines.len() - 1
    } else {
        0
    };
    if wanted < last {
        wanted
    } else {
        last
    }
}

proof fn lemma_no_todo_no_keep(s: Seq<LineView>, rows: Seq<TriageRow>, keep: (Seq<char>, Seq<char>), from: int)
    requires
        0 <= from,
        forall|j: int| from <= j < s.len() ==> !(#[trigger] s[j] is Todo),
    ensures
        kept_line(s, rows, keep, from) is None,
    decreases s.len() - from,
{
    if from < s.len() {
        lemma_no_todo_no_keep(s, rows, keep, from + 1);
    }
}

/// The keys of the rows that are still new.
pub open spec fn new_keys(rows: Seq<TriageRow>) -> Set<Seq<char>> {
    Set::new(
        |k: Seq<char>|
            exists|i: int|
                0 <= i < rows.len() && row_status(rows[i]) == Status::New && todo_key(rows[i].todo.note_id@, rows[i].todo.text@) == k,
    )
}

/// The marks that survive a reload: those on rows that are still new, in order.
pub open spec fn kept_marks(marks: Seq<Seq<char>>, keys: Set<Seq<char>>) -> Seq<Seq<char>>
    decreases marks.len(),
{
    if marks.len() == 0 {
        Seq::empty()
    } else {
        let r = kept_marks(marks.drop_last(), keys);
        if keys.contains(marks.last()) {
            r.push(marks.last())
        } else {
            r
        }
    }
}

/// The (key, line) of the row under the cursor, if any.
pub open spec fn current_key(t: Triage) -> Option<(Seq<char>, Seq<char>)> {
    if t.cursor < t.lines@.len() && (t.line_view()[t.cursor as int] matches LineView::Todo(i) && 0 <= i < t.rows@.len()) {
        let i = t.line_view()[t.cursor as int]->Todo_0;
        Some((todo_key(t.rows@[i].todo.note_id@, t.rows@[i].todo.text@), t.rows@[i].todo.line@))
    } else {
        None
    }
}

fn row_keys_new(rows: &Vec<TriageRow>) -> (r: Vec<String>)
    ensures
        forall|k: Seq<char>| #[trigger] string_views(r@).contains(k) <==> new_keys(rows@).contains(k),
{
    let mut out: Vec<String> = Vec::new();
    let mut i: usize = 0;
    while i < rows.len()
        invariant
            i <= rows@.len(),
            forall|k: Seq<char>| #[trigger] string_views(out@).contains(k) <==> exists|j: int|
                0 <= j < i && row_status(rows@[j]) == Status::New && todo_key(rows@[j].todo.note_id@, rows@[j].todo.text@) == k,
        decreases rows.len() - i,
    {
        if rows[i].status() == Status::New {
            let key = rows[i].todo.key();
            let ghost before = string_views(out@);
            out.push(key);
            proof {
                assert(string_views(out@) =~= before.push(key@));
                assert forall|k: Seq<char>| #[trigger] string_views(out@).contains(k) <==> exists|j: int|
                    0 <= j < i + 1 && row_status(rows@[j]) == Status::New && todo_key(rows@[j].todo.note_id@, rows@[j].todo.text@) == k by {
                    if string_views(out@).contains(k) {
                        if k != key@ {
                            let m = choose|m: int| 0 <= m < string_views(out@).len() && string_views(out@)[m] == k;
                            assert(before[m] == k);
                            assert(before.contains(k));
                        }
                    }
                    if exists|j: int| 0 <= j < i + 1 && row_status(rows@[j]) == Status::New && todo_key(rows@[j].todo.note_id@, rows@[j].todo.text@) == k {
                        let j = choose|j: int| 0 <= j < i + 1 && row_status(rows@[j]) == Status::New && todo_key(rows@[j].todo.note_id@, rows@[j].todo.text@) == k;
                        if j < i {
                            assert(before.contains(k));
                            let m = choose|m: int| 0 <= m < before.len() && before[m] == k;
                            assert(string_views(out@)[m] == k);
                        } else {
                            assert(string_views(out@)[before.len() as int] == k);
                        }
                    }
                }
            }
        } else {
            proof {
                assert forall|k: Seq<char>| #[trigger] string_views(out@).contains(k) implies exists|j: int|
                    0 <= j < i + 1 && row_status(rows@[j]) == Status::New && todo_key(rows@[j].todo.note_id@, rows@[j].todo.text@) == k by {
                }
                assert forall|k: Seq<char>| (exists|j: int|
                    0 <= j < i + 1 && row_status(rows@[j]) == Status::New && todo_key(rows@[j].todo.note_id@, rows@[j].todo.text@) == k)
                    implies #[trigger] string_views(out@).contains(k) by {
                    let j = choose|j: int| 0 <= j < i + 1 && row_status(rows@[j]) == Status::New && todo_key(rows@[j].todo.note_id@, rows@[j].todo.text@) == k;
                    assert(j < i);
                }
            }
        }
        i += 1;
    }
    out
}

fn holds_string(v: &Vec<String>, x: &String) -> (r: bool)
    ensures
        r == string_views(v@).contains(x@),
{
    let mut i: usize = 0;
    while i < v.len()
        invariant
            i <= v@.len(),
            forall|j: int| 0 <= j < i ==> v@[j]@ != x@,
        decreases v.len() - i,
    {
        if v[i] == *x {
            assert(string_views(v@)[i as int] == x@);
            return true;
        }
        i += 1;
    }
    proof {
        if string_views(v@).contains(x@) {
            let m = choose|m: int| 0 <= m < string_views(v@).len() && string_views(v@)[m] == x@;
            assert(v@[m]@ == x@);
        }
    }
    false
}

impl Triage {
    /// Replace the rows after a load or a re-join, keeping marks only on
    /// rows that are still new, and the cursor on the same todo.
    pub fn show(&mut self, rows: Vec<TriageRow>, locked: usize)
        ensures
            final(self).rows == rows,
            final(self).locked == locked,
            string_views(final(self).marked@) == kept_marks(string_views(old(self).marked@), new_keys(rows@)),
            final(self).line_view() == grouped(rows@, shown_rows(rows@, old(self).filter_text@, rows@.len() as int)),
            final(self).cursor == regrouped_cursor(final(self).line_view(), rows@, current_key(*old(self))),
            final(self).cursor_on_todo(),
            *final(self) == (Triage {
                rows: final(self).rows,
                locked: final(self).locked,
                marked: final(self).marked,
                lines: final(self).lines,
                cursor: final(self).cursor,
                ..*old(self)
            }),
    {
        let keep = match self.current_row() {
            Some(r) => Some((r.todo.key(), r.todo.line.clone())),
            None => None,
        };
        assert(current_key(*old(self)) == match &keep {
            Some(k) => Some((k.0@, k.1@)),
            None => None::<(Seq<char>, Seq<char>)>,
        });
        self.rows = rows;
        self.locked = locked;
        let fresh = row_keys_new(&self.rows);
        let mut kept: Vec<String> = Vec::new();
        let mut i: usize = 0;
        let ghost marks = string_views(self.marked@);
        while i < self.marked.len()
            invariant
                i <= self.marked@.len(),
                marks == string_views(self.marked@),
                forall|k: Seq<char>| #[trigger] string_views(fresh@).contains(k) <==> new_keys(self.rows@).contains(k),
                string_views(kept@) == kept_marks(marks.take(i as int), new_keys(self.rows@)),
            decreases self.marked.len() - i,
        {
            proof {
                assert(marks.take(i + 1).drop_last() =~= marks.take(i as int));
                assert(marks.take(i + 1).last() == self.marked@[i as int]@);
            }
            if holds_string(&fresh, &self.marked[i]) {
                let ghost before = string_views(kept@);
                kept.push(self.marked[i].clone());
                assert(string_views(kept@) =~= before.push(self.marked@[i as int]@));
            }
            i += 1;
        }
        assert(marks.take(marks.len() as int) =~= marks);
        self.marked = kept;
        self.rebuild(keep);
    }

    /// Scroll so that the cursor line is on screen in `rows` lines.
    pub fn keep_visible(&mut self, rows: usize)
        ensures
            *final(self) == (Triage {
                scroll: ({
                    let s1 = if old(self).cursor < old(self).scroll {
                        old(self).cursor
                    } else {
                        old(self).scroll
                    };
                    if rows > 0 && old(self).cursor >= s1 + rows {
                        (old(self).cursor + 1 - rows) as usize
                    } else {
                        s1
                    }
                }),
                ..*old(self)
            }),
    {
        if self.cursor < self.scroll {
            self.scroll = self.cursor;
        }
        if rows > 0 && self.cursor - self.scroll >= rows {
            self.scroll = self.cursor - (rows - 1);
        }
    }

    /// Mark the todo with this key, or unmark it when it is marked.
    pub fn toggle_mark(&mut self, key: &str)
        requires
            no_repeats(old(self).marked@),
        ensures
            no_repeats(final(self).marked@),
            key_set(final(self).marked@) == toggled(key_set(old(self).marked@), key@),
            *final(self) == (Triage { marked: final(self).marked, ..*old(self) }),
    {
        let mut i: usize = 0;
        while i < self.marked.len()
            invariant
                i <= self.marked@.len(),
                *self == *old(self),
                no_repeats(self.marked@),
                forall|j: int| 0 <= j < i ==> self.marked@[j]@ != key@,
            decreases self.marked.len() - i,
        {
            if same_str(self.marked[i].as_str(), key) {
                let ghost old_marks = self.marked@;
                self.marked.remove(i);
                proof {
                    assert(self.marked@ =~= old_marks.remove(i as int));
                    assert forall|a: int, b: int| 0 <= a < b < self.marked@.len() implies self.marked@[a]@ != self.marked@[b]@ by {
                        let a2 = if a < i { a } else { a + 1 };
                        let b2 = if b < i { b } else { b + 1 };
                        assert(self.marked@[a] == old_marks[a2]);
                        assert(self.marked@[b] == old_marks[b2]);
                    }
                    assert(key_set(old_marks).contains(key@)) by {
                        assert(string_views(old_marks)[i as int] == key@);
                    }
                    assert(key_set(self.marked@) =~= key_set(old_marks).remove(key@)) by {
                        assert forall|k: Seq<char>| key_set(self.marked@).contains(k) <==> key_set(old_marks).remove(key@).contains(k) by {
                            if key_set(self.marked@).contains(k) {
                                let m = choose|m: int| 0 <= m < string_views(self.marked@).len() && string_views(self.marked@)[m] == k;
                                let m2 = if m < i { m } else { m + 1 };
                                assert(string_views(old_marks)[m2] == k);
                                assert(m2 != i);
                            }
                            if key_set(old_marks).remove(key@).contains(k) {
                                let m = choose|m: int| 0 <= m < string_views(old_marks).len() && string_views(old_marks)[m] == k;
                                assert(m != i);
                                let m2 = if m < i { m } else { m - 1 };
                                assert(string_views(self.marked@)[m2] == k);
                            }
                        }
                    }
                }
                return;
            }
            i += 1;
        }
        let ghost old_marks = self.marked@;
        proof {
            assert(!key_set(old_marks).contains(key@)) by {
                if key_set(old_marks).contains(key@) {
                    let m = choose|m: int| 0 <= m < string_views(old_marks).len() && string_views(old_marks)[m] == key@;
                    assert(old_marks[m]@ == key@);
                }
            }
        }
        self.marked.push(string_of(chars_of(key).as_slice()));
        proof {
            assert(string_views(self.marked@) =~= string_views(old_marks).push(key@));
            assert forall|k: Seq<char>| key_set(self.marked@).contains(k) <==> key_set(old_marks).insert(key@).contains(k) by {
                if key_set(self.marked@).contains(k) && k != key@ {
                    let m = choose|m: int| 0 <= m < string_views(self.marked@).len() && string_views(self.marked@)[m] == k;
                    assert(m < old_marks.len());
                    assert(string_views(old_marks)[m] == k);
                }
                if key_set(old_marks).contains(k) {
                    let m = choose|m: int| 0 <= m < string_views(old_marks).len() && string_views(old_marks)[m] == k;
                    assert(string_views(self.marked@)[m] == k);
                }
                if k == key@ {
                    assert(string_views(self.marked@)[old_marks.len() as int] == k);
                }
            }
            assert(key_set(self.marked@) =~= key_set(old_marks).insert(key@));
        }
    }
}

/// How many rows have a status.
pub open spec fn count_status(rows: Seq<TriageRow>, st: Status) -> nat
    decreases rows.len(),
{
    if rows.len() == 0 {
        0
    } else {
        count_status(rows.drop_last(), st) + if row_status(rows.last()) == st {
            1nat
        } else {
            0nat
        }
    }
}

/// The distinct note ids of the rows, in order of first appearance.
pub open spec fn note_ids(rows: Seq<TriageRow>) -> Seq<Seq<char>>
    decreases rows.len(),
{
    if rows.len() == 0 {
        Seq::empty()
    } else {
        let r = note_ids(rows.drop_last());
        let id = rows.last().todo.note_id@;
        if r.contains(id) {
            r
        } else {
            r.push(id)
        }
    }
}

/// "s" after a count other than one.
pub open spec fn plural(n: nat) -> Seq<char> {
    if n == 1 {
        Seq::empty()
    } else {
        "s"@
    }
}

/// The parts of the status line, in order.
pub open spec fn stats_parts(t: Triage) -> Seq<Seq<char>> {
    let n = t.rows@.len();
    let notes = note_ids(t.rows@).len();
    let head = seq![
        dec(n) + " todo"@ + plural(n) + " in "@ + dec(notes) + " note"@ + plural(notes),
        dec(count_status(t.rows@, Status::Added)) + " added"@,
        dec(count_status(t.rows@, Status::Done)) + " done"@,
    ];
    let marked = if t.marked@.len() > 0 {
        seq![dec(t.marked@.len()) + " marked"@]
    } else {
        Seq::empty()
    };
    let filtered = if t.filter_text@.len() > 0 {
        seq!["filter \""@ + t.filter_text@ + "\" → "@ + dec(shown_rows(t.rows@, t.filter_text@, t.rows@.len() as int).len())]
    } else {
        Seq::empty()
    };
    let locked = if t.locked > 0 {
        seq![dec(t.locked as nat) + " locked skipped"@]
    } else {
        Seq::empty()
    };
    let target = if t.target_list@.len() == 0 {
        "current list"@
    } else {
        t.target_list@
    };
    head + marked + filtered + locked + seq!["add → "@ + target + ", due "@ + t.due@]
}

/// The message shown when no line is.
pub open spec fn empty_text(t: Triage) -> Seq<char> {
    if t.filter_text@.len() > 0 {
        "○  nothing matches \""@ + t.filter_text@ + "\""@
    } else if t.rows@.len() > 0 {
        "○  nothing to show"@
    } else {
        "✓  no open todos in Bear"@
    }
}

fn count_of(rows: &Vec<TriageRow>, st: Status) -> (n: usize)
    ensures
        n == count_status(rows@, st),
{
    let mut n: usize = 0;
    let mut i: usize = 0;
    while i < rows.len()
        invariant
            i <= rows@.len(),
            n == count_status(rows@.take(i as int), st),
            n <= i,
        decreases rows.len() - i,
    {
        assert(rows@.take(i + 1).drop_last() =~= rows@.take(i as int));
        if rows[i].status() == st {
            n = n + 1;
        }
        i += 1;
    }
    assert(rows@.take(rows@.len() as int) =~= rows@);
    n
}

fn distinct_notes(rows: &Vec<TriageRow>) -> (n: usize)
    ensures
        n == note_ids(rows@).len(),
{
    let mut ids: Vec<String> = Vec::new();
    let mut i: usize = 0;
    while i < rows.len()
        invariant
            i <= rows@.len(),
            string_views(ids@) == note_ids(rows@.take(i as int)),
            ids@.len() <= i,
        decreases rows.len() - i,
    {
        assert(rows@.take(i + 1).drop_last() =~= rows@.take(i as int));
        if !holds_string(&ids, &rows[i].todo.note_id) {
            let ghost before = string_views(ids@);
            ids.push(rows[i].todo.note_id.clone());
            assert(string_views(ids@) =~= before.push(rows@[i as int].todo.note_id@));
        }
        i += 1;
    }
    assert(rows@.take(rows@.len() as int) =~= rows@);
    ids.len()
}

fn counted(n: usize, words: &str) -> (r: String)
    ensures
        r@ == dec(n as nat) + words@,
{
    let mut v = decimal(n as u64);
    push_str(&mut v, words);
    string_of(v.as_slice())
}

impl Triage {
    /// The status line: counts, marks, the filter, skipped locked notes,
    /// and where todos are added.
    pub fn stats(&self) -> (r: String)
        ensures
            r@ == join(stats_parts(*self), " · "@),
    {
        let n = self.rows.len();
        let notes = distinct_notes(&self.rows);
        proof {
            reveal_strlit("s");
            reveal_strlit("");
        }
        let mut first = decimal(n as u64);
        push_str(&mut first, " todo");
        push_str(&mut first, if n == 1 { "" } else { "s" });
        push_str(&mut first, " in ");
        let nd = decimal(notes as u64);
        push_all(&mut first, nd.as_slice());
        push_str(&mut first, " note");
        push_str(&mut first, if notes == 1 { "" } else { "s" });
        let mut parts: Vec<String> = Vec::new();
        parts.push(string_of(first.as_slice()));
        parts.push(counted(count_of(&self.rows, Status::Added), " added"));
        parts.push(counted(count_of(&self.rows, Status::Done), " done"));
        let ghost head = string_views(parts@);
        if self.marked.len() > 0 {
            parts.push(counted(self.marked.len(), " marked"));
        }
        let ghost with_marks = string_views(parts@);
        if !self.filter_text.as_str().is_empty() {
            let vis = self.visible();
            let shown = vis.len();
            assert(vis@.map_values(|i: usize| i as int).len() == vis@.len());
            let mut f: Vec<char> = Vec::new();
            push_str(&mut f, "filter \"");
            push_str(&mut f, self.filter_text.as_str());
            push_str(&mut f, "\" → ");
            let d = decimal(shown as u64);
            push_all(&mut f, d.as_slice());
            parts.push(string_of(f.as_slice()));
        }
        let ghost with_filter = string_views(parts@);
        if self.locked > 0 {
            parts.push(counted(self.locked, " locked skipped"));
        }
        let ghost with_locked = string_views(parts@);
        let mut last: Vec<char> = Vec::new();
        push_str(&mut last, "add → ");
        if self.target_list.as_str().is_empty() {
            push_str(&mut last, "current list");
        } else {
            push_str(&mut last, self.target_list.as_str());
        }
        push_str(&mut last, ", due ");
        push_str(&mut last, self.due.as_str());
        parts.push(string_of(last.as_slice()));
        assert(string_views(parts@) =~= stats_parts(*self));
        join_strings(parts.as_slice(), " · ")
    }

    pub fn empty_message(&self) -> (r: String)
        ensures
            r@ == empty_text(*self),
    {
        let mut v: Vec<char> = Vec::new();
        if !self.filter_text.as_str().is_empty() {
            push_str(&mut v, "○  nothing matches \"");
            push_str(&mut v, self.filter_text.as_str());
            push_str(&mut v, "\"");
        } else if self.rows.len() > 0 {
            push_str(&mut v, "○  nothing to show");
        } else {
            push_str(&mut v, "✓  no open todos in Bear");
        }
        assert(v@ =~= empty_text(*self));
        string_of(v.as_slice())
    }

    /// Todo keys to add: the marked ones, else the current new row's.
    pub fn add_targets(&self) -> (r: Result<Vec<String>, &'static str>)
        ensures
            self.marked@.len() > 0 ==> (r matches Ok(v) && v@ == self.marked@),
            self.marked@.len() == 0 ==> match current_key(*self) {
                Some(k) => {
                    let i = self.line_view()[self.cursor as int]->Todo_0;
                    if row_status(self.rows@[i]) == Status::New {
                        (r matches Ok(v) && string_views(v@) == seq![k.0])
                    } else {
                        (r matches Err(e) && e@ == "Mark a todo first (space)"@)
                    }
                },
                None => (r matches Err(e) && e@ == "Mark a todo first (space)"@),
            },
    {
        if self.marked.len() > 0 {
            return Ok(copy_strings(self.marked.as_slice()));
        }
        match self.current_row() {
            Some(row) => if row.status() == Status::New {
                let key = row.todo.key();
                let out = vec![key];
                assert(string_views(out@) =~= seq![key@]);
                Ok(out)
            } else {
                Err("Mark a todo first (space)")
            },
            None => Err("Mark a todo first (space)"),
        }
    }
}

/// `due` is the row's reminder's due moment as its stamp parses, or none.
pub open spec fn row_due_fits(row: TriageRow, due: Option<DateTime>) -> bool {
    match row.reminder {
        Some(m) => crate::dates::due_fits(m.due_raw@, due),
        None => due is None,
    }
}

/// Whether a row's reminder is all day.
pub open spec fn row_all_day(row: TriageRow) -> bool {
    match row.reminder {
        Some(m) => m.all_day,
        None => false,
    }
}

/// A note's header line: its title in bold, then its tags cut to the room
/// left.
pub open spec fn header_view(title: Seq<char>, tags: Seq<Seq<char>>, width: int) -> Seq<SpanView> {
    let first = (title, Style { bold: true, ..plain_style() });
    if tags.len() > 0 {
        seq![first, (seq![' ', ' '] + fitted(join(tags, seq![' ']), max0(width - (display_width(title) + 2))), Style {
            fg: Some(tone_color(Tone::Tag)),
            dim: true,
            ..plain_style()
        })]
    } else {
        seq![first]
    }
}

/// The glyph in front of a todo: marked or not, done, added.
pub open spec fn status_glyph(status: Status, marked: bool) -> SpanView {
    match status {
        Status::New => if marked {
            ("◆ "@, fg_style(tone_color(Tone::Flag)))
        } else {
            ("◯ "@, dim_style())
        },
        Status::Done => ("⬤ "@, fg_style(tone_color(Tone::Done))),
        Status::Added => ("⬤ "@, fg_style(tone_color(Tone::Today))),
    }
}

/// What a todo line shows at its right edge: the reminder's due label, or
/// that it is done.
pub open spec fn status_badge(status: Status, due: Option<DateTime>, all_day: bool, now: DateTime) -> Option<SpanView> {
    match status {
        Status::Added => Some((seq!['⏰', ' '] + match due {
            Some(_) => humanize(due, all_day, now),
            None => "no date"@,
        }, fg_style(tone_color(Tone::Today)))),
        Status::Done => Some(("✓ done"@, fg_style(tone_color(Tone::Done)))),
        Status::New => None,
    }
}

/// The start of a todo line: its indent, then its glyph.
pub open spec fn lead_view(indent: int, status: Status, marked: bool) -> Seq<SpanView> {
    (if indent > 0 {
        seq![(spaces(indent), plain_style())]
    } else {
        Seq::empty()
    }).push(status_glyph(status, marked))
}

/// A todo line: its indent, glyph, text cut to the room the badge leaves,
/// padding, badge.
pub open spec fn todo_line_view(
    marked: bool,
    indent: int,
    status: Status,
    due: Option<DateTime>,
    all_day: bool,
    text: Seq<char>,
    width: int,
    now: DateTime,
) -> Seq<SpanView> {
    let lead = lead_view(indent, status, marked);
    let badge = status_badge(status, due, all_day, now);
    let badge_width = match badge {
        Some(b) => display_width(b.0) + 2,
        None => 0int,
    };
    let used = spans_width(lead);
    let t = fitted(text, max0(width - (used + badge_width)));
    let body = lead.push((t, if marked {
        Style { bold: true, ..plain_style() }
    } else {
        plain_style()
    }));
    match badge {
        Some(b) => body + seq![(spaces(width - (used + display_width(t) + badge_width - 2)), plain_style()), b],
        None => body,
    }
}

fn todo_lead(indent: usize, status: Status, marked: bool) -> (l: Vec<Span>)
    ensures
        span_views(l@) == lead_view(indent as int, status, marked),
        l@.len() <= 2,
{
    let mut left: Vec<Span> = Vec::new();
    if indent > 0 {
        push_span(&mut left, Span { text: spaces_of(indent), style: plain() });
    }
    let glyph = match status {
        Status::New => if marked {
            span("◆ ", fg(color(Tone::Flag)))
        } else {
            span("◯ ", dim())
        },
        Status::Done => span("⬤ ", fg(color(Tone::Done))),
        Status::Added => span("⬤ ", fg(color(Tone::Today))),
    };
    push_span(&mut left, glyph);
    assert(span_views(left@) =~= lead_view(indent as int, status, marked));
    left
}

fn todo_badge(status: Status, due: Option<DateTime>, all_day: bool, now: DateTime) -> (b: Option<Span>)
    requires
        due matches Some(d) ==> valid_datetime(d),
        valid_datetime(now),
    ensures
        match b {
            Some(x) => status_badge(status, due, all_day, now) == Some(x.view()),
            None => status_badge(status, due, all_day, now) is None,
        },
{
    match status {
        Status::Added => {
            let label = match due {
                Some(_) => humanize_due(due, all_day, now),
                None => "no date".to_owned(),
            };
            let mut t: Vec<char> = Vec::new();
            t.push('⏰');
            t.push(' ');
            push_str(&mut t, label.as_str());
            Some(Span { text: string_of(t.as_slice()), style: fg(color(Tone::Today)) })
        },
        Status::Done => Some(span("✓ done", fg(color(Tone::Done)))),
        Status::New => None,
    }
}

proof fn lemma_todo_line(
    marked: bool,
    indent: int,
    status: Status,
    due: Option<DateTime>,
    all_day: bool,
    text: Seq<char>,
    width: int,
    now: DateTime,
    tv: Seq<char>,
    line: Seq<SpanView>,
)
    requires
        tv == fitted(text, max0(width - (spans_width(lead_view(indent, status, marked)) + match status_badge(status, due, all_day, now) {
            Some(b) => display_width(b.0) + 2,
            None => 0int,
        }))),
        line == (match status_badge(status, due, all_day, now) {
            Some(b) => lead_view(indent, status, marked).push((tv, if marked {
                Style { bold: true, ..plain_style() }
            } else {
                plain_style()
            })) + seq![(spaces(width - (spans_width(lead_view(indent, status, marked)) + display_width(tv) + display_width(b.0) + 2 - 2)), plain_style()), b],
            None => lead_view(indent, status, marked).push((tv, if marked {
                Style { bold: true, ..plain_style() }
            } else {
                plain_style()
            })),
        }),
    ensures
        line == todo_line_view(marked, indent, status, due, all_day, text, width, now),
{
}

impl Triage {
    pub fn render_header(title: &str, tags: &Vec<String>, width: usize) -> (l: Vec<Span>)
        ensures
            span_views(l@) == header_view(title@, string_views(tags@), width as int),
    {
        let mut l: Vec<Span> = Vec::new();
        push_span(&mut l, Span { text: title.to_owned(), style: Style { bold: true, ..plain() } });
        if tags.len() > 0 {
            let used: u128 = width_of(title) as u128 + 2;
            let room: usize = if (width as u128) > used {
                (width as u128 - used) as usize
            } else {
                0
            };
            let mut t = chars_of("  ");
            proof {
                reveal_strlit("  ");
                reveal_strlit(" ");
                assert(" "@ =~= seq![' ']);
                assert("  "@ =~= seq![' ', ' ']);
            }
            assert(room as int == max0(width - (display_width(title@) + 2)));
            push_str(&mut t, fit(join_strings(tags.as_slice(), " ").as_str(), room).as_str());
            push_span(&mut l, Span {
                text: string_of(t.as_slice()),
                style: Style { fg: Some(color(Tone::Tag)), dim: true, ..plain() },
            });
        }
        assert(span_views(l@) =~= header_view(title@, string_views(tags@), width as int));
        l
    }

    /// A todo line with its reminder's due moment given.
    #[verifier::rlimit(40)]
    pub fn render_row_at(&self, row: &TriageRow, due: Option<DateTime>, width: usize, now: DateTime) -> (l: Vec<Span>)
        requires
            due matches Some(d) ==> valid_datetime(d),
            valid_datetime(now),
        ensures
            span_views(l@) == todo_line_view(
                string_views(self.marked@).contains(todo_key(row.todo.note_id@, row.todo.text@)),
                crate::todos::indent_bytes(row.todo.line@),
                row_status(*row),
                due,
                row_all_day(*row),
                row.todo.text@,
                width as int,
                now,
            ),
    {
        let key = row.todo.key();
        let marked = holds_string(&self.marked, &key);
        let indent = row.todo.indent();
        let status = row.status();
        let all_day = match &row.reminder {
            Some(m) => m.all_day,
            None => false,
        };
        let mut left = todo_lead(indent, status, marked);
        let ghost lead = span_views(left@);
        let badge = todo_badge(status, due, all_day, now);
        let badge_width: u128 = match &badge {
            Some(b) => width_of(b.text.as_str()) as u128 + 2,
            None => 0,
        };
        let used = width_sum(&left);
        assert(used == spans_width(lead));
        let taken: u128 = used + badge_width;
        let room: usize = if (width as u128) > taken {
            (width as u128 - taken) as usize
        } else {
            0
        };
        let text = fit(row.todo.text.as_str(), room);
        let text_width = width_of(text.as_str()) as u128;
        let ghost tv = text@;
        assert(tv == fitted(row.todo.text@, max0(width - (spans_width(lead) + badge_width))));
        let ghost body = lead.push((tv, if marked {
            Style { bold: true, ..plain_style() }
        } else {
            plain_style()
        }));
        push_span(&mut left, Span { text, style: if marked {
            Style { bold: true, ..plain() }
        } else {
            plain()
        } });
        assert(span_views(left@) == body);
        assert(badge_width == match status_badge(status, due, all_day, now) {
            Some(bb) => display_width(bb.0) + 2,
            None => 0int,
        });
        if let Some(b) = badge {
            let total: u128 = used + text_width + badge_width - 2;
            let pad: usize = if (width as u128) > total {
                (width as u128 - total) as usize
            } else {
                0
            };
            assert(spaces(pad as int) =~= spaces(width - (used + display_width(tv) + badge_width - 2)));
            let ghost bv = b.view();
            push_span(&mut left, Span { text: spaces_of(pad), style: plain() });
            push_span(&mut left, b);
            assert(span_views(left@) =~= body + seq![(spaces(pad as int), plain_style()), bv]);
        }
        proof {
            lemma_todo_line(marked, indent as int, status, due, all_day, row.todo.text@, width as int, now, tv, span_views(left@));
        }
        left
    }

    /// A todo line at `now`, its reminder's due stamp parsed.
    pub fn render_row(&self, row: &TriageRow, width: usize, now: DateTime) -> (l: Vec<Span>)
        requires
            valid_datetime(now),
        ensures
            exists|due: Option<DateTime>|
                row_due_fits(*row, due) && span_views(l@) == #[trigger] todo_line_view(
                    string_views(self.marked@).contains(todo_key(row.todo.note_id@, row.todo.text@)),
                    crate::todos::indent_bytes(row.todo.line@),
                    row_status(*row),
                    due,
                    row_all_day(*row),
                    row.todo.text@,
                    width as int,
                    now,
                ),
    {
        let due = match &row.reminder {
            Some(m) => m.due(),
            None => None,
        };
        self.render_row_at(row, due, width, now)
    }
}

} // verus!
