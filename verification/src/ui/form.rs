//! The add/edit form: fields, focus order, key handling. Saving and the
//! editor round trip are driven by the application; this is display state
//! plus editing.

use vstd::prelude::*;

use super::field::{backspaced, deleted, typed, Field, FieldState};
use crate::dates::{date_text, due_fits, format_date, format_minute, lemma_texts_short, minute_text, DateTime};
use crate::keys::{KeyCode, KeyEvent, CONTROL};
use crate::client::{AddFields, EditFields};
use crate::models::{next_priority, priority_word, Priority, Reminder};
use crate::text::{
    chars_of, lemma_split_on_len, split_chars, split_on, string_of, string_views, trim, trim_end,
    trim_end_str, trim_str, views,
};

verus! {

pub const DUE_PLACEHOLDER: &'static str = "tomorrow 09:30 · +3d · none";
pub const TITLE_PLACEHOLDER: &'static str = "What needs doing?";

/// The lines of a notes text.
pub open spec fn note_lines(text: Seq<char>) -> Seq<Seq<char>> {
    split_on(text, '\n')
}

/// Where line `l` starts: the lengths of the lines before it, each with its
/// line break.
pub open spec fn line_offset(ls: Seq<Seq<char>>, l: int) -> int
    decreases l,
{
    if l <= 0 {
        0
    } else {
        line_offset(ls, l - 1) + ls[l - 1].len() + 1
    }
}

/// (line, column) of char index `cursor`, in chars.
pub open spec fn notes_position(text: Seq<char>, cursor: int) -> (int, int) {
    let p = split_on(text.take(cursor), '\n');
    (p.len() - 1, p.last().len() as int)
}

/// The char index of (line, column), each clamped to the text.
pub open spec fn notes_index(text: Seq<char>, line: int, col: int) -> int {
    let ls = note_lines(text);
    let l = if line < ls.len() - 1 {
        line
    } else {
        ls.len() - 1
    };
    let c = if col < ls[l].len() {
        col
    } else {
        ls[l].len() as int
    };
    line_offset(ls, l) + c
}

/// The cursor after moving up a line, keeping the column where it fits.
pub open spec fn notes_up(text: Seq<char>, cursor: int) -> int {
    let (line, col) = notes_position(text, cursor);
    if line > 0 {
        notes_index(text, line - 1, col)
    } else {
        cursor
    }
}

/// The cursor after moving down a line, keeping the column where it fits.
pub open spec fn notes_down(text: Seq<char>, cursor: int) -> int {
    let (line, col) = notes_position(text, cursor);
    notes_index(text, line + 1, col)
}

/// What a key does to the notes editor, or None when it is not one it takes.
pub open spec fn notes_key(s: FieldState, key: KeyEvent) -> Option<FieldState> {
    let ctrl = key.modifiers & CONTROL == CONTROL;
    match key.code {
        KeyCode::Char(c) => if !ctrl {
            Some(typed(s, c))
        } else {
            None
        },
        KeyCode::Enter => Some(typed(s, '\n')),
        KeyCode::Backspace => Some(backspaced(s)),
        KeyCode::Delete => Some(deleted(s)),
        KeyCode::Left => Some((s.0, if s.1 > 0 {
            s.1 - 1
        } else {
            0
        })),
        KeyCode::Right => Some((s.0, if s.1 + 1 < s.0.len() {
            s.1 + 1
        } else {
            s.0.len() as int
        })),
        KeyCode::Up => Some((s.0, notes_up(s.0, s.1))),
        KeyCode::Down => Some((s.0, notes_down(s.0, s.1))),
        KeyCode::Home => Some((s.0, notes_index(s.0, notes_position(s.0, s.1).0, 0))),
        KeyCode::End => Some((s.0, notes_index(s.0, notes_position(s.0, s.1).0, usize::MAX as int))),
        _ => None,
    }
}

proof fn lemma_offset_prefix(a: Seq<Seq<char>>, b: Seq<Seq<char>>, l: int)
    requires
        0 <= l,
        l <= a.len(),
        l <= b.len(),
        forall|k: int| 0 <= k < l ==> a[k].len() == b[k].len(),
    ensures
        line_offset(a, l) == line_offset(b, l),
    decreases l,
{
    if l > 0 {
        lemma_offset_prefix(a, b, l - 1);
    }
}

/// The lines of a text fill it exactly: the last line ends where the text does.
proof fn lemma_lines_fill(s: Seq<char>)
    ensures
        note_lines(s).len() >= 1,
        line_offset(note_lines(s), note_lines(s).len() - 1) + note_lines(s).last().len() == s.len(),
    decreases s.len(),
{
    lemma_split_on_len(s, '\n');
    if s.len() > 0 {
        let t = s.drop_last();
        lemma_lines_fill(t);
        let lt = note_lines(t);
        let ls = note_lines(s);
        lemma_split_on_len(t, '\n');
        if s.last() == '\n' {
            assert(ls == lt.push(Seq::<char>::empty()));
            lemma_offset_prefix(ls, lt, lt.len() - 1);
        } else {
            assert(ls == lt.update(lt.len() - 1, lt.last().push(s.last())));
            lemma_offset_prefix(ls, lt, lt.len() - 1);
        }
    }
}

/// Each line ends within the text.
proof fn lemma_line_in_text(s: Seq<char>, l: int)
    requires
        0 <= l < note_lines(s).len(),
    ensures
        0 <= line_offset(note_lines(s), l),
        line_offset(note_lines(s), l) + note_lines(s)[l].len() <= s.len(),
    decreases note_lines(s).len() - l,
{
    lemma_lines_fill(s);
    lemma_offset_nonneg(note_lines(s), l);
    if l < note_lines(s).len() - 1 {
        lemma_line_in_text(s, l + 1);
        lemma_offset_nonneg(note_lines(s), l + 1);
    }
}

proof fn lemma_offset_nonneg(ls: Seq<Seq<char>>, l: int)
    ensures
        0 <= line_offset(ls, l),
    decreases l,
{
    if l > 0 {
        lemma_offset_nonneg(ls, l - 1);
    }
}

/// The clamped index stays within the text.
pub proof fn lemma_index_in_text(s: Seq<char>, line: int, col: int)
    requires
        line >= 0,
        col >= 0,
    ensures
        0 <= notes_index(s, line, col) <= s.len(),
{
    lemma_lines_fill(s);
    let ls = note_lines(s);
    let l = if line < ls.len() - 1 {
        line
    } else {
        ls.len() - 1
    };
    lemma_line_in_text(s, l);
}

/// A small multi-line editor for the notes field.
#[derive(Debug, Clone, PartialEq, Eq)]
pub struct Notes {
    pub text: String,
    /// Char index into `text`.
    pub cursor: usize,
}

impl Default for Notes {
    fn default() -> (n: Notes)
        ensures
            n.text@ == Seq::<char>::empty(),
            n.cursor == 0,
    {
        Notes { text: String::new(), cursor: 0 }
    }
}

impl Notes {
    pub open spec fn state(&self) -> FieldState {
        (self.text@, self.cursor as int)
    }

    /// The cursor stands within the text, and one more character still fits.
    pub open spec fn wf(&self) -> bool {
        &&& self.cursor <= self.text@.len()
        &&& self.text@.len() < usize::MAX
    }

    pub fn new(text: &str) -> (n: Notes)
        requires
            text@.len() < usize::MAX,
        ensures
            n.state() == (text@, text@.len() as int),
            n.wf(),
    {
        let v = chars_of(text);
        Notes { text: string_of(v.as_slice()), cursor: v.len() }
    }

    pub fn set(&mut self, text: &str)
        requires
            text@.len() < usize::MAX,
        ensures
            final(self).state() == (text@, text@.len() as int),
            final(self).wf(),
    {
        let v = chars_of(text);
        self.text = string_of(v.as_slice());
        self.cursor = v.len();
    }

    pub fn insert(&mut self, ch: char)
        requires
            old(self).wf(),
            old(self).text@.len() + 1 < usize::MAX,
        ensures
            final(self).state() == typed(old(self).state(), ch),
            final(self).wf(),
    {
        let mut v = chars_of(self.text.as_str());
        v.insert(self.cursor, ch);
        self.text = string_of(v.as_slice());
        self.cursor = self.cursor + 1;
    }

    pub fn backspace(&mut self)
        requires
            old(self).wf(),
        ensures
            final(self).state() == backspaced(old(self).state()),
            final(self).wf(),
    {
        if self.cursor > 0 {
            let mut v = chars_of(self.text.as_str());
            v.remove(self.cursor - 1);
            self.text = string_of(v.as_slice());
            self.cursor = self.cursor - 1;
        }
    }

    pub fn delete(&mut self)
        requires
            old(self).wf(),
        ensures
            final(self).state() == deleted(old(self).state()),
            final(self).wf(),
    {
        let mut v = chars_of(self.text.as_str());
        if self.cursor < v.len() {
            v.remove(self.cursor);
            self.text = string_of(v.as_slice());
        }
    }

    /// (line, column) of the cursor, in chars.
    pub fn position(&self) -> (r: (usize, usize))
        requires
            self.wf(),
        ensures
            (r.0 as int, r.1 as int) == notes_position(self.text@, self.cursor as int),
    {
        let v = chars_of(self.text.as_str());
        let mut line: usize = 0;
        let mut col: usize = 0;
        let mut i: usize = 0;
        proof {
            assert(v@.take(0) =~= Seq::<char>::empty());
        }
        while i < self.cursor
            invariant
                i <= self.cursor <= v@.len(),
                split_on(v@.take(i as int), '\n').len() >= 1,
                (line as int, col as int) == notes_position(v@.take(i as int), i as int),
                line + col <= i,
            decreases self.cursor - i,
        {
            let c = v[i];
            proof {
                assert(v@.take(i + 1).drop_last() =~= v@.take(i as int));
                assert(v@.take(i as int).take(i as int) =~= v@.take(i as int));
                assert(v@.take(i + 1).take(i + 1) =~= v@.take(i + 1));
                lemma_split_on_len(v@.take(i + 1), '\n');
            }
            if c == '\n' {
                line = line + 1;
                col = 0;
            } else {
                col = col + 1;
            }
            i += 1;
        }
        proof {
            assert(v@.take(i as int).take(i as int) =~= v@.take(i as int));
            assert(self.text@.take(self.cursor as int) =~= v@.take(i as int));
        }
        (line, col)
    }

    pub fn lines(&self) -> (r: Vec<String>)
        ensures
            string_views(r@) == note_lines(self.text@),
    {
        let v = chars_of(self.text.as_str());
        let parts = split_chars(v.as_slice(), '\n');
        let mut lines: Vec<String> = Vec::new();
        let mut i: usize = 0;
        while i < parts.len()
            invariant
                i <= parts@.len(),
                views(parts@) == split_on(v@, '\n'),
                string_views(lines@) == views(parts@).take(i as int),
            decreases parts.len() - i,
        {
            let ghost before = string_views(lines@);
            let piece = string_of(parts[i].as_slice());
            lines.push(piece);
            assert(string_views(lines@) =~= before.push(views(parts@)[i as int]));
            assert(views(parts@).take(i + 1) =~= views(parts@).take(i as int).push(views(parts@)[i as int]));
            i += 1;
        }
        assert(views(parts@).take(parts@.len() as int) =~= views(parts@));
        if lines.len() == 0 {
            proof {
                lemma_split_on_len(v@, '\n');
            }
            lines.push(String::new());
        }
        lines
    }

    fn move_to(&mut self, line: usize, col: usize)
        requires
            old(self).wf(),
        ensures
            final(self).text@ == old(self).text@,
            final(self).cursor == notes_index(old(self).text@, line as int, col as int),
            final(self).wf(),
    {
        let lines = self.lines();
        proof {
            lemma_lines_fill(self.text@);
        }
        let line = if line < lines.len() - 1 {
            line
        } else {
            lines.len() - 1
        };
        let width = chars_of(lines[line].as_str()).len();
        let col = if col < width {
            col
        } else {
            width
        };
        proof {
            lemma_line_in_text(self.text@, line as int);
        }
        let mut index: usize = 0;
        let mut k: usize = 0;
        while k < line
            invariant
                k <= line < string_views(lines@).len(),
                string_views(lines@) == note_lines(self.text@),
                index as int == line_offset(note_lines(self.text@), k as int),
                line_offset(note_lines(self.text@), line as int) + note_lines(self.text@)[line as int].len()
                    <= self.text@.len(),
                self.text@.len() < usize::MAX,
            decreases line - k,
        {
            proof {
                lemma_offset_mono(note_lines(self.text@), k as int + 1, line as int);
            }
            let n = chars_of(lines[k].as_str()).len();
            index = index + n + 1;
            k += 1;
        }
        self.cursor = index + col;
        proof {
            lemma_index_in_text(self.text@, line as int, col as int);
        }
    }

    pub fn up(&mut self)
        requires
            old(self).wf(),
        ensures
            final(self).state() == (old(self).text@, notes_up(old(self).text@, old(self).cursor as int)),
            final(self).wf(),
    {
        let (line, col) = self.position();
        if line > 0 {
            self.move_to(line - 1, col);
        }
    }

    pub fn down(&mut self)
        requires
            old(self).wf(),
        ensures
            final(self).state() == (old(self).text@, notes_down(old(self).text@, old(self).cursor as int)),
            final(self).wf(),
    {
        let (line, col) = self.position();
        proof {
            lemma_position_bounds(self.text@, self.cursor as int);
        }
        self.move_to(line + 1, col);
    }

    pub fn handle(&mut self, key: &KeyEvent) -> (r: bool)
        requires
            old(self).wf(),
            old(self).text@.len() + 1 < usize::MAX,
        ensures
            final(self).wf(),
            match notes_key(old(self).state(), *key) {
                Some(s) => r && final(self).state() == s,
                None => !r && final(self).state() == old(self).state(),
            },
    {
        let ctrl = key.holds(CONTROL);
        match key.code {
            KeyCode::Char(c) => if !ctrl {
                self.insert(c)
            } else {
                return false;
            },
            KeyCode::Enter => self.insert('\n'),
            KeyCode::Backspace => self.backspace(),
            KeyCode::Delete => self.delete(),
            KeyCode::Left => if self.cursor > 0 {
                self.cursor = self.cursor - 1;
            },
            KeyCode::Right => {
                let n = chars_of(self.text.as_str()).len();
                if self.cursor + 1 < n {
                    self.cursor = self.cursor + 1;
                } else {
                    self.cursor = n;
                }
            },
            KeyCode::Up => self.up(),
            KeyCode::Down => self.down(),
            KeyCode::Home => {
                let (line, _) = self.position();
                self.move_to(line, 0);
            },
            KeyCode::End => {
                let (line, _) = self.position();
                self.move_to(line, usize::MAX);
            },
            _ => {
                return false;
            },
        }
        true
    }
}

proof fn lemma_offset_mono(ls: Seq<Seq<char>>, a: int, b: int)
    requires
        0 <= a <= b,
    ensures
        line_offset(ls, a) <= line_offset(ls, b),
    decreases b - a,
{
    if a < b {
        lemma_offset_mono(ls, a, b - 1);
    }
}

proof fn lemma_position_bounds(s: Seq<char>, cursor: int)
    requires
        0 <= cursor <= s.len(),
    ensures
        0 <= notes_position(s, cursor).0 <= cursor,
        0 <= notes_position(s, cursor).1 <= cursor,
{
    let t = s.take(cursor);
    lemma_lines_fill(t);
    lemma_offset_lines(note_lines(t), note_lines(t).len() - 1);
}

proof fn lemma_offset_lines(ls: Seq<Seq<char>>, l: int)
    requires
        0 <= l,
    ensures
        line_offset(ls, l) >= l,
    decreases l,
{
    if l > 0 {
        lemma_offset_lines(ls, l - 1);
    }
}

#[derive(Debug, Clone, Copy, PartialEq, Eq, Structural)]
pub enum Focus {
    Title,
    Notes,
    Due,
    Priority,
    List,
    Flag,
    Buttons,
}

/// A focus's place in the tab order.
pub open spec fn focus_index(f: Focus) -> int {
    match f {
        Focus::Title => 0,
        Focus::Notes => 1,
        Focus::Due => 2,
        Focus::Priority => 3,
        Focus::List => 4,
        Focus::Flag => 5,
        Focus::Buttons => 6,
    }
}

/// The focus at a place in the tab order.
pub open spec fn focus_at(i: int) -> Focus {
    if i == 0 {
        Focus::Title
    } else if i == 1 {
        Focus::Notes
    } else if i == 2 {
        Focus::Due
    } else if i == 3 {
        Focus::Priority
    } else if i == 4 {
        Focus::List
    } else if i == 5 {
        Focus::Flag
    } else {
        Focus::Buttons
    }
}

/// The next focus in tab order, or the previous one, wrapping around.
pub open spec fn stepped_focus(f: Focus, forward: bool) -> Focus {
    if forward {
        focus_at((focus_index(f) + 1) % 7)
    } else {
        focus_at((focus_index(f) + 6) % 7)
    }
}

/// The buttons of the form, left to right.
pub const BUTTON_EDITOR: &'static str = "Editor";
pub const BUTTON_CANCEL: &'static str = "Cancel";
pub const BUTTON_SAVE: &'static str = "Save";

/// What the form does when a key is pressed that is not plain editing.
#[derive(Debug, Clone, Copy, PartialEq, Eq, Structural)]
pub enum FormEvent {
    /// Nothing for the caller to do.
    Nothing,
    Save,
    Cancel,
    Editor,
}

/// The priority before `p` in the `p` key's cycle.
pub open spec fn prev_priority(p: Priority) -> Priority {
    match p {
        Priority::Unset => Priority::High,
        Priority::Low => Priority::Unset,
        Priority::Medium => Priority::Low,
        Priority::High => Priority::Medium,
    }
}

/// The list choice after cycling through `n` lists. Without a choice the
/// first list is chosen; past the last it wraps to the first, before the
/// first to the last.
pub open spec fn cycled_list(list: Option<usize>, n: int, forward: bool) -> Option<usize> {
    if n == 0 {
        list
    } else {
        match list {
            None => Some(0),
            Some(i) => if forward {
                if i + 1 < n {
                    Some((i + 1) as usize)
                } else {
                    Some(0)
                }
            } else if i == 0 {
                Some((n - 1) as usize)
            } else {
                Some((i - 1) as usize)
            },
        }
    }
}

/// The form as plain values.
pub struct FormView {
    pub title: FieldState,
    pub notes: FieldState,
    pub due: FieldState,
    pub priority: Priority,
    pub lists: int,
    pub list: Option<usize>,
    pub flagged: bool,
    pub focus: Focus,
    pub button: int,
    pub saving: bool,
}

/// What a key does to the form, and the event it raises. The dialog
/// shortcuts win over field editing.
pub open spec fn form_key(v: FormView, key: KeyEvent) -> (FormView, FormEvent) {
    let ctrl = key.modifiers & CONTROL == CONTROL;
    let step_fwd = FormView { focus: stepped_focus(v.focus, true), ..v };
    let step_back = FormView { focus: stepped_focus(v.focus, false), ..v };
    if key.code == KeyCode::Esc {
        (v, FormEvent::Cancel)
    } else if key.code == KeyCode::Char('s') && ctrl {
        (v, FormEvent::Save)
    } else if key.code == KeyCode::Char('e') && ctrl {
        (v, FormEvent::Editor)
    } else if key.code == KeyCode::Tab {
        (step_fwd, FormEvent::Nothing)
    } else if key.code == KeyCode::BackTab {
        (step_back, FormEvent::Nothing)
    } else if v.saving {
        (v, FormEvent::Nothing)
    } else {
        match v.focus {
            Focus::Title => if key.code == KeyCode::Enter {
                (v, FormEvent::Save)
            } else if key.code == KeyCode::Down {
                (step_fwd, FormEvent::Nothing)
            } else if key.code == KeyCode::Up {
                (step_back, FormEvent::Nothing)
            } else {
                match super::field::field_key(v.title, key) {
                    Some(t) => (FormView { title: t, ..v }, FormEvent::Nothing),
                    None => (v, FormEvent::Nothing),
                }
            },
            Focus::Due => if key.code == KeyCode::Enter {
                (v, FormEvent::Save)
            } else if key.code == KeyCode::Down {
                (step_fwd, FormEvent::Nothing)
            } else if key.code == KeyCode::Up {
                (step_back, FormEvent::Nothing)
            } else {
                match super::field::field_key(v.due, key) {
                    Some(t) => (FormView { due: t, ..v }, FormEvent::Nothing),
                    None => (v, FormEvent::Nothing),
                }
            },
            Focus::Notes => match notes_key(v.notes, key) {
                Some(t) => (FormView { notes: t, ..v }, FormEvent::Nothing),
                None => (v, FormEvent::Nothing),
            },
            Focus::Priority => if key.code == KeyCode::Right || key.code == KeyCode::Char(' ')
                || key.code == KeyCode::Enter || key.code == KeyCode::Down {
                (FormView { priority: next_priority(v.priority), ..v }, FormEvent::Nothing)
            } else if key.code == KeyCode::Left || key.code == KeyCode::Up {
                (FormView { priority: prev_priority(v.priority), ..v }, FormEvent::Nothing)
            } else {
                (v, FormEvent::Nothing)
            },
            Focus::List => if key.code == KeyCode::Right || key.code == KeyCode::Char(' ')
                || key.code == KeyCode::Enter || key.code == KeyCode::Down {
                (FormView { list: cycled_list(v.list, v.lists, true), ..v }, FormEvent::Nothing)
            } else if key.code == KeyCode::Left || key.code == KeyCode::Up {
                (FormView { list: cycled_list(v.list, v.lists, false), ..v }, FormEvent::Nothing)
            } else {
                (v, FormEvent::Nothing)
            },
            Focus::Flag => if key.code == KeyCode::Char(' ') || key.code == KeyCode::Enter {
                (FormView { flagged: !v.flagged, ..v }, FormEvent::Nothing)
            } else if key.code == KeyCode::Down {
                (step_fwd, FormEvent::Nothing)
            } else if key.code == KeyCode::Up {
                (step_back, FormEvent::Nothing)
            } else {
                (v, FormEvent::Nothing)
            },
            Focus::Buttons => if key.code == KeyCode::Left {
                (FormView { button: if v.button > 0 {
                    v.button - 1
                } else {
                    0
                }, ..v }, FormEvent::Nothing)
            } else if key.code == KeyCode::Right {
                (FormView { button: if v.button + 1 < 2 {
                    v.button + 1
                } else {
                    2
                }, ..v }, FormEvent::Nothing)
            } else if key.code == KeyCode::Up {
                (step_back, FormEvent::Nothing)
            } else if key.code == KeyCode::Enter || key.code == KeyCode::Char(' ') {
                (v, if v.button == 0 {
                    FormEvent::Editor
                } else if v.button == 1 {
                    FormEvent::Cancel
                } else {
                    FormEvent::Save
                })
            } else {
                (v, FormEvent::Nothing)
            },
        }
    }
}

/// The due text a form shows for a due moment: the date alone for an
/// all-day reminder or one due at midnight, else date and time.
pub open spec fn prefill_text(due: Option<DateTime>, all_day: bool) -> Seq<char> {
    match due {
        None => Seq::empty(),
        Some(t) => if all_day || (t.hour == 0 && t.minute == 0) {
            date_text(t)
        } else {
            minute_text(t)
        },
    }
}

/// The due text for a parsed due moment, in a form remctl can parse back.
pub fn prefill_text_of(due: Option<DateTime>, all_day: bool) -> (r: String)
    ensures
        r@ == prefill_text(due, all_day),
        r@.len() <= 70,
{
    proof {
        if let Some(t) = due {
            lemma_texts_short(t);
        }
    }
    match due {
        None => String::new(),
        Some(t) => if all_day || (t.hour == 0 && t.minute == 0) {
            format_date(t)
        } else {
            format_minute(t)
        },
    }
}

/// The current due date in a form remctl can parse back.
pub fn prefill_due(reminder: &Reminder) -> (r: String)
    ensures
        exists|d: Option<DateTime>|
            due_fits(reminder.due_raw@, d) && r@ == #[trigger] prefill_text(d, reminder.all_day),
        r@.len() <= 70,
{
    let due = reminder.due();
    let r = prefill_text_of(due, reminder.all_day);
    assert(due_fits(reminder.due_raw@, due) && r@ == prefill_text(due, reminder.all_day));
    r
}

/// `a` is a copy of `b`.
pub open spec fn same_reminder(a: Reminder, b: Reminder) -> bool {
    a.tags@ == b.tags@ && a == (Reminder { tags: a.tags, ..b })
}

/// The list choices a form offers: the titles, with the current list put
/// first when it is named and not among them.
pub open spec fn form_lists(titles: Seq<Seq<char>>, current: Seq<char>) -> Seq<Seq<char>> {
    if current.len() > 0 && !titles.contains(current) {
        seq![current] + titles
    } else {
        titles
    }
}

/// The first place `x` holds in `s`.
pub open spec fn first_index(s: Seq<Seq<char>>, x: Seq<char>, i: int) -> bool {
    0 <= i < s.len() && s[i] == x && forall|j: int| 0 <= j < i ==> s[j] != x
}

#[derive(Debug, Clone)]
pub struct Form {
    /// The reminder being edited, or None for a new one.
    pub reminder: Option<Reminder>,
    pub title: Field,
    pub notes: Notes,
    pub due: Field,
    pub priority: Priority,
    pub lists: Vec<String>,
    /// Index into `lists`; None is the blank option (only when no default).
    pub list: Option<usize>,
    pub flagged: bool,
    pub focus: Focus,
    pub button: usize,
    pub error: String,
    pub saving: bool,
}

/// The list a form's choice names, or "" for none.
pub open spec fn chosen_list(lists: Seq<Seq<char>>, list: Option<usize>) -> Seq<char> {
    match list {
        Some(i) => if i < lists.len() {
            lists[i as int]
        } else {
            Seq::empty()
        },
        None => Seq::empty(),
    }
}

fn index_of(lists: &Vec<String>, x: &String) -> (r: Option<usize>)
    ensures
        match r {
            Some(i) => first_index(string_views(lists@), x@, i as int),
            None => !string_views(lists@).contains(x@),
        },
{
    let mut i: usize = 0;
    while i < lists.len()
        invariant
            i <= lists@.len(),
            forall|j: int| 0 <= j < i ==> string_views(lists@)[j] != x@,
        decreases lists.len() - i,
    {
        if lists[i] == *x {
            return Some(i);
        }
        i += 1;
    }
    proof {
        if string_views(lists@).contains(x@) {
            let k = choose|k: int| 0 <= k < string_views(lists@).len() && string_views(lists@)[k] == x@;
            assert(string_views(lists@)[k] != x@);
        }
    }
    None
}

/// `f` is the form that opens for `reminder` (None for a new one), with
/// these list titles and, for a new reminder, this default list: the
/// reminder's fields prefilled (the due text as it parses back), the list
/// choices with the current list first when it is not among them, the title
/// focused and Save highlighted.
pub open spec fn fresh_form(f: Form, reminder: Option<Reminder>, titles: Seq<Seq<char>>, default_list: Seq<char>) -> bool {
    &&& match reminder {
        Some(r) => {
            &&& f.reminder matches Some(c) && same_reminder(c, r)
            &&& f.title.state() == (r.title@, r.title@.len() as int)
            &&& f.notes.state() == (r.notes@, r.notes@.len() as int)
            &&& exists|d: Option<DateTime>| due_fits(r.due_raw@, d) && f.due.value@ == #[trigger] prefill_text(d, r.all_day)
            &&& f.priority == r.priority
            &&& f.flagged == r.flagged
        },
        None => {
            &&& f.reminder is None
            &&& f.title.state() == (Seq::<char>::empty(), 0int)
            &&& f.notes.state() == (Seq::<char>::empty(), 0int)
            &&& f.due.value@ == Seq::<char>::empty()
            &&& f.priority == Priority::Unset
            &&& !f.flagged
        },
    }
    &&& f.due.cursor == f.due.value@.len()
    &&& f.due.value@.len() <= 70
    &&& ({
        let current = match reminder {
            Some(r) => r.list_name@,
            None => default_list,
        };
        &&& string_views(f.lists@) == form_lists(titles, current)
        &&& current.len() == 0 ==> f.list is None
        &&& current.len() > 0 ==> (f.list matches Some(i) && first_index(string_views(f.lists@), current, i as int))
    })
    &&& f.focus == Focus::Title
    &&& f.button == 2
    &&& f.error@ == Seq::<char>::empty()
    &&& !f.saving
}

/// A new form shows the reminder's list, or for a new reminder the default
/// list (none when that is ""), even when it is not among the titles.
pub proof fn law_new_form_shows_its_list(f: Form, reminder: Option<Reminder>, titles: Seq<Seq<char>>, default_list: Seq<char>)
    requires
        fresh_form(f, reminder, titles, default_list),
    ensures
        chosen_list(string_views(f.lists@), f.list) == match reminder {
            Some(r) => r.list_name@,
            None => default_list,
        },
{
}

impl Form {
    /// The form as plain values.
    pub open spec fn view(&self) -> FormView {
        FormView {
            title: self.title.state(),
            notes: self.notes.state(),
            due: self.due.state(),
            priority: self.priority,
            lists: self.lists@.len() as int,
            list: self.list,
            flagged: self.flagged,
            focus: self.focus,
            button: self.button as int,
            saving: self.saving,
        }
    }

    /// The text fields are well formed.
    pub open spec fn wf(&self) -> bool {
        self.title.wf() && self.notes.wf() && self.due.wf()
    }

    pub fn new(reminder: Option<&Reminder>, list_titles: &[String], default_list: &str) -> (f: Form)
        requires
            reminder matches Some(r) ==> r.title@.len() < usize::MAX && r.notes@.len() < usize::MAX,
        ensures
            f.wf(),
            fresh_form(
                f,
                match reminder {
                    Some(r) => Some(*r),
                    None => None,
                },
                string_views(list_titles@),
                default_list@,
            ),
    {
        let mut lists: Vec<String> = Vec::new();
        let mut k: usize = 0;
        while k < list_titles.len()
            invariant
                k <= list_titles@.len(),
                lists@ == list_titles@.take(k as int),
            decreases list_titles.len() - k,
        {
            lists.push(list_titles[k].clone());
            k += 1;
            assert(lists@ =~= list_titles@.take(k as int));
        }
        assert(list_titles@.take(list_titles@.len() as int) =~= list_titles@);
        let current: String = match reminder {
            Some(r) => r.list_name.clone(),
            None => string_of(chars_of(default_list).as_slice()),
        };
        let found = index_of(&lists, &current);
        if !current.as_str().is_empty() && found.is_none() {
            let ghost before = string_views(lists@);
            lists.insert(0, current.clone());
            assert(string_views(lists@) =~= seq![current@] + before);
        }
        let list = if current.as_str().is_empty() {
            None
        } else {
            index_of(&lists, &current)
        };
        proof {
            if current@.len() > 0 {
                assert(string_views(lists@).contains(current@)) by {
                    if found is None {
                        assert(string_views(lists@)[0] == current@);
                    } else {
                        let i = found.unwrap() as int;
                        assert(string_views(lists@)[i] == current@);
                    }
                }
            }
        }
        let (title, notes, due, priority, flagged, copy) = match reminder {
            Some(r) => {
                let due = prefill_due(r);
                (Field::new(r.title.as_str()), Notes::new(r.notes.as_str()), Field::new(due.as_str()), r.priority, r.flagged, Some(r.copy()))
            },
            None => {
                proof {
                    reveal_strlit("");
                    assert(""@ =~= Seq::<char>::empty());
                }
                (Field::new(""), Notes::new(""), Field::new(""), Priority::Unset, false, None)
            },
        };
        proof {
            if let Some(r) = reminder {
                let d = choose|d: Option<DateTime>|
                    due_fits(r.due_raw@, d) && due.value@ == #[trigger] prefill_text(d, r.all_day);
                assert(due_fits(r.due_raw@, d) && due.value@ == prefill_text(d, r.all_day));
                assert(copy matches Some(c) && same_reminder(c, *r));
            }
        }
        Form {
            reminder: copy,
            title,
            notes,
            due,
            priority,
            lists,
            list,
            flagged,
            focus: Focus::Title,
            button: 2,
            error: String::new(),
            saving: false,
        }
    }

    pub fn is_edit(&self) -> (r: bool)
        ensures
            r == self.reminder is Some,
    {
        self.reminder.is_some()
    }

    pub fn heading(&self) -> (r: &'static str)
        ensures
            r@ == (if self.reminder is Some {
                "✎ Edit Reminder"@
            } else {
                "＋ New Reminder"@
            }),
    {
        if self.is_edit() {
            "✎ Edit Reminder"
        } else {
            "＋ New Reminder"
        }
    }

    pub fn save_label(&self) -> (r: &'static str)
        ensures
            r@ == (if self.reminder is Some {
                "Save"@
            } else {
                "Add"@
            }),
    {
        if self.is_edit() {
            "Save"
        } else {
            "Add"
        }
    }

    /// The chosen list's title, or "" when none is chosen.
    pub fn list_title(&self) -> (r: String)
        ensures
            r@ == chosen_list(string_views(self.lists@), self.list),
    {
        match self.list {
            Some(i) => if i < self.lists.len() {
                self.lists[i].clone()
            } else {
                String::new()
            },
            None => String::new(),
        }
    }

    fn step_focus(&mut self, forward: bool)
        ensures
            *final(self) == (Form { focus: stepped_focus(old(self).focus, forward), ..*old(self) }),
    {
        let index: usize = match self.focus {
            Focus::Title => 0,
            Focus::Notes => 1,
            Focus::Due => 2,
            Focus::Priority => 3,
            Focus::List => 4,
            Focus::Flag => 5,
            Focus::Buttons => 6,
        };
        let next = if forward {
            (index + 1) % 7
        } else {
            (index + 6) % 7
        };
        self.focus = if next == 0 {
            Focus::Title
        } else if next == 1 {
            Focus::Notes
        } else if next == 2 {
            Focus::Due
        } else if next == 3 {
            Focus::Priority
        } else if next == 4 {
            Focus::List
        } else if next == 5 {
            Focus::Flag
        } else {
            Focus::Buttons
        };
    }

    fn cycle_list(&mut self, forward: bool)
        ensures
            *final(self) == (Form { list: cycled_list(old(self).list, old(self).lists@.len() as int, forward), ..*old(self) }),
    {
        let n = self.lists.len();
        if n == 0 {
            return;
        }
        self.list = match self.list {
            None => Some(0),
            Some(i) => if forward {
                if i < n - 1 {
                    Some(i + 1)
                } else {
                    Some(0)
                }
            } else if i == 0 {
                Some(n - 1)
            } else {
                Some(i - 1)
            },
        };
    }

    fn cycle_priority(&mut self, forward: bool)
        ensures
            *final(self) == (Form {
                priority: if forward {
                    next_priority(old(self).priority)
                } else {
                    prev_priority(old(self).priority)
                },
                ..*old(self)
            }),
    {
        self.priority = if forward {
            self.priority.next()
        } else {
            match self.priority {
                Priority::Unset => Priority::High,
                Priority::Low => Priority::Unset,
                Priority::Medium => Priority::Low,
                Priority::High => Priority::Medium,
            }
        };
    }
}


/// `o` carries `new` exactly when `differs`.
pub open spec fn sends(o: Option<String>, new: Seq<char>, differs: bool) -> bool {
    &&& (o is Some <==> differs)
    &&& (o matches Some(t) ==> t@ == new)
}

/// `r` holds the fields of a new reminder from form `f`: trimmed title and
/// due, notes without trailing white space, the chosen list, no tags and no
/// URL.
pub open spec fn add_fields_of(f: Form, r: AddFields) -> bool {
    &&& r.title@ == trim(f.title.value@)
    &&& r.list_title@ == chosen_list(string_views(f.lists@), f.list)
    &&& r.notes@ == trim_end(f.notes.text@)
    &&& r.due@ == trim(f.due.value@)
    &&& r.priority@ == priority_word(f.priority)
    &&& r.flagged == f.flagged
    &&& r.tags@ == Seq::<char>::empty()
    &&& r.url@ == Seq::<char>::empty()
}

/// `r` holds only the fields form `f` changed of the reminder it edits.
pub open spec fn edit_fields_of(f: Form, r: EditFields) -> bool {
    match f.reminder {
        None => r.title is None && r.notes is None && r.due is None && r.priority is None && r.list_title is None
            && r.flagged is None,
        Some(rem) => {
            let title = trim(f.title.value@);
            let notes = trim_end(f.notes.text@);
            let due = trim(f.due.value@);
            let list = chosen_list(string_views(f.lists@), f.list);
            &&& sends(r.title, title, title != rem.title@)
            &&& sends(r.notes, notes, notes != trim_end(rem.notes@))
            &&& exists|d: Option<DateTime>|
                due_fits(rem.due_raw@, d) && sends(r.due, due, due != #[trigger] prefill_text(d, rem.all_day))
            &&& sends(r.priority, priority_word(f.priority), f.priority != rem.priority)
            &&& sends(r.list_title, list, list.len() > 0 && list != rem.list_name@)
            &&& r.flagged == (if f.flagged != rem.flagged {
                Some(f.flagged)
            } else {
                None
            })
        },
    }
}

impl Form {
    /// Apply a key; the dialog shortcuts win over field editing.
    pub fn handle(&mut self, key: &KeyEvent) -> (r: FormEvent)
        requires
            old(self).wf(),
            old(self).title.value@.len() + 1 < usize::MAX,
            old(self).due.value@.len() + 1 < usize::MAX,
            old(self).notes.text@.len() + 1 < usize::MAX,
        ensures
            final(self).wf(),
            (final(self).view(), r) == form_key(old(self).view(), *key),
            final(self).reminder == old(self).reminder,
            final(self).lists == old(self).lists,
            final(self).error == old(self).error,
    {
        let ctrl = key.holds(CONTROL);
        match key.code {
            KeyCode::Esc => {
                return FormEvent::Cancel;
            },
            KeyCode::Char('s') if ctrl => {
                return FormEvent::Save;
            },
            KeyCode::Char('e') if ctrl => {
                return FormEvent::Editor;
            },
            KeyCode::Tab => {
                self.step_focus(true);
                return FormEvent::Nothing;
            },
            KeyCode::BackTab => {
                self.step_focus(false);
                return FormEvent::Nothing;
            },
            _ => {},
        }
        if self.saving {
            return FormEvent::Nothing;
        }
        match self.focus {
            Focus::Title => match key.code {
                KeyCode::Enter => {
                    return FormEvent::Save;
                },
                KeyCode::Down => self.step_focus(true),
                KeyCode::Up => self.step_focus(false),
                _ => {
                    self.title.handle(key);
                },
            },
            Focus::Due => match key.code {
                KeyCode::Enter => {
                    return FormEvent::Save;
                },
                KeyCode::Down => self.step_focus(true),
                KeyCode::Up => self.step_focus(false),
                _ => {
                    self.due.handle(key);
                },
            },
            Focus::Notes => {
                self.notes.handle(key);
            },
            Focus::Priority => match key.code {
                KeyCode::Right | KeyCode::Char(' ') | KeyCode::Enter | KeyCode::Down => {
                    self.cycle_priority(true)
                },
                KeyCode::Left | KeyCode::Up => self.cycle_priority(false),
                _ => {},
            },
            Focus::List => match key.code {
                KeyCode::Right | KeyCode::Char(' ') | KeyCode::Enter | KeyCode::Down => {
                    self.cycle_list(true)
                },
                KeyCode::Left | KeyCode::Up => self.cycle_list(false),
                _ => {},
            },
            Focus::Flag => match key.code {
                KeyCode::Char(' ') | KeyCode::Enter => self.flagged = !self.flagged,
                KeyCode::Down => self.step_focus(true),
                KeyCode::Up => self.step_focus(false),
                _ => {},
            },
            Focus::Buttons => match key.code {
                KeyCode::Left => if self.button > 0 {
                    self.button = self.button - 1;
                },
                KeyCode::Right => if self.button < 1 {
                    self.button = self.button + 1;
                } else {
                    self.button = 2;
                },
                KeyCode::Up => self.step_focus(false),
                KeyCode::Enter | KeyCode::Char(' ') => {
                    return if self.button == 0 {
                        FormEvent::Editor
                    } else if self.button == 1 {
                        FormEvent::Cancel
                    } else {
                        FormEvent::Save
                    };
                },
                _ => {},
            },
        }
        FormEvent::Nothing
    }

    /// Validate; on failure the error is set and the title focused.
    pub fn validate(&mut self) -> (r: bool)
        ensures
            r == (trim(old(self).title.value@).len() > 0),
            r ==> *final(self) == *old(self),
            !r ==> *final(self) == (Form { error: final(self).error, focus: Focus::Title, ..*old(self) }),
            !r ==> final(self).error@ == "⚠ A title is required."@,
    {
        let t = trim_str(self.title.value.as_str());
        if t.as_str().is_empty() {
            self.error = string_of(chars_of("⚠ A title is required.").as_slice());
            self.focus = Focus::Title;
            return false;
        }
        true
    }

    /// The fields of a new reminder: trimmed title and due, notes without
    /// trailing white space, the chosen list, no tags and no URL.
    pub fn add_fields(&self) -> (r: AddFields)
        ensures
            add_fields_of(*self, r),
    {
        AddFields {
            title: trim_str(self.title.value.as_str()),
            list_title: self.list_title(),
            notes: trim_end_str(self.notes.text.as_str()),
            due: trim_str(self.due.value.as_str()),
            priority: string_of(chars_of(self.priority.as_str()).as_slice()),
            flagged: self.flagged,
            tags: String::new(),
            url: String::new(),
        }
    }

    /// Only the fields that changed, for an edit.
    pub fn edit_fields(&self) -> (r: EditFields)
        ensures
            edit_fields_of(*self, r),
    {
        let rem = match &self.reminder {
            None => {
                return EditFields { title: None, notes: None, due: None, priority: None, list_title: None, flagged: None };
            },
            Some(r) => r,
        };
        let title = trim_str(self.title.value.as_str());
        let new_title = if title != rem.title {
            Some(title)
        } else {
            None
        };
        let notes = trim_end_str(self.notes.text.as_str());
        let old_notes = trim_end_str(rem.notes.as_str());
        let new_notes = if notes != old_notes {
            Some(notes)
        } else {
            None
        };
        let due = trim_str(self.due.value.as_str());
        let prefilled = prefill_due(rem);
        let ghost due_text = due@;
        let new_due = if due != prefilled {
            Some(due)
        } else {
            None
        };
        proof {
            let d = choose|d: Option<DateTime>|
                due_fits(rem.due_raw@, d) && prefilled@ == #[trigger] prefill_text(d, rem.all_day);
            assert(due_fits(rem.due_raw@, d) && sends(new_due, due_text, due_text != prefill_text(d, rem.all_day)));
        }
        let new_priority = if self.priority != rem.priority {
            Some(string_of(chars_of(self.priority.as_str()).as_slice()))
        } else {
            None
        };
        let list = self.list_title();
        let new_list = if !list.as_str().is_empty() && list != rem.list_name {
            Some(list)
        } else {
            None
        };
        let new_flag = if self.flagged != rem.flagged {
            Some(self.flagged)
        } else {
            None
        };
        EditFields {
            title: new_title,
            notes: new_notes,
            due: new_due,
            priority: new_priority,
            list_title: new_list,
            flagged: new_flag,
        }
    }
}

/// Shift-tab undoes tab, and tab undoes shift-tab.
pub proof fn law_focus_steps_undo(f: Focus)
    ensures
        stepped_focus(stepped_focus(f, true), false) == f,
        stepped_focus(stepped_focus(f, false), true) == f,
{
}

/// The focus after `f` in tab order.
pub open spec fn focus_after(f: Focus) -> Focus {
    match f {
        Focus::Title => Focus::Notes,
        Focus::Notes => Focus::Due,
        Focus::Due => Focus::Priority,
        Focus::Priority => Focus::List,
        Focus::List => Focus::Flag,
        Focus::Flag => Focus::Buttons,
        Focus::Buttons => Focus::Title,
    }
}

/// Tab moves the focus to the next field in the tab order.
pub proof fn law_tab_follows_order(f: Focus)
    ensures
        stepped_focus(f, true) == focus_after(f),
{
    match f {
        Focus::Title => {},
        Focus::Notes => {},
        Focus::Due => {},
        Focus::Priority => {},
        Focus::List => {},
        Focus::Flag => {},
        Focus::Buttons => {},
    }
}

/// The tab order is one cycle through all seven fields: seven steps come
/// back to the start.
pub proof fn law_focus_cycle(f: Focus)
    ensures
        focus_after(focus_after(focus_after(focus_after(focus_after(focus_after(focus_after(f))))))) == f,
{
    match f {
        Focus::Title => {},
        Focus::Notes => {},
        Focus::Due => {},
        Focus::Priority => {},
        Focus::List => {},
        Focus::Flag => {},
        Focus::Buttons => {},
    }
}

/// Cycling the priority back undoes cycling it forward.
pub proof fn law_priority_cycle_undo(p: Priority)
    ensures
        prev_priority(next_priority(p)) == p,
        next_priority(prev_priority(p)) == p,
{
}

} // verus!
