//! A one-line text field with a cursor, shared by the filter box and the form.

use vstd::prelude::*;

use crate::keys::{KeyCode, KeyEvent, ALT, CONTROL};
use crate::text::{chars_of, is_whitespace, is_ws, slice_chars, string_of};

verus! {

/// A field as plain values: its characters and its cursor (a char index).
pub type FieldState = (Seq<char>, int);

/// Typing `c` at the cursor.
pub open spec fn typed(s: FieldState, c: char) -> FieldState {
    (s.0.insert(s.1, c), s.1 + 1)
}

/// Backspace: the character before the cursor goes.
pub open spec fn backspaced(s: FieldState) -> FieldState {
    if s.1 > 0 {
        (s.0.remove(s.1 - 1), s.1 - 1)
    } else {
        s
    }
}

/// Delete: the character at the cursor goes.
pub open spec fn deleted(s: FieldState) -> FieldState {
    if s.1 < s.0.len() {
        (s.0.remove(s.1), s.1)
    } else {
        s
    }
}

pub open spec fn moved_left(s: FieldState) -> FieldState {
    (s.0, if s.1 > 0 {
        s.1 - 1
    } else {
        0
    })
}

pub open spec fn moved_right(s: FieldState) -> FieldState {
    (s.0, if s.1 + 1 < s.0.len() {
        s.1 + 1
    } else {
        s.0.len() as int
    })
}

/// Where the word before `i` starts: back over white space, then back over
/// the word.
pub open spec fn word_start(v: Seq<char>, i: int) -> int
    decreases i,
{
    if i > 0 && i <= v.len() && is_ws(v[i - 1]) {
        word_start(v, i - 1)
    } else {
        word_body_start(v, i)
    }
}

pub open spec fn word_body_start(v: Seq<char>, i: int) -> int
    decreases i,
{
    if i > 0 && i <= v.len() && !is_ws(v[i - 1]) {
        word_body_start(v, i - 1)
    } else {
        i
    }
}

/// `ctrl+w`: the word before the cursor goes.
pub open spec fn word_deleted(s: FieldState) -> FieldState {
    let i = word_start(s.0, s.1);
    (s.0.take(i) + s.0.skip(s.1), i)
}

/// What an editing key does to a field, or None when it is no editing key.
pub open spec fn field_key(s: FieldState, key: KeyEvent) -> Option<FieldState> {
    let ctrl = key.modifiers & CONTROL == CONTROL;
    let alt = key.modifiers & ALT == ALT;
    match key.code {
        KeyCode::Char(c) => if !ctrl && !alt {
            Some(typed(s, c))
        } else if c == 'a' && ctrl {
            Some((s.0, 0))
        } else if c == 'e' && ctrl {
            Some((s.0, s.0.len() as int))
        } else if c == 'u' && ctrl {
            Some((Seq::empty(), 0))
        } else if c == 'k' && ctrl {
            Some((s.0.take(s.1), s.1))
        } else if c == 'w' && ctrl {
            Some(word_deleted(s))
        } else {
            None
        },
        KeyCode::Backspace => if alt {
            Some(word_deleted(s))
        } else {
            Some(backspaced(s))
        },
        KeyCode::Delete => Some(deleted(s)),
        KeyCode::Left => Some(moved_left(s)),
        KeyCode::Right => Some(moved_right(s)),
        KeyCode::Home => Some((s.0, 0)),
        KeyCode::End => Some((s.0, s.0.len() as int)),
        _ => None,
    }
}

#[derive(Debug, Clone, PartialEq, Eq)]
pub struct Field {
    pub value: String,
    pub cursor: usize,
}

impl Default for Field {
    fn default() -> (f: Field)
        ensures
            f.value@ == Seq::<char>::empty(),
            f.cursor == 0,
    {
        Field { value: String::new(), cursor: 0 }
    }
}

impl Field {
    /// The field as plain values.
    pub open spec fn state(&self) -> FieldState {
        (self.value@, self.cursor as int)
    }

    /// The cursor stands within the text, and one more character still fits.
    pub open spec fn wf(&self) -> bool {
        &&& self.cursor <= self.value@.len()
        &&& self.value@.len() < usize::MAX
    }

    /// A field holding `value`, the cursor at its end.
    pub fn new(value: &str) -> (f: Field)
        requires
            value@.len() < usize::MAX,
        ensures
            f.state() == (value@, value@.len() as int),
            f.wf(),
    {
        let v = chars_of(value);
        Field { value: string_of(v.as_slice()), cursor: v.len() }
    }

    pub fn insert(&mut self, ch: char)
        requires
            old(self).wf(),
            old(self).value@.len() + 1 < usize::MAX,
        ensures
            final(self).state() == typed(old(self).state(), ch),
            final(self).wf(),
    {
        let mut v = chars_of(self.value.as_str());
        v.insert(self.cursor, ch);
        self.value = string_of(v.as_slice());
        self.cursor = self.cursor + 1;
    }

    pub fn backspace(&mut self)
        requires
            old(self).wf(),
        ensures
            final(self).state() == backspaced(old(self).state()),
            final(self).wf(),
    {
        if self.cursor > 0 {
            let mut v = chars_of(self.value.as_str());
            v.remove(self.cursor - 1);
            self.value = string_of(v.as_slice());
            self.cursor = self.cursor - 1;
        }
    }

    pub fn delete(&mut self)
        requires
            old(self).wf(),
        ensures
            final(self).state() == deleted(old(self).state()),
            final(self).wf(),
    {
        let mut v = chars_of(self.value.as_str());
        if self.cursor < v.len() {
            v.remove(self.cursor);
            self.value = string_of(v.as_slice());
        }
    }

    pub fn left(&mut self)
        requires
            old(self).wf(),
        ensures
            final(self).state() == moved_left(old(self).state()),
            final(self).wf(),
    {
        if self.cursor > 0 {
            self.cursor = self.cursor - 1;
        }
    }

    pub fn right(&mut self)
        requires
            old(self).wf(),
        ensures
            final(self).state() == moved_right(old(self).state()),
            final(self).wf(),
    {
        let n = chars_of(self.value.as_str()).len();
        if self.cursor + 1 < n {
            self.cursor = self.cursor + 1;
        } else {
            self.cursor = n;
        }
    }

    pub fn home(&mut self)
        requires
            old(self).wf(),
        ensures
            final(self).state() == (old(self).value@, 0int),
            final(self).wf(),
    {
        self.cursor = 0;
    }

    pub fn end(&mut self)
        requires
            old(self).wf(),
        ensures
            final(self).state() == (old(self).value@, old(self).value@.len() as int),
            final(self).wf(),
    {
        self.cursor = chars_of(self.value.as_str()).len();
    }

    pub fn clear(&mut self)
        ensures
            final(self).state() == (Seq::<char>::empty(), 0int),
            final(self).wf(),
    {
        self.value = String::new();
        self.cursor = 0;
    }

    /// Delete from the cursor to the end (`ctrl+k`).
    pub fn kill_to_end(&mut self)
        requires
            old(self).wf(),
        ensures
            final(self).state() == (old(self).value@.take(old(self).cursor as int), old(self).cursor as int),
            final(self).wf(),
    {
        let v = chars_of(self.value.as_str());
        let kept = slice_chars(v.as_slice(), 0, self.cursor);
        self.value = string_of(kept.as_slice());
    }

    /// Delete the word before the cursor (`ctrl+w`, `alt+backspace`).
    pub fn delete_word(&mut self)
        requires
            old(self).wf(),
        ensures
            final(self).state() == word_deleted(old(self).state()),
            final(self).wf(),
    {
        let chars = chars_of(self.value.as_str());
        let mut i = self.cursor;
        while i > 0 && is_whitespace(chars[i - 1])
            invariant
                i <= self.cursor <= chars@.len(),
                word_start(chars@, self.cursor as int) == word_start(chars@, i as int),
            decreases i,
        {
            i -= 1;
        }
        assert(word_start(chars@, i as int) == word_body_start(chars@, i as int));
        while i > 0 && !is_whitespace(chars[i - 1])
            invariant
                i <= self.cursor <= chars@.len(),
                word_start(chars@, self.cursor as int) == word_body_start(chars@, i as int),
            decreases i,
        {
            i -= 1;
        }
        let head = slice_chars(chars.as_slice(), 0, i);
        let tail = slice_chars(chars.as_slice(), self.cursor, chars.len());
        let mut rest = head;
        let mut k: usize = 0;
        while k < tail.len()
            invariant
                k <= tail@.len(),
                rest@ == chars@.take(i as int) + tail@.take(k as int),
            decreases tail.len() - k,
        {
            rest.push(tail[k]);
            k += 1;
            assert(tail@.take(k as int) == tail@.take(k - 1).push(tail@[k - 1]));
        }
        assert(tail@.take(tail@.len() as int) =~= tail@);
        assert(rest@ =~= chars@.take(i as int) + chars@.skip(self.cursor as int));
        self.value = string_of(rest.as_slice());
        self.cursor = i;
    }

    /// Apply an editing key; false when the key is not an editing key.
    pub fn handle(&mut self, key: &KeyEvent) -> (r: bool)
        requires
            old(self).wf(),
            old(self).value@.len() + 1 < usize::MAX,
        ensures
            final(self).wf(),
            match field_key(old(self).state(), *key) {
                Some(s) => r && final(self).state() == s,
                None => !r && final(self).state() == old(self).state(),
            },
    {
        let ctrl = key.holds(CONTROL);
        let alt = key.holds(ALT);
        match key.code {
            KeyCode::Char(c) => if !ctrl && !alt {
                self.insert(c)
            } else if c == 'a' && ctrl {
                self.home()
            } else if c == 'e' && ctrl {
                self.end()
            } else if c == 'u' && ctrl {
                self.clear()
            } else if c == 'k' && ctrl {
                self.kill_to_end()
            } else if c == 'w' && ctrl {
                self.delete_word()
            } else {
                return false;
            },
            KeyCode::Backspace => if alt {
                self.delete_word()
            } else {
                self.backspace()
            },
            KeyCode::Delete => self.delete(),
            KeyCode::Left => self.left(),
            KeyCode::Right => self.right(),
            KeyCode::Home => self.home(),
            KeyCode::End => self.end(),
            _ => {
                return false;
            },
        }
        true
    }
}

/// Typing a character and then backspacing it leaves the field as it was.
pub proof fn law_backspace_undoes_typing(s: FieldState, c: char)
    requires
        0 <= s.1 <= s.0.len(),
    ensures
        backspaced(typed(s, c)) == s,
{
    assert(s.0.insert(s.1, c).remove(s.1) =~= s.0);
}

/// Every editing key keeps the cursor within the text.
pub proof fn law_editing_keeps_cursor_in_text(s: FieldState, key: KeyEvent)
    requires
        0 <= s.1 <= s.0.len(),
    ensures
        match field_key(s, key) {
            Some(n) => 0 <= n.1 <= n.0.len(),
            None => true,
        },
{
    lemma_word_start_bounds(s.0, s.1);
}

proof fn lemma_word_start_bounds(v: Seq<char>, i: int)
    requires
        0 <= i <= v.len(),
    ensures
        0 <= word_start(v, i) <= i,
        0 <= word_body_start(v, i) <= i,
    decreases i,
{
    if i > 0 {
        lemma_word_start_bounds(v, i - 1);
    }
}

} // verus!
