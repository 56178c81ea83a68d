//! Linking Bear todos to the reminders made from them.
//!
//! The link lives entirely on the Reminders side: a reminder created from a
//! todo carries, in its notes, the note's `bear://` link and a
//! `bear-todo: <key>` line. Nothing is written into Bear on add. Later triage
//! runs read the reminders back and join them to the current todos on that key.

use vstd::prelude::*;

use crate::digest::{is_hex_lower, lemma_hex_lower_chars, lemma_hex_lower_len};
use crate::models::{same_chars, Reminder};
use crate::text::{chars_of, is_whitespace, is_ws, matches_at, occurs_at, push_all, push_str, slice_chars, string_of};
use crate::todos::{todo_key, Todo};

verus! {

/// The notes line prefix of the link key.
pub const KEY_PREFIX: &'static str = "bear-todo:";

/// The `bear://` link that opens a note.
pub open spec fn note_link(note_id: Seq<char>) -> Seq<char> {
    "bear://x-callback-url/open-note?id="@ + note_id
}

pub fn note_url(note_id: &str) -> (r: String)
    ensures
        r@ == note_link(note_id@),
{
    let mut v: Vec<char> = Vec::new();
    push_str(&mut v, "bear://x-callback-url/open-note?id=");
    push_str(&mut v, note_id);
    string_of(v.as_slice())
}

/// The notes block written into a reminder created from a todo: a line for a
/// human, a clickable link, and the machine key `link_key` reads back.
pub open spec fn link_block(note_id: Seq<char>, note_title: Seq<char>, key: Seq<char>) -> Seq<char> {
    let first = if note_title.len() == 0 {
        "From Bear"@
    } else {
        "From Bear: "@ + note_title
    };
    first + seq!['\n'] + note_link(note_id) + seq!['\n'] + "bear-todo:"@ + seq![' '] + key
}

/// The notes block written into a reminder created from `todo`: a line for a
/// human, a clickable link, and the machine key `link_key` reads back.
pub fn link_notes(todo: &Todo) -> (r: String)
    ensures
        r@ == link_block(todo.note_id@, todo.note_title@, todo_key(todo.note_id@, todo.text@)),
{
    let mut v: Vec<char> = Vec::new();
    if todo.note_title.as_str().is_empty() {
        push_str(&mut v, "From Bear");
    } else {
        push_str(&mut v, "From Bear: ");
        push_str(&mut v, todo.note_title.as_str());
    }
    v.push('\n');
    let url = note_url(todo.note_id.as_str());
    push_str(&mut v, url.as_str());
    v.push('\n');
    push_str(&mut v, KEY_PREFIX);
    v.push(' ');
    let key = todo.key();
    push_str(&mut v, key.as_str());
    string_of(v.as_slice())
}

/// Index of the first character at or after `i` that is not white space.
pub open spec fn ws_end(s: Seq<char>, i: int) -> int
    decreases s.len() - i,
{
    if i < s.len() && is_ws(s[i]) {
        ws_end(s, i + 1)
    } else {
        i
    }
}

/// Index of the first character at or after `i` that is not a hex digit.
pub open spec fn hex_end(s: Seq<char>, i: int) -> int
    decreases s.len() - i,
{
    if 0 <= i < s.len() && is_hex_lower(s[i]) {
        hex_end(s, i + 1)
    } else {
        i
    }
}

/// A line begins at `i`.
pub open spec fn line_start(s: Seq<char>, i: int) -> bool {
    i == 0 || (0 < i <= s.len() && s[i - 1] == '\n')
}

/// White space from `b` may end the line: it reaches the end of the text or
/// crosses a newline.
pub open spec fn tail_ends_line(s: Seq<char>, b: int) -> bool {
    ws_end(s, b) == s.len() || exists|q: int| b <= q < ws_end(s, b) && s[q] == '\n'
}

/// The key of a `bear-todo:` line starting at `i`: at a line start, the
/// prefix, optional white space, 6 to 40 hex digits, then only white space to
/// the end of the line.
pub open spec fn key_at(s: Seq<char>, i: int) -> Option<Seq<char>> {
    if line_start(s, i) && occurs_at(s, "bear-todo:"@, i) {
        let a = ws_end(s, i + 10);
        let b = hex_end(s, a);
        if 6 <= b - a <= 40 && tail_ends_line(s, b) {
            Some(s.subrange(a, b))
        } else {
            None
        }
    } else {
        None
    }
}

/// The first key found at or after `i`, or "".
pub open spec fn key_from(s: Seq<char>, i: int) -> Seq<char>
    decreases s.len() + 1 - i,
{
    if i < 0 || i > s.len() {
        Seq::empty()
    } else {
        match key_at(s, i) {
            Some(k) => k,
            None => key_from(s, i + 1),
        }
    }
}

/// The `bear-todo:` key in a reminder's notes, or "" when there is none.
pub open spec fn notes_key(notes: Seq<char>) -> Seq<char> {
    key_from(notes, 0)
}

fn ws_end_exec(s: &[char], i: usize) -> (r: usize)
    requires
        i <= s@.len(),
    ensures
        r == ws_end(s@, i as int),
        i <= r <= s@.len(),
{
    let mut j = i;
    while j < s.len() && is_whitespace(s[j])
        invariant
            i <= j <= s@.len(),
            ws_end(s@, i as int) == ws_end(s@, j as int),
        decreases s.len() - j,
    {
        j += 1;
    }
    j
}

fn hex_end_exec(s: &[char], i: usize) -> (r: usize)
    requires
        i <= s@.len(),
    ensures
        r == hex_end(s@, i as int),
        i <= r <= s@.len(),
{
    let mut j = i;
    while j < s.len() && ((s[j] >= '0' && s[j] <= '9') || (s[j] >= 'a' && s[j] <= 'f'))
        invariant
            i <= j <= s@.len(),
            hex_end(s@, i as int) == hex_end(s@, j as int),
        decreases s.len() - j,
    {
        j += 1;
    }
    j
}

fn key_at_exec(s: &[char], prefix: &[char], i: usize) -> (r: Option<Vec<char>>)
    requires
        i <= s@.len(),
        prefix@ == "bear-todo:"@,
    ensures
        match r {
            Some(k) => key_at(s@, i as int) == Some(k@),
            None => key_at(s@, i as int) is None,
        },
{
    proof {
        reveal_strlit("bear-todo:");
    }
    if !(i == 0 || s[i - 1] == '\n') {
        return None;
    }
    if !matches_at(s, prefix, i) {
        return None;
    }
    let a = ws_end_exec(s, i + 10);
    let b = hex_end_exec(s, a);
    if b - a < 6 || b - a > 40 {
        return None;
    }
    let c = ws_end_exec(s, b);
    let mut ok = c == s.len();
    let mut q = b;
    while q < c && !ok
        invariant
            b <= q <= c,
            c == ws_end(s@, b as int),
            c <= s@.len(),
            ok ==> tail_ends_line(s@, b as int),
            !ok ==> c < s@.len() && forall|x: int| b <= x < q ==> s@[x] != '\n',
        decreases c - q,
    {
        if s[q] == '\n' {
            ok = true;
        }
        q += 1;
    }
    if !ok {
        return None;
    }
    Some(slice_chars(s, a, b))
}

proof fn lemma_key_from_skip(s: Seq<char>, i: int, j: int)
    requires
        0 <= i <= j <= s.len() + 1,
        forall|k: int| i <= k < j ==> key_at(s, k) is None,
    ensures
        key_from(s, i) == key_from(s, j),
    decreases j - i,
{
    if i < j {
        lemma_key_from_skip(s, i + 1, j);
    }
}

/// The `bear-todo:` key in a reminder's notes, or "" when there is none.
pub fn link_key(notes: &str) -> (r: String)
    ensures
        r@ == notes_key(notes@),
{
    let s = chars_of(notes);
    let prefix = chars_of(KEY_PREFIX);
    let mut i: usize = 0;
    while i <= s.len()
        invariant
            i <= s@.len() + 1,
            s@ == notes@,
            prefix@ == "bear-todo:"@,
            key_from(s@, 0) == key_from(s@, i as int),
        decreases s.len() + 1 - i,
    {
        match key_at_exec(s.as_slice(), prefix.as_slice(), i) {
            Some(k) => {
                return string_of(k.as_slice());
            },
            None => {},
        }
        proof {
            lemma_key_from_skip(s@, i as int, i + 1);
        }
        if i == s.len() {
            proof {
                assert(key_from(s@, i + 1) == Seq::<char>::empty());
            }
            return String::new();
        }
        i += 1;
    }
    String::new()
}

/// The block `link_notes` writes reads back as its key: for a note id and
/// title without line breaks and a key of 6 to 40 lower-case hex digits (the
/// key a todo has is 12 of them), `link_key` finds exactly that key.
pub proof fn law_link_round_trip(note_id: Seq<char>, note_title: Seq<char>, key: Seq<char>)
    requires
        forall|i: int| 0 <= i < note_id.len() ==> note_id[i] != '\n',
        forall|i: int| 0 <= i < note_title.len() ==> note_title[i] != '\n',
        6 <= key.len() <= 40,
        forall|i: int| 0 <= i < key.len() ==> is_hex_lower(#[trigger] key[i]),
    ensures
        notes_key(link_block(note_id, note_title, key)) == key,
{
    reveal_strlit("From Bear");
    reveal_strlit("From Bear: ");
    reveal_strlit("bear://x-callback-url/open-note?id=");
    reveal_strlit("bear-todo:");
    let first = if note_title.len() == 0 {
        "From Bear"@
    } else {
        "From Bear: "@ + note_title
    };
    let url = note_link(note_id);
    let s = link_block(note_id, note_title, key);
    let p1: int = first.len() as int;
    let p2: int = p1 + 1 + url.len();
    let p3: int = p2 + 1;
    let n: int = key.len() as int;
    assert(s =~= first + seq!['\n'] + url + seq!['\n'] + "bear-todo:"@ + seq![' '] + key);
    assert(s.len() == p3 + 11 + n);
    assert forall|k: int| 0 <= k < p3 implies key_at(s, k) is None by {
        if line_start(s, k) && occurs_at(s, "bear-todo:"@, k) {
            if k == 0 {
                assert(s[0] == 'F');
                assert(s.subrange(k, k + 10)[0] == s[0]);
            } else if k == p1 + 1 {
                assert(s[k + 4] == ':');
                assert(s.subrange(k, k + 10)[4] == s[k + 4]);
            } else {
                assert(s[k - 1] == '\n');
                if k - 1 < p1 {
                    assert(s[k - 1] == first[k - 1]);
                    if note_title.len() > 0 && k - 1 >= 11 {
                        assert(first[k - 1] == note_title[k - 1 - 11]);
                    }
                } else if p1 < k - 1 && k - 1 < p2 {
                    assert(s[k - 1] == url[k - 1 - p1 - 1]);
                    if k - 1 - p1 - 1 >= 35 {
                        assert(url[k - 1 - p1 - 1] == note_id[k - 1 - p1 - 1 - 35]);
                    }
                }
            }
        }
    }
    lemma_key_from_skip(s, 0, p3);
    assert(line_start(s, p3));
    assert(s.subrange(p3, p3 + 10) =~= "bear-todo:"@);
    assert(s[p3 + 10] == ' ');
    assert(ws_end(s, p3 + 11) == p3 + 11) by {
        assert(is_hex_lower(key[0]));
        assert(s[p3 + 11] == key[0]);
    }
    assert(ws_end(s, p3 + 10) == p3 + 11);
    lemma_hex_end_tail(s, p3 + 11, 0, key);
    assert(hex_end(s, p3 + 11) == p3 + 11 + n);
    assert(tail_ends_line(s, p3 + 11 + n));
    assert(s.subrange(p3 + 11, p3 + 11 + n) =~= key);
}

proof fn lemma_hex_end_tail(s: Seq<char>, base: int, k: int, key: Seq<char>)
    requires
        0 <= k <= key.len(),
        base + key.len() == s.len(),
        0 <= base,
        forall|j: int| 0 <= j < key.len() ==> s[base + j] == key[j],
        forall|j: int| 0 <= j < key.len() ==> is_hex_lower(#[trigger] key[j]),
    ensures
        hex_end(s, base + k) == base + key.len(),
    decreases key.len() - k,
{
    if k < key.len() {
        assert(is_hex_lower(key[k]));
        lemma_hex_end_tail(s, base, k + 1, key);
    }
}

/// What became of a todo in Reminders.
#[derive(Debug, Clone, Copy, PartialEq, Eq, Structural, Default)]
pub enum Status {
    #[default]
    New,
    Added,
    Done,
}

/// One todo on the triage screen, with what became of it in Reminders.
#[derive(Debug, Clone, PartialEq, Eq)]
pub struct TriageRow {
    pub todo: Todo,
    pub reminder: Option<Reminder>,
}

/// A row's status: new without a reminder, done when its reminder is
/// completed, added otherwise.
pub open spec fn row_status(r: TriageRow) -> Status {
    match r.reminder {
        None => Status::New,
        Some(m) => if m.completed {
            Status::Done
        } else {
            Status::Added
        },
    }
}

impl TriageRow {
    pub fn status(&self) -> (s: Status)
        ensures
            s == row_status(*self),
    {
        match &self.reminder {
            None => Status::New,
            Some(r) => if r.completed {
                Status::Done
            } else {
                Status::Added
            },
        }
    }
}

/// The reminder a key joins to: the first active reminder carrying it, else
/// the first completed one, else none.
pub open spec fn pick(rs: Seq<Reminder>, key: Seq<char>) -> Option<Reminder>
    decreases rs.len(),
{
    if rs.len() == 0 {
        None
    } else {
        let prev = pick(rs.drop_last(), key);
        let r = rs.last();
        if notes_key(r.notes@) != key || key.len() == 0 {
            prev
        } else {
            match prev {
                None => Some(r),
                Some(c) => if c.completed && !r.completed {
                    Some(r)
                } else {
                    prev
                },
            }
        }
    }
}

/// `a` and `b` hold the same reminder.
pub open spec fn same_reminder(a: Reminder, b: Reminder) -> bool {
    a.tags@ == b.tags@ && a == (Reminder { tags: a.tags, ..b })
}

/// `a` and `b` hold the same todo.
pub open spec fn same_todo(a: Todo, b: Todo) -> bool {
    a.note_tags@ == b.note_tags@ && a == (Todo { note_tags: a.note_tags, ..b })
}

/// Pair each todo with the reminder carrying its key, keeping todo order.
///
/// When several reminders share a key (the same todo added twice, say), an
/// active one wins over a completed one so the row does not read as finished
/// while work is still open.
pub fn join(todos: &[Todo], reminders: &[Reminder]) -> (r: Vec<TriageRow>)
    ensures
        r@.len() == todos@.len(),
        forall|i: int|
            0 <= i < r@.len() ==> {
                &&& same_todo((#[trigger] r@[i]).todo, todos@[i])
                &&& match pick(reminders@, todo_key(todos@[i].note_id@, todos@[i].text@)) {
                    None => r@[i].reminder is None,
                    Some(m) => r@[i].reminder matches Some(x) && same_reminder(x, m),
                }
            },
{
    let mut keys: Vec<Vec<char>> = Vec::new();
    let mut k: usize = 0;
    while k < reminders.len()
        invariant
            k <= reminders@.len(),
            keys@.len() == k,
            forall|j: int| 0 <= j < k ==> (#[trigger] keys@[j])@ == notes_key(reminders@[j].notes@),
        decreases reminders.len() - k,
    {
        let key = link_key(reminders[k].notes.as_str());
        keys.push(chars_of(key.as_str()));
        k += 1;
    }
    let mut out: Vec<TriageRow> = Vec::new();
    let mut i: usize = 0;
    while i < todos.len()
        invariant
            i <= todos@.len(),
            keys@.len() == reminders@.len(),
            forall|j: int| 0 <= j < keys@.len() ==> (#[trigger] keys@[j])@ == notes_key(reminders@[j].notes@),
            out@.len() == i,
            forall|j: int|
                0 <= j < i ==> {
                    &&& same_todo((#[trigger] out@[j]).todo, todos@[j])
                    &&& match pick(reminders@, todo_key(todos@[j].note_id@, todos@[j].text@)) {
                        None => out@[j].reminder is None,
                        Some(m) => out@[j].reminder matches Some(x) && same_reminder(x, m),
                    }
                },
        decreases todos.len() - i,
    {
        let todo = &todos[i];
        let tk = todo.key();
        let t = chars_of(tk.as_str());
        let mut best: Option<usize> = None;
        let mut m: usize = 0;
        while m < reminders.len()
            invariant
                m <= reminders@.len(),
                keys@.len() == reminders@.len(),
                forall|j: int| 0 <= j < keys@.len() ==> (#[trigger] keys@[j])@ == notes_key(reminders@[j].notes@),
                t@.len() == 12,
                match best {
                    None => pick(reminders@.take(m as int), t@) is None,
                    Some(b) => b < m && pick(reminders@.take(m as int), t@) == Some(reminders@[b as int]),
                },
            decreases reminders.len() - m,
        {
            proof {
                assert(reminders@.take(m + 1).drop_last() =~= reminders@.take(m as int));
                assert(reminders@.take(m + 1).last() == reminders@[m as int]);
            }
            if same_chars(keys[m].as_slice(), t.as_slice()) {
                match best {
                    None => {
                        best = Some(m);
                    },
                    Some(b) => {
                        if reminders[b].completed && !reminders[m].completed {
                            best = Some(m);
                        }
                    },
                }
            }
            m += 1;
        }
        proof {
            assert(reminders@.take(reminders@.len() as int) =~= reminders@);
        }
        let reminder = match best {
            None => None,
            Some(b) => Some(reminders[b].copy()),
        };
        let row = TriageRow { todo: todo.copy(), reminder };
        let ghost prev = out@;
        out.push(row);
        proof {
            assert forall|j: int| 0 <= j < i + 1 implies {
                &&& same_todo((#[trigger] out@[j]).todo, todos@[j])
                &&& match pick(reminders@, todo_key(todos@[j].note_id@, todos@[j].text@)) {
                    None => out@[j].reminder is None,
                    Some(m) => out@[j].reminder matches Some(x) && same_reminder(x, m),
                }
            } by {
                if j < i {
                    assert(out@[j] == prev[j]);
                }
            }
        }
        i += 1;
    }
    out
}

} // verus!
