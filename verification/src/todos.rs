//! Open todo items in Bear notes: the model, the parser, and the keys.
//!
//! The key a reminder carries (`bear-todo: <key>`) is the first twelve hex
//! digits of the SHA-1 of the note id and the todo's normalized text, so the
//! same todo always links to the same reminder.

use vstd::prelude::*;

use crate::digest::{
    hex_lower, is_hex_lower, lemma_hex_lower_chars, lemma_hex_lower_len, sha1, sha1_digest,
    to_hex_lower,
};
use crate::text::{
    chars_of, concat_chars, end_without_ws, is_whitespace, is_ws, leading_ws, lemma_encode_utf8_concat,
    lines, lines_of, lowercase, replace_first, replace_first_chars, slice_chars, squash,
    squash_chars, string_of, string_views, to_lower, trim, trim_chars, trim_end, trim_start,
    utf8_width, views, copy_strings,
};

verus! {

/// One open `- [ ]` line in a Bear note.
#[derive(Debug, Clone, PartialEq, Eq)]
pub struct Todo {
    pub note_id: String,
    pub note_title: String,
    pub note_tags: Vec<String>,
    pub text: String,
    /// The full line as written, indentation included: what `edit --find` needs.
    pub line: String,
    /// The nearest heading line above the todo, `#` markers and all, or "" when
    /// the todo sits above every heading. Doubles as a bearcli section address.
    pub section: String,
}

/// A todo's text lower-cased with its white space collapsed.
pub open spec fn normalize(text: Seq<char>) -> Seq<char> {
    lowercase(squash(text))
}

/// The twelve-hex-digit key shared by a todo and the reminder made from it.
pub open spec fn todo_key(note_id: Seq<char>, text: Seq<char>) -> Seq<char> {
    hex_lower(sha1(vstd::utf8::encode_utf8(note_id + seq!['\n'] + normalize(text)))).take(12)
}

/// `s` without its leading `#` markers.
pub open spec fn drop_hashes(s: Seq<char>) -> Seq<char>
    decreases s.len(),
{
    if s.len() > 0 && s[0] == '#' {
        drop_hashes(s.drop_first())
    } else {
        s
    }
}

/// The UTF-8 length of the white space that starts `line`, as `usize`
/// arithmetic that stops at `usize::MAX` reports it.
pub open spec fn indent_bytes(line: Seq<char>) -> int {
    let n = vstd::utf8::encode_utf8(line).len() - vstd::utf8::encode_utf8(trim_start(line)).len();
    if n <= usize::MAX {
        n
    } else {
        usize::MAX as int
    }
}

impl Todo {
    pub fn new(
        note_id: &str,
        note_title: &str,
        note_tags: &[&str],
        text: &str,
        line: &str,
        section: &str,
    ) -> (t: Todo)
        ensures
            t.note_id@ == note_id@,
            t.note_title@ == note_title@,
            t.note_tags@.len() == note_tags@.len(),
            forall|i: int| 0 <= i < note_tags@.len() ==> #[trigger] t.note_tags@[i]@ == note_tags@[i]@,
            t.text@ == text@,
            t.line@ == line@,
            t.section@ == section@,
    {
        let mut tags: Vec<String> = Vec::new();
        let mut i: usize = 0;
        while i < note_tags.len()
            invariant
                i <= note_tags@.len(),
                tags@.len() == i,
                forall|j: int| 0 <= j < i ==> #[trigger] tags@[j]@ == note_tags@[j]@,
            decreases note_tags.len() - i,
        {
            tags.push(note_tags[i].to_owned());
            i += 1;
        }
        Todo {
            note_id: note_id.to_owned(),
            note_title: note_title.to_owned(),
            note_tags: tags,
            text: text.to_owned(),
            line: line.to_owned(),
            section: section.to_owned(),
        }
    }

    /// A copy of this todo.
    pub fn copy(&self) -> (t: Todo)
        ensures
            t.note_tags@ == self.note_tags@,
            t == (Todo { note_tags: t.note_tags, ..*self }),
    {
        Todo {
            note_id: self.note_id.clone(),
            note_title: self.note_title.clone(),
            note_tags: copy_strings(self.note_tags.as_slice()),
            text: self.text.clone(),
            line: self.line.clone(),
            section: self.section.clone(),
        }
    }

    /// The text with runs of white space collapsed, lower-cased.
    pub fn normalized(&self) -> (r: String)
        ensures
            r@ == normalize(self.text@),
    {
        let v = chars_of(self.text.as_str());
        let sq = squash_chars(v.as_slice());
        let s = string_of(sq.as_slice());
        to_lower(s.as_str())
    }

    /// Stable id shared with the reminder created from this todo. Rewording
    /// the item in Bear yields a new key (and orphans the old reminder).
    pub fn key(&self) -> (r: String)
        ensures
            r@ == todo_key(self.note_id@, self.text@),
            r@.len() == 12,
            forall|i: int| 0 <= i < 12 ==> is_hex_lower(#[trigger] r@[i]),
    {
        let norm = self.normalized();
        let mut src = chars_of(self.note_id.as_str());
        src.push('\n');
        let n = chars_of(norm.as_str());
        let joined = concat_chars(src.as_slice(), n.as_slice());
        let s = string_of(joined.as_slice());
        let digest = sha1_digest(s.as_str().as_bytes());
        let hex = to_hex_lower(digest.as_slice());
        proof {
            lemma_hex_lower_len(digest@);
            lemma_hex_lower_chars(digest@);
            assert(joined@ =~= self.note_id@ + seq!['\n'] + normalize(self.text@));
        }
        let short = slice_chars(hex.as_slice(), 0, 12);
        string_of(short.as_slice())
    }

    /// The line with its box ticked (`[ ]` becomes `[x]`).
    pub fn done_line(&self) -> (r: String)
        ensures
            r@ == replace_first(self.line@, seq!['[', ' ', ']'], seq!['[', 'x', ']']),
    {
        let v = chars_of(self.line.as_str());
        let open = ['[', ' ', ']'];
        let done = ['[', 'x', ']'];
        proof {
            assert(open@ =~= seq!['[', ' ', ']']);
            assert(done@ =~= seq!['[', 'x', ']']);
        }
        let r = replace_first_chars(v.as_slice(), open.as_slice(), done.as_slice());
        string_of(r.as_slice())
    }

    /// The section heading without its `#` markers, for `app open --header`.
    pub fn header(&self) -> (r: String)
        ensures
            r@ == trim(drop_hashes(self.section@)),
    {
        let v = chars_of(self.section.as_str());
        let mut k: usize = 0;
        assert(v@.skip(0) =~= v@);
        while k < v.len() && v[k] == '#'
            invariant
                k <= v@.len(),
                drop_hashes(v@) == drop_hashes(v@.skip(k as int)),
            decreases v.len() - k,
        {
            assert(v@.skip(k as int).drop_first() =~= v@.skip(k + 1));
            k += 1;
        }
        let rest = slice_chars(v.as_slice(), k, v.len());
        assert(rest@ == v@.skip(k as int));
        let t = trim_chars(rest.as_slice());
        string_of(t.as_slice())
    }

    /// Leading white space of the line in bytes, for indenting the row.
    pub fn indent(&self) -> (n: usize)
        ensures
            n == indent_bytes(self.line@),
    {
        let v = chars_of(self.line.as_str());
        let k = leading_ws(v.as_slice());
        let mut n: usize = 0;
        let mut i: usize = 0;
        while i < k
            invariant
                k <= v@.len(),
                i <= k,
                n == (if vstd::utf8::encode_utf8(v@.take(i as int)).len() <= usize::MAX {
                    vstd::utf8::encode_utf8(v@.take(i as int)).len() as int
                } else {
                    usize::MAX as int
                }),
            decreases k - i,
        {
            let w = utf8_width(v[i]);
            proof {
                assert(v@.take(i + 1) =~= v@.take(i as int) + seq![v@[i as int]]);
                lemma_encode_utf8_concat(v@.take(i as int), seq![v@[i as int]]);
            }
            n = n.saturating_add(w);
            i += 1;
        }
        proof {
            assert(v@ =~= v@.take(k as int) + v@.skip(k as int));
            lemma_encode_utf8_concat(v@.take(k as int), v@.skip(k as int));
        }
        n
    }
}

/// A bullet of a Markdown list item.
pub open spec fn is_bullet(c: char) -> bool {
    c == '-' || c == '*' || c == '+'
}

/// The text of an open todo line (`- [ ] text`, any indent, bullet `-*+`),
/// trimmed; None when `line` is no open todo.
pub open spec fn todo_text(line: Seq<char>) -> Option<Seq<char>> {
    let rest = trim_start(line);
    if rest.len() >= 5 && is_bullet(rest[0]) && rest[1] == ' ' && rest[2] == '[' && rest[3] == ' '
        && rest[4] == ']' {
        let tail = rest.skip(5);
        if tail.len() > 0 && is_ws(tail[0]) && trim_start(tail).len() > 0 {
            Some(trim(tail))
        } else {
            None
        }
    } else {
        None
    }
}

/// A Markdown heading: one to six `#`, a space, then a non-space.
pub open spec fn is_heading_line(l: Seq<char>) -> bool {
    exists|n: int|
        1 <= n <= 6 && n + 1 < l.len() && (forall|j: int| 0 <= j < n ==> l[j] == '#') && l[n]
            == ' ' && !is_ws(#[trigger] l[n + 1])
}

/// A code fence: optional white space, then ```` ``` ```` or `~~~`.
pub open spec fn is_fence_line(l: Seq<char>) -> bool {
    let r = trim_start(l);
    r.len() >= 3 && ((r[0] == '`' && r[1] == '`' && r[2] == '`') || (r[0] == '~' && r[1] == '~'
        && r[2] == '~'))
}

/// What reading `ls` line by line yields: the todos as (text, line, section),
/// the current section, and whether a fence is open.
pub open spec fn scan_lines(ls: Seq<Seq<char>>) -> (Seq<(Seq<char>, Seq<char>, Seq<char>)>, Seq<char>, bool)
    decreases ls.len(),
{
    if ls.len() == 0 {
        (Seq::empty(), Seq::empty(), false)
    } else {
        let prev = scan_lines(ls.drop_last());
        let raw = ls.last();
        if is_fence_line(raw) {
            (prev.0, prev.1, !prev.2)
        } else if prev.2 {
            prev
        } else if is_heading_line(raw) {
            (prev.0, trim(raw), prev.2)
        } else {
            match todo_text(raw) {
                Some(t) => (prev.0.push((t, trim_end(raw), prev.1)), prev.1, prev.2),
                None => prev,
            }
        }
    }
}

/// The open todos of a note body, in document order.
pub open spec fn note_todos(content: Seq<char>) -> Seq<(Seq<char>, Seq<char>, Seq<char>)> {
    scan_lines(lines(content)).0
}

fn fence_chars(v: &[char]) -> (r: bool)
    ensures
        r == is_fence_line(v@),
{
    let k = leading_ws(v);
    if v.len() - k < 3 {
        return false;
    }
    let a = v[k];
    let b = v[k + 1];
    let c = v[k + 2];
    (a == '`' && b == '`' && c == '`') || (a == '~' && b == '~' && c == '~')
}

/// Whether `line` opens or closes a fenced code block.
pub fn is_fence(line: &str) -> (r: bool)
    ensures
        r == is_fence_line(line@),
{
    let v = chars_of(line);
    fence_chars(v.as_slice())
}

fn heading_chars(l: &[char]) -> (r: bool)
    ensures
        r == is_heading_line(l@),
{
    let mut n: usize = 0;
    while n < l.len() && n < 7 && l[n] == '#'
        invariant
            n <= l@.len(),
            n <= 7,
            forall|j: int| 0 <= j < n ==> l@[j] == '#',
        decreases l.len() - n,
    {
        n += 1;
    }
    let ok = 1 <= n && n <= 6 && n + 1 < l.len() && l[n] == ' ' && !is_whitespace(l[n + 1]);
    proof {
        if ok {
            assert(!is_ws(l@[n + 1]));
        } else {
            assert forall|m: int|
                1 <= m <= 6 && m + 1 < l@.len() && (forall|j: int| 0 <= j < m ==> l@[j] == '#')
                    && l@[m] == ' ' implies is_ws(#[trigger] l@[m + 1]) by {
                if m < n {
                    assert(l@[m] == '#');
                } else if m > n {
                    assert(l@[n as int] == '#');
                }
            }
        }
    }
    ok
}

fn todo_chars(l: &[char]) -> (r: Option<Vec<char>>)
    ensures
        match r {
            Some(t) => todo_text(l@) == Some(t@),
            None => todo_text(l@) is None,
        },
{
    let k = leading_ws(l);
    let rest = slice_chars(l, k, l.len());
    assert(rest@ == trim_start(l@));
    if rest.len() >= 5 && (rest[0] == '-' || rest[0] == '*' || rest[0] == '+') && rest[1] == ' '
        && rest[2] == '[' && rest[3] == ' ' && rest[4] == ']' {
        let tail = slice_chars(rest.as_slice(), 5, rest.len());
        assert(tail@ == rest@.skip(5));
        if tail.len() > 0 && is_whitespace(tail[0]) {
            let j = leading_ws(tail.as_slice());
            if j < tail.len() {
                return Some(trim_chars(tail.as_slice()));
            }
        }
    }
    None
}

/// Extract open todos from a note body, in document order.
///
/// Fenced code blocks are skipped. Nested todos count like top-level ones; a
/// checked parent does not hide its open children.
pub fn parse_todos(content: &str, note_id: &str, note_title: &str, note_tags: &[String]) -> (r: Vec<Todo>)
    ensures
        r@.len() == note_todos(content@).len(),
        forall|i: int|
            0 <= i < r@.len() ==> {
                &&& (#[trigger] r@[i]).text@ == note_todos(content@)[i].0
                &&& r@[i].line@ == note_todos(content@)[i].1
                &&& r@[i].section@ == note_todos(content@)[i].2
                &&& r@[i].note_id@ == note_id@
                &&& r@[i].note_title@ == note_title@
                &&& r@[i].note_tags@ == note_tags@
            },
{
    let chars = chars_of(content);
    let ls = lines_of(chars.as_slice());
    let mut todos: Vec<Todo> = Vec::new();
    let mut section: Vec<char> = Vec::new();
    let mut in_fence = false;
    let mut i: usize = 0;
    while i < ls.len()
        invariant
            i <= ls@.len(),
            views(ls@) == lines(content@),
            ({
                let st = scan_lines(views(ls@).take(i as int));
                &&& todos@.len() == st.0.len()
                &&& section@ == st.1
                &&& in_fence == st.2
                &&& forall|j: int|
                    0 <= j < todos@.len() ==> {
                        &&& (#[trigger] todos@[j]).text@ == st.0[j].0
                        &&& todos@[j].line@ == st.0[j].1
                        &&& todos@[j].section@ == st.0[j].2
                        &&& todos@[j].note_id@ == note_id@
                        &&& todos@[j].note_title@ == note_title@
                        &&& todos@[j].note_tags@ == note_tags@
                    }
            }),
        decreases ls.len() - i,
    {
        let raw = &ls[i];
        let ghost ls_v = views(ls@);
        proof {
            assert(ls_v.take(i + 1).drop_last() =~= ls_v.take(i as int));
            assert(ls_v.take(i + 1).last() == raw@);
        }
        i += 1;
        if fence_chars(raw.as_slice()) {
            in_fence = !in_fence;
            continue;
        }
        if in_fence {
            continue;
        }
        if heading_chars(raw.as_slice()) {
            section = trim_chars(raw.as_slice());
            continue;
        }
        match todo_chars(raw.as_slice()) {
            None => {},
            Some(text) => {
                let e = end_without_ws(raw.as_slice());
                let line = slice_chars(raw.as_slice(), 0, e);
                let ghost old_todos = todos@;
                todos.push(
                    Todo {
                        note_id: note_id.to_owned(),
                        note_title: note_title.to_owned(),
                        note_tags: copy_strings(note_tags),
                        text: string_of(text.as_slice()),
                        line: string_of(line.as_slice()),
                        section: string_of(section.as_slice()),
                    },
                );
                proof {
                    let st = scan_lines(views(ls@).take(i as int));
                    assert forall|j: int| 0 <= j < todos@.len() implies (#[trigger] todos@[j]).text@
                        == st.0[j].0 by {
                        if j < old_todos.len() {
                            assert(todos@[j] == old_todos[j]);
                        }
                    }
                }
            },
        }
    }
    proof {
        assert(views(ls@).take(ls@.len() as int) =~= views(ls@));
    }
    todos
}

/// What a triage read of Bear produced.
#[derive(Debug, Clone, Default, PartialEq, Eq)]
pub struct TodoScan {
    pub todos: Vec<Todo>,
    /// Notes whose content bearcli could not read (locked or encrypted).
    pub locked: usize,
}

} // verus!
