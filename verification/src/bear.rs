//! The bearcli contract: queries, note rows, and the arguments of writes.
//!
//! bearcli reads and writes Bear's local database directly. Reads use
//! `--format json`, where every command (errors included) emits one JSON
//! document on stdout; writes print nothing on success and plain text on
//! stderr when they fail. Both shapes become `BearError`.

use vstd::prelude::*;

use crate::json::{deref_opt, json_get, Json};
use crate::models::{json_display, json_text, same_chars, same_str};
use crate::text::{
    chars_of, lowercase, push_all, push_str, slice_chars, string_of, string_views, to_lower, trim,
    trim_chars,
};
use crate::todos::{note_todos, parse_todos, Todo, TodoScan};

verus! {

/// The fields a todo search asks bearcli for.
pub const FIELDS: &'static str = "id,title,tags,locked,content";

/// A failed bearcli call: what it said, its error code (may be empty), and
/// the exit status.
#[derive(Debug, Clone, PartialEq, Eq)]
pub struct BearError {
    pub message: String,
    pub code: String,
    pub exit_code: i32,
}

impl BearError {
    pub fn new(message: &str) -> (e: BearError)
        ensures
            e.message@ == message@,
            e.code@ == Seq::<char>::empty(),
            e.exit_code == 1,
    {
        BearError { message: message.to_owned(), code: String::new(), exit_code: 1 }
    }
}

/// The bearcli binary to run: `$REMTUI_BEARCLI` (given as `env_value`) when
/// set and not blank, else the configured path, else `bearcli` on PATH.
pub open spec fn bearcli_choice(env_value: Option<Seq<char>>, configured: Seq<char>) -> Seq<char> {
    match env_value {
        Some(v) if trim(v).len() > 0 => trim(v),
        _ => if trim(configured).len() > 0 {
            trim(configured)
        } else {
            "bearcli"@
        },
    }
}

/// The bearcli binary to run: the environment beats the config here.
pub fn resolve_bearcli(configured: &str, env_value: Option<&str>) -> (r: String)
    ensures
        r@ == bearcli_choice(
            match env_value {
                Some(v) => Some(v@),
                None => None,
            },
            configured@,
        ),
{
    if let Some(v) = env_value {
        let t = trim_chars(chars_of(v).as_slice());
        if t.len() > 0 {
            return string_of(t.as_slice());
        }
    }
    let c = trim_chars(chars_of(configured).as_slice());
    if c.len() > 0 {
        string_of(c.as_slice())
    } else {
        "bearcli".to_owned()
    }
}

/// How one character is written for a bearcli flag that interprets `\n`,
/// `\t`, `\r` and `\\`.
pub open spec fn escape_char(c: char) -> Seq<char> {
    if c == '\\' {
        seq!['\\', '\\']
    } else if c == '\n' {
        seq!['\\', 'n']
    } else if c == '\t' {
        seq!['\\', 't']
    } else if c == '\r' {
        seq!['\\', 'r']
    } else {
        seq![c]
    }
}

/// `s` encoded for such a flag.
pub open spec fn escaped(s: Seq<char>) -> Seq<char>
    decreases s.len(),
{
    if s.len() == 0 {
        Seq::empty()
    } else {
        escaped(s.drop_last()) + escape_char(s.last())
    }
}

/// Encode text for a bearcli flag that interprets `\n`, `\t`, `\r`, `\\`.
/// Literal backslashes in a note line (Bear writes `1\.` for a non-list "1.")
/// must be doubled or the CLI unescapes them and the find misses.
pub fn escape_flag(text: &str) -> (r: String)
    ensures
        r@ == escaped(text@),
{
    let v = chars_of(text);
    let mut out: Vec<char> = Vec::new();
    let mut i: usize = 0;
    while i < v.len()
        invariant
            i <= v@.len(),
            out@ == escaped(v@.take(i as int)),
        decreases v.len() - i,
    {
        let c = v[i];
        if c == '\\' {
            out.push('\\');
            out.push('\\');
        } else if c == '\n' {
            out.push('\\');
            out.push('n');
        } else if c == '\t' {
            out.push('\\');
            out.push('t');
        } else if c == '\r' {
            out.push('\\');
            out.push('r');
        } else {
            out.push(c);
        }
        i += 1;
        proof {
            assert(v@.take(i as int).drop_last() =~= v@.take(i - 1));
            assert(out@ =~= escaped(v@.take(i as int)));
        }
    }
    assert(v@.take(v@.len() as int) =~= v@);
    string_of(out.as_slice())
}

/// bearcli's JSON writes `locked` as the strings "yes"/"no", not booleans:
/// a string reads as locked when, trimmed and lower-cased, it is `yes`,
/// `true` or `1`; other values by their truthiness.
pub open spec fn locked_value(v: Option<Json>) -> bool {
    match v {
        Some(Json::Str(s)) => {
            let t = lowercase(trim(s@));
            t == "yes"@ || t == "true"@ || t == "1"@
        },
        Some(Json::Bool(b)) => b,
        Some(Json::Number(n)) => !n.zero,
        Some(Json::Array(a, _)) => a@.len() > 0,
        Some(Json::Object(o, _)) => o@.len() > 0,
        _ => false,
    }
}

/// Whether a note's `locked` member says the note is locked.
pub fn is_locked(value: Option<&Json>) -> (r: bool)
    ensures
        r == locked_value(deref_opt(value)),
{
    match value {
        Some(Json::Str(s)) => {
            let t = trim_chars(chars_of(s.as_str()).as_slice());
            let ts = string_of(t.as_slice());
            let low = to_lower(ts.as_str());
            same_str(low.as_str(), "yes") || same_str(low.as_str(), "true") || same_str(
                low.as_str(),
                "1",
            )
        },
        Some(Json::Bool(b)) => *b,
        Some(Json::Number(n)) => !n.zero,
        Some(Json::Array(a, _)) => a.len() > 0,
        Some(Json::Object(o, _)) => o.len() > 0,
        _ => false,
    }
}

/// A member as text: strings as they are, null or absent as "", anything
/// else as it prints.
pub open spec fn value_text_of(v: Option<Json>) -> Seq<char> {
    match v {
        Some(Json::Str(s)) => s@,
        Some(Json::Null) => Seq::empty(),
        None => Seq::empty(),
        Some(j) => json_display(j),
    }
}

/// A member as text (see `value_text_of`).
pub fn value_text(value: Option<&Json>) -> (r: String)
    ensures
        r@ == value_text_of(deref_opt(value)),
{
    match value {
        Some(Json::Str(s)) => s.clone(),
        Some(Json::Null) => String::new(),
        None => String::new(),
        Some(Json::Bool(b)) => if *b {
            "true".to_owned()
        } else {
            "false".to_owned()
        },
        Some(Json::Number(n)) => n.text.clone(),
        Some(Json::Array(_, t)) => t.clone(),
        Some(Json::Object(_, t)) => t.clone(),
    }
}

/// `s` without `#` and spaces at either end.
pub open spec fn strip_tag(s: Seq<char>) -> Seq<char>
    decreases s.len(),
{
    if s.len() > 0 && (s[0] == '#' || s[0] == ' ') {
        strip_tag(s.drop_first())
    } else if s.len() > 0 && (s.last() == '#' || s.last() == ' ') {
        strip_tag(s.drop_last())
    } else {
        s
    }
}

fn strip_tag_chars(v: &[char]) -> (r: Vec<char>)
    ensures
        r@ == strip_tag(v@),
{
    let mut lo: usize = 0;
    let mut hi: usize = v.len();
    assert(v@.subrange(0, v@.len() as int) =~= v@);
    while lo < hi && (v[lo] == '#' || v[lo] == ' ')
        invariant
            lo <= hi == v@.len(),
            strip_tag(v@) == strip_tag(v@.subrange(lo as int, hi as int)),
        decreases hi - lo,
    {
        assert(v@.subrange(lo as int, hi as int).drop_first() =~= v@.subrange(lo + 1, hi as int));
        lo += 1;
    }
    while lo < hi && (v[hi - 1] == '#' || v[hi - 1] == ' ')
        invariant
            lo <= hi <= v@.len(),
            lo < hi ==> !(v@[lo as int] == '#' || v@[lo as int] == ' '),
            strip_tag(v@) == strip_tag(v@.subrange(lo as int, hi as int)),
        decreases hi - lo,
    {
        assert(v@.subrange(lo as int, hi as int).drop_last() =~= v@.subrange(lo as int, hi - 1));
        hi -= 1;
    }
    slice_chars(v, lo, hi)
}

/// The searches for open todos: one `@todo #tag` per tag (Bear ANDs several
/// `#tag` terms in one query), or a single `@todo` when no tag is left.
pub open spec fn tag_queries(tags: Seq<Seq<char>>) -> Seq<Seq<char>>
    decreases tags.len(),
{
    if tags.len() == 0 {
        Seq::empty()
    } else {
        let prev = tag_queries(tags.drop_last());
        let t = strip_tag(tags.last());
        if t.len() > 0 {
            prev.push("@todo #"@ + t)
        } else {
            prev
        }
    }
}

pub open spec fn todo_queries_of(tags: Seq<Seq<char>>) -> Seq<Seq<char>> {
    if tag_queries(tags).len() == 0 {
        seq!["@todo"@]
    } else {
        tag_queries(tags)
    }
}

/// The bearcli searches that find the notes with open todos under `tags`.
pub fn todo_queries(tags: &[String]) -> (r: Vec<String>)
    ensures
        string_views(r@) == todo_queries_of(string_views(tags@)),
{
    let mut out: Vec<String> = Vec::new();
    let mut i: usize = 0;
    while i < tags.len()
        invariant
            i <= tags@.len(),
            string_views(out@) == tag_queries(string_views(tags@.take(i as int))),
        decreases tags.len() - i,
    {
        let t = strip_tag_chars(chars_of(tags[i].as_str()).as_slice());
        proof {
            assert(string_views(tags@.take(i + 1)).drop_last() =~= string_views(tags@.take(i as int)));
        }
        if t.len() > 0 {
            let mut q: Vec<char> = Vec::new();
            push_str(&mut q, "@todo #");
            push_all(&mut q, t.as_slice());
            let ghost prev = out@;
            out.push(string_of(q.as_slice()));
            assert(string_views(out@) =~= string_views(prev).push(q@));
        }
        i += 1;
    }
    assert(tags@.take(tags@.len() as int) =~= tags@);
    if out.len() == 0 {
        let mut one: Vec<String> = Vec::new();
        one.push("@todo".to_owned());
        assert(string_views(one@) =~= seq!["@todo"@]);
        return one;
    }
    out
}

/// The note rows of all search results, in order (a result that is no array
/// contributes none).
pub open spec fn result_rows(results: Seq<Option<Json>>) -> Seq<Json>
    decreases results.len(),
{
    if results.len() == 0 {
        Seq::empty()
    } else {
        result_rows(results.drop_last()) + match results.last() {
            Some(Json::Array(items, _)) => items@,
            _ => Seq::empty(),
        }
    }
}

/// The id a note row carries, as text.
pub open spec fn row_id(row: Json) -> Seq<char> {
    value_text_of(json_get(row, "id"@))
}

/// The first row for each note id, in order of first appearance.
pub open spec fn first_rows(rows: Seq<Json>) -> Seq<Json>
    decreases rows.len(),
{
    if rows.len() == 0 {
        Seq::empty()
    } else {
        let prev = first_rows(rows.drop_last());
        if exists|j: int| 0 <= j < prev.len() && row_id(prev[j]) == row_id(rows.last()) {
            prev
        } else {
            prev.push(rows.last())
        }
    }
}

/// A note whose body cannot be read: locked, or without content.
pub open spec fn row_locked(row: Json) -> bool {
    locked_value(json_get(row, "locked"@)) || match json_get(row, "content"@) {
        None => true,
        Some(Json::Null) => true,
        _ => false,
    }
}

/// The tags a note row lists, as text.
pub open spec fn row_tags(row: Json) -> Seq<Seq<char>> {
    match json_get(row, "tags"@) {
        Some(Json::Array(items, _)) => items@.map_values(|t: Json| value_text_of(Some(t))),
        _ => Seq::empty(),
    }
}

/// One todo as (note id, note title, note tags, text, line, section).
pub type TodoView = (Seq<char>, Seq<char>, Seq<Seq<char>>, Seq<char>, Seq<char>, Seq<char>);

/// The todos of a readable note row.
pub open spec fn row_todos(row: Json) -> Seq<TodoView> {
    note_todos(value_text_of(json_get(row, "content"@))).map_values(
        |t: (Seq<char>, Seq<char>, Seq<char>)|
            (row_id(row), value_text_of(json_get(row, "title"@)), row_tags(row), t.0, t.1, t.2),
    )
}

/// The todos of the readable notes, in order, and how many notes were locked.
pub open spec fn scan_rows(notes: Seq<Json>) -> (Seq<TodoView>, nat)
    decreases notes.len(),
{
    if notes.len() == 0 {
        (Seq::empty(), 0)
    } else {
        let prev = scan_rows(notes.drop_last());
        if row_locked(notes.last()) {
            (prev.0, prev.1 + 1)
        } else {
            (prev.0 + row_todos(notes.last()), prev.1)
        }
    }
}

/// A todo as a tuple of views.
pub open spec fn todo_view(t: Todo) -> TodoView {
    (t.note_id@, t.note_title@, string_views(t.note_tags@), t.text@, t.line@, t.section@)
}

fn tags_text(row: &Json) -> (r: Vec<String>)
    ensures
        string_views(r@) == row_tags(*row),
{
    let mut out: Vec<String> = Vec::new();
    match row.get("tags") {
        Some(Json::Array(items, _)) => {
            let mut i: usize = 0;
            while i < items.len()
                invariant
                    i <= items@.len(),
                    string_views(out@) == items@.take(i as int).map_values(
                        |t: Json| value_text_of(Some(t)),
                    ),
                decreases items.len() - i,
            {
                let t = value_text(Some(&items[i]));
                let ghost prev = out@;
                out.push(t);
                assert(string_views(out@) =~= string_views(prev).push(t@));
                assert(items@.take(i + 1) =~= items@.take(i as int).push(items@[i as int]));
                i += 1;
            }
            assert(items@.take(items@.len() as int) =~= items@);
        },
        _ => {},
    }
    out
}

/// Every open todo in the notes the searches found: notes merged by id in
/// order of first appearance, locked or unreadable ones counted, the rest
/// parsed. `results[i]` is what search `i` printed (None when nothing).
pub fn collect_todos(results: &[Option<Json>]) -> (scan: TodoScan)
    ensures
        scan.todos@.map_values(|t: Todo| todo_view(t)) == scan_rows(
            first_rows(result_rows(results@)),
        ).0,
        scan.locked == scan_rows(first_rows(result_rows(results@))).1,
{
    // Gather the rows, first occurrence of each id only.
    let mut notes: Vec<&Json> = Vec::new();
    let mut ids: Vec<Vec<char>> = Vec::new();
    let ghost mut seen_rows: Seq<Json> = Seq::empty();
    let mut q: usize = 0;
    while q < results.len()
        invariant
            q <= results@.len(),
            seen_rows == result_rows(results@.take(q as int)),
            notes@.map_values(|x: &Json| *x) == first_rows(seen_rows),
            ids@.len() == notes@.len(),
            forall|j: int| 0 <= j < ids@.len() ==> (#[trigger] ids@[j])@ == row_id(*notes@[j]),
        decreases results.len() - q,
    {
        proof {
            assert(results@.take(q + 1).drop_last() =~= results@.take(q as int));
        }
        match &results[q] {
            Some(Json::Array(items, _)) => {
                let mut k: usize = 0;
                let ghost base = seen_rows;
                while k < items.len()
                    invariant
                        k <= items@.len(),
                        seen_rows == base + items@.take(k as int),
                        notes@.map_values(|x: &Json| *x) == first_rows(seen_rows),
                        ids@.len() == notes@.len(),
                        forall|j: int|
                            0 <= j < ids@.len() ==> (#[trigger] ids@[j])@ == row_id(*notes@[j]),
                    decreases items.len() - k,
                {
                    let row = &items[k];
                    let id = value_text(row.get("id"));
                    let idc = chars_of(id.as_str());
                    let mut dup = false;
                    let mut j: usize = 0;
                    while j < ids.len()
                        invariant
                            j <= ids@.len(),
                            dup == exists|x: int| 0 <= x < j && ids@[x]@ == idc@,
                        decreases ids.len() - j,
                    {
                        if same_chars(ids[j].as_slice(), idc.as_slice()) {
                            dup = true;
                        }
                        j += 1;
                    }
                    let ghost prev_rows = seen_rows;
                    let ghost prev_notes = notes@.map_values(|x: &Json| *x);
                    proof {
                        seen_rows = seen_rows.push(*row);
                        assert(seen_rows =~= base + items@.take(k + 1));
                        assert(seen_rows.drop_last() =~= prev_rows);
                    }
                    if dup {
                        proof {
                            let x = choose|x: int| 0 <= x < ids@.len() && ids@[x]@ == idc@;
                            assert(row_id(prev_notes[x]) == row_id(*row));
                        }
                    } else {
                        notes.push(row);
                        ids.push(idc);
                        proof {
                            assert(!exists|x: int|
                                0 <= x < prev_notes.len() && row_id(prev_notes[x]) == row_id(*row))
                                by {
                                if exists|x: int|
                                    0 <= x < prev_notes.len() && row_id(prev_notes[x]) == row_id(
                                        *row,
                                    ) {
                                    let x = choose|x: int|
                                        0 <= x < prev_notes.len() && row_id(prev_notes[x])
                                            == row_id(*row);
                                    assert(ids@[x]@ == idc@);
                                }
                            }
                            assert(notes@.map_values(|x: &Json| *x) =~= prev_notes.push(*row));
                        }
                    }
                    k += 1;
                }
                proof {
                    assert(items@.take(items@.len() as int) =~= items@);
                }
            },
            _ => {
                proof {
                    assert(seen_rows + Seq::<Json>::empty() =~= seen_rows);
                }
            },
        }
        q += 1;
    }
    proof {
        assert(results@.take(results@.len() as int) =~= results@);
    }
    // Parse the readable notes.
    let ghost all = notes@.map_values(|x: &Json| *x);
    let mut todos: Vec<Todo> = Vec::new();
    let mut locked: usize = 0;
    let mut n: usize = 0;
    while n < notes.len()
        invariant
            n <= notes@.len(),
            all == notes@.map_values(|x: &Json| *x),
            todos@.map_values(|t: Todo| todo_view(t)) == scan_rows(all.take(n as int)).0,
            locked == scan_rows(all.take(n as int)).1,
            locked <= n,
        decreases notes.len() - n,
    {
        let row = notes[n];
        proof {
            assert(all.take(n + 1).drop_last() =~= all.take(n as int));
            assert(all.take(n + 1).last() == *row);
        }
        let content = row.get("content");
        let unreadable = match content {
            None => true,
            Some(Json::Null) => true,
            _ => false,
        };
        if is_locked(row.get("locked")) || unreadable {
            locked += 1;
        } else {
            let id = value_text(row.get("id"));
            let title = value_text(row.get("title"));
            let tags = tags_text(row);
            let body = value_text(content);
            let found = parse_todos(body.as_str(), id.as_str(), title.as_str(), tags.as_slice());
            let ghost prev = todos@.map_values(|t: Todo| todo_view(t));
            let mut k: usize = 0;
            while k < found.len()
                invariant
                    k <= found@.len(),
                    found@.len() == note_todos(body@).len(),
                    forall|i: int|
                        0 <= i < found@.len() ==> {
                            &&& (#[trigger] found@[i]).text@ == note_todos(body@)[i].0
                            &&& found@[i].line@ == note_todos(body@)[i].1
                            &&& found@[i].section@ == note_todos(body@)[i].2
                            &&& found@[i].note_id@ == id@
                            &&& found@[i].note_title@ == title@
                            &&& found@[i].note_tags@ == tags@
                        },
                    todos@.map_values(|t: Todo| todo_view(t)) == prev + row_todos(*row).take(
                        k as int,
                    ),
                    body@ == value_text_of(json_get(*row, "content"@)),
                    id@ == row_id(*row),
                    title@ == value_text_of(json_get(*row, "title"@)),
                    string_views(tags@) == row_tags(*row),
                decreases found.len() - k,
            {
                let t = found[k].copy();
                let ghost before = todos@.map_values(|t: Todo| todo_view(t));
                todos.push(t);
                proof {
                    assert(todos@.map_values(|t: Todo| todo_view(t)) =~= before.push(todo_view(t)));
                    assert(row_todos(*row).take(k + 1) =~= row_todos(*row).take(k as int).push(
                        row_todos(*row)[k as int],
                    ));
                }
                k += 1;
            }
            proof {
                assert(row_todos(*row).take(found@.len() as int) =~= row_todos(*row));
            }
        }
        n += 1;
    }
    proof {
        assert(all.take(notes@.len() as int) =~= all);
    }
    TodoScan { todos, locked }
}

/// The arguments of `bearcli edit` that tick `todo` in its note: scoped to
/// its section when it has one.
pub open spec fn complete_argv(
    note_id: Seq<char>,
    section: Seq<char>,
    line: Seq<char>,
    done_line: Seq<char>,
) -> Seq<Seq<char>> {
    seq!["edit"@, note_id] + (if section.len() > 0 {
        seq!["--section"@, escaped(section)]
    } else {
        Seq::empty()
    }) + seq!["--find"@, escaped(line), "--replace"@, escaped(done_line)]
}

/// The arguments of `bearcli edit` that flip the todo's `[ ]` to `[x]` in its
/// note, scoped to its section.
pub fn complete_args(todo: &Todo) -> (r: Vec<String>)
    ensures
        string_views(r@) == complete_argv(
            todo.note_id@,
            todo.section@,
            todo.line@,
            crate::text::replace_first(todo.line@, seq!['[', ' ', ']'], seq!['[', 'x', ']']),
        ),
{
    let mut out: Vec<String> = Vec::new();
    out.push("edit".to_owned());
    out.push(todo.note_id.clone());
    let ghost mut expect = seq!["edit"@, todo.note_id@];
    assert(string_views(out@) =~= expect);
    if !todo.section.as_str().is_empty() {
        out.push("--section".to_owned());
        out.push(escape_flag(todo.section.as_str()));
        proof {
            expect = expect + seq!["--section"@, escaped(todo.section@)];
            assert(string_views(out@) =~= expect);
        }
    } else {
        proof {
            expect = expect + Seq::empty();
            assert(string_views(out@) =~= expect);
        }
    }
    let done = todo.done_line();
    out.push("--find".to_owned());
    out.push(escape_flag(todo.line.as_str()));
    out.push("--replace".to_owned());
    out.push(escape_flag(done.as_str()));
    proof {
        expect = expect + seq!["--find"@, escaped(todo.line@), "--replace"@, escaped(done@)];
        assert(string_views(out@) =~= expect);
    }
    out
}

/// The arguments of `bearcli app open` that show the todo's note, scrolled
/// to its section when it has one.
pub open spec fn open_argv(note_id: Seq<char>, header: Seq<char>) -> Seq<Seq<char>> {
    seq!["app"@, "open"@, note_id] + if header.len() > 0 {
        seq!["--header"@, header]
    } else {
        Seq::empty()
    }
}

/// The arguments of `bearcli app open` that show the todo's note.
pub fn open_args(todo: &Todo) -> (r: Vec<String>)
    ensures
        string_views(r@) == open_argv(
            todo.note_id@,
            crate::text::trim(crate::todos::drop_hashes(todo.section@)),
        ),
{
    let header = todo.header();
    let mut out: Vec<String> = Vec::new();
    out.push("app".to_owned());
    out.push("open".to_owned());
    out.push(todo.note_id.clone());
    if !header.as_str().is_empty() {
        out.push("--header".to_owned());
        out.push(header);
    }
    assert(string_views(out@) =~= open_argv(
        todo.note_id@,
        crate::text::trim(crate::todos::drop_hashes(todo.section@)),
    ));
    out
}

/// The error a bearcli JSON payload reports: its message (or a stock one)
/// and its code.
pub open spec fn payload_error(payload: Json) -> Option<(Seq<char>, Seq<char>)> {
    match payload {
        Json::Object(_, _) => match json_get(payload, "error"@) {
            Some(err) => Some((
                match json_get(err, "message"@) {
                    Some(Json::Str(m)) => if m@.len() > 0 {
                        m@
                    } else {
                        "bearcli error"@
                    },
                    _ => "bearcli error"@,
                },
                match json_get(err, "code"@) {
                    Some(Json::Str(c)) => c@,
                    _ => Seq::empty(),
                },
            )),
            None => None,
        },
        _ => None,
    }
}

/// What a finished bearcli run means. With `parse`, non-blank stdout must be
/// JSON (`parsed` is its parse, or the parser's message), and a payload that
/// carries an `error` is that error (exit status at least 1); then a failed
/// run is its first stderr line; else the payload, if any.
pub open spec fn bear_reply_of(
    parse: bool,
    stdout: Seq<char>,
    parsed: Result<Json, String>,
    success: bool,
    exit_code: i32,
    stderr: Seq<char>,
) -> Result<Option<Json>, (Seq<char>, Seq<char>, i32)> {
    let parsing = parse && trim(stdout).len() > 0;
    if parsing && parsed is Err {
        Err(("bearcli returned invalid JSON: "@ + parsed->Err_0@, Seq::empty(), 1))
    } else if parsing && payload_error(parsed->Ok_0) is Some {
        let (m, c) = payload_error(parsed->Ok_0).unwrap();
        Err((m, c, if exit_code == 0 { 1 } else { exit_code }))
    } else if !success {
        let line = crate::util::first_nonblank(crate::text::lines(stderr));
        Err((if line.len() == 0 { "bearcli failed with no error output"@ } else { line }, Seq::empty(), exit_code))
    } else if parsing {
        Ok(Some(parsed->Ok_0))
    } else {
        Ok(None)
    }
}

fn error_of(message: String, code: String, exit_code: i32) -> (e: BearError)
    ensures
        e.message == message && e.code == code && e.exit_code == exit_code,
{
    BearError { message, code, exit_code }
}

/// Interpret a finished bearcli run: its stdout (and that text parsed as
/// JSON, or the parser's message), whether it succeeded, its exit status,
/// and its stderr.
pub fn bear_reply(
    parse: bool,
    stdout: &str,
    parsed: Result<Json, String>,
    success: bool,
    exit_code: i32,
    stderr: &str,
) -> (r: Result<Option<Json>, BearError>)
    ensures
        match bear_reply_of(parse, stdout@, parsed, success, exit_code, stderr@) {
            Ok(p) => r == Ok::<Option<Json>, BearError>(p),
            Err((m, c, x)) => r matches Err(e) && e.message@ == m && e.code@ == c && e.exit_code == x,
        },
{
    let parsing = parse && !trim_chars(chars_of(stdout).as_slice()).is_empty();
    if parsing {
        match parsed {
            Err(e) => {
                let mut v = chars_of("bearcli returned invalid JSON: ");
                push_str(&mut v, e.as_str());
                return Err(error_of(string_of(v.as_slice()), String::new(), 1));
            },
            Ok(payload) => {
                let found = match &payload {
                    Json::Object(_, _) => match payload.get("error") {
                        Some(err) => {
                            let message = match err.get("message") {
                                Some(Json::Str(m)) => if m.as_str().is_empty() {
                                    string_of(chars_of("bearcli error").as_slice())
                                } else {
                                    m.clone()
                                },
                                _ => string_of(chars_of("bearcli error").as_slice()),
                            };
                            let code = match err.get("code") {
                                Some(Json::Str(c)) => c.clone(),
                                _ => String::new(),
                            };
                            Some((message, code))
                        },
                        None => None,
                    },
                    _ => None,
                };
                if let Some((message, code)) = found {
                    return Err(error_of(message, code, if exit_code == 0 { 1 } else { exit_code }));
                }
                if !success {
                    return Err(stderr_failure(stderr, exit_code));
                }
                return Ok(Some(payload));
            },
        }
    }
    if !success {
        return Err(stderr_failure(stderr, exit_code));
    }
    Ok(None)
}

fn stderr_failure(stderr: &str, exit_code: i32) -> (e: BearError)
    ensures
        e.message@ == (if crate::util::first_nonblank(crate::text::lines(stderr@)).len() == 0 {
            "bearcli failed with no error output"@
        } else {
            crate::util::first_nonblank(crate::text::lines(stderr@))
        }),
        e.code@ == Seq::<char>::empty(),
        e.exit_code == exit_code,
{
    let line = crate::util::first_line(stderr);
    let message = if line.as_str().is_empty() {
        string_of(chars_of("bearcli failed with no error output").as_slice())
    } else {
        line
    };
    error_of(message, String::new(), exit_code)
}

} // verus!
