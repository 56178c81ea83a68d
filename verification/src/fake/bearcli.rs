//! A local stand-in for bearcli, used for demo mode and tests.
//!
//! Implements the subset of bearcli that remtui drives — `search`, `cat`,
//! `edit`, and `app open` — with the real tool's contract: `--format json`
//! puts one JSON document on stdout for reads and `{"error": {...}}` for their
//! failures; writes print nothing on success and plain text on stderr (exit 1)
//! when they fail.
//!
//! State lives in a JSON file at `$REMTUI_FAKE_BEAR_STATE` (default
//! `~/.cache/remtui/demo-bear.json`), seeded with sample notes on first run.

use vstd::prelude::*;

use crate::bear::{escape_char, escaped};
use crate::json::{
    copy_items, entries_of,
    entries_set, json_count_view, json_get, json_int_view, jv, lemma_jv_entries_push, lemma_jv_items_push, Json,
    JsonView,
};
use crate::text::{
    chars_of, contains, contains_chars, dec, decimal, find_chars, join, replace_first, replace_first_chars, first_occurrence, is_whitespace,
    lemma_first_occurrence_unique, occurs_at, is_ws, lowercase, push_str, to_lower, words,
    words_of, lemma_encode_utf8_concat, lemma_split_on_len,
    slice_chars, split_chars, split_on, squash, squash_chars, string_of, string_views, trim_start,
    utf8_width, views,
};
use crate::todos::is_bullet;
use super::args::{option_get, parse_from, Args, ArgsView};
use super::output::{silent, Printed, PrintedView};
use crate::digest::{hex_lower, sha1};

verus! {

pub const ENV_STATE: &'static str = "REMTUI_FAKE_BEAR_STATE";

/// `\\`, `\n`, `\t` and `\r` read back as the characters they stand for;
/// any other backslash stays as it is.
pub open spec fn unescaped(t: Seq<char>) -> Seq<char>
    decreases t.len(),
{
    if t.len() == 0 {
        Seq::empty()
    } else if t[0] == '\\' && t.len() >= 2 && (t[1] == '\\' || t[1] == 'n' || t[1] == 't' || t[1] == 'r') {
        seq![
            if t[1] == '\\' {
                '\\'
            } else if t[1] == 'n' {
                '\n'
            } else if t[1] == 't' {
                '\t'
            } else {
                '\r'
            },
        ] + unescaped(t.skip(2))
    } else {
        seq![t[0]] + unescaped(t.drop_first())
    }
}

/// Undo the escaping bearcli's flags take.
pub fn unescape(text: &str) -> (r: String)
    ensures
        r@ == unescaped(text@),
{
    let v = chars_of(text);
    let mut out: Vec<char> = Vec::new();
    let mut i: usize = 0;
    assert(v@.skip(0) =~= v@);
    while i < v.len()
        invariant
            i <= v@.len(),
            unescaped(v@) == out@ + unescaped(v@.skip(i as int)),
        decreases v.len() - i,
    {
        let c = v[i];
        let ghost rest = v@.skip(i as int);
        if c == '\\' && i + 1 < v.len() && (v[i + 1] == '\\' || v[i + 1] == 'n' || v[i + 1] == 't' || v[i + 1] == 'r') {
            let d = v[i + 1];
            let e = if d == '\\' {
                '\\'
            } else if d == 'n' {
                '\n'
            } else if d == 't' {
                '\t'
            } else {
                '\r'
            };
            proof {
                assert(rest[0] == c && rest[1] == d);
                assert(rest.skip(2) =~= v@.skip(i + 2));
            }
            let ghost before = out@;
            out.push(e);
            assert(out@ =~= before + seq![e]);
            i += 2;
        } else {
            proof {
                assert(rest[0] == c);
                assert(rest.drop_first() =~= v@.skip(i + 1));
            }
            let ghost before = out@;
            out.push(c);
            assert(out@ =~= before + seq![c]);
            i += 1;
        }
    }
    assert(v@.skip(v@.len() as int) =~= Seq::<char>::empty());
    assert(out@ =~= out@ + Seq::<char>::empty());
    string_of(out.as_slice())
}

proof fn lemma_escaped_front(s: Seq<char>)
    requires
        s.len() > 0,
    ensures
        escaped(s) == escape_char(s[0]) + escaped(s.drop_first()),
    decreases s.len(),
{
    if s.len() == 1 {
        assert(s.drop_last() =~= Seq::<char>::empty());
        assert(s.drop_first() =~= Seq::<char>::empty());
        assert(escaped(s.drop_last()) =~= Seq::<char>::empty());
        assert(s.last() == s[0]);
        assert(escaped(s) == escaped(s.drop_last()) + escape_char(s.last()));
        assert(escaped(s) =~= escape_char(s[0]));
    } else {
        lemma_escaped_front(s.drop_last());
        assert(s.drop_last().drop_first() =~= s.drop_first().drop_last());
        assert(s.drop_first().last() == s.last());
        assert(escaped(s) =~= escape_char(s[0]) + escaped(s.drop_first()));
    }
}

/// The fake reads back exactly what the client's flag escaping wrote:
/// unescaping an escaped text gives the text.
pub proof fn law_unescape_undoes_escape(s: Seq<char>)
    ensures
        unescaped(escaped(s)) == s,
    decreases s.len(),
{
    if s.len() > 0 {
        lemma_escaped_front(s);
        law_unescape_undoes_escape(s.drop_first());
        let e = escape_char(s[0]);
        let t = e + escaped(s.drop_first());
        if e.len() == 2 {
            assert(t.skip(2) =~= escaped(s.drop_first()));
        } else {
            assert(t.drop_first() =~= escaped(s.drop_first()));
        }
        assert(unescaped(t) =~= seq![s[0]] + s.drop_first());
        assert(seq![s[0]] + s.drop_first() =~= s);
    } else {
        assert(escaped(s) =~= Seq::<char>::empty());
    }
}

/// The number of `#` characters that start `s`.
pub open spec fn hash_count(s: Seq<char>) -> int
    decreases s.len(),
{
    if s.len() > 0 && s[0] == '#' {
        1 + hash_count(s.drop_first())
    } else {
        0
    }
}

/// UTF-8 length of some text.
pub open spec fn byte_len(s: Seq<char>) -> int {
    vstd::utf8::encode_utf8(s).len() as int
}

/// A line that closes a section opened at `level`: after leading white
/// space, a heading of that level or a higher one.
pub open spec fn closes_section(line: Seq<char>, level: int) -> bool {
    let st = trim_start(line);
    let n = hash_count(st);
    st.len() > 0 && st[0] == '#' && n <= level && n < st.len() && st[n] == ' '
}

/// The byte span of a section, scanning `lines` from line `k`, which starts
/// at byte `offset`.
pub open spec fn span_from(
    lines: Seq<Seq<char>>,
    k: int,
    heading: Seq<char>,
    level: int,
    start: Option<int>,
    offset: int,
    total: int,
) -> Option<(int, int)>
    decreases lines.len() - k,
{
    if k < 0 || k >= lines.len() {
        match start {
            Some(b) => Some((b, total)),
            None => None,
        }
    } else {
        let line = lines[k];
        let next = offset + byte_len(line) + 1;
        match start {
            None => span_from(lines, k + 1, heading, level, if squash(line) == heading {
                Some(offset)
            } else {
                None
            }, next, total),
            Some(b) => if closes_section(line, level) {
                Some((b, offset))
            } else {
                span_from(lines, k + 1, heading, level, start, next, total)
            },
        }
    }
}

/// Byte span of the section headed by `address` (heading line included):
/// from the first line that reads as the heading to the next heading of the
/// same or a higher level, or to the end.
pub open spec fn section_of(content: Seq<char>, address: Seq<char>) -> Option<(int, int)> {
    let heading = squash(address);
    span_from(split_on(content, '\n'), 0, heading, hash_count(heading), None, 0, byte_len(content))
}

/// Bytes before line `k` of `ls`, each line with its break.
pub open spec fn byte_offset(ls: Seq<Seq<char>>, k: int) -> int
    decreases k,
{
    if k <= 0 {
        0
    } else {
        byte_offset(ls, k - 1) + byte_len(ls[k - 1]) + 1
    }
}

proof fn lemma_byte_offset_prefix(a: Seq<Seq<char>>, b: Seq<Seq<char>>, l: int)
    requires
        0 <= l <= a.len(),
        l <= b.len(),
        forall|k: int| 0 <= k < l ==> a[k] == b[k],
    ensures
        byte_offset(a, l) == byte_offset(b, l),
    decreases l,
{
    if l > 0 {
        lemma_byte_offset_prefix(a, b, l - 1);
    }
}

/// The lines of a text and their breaks fill its bytes exactly.
proof fn lemma_lines_bytes(s: Seq<char>)
    ensures
        split_on(s, '\n').len() >= 1,
        byte_offset(split_on(s, '\n'), split_on(s, '\n').len() - 1) + byte_len(split_on(s, '\n').last()) == byte_len(s),
    decreases s.len(),
{
    lemma_split_on_len(s, '\n');
    if s.len() > 0 {
        let t = s.drop_last();
        let c = s.last();
        lemma_lines_bytes(t);
        lemma_split_on_len(t, '\n');
        let lt = split_on(t, '\n');
        let ls = split_on(s, '\n');
        assert(t + seq![c] =~= s);
        lemma_encode_utf8_concat(t, seq![c]);
        if c == '\n' {
            assert(ls == lt.push(Seq::<char>::empty()));
            lemma_byte_offset_prefix(ls, lt, lt.len() - 1);
            assert(vstd::utf8::encode_utf8(seq!['\n']).len() == 1) by {
                reveal_with_fuel(vstd::utf8::encode_utf8, 2);
                assert(seq!['\n'].drop_first() =~= Seq::<char>::empty());
            }
            assert(vstd::utf8::encode_utf8(Seq::<char>::empty()).len() == 0);
        } else {
            assert(ls == lt.update(lt.len() - 1, lt.last().push(c)));
            lemma_byte_offset_prefix(ls, lt, lt.len() - 1);
            assert(lt.last() + seq![c] =~= lt.last().push(c));
            lemma_encode_utf8_concat(lt.last(), seq![c]);
        }
    }
}

proof fn lemma_line_bytes_fit(s: Seq<char>, k: int)
    requires
        0 <= k < split_on(s, '\n').len(),
    ensures
        0 <= byte_offset(split_on(s, '\n'), k),
        byte_offset(split_on(s, '\n'), k) + byte_len(split_on(s, '\n')[k]) <= byte_len(s),
    decreases split_on(s, '\n').len() - k,
{
    lemma_lines_bytes(s);
    lemma_byte_offset_nonneg(split_on(s, '\n'), k);
    if k < split_on(s, '\n').len() - 1 {
        lemma_line_bytes_fit(s, k + 1);
    }
}

proof fn lemma_byte_offset_nonneg(ls: Seq<Seq<char>>, k: int)
    ensures
        0 <= byte_offset(ls, k),
    decreases k,
{
    if k > 0 {
        lemma_byte_offset_nonneg(ls, k - 1);
    }
}

fn bytes_of(v: &[char]) -> (n: usize)
    requires
        byte_len(v@) <= usize::MAX,
    ensures
        n == byte_len(v@),
{
    let mut n: usize = 0;
    let mut i: usize = 0;
    proof {
        assert(v@.take(0) =~= Seq::<char>::empty());
    }
    while i < v.len()
        invariant
            i <= v@.len(),
            n == byte_len(v@.take(i as int)),
            byte_len(v@) <= usize::MAX,
        decreases v.len() - i,
    {
        let w = utf8_width(v[i]);
        proof {
            assert(v@.take(i + 1) =~= v@.take(i as int) + seq![v@[i as int]]);
            lemma_encode_utf8_concat(v@.take(i as int), seq![v@[i as int]]);
            assert(v@ =~= v@.take(i + 1) + v@.skip(i + 1));
            lemma_encode_utf8_concat(v@.take(i + 1), v@.skip(i + 1));
        }
        n = n + w;
        i += 1;
    }
    assert(v@.take(v@.len() as int) =~= v@);
    n
}

fn hashes(v: &[char]) -> (n: usize)
    ensures
        n == hash_count(v@),
        n <= v@.len(),
{
    let mut n: usize = 0;
    assert(v@.skip(0) =~= v@);
    while n < v.len() && v[n] == '#'
        invariant
            n <= v@.len(),
            hash_count(v@) == n + hash_count(v@.skip(n as int)),
        decreases v.len() - n,
    {
        assert(v@.skip(n as int).drop_first() =~= v@.skip(n + 1));
        n += 1;
    }
    n
}

fn closes(line: &[char], level: usize) -> (r: bool)
    ensures
        r == closes_section(line@, level as int),
{
    let mut k: usize = 0;
    assert(line@.skip(0) =~= line@);
    while k < line.len() && is_whitespace(line[k])
        invariant
            k <= line@.len(),
            trim_start(line@) == trim_start(line@.skip(k as int)),
        decreases line.len() - k,
    {
        assert(line@.skip(k as int).drop_first() =~= line@.skip(k + 1));
        k += 1;
    }
    let st = slice_chars(line, k, line.len());
    assert(st@ == line@.skip(k as int));
    assert(trim_start(st@) == st@);
    let n = hashes(st.as_slice());
    st.len() > 0 && st[0] == '#' && n <= level && n < st.len() && st[n] == ' '
}

/// Byte span of the section headed by `address` (heading line included).
pub fn section_span(content: &str, address: &str) -> (r: Option<(usize, usize)>)
    requires
        byte_len(content@) < usize::MAX,
    ensures
        match r {
            Some((lo, hi)) => section_of(content@, address@) == Some((lo as int, hi as int)),
            None => section_of(content@, address@) is None,
        },
{
    let av = chars_of(address);
    let heading = squash_chars(av.as_slice());
    let level = hashes(heading.as_slice());
    let cv = chars_of(content);
    let lines = split_chars(cv.as_slice(), '\n');
    let total = bytes_of(cv.as_slice());
    let ghost ls = views(lines@);
    let mut start: Option<usize> = None;
    let mut offset: usize = 0;
    let mut k: usize = 0;
    proof {
        lemma_lines_bytes(cv@);
    }
    while k < lines.len()
        invariant
            k <= lines@.len(),
            ls == views(lines@),
            ls == split_on(cv@, '\n'),
            cv@ == content@,
            total == byte_len(content@),
            byte_len(content@) < usize::MAX,
            offset == byte_offset(ls, k as int),
            heading@ == squash(av@),
            av@ == address@,
            level == hash_count(heading@),
            section_of(content@, address@) == span_from(ls, k as int, heading@, level as int, match start {
                Some(b) => Some(b as int),
                None => None,
            }, offset as int, total as int),
        decreases lines.len() - k,
    {
        let line = &lines[k];
        proof {
            lemma_line_bytes_fit(cv@, k as int);
        }
        let n = bytes_of(line.as_slice());
        match start {
            None => {
                let sq = squash_chars(line.as_slice());
                if crate::models::same_chars(sq.as_slice(), heading.as_slice()) {
                    start = Some(offset);
                }
            },
            Some(b) => {
                if closes(line.as_slice(), level) {
                    return Some((b, offset));
                }
            },
        }
        offset = offset + n + 1;
        k += 1;
    }
    match start {
        Some(b) => Some((b, total)),
        None => None,
    }
}

/// True when some line holds an open todo: after optional white space, a
/// bullet (`-`, `*` or `+`), a space, `[ ]`, a space, and a non-space.
pub open spec fn open_todo_line(line: Seq<char>) -> bool {
    let t = trim_start(line);
    t.len() >= 7 && is_bullet(t[0]) && t[1] == ' ' && t[2] == '[' && t[3] == ' ' && t[4] == ']' && t[5] == ' '
        && !is_ws(t[6])
}

/// Some line of `content` holds an open todo.
pub open spec fn has_open_todo_text(content: Seq<char>) -> bool {
    exists|k: int| 0 <= k < split_on(content, '\n').len() && open_todo_line(#[trigger] split_on(content, '\n')[k])
}

fn open_todo(line: &[char]) -> (r: bool)
    ensures
        r == open_todo_line(line@),
{
    let mut k: usize = 0;
    assert(line@.skip(0) =~= line@);
    while k < line.len() && is_whitespace(line[k])
        invariant
            k <= line@.len(),
            trim_start(line@) == trim_start(line@.skip(k as int)),
        decreases line.len() - k,
    {
        assert(line@.skip(k as int).drop_first() =~= line@.skip(k + 1));
        k += 1;
    }
    let t = slice_chars(line, k, line.len());
    assert(t@ == line@.skip(k as int));
    assert(trim_start(t@) == t@);
    t.len() >= 7 && (t[0] == '-' || t[0] == '*' || t[0] == '+') && t[1] == ' ' && t[2] == '[' && t[3] == ' '
        && t[4] == ']' && t[5] == ' ' && !is_whitespace(t[6])
}

/// Whether some line of the text holds an open todo.
pub fn has_open_todo_in(content: &str) -> (r: bool)
    ensures
        r == has_open_todo_text(content@),
{
    let cv = chars_of(content);
    let lines = split_chars(cv.as_slice(), '\n');
    let mut k: usize = 0;
    while k < lines.len()
        invariant
            k <= lines@.len(),
            views(lines@) == split_on(content@, '\n'),
            forall|j: int| 0 <= j < k ==> !open_todo_line(#[trigger] split_on(content@, '\n')[j]),
        decreases lines.len() - k,
    {
        if open_todo(lines[k].as_slice()) {
            assert(views(lines@)[k as int] == lines@[k as int]@);
            return true;
        }
        assert(views(lines@)[k as int] == lines@[k as int]@);
        k += 1;
    }
    false
}

/// A string member, or "" when it is missing or not a string.
pub open spec fn member_text(note: Json, key: Seq<char>) -> Seq<char> {
    match json_get(note, key) {
        Some(Json::Str(s)) => s@,
        _ => Seq::empty(),
    }
}

/// Whether a note is locked.
pub open spec fn note_locked(note: Json) -> bool {
    match json_get(note, "locked"@) {
        Some(Json::Bool(b)) => b,
        _ => false,
    }
}

/// The string items of a JSON array, in order.
pub open spec fn string_items(items: Seq<Json>) -> Seq<Seq<char>>
    decreases items.len(),
{
    if items.len() == 0 {
        Seq::empty()
    } else {
        let r = string_items(items.drop_last());
        match items.last() {
            Json::Str(s) => r.push(s@),
            _ => r,
        }
    }
}

/// A note's tags: the strings of its `tags` array.
pub open spec fn note_tags(note: Json) -> Seq<Seq<char>> {
    match json_get(note, "tags"@) {
        Some(Json::Array(items, _)) => string_items(items@),
        _ => Seq::empty(),
    }
}

/// The string value of `key` in `note`, or "".
pub fn member(note: &Json, key: &str) -> (r: String)
    ensures
        r@ == member_text(*note, key@),
{
    match note.get(key) {
        Some(Json::Str(s)) => s.clone(),
        _ => String::new(),
    }
}

fn locked(note: &Json) -> (r: bool)
    ensures
        r == note_locked(*note),
{
    proof {
        reveal_strlit("locked");
    }
    match note.get("locked") {
        Some(Json::Bool(b)) => *b,
        _ => false,
    }
}

fn tags(note: &Json) -> (r: Vec<String>)
    ensures
        string_views(r@) == note_tags(*note),
{
    let mut out: Vec<String> = Vec::new();
    match note.get("tags") {
        Some(Json::Array(items, _)) => {
            let mut i: usize = 0;
            while i < items.len()
                invariant
                    i <= items@.len(),
                    string_views(out@) == string_items(items@.take(i as int)),
                decreases items.len() - i,
            {
                assert(items@.take(i + 1).drop_last() =~= items@.take(i as int));
                match &items[i] {
                    Json::Str(t) => {
                        let ghost before = string_views(out@);
                        out.push(t.clone());
                        assert(string_views(out@) =~= before.push(t@));
                    },
                    _ => {},
                }
                i += 1;
            }
            assert(items@.take(items@.len() as int) =~= items@);
        },
        _ => {},
    }
    out
}

/// The fields `--fields all` stands for.
pub open spec fn all_fields() -> Seq<Seq<char>> {
    seq!["id"@, "title"@, "locked"@, "tags"@, "length"@, "created"@, "modified"@]
}

/// The fields a projection shows: those asked for (`all` for the standard
/// set), with `content` at the end when it was asked for among others.
pub open spec fn wanted_fields(fields: Seq<char>) -> Seq<Seq<char>> {
    let requested = split_on(fields, ',');
    let wanted = if requested[0] == "all"@ {
        all_fields()
    } else {
        requested
    };
    if requested.contains("content"@) && !wanted.contains("content"@) {
        wanted.push("content"@)
    } else {
        wanted
    }
}

/// What a projection shows for one field of a note.
pub open spec fn field_value(note: Json, field: Seq<char>) -> JsonView {
    let content = member_text(note, "content"@);
    if field == "length"@ {
        json_count_view(content.len())
    } else if field == "content"@ {
        if note_locked(note) {
            JsonView::Null
        } else {
            JsonView::Str(content)
        }
    } else if field == "locked"@ {
        JsonView::Str(if note_locked(note) {
            "yes"@
        } else {
            "no"@
        })
    } else {
        match json_get(note, field) {
            Some(v) => jv(v),
            None => JsonView::Null,
        }
    }
}

/// The entries of a projection onto the first `k` wanted fields.
pub open spec fn projected(note: Json, wanted: Seq<Seq<char>>, k: int) -> Seq<(Seq<char>, JsonView)>
    decreases k,
{
    if k <= 0 {
        Seq::empty()
    } else {
        entries_set(projected(note, wanted, k - 1), wanted[k - 1], field_value(note, wanted[k - 1]))
    }
}

/// A note projected onto a comma-separated field list.
pub open spec fn projection(note: Json, fields: Seq<char>) -> JsonView {
    let wanted = wanted_fields(fields);
    JsonView::Object(projected(note, wanted, wanted.len() as int))
}

fn field_of(note: &Json, field: &[char]) -> (r: Json)
    ensures
        jv(r) == field_value(*note, field@),
{
    let content = member(note, "content");
    let cv = chars_of(content.as_str());
    proof {
        reveal_strlit("content");
        reveal_strlit("yes");
        reveal_strlit("no");
    }
    if word(field, "length") {
        Json::count(cv.len())
    } else if word(field, "content") {
        if locked(note) {
            Json::Null
        } else {
            Json::Str(content)
        }
    } else if word(field, "locked") {
        if locked(note) {
            Json::text("yes")
        } else {
            Json::text("no")
        }
    } else {
        let name = string_of(field);
        match note.get(name.as_str()) {
            Some(v) => v.copy(),
            None => Json::Null,
        }
    }
}

fn word(v: &[char], w: &str) -> (r: bool)
    ensures
        r == (v@ == w@),
{
    crate::models::same_chars(v, chars_of(w).as_slice())
}

fn listed(v: &Vec<Vec<char>>, w: &str) -> (r: bool)
    ensures
        r == views(v@).contains(w@),
{
    let mut i: usize = 0;
    while i < v.len()
        invariant
            i <= v@.len(),
            forall|j: int| 0 <= j < i ==> v@[j]@ != w@,
        decreases v.len() - i,
    {
        if word(v[i].as_slice(), w) {
            assert(views(v@)[i as int] == w@);
            return true;
        }
        i += 1;
    }
    proof {
        if views(v@).contains(w@) {
            let m = choose|m: int| 0 <= m < views(v@).len() && views(v@)[m] == w@;
            assert(v@[m]@ == w@);
        }
    }
    false
}

/// Project a note onto a comma-separated field list, as bearcli's
/// `--fields` does; locked notes show no content.
pub fn project(note: &Json, fields: &str) -> (r: Json)
    ensures
        jv(r) == projection(*note, fields@),
{
    let fv = chars_of(fields);
    let requested = split_chars(fv.as_slice(), ',');
    proof {
        lemma_split_on_len(fv@, ',');
        reveal_strlit("all");
        reveal_strlit("content");
    }
    let has_content = listed(&requested, "content");
    assert(views(requested@) == split_on(fields@, ','));
    let mut wanted: Vec<Vec<char>> = if word(requested[0].as_slice(), "all") {
        let mut a: Vec<Vec<char>> = Vec::new();
        a.push(chars_of("id"));
        a.push(chars_of("title"));
        a.push(chars_of("locked"));
        a.push(chars_of("tags"));
        a.push(chars_of("length"));
        a.push(chars_of("created"));
        a.push(chars_of("modified"));
        assert(views(a@) =~= all_fields());
        a
    } else {
        requested
    };
    if has_content && !listed(&wanted, "content") {
        let ghost before = views(wanted@);
        wanted.push(chars_of("content"));
        assert(views(wanted@) =~= before.push("content"@));
    }
    assert(views(wanted@) == wanted_fields(fields@));
    let mut out: Vec<(String, Json)> = Vec::new();
    let mut k: usize = 0;
    while k < wanted.len()
        invariant
            k <= wanted@.len(),
            views(wanted@) == wanted_fields(fields@),
            crate::json::jv_entries(out@) == projected(*note, views(wanted@), k as int),
        decreases wanted.len() - k,
    {
        let value = field_of(note, wanted[k].as_slice());
        let name = string_of(wanted[k].as_slice());
        crate::json::set_entry(&mut out, name.as_str(), value);
        assert(views(wanted@)[k as int] == wanted@[k as int]@);
        k += 1;
    }
    Json::object(out)
}

/// Whether a note answers one search term: `@todo` wants an open todo,
/// `#tag` a tag equal to it or under it (without regard to case), another
/// `@` directive anything, and a word its title or content to hold it
/// (without regard to case).
pub open spec fn term_hit(note: Json, term: Seq<char>) -> bool {
    if term == "@todo"@ {
        has_open_todo_text(member_text(note, "content"@))
    } else if term.len() > 0 && term[0] == '#' {
        let tag = lowercase(term);
        exists|k: int| 0 <= k < note_tags(note).len() && ({
            let t = lowercase(#[trigger] note_tags(note)[k]);
            t == tag || (t.len() >= tag.len() + 1 && t.take(tag.len() as int + 1) == tag.push('/'))
        })
    } else if term.len() > 0 && term[0] == '@' {
        true
    } else {
        contains(lowercase(member_text(note, "title"@) + seq!['\n'] + member_text(note, "content"@)), lowercase(term))
    }
}

/// Whether a note answers every term of a query.
pub open spec fn query_hit(note: Json, query: Seq<char>) -> bool {
    forall|k: int| 0 <= k < words(query).len() ==> term_hit(note, #[trigger] words(query)[k])
}

fn tag_hit(note: &Json, term: &[char]) -> (r: bool)
    ensures
        r == (exists|k: int| 0 <= k < note_tags(*note).len() && ({
            let t = lowercase(#[trigger] note_tags(*note)[k]);
            let tag = lowercase(term@);
            t == tag || (t.len() >= tag.len() + 1 && t.take(tag.len() as int + 1) == tag.push('/'))
        })),
{
    let ts = tags(note);
    let tag_text = string_of(term);
    let tag_low = to_lower(tag_text.as_str());
    let tv = chars_of(tag_low.as_str());
    let mut under = chars_of(tag_low.as_str());
    under.push('/');
    let mut i: usize = 0;
    while i < ts.len()
        invariant
            i <= ts@.len(),
            string_views(ts@) == note_tags(*note),
            tv@ == lowercase(term@),
            under@ == lowercase(term@).push('/'),
            forall|k: int| 0 <= k < i ==> !({
                let t = lowercase(#[trigger] note_tags(*note)[k]);
                let tag = lowercase(term@);
                t == tag || (t.len() >= tag.len() + 1 && t.take(tag.len() as int + 1) == tag.push('/'))
            }),
        decreases ts.len() - i,
    {
        let low = to_lower(ts[i].as_str());
        let lv = chars_of(low.as_str());
        assert(string_views(ts@)[i as int] == ts@[i as int]@);
        let same = crate::models::same_chars(lv.as_slice(), tv.as_slice());
        let prefixed = lv.len() >= under.len() && crate::models::same_chars(slice_chars(lv.as_slice(), 0, under.len()).as_slice(), under.as_slice());
        if same || prefixed {
            return true;
        }
        i += 1;
    }
    false
}

/// Whether a note answers every term of a search query.
pub fn matches(note: &Json, query: &str) -> (r: bool)
    ensures
        r == query_hit(*note, query@),
{
    let qv = chars_of(query);
    let terms = words_of(qv.as_slice());
    let mut i: usize = 0;
    proof {
        reveal_strlit("@todo");
    }
    while i < terms.len()
        invariant
            i <= terms@.len(),
            views(terms@) == words(query@),
            qv@ == query@,
            forall|k: int| 0 <= k < i ==> term_hit(*note, #[trigger] words(query@)[k]),
        decreases terms.len() - i,
    {
        let term = &terms[i];
        assert(views(terms@)[i as int] == term@);
        let ok = if word(term.as_slice(), "@todo") {
            let content = member(note, "content");
            has_open_todo_in(content.as_str())
        } else if term.len() > 0 && term[0] == '#' {
            tag_hit(note, term.as_slice())
        } else if term.len() > 0 && term[0] == '@' {
            true
        } else {
            let title = member(note, "title");
            let mut hay = chars_of(title.as_str());
            hay.push('\n');
            let content = member(note, "content");
            push_str(&mut hay, content.as_str());
            assert(hay@ =~= title@ + seq!['\n'] + content@);
            let hay_text = string_of(hay.as_slice());
            let hay_low = to_lower(hay_text.as_str());
            let term_text = string_of(term.as_slice());
            let term_low = to_lower(term_text.as_str());
            contains_chars(chars_of(hay_low.as_str()).as_slice(), chars_of(term_low.as_str()).as_slice())
        };
        assert(ok == term_hit(*note, term@));
        if !ok {
            return false;
        }
        i += 1;
    }
    true
}

/// The character span of a section: the same scan as `section_of`, counted
/// in characters.
pub open spec fn chars_span_from(
    lines: Seq<Seq<char>>,
    k: int,
    heading: Seq<char>,
    level: int,
    start: Option<int>,
    offset: int,
    total: int,
) -> Option<(int, int)>
    decreases lines.len() - k,
{
    if k < 0 || k >= lines.len() {
        match start {
            Some(b) => Some((b, total)),
            None => None,
        }
    } else {
        let line = lines[k];
        let next = offset + line.len() + 1;
        match start {
            None => chars_span_from(lines, k + 1, heading, level, if squash(line) == heading {
                Some(offset)
            } else {
                None
            }, next, total),
            Some(b) => if closes_section(line, level) {
                Some((b, offset))
            } else {
                chars_span_from(lines, k + 1, heading, level, start, next, total)
            },
        }
    }
}

pub open spec fn section_chars_of(content: Seq<char>, address: Seq<char>) -> Option<(int, int)> {
    let heading = squash(address);
    chars_span_from(split_on(content, '\n'), 0, heading, hash_count(heading), None, 0, content.len() as int)
}

/// Char offsets before line `k`, each line with its break.
pub open spec fn char_offset(ls: Seq<Seq<char>>, k: int) -> int
    decreases k,
{
    if k <= 0 {
        0
    } else {
        char_offset(ls, k - 1) + ls[k - 1].len() + 1
    }
}

proof fn lemma_char_offset_prefix(a: Seq<Seq<char>>, b: Seq<Seq<char>>, l: int)
    requires
        0 <= l <= a.len(),
        l <= b.len(),
        forall|k: int| 0 <= k < l ==> a[k] == b[k],
    ensures
        char_offset(a, l) == char_offset(b, l),
    decreases l,
{
    if l > 0 {
        lemma_char_offset_prefix(a, b, l - 1);
    }
}

proof fn lemma_lines_chars(s: Seq<char>)
    ensures
        split_on(s, '\n').len() >= 1,
        char_offset(split_on(s, '\n'), split_on(s, '\n').len() - 1) + split_on(s, '\n').last().len() == s.len(),
    decreases s.len(),
{
    lemma_split_on_len(s, '\n');
    if s.len() > 0 {
        let t = s.drop_last();
        lemma_lines_chars(t);
        lemma_split_on_len(t, '\n');
        let lt = split_on(t, '\n');
        let ls = split_on(s, '\n');
        if s.last() == '\n' {
            assert(ls == lt.push(Seq::<char>::empty()));
            lemma_char_offset_prefix(ls, lt, lt.len() - 1);
        } else {
            assert(ls == lt.update(lt.len() - 1, lt.last().push(s.last())));
            lemma_char_offset_prefix(ls, lt, lt.len() - 1);
        }
    }
}

proof fn lemma_line_chars_fit(s: Seq<char>, k: int)
    requires
        0 <= k < split_on(s, '\n').len(),
    ensures
        0 <= char_offset(split_on(s, '\n'), k),
        char_offset(split_on(s, '\n'), k) + split_on(s, '\n')[k].len() <= s.len(),
    decreases split_on(s, '\n').len() - k,
{
    lemma_lines_chars(s);
    lemma_char_offset_nonneg(split_on(s, '\n'), k);
    if k < split_on(s, '\n').len() - 1 {
        lemma_line_chars_fit(s, k + 1);
    }
}

proof fn lemma_char_offset_nonneg(ls: Seq<Seq<char>>, k: int)
    ensures
        0 <= char_offset(ls, k),
    decreases k,
{
    if k > 0 {
        lemma_char_offset_nonneg(ls, k - 1);
    }
}

proof fn lemma_chars_span_bounds(lines: Seq<Seq<char>>, k: int, heading: Seq<char>, level: int, start: Option<int>, offset: int, total: int)
    requires
        0 <= k,
        offset == char_offset(lines, k),
        char_offset(lines, lines.len() - 1) + lines.last().len() == total,
        lines.len() >= 1,
        start matches Some(b) ==> 0 <= b <= offset && b <= total,
    ensures
        chars_span_from(lines, k, heading, level, start, offset, total) matches Some((lo, hi)) ==> 0 <= lo <= hi <= total,
    decreases lines.len() - k,
{
    lemma_char_offset_nonneg(lines, k);
    if k < lines.len() {
        lemma_offset_fits(lines, k);
        lemma_chars_span_bounds(lines, k + 1, heading, level, if start is None && squash(lines[k]) == heading {
            Some(offset)
        } else {
            start
        }, offset + lines[k].len() + 1, total);
    } else {
        if k > lines.len() - 1 {
            lemma_offset_fits(lines, lines.len() - 1);
        }
        if let Some(b) = start {
            if k >= lines.len() {
                lemma_offset_past(lines, k);
            }
        }
    }
}

proof fn lemma_offset_fits(lines: Seq<Seq<char>>, k: int)
    requires
        0 <= k < lines.len(),
    ensures
        char_offset(lines, k) + lines[k].len() <= char_offset(lines, lines.len() - 1) + lines.last().len(),
    decreases lines.len() - k,
{
    if k < lines.len() - 1 {
        lemma_offset_fits(lines, k + 1);
    }
}

proof fn lemma_offset_past(lines: Seq<Seq<char>>, k: int)
    requires
        lines.len() >= 1,
        k >= lines.len(),
    ensures
        char_offset(lines, k) >= char_offset(lines, lines.len() - 1) + lines.last().len(),
    decreases k,
{
    if k > lines.len() {
        lemma_offset_past(lines, k - 1);
        lemma_char_offset_nonneg(lines, k - 1);
    }
}

/// The character span of the section headed by `address`.
fn section_chars(content: &[char], address: &[char]) -> (r: Option<(usize, usize)>)
    ensures
        match r {
            Some((lo, hi)) => section_chars_of(content@, address@) == Some((lo as int, hi as int)) && lo <= hi <= content@.len(),
            None => section_chars_of(content@, address@) is None,
        },
{
    let heading = squash_chars(address);
    let level = hashes(heading.as_slice());
    let lines = split_chars(content, '\n');
    let ghost ls = views(lines@);
    let mut start: Option<usize> = None;
    let mut offset: usize = 0;
    let mut k: usize = 0;
    let clen = content.len();
    proof {
        lemma_lines_chars(content@);
        lemma_chars_span_bounds(ls, 0, heading@, level as int, None, 0, content@.len() as int);
    }
    while k < lines.len()
        invariant
            k <= lines@.len(),
            clen == content@.len(),
            ls == views(lines@),
            ls == split_on(content@, '\n'),
            k < lines@.len() ==> offset == char_offset(ls, k as int),
            heading@ == squash(address@),
            level == hash_count(heading@),
            start matches Some(b) ==> b <= content@.len(),
            k < lines@.len() ==> section_chars_of(content@, address@) == chars_span_from(ls, k as int, heading@, level as int, match start {
                Some(b) => Some(b as int),
                None => None,
            }, offset as int, content@.len() as int),
            k == lines@.len() ==> section_chars_of(content@, address@) == match start {
                Some(b) => Some((b as int, content@.len() as int)),
                None => None::<(int, int)>,
            },
            section_chars_of(content@, address@) matches Some((lo, hi)) ==> 0 <= lo <= hi <= content@.len(),
        decreases lines.len() - k,
    {
        let line = &lines[k];
        proof {
            lemma_line_chars_fit(content@, k as int);
        }
        let n = line.len();
        let ghost next: int = offset + n + 1;
        assert(ls[k as int] == line@);
        match start {
            None => {
                let sq = squash_chars(line.as_slice());
                if crate::models::same_chars(sq.as_slice(), heading.as_slice()) {
                    start = Some(offset);
                }
            },
            Some(b) => {
                if closes(line.as_slice(), level) {
                    return Some((b, offset));
                }
            },
        }
        proof {
            if k + 1 < lines@.len() {
                lemma_line_chars_fit(content@, k + 1);
                lemma_char_offset_nonneg(ls, k + 1);
                assert(char_offset(ls, k + 1) == offset + n + 1);
            }
        }
        if k + 1 < lines.len() {
            offset = offset + n + 1;
        }
        k += 1;
        proof {
            if k == lines@.len() {
                assert(chars_span_from(ls, k as int, heading@, level as int, match start {
                    Some(b) => Some(b as int),
                    None => None,
                }, next, content@.len() as int) == match start {
                    Some(b) => Some((b as int, content@.len() as int)),
                    None => None::<(int, int)>,
                });
            }
        }
    }
    proof {
        lemma_split_on_len(content@, '\n');
    }
    match start {
        Some(b) => Some((b, content.len())),
        None => None,
    }
}

/// How many times `needle` occurs in `hay`, counted from the left without
/// overlap; an empty needle matches at every character boundary.
pub open spec fn match_count(hay: Seq<char>, needle: Seq<char>) -> nat
    decreases hay.len(),
{
    if needle.len() == 0 {
        (hay.len() + 1) as nat
    } else if contains(hay, needle) {
        let i = choose|i: int| first_occurrence(hay, needle, i);
        if 0 <= i && i + needle.len() <= hay.len() {
            1 + match_count(hay.skip(i + needle.len()), needle)
        } else {
            0
        }
    } else {
        0
    }
}

fn count_matches(hay: &[char], needle: &[char]) -> (n: u128)
    ensures
        n == match_count(hay@, needle@),
{
    if needle.len() == 0 {
        return hay.len() as u128 + 1;
    }
    let mut rest = slice_chars(hay, 0, hay.len());
    let mut n: u128 = 0;
    assert(rest@ =~= hay@);
    while rest.len() > 0
        invariant
            needle@.len() > 0,
            hay@.len() <= usize::MAX,
            match_count(hay@, needle@) == n + match_count(rest@, needle@),
            n + rest@.len() <= hay@.len(),
        decreases rest.len(),
    {
        match find_chars(rest.as_slice(), needle) {
            Some(i) => {
                proof {
                    lemma_first_occurrence_unique(rest@, needle@, i as int, choose|j: int| first_occurrence(rest@, needle@, j));
                }
                let next = slice_chars(rest.as_slice(), i + needle.len(), rest.len());
                assert(i + needle@.len() <= rest@.len());
                n = n + 1;
                rest = next;
            },
            None => {
                return n;
            },
        }
    }
    proof {
        if contains(rest@, needle@) {
            let i = choose|i: int| occurs_at(rest@, needle@, i);
        }
    }
    n
}

/// What the process should do: print these streams and exit with this code.
#[derive(Debug)]
pub struct Outcome {
    pub stdout: Printed,
    pub stderr: Printed,
    pub code: i32,
}

/// An outcome as plain values.
pub type OutcomeView = (PrintedView, PrintedView, i32);

impl Outcome {
    pub open spec fn view(&self) -> OutcomeView {
        (self.stdout.view(), self.stderr.view(), self.code)
    }
}

/// What a run asks of its caller: print an outcome, or first write a new
/// state and then print the outcome (or the failure to write).
#[derive(Debug)]
pub enum Step {
    Finish(Outcome),
    Save { state: Json, then: Outcome },
}

pub enum StepView {
    Finish(OutcomeView),
    Save(JsonView, OutcomeView),
}

impl Step {
    pub open spec fn view(&self) -> StepView {
        match self {
            Step::Finish(o) => StepView::Finish(o.view()),
            Step::Save { state, then } => StepView::Save(jv(*state), then.view()),
        }
    }
}

pub open spec fn ok_view(out: Seq<char>) -> OutcomeView {
    (PrintedView::Text(out), silent(), 0)
}

pub open spec fn fail_text_view(message: Seq<char>) -> OutcomeView {
    (silent(), PrintedView::Text(message + "\n"@), 1)
}

pub open spec fn fail_json_view(code: Seq<char>, message: Seq<char>) -> OutcomeView {
    (PrintedView::Compact(JsonView::Object(seq![
        ("error"@, JsonView::Object(seq![("code"@, JsonView::Str(code)), ("message"@, JsonView::Str(message))])),
    ])), silent(), 1)
}

pub open spec fn usage_view(message: Seq<char>) -> OutcomeView {
    (silent(), PrintedView::Text("usage: bearcli (fake) ...\nbearcli (fake): error: "@ + message + "\n"@), 2)
}

fn ok(stdout: String) -> (o: Outcome)
    ensures
        o.view() == ok_view(stdout@),
{
    Outcome { stdout: Printed::Text(stdout), stderr: Printed::Text(String::new()), code: 0 }
}

fn fail_text(message: &str) -> (o: Outcome)
    ensures
        o.view() == fail_text_view(message@),
{
    let mut v = chars_of(message);
    v.push('\n');
    proof {
        reveal_strlit("\n");
        assert(v@ =~= message@ + "\n"@);
    }
    Outcome { stdout: Printed::Text(String::new()), stderr: Printed::Text(string_of(v.as_slice())), code: 1 }
}

fn fail_json(code: &str, message: &str) -> (o: Outcome)
    ensures
        o.view() == fail_json_view(code@, message@),
{
    let mut inner: Vec<(String, Json)> = Vec::new();
    let e1 = (string_of(chars_of("code").as_slice()), Json::text(code));
    proof {
        lemma_jv_entries_push(inner@, e1);
    }
    inner.push(e1);
    let e2 = (string_of(chars_of("message").as_slice()), Json::text(message));
    proof {
        lemma_jv_entries_push(inner@, e2);
    }
    inner.push(e2);
    assert(crate::json::jv_entries(inner@) =~= seq![("code"@, JsonView::Str(code@)), ("message"@, JsonView::Str(message@))]);
    let mut outer: Vec<(String, Json)> = Vec::new();
    let e3 = (string_of(chars_of("error").as_slice()), Json::object(inner));
    proof {
        lemma_jv_entries_push(outer@, e3);
    }
    outer.push(e3);
    assert(crate::json::jv_entries(outer@) =~~= seq![
        ("error"@, JsonView::Object(seq![("code"@, JsonView::Str(code@)), ("message"@, JsonView::Str(message@))])),
    ]);
    let doc = Json::object(outer);
    proof {
        assert(jv(doc) =~~= JsonView::Object(seq![
            ("error"@, JsonView::Object(seq![("code"@, JsonView::Str(code@)), ("message"@, JsonView::Str(message@))])),
        ]));
    }
    Outcome { stdout: Printed::Compact(doc), stderr: Printed::Text(String::new()), code: 1 }
}

fn usage(message: &str) -> (o: Outcome)
    ensures
        o.view() == usage_view(message@),
{
    let mut v: Vec<char> = Vec::new();
    push_str(&mut v, "usage: bearcli (fake) ...\nbearcli (fake): error: ");
    push_str(&mut v, message);
    push_str(&mut v, "\n");
    Outcome { stdout: Printed::Text(String::new()), stderr: Printed::Text(string_of(v.as_slice())), code: 2 }
}

/// The outcome when the state could not be written.
pub fn save_failed(message: &str) -> (o: Outcome)
    ensures
        o.view() == fail_text_view(message@),
{
    fail_text(message)
}

/// The notes of a state: its `notes` array, or none.
pub open spec fn notes_of(state: Json) -> Seq<Json> {
    match json_get(state, "notes"@) {
        Some(Json::Array(items, _)) => items@,
        _ => Seq::empty(),
    }
}

/// The first note with this id.
pub open spec fn note_index(notes: Seq<Json>, id: Seq<char>, from: int) -> Option<int>
    decreases notes.len() - from,
{
    if from < 0 || from >= notes.len() {
        None
    } else if member_text(notes[from], "id"@) == id {
        Some(from)
    } else {
        note_index(notes, id, from + 1)
    }
}

/// The notes a query selects, in order.
pub open spec fn hits(notes: Seq<Json>, query: Seq<char>) -> Seq<Json>
    decreases notes.len(),
{
    if notes.len() == 0 {
        Seq::empty()
    } else {
        let r = hits(notes.drop_last(), query);
        if query_hit(notes.last(), query) {
            r.push(notes.last())
        } else {
            r
        }
    }
}

/// One line of the plain search listing: id, title and tags, tab separated.
pub open spec fn listing_line(note: Json) -> Seq<char> {
    member_text(note, "id"@) + "\t"@ + member_text(note, "title"@) + "\t"@ + join(note_tags(note), ","@) + "\n"@
}

pub open spec fn listing(rows: Seq<Json>) -> Seq<char>
    decreases rows.len(),
{
    if rows.len() == 0 {
        Seq::empty()
    } else {
        listing(rows.drop_last()) + listing_line(rows.last())
    }
}

pub open spec fn projections(rows: Seq<Json>, fields: Seq<char>) -> Seq<JsonView>
    decreases rows.len(),
{
    if rows.len() == 0 {
        Seq::empty()
    } else {
        projections(rows.drop_last(), fields).push(projection(rows.last(), fields))
    }
}

fn find_note(notes: &Vec<Json>, id: &str) -> (r: Option<usize>)
    ensures
        match r {
            Some(i) => note_index(notes@, id@, 0) == Some(i as int) && i < notes@.len(),
            None => note_index(notes@, id@, 0) is None,
        },
{
    let mut i: usize = 0;
    while i < notes.len()
        invariant
            i <= notes@.len(),
            note_index(notes@, id@, 0) == note_index(notes@, id@, i as int),
        decreases notes.len() - i,
    {
        let nid = member(&notes[i], "id");
        if crate::models::same_str(nid.as_str(), id) {
            return Some(i);
        }
        i += 1;
    }
    None
}

pub open spec fn locked_message() -> Seq<char> {
    "Note is locked; content is not accessible"@
}

pub open spec fn not_found_message(id: Seq<char>) -> Seq<char> {
    "Note "@ + id + " not found"@
}

/// The `search` command.
pub open spec fn search_view(args: ArgsView, notes: Seq<Json>) -> OutcomeView {
    let query = match option_get(args.1, "query"@) {
        Some(q) => q,
        None => if args.0.len() > 0 {
            args.0[0]
        } else {
            Seq::empty()
        },
    };
    let rows = hits(notes, query);
    if args.2.contains("count"@) {
        ok_view(dec(rows.len()) + "\n"@)
    } else if option_get(args.1, "format"@) != Some("json"@) {
        ok_view(listing(rows))
    } else {
        let fields = match option_get(args.1, "fields"@) {
            Some(f) => f,
            None => "id,title,tags,length,matches"@,
        };
        (PrintedView::Compact(JsonView::Array(projections(rows, fields))), silent(), 0)
    }
}

/// The `cat` command.
pub open spec fn cat_view(args: ArgsView, notes: Seq<Json>) -> OutcomeView {
    if args.0.len() == 0 {
        usage_view("the following arguments are required: note_id"@)
    } else {
        let id = args.0[0];
        let json_out = option_get(args.1, "format"@) == Some("json"@);
        match note_index(notes, id, 0) {
            None => if json_out {
                fail_json_view("not_found"@, not_found_message(id))
            } else {
                fail_text_view(not_found_message(id))
            },
            Some(p) => if note_locked(notes[p]) {
                if json_out {
                    fail_json_view("locked"@, locked_message())
                } else {
                    fail_text_view(locked_message())
                }
            } else {
                let content = member_text(notes[p], "content"@);
                if json_out {
                    (PrintedView::Compact(JsonView::Object(seq![
                        ("content"@, JsonView::Str(content)),
                        ("hash"@, JsonView::Str(hex_lower(sha1(vstd::utf8::encode_utf8(content))))),
                    ])), silent(), 0)
                } else {
                    ok_view(content)
                }
            },
        }
    }
}

fn search(args: &Args, notes: &Vec<Json>) -> (o: Outcome)
    ensures
        o.view() == search_view(args.view(), notes@),
{
    let query: String = match args.opt("query") {
        Some(q) => string_of(chars_of(q).as_slice()),
        None => if args.positional.len() > 0 {
            args.positional[0].clone()
        } else {
            String::new()
        },
    };
    let mut rows: Vec<&Json> = Vec::new();
    let mut i: usize = 0;
    while i < notes.len()
        invariant
            i <= notes@.len(),
            rows@.map_values(|r: &Json| *r) == hits(notes@.take(i as int), query@),
        decreases notes.len() - i,
    {
        proof {
            assert(notes@.take(i + 1).drop_last() =~= notes@.take(i as int));
        }
        if matches(&notes[i], query.as_str()) {
            let ghost before = rows@.map_values(|r: &Json| *r);
            rows.push(&notes[i]);
            assert(rows@.map_values(|r: &Json| *r) =~= before.push(notes@[i as int]));
        }
        i += 1;
    }
    assert(notes@.take(notes@.len() as int) =~= notes@);
    let ghost hs = hits(notes@, query@);
    if args.flag("count") {
        let mut v = decimal(rows.len() as u64);
        v.push('\n');
        proof {
            reveal_strlit("\n");
            assert(v@ =~= dec(hs.len()) + "\n"@);
        }
        return ok(string_of(v.as_slice()));
    }
    proof {
        reveal_strlit("json");
    }
    let json_out = match args.opt("format") {
        Some(f) => word(chars_of(f).as_slice(), "json"),
        None => false,
    };
    if !json_out {
        let mut out: Vec<char> = Vec::new();
        let mut k: usize = 0;
        while k < rows.len()
            invariant
                k <= rows@.len(),
                rows@.map_values(|r: &Json| *r) == hs,
                out@ == listing(hs.take(k as int)),
            decreases rows.len() - k,
        {
            let n = rows[k];
            let ts = tags(n);
            push_str(&mut out, member(n, "id").as_str());
            out.push('\t');
            push_str(&mut out, member(n, "title").as_str());
            out.push('\t');
            let joined = crate::text::join_strings(ts.as_slice(), ",");
            push_str(&mut out, joined.as_str());
            out.push('\n');
            proof {
                reveal_strlit("\t");
                reveal_strlit("\n");
                assert(hs.take(k + 1).drop_last() =~= hs.take(k as int));
                assert(hs[k as int] == *n);
                assert(out@ =~= listing(hs.take(k + 1)));
            }
            k += 1;
        }
        assert(hs.take(rows@.len() as int) =~= hs);
        return ok(string_of(out.as_slice()));
    }
    let fields: String = match args.opt("fields") {
        Some(f) => string_of(chars_of(f).as_slice()),
        None => string_of(chars_of("id,title,tags,length,matches").as_slice()),
    };
    let mut items: Vec<Json> = Vec::new();
    let mut k: usize = 0;
    while k < rows.len()
        invariant
            k <= rows@.len(),
            rows@.map_values(|r: &Json| *r) == hs,
            crate::json::jv_items(items@) == projections(hs.take(k as int), fields@),
        decreases rows.len() - k,
    {
        let p = project(rows[k], fields.as_str());
        proof {
            lemma_jv_items_push(items@, p);
            assert(hs.take(k + 1).drop_last() =~= hs.take(k as int));
            assert(hs[k as int] == *rows@[k as int]);
        }
        items.push(p);
        k += 1;
    }
    assert(hs.take(rows@.len() as int) =~= hs);
    Outcome { stdout: Printed::Compact(Json::array(items)), stderr: Printed::Text(String::new()), code: 0 }
}

fn cat(args: &Args, notes: &Vec<Json>) -> (o: Outcome)
    ensures
        o.view() == cat_view(args.view(), notes@),
{
    if args.positional.len() == 0 {
        return usage("the following arguments are required: note_id");
    }
    let id = &args.positional[0];
    proof {
        reveal_strlit("json");
    }
    let json_out = match args.opt("format") {
        Some(f) => word(chars_of(f).as_slice(), "json"),
        None => false,
    };
    let pos = match find_note(notes, id.as_str()) {
        None => {
            let mut m: Vec<char> = Vec::new();
            push_str(&mut m, "Note ");
            push_str(&mut m, id.as_str());
            push_str(&mut m, " not found");
            let msg = string_of(m.as_slice());
            return if json_out {
                fail_json("not_found", msg.as_str())
            } else {
                fail_text(msg.as_str())
            };
        },
        Some(p) => p,
    };
    let note = &notes[pos];
    if locked(note) {
        return if json_out {
            fail_json("locked", "Note is locked; content is not accessible")
        } else {
            fail_text("Note is locked; content is not accessible")
        };
    }
    let content = member(note, "content");
    if json_out {
        let ghost cv = content@;
        let bytes = content.as_str().as_bytes();
        assert(bytes@ == vstd::utf8::encode_utf8(cv));
        let digest = crate::digest::sha1_digest(bytes);
        let hex = crate::digest::to_hex_lower(digest.as_slice());
        let mut es: Vec<(String, Json)> = Vec::new();
        let e1 = (string_of(chars_of("content").as_slice()), Json::Str(content));
        proof {
            lemma_jv_entries_push(es@, e1);
        }
        es.push(e1);
        let e2 = (string_of(chars_of("hash").as_slice()), Json::Str(string_of(hex.as_slice())));
        proof {
            lemma_jv_entries_push(es@, e2);
        }
        es.push(e2);
        assert(crate::json::jv_entries(es@) =~~= seq![
            ("content"@, JsonView::Str(cv)),
            ("hash"@, JsonView::Str(hex_lower(sha1(vstd::utf8::encode_utf8(cv))))),
        ]);
        let doc = Json::object(es);
        return Outcome { stdout: Printed::Compact(doc), stderr: Printed::Text(String::new()), code: 0 };
    }
    ok(content)
}

/// The stamp an edit leaves on a note.
pub open spec fn edit_stamp() -> Seq<char> {
    "2026-09-03T12:00:00Z"@
}

/// A note after an edit: its content replaced and its modification stamped.
pub open spec fn note_edited(note: Json, content: Seq<char>) -> JsonView {
    JsonView::Object(entries_set(entries_set(entries_of(note), "content"@, JsonView::Str(content)), "modified"@, JsonView::Str(edit_stamp())))
}

/// The state after note `p` was edited.
pub open spec fn state_edited(state: Json, p: int, content: Seq<char>) -> JsonView {
    JsonView::Object(entries_set(entries_of(state), "notes"@, JsonView::Array(
        crate::json::jv_items(notes_of(state)).update(p, note_edited(notes_of(state)[p], content)),
    )))
}

/// The `edit` command.
pub open spec fn edit_view(args: ArgsView, state: Json) -> StepView {
    let notes = notes_of(state);
    if args.0.len() == 0 {
        StepView::Finish(usage_view("the following arguments are required: note_id"@))
    } else {
        let id = args.0[0];
        match (option_get(args.1, "find"@), option_get(args.1, "replace"@)) {
            (Some(find), Some(replace)) => match note_index(notes, id, 0) {
                None => StepView::Finish(fail_text_view(not_found_message(id))),
                Some(p) => if note_locked(notes[p]) {
                    StepView::Finish(fail_text_view(locked_message()))
                } else {
                    let content = member_text(notes[p], "content"@);
                    let span = match option_get(args.1, "section"@) {
                        Some(section) => section_chars_of(content, unescaped(section)),
                        None => Some((0int, content.len() as int)),
                    };
                    match span {
                        None => StepView::Finish(fail_text_view("Section not found: "@ + option_get(args.1, "section"@).unwrap())),
                        Some((lo, hi)) => {
                            let ft = unescaped(find);
                            let region = content.subrange(lo, hi);
                            let count = match_count(region, ft);
                            if count == 0 {
                                StepView::Finish(fail_text_view("Text not found: "@ + find))
                            } else if count > 1 {
                                StepView::Finish(fail_text_view("Text matches "@ + dec(count) + " times; pass --all or a longer --find"@))
                            } else {
                                let edited = content.take(lo) + replace_first(region, ft, unescaped(replace)) + content.skip(hi);
                                StepView::Save(state_edited(state, p, edited), ok_view(Seq::empty()))
                            }
                        },
                    }
                },
            },
            _ => StepView::Finish(usage_view("the following arguments are required: --find, --replace"@)),
        }
    }
}

/// A note may be written to: an object, or null (which becomes one).
pub open spec fn writable(note: Json) -> bool {
    note is Object || note is Null
}

/// The note an edit names, if there is one, may be written to.
pub open spec fn edit_writable(args: ArgsView, state: Json) -> bool {
    args.0.len() > 0 ==> match note_index(notes_of(state), args.0[0], 0) {
        Some(p) => writable(notes_of(state)[p]),
        None => true,
    }
}

fn edited_note(note: &Json, content: String) -> (r: Json)
    requires
        writable(*note),
    ensures
        jv(r) == note_edited(*note, content@),
{
    let mut es: Vec<(String, Json)> = match note {
        Json::Object(es, _) => {
            let c = note.copy();
            match c {
                Json::Object(ces, _) => ces,
                _ => Vec::new(),
            }
        },
        _ => Vec::new(),
    };
    assert(crate::json::jv_entries(es@) == entries_of(*note)) by {
        if let Json::Object(_, _) = *note {
        } else {
            assert(crate::json::jv_entries(es@) =~= Seq::<(Seq<char>, JsonView)>::empty());
        }
    }
    crate::json::set_entry(&mut es, "content", Json::Str(content));
    crate::json::set_entry(&mut es, "modified", Json::text("2026-09-03T12:00:00Z"));
    Json::object(es)
}

fn state_with_note(state: Json, p: usize, note: Json) -> (r: Json)
    requires
        p < notes_of(state).len(),
    ensures
        jv(r) == JsonView::Object(entries_set(entries_of(state), "notes"@, JsonView::Array(
            crate::json::jv_items(notes_of(state)).update(p as int, jv(note)),
        ))),
{
    match state {
        Json::Object(mut es, text) => {
            let mut items = match crate::json::entries_get(&es, "notes") {
                Some(Json::Array(items, _)) => copy_items(items),
                _ => Vec::new(),
            };
            let ghost old_items = items@;
            let ghost nv = note;
            items.set(p, note);
            proof {
                crate::json::lemma_jv_items_update(old_items, p as int, nv);
            }
            crate::json::set_entry(&mut es, "notes", Json::array(items));
            Json::Object(es, text)
        },
        _ => Json::Null,
    }
}

fn text_message2(a: &str, b: &str) -> (r: String)
    ensures
        r@ == a@ + b@,
{
    let mut v: Vec<char> = Vec::new();
    push_str(&mut v, a);
    push_str(&mut v, b);
    string_of(v.as_slice())
}

fn text_message(a: &str, b: &str, c: &str) -> (r: String)
    ensures
        r@ == a@ + b@ + c@,
{
    let mut v: Vec<char> = Vec::new();
    push_str(&mut v, a);
    push_str(&mut v, b);
    push_str(&mut v, c);
    string_of(v.as_slice())
}

fn edit(args: &Args, state: Json) -> (r: Step)
    requires
        edit_writable(args.view(), state),
    ensures
        r.view() == edit_view(args.view(), state),
{
    if args.positional.len() == 0 {
        return Step::Finish(usage("the following arguments are required: note_id"));
    }
    let id = &args.positional[0];
    let (find, replace) = match (args.opt("find"), args.opt("replace")) {
        (Some(f), Some(r)) => (f, r),
        _ => {
            return Step::Finish(usage("the following arguments are required: --find, --replace"));
        },
    };
    let empty: Vec<Json> = Vec::new();
    let notes: &Vec<Json> = match state.get("notes") {
        Some(Json::Array(items, _)) => items,
        _ => &empty,
    };
    assert(notes@ == notes_of(state));
    let pos = match find_note(notes, id.as_str()) {
        None => {
            return Step::Finish(fail_text(text_message("Note ", id.as_str(), " not found").as_str()));
        },
        Some(p) => p,
    };
    if locked(&notes[pos]) {
        return Step::Finish(fail_text("Note is locked; content is not accessible"));
    }
    let content = member(&notes[pos], "content");
    let cv = chars_of(content.as_str());
    let (lo, hi) = match args.opt("section") {
        Some(section) => {
            let address = unescape(section);
            match section_chars(cv.as_slice(), chars_of(address.as_str()).as_slice()) {
                Some(span) => span,
                None => {
                    return Step::Finish(fail_text(text_message2("Section not found: ", section).as_str()));
                },
            }
        },
        None => (0, cv.len()),
    };
    let find_text = unescape(find);
    let replace_text = unescape(replace);
    let fv = chars_of(find_text.as_str());
    let region = slice_chars(cv.as_slice(), lo, hi);
    let count = count_matches(region.as_slice(), fv.as_slice());
    if count == 0 {
        return Step::Finish(fail_text(text_message2("Text not found: ", find).as_str()));
    }
    if count > 1 {
        let mut m: Vec<char> = Vec::new();
        push_str(&mut m, "Text matches ");
        let d = crate::text::decimal_wide(count);
        crate::text::push_all(&mut m, d.as_slice());
        push_str(&mut m, " times; pass --all or a longer --find");
        return Step::Finish(fail_text(string_of(m.as_slice()).as_str()));
    }
    let replaced = replace_first_chars(region.as_slice(), fv.as_slice(), chars_of(replace_text.as_str()).as_slice());
    let mut edited = slice_chars(cv.as_slice(), 0, lo);
    crate::text::push_all(&mut edited, replaced.as_slice());
    let tail = slice_chars(cv.as_slice(), hi, cv.len());
    crate::text::push_all(&mut edited, tail.as_slice());
    let new_content = string_of(edited.as_slice());
    let note = edited_note(&notes[pos], new_content);
    let ghost sv = edit_view(args.view(), state);
    let new_state = state_with_note(state, pos, note);
    proof {
        reveal_strlit("");
        assert(edited@ =~= cv@.take(lo as int) + replace_first(cv@.subrange(lo as int, hi as int), fv@, replace_text@) + cv@.skip(hi as int));
    }
    Step::Save { state: new_state, then: ok(String::new()) }
}

/// The `app open` command: the real command foregrounds Bear; the fake
/// records the request so tests can see it happened.
pub open spec fn app_view(args: ArgsView, state: Json) -> StepView {
    if args.0.len() == 0 || args.0[0] != "open"@ {
        StepView::Finish(usage_view("argument app_command: invalid choice"@))
    } else if args.0.len() < 2 {
        StepView::Finish(usage_view("the following arguments are required: note_id"@))
    } else {
        let id = args.0[1];
        match note_index(notes_of(state), id, 0) {
            None => StepView::Finish(fail_text_view(not_found_message(id))),
            Some(_) => {
                let header = match option_get(args.1, "header"@) {
                    Some(h) => h,
                    None => Seq::empty(),
                };
                let record = JsonView::Object(seq![("id"@, JsonView::Str(id)), ("header"@, JsonView::Str(header))]);
                let opened = match json_get(state, "opened"@) {
                    Some(Json::Array(items, _)) => JsonView::Array(crate::json::jv_items(items@).push(record)),
                    _ => JsonView::Array(seq![record]),
                };
                StepView::Save(JsonView::Object(entries_set(entries_of(state), "opened"@, opened)), ok_view(Seq::empty()))
            },
        }
    }
}

fn app(args: &Args, state: Json) -> (r: Step)
    ensures
        r.view() == app_view(args.view(), state),
{
    proof {
        reveal_strlit("open");
    }
    if args.positional.len() == 0 || !crate::models::same_str(args.positional[0].as_str(), "open") {
        return Step::Finish(usage("argument app_command: invalid choice"));
    }
    if args.positional.len() < 2 {
        return Step::Finish(usage("the following arguments are required: note_id"));
    }
    let id = &args.positional[1];
    let empty: Vec<Json> = Vec::new();
    let found = match state.get("notes") {
        Some(Json::Array(items, _)) => find_note(items, id.as_str()),
        _ => find_note(&empty, id.as_str()),
    };
    if found.is_none() {
        return Step::Finish(fail_text(text_message("Note ", id.as_str(), " not found").as_str()));
    }
    let header: String = match args.opt("header") {
        Some(h) => string_of(chars_of(h).as_slice()),
        None => String::new(),
    };
    let mut rec: Vec<(String, Json)> = Vec::new();
    let e1 = (string_of(chars_of("id").as_slice()), Json::Str(id.clone()));
    proof {
        lemma_jv_entries_push(rec@, e1);
    }
    rec.push(e1);
    let ghost hv = header@;
    let e2 = (string_of(chars_of("header").as_slice()), Json::Str(header));
    proof {
        lemma_jv_entries_push(rec@, e2);
    }
    rec.push(e2);
    assert(crate::json::jv_entries(rec@) =~= seq![("id"@, JsonView::Str(id@)), ("header"@, JsonView::Str(hv))]);
    let record = Json::object(rec);
    let opened: Json = match state.get("opened") {
        Some(Json::Array(items, _)) => {
            let mut all = copy_items(items);
            proof {
                lemma_jv_items_push(all@, record);
            }
            all.push(record);
            Json::array(all)
        },
        _ => {
            let mut one: Vec<Json> = Vec::new();
            proof {
                lemma_jv_items_push(one@, record);
            }
            one.push(record);
            Json::array(one)
        },
    };
    let new_state = match state {
        Json::Object(mut es, text) => {
            crate::json::set_entry(&mut es, "opened", opened);
            Json::Object(es, text)
        },
        _ => Json::Null,
    };
    proof {
        reveal_strlit("");
    }
    Step::Save { state: new_state, then: ok(String::new()) }
}

/// The options of bearcli's commands that take a value.
pub open spec fn bear_value_options() -> Seq<Seq<char>> {
    seq!["query"@, "format"@, "fields"@, "section"@, "find"@, "replace"@, "header"@]
}

/// The command line parsed, or the usage error it gives.
pub open spec fn bear_arguments(argv: Seq<Seq<char>>) -> Result<ArgsView, OutcomeView> {
    if argv.len() == 0 {
        Err(usage_view("the following arguments are required: command"@))
    } else {
        match parse_from(argv.drop_first(), bear_value_options(), Seq::empty(), 0, (Seq::empty(), Seq::empty(), Seq::empty()), false) {
            Ok(a) => Ok(a),
            Err(e) => Err(usage_view(e)),
        }
    }
}

/// What a run of the fake does with `argv` (without the program name) and
/// the state as loaded (or the error loading it).
pub open spec fn bear_run(argv: Seq<Seq<char>>, state: Result<Json, String>) -> StepView {
    match bear_arguments(argv) {
        Err(o) => StepView::Finish(o),
        Ok(args) => match state {
            Err(e) => StepView::Finish(fail_text_view(e@)),
            Ok(st) => {
                let command = argv[0];
                if command == "search"@ {
                    StepView::Finish(search_view(args, notes_of(st)))
                } else if command == "cat"@ {
                    StepView::Finish(cat_view(args, notes_of(st)))
                } else if command == "edit"@ {
                    edit_view(args, st)
                } else if command == "app"@ {
                    app_view(args, st)
                } else {
                    StepView::Finish(usage_view("argument command: invalid choice: '"@ + command + "'"@))
                }
            },
        },
    }
}

fn value_options() -> (v: Vec<&'static str>)
    ensures
        super::args::str_views(v@) == bear_value_options(),
{
    let v = vec!["query", "format", "fields", "section", "find", "replace", "header"];
    assert(super::args::str_views(v@) =~= bear_value_options());
    v
}

/// Parse the command line; the usage error when it does not parse. The
/// state file is read only after this succeeds.
pub fn arguments(argv: &[String]) -> (r: Result<Args, Outcome>)
    ensures
        match r {
            Ok(a) => bear_arguments(string_views(argv@)) == Ok::<ArgsView, OutcomeView>(a.view()),
            Err(o) => bear_arguments(string_views(argv@)) == Err::<ArgsView, OutcomeView>(o.view()),
        },
{
    if argv.len() == 0 {
        return Err(usage("the following arguments are required: command"));
    }
    let rest = super::args::tail_of(argv);
    assert(string_views(rest@) =~= string_views(argv@).drop_first());
    let takes = value_options();
    let aliases: Vec<(&str, &str)> = Vec::new();
    assert(super::args::alias_views(aliases@) =~= Seq::<(Seq<char>, Seq<char>)>::empty());
    match Args::parse(rest.as_slice(), takes.as_slice(), aliases.as_slice()) {
        Ok(a) => Ok(a),
        Err(e) => Err(usage(e.as_str())),
    }
}

/// What a run needs to finish without a fault: an edit names no note that
/// cannot hold fields.
pub open spec fn bear_defined(argv: Seq<Seq<char>>, state: Result<Json, String>) -> bool {
    match bear_arguments(argv) {
        Ok(args) => match state {
            Ok(st) => argv[0] == "edit"@ ==> edit_writable(args, st),
            Err(_) => true,
        },
        Err(_) => true,
    }
}

/// Whether the note an edit names, if any, may be written to.
pub fn edit_is_writable(args: &Args, state: &Json) -> (r: bool)
    ensures
        r == edit_writable(args.view(), *state),
{
    if args.positional.len() == 0 {
        return true;
    }
    let empty: Vec<Json> = Vec::new();
    let notes: &Vec<Json> = match state.get("notes") {
        Some(Json::Array(items, _)) => items,
        _ => &empty,
    };
    assert(notes@ == notes_of(*state));
    assert(args.positional@[0]@ == args.view().0[0]);
    match find_note(notes, args.positional[0].as_str()) {
        Some(p) => match &notes[p] {
            Json::Object(_, _) => true,
            Json::Null => true,
            _ => false,
        },
        None => true,
    }
}

/// Run the fake with `argv` (without the program name) against the state
/// as loaded, or the message of the error loading it.
pub fn run_args(argv: &[String], state: Result<Json, String>) -> (r: Step)
    requires
        bear_defined(string_views(argv@), state),
    ensures
        r.view() == bear_run(string_views(argv@), state),
{
    let args = match arguments(argv) {
        Ok(a) => a,
        Err(o) => {
            return Step::Finish(o);
        },
    };
    let st = match state {
        Ok(st) => st,
        Err(e) => {
            return Step::Finish(fail_text(e.as_str()));
        },
    };
    let command = argv[0].as_str();
    assert(command@ == string_views(argv@)[0]);
    proof {
        reveal_strlit("search");
        reveal_strlit("cat");
        reveal_strlit("edit");
        reveal_strlit("app");
    }
    if crate::models::same_str(command, "search") || crate::models::same_str(command, "cat") {
        let empty: Vec<Json> = Vec::new();
        let notes: &Vec<Json> = match st.get("notes") {
            Some(Json::Array(items, _)) => items,
            _ => &empty,
        };
        assert(notes@ == notes_of(st));
        if crate::models::same_str(command, "search") {
            Step::Finish(search(&args, notes))
        } else {
            Step::Finish(cat(&args, notes))
        }
    } else if crate::models::same_str(command, "edit") {
        edit(&args, st)
    } else if crate::models::same_str(command, "app") {
        app(&args, st)
    } else {
        Step::Finish(usage(text_message("argument command: invalid choice: '", command, "'").as_str()))
    }
}

/// A sample note as plain values.
pub open spec fn note_view(id: Seq<char>, title: Seq<char>, tags: Seq<JsonView>, locked: bool, created: Seq<char>, modified: Seq<char>, content: Seq<char>) -> JsonView {
    JsonView::Object(seq![
        ("id"@, JsonView::Str(id)),
        ("title"@, JsonView::Str(title)),
        ("tags"@, JsonView::Array(tags)),
        ("locked"@, JsonView::Bool(locked)),
        ("created"@, JsonView::Str(created)),
        ("modified"@, JsonView::Str(modified)),
        ("content"@, JsonView::Str(content)),
    ])
}

/// The sample notes a fresh state holds.
pub open spec fn bear_seed() -> JsonView {
    JsonView::Object(seq![("notes"@, JsonView::Array(seq![
        note_view("NOTE-PLANNING"@, "Sprint Planning"@, seq![JsonView::Str("#work"@), JsonView::Str("#work/sprint"@)], false, "2026-08-01T09:00:00Z"@, "2026-09-01T15:30:00Z"@, "# Sprint Planning\n#work/sprint\n\n## Tasks\n- [x] book the retro room\n- [ ] write the release notes\n- [ ] ask Priya about the API deprecation\n  - [ ] confirm the sunset date\n\n## Notes\nVelocity is holding steady.\n"@),
        note_view("NOTE-GARDEN"@, "Garden Plan"@, seq![JsonView::Str("#home"@), JsonView::Str("#home/garden"@)], false, "2026-07-12T09:00:00Z"@, "2026-08-28T10:00:00Z"@, "# Garden Plan\n#home/garden\n\n- [ ] order bulbs for the front bed\n- [x] mulch the roses\n\n## Next spring\n- [ ] move the hydrangea\n```\n- [ ] this is inside a code block\n```\n"@),
        note_view("NOTE-READING"@, "Reading Queue"@, seq![JsonView::Str("#home"@)], false, "2026-06-01T09:00:00Z"@, "2026-08-15T12:00:00Z"@, "# Reading Queue\n#home\n\nNo tasks here, just titles.\n"@),
        note_view("NOTE-LOCKED"@, "Private Journal"@, seq![JsonView::Str("#home"@)], true, "2026-05-01T09:00:00Z"@, "2026-08-01T12:00:00Z"@, "# Private Journal\n#home\n\n- [ ] hidden behind the lock\n"@),
    ]))])
}

fn note_json(id: &str, title: &str, tags: &[&str], locked: bool, created: &str, modified: &str, content: &str) -> (r: Json)
    ensures
        jv(r) == note_view(id@, title@, tags@.map_values(|t: &str| JsonView::Str(t@)), locked, created@, modified@, content@),
{
    let mut ts: Vec<Json> = Vec::new();
    let mut i: usize = 0;
    while i < tags.len()
        invariant
            i <= tags@.len(),
            crate::json::jv_items(ts@) == tags@.take(i as int).map_values(|t: &str| JsonView::Str(t@)),
        decreases tags.len() - i,
    {
        let t = Json::text(tags[i]);
        proof {
            lemma_jv_items_push(ts@, t);
        }
        ts.push(t);
        i += 1;
        assert(tags@.take(i as int).map_values(|t: &str| JsonView::Str(t@)) =~= tags@.take(i - 1).map_values(|t: &str| JsonView::Str(t@)).push(JsonView::Str(tags@[i - 1]@)));
    }
    assert(tags@.take(tags@.len() as int) =~= tags@);
    let mut es: Vec<(String, Json)> = Vec::new();
    let e = (string_of(chars_of("id").as_slice()), Json::text(id));
    proof { lemma_jv_entries_push(es@, e); }
    es.push(e);
    let e = (string_of(chars_of("title").as_slice()), Json::text(title));
    proof { lemma_jv_entries_push(es@, e); }
    es.push(e);
    let e = (string_of(chars_of("tags").as_slice()), Json::array(ts));
    proof { lemma_jv_entries_push(es@, e); }
    es.push(e);
    let e = (string_of(chars_of("locked").as_slice()), Json::Bool(locked));
    proof { lemma_jv_entries_push(es@, e); }
    es.push(e);
    let e = (string_of(chars_of("created").as_slice()), Json::text(created));
    proof { lemma_jv_entries_push(es@, e); }
    es.push(e);
    let e = (string_of(chars_of("modified").as_slice()), Json::text(modified));
    proof { lemma_jv_entries_push(es@, e); }
    es.push(e);
    let e = (string_of(chars_of("content").as_slice()), Json::text(content));
    proof { lemma_jv_entries_push(es@, e); }
    es.push(e);
    assert(crate::json::jv_entries(es@) =~~= seq![
        ("id"@, JsonView::Str(id@)),
        ("title"@, JsonView::Str(title@)),
        ("tags"@, JsonView::Array(tags@.map_values(|t: &str| JsonView::Str(t@)))),
        ("locked"@, JsonView::Bool(locked)),
        ("created"@, JsonView::Str(created@)),
        ("modified"@, JsonView::Str(modified@)),
        ("content"@, JsonView::Str(content@)),
    ]);
    Json::object(es)
}

/// The state a first run starts from: four sample notes, one locked.
pub fn seed_state() -> (r: Json)
    ensures
        jv(r) == bear_seed(),
{
    let mut notes: Vec<Json> = Vec::new();
    let tg = vec!["#work", "#work/sprint"];
    assert(tg@.map_values(|t: &str| JsonView::Str(t@)) =~= seq![JsonView::Str("#work"@), JsonView::Str("#work/sprint"@)]);
    let n = note_json("NOTE-PLANNING", "Sprint Planning", tg.as_slice(), false, "2026-08-01T09:00:00Z", "2026-09-01T15:30:00Z", "# Sprint Planning\n#work/sprint\n\n## Tasks\n- [x] book the retro room\n- [ ] write the release notes\n- [ ] ask Priya about the API deprecation\n  - [ ] confirm the sunset date\n\n## Notes\nVelocity is holding steady.\n");
    proof {
        lemma_jv_items_push(notes@, n);
    }
    assert(jv(n) =~~= note_view("NOTE-PLANNING"@, "Sprint Planning"@, seq![JsonView::Str("#work"@), JsonView::Str("#work/sprint"@)], false, "2026-08-01T09:00:00Z"@, "2026-09-01T15:30:00Z"@, "# Sprint Planning\n#work/sprint\n\n## Tasks\n- [x] book the retro room\n- [ ] write the release notes\n- [ ] ask Priya about the API deprecation\n  - [ ] confirm the sunset date\n\n## Notes\nVelocity is holding steady.\n"@));
    notes.push(n);
    let tg = vec!["#home", "#home/garden"];
    assert(tg@.map_values(|t: &str| JsonView::Str(t@)) =~= seq![JsonView::Str("#home"@), JsonView::Str("#home/garden"@)]);
    let n = note_json("NOTE-GARDEN", "Garden Plan", tg.as_slice(), false, "2026-07-12T09:00:00Z", "2026-08-28T10:00:00Z", "# Garden Plan\n#home/garden\n\n- [ ] order bulbs for the front bed\n- [x] mulch the roses\n\n## Next spring\n- [ ] move the hydrangea\n```\n- [ ] this is inside a code block\n```\n");
    proof {
        lemma_jv_items_push(notes@, n);
    }
    assert(jv(n) =~~= note_view("NOTE-GARDEN"@, "Garden Plan"@, seq![JsonView::Str("#home"@), JsonView::Str("#home/garden"@)], false, "2026-07-12T09:00:00Z"@, "2026-08-28T10:00:00Z"@, "# Garden Plan\n#home/garden\n\n- [ ] order bulbs for the front bed\n- [x] mulch the roses\n\n## Next spring\n- [ ] move the hydrangea\n```\n- [ ] this is inside a code block\n```\n"@));
    notes.push(n);
    let tg = vec!["#home"];
    assert(tg@.map_values(|t: &str| JsonView::Str(t@)) =~= seq![JsonView::Str("#home"@)]);
    let n = note_json("NOTE-READING", "Reading Queue", tg.as_slice(), false, "2026-06-01T09:00:00Z", "2026-08-15T12:00:00Z", "# Reading Queue\n#home\n\nNo tasks here, just titles.\n");
    proof {
        lemma_jv_items_push(notes@, n);
    }
    assert(jv(n) =~~= note_view("NOTE-READING"@, "Reading Queue"@, seq![JsonView::Str("#home"@)], false, "2026-06-01T09:00:00Z"@, "2026-08-15T12:00:00Z"@, "# Reading Queue\n#home\n\nNo tasks here, just titles.\n"@));
    notes.push(n);
    let tg = vec!["#home"];
    assert(tg@.map_values(|t: &str| JsonView::Str(t@)) =~= seq![JsonView::Str("#home"@)]);
    let n = note_json("NOTE-LOCKED", "Private Journal", tg.as_slice(), true, "2026-05-01T09:00:00Z", "2026-08-01T12:00:00Z", "# Private Journal\n#home\n\n- [ ] hidden behind the lock\n");
    proof {
        lemma_jv_items_push(notes@, n);
    }
    assert(jv(n) =~~= note_view("NOTE-LOCKED"@, "Private Journal"@, seq![JsonView::Str("#home"@)], true, "2026-05-01T09:00:00Z"@, "2026-08-01T12:00:00Z"@, "# Private Journal\n#home\n\n- [ ] hidden behind the lock\n"@));
    notes.push(n);
    assert(crate::json::jv_items(notes@) =~~= seq![
        note_view("NOTE-PLANNING"@, "Sprint Planning"@, seq![JsonView::Str("#work"@), JsonView::Str("#work/sprint"@)], false, "2026-08-01T09:00:00Z"@, "2026-09-01T15:30:00Z"@, "# Sprint Planning\n#work/sprint\n\n## Tasks\n- [x] book the retro room\n- [ ] write the release notes\n- [ ] ask Priya about the API deprecation\n  - [ ] confirm the sunset date\n\n## Notes\nVelocity is holding steady.\n"@),
        note_view("NOTE-GARDEN"@, "Garden Plan"@, seq![JsonView::Str("#home"@), JsonView::Str("#home/garden"@)], false, "2026-07-12T09:00:00Z"@, "2026-08-28T10:00:00Z"@, "# Garden Plan\n#home/garden\n\n- [ ] order bulbs for the front bed\n- [x] mulch the roses\n\n## Next spring\n- [ ] move the hydrangea\n```\n- [ ] this is inside a code block\n```\n"@),
        note_view("NOTE-READING"@, "Reading Queue"@, seq![JsonView::Str("#home"@)], false, "2026-06-01T09:00:00Z"@, "2026-08-15T12:00:00Z"@, "# Reading Queue\n#home\n\nNo tasks here, just titles.\n"@),
        note_view("NOTE-LOCKED"@, "Private Journal"@, seq![JsonView::Str("#home"@)], true, "2026-05-01T09:00:00Z"@, "2026-08-01T12:00:00Z"@, "# Private Journal\n#home\n\n- [ ] hidden behind the lock\n"@),
    ]);
    let mut es: Vec<(String, Json)> = Vec::new();
    let e = (string_of(chars_of("notes").as_slice()), Json::array(notes));
    proof { lemma_jv_entries_push(es@, e); }
    es.push(e);
    let r = Json::object(es);
    assert(jv(r) =~~= bear_seed());
    r
}

} // verus!
