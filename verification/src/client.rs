//! The remctl contract: commands, error shapes, and partial-failure warnings.
//!
//! Reads use `--json` (bare arrays on stdout); mutations emit compact status
//! JSON. Errors arrive on stderr as either structured
//! `{"status": "error", "code": ..., "message": ...}` JSON or plain
//! `Error: ...` text; both are normalized into `RemctlError`.

use vstd::prelude::*;

use crate::json::{deref_opt, json_get, Json};
use crate::models::{json_display, json_text, same_str};
use crate::text::{
    chars_of, dec_signed, decimal_signed, lines, lines_of, parse_i64, parse_int, push_all, push_str,
    string_of, trim, trim_chars,
};

verus! {

/// The notes line prefix that marks a reminder as made from a Bear todo.
pub const LINK_SEARCH: &'static str = "bear-todo:";

/// A failed remctl call: what it said, its error code (may be empty), and
/// the exit status.
#[derive(Debug, Clone, PartialEq, Eq)]
pub struct RemctlError {
    pub message: String,
    pub code: String,
    pub exit_code: i32,
}

impl RemctlError {
    pub fn new(message: &str) -> (e: RemctlError)
        ensures
            e.message@ == message@,
            e.code@ == Seq::<char>::empty(),
            e.exit_code == 1,
    {
        RemctlError { message: message.to_owned(), code: String::new(), exit_code: 1 }
    }

    pub fn with_code(message: &str, code: &str) -> (e: RemctlError)
        ensures
            e.message@ == message@,
            e.code@ == code@,
            e.exit_code == 1,
    {
        RemctlError { message: message.to_owned(), code: code.to_owned(), exit_code: 1 }
    }
}

/// A warning item as remctl's callers show it: strings as they are; null,
/// false, "" and 0 dropped; anything else as it prints.
pub open spec fn warning_text(item: Json) -> Option<Seq<char>> {
    match item {
        Json::Null => None,
        Json::Bool(false) => None,
        Json::Str(s) => if s@.len() == 0 {
            None
        } else {
            Some(s@)
        },
        Json::Number(n) => if n.zero {
            None
        } else {
            Some(n.text@)
        },
        _ => Some(json_display(item)),
    }
}

/// The kept warning texts of `items`, in order.
pub open spec fn warning_texts(items: Seq<Json>) -> Seq<Seq<char>>
    decreases items.len(),
{
    if items.len() == 0 {
        Seq::empty()
    } else {
        let prev = warning_texts(items.drop_last());
        match warning_text(items.last()) {
            Some(t) => prev.push(t),
            None => prev,
        }
    }
}

/// The warnings of a mutation payload: its `warnings` member, one string or
/// an array of items.
pub open spec fn payload_warnings(result: Option<Json>) -> Seq<Seq<char>> {
    match result {
        Some(Json::Object(..)) => match json_get(result.unwrap(), "warnings"@) {
            Some(Json::Str(s)) => warning_texts(seq![Json::Str(s)]),
            Some(Json::Array(a, _)) => warning_texts(a@),
            _ => Seq::empty(),
        },
        _ => Seq::empty(),
    }
}

fn warning_of(item: &Json) -> (r: Option<String>)
    ensures
        match r {
            Some(t) => warning_text(*item) == Some(t@),
            None => warning_text(*item) is None,
        },
{
    match item {
        Json::Null => None,
        Json::Bool(false) => None,
        Json::Str(s) => if s.as_str().is_empty() {
            None
        } else {
            Some(s.clone())
        },
        Json::Number(n) => if n.zero {
            None
        } else {
            Some(n.text.clone())
        },
        Json::Bool(true) => Some("true".to_owned()),
        Json::Array(_, t) => Some(t.clone()),
        Json::Object(_, t) => Some(t.clone()),
    }
}

fn warnings_from(items: &[Json]) -> (r: Vec<String>)
    ensures
        r@.map_values(|s: String| s@) == warning_texts(items@),
{
    let mut out: Vec<String> = Vec::new();
    let mut i: usize = 0;
    while i < items.len()
        invariant
            i <= items@.len(),
            out@.map_values(|s: String| s@) == warning_texts(items@.take(i as int)),
        decreases items.len() - i,
    {
        proof {
            assert(items@.take(i + 1).drop_last() =~= items@.take(i as int));
        }
        match warning_of(&items[i]) {
            Some(t) => {
                let ghost prev = out@;
                out.push(t);
                assert(out@.map_values(|s: String| s@) =~= prev.map_values(|s: String| s@).push(
                    t@,
                ));
            },
            None => {},
        }
        i += 1;
    }
    assert(items@.take(items@.len() as int) =~= items@);
    out
}

/// Partial-failure warnings from a mutation payload.
///
/// remctl reports a write that mostly succeeded with exit 0 plus a `warnings`
/// array rather than an error: `add --flag` creates the reminder and reports
/// `["flag_not_set: ..."]` when only the separate AppleScript flag write
/// failed. Callers must surface these or the failure is invisible.
pub fn warnings_of(result: Option<&Json>) -> (r: Vec<String>)
    ensures
        r@.map_values(|s: String| s@) == payload_warnings(deref_opt(result)),
{
    let Some(payload) = result else {
        let out: Vec<String> = Vec::new();
        assert(out@.map_values(|s: String| s@) =~= Seq::<Seq<char>>::empty());
        return out;
    };
    if !payload.is_object() {
        let out: Vec<String> = Vec::new();
        assert(out@.map_values(|s: String| s@) =~= Seq::<Seq<char>>::empty());
        return out;
    }
    match payload.get("warnings") {
        Some(Json::Str(s)) => {
            let mut one: Vec<Json> = Vec::new();
            one.push(Json::Str(s.clone()));
            assert(one@ =~= seq![Json::Str(*s)]);
            warnings_from(one.as_slice())
        },
        Some(Json::Array(a, _)) => warnings_from(a.as_slice()),
        _ => {
            let out: Vec<String> = Vec::new();
            assert(out@.map_values(|s: String| s@) =~= Seq::<Seq<char>>::empty());
            out
        },
    }
}

/// The (message, code) of a failed call's stderr: the first line holding a
/// `{"status": "error"}` object (message defaulting to `remctl error`),
/// else the first non-blank line, else a fixed message. `parsed[i]` is
/// stderr's line `i`, trimmed, parsed as JSON when it starts with `{`.
pub open spec fn stderr_error(ls: Seq<Seq<char>>, parsed: Seq<Option<Json>>) -> (Seq<char>, Seq<char>)
    decreases ls.len(),
{
    if ls.len() == 0 || parsed.len() == 0 {
        (Seq::empty(), Seq::empty())
    } else {
        match error_object(parsed[0]) {
            Some(e) => e,
            None => stderr_error(ls.drop_first(), parsed.drop_first()),
        }
    }
}

/// A structured error: an object whose `status` is the string `error`.
pub open spec fn error_object(p: Option<Json>) -> Option<(Seq<char>, Seq<char>)> {
    match p {
        Some(o) => if o is Object && (json_get(o, "status"@) matches Some(Json::Str(st)) && st@
            == "error"@) {
            let message = match json_get(o, "message"@) {
                Some(Json::Str(m)) => if m@.len() > 0 {
                    m@
                } else {
                    "remctl error"@
                },
                _ => "remctl error"@,
            };
            let code = match json_get(o, "code"@) {
                Some(Json::Str(c)) => c@,
                _ => Seq::empty(),
            };
            Some((message, code))
        } else {
            None
        },
        None => None,
    }
}

/// Whether some line holds a structured error.
pub open spec fn has_error_object(parsed: Seq<Option<Json>>) -> bool {
    exists|i: int| 0 <= i < parsed.len() && (#[trigger] error_object(parsed[i])) is Some
}

/// The first non-blank line, trimmed.
pub open spec fn first_text_line(ls: Seq<Seq<char>>) -> Option<Seq<char>>
    decreases ls.len(),
{
    if ls.len() == 0 {
        None
    } else if trim(ls[0]).len() > 0 {
        Some(trim(ls[0]))
    } else {
        first_text_line(ls.drop_first())
    }
}

/// What a failed call reports.
pub open spec fn stderr_report(stderr: Seq<char>, parsed: Seq<Option<Json>>) -> (Seq<char>, Seq<char>) {
    if has_error_object(parsed) {
        stderr_error(lines(stderr), parsed)
    } else {
        match first_text_line(lines(stderr)) {
            Some(l) => (l, Seq::empty()),
            None => ("remctl failed with no error output"@, Seq::empty()),
        }
    }
}

fn error_object_exec(p: &Option<Json>) -> (r: Option<(String, String)>)
    ensures
        match r {
            Some(e) => error_object(*p) == Some((e.0@, e.1@)),
            None => error_object(*p) is None,
        },
{
    let Some(o) = p else {
        return None;
    };
    if !o.is_object() {
        return None;
    }
    let status_ok = match o.get("status") {
        Some(Json::Str(st)) => same_str(st.as_str(), "error"),
        _ => false,
    };
    if !status_ok {
        return None;
    }
    let message = match o.get("message") {
        Some(Json::Str(m)) => if m.as_str().is_empty() {
            "remctl error".to_owned()
        } else {
            m.clone()
        },
        _ => "remctl error".to_owned(),
    };
    let code = match o.get("code") {
        Some(Json::Str(c)) => c.clone(),
        _ => String::new(),
    };
    Some((message, code))
}

/// (message, code) from remctl stderr: structured JSON if present, otherwise
/// the first non-empty plain-text line. `parsed` holds each stderr line,
/// trimmed and parsed as JSON when it starts with `{`.
pub fn parse_stderr(stderr: &str, parsed: &Vec<Option<Json>>) -> (r: (String, String))
    requires
        parsed@.len() == lines(stderr@).len(),
    ensures
        (r.0@, r.1@) == stderr_report(stderr@, parsed@),
{
    let mut i: usize = 0;
    while i < parsed.len()
        invariant
            i <= parsed@.len(),
            parsed@.len() == lines(stderr@).len(),
            forall|j: int| 0 <= j < i ==> error_object(#[trigger] parsed@[j]) is None,
        decreases parsed.len() - i,
    {
        if let Some(e) = error_object_exec(&parsed[i]) {
            proof {
                assert(has_error_object(parsed@));
                lemma_stderr_error_at(lines(stderr@), parsed@, i as int);
            }
            return e;
        }
        i += 1;
    }
    let v = chars_of(stderr);
    let ls = lines_of(v.as_slice());
    let ghost all = crate::text::views(ls@);
    let mut k: usize = 0;
    assert(all.skip(0) =~= all);
    while k < ls.len()
        invariant
            k <= ls@.len(),
            all == crate::text::views(ls@),
            all == lines(stderr@),
            !has_error_object(parsed@),
            first_text_line(all) == first_text_line(all.skip(k as int)),
        decreases ls.len() - k,
    {
        let t = trim_chars(ls[k].as_slice());
        proof {
            assert(all.skip(k as int)[0] == ls@[k as int]@);
        }
        if t.len() > 0 {
            return (string_of(t.as_slice()), String::new());
        }
        proof {
            assert(all.skip(k as int).drop_first() =~= all.skip(k + 1));
        }
        k += 1;
    }
    ("remctl failed with no error output".to_owned(), String::new())
}

proof fn lemma_stderr_error_at(ls: Seq<Seq<char>>, parsed: Seq<Option<Json>>, i: int)
    requires
        0 <= i < parsed.len(),
        parsed.len() == ls.len(),
        forall|j: int| 0 <= j < i ==> error_object(#[trigger] parsed[j]) is None,
        error_object(parsed[i]) is Some,
    ensures
        stderr_error(ls, parsed) == error_object(parsed[i]).unwrap(),
    decreases i,
{
    if i > 0 {
        assert(error_object(parsed[0]) is None);
        assert forall|j: int| 0 <= j < i - 1 implies error_object(
            #[trigger] parsed.drop_first()[j],
        ) is None by {
            assert(parsed.drop_first()[j] == parsed[j + 1]);
        }
        lemma_stderr_error_at(ls.drop_first(), parsed.drop_first(), i - 1);
    }
}

/// The id a flag write after a field edit should address: the `id` remctl
/// returned (a number, or a string holding one) when a list move
/// clone-deleted the reminder, else the original.
pub open spec fn flag_target_of(result: Option<Json>, reminder_id: i64) -> int {
    let found = match result {
        Some(r) => match json_get(r, "id"@) {
            Some(Json::Number(n)) => match n.int {
                Some(i) => Some(i as int),
                None => None,
            },
            Some(Json::Str(s)) => parse_int(trim(s@)),
            _ => None,
        },
        None => None,
    };
    match found {
        Some(i) => i,
        None => reminder_id as int,
    }
}

/// The id a flag write after a field edit should address: the `id` remctl
/// returned when a list move clone-deleted the reminder, else the original.
pub fn flag_target(result: Option<&Json>, reminder_id: i64) -> (r: i64)
    ensures
        r == flag_target_of(deref_opt(result), reminder_id),
{
    let found: Option<i64> = match result {
        Some(r) => match r.get("id") {
            Some(Json::Number(n)) => n.int,
            Some(Json::Str(s)) => {
                let v = chars_of(s.as_str());
                let t = trim_chars(v.as_slice());
                parse_i64(t.as_slice())
            },
            _ => None,
        },
        None => None,
    };
    match found {
        Some(i) => i,
        None => reminder_id,
    }
}

/// Which fields an `edit` changes. `None` leaves a field alone; `Some("")`
/// clears it (due) or resets it (priority).
#[derive(Debug, Clone, Default, PartialEq, Eq)]
pub struct EditFields {
    pub title: Option<String>,
    pub notes: Option<String>,
    pub due: Option<String>,
    pub priority: Option<String>,
    pub list_title: Option<String>,
    pub flagged: Option<bool>,
}

impl EditFields {
    /// Nothing changes.
    pub fn is_empty(&self) -> (r: bool)
        ensures
            r == (self.title is None && self.notes is None && self.due is None && self.priority is None
                && self.list_title is None && self.flagged is None),
    {
        self.title.is_none() && self.notes.is_none() && self.due.is_none()
            && self.priority.is_none() && self.list_title.is_none() && self.flagged.is_none()
    }

    /// Whether anything other than the flag changes.
    pub fn has_field_edit(&self) -> (r: bool)
        ensures
            r == (self.title is Some || self.notes is Some || self.due is Some || self.priority is Some
                || self.list_title is Some),
    {
        self.title.is_some() || self.notes.is_some() || self.due.is_some()
            || self.priority.is_some() || self.list_title.is_some()
    }
}

#[derive(Debug, Clone, Default, PartialEq, Eq)]
pub struct AddFields {
    pub title: String,
    pub list_title: String,
    pub notes: String,
    pub due: String,
    pub priority: String,
    pub flagged: bool,
    pub tags: String,
    pub url: String,
}

/// `--name=value`.
pub open spec fn option_arg(name: Seq<char>, value: Seq<char>) -> Seq<char> {
    "--"@ + name + "="@ + value
}

fn option(name: &str, value: &str) -> (r: String)
    ensures
        r@ == option_arg(name@, value@),
{
    let mut v: Vec<char> = Vec::new();
    push_str(&mut v, "--");
    push_str(&mut v, name);
    push_str(&mut v, "=");
    push_str(&mut v, value);
    string_of(v.as_slice())
}

/// `[x]` when `c` holds, else nothing.
pub open spec fn arg_if(c: bool, x: Seq<char>) -> Seq<Seq<char>> {
    if c {
        seq![x]
    } else {
        Seq::empty()
    }
}

/// The arguments of `remctl add` for these fields: each non-empty field as
/// an option (priority only when not `none`), `--flag`, then `--` and the
/// title, so a title starting with `-` is not read as an option.
pub open spec fn add_argv(f: AddFields) -> Seq<Seq<char>> {
    seq!["add"@] + arg_if(f.list_title@.len() > 0, option_arg("list"@, f.list_title@)) + arg_if(
        f.notes@.len() > 0,
        option_arg("notes"@, f.notes@),
    ) + arg_if(f.due@.len() > 0, option_arg("due"@, f.due@)) + arg_if(
        f.priority@.len() > 0 && f.priority@ != "none"@,
        option_arg("priority"@, f.priority@),
    ) + arg_if(f.flagged, "--flag"@) + arg_if(f.tags@.len() > 0, option_arg("tags"@, f.tags@))
        + arg_if(f.url@.len() > 0, option_arg("url"@, f.url@)) + seq!["--"@, f.title@]
}

fn push_arg(out: &mut Vec<String>, c: bool, x: String, ghost_x: Ghost<Seq<char>>)
    requires
        x@ == ghost_x@,
    ensures
        final(out)@.map_values(|s: String| s@) == old(out)@.map_values(|s: String| s@) + arg_if(
            c,
            ghost_x@,
        ),
{
    let ghost prev = out@;
    if c {
        out.push(x);
    }
    assert(out@.map_values(|s: String| s@) =~= prev.map_values(|s: String| s@) + arg_if(
        c,
        ghost_x@,
    ));
}

/// The arguments of `remctl add` for these fields.
pub fn add_args(fields: &AddFields) -> (r: Vec<String>)
    ensures
        r@.map_values(|s: String| s@) == add_argv(*fields),
{
    let mut out: Vec<String> = Vec::new();
    out.push("add".to_owned());
    assert(out@.map_values(|s: String| s@) =~= seq!["add"@]);
    let f = fields;
    push_arg(
        &mut out,
        !f.list_title.as_str().is_empty(),
        option("list", f.list_title.as_str()),
        Ghost(option_arg("list"@, f.list_title@)),
    );
    push_arg(
        &mut out,
        !f.notes.as_str().is_empty(),
        option("notes", f.notes.as_str()),
        Ghost(option_arg("notes"@, f.notes@)),
    );
    push_arg(
        &mut out,
        !f.due.as_str().is_empty(),
        option("due", f.due.as_str()),
        Ghost(option_arg("due"@, f.due@)),
    );
    let keep_priority = !f.priority.as_str().is_empty() && !same_str(f.priority.as_str(), "none");
    push_arg(
        &mut out,
        keep_priority,
        option("priority", f.priority.as_str()),
        Ghost(option_arg("priority"@, f.priority@)),
    );
    push_arg(&mut out, f.flagged, "--flag".to_owned(), Ghost("--flag"@));
    push_arg(
        &mut out,
        !f.tags.as_str().is_empty(),
        option("tags", f.tags.as_str()),
        Ghost(option_arg("tags"@, f.tags@)),
    );
    push_arg(
        &mut out,
        !f.url.as_str().is_empty(),
        option("url", f.url.as_str()),
        Ghost(option_arg("url"@, f.url@)),
    );
    let ghost prev = out@.map_values(|s: String| s@);
    out.push("--".to_owned());
    out.push(f.title.clone());
    assert(out@.map_values(|s: String| s@) =~= prev + seq!["--"@, f.title@]);
    out
}

/// The value of an optional field, or nothing.
pub open spec fn arg_opt(v: Option<String>, name: Seq<char>, empty_as: Seq<char>) -> Seq<Seq<char>> {
    match v {
        Some(x) => seq![option_arg(name, if x@.len() == 0 { empty_as } else { x@ })],
        None => Seq::empty(),
    }
}

/// The arguments of `remctl edit` for the changed fields other than the flag:
/// the id, then each given field as an option (an empty due is `clear`, an
/// empty priority `none`; empty title, notes and list stay empty).
pub open spec fn edit_argv(id: i64, f: EditFields) -> Seq<Seq<char>> {
    seq!["edit"@, dec_signed(id as int)] + arg_opt(f.title, "title"@, Seq::empty()) + arg_opt(
        f.notes,
        "notes"@,
        Seq::empty(),
    ) + arg_opt(f.due, "due"@, "clear"@) + arg_opt(f.priority, "priority"@, "none"@) + arg_opt(
        f.list_title,
        "list"@,
        Seq::empty(),
    )
}

fn push_opt(out: &mut Vec<String>, v: &Option<String>, name: &str, empty_as: &str)
    ensures
        final(out)@.map_values(|s: String| s@) == old(out)@.map_values(|s: String| s@) + arg_opt(
            *v,
            name@,
            empty_as@,
        ),
{
    let ghost prev = out@;
    if let Some(x) = v {
        let value = if x.as_str().is_empty() {
            empty_as
        } else {
            x.as_str()
        };
        out.push(option(name, value));
    }
    assert(out@.map_values(|s: String| s@) =~= prev.map_values(|s: String| s@) + arg_opt(
        *v,
        name@,
        empty_as@,
    ));
}

/// The arguments of `remctl edit` for the changed fields other than the flag.
pub fn edit_args(reminder_id: i64, fields: &EditFields) -> (r: Vec<String>)
    ensures
        r@.map_values(|s: String| s@) == edit_argv(reminder_id, *fields),
{
    let mut out: Vec<String> = Vec::new();
    out.push("edit".to_owned());
    let id = decimal_signed(reminder_id);
    out.push(string_of(id.as_slice()));
    assert(out@.map_values(|s: String| s@) =~= seq!["edit"@, dec_signed(reminder_id as int)]);
    proof {
        reveal_strlit("");
        assert(""@ =~= Seq::<char>::empty());
    }
    push_opt(&mut out, &fields.title, "title", "");
    push_opt(&mut out, &fields.notes, "notes", "");
    push_opt(&mut out, &fields.due, "due", "clear");
    push_opt(&mut out, &fields.priority, "priority", "none");
    push_opt(&mut out, &fields.list_title, "list", "");
    out
}

proof fn lemma_concat_contains()
    ensures
        forall|a: Seq<Seq<char>>, b: Seq<Seq<char>>, x: Seq<char>|
            #![trigger (a + b).contains(x)]
            (a.contains(x) || b.contains(x)) ==> (a + b).contains(x),
{
    assert forall|a: Seq<Seq<char>>, b: Seq<Seq<char>>, x: Seq<char>|
        (a.contains(x) || b.contains(x)) implies #[trigger] (a + b).contains(x) by {
        if a.contains(x) {
            let i = choose|i: int| 0 <= i < a.len() && a[i] == x;
            assert((a + b)[i] == x);
        } else {
            let i = choose|i: int| 0 <= i < b.len() && b[i] == x;
            assert((a + b)[a.len() + i] == x);
        }
    }
}

proof fn lemma_single_contains(x: Seq<char>)
    ensures
        seq![x].contains(x),
{
    assert(seq![x][0] == x);
}

/// Adding passes every field it is given: `add` first, each non-empty field
/// as `--name=value` (a priority of `none` is left out, the flag is a bare
/// `--flag`), nothing else, and the title last behind `--`.
pub proof fn law_add_passes_every_field(f: AddFields)
    ensures
        add_argv(f).len() == 3 + (if f.list_title@.len() > 0 { 1int } else { 0 }) + (if f.notes@.len() > 0 { 1int } else { 0 })
            + (if f.due@.len() > 0 { 1int } else { 0 }) + (if f.priority@.len() > 0 && f.priority@ != "none"@ { 1int } else { 0 })
            + (if f.flagged { 1int } else { 0 }) + (if f.tags@.len() > 0 { 1int } else { 0 }) + (if f.url@.len() > 0 { 1int } else { 0 }),
        add_argv(f)[0] == "add"@,
        add_argv(f)[add_argv(f).len() - 2] == "--"@,
        add_argv(f).last() == f.title@,
        f.list_title@.len() > 0 ==> add_argv(f).contains("--list="@ + f.list_title@),
        f.notes@.len() > 0 ==> add_argv(f).contains("--notes="@ + f.notes@),
        f.due@.len() > 0 ==> add_argv(f).contains("--due="@ + f.due@),
        f.priority@.len() > 0 && f.priority@ != "none"@ ==> add_argv(f).contains("--priority="@ + f.priority@),
        f.flagged ==> add_argv(f).contains("--flag"@),
        f.tags@.len() > 0 ==> add_argv(f).contains("--tags="@ + f.tags@),
        f.url@.len() > 0 ==> add_argv(f).contains("--url="@ + f.url@),
{
    reveal_strlit("--");
    reveal_strlit("=");
    reveal_strlit("list");
    reveal_strlit("notes");
    reveal_strlit("due");
    reveal_strlit("priority");
    reveal_strlit("tags");
    reveal_strlit("url");
    reveal_strlit("--list=");
    reveal_strlit("--notes=");
    reveal_strlit("--due=");
    reveal_strlit("--priority=");
    reveal_strlit("--tags=");
    reveal_strlit("--url=");
    lemma_concat_contains();
    assert(option_arg("list"@, f.list_title@) =~= "--list="@ + f.list_title@);
    assert(option_arg("notes"@, f.notes@) =~= "--notes="@ + f.notes@);
    assert(option_arg("due"@, f.due@) =~= "--due="@ + f.due@);
    assert(option_arg("priority"@, f.priority@) =~= "--priority="@ + f.priority@);
    assert(option_arg("tags"@, f.tags@) =~= "--tags="@ + f.tags@);
    assert(option_arg("url"@, f.url@) =~= "--url="@ + f.url@);
    lemma_single_contains(option_arg("list"@, f.list_title@));
    lemma_single_contains(option_arg("notes"@, f.notes@));
    lemma_single_contains(option_arg("due"@, f.due@));
    lemma_single_contains(option_arg("priority"@, f.priority@));
    lemma_single_contains("--flag"@);
    lemma_single_contains(option_arg("tags"@, f.tags@));
    lemma_single_contains(option_arg("url"@, f.url@));
}

/// Editing passes every field it is given and nothing else: `edit` and the
/// id, then each given field as `--name=value`, an empty due as `clear` and
/// an empty priority as `none`. The flag is not among them: it is written by
/// its own call.
pub proof fn law_edit_passes_every_field(id: i64, f: EditFields)
    ensures
        edit_argv(id, f).len() == 2 + (if f.title is Some { 1int } else { 0 }) + (if f.notes is Some { 1int } else { 0 })
            + (if f.due is Some { 1int } else { 0 }) + (if f.priority is Some { 1int } else { 0 })
            + (if f.list_title is Some { 1int } else { 0 }),
        edit_argv(id, f)[0] == "edit"@,
        edit_argv(id, f)[1] == dec_signed(id as int),
        f.title matches Some(t) ==> edit_argv(id, f).contains("--title="@ + t@),
        f.notes matches Some(n) ==> edit_argv(id, f).contains("--notes="@ + n@),
        f.due matches Some(d) ==> edit_argv(id, f).contains("--due="@ + (if d@.len() == 0 { "clear"@ } else { d@ })),
        f.priority matches Some(p) ==> edit_argv(id, f).contains("--priority="@ + (if p@.len() == 0 { "none"@ } else { p@ })),
        f.list_title matches Some(l) ==> edit_argv(id, f).contains("--list="@ + l@),
{
    reveal_strlit("--");
    reveal_strlit("=");
    reveal_strlit("title");
    reveal_strlit("notes");
    reveal_strlit("due");
    reveal_strlit("priority");
    reveal_strlit("list");
    reveal_strlit("--title=");
    reveal_strlit("--notes=");
    reveal_strlit("--due=");
    reveal_strlit("--priority=");
    reveal_strlit("--list=");
    lemma_concat_contains();
    if let Some(t) = f.title {
        assert(option_arg("title"@, t@) =~= "--title="@ + t@);
        lemma_single_contains(option_arg("title"@, t@));
    }
    if let Some(n) = f.notes {
        assert(option_arg("notes"@, n@) =~= "--notes="@ + n@);
        lemma_single_contains(option_arg("notes"@, n@));
    }
    if let Some(d) = f.due {
        let v = if d@.len() == 0 { "clear"@ } else { d@ };
        assert(option_arg("due"@, v) =~= "--due="@ + v);
        lemma_single_contains(option_arg("due"@, v));
    }
    if let Some(p) = f.priority {
        let v = if p@.len() == 0 { "none"@ } else { p@ };
        assert(option_arg("priority"@, v) =~= "--priority="@ + v);
        lemma_single_contains(option_arg("priority"@, v));
    }
    if let Some(l) = f.list_title {
        assert(option_arg("list"@, l@) =~= "--list="@ + l@);
        lemma_single_contains(option_arg("list"@, l@));
    }
}

/// The message and code a failed call's stdout payload carries, when stderr
/// said nothing: remctl reports some failures on stdout.
pub open spec fn stdout_error(stdout_parsed: Result<Json, String>) -> Option<(Seq<char>, Seq<char>)> {
    match stdout_parsed {
        Ok(Json::Object(es, text)) => match json_get(Json::Object(es, text), "message"@) {
            Some(Json::Str(m)) => if m@.len() > 0 {
                Some((m@, match json_get(Json::Object(es, text), "code"@) {
                    Some(Json::Str(c)) => c@,
                    _ => Seq::empty(),
                }))
            } else {
                None
            },
            _ => None,
        },
        _ => None,
    }
}

/// What a finished remctl run means. A failure is the stderr report (or,
/// with nothing on stderr, the message a stdout payload carries) with the
/// exit status (1 when killed by a signal); a success is no payload for
/// blank stdout, else the JSON it holds, or an error when it holds none.
pub open spec fn remctl_reply_of(
    success: bool,
    exit_code: Option<i32>,
    stdout: Seq<char>,
    stdout_parsed: Result<Json, String>,
    stderr: Seq<char>,
    stderr_lines: Seq<Option<Json>>,
) -> Result<Option<Json>, (Seq<char>, Seq<char>, i32)> {
    if !success {
        let code = match exit_code {
            Some(c) => c,
            None => 1,
        };
        if trim(stderr).len() == 0 && stdout_error(stdout_parsed) is Some {
            let (m, c) = stdout_error(stdout_parsed).unwrap();
            Err((m, c, code))
        } else {
            let (m, c) = stderr_report(stderr, stderr_lines);
            Err((m, c, code))
        }
    } else if trim(stdout).len() == 0 {
        Ok(None)
    } else {
        match stdout_parsed {
            Ok(v) => Ok(Some(v)),
            Err(e) => Err(("remctl returned invalid JSON: "@ + e@, Seq::empty(), 1)),
        }
    }
}

/// Interpret a finished remctl run: whether it succeeded and its exit
/// status, its stdout (and that text parsed as JSON, or the parser's
/// message), and its stderr with each line parsed as `parse_stderr` takes it.
pub fn remctl_reply(
    success: bool,
    exit_code: Option<i32>,
    stdout: &str,
    stdout_parsed: Result<Json, String>,
    stderr: &str,
    stderr_lines: &Vec<Option<Json>>,
) -> (r: Result<Option<Json>, RemctlError>)
    requires
        stderr_lines@.len() == lines(stderr@).len(),
    ensures
        match remctl_reply_of(success, exit_code, stdout@, stdout_parsed, stderr@, stderr_lines@) {
            Ok(p) => r == Ok::<Option<Json>, RemctlError>(p),
            Err((m, c, x)) => r matches Err(e) && e.message@ == m && e.code@ == c && e.exit_code == x,
        },
{
    if !success {
        let code = match exit_code {
            Some(c) => c,
            None => 1,
        };
        let quiet = trim_chars(chars_of(stderr).as_slice()).is_empty();
        if quiet {
            if let Ok(payload) = &stdout_parsed {
                let carried = if payload.is_object() {
                    payload.get("message")
                } else {
                    None
                };
                if let Some(Json::Str(m)) = carried {
                    if !m.as_str().is_empty() {
                        let c = match payload.get("code") {
                            Some(Json::Str(c)) => c.clone(),
                            _ => String::new(),
                        };
                        return Err(RemctlError { message: m.clone(), code: c, exit_code: code });
                    }
                }
            }
        }
        let (m, c) = parse_stderr(stderr, stderr_lines);
        return Err(RemctlError { message: m, code: c, exit_code: code });
    }
    if trim_chars(chars_of(stdout).as_slice()).is_empty() {
        return Ok(None);
    }
    match stdout_parsed {
        Ok(v) => Ok(Some(v)),
        Err(e) => {
            let mut v = chars_of("remctl returned invalid JSON: ");
            push_str(&mut v, e.as_str());
            Err(RemctlError::new(string_of(v.as_slice()).as_str()))
        },
    }
}

/// The remctl binary to run: `$REMTUI_REMCTL` (given as `env_value`)
/// trimmed, when it is not blank; else `remctl` on PATH.
pub open spec fn remctl_of(env_value: Option<Seq<char>>) -> Seq<char> {
    match env_value {
        Some(v) => if trim(v).len() > 0 {
            trim(v)
        } else {
            "remctl"@
        },
        None => "remctl"@,
    }
}

/// The remctl binary to run.
pub fn resolve_remctl(env_value: Option<&str>) -> (r: String)
    ensures
        r@ == remctl_of(
            match env_value {
                Some(v) => Some(v@),
                None => None,
            },
        ),
{
    if let Some(v) = env_value {
        let t = trim_chars(chars_of(v).as_slice());
        if t.len() > 0 {
            return string_of(t.as_slice());
        }
    }
    "remctl".to_owned()
}


/// What a stderr line is offered to the JSON reader as: the line trimmed,
/// when it then starts with `{`.
pub open spec fn stderr_candidate(l: Seq<char>) -> Option<Seq<char>> {
    let t = crate::text::trim(l);
    if t.len() > 0 && t[0] == '{' {
        Some(t)
    } else {
        None
    }
}

/// The stderr lines (`str::lines`), each trimmed and kept when it starts
/// with `{`, for the caller to read as JSON.
pub fn stderr_candidates(stderr: &str) -> (r: Vec<Option<String>>)
    ensures
        r@.len() == crate::text::lines(stderr@).len(),
        forall|i: int|
            0 <= i < r@.len() ==> match #[trigger] r@[i] {
                Some(t) => stderr_candidate(crate::text::lines(stderr@)[i]) == Some(t@),
                None => stderr_candidate(crate::text::lines(stderr@)[i]) is None,
            },
{
    let ls = crate::text::lines_of(crate::text::chars_of(stderr).as_slice());
    let mut out: Vec<Option<String>> = Vec::new();
    let mut i: usize = 0;
    while i < ls.len()
        invariant
            i <= ls@.len(),
            crate::text::views(ls@) == crate::text::lines(stderr@),
            out@.len() == i,
            forall|j: int|
                0 <= j < i ==> match #[trigger] out@[j] {
                    Some(t) => stderr_candidate(crate::text::lines(stderr@)[j]) == Some(t@),
                    None => stderr_candidate(crate::text::lines(stderr@)[j]) is None,
                },
        decreases ls.len() - i,
    {
        assert(crate::text::views(ls@)[i as int] == ls@[i as int]@);
        let t = crate::text::trim_chars(ls[i].as_slice());
        if t.len() > 0 && t[0] == '{' {
            out.push(Some(crate::text::string_of(t.as_slice())));
        } else {
            out.push(None);
        }
        i += 1;
    }
    out
}

/// The arguments of a read by list or by query: the subcommand,
/// `--completed` when asked, then `--` and the list title or query.
pub open spec fn query_argv(sub: Seq<char>, operand: Seq<char>, include_completed: bool) -> Seq<Seq<char>> {
    seq![sub] + (if include_completed {
        seq!["--completed"@]
    } else {
        Seq::empty()
    }) + seq!["--"@, operand]
}

/// `show`/`search` arguments for a list title or a query.
pub fn query_args(sub: &str, operand: &str, include_completed: bool) -> (r: Vec<String>)
    ensures
        r@.map_values(|s: String| s@) == query_argv(sub@, operand@, include_completed),
{
    let mut out: Vec<String> = Vec::new();
    out.push(sub.to_owned());
    if include_completed {
        out.push("--completed".to_owned());
    }
    out.push("--".to_owned());
    out.push(operand.to_owned());
    assert(out@.map_values(|s: String| s@) =~= query_argv(sub@, operand@, include_completed));
    out
}

/// What an edit does next: write the field changes, write the flag on an
/// id, or finish with this result.
#[derive(Debug)]
pub enum EditStep {
    Write(Vec<String>),
    Flag(i64, bool),
    Finish(Option<Json>),
}

/// How an edit starts: with the field changes when there are any (more than
/// `edit` and the id), else with the flag change, else it is done.
pub fn edit_start(reminder_id: i64, fields: &EditFields) -> (r: EditStep)
    ensures
        edit_argv(reminder_id, *fields).len() > 2 ==> (r matches EditStep::Write(a) && a@.map_values(
            |s: String| s@,
        ) == edit_argv(reminder_id, *fields)),
        edit_argv(reminder_id, *fields).len() <= 2 ==> match fields.flagged {
            Some(w) => r == EditStep::Flag(reminder_id, w),
            None => r == EditStep::Finish(None),
        },
{
    let args = edit_args(reminder_id, fields);
    if args.len() > 2 {
        return EditStep::Write(args);
    }
    match fields.flagged {
        Some(w) => EditStep::Flag(reminder_id, w),
        None => EditStep::Finish(None),
    }
}

/// After the field changes landed with `result`: the flag change goes to
/// the id remctl reported (a list move clone-deletes), else the edit is done.
pub fn edit_after_write(reminder_id: i64, fields: &EditFields, result: Option<Json>) -> (r: EditStep)
    ensures
        match fields.flagged {
            Some(w) => r == EditStep::Flag(flag_target_of(result, reminder_id) as i64, w),
            None => r == EditStep::Finish(result),
        },
{
    match fields.flagged {
        Some(w) => {
            let target = flag_target(result.as_ref(), reminder_id);
            EditStep::Flag(target, w)
        },
        None => EditStep::Finish(result),
    }
}

/// What an edit answers once the flag landed: the field edit's result when
/// there was one, else the flag's.
pub fn edit_outcome(write_result: Option<Json>, flag_result: Option<Json>) -> (r: Option<Json>)
    ensures
        r == (match write_result {
            Some(j) => Some(j),
            None => flag_result,
        }),
{
    match write_result {
        Some(j) => Some(j),
        None => flag_result,
    }
}


/// How long a remctl command may run, in seconds: flag writes go through
/// AppleScript and get 120, everything else 30.
pub open spec fn timeout_for(argv: Seq<Seq<char>>) -> u64 {
    if argv.len() > 0 && (argv[0] == "flag"@ || argv[0] == "unflag"@) {
        120
    } else {
        30
    }
}

/// The time limit for the remctl command `args`, in seconds.
pub fn command_timeout_secs(args: &[String]) -> (r: u64)
    ensures
        r == timeout_for(args@.map_values(|s: String| s@)),
{
    proof {
        reveal_strlit("flag");
        reveal_strlit("unflag");
    }
    if args.len() > 0 {
        assert(args@.map_values(|s: String| s@)[0] == args@[0]@);
        if same_str(args[0].as_str(), "flag") || same_str(args[0].as_str(), "unflag") {
            return 120;
        }
    }
    30
}

} // verus!
