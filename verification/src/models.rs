//! Data models mirroring remctl's `--json` output schemas.

use vstd::prelude::*;

use crate::dates::{dt_le, due_fits, moment_before, parse_due, sort_key, DateTime};
use crate::json::{deref_opt, json_get, Json};
use crate::text::{
    chars_of, contains, contains_chars, copy_strings, join, join_strings, lowercase, parse_i64,
    parse_int, push_str, string_of, string_views, to_lower, trim, trim_chars,
};

verus! {

#[derive(Debug, Clone, Copy, PartialEq, Eq, Structural, PartialOrd, Ord, Hash, Default)]
pub enum Priority {
    High,
    Medium,
    Low,
    #[default]
    Unset,
}

/// The word remctl uses for a priority.
pub open spec fn priority_word(p: Priority) -> Seq<char> {
    match p {
        Priority::High => seq!['h', 'i', 'g', 'h'],
        Priority::Medium => seq!['m', 'e', 'd', 'i', 'u', 'm'],
        Priority::Low => seq!['l', 'o', 'w'],
        Priority::Unset => seq!['n', 'o', 'n', 'e'],
    }
}

/// The priority remctl's word names; anything else is no priority.
pub open spec fn parse_priority(text: Seq<char>) -> Priority {
    if text == priority_word(Priority::High) {
        Priority::High
    } else if text == priority_word(Priority::Medium) {
        Priority::Medium
    } else if text == priority_word(Priority::Low) {
        Priority::Low
    } else {
        Priority::Unset
    }
}

/// The `p` key's cycle: none, low, medium, high, none.
pub open spec fn next_priority(p: Priority) -> Priority {
    match p {
        Priority::Unset => Priority::Low,
        Priority::Low => Priority::Medium,
        Priority::Medium => Priority::High,
        Priority::High => Priority::Unset,
    }
}

/// Sort rank: high first, none last.
pub open spec fn priority_rank(p: Priority) -> int {
    match p {
        Priority::High => 0,
        Priority::Medium => 1,
        Priority::Low => 2,
        Priority::Unset => 3,
    }
}

impl Priority {
    pub fn parse(text: &str) -> (p: Priority)
        ensures
            p == parse_priority(text@),
    {
        let v = chars_of(text);
        let high = chars_of("high");
        let medium = chars_of("medium");
        let low = chars_of("low");
        proof {
            reveal_strlit("high");
            reveal_strlit("medium");
            reveal_strlit("low");
            assert(high@ =~= priority_word(Priority::High));
            assert(medium@ =~= priority_word(Priority::Medium));
            assert(low@ =~= priority_word(Priority::Low));
        }
        if same_chars(v.as_slice(), high.as_slice()) {
            Priority::High
        } else if same_chars(v.as_slice(), medium.as_slice()) {
            Priority::Medium
        } else if same_chars(v.as_slice(), low.as_slice()) {
            Priority::Low
        } else {
            Priority::Unset
        }
    }

    pub fn as_str(self) -> (s: &'static str)
        ensures
            s@ == priority_word(self),
    {
        proof {
            reveal_strlit("high");
            reveal_strlit("medium");
            reveal_strlit("low");
            reveal_strlit("none");
        }
        match self {
            Priority::High => "high",
            Priority::Medium => "medium",
            Priority::Low => "low",
            Priority::Unset => "none",
        }
    }

    /// `none → low → medium → high → none`, the `p` key's cycle.
    pub fn next(self) -> (p: Priority)
        ensures
            p == next_priority(self),
    {
        match self {
            Priority::Unset => Priority::Low,
            Priority::Low => Priority::Medium,
            Priority::Medium => Priority::High,
            Priority::High => Priority::Unset,
        }
    }

    /// The `!!!` / `!!` / `!` mark shown before a title, or "".
    pub fn mark(self) -> (s: &'static str)
        ensures
            s@ == match self {
                Priority::High => seq!['!', '!', '!'],
                Priority::Medium => seq!['!', '!'],
                Priority::Low => seq!['!'],
                Priority::Unset => Seq::<char>::empty(),
            },
    {
        proof {
            reveal_strlit("!!!");
            reveal_strlit("!!");
            reveal_strlit("!");
            reveal_strlit("");
        }
        match self {
            Priority::High => "!!!",
            Priority::Medium => "!!",
            Priority::Low => "!",
            Priority::Unset => "",
        }
    }

    /// The form's option label.
    pub fn label(self) -> (s: &'static str)
        ensures
            s@ == match self {
                Priority::High => "!!! High"@,
                Priority::Medium => "!! Medium"@,
                Priority::Low => "! Low"@,
                Priority::Unset => "None"@,
            },
    {
        match self {
            Priority::High => "!!! High",
            Priority::Medium => "!! Medium",
            Priority::Low => "! Low",
            Priority::Unset => "None",
        }
    }

    /// Sort rank: high first, none last.
    pub fn rank(self) -> (r: u8)
        ensures
            r == priority_rank(self),
    {
        match self {
            Priority::High => 0,
            Priority::Medium => 1,
            Priority::Low => 2,
            Priority::Unset => 3,
        }
    }
}

/// Whether two character slices hold the same characters.
pub fn same_chars(a: &[char], b: &[char]) -> (r: bool)
    ensures
        r == (a@ == b@),
{
    if a.len() != b.len() {
        return false;
    }
    let mut i: usize = 0;
    while i < a.len()
        invariant
            a@.len() == b@.len(),
            i <= a@.len(),
            forall|j: int| 0 <= j < i ==> a@[j] == b@[j],
        decreases a.len() - i,
    {
        if a[i] != b[i] {
            return false;
        }
        i += 1;
    }
    assert(a@ =~= b@);
    true
}

/// Whether two strings hold the same characters.
pub fn same_str(a: &str, b: &str) -> (r: bool)
    ensures
        r == (a@ == b@),
{
    let x = chars_of(a);
    let y = chars_of(b);
    same_chars(x.as_slice(), y.as_slice())
}

/// The four smart views, in sidebar order.
#[derive(Debug, Clone, Copy, PartialEq, Eq, Structural, Hash)]
pub enum SmartView {
    Today,
    Upcoming,
    Overdue,
    Flagged,
}

/// Where a smart view stands in sidebar order.
pub open spec fn smart_view_index(v: SmartView) -> int {
    match v {
        SmartView::Today => 0,
        SmartView::Upcoming => 1,
        SmartView::Overdue => 2,
        SmartView::Flagged => 3,
    }
}

/// A smart view's label in the sidebar.
pub open spec fn view_label(v: SmartView) -> Seq<char> {
    match v {
        SmartView::Today => "Today"@,
        SmartView::Upcoming => "Upcoming"@,
        SmartView::Overdue => "Overdue"@,
        SmartView::Flagged => "Flagged"@,
    }
}

/// A smart view's icon in the sidebar.
pub open spec fn view_icon(v: SmartView) -> Seq<char> {
    match v {
        SmartView::Today => "◉"@,
        SmartView::Upcoming => "◷"@,
        SmartView::Overdue => "⚠"@,
        SmartView::Flagged => "⚑"@,
    }
}

/// A smart view's colour in the sidebar, as hex.
pub open spec fn view_hex(v: SmartView) -> Seq<char> {
    match v {
        SmartView::Today => "#0A84FF"@,
        SmartView::Upcoming => "#BF5AF2"@,
        SmartView::Overdue => "#FF453A"@,
        SmartView::Flagged => "#FF9F0A"@,
    }
}

impl SmartView {
    pub fn key(self) -> (s: &'static str)
        ensures
            s@ == match self {
                SmartView::Today => "today"@,
                SmartView::Upcoming => "upcoming"@,
                SmartView::Overdue => "overdue"@,
                SmartView::Flagged => "flagged"@,
            },
    {
        match self {
            SmartView::Today => "today",
            SmartView::Upcoming => "upcoming",
            SmartView::Overdue => "overdue",
            SmartView::Flagged => "flagged",
        }
    }

    pub fn label(self) -> (s: &'static str)
        ensures
            s@ == view_label(self),
    {
        match self {
            SmartView::Today => "Today",
            SmartView::Upcoming => "Upcoming",
            SmartView::Overdue => "Overdue",
            SmartView::Flagged => "Flagged",
        }
    }

    pub fn icon(self) -> (s: &'static str)
        ensures
            s@ == view_icon(self),
    {
        match self {
            SmartView::Today => "◉",
            SmartView::Upcoming => "◷",
            SmartView::Overdue => "⚠",
            SmartView::Flagged => "⚑",
        }
    }

    pub fn color_hex(self) -> (s: &'static str)
        ensures
            s@ == view_hex(self),
    {
        match self {
            SmartView::Today => "#0A84FF",
            SmartView::Upcoming => "#BF5AF2",
            SmartView::Overdue => "#FF453A",
            SmartView::Flagged => "#FF9F0A",
        }
    }

    pub fn empty_message(self) -> (s: &'static str)
        ensures
            s@ == match self {
                SmartView::Today => "Nothing due today — enjoy it"@,
                SmartView::Upcoming => "Nothing scheduled in the next 7 days"@,
                SmartView::Overdue => "Nothing overdue — inbox zero energy"@,
                SmartView::Flagged => "No flagged reminders"@,
            },
    {
        match self {
            SmartView::Today => "Nothing due today — enjoy it",
            SmartView::Upcoming => "Nothing scheduled in the next 7 days",
            SmartView::Overdue => "Nothing overdue — inbox zero energy",
            SmartView::Flagged => "No flagged reminders",
        }
    }

    /// The sidebar row index of a smart view (after the header).
    pub fn nav_index(self) -> (i: usize)
        ensures
            i == 1 + smart_view_index(self),
    {
        match self {
            SmartView::Today => 1,
            SmartView::Upcoming => 2,
            SmartView::Overdue => 3,
            SmartView::Flagged => 4,
        }
    }
}


/// One reminder, as serialized by remctl.
#[derive(Debug, Clone, PartialEq, Eq, Default)]
pub struct Reminder {
    pub id: i64,
    pub title: String,
    pub list_name: String,
    pub completed: bool,
    pub flagged: bool,
    pub urgent: bool,
    pub priority: Priority,
    pub notes: String,
    pub url: String,
    pub section: String,
    pub tags: Vec<String>,
    pub due_raw: String,
    pub all_day: bool,
    pub subtask_count: i64,
    pub is_subtask: bool,
    pub recurring: bool,
}

/// How a member reads as text: a string as is, null or absent as "", a bool
/// or number as written, an array or object as its compact JSON.
pub open spec fn json_text(v: Option<Json>) -> Seq<char> {
    match v {
        Some(Json::Str(s)) => s@,
        Some(Json::Null) => Seq::empty(),
        None => Seq::empty(),
        Some(Json::Bool(b)) => if b {
            "true"@
        } else {
            "false"@
        },
        Some(Json::Number(n)) => n.text@,
        Some(Json::Array(_, t)) => t@,
        Some(Json::Object(_, t)) => t@,
    }
}

/// How a value prints (`Value::to_string`, strings unquoted).
pub open spec fn json_display(v: Json) -> Seq<char> {
    match v {
        Json::Null => "null"@,
        _ => json_text(Some(v)),
    }
}

/// Python truthiness of a member: absent and null are false, as are false,
/// zero, and empty strings, arrays and objects.
pub open spec fn json_truthy(v: Option<Json>) -> bool {
    match v {
        None => false,
        Some(Json::Null) => false,
        Some(Json::Bool(b)) => b,
        Some(Json::Number(n)) => !n.zero,
        Some(Json::Str(s)) => s@.len() > 0,
        Some(Json::Array(a, _)) => a@.len() > 0,
        Some(Json::Object(o, _)) => o@.len() > 0,
    }
}

/// A member as an integer: a number's `i64` value, a string's trimmed
/// integer, else 0.
pub open spec fn json_int(v: Option<Json>) -> int {
    match v {
        Some(Json::Number(n)) => match n.int {
            Some(i) => i as int,
            None => 0,
        },
        Some(Json::Str(s)) => match parse_int(trim(s@)) {
            Some(i) => i,
            None => 0,
        },
        _ => 0,
    }
}

fn text_of(v: Option<&Json>) -> (r: String)
    ensures
        r@ == json_text(deref_opt(v)),
{
    match v {
        Some(Json::Str(s)) => s.clone(),
        Some(Json::Null) => String::new(),
        None => String::new(),
        Some(Json::Bool(b)) => {
            if *b {
                "true".to_owned()
            } else {
                "false".to_owned()
            }
        },
        Some(Json::Number(n)) => n.text.clone(),
        Some(Json::Array(_, t)) => t.clone(),
        Some(Json::Object(_, t)) => t.clone(),
    }
}

/// A member as text (see `json_text`).
pub fn str_of(data: &Json, key: &str) -> (r: String)
    ensures
        r@ == json_text(json_get(*data, key@)),
{
    text_of(data.get(key))
}

/// A member's truthiness (see `json_truthy`).
pub fn truthy(data: &Json, key: &str) -> (r: bool)
    ensures
        r == json_truthy(json_get(*data, key@)),
{
    match data.get(key) {
        None => false,
        Some(Json::Null) => false,
        Some(Json::Bool(b)) => *b,
        Some(Json::Number(n)) => !n.zero,
        Some(Json::Str(s)) => !s.as_str().is_empty(),
        Some(Json::Array(a, _)) => a.len() > 0,
        Some(Json::Object(o, _)) => o.len() > 0,
    }
}

/// A member as an integer (see `json_int`).
pub fn int_of(data: &Json, key: &str) -> (r: i64)
    ensures
        r == json_int(json_get(*data, key@)),
{
    match data.get(key) {
        Some(Json::Number(n)) => match n.int {
            Some(i) => i,
            None => 0,
        },
        Some(Json::Str(s)) => {
            let v = chars_of(s.as_str());
            let t = trim_chars(v.as_slice());
            match parse_i64(t.as_slice()) {
                Some(i) => i,
                None => 0,
            }
        },
        _ => 0,
    }
}

/// The tags a reminder payload lists, each as it prints.
pub open spec fn json_tags(data: Json) -> Seq<Seq<char>> {
    match json_get(data, "tags"@) {
        Some(Json::Array(items, _)) => items@.map_values(|t: Json| json_display(t)),
        _ => Seq::empty(),
    }
}

/// The due stamp a reminder payload carries: `displayDate` (the local
/// wall-clock moment Reminders shows) when present, else `dueDate`.
pub open spec fn json_due(data: Json) -> Seq<char> {
    if json_text(json_get(data, "displayDate"@)).len() > 0 {
        json_text(json_get(data, "displayDate"@))
    } else {
        json_text(json_get(data, "dueDate"@))
    }
}

/// `r` is what `Reminder::from_json` makes of `data`.
pub open spec fn reminder_from(data: Json, r: Reminder) -> bool {
    &&& r.id == json_int(json_get(data, "id"@))
    &&& r.title@ == json_text(json_get(data, "title"@))
    &&& r.list_name@ == json_text(json_get(data, "list"@))
    &&& r.completed == json_truthy(json_get(data, "completed"@))
    &&& r.flagged == json_truthy(json_get(data, "flagged"@))
    &&& r.urgent == json_truthy(json_get(data, "urgent"@))
    &&& r.priority == parse_priority(json_text(json_get(data, "priority"@)))
    &&& r.notes@ == json_text(json_get(data, "notes"@))
    &&& r.url@ == json_text(json_get(data, "url"@))
    &&& r.section@ == json_text(json_get(data, "section"@))
    &&& string_views(r.tags@) == json_tags(data)
    &&& r.due_raw@ == json_due(data)
    &&& r.all_day == json_truthy(json_get(data, "allDay"@))
    &&& r.subtask_count == json_int(json_get(data, "subtaskCount"@))
    &&& r.is_subtask == json_truthy(json_get(data, "isSubtask"@))
    &&& r.recurring == json_truthy(json_get(data, "recurrence"@))
}

fn display_of(v: &Json) -> (r: String)
    ensures
        r@ == json_display(*v),
{
    match v {
        Json::Null => "null".to_owned(),
        _ => text_of(Some(v)),
    }
}

fn tags_of(data: &Json) -> (r: Vec<String>)
    ensures
        string_views(r@) == json_tags(*data),
{
    let mut out: Vec<String> = Vec::new();
    match data.get("tags") {
        Some(Json::Array(items, _)) => {
            let mut i: usize = 0;
            while i < items.len()
                invariant
                    i <= items@.len(),
                    string_views(out@) == items@.take(i as int).map_values(|t: Json| json_display(t)),
                decreases items.len() - i,
            {
                let t = display_of(&items[i]);
                assert(t@ == json_display(items@[i as int]));
                let ghost prev = out@;
                out.push(t);
                assert(string_views(out@) =~= string_views(prev).push(t@));
                assert(items@.take(i + 1) =~= items@.take(i as int).push(items@[i as int]));
                i += 1;
                assert(string_views(out@) =~= items@.take(i as int).map_values(|t: Json| json_display(t)));
            }
            assert(items@.take(items@.len() as int) =~= items@);
        },
        _ => {},
    }
    out
}

/// Case-insensitive substring match on title, notes, and tags.
pub open spec fn reminder_matches(r: Reminder, query: Seq<char>) -> bool {
    let needle = lowercase(query);
    ||| contains(lowercase(r.title@), needle)
    ||| contains(lowercase(r.notes@), needle)
    ||| contains(lowercase(join(string_views(r.tags@), seq![' '])), needle)
}

/// The live filter shows a reminder when its title, its notes, or its tags
/// (joined by spaces) hold the query, ignoring case, whichever of them it
/// is; and only then.
pub proof fn law_match_searches_title_notes_and_tags(r: Reminder, query: Seq<char>)
    ensures
        contains(lowercase(r.title@), lowercase(query)) ==> reminder_matches(r, query),
        contains(lowercase(r.notes@), lowercase(query)) ==> reminder_matches(r, query),
        contains(lowercase(join(string_views(r.tags@), seq![' '])), lowercase(query)) ==> reminder_matches(r, query),
        reminder_matches(r, query) ==> contains(lowercase(r.title@), lowercase(query)) || contains(
            lowercase(r.notes@),
            lowercase(query),
        ) || contains(lowercase(join(string_views(r.tags@), seq![' '])), lowercase(query)),
{
}

impl Reminder {
    pub fn from_json(data: &Json) -> (r: Reminder)
        ensures
            reminder_from(*data, r),
    {
        // remctl's `dueDate` for an all-day reminder is UTC midnight rendered in
        // local time (20:00 the evening before, in the eastern US), so the date
        // is wrong; `displayDate` is the local wall-clock moment Reminders
        // shows. Prefer it whenever remctl provides it.
        let mut due_raw = str_of(data, "displayDate");
        if due_raw.as_str().is_empty() {
            due_raw = str_of(data, "dueDate");
        }
        let priority_text = str_of(data, "priority");
        Reminder {
            id: int_of(data, "id"),
            title: str_of(data, "title"),
            list_name: str_of(data, "list"),
            completed: truthy(data, "completed"),
            flagged: truthy(data, "flagged"),
            urgent: truthy(data, "urgent"),
            priority: Priority::parse(priority_text.as_str()),
            notes: str_of(data, "notes"),
            url: str_of(data, "url"),
            section: str_of(data, "section"),
            tags: tags_of(data),
            due_raw,
            all_day: truthy(data, "allDay"),
            subtask_count: int_of(data, "subtaskCount"),
            is_subtask: truthy(data, "isSubtask"),
            recurring: truthy(data, "recurrence"),
        }
    }

    /// The due moment, parsed from `due_raw`.
    pub fn due(&self) -> (r: Option<DateTime>)
        ensures
            due_fits(self.due_raw@, r),
    {
        parse_due(self.due_raw.as_str())
    }

    /// Case-insensitive substring match on title, notes, and tags.
    pub fn matches(&self, query: &str) -> (r: bool)
        ensures
            r == reminder_matches(*self, query@),
    {
        let needle = to_lower(query);
        let n = chars_of(needle.as_str());
        let title = to_lower(self.title.as_str());
        let t = chars_of(title.as_str());
        if contains_chars(t.as_slice(), n.as_slice()) {
            return true;
        }
        let notes = to_lower(self.notes.as_str());
        let nv = chars_of(notes.as_str());
        if contains_chars(nv.as_slice(), n.as_slice()) {
            return true;
        }
        let joined = join_strings(self.tags.as_slice(), " ");
        proof {
            reveal_strlit(" ");
            assert(" "@ =~= seq![' ']);
        }
        let tags = to_lower(joined.as_str());
        let tv = chars_of(tags.as_str());
        contains_chars(tv.as_slice(), n.as_slice())
    }

    /// A copy of this reminder.
    pub fn copy(&self) -> (r: Reminder)
        ensures
            r.tags@ == self.tags@,
            r == (Reminder { tags: r.tags, ..*self }),
    {
        Reminder {
            id: self.id,
            title: self.title.clone(),
            list_name: self.list_name.clone(),
            completed: self.completed,
            flagged: self.flagged,
            urgent: self.urgent,
            priority: self.priority,
            notes: self.notes.clone(),
            url: self.url.clone(),
            section: self.section.clone(),
            tags: copy_strings(self.tags.as_slice()),
            due_raw: self.due_raw.clone(),
            all_day: self.all_day,
            subtask_count: self.subtask_count,
            is_subtask: self.is_subtask,
            recurring: self.recurring,
        }
    }
}


/// One reminder list, as serialized by remctl.
#[derive(Debug, Clone, PartialEq, Eq)]
pub struct ReminderList {
    pub id: i64,
    pub title: String,
    pub color_name: String,
    pub color_hex: String,
    pub emoji: String,
    pub is_group: bool,
    pub is_groceries: bool,
    pub pinned: bool,
    pub active: i64,
    pub completed: i64,
    pub total: i64,
}

impl ReminderList {
    /// An empty, blue list.
    pub fn new() -> (l: ReminderList)
        ensures
            l.id == 0,
            l.title@ == Seq::<char>::empty(),
            l.color_name@ == "blue"@,
            l.color_hex@ == "#007AFF"@,
            l.emoji@ == Seq::<char>::empty(),
            !l.is_group && !l.is_groceries && !l.pinned,
            l.active == 0 && l.completed == 0 && l.total == 0,
    {
        ReminderList {
            id: 0,
            title: String::new(),
            color_name: "blue".to_owned(),
            color_hex: "#007AFF".to_owned(),
            emoji: String::new(),
            is_group: false,
            is_groceries: false,
            pinned: false,
            active: 0,
            completed: 0,
            total: 0,
        }
    }
}

impl Default for ReminderList {
    fn default() -> (l: ReminderList)
        ensures
            l.id == 0,
            l.title@ == Seq::<char>::empty(),
            l.color_name@ == "blue"@,
            l.color_hex@ == "#007AFF"@,
            l.emoji@ == Seq::<char>::empty(),
            !l.is_group && !l.is_groceries && !l.pinned,
            l.active == 0 && l.completed == 0 && l.total == 0,
    {
        ReminderList::new()
    }
}

/// `data[outer][inner]`, where a missing or non-object `outer` reads as an
/// empty object.
pub open spec fn nested(data: Json, outer: Seq<char>, inner: Seq<char>) -> Option<Json> {
    match json_get(data, outer) {
        Some(o) => if o is Object {
            json_get(o, inner)
        } else {
            None
        },
        None => None,
    }
}

/// `v`, or `d` when `v` is empty.
pub open spec fn or_default(v: Seq<char>, d: Seq<char>) -> Seq<char> {
    if v.len() == 0 {
        d
    } else {
        v
    }
}

/// `l` is what `ReminderList::from_json` makes of `data`.
pub open spec fn list_from(data: Json, l: ReminderList) -> bool {
    &&& l.id == json_int(json_get(data, "id"@))
    &&& l.title@ == json_text(json_get(data, "title"@))
    &&& l.color_name@ == or_default(json_text(nested(data, "color"@, "name"@)), "blue"@)
    &&& l.color_hex@ == or_default(json_text(nested(data, "color"@, "hex"@)), "#007AFF"@)
    &&& l.emoji@ == json_text(nested(data, "badge"@, "emoji"@))
    &&& l.is_group == json_truthy(json_get(data, "isGroup"@))
    &&& l.is_groceries == json_truthy(json_get(data, "isGroceries"@))
    &&& l.pinned == json_truthy(json_get(data, "pinned"@))
    &&& l.active == json_int(nested(data, "counts"@, "active"@))
    &&& l.completed == json_int(nested(data, "counts"@, "completed"@))
    &&& l.total == json_int(nested(data, "counts"@, "total"@))
}

fn nested_text(data: &Json, outer: &str, inner: &str) -> (r: String)
    ensures
        r@ == json_text(nested(*data, outer@, inner@)),
{
    match data.get(outer) {
        Some(o) => if o.is_object() {
            str_of(o, inner)
        } else {
            String::new()
        },
        None => String::new(),
    }
}

fn nested_int(data: &Json, outer: &str, inner: &str) -> (r: i64)
    ensures
        r == json_int(nested(*data, outer@, inner@)),
{
    match data.get(outer) {
        Some(o) => if o.is_object() {
            int_of(o, inner)
        } else {
            0
        },
        None => 0,
    }
}

fn text_or(v: String, d: &str) -> (r: String)
    ensures
        r@ == or_default(v@, d@),
{
    if v.as_str().is_empty() {
        d.to_owned()
    } else {
        v
    }
}

impl ReminderList {
    pub fn from_json(data: &Json) -> (l: ReminderList)
        ensures
            list_from(*data, l),
    {
        ReminderList {
            id: int_of(data, "id"),
            title: str_of(data, "title"),
            color_name: text_or(nested_text(data, "color", "name"), "blue"),
            color_hex: text_or(nested_text(data, "color", "hex"), "#007AFF"),
            emoji: nested_text(data, "badge", "emoji"),
            is_group: truthy(data, "isGroup"),
            is_groceries: truthy(data, "isGroceries"),
            pinned: truthy(data, "pinned"),
            active: nested_int(data, "counts", "active"),
            completed: nested_int(data, "counts", "completed"),
            total: nested_int(data, "counts", "total"),
        }
    }
}

/// The objects among `s`, in order.
pub open spec fn json_objects(s: Seq<Json>) -> Seq<Json>
    decreases s.len(),
{
    if s.len() == 0 {
        Seq::empty()
    } else {
        let p = json_objects(s.drop_last());
        if s.last() is Object {
            p.push(s.last())
        } else {
            p
        }
    }
}

/// The rows of a remctl read: a bare array, or the array under the first of
/// `reminders`, `results`, `lists` an object has; objects only.
pub open spec fn payload_rows(p: Json) -> Seq<Json> {
    match p {
        Json::Array(items, _) => json_objects(items@),
        Json::Object(..) => {
            let v = if json_get(p, "reminders"@) is Some {
                json_get(p, "reminders"@)
            } else if json_get(p, "results"@) is Some {
                json_get(p, "results"@)
            } else {
                json_get(p, "lists"@)
            };
            match v {
                Some(Json::Array(items, _)) => json_objects(items@),
                _ => Seq::empty(),
            }
        },
        _ => Seq::empty(),
    }
}

fn objects_of(items: &Vec<Json>) -> (r: Vec<&Json>)
    ensures
        r@.map_values(|x: &Json| *x) == json_objects(items@),
{
    let mut out: Vec<&Json> = Vec::new();
    let mut i: usize = 0;
    while i < items.len()
        invariant
            i <= items@.len(),
            out@.map_values(|x: &Json| *x) == json_objects(items@.take(i as int)),
        decreases items.len() - i,
    {
        let item = &items[i];
        let ghost prev = out@;
        proof {
            assert(items@.take(i + 1).drop_last() =~= items@.take(i as int));
        }
        if item.is_object() {
            out.push(item);
            assert(out@.map_values(|x: &Json| *x) =~= prev.map_values(|x: &Json| *x).push(*item));
        }
        i += 1;
    }
    assert(items@.take(items@.len() as int) =~= items@);
    out
}

/// The rows of a remctl read (see `payload_rows`).
pub fn rows(payload: &Json) -> (r: Vec<&Json>)
    ensures
        r@.map_values(|x: &Json| *x) == payload_rows(*payload),
{
    match payload {
        Json::Array(items, _) => objects_of(items),
        Json::Object(..) => {
            let v = match payload.get("reminders") {
                Some(x) => Some(x),
                None => match payload.get("results") {
                    Some(x) => Some(x),
                    None => payload.get("lists"),
                },
            };
            match v {
                Some(Json::Array(items, _)) => objects_of(items),
                _ => {
                    let out: Vec<&Json> = Vec::new();
                    assert(out@.map_values(|x: &Json| *x) =~= Seq::<Json>::empty());
                    out
                },
            }
        },
        _ => {
            let out: Vec<&Json> = Vec::new();
            assert(out@.map_values(|x: &Json| *x) =~= Seq::<Json>::empty());
            out
        },
    }
}

/// The list rows `parse_lists` keeps: no group containers, and only the first
/// row for each id.
pub open spec fn kept_lists(rows: Seq<Json>) -> Seq<Json>
    decreases rows.len(),
{
    if rows.len() == 0 {
        Seq::empty()
    } else {
        let prev = kept_lists(rows.drop_last());
        let row = rows.last();
        if json_truthy(json_get(row, "isGroup"@)) || exists|j: int|
            0 <= j < prev.len() && json_int(json_get(prev[j], "id"@)) == json_int(
                json_get(row, "id"@),
            ) {
            prev
        } else {
            prev.push(row)
        }
    }
}

/// Parse `lists --json`: drop group containers, dedupe the flattened child
/// duplicates by id, keep the original order.
pub fn parse_lists(payload: &Json) -> (r: Vec<ReminderList>)
    ensures
        r@.len() == kept_lists(payload_rows(*payload)).len(),
        forall|i: int|
            0 <= i < r@.len() ==> list_from(kept_lists(payload_rows(*payload))[i], #[trigger] r@[i]),
{
    let items = rows(payload);
    let ghost all = items@.map_values(|x: &Json| *x);
    let mut seen: Vec<i64> = Vec::new();
    let mut out: Vec<ReminderList> = Vec::new();
    let mut i: usize = 0;
    while i < items.len()
        invariant
            i <= items@.len(),
            all == items@.map_values(|x: &Json| *x),
            out@.len() == kept_lists(all.take(i as int)).len(),
            seen@.len() == out@.len(),
            forall|j: int|
                0 <= j < out@.len() ==> list_from(kept_lists(all.take(i as int))[j], #[trigger] out@[j]),
            forall|j: int|
                0 <= j < seen@.len() ==> #[trigger] seen@[j] == json_int(
                    json_get(kept_lists(all.take(i as int))[j], "id"@),
                ),
        decreases items.len() - i,
    {
        let item = items[i];
        let list = ReminderList::from_json(item);
        let ghost prev = kept_lists(all.take(i as int));
        proof {
            assert(all.take(i + 1).drop_last() =~= all.take(i as int));
            assert(all.take(i + 1).last() == *item);
        }
        let mut dup = false;
        let mut k: usize = 0;
        while k < seen.len()
            invariant
                k <= seen@.len(),
                dup == exists|j: int| 0 <= j < k && seen@[j] == list.id,
            decreases seen.len() - k,
        {
            if seen[k] == list.id {
                dup = true;
            }
            k += 1;
        }
        if !list.is_group && !dup {
            seen.push(list.id);
            out.push(list);
            proof {
                let now = kept_lists(all.take(i + 1));
                assert(!exists|j: int|
                    0 <= j < prev.len() && json_int(json_get(prev[j], "id"@)) == json_int(
                        json_get(*item, "id"@),
                    )) by {
                    if exists|j: int|
                        0 <= j < prev.len() && json_int(json_get(prev[j], "id"@)) == json_int(
                            json_get(*item, "id"@),
                        ) {
                        let j = choose|j: int|
                            0 <= j < prev.len() && json_int(json_get(prev[j], "id"@)) == json_int(
                                json_get(*item, "id"@),
                            );
                        assert(seen@[j] == list.id);
                    }
                }
                assert(now == prev.push(*item));
            }
        } else {
            proof {
                let now = kept_lists(all.take(i + 1));
                if !list.is_group {
                    let j = choose|j: int| 0 <= j < seen@.len() && seen@[j] == list.id;
                    assert(0 <= j < prev.len() && json_int(json_get(prev[j], "id"@)) == json_int(
                        json_get(*item, "id"@),
                    ));
                }
                assert(now == prev);
            }
        }
        i += 1;
    }
    proof {
        assert(all.take(items@.len() as int) =~= all);
    }
    out
}


/// Code-point order on character sequences (`String`'s `Ord`).
pub open spec fn lex_le(a: Seq<char>, b: Seq<char>) -> bool
    decreases a.len(),
{
    if a.len() == 0 {
        true
    } else if b.len() == 0 {
        false
    } else if a[0] != b[0] {
        a[0] < b[0]
    } else {
        lex_le(a.drop_first(), b.drop_first())
    }
}

pub proof fn lemma_lex_total(a: Seq<char>, b: Seq<char>)
    ensures
        lex_le(a, b) || lex_le(b, a),
    decreases a.len(),
{
    if a.len() > 0 && b.len() > 0 && a[0] == b[0] {
        lemma_lex_total(a.drop_first(), b.drop_first());
    }
}

pub proof fn lemma_lex_trans(a: Seq<char>, b: Seq<char>, c: Seq<char>)
    requires
        lex_le(a, b),
        lex_le(b, c),
    ensures
        lex_le(a, c),
    decreases a.len(),
{
    if a.len() > 0 && b.len() > 0 && c.len() > 0 && a[0] == b[0] && b[0] == c[0] {
        lemma_lex_trans(a.drop_first(), b.drop_first(), c.drop_first());
    }
}

/// Whether `a` sorts no later than `b` (`a <= b` on strings).
pub fn lex_le_chars(a: &[char], b: &[char]) -> (r: bool)
    ensures
        r == lex_le(a@, b@),
{
    let mut i: usize = 0;
    assert(a@.skip(0) =~= a@);
    assert(b@.skip(0) =~= b@);
    while i < a.len() && i < b.len() && a[i] == b[i]
        invariant
            i <= a@.len(),
            i <= b@.len(),
            lex_le(a@, b@) == lex_le(a@.skip(i as int), b@.skip(i as int)),
        decreases a.len() - i,
    {
        assert(a@.skip(i as int).drop_first() =~= a@.skip(i + 1));
        assert(b@.skip(i as int).drop_first() =~= b@.skip(i + 1));
        i += 1;
    }
    if i == a.len() {
        true
    } else if i == b.len() {
        false
    } else {
        a[i] < b[i]
    }
}

/// The sort key of a reminder: completed last, then by due date (undated
/// last), priority, and lower-cased title.
pub type DisplayKey = (bool, (u8, DateTime), Priority, String);

/// The order of display keys (the tuple's derived `Ord`).
pub open spec fn key_le(a: DisplayKey, b: DisplayKey) -> bool {
    if a.0 != b.0 {
        !a.0
    } else if a.1.0 != b.1.0 {
        a.1.0 < b.1.0
    } else if a.1.1 != b.1.1 {
        dt_le(a.1.1, b.1.1)
    } else if a.2 != b.2 {
        priority_rank(a.2) < priority_rank(b.2)
    } else {
        lex_le(a.3@, b.3@)
    }
}

pub proof fn lemma_key_total(a: DisplayKey, b: DisplayKey)
    ensures
        key_le(a, b) || key_le(b, a),
{
    lemma_lex_total(a.3@, b.3@);
}

pub proof fn lemma_key_trans(a: DisplayKey, b: DisplayKey, c: DisplayKey)
    requires
        key_le(a, b),
        key_le(b, c),
    ensures
        key_le(a, c),
{
    if a.0 == b.0 && b.0 == c.0 && a.1.0 == b.1.0 && b.1.0 == c.1.0 && a.1.1 == b.1.1 && b.1.1
        == c.1.1 && a.2 == b.2 && b.2 == c.2 {
        lemma_lex_trans(a.3@, b.3@, c.3@);
    }
}

/// `k` is a display key of `r`: its due part is a value `parse_due` may give
/// for `r.due_raw`.
pub open spec fn key_of(r: Reminder, k: DisplayKey) -> bool {
    &&& k.0 == r.completed
    &&& exists|d: Option<DateTime>| #[trigger] due_fits(r.due_raw@, d) && k.1 == match d {
        Some(t) => (0u8, t),
        None => (1u8, DateTime {
            year: 262142,
            month: 12,
            day: 31,
            hour: 23,
            minute: 59,
            second: 59,
            nano: 999_999_999,
        }),
    }
    &&& k.2 == r.priority
    &&& k.3@ == lowercase(r.title@)
}

impl Reminder {
    /// Sort: active before completed, then due date, priority, title.
    pub fn display_key(&self) -> (k: DisplayKey)
        ensures
            key_of(*self, k),
    {
        let due = self.due();
        let k = (self.completed, sort_key(due), self.priority, to_lower(self.title.as_str()));
        assert(due_fits(self.due_raw@, due));
        k
    }
}

fn key_le_exec(a: &DisplayKey, b: &DisplayKey) -> (r: bool)
    ensures
        r == key_le(*a, *b),
{
    if a.0 != b.0 {
        !a.0
    } else if a.1.0 != b.1.0 {
        a.1.0 < b.1.0
    } else if a.1.1 != b.1.1 {
        a.1.1.le(&b.1.1)
    } else if a.2 != b.2 {
        a.2.rank() < b.2.rank()
    } else {
        let x = chars_of(a.3.as_str());
        let y = chars_of(b.3.as_str());
        lex_le_chars(x.as_slice(), y.as_slice())
    }
}

/// Display order between two reminders' keys: an active reminder comes
/// before a completed one; among equally completed ones a dated one before
/// an undated one, and of two dated ones the earlier due moment first.
pub proof fn law_display_order(a: DisplayKey, b: DisplayKey)
    ensures
        !a.0 && b.0 ==> key_le(a, b) && !key_le(b, a),
        a.0 == b.0 && a.1.0 == 0 && b.1.0 == 1 ==> key_le(a, b) && !key_le(b, a),
        a.0 == b.0 && a.1.0 == b.1.0 && moment_before(a.1.1, b.1.1) ==> key_le(a, b) && !key_le(b, a),
        a.0 == b.0 && a.1 == b.1 && ((a.2 is High && !(b.2 is High)) || (a.2 is Medium && (b.2 is Low || b.2 is Unset)) || (
        a.2 is Low && b.2 is Unset)) ==> key_le(a, b) && !key_le(b, a),
        forall|i: int|
            a.0 == b.0 && a.1 == b.1 && a.2 == b.2 && 0 <= i < a.3@.len() && i < b.3@.len() && a.3@.take(i) == b.3@.take(i)
                && #[trigger] a.3@[i] < #[trigger] b.3@[i] ==> key_le(a, b) && !key_le(b, a),
        a.0 == b.0 && a.1 == b.1 && a.2 == b.2 && a.3@.len() < b.3@.len() && b.3@.take(a.3@.len() as int) == a.3@ ==> key_le(a, b)
            && !key_le(b, a),
{
    assert forall|i: int|
        a.0 == b.0 && a.1 == b.1 && a.2 == b.2 && 0 <= i < a.3@.len() && i < b.3@.len() && a.3@.take(i) == b.3@.take(i)
            && #[trigger] a.3@[i] < #[trigger] b.3@[i] implies key_le(a, b) && !key_le(b, a) by {
        lemma_lex_first_difference(a.3@, b.3@, i);
    }
    if a.3@.len() < b.3@.len() && b.3@.take(a.3@.len() as int) == a.3@ {
        lemma_lex_proper_prefix(a.3@, b.3@);
    }
}

proof fn lemma_lex_first_difference(a: Seq<char>, b: Seq<char>, i: int)
    requires
        0 <= i < a.len(),
        i < b.len(),
        a.take(i) == b.take(i),
        a[i] < b[i],
    ensures
        lex_le(a, b),
        !lex_le(b, a),
    decreases i,
{
    if i > 0 {
        assert(a[0] == a.take(i)[0]);
        assert(b[0] == b.take(i)[0]);
        assert(a.drop_first().take(i - 1) =~= b.drop_first().take(i - 1)) by {
            assert forall|k: int| 0 <= k < i - 1 implies a.drop_first()[k] == b.drop_first()[k] by {
                assert(a.take(i)[k + 1] == a[k + 1]);
                assert(b.take(i)[k + 1] == b[k + 1]);
                assert(a.take(i)[k + 1] == b.take(i)[k + 1]);
            }
        }
        lemma_lex_first_difference(a.drop_first(), b.drop_first(), i - 1);
    }
}

proof fn lemma_lex_proper_prefix(a: Seq<char>, b: Seq<char>)
    requires
        a.len() < b.len(),
        b.take(a.len() as int) == a,
    ensures
        lex_le(a, b),
        !lex_le(b, a),
    decreases a.len(),
{
    if a.len() > 0 {
        assert(b[0] == b.take(a.len() as int)[0]);
        assert(b.drop_first().take(a.drop_first().len() as int) =~= a.drop_first()) by {
            assert forall|k: int| 0 <= k < a.len() - 1 implies b.drop_first()[k] == a.drop_first()[k] by {
                assert(b.take(a.len() as int)[k + 1] == a[k + 1]);
            }
        }
        lemma_lex_proper_prefix(a.drop_first(), b.drop_first());
    }
}

/// Reminders whose display keys run in this order are listed soonest
/// first: no dated reminder stands after one due at a later moment with the
/// same completion.
pub open spec fn soonest_first(out: Seq<Reminder>, ks: Seq<DisplayKey>) -> bool {
    &&& ks.len() == out.len()
    &&& forall|i: int| 0 <= i < out.len() ==> key_of(out[i], #[trigger] ks[i])
    &&& forall|a: int, b: int|
        0 <= a < b < out.len() && ks[a].0 == ks[b].0 && ks[a].1.0 == 0 && ks[b].1.0 == 0 ==> !moment_before(
            #[trigger] ks[b].1.1,
            #[trigger] ks[a].1.1,
        )
}

/// The parsed reminder list puts every active reminder before every
/// completed one, and, with the due dates it was sorted by, never a later
/// due moment before an earlier one.
pub proof fn law_parsed_list_order(rows: Seq<Json>, out: Seq<Reminder>)
    requires
        display_sorted(rows, out),
    ensures
        forall|a: int, b: int| 0 <= a < b < out.len() && (#[trigger] out[a]).completed ==> (#[trigger] out[b]).completed,
        exists|ks: Seq<DisplayKey>| #[trigger] soonest_first(out, ks),
{
    let (p, ks) = choose|p: Seq<usize>, ks: Seq<DisplayKey>|
        {
            &&& is_perm(p, rows.len() as int)
            &&& out.len() == rows.len()
            &&& ks.len() == rows.len()
            &&& forall|i: int|
                0 <= i < out.len() ==> reminder_from(rows[#[trigger] p[i] as int], out[i])
                    && key_of(out[i], ks[i])
            &&& forall|a: int, b: int| 0 <= a < b < out.len() ==> key_le(ks[a], ks[b])
        };
    assert(is_perm(p, rows.len() as int));
    assert(ks.len() == out.len());
    assert forall|i: int| 0 <= i < out.len() implies key_of(out[i], #[trigger] ks[i]) by {
        assert(reminder_from(rows[p[i] as int], out[i]));
    }
    assert forall|a: int, b: int| 0 <= a < b < out.len() && (#[trigger] out[a]).completed implies (#[trigger] out[b]).completed by {
        assert(key_of(out[a], ks[a]) && key_of(out[b], ks[b]));
        assert(key_le(ks[a], ks[b]));
        law_display_order(ks[b], ks[a]);
    }
    assert forall|a: int, b: int|
        0 <= a < b < out.len() && ks[a].0 == ks[b].0 && ks[a].1.0 == 0 && ks[b].1.0 == 0 implies !moment_before(
            #[trigger] ks[b].1.1,
            #[trigger] ks[a].1.1,
        ) by {
        assert(key_le(ks[a], ks[b]));
        law_display_order(ks[b], ks[a]);
    }
    assert(soonest_first(out, ks));
}

/// `p` lists each of `0..n` exactly once.
pub open spec fn is_perm(p: Seq<usize>, n: int) -> bool {
    &&& p.len() == n
    &&& forall|i: int| 0 <= i < n ==> #[trigger] p[i] < n
    &&& forall|i: int, j: int| 0 <= i < j < n ==> p[i] != p[j]
}

/// The positions of `keys` in stable sorted order.
fn sorted_order(keys: &Vec<DisplayKey>) -> (p: Vec<usize>)
    ensures
        is_perm(p@, keys@.len() as int),
        forall|a: int, b: int|
            0 <= a < b < p@.len() ==> key_le(keys@[p@[a] as int], keys@[p@[b] as int]),
{
    let n = keys.len();
    let mut p: Vec<usize> = Vec::new();
    let mut i: usize = 0;
    while i < n
        invariant
            i <= n,
            n == keys@.len(),
            p@.len() == i,
            forall|k: int| 0 <= k < i ==> #[trigger] p@[k] == k,
        decreases n - i,
    {
        p.push(i);
        i += 1;
    }
    let mut i: usize = 1;
    while i < n
        invariant
            n == keys@.len(),
            1 <= i || n == 0,
            i <= n || n == 0,
            is_perm(p@, n as int),
            forall|a: int, b: int|
                0 <= a < b < i && b < n ==> key_le(keys@[p@[a] as int], keys@[p@[b] as int]),
        decreases n - i,
    {
        let mut j: usize = i;
        while j > 0 && !key_le_exec(&keys[p[j - 1]], &keys[p[j]])
            invariant
                n == keys@.len(),
                0 <= j <= i < n,
                is_perm(p@, n as int),
                forall|a: int, b: int|
                    0 <= a < b <= i && a != j && b != j ==> key_le(
                        keys@[p@[a] as int],
                        keys@[p@[b] as int],
                    ),
                forall|b: int|
                    j < b <= i ==> !key_le(keys@[p@[b] as int], keys@[p@[j as int] as int]),
            decreases j,
        {
            let ghost before = p@;
            let x = p[j - 1];
            let y = p[j];
            p.set(j - 1, y);
            p.set(j, x);
            proof {
                assert(p@ == before.update(j - 1, y).update(j as int, x));
                assert forall|a: int, b: int| 0 <= a < b < n implies p@[a] != p@[b] by {
                    if a != j - 1 && a != j && b != j - 1 && b != j {
                        assert(p@[a] == before[a] && p@[b] == before[b]);
                    }
                }
                assert forall|k: int| 0 <= k < n implies #[trigger] p@[k] < n by {
                    if k != j - 1 && k != j {
                        assert(p@[k] == before[k]);
                    }
                }
                lemma_key_total(keys@[x as int], keys@[y as int]);
                assert forall|b: int| j - 1 < b <= i implies !key_le(
                    keys@[#[trigger] p@[b] as int],
                    keys@[p@[j - 1] as int],
                ) by {
                    if b == j {
                    } else {
                        assert(p@[b] == before[b]);
                        if key_le(keys@[p@[b] as int], keys@[y as int]) {
                            // y sorts strictly before x, and b came after both
                            assert(key_le(keys@[x as int], keys@[before[b] as int]));
                            lemma_key_trans(keys@[x as int], keys@[before[b] as int], keys@[y as int]);
                        }
                    }
                }
                assert forall|a: int, b: int|
                    0 <= a < b <= i && a != j - 1 && b != j - 1 implies key_le(
                    keys@[p@[a] as int],
                    keys@[p@[b] as int],
                ) by {
                    if b == j {
                        assert(p@[b] == x);
                        assert(before[a] == p@[a]);
                        assert(key_le(keys@[before[a] as int], keys@[before[j - 1] as int]));
                    } else if a == j {
                        assert(p@[a] == x);
                        assert(before[b] == p@[b]);
                        assert(key_le(keys@[before[j - 1] as int], keys@[before[b] as int]));
                    } else {
                        assert(p@[a] == before[a] && p@[b] == before[b]);
                    }
                }
            }
            j -= 1;
        }
        proof {
            assert forall|a: int, b: int| 0 <= a < b < i + 1 && b < n implies key_le(
                keys@[p@[a] as int],
                keys@[p@[b] as int],
            ) by {
                if b == j {
                    if a < j - 1 {
                        lemma_key_trans(
                            keys@[p@[a] as int],
                            keys@[p@[j - 1] as int],
                            keys@[p@[j as int] as int],
                        );
                    }
                } else if a == j {
                    lemma_key_total(keys@[p@[a] as int], keys@[p@[b] as int]);
                }
            }
        }
        i += 1;
    }
    p
}

/// `out` is `rows` made into reminders and put in display order: a
/// permutation of the rows, sorted by some choice of display keys.
pub open spec fn display_sorted(rows: Seq<Json>, out: Seq<Reminder>) -> bool {
    exists|p: Seq<usize>, ks: Seq<DisplayKey>|
        {
            &&& is_perm(p, rows.len() as int)
            &&& out.len() == rows.len()
            &&& ks.len() == rows.len()
            &&& forall|i: int|
                0 <= i < out.len() ==> reminder_from(rows[#[trigger] p[i] as int], out[i])
                    && key_of(out[i], ks[i])
            &&& forall|a: int, b: int| 0 <= a < b < out.len() ==> key_le(ks[a], ks[b])
        }
}

pub fn parse_reminders(payload: &Json) -> (r: Vec<Reminder>)
    ensures
        display_sorted(payload_rows(*payload), r@),
{
    let items = rows(payload);
    let ghost all = items@.map_values(|x: &Json| *x);
    let mut rs: Vec<Reminder> = Vec::new();
    let mut keys: Vec<DisplayKey> = Vec::new();
    let mut i: usize = 0;
    while i < items.len()
        invariant
            i <= items@.len(),
            all == items@.map_values(|x: &Json| *x),
            rs@.len() == i,
            keys@.len() == i,
            forall|j: int|
                0 <= j < i ==> reminder_from(all[j], #[trigger] rs@[j]) && key_of(rs@[j], keys@[j]),
        decreases items.len() - i,
    {
        let r = Reminder::from_json(items[i]);
        let k = r.display_key();
        rs.push(r);
        keys.push(k);
        i += 1;
    }
    let p = sorted_order(&keys);
    let mut out: Vec<Reminder> = Vec::new();
    let mut k: usize = 0;
    while k < p.len()
        invariant
            k <= p@.len(),
            p@.len() == rs@.len(),
            rs@.len() == keys@.len(),
            keys@.len() == all.len(),
            is_perm(p@, rs@.len() as int),
            out@.len() == k,
            forall|j: int|
                0 <= j < rs@.len() ==> reminder_from(all[j], #[trigger] rs@[j]) && key_of(rs@[j], keys@[j]),
            forall|j: int|
                0 <= j < k ==> reminder_from(all[p@[j] as int], #[trigger] out@[j]) && key_of(
                    out@[j],
                    keys@[p@[j] as int],
                ),
        decreases p.len() - k,
    {
        let c = rs[p[k]].copy();
        proof {
            let src = rs@[p@[k as int] as int];
            assert(string_views(c.tags@) == string_views(src.tags@));
            assert(reminder_from(all[p@[k as int] as int], src));
            assert(reminder_from(all[p@[k as int] as int], c));
            assert(key_of(src, keys@[p@[k as int] as int]));
            assert(c.due_raw == src.due_raw);
            assert(key_of(c, keys@[p@[k as int] as int]));
        }
        let ghost prev = out@;
        out.push(c);
        proof {
            assert forall|j: int| 0 <= j < k + 1 implies reminder_from(all[p@[j] as int], #[trigger] out@[j]) && key_of(
                    out@[j],
                    keys@[p@[j] as int],
                ) by {
                if j < k {
                    assert(out@[j] == prev[j]);
                }
            }
        }
        k += 1;
    }
    proof {
        let ks = Seq::new(rs@.len(), |j: int| keys@[p@[j] as int]);
        assert(all == payload_rows(*payload));
        assert(is_perm(p@, all.len() as int) && out@.len() == all.len() && ks.len() == all.len()
            && (forall|j: int|
            0 <= j < out@.len() ==> reminder_from(all[#[trigger] p@[j] as int], out@[j]) && key_of(
                out@[j],
                ks[j],
            )) && (forall|a: int, b: int| 0 <= a < b < out@.len() ==> key_le(ks[a], ks[b])));
    }
    out
}

} // verus!
