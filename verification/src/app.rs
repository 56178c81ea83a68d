//! Application state and its update rules.
//!
//! The state never touches the terminal, the clock or remctl. The driver
//! hands it key presses, mouse events, finished work and the time (in
//! milliseconds on a monotonic clock), and takes back the work to start as
//! `Effect` values. Loads are tagged with a generation number; a result for
//! an older load is dropped, never cancelled mid-flight. Modals are an
//! `Overlay` value on the state.

use vstd::prelude::*;

use crate::client::{flag_target, flag_target_of, payload_warnings, warnings_of, AddFields, EditFields, RemctlError};
use crate::config::{BearConfig, Config};
use crate::json::Json;
use crate::keys::{Action, KeyCode, KeyEvent, Keymap, CONTROL};
use crate::models::{next_priority, priority_word, reminder_matches, Priority, Reminder, ReminderList, SmartView};
use crate::text::{chars_of, push_str, string_of, trim, trim_str};
use crate::ui::field::Field;
use crate::ui::form::{Form, FormEvent};

verus! {

/// Two `g` presses this many milliseconds apart, or closer, are `gg` in the
/// vim profile.
pub const GG_CHORD: u64 = 750;
pub const UPCOMING_DAYS: u32 = 7;
/// Two clicks this many milliseconds apart, or closer, on the same row open
/// the editor.
pub const DOUBLE_CLICK: u64 = 400;
/// The latest time the state takes; every deadline it sets from there still
/// fits in a `u64`.
pub const CLOCK_MAX: u64 = 0xffff_ffff_ffff_0000;

#[derive(Debug, Clone, Copy, PartialEq, Eq, Structural)]
pub enum Pane {
    Nav,
    Reminders,
    Filter,
}

/// What the main list shows.
#[derive(Debug, Clone, Copy, PartialEq, Eq, Structural)]
pub enum ViewKind {
    Smart(SmartView),
    /// A list, by id.
    List(i64),
}

/// One row of the sidebar.
#[derive(Debug, Clone, Copy, PartialEq, Eq)]
pub enum NavItem {
    Header(&'static str),
    Blank,
    Smart(SmartView),
    /// Index into `App::lists`.
    List(usize),
}

impl NavItem {
    /// Whether the cursor can rest on this row: a smart view or a list.
    pub fn selectable(&self) -> (r: bool)
        ensures
            r == (*self is Smart || *self is List),
    {
        match self {
            NavItem::Smart(_) | NavItem::List(_) => true,
            _ => false,
        }
    }
}

#[derive(Debug, Clone, Copy, PartialEq, Eq, Structural)]
pub enum Severity {
    Information,
    Warning,
    Error,
}

/// A notice in the corner, until the time `expires`.
#[derive(Debug, Clone)]
pub struct Toast {
    pub title: String,
    pub message: String,
    pub severity: Severity,
    pub expires: u64,
}

/// What a confirmed dialog goes on to do.
#[derive(Debug, Clone)]
pub enum Pending {
    Delete(Reminder),
}

/// A modal over the main screen.
#[derive(Debug, Clone)]
pub enum Overlay {
    Help { scroll: usize },
    Form(Box<Form>),
    Confirm {
        title: String,
        message: String,
        confirm_label: String,
        danger: bool,
        /// The confirm button has focus (Cancel is focused first, so a stray
        /// Enter right after `d` cannot delete).
        focus_confirm: bool,
        action: Pending,
    },
}

impl Overlay {
    pub fn name(&self) -> (r: &'static str)
        ensures
            r@ == match *self {
                Overlay::Help { .. } => "help"@,
                Overlay::Form(_) => "form"@,
                Overlay::Confirm { .. } => "confirm"@,
            },
    {
        match self {
            Overlay::Help { .. } => "help",
            Overlay::Form(_) => "form",
            Overlay::Confirm { .. } => "confirm",
        }
    }
}

/// A write that reports back as `Msg::Mutated`.
#[derive(Debug, Clone)]
pub enum Write {
    Done(i64),
    Undone(i64),
    Delete(i64),
    Edit(i64, EditFields),
}

/// Work for the driver to start. Each reports back as the `Msg` named.
#[derive(Debug, Clone)]
pub enum Effect {
    /// Fetch the lists; reports `Msg::Lists`.
    LoadLists { generation: u64 },
    /// Fetch a view's reminders (a list view by its title, when the list is
    /// known, else nothing); reports `Msg::View`.
    LoadView { generation: u64, view: ViewKind, list_title: Option<String>, show_completed: bool },
    /// Run a write; reports `Msg::Mutated` with this message.
    Mutate { message: String, write: Write },
    /// Flag or unflag a reminder; reports `Msg::Flagged`.
    Flag { id: i64, wanted: bool },
    /// Add a reminder; reports `Msg::Saved` for an add.
    Add { fields: AddFields },
    /// Edit a reminder's fields; reports `Msg::Saved` for an edit, with the
    /// flag change to write after it.
    Edit { id: i64, fields: EditFields, follow_flag: Option<(i64, bool)> },
    /// Hand these notes to `$EDITOR`; the driver calls `editor_done`.
    Editor { notes: String },
}

/// Results of background work.
#[derive(Debug)]
pub enum Msg {
    Lists { generation: u64, result: Result<Vec<ReminderList>, RemctlError> },
    View { generation: u64, result: Result<Vec<Reminder>, RemctlError> },
    /// A done/undone/delete/priority write finished.
    Mutated { message: String, result: Result<Option<Json>, RemctlError> },
    /// A flag/unflag write finished.
    Flagged { id: i64, wanted: bool, result: Result<Option<Json>, RemctlError> },
    /// The form's add or field edit finished.
    Saved {
        is_edit: bool,
        /// A flag change to write once the field edit has landed.
        follow_flag: Option<(i64, bool)>,
        result: Result<Option<Json>, RemctlError>,
    },
}

/// A screen rectangle.
#[derive(Debug, Clone, Copy, PartialEq, Eq, Structural)]
pub struct Rect {
    pub x: u16,
    pub y: u16,
    pub width: u16,
    pub height: u16,
}

/// Whether the cell at column `x`, row `y` lies in `r`.
pub open spec fn inside(r: Rect, x: u16, y: u16) -> bool {
    r.x <= x < r.x + r.width && r.y <= y < r.y + r.height
}

impl Rect {
    pub fn new(x: u16, y: u16, width: u16, height: u16) -> (r: Rect)
        ensures
            r == (Rect { x, y, width, height }),
    {
        Rect { x, y, width, height }
    }

    /// Whether the cell at column `x`, row `y` lies in this rectangle.
    pub fn contains(&self, x: u16, y: u16) -> (r: bool)
        ensures
            r == inside(*self, x, y),
    {
        x >= self.x && (x as u32) < self.x as u32 + self.width as u32 && y >= self.y && (y as u32) < self.y as u32
            + self.height as u32
    }
}

/// Where the draw pass put things, for mouse hit testing.
#[derive(Debug, Clone)]
pub struct Rects {
    pub nav_rows: Rect,
    pub list_rows: Rect,
    /// (first screen row, height) of each visible reminder row, in `shown`
    /// order from `scroll`.
    pub row_spans: Vec<(u16, u16)>,
    pub filter: Rect,
}

/// What a mouse event was.
#[derive(Debug, Clone, Copy, PartialEq, Eq, Structural)]
pub enum MouseKind {
    LeftDown,
    ScrollDown,
    ScrollUp,
    Other,
}

#[derive(Debug, Clone, Copy, PartialEq, Eq, Structural)]
pub struct MouseEvent {
    pub kind: MouseKind,
    pub column: u16,
    pub row: u16,
}

pub struct App {
    pub config: Config,
    pub keymap: Keymap,
    pub bear_config: BearConfig,
    /// The environment, as (name, value) pairs.
    pub environ: Vec<(String, String)>,
    pub running: bool,
    pub focus: Pane,
    pub lists: Vec<ReminderList>,
    pub nav: Vec<NavItem>,
    pub nav_cursor: usize,
    pub nav_scroll: usize,
    pub view: ViewKind,
    pub reminders: Vec<Reminder>,
    /// Indices into `reminders` that pass the filter, in display order.
    pub shown: Vec<usize>,
    /// Index into `shown`.
    pub cursor: usize,
    pub scroll: usize,
    pub filter_text: String,
    pub filter: Option<Field>,
    pub show_completed: bool,
    pub loading: bool,
    /// The first lists reply has arrived.
    pub loaded: bool,
    pub view_loaded: bool,
    pub overlay: Option<Overlay>,
    pub toasts: Vec<Toast>,
    pub rects: Rects,
    pub show_logo: bool,
    /// Work asked for and not yet taken by the driver, oldest first.
    pub effects: Vec<Effect>,
    pub lists_gen: u64,
    pub view_gen: u64,
    /// When a lone `g` was pressed in the vim profile.
    pub last_g: Option<u64>,
    /// When and on which row the last click landed.
    pub last_click: Option<(u64, usize)>,
    /// Row heights of `shown` as last drawn, for paging by viewport share.
    pub row_heights: Vec<u16>,
    pub list_height: u16,
    /// Reminder ids with a flag write in flight.
    pub pending_flags: Vec<i64>,
}

/// The first place a list with this id stands in `lists`.
pub open spec fn first_id(lists: Seq<ReminderList>, id: i64) -> Option<int>
    decreases lists.len(),
{
    if lists.len() == 0 {
        None
    } else if lists[0].id == id {
        Some(0)
    } else {
        match first_id(lists.drop_first(), id) {
            Some(i) => Some(i + 1),
            None => None,
        }
    }
}

proof fn lemma_first_id_at(lists: Seq<ReminderList>, id: i64, i: int)
    requires
        0 <= i < lists.len(),
        lists[i].id == id,
        forall|j: int| 0 <= j < i ==> lists[j].id != id,
    ensures
        first_id(lists, id) == Some(i),
    decreases i,
{
    if i > 0 {
        lemma_first_id_at(lists.drop_first(), id, i - 1);
    }
}

proof fn lemma_first_id_none(lists: Seq<ReminderList>, id: i64)
    requires
        forall|j: int| 0 <= j < lists.len() ==> lists[j].id != id,
    ensures
        first_id(lists, id) is None,
    decreases lists.len(),
{
    if lists.len() > 0 {
        lemma_first_id_none(lists.drop_first(), id);
    }
}

/// Where the list with this id stands, by a walk from the front.
fn find_list_index(lists: &Vec<ReminderList>, id: i64) -> (r: Option<usize>)
    ensures
        match r {
            Some(i) => first_id(lists@, id) == Some(i as int) && i < lists@.len(),
            None => first_id(lists@, id) is None,
        },
{
    let mut i: usize = 0;
    while i < lists.len()
        invariant
            i <= lists@.len(),
            forall|j: int| 0 <= j < i ==> lists@[j].id != id,
        decreases lists.len() - i,
    {
        if lists[i].id == id {
            proof {
                lemma_first_id_at(lists@, id, i as int);
            }
            return Some(i);
        }
        i += 1;
    }
    proof {
        lemma_first_id_none(lists@, id);
    }
    None
}

/// The list a view shows, when it is a list that is loaded.
pub open spec fn viewed_list(lists: Seq<ReminderList>, view: ViewKind) -> Option<ReminderList> {
    match view {
        ViewKind::List(id) => match first_id(lists, id) {
            Some(i) => Some(lists[i]),
            None => None,
        },
        ViewKind::Smart(_) => None,
    }
}

/// The title of the list a new reminder goes to: the current list's, else
/// the first list's, else "".
pub open spec fn default_title(lists: Seq<ReminderList>, view: ViewKind) -> Seq<char> {
    match viewed_list(lists, view) {
        Some(l) => l.title@,
        None => if lists.len() > 0 {
            lists[0].title@
        } else {
            Seq::empty()
        },
    }
}

/// The environment value of `name`, as the first pair with that name holds it.
pub open spec fn env_value(env: Seq<(String, String)>, name: Seq<char>) -> Option<Seq<char>>
    decreases env.len(),
{
    if env.len() == 0 {
        None
    } else if env[0].0@ == name {
        Some(env[0].1@)
    } else {
        env_value(env.drop_first(), name)
    }
}

/// One more load: the next generation number, wrapping after the last.
pub open spec fn next_gen(g: u64) -> u64 {
    if g == u64::MAX {
        0
    } else {
        (g + 1) as u64
    }
}

fn bump(g: u64) -> (r: u64)
    ensures
        r == next_gen(g),
{
    if g == u64::MAX {
        0
    } else {
        g + 1
    }
}

/// A form whose fields are well formed.
pub open spec fn form_ok(f: Form) -> bool {
    f.wf()
}

/// A key can go to the state: one more character fits in the open form's
/// fields and in the filter, and the help can scroll one more row.
pub open spec fn key_ok(a: App) -> bool {
    &&& (a.overlay matches Some(Overlay::Form(f)) ==> {
        &&& f.title.value@.len() + 1 < usize::MAX
        &&& f.due.value@.len() + 1 < usize::MAX
        &&& f.notes.text@.len() + 1 < usize::MAX
    })
    &&& (a.filter matches Some(f) ==> f.value@.len() + 1 < usize::MAX)
    &&& (a.overlay matches Some(Overlay::Help { scroll }) ==> scroll < usize::MAX)
}

/// A reminder whose texts a form can take.
pub open spec fn rem_fits(r: Reminder) -> bool {
    r.title@.len() < usize::MAX && r.notes@.len() < usize::MAX
}

impl App {
    /// The state is well formed: every shown row is a reminder, the cursor
    /// is on a shown row (or at 0 with none shown), every list row of the
    /// sidebar names a list, the open form and the filter take keys, the
    /// times the state holds lie on the clock it accepts, and every reminder
    /// and the filter text fit a form field.
    pub open spec fn wf(&self) -> bool {
        &&& self.rows_ok()
        &&& self.nav_ok()
        &&& self.rest_ok()
    }

    /// Every shown row is a reminder, and the cursor is on a shown row (or
    /// at 0 with none shown).
    pub open spec fn rows_ok(&self) -> bool {
        &&& forall|i: int| 0 <= i < self.shown@.len() ==> (#[trigger] self.shown@[i]) < self.reminders@.len()
        &&& (self.shown@.len() == 0 ==> self.cursor == 0)
        &&& (self.shown@.len() > 0 ==> self.cursor < self.shown@.len())
    }

    /// Every list row of the sidebar names a list.
    pub open spec fn nav_ok(&self) -> bool {
        forall|i: int|
            0 <= i < self.nav@.len() ==> (#[trigger] self.nav@[i] matches NavItem::List(j) ==> j < self.lists@.len())
    }

    /// The open form and the filter are well formed, the times the state
    /// holds lie on the clock it accepts, and every reminder and the filter
    /// text fit a form field.
    pub open spec fn rest_ok(&self) -> bool {
        &&& (self.overlay matches Some(Overlay::Form(f)) ==> form_ok(*f))
        &&& (self.filter matches Some(f) ==> f.wf())
        &&& (self.last_g matches Some(at) ==> at <= CLOCK_MAX)
        &&& (self.last_click matches Some((at, _)) ==> at <= CLOCK_MAX)
        &&& forall|i: int| 0 <= i < self.reminders@.len() ==> rem_fits(#[trigger] self.reminders@[i])
        &&& self.filter_text@.len() < usize::MAX
    }

    /// The state before its first load, with the key table the config and
    /// the vim switch give.
    pub fn new(config: Config, vim: bool, environ: Vec<(String, String)>) -> (app: App)
        ensures
            app.wf(),
            app.keymap.vim_profile() == vim,
            app.keymap.bound() == crate::keys::keymap_entries(config.overrides@, crate::keys::binding_table().len() as int),
            app.bear_config == (BearConfig { tags: app.bear_config.tags, ..config.bear }),
            crate::text::string_views(app.bear_config.tags@) == crate::text::string_views(config.bear.tags@),
            app.config == config,
            app.environ == environ,
            app.running,
            app.focus == Pane::Nav,
            app.lists@.len() == 0,
            app.nav@.len() == 0,
            app.nav_cursor == 1,
            app.nav_scroll == 0,
            app.view == ViewKind::Smart(SmartView::Today),
            app.reminders@.len() == 0,
            app.shown@.len() == 0,
            app.cursor == 0,
            app.scroll == 0,
            app.filter_text@.len() == 0,
            app.filter is None,
            !app.show_completed,
            !app.loading,
            !app.loaded,
            !app.view_loaded,
            app.overlay is None,
            app.toasts@.len() == 0,
            app.show_logo,
            app.effects@.len() == 0,
            app.lists_gen == 0,
            app.view_gen == 0,
            app.last_g is None,
            app.last_click is None,
            app.row_heights@.len() == 0,
            app.list_height == 0,
            app.pending_flags@.len() == 0,
    {
        let keymap = Keymap::new(vim, &config.overrides);
        let bear_config = BearConfig {
            enabled: config.bear.enabled,
            list: config.bear.list.clone(),
            due: config.bear.due.clone(),
            tags: crate::text::copy_strings(config.bear.tags.as_slice()),
            bearcli: config.bear.bearcli.clone(),
        };
        let origin = Rect::new(0, 0, 0, 0);
        App {
            config,
            keymap,
            bear_config,
            environ,
            running: true,
            focus: Pane::Nav,
            lists: Vec::new(),
            nav: Vec::new(),
            nav_cursor: 1,
            nav_scroll: 0,
            view: ViewKind::Smart(SmartView::Today),
            reminders: Vec::new(),
            shown: Vec::new(),
            cursor: 0,
            scroll: 0,
            filter_text: String::new(),
            filter: None,
            show_completed: false,
            loading: false,
            loaded: false,
            view_loaded: false,
            overlay: None,
            toasts: Vec::new(),
            rects: Rects { nav_rows: origin, list_rows: origin, row_spans: Vec::new(), filter: origin },
            show_logo: true,
            effects: Vec::new(),
            lists_gen: 0,
            view_gen: 0,
            last_g: None,
            last_click: None,
            row_heights: Vec::new(),
            list_height: 0,
            pending_flags: Vec::new(),
        }
    }

    /// The environment value of `name`, unless it is empty.
    pub fn env(&self, name: &str) -> (r: Option<String>)
        ensures
            match env_value(self.environ@, name@) {
                Some(v) => if v.len() > 0 {
                    r matches Some(s) && s@ == v
                } else {
                    r is None
                },
                None => r is None,
            },
    {
        let mut i: usize = 0;
        assert(self.environ@.skip(0) =~= self.environ@);
        while i < self.environ.len()
            invariant
                i <= self.environ@.len(),
                env_value(self.environ@, name@) == env_value(self.environ@.skip(i as int), name@),
            decreases self.environ.len() - i,
        {
            assert(self.environ@.skip(i as int).drop_first() =~= self.environ@.skip(i + 1));
            if crate::models::same_str(self.environ[i].0.as_str(), name) {
                if self.environ[i].1.as_str().is_empty() {
                    return None;
                }
                return Some(self.environ[i].1.clone());
            }
            i += 1;
        }
        None
    }

    pub fn bear_enabled(&self) -> (r: bool)
        ensures
            r == self.bear_config.enabled,
    {
        self.bear_config.enabled
    }

    /// The list the view shows, when it is a loaded list.
    pub fn current_list(&self) -> (r: Option<&ReminderList>)
        ensures
            match r {
                Some(l) => viewed_list(self.lists@, self.view) == Some(*l),
                None => viewed_list(self.lists@, self.view) is None,
            },
    {
        match self.view {
            ViewKind::List(id) => match find_list_index(&self.lists, id) {
                Some(i) => Some(&self.lists[i]),
                None => None,
            },
            ViewKind::Smart(_) => None,
        }
    }

    pub fn current_smart(&self) -> (r: Option<SmartView>)
        ensures
            r == match self.view {
                ViewKind::Smart(v) => Some(v),
                ViewKind::List(_) => None,
            },
    {
        match self.view {
            ViewKind::Smart(v) => Some(v),
            ViewKind::List(_) => None,
        }
    }

    /// The list a new reminder goes to: the current one, else the first.
    pub fn default_list_title(&self) -> (r: String)
        ensures
            r@ == default_title(self.lists@, self.view),
    {
        match self.current_list() {
            Some(l) => l.title.clone(),
            None => if self.lists.len() > 0 {
                self.lists[0].title.clone()
            } else {
                String::new()
            },
        }
    }

    /// The reminder under the cursor.
    pub fn selected(&self) -> (r: Option<&Reminder>)
        requires
            self.wf(),
        ensures
            match r {
                Some(rem) => self.cursor < self.shown@.len() && *rem == self.reminders@[self.shown@[self.cursor as int] as int],
                None => self.cursor >= self.shown@.len(),
            },
    {
        if self.cursor < self.shown.len() {
            let i = self.shown[self.cursor];
            Some(&self.reminders[i])
        } else {
            None
        }
    }

    /// Whether the selection-dependent keys act right now.
    pub fn has_selection(&self) -> (r: bool)
        ensures
            r == (self.view_loaded && self.shown@.len() > 0),
    {
        self.view_loaded && self.shown.len() > 0
    }

    /// Whether a flag write is in flight for this reminder.
    pub fn is_pending(&self, id: i64) -> (r: bool)
        ensures
            r == self.pending_flags@.contains(id),
    {
        let mut i: usize = 0;
        while i < self.pending_flags.len()
            invariant
                i <= self.pending_flags@.len(),
                forall|j: int| 0 <= j < i ==> self.pending_flags@[j] != id,
            decreases self.pending_flags.len() - i,
        {
            if self.pending_flags[i] == id {
                assert(self.pending_flags@[i as int] == id);
                return true;
            }
            i += 1;
        }
        false
    }

    /// The toasts' messages, oldest first.
    pub fn toast_messages(&self) -> (r: Vec<String>)
        ensures
            r@.len() == self.toasts@.len(),
            forall|i: int| 0 <= i < r@.len() ==> r@[i] == #[trigger] self.toasts@[i].message,
    {
        let mut out: Vec<String> = Vec::new();
        let mut i: usize = 0;
        while i < self.toasts.len()
            invariant
                i <= self.toasts@.len(),
                out@.len() == i,
                forall|j: int| 0 <= j < i ==> out@[j] == #[trigger] self.toasts@[j].message,
            decreases self.toasts.len() - i,
        {
            out.push(self.toasts[i].message.clone());
            i += 1;
        }
        out
    }

    /// The work asked for since the last call, oldest first; none is left.
    pub fn take_effects(&mut self) -> (r: Vec<Effect>)
        ensures
            r@ == old(self).effects@,
            final(self).effects@.len() == 0,
            *final(self) == (App { effects: final(self).effects, ..*old(self) }),
    {
        let mut taken: Vec<Effect> = Vec::new();
        std::mem::swap(&mut taken, &mut self.effects);
        taken
    }
}


/// `t` is a toast with these texts, severity and expiry.
pub open spec fn toast_is(t: Toast, title: Seq<char>, message: Seq<char>, severity: Severity, expires: int) -> bool {
    t.title@ == title && t.message@ == message && t.severity == severity && t.expires == expires
}

/// `b` is `a` with one toast more at the end, as described.
pub open spec fn toast_pushed(
    a: Seq<Toast>,
    b: Seq<Toast>,
    title: Seq<char>,
    message: Seq<char>,
    severity: Severity,
    expires: int,
) -> bool {
    b.len() == a.len() + 1 && b.drop_last() == a && toast_is(b.last(), title, message, severity, expires)
}

/// `b` is `a` with a toast for this notice, lasting `seconds`.
pub open spec fn notified(
    a: App,
    b: App,
    title: Seq<char>,
    message: Seq<char>,
    severity: Severity,
    seconds: u64,
    now: u64,
) -> bool {
    &&& toast_pushed(a.toasts@, b.toasts@, title, message, severity, now + seconds * 1000)
    &&& b == App { toasts: b.toasts, ..a }
}

/// `b` is `a` with an error toast for a failed remctl call.
pub open spec fn errored(a: App, b: App, err: RemctlError, now: u64) -> bool {
    notified(a, b, "remctl"@, err.message@, Severity::Error, 8, now)
}

/// The toasts still up at `now`.
pub open spec fn live_toasts(ts: Seq<Toast>, now: u64) -> Seq<Toast>
    decreases ts.len(),
{
    if ts.len() == 0 {
        ts
    } else if ts.last().expires > now {
        live_toasts(ts.drop_last(), now).push(ts.last())
    } else {
        live_toasts(ts.drop_last(), now)
    }
}

/// The earliest expiry among the toasts.
pub open spec fn first_expiry(ts: Seq<Toast>) -> Option<u64>
    decreases ts.len(),
{
    if ts.len() == 0 {
        None
    } else {
        match first_expiry(ts.drop_last()) {
            Some(m) => Some(if ts.last().expires < m {
                ts.last().expires
            } else {
                m
            }),
            None => Some(ts.last().expires),
        }
    }
}

/// The next time the state changes by itself: a toast expiring or a lone
/// `g` running out.
pub open spec fn deadline(ts: Seq<Toast>, last_g: Option<u64>) -> Option<int> {
    match last_g {
        Some(at) => {
            let chord = at + GG_CHORD;
            match first_expiry(ts) {
                Some(m) => Some(if m < chord {
                    m as int
                } else {
                    chord
                }),
                None => Some(chord),
            }
        },
        None => match first_expiry(ts) {
            Some(m) => Some(m as int),
            None => None,
        },
    }
}

/// `b` is `a` after asking for the lists again.
pub open spec fn lists_requested(a: App, b: App) -> bool {
    &&& b.lists_gen == next_gen(a.lists_gen)
    &&& b.effects@ == a.effects@.push(Effect::LoadLists { generation: b.lists_gen })
    &&& b == App { lists_gen: b.lists_gen, effects: b.effects, ..a }
}

/// The load that fetches a view: a list view names its list's title when
/// the list is loaded.
pub open spec fn view_load(a: App, generation: u64) -> Effect {
    Effect::LoadView {
        generation,
        view: a.view,
        list_title: match viewed_list(a.lists@, a.view) {
            Some(l) => Some(l.title),
            None => None,
        },
        show_completed: a.show_completed,
    }
}

/// `b` is `a` after asking for the view's reminders again.
pub open spec fn view_requested(a: App, b: App) -> bool {
    &&& b.view_gen == next_gen(a.view_gen)
    &&& b.effects@ == a.effects@.push(view_load(a, b.view_gen))
    &&& b == App { view_gen: b.view_gen, loading: true, effects: b.effects, ..a }
}

/// The next view load and sidebar load, after `a`'s.
pub open spec fn reloads(a: App) -> Seq<Effect> {
    seq![view_load(a, next_gen(a.view_gen)), Effect::LoadLists { generation: next_gen(a.lists_gen) }]
}

/// `b` is `a` after reloading the view and then the sidebar.
pub open spec fn reloaded(a: App, b: App) -> bool {
    &&& b.view_gen == next_gen(a.view_gen)
    &&& b.lists_gen == next_gen(a.lists_gen)
    &&& b.effects@ == a.effects@ + reloads(a)
    &&& b == App { view_gen: b.view_gen, lists_gen: b.lists_gen, loading: true, effects: b.effects, ..a }
}

impl App {
    /// Show a notice for `seconds`.
    pub fn notify(&mut self, message: &str, seconds: u64, now: u64)
        requires
            now + seconds * 1000 <= u64::MAX,
        ensures
            notified(*old(self), *final(self), Seq::empty(), message@, Severity::Information, seconds, now),
    {
        self.notify_titled("", message, Severity::Information, seconds, now);
        proof {
            reveal_strlit("");
            assert(""@ =~= Seq::<char>::empty());
        }
    }

    /// Show a titled notice of this severity for `seconds`.
    pub fn notify_titled(&mut self, title: &str, message: &str, severity: Severity, seconds: u64, now: u64)
        requires
            now + seconds * 1000 <= u64::MAX,
        ensures
            notified(*old(self), *final(self), title@, message@, severity, seconds, now),
    {
        let ghost before = self.toasts@;
        assert(seconds * 1000 <= u64::MAX) by (nonlinear_arith)
            requires
                now + seconds * 1000 <= u64::MAX,
        ;
        let t = Toast {
            title: string_of(chars_of(title).as_slice()),
            message: string_of(chars_of(message).as_slice()),
            severity,
            expires: now + seconds * 1000,
        };
        self.toasts.push(t);
        assert(self.toasts@.drop_last() =~= before);
    }

    /// An error toast for a failed remctl call.
    pub fn error(&mut self, err: &RemctlError, now: u64)
        requires
            now <= CLOCK_MAX,
        ensures
            errored(*old(self), *final(self), *err, now),
    {
        self.notify_titled("remctl", err.message.as_str(), Severity::Error, 8, now);
    }

    /// The next time the state changes by itself, if any.
    pub fn next_deadline(&self) -> (r: Option<u64>)
        requires
            self.wf(),
        ensures
            match deadline(self.toasts@, self.last_g) {
                Some(t) => r == Some(t as u64),
                None => r is None,
            },
    {
        let mut next: Option<u64> = None;
        let mut i: usize = 0;
        while i < self.toasts.len()
            invariant
                i <= self.toasts@.len(),
                next == first_expiry(self.toasts@.take(i as int)),
            decreases self.toasts.len() - i,
        {
            assert(self.toasts@.take(i + 1).drop_last() =~= self.toasts@.take(i as int));
            let e = self.toasts[i].expires;
            next = match next {
                Some(m) => Some(if e < m {
                    e
                } else {
                    m
                }),
                None => Some(e),
            };
            i += 1;
        }
        assert(self.toasts@.take(self.toasts@.len() as int) =~= self.toasts@);
        match self.last_g {
            Some(at) => {
                let chord = at + GG_CHORD;
                Some(match next {
                    Some(m) => if m < chord {
                        m
                    } else {
                        chord
                    },
                    None => chord,
                })
            },
            None => next,
        }
    }

    /// Drop the toasts that expired by `now`, and a lone `g` that ran out.
    pub fn tick(&mut self, now: u64)
        requires
            old(self).wf(),
        ensures
            final(self).toasts@ == live_toasts(old(self).toasts@, now),
            *final(self) == (App {
                toasts: final(self).toasts,
                last_g: match old(self).last_g {
                    Some(at) => if now >= at + GG_CHORD {
                        None
                    } else {
                        Some(at)
                    },
                    None => None,
                },
                ..*old(self)
            }),
    {
        let ghost all = self.toasts@;
        let mut kept: Vec<Toast> = Vec::new();
        let mut rest: Vec<Toast> = Vec::new();
        std::mem::swap(&mut rest, &mut self.toasts);
        let ghost mut k: int = 0;
        assert(all.skip(0) =~= all);
        while rest.len() > 0
            invariant
                0 <= k <= all.len(),
                kept@ == live_toasts(all.take(k), now),
                rest@ == all.skip(k),
            decreases rest.len(),
        {
            let t = rest.remove(0);
            proof {
                assert(all.take(k + 1).drop_last() =~= all.take(k));
                assert(all.take(k + 1).last() == all[k]);
                assert(t == all[k]);
                assert(rest@ =~= all.skip(k + 1));
            }
            if t.expires > now {
                kept.push(t);
            }
            proof {
                k = k + 1;
            }
        }
        assert(all.take(all.len() as int) =~= all);
        self.toasts = kept;
        match self.last_g {
            Some(at) => if now >= at + GG_CHORD {
                self.last_g = None;
            },
            None => {},
        }
    }

    /// Ask for the lists again.
    pub fn refresh_lists(&mut self)
        ensures
            lists_requested(*old(self), *final(self)),
    {
        self.lists_gen = bump(self.lists_gen);
        let generation = self.lists_gen;
        self.effects.push(Effect::LoadLists { generation });
    }

    /// Ask for the view's reminders again.
    pub fn load_view(&mut self)
        ensures
            view_requested(*old(self), *final(self)),
    {
        let ghost a = *self;
        self.view_gen = bump(self.view_gen);
        let generation = self.view_gen;
        self.loading = true;
        let list_title = match self.current_list() {
            Some(l) => Some(l.title.clone()),
            None => None,
        };
        let e = Effect::LoadView { generation, view: self.view, list_title, show_completed: self.show_completed };
        assert(e == view_load(a, generation));
        self.effects.push(e);
    }

    /// Reload both the view and the sidebar (`r`, and after every write).
    pub fn reload(&mut self)
        ensures
            reloaded(*old(self), *final(self)),
    {
        let ghost a = *self;
        self.load_view();
        self.refresh_lists();
        assert(self.effects@ =~= a.effects@ + reloads(a));
    }
}


/// The sidebar's smart view rows, under their header.
pub open spec fn smart_rows() -> Seq<NavItem> {
    seq![
        NavItem::Header("SMART LISTS"),
        NavItem::Smart(SmartView::Today),
        NavItem::Smart(SmartView::Upcoming),
        NavItem::Smart(SmartView::Overdue),
        NavItem::Smart(SmartView::Flagged),
    ]
}

/// The sidebar for `n` lists: the smart views, then, when there are lists,
/// a blank row, their header and one row per list.
pub open spec fn nav_rows(n: nat) -> Seq<NavItem> {
    if n == 0 {
        smart_rows()
    } else {
        smart_rows() + seq![NavItem::Blank, NavItem::Header("MY LISTS")] + Seq::new(n, |i: int| NavItem::List(i as usize))
    }
}

/// Where a view stands in the sidebar built for `lists`.
pub open spec fn nav_spot(lists: Seq<ReminderList>, view: ViewKind) -> Option<int> {
    match view {
        ViewKind::Smart(v) => Some(1 + crate::models::smart_view_index(v)),
        ViewKind::List(id) => match first_id(lists, id) {
            Some(i) => Some(7 + i),
            None => None,
        },
    }
}

/// The pane that keeps focus once the filter goes away.
pub open spec fn unfiltered(p: Pane) -> Pane {
    if p == Pane::Filter {
        Pane::Reminders
    } else {
        p
    }
}

/// `b` is `a` with the filter cleared and hidden.
pub open spec fn filter_cleared(a: App, b: App) -> bool {
    &&& b.filter_text@.len() == 0
    &&& b == App { filter_text: b.filter_text, filter: None, focus: unfiltered(a.focus), ..a }
}

/// `b` is `a` with the sidebar rebuilt for its lists, the highlight kept on
/// the view; when the view's list is gone, the first smart view is loaded.
pub open spec fn nav_built(a: App, b: App) -> bool {
    &&& b.nav@ == nav_rows(a.lists@.len())
    &&& match nav_spot(a.lists@, a.view) {
        Some(k) => b == App { nav: b.nav, nav_cursor: k as usize, ..a },
        None => {
            let mid = App {
                nav: b.nav,
                nav_cursor: 1,
                view: ViewKind::Smart(SmartView::Today),
                filter_text: b.filter_text,
                filter: None,
                focus: unfiltered(a.focus),
                ..a
            };
            &&& b.filter_text@.len() == 0
            &&& view_requested(mid, b)
        },
    }
}

/// Whether the cursor can rest on the sidebar row at `i`.
pub open spec fn selectable_at(nav: Seq<NavItem>, i: int) -> bool {
    0 <= i < nav.len() && (nav[i] is Smart || nav[i] is List)
}

/// The first row at or after `i` the cursor can rest on.
pub open spec fn scan_down(nav: Seq<NavItem>, i: int) -> Option<int>
    decreases nav.len() - i,
{
    if i < 0 || i >= nav.len() {
        None
    } else if selectable_at(nav, i) {
        Some(i)
    } else {
        scan_down(nav, i + 1)
    }
}

/// The last row at or before `i` the cursor can rest on.
pub open spec fn scan_up(nav: Seq<NavItem>, i: int) -> Option<int>
    decreases i + 1,
{
    if i < 0 || i >= nav.len() {
        None
    } else if selectable_at(nav, i) {
        Some(i)
    } else {
        scan_up(nav, i - 1)
    }
}

/// The view a sidebar row opens.
pub open spec fn item_view(item: NavItem, lists: Seq<ReminderList>) -> ViewKind {
    match item {
        NavItem::List(i) => ViewKind::List(lists[i as int].id),
        NavItem::Smart(v) => ViewKind::Smart(v),
        _ => ViewKind::Smart(SmartView::Today),
    }
}

/// `b` is `a` with the sidebar row `index` chosen: a new view starts empty,
/// at the top and unfiltered, and is loaded.
pub open spec fn nav_selected(a: App, b: App, index: int) -> bool {
    if !selectable_at(a.nav@, index) {
        b == a
    } else {
        let v = item_view(a.nav@[index], a.lists@);
        if v == a.view {
            b == App { nav_cursor: index as usize, ..a }
        } else {
            let mid = App {
                nav_cursor: index as usize,
                view: v,
                filter_text: b.filter_text,
                filter: None,
                focus: unfiltered(a.focus),
                reminders: b.reminders,
                shown: b.shown,
                cursor: 0,
                scroll: 0,
                ..a
            };
            &&& b.filter_text@.len() == 0
            &&& b.reminders@.len() == 0
            &&& b.shown@.len() == 0
            &&& view_requested(mid, b)
        }
    }
}

/// `b` is `a` with the sidebar highlight moved one selectable row down (or
/// up), when there is one.
pub open spec fn nav_moved(a: App, b: App, forward: bool) -> bool {
    let target = if forward {
        scan_down(a.nav@, a.nav_cursor + 1)
    } else {
        scan_up(a.nav@, a.nav_cursor - 1)
    };
    match target {
        Some(k) => nav_selected(a, b, k),
        None => b == a,
    }
}

/// `b` is `a` with the first (or last) selectable sidebar row chosen.
pub open spec fn nav_edged(a: App, b: App, top: bool) -> bool {
    let target = if top {
        scan_down(a.nav@, 0)
    } else {
        scan_up(a.nav@, a.nav@.len() - 1)
    };
    match target {
        Some(k) => nav_selected(a, b, k),
        None => b == a,
    }
}

/// Whether a reminder passes the filter text.
pub open spec fn passes(r: Reminder, q: Seq<char>) -> bool {
    q.len() == 0 || reminder_matches(r, q)
}

/// The indices among the first `n` reminders that pass the filter, in order.
pub open spec fn kept_rows(rs: Seq<Reminder>, q: Seq<char>, n: int) -> Seq<usize>
    decreases n,
{
    if n <= 0 {
        Seq::empty()
    } else if passes(rs[n - 1], q) {
        kept_rows(rs, q, n - 1).push((n - 1) as usize)
    } else {
        kept_rows(rs, q, n - 1)
    }
}

proof fn lemma_kept_rows_below(rs: Seq<Reminder>, q: Seq<char>, n: int)
    requires
        0 <= n <= usize::MAX,
    ensures
        forall|i: int| 0 <= i < kept_rows(rs, q, n).len() ==> (#[trigger] kept_rows(rs, q, n)[i]) < n,
    decreases n,
{
    if n > 0 {
        lemma_kept_rows_below(rs, q, n - 1);
        let prev = kept_rows(rs, q, n - 1);
        if passes(rs[n - 1], q) {
            let k = prev.push((n - 1) as usize);
            assert(k == kept_rows(rs, q, n));
            assert forall|i: int| 0 <= i < k.len() implies (#[trigger] k[i]) < n by {
                if i < prev.len() {
                    assert(k[i] == prev[i]);
                }
            }
        }
    }
}

/// The first place in `shown` whose reminder has this id.
pub open spec fn first_shown(rs: Seq<Reminder>, shown: Seq<usize>, id: i64) -> Option<int>
    decreases shown.len(),
{
    if shown.len() == 0 {
        None
    } else if rs[shown[0] as int].id == id {
        Some(0)
    } else {
        match first_shown(rs, shown.drop_first(), id) {
            Some(i) => Some(i + 1),
            None => None,
        }
    }
}

proof fn lemma_first_shown_at(rs: Seq<Reminder>, shown: Seq<usize>, id: i64, i: int)
    requires
        0 <= i < shown.len(),
        rs[shown[i] as int].id == id,
        forall|j: int| 0 <= j < i ==> rs[shown[j] as int].id != id,
    ensures
        first_shown(rs, shown, id) == Some(i),
    decreases i,
{
    if i > 0 {
        lemma_first_shown_at(rs, shown.drop_first(), id, i - 1);
    }
}

proof fn lemma_first_shown_none(rs: Seq<Reminder>, shown: Seq<usize>, id: i64)
    requires
        forall|j: int| 0 <= j < shown.len() ==> rs[shown[j] as int].id != id,
    ensures
        first_shown(rs, shown, id) is None,
    decreases shown.len(),
{
    if shown.len() > 0 {
        lemma_first_shown_none(rs, shown.drop_first(), id);
    }
}

/// Where the cursor lands once the rows change: on the row with the id it
/// was on, else at its old place, kept within the rows.
pub open spec fn kept_cursor(rs: Seq<Reminder>, shown: Seq<usize>, prev_id: Option<i64>, prev: int) -> int {
    if shown.len() == 0 {
        0
    } else {
        let clamped = if prev < shown.len() - 1 {
            prev
        } else {
            shown.len() - 1
        };
        match prev_id {
            Some(id) => match first_shown(rs, shown, id) {
                Some(p) => p,
                None => clamped,
            },
            None => clamped,
        }
    }
}

/// `b` is `a` with the filter applied again, the cursor kept on the row with
/// `prev_id` when it is still shown.
pub open spec fn populated_with(a: App, b: App, prev_id: Option<i64>) -> bool {
    let shown = kept_rows(a.reminders@, a.filter_text@, a.reminders@.len() as int);
    &&& b.shown@ == shown
    &&& b == App {
        shown: b.shown,
        cursor: kept_cursor(a.reminders@, shown, prev_id, a.cursor as int) as usize,
        scroll: if shown.len() == 0 {
            0
        } else {
            a.scroll
        },
        ..a
    }
}

/// The id of the reminder under the cursor.
pub open spec fn selected_id(a: App) -> Option<i64> {
    if a.cursor < a.shown@.len() {
        Some(a.reminders@[a.shown@[a.cursor as int] as int].id)
    } else {
        None
    }
}

/// `b` is `a` with the filter applied again, keeping the selection.
pub open spec fn populated(a: App, b: App) -> bool {
    populated_with(a, b, selected_id(a))
}

/// The cursor one row down (or up), kept within `n` rows.
pub open spec fn moved_cursor(c: int, n: int, forward: bool) -> int {
    if n == 0 {
        c
    } else if forward {
        if c + 1 < n - 1 {
            c + 1
        } else {
            n - 1
        }
    } else if c > 0 {
        c - 1
    } else {
        0
    }
}

/// What a row costs in a page move: its drawn height, at least 1.
pub open spec fn row_cost(hs: Seq<u16>, i: int) -> int {
    if 0 <= i < hs.len() && hs[i] > 1 {
        hs[i] as int
    } else {
        1
    }
}

/// Where a page move from row `i` ends: rows are taken one by one while the
/// budget lasts.
pub open spec fn paged(hs: Seq<u16>, n: int, i: int, forward: bool, budget: int) -> int
    decreases if budget < 0 {
        0
    } else {
        budget
    },
{
    let next = if forward {
        i + 1
    } else {
        i - 1
    };
    if budget <= 0 || next < 0 || next >= n {
        i
    } else {
        paged(hs, n, next, forward, budget - row_cost(hs, next))
    }
}

/// The budget of a page move: the list height, or half of it, at least 1.
pub open spec fn page_budget(height: u16, half: bool) -> int {
    let b: int = if half {
        (height / 2) as int
    } else {
        height as int
    };
    if b < 1 {
        1
    } else {
        b
    }
}

/// The drawn height of rows `from` to `to`, both included.
pub open spec fn span(hs: Seq<u16>, from: int, to: int) -> int
    decreases to - from + 1,
{
    if to < from {
        0
    } else {
        span(hs, from, to - 1) + hs[to]
    }
}

/// The first row of the list scrolled until the cursor row `c` fits in
/// `height` rows, starting at row `s`.
pub open spec fn settled(hs: Seq<u16>, s: int, c: int, height: int) -> int
    decreases c - s,
{
    let last = if c < hs.len() - 1 {
        c
    } else {
        hs.len() - 1
    };
    if s >= c || span(hs, s, last) <= height {
        s
    } else {
        settled(hs, s + 1, c, height)
    }
}

/// Where `ensure_visible` leaves the scroll.
pub open spec fn visible_scroll(hs: Seq<u16>, scroll: int, cursor: int, height: int) -> int {
    if hs.len() == 0 {
        0
    } else {
        let s0 = if cursor < scroll {
            cursor
        } else {
            scroll
        };
        let s = settled(hs, s0, cursor, height);
        if s < hs.len() - 1 {
            s
        } else {
            hs.len() - 1
        }
    }
}

proof fn lemma_span_shrinks(hs: Seq<u16>, from: int, to: int)
    requires
        0 <= from,
        to < hs.len(),
    ensures
        span(hs, from + 1, to) <= span(hs, from, to),
        from <= to ==> span(hs, from, to) == hs[from] + span(hs, from + 1, to),
    decreases to - from + 1,
{
    if from <= to {
        if to == from {
            assert(span(hs, from, from - 1) == 0);
            assert(span(hs, from + 1, from) == 0);
        } else {
            lemma_span_shrinks(hs, from, to - 1);
        }
    }
}

proof fn lemma_span_later(hs: Seq<u16>, t: int, u: int, last: int)
    requires
        0 <= t <= u,
        last < hs.len(),
    ensures
        span(hs, u, last) <= span(hs, t, last),
    decreases u - t,
{
    if t < u {
        lemma_span_shrinks(hs, t, last);
        lemma_span_later(hs, t + 1, u, last);
    }
}

proof fn lemma_span_prefix(hs: Seq<u16>, from: int, j: int, last: int)
    requires
        0 <= from,
        j <= last < hs.len(),
    ensures
        span(hs, from, j) <= span(hs, from, last),
    decreases last - j,
{
    if j < last {
        lemma_span_prefix(hs, from, j + 1, last);
    }
}

proof fn lemma_span_nonneg(hs: Seq<u16>, from: int, to: int)
    ensures
        span(hs, from, to) >= 0,
    decreases to - from + 1,
{
    if to >= from {
        lemma_span_nonneg(hs, from, to - 1);
    }
}

/// The first selectable sidebar row at or after `start`.
fn first_selectable_from(nav: &Vec<NavItem>, start: usize) -> (r: Option<usize>)
    ensures
        match r {
            Some(x) => scan_down(nav@, start as int) == Some(x as int),
            None => scan_down(nav@, start as int) is None,
        },
{
    let mut i = start;
    while i < nav.len()
        invariant
            start <= i,
            scan_down(nav@, start as int) == scan_down(nav@, i as int),
        decreases nav.len() - i,
    {
        if nav[i].selectable() {
            return Some(i);
        }
        i += 1;
    }
    None
}

/// The last selectable sidebar row before `end`.
fn last_selectable_before(nav: &Vec<NavItem>, end: usize) -> (r: Option<usize>)
    ensures
        match r {
            Some(x) => scan_up(nav@, end - 1) == Some(x as int),
            None => scan_up(nav@, end - 1) is None,
        },
{
    if end > nav.len() {
        return None;
    }
    let mut i = end;
    while i > 0
        invariant
            i <= end <= nav@.len(),
            scan_up(nav@, end - 1) == scan_up(nav@, i - 1),
        decreases i,
    {
        if nav[i - 1].selectable() {
            return Some(i - 1);
        }
        i -= 1;
    }
    None
}

impl App {
    /// Rebuild the sidebar rows, keeping the highlight on the same view.
    pub fn build_nav(&mut self)
        requires
            old(self).rows_ok(),
            old(self).rest_ok(),
        ensures
            nav_built(*old(self), *final(self)),
            final(self).wf(),
    {
        let ghost a = *self;
        let mut nav: Vec<NavItem> = Vec::new();
        nav.push(NavItem::Header("SMART LISTS"));
        nav.push(NavItem::Smart(SmartView::Today));
        nav.push(NavItem::Smart(SmartView::Upcoming));
        nav.push(NavItem::Smart(SmartView::Overdue));
        nav.push(NavItem::Smart(SmartView::Flagged));
        assert(nav@ =~= smart_rows());
        let n = self.lists.len();
        if n > 0 {
            nav.push(NavItem::Blank);
            nav.push(NavItem::Header("MY LISTS"));
            let mut i: usize = 0;
            while i < n
                invariant
                    i <= n,
                    n == a.lists@.len(),
                    nav@ == smart_rows() + seq![NavItem::Blank, NavItem::Header("MY LISTS")] + Seq::new(
                        i as nat,
                        |j: int| NavItem::List(j as usize),
                    ),
                decreases n - i,
            {
                nav.push(NavItem::List(i));
                i += 1;
                assert(nav@ =~= smart_rows() + seq![NavItem::Blank, NavItem::Header("MY LISTS")] + Seq::new(
                    i as nat,
                    |j: int| NavItem::List(j as usize),
                ));
            }
        }
        assert(nav@ == nav_rows(a.lists@.len()));
        self.nav = nav;
        let found: Option<usize> = match self.view {
            ViewKind::Smart(v) => Some(v.nav_index()),
            ViewKind::List(id) => match find_list_index(&self.lists, id) {
                Some(i) => {
                    let total = self.nav.len();
                    assert(total == 7 + n);
                    Some(7 + i)
                },
                None => None,
            },
        };
        assert(forall|i: int| 0 <= i < self.nav@.len() ==> (#[trigger] self.nav@[i] matches NavItem::List(j) ==> j < self.lists@.len())) by {
            assert forall|i: int| 0 <= i < self.nav@.len() implies (#[trigger] self.nav@[i] matches NavItem::List(j) ==> j < self.lists@.len()) by {
                if n > 0 && i >= 7 {
                    assert(self.nav@[i] == NavItem::List((i - 7) as usize));
                }
            }
        }
        match found {
            Some(index) => {
                self.nav_cursor = index;
            },
            None => {
                self.nav_cursor = 1;
                if let ViewKind::List(_) = self.view {
                    self.view = ViewKind::Smart(SmartView::Today);
                    self.clear_filter_state();
                    self.load_view();
                }
            },
        }
    }

    /// The sidebar row `index`, when it is one the cursor can rest on:
    /// highlight it, and load its view when it is a new one.
    fn nav_select(&mut self, index: usize)
        requires
            old(self).wf(),
        ensures
            nav_selected(*old(self), *final(self), index as int),
            final(self).wf(),
    {
        if index >= self.nav.len() || !self.nav[index].selectable() {
            return;
        }
        self.nav_cursor = index;
        let view = match self.nav[index] {
            NavItem::Smart(v) => ViewKind::Smart(v),
            NavItem::List(i) => ViewKind::List(self.lists[i].id),
            _ => {
                return;
            },
        };
        if view != self.view {
            self.view = view;
            self.clear_filter_state();
            self.reminders.clear();
            self.shown.clear();
            self.cursor = 0;
            self.scroll = 0;
            self.load_view();
        }
    }

    /// Move the sidebar highlight to the next selectable row down (or up);
    /// landing on a new view loads it.
    fn nav_move(&mut self, forward: bool)
        requires
            old(self).wf(),
        ensures
            nav_moved(*old(self), *final(self), forward),
            final(self).wf(),
    {
        let len = self.nav.len();
        let target = if forward {
            if self.nav_cursor >= len {
                None
            } else {
                first_selectable_from(&self.nav, self.nav_cursor + 1)
            }
        } else if self.nav_cursor == 0 {
            None
        } else {
            last_selectable_before(&self.nav, self.nav_cursor)
        };
        match target {
            Some(index) => self.nav_select(index),
            None => {},
        }
    }

    /// Choose the first (or last) selectable sidebar row.
    fn nav_edge(&mut self, top: bool)
        requires
            old(self).wf(),
        ensures
            nav_edged(*old(self), *final(self), top),
            final(self).wf(),
    {
        let target = if top {
            first_selectable_from(&self.nav, 0)
        } else {
            last_selectable_before(&self.nav, self.nav.len())
        };
        match target {
            Some(index) => self.nav_select(index),
            None => {},
        }
    }

    /// Apply the filter and keep the selection: same id, else the old index
    /// clamped, so completing a row does not jump to the top.
    pub fn populate(&mut self)
        requires
            old(self).wf(),
        ensures
            populated(*old(self), *final(self)),
            final(self).wf(),
    {
        let previous_id = match self.selected() {
            Some(r) => Some(r.id),
            None => None,
        };
        self.populate_keeping(previous_id);
    }

    fn populate_keeping(&mut self, previous_id: Option<i64>)
        requires
            old(self).nav_ok(),
            old(self).rest_ok(),
        ensures
            populated_with(*old(self), *final(self), previous_id),
            final(self).wf(),
    {
        let ghost a = *self;
        let previous_index = self.cursor;
        let mut shown: Vec<usize> = Vec::new();
        let mut i: usize = 0;
        while i < self.reminders.len()
            invariant
                i <= self.reminders@.len(),
                *self == a,
                shown@ == kept_rows(self.reminders@, self.filter_text@, i as int),
            decreases self.reminders.len() - i,
        {
            if self.filter_text.as_str().is_empty() || self.reminders[i].matches(self.filter_text.as_str()) {
                shown.push(i);
            }
            i += 1;
        }
        proof {
            lemma_kept_rows_below(a.reminders@, a.filter_text@, a.reminders@.len() as int);
        }
        self.shown = shown;
        if self.shown.len() == 0 {
            self.cursor = 0;
            self.scroll = 0;
            return;
        }
        let mut by_id: Option<usize> = None;
        if let Some(id) = previous_id {
            let mut p: usize = 0;
            while p < self.shown.len() && by_id.is_none()
                invariant
                    p <= self.shown@.len(),
                    self.reminders@ == a.reminders@,
                    forall|j: int| 0 <= j < self.shown@.len() ==> (#[trigger] self.shown@[j]) < self.reminders@.len(),
                    by_id is None ==> forall|j: int| 0 <= j < p ==> self.reminders@[self.shown@[j] as int].id != id,
                    by_id matches Some(q) ==> first_shown(self.reminders@, self.shown@, id) == Some(q as int)
                        && q < self.shown@.len(),
                decreases self.shown.len() - p + (if by_id is None {
                    1int
                } else {
                    0int
                }),
            {
                if self.reminders[self.shown[p]].id == id {
                    proof {
                        lemma_first_shown_at(self.reminders@, self.shown@, id, p as int);
                    }
                    by_id = Some(p);
                } else {
                    p += 1;
                }
            }
            if by_id.is_none() {
                proof {
                    lemma_first_shown_none(self.reminders@, self.shown@, id);
                }
            }
        }
        self.cursor = match by_id {
            Some(p) => p,
            None => if previous_index < self.shown.len() - 1 {
                previous_index
            } else {
                self.shown.len() - 1
            },
        };
    }

    /// Move the list cursor one row down (or up), within the rows.
    fn list_move(&mut self, forward: bool)
        requires
            old(self).wf(),
        ensures
            *final(self) == (App {
                cursor: moved_cursor(old(self).cursor as int, old(self).shown@.len() as int, forward) as usize,
                ..*old(self)
            }),
            final(self).wf(),
    {
        let n = self.shown.len();
        if n == 0 {
            return;
        }
        if forward {
            self.cursor = if self.cursor + 1 < n - 1 {
                self.cursor + 1
            } else {
                n - 1
            };
        } else if self.cursor > 0 {
            self.cursor = self.cursor - 1;
        }
    }

    /// Move by a share of the viewport (all of it, or half), counting the
    /// rows' drawn heights.
    fn list_page(&mut self, forward: bool, half: bool)
        requires
            old(self).wf(),
        ensures
            *final(self) == (App {
                cursor: if old(self).shown@.len() == 0 {
                    old(self).cursor
                } else {
                    paged(
                        old(self).row_heights@,
                        old(self).shown@.len() as int,
                        old(self).cursor as int,
                        forward,
                        page_budget(old(self).list_height, half),
                    ) as usize
                },
                ..*old(self)
            }),
            final(self).wf(),
    {
        let n = self.shown.len();
        if n == 0 {
            return;
        }
        let b: u32 = if half {
            self.list_height as u32 / 2
        } else {
            self.list_height as u32
        };
        let mut budget: u32 = if b < 1 {
            1
        } else {
            b
        };
        let mut index: usize = self.cursor;
        loop
            invariant
                index < n,
                n == self.shown@.len(),
                budget <= 65535,
                paged(self.row_heights@, n as int, self.cursor as int, forward, page_budget(self.list_height, half))
                    == paged(self.row_heights@, n as int, index as int, forward, budget as int),
            ensures
                index < n,
                paged(self.row_heights@, n as int, self.cursor as int, forward, page_budget(self.list_height, half))
                    == index as int,
            decreases budget,
        {
            let more = if forward {
                index + 1 < n
            } else {
                index > 0
            };
            if budget == 0 || !more {
                break;
            }
            let ghost i0 = index as int;
            let ghost b0 = budget as int;
            if forward {
                index += 1;
            } else {
                index -= 1;
            }
            let h: u16 = if index < self.row_heights.len() {
                self.row_heights[index]
            } else {
                1
            };
            let cost: u32 = if h > 1 {
                h as u32
            } else {
                1
            };
            assert(cost == row_cost(self.row_heights@, index as int));
            budget = if cost < budget {
                budget - cost
            } else {
                0
            };
            proof {
                assert(paged(self.row_heights@, n as int, i0, forward, b0) == paged(
                    self.row_heights@,
                    n as int,
                    index as int,
                    forward,
                    b0 - cost,
                ));
                if b0 - cost <= 0 {
                    assert(paged(self.row_heights@, n as int, index as int, forward, b0 - cost) == index as int);
                    assert(paged(self.row_heights@, n as int, index as int, forward, 0) == index as int);
                }
            }
        }
        self.cursor = index;
    }

    /// Keep the cursor row on screen: called by the draw pass with the
    /// heights it is about to draw and the height of the list.
    pub fn ensure_visible(&mut self, heights: &[u16], height: u16)
        requires
            heights@.len() > 0 ==> ({
                let s0 = if old(self).cursor < old(self).scroll {
                    old(self).cursor as int
                } else {
                    old(self).scroll as int
                };
                let last = if old(self).cursor < heights@.len() - 1 {
                    old(self).cursor as int
                } else {
                    heights@.len() - 1
                };
                &&& s0 <= heights@.len()
                &&& span(heights@, s0, last) <= u16::MAX
            }),
        ensures
            final(self).row_heights@ == heights@,
            *final(self) == (App {
                row_heights: final(self).row_heights,
                list_height: height,
                scroll: visible_scroll(heights@, old(self).scroll as int, old(self).cursor as int, height as int) as usize,
                ..*old(self)
            }),
    {
        let mut rows: Vec<u16> = Vec::new();
        let mut k: usize = 0;
        while k < heights.len()
            invariant
                k <= heights@.len(),
                rows@ == heights@.take(k as int),
            decreases heights.len() - k,
        {
            rows.push(heights[k]);
            k += 1;
            assert(rows@ =~= heights@.take(k as int));
        }
        assert(heights@.take(heights@.len() as int) =~= heights@);
        self.row_heights = rows;
        self.list_height = height;
        let n = heights.len();
        if n == 0 {
            self.scroll = 0;
            return;
        }
        if self.cursor < self.scroll {
            self.scroll = self.cursor;
        }
        let last = if self.cursor < n - 1 {
            self.cursor
        } else {
            n - 1
        };
        let ghost s0 = self.scroll as int;
        let ghost fixed = *self;
        loop
            invariant
                n == heights@.len(),
                n > 0,
                last < n,
                last == (if self.cursor < n - 1 {
                    self.cursor as int
                } else {
                    n - 1
                }),
                0 <= s0 <= self.scroll,
                self.scroll <= self.cursor,
                self.scroll <= n,
                span(heights@, s0, last as int) <= u16::MAX,
                settled(heights@, s0, self.cursor as int, height as int) == settled(
                    heights@,
                    self.scroll as int,
                    self.cursor as int,
                    height as int,
                ),
                *self == (App { scroll: self.scroll, ..fixed }),
            ensures
                settled(heights@, s0, self.cursor as int, height as int) == self.scroll as int,
                self.scroll <= n,
                *self == (App { scroll: self.scroll, ..fixed }),
            decreases self.cursor - self.scroll,
        {
            let mut used: u32 = 0;
            let mut j: usize = self.scroll;
            proof {
                lemma_span_nonneg(heights@, self.scroll as int, last as int);
                lemma_span_later(heights@, s0, self.scroll as int, last as int);
            }
            while j <= last
                invariant
                    self.scroll <= j <= last + 1,
                    last < n,
                    n == heights@.len(),
                    used == span(heights@, self.scroll as int, j - 1),
                    span(heights@, self.scroll as int, last as int) <= u16::MAX,
                decreases last + 1 - j,
            {
                proof {
                    lemma_span_prefix(heights@, self.scroll as int, j as int, last as int);
                    lemma_span_nonneg(heights@, self.scroll as int, j - 1);
                }
                used = used + heights[j] as u32;
                j += 1;
            }
            if used <= height as u32 || self.scroll >= self.cursor {
                break;
            }
            self.scroll += 1;
        }
        if self.scroll > n - 1 {
            self.scroll = n - 1;
        }
    }

    /// Clear and hide the filter; focus leaves it.
    fn clear_filter_state(&mut self)
        ensures
            filter_cleared(*old(self), *final(self)),
    {
        self.filter_text = String::new();
        self.filter = None;
        if self.focus == Pane::Filter {
            self.focus = Pane::Reminders;
        }
    }
}


/// The reminder under the cursor.
pub open spec fn selected_row(a: App) -> Option<Reminder> {
    if a.cursor < a.shown@.len() {
        Some(a.reminders@[a.shown@[a.cursor as int] as int])
    } else {
        None
    }
}

/// The open form, if the overlay is one.
pub open spec fn form_of(a: App) -> Option<Form> {
    match a.overlay {
        Some(Overlay::Form(f)) => Some(*f),
        _ => None,
    }
}

/// `b` is `a` with one write more at the end, with this message.
pub open spec fn mutate_pushed(a: Seq<Effect>, b: Seq<Effect>, message: Seq<char>, write: Write) -> bool {
    &&& b.len() == a.len() + 1
    &&& b.drop_last() == a
    &&& b.last() matches Effect::Mutate { message: m, write: w }
    &&& m@ == message
    &&& w == write
}

/// `b` is `a` after `space`: the selected reminder is completed, or reopened
/// when it is completed.
pub open spec fn done_toggled(a: App, b: App) -> bool {
    match selected_row(a) {
        None => b == a,
        Some(r) => {
            &&& mutate_pushed(
                a.effects@,
                b.effects@,
                if r.completed {
                    "↺ Reopened “"@ + r.title@ + "”"@
                } else {
                    "✓ Completed “"@ + r.title@ + "”"@
                },
                if r.completed {
                    Write::Undone(r.id)
                } else {
                    Write::Done(r.id)
                },
            )
            &&& b == App { effects: b.effects, ..a }
        },
    }
}

/// `b` is `a` asking whether to delete the selected reminder, with Cancel
/// focused.
pub open spec fn delete_asked(a: App, b: App) -> bool {
    match selected_row(a) {
        None => b == a,
        Some(r) => {
            &&& b == App { overlay: b.overlay, ..a }
            &&& b.overlay matches Some(
                Overlay::Confirm { title, message, confirm_label, danger, focus_confirm, action },
            )
            &&& title@ == "🗑  Delete Reminder"@
            &&& message@ == "Delete “"@ + r.title@ + "” from "@ + r.list_name@ + "?\nThis cannot be undone."@
            &&& confirm_label@ == "Delete"@
            &&& danger
            &&& !focus_confirm
            &&& action matches Pending::Delete(c) && crate::ui::form::same_reminder(c, r)
        },
    }
}

/// `b` is `a` with the confirmed action started.
pub open spec fn pending_run(a: App, b: App, action: Pending) -> bool {
    match action {
        Pending::Delete(r) => {
            &&& mutate_pushed(a.effects@, b.effects@, "🗑 Deleted “"@ + r.title@ + "”"@, Write::Delete(r.id))
            &&& b == App { effects: b.effects, ..a }
        },
    }
}

/// The first place a reminder with this id stands.
pub open spec fn first_rem(rs: Seq<Reminder>, id: i64) -> Option<int>
    decreases rs.len(),
{
    if rs.len() == 0 {
        None
    } else if rs[0].id == id {
        Some(0)
    } else {
        match first_rem(rs.drop_first(), id) {
            Some(i) => Some(i + 1),
            None => None,
        }
    }
}

proof fn lemma_first_rem_at(rs: Seq<Reminder>, id: i64, i: int)
    requires
        0 <= i < rs.len(),
        rs[i].id == id,
        forall|j: int| 0 <= j < i ==> rs[j].id != id,
    ensures
        first_rem(rs, id) == Some(i),
    decreases i,
{
    if i > 0 {
        lemma_first_rem_at(rs.drop_first(), id, i - 1);
    }
}

proof fn lemma_first_rem_none(rs: Seq<Reminder>, id: i64)
    requires
        forall|j: int| 0 <= j < rs.len() ==> rs[j].id != id,
    ensures
        first_rem(rs, id) is None,
    decreases rs.len(),
{
    if rs.len() > 0 {
        lemma_first_rem_none(rs.drop_first(), id);
    }
}

/// The reminders with the first one of this id flagged (or not).
pub open spec fn flag_set(rs: Seq<Reminder>, id: i64, wanted: bool) -> Seq<Reminder> {
    match first_rem(rs, id) {
        Some(i) => rs.update(i, Reminder { flagged: wanted, ..rs[i] }),
        None => rs,
    }
}

/// The ids with `id` among them.
pub open spec fn with_id(ps: Seq<i64>, id: i64) -> Seq<i64> {
    if ps.contains(id) {
        ps
    } else {
        ps.push(id)
    }
}

/// `b` is `a` with a flag write for `id` started: the row shows the wanted
/// flag now and is marked pending.
pub open spec fn flag_written(a: App, b: App, id: i64, wanted: bool) -> bool {
    &&& b.reminders@ == flag_set(a.reminders@, id, wanted)
    &&& b.pending_flags@ == with_id(a.pending_flags@, id)
    &&& b.effects@ == a.effects@.push(Effect::Flag { id, wanted })
    &&& b == App { reminders: b.reminders, pending_flags: b.pending_flags, effects: b.effects, ..a }
}

/// `b` is `a` after `f`: the selected reminder's flag flips, unless a flag
/// write for it is still in flight.
pub open spec fn flag_toggled(a: App, b: App) -> bool {
    match selected_row(a) {
        None => b == a,
        Some(r) => if a.pending_flags@.contains(r.id) {
            b == a
        } else {
            flag_written(a, b, r.id, !r.flagged)
        },
    }
}

/// `b` is `a` after `p`: the selected reminder's priority moves one step on.
pub open spec fn priority_cycled(a: App, b: App) -> bool {
    match selected_row(a) {
        None => b == a,
        Some(r) => {
            let p = next_priority(r.priority);
            &&& b.effects@.len() == a.effects@.len() + 1
            &&& b.effects@.drop_last() == a.effects@
            &&& b.effects@.last() matches Effect::Mutate { message, write: Write::Edit(id, f) }
            &&& message@ == "Priority → "@ + priority_word(p)
            &&& id == r.id
            &&& f.priority matches Some(t) && t@ == priority_word(p)
            &&& f.title is None && f.notes is None && f.due is None && f.list_title is None && f.flagged is None
            &&& b == App { effects: b.effects, ..a }
        },
    }
}

/// The titles of the lists, in order.
pub open spec fn list_titles(ls: Seq<ReminderList>) -> Seq<Seq<char>> {
    ls.map_values(|l: ReminderList| l.title@)
}

/// `b` is `a` after `a` (the key): the form for a new reminder opens on
/// the current list, or a warning says there are no lists yet.
pub open spec fn add_opened(a: App, b: App, now: u64) -> bool {
    if a.lists@.len() == 0 {
        notified(a, b, Seq::empty(), "No lists loaded yet."@, Severity::Warning, 5, now)
    } else {
        &&& b == App { overlay: b.overlay, ..a }
        &&& b.overlay matches Some(Overlay::Form(f))
        &&& crate::ui::form::fresh_form(*f, None, list_titles(a.lists@), default_title(a.lists@, a.view))
    }
}

/// `b` is `a` with the form for the selected reminder open.
pub open spec fn edit_opened(a: App, b: App) -> bool {
    match selected_row(a) {
        None => b == a,
        Some(r) => {
            &&& b == App { overlay: b.overlay, ..a }
            &&& b.overlay matches Some(Overlay::Form(f))
            &&& crate::ui::form::fresh_form(*f, Some(r), list_titles(a.lists@), Seq::empty())
        },
    }
}

/// Whether an edit changes anything but the flag.
pub open spec fn field_edit(f: EditFields) -> bool {
    f.title is Some || f.notes is Some || f.due is Some || f.priority is Some || f.list_title is Some
}

/// `b` is `a` after a save landed: its warnings and a confirmation show,
/// the form closes, a flag change follows on the id remctl names, and
/// everything reloads.
pub open spec fn saved_ok(
    a: App,
    b: App,
    is_edit: bool,
    follow_flag: Option<(i64, bool)>,
    payload: Option<Json>,
    now: u64,
) -> bool {
    let ws = payload_warnings(payload);
    let n = a.toasts@.len();
    let loads = seq![view_load(a, next_gen(a.view_gen)), Effect::LoadLists { generation: next_gen(a.lists_gen) }];
    &&& b.toasts@.len() == n + ws.len() + 1
    &&& b.toasts@.take(n as int) == a.toasts@
    &&& forall|i: int|
        0 <= i < ws.len() ==> toast_is(#[trigger] b.toasts@[n + i], "remctl"@, ws[i], Severity::Warning, now + 8000)
    &&& toast_is(
        b.toasts@.last(),
        Seq::empty(),
        if is_edit {
            "✎ Reminder updated"@
        } else {
            "＋ Reminder added"@
        },
        Severity::Information,
        now + 3000,
    )
    &&& match follow_flag {
        Some((id, wanted)) => {
            let target = flag_target_of(payload, id) as i64;
            &&& b.reminders@ == flag_set(a.reminders@, target, wanted)
            &&& b.pending_flags@ == with_id(a.pending_flags@, target)
            &&& b.effects@ == a.effects@.push(Effect::Flag { id: target, wanted }) + loads
        },
        None => {
            &&& b.reminders == a.reminders
            &&& b.pending_flags == a.pending_flags
            &&& b.effects@ == a.effects@ + loads
        },
    }
    &&& b == App {
        toasts: b.toasts,
        overlay: None,
        reminders: b.reminders,
        pending_flags: b.pending_flags,
        effects: b.effects,
        view_gen: next_gen(a.view_gen),
        lists_gen: next_gen(a.lists_gen),
        loading: true,
        ..a
    }
}

/// `b` is `a` after the form's save: an invalid form says so; a new
/// reminder is added; an edit sends the changed fields and then the flag,
/// or, when only the flag changed, closes the form at once and writes the
/// flag in the background.
pub open spec fn form_saved(a: App, b: App, now: u64) -> bool {
    match form_of(a) {
        None => b == a,
        Some(f) => if f.saving {
            b == a
        } else if trim(f.title.value@).len() == 0 {
            &&& b == App { overlay: b.overlay, ..a }
            &&& form_of(b) matches Some(g)
            &&& g == Form { error: g.error, focus: crate::ui::form::Focus::Title, ..f }
            &&& g.error@ == "⚠ A title is required."@
        } else {
            match f.reminder {
                None => {
                    &&& b == App { overlay: b.overlay, effects: b.effects, ..a }
                    &&& form_of(b) matches Some(g)
                    &&& g == Form { saving: true, error: g.error, ..f }
                    &&& g.error@.len() == 0
                    &&& b.effects@.len() == a.effects@.len() + 1
                    &&& b.effects@.drop_last() == a.effects@
                    &&& b.effects@.last() matches Effect::Add { fields }
                    &&& crate::ui::form::add_fields_of(f, fields)
                },
                Some(rem) => exists|fields: EditFields|
                    {
                        &&& #[trigger] crate::ui::form::edit_fields_of(f, fields)
                        &&& ({
                            let follow = match fields.flagged {
                                Some(w) => Some((rem.id, w)),
                                None => None,
                            };
                            let sent = EditFields { flagged: None, ..fields };
                            if field_edit(sent) {
                                &&& b == App { overlay: b.overlay, effects: b.effects, ..a }
                                &&& form_of(b) matches Some(g)
                                &&& g == Form { saving: true, error: g.error, ..f }
                                &&& g.error@.len() == 0
                                &&& b.effects@ == a.effects@.push(Effect::Edit { id: rem.id, fields: sent, follow_flag: follow })
                            } else {
                                saved_ok(a, b, true, follow, None, now)
                            }
                        })
                    },
            }
        },
    }
}

/// `b` is `a` after `ctrl+e` in the form: its notes go to `$EDITOR`.
pub open spec fn editor_asked(a: App, b: App) -> bool {
    match form_of(a) {
        Some(f) => if f.saving {
            b == a
        } else {
            &&& b.effects@ == a.effects@.push(Effect::Editor { notes: f.notes.text })
            &&& b == App { effects: b.effects, ..a }
        },
        None => b == a,
    }
}

/// Where the first reminder with this id stands.
fn find_rem(rs: &Vec<Reminder>, id: i64) -> (r: Option<usize>)
    ensures
        match r {
            Some(i) => first_rem(rs@, id) == Some(i as int) && i < rs@.len(),
            None => first_rem(rs@, id) is None,
        },
{
    let mut i: usize = 0;
    while i < rs.len()
        invariant
            i <= rs@.len(),
            forall|j: int| 0 <= j < i ==> rs@[j].id != id,
        decreases rs.len() - i,
    {
        if rs[i].id == id {
            proof {
                lemma_first_rem_at(rs@, id, i as int);
            }
            return Some(i);
        }
        i += 1;
    }
    proof {
        lemma_first_rem_none(rs@, id);
    }
    None
}

/// Flag (or unflag) the first reminder with this id.
fn set_flag(rs: &mut Vec<Reminder>, id: i64, wanted: bool)
    requires
        forall|i: int| 0 <= i < old(rs)@.len() ==> rem_fits(#[trigger] old(rs)@[i]),
    ensures
        final(rs)@ == flag_set(old(rs)@, id, wanted),
        final(rs)@.len() == old(rs)@.len(),
        forall|i: int| 0 <= i < final(rs)@.len() ==> rem_fits(#[trigger] final(rs)@[i]),
{
    match find_rem(rs, id) {
        Some(i) => {
            let ghost before = rs@;
            let mut r = rs.remove(i);
            r.flagged = wanted;
            rs.insert(i, r);
            assert(rs@ =~= before.update(i as int, Reminder { flagged: wanted, ..before[i as int] }));
            assert forall|j: int| 0 <= j < rs@.len() implies rem_fits(#[trigger] rs@[j]) by {
                assert(rem_fits(before[j]));
            }
        },
        None => {},
    }
}

/// `prefix`, `middle` and `suffix` joined.
fn joined3(prefix: &str, middle: &str, suffix: &str) -> (r: String)
    ensures
        r@ == prefix@ + middle@ + suffix@,
{
    let mut v: Vec<char> = Vec::new();
    push_str(&mut v, prefix);
    push_str(&mut v, middle);
    push_str(&mut v, suffix);
    assert(v@ =~= prefix@ + middle@ + suffix@);
    string_of(v.as_slice())
}

impl App {
    /// `space`: complete the selected reminder, or reopen it.
    pub fn toggle_done(&mut self)
        requires
            old(self).wf(),
        ensures
            done_toggled(*old(self), *final(self)),
    {
        let (id, completed, message) = match self.selected() {
            None => {
                return;
            },
            Some(r) => if r.completed {
                (r.id, true, joined3("↺ Reopened “", r.title.as_str(), "”"))
            } else {
                (r.id, false, joined3("✓ Completed “", r.title.as_str(), "”"))
            },
        };
        let write = if completed {
            Write::Undone(id)
        } else {
            Write::Done(id)
        };
        let ghost before = self.effects@;
        self.effects.push(Effect::Mutate { message, write });
        assert(self.effects@.drop_last() =~= before);
    }

    /// `d`: ask first; Cancel has the focus.
    pub fn delete_selected(&mut self)
        requires
            old(self).wf(),
        ensures
            delete_asked(*old(self), *final(self)),
    {
        let overlay = match self.selected() {
            None => {
                return;
            },
            Some(r) => {
                let mut m: Vec<char> = Vec::new();
                push_str(&mut m, "Delete “");
                push_str(&mut m, r.title.as_str());
                push_str(&mut m, "” from ");
                push_str(&mut m, r.list_name.as_str());
                push_str(&mut m, "?\nThis cannot be undone.");
                assert(m@ =~= "Delete “"@ + r.title@ + "” from "@ + r.list_name@ + "?\nThis cannot be undone."@);
                Overlay::Confirm {
                    title: string_of(chars_of("🗑  Delete Reminder").as_slice()),
                    message: string_of(m.as_slice()),
                    confirm_label: string_of(chars_of("Delete").as_slice()),
                    danger: true,
                    focus_confirm: false,
                    action: Pending::Delete(r.copy()),
                }
            },
        };
        self.overlay = Some(overlay);
    }

    /// Start the confirmed action.
    fn run_pending(&mut self, action: Pending)
        ensures
            pending_run(*old(self), *final(self), action),
    {
        match action {
            Pending::Delete(r) => {
                let message = joined3("🗑 Deleted “", r.title.as_str(), "”");
                let ghost before = self.effects@;
                self.effects.push(Effect::Mutate { message, write: Write::Delete(r.id) });
                assert(self.effects@.drop_last() =~= before);
            },
        }
    }

    /// `f`: flip the flag now and write it in the background.
    pub fn toggle_flag(&mut self)
        requires
            old(self).wf(),
        ensures
            flag_toggled(*old(self), *final(self)),
            final(self).wf(),
    {
        let (id, flagged) = match self.selected() {
            None => {
                return;
            },
            Some(r) => (r.id, r.flagged),
        };
        if self.is_pending(id) {
            return;
        }
        self.write_flag(id, !flagged);
    }

    /// Flip the row now, mark it pending, and let remctl catch up; a failure
    /// reverts the row with an error toast.
    pub fn write_flag(&mut self, id: i64, wanted: bool)
        requires
            old(self).wf(),
        ensures
            flag_written(*old(self), *final(self), id, wanted),
            final(self).wf(),
    {
        set_flag(&mut self.reminders, id, wanted);
        if !self.is_pending(id) {
            self.pending_flags.push(id);
        }
        self.effects.push(Effect::Flag { id, wanted });
    }

    /// `p`: move the selected reminder's priority one step on.
    pub fn cycle_priority(&mut self)
        requires
            old(self).wf(),
        ensures
            priority_cycled(*old(self), *final(self)),
    {
        let (id, priority) = match self.selected() {
            None => {
                return;
            },
            Some(r) => (r.id, r.priority),
        };
        let next = priority.next();
        let fields = EditFields {
            title: None,
            notes: None,
            due: None,
            priority: Some(string_of(chars_of(next.as_str()).as_slice())),
            list_title: None,
            flagged: None,
        };
        let message = joined3("Priority → ", next.as_str(), "");
        proof {
            reveal_strlit("");
            assert("Priority → "@ + priority_word(next) + ""@ =~= "Priority → "@ + priority_word(next));
        }
        let ghost before = self.effects@;
        self.effects.push(Effect::Mutate { message, write: Write::Edit(id, fields) });
        assert(self.effects@.drop_last() =~= before);
    }

    /// `a`: the form for a new reminder, on the current list; with no lists
    /// yet, a warning instead.
    pub fn add_reminder(&mut self, now: u64)
        requires
            old(self).wf(),
            now <= CLOCK_MAX,
        ensures
            add_opened(*old(self), *final(self), now),
            final(self).wf(),
    {
        if self.lists.len() == 0 {
            self.notify_titled("", "No lists loaded yet.", Severity::Warning, 5, now);
            proof {
                reveal_strlit("");
                assert(""@ =~= Seq::<char>::empty());
            }
            return;
        }
        let titles = self.titles();
        let default_list = self.default_list_title();
        let form = Form::new(None, titles.as_slice(), default_list.as_str());
        proof {
            assert(form.title.value@.len() == 0);
        }
        self.overlay = Some(Overlay::Form(Box::new(form)));
    }

    /// The lists' titles, in order.
    fn titles(&self) -> (r: Vec<String>)
        ensures
            crate::text::string_views(r@) == list_titles(self.lists@),
    {
        let mut out: Vec<String> = Vec::new();
        let mut i: usize = 0;
        while i < self.lists.len()
            invariant
                i <= self.lists@.len(),
                crate::text::string_views(out@) == list_titles(self.lists@.take(i as int)),
            decreases self.lists.len() - i,
        {
            let ghost prev = out@;
            out.push(self.lists[i].title.clone());
            proof {
                assert(out@ == prev.push(self.lists@[i as int].title));
                assert(self.lists@.take(i + 1) =~= self.lists@.take(i as int).push(self.lists@[i as int]));
                assert(list_titles(self.lists@.take(i + 1)) =~= list_titles(self.lists@.take(i as int)).push(
                    self.lists@[i as int].title@,
                ));
                assert(crate::text::string_views(out@) =~= crate::text::string_views(prev).push(self.lists@[i as int].title@));
            }
            i += 1;
        }
        assert(self.lists@.take(self.lists@.len() as int) =~= self.lists@);
        out
    }

    /// `e`/enter: the form for the selected reminder.
    pub fn edit_selected(&mut self)
        requires
            old(self).wf(),
        ensures
            edit_opened(*old(self), *final(self)),
            final(self).wf(),
    {
        if self.cursor >= self.shown.len() {
            return;
        }
        let titles = self.titles();
        let i = self.shown[self.cursor];
        proof {
            assert(rem_fits(self.reminders@[i as int]));
        }
        let form = Form::new(Some(&self.reminders[i]), titles.as_slice(), "");
        proof {
            reveal_strlit("");
            assert(""@ =~= Seq::<char>::empty());
        }
        self.overlay = Some(Overlay::Form(Box::new(form)));
    }
}


/// `b` is `a` after the editor came back: its text replaces the form's
/// notes, or its failure shows.
pub open spec fn editor_finished(a: App, b: App, outcome: Result<String, String>, now: u64) -> bool {
    match outcome {
        Err(e) => notified(a, b, "editor"@, e@, Severity::Error, 8, now),
        Ok(t) => match form_of(a) {
            Some(f) => {
                &&& b == App { overlay: b.overlay, ..a }
                &&& form_of(b) matches Some(g)
                &&& g.notes.state() == (t@, t@.len() as int)
                &&& g == Form { notes: g.notes, ..f }
            },
            None => b == a,
        },
    }
}

/// The ids without `id`.
pub open spec fn without_id(ps: Seq<i64>, id: i64) -> Seq<i64>
    decreases ps.len(),
{
    if ps.len() == 0 {
        ps
    } else if ps.last() == id {
        without_id(ps.drop_last(), id)
    } else {
        without_id(ps.drop_last(), id).push(ps.last())
    }
}

/// `b` is `a` after a result came back. A result for an older load than the
/// latest is dropped. Lists rebuild the sidebar; a view's rows replace the
/// old ones, keeping the selection; a finished write shows its message and
/// reloads; a failed flag write puts the row back; a save closes the form,
/// or shows its failure in it. Every failure shows a toast.
pub open spec fn msg_handled(a: App, msg: Msg, b: App, now: u64) -> bool {
    match msg {
        Msg::Lists { generation, result } => if generation != a.lists_gen {
            b == a
        } else {
            match result {
                Ok(lists) => nav_built(App { loaded: true, lists, ..a }, b),
                Err(err) => errored(App { loaded: true, ..a }, b, err, now),
            }
        },
        Msg::View { generation, result } => if generation != a.view_gen {
            b == a
        } else {
            match result {
                Ok(items) => populated_with(
                    App { loading: false, view_loaded: true, reminders: items, ..a },
                    b,
                    selected_id(a),
                ),
                Err(err) => {
                    &&& toast_pushed(a.toasts@, b.toasts@, "remctl"@, err.message@, Severity::Error, now + 8000)
                    &&& b.reminders@.len() == 0
                    &&& b.shown@.len() == 0
                    &&& b == App {
                        toasts: b.toasts,
                        reminders: b.reminders,
                        shown: b.shown,
                        cursor: 0,
                        scroll: 0,
                        loading: false,
                        view_loaded: true,
                        ..a
                    }
                },
            }
        },
        Msg::Mutated { message, result } => match result {
            Ok(_) => {
                &&& if message@.len() > 0 {
                    toast_pushed(a.toasts@, b.toasts@, Seq::empty(), message@, Severity::Information, now + 3000)
                } else {
                    b.toasts == a.toasts
                }
                &&& b.effects@ == a.effects@ + reloads(a)
                &&& b == App {
                    toasts: b.toasts,
                    effects: b.effects,
                    view_gen: next_gen(a.view_gen),
                    lists_gen: next_gen(a.lists_gen),
                    loading: true,
                    ..a
                }
            },
            Err(err) => errored(a, b, err, now),
        },
        Msg::Flagged { id, wanted, result } => {
            &&& b.pending_flags@ == without_id(a.pending_flags@, id)
            &&& match result {
                Ok(_) => {
                    &&& b.effects@ == a.effects@ + reloads(a)
                    &&& b == App {
                        pending_flags: b.pending_flags,
                        effects: b.effects,
                        view_gen: next_gen(a.view_gen),
                        lists_gen: next_gen(a.lists_gen),
                        loading: true,
                        ..a
                    }
                },
                Err(err) => {
                    &&& b.reminders@ == flag_set(a.reminders@, id, !wanted)
                    &&& toast_pushed(a.toasts@, b.toasts@, "remctl"@, err.message@, Severity::Error, now + 8000)
                    &&& b == App { pending_flags: b.pending_flags, reminders: b.reminders, toasts: b.toasts, ..a }
                },
            }
        },
        Msg::Saved { is_edit, follow_flag, result } => match result {
            Ok(payload) => saved_ok(a, b, is_edit, follow_flag, payload, now),
            Err(err) => match form_of(a) {
                Some(f) => {
                    &&& b == App { overlay: b.overlay, ..a }
                    &&& form_of(b) matches Some(g)
                    &&& g == Form { error: g.error, saving: false, ..f }
                    &&& g.error@ == "⚠ "@ + err.message@
                },
                None => errored(a, b, err, now),
            },
        },
    }
}

/// The reminders a message brings fit a form field.
pub open spec fn msg_fits(msg: Msg) -> bool {
    msg matches Msg::View { result: Ok(items), .. } ==> forall|i: int|
        0 <= i < items@.len() ==> rem_fits(#[trigger] items@[i])
}

impl App {
    /// A save landed: its warnings and a confirmation show, the form
    /// closes, a flag change follows, and everything reloads.
    fn saved_ok(&mut self, is_edit: bool, follow_flag: Option<(i64, bool)>, payload: Option<&Json>, now: u64)
        requires
            old(self).wf(),
            now <= CLOCK_MAX,
        ensures
            saved_ok(*old(self), *final(self), is_edit, follow_flag, crate::json::deref_opt(payload), now),
            final(self).wf(),
    {
        let ghost a = *self;
        let ghost n = a.toasts@.len();
        let ws = warnings_of(payload);
        let ghost wv = payload_warnings(crate::json::deref_opt(payload));
        let mut i: usize = 0;
        while i < ws.len()
            invariant
                i <= ws@.len(),
                now <= CLOCK_MAX,
                ws@.map_values(|s: String| s@) == wv,
                self.wf(),
                *self == (App { toasts: self.toasts, ..a }),
                self.toasts@.len() == n + i,
                self.toasts@.take(n as int) == a.toasts@,
                forall|j: int|
                    0 <= j < i ==> toast_is(#[trigger] self.toasts@[n + j], "remctl"@, wv[j], Severity::Warning, now + 8000),
            decreases ws.len() - i,
        {
            let ghost before = self.toasts@;
            self.notify_titled("remctl", ws[i].as_str(), Severity::Warning, 8, now);
            proof {
                assert(wv[i as int] == ws@[i as int]@);
                assert(self.toasts@.take(n as int) =~= before.take(n as int));
                assert forall|j: int| 0 <= j < i + 1 implies toast_is(
                    #[trigger] self.toasts@[n + j],
                    "remctl"@,
                    wv[j],
                    Severity::Warning,
                    now + 8000,
                ) by {
                    if j < i {
                        assert(self.toasts@[n + j] == before[n + j]);
                    }
                }
            }
            i += 1;
        }
        self.overlay = None;
        let ghost before = self.toasts@;
        if is_edit {
            self.notify("✎ Reminder updated", 3, now);
        } else {
            self.notify("＋ Reminder added", 3, now);
        }
        proof {
            assert(self.toasts@.take(n as int) =~= before.take(n as int));
            assert forall|j: int| 0 <= j < wv.len() implies toast_is(
                #[trigger] self.toasts@[n + j],
                "remctl"@,
                wv[j],
                Severity::Warning,
                now + 8000,
            ) by {
                assert(self.toasts@[n + j] == before[n + j]);
            }
        }
        match follow_flag {
            Some((id, wanted)) => {
                let target = flag_target(payload, id);
                self.write_flag(target, wanted);
            },
            None => {},
        }
        let ghost flagged = *self;
        self.reload();
        proof {
            assert(view_load(flagged, next_gen(flagged.view_gen)) == view_load(a, next_gen(a.view_gen)));
            assert(self.effects@ =~= flagged.effects@ + reloads(a));
        }
    }

    /// `ctrl+s`/enter in the form: validate and write.
    fn save_form(&mut self, now: u64)
        requires
            old(self).wf(),
            now <= CLOCK_MAX,
        ensures
            form_saved(*old(self), *final(self), now),
            final(self).wf(),
    {
        let ghost a = *self;
        let taken = self.overlay.take();
        match taken {
            Some(Overlay::Form(mut form)) => {
                if form.saving {
                    self.overlay = Some(Overlay::Form(form));
                    return;
                }
                if !form.validate() {
                    self.overlay = Some(Overlay::Form(form));
                    return;
                }
                let ghost f = *form;
                form.saving = true;
                form.error = String::new();
                let add = form.add_fields();
                let edit: Option<(i64, EditFields)> = match &form.reminder {
                    Some(r) => Some((r.id, form.edit_fields())),
                    None => None,
                };
                self.overlay = Some(Overlay::Form(form));
                match edit {
                    None => {
                        let ghost before = self.effects@;
                        self.effects.push(Effect::Add { fields: add });
                        assert(self.effects@.drop_last() =~= before);
                    },
                    Some((id, fields)) => {
                        let follow_flag = match fields.flagged {
                            Some(w) => Some((id, w)),
                            None => None,
                        };
                        let sent = EditFields { flagged: None, ..fields };
                        assert(crate::ui::form::edit_fields_of(f, fields));
                        if !sent.has_field_edit() {
                            self.saved_ok(true, follow_flag, None, now);
                            return;
                        }
                        self.effects.push(Effect::Edit { id, fields: sent, follow_flag });
                    },
                }
            },
            other => {
                self.overlay = other;
            },
        }
    }

    /// `ctrl+e` in the form: hand the notes to `$EDITOR`.
    fn open_notes_editor(&mut self)
        ensures
            editor_asked(*old(self), *final(self)),
    {
        let notes = match &self.overlay {
            Some(Overlay::Form(f)) => {
                if f.saving {
                    return;
                }
                f.notes.text.clone()
            },
            _ => {
                return;
            },
        };
        self.effects.push(Effect::Editor { notes });
    }

    /// The editor came back with the notes' new text, or with why it failed.
    pub fn editor_done(&mut self, outcome: Result<String, String>, now: u64)
        requires
            old(self).wf(),
            now <= CLOCK_MAX,
            outcome matches Ok(t) ==> t@.len() < usize::MAX,
        ensures
            editor_finished(*old(self), *final(self), outcome, now),
            final(self).wf(),
    {
        match outcome {
            Err(e) => {
                self.notify_titled("editor", e.as_str(), Severity::Error, 8, now);
            },
            Ok(text) => {
                let taken = self.overlay.take();
                match taken {
                    Some(Overlay::Form(mut form)) => {
                        form.notes.set(text.as_str());
                        self.overlay = Some(Overlay::Form(form));
                    },
                    other => {
                        self.overlay = other;
                    },
                }
            },
        }
    }

    /// Take a finished piece of work.
    pub fn handle_msg(&mut self, msg: Msg, now: u64)
        requires
            old(self).wf(),
            now <= CLOCK_MAX,
            msg_fits(msg),
        ensures
            msg_handled(*old(self), msg, *final(self), now),
            final(self).wf(),
    {
        let ghost a = *self;
        match msg {
            Msg::Lists { generation, result } => {
                if generation != self.lists_gen {
                    return;
                }
                self.loaded = true;
                match result {
                    Ok(lists) => {
                        self.lists = lists;
                        self.build_nav();
                    },
                    Err(err) => self.error(&err, now),
                }
            },
            Msg::View { generation, result } => {
                if generation != self.view_gen {
                    return;
                }
                let previous_id = match self.selected() {
                    Some(r) => Some(r.id),
                    None => None,
                };
                self.loading = false;
                self.view_loaded = true;
                match result {
                    Ok(items) => {
                        self.reminders = items;
                        self.populate_keeping(previous_id);
                    },
                    Err(err) => {
                        self.error(&err, now);
                        self.reminders = Vec::new();
                        self.populate_keeping(previous_id);
                    },
                }
            },
            Msg::Mutated { message, result } => match result {
                Ok(_) => {
                    if !message.as_str().is_empty() {
                        self.notify(message.as_str(), 3, now);
                    }
                    self.reload();
                },
                Err(err) => self.error(&err, now),
            },
            Msg::Flagged { id, wanted, result } => {
                self.drop_pending(id);
                match result {
                    Ok(_) => self.reload(),
                    Err(err) => {
                        set_flag(&mut self.reminders, id, !wanted);
                        self.error(&err, now);
                    },
                }
            },
            Msg::Saved { is_edit, follow_flag, result } => match result {
                Ok(payload) => {
                    let p = match &payload {
                        Some(j) => Some(j),
                        None => None,
                    };
                    self.saved_ok(is_edit, follow_flag, p, now);
                },
                Err(err) => {
                    let taken = self.overlay.take();
                    match taken {
                        Some(Overlay::Form(mut form)) => {
                            form.error = joined3("⚠ ", err.message.as_str(), "");
                            proof {
                                reveal_strlit("");
                                assert("⚠ "@ + err.message@ + ""@ =~= "⚠ "@ + err.message@);
                            }
                            form.saving = false;
                            self.overlay = Some(Overlay::Form(form));
                        },
                        other => {
                            self.overlay = other;
                            self.error(&err, now);
                        },
                    }
                },
            },
        }
    }

    /// No flag write is in flight for `id` any more.
    fn drop_pending(&mut self, id: i64)
        ensures
            final(self).pending_flags@ == without_id(old(self).pending_flags@, id),
            *final(self) == (App { pending_flags: final(self).pending_flags, ..*old(self) }),
    {
        let ghost all = self.pending_flags@;
        let mut kept: Vec<i64> = Vec::new();
        let mut i: usize = 0;
        while i < self.pending_flags.len()
            invariant
                i <= self.pending_flags@.len(),
                all == self.pending_flags@,
                kept@ == without_id(all.take(i as int), id),
            decreases self.pending_flags.len() - i,
        {
            assert(all.take(i + 1).drop_last() =~= all.take(i as int));
            if self.pending_flags[i] != id {
                kept.push(self.pending_flags[i]);
            }
            i += 1;
        }
        assert(all.take(all.len() as int) =~= all);
        self.pending_flags = kept;
    }
}


/// `b` is `a` with the filter shown (opened on the current filter text) and
/// focused.
pub open spec fn filter_shown(a: App, b: App) -> bool {
    &&& b == App { filter: b.filter, focus: Pane::Filter, ..a }
    &&& match a.filter {
        Some(_) => b.filter == a.filter,
        None => b.filter matches Some(f) && f.state() == (a.filter_text@, a.filter_text@.len() as int),
    }
}

/// `b` is `a` after `esc` on the filter: a filter that is there is cleared
/// and hidden, every row shows again, and the list gets the focus.
pub open spec fn filter_dismissed(a: App, b: App) -> bool {
    if a.filter is None && a.filter_text@.len() == 0 {
        b == a
    } else {
        &&& b.filter_text@.len() == 0
        &&& populated(App { filter_text: b.filter_text, filter: None, focus: Pane::Reminders, ..a }, b)
    }
}

/// `b` is `a` with the filter text taken from the filter field, trimmed,
/// and the rows filtered again when it changed.
pub open spec fn filter_applied(a: App, b: App) -> bool {
    let text = match a.filter {
        Some(f) => trim(f.value@),
        None => Seq::empty(),
    };
    if text == a.filter_text@ {
        b == a
    } else {
        &&& b.filter_text@ == text
        &&& populated(App { filter_text: b.filter_text, ..a }, b)
    }
}

/// `b` is `a` with the cursor on the first (or last) row of the focused pane.
pub open spec fn edged(a: App, b: App, top: bool) -> bool {
    if a.focus == Pane::Nav {
        nav_edged(a, b, top)
    } else if a.shown@.len() > 0 {
        b == App {
            cursor: if top {
                0
            } else {
                (a.shown@.len() - 1) as usize
            },
            ..a
        }
    } else {
        b == a
    }
}

/// `b` is `a` with the list cursor moved one row.
pub open spec fn list_moved(a: App, b: App, forward: bool) -> bool {
    b == App { cursor: moved_cursor(a.cursor as int, a.shown@.len() as int, forward) as usize, ..a }
}

/// `b` is `a` after a page key: the sidebar goes to its end, the list moves
/// by the viewport (or half of it).
pub open spec fn paged_by(a: App, b: App, forward: bool, half: bool) -> bool {
    if a.focus == Pane::Nav {
        nav_edged(a, b, !forward)
    } else {
        b == App {
            cursor: if a.shown@.len() == 0 {
                a.cursor
            } else {
                paged(a.row_heights@, a.shown@.len() as int, a.cursor as int, forward, page_budget(a.list_height, half))
                    as usize
            },
            ..a
        }
    }
}

/// The milliseconds from `at` to `now`, none when `now` is earlier.
pub open spec fn elapsed(now: u64, at: u64) -> int {
    if now >= at {
        now - at
    } else {
        0
    }
}

/// The message after `c` toggles completed rows.
pub open spec fn completed_note(shown: bool) -> Seq<char> {
    if shown {
        "Completed reminders shown (list views)"@
    } else {
        "Completed reminders hidden (list views)"@
    }
}

/// `b` is `a` after an action of the key table.
pub open spec fn action_done(a: App, action: Action, b: App, now: u64) -> bool {
    match action {
        Action::Down => if a.focus == Pane::Nav {
            nav_moved(a, b, true)
        } else {
            list_moved(a, b, true)
        },
        Action::Up => if a.focus == Pane::Nav {
            nav_moved(a, b, false)
        } else {
            list_moved(a, b, false)
        },
        Action::FocusNav => b == App { focus: Pane::Nav, ..a },
        Action::FocusReminders => b == App { focus: Pane::Reminders, ..a },
        Action::SwitchPane => b == App {
            focus: if a.focus == Pane::Nav {
                Pane::Reminders
            } else {
                Pane::Nav
            },
            ..a
        },
        Action::Top => if a.keymap.vim_profile() {
            match a.last_g {
                Some(at) => if elapsed(now, at) <= GG_CHORD {
                    edged(App { last_g: None, ..a }, b, true)
                } else {
                    b == App { last_g: Some(now), ..a }
                },
                None => b == App { last_g: Some(now), ..a },
            }
        } else {
            edged(a, b, true)
        },
        Action::Bottom => edged(a, b, false),
        Action::HalfPageDown => paged_by(a, b, true, true),
        Action::HalfPageUp => paged_by(a, b, false, true),
        Action::PageDown => paged_by(a, b, true, false),
        Action::PageUp => paged_by(a, b, false, false),
        Action::Filter => filter_shown(a, b),
        Action::DismissFilter => filter_dismissed(a, b),
        Action::ToggleCompleted => {
            let m = App { show_completed: !a.show_completed, ..a };
            &&& toast_pushed(a.toasts@, b.toasts@, Seq::empty(), completed_note(!a.show_completed), Severity::Information, now + 3000)
            &&& b.effects@ == a.effects@.push(view_load(m, next_gen(a.view_gen)))
            &&& b == App { toasts: b.toasts, effects: b.effects, view_gen: next_gen(a.view_gen), loading: true, ..m }
        },
        Action::Refresh => reloaded(a, b),
        Action::Help | Action::Palette => b == App { overlay: Some(Overlay::Help { scroll: 0 }), ..a },
        Action::Quit => b == App { running: false, ..a },
        Action::BearTriage => b == a,
        Action::Add | Action::VimNew => add_opened(a, b, now),
        Action::Edit => edit_opened(a, b),
        Action::ToggleDone => done_toggled(a, b),
        Action::Delete => delete_asked(a, b),
        Action::ToggleFlag => flag_toggled(a, b),
        Action::CyclePriority => priority_cycled(a, b),
    }
}

/// `b` is `a` after a key the table does not name: arrows, enter, paging,
/// home and end.
pub open spec fn unbound_done(a: App, key: KeyEvent, b: App, now: u64) -> bool {
    match key.code {
        KeyCode::Down => action_done(a, Action::Down, b, now),
        KeyCode::Up => action_done(a, Action::Up, b, now),
        KeyCode::Enter => match a.focus {
            Pane::Nav => b == App { focus: Pane::Reminders, ..a },
            Pane::Reminders => action_done(a, Action::Edit, b, now),
            Pane::Filter => b == a,
        },
        KeyCode::PageDown => paged_by(a, b, true, false),
        KeyCode::PageUp => paged_by(a, b, false, false),
        KeyCode::Home => edged(a, b, true),
        KeyCode::End => edged(a, b, false),
        _ => b == a,
    }
}

/// `b` is `a` after a key in the filter field: `esc` dismisses it, enter
/// and tab leave it, the arrows go to the list, other keys edit the text
/// and filter again.
pub open spec fn filter_key_done(a: App, key: KeyEvent, b: App) -> bool {
    match key.code {
        KeyCode::Esc => filter_dismissed(a, b),
        KeyCode::Enter | KeyCode::Tab => b == App { focus: Pane::Reminders, ..a },
        KeyCode::Down => list_moved(App { focus: Pane::Reminders, ..a }, b, true),
        KeyCode::Up => b == App { focus: Pane::Reminders, ..a },
        _ => match a.filter {
            Some(f) => match crate::ui::field::field_key(f.state(), key) {
                Some(st) => exists|m: App|
                    {
                        &&& #[trigger] filter_applied(m, b)
                        &&& m == App { filter: m.filter, ..a }
                        &&& m.filter matches Some(g) && g.state() == st && g.wf()
                    },
                None => {
                    &&& b == App { filter: b.filter, ..a }
                    &&& b.filter matches Some(g) && g.state() == f.state() && g.wf()
                },
            },
            None => b == a,
        },
    }
}

/// `b` is `a` after a key while a modal is open.
pub open spec fn overlay_key_done(a: App, key: KeyEvent, b: App, now: u64) -> bool {
    match a.overlay {
        Some(Overlay::Form(f)) => {
            let (v, ev) = crate::ui::form::form_key(f.view(), key);
            exists|g: Form|
                {
                    &&& #[trigger] g.view() == v
                    &&& g.wf()
                    &&& g.reminder == f.reminder
                    &&& g.lists == f.lists
                    &&& g.error == f.error
                    &&& ({
                        let m = App { overlay: Some(Overlay::Form(Box::new(g))), ..a };
                        match ev {
                            FormEvent::Nothing => b == m,
                            FormEvent::Cancel => if g.saving {
                                b == m
                            } else {
                                b == App { overlay: None, ..a }
                            },
                            FormEvent::Save => form_saved(m, b, now),
                            FormEvent::Editor => editor_asked(m, b),
                        }
                    })
                }
        },
        Some(Overlay::Confirm { title, message, confirm_label, danger, focus_confirm, action }) => match key.code {
            KeyCode::Esc | KeyCode::Char('n') => b == App { overlay: None, ..a },
            KeyCode::Char('y') => pending_run(App { overlay: None, ..a }, b, action),
            KeyCode::Enter | KeyCode::Char(' ') => if focus_confirm {
                pending_run(App { overlay: None, ..a }, b, action)
            } else {
                b == App { overlay: None, ..a }
            },
            KeyCode::Tab | KeyCode::BackTab | KeyCode::Left | KeyCode::Right => b == App {
                overlay: Some(
                    Overlay::Confirm { title, message, confirm_label, danger, focus_confirm: !focus_confirm, action },
                ),
                ..a
            },
            _ => b == a,
        },
        Some(Overlay::Help { scroll }) => match key.code {
            KeyCode::Esc | KeyCode::Char('q') | KeyCode::Char('?') => b == App { overlay: None, ..a },
            KeyCode::Down | KeyCode::Char('j') => b == App { overlay: Some(Overlay::Help { scroll: (scroll + 1) as usize }), ..a },
            KeyCode::Up | KeyCode::Char('k') => b == App {
                overlay: Some(Overlay::Help {
                    scroll: if scroll > 0 {
                        (scroll - 1) as usize
                    } else {
                        0
                    },
                }),
                ..a
            },
            _ => b == a,
        },
        None => b == a,
    }
}

/// `b` is `a` after a key press: a modal takes it first, then the filter
/// field; `ctrl+p` opens the help; else the key table's action runs (a
/// pending `g` is cancelled by any other), or the key's own meaning.
pub open spec fn key_done(a: App, key: KeyEvent, b: App, now: u64) -> bool {
    if a.overlay is Some {
        overlay_key_done(a, key, b, now)
    } else if a.focus == Pane::Filter {
        filter_key_done(a, key, b)
    } else if key.code == KeyCode::Char('p') && key.modifiers & CONTROL == CONTROL {
        b == App { overlay: Some(Overlay::Help { scroll: 0 }), ..a }
    } else {
        let act = crate::keys::first_action(a.keymap.bound(), crate::keys::normalized(key), a.keymap.vim_profile());
        let m = if act != Some(Action::Top) {
            App { last_g: None, ..a }
        } else {
            a
        };
        match act {
            Some(x) => action_done(m, x, b, now),
            None => unbound_done(m, key, b, now),
        }
    }
}

impl App {
    /// Show the filter field and focus it.
    fn show_filter(&mut self)
        requires
            old(self).wf(),
        ensures
            filter_shown(*old(self), *final(self)),
            final(self).wf(),
    {
        if self.filter.is_none() {
            self.filter = Some(Field::new(self.filter_text.as_str()));
        }
        self.focus = Pane::Filter;
    }

    /// `esc`: clear and hide the filter when there is one; true if it acted.
    fn dismiss_filter(&mut self) -> (r: bool)
        requires
            old(self).wf(),
        ensures
            filter_dismissed(*old(self), *final(self)),
            r == !(old(self).filter is None && old(self).filter_text@.len() == 0),
            final(self).wf(),
    {
        if self.filter.is_none() && self.filter_text.as_str().is_empty() {
            return false;
        }
        let ghost a = *self;
        self.clear_filter_state();
        self.focus = Pane::Reminders;
        let ghost m = *self;
        assert(selected_id(m) == selected_id(a));
        self.populate();
        true
    }

    /// Take the filter text from the field; filter again when it changed.
    fn apply_filter(&mut self)
        requires
            old(self).wf(),
        ensures
            filter_applied(*old(self), *final(self)),
            final(self).wf(),
    {
        let text = match &self.filter {
            Some(f) => {
                proof {
                    crate::text::lemma_trim_len(f.value@);
                }
                trim_str(f.value.as_str())
            },
            None => String::new(),
        };
        if !crate::models::same_str(text.as_str(), self.filter_text.as_str()) {
            self.filter_text = text;
            self.populate();
        }
    }

    /// The first (or last) row of the focused pane.
    fn edge(&mut self, top: bool)
        requires
            old(self).wf(),
        ensures
            edged(*old(self), *final(self), top),
            final(self).wf(),
    {
        if self.focus == Pane::Nav {
            self.nav_edge(top);
        } else if self.shown.len() > 0 {
            self.cursor = if top {
                0
            } else {
                self.shown.len() - 1
            };
        }
    }

    /// A page key: the sidebar goes to its end, the list moves by the
    /// viewport (or half of it).
    fn page(&mut self, forward: bool, half: bool)
        requires
            old(self).wf(),
        ensures
            paged_by(*old(self), *final(self), forward, half),
            final(self).wf(),
    {
        if self.focus == Pane::Nav {
            self.nav_edge(!forward);
        } else {
            self.list_page(forward, half);
        }
    }

    pub fn open_help(&mut self)
        ensures
            *final(self) == (App { overlay: Some(Overlay::Help { scroll: 0 }), ..*old(self) }),
    {
        self.overlay = Some(Overlay::Help { scroll: 0 });
    }

    /// The Bear triage screen opens here once it is wired in; for now `b`
    /// does nothing.
    fn open_triage(&mut self)
        ensures
            *final(self) == *old(self),
    {
    }

    /// Run an action of the key table.
    pub fn run_action(&mut self, action: Action, now: u64)
        requires
            old(self).wf(),
            now <= CLOCK_MAX,
        ensures
            action_done(*old(self), action, *final(self), now),
            final(self).wf(),
    {
        match action {
            Action::Down => if self.focus == Pane::Nav {
                self.nav_move(true);
            } else {
                self.list_move(true);
            },
            Action::Up => if self.focus == Pane::Nav {
                self.nav_move(false);
            } else {
                self.list_move(false);
            },
            Action::FocusNav => self.focus = Pane::Nav,
            Action::FocusReminders => self.focus = Pane::Reminders,
            Action::SwitchPane => {
                self.focus = if self.focus == Pane::Nav {
                    Pane::Reminders
                } else {
                    Pane::Nav
                };
            },
            Action::Top => if self.keymap.uses_vim() {
                match self.last_g {
                    Some(at) => {
                        let since = if now >= at {
                            now - at
                        } else {
                            0
                        };
                        if since <= GG_CHORD {
                            self.last_g = None;
                            self.edge(true);
                        } else {
                            self.last_g = Some(now);
                        }
                    },
                    None => self.last_g = Some(now),
                }
            } else {
                self.edge(true);
            },
            Action::Bottom => self.edge(false),
            Action::HalfPageDown => self.page(true, true),
            Action::HalfPageUp => self.page(false, true),
            Action::PageDown => self.page(true, false),
            Action::PageUp => self.page(false, false),
            Action::Filter => self.show_filter(),
            Action::DismissFilter => {
                self.dismiss_filter();
            },
            Action::ToggleCompleted => {
                self.show_completed = !self.show_completed;
                if self.show_completed {
                    self.notify("Completed reminders shown (list views)", 3, now);
                } else {
                    self.notify("Completed reminders hidden (list views)", 3, now);
                }
                self.load_view();
            },
            Action::Refresh => self.reload(),
            Action::Help | Action::Palette => self.open_help(),
            Action::Quit => self.running = false,
            Action::BearTriage => if self.bear_enabled() {
                self.open_triage();
            },
            Action::Add | Action::VimNew => self.add_reminder(now),
            Action::Edit => self.edit_selected(),
            Action::ToggleDone => self.toggle_done(),
            Action::Delete => self.delete_selected(),
            Action::ToggleFlag => self.toggle_flag(),
            Action::CyclePriority => self.cycle_priority(),
        }
    }
}


/// Whether a drawn row span (first screen row, height) holds screen row `y`.
pub open spec fn holds_row(span: (u16, u16), y: u16) -> bool {
    span.0 <= y < span.0 + span.1
}

/// The first drawn row span that holds screen row `y`.
pub open spec fn first_span(spans: Seq<(u16, u16)>, y: u16) -> Option<int>
    decreases spans.len(),
{
    if spans.len() == 0 {
        None
    } else if holds_row(spans[0], y) {
        Some(0)
    } else {
        match first_span(spans.drop_first(), y) {
            Some(i) => Some(i + 1),
            None => None,
        }
    }
}

proof fn lemma_first_span_at(spans: Seq<(u16, u16)>, y: u16, i: int)
    requires
        0 <= i < spans.len(),
        holds_row(spans[i], y),
        forall|j: int| 0 <= j < i ==> !holds_row(#[trigger] spans[j], y),
    ensures
        first_span(spans, y) == Some(i),
    decreases i,
{
    if i > 0 {
        lemma_first_span_at(spans.drop_first(), y, i - 1);
    }
}

proof fn lemma_first_span_none(spans: Seq<(u16, u16)>, y: u16)
    requires
        forall|j: int| 0 <= j < spans.len() ==> !holds_row(#[trigger] spans[j], y),
    ensures
        first_span(spans, y) is None,
    decreases spans.len(),
{
    if spans.len() > 0 {
        lemma_first_span_none(spans.drop_first(), y);
    }
}

/// Which drawn row span holds screen row `y`.
fn span_at(spans: &Vec<(u16, u16)>, y: u16) -> (r: Option<usize>)
    ensures
        match r {
            Some(i) => first_span(spans@, y) == Some(i as int) && i < spans@.len(),
            None => first_span(spans@, y) is None,
        },
{
    let mut i: usize = 0;
    while i < spans.len()
        invariant
            i <= spans@.len(),
            forall|j: int| 0 <= j < i ==> !holds_row(#[trigger] spans@[j], y),
        decreases spans.len() - i,
    {
        let (top, h) = spans[i];
        if y >= top && (y as u32) < top as u32 + h as u32 {
            proof {
                lemma_first_span_at(spans@, y, i as int);
            }
            return Some(i);
        }
        i += 1;
    }
    proof {
        lemma_first_span_none(spans@, y);
    }
    None
}

/// `b` is `a` after a mouse event. Nothing happens under a modal. A click
/// on a sidebar row chooses it; a click on a list row selects it, and a
/// second click on the same row soon after opens the editor; a click on the
/// filter shows it. The wheel moves the pane under it.
pub open spec fn mouse_done(a: App, ev: MouseEvent, b: App, now: u64) -> bool {
    let (x, y) = (ev.column, ev.row);
    if a.overlay is Some {
        b == a
    } else {
        match ev.kind {
            MouseKind::LeftDown => if inside(a.rects.nav_rows, x, y) {
                let index = a.nav_scroll + (y - a.rects.nav_rows.y);
                if selectable_at(a.nav@, index) {
                    nav_selected(App { focus: Pane::Nav, ..a }, b, index)
                } else {
                    b == a
                }
            } else if inside(a.rects.list_rows, x, y) {
                match first_span(a.rects.row_spans@, y) {
                    Some(off) => {
                        let index = a.scroll + off;
                        if index < a.shown@.len() {
                            let m = App { focus: Pane::Reminders, cursor: index as usize, ..a };
                            let double = match a.last_click {
                                Some((at, i)) => i == index && elapsed(now, at) <= DOUBLE_CLICK,
                                None => false,
                            };
                            if double {
                                edit_opened(App { last_click: None, ..m }, b)
                            } else {
                                b == App { last_click: Some((now, index as usize)), ..m }
                            }
                        } else {
                            b == a
                        }
                    },
                    None => b == a,
                }
            } else if inside(a.rects.filter, x, y) {
                filter_shown(a, b)
            } else {
                b == a
            },
            MouseKind::ScrollDown => if inside(a.rects.nav_rows, x, y) {
                nav_moved(App { focus: Pane::Nav, ..a }, b, true)
            } else if inside(a.rects.list_rows, x, y) {
                list_moved(a, b, true)
            } else {
                b == a
            },
            MouseKind::ScrollUp => if inside(a.rects.nav_rows, x, y) {
                nav_moved(App { focus: Pane::Nav, ..a }, b, false)
            } else if inside(a.rects.list_rows, x, y) {
                list_moved(a, b, false)
            } else {
                b == a
            },
            MouseKind::Other => b == a,
        }
    }
}

impl App {
    /// A key the table does not name.
    fn unbound_key(&mut self, key: &KeyEvent, now: u64)
        requires
            old(self).wf(),
            now <= CLOCK_MAX,
        ensures
            unbound_done(*old(self), *key, *final(self), now),
            final(self).wf(),
    {
        match key.code {
            KeyCode::Down => self.run_action(Action::Down, now),
            KeyCode::Up => self.run_action(Action::Up, now),
            KeyCode::Enter => match self.focus {
                Pane::Nav => self.focus = Pane::Reminders,
                Pane::Reminders => self.run_action(Action::Edit, now),
                Pane::Filter => {},
            },
            KeyCode::PageDown => self.page(true, false),
            KeyCode::PageUp => self.page(false, false),
            KeyCode::Home => self.edge(true),
            KeyCode::End => self.edge(false),
            _ => {},
        }
    }

    /// A key in the filter field.
    fn filter_key(&mut self, key: &KeyEvent)
        requires
            old(self).wf(),
            key_ok(*old(self)),
        ensures
            filter_key_done(*old(self), *key, *final(self)),
            final(self).wf(),
    {
        match key.code {
            KeyCode::Esc => {
                self.dismiss_filter();
            },
            KeyCode::Enter | KeyCode::Tab => self.focus = Pane::Reminders,
            KeyCode::Down => {
                self.focus = Pane::Reminders;
                self.list_move(true);
            },
            KeyCode::Up => self.focus = Pane::Reminders,
            _ => {
                let taken = self.filter.take();
                match taken {
                    Some(mut field) => {
                        let changed = field.handle(key);
                        self.filter = Some(field);
                        if changed {
                            let ghost m = *self;
                            self.apply_filter();
                            assert(filter_applied(m, *self));
                        }
                    },
                    None => {},
                }
            },
        }
    }

    /// A key while a modal is open.
    fn overlay_key(&mut self, key: &KeyEvent, now: u64)
        requires
            old(self).wf(),
            key_ok(*old(self)),
            now <= CLOCK_MAX,
            old(self).overlay is Some,
        ensures
            overlay_key_done(*old(self), *key, *final(self), now),
            final(self).wf(),
    {
        let ghost a = *self;
        let taken = self.overlay.take();
        match taken {
            Some(Overlay::Form(mut form)) => {
                let event = form.handle(key);
                let saving = form.saving;
                let ghost g = *form;
                self.overlay = Some(Overlay::Form(form));
                let ghost m = *self;
                match event {
                    FormEvent::Nothing => {},
                    FormEvent::Cancel => if !saving {
                        self.overlay = None;
                    },
                    FormEvent::Save => self.save_form(now),
                    FormEvent::Editor => self.open_notes_editor(),
                }
                proof {
                    assert(m == App { overlay: Some(Overlay::Form(Box::new(g))), ..a });
                }
            },
            Some(Overlay::Confirm { title, message, confirm_label, danger, focus_confirm, action }) => match key.code {
                KeyCode::Esc | KeyCode::Char('n') => {},
                KeyCode::Char('y') => self.run_pending(action),
                KeyCode::Enter | KeyCode::Char(' ') => if focus_confirm {
                    self.run_pending(action);
                },
                KeyCode::Tab | KeyCode::BackTab | KeyCode::Left | KeyCode::Right => {
                    self.overlay = Some(
                        Overlay::Confirm { title, message, confirm_label, danger, focus_confirm: !focus_confirm, action },
                    );
                },
                _ => {
                    self.overlay = Some(Overlay::Confirm { title, message, confirm_label, danger, focus_confirm, action });
                },
            },
            Some(Overlay::Help { scroll }) => match key.code {
                KeyCode::Esc | KeyCode::Char('q') | KeyCode::Char('?') => {},
                KeyCode::Down | KeyCode::Char('j') => {
                    self.overlay = Some(Overlay::Help { scroll: scroll + 1 });
                },
                KeyCode::Up | KeyCode::Char('k') => {
                    self.overlay = Some(Overlay::Help {
                        scroll: if scroll > 0 {
                            scroll - 1
                        } else {
                            0
                        },
                    });
                },
                _ => {
                    self.overlay = Some(Overlay::Help { scroll });
                },
            },
            None => {},
        }
    }

    /// Take a key press.
    pub fn handle_key(&mut self, key: KeyEvent, now: u64)
        requires
            old(self).wf(),
            key_ok(*old(self)),
            now <= CLOCK_MAX,
        ensures
            key_done(*old(self), key, *final(self), now),
            final(self).wf(),
    {
        if self.overlay.is_some() {
            self.overlay_key(&key, now);
            return;
        }
        if self.focus == Pane::Filter {
            self.filter_key(&key);
            return;
        }
        if key.code == KeyCode::Char('p') && key.holds(CONTROL) {
            self.open_help();
            return;
        }
        let action = self.keymap.action(&key);
        let top = match action {
            Some(Action::Top) => true,
            _ => false,
        };
        if !top {
            self.last_g = None;
        }
        match action {
            None => self.unbound_key(&key, now),
            Some(act) => self.run_action(act, now),
        }
    }

    /// Take a mouse event.
    pub fn handle_mouse(&mut self, ev: MouseEvent, now: u64)
        requires
            old(self).wf(),
            now <= CLOCK_MAX,
            old(self).nav_scroll + 65536 <= usize::MAX,
            old(self).scroll + old(self).rects.row_spans@.len() <= usize::MAX,
        ensures
            mouse_done(*old(self), ev, *final(self), now),
            final(self).wf(),
    {
        if self.overlay.is_some() {
            return;
        }
        let x = ev.column;
        let y = ev.row;
        match ev.kind {
            MouseKind::LeftDown => if self.rects.nav_rows.contains(x, y) {
                let index = self.nav_scroll + (y - self.rects.nav_rows.y) as usize;
                if index < self.nav.len() && self.nav[index].selectable() {
                    self.focus = Pane::Nav;
                    self.nav_select(index);
                }
            } else if self.rects.list_rows.contains(x, y) {
                match span_at(&self.rects.row_spans, y) {
                    Some(off) => {
                        let index = self.scroll + off;
                        if index < self.shown.len() {
                            self.focus = Pane::Reminders;
                            self.cursor = index;
                            let double = match self.last_click {
                                Some((at, i)) => {
                                    let since = if now >= at {
                                        now - at
                                    } else {
                                        0
                                    };
                                    i == index && since <= DOUBLE_CLICK
                                },
                                None => false,
                            };
                            self.last_click = Some((now, index));
                            if double {
                                self.last_click = None;
                                self.edit_selected();
                            }
                        }
                    },
                    None => {},
                }
            } else if self.rects.filter.contains(x, y) {
                self.show_filter();
            },
            MouseKind::ScrollDown => if self.rects.nav_rows.contains(x, y) {
                self.focus = Pane::Nav;
                self.nav_move(true);
            } else if self.rects.list_rows.contains(x, y) {
                self.list_move(true);
            },
            MouseKind::ScrollUp => if self.rects.nav_rows.contains(x, y) {
                self.focus = Pane::Nav;
                self.nav_move(false);
            } else if self.rects.list_rows.contains(x, y) {
                self.list_move(false);
            },
            MouseKind::Other => {},
        }
    }

    /// First loads: the sidebar and the initial view.
    pub fn start(&mut self)
        requires
            old(self).wf(),
        ensures
            final(self).wf(),
            exists|m: App|
                {
                    &&& #[trigger] nav_built(*old(self), m)
                    &&& final(self).effects@ == m.effects@.push(Effect::LoadLists { generation: next_gen(m.lists_gen) }).push(
                        view_load(m, next_gen(m.view_gen)),
                    )
                    &&& *final(self) == (App {
                        lists_gen: next_gen(m.lists_gen),
                        view_gen: next_gen(m.view_gen),
                        loading: true,
                        effects: final(self).effects,
                        ..m
                    })
                },
    {
        let ghost a = *self;
        self.build_nav();
        let ghost m = *self;
        self.refresh_lists();
        self.load_view();
        assert(nav_built(a, m));
    }
}


/// The parts of the line under the view title: the list's active and done
/// counts (or the number of rows of a smart view), the filter and its
/// matches, and whether a load is running.
pub open spec fn stats_parts(a: App) -> Seq<Seq<char>> {
    let n = a.shown@.len();
    let counts = match viewed_list(a.lists@, a.view) {
        Some(l) => {
            let active = seq![crate::text::dec_signed(l.active as int) + " active"@];
            if l.completed > 0 {
                active.push(crate::text::dec_signed(l.completed as int) + " done"@)
            } else {
                active
            }
        },
        None => seq![crate::text::dec(n) + " reminder"@ + (if n == 1 {
            Seq::<char>::empty()
        } else {
            "s"@
        })],
    };
    let filtered = if a.filter_text@.len() > 0 {
        counts.push(
            "filter \""@ + a.filter_text@ + "\" → "@ + crate::text::dec(n) + " match"@ + (if n == 1 {
                Seq::<char>::empty()
            } else {
                "es"@
            }),
        )
    } else {
        counts
    };
    if a.loading {
        filtered.push("loading…"@)
    } else {
        filtered
    }
}

/// The message an empty list shows.
pub open spec fn empty_text(a: App) -> Seq<char> {
    if a.filter_text@.len() > 0 {
        "○  nothing matches \""@ + a.filter_text@ + "\""@
    } else {
        match a.view {
            ViewKind::List(_) => "○  no reminders here — press a to add one"@,
            ViewKind::Smart(v) => "✓  "@ + match v {
                SmartView::Today => "Nothing due today — enjoy it"@,
                SmartView::Upcoming => "Nothing scheduled in the next 7 days"@,
                SmartView::Overdue => "Nothing overdue — inbox zero energy"@,
                SmartView::Flagged => "No flagged reminders"@,
            },
        }
    }
}

/// The rect of at most `w` × `h` centered in `area`.
pub open spec fn centered_in(area: Rect, w: u16, h: u16) -> Rect {
    let w2 = if w < area.width {
        w
    } else {
        area.width
    };
    let h2 = if h < area.height {
        h
    } else {
        area.height
    };
    Rect {
        x: (area.x + (area.width - w2) / 2) as u16,
        y: (area.y + (area.height - h2) / 2) as u16,
        width: w2,
        height: h2,
    }
}

/// A centered rect of at most `w` × `h` inside `area`.
pub fn centered(area: Rect, w: u16, h: u16) -> (r: Rect)
    requires
        area.x + area.width <= u16::MAX,
        area.y + area.height <= u16::MAX,
    ensures
        r == centered_in(area, w, h),
{
    let w2 = if w < area.width {
        w
    } else {
        area.width
    };
    let h2 = if h < area.height {
        h
    } else {
        area.height
    };
    Rect { x: area.x + (area.width - w2) / 2, y: area.y + (area.height - h2) / 2, width: w2, height: h2 }
}

/// `s` followed by the characters of `t`.
fn joined(s: &Vec<char>, t: &str) -> (r: Vec<char>)
    ensures
        r@ == s@ + t@,
{
    let mut v = crate::text::slice_chars(s.as_slice(), 0, s.len());
    assert(s@.take(s@.len() as int) =~= s@);
    push_str(&mut v, t);
    v
}

impl App {
    /// The line under the view title.
    pub fn stats_line(&self) -> (r: String)
        ensures
            r@ == crate::text::join(stats_parts(*self), " · "@),
    {
        let n = self.shown.len();
        let count = crate::text::decimal(n as u64);
        let mut parts: Vec<String> = Vec::new();
        match self.current_list() {
            Some(list) => {
                let active = joined(&crate::text::decimal_signed(list.active), " active");
                parts.push(string_of(active.as_slice()));
                if list.completed > 0 {
                    let done = joined(&crate::text::decimal_signed(list.completed), " done");
                    parts.push(string_of(done.as_slice()));
                }
            },
            None => {
                let mut v = joined(&count, " reminder");
                if n != 1 {
                    push_str(&mut v, "s");
                }
                proof {
                    reveal_strlit("");
                    if n == 1 {
                        assert(v@ =~= crate::text::dec(n as nat) + " reminder"@ + Seq::<char>::empty());
                    }
                }
                parts.push(string_of(v.as_slice()));
            },
        }
        if !self.filter_text.as_str().is_empty() {
            let mut v = chars_of("filter \"");
            push_str(&mut v, self.filter_text.as_str());
            push_str(&mut v, "\" → ");
            crate::text::push_all(&mut v, count.as_slice());
            push_str(&mut v, " match");
            if n != 1 {
                push_str(&mut v, "es");
            }
            proof {
                if n == 1 {
                    assert(v@ =~= "filter \""@ + self.filter_text@ + "\" → "@ + crate::text::dec(n as nat) + " match"@
                        + Seq::<char>::empty());
                } else {
                    assert(v@ =~= "filter \""@ + self.filter_text@ + "\" → "@ + crate::text::dec(n as nat) + " match"@
                        + "es"@);
                }
            }
            parts.push(string_of(v.as_slice()));
        }
        if self.loading {
            parts.push(string_of(chars_of("loading…").as_slice()));
        }
        proof {
            let want = stats_parts(*self);
            assert(crate::text::string_views(parts@) =~= want);
        }
        crate::text::join_strings(parts.as_slice(), " · ")
    }

    /// The message shown when the list is empty.
    pub fn empty_message(&self) -> (r: String)
        ensures
            r@ == empty_text(*self),
    {
        if !self.filter_text.as_str().is_empty() {
            let v = joined(&joined(&chars_of("○  nothing matches \""), self.filter_text.as_str()), "\"");
            return string_of(v.as_slice());
        }
        match self.view {
            ViewKind::List(_) => string_of(chars_of("○  no reminders here — press a to add one").as_slice()),
            ViewKind::Smart(v) => {
                let t = joined(&chars_of("✓  "), v.empty_message());
                string_of(t.as_slice())
            },
        }
    }
}


proof fn lemma_first_shown_found(rs: Seq<Reminder>, shown: Seq<usize>, id: i64)
    ensures
        first_shown(rs, shown, id) matches Some(p) ==> 0 <= p < shown.len() && rs[shown[p] as int].id == id,
        (exists|j: int| 0 <= j < shown.len() && rs[shown[j] as int].id == id) ==> first_shown(rs, shown, id) is Some,
    decreases shown.len(),
{
    if shown.len() > 0 {
        lemma_first_shown_found(rs, shown.drop_first(), id);
        if exists|j: int| 0 <= j < shown.len() && rs[shown[j] as int].id == id {
            let j = choose|j: int| 0 <= j < shown.len() && rs[shown[j] as int].id == id;
            if j > 0 {
                assert(shown.drop_first()[j - 1] == shown[j]);
            }
        }
    }
}

proof fn lemma_scan_down_lands(nav: Seq<NavItem>, i: int)
    ensures
        scan_down(nav, i) matches Some(k) ==> selectable_at(nav, k),
    decreases nav.len() - i,
{
    if 0 <= i < nav.len() && !selectable_at(nav, i) {
        lemma_scan_down_lands(nav, i + 1);
    }
}

proof fn lemma_scan_up_lands(nav: Seq<NavItem>, i: int)
    ensures
        scan_up(nav, i) matches Some(k) ==> selectable_at(nav, k),
    decreases i + 1,
{
    if 0 <= i < nav.len() && !selectable_at(nav, i) {
        lemma_scan_up_lands(nav, i - 1);
    }
}

proof fn lemma_kept_all(rs: Seq<Reminder>, n: int)
    requires
        0 <= n <= usize::MAX,
    ensures
        kept_rows(rs, Seq::empty(), n) == Seq::new(n as nat, |i: int| i as usize),
    decreases n,
{
    if n > 0 {
        lemma_kept_all(rs, n - 1);
        assert(kept_rows(rs, Seq::empty(), n) =~= Seq::new(n as nat, |i: int| i as usize));
    } else {
        assert(kept_rows(rs, Seq::empty(), n) =~= Seq::new(n as nat, |i: int| i as usize));
    }
}

proof fn lemma_first_rem_flag(rs: Seq<Reminder>, id: i64, w: bool)
    ensures
        first_rem(flag_set(rs, id, w), id) == first_rem(rs, id),
        first_rem(rs, id) matches Some(i) ==> 0 <= i < rs.len() && rs[i].id == id,
        flag_set(rs, id, w).len() == rs.len(),
{
    lemma_first_rem_range(rs, id);
    if let Some(i) = first_rem(rs, id) {
        let t = flag_set(rs, id, w);
        assert forall|j: int| 0 <= j < i implies t[j].id != id by {
            lemma_first_rem_before(rs, id, j);
        }
        lemma_first_rem_at(t, id, i);
    }
}

proof fn lemma_first_rem_range(rs: Seq<Reminder>, id: i64)
    ensures
        first_rem(rs, id) matches Some(i) ==> 0 <= i < rs.len() && rs[i].id == id,
    decreases rs.len(),
{
    if rs.len() > 0 {
        lemma_first_rem_range(rs.drop_first(), id);
    }
}

proof fn lemma_first_rem_before(rs: Seq<Reminder>, id: i64, j: int)
    requires
        first_rem(rs, id) matches Some(i) && 0 <= j < i,
    ensures
        rs[j].id != id,
    decreases j,
{
    lemma_first_rem_range(rs, id);
    if j > 0 {
        lemma_first_rem_before(rs.drop_first(), id, j - 1);
        assert(rs.drop_first()[j - 1] == rs[j]);
    }
}

proof fn lemma_settled(hs: Seq<u16>, s: int, c: int, height: int)
    requires
        0 <= s,
    ensures
        s <= settled(hs, s, c, height),
        s <= c ==> settled(hs, s, c, height) <= c,
        ({
            let t = settled(hs, s, c, height);
            let last = if c < hs.len() - 1 {
                c
            } else {
                hs.len() - 1
            };
            t >= c || span(hs, t, last) <= height
        }),
    decreases c - s,
{
    let last = if c < hs.len() - 1 {
        c
    } else {
        hs.len() - 1
    };
    if !(s >= c || span(hs, s, last) <= height) {
        lemma_settled(hs, s + 1, c, height);
    }
}

/// A result for an older load than the latest is dropped: the state does
/// not change.
pub proof fn law_stale_result_dropped(a: App, msg: Msg, b: App, now: u64)
    requires
        msg_handled(a, msg, b, now),
        msg matches Msg::Lists { generation, .. } ==> generation != a.lists_gen,
        msg matches Msg::View { generation, .. } ==> generation != a.view_gen,
        msg is Lists || msg is View,
    ensures
        b == a,
{
}

/// `d` asks first and Cancel is the safe default: enter right after `d`
/// closes the question and starts no write.
pub proof fn law_enter_after_delete_cancels(a: App, b: App, c: App, now: u64)
    requires
        a.overlay is None,
        selected_row(a) is Some,
        delete_asked(a, b),
        key_done(b, KeyEvent { code: KeyCode::Enter, modifiers: crate::keys::NO_MODIFIERS }, c, now),
    ensures
        c == (App { overlay: None, ..a }),
        c.effects == a.effects,
{
}

/// A failed flag write puts the row back as it was: flipping the selected
/// reminder's flag and then hearing that the write failed leaves the rows
/// as they were before the flip (reminder ids being unique) and the id no
/// longer pending.
pub proof fn law_failed_flag_reverts(a: App, b: App, c: App, err: RemctlError, now: u64)
    requires
        a.wf(),
        forall|i: int, j: int|
            0 <= i < j < a.reminders@.len() ==> (#[trigger] a.reminders@[i]).id != (#[trigger] a.reminders@[j]).id,
        selected_row(a) matches Some(r) && !a.pending_flags@.contains(r.id),
        flag_toggled(a, b),
        msg_handled(
            b,
            Msg::Flagged { id: selected_row(a)->0.id, wanted: !selected_row(a)->0.flagged, result: Err(err) },
            c,
            now,
        ),
    ensures
        c.reminders@ == a.reminders@,
        c.pending_flags@ == without_id(with_id(a.pending_flags@, selected_row(a)->0.id), selected_row(a)->0.id),
{
    let r = selected_row(a)->0;
    let rs = a.reminders@;
    let k = a.shown@[a.cursor as int] as int;
    lemma_first_rem_flag(rs, r.id, !r.flagged);
    lemma_first_rem_flag(flag_set(rs, r.id, !r.flagged), r.id, r.flagged);
    lemma_first_rem_some(rs, r.id, k);
    let i = first_rem(rs, r.id)->0;
    assert(i == k) by {
        if i != k {
            assert(rs[i].id == rs[k].id);
            if i < k {
                assert(rs[i].id != rs[k].id);
            } else {
                assert(rs[k].id != rs[i].id);
            }
        }
    }
    assert(flag_set(flag_set(rs, r.id, !r.flagged), r.id, r.flagged) =~= rs);
}

proof fn lemma_first_rem_some(rs: Seq<Reminder>, id: i64, k: int)
    requires
        0 <= k < rs.len(),
        rs[k].id == id,
    ensures
        first_rem(rs, id) is Some,
    decreases k,
{
    if k > 0 && rs[0].id != id {
        lemma_first_rem_some(rs.drop_first(), id, k - 1);
    }
}

/// The selection follows its reminder: when the rows change and the
/// reminder that was selected is still shown, the cursor is on it.
pub proof fn law_selection_follows_id(a: App, b: App, id: i64)
    requires
        b.shown@.len() <= usize::MAX,
        populated_with(a, b, Some(id)),
        exists|j: int| 0 <= j < b.shown@.len() && a.reminders@[b.shown@[j] as int].id == id,
    ensures
        selected_id(b) == Some(id),
{
    lemma_first_shown_found(a.reminders@, b.shown@, id);
    let p = first_shown(a.reminders@, b.shown@, id)->0;
    assert(b.cursor == p);
    assert(b.reminders == a.reminders);
}

/// `esc` on a filter shows every row again, in order.
pub proof fn law_dismissed_filter_shows_all(a: App, b: App)
    requires
        a.wf(),
        a.reminders@.len() <= usize::MAX,
        !(a.filter is None && a.filter_text@.len() == 0),
        filter_dismissed(a, b),
    ensures
        b.shown@ == Seq::new(a.reminders@.len(), |i: int| i as usize),
        b.filter is None,
        b.filter_text@.len() == 0,
{
    lemma_kept_all(a.reminders@, a.reminders@.len() as int);
    assert(b.filter_text@ =~= Seq::<char>::empty());
}

/// Moving the sidebar highlight skips headers and blank rows: wherever it
/// lands is a smart view or a list.
pub proof fn law_nav_skips_headers(a: App, b: App, forward: bool)
    requires
        a.nav@.len() <= usize::MAX,
        nav_moved(a, b, forward),
        b.nav_cursor != a.nav_cursor,
    ensures
        b.nav == a.nav,
        selectable_at(a.nav@, b.nav_cursor as int),
{
    lemma_scan_down_lands(a.nav@, a.nav_cursor + 1);
    lemma_scan_up_lands(a.nav@, a.nav_cursor - 1);
}

/// After the draw pass, the cursor row is on screen: the first row drawn is
/// at or above it, and the rows from there to the cursor fit in the list's
/// height, unless the cursor row is the first one drawn.
pub proof fn law_cursor_row_visible(heights: Seq<u16>, scroll: int, cursor: int, height: int)
    requires
        0 <= scroll,
        0 <= cursor < heights.len(),
    ensures
        ({
            let t = visible_scroll(heights, scroll, cursor, height);
            &&& 0 <= t <= cursor
            &&& (t == cursor || span(heights, t, cursor) <= height)
        }),
{
    let s0 = if cursor < scroll {
        cursor
    } else {
        scroll
    };
    lemma_settled(heights, s0, cursor, height);
}

/// In the vim profile a lone `g` only arms the chord; a second `g` soon
/// after goes to the top.
pub proof fn law_gg_chord(a: App, b: App, c: App, now: u64, later: u64)
    requires
        a.keymap.vim_profile(),
        a.last_g is None,
        action_done(a, Action::Top, b, now),
        now <= later <= now + GG_CHORD,
        action_done(b, Action::Top, c, later),
    ensures
        b == (App { last_g: Some(now), ..a }),
        edged(App { last_g: None, ..b }, c, true),
{
}


/// One key hint of the footer.
#[derive(Debug, Clone)]
pub struct Hint {
    pub key: String,
    pub label: String,
    /// The key acts on the selection and there is none.
    pub grayed: bool,
}

/// The hints as plain values.
pub open spec fn hint_views(v: Seq<Hint>) -> Seq<(Seq<char>, Seq<char>, bool)> {
    v.map_values(|h: Hint| (h.key@, h.label@, h.grayed))
}

/// The actions that act on the selected reminder.
pub open spec fn selection_action(a: Action) -> bool {
    a == Action::Edit || a == Action::ToggleDone || a == Action::Delete || a == Action::ToggleFlag
        || a == Action::CyclePriority
}

/// The key a binding shows in the footer: the display form of its first
/// configured key, or "" when it has none.
pub open spec fn shown_key(km: Keymap, id: Seq<char>) -> Seq<char> {
    let ks = crate::keys::names_for(km.names(), id);
    if ks.len() > 0 {
        crate::keys::display_of(ks[0])
    } else {
        Seq::empty()
    }
}

/// The footer hints for the table rows: each shown binding with a key (the
/// Bear one only when Bear is on), grayed when it needs a selection and
/// there is none.
pub open spec fn binding_hints(a: App, rows: Seq<crate::keys::BindingRow>) -> Seq<(Seq<char>, Seq<char>, bool)>
    decreases rows.len(),
{
    if rows.len() == 0 {
        Seq::empty()
    } else {
        let prev = binding_hints(a, rows.drop_last());
        let r = rows.last();
        let key = shown_key(a.keymap, r.0);
        if !r.4 || (r.2 == Action::BearTriage && !a.bear_config.enabled) || key.len() == 0 {
            prev
        } else {
            prev.push((key, r.3, selection_action(r.2) && !(a.view_loaded && a.shown@.len() > 0)))
        }
    }
}

/// The footer: a modal's own keys, else the table's shown bindings.
pub open spec fn footer(a: App) -> Seq<(Seq<char>, Seq<char>, bool)> {
    match a.overlay {
        Some(Overlay::Form(_)) => seq![("esc"@, "Cancel"@, false), ("^s"@, "Save"@, false), ("^e"@, "Editor"@, false)],
        Some(Overlay::Confirm { confirm_label, .. }) => seq![("esc"@, "Cancel"@, false), ("y"@, confirm_label@, false)],
        Some(Overlay::Help { .. }) => seq![("esc"@, "Close"@, false)],
        None => binding_hints(a, crate::keys::binding_table()),
    }
}

fn hint(key: &str, label: &str, grayed: bool) -> (h: Hint)
    ensures
        h.key@ == key@,
        h.label@ == label@,
        h.grayed == grayed,
{
    Hint { key: string_of(chars_of(key).as_slice()), label: string_of(chars_of(label).as_slice()), grayed }
}

impl App {
    /// The key hints the footer shows.
    pub fn footer_hints(&self) -> (r: Vec<Hint>)
        ensures
            hint_views(r@) == footer(*self),
    {
        let mut out: Vec<Hint> = Vec::new();
        match &self.overlay {
            Some(Overlay::Form(_)) => {
                out.push(hint("esc", "Cancel", false));
                out.push(hint("^s", "Save", false));
                out.push(hint("^e", "Editor", false));
                assert(hint_views(out@) =~= footer(*self));
                return out;
            },
            Some(Overlay::Confirm { confirm_label, .. }) => {
                out.push(hint("esc", "Cancel", false));
                out.push(hint("y", confirm_label.as_str(), false));
                assert(hint_views(out@) =~= footer(*self));
                return out;
            },
            Some(Overlay::Help { .. }) => {
                out.push(hint("esc", "Close", false));
                assert(hint_views(out@) =~= footer(*self));
                return out;
            },
            None => {},
        }
        let table = crate::keys::bindings();
        let selected = self.has_selection();
        let mut i: usize = 0;
        while i < table.len()
            invariant
                i <= table@.len(),
                self.overlay is None,
                selected == (self.view_loaded && self.shown@.len() > 0),
                table@.map_values(|b: crate::keys::Binding| b.row()) == crate::keys::binding_table(),
                hint_views(out@) == binding_hints(*self, crate::keys::binding_table().take(i as int)),
            decreases table.len() - i,
        {
            let b = table[i];
            proof {
                assert(b.row() == crate::keys::binding_table()[i as int]);
                assert(crate::keys::binding_table().take(i + 1).drop_last() =~= crate::keys::binding_table().take(i as int));
                assert(crate::keys::binding_table().take(i + 1).last() == b.row());
            }
            let key = self.keymap.display_key(b.id);
            let skip = !b.shown || (b.action == Action::BearTriage && !self.bear_enabled()) || key.as_str().is_empty();
            if !skip {
                let acts_on_selection = b.action == Action::Edit || b.action == Action::ToggleDone || b.action
                    == Action::Delete || b.action == Action::ToggleFlag || b.action == Action::CyclePriority;
                let ghost before = out@;
                out.push(Hint { key, label: string_of(chars_of(b.label).as_slice()), grayed: acts_on_selection && !selected });
                assert(hint_views(out@) =~= hint_views(before).push(
                    (out@.last().key@, out@.last().label@, out@.last().grayed),
                ));
            }
            i += 1;
        }
        assert(crate::keys::binding_table().take(table@.len() as int) =~= crate::keys::binding_table());
        out
    }
}


/// The spans (first screen row, height) of the rows drawn from row `i` on,
/// starting at screen row `y`, while they fit above screen row `limit`.
pub open spec fn spans_from(hs: Seq<u16>, i: int, y: int, limit: int) -> Seq<(u16, u16)>
    decreases hs.len() - i,
{
    if i < 0 || i >= hs.len() || y + hs[i] > limit {
        Seq::empty()
    } else {
        seq![(y as u16, hs[i])] + spans_from(hs, i + 1, y + hs[i], limit)
    }
}

/// Where the rows of these heights land in a list `height` rows tall that
/// starts at screen row `top`, from row `scroll` on: each row that still
/// fits, one under the other.
pub fn visible_spans(heights: &[u16], scroll: usize, top: u16, height: u16) -> (r: Vec<(u16, u16)>)
    requires
        top + height <= u16::MAX,
    ensures
        r@ == spans_from(heights@, scroll as int, top as int, top + height),
{
    let limit: u32 = top as u32 + height as u32;
    let mut out: Vec<(u16, u16)> = Vec::new();
    let mut y: u32 = top as u32;
    let mut i = scroll;
    let ghost start = scroll as int;
    while i < heights.len() && y + heights[i] as u32 <= limit
        invariant
            start <= i,
            top <= y <= limit,
            limit == top + height,
            limit <= u16::MAX,
            out@ + spans_from(heights@, i as int, y as int, limit as int) == spans_from(
                heights@,
                start,
                top as int,
                limit as int,
            ),
        decreases heights.len() - i,
    {
        let h = heights[i] as u32;
        let ghost before = out@;
        out.push((y as u16, heights[i]));
        proof {
            assert(before + spans_from(heights@, i as int, y as int, limit as int) =~= out@ + spans_from(
                heights@,
                i + 1,
                y + h,
                limit as int,
            ));
        }
        y = y + h;
        i += 1;
    }
    proof {
        assert(spans_from(heights@, i as int, y as int, limit as int) =~= Seq::<(u16, u16)>::empty());
        assert(out@ =~= out@ + Seq::<(u16, u16)>::empty());
    }
    out
}

impl App {
    /// Scroll the sidebar so that the highlight is on screen in `height`
    /// rows.
    pub fn keep_nav_visible(&mut self, height: usize)
        ensures
            *final(self) == (App {
                nav_scroll: ({
                    let s1 = if old(self).nav_cursor < old(self).nav_scroll {
                        old(self).nav_cursor
                    } else {
                        old(self).nav_scroll
                    };
                    if height > 0 && old(self).nav_cursor >= s1 + height {
                        (old(self).nav_cursor + 1 - height) as usize
                    } else {
                        s1
                    }
                }),
                ..*old(self)
            }),
    {
        if self.nav_cursor < self.nav_scroll {
            self.nav_scroll = self.nav_cursor;
        }
        if height > 0 && self.nav_cursor - self.nav_scroll >= height {
            self.nav_scroll = self.nav_cursor - (height - 1);
        }
    }
}


impl App {
    /// Keep the help's scroll within `total` lines shown `rows` at a time.
    pub fn clamp_help_scroll(&mut self, rows: usize, total: usize)
        ensures
            *final(self) == (match old(self).overlay {
                Some(Overlay::Help { scroll }) => {
                    let most = if total > rows {
                        (total - rows) as usize
                    } else {
                        0
                    };
                    App {
                        overlay: Some(Overlay::Help {
                            scroll: if scroll < most {
                                scroll
                            } else {
                                most
                            },
                        }),
                        ..*old(self)
                    }
                },
                _ => *old(self),
            }),
    {
        if let Some(Overlay::Help { scroll }) = self.overlay {
            let most = if total > rows {
                total - rows
            } else {
                0
            };
            if scroll > most {
                self.overlay = Some(Overlay::Help { scroll: most });
            }
        }
    }
}


/// Switching views starts at the top of the new view: once a new view is
/// chosen in the sidebar and its rows arrive, the cursor and the scroll are
/// on the first row, whatever was selected before.
pub proof fn law_new_view_starts_at_top(a: App, b: App, c: App, index: int, items: Vec<Reminder>, now: u64)
    requires
        selectable_at(a.nav@, index),
        item_view(a.nav@[index], a.lists@) != a.view,
        nav_selected(a, b, index),
        msg_handled(b, Msg::View { generation: b.view_gen, result: Ok(items) }, c, now),
    ensures
        c.cursor == 0,
        c.scroll == 0,
        c.reminders == items,
{
    assert(b.shown@.len() == 0);
    assert(selected_id(b) is None);
}

} // verus!
