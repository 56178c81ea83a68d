//! The binding table: ids, default keys, the vim profile, and `[keys]`
//! overrides. Keys are written in Textual's names (`ctrl+d`, `question_mark`,
//! `G`), as the config file writes them.

use vstd::prelude::*;

use crate::models::{same_chars, same_str};
use crate::text::{
    chars_of, copy_strings, lemma_split_on_len, lemma_trim_len, lowercase, parse_i64, parse_int, slice_chars, split_chars, split_on,
    string_of, string_views, to_lower, trim, trim_chars, views,
};

verus! {

/// The modifier bits of a key press, as the terminal reports them.
pub const NO_MODIFIERS: u8 = 0;
pub const SHIFT: u8 = 1;
pub const CONTROL: u8 = 2;
pub const ALT: u8 = 4;
pub const SUPER: u8 = 8;
pub const HYPER: u8 = 16;
pub const META: u8 = 32;

/// The key of a key press.
#[derive(Debug, Clone, Copy, PartialEq, Eq, Structural, Hash)]
pub enum KeyCode {
    Backspace,
    Enter,
    Left,
    Right,
    Up,
    Down,
    Home,
    End,
    PageUp,
    PageDown,
    Tab,
    BackTab,
    Delete,
    Insert,
    F(u8),
    Char(char),
    Null,
    Esc,
    CapsLock,
    ScrollLock,
    NumLock,
    PrintScreen,
    Pause,
    Menu,
    KeypadBegin,
    Media,
    Modifier,
}

/// A key press: the key and the modifier bits held with it.
#[derive(Debug, Clone, Copy, PartialEq, Eq, Structural, Hash)]
pub struct KeyEvent {
    pub code: KeyCode,
    pub modifiers: u8,
}

impl KeyEvent {
    pub fn new(code: KeyCode, modifiers: u8) -> (e: KeyEvent)
        ensures
            e.code == code,
            e.modifiers == modifiers,
    {
        KeyEvent { code, modifiers }
    }

    /// Whether every bit of `bits` is held.
    pub fn holds(&self, bits: u8) -> (r: bool)
        ensures
            r == (self.modifiers & bits == bits),
    {
        self.modifiers & bits == bits
    }
}

/// Everything a key can do on the main screen.
#[derive(Debug, Clone, Copy, PartialEq, Eq, Structural, Hash)]
pub enum Action {
    Add,
    Edit,
    ToggleDone,
    Delete,
    ToggleFlag,
    CyclePriority,
    Filter,
    ToggleCompleted,
    Refresh,
    DismissFilter,
    Down,
    Up,
    FocusNav,
    FocusReminders,
    SwitchPane,
    Top,
    Bottom,
    BearTriage,
    Help,
    Quit,
    HalfPageDown,
    HalfPageUp,
    PageDown,
    PageUp,
    Palette,
    VimNew,
}

/// The actions that answer only in the vim profile.
pub open spec fn vim_only_action(action: Action) -> bool {
    match action {
        Action::HalfPageDown | Action::HalfPageUp | Action::PageDown | Action::PageUp
        | Action::Palette | Action::VimNew => true,
        _ => false,
    }
}

pub fn is_vim_action(action: Action) -> (r: bool)
    ensures
        r == vim_only_action(action),
{
    match action {
        Action::HalfPageDown | Action::HalfPageUp | Action::PageDown | Action::PageUp
        | Action::Palette | Action::VimNew => true,
        _ => false,
    }
}

/// One row of the table: id, default keys, action, footer label, shown.
#[derive(Debug, Clone, Copy)]
pub struct Binding {
    pub id: &'static str,
    pub keys: &'static str,
    pub action: Action,
    pub label: &'static str,
    pub shown: bool,
    pub vim_only: bool,
}

/// A binding as plain values: id, default keys, action, label, shown, vim only.
pub type BindingRow = (Seq<char>, Seq<char>, Action, Seq<char>, bool, bool);

impl Binding {
    pub open spec fn row(self) -> BindingRow {
        (self.id@, self.keys@, self.action, self.label@, self.shown, self.vim_only)
    }
}

/// The binding table, in order.
pub open spec fn binding_table() -> Seq<BindingRow> {
    seq![
        ("reminder.add"@, "a,n"@, Action::Add, "Add"@, true, false),
        ("reminder.edit"@, "e"@, Action::Edit, "Edit"@, true, false),
        ("reminder.done"@, "space"@, Action::ToggleDone, "Done"@, true, false),
        ("reminder.delete"@, "d,delete,backspace"@, Action::Delete, "Delete"@, true, false),
        ("reminder.flag"@, "f"@, Action::ToggleFlag, "Flag"@, true, false),
        ("reminder.priority"@, "p"@, Action::CyclePriority, "Priority"@, false, false),
        ("view.filter"@, "slash"@, Action::Filter, "Filter"@, true, false),
        ("view.show-completed"@, "c"@, Action::ToggleCompleted, "Show done"@, false, false),
        ("view.refresh"@, "r"@, Action::Refresh, "Refresh"@, false, false),
        ("view.dismiss-filter"@, "escape"@, Action::DismissFilter, ""@, false, false),
        ("nav.down"@, "j"@, Action::Down, ""@, false, false),
        ("nav.up"@, "k"@, Action::Up, ""@, false, false),
        ("nav.left"@, "left,h"@, Action::FocusNav, "Lists"@, false, false),
        ("nav.right"@, "right,l"@, Action::FocusReminders, "Reminders"@, false, false),
        ("nav.switch-pane"@, "tab"@, Action::SwitchPane, "Switch pane"@, true, false),
        ("nav.top"@, "g"@, Action::Top, ""@, false, false),
        ("nav.bottom"@, "G"@, Action::Bottom, ""@, false, false),
        ("bear.triage"@, "b"@, Action::BearTriage, "Bear"@, true, false),
        ("app.help"@, "question_mark"@, Action::Help, "Help"@, true, false),
        ("app.quit"@, "q"@, Action::Quit, "Quit"@, true, false),
        ("vim.half-down"@, "ctrl+d"@, Action::HalfPageDown, "½ page down"@, false, true),
        ("vim.half-up"@, "ctrl+u"@, Action::HalfPageUp, "½ page up"@, false, true),
        ("vim.page-down"@, "ctrl+f"@, Action::PageDown, "Page down"@, false, true),
        ("vim.page-up"@, "ctrl+b"@, Action::PageUp, "Page up"@, false, true),
        ("vim.palette"@, "colon"@, Action::Palette, "Palette"@, false, true),
        ("vim.new"@, "o"@, Action::VimNew, "New"@, false, true),
    ]
}

fn row(id: &'static str, keys: &'static str, action: Action, label: &'static str, shown: bool, vim_only: bool) -> (b: Binding)
    ensures
        b.row() == (id@, keys@, action, label@, shown, vim_only),
{
    Binding { id, keys, action, label, shown, vim_only }
}

/// The binding table.
pub fn bindings() -> (v: Vec<Binding>)
    ensures
        v@.map_values(|b: Binding| b.row()) == binding_table(),
{
    let v = vec![
        row("reminder.add", "a,n", Action::Add, "Add", true, false),
        row("reminder.edit", "e", Action::Edit, "Edit", true, false),
        row("reminder.done", "space", Action::ToggleDone, "Done", true, false),
        row("reminder.delete", "d,delete,backspace", Action::Delete, "Delete", true, false),
        row("reminder.flag", "f", Action::ToggleFlag, "Flag", true, false),
        row("reminder.priority", "p", Action::CyclePriority, "Priority", false, false),
        row("view.filter", "slash", Action::Filter, "Filter", true, false),
        row("view.show-completed", "c", Action::ToggleCompleted, "Show done", false, false),
        row("view.refresh", "r", Action::Refresh, "Refresh", false, false),
        row("view.dismiss-filter", "escape", Action::DismissFilter, "", false, false),
        row("nav.down", "j", Action::Down, "", false, false),
        row("nav.up", "k", Action::Up, "", false, false),
        row("nav.left", "left,h", Action::FocusNav, "Lists", false, false),
        row("nav.right", "right,l", Action::FocusReminders, "Reminders", false, false),
        row("nav.switch-pane", "tab", Action::SwitchPane, "Switch pane", true, false),
        row("nav.top", "g", Action::Top, "", false, false),
        row("nav.bottom", "G", Action::Bottom, "", false, false),
        row("bear.triage", "b", Action::BearTriage, "Bear", true, false),
        row("app.help", "question_mark", Action::Help, "Help", true, false),
        row("app.quit", "q", Action::Quit, "Quit", true, false),
        row("vim.half-down", "ctrl+d", Action::HalfPageDown, "½ page down", false, true),
        row("vim.half-up", "ctrl+u", Action::HalfPageUp, "½ page up", false, true),
        row("vim.page-down", "ctrl+f", Action::PageDown, "Page down", false, true),
        row("vim.page-up", "ctrl+b", Action::PageUp, "Page up", false, true),
        row("vim.palette", "colon", Action::Palette, "Palette", false, true),
        row("vim.new", "o", Action::VimNew, "New", false, true),
    ];
    assert(v@.map_values(|b: Binding| b.row()) =~= binding_table());
    v
}

/// Whether `v` holds exactly the characters of `w`.
fn word(v: &[char], w: &str) -> (r: bool)
    ensures
        r == (v@ == w@),
{
    let x = chars_of(w);
    same_chars(v, x.as_slice())
}

/// The key a Textual name stands for, where the name is one of the table's.
pub open spec fn named_code(n: Seq<char>) -> Option<KeyCode> {
    if n == "space"@ {
        Some(KeyCode::Char(' '))
    } else if n == "enter"@ {
        Some(KeyCode::Enter)
    } else if n == "return"@ {
        Some(KeyCode::Enter)
    } else if n == "escape"@ {
        Some(KeyCode::Esc)
    } else if n == "esc"@ {
        Some(KeyCode::Esc)
    } else if n == "tab"@ {
        Some(KeyCode::Tab)
    } else if n == "backspace"@ {
        Some(KeyCode::Backspace)
    } else if n == "delete"@ {
        Some(KeyCode::Delete)
    } else if n == "insert"@ {
        Some(KeyCode::Insert)
    } else if n == "up"@ {
        Some(KeyCode::Up)
    } else if n == "down"@ {
        Some(KeyCode::Down)
    } else if n == "left"@ {
        Some(KeyCode::Left)
    } else if n == "right"@ {
        Some(KeyCode::Right)
    } else if n == "home"@ {
        Some(KeyCode::Home)
    } else if n == "end"@ {
        Some(KeyCode::End)
    } else if n == "pageup"@ {
        Some(KeyCode::PageUp)
    } else if n == "pagedown"@ {
        Some(KeyCode::PageDown)
    } else if n == "slash"@ {
        Some(KeyCode::Char('/'))
    } else if n == "backslash"@ {
        Some(KeyCode::Char('\\'))
    } else if n == "colon"@ {
        Some(KeyCode::Char(':'))
    } else if n == "semicolon"@ {
        Some(KeyCode::Char(';'))
    } else if n == "comma"@ {
        Some(KeyCode::Char(','))
    } else if n == "full_stop"@ {
        Some(KeyCode::Char('.'))
    } else if n == "period"@ {
        Some(KeyCode::Char('.'))
    } else if n == "minus"@ {
        Some(KeyCode::Char('-'))
    } else {
        named_code_rest(n)
    }
}

pub open spec fn named_code_rest(n: Seq<char>) -> Option<KeyCode> {
    if n == "plus"@ {
        Some(KeyCode::Char('+'))
    } else if n == "equals_sign"@ {
        Some(KeyCode::Char('='))
    } else if n == "equals"@ {
        Some(KeyCode::Char('='))
    } else if n == "question_mark"@ {
        Some(KeyCode::Char('?'))
    } else if n == "exclamation_mark"@ {
        Some(KeyCode::Char('!'))
    } else if n == "asterisk"@ {
        Some(KeyCode::Char('*'))
    } else if n == "number_sign"@ {
        Some(KeyCode::Char('#'))
    } else if n == "dollar_sign"@ {
        Some(KeyCode::Char('$'))
    } else if n == "percent_sign"@ {
        Some(KeyCode::Char('%'))
    } else if n == "ampersand"@ {
        Some(KeyCode::Char('&'))
    } else if n == "at"@ {
        Some(KeyCode::Char('@'))
    } else if n == "circumflex_accent"@ {
        Some(KeyCode::Char('^'))
    } else if n == "underscore"@ {
        Some(KeyCode::Char('_'))
    } else if n == "grave_accent"@ {
        Some(KeyCode::Char('`'))
    } else if n == "tilde"@ {
        Some(KeyCode::Char('~'))
    } else if n == "apostrophe"@ {
        Some(KeyCode::Char('\''))
    } else if n == "quotation_mark"@ {
        Some(KeyCode::Char('"'))
    } else if n == "left_square_bracket"@ {
        Some(KeyCode::Char('['))
    } else if n == "right_square_bracket"@ {
        Some(KeyCode::Char(']'))
    } else if n == "left_curly_bracket"@ {
        Some(KeyCode::Char('{'))
    } else if n == "right_curly_bracket"@ {
        Some(KeyCode::Char('}'))
    } else if n == "vertical_line"@ {
        Some(KeyCode::Char('|'))
    } else if n == "less_than_sign"@ {
        Some(KeyCode::Char('<'))
    } else if n == "greater_than_sign"@ {
        Some(KeyCode::Char('>'))
    } else {
        None
    }
}

fn named_code_of(n: &[char]) -> (r: Option<KeyCode>)
    ensures
        r == named_code(n@),
{
    if word(n, "space") {
        Some(KeyCode::Char(' '))
    } else if word(n, "enter") {
        Some(KeyCode::Enter)
    } else if word(n, "return") {
        Some(KeyCode::Enter)
    } else if word(n, "escape") {
        Some(KeyCode::Esc)
    } else if word(n, "esc") {
        Some(KeyCode::Esc)
    } else if word(n, "tab") {
        Some(KeyCode::Tab)
    } else if word(n, "backspace") {
        Some(KeyCode::Backspace)
    } else if word(n, "delete") {
        Some(KeyCode::Delete)
    } else if word(n, "insert") {
        Some(KeyCode::Insert)
    } else if word(n, "up") {
        Some(KeyCode::Up)
    } else if word(n, "down") {
        Some(KeyCode::Down)
    } else if word(n, "left") {
        Some(KeyCode::Left)
    } else if word(n, "right") {
        Some(KeyCode::Right)
    } else if word(n, "home") {
        Some(KeyCode::Home)
    } else if word(n, "end") {
        Some(KeyCode::End)
    } else if word(n, "pageup") {
        Some(KeyCode::PageUp)
    } else if word(n, "pagedown") {
        Some(KeyCode::PageDown)
    } else if word(n, "slash") {
        Some(KeyCode::Char('/'))
    } else if word(n, "backslash") {
        Some(KeyCode::Char('\\'))
    } else if word(n, "colon") {
        Some(KeyCode::Char(':'))
    } else if word(n, "semicolon") {
        Some(KeyCode::Char(';'))
    } else if word(n, "comma") {
        Some(KeyCode::Char(','))
    } else if word(n, "full_stop") {
        Some(KeyCode::Char('.'))
    } else if word(n, "period") {
        Some(KeyCode::Char('.'))
    } else if word(n, "minus") {
        Some(KeyCode::Char('-'))
    } else {
        named_code_rest_of(n)
    }
}

fn named_code_rest_of(n: &[char]) -> (r: Option<KeyCode>)
    ensures
        r == named_code_rest(n@),
{
    if word(n, "plus") {
        Some(KeyCode::Char('+'))
    } else if word(n, "equals_sign") {
        Some(KeyCode::Char('='))
    } else if word(n, "equals") {
        Some(KeyCode::Char('='))
    } else if word(n, "question_mark") {
        Some(KeyCode::Char('?'))
    } else if word(n, "exclamation_mark") {
        Some(KeyCode::Char('!'))
    } else if word(n, "asterisk") {
        Some(KeyCode::Char('*'))
    } else if word(n, "number_sign") {
        Some(KeyCode::Char('#'))
    } else if word(n, "dollar_sign") {
        Some(KeyCode::Char('$'))
    } else if word(n, "percent_sign") {
        Some(KeyCode::Char('%'))
    } else if word(n, "ampersand") {
        Some(KeyCode::Char('&'))
    } else if word(n, "at") {
        Some(KeyCode::Char('@'))
    } else if word(n, "circumflex_accent") {
        Some(KeyCode::Char('^'))
    } else if word(n, "underscore") {
        Some(KeyCode::Char('_'))
    } else if word(n, "grave_accent") {
        Some(KeyCode::Char('`'))
    } else if word(n, "tilde") {
        Some(KeyCode::Char('~'))
    } else if word(n, "apostrophe") {
        Some(KeyCode::Char('\''))
    } else if word(n, "quotation_mark") {
        Some(KeyCode::Char('"'))
    } else if word(n, "left_square_bracket") {
        Some(KeyCode::Char('['))
    } else if word(n, "right_square_bracket") {
        Some(KeyCode::Char(']'))
    } else if word(n, "left_curly_bracket") {
        Some(KeyCode::Char('{'))
    } else if word(n, "right_curly_bracket") {
        Some(KeyCode::Char('}'))
    } else if word(n, "vertical_line") {
        Some(KeyCode::Char('|'))
    } else if word(n, "less_than_sign") {
        Some(KeyCode::Char('<'))
    } else if word(n, "greater_than_sign") {
        Some(KeyCode::Char('>'))
    } else {
        None
    }
}

/// The bit a (lower-cased) modifier name stands for.
pub open spec fn modifier_bit(word: Seq<char>) -> Option<u8> {
    if word == "ctrl"@ || word == "control"@ {
        Some(CONTROL)
    } else if word == "shift"@ {
        Some(SHIFT)
    } else if word == "alt"@ || word == "meta"@ || word == "option"@ {
        Some(ALT)
    } else {
        None
    }
}

/// The modifier bits named by `parts`, matched without regard to case, or
/// None when one of them names no modifier.
pub open spec fn modifier_bits(parts: Seq<Seq<char>>) -> Option<u8>
    decreases parts.len(),
{
    if parts.len() == 0 {
        Some(NO_MODIFIERS)
    } else {
        match (modifier_bits(parts.drop_last()), modifier_bit(lowercase(parts.last()))) {
            (Some(m), Some(b)) => Some(m | b),
            _ => None,
        }
    }
}

/// `str::parse::<u8>`: an optional `+`, then digits, at most 255.
pub open spec fn small_number(s: Seq<char>) -> Option<u8> {
    if s.len() > 0 && s[0] == '-' {
        None
    } else {
        match parse_int(s) {
            Some(v) => if 0 <= v <= 255 {
                Some(v as u8)
            } else {
                None
            },
            None => None,
        }
    }
}

/// The key a last name part stands for: a table name, a single character, or
/// `f` and a number for a function key.
pub open spec fn code_of(last: Seq<char>) -> Option<KeyCode> {
    match named_code(last) {
        Some(c) => Some(c),
        None => if last.len() == 0 {
            None
        } else if last.len() == 1 {
            Some(KeyCode::Char(last[0]))
        } else if last[0] == 'f' {
            match small_number(last.drop_first()) {
                Some(n) => Some(KeyCode::F(n)),
                None => None,
            }
        } else {
            None
        },
    }
}

/// The `+`-separated parts of a trimmed key name; a name that ends in `+`
/// (as `ctrl++` does) is the plus key with control.
pub open spec fn key_parts(t: Seq<char>) -> Seq<Seq<char>> {
    let p = split_on(t, '+');
    if p.len() > 1 && t.last() == '+' {
        seq!["ctrl"@, "plus"@]
    } else {
        p
    }
}

/// The key a Textual key name stands for.
pub open spec fn key_named(name: Seq<char>) -> Option<Key> {
    let t = trim(name);
    if t.len() == 0 {
        None
    } else {
        let p = key_parts(t);
        match (modifier_bits(p.drop_last()), code_of(p.last())) {
            (Some(m), Some(c)) => Some(Key { code: c, modifiers: m }),
            _ => None,
        }
    }
}

/// A key as the table names it, normalized for matching.
#[derive(Debug, Clone, Copy, PartialEq, Eq, Structural, Hash)]
pub struct Key {
    pub code: KeyCode,
    pub modifiers: u8,
}

fn small_number_of(s: &[char]) -> (r: Option<u8>)
    ensures
        r == small_number(s@),
{
    if s.len() > 0 && s[0] == '-' {
        return None;
    }
    match parse_i64(s) {
        Some(v) => if 0 <= v && v <= 255 {
            Some(v as u8)
        } else {
            None
        },
        None => None,
    }
}

fn code_named(last: &[char]) -> (r: Option<KeyCode>)
    ensures
        r == code_of(last@),
{
    match named_code_of(last) {
        Some(c) => Some(c),
        None => if last.len() == 0 {
            None
        } else if last.len() == 1 {
            Some(KeyCode::Char(last[0]))
        } else if last[0] == 'f' {
            let rest = slice_chars(last, 1, last.len());
            assert(rest@ == last@.drop_first());
            match small_number_of(rest.as_slice()) {
                Some(n) => Some(KeyCode::F(n)),
                None => None,
            }
        } else {
            None
        },
    }
}

/// Parse one Textual key name (`a`, `G`, `ctrl+d`, `question_mark`, `shift+tab`).
pub fn parse_key(name: &str) -> (r: Option<Key>)
    ensures
        r == key_named(name@),
{
    let v = chars_of(name);
    let t = trim_chars(v.as_slice());
    if t.len() == 0 {
        return None;
    }
    let mut parts = split_chars(t.as_slice(), '+');
    proof {
        lemma_split_on_len(t@, '+');
    }
    if parts.len() > 1 && t[t.len() - 1] == '+' {
        parts = vec![chars_of("ctrl"), chars_of("plus")];
        proof {
            assert(views(parts@) =~= seq!["ctrl"@, "plus"@]);
        }
    }
    assert(views(parts@) == key_parts(t@));
    let last = parts.pop().unwrap();
    proof {
        assert(views(parts@) =~= key_parts(t@).drop_last());
        assert(last@ == key_parts(t@).last());
    }
    let mut modifiers: u8 = NO_MODIFIERS;
    let mut i: usize = 0;
    while i < parts.len()
        invariant
            i <= parts@.len(),
            modifier_bits(views(parts@).take(i as int)) == Some(modifiers),
            t@ == trim(name@),
            t@.len() > 0,
            views(parts@) == key_parts(t@).drop_last(),
            last@ == key_parts(t@).last(),
        decreases parts.len() - i,
    {
        let text = string_of(parts[i].as_slice());
        let lower = to_lower(text.as_str());
        let lv = chars_of(lower.as_str());
        let bit = if word(lv.as_slice(), "ctrl") || word(lv.as_slice(), "control") {
            CONTROL
        } else if word(lv.as_slice(), "shift") {
            SHIFT
        } else if word(lv.as_slice(), "alt") || word(lv.as_slice(), "meta") || word(lv.as_slice(), "option") {
            ALT
        } else {
            proof {
                assert(views(parts@).take(i + 1).drop_last() =~= views(parts@).take(i as int));
                assert(modifier_bits(views(parts@).take(i + 1)) is None);
                lemma_bits_stay_none(views(parts@), i + 1);
            }
            return None;
        };
        proof {
            assert(views(parts@).take(i + 1).drop_last() =~= views(parts@).take(i as int));
            assert(views(parts@).take(i + 1).last() == parts@[i as int]@);
        }
        modifiers = modifiers | bit;
        i += 1;
    }
    proof {
        assert(views(parts@).take(parts@.len() as int) =~= views(parts@));
    }
    match code_named(last.as_slice()) {
        Some(code) => Some(Key { code, modifiers }),
        None => None,
    }
}

proof fn lemma_bits_stay_none(parts: Seq<Seq<char>>, k: int)
    requires
        0 <= k <= parts.len(),
        modifier_bits(parts.take(k)) is None,
    ensures
        modifier_bits(parts) is None,
    decreases parts.len() - k,
{
    if k < parts.len() {
        assert(parts.take(k + 1).drop_last() =~= parts.take(k));
        lemma_bits_stay_none(parts, k + 1);
    } else {
        assert(parts.take(k) =~= parts);
    }
}

/// The key a press is matched as: only control, alt and shift count, shift
/// not at all on a printable character (it is part of the character), and
/// back-tab is shift with tab.
pub open spec fn normalized(e: KeyEvent) -> Key {
    let held = e.modifiers & (CONTROL | ALT | SHIFT);
    let held = if e.code is Char {
        held & !SHIFT
    } else {
        held
    };
    if e.code == KeyCode::BackTab {
        Key { code: KeyCode::Tab, modifiers: held | SHIFT }
    } else {
        Key { code: e.code, modifiers: held }
    }
}

fn normalize(event: &KeyEvent) -> (k: Key)
    ensures
        k == normalized(*event),
{
    let mut held = event.modifiers & (CONTROL | ALT | SHIFT);
    if let KeyCode::Char(_) = event.code {
        held = held & !SHIFT;
    }
    if let KeyCode::BackTab = event.code {
        return Key { code: KeyCode::Tab, modifiers: held | SHIFT };
    }
    Key { code: event.code, modifiers: held }
}

/// How the footer prints a Textual key name.
pub open spec fn display_of(name: Seq<char>) -> Seq<char>
    decreases name.len(),
{
    let n = trim(name);
    if n.len() >= 5 && n.take(5) == "ctrl+"@ {
        proof {
            lemma_trim_len(name);
        }
        "^"@ + display_of(n.skip(5))
    } else if n == "question_mark"@ {
        "?"@
    } else if n == "slash"@ {
        "/"@
    } else if n == "colon"@ {
        ":"@
    } else if n == "escape"@ {
        "esc"@
    } else if n == "backspace"@ {
        "⌫"@
    } else if n == "delete"@ {
        "del"@
    } else if n == "left"@ {
        "←"@
    } else if n == "right"@ {
        "→"@
    } else if n == "up"@ {
        "↑"@
    } else if n == "down"@ {
        "↓"@
    } else {
        n
    }
}

/// How the footer prints a Textual key name.
pub fn display_name(name: &str) -> (r: String)
    ensures
        r@ == display_of(name@),
    decreases name@.len(),
{
    let v = chars_of(name);
    let n = trim_chars(v.as_slice());
    let prefix = chars_of("ctrl+");
    proof {
        reveal_strlit("ctrl+");
        lemma_trim_len(name@);
    }
    if n.len() >= 5 && same_chars(slice_chars(n.as_slice(), 0, 5).as_slice(), prefix.as_slice()) {
        let rest = slice_chars(n.as_slice(), 5, n.len());
        let rest_text = string_of(rest.as_slice());
        let shown = display_name(rest_text.as_str());
        let mut out = String::new();
        out.push('^');
        let sv = chars_of(shown.as_str());
        let mut i: usize = 0;
        while i < sv.len()
            invariant
                i <= sv@.len(),
                out@ == seq!['^'] + sv@.take(i as int),
            decreases sv.len() - i,
        {
            out.push(sv[i]);
            i += 1;
            assert(sv@.take(i as int) == sv@.take(i - 1).push(sv@[i - 1]));
        }
        proof {
            reveal_strlit("^");
            assert(sv@.take(sv@.len() as int) =~= sv@);
            assert(rest@ =~= n@.skip(5));
            assert(out@ =~= "^"@ + display_of(n@.skip(5)));
        }
        return out;
    }
    let shown: &str = if word(n.as_slice(), "question_mark") {
        "?"
    } else if word(n.as_slice(), "slash") {
        "/"
    } else if word(n.as_slice(), "colon") {
        ":"
    } else if word(n.as_slice(), "escape") {
        "esc"
    } else if word(n.as_slice(), "backspace") {
        "⌫"
    } else if word(n.as_slice(), "delete") {
        "del"
    } else if word(n.as_slice(), "left") {
        "←"
    } else if word(n.as_slice(), "right") {
        "→"
    } else if word(n.as_slice(), "up") {
        "↑"
    } else if word(n.as_slice(), "down") {
        "↓"
    } else {
        return string_of(n.as_slice());
    };
    let r = chars_of(shown);
    string_of(r.as_slice())
}

/// The override configured for a binding id, if any.
pub open spec fn override_for(ov: Seq<(String, String)>, id: Seq<char>) -> Option<Seq<char>>
    decreases ov.len(),
{
    if ov.len() == 0 {
        None
    } else if ov[0].0@ == id {
        Some(ov[0].1@)
    } else {
        override_for(ov.drop_first(), id)
    }
}

/// The trimmed, non-empty pieces.
pub open spec fn kept_names(pieces: Seq<Seq<char>>) -> Seq<Seq<char>>
    decreases pieces.len(),
{
    if pieces.len() == 0 {
        Seq::empty()
    } else {
        let r = kept_names(pieces.drop_last());
        let t = trim(pieces.last());
        if t.len() > 0 {
            r.push(t)
        } else {
            r
        }
    }
}

/// The key names of a comma-separated key list.
pub open spec fn key_names(keys: Seq<char>) -> Seq<Seq<char>> {
    kept_names(split_on(keys, ','))
}

/// The key list in force for binding `i`: its override, else its default.
pub open spec fn binding_keys(ov: Seq<(String, String)>, i: int) -> Seq<char> {
    match override_for(ov, binding_table()[i].0) {
        Some(k) => k,
        None => binding_table()[i].1,
    }
}

/// The keys among `names` that parse, each with `action`.
pub open spec fn parsed_keys(names: Seq<Seq<char>>, action: Action) -> Seq<(Key, Action)>
    decreases names.len(),
{
    if names.len() == 0 {
        Seq::empty()
    } else {
        let r = parsed_keys(names.drop_last(), action);
        match key_named(names.last()) {
            Some(k) => r.push((k, action)),
            None => r,
        }
    }
}

/// The (key, action) pairs of the first `n` bindings, in table order.
pub open spec fn keymap_entries(ov: Seq<(String, String)>, n: int) -> Seq<(Key, Action)>
    decreases n,
{
    if n <= 0 {
        Seq::empty()
    } else {
        keymap_entries(ov, n - 1) + parsed_keys(key_names(binding_keys(ov, n - 1)), binding_table()[n - 1].2)
    }
}

/// Each binding id with the key names configured for it.
pub open spec fn keymap_names(ov: Seq<(String, String)>) -> Seq<(Seq<char>, Seq<Seq<char>>)> {
    Seq::new(binding_table().len(), |i: int| (binding_table()[i].0, key_names(binding_keys(ov, i))))
}

/// The action of the first entry for `key` that the profile allows.
pub open spec fn first_action(entries: Seq<(Key, Action)>, key: Key, vim: bool) -> Option<Action>
    decreases entries.len(),
{
    if entries.len() == 0 {
        None
    } else if entries[0].0 == key && (vim || !vim_only_action(entries[0].1)) {
        Some(entries[0].1)
    } else {
        first_action(entries.drop_first(), key, vim)
    }
}

/// The key names listed for a binding id, or none.
pub open spec fn names_for(names: Seq<(Seq<char>, Seq<Seq<char>>)>, id: Seq<char>) -> Seq<Seq<char>>
    decreases names.len(),
{
    if names.len() == 0 {
        Seq::empty()
    } else if names[0].0 == id {
        names[0].1
    } else {
        names_for(names.drop_first(), id)
    }
}

/// The resolved table: which keys fire which action.
#[derive(Debug, Clone)]
pub struct Keymap {
    pub vim: bool,
    entries: Vec<(Key, Action)>,
    keys_by_action: Vec<(&'static str, Vec<String>)>,
}

fn override_lookup<'a>(ov: &'a Vec<(String, String)>, id: &str) -> (r: Option<&'a String>)
    ensures
        match r {
            Some(s) => override_for(ov@, id@) == Some(s@),
            None => override_for(ov@, id@) is None,
        },
{
    let mut i: usize = 0;
    assert(ov@.skip(0) =~= ov@);
    while i < ov.len()
        invariant
            i <= ov@.len(),
            override_for(ov@, id@) == override_for(ov@.skip(i as int), id@),
        decreases ov.len() - i,
    {
        assert(ov@.skip(i as int).drop_first() =~= ov@.skip(i + 1));
        if same_str(ov[i].0.as_str(), id) {
            return Some(&ov[i].1);
        }
        i += 1;
    }
    None
}

fn names_of(keys: &[char]) -> (r: Vec<String>)
    ensures
        string_views(r@) == key_names(keys@),
{
    let pieces = split_chars(keys, ',');
    let mut out: Vec<String> = Vec::new();
    let mut i: usize = 0;
    while i < pieces.len()
        invariant
            i <= pieces@.len(),
            views(pieces@) == split_on(keys@, ','),
            string_views(out@) == kept_names(views(pieces@).take(i as int)),
        decreases pieces.len() - i,
    {
        let t = trim_chars(pieces[i].as_slice());
        proof {
            assert(views(pieces@).take(i + 1).drop_last() =~= views(pieces@).take(i as int));
            assert(views(pieces@).take(i + 1).last() == pieces@[i as int]@);
        }
        if t.len() > 0 {
            let ghost before = string_views(out@);
            out.push(string_of(t.as_slice()));
            assert(string_views(out@) =~= before.push(t@));
        }
        i += 1;
    }
    assert(views(pieces@).take(pieces@.len() as int) =~= views(pieces@));
    out
}

fn push_parsed(names: &Vec<String>, action: Action, entries: &mut Vec<(Key, Action)>)
    ensures
        final(entries)@ == old(entries)@ + parsed_keys(string_views(names@), action),
{
    let ghost start = entries@;
    let mut i: usize = 0;
    while i < names.len()
        invariant
            i <= names@.len(),
            entries@ == start + parsed_keys(string_views(names@).take(i as int), action),
        decreases names.len() - i,
    {
        proof {
            assert(string_views(names@).take(i + 1).drop_last() =~= string_views(names@).take(i as int));
            assert(string_views(names@).take(i + 1).last() == names@[i as int]@);
        }
        match parse_key(names[i].as_str()) {
            Some(k) => {
                let ghost before = entries@;
                entries.push((k, action));
                assert(entries@ =~= start + parsed_keys(string_views(names@).take(i + 1), action));
            },
            None => {},
        }
        i += 1;
    }
    assert(string_views(names@).take(names@.len() as int) =~= string_views(names@));
}

impl Keymap {
    /// Whether the vim profile is on.
    pub closed spec fn vim_profile(&self) -> bool {
        self.vim
    }

    /// The (key, action) pairs, in table order.
    pub closed spec fn bound(&self) -> Seq<(Key, Action)> {
        self.entries@
    }

    /// Each binding id with its configured key names, in table order.
    pub closed spec fn names(&self) -> Seq<(Seq<char>, Seq<Seq<char>>)> {
        self.keys_by_action@.map_values(|p: (&'static str, Vec<String>)| (p.0@, string_views(p.1@)))
    }

    /// The table with `overrides` (binding id, comma-separated key names)
    /// replacing the default keys of the bindings they name.
    pub fn new(vim: bool, overrides: &Vec<(String, String)>) -> (km: Keymap)
        ensures
            km.vim_profile() == vim,
            km.bound() == keymap_entries(overrides@, binding_table().len() as int),
            km.names() == keymap_names(overrides@),
    {
        let table = bindings();
        let mut entries: Vec<(Key, Action)> = Vec::new();
        let mut keys_by_action: Vec<(&'static str, Vec<String>)> = Vec::new();
        let mut i: usize = 0;
        while i < table.len()
            invariant
                i <= table@.len(),
                table@.map_values(|b: Binding| b.row()) == binding_table(),
                entries@ == keymap_entries(overrides@, i as int),
                keys_by_action@.map_values(|p: (&'static str, Vec<String>)| (p.0@, string_views(p.1@)))
                    == keymap_names(overrides@).take(i as int),
            decreases table.len() - i,
        {
            let b = table[i];
            assert(b.row() == binding_table()[i as int]);
            assert(table@.map_values(|b: Binding| b.row()).len() == table@.len());
            assert(keymap_names(overrides@).len() == binding_table().len());
            let keys: Vec<char> = match override_lookup(overrides, b.id) {
                Some(text) => chars_of(text.as_str()),
                None => chars_of(b.keys),
            };
            assert(keys@ == binding_keys(overrides@, i as int));
            let names = names_of(keys.as_slice());
            push_parsed(&names, b.action, &mut entries);
            let ghost before = keys_by_action@.map_values(|p: (&'static str, Vec<String>)| (p.0@, string_views(p.1@)));
            keys_by_action.push((b.id, names));
            proof {
                let now = keys_by_action@.map_values(|p: (&'static str, Vec<String>)| (p.0@, string_views(p.1@)));
                let want = keymap_names(overrides@).take(i + 1);
                assert(before.len() == i);
                assert(now.len() == i + 1);
                assert(now[i as int] == (b.id@, key_names(keys@)));
                assert(want[i as int] == (binding_table()[i as int].0, key_names(binding_keys(overrides@, i as int))));
                assert forall|j: int| 0 <= j < i + 1 implies now[j] == want[j] by {
                    if j < i {
                        assert(now[j] == before[j]);
                    }
                }
                assert(now =~= want);
            }
            i += 1;
        }
        proof {
            assert(keymap_names(overrides@).take(binding_table().len() as int) =~= keymap_names(overrides@));
        }
        Keymap { vim, entries, keys_by_action }
    }

    /// The action for a key press, if the table has one. Vim-only actions
    /// answer only in the vim profile; the Bear action is gated by the caller.
    pub fn action(&self, event: &KeyEvent) -> (r: Option<Action>)
        ensures
            r == first_action(self.bound(), normalized(*event), self.vim_profile()),
    {
        let key = normalize(event);
        let mut i: usize = 0;
        assert(self.entries@.skip(0) =~= self.entries@);
        while i < self.entries.len()
            invariant
                i <= self.entries@.len(),
                key == normalized(*event),
                first_action(self.entries@, key, self.vim) == first_action(self.entries@.skip(i as int), key, self.vim),
            decreases self.entries.len() - i,
        {
            assert(self.entries@.skip(i as int).drop_first() =~= self.entries@.skip(i + 1));
            let (k, a) = self.entries[i];
            if k == key && (self.vim || !is_vim_action(a)) {
                return Some(a);
            }
            i += 1;
        }
        None
    }

    /// Whether the vim profile is on.
    pub fn uses_vim(&self) -> (r: bool)
        ensures
            r == self.vim_profile(),
    {
        self.vim
    }

    /// The key names bound to a binding id, as configured.
    pub fn keys_for(&self, id: &str) -> (r: Vec<String>)
        ensures
            string_views(r@) == names_for(self.names(), id@),
    {
        let mut i: usize = 0;
        assert(self.names().skip(0) =~= self.names());
        while i < self.keys_by_action.len()
            invariant
                i <= self.keys_by_action@.len(),
                names_for(self.names(), id@) == names_for(self.names().skip(i as int), id@),
            decreases self.keys_by_action.len() - i,
        {
            assert(self.names().skip(i as int).drop_first() =~= self.names().skip(i + 1));
            if same_str(self.keys_by_action[i].0, id) {
                return copy_strings(self.keys_by_action[i].1.as_slice());
            }
            i += 1;
        }
        Vec::new()
    }

    /// A short display form of the first key for a binding (`?`, `space`, `^d`).
    pub fn display_key(&self, id: &str) -> (r: String)
        ensures
            r@ == ({
                let ks = names_for(self.names(), id@);
                if ks.len() > 0 {
                    display_of(ks[0])
                } else {
                    Seq::empty()
                }
            }),
    {
        let keys = self.keys_for(id);
        if keys.len() > 0 {
            display_name(keys[0].as_str())
        } else {
            String::new()
        }
    }
}

} // verus!
