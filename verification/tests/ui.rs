use remtui::keys::{KeyCode, KeyEvent, CONTROL, NO_MODIFIERS};
use remtui::models::{Priority, Reminder, ReminderList, SmartView};
use remtui::todos::Todo;
use remtui::triage::TriageRow;
use remtui::ui::field::Field;
use remtui::ui::form::{prefill_due, Focus, Form, FormEvent, Notes};
use remtui::ui::triage::{Triage, TriageLine};

fn key(code: KeyCode) -> KeyEvent {
    KeyEvent::new(code, NO_MODIFIERS)
}

#[test]
fn editing_is_char_safe() {
    let mut f = Field::new("héllo");
    f.left();
    f.left();
    f.insert('X');
    assert_eq!(f.value, "hélXlo");
    f.backspace();
    f.delete();
    assert_eq!(f.value, "hélo");
    f.end();
    f.delete_word();
    assert_eq!(f.value, "");
    let mut f = Field::new("two words here");
    f.delete_word();
    assert_eq!(f.value, "two words ");
    f.home();
    f.kill_to_end();
    assert_eq!(f.value, "");
}

#[test]
fn backspace_undoes_typing() {
    let mut f = Field::new("naïve");
    f.left();
    let before = (f.value.clone(), f.cursor);
    f.insert('é');
    f.backspace();
    assert_eq!((f.value.clone(), f.cursor), before);
}

#[test]
fn notes_editor_moves_by_line() {
    let mut n = Notes::new("ab\ncde");
    assert_eq!(n.position(), (1, 3));
    n.up();
    assert_eq!(n.position(), (0, 2));
    n.insert('X');
    assert_eq!(n.text, "abX\ncde");
    n.down();
    assert_eq!(n.position(), (1, 3));
    n.handle(&key(KeyCode::Enter));
    assert_eq!(n.text, "abX\ncde\n");
    assert_eq!(n.lines().len(), 3);
}

#[test]
fn edit_sends_only_changes_and_prefills_due() {
    let r = Reminder {
        id: 1,
        title: "T".into(),
        notes: "n\n".into(),
        due_raw: "2026-08-12T00:00:00".into(),
        all_day: true,
        list_name: "Work".into(),
        priority: Priority::Low,
        ..Reminder::default()
    };
    let lists = vec!["Personal".to_string(), "Work".to_string()];
    let mut f = Form::new(Some(&r), &lists, "");
    assert_eq!(f.due.value, "2026-08-12");
    assert_eq!(f.list, Some(1));
    assert!(f.edit_fields().is_empty());
    f.title = Field::new("T2");
    f.due.clear();
    f.flagged = true;
    let fields = f.edit_fields();
    assert_eq!(fields.title.as_deref(), Some("T2"));
    assert_eq!(fields.due.as_deref(), Some(""));
    assert_eq!(fields.flagged, Some(true));
    assert!(fields.notes.is_none() && fields.priority.is_none() && fields.list_title.is_none());
    let timed = Reminder { due_raw: "2026-08-12T09:30:00".into(), all_day: false, ..r.clone() };
    assert_eq!(prefill_due(&timed), "2026-08-12 09:30");
}

#[test]
fn new_form_focus_order_and_cycles() {
    let lists = vec!["Personal".to_string(), "Work".to_string()];
    let mut f = Form::new(None, &lists, "Work");
    assert_eq!(f.list, Some(1));
    assert_eq!(f.focus, Focus::Title);
    f.handle(&key(KeyCode::Tab));
    assert_eq!(f.focus, Focus::Notes);
    for _ in 0..5 {
        f.handle(&key(KeyCode::Tab));
    }
    assert_eq!(f.focus, Focus::Buttons);
    f.handle(&key(KeyCode::Tab));
    assert_eq!(f.focus, Focus::Title);
    f.focus = Focus::Priority;
    f.handle(&key(KeyCode::Char(' ')));
    assert_eq!(f.priority, Priority::Low);
    f.focus = Focus::List;
    f.handle(&key(KeyCode::Right));
    assert_eq!(f.list, Some(0), "wraps without a blank when there was a default");
    f.focus = Focus::Flag;
    f.handle(&key(KeyCode::Char(' ')));
    assert!(f.flagged);
    assert_eq!(f.handle(&KeyEvent::new(KeyCode::Char('s'), CONTROL)), FormEvent::Save);
    assert_eq!(f.handle(&key(KeyCode::Esc)), FormEvent::Cancel);
    assert!(!f.validate());
    assert_eq!(f.focus, Focus::Title);
    let unknown = Form::new(None, &lists, "Elsewhere");
    assert_eq!(unknown.lists[0], "Elsewhere");
    let blank = Form::new(None, &lists, "");
    assert_eq!(blank.list, None);
}

#[test]
fn seven_tabs_come_back_to_the_same_focus() {
    let lists = vec!["Personal".to_string()];
    let mut f = Form::new(None, &lists, "Personal");
    f.focus = Focus::Due;
    for _ in 0..7 {
        f.handle(&key(KeyCode::Tab));
    }
    assert_eq!(f.focus, Focus::Due);
    f.handle(&key(KeyCode::Tab));
    f.handle(&key(KeyCode::BackTab));
    assert_eq!(f.focus, Focus::Due);
}

fn row(note: &str, text: &str) -> TriageRow {
    TriageRow {
        todo: Todo::new(note, &format!("Note {note}"), &["#t"], text, &format!("- [ ] {text}"), ""),
        reminder: None,
    }
}

#[test]
fn groups_rows_and_steps_over_headers() {
    let mut t = Triage::new("Work", "today");
    t.show(vec![row("A", "one"), row("A", "two"), row("B", "three")], 1);
    assert_eq!(t.lines.len(), 6);
    assert_eq!(t.cursor, 1);
    assert_eq!(t.current_row().unwrap().todo.text, "one");
    t.step(1);
    t.step(1);
    assert_eq!(t.current_row().unwrap().todo.text, "three");
    t.step(1);
    assert_eq!(t.current_row().unwrap().todo.text, "three");
    assert_eq!(
        t.stats(),
        "3 todos in 2 notes · 0 added · 0 done · 1 locked skipped · add → Work, due today"
    );
    t.toggle_mark(&row("A", "two").todo.key());
    assert!(t.stats().contains("1 marked"));
    assert_eq!(t.add_targets().unwrap().len(), 1);
    t.filter_text = "thr".into();
    t.rebuild(None);
    assert_eq!(t.lines.len(), 2);
    assert!(t.stats().contains("filter \"thr\" → 1"));
    t.filter_text = "zzz".into();
    t.rebuild(None);
    assert_eq!(t.empty_message(), "○  nothing matches \"zzz\"");
}

#[test]
fn regroup_keeps_the_cursor_on_the_kept_todo() {
    let mut t = Triage::new("Work", "today");
    t.show(vec![row("A", "one"), row("A", "two"), row("B", "three")], 0);
    let two = row("A", "two").todo;
    t.rebuild(Some((two.key(), two.line.clone())));
    assert_eq!(t.cursor, 2);
    assert!(matches!(t.lines[t.cursor], TriageLine::Todo(1)));
    t.filter_text = "TW".into();
    t.rebuild(Some((two.key(), two.line.clone())));
    assert_eq!(t.lines.len(), 2);
    assert!(matches!(t.lines[t.cursor], TriageLine::Todo(1)));
    t.filter_text = "THREE".into();
    t.rebuild(Some((two.key(), two.line.clone())));
    assert!(matches!(t.lines[0], TriageLine::Header { .. }));
    assert!(matches!(t.lines[t.cursor], TriageLine::Todo(2)));
}

#[test]
fn marking_twice_unmarks() {
    let mut t = Triage::new("Work", "today");
    t.show(vec![row("A", "one"), row("B", "two")], 0);
    let k = row("A", "one").todo.key();
    t.toggle_mark(&k);
    assert_eq!(t.marked, vec![k.clone()]);
    t.toggle_mark(&k);
    assert!(t.marked.is_empty());
}

fn now_at_nine() -> remtui::dates::DateTime {
    remtui::dates::DateTime { year: 2026, month: 8, day: 12, hour: 9, minute: 0, second: 0, nano: 0 }
}

fn line_text(line: &[remtui::ui::rows::Span]) -> String {
    line.iter().map(|s| s.text.as_str()).collect()
}

#[test]
fn row_shows_priority_flag_due_and_details() {
    let r = Reminder {
        id: 1,
        title: "Renew passport".into(),
        priority: Priority::High,
        flagged: true,
        due_raw: "2026-08-09T00:00:00".into(),
        all_day: true,
        notes: "Bring old passport\nsecond line".into(),
        tags: vec!["errands".into()],
        ..Reminder::default()
    };
    let lines = remtui::ui::rows::reminder_lines(&r, now_at_nine(), 60, false);
    assert_eq!(lines.len(), 2);
    let first = line_text(&lines[0]);
    assert!(first.starts_with("◯  !!! Renew passport"));
    assert!(first.ends_with("⚑ Aug 9"));
    assert_eq!(remtui::ui::rows::line_width(&lines[0]), 60);
    assert_eq!(line_text(&lines[1]), "   Bring old passport · #errands");
}

#[test]
fn completed_row_and_pending_glyph() {
    let r = Reminder {
        id: 1,
        title: "Done thing".into(),
        completed: true,
        recurring: true,
        subtask_count: 2,
        ..Reminder::default()
    };
    let lines = remtui::ui::rows::reminder_lines(&r, now_at_nine(), 40, false);
    assert_eq!(lines.len(), 1);
    assert!(line_text(&lines[0]).starts_with("⬤  Done thing ↻ ⤷2"));
    let pending = remtui::ui::rows::reminder_lines(&r, now_at_nine(), 40, true);
    assert!(line_text(&pending[0]).starts_with("◌"));
}

#[test]
fn fit_and_logo() {
    assert_eq!(remtui::ui::rows::fit("abcdef", 4), "abc…");
    assert_eq!(remtui::ui::rows::fit("ab", 4), "ab");
    assert_eq!(remtui::ui::rows::logo().len(), 3);
    assert_eq!(line_text(&remtui::ui::rows::logo()[0]), "╦═╗ ┌─┐ ┌┬┐ ╔╦╗ ╦ ╦ ╦");
}

#[test]
fn hex_parses_or_falls_back() {
    let primary = remtui::ui::theme::color(remtui::ui::theme::Tone::Primary);
    assert_eq!(remtui::ui::theme::hex("#FF3B30"), remtui::ui::theme::Color::Rgb(0xFF, 0x3B, 0x30));
    assert_eq!(remtui::ui::theme::hex("34C759"), remtui::ui::theme::Color::Rgb(0x34, 0xC7, 0x59));
    assert_eq!(remtui::ui::theme::hex("nope"), primary);
}

#[test]
fn sidebar_rows_fill_the_width() {
    let mut list = ReminderList::new();
    list.title = "Groceries".into();
    list.emoji = "🛒".into();
    list.active = 12;
    let row = remtui::ui::rows::list_row(&list, 20);
    assert_eq!(remtui::ui::rows::line_width(&row), 20);
    assert!(line_text(&row).ends_with("12"));
    let smart = remtui::ui::rows::smart_row(SmartView::Today, 6);
    assert_eq!(line_text(&smart), "◉ Tod…");
    assert_eq!(line_text(&remtui::ui::rows::nav_header("Lists")), "LISTS");
}

#[test]
fn triage_lines_show_marks_and_reminders() {
    let mut t = Triage::new("Work", "today");
    let r = row("A", "write it");
    t.show(vec![row("A", "write it")], 0);
    let header = Triage::render_header("Note A", &vec!["#t".to_string(), "#u".to_string()], 10);
    assert_eq!(line_text(&header), "Note A  #…");
    let plain = t.render_row(&r, 20, now_at_nine());
    assert_eq!(line_text(&plain), "◯ write it");
    t.toggle_mark(&r.todo.key());
    let marked = t.render_row(&r, 20, now_at_nine());
    assert!(line_text(&marked).starts_with("◆ "));
    let added = TriageRow {
        todo: r.todo.clone(),
        reminder: Some(Reminder { id: 9, due_raw: "2026-08-12T00:00:00".into(), all_day: true, ..Reminder::default() }),
    };
    let line = t.render_row(&added, 24, now_at_nine());
    assert!(line_text(&line).ends_with("⏰ Today"));
    assert_eq!(remtui::ui::rows::line_width(&line), 24);
}

#[test]
fn triage_scroll_keeps_the_cursor_line_on_screen() {
    let mut t = Triage::new("Inbox", "today");
    t.cursor = 9;
    t.keep_visible(4);
    assert_eq!(t.scroll, 6);
    t.cursor = 2;
    t.keep_visible(4);
    assert_eq!(t.scroll, 2);
    t.keep_visible(0);
    assert_eq!(t.scroll, 2);
}
