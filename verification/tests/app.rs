use remtui::app::{
    visible_spans,
    centered, App, Effect, MouseEvent, MouseKind, Msg, NavItem, Overlay, Pane, Rect, Rects, Severity, ViewKind, Write,
};
use remtui::client::RemctlError;
use remtui::config::parse;
use remtui::json::Json;
use remtui::keys::{Action, KeyCode, KeyEvent, CONTROL, NO_MODIFIERS};
use remtui::models::{Priority, Reminder, ReminderList, SmartView};

const NOW: u64 = 1_000;

fn key(code: KeyCode) -> KeyEvent {
    KeyEvent::new(code, NO_MODIFIERS)
}

fn ch(c: char) -> KeyEvent {
    key(KeyCode::Char(c))
}

fn list(id: i64, title: &str) -> ReminderList {
    let mut l = ReminderList::new();
    l.id = id;
    l.title = title.to_string();
    l
}

fn reminder(id: i64, title: &str) -> Reminder {
    Reminder { id, title: title.to_string(), list_name: "Inbox".to_string(), ..Default::default() }
}

fn app_with(vim: bool) -> App {
    App::new(parse(""), vim, Vec::new())
}

/// A started app that has its lists and a view of three reminders.
fn loaded() -> App {
    let mut app = app_with(false);
    app.start();
    let lists_gen = app.lists_gen;
    let view_gen = app.view_gen;
    app.handle_msg(Msg::Lists { generation: lists_gen, result: Ok(vec![list(1, "Inbox"), list(2, "Work")]) }, NOW);
    app.handle_msg(
        Msg::View {
            generation: view_gen,
            result: Ok(vec![reminder(10, "Buy milk"), reminder(11, "Call mum"), reminder(12, "Milk the cow")]),
        },
        NOW,
    );
    app.take_effects();
    app
}

fn shown_titles(app: &App) -> Vec<String> {
    app.shown.iter().map(|&i| app.reminders[i].title.clone()).collect()
}

#[test]
fn startup_asks_for_lists_and_today() {
    let mut app = app_with(false);
    app.start();
    let effects = app.take_effects();
    assert_eq!(effects.len(), 2);
    assert!(matches!(effects[0], Effect::LoadLists { generation: 1 }));
    match &effects[1] {
        Effect::LoadView { generation, view, list_title, show_completed } => {
            assert_eq!(*generation, 1);
            assert_eq!(*view, ViewKind::Smart(SmartView::Today));
            assert!(list_title.is_none());
            assert!(!show_completed);
        },
        _ => panic!("expected a view load"),
    }
    assert!(app.take_effects().is_empty());
    assert_eq!(app.nav.len(), 5);
    assert_eq!(app.nav_cursor, 1);
    assert!(app.loading);
}

#[test]
fn lists_build_the_sidebar() {
    let app = loaded();
    assert!(app.loaded);
    assert_eq!(app.nav.len(), 9);
    assert_eq!(app.nav[0], NavItem::Header("SMART LISTS"));
    assert_eq!(app.nav[5], NavItem::Blank);
    assert_eq!(app.nav[6], NavItem::Header("MY LISTS"));
    assert_eq!(app.nav[7], NavItem::List(0));
    assert_eq!(app.nav[8], NavItem::List(1));
    assert_eq!(shown_titles(&app), vec!["Buy milk", "Call mum", "Milk the cow"]);
    assert!(app.has_selection());
    assert!(!app.loading);
}

#[test]
fn stale_results_are_dropped() {
    let mut app = loaded();
    app.handle_msg(Msg::View { generation: app.view_gen + 5, result: Ok(Vec::new()) }, NOW);
    assert_eq!(app.reminders.len(), 3);
    app.handle_msg(Msg::Lists { generation: 0, result: Ok(Vec::new()) }, NOW);
    assert_eq!(app.lists.len(), 2);
}

#[test]
fn nav_moves_skip_headers_and_load_the_view() {
    let mut app = loaded();
    assert_eq!(app.focus, Pane::Nav);
    for _ in 0..3 {
        app.handle_key(ch('j'), NOW);
    }
    assert_eq!(app.nav_cursor, 4);
    app.take_effects();
    app.handle_key(ch('j'), NOW);
    // The blank row and the header are skipped.
    assert_eq!(app.nav_cursor, 7);
    assert_eq!(app.view, ViewKind::List(1));
    assert!(app.reminders.is_empty());
    let effects = app.take_effects();
    match &effects[0] {
        Effect::LoadView { view, list_title, .. } => {
            assert_eq!(*view, ViewKind::List(1));
            assert_eq!(list_title.as_deref(), Some("Inbox"));
        },
        _ => panic!("expected a view load"),
    }
    app.handle_key(ch('k'), NOW);
    assert_eq!(app.nav_cursor, 4);
    assert_eq!(app.default_list_title(), "Inbox");
}

#[test]
fn enter_moves_focus_and_keys_move_the_cursor() {
    let mut app = loaded();
    app.handle_key(key(KeyCode::Enter), NOW);
    assert_eq!(app.focus, Pane::Reminders);
    app.handle_key(key(KeyCode::Down), NOW);
    app.handle_key(key(KeyCode::Down), NOW);
    app.handle_key(key(KeyCode::Down), NOW);
    assert_eq!(app.cursor, 2);
    app.handle_key(key(KeyCode::Home), NOW);
    assert_eq!(app.cursor, 0);
    app.handle_key(key(KeyCode::End), NOW);
    assert_eq!(app.cursor, 2);
    app.run_action(Action::SwitchPane, NOW);
    assert_eq!(app.focus, Pane::Nav);
}

#[test]
fn filter_narrows_live_and_escape_clears() {
    let mut app = loaded();
    app.handle_key(key(KeyCode::Enter), NOW);
    app.handle_key(ch('/'), NOW);
    assert_eq!(app.focus, Pane::Filter);
    for c in "milk".chars() {
        app.handle_key(ch(c), NOW);
    }
    assert_eq!(app.filter_text, "milk");
    assert_eq!(shown_titles(&app), vec!["Buy milk", "Milk the cow"]);
    assert!(app.stats_line().contains("filter \"milk\" → 2 matches"));
    app.handle_key(key(KeyCode::Esc), NOW);
    assert!(app.filter.is_none());
    assert_eq!(app.filter_text, "");
    assert_eq!(app.focus, Pane::Reminders);
    assert_eq!(shown_titles(&app).len(), 3);
}

#[test]
fn selection_follows_its_reminder_across_a_reload() {
    let mut app = loaded();
    app.handle_key(key(KeyCode::Enter), NOW);
    app.handle_key(key(KeyCode::Down), NOW);
    assert_eq!(app.selected().map(|r| r.id), Some(11));
    let generation = app.view_gen;
    app.handle_msg(
        Msg::View { generation, result: Ok(vec![reminder(9, "New first"), reminder(10, "Buy milk"), reminder(11, "Call mum")]) },
        NOW,
    );
    assert_eq!(app.selected().map(|r| r.id), Some(11));
    assert_eq!(app.cursor, 2);
    // When the reminder is gone, the old place is kept within the rows.
    app.handle_msg(Msg::View { generation, result: Ok(vec![reminder(9, "New first")]) }, NOW);
    assert_eq!(app.cursor, 0);
}

#[test]
fn space_toggles_done_with_a_message() {
    let mut app = loaded();
    app.handle_key(key(KeyCode::Enter), NOW);
    app.handle_key(ch(' '), NOW);
    let effects = app.take_effects();
    match &effects[0] {
        Effect::Mutate { message, write } => {
            assert_eq!(message, "✓ Completed “Buy milk”");
            assert!(matches!(write, Write::Done(10)));
        },
        _ => panic!("expected a write"),
    }
    app.reminders[0].completed = true;
    app.handle_key(ch(' '), NOW);
    match &app.take_effects()[0] {
        Effect::Mutate { message, write } => {
            assert_eq!(message, "↺ Reopened “Buy milk”");
            assert!(matches!(write, Write::Undone(10)));
        },
        _ => panic!("expected a write"),
    }
    app.handle_msg(Msg::Mutated { message: "✓ Completed “Buy milk”".to_string(), result: Ok(None) }, NOW);
    assert_eq!(app.toast_messages(), vec!["✓ Completed “Buy milk”"]);
    assert_eq!(app.take_effects().len(), 2);
}

#[test]
fn delete_asks_first_and_enter_cancels() {
    let mut app = loaded();
    app.handle_key(key(KeyCode::Enter), NOW);
    app.handle_key(ch('d'), NOW);
    match &app.overlay {
        Some(Overlay::Confirm { title, message, confirm_label, danger, focus_confirm, .. }) => {
            assert_eq!(title, "🗑  Delete Reminder");
            assert_eq!(message, "Delete “Buy milk” from Inbox?\nThis cannot be undone.");
            assert_eq!(confirm_label, "Delete");
            assert!(*danger);
            assert!(!focus_confirm);
        },
        _ => panic!("expected the question"),
    }
    app.handle_key(key(KeyCode::Enter), NOW);
    assert!(app.overlay.is_none());
    assert!(app.take_effects().is_empty());
    app.handle_key(ch('d'), NOW);
    app.handle_key(key(KeyCode::Tab), NOW);
    app.handle_key(key(KeyCode::Enter), NOW);
    match &app.take_effects()[0] {
        Effect::Mutate { message, write } => {
            assert_eq!(message, "🗑 Deleted “Buy milk”");
            assert!(matches!(write, Write::Delete(10)));
        },
        _ => panic!("expected a delete"),
    }
    app.handle_key(ch('d'), NOW);
    app.handle_key(ch('y'), NOW);
    assert_eq!(app.take_effects().len(), 1);
}

#[test]
fn flag_toggles_optimistically_and_a_failure_reverts() {
    let mut app = loaded();
    app.handle_key(key(KeyCode::Enter), NOW);
    app.handle_key(ch('f'), NOW);
    assert!(app.reminders[0].flagged);
    assert!(app.is_pending(10));
    assert!(matches!(app.take_effects()[0], Effect::Flag { id: 10, wanted: true }));
    // A second `f` while the write is in flight does nothing.
    app.handle_key(ch('f'), NOW);
    assert!(app.take_effects().is_empty());
    app.handle_msg(Msg::Flagged { id: 10, wanted: true, result: Err(RemctlError::new("flag failed")) }, NOW);
    assert!(!app.reminders[0].flagged);
    assert!(!app.is_pending(10));
    assert_eq!(app.toasts[0].title, "remctl");
    assert_eq!(app.toasts[0].message, "flag failed");
    assert_eq!(app.toasts[0].severity, Severity::Error);
    assert_eq!(app.toasts[0].expires, NOW + 8000);
}

#[test]
fn priority_cycles_with_p() {
    let mut app = loaded();
    app.handle_key(key(KeyCode::Enter), NOW);
    app.handle_key(ch('p'), NOW);
    match &app.take_effects()[0] {
        Effect::Mutate { message, write: Write::Edit(id, fields) } => {
            assert_eq!(message, "Priority → low");
            assert_eq!(*id, 10);
            assert_eq!(fields.priority.as_deref(), Some("low"));
            assert!(fields.title.is_none() && fields.flagged.is_none());
        },
        _ => panic!("expected an edit"),
    }
    assert_eq!(app.reminders[0].priority, Priority::Unset);
}

#[test]
fn add_without_lists_warns() {
    let mut app = app_with(false);
    app.run_action(Action::Add, NOW);
    assert!(app.overlay.is_none());
    assert_eq!(app.toast_messages(), vec!["No lists loaded yet."]);
    assert_eq!(app.toasts[0].severity, Severity::Warning);
    assert_eq!(app.toasts[0].expires, NOW + 5000);
}

#[test]
fn add_via_form_sends_the_fields() {
    let mut app = loaded();
    app.handle_key(ch('a'), NOW);
    match &app.overlay {
        Some(Overlay::Form(f)) => {
            assert!(f.reminder.is_none());
            assert_eq!(f.lists, vec!["Inbox", "Work"]);
            assert_eq!(f.list, Some(0));
        },
        _ => panic!("expected the form"),
    }
    // An empty title is refused.
    app.handle_key(KeyEvent::new(KeyCode::Char('s'), CONTROL), NOW);
    match &app.overlay {
        Some(Overlay::Form(f)) => assert_eq!(f.error, "⚠ A title is required."),
        _ => panic!("expected the form"),
    }
    for c in "  Water plants ".chars() {
        app.handle_key(ch(c), NOW);
    }
    app.handle_key(key(KeyCode::Enter), NOW);
    match &app.overlay {
        Some(Overlay::Form(f)) => {
            assert!(f.saving);
            assert_eq!(f.error, "");
        },
        _ => panic!("expected the form"),
    }
    match &app.take_effects()[0] {
        Effect::Add { fields } => {
            assert_eq!(fields.title, "Water plants");
            assert_eq!(fields.list_title, "Inbox");
        },
        _ => panic!("expected an add"),
    }
    // A failure shows in the form, which can save again.
    app.handle_msg(Msg::Saved { is_edit: false, follow_flag: None, result: Err(RemctlError::new("no such list")) }, NOW);
    match &app.overlay {
        Some(Overlay::Form(f)) => {
            assert_eq!(f.error, "⚠ no such list");
            assert!(!f.saving);
        },
        _ => panic!("expected the form"),
    }
    app.handle_msg(Msg::Saved { is_edit: false, follow_flag: None, result: Ok(None) }, NOW);
    assert!(app.overlay.is_none());
    assert_eq!(app.toast_messages(), vec!["＋ Reminder added"]);
}

#[test]
fn escape_cancels_the_form() {
    let mut app = loaded();
    app.handle_key(ch('a'), NOW);
    app.handle_key(key(KeyCode::Esc), NOW);
    assert!(app.overlay.is_none());
}

#[test]
fn a_flag_only_edit_closes_at_once_and_writes_in_the_background() {
    let mut app = loaded();
    app.handle_key(key(KeyCode::Enter), NOW);
    app.handle_key(key(KeyCode::Enter), NOW);
    assert!(matches!(app.overlay, Some(Overlay::Form(_))));
    for _ in 0..5 {
        app.handle_key(key(KeyCode::Tab), NOW);
    }
    app.handle_key(ch(' '), NOW);
    app.handle_key(KeyEvent::new(KeyCode::Char('s'), CONTROL), NOW);
    assert!(app.overlay.is_none());
    assert_eq!(app.toast_messages(), vec!["✎ Reminder updated"]);
    assert!(app.reminders[0].flagged);
    let effects = app.take_effects();
    assert_eq!(effects.len(), 3);
    assert!(matches!(effects[0], Effect::Flag { id: 10, wanted: true }));
}

#[test]
fn a_saved_edit_follows_the_flag_onto_the_new_id() {
    let mut app = loaded();
    let payload = Json::object(vec![
        ("id".to_string(), Json::integer(77)),
        ("warnings".to_string(), Json::Str("flag_not_set: later".to_string())),
    ]);
    app.handle_msg(Msg::Saved { is_edit: true, follow_flag: Some((10, true)), result: Ok(Some(payload)) }, NOW);
    assert_eq!(app.toast_messages(), vec!["flag_not_set: later", "✎ Reminder updated"]);
    assert_eq!(app.toasts[0].severity, Severity::Warning);
    let effects = app.take_effects();
    assert!(matches!(effects[0], Effect::Flag { id: 77, wanted: true }));
    assert!(matches!(effects[2], Effect::LoadLists { .. }));
}

#[test]
fn editor_text_replaces_the_notes() {
    let mut app = loaded();
    app.handle_key(ch('a'), NOW);
    app.handle_key(KeyEvent::new(KeyCode::Char('e'), CONTROL), NOW);
    match &app.take_effects()[0] {
        Effect::Editor { notes } => assert_eq!(notes, ""),
        _ => panic!("expected the editor"),
    }
    app.editor_done(Ok("line one\nline two".to_string()), NOW);
    match &app.overlay {
        Some(Overlay::Form(f)) => assert_eq!(f.notes.text, "line one\nline two"),
        _ => panic!("expected the form"),
    }
    app.editor_done(Err("no editor".to_string()), NOW);
    assert_eq!(app.toasts[0].title, "editor");
}

#[test]
fn help_opens_and_closes_and_q_quits() {
    let mut app = loaded();
    app.handle_key(ch('?'), NOW);
    assert!(matches!(app.overlay, Some(Overlay::Help { scroll: 0 })));
    app.handle_key(ch('j'), NOW);
    assert!(matches!(app.overlay, Some(Overlay::Help { scroll: 1 })));
    app.handle_key(key(KeyCode::Esc), NOW);
    assert!(app.overlay.is_none());
    app.handle_key(KeyEvent::new(KeyCode::Char('p'), CONTROL), NOW);
    assert_eq!(app.overlay.as_ref().map(|o| o.name()), Some("help"));
    app.handle_key(ch('q'), NOW);
    assert!(app.overlay.is_none());
    assert!(app.running);
    app.handle_key(ch('q'), NOW);
    assert!(!app.running);
}

#[test]
fn vim_gg_chord_and_timers() {
    let mut app = app_with(true);
    app.start();
    let g = app.lists_gen;
    app.handle_msg(Msg::Lists { generation: g, result: Ok(vec![list(1, "Inbox")]) }, NOW);
    let v = app.view_gen;
    app.handle_msg(Msg::View { generation: v, result: Ok(vec![reminder(1, "a"), reminder(2, "b"), reminder(3, "c")]) }, NOW);
    app.handle_key(key(KeyCode::Enter), NOW);
    app.handle_key(ch('G'), NOW);
    assert_eq!(app.cursor, 2);
    app.handle_key(ch('g'), NOW);
    assert_eq!(app.cursor, 2);
    assert_eq!(app.last_g, Some(NOW));
    assert_eq!(app.next_deadline(), Some(NOW + 750));
    app.handle_key(ch('g'), NOW + 300);
    assert_eq!(app.cursor, 0);
    assert_eq!(app.last_g, None);
    // A lone `g` runs out.
    app.handle_key(ch('G'), NOW);
    app.handle_key(ch('g'), NOW);
    app.tick(NOW + 750);
    assert_eq!(app.last_g, None);
    app.handle_key(ch('g'), NOW + 800);
    assert_eq!(app.cursor, 2);
}

#[test]
fn toasts_expire_on_tick() {
    let mut app = app_with(false);
    app.notify("short", 3, NOW);
    app.notify_titled("remctl", "long", Severity::Error, 8, NOW);
    assert_eq!(app.next_deadline(), Some(NOW + 3000));
    app.tick(NOW + 3000);
    assert_eq!(app.toast_messages(), vec!["long"]);
    app.tick(NOW + 8000);
    assert!(app.toasts.is_empty());
    assert_eq!(app.next_deadline(), None);
}

#[test]
fn toggle_completed_reloads_with_a_note() {
    let mut app = loaded();
    app.handle_key(ch('c'), NOW);
    assert!(app.show_completed);
    assert_eq!(app.toast_messages(), vec!["Completed reminders shown (list views)"]);
    match &app.take_effects()[0] {
        Effect::LoadView { show_completed, .. } => assert!(*show_completed),
        _ => panic!("expected a view load"),
    }
}

#[test]
fn mouse_selects_nav_and_rows() {
    let mut app = loaded();
    app.rects = Rects {
        nav_rows: Rect::new(0, 2, 20, 10),
        list_rows: Rect::new(22, 4, 60, 10),
        row_spans: vec![(4, 2), (6, 1), (7, 3)],
        filter: Rect::new(22, 1, 60, 1),
    };
    let click = |column: u16, row: u16| MouseEvent { kind: MouseKind::LeftDown, column, row };
    app.handle_mouse(click(30, 6), NOW);
    assert_eq!(app.focus, Pane::Reminders);
    assert_eq!(app.cursor, 1);
    app.handle_mouse(click(30, 6), NOW + 100);
    assert!(matches!(app.overlay, Some(Overlay::Form(_))));
    app.overlay = None;
    app.handle_mouse(click(5, 9), NOW);
    assert_eq!(app.focus, Pane::Nav);
    assert_eq!(app.nav_cursor, 7);
    assert_eq!(app.view, ViewKind::List(1));
    app.handle_mouse(MouseEvent { kind: MouseKind::ScrollUp, column: 5, row: 9 }, NOW);
    assert_eq!(app.nav_cursor, 4);
    app.handle_mouse(click(30, 1), NOW);
    assert_eq!(app.focus, Pane::Filter);
}

#[test]
fn ensure_visible_keeps_the_cursor_row_on_screen() {
    let mut app = loaded();
    app.cursor = 2;
    app.ensure_visible(&[3, 3, 3], 5);
    assert_eq!(app.scroll, 2);
    app.cursor = 0;
    app.ensure_visible(&[3, 3, 3], 5);
    assert_eq!(app.scroll, 0);
    app.ensure_visible(&[], 5);
    assert_eq!(app.scroll, 0);
}

#[test]
fn paging_counts_row_heights() {
    let mut app = loaded();
    app.handle_key(key(KeyCode::Enter), NOW);
    app.row_heights = vec![2, 2, 2];
    app.list_height = 3;
    app.handle_key(key(KeyCode::PageDown), NOW);
    assert_eq!(app.cursor, 2);
    app.handle_key(key(KeyCode::PageUp), NOW);
    assert_eq!(app.cursor, 0);
}

#[test]
fn stats_and_empty_messages() {
    let mut app = loaded();
    assert_eq!(app.stats_line(), "3 reminders");
    app.loading = true;
    assert_eq!(app.stats_line(), "3 reminders · loading…");
    assert_eq!(app.empty_message(), "✓  Nothing due today — enjoy it");
    app.view = ViewKind::List(2);
    app.lists[1].active = 4;
    app.lists[1].completed = 1;
    app.loading = false;
    assert_eq!(app.stats_line(), "4 active · 1 done");
    assert_eq!(app.empty_message(), "○  no reminders here — press a to add one");
    app.filter_text = "zz".to_string();
    assert_eq!(app.empty_message(), "○  nothing matches \"zz\"");
}

#[test]
fn centered_fits_inside() {
    assert_eq!(centered(Rect::new(0, 0, 80, 24), 40, 10), Rect::new(20, 7, 40, 10));
    assert_eq!(centered(Rect::new(5, 5, 10, 4), 40, 10), Rect::new(5, 5, 10, 4));
}

#[test]
fn env_skips_empty_values() {
    let app = App::new(
        parse(""),
        false,
        vec![("EDITOR".to_string(), "vim".to_string()), ("VISUAL".to_string(), String::new())],
    );
    assert_eq!(app.env("EDITOR"), Some("vim".to_string()));
    assert_eq!(app.env("VISUAL"), None);
    assert_eq!(app.env("HOME"), None);
}

#[test]
fn footer_hints_follow_the_state() {
    let mut app = app_with(false);
    let hints = app.footer_hints();
    assert_eq!((hints[0].key.as_str(), hints[0].label.as_str(), hints[0].grayed), ("a", "Add", false));
    assert_eq!((hints[1].key.as_str(), hints[1].label.as_str(), hints[1].grayed), ("e", "Edit", true));
    assert!(hints.iter().all(|h| h.label != "Bear" && h.label != "Priority"));
    let mut app2 = loaded();
    let hints = app2.footer_hints();
    assert!(!hints[1].grayed);
    app2.handle_key(key(KeyCode::Enter), NOW);
    app2.handle_key(ch('d'), NOW);
    let hints = app2.footer_hints();
    let pairs: Vec<(String, String)> = hints.iter().map(|h| (h.key.clone(), h.label.clone())).collect();
    assert_eq!(pairs, vec![("esc".to_string(), "Cancel".to_string()), ("y".to_string(), "Delete".to_string())]);
    app.open_help();
    assert_eq!(app.footer_hints().len(), 1);
}

#[test]
fn draw_helpers_keep_cursors_on_screen() {
    assert_eq!(visible_spans(&[2, 1, 3, 1], 1, 10, 4), vec![(10, 1), (11, 3)]);
    assert_eq!(visible_spans(&[5], 0, 0, 4), Vec::<(u16, u16)>::new());
    let mut app = loaded();
    app.nav_cursor = 8;
    app.keep_nav_visible(4);
    assert_eq!(app.nav_scroll, 5);
    app.nav_cursor = 2;
    app.keep_nav_visible(4);
    assert_eq!(app.nav_scroll, 2);
    app.open_help();
    app.overlay = Some(Overlay::Help { scroll: 30 });
    app.clamp_help_scroll(10, 25);
    assert!(matches!(app.overlay, Some(Overlay::Help { scroll: 15 })));
    app.clamp_help_scroll(40, 25);
    assert!(matches!(app.overlay, Some(Overlay::Help { scroll: 0 })));
}

#[test]
fn a_new_view_starts_at_the_top() {
    let mut app = loaded();
    app.handle_key(key(KeyCode::Enter), NOW);
    app.handle_key(key(KeyCode::End), NOW);
    assert_eq!(app.cursor, 2);
    app.run_action(Action::FocusNav, NOW);
    app.handle_key(ch('j'), NOW);
    assert_eq!(app.view, ViewKind::Smart(SmartView::Upcoming));
    let generation = app.view_gen;
    app.handle_msg(Msg::View { generation, result: Ok(vec![reminder(1, "x"), reminder(2, "y"), reminder(3, "z")]) }, NOW);
    assert_eq!(app.cursor, 0);
    assert_eq!(app.scroll, 0);
}
