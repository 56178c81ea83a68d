use chrono::{Datelike, Timelike};
use remtui::dates::{humanize_due, is_due_today, is_overdue, parse_due, sort_key, DateTime};
use remtui::keys::{
    display_name, parse_key, Action, KeyCode, KeyEvent, Keymap, CONTROL, NO_MODIFIERS, SHIFT,
};

fn at(y: i32, m: u32, d: u32, h: u32, mi: u32) -> DateTime {
    DateTime { year: y, month: m, day: d, hour: h, minute: mi, second: 0, nano: 0 }
}

#[test]
fn parse_due_accepts_iso_shapes() {
    assert_eq!(parse_due("2026-07-03"), Some(at(2026, 7, 3, 0, 0)));
    assert_eq!(parse_due("2026-07-03 14:30"), Some(at(2026, 7, 3, 14, 30)));
    assert_eq!(parse_due("2026-07-03T14:30:00"), Some(at(2026, 7, 3, 14, 30)));
    assert_eq!(parse_due(""), None);
    assert_eq!(parse_due("nonsense"), None);
    // Aware stamps come back as local wall-clock time.
    let z = parse_due("2026-07-03T14:30:00Z").unwrap();
    let expected = chrono::DateTime::parse_from_rfc3339("2026-07-03T14:30:00+00:00")
        .unwrap()
        .with_timezone(&chrono::Local)
        .naive_local();
    assert_eq!(
        z,
        DateTime {
            year: expected.year(),
            month: expected.month(),
            day: expected.day(),
            hour: expected.hour(),
            minute: expected.minute(),
            second: expected.second(),
            nano: expected.nanosecond(),
        }
    );
}

#[test]
fn humanize_labels() {
    let now = at(2026, 8, 12, 9, 0); // a Wednesday
    assert_eq!(humanize_due(Some(at(2026, 8, 12, 11, 30)), false, now), "Today 11:30");
    assert_eq!(humanize_due(Some(at(2026, 8, 12, 0, 0)), true, now), "Today");
    assert_eq!(humanize_due(Some(at(2026, 8, 13, 0, 0)), false, now), "Tomorrow");
    assert_eq!(humanize_due(Some(at(2026, 8, 11, 10, 0)), false, now), "Yesterday 10:00");
    assert_eq!(humanize_due(Some(at(2026, 8, 17, 9, 30)), false, now), "Mon 09:30");
    assert_eq!(humanize_due(Some(at(2026, 8, 15, 0, 0)), true, now), "Sat");
    assert_eq!(humanize_due(Some(at(2026, 8, 19, 0, 0)), true, now), "Aug 19");
    assert_eq!(humanize_due(Some(at(2026, 8, 9, 0, 0)), true, now), "Aug 9");
    assert_eq!(humanize_due(Some(at(2027, 1, 2, 0, 0)), true, now), "Jan 2, 2027");
    assert_eq!(humanize_due(None, false, now), "");
}

#[test]
fn overdue_rules() {
    let now = at(2026, 8, 12, 12, 0);
    assert!(!is_overdue(None, false, now));
    assert!(!is_overdue(Some(at(2026, 8, 12, 0, 0)), true, now));
    assert!(is_overdue(Some(at(2026, 8, 12, 0, 0)), false, now));
    assert!(is_overdue(Some(at(2026, 8, 11, 0, 0)), true, now));
    assert!(!is_overdue(Some(at(2026, 8, 12, 13, 0)), false, now));
    assert!(is_due_today(Some(at(2026, 8, 12, 23, 0)), now));
    assert!(!is_due_today(Some(at(2026, 8, 13, 0, 0)), now));
}

#[test]
fn undated_sorts_last() {
    assert!(sort_key(Some(at(2030, 1, 1, 0, 0))) < sort_key(None));
}

fn ev(code: KeyCode, modifiers: u8) -> KeyEvent {
    KeyEvent::new(code, modifiers)
}

#[test]
fn parses_textual_names() {
    assert_eq!(parse_key("a").unwrap().code, KeyCode::Char('a'));
    assert_eq!(parse_key("question_mark").unwrap().code, KeyCode::Char('?'));
    let ctrl_d = parse_key("ctrl+d").unwrap();
    assert_eq!((ctrl_d.code, ctrl_d.modifiers), (KeyCode::Char('d'), CONTROL));
    assert_eq!(parse_key("space").unwrap().code, KeyCode::Char(' '));
    assert!(parse_key("nonsense_key").is_none());
    assert_eq!(parse_key("f5").unwrap().code, KeyCode::F(5));
}

#[test]
fn default_table_matches_events() {
    let km = Keymap::new(false, &Vec::new());
    assert_eq!(km.action(&ev(KeyCode::Char('a'), NO_MODIFIERS)), Some(Action::Add));
    assert_eq!(km.action(&ev(KeyCode::Char('n'), NO_MODIFIERS)), Some(Action::Add));
    assert_eq!(km.action(&ev(KeyCode::Char('G'), SHIFT)), Some(Action::Bottom));
    assert_eq!(km.action(&ev(KeyCode::Char('g'), NO_MODIFIERS)), Some(Action::Top));
    assert_eq!(km.action(&ev(KeyCode::Char('?'), SHIFT)), Some(Action::Help));
    assert_eq!(km.action(&ev(KeyCode::Backspace, NO_MODIFIERS)), Some(Action::Delete));
    assert_eq!(km.action(&ev(KeyCode::Tab, NO_MODIFIERS)), Some(Action::SwitchPane));
    // vim-only keys are silent in the default profile
    assert_eq!(km.action(&ev(KeyCode::Char('d'), CONTROL)), None);
    assert_eq!(km.action(&ev(KeyCode::Char('o'), NO_MODIFIERS)), None);
    let vim = Keymap::new(true, &Vec::new());
    assert_eq!(vim.action(&ev(KeyCode::Char('d'), CONTROL)), Some(Action::HalfPageDown));
    assert_eq!(vim.action(&ev(KeyCode::Char(':'), SHIFT)), Some(Action::Palette));
    assert_eq!(vim.action(&ev(KeyCode::Char('o'), NO_MODIFIERS)), Some(Action::VimNew));
}

#[test]
fn overrides_replace_keys_entirely() {
    let o = vec![
        ("app.quit".to_string(), "ctrl+q, Q".to_string()),
        ("reminder.add".to_string(), "x".to_string()),
    ];
    let km = Keymap::new(false, &o);
    assert_eq!(km.action(&ev(KeyCode::Char('x'), NO_MODIFIERS)), Some(Action::Add));
    assert_eq!(km.action(&ev(KeyCode::Char('a'), NO_MODIFIERS)), None);
    assert_eq!(km.action(&ev(KeyCode::Char('q'), NO_MODIFIERS)), None);
    assert_eq!(km.action(&ev(KeyCode::Char('q'), CONTROL)), Some(Action::Quit));
    assert_eq!(km.action(&ev(KeyCode::Char('Q'), SHIFT)), Some(Action::Quit));
    assert_eq!(km.keys_for("app.quit"), vec!["ctrl+q", "Q"]);
    assert_eq!(km.display_key("app.quit"), "^q");
    assert_eq!(display_name("question_mark"), "?");
}

#[test]
fn key_names_cover_plus_and_refuse_unknown_modifiers() {
    assert!(parse_key("   ").is_none());
    assert!(parse_key("hyper+a").is_none());
    let plus = parse_key("ctrl++").unwrap();
    assert_eq!((plus.code, plus.modifiers), (KeyCode::Char('+'), CONTROL));
    assert_eq!(parse_key("plus").unwrap().code, KeyCode::Char('+'));
    assert_eq!(parse_key("f12").unwrap().code, KeyCode::F(12));
    let km = Keymap::new(false, &Vec::new());
    assert_eq!(km.action(&ev(KeyCode::Char('q'), NO_MODIFIERS)), Some(Action::Quit));
}

#[test]
fn zoned_stamps_read_within_a_day_of_their_instant() {
    let t = parse_due("2025-03-01T12:00:00Z").unwrap();
    let local = chrono::NaiveDate::from_ymd_opt(t.year, t.month, t.day)
        .unwrap()
        .and_hms_opt(t.hour, t.minute, t.second)
        .unwrap();
    let utc = chrono::NaiveDate::from_ymd_opt(2025, 3, 1).unwrap().and_hms_opt(12, 0, 0).unwrap();
    assert!((local - utc).num_seconds().abs() < 86_400);
    // A stamp at the edge of the dates chrono holds answers instead of stopping.
    let edge = parse_due("+262142-12-31T23:30:00+00:00");
    assert!(edge.is_none() || edge.unwrap().year >= 262142);
    let first = parse_due("-262143-01-01T00:30:00+00:00");
    assert!(first.is_none() || first.unwrap().year <= -262143);
}
