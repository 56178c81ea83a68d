use remtui::client::{
    command_timeout_secs, edit_after_write, edit_outcome, edit_start, query_args, stderr_candidates, EditFields,
    EditStep,
};
use remtui::bear::{bear_reply, escape_flag, is_locked};
use remtui::editor::{command_from_words, editor_command, resolve_editor};
use sha1::Digest;
use remtui::client::{flag_target, parse_stderr, remctl_reply, warnings_of};
use remtui::config::{parse, BearConfig, Config, DEFAULT_TOML};
use remtui::json::Json;
use remtui::models::{parse_lists, parse_reminders, Priority, Reminder};
use remtui::todos::{is_fence, parse_todos, Todo};
use remtui::triage::{join, link_key, link_notes, note_url, Status, KEY_PREFIX};
use remtui::util::{ellipsize, expand_tilde, first_line};

fn txt(s: &str) -> Json {
    Json::text(s)
}

fn num(n: i64) -> Json {
    Json::integer(n)
}

fn obj(pairs: Vec<(&str, Json)>) -> Json {
    Json::object(pairs.into_iter().map(|(k, v)| (k.to_string(), v)).collect())
}

fn arr(items: Vec<Json>) -> Json {
    Json::array(items)
}

#[test]
fn escape_flag_doubles_backslashes() {
    assert_eq!(escape_flag("a\\b\nc\td\r"), "a\\\\b\\nc\\td\\r");
}

#[test]
fn locked_strings() {
    assert!(is_locked(Some(&txt("yes"))));
    assert!(is_locked(Some(&txt(" TRUE "))));
    assert!(!is_locked(Some(&txt("no"))));
    assert!(!is_locked(None));
}

#[test]
fn warnings_edge_cases() {
    assert!(warnings_of(None).is_empty());
    assert!(warnings_of(Some(&arr(vec![num(1)]))).is_empty());
    assert_eq!(warnings_of(Some(&obj(vec![("warnings", txt("one"))]))), vec!["one"]);
    assert_eq!(
        warnings_of(Some(&obj(vec![(
            "warnings",
            arr(vec![txt("a"), txt(""), Json::Null, txt("b")])
        )]))),
        vec!["a", "b"]
    );
    assert!(warnings_of(Some(&obj(vec![("warnings", num(5))]))).is_empty());
    assert!(warnings_of(Some(&obj(vec![("status", txt("created"))]))).is_empty());
}

#[test]
fn stderr_shapes() {
    assert_eq!(
        parse_stderr("Error: #5 not found\n", &vec![None]),
        ("Error: #5 not found".to_string(), String::new())
    );
    let structured = obj(vec![("status", txt("error")), ("code", txt("x")), ("message", txt("boom"))]);
    assert_eq!(
        parse_stderr(
            "noise\n{\"status\": \"error\", \"code\": \"x\", \"message\": \"boom\"}\n",
            &vec![None, Some(structured)]
        ),
        ("boom".to_string(), "x".to_string())
    );
    assert_eq!(
        parse_stderr("{\"status\": \"ok\"}\n", &vec![Some(obj(vec![("status", txt("ok"))]))]),
        ("{\"status\": \"ok\"}".to_string(), String::new())
    );
    assert_eq!(parse_stderr("  \n", &vec![None]).0, "remctl failed with no error output");
}

#[test]
fn flag_follows_the_new_id_after_a_clone_delete_move() {
    let moved = obj(vec![
        ("status", txt("updated")),
        ("id", num(777)),
        ("oldId", num(1)),
        ("method", txt("clone-delete")),
    ]);
    assert_eq!(flag_target(Some(&moved), 1), 777);
    assert_eq!(flag_target(Some(&obj(vec![("status", txt("updated")), ("id", txt("12"))])), 1), 12);
    assert_eq!(flag_target(Some(&obj(vec![("status", txt("updated"))])), 42), 42);
    assert_eq!(flag_target(None, 42), 42);
    assert_eq!(flag_target(Some(&obj(vec![("id", txt("FAKE-CK-9"))])), 3), 3);
}

#[test]
fn default_file_parses_to_defaults() {
    assert_eq!(parse(DEFAULT_TOML), Config::default());
}

#[test]
fn keys_and_overrides() {
    let c = parse("[keys]\nprofile = \"vim\"\n\"reminder.add\" = \"a,n\"\nbogus = 3\n");
    assert_eq!(c.profile, "vim");
    let add = c.overrides.iter().find(|(k, _)| k == "reminder.add").map(|(_, v)| v.as_str());
    assert_eq!(add, Some("a,n"));
    assert!(!c.overrides.iter().any(|(k, _)| k == "bogus"));
}

#[test]
fn bear_section_is_lenient() {
    let c = parse("[bear]\nenabled = 1\nlist = \"Work\"\ndue = \"  \"\ntags = [\"#work\", \" home/garden \", \"\"]\n");
    assert!(c.bear.enabled);
    assert_eq!(c.bear.list, "Work");
    assert_eq!(c.bear.due, "today");
    assert_eq!(c.bear.tags, vec!["work", "home/garden"]);
    let single = parse("[bear]\ntags = \"work\"\n");
    assert_eq!(single.bear.tags, vec!["work"]);
    assert_eq!(parse("not toml ][").bear, BearConfig::default());
}

#[test]
fn overrides_keep_their_order_and_a_later_value_wins() {
    let c = parse("[keys]\n\"app.quit\" = \"q\"\n\"reminder.add\" = \"x\"\n");
    let names: Vec<&str> = c.overrides.iter().map(|(k, _)| k.as_str()).collect();
    assert_eq!(names, vec!["app.quit", "reminder.add"]);
    assert_eq!(parse("").profile, "default");
}

#[test]
fn tilde_expands_only_at_the_front() {
    assert_eq!(expand_tilde("~/x", "/home/u"), "/home/u/x");
    assert_eq!(expand_tilde("/a/~", "/home/u"), "/a/~");
    assert_eq!(expand_tilde("~", "/home/u"), "/home/u");
}

#[test]
fn first_line_skips_blanks() {
    assert_eq!(first_line("\n  \n  error here \nmore"), "error here");
    assert_eq!(first_line(""), "");
}

#[test]
fn ellipsize_cuts_with_a_mark() {
    assert_eq!(ellipsize("abc", 3), "abc");
    assert_eq!(ellipsize("abcd", 3), "ab…");
}

const BODY: &str = "# Sprint\n#work\n\n- [ ] top level, no section\n## Tasks\n- [x] done already\n- [ ] write the release notes\n  - [ ] nested child\n* [ ] star bullet\n-[ ] not a todo\n- [ ]\n1. not a todo\n```\n- [ ] inside a fence\n```\n### Sub\n- [ ]  double  spaced   text  \n";

#[test]
fn parse_todos_in_order_with_sections() {
    let todos = parse_todos(BODY, "N", "Sprint", &["work".to_string()]);
    let texts: Vec<&str> = todos.iter().map(|t| t.text.as_str()).collect();
    assert_eq!(
        texts,
        vec!["top level, no section", "write the release notes", "nested child", "star bullet", "double  spaced   text"]
    );
    let sections: Vec<&str> = todos.iter().map(|t| t.section.as_str()).collect();
    assert_eq!(sections, vec!["# Sprint", "## Tasks", "## Tasks", "## Tasks", "### Sub"]);
    assert_eq!(todos[2].line, "  - [ ] nested child");
    assert_eq!(todos[2].done_line(), "  - [x] nested child");
    assert_eq!(todos[2].indent(), 2);
    assert_eq!(todos[1].header(), "Tasks");
}

#[test]
fn key_matches_remtui_scheme_and_ignores_spacing() {
    let a = Todo::new("N", "T", &[], "Write  the notes", "- [ ] Write  the notes", "");
    let b = Todo::new("N", "T", &[], "write the notes", "- [ ] write the notes", "");
    let c = Todo::new("M", "T", &[], "write the notes", "- [ ] write the notes", "");
    assert_eq!(a.key(), b.key());
    assert_eq!(a.key().len(), 12);
    assert_ne!(a.key(), c.key());
    let digest = sha1::Sha1::digest(b"N\nwrite the notes");
    let hex: String = digest.iter().map(|b| format!("{b:02x}")).collect();
    assert_eq!(a.key(), hex[..12]);
}

fn t1() -> Todo {
    Todo::new("N1", "Sprint", &["work"], "write the notes", "- [ ] write the notes", "## Tasks")
}

fn t2() -> Todo {
    Todo::new("N1", "Sprint", &["work"], "ship it", "- [ ] ship it", "## Tasks")
}

fn reminder(id: i64, completed: bool, notes: &str) -> Reminder {
    Reminder { id, title: "x".into(), completed, notes: notes.into(), ..Reminder::default() }
}

#[test]
fn link_notes_and_key_round_trip() {
    let notes = link_notes(&t1());
    assert_eq!(
        notes.lines().collect::<Vec<_>>(),
        vec!["From Bear: Sprint", &note_url("N1"), &format!("{KEY_PREFIX} {}", t1().key())]
    );
    assert_eq!(link_key(&notes), t1().key());
    assert_eq!(link_key("no key here"), "");
    assert_eq!(link_key("bear-todo: not-hex"), "");
    assert_eq!(link_key("bear-todo: 9afbe7c1dc95"), "9afbe7c1dc95");
    let untitled = Todo::new("N1", "", &[], "x", "- [ ] x", "");
    assert!(link_notes(&untitled).starts_with("From Bear\n"));
}

#[test]
fn join_prefers_an_active_duplicate() {
    let notes = link_notes(&t1());
    let active = reminder(1, false, &notes);
    let done = reminder(2, true, &notes);
    let todos = vec![t1(), t2()];
    let rows = join(&todos, std::slice::from_ref(&done));
    assert_eq!(rows[0].status(), Status::Done);
    assert_eq!(rows[1].status(), Status::New);
    let rows = join(&todos, &[done.clone(), active.clone()]);
    assert_eq!((rows[0].status(), rows[0].reminder.as_ref().unwrap().id), (Status::Added, 1));
    let rows = join(&todos, &[active, done]);
    assert_eq!(rows[0].reminder.as_ref().unwrap().id, 1);
    assert!(join(&todos, &[reminder(3, false, "plain")]).iter().all(|r| r.reminder.is_none()));
}

#[test]
fn reminder_from_json_prefers_display_date() {
    let r = Reminder::from_json(&obj(vec![
        ("id", num(5)),
        ("title", txt("x")),
        ("list", txt("Work")),
        ("completed", Json::Bool(false)),
        ("flagged", Json::Bool(true)),
        ("priority", txt("high")),
        ("dueDate", txt("2026-08-11T20:00:00")),
        ("displayDate", txt("2026-08-12T00:00:00")),
        ("allDay", Json::Bool(true)),
        ("tags", arr(vec![txt("a"), txt("b")])),
        ("recurrence", obj(vec![("frequency", txt("daily"))])),
        ("subtaskCount", num(2)),
    ]));
    assert_eq!(r.due_raw, "2026-08-12T00:00:00");
    assert!(r.all_day && r.flagged && r.recurring);
    assert_eq!(r.priority, Priority::High);
    assert_eq!(r.tags, vec!["a", "b"]);
    assert_eq!(r.subtask_count, 2);
    assert!(r.matches("B"));
    assert!(!r.matches("zzz"));
    let plain = Reminder::from_json(&obj(vec![("id", txt("7")), ("title", txt("y")), ("priority", txt("weird"))]));
    assert_eq!((plain.id, plain.priority), (7, Priority::Unset));
}

#[test]
fn lists_drop_groups_and_duplicates_in_order() {
    let lists = parse_lists(&arr(vec![
        obj(vec![
            ("id", num(1)),
            ("title", txt("Personal")),
            ("color", obj(vec![("name", txt("blue")), ("hex", txt("#007AFF"))])),
        ]),
        obj(vec![("id", num(9)), ("title", txt("Group")), ("isGroup", Json::Bool(true))]),
        obj(vec![
            ("id", num(2)),
            ("title", txt("Work")),
            ("color", obj(vec![("name", txt("red")), ("hex", txt("#FF3B30"))])),
            ("badge", obj(vec![("emoji", txt("💼"))])),
            ("counts", obj(vec![("active", num(3)), ("completed", num(1)), ("total", num(4))])),
        ]),
        obj(vec![("id", num(1)), ("title", txt("Personal"))]),
    ]));
    let titles: Vec<&str> = lists.iter().map(|l| l.title.as_str()).collect();
    assert_eq!(titles, vec!["Personal", "Work"]);
    assert_eq!(lists[1].emoji, "💼");
    assert_eq!((lists[1].active, lists[1].completed, lists[1].total), (3, 1, 4));
    assert_eq!(lists[0].color_hex, "#007AFF");
}

#[test]
fn reminders_sort_active_due_priority_title() {
    let rows = parse_reminders(&arr(vec![
        obj(vec![("id", num(1)), ("title", txt("b undated")), ("priority", txt("none"))]),
        obj(vec![
            ("id", num(2)),
            ("title", txt("done")),
            ("completed", Json::Bool(true)),
            ("dueDate", txt("2020-01-01T00:00:00")),
        ]),
        obj(vec![("id", num(3)), ("title", txt("a undated high")), ("priority", txt("high"))]),
        obj(vec![("id", num(4)), ("title", txt("dated")), ("dueDate", txt("2030-01-01T09:00:00"))]),
    ]));
    let ids: Vec<i64> = rows.iter().map(|r| r.id).collect();
    assert_eq!(ids, vec![4, 3, 1, 2]);
}

#[test]
fn priority_cycle_and_marks() {
    assert_eq!(Priority::Unset.next(), Priority::Low);
    assert_eq!(Priority::High.next(), Priority::Unset);
    assert_eq!(Priority::Medium.mark(), "!!");
    assert_eq!(Priority::parse("low").as_str(), "low");
}

#[test]
fn priority_cycles_back_after_four_steps() {
    for p in [Priority::Unset, Priority::Low, Priority::Medium, Priority::High] {
        assert_eq!(p.next().next().next().next(), p);
        assert_eq!(Priority::parse(p.as_str()), p);
    }
}

#[test]
fn editor_resolution_and_round_trip() {
    assert_eq!(resolve_editor(None), "vim");
    assert_eq!(resolve_editor(Some(" code -w ")), "code -w");
    let command = editor_command("sh -c 'printf edited > \"$0\"'", "/tmp/remtui-x.md");
    assert_eq!(command[0], "sh");
    assert_eq!(command, vec!["sh", "-c", "printf edited > \"$0\"", "/tmp/remtui-x.md"]);
}

#[test]
fn editor_command_falls_back_to_words_and_vim() {
    assert_eq!(command_from_words(None, " nano  -w ", "/p"), vec!["nano", "-w", "/p"]);
    assert_eq!(command_from_words(Some(vec![]), "", "/p"), vec!["vim", "/p"]);
    assert_eq!(remtui::editor::editor_command("vi 'unbalanced", "/p"), vec!["vi", "'unbalanced", "/p"]);
    assert_eq!(remtui::editor::resolve_editor(Some("   ")), "vim");
}

#[test]
fn tool_commands_prefer_the_environment() {
    assert_eq!(remtui::client::resolve_remctl(None), "remctl");
    assert_eq!(remtui::client::resolve_remctl(Some("  /opt/remctl ")), "/opt/remctl");
    assert_eq!(remtui::bear::resolve_bearcli(" /x/bearcli ", None), "/x/bearcli");
    assert_eq!(remtui::bear::resolve_bearcli("/x/bearcli", Some("/env/bearcli")), "/env/bearcli");
    assert_eq!(remtui::bear::resolve_bearcli("  ", Some(" ")), "bearcli");
}

#[test]
fn remctl_replies_become_payloads_or_errors() {
    let ok = remctl_reply(true, Some(0), "[1]\n", Ok(arr(vec![num(1)])), "", &vec![]).unwrap();
    assert_eq!(ok.unwrap().as_array().unwrap().len(), 1);
    assert!(remctl_reply(true, Some(0), "  \n", Err("eof".into()), "", &vec![]).unwrap().is_none());
    let bad = remctl_reply(true, Some(0), "nope", Err("expected value".into()), "", &vec![]).unwrap_err();
    assert_eq!(bad.message, "remctl returned invalid JSON: expected value");
    let err = remctl_reply(false, Some(1), "", Err("eof".into()), "Error: #5 not found\n", &vec![None]).unwrap_err();
    assert_eq!((err.message.as_str(), err.code.as_str(), err.exit_code), ("Error: #5 not found", "", 1));
    let payload = obj(vec![("message", txt("quota")), ("code", txt("q"))]);
    let err = remctl_reply(false, None, "{..}", Ok(payload), "", &vec![]).unwrap_err();
    assert_eq!((err.message.as_str(), err.code.as_str(), err.exit_code), ("quota", "q", 1));
}

#[test]
fn bear_replies_become_payloads_or_errors() {
    let rows = arr(vec![obj(vec![("id", txt("N"))])]);
    assert_eq!(bear_reply(true, "[..]", Ok(rows), true, 0, "").unwrap().unwrap().as_array().unwrap().len(), 1);
    let err_doc = obj(vec![("error", obj(vec![("code", txt("locked")), ("message", txt(""))]))]);
    let e = bear_reply(true, "{..}", Ok(err_doc), true, 0, "").unwrap_err();
    assert_eq!((e.message.as_str(), e.code.as_str(), e.exit_code), ("bearcli error", "locked", 1));
    let e = bear_reply(false, "", Err("eof".into()), false, 3, "\n  boom \n").unwrap_err();
    assert_eq!((e.message.as_str(), e.exit_code), ("boom", 3));
    let e = bear_reply(false, "", Err("eof".into()), false, 2, "").unwrap_err();
    assert_eq!(e.message, "bearcli failed with no error output");
    assert!(bear_reply(false, "ignored", Err("x".into()), true, 0, "").unwrap().is_none());
    let e = bear_reply(true, "{", Err("EOF while parsing".into()), true, 0, "").unwrap_err();
    assert_eq!(e.message, "bearcli returned invalid JSON: EOF while parsing");
}

#[test]
fn fences_open_with_three_ticks_or_tildes() {
    assert!(is_fence("```"));
    assert!(is_fence("  ~~~rust"));
    assert!(!is_fence("``"));
    assert!(!is_fence("- [ ] ```"));
}

#[test]
fn remctl_steps_and_arguments() {
    assert_eq!(query_args("show", "Inbox", false), vec!["show", "--", "Inbox"]);
    assert_eq!(query_args("search", "-x", true), vec!["search", "--completed", "--", "-x"]);
    assert_eq!(
        stderr_candidates("  {\"code\": 1}  \r\nplain\n{x"),
        vec![Some("{\"code\": 1}".to_string()), None, Some("{x".to_string())]
    );
    let flag_only = EditFields { flagged: Some(true), ..Default::default() };
    assert!(matches!(edit_start(5, &flag_only), EditStep::Flag(5, true)));
    assert!(matches!(edit_start(5, &EditFields::default()), EditStep::Finish(None)));
    let both = EditFields { title: Some("T".to_string()), flagged: Some(false), ..Default::default() };
    match edit_start(5, &both) {
        EditStep::Write(args) => assert_eq!(args, vec!["edit", "5", "--title=T"]),
        _ => panic!("expected a write"),
    }
    let moved = Json::object(vec![("id".to_string(), Json::integer(9))]);
    assert!(matches!(edit_after_write(5, &both, Some(moved)), EditStep::Flag(9, false)));
    assert!(matches!(edit_after_write(5, &EditFields::default(), None), EditStep::Finish(None)));
    assert!(edit_outcome(None, Some(Json::integer(1))).is_some());
    assert!(edit_outcome(None, None).is_none());
    assert_eq!(command_timeout_secs(&["flag".to_string(), "3".to_string()]), 120);
    assert_eq!(command_timeout_secs(&["unflag".to_string()]), 120);
    assert_eq!(command_timeout_secs(&["done".to_string(), "3".to_string()]), 30);
}

#[test]
fn editor_job_holds_its_file_and_command() {
    let job = remtui::editor::EditorJob::new("/tmp/n.md", "code --wait");
    assert_eq!(job.tmp, "/tmp/n.md");
    assert_eq!(job.command, vec!["code", "--wait", "/tmp/n.md"]);
}

#[test]
fn link_key_reads_only_a_hex_key() {
    assert_eq!(link_key("no key here"), "");
    assert_eq!(link_key("bear-todo: not-hex"), "");
    assert_eq!(link_key("bear-todo: 9afbe7c1dc95"), "9afbe7c1dc95");
}
