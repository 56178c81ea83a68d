use remtui::fake::remctl::{due_is_defined, run_is_defined, seed_fits};
use remtui::dates::DateTime;
use remtui::fake::bearcli::{project, section_span, seed_state as bear_seed, unescape};
use remtui::fake::output::Printed;
use remtui::fake::remctl::{parse_due_input, py_repr, run_at, seed_state, serialize_reminder, Outcome, Step};
use remtui::json::Json;

fn now() -> DateTime {
    // Wednesday
    DateTime { year: 2026, month: 8, day: 12, hour: 9, minute: 0, second: 0, nano: 0 }
}

fn get<'a>(v: &'a Json, key: &str) -> &'a Json {
    v.get(key).unwrap()
}

fn at(v: &Json, i: usize) -> &Json {
    &v.as_array().unwrap()[i]
}

fn text(v: &Json) -> &str {
    v.as_str().unwrap().as_str()
}

#[test]
fn query_terms_are_anded() {
    let state = bear_seed();
    let notes = get(&state, "notes").as_array().unwrap();
    let planning = &notes[0];
    assert!(remtui::fake::bearcli::matches(planning, "@todo #work"));
    assert!(remtui::fake::bearcli::matches(planning, "@todo #WORK/sprint"));
    assert!(!remtui::fake::bearcli::matches(planning, "@todo #home"));
    assert!(!remtui::fake::bearcli::matches(&notes[2], "@todo"));
    assert!(remtui::fake::bearcli::matches(&notes[3], "@todo")); // locked note still matches; search projects content as null
    assert!(remtui::fake::bearcli::matches(planning, "velocity"));
    assert!(remtui::fake::bearcli::matches(planning, "@pinned velocity"));
}

#[test]
fn projection_shapes() {
    let state = bear_seed();
    let notes = get(&state, "notes");
    let p = project(at(notes, 3), "id,title,tags,locked,content");
    assert_eq!(text(get(&p, "locked")), "yes");
    assert!(matches!(p.get("content"), Some(Json::Null)));
    let p = project(at(notes, 0), "all");
    assert_eq!(text(get(&p, "locked")), "no");
    assert!(p.get("content").is_none());
    assert!(get(&p, "length").as_i64().unwrap() > 10);
}

#[test]
fn section_spans_and_unescape() {
    let content = "# T\n\n## A\nx\n### A1\ny\n## B\nz\n";
    let (lo, hi) = section_span(content, "## A").unwrap();
    assert_eq!(&content[lo..hi], "## A\nx\n### A1\ny\n");
    let (lo, hi) = section_span(content, "## B").unwrap();
    assert_eq!(&content[lo..hi], "## B\nz\n");
    assert!(section_span(content, "## C").is_none());
    assert_eq!(unescape("a\\\\b\\nc"), "a\\b\nc");
}

#[test]
fn unescape_undoes_escape() {
    let original = "line one\nback\\slash\tand\rmore";
    assert_eq!(unescape(&remtui::bear::escape_flag(original)), original);
}

#[test]
fn due_grammar() {
    let n = now();
    assert_eq!(parse_due_input("2026-08-20", n), Ok(("2026-08-20T00:00:00".into(), true)));
    assert_eq!(parse_due_input("2026-08-20 9:05", n), Ok(("2026-08-20T09:05:00".into(), false)));
    assert_eq!(parse_due_input("2026-08-20T14:30", n), Ok(("2026-08-20T14:30:00".into(), false)));
    assert_eq!(parse_due_input("+3d", n), Ok(("2026-08-15T00:00:00".into(), true)));
    assert_eq!(parse_due_input("today", n), Ok(("2026-08-12T00:00:00".into(), true)));
    assert_eq!(parse_due_input("tonight", n), Ok(("2026-08-12T21:00:00".into(), false)));
    assert_eq!(parse_due_input("tomorrow 09:30", n), Ok(("2026-08-13T09:30:00".into(), false)));
    assert_eq!(parse_due_input("today at 3pm", n), Ok(("2026-08-12T15:00:00".into(), false)));
    assert_eq!(parse_due_input("fri 15:00", n), Ok(("2026-08-14T15:00:00".into(), false)));
    assert_eq!(parse_due_input("next wed", n), Ok(("2026-08-19T00:00:00".into(), true)));
    assert_eq!(parse_due_input("Monday", n), Ok(("2026-08-17T00:00:00".into(), true)));
    assert!(parse_due_input("someday", n).is_err());
    assert!(parse_due_input("2026-13-40", n).is_err());
}

#[test]
fn python_repr_quotes() {
    assert_eq!(py_repr("someday"), "'someday'");
    assert_eq!(py_repr("it's"), "\"it's\"");
}

#[test]
fn seed_has_eighteen_reminders() {
    let state = seed_state(now());
    let reminders = get(&state, "reminders");
    assert_eq!(reminders.as_array().unwrap().len(), 18);
    assert_eq!(get(&state, "lists").as_array().unwrap().len(), 5);
    assert_eq!(get(at(reminders, 0), "id").as_i64(), Some(101));
    assert_eq!(get(at(reminders, 17), "id").as_i64(), Some(118));
    assert_eq!(text(get(at(reminders, 15), "url")), "https://bookclub.example.com/picks");
    let timed = at(reminders, 1);
    assert_eq!(
        (text(get(timed, "dueDate")), get(timed, "allDay").as_bool().unwrap()),
        ("2026-08-12T11:30:00", false)
    );
}

fn argv(args: &[&str]) -> Vec<String> {
    args.iter().map(|a| a.to_string()).collect()
}

fn finish(step: Step) -> Outcome {
    match step {
        Step::Finish(o) => o,
        Step::Save { then, .. } => panic!("expected no write, got {:?}", then),
    }
}

fn save(step: Step) -> (Json, Outcome) {
    match step {
        Step::Save { state, then } => (state, then),
        Step::Finish(o) => panic!("expected a write, got {:?}", o),
    }
}

fn out_json(p: &Printed) -> &Json {
    match p {
        Printed::Compact(j) | Printed::Pretty(j) => j,
        Printed::Text(t) => panic!("expected JSON, got {t:?}"),
    }
}

fn out_text(p: &Printed) -> &str {
    match p {
        Printed::Text(t) => t.as_str(),
        _ => panic!("expected text"),
    }
}

#[test]
fn fake_remctl_exit_codes_and_shapes() {
    let run = |args: &[&str]| run_at(&argv(args), now(), Ok(seed_state(now())), false);
    let out = finish(run(&["lists", "--json"]));
    assert_eq!(out.code, 0);
    let lists = out_json(&out.stdout);
    assert_eq!(lists.as_array().unwrap().len(), 5);
    assert_eq!(text(get(get(at(lists, 2), "badge"), "emoji")), "🛒");
    assert_eq!(get(get(at(lists, 0), "counts"), "active").as_i64(), Some(4));

    let out = finish(run(&["edit", "--json", "101", "--flagged"]));
    assert_eq!(out.code, 1);
    assert!(out_text(&out.stderr).contains("require --private"));

    let out = finish(run(&["delete", "--json", "101"]));
    assert_eq!(out.code, 0);
    assert_eq!(out_text(&out.stdout), "Cancelled.\n");

    let out = finish(run(&["add", "--json", "--due=never", "--", "x"]));
    assert_eq!(out.code, 2);
    let err = out_json(&out.stderr);
    assert_eq!(text(get(err, "code")), "invalid_due_date");
    assert_eq!(text(get(err, "message")), "Could not parse due date: 'never'");

    let out = finish(run(&["show", "--json", "--", "Nope"]));
    assert_eq!(out.code, 1);
    assert_eq!(out_text(&out.stderr), "Error: list 'Nope' not found\n");

    let out = finish(run(&["info", "--json", "101"]));
    let info = out_json(&out.stdout);
    assert_eq!(get(info, "subtasks").as_array().unwrap().len(), 0);
}

#[test]
fn added_reminder_is_listed_and_counts_the_id_up() {
    let state = seed_state(now());
    let (state, out) = save(run_at(
        &argv(&["add", "Buy stamps", "--list", "home", "-p", "H", "--tags", " a, ,b ", "--due", "+2d"]),
        now(),
        Ok(state),
        false,
    ));
    assert_eq!(out.code, 0);
    let created = out_json(&out.stdout);
    assert_eq!(text(get(created, "id")), "FAKE-CK-200");
    assert_eq!(get(created, "numericId").as_i64(), Some(200));
    assert_eq!(get(&state, "next_id").as_i64(), Some(201));
    let rows = get(&state, "reminders");
    let row = at(rows, 18);
    assert_eq!(text(get(row, "list")), "Home");
    assert_eq!(text(get(row, "priority")), "high");
    assert_eq!(text(get(row, "dueDate")), "2026-08-14T00:00:00");
    let tags: Vec<&str> = get(row, "tags").as_array().unwrap().iter().map(text).collect();
    assert_eq!(tags, vec!["a", "b"]);
    let out = finish(run_at(&argv(&["info", "200"]), now(), Ok(state), false));
    assert_eq!(text(get(out_json(&out.stdout), "title")), "Buy stamps");
}

#[test]
fn reads_select_by_day_flag_and_query() {
    let ids = |args: &[&str]| -> Vec<i64> {
        let out = finish(run_at(&argv(args), now(), Ok(seed_state(now())), false));
        assert_eq!(out.code, 0);
        out_json(&out.stdout).as_array().unwrap().iter().map(|r| get(r, "id").as_i64().unwrap()).collect()
    };
    assert_eq!(ids(&["today"]), vec![102, 103, 106]);
    assert_eq!(ids(&["overdue"]), vec![101, 107]);
    assert_eq!(ids(&["flagged"]), vec![101, 106]);
    assert_eq!(ids(&["upcoming", "1"]), vec![102, 103, 106, 108]);
    assert_eq!(ids(&["search", "BOOK"]), vec![104, 116]);
    assert_eq!(ids(&["show", "groceries"]), vec![111, 112, 113]);
    assert_eq!(ids(&["show", "groceries", "--completed"]), vec![111, 112, 113, 114]);
}

#[test]
fn done_flag_and_delete_write_the_row() {
    let (state, out) = save(run_at(&argv(&["done", "102"]), now(), Ok(seed_state(now())), false));
    assert_eq!(text(get(out_json(&out.stdout), "status")), "completed");
    let row = at(get(&state, "reminders"), 1);
    assert_eq!(get(row, "completed").as_bool(), Some(true));
    assert_eq!(text(get(row, "completionDate")), "2026-08-12T09:00:00");
    let (state, _) = save(run_at(&argv(&["undone", "102"]), now(), Ok(state), false));
    let row = at(get(&state, "reminders"), 1);
    assert_eq!(get(row, "completed").as_bool(), Some(false));
    assert!(row.get("completionDate").is_none());

    let out = finish(run_at(&argv(&["flag", "102"]), now(), Ok(seed_state(now())), true));
    assert_eq!(out.code, 1);
    assert_eq!(text(get(out_json(&out.stderr), "code")), "applescript_flag_failed");
    let (state, _) = save(run_at(&argv(&["flag", "102"]), now(), Ok(seed_state(now())), false));
    assert_eq!(get(at(get(&state, "reminders"), 1), "flagged").as_bool(), Some(true));

    let (state, out) = save(run_at(&argv(&["delete", "101", "--force"]), now(), Ok(seed_state(now())), false));
    assert_eq!(text(get(out_json(&out.stdout), "title")), "Renew passport");
    assert_eq!(get(&state, "reminders").as_array().unwrap().len(), 17);

    let out = finish(run_at(&argv(&["info", "999"]), now(), Ok(seed_state(now())), false));
    assert_eq!((out.code, out_text(&out.stderr)), (1, "Error: #999 not found\n"));
    let out = finish(run_at(&argv(&["info", "abc"]), now(), Ok(seed_state(now())), false));
    assert_eq!(out.code, 2);
    let out = finish(run_at(&argv(&["bogus"]), now(), Ok(seed_state(now())), false));
    assert_eq!(out.code, 2);
    let out = finish(run_at(&argv(&[]), now(), Ok(seed_state(now())), false));
    assert_eq!(out.code, 2);
}

#[test]
fn serialized_rows_drop_empty_fields() {
    let state = seed_state(now());
    let milk = serialize_reminder(at(get(&state, "reminders"), 10));
    assert!(milk.get("notes").is_none() && milk.get("dueDate").is_none() && milk.get("tags").is_none());
    assert_eq!(text(get(&milk, "priority")), "none");
    assert_eq!(get(&milk, "subtaskCount").as_i64(), Some(0));
    let passport = serialize_reminder(at(get(&state, "reminders"), 0));
    assert_eq!(get(&passport, "allDay").as_bool(), Some(true));
    assert_eq!(text(get(&passport, "dueDate")), "2026-08-09T00:00:00");
}

#[test]
fn defined_runs_are_told_apart() {
    let n = now();
    assert!(due_is_defined("tomorrow 9am", n));
    assert!(due_is_defined("+3d", n));
    assert!(!due_is_defined("+999999999d", n));
    assert!(due_is_defined("next friday", n));
    assert!(seed_fits(n));
    let edge = DateTime { year: 262142, month: 12, day: 31, hour: 9, minute: 0, second: 0, nano: 0 };
    assert!(!seed_fits(edge));
    assert!(!due_is_defined("tomorrow", edge));
    let st = Ok(seed_state(n));
    let argv = |v: &[&str]| v.iter().map(|s| s.to_string()).collect::<Vec<String>>();
    assert!(run_is_defined(&argv(&["upcoming", "5"]), n, &st));
    assert!(!run_is_defined(&argv(&["upcoming", "999999999"]), n, &st));
    assert!(!run_is_defined(&argv(&["add", "x", "--due", "+999999999d"]), n, &st));
    assert!(run_is_defined(&argv(&["add", "x", "--due", "clear"]), n, &st));
    assert!(!run_is_defined(&argv(&["add", "x"]), n, &Ok(Json::object(Vec::new()))));
    assert!(run_is_defined(&argv(&["lists"]), n, &st));
}
