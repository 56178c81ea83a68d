//! A local stand-in for remctl, used for demo mode and tests.
//!
//! Implements the subset of remctl's CLI that remtui drives, matching the real
//! tool's JSON contract: bare arrays on stdout for reads, compact status JSON
//! for mutations, `Error: #<id> not found` plain text on stderr (exit 1), and
//! structured `{"status": "error", ...}` JSON on stderr for invalid due dates
//! (exit 2).
//!
//! State lives in a JSON file at `$REMTUI_FAKE_STATE` (default
//! `~/.cache/remtui/demo.json`), seeded with sample data on first run.

use vstd::prelude::*;

use crate::dates::{
    chrono_naive_date, chrono_naive_datetime, date_plus_days, overdue, parse_naive_datetime, same_date, stamp_text, date_text, day_number, days_from_civil, first_day, last_day,
    parse_naive_date, valid_date, valid_datetime, weekday_of, DateTime,
};
use crate::json::{copy_items, entries_of, entries_set, json_count_view, json_get, json_int_view, jv, lemma_jv_entries_push, lemma_jv_items_push, Json, JsonView};
use crate::models::{same_chars, same_str};
use super::args::{option_get, parse_from, Args, ArgsView};
use super::output::{silent, Printed, PrintedView};
use crate::text::{
    chars_of, contains, contains_str, dec, dec_signed, decimal_signed, decimal, lowercase, pad2, padded2, parse_i64, parse_int, push_all, push_str,
    slice_chars, split_chars, split_on, string_of, string_views, to_lower, trim, trim_chars, utf8_width, views, words,
    words_of,
};

verus! {

pub const ENV_STATE: &'static str = "REMTUI_FAKE_STATE";
pub const ENV_FLAG_FAILS: &'static str = "REMTUI_FAKE_FLAG_FAILS";

/// The hex colour of a list colour name; blue for an unknown name.
pub open spec fn color_hex_of(name: Seq<char>) -> Seq<char> {
    if name == "red"@ {
        "#FF3B30"@
    } else if name == "orange"@ {
        "#FF9500"@
    } else if name == "yellow"@ {
        "#FFCC00"@
    } else if name == "green"@ {
        "#34C759"@
    } else if name == "blue"@ {
        "#007AFF"@
    } else if name == "purple"@ {
        "#AF52DE"@
    } else if name == "brown"@ {
        "#A2845E"@
    } else {
        "#007AFF"@
    }
}

fn word(v: &[char], w: &str) -> (r: bool)
    ensures
        r == (v@ == w@),
{
    same_chars(v, chars_of(w).as_slice())
}

pub fn list_color(name: &str) -> (r: &'static str)
    ensures
        r@ == color_hex_of(name@),
{
    let v = chars_of(name);
    if word(v.as_slice(), "red") {
        "#FF3B30"
    } else if word(v.as_slice(), "orange") {
        "#FF9500"
    } else if word(v.as_slice(), "yellow") {
        "#FFCC00"
    } else if word(v.as_slice(), "green") {
        "#34C759"
    } else if word(v.as_slice(), "blue") {
        "#007AFF"
    } else if word(v.as_slice(), "purple") {
        "#AF52DE"
    } else if word(v.as_slice(), "brown") {
        "#A2845E"
    } else {
        "#007AFF"
    }
}

/// `str::parse::<u32>`: an optional `+`, then digits, within range.
pub open spec fn parse_u32(s: Seq<char>) -> Option<int> {
    if s.len() > 0 && s[0] == '-' {
        None
    } else {
        match parse_int(s) {
            Some(v) => if 0 <= v <= u32::MAX {
                Some(v)
            } else {
                None
            },
            None => None,
        }
    }
}

fn parse_u32_of(s: &[char]) -> (r: Option<u32>)
    ensures
        match r {
            Some(v) => parse_u32(s@) == Some(v as int),
            None => parse_u32(s@) is None,
        },
{
    if s.len() > 0 && s[0] == '-' {
        return None;
    }
    match parse_i64(s) {
        Some(v) => if 0 <= v && v <= 4294967295 {
            Some(v as u32)
        } else {
            None
        },
        None => None,
    }
}

/// The index of the first `c` in `s`, if any.
pub open spec fn first_index_of(s: Seq<char>, c: char) -> Option<int> {
    if exists|k: int| 0 <= k < s.len() && s[k] == c {
        Some(choose|k: int| 0 <= k < s.len() && s[k] == c && forall|j: int| 0 <= j < k ==> s[j] != c)
    } else {
        None
    }
}

/// A clock time: `H:MM` (hours below 24, minutes below 60), or `Nam` / `Npm`
/// with at most two digits.
pub open spec fn time_of(text: Seq<char>) -> Option<(int, int)> {
    let t = trim(text);
    match first_index_of(t, ':') {
        Some(k) => match (parse_u32(t.take(k)), parse_u32(t.skip(k + 1))) {
            (Some(h), Some(m)) => if h < 24 && m < 60 {
                Some((h, m))
            } else {
                None
            },
            _ => None,
        },
        None => {
            let lower = lowercase(t);
            if lower.len() >= 2 && lower.skip(lower.len() - 2) == "am"@ {
                let num = lower.take(lower.len() - 2);
                match parse_u32(num) {
                    Some(h) => if num.len() <= 2 {
                        Some((h % 12, 0))
                    } else {
                        None
                    },
                    None => None,
                }
            } else if lower.len() >= 2 && lower.skip(lower.len() - 2) == "pm"@ {
                let num = lower.take(lower.len() - 2);
                match parse_u32(num) {
                    Some(h) => if num.len() <= 2 {
                        Some((h % 12 + 12, 0))
                    } else {
                        None
                    },
                    None => None,
                }
            } else {
                None
            }
        },
    }
}

fn first_colon(t: &[char]) -> (r: Option<usize>)
    ensures
        match r {
            Some(k) => first_index_of(t@, ':') == Some(k as int) && k < t@.len(),
            None => first_index_of(t@, ':') is None,
        },
{
    let mut k: usize = 0;
    while k < t.len() && t[k] != ':'
        invariant
            k <= t@.len(),
            forall|j: int| 0 <= j < k ==> t@[j] != ':',
        decreases t.len() - k,
    {
        k += 1;
    }
    if k == t.len() {
        return None;
    }
    proof {
        let c = choose|m: int| 0 <= m < t@.len() && t@[m] == ':' && forall|j: int| 0 <= j < m ==> t@[j] != ':';
        if c < k {
            assert(t@[c] != ':');
        }
        if c > k {
            assert(t@[k as int] != ':');
        }
    }
    Some(k)
}

/// Parse a clock time.
pub fn parse_time(text: &str) -> (r: Option<(u32, u32)>)
    ensures
        match r {
            Some((h, m)) => time_of(text@) == Some((h as int, m as int)),
            None => time_of(text@) is None,
        },
{
    let v = chars_of(text);
    let t = trim_chars(v.as_slice());
    match first_colon(t.as_slice()) {
        Some(k) => {
            let tl = t.len();
            assert(k < tl);
            let head = slice_chars(t.as_slice(), 0, k);
            let tail = slice_chars(t.as_slice(), k + 1, tl);
            match (parse_u32_of(head.as_slice()), parse_u32_of(tail.as_slice())) {
                (Some(h), Some(m)) => if h < 24 && m < 60 {
                    Some((h, m))
                } else {
                    None
                },
                _ => None,
            }
        },
        None => {
            let ts = string_of(t.as_slice());
            let low = to_lower(ts.as_str());
            let lv = chars_of(low.as_str());
            let n = lv.len();
            proof {
                reveal_strlit("am");
                reveal_strlit("pm");
                assert("am"@ =~= seq!['a', 'm']);
                assert("pm"@ =~= seq!['p', 'm']);
            }
            let am = n >= 2 && lv[n - 2] == 'a' && lv[n - 1] == 'm';
            let pm = n >= 2 && lv[n - 2] == 'p' && lv[n - 1] == 'm';
            proof {
                if n >= 2 {
                    assert(am == (lv@.skip(n - 2) == "am"@)) by {
                        if am {
                            assert(lv@.skip(n - 2) =~= "am"@);
                        } else if lv@.skip(n - 2) == "am"@ {
                            assert(lv@.skip(n - 2)[0] == 'a');
                            assert(lv@.skip(n - 2)[1] == 'm');
                        }
                    }
                    assert(pm == (lv@.skip(n - 2) == "pm"@)) by {
                        if pm {
                            assert(lv@.skip(n - 2) =~= "pm"@);
                        } else if lv@.skip(n - 2) == "pm"@ {
                            assert(lv@.skip(n - 2)[0] == 'p');
                            assert(lv@.skip(n - 2)[1] == 'm');
                        }
                    }
                }
            }
            if am || pm {
                let num = slice_chars(lv.as_slice(), 0, n - 2);
                match parse_u32_of(num.as_slice()) {
                    Some(h) => if num.len() <= 2 {
                        if am {
                            Some((h % 12, 0))
                        } else {
                            Some((h % 12 + 12, 0))
                        }
                    } else {
                        None
                    },
                    None => None,
                }
            } else {
                None
            }
        },
    }
}

/// Monday is 0; the day names and their short forms.
pub open spec fn weekday_named(w: Seq<char>) -> Option<int> {
    if w == "mon"@ || w == "monday"@ {
        Some(0)
    } else if w == "tue"@ || w == "tues"@ || w == "tuesday"@ {
        Some(1)
    } else if w == "wed"@ || w == "wednesday"@ {
        Some(2)
    } else if w == "thu"@ || w == "thur"@ || w == "thurs"@ || w == "thursday"@ {
        Some(3)
    } else if w == "fri"@ || w == "friday"@ {
        Some(4)
    } else if w == "sat"@ || w == "saturday"@ {
        Some(5)
    } else if w == "sun"@ || w == "sunday"@ {
        Some(6)
    } else {
        None
    }
}

pub fn weekday_index(w: &[char]) -> (r: Option<u32>)
    ensures
        match r {
            Some(i) => weekday_named(w@) == Some(i as int),
            None => weekday_named(w@) is None,
        },
{
    if word(w, "mon") || word(w, "monday") {
        Some(0)
    } else if word(w, "tue") || word(w, "tues") || word(w, "tuesday") {
        Some(1)
    } else if word(w, "wed") || word(w, "wednesday") {
        Some(2)
    } else if word(w, "thu") || word(w, "thur") || word(w, "thurs") || word(w, "thursday") {
        Some(3)
    } else if word(w, "fri") || word(w, "friday") {
        Some(4)
    } else if word(w, "sat") || word(w, "saturday") {
        Some(5)
    } else if word(w, "sun") || word(w, "sunday") {
        Some(6)
    } else {
        None
    }
}

/// `YYYY-MM-DDTHH:MM:00` for a date and a clock time.
pub open spec fn iso_text(y: int, m: int, d: int, h: int, min: int) -> Seq<char> {
    date_text(DateTime { year: y as i32, month: m as u32, day: d as u32, hour: 0, minute: 0, second: 0, nano: 0 })
        + seq!['T'] + pad2(h as nat) + seq![':'] + pad2(min as nat) + seq![':', '0', '0']
}

fn iso_day(day: (i32, u32, u32), h: u32, m: u32) -> (r: String)
    ensures
        r@ == iso_text(day.0 as int, day.1 as int, day.2 as int, h as int, m as int),
{
    let d = crate::dates::format_date(DateTime { year: day.0, month: day.1, day: day.2, hour: 0, minute: 0, second: 0, nano: 0 });
    let mut v = chars_of(d.as_str());
    v.push('T');
    push_all(&mut v, padded2(h as u64).as_slice());
    v.push(':');
    push_all(&mut v, padded2(m as u64).as_slice());
    v.push(':');
    v.push('0');
    v.push('0');
    assert(v@ =~= iso_text(day.0 as int, day.1 as int, day.2 as int, h as int, m as int));
    string_of(v.as_slice())
}

/// UTF-8 length of some text.
pub open spec fn byte_len(s: Seq<char>) -> int {
    vstd::utf8::encode_utf8(s).len() as int
}

/// The number of leading characters that make up exactly 10 bytes, if any.
pub open spec fn ten_bytes(t: Seq<char>) -> Option<int> {
    if exists|k: int| 0 <= k <= t.len() && byte_len(t.take(k)) == 10 {
        Some(choose|k: int| 0 <= k <= t.len() && byte_len(t.take(k)) == 10)
    } else {
        None
    }
}

/// A bare date, `YYYY-MM-DD` in exactly ten bytes.
pub open spec fn date_branch(t: Seq<char>) -> Option<(i32, u32, u32)> {
    if byte_len(t) == 10 {
        chrono_naive_date(t, "%Y-%m-%d"@)
    } else {
        None
    }
}

/// A date and a time: the date in the first ten bytes, then a space or `T`,
/// then a clock time with a colon.
pub open spec fn datetime_branch(t: Seq<char>) -> Option<((i32, u32, u32), int, int)> {
    if byte_len(t) >= 15 {
        match ten_bytes(t) {
            Some(k) => match chrono_naive_date(t.take(k), "%Y-%m-%d"@) {
                Some(day) => {
                    let time_s = t.skip(k);
                    if time_s.len() > 0 && (time_s[0] == ' ' || time_s[0] == 'T') && contains(time_s.drop_first(), ":"@) {
                        match time_of(time_s.drop_first()) {
                            Some((h, m)) => Some((day, h, m)),
                            None => None,
                        }
                    } else {
                        None
                    }
                },
                None => None,
            },
            None => None,
        }
    } else {
        None
    }
}

/// `+Nd`: N days from today.
pub open spec fn plus_branch(lowered: Seq<char>) -> Option<int> {
    if lowered.len() >= 2 && lowered[0] == '+' && lowered.last() == 'd' {
        parse_int(lowered.subrange(1, lowered.len() - 1))
    } else {
        None
    }
}

/// The words of the lower-cased text, with ` at ` read as a space.
pub open spec fn due_words(lowered: Seq<char>) -> Seq<Seq<char>> {
    words(crate::text::replace_all(lowered, " at "@, " "@))
}

/// Days from today that `today`, `tonight` and `tomorrow` name.
pub open spec fn base_offset(ws: Seq<Seq<char>>) -> Option<int> {
    if ws.len() > 0 && (ws[0] == "today"@ || ws[0] == "tonight"@) {
        Some(0)
    } else if ws.len() > 0 && ws[0] == "tomorrow"@ {
        Some(1)
    } else {
        None
    }
}

/// The words after an optional leading `next`.
pub open spec fn after_next(ws: Seq<Seq<char>>) -> Seq<Seq<char>> {
    if ws.len() > 0 && ws[0] == "next"@ {
        ws.drop_first()
    } else {
        ws
    }
}

/// Days from today to the next such weekday, a week on for today's.
pub open spec fn weekday_delta(target: int, now: DateTime) -> int {
    let d = (target - weekday_of(day_number(now))) % 7;
    if d == 0 {
        7
    } else {
        d
    }
}

/// What a due phrase asks for: an absolute date, or a day counted from
/// today, with a clock time and whether it is all day; or nothing it knows.
pub enum DuePlan {
    On((i32, u32, u32), int, int, bool),
    From(int, int, int, bool),
    Unknown,
}

/// The plan a phrase of words makes.
pub open spec fn spoken_plan(lowered: Seq<char>, now: DateTime) -> DuePlan {
    let ws = due_words(lowered);
    let ws2 = after_next(ws);
    if base_offset(ws) is Some && ws.len() == 1 {
        if ws[0] == "tonight"@ {
            DuePlan::From(base_offset(ws).unwrap(), 21, 0, false)
        } else {
            DuePlan::From(base_offset(ws).unwrap(), 0, 0, true)
        }
    } else if base_offset(ws) is Some && time_of(ws[1]) is Some {
        DuePlan::From(base_offset(ws).unwrap(), time_of(ws[1]).unwrap().0, time_of(ws[1]).unwrap().1, false)
    } else if ws2.len() > 0 && weekday_named(ws2[0]) is Some && ws2.len() == 1 {
        DuePlan::From(weekday_delta(weekday_named(ws2[0]).unwrap(), now), 0, 0, true)
    } else if ws2.len() > 0 && weekday_named(ws2[0]) is Some && time_of(ws2[1]) is Some {
        DuePlan::From(weekday_delta(weekday_named(ws2[0]).unwrap(), now), time_of(ws2[1]).unwrap().0, time_of(ws2[1]).unwrap().1, false)
    } else {
        DuePlan::Unknown
    }
}

/// The plan a due phrase makes, trying the shapes in order.
pub open spec fn due_plan(text: Seq<char>, now: DateTime) -> DuePlan {
    let t = trim(text);
    let lowered = lowercase(t);
    if date_branch(t) is Some {
        DuePlan::On(date_branch(t).unwrap(), 0, 0, true)
    } else if datetime_branch(t) is Some {
        let (day, h, m) = datetime_branch(t).unwrap();
        DuePlan::On(day, h, m, false)
    } else if plus_branch(lowered) is Some {
        DuePlan::From(plus_branch(lowered).unwrap(), 0, 0, true)
    } else {
        spoken_plan(lowered, now)
    }
}

/// `s` is the stamp for the day `n` days from today at `h:m`.
pub open spec fn stamp_for(now: DateTime, n: int, h: int, m: int, s: Seq<char>) -> bool {
    exists|y: i32, mo: u32, d: u32|
        valid_date(y as int, mo as int, d as int) && days_from_civil(y as int, mo as int, d as int) == day_number(now) + n
            && s == #[trigger] iso_text(y as int, mo as int, d as int, h, m)
}

/// A day counted from today lies within the dates chrono can hold.
pub open spec fn day_fits(now: DateTime, n: int) -> bool {
    first_day() <= day_number(now) + n <= last_day()
}

/// The dates the phrase counts from today all exist; where one would not,
/// the tool stops rather than answer.
pub open spec fn due_defined(text: Seq<char>, now: DateTime) -> bool {
    let t = trim(text);
    let lowered = lowercase(t);
    let ws = due_words(lowered);
    let ws2 = after_next(ws);
    if date_branch(t) is Some || datetime_branch(t) is Some {
        true
    } else if plus_branch(lowered) is Some {
        day_fits(now, plus_branch(lowered).unwrap())
    } else {
        &&& base_offset(ws) is Some ==> day_fits(now, base_offset(ws).unwrap())
        &&& (base_offset(ws) is Some && (ws.len() == 1 || time_of(ws[1]) is Some)) || !(ws2.len() > 0
            && weekday_named(ws2[0]) is Some) || day_fits(now, weekday_delta(weekday_named(ws2[0]).unwrap(), now))
    }
}

/// `r` is what a due phrase gives: the ISO stamp and whether it is all day,
/// or the phrase itself (trimmed) when it is not one.
pub open spec fn due_result(text: Seq<char>, now: DateTime, r: Result<(Seq<char>, bool), Seq<char>>) -> bool {
    match due_plan(text, now) {
        DuePlan::On(d, h, m, all_day) => r == Ok::<(Seq<char>, bool), Seq<char>>((iso_text(d.0 as int, d.1 as int, d.2 as int, h, m), all_day)),
        DuePlan::From(n, h, m, all_day) => r matches Ok((s, b)) && b == all_day && stamp_for(now, n, h, m, s),
        DuePlan::Unknown => r == Err::<(Seq<char>, bool), Seq<char>>(trim(text)),
    }
}

proof fn lemma_bytes_step(t: Seq<char>, j: int)
    requires
        0 <= j < t.len(),
    ensures
        byte_len(t.take(j + 1)) == byte_len(t.take(j)) + vstd::utf8::encode_utf8(seq![t[j]]).len(),
        vstd::utf8::encode_utf8(seq![t[j]]).len() >= 1,
{
    assert(t.take(j + 1) =~= t.take(j) + seq![t[j]]);
    crate::text::lemma_encode_utf8_concat(t.take(j), seq![t[j]]);
    reveal_with_fuel(vstd::utf8::encode_utf8, 2);
    assert(seq![t[j]].drop_first() =~= Seq::<char>::empty());
}

proof fn lemma_bytes_grow(t: Seq<char>, a: int, b: int)
    requires
        0 <= a <= b <= t.len(),
    ensures
        byte_len(t.take(a)) + (b - a) <= byte_len(t.take(b)),
    decreases b - a,
{
    if a < b {
        lemma_bytes_grow(t, a, b - 1);
        lemma_bytes_step(t, b - 1);
    }
}

/// Where the first ten bytes end, if a character boundary falls there.
fn ten_byte_prefix(t: &[char]) -> (r: Option<usize>)
    ensures
        match r {
            Some(k) => ten_bytes(t@) == Some(k as int) && k <= t@.len(),
            None => ten_bytes(t@) is None,
        },
{
    let mut total: usize = 0;
    let mut k: usize = 0;
    assert(t@.take(0) =~= Seq::<char>::empty());
    while k < t.len() && total < 10
        invariant
            k <= t@.len(),
            total == byte_len(t@.take(k as int)),
            total <= 13,
            k > 0 ==> byte_len(t@.take(k - 1)) < 10,
        decreases t.len() - k,
    {
        proof {
            lemma_bytes_step(t@, k as int);
        }
        total = total + utf8_width(t[k]);
        k += 1;
    }
    if total == 10 {
        proof {
            assert(0 <= k <= t@.len() && byte_len(t@.take(k as int)) == 10);
            let c = choose|j: int| 0 <= j <= t@.len() && byte_len(t@.take(j)) == 10;
            if c < k {
                lemma_bytes_grow(t@, c, k as int);
                if c + 1 <= k {
                    lemma_bytes_step(t@, c);
                    lemma_bytes_grow(t@, c + 1, k as int);
                }
            }
            if c > k {
                lemma_bytes_step(t@, k as int);
                lemma_bytes_grow(t@, k + 1, c);
            }
            assert(c == k);
            assert(ten_bytes(t@) == Some(c));
        }
        Some(k)
    } else {
        proof {
            if exists|j: int| 0 <= j <= t@.len() && byte_len(t@.take(j)) == 10 {
                let c = choose|j: int| 0 <= j <= t@.len() && byte_len(t@.take(j)) == 10;
                if c < k {
                    if total < 10 {
                        lemma_bytes_grow(t@, c, k as int);
                    } else {
                        lemma_bytes_step(t@, k - 1);
                        lemma_bytes_grow(t@, c, k - 1);
                    }
                }
                if c > k {
                    if total > 10 {
                        lemma_bytes_grow(t@, k as int, c);
                    } else {
                        assert(k == t@.len());
                    }
                }
                if c == k {
                    assert(false);
                }
            }
        }
        None
    }
}

/// Whether the text takes at least `n` bytes.
fn at_least_bytes(t: &[char], n: usize) -> (r: bool)
    requires
        n <= 1000,
    ensures
        r == (byte_len(t@) >= n),
{
    let mut total: usize = 0;
    let mut k: usize = 0;
    assert(t@.take(0) =~= Seq::<char>::empty());
    while k < t.len() && total < n
        invariant
            k <= t@.len(),
            total == byte_len(t@.take(k as int)),
            total <= n + 4,
            n <= 1000,
        decreases t.len() - k,
    {
        proof {
            lemma_bytes_step(t@, k as int);
        }
        total = total + utf8_width(t[k]);
        k += 1;
    }
    proof {
        lemma_bytes_grow(t@, k as int, t@.len() as int);
        assert(t@.take(t@.len() as int) =~= t@);
    }
    if total >= n {
        true
    } else {
        false
    }
}

/// The ISO stamp for the day `n` days from today.
fn day_from_today(now: DateTime, n: i64, h: u32, m: u32) -> (r: String)
    requires
        valid_datetime(now),
        day_fits(now, n as int),
    ensures
        stamp_for(now, n as int, h as int, m as int, r@),
{
    match date_plus_days(now.year, now.month, now.day, n) {
        Some(day) => {
            let r = iso_day(day, h, m);
            assert(valid_date(day.0 as int, day.1 as int, day.2 as int) && days_from_civil(day.0 as int, day.1 as int, day.2 as int) == day_number(now) + n
                && r@ == iso_text(day.0 as int, day.1 as int, day.2 as int, h as int, m as int));
            r
        },
        None => {
            assert(false);
            String::new()
        },
    }
}

fn is_word(v: &Vec<Vec<char>>, i: usize, w: &str) -> (r: bool)
    ensures
        r == (i < v@.len() && v@[i as int]@ == w@),
{
    i < v.len() && word(v[i].as_slice(), w)
}

/// The stamp for a bare date or a date and a time, when the text is one.
fn due_literal(t: &Vec<char>, ts: &String) -> (r: Option<(String, bool)>)
    requires
        ts@ == t@,
    ensures
        match r {
            Some((s, b)) => match date_branch(t@) {
                Some(d) => s@ == iso_text(d.0 as int, d.1 as int, d.2 as int, 0, 0) && b,
                None => match datetime_branch(t@) {
                    Some((d, h, m)) => s@ == iso_text(d.0 as int, d.1 as int, d.2 as int, h, m) && !b,
                    None => false,
                },
            },
            None => date_branch(t@) is None && datetime_branch(t@) is None,
        },
{
    proof {
        reveal_strlit("%Y-%m-%d");
    }
    if ten_byte_prefix(t.as_slice()) == Some(t.len()) {
        proof {
            assert(t@.take(t@.len() as int) =~= t@);
        }
        if let Some(day) = parse_naive_date(ts.as_str(), "%Y-%m-%d") {
            return Some((iso_day(day, 0, 0), true));
        }
    }
    proof {
        if byte_len(t@) == 10 {
            assert(t@.take(t@.len() as int) =~= t@);
            let c = choose|j: int| 0 <= j <= t@.len() && byte_len(t@.take(j)) == 10;
            if c < t@.len() {
                lemma_bytes_step(t@, c);
                lemma_bytes_grow(t@, c + 1, t@.len() as int);
            }
        }
    }
    assert(date_branch(t@) is None);
    if at_least_bytes(t.as_slice(), 15) {
        if let Some(k) = ten_byte_prefix(t.as_slice()) {
            let day_s = string_of(slice_chars(t.as_slice(), 0, k).as_slice());
            if let Some(day) = parse_naive_date(day_s.as_str(), "%Y-%m-%d") {
                let time_v = slice_chars(t.as_slice(), k, t.len());
                if time_v.len() > 0 && (time_v[0] == ' ' || time_v[0] == 'T') {
                    let after = slice_chars(time_v.as_slice(), 1, time_v.len());
                    assert(after@ == time_v@.drop_first());
                    let colon = vec![':'];
                    proof {
                        reveal_strlit(":");
                        assert(colon@ =~= ":"@);
                    }
                    if crate::text::contains_chars(after.as_slice(), colon.as_slice()) {
                        let after_s = string_of(after.as_slice());
                        if let Some((h, m)) = parse_time(after_s.as_str()) {
                            return Some((iso_day(day, h, m), false));
                        }
                    }
                }
            }
        }
    }
    None
}

/// The stamp for `+Nd`, when the text is that.
fn due_plus(lv: &Vec<char>, now: DateTime) -> (r: Option<String>)
    requires
        valid_datetime(now),
        plus_branch(lv@) matches Some(n) ==> day_fits(now, n),
    ensures
        match r {
            Some(s) => plus_branch(lv@) matches Some(n) && stamp_for(now, n, 0, 0, s@),
            None => plus_branch(lv@) is None,
        },
{
    let n_low = lv.len();
    if n_low >= 2 && lv[0] == '+' && lv[n_low - 1] == 'd' {
        let mid = slice_chars(lv.as_slice(), 1, n_low - 1);
        if let Some(n) = parse_i64(mid.as_slice()) {
            assert(plus_branch(lv@) == Some(n as int));
            return Some(day_from_today(now, n, 0, 0));
        }
    }
    None
}

/// The stamp for a phrase of words, when it is one.
#[verifier::spinoff_prover]
fn due_spoken(lv: &Vec<char>, now: DateTime) -> (r: Option<(String, bool)>)
    requires
        valid_datetime(now),
        ({
            let ws = due_words(lv@);
            let ws2 = after_next(ws);
            &&& base_offset(ws) is Some ==> day_fits(now, base_offset(ws).unwrap())
            &&& (base_offset(ws) is Some && (ws.len() == 1 || time_of(ws[1]) is Some)) || !(ws2.len() > 0
                && weekday_named(ws2[0]) is Some) || day_fits(now, weekday_delta(weekday_named(ws2[0]).unwrap(), now))
        }),
    ensures
        match r {
            Some((s, b)) => match spoken_plan(lv@, now) {
                DuePlan::From(n, h, m, all_day) => b == all_day && stamp_for(now, n, h, m, s@),
                _ => false,
            },
            None => spoken_plan(lv@, now) is Unknown,
        },
{
    proof {
        crate::dates::lemma_days_bounds(now.year as int, now.month as int, now.day as int);
    }
    let ghost ws_spec = due_words(lv@);
    let at = chars_of(" at ");
    let sp = chars_of(" ");
    proof {
        reveal_strlit(" at ");
    }
    let joined = crate::text::replace_all_chars(lv.as_slice(), at.as_slice(), sp.as_slice());
    let ws = words_of(joined.as_slice());
    assert(views(ws@) == ws_spec);
    let base: Option<i64> = if is_word(&ws, 0, "today") || is_word(&ws, 0, "tonight") {
        Some(0)
    } else if is_word(&ws, 0, "tomorrow") {
        Some(1)
    } else {
        None
    };
    proof {
        if ws@.len() > 0 {
            assert(views(ws@)[0] == ws@[0]@);
        }
        if ws@.len() > 1 {
            assert(views(ws@)[1] == ws@[1]@);
        }
    }
    assert(match base {
        Some(b) => base_offset(ws_spec) == Some(b as int),
        None => base_offset(ws_spec) is None,
    });
    if let Some(b) = base {
        if ws.len() == 1 {
            if is_word(&ws, 0, "tonight") {
                assert(ws_spec[0] == "tonight"@);
                return Some((day_from_today(now, b, 21, 0), false));
            }
            return Some((day_from_today(now, b, 0, 0), true));
        }
        let w1 = string_of(ws[1].as_slice());
        if let Some((h, m)) = parse_time(w1.as_str()) {
            return Some((day_from_today(now, b, h, m), false));
        }
    }
    let skip: usize = if is_word(&ws, 0, "next") {
        1
    } else {
        0
    };
    let ghost ws2 = after_next(ws_spec);
    proof {
        if skip == 1 {
            assert(ws2 =~= views(ws@).skip(1));
        } else {
            assert(ws2 =~= views(ws@).skip(0));
        }
    }
    if skip < ws.len() {
        assert(ws2[0] == ws@[skip as int]@);
        if let Some(target) = weekday_index(ws[skip].as_slice()) {
            let today = crate::dates::civil_days(now.year, now.month, now.day);
            let wd = crate::dates::weekday(today);
            let raw: i64 = (target as i64 - wd as i64 + 7) % 7;
            proof {
                assert(raw == (target as int - weekday_of(day_number(now))) % 7) by (nonlinear_arith)
                    requires
                        0 <= target < 7,
                        0 <= wd < 7,
                        wd == weekday_of(day_number(now)),
                        raw == (target as int - wd as int + 7) % 7,
                ;
            }
            let delta: i64 = if raw == 0 {
                7
            } else {
                raw
            };
            if ws.len() - skip == 1 {
                return Some((day_from_today(now, delta, 0, 0), true));
            }
            assert(ws2[1] == ws@[skip + 1]@);
            let w1 = string_of(ws[skip + 1].as_slice());
            if let Some((h, m)) = parse_time(w1.as_str()) {
                return Some((day_from_today(now, delta, h, m), false));
            }
        }
    }
    None
}

/// Parse a user-supplied due string: the ISO stamp and whether it is all
/// day, or the (trimmed) text back when it is not a due phrase, as the real
/// remctl answers with exit 2.
pub fn parse_due_input(text: &str, now: DateTime) -> (r: Result<(String, bool), String>)
    requires
        valid_datetime(now),
        due_defined(text@, now),
    ensures
        match r {
            Ok((s, b)) => due_result(text@, now, Ok::<(Seq<char>, bool), Seq<char>>((s@, b))),
            Err(e) => due_result(text@, now, Err::<(Seq<char>, bool), Seq<char>>(e@)),
        },
{
    let tv = chars_of(text);
    let t = trim_chars(tv.as_slice());
    let ts = string_of(t.as_slice());
    if let Some(found) = due_literal(&t, &ts) {
        return Ok(found);
    }
    let low = to_lower(ts.as_str());
    let lv = chars_of(low.as_str());
    if let Some(s) = due_plus(&lv, now) {
        return Ok((s, true));
    }
    if let Some(found) = due_spoken(&lv, now) {
        return Ok(found);
    }
    Err(ts)
}

/// Every backslash doubled.
pub open spec fn backslashes_doubled(s: Seq<char>) -> Seq<char>
    decreases s.len(),
{
    if s.len() == 0 {
        Seq::empty()
    } else {
        backslashes_doubled(s.drop_last()) + if s.last() == '\\' {
            seq!['\\', '\\']
        } else {
            seq![s.last()]
        }
    }
}

/// Every single quote escaped with a backslash.
pub open spec fn quotes_escaped(s: Seq<char>) -> Seq<char>
    decreases s.len(),
{
    if s.len() == 0 {
        Seq::empty()
    } else {
        quotes_escaped(s.drop_last()) + if s.last() == '\'' {
            seq!['\\', '\'']
        } else {
            seq![s.last()]
        }
    }
}

/// Python's `repr()` of a str: double quotes when the text holds a single
/// quote and no double quote, else single quotes with single quotes escaped;
/// backslashes doubled either way.
pub open spec fn python_repr(text: Seq<char>) -> Seq<char> {
    if text.contains('\'') && !text.contains('"') {
        seq!['"'] + backslashes_doubled(text) + seq!['"']
    } else {
        seq!['\''] + quotes_escaped(backslashes_doubled(text)) + seq!['\'']
    }
}

fn double_backslashes(v: &[char]) -> (r: Vec<char>)
    ensures
        r@ == backslashes_doubled(v@),
{
    let mut out: Vec<char> = Vec::new();
    let mut i: usize = 0;
    assert(v@.take(0) =~= Seq::<char>::empty());
    while i < v.len()
        invariant
            i <= v@.len(),
            out@ == backslashes_doubled(v@.take(i as int)),
        decreases v.len() - i,
    {
        let ghost before = out@;
        if v[i] == '\\' {
            out.push('\\');
            out.push('\\');
        } else {
            out.push(v[i]);
        }
        proof {
            assert(v@.take(i + 1).drop_last() =~= v@.take(i as int));
            assert(out@ =~= backslashes_doubled(v@.take(i + 1)));
        }
        i += 1;
    }
    assert(v@.take(v@.len() as int) =~= v@);
    out
}

fn escape_quotes(v: &[char]) -> (r: Vec<char>)
    ensures
        r@ == quotes_escaped(v@),
{
    let mut out: Vec<char> = Vec::new();
    let mut i: usize = 0;
    assert(v@.take(0) =~= Seq::<char>::empty());
    while i < v.len()
        invariant
            i <= v@.len(),
            out@ == quotes_escaped(v@.take(i as int)),
        decreases v.len() - i,
    {
        let ghost before = out@;
        if v[i] == '\'' {
            out.push('\\');
            out.push('\'');
        } else {
            out.push(v[i]);
        }
        proof {
            assert(v@.take(i + 1).drop_last() =~= v@.take(i as int));
            assert(out@ =~= quotes_escaped(v@.take(i + 1)));
        }
        i += 1;
    }
    assert(v@.take(v@.len() as int) =~= v@);
    out
}

fn holds_char(v: &[char], c: char) -> (r: bool)
    ensures
        r == v@.contains(c),
{
    let mut i: usize = 0;
    while i < v.len()
        invariant
            i <= v@.len(),
            forall|j: int| 0 <= j < i ==> v@[j] != c,
        decreases v.len() - i,
    {
        if v[i] == c {
            return true;
        }
        i += 1;
    }
    false
}

/// Python's `repr()` of a str, for byte-identical error text.
pub fn py_repr(text: &str) -> (r: String)
    ensures
        r@ == python_repr(text@),
{
    let v = chars_of(text);
    let doubled = double_backslashes(v.as_slice());
    let mut out: Vec<char> = Vec::new();
    if holds_char(v.as_slice(), '\'') && !holds_char(v.as_slice(), '"') {
        out.push('"');
        push_all(&mut out, doubled.as_slice());
        out.push('"');
    } else {
        out.push('\'');
        let escaped = escape_quotes(doubled.as_slice());
        push_all(&mut out, escaped.as_slice());
        out.push('\'');
    }
    assert(out@ =~= python_repr(text@));
    string_of(out.as_slice())
}

/// The priority a word names: `high`/`h`, `medium`/`med`/`m`, `low`/`l`,
/// `none`, without regard to case.
pub open spec fn priority_named(text: Seq<char>) -> Option<Seq<char>> {
    let w = lowercase(text);
    if w == "high"@ || w == "h"@ {
        Some("high"@)
    } else if w == "medium"@ || w == "med"@ || w == "m"@ {
        Some("medium"@)
    } else if w == "low"@ || w == "l"@ {
        Some("low"@)
    } else if w == "none"@ {
        Some("none"@)
    } else {
        None
    }
}

pub fn priority_alias(text: &str) -> (r: Option<&'static str>)
    ensures
        match r {
            Some(p) => priority_named(text@) == Some(p@),
            None => priority_named(text@) is None,
        },
{
    let low = to_lower(text);
    let w = chars_of(low.as_str());
    if word(w.as_slice(), "high") || word(w.as_slice(), "h") {
        Some("high")
    } else if word(w.as_slice(), "medium") || word(w.as_slice(), "med") || word(w.as_slice(), "m") {
        Some("medium")
    } else if word(w.as_slice(), "low") || word(w.as_slice(), "l") {
        Some("low")
    } else if word(w.as_slice(), "none") {
        Some("none")
    } else {
        None
    }
}

/// What the process should do: print these streams and exit with this code.
#[derive(Debug)]
pub struct Outcome {
    pub stdout: Printed,
    pub stderr: Printed,
    pub code: i32,
}

pub type OutcomeView = (PrintedView, PrintedView, i32);

impl Outcome {
    pub open spec fn view(&self) -> OutcomeView {
        (self.stdout.view(), self.stderr.view(), self.code)
    }
}

/// What a run asks of its caller: print an outcome, or first write a new
/// state and then print the outcome (or the failure to write).
#[derive(Debug)]
pub enum Step {
    Finish(Outcome),
    Save { state: Json, then: Outcome },
}

pub enum StepView {
    Finish(OutcomeView),
    Save(JsonView, OutcomeView),
}

impl Step {
    pub open spec fn view(&self) -> StepView {
        match self {
            Step::Finish(o) => StepView::Finish(o.view()),
            Step::Save { state, then } => StepView::Save(jv(*state), then.view()),
        }
    }
}

/// A string member, or "".
pub open spec fn text_at(v: Json, key: Seq<char>) -> Seq<char> {
    match json_get(v, key) {
        Some(Json::Str(s)) => s@,
        _ => Seq::empty(),
    }
}

/// A boolean member, or false.
pub open spec fn flag_at(v: Json, key: Seq<char>) -> bool {
    match json_get(v, key) {
        Some(Json::Bool(b)) => b,
        _ => false,
    }
}

/// `v[key]`: the member, or null.
pub open spec fn member_at(v: Json, key: Seq<char>) -> JsonView {
    match json_get(v, key) {
        Some(m) => jv(m),
        None => JsonView::Null,
    }
}

/// The members every serialized reminder has, in remctl's order.
pub open spec fn base_part(row: Json) -> Seq<(Seq<char>, JsonView)> {
    let priority = text_at(row, "priority"@);
    seq![
        ("id"@, member_at(row, "id"@)),
        ("title"@, member_at(row, "title"@)),
        ("list"@, member_at(row, "list"@)),
        ("completed"@, JsonView::Bool(flag_at(row, "completed"@))),
        ("flagged"@, JsonView::Bool(flag_at(row, "flagged"@))),
        ("urgent"@, JsonView::Bool(flag_at(row, "urgent"@))),
        ("priority"@, JsonView::Str(if priority.len() == 0 {
            "none"@
        } else {
            priority
        })),
        ("subtaskCount"@, json_int_view(0)),
        ("isSubtask"@, JsonView::Bool(false)),
    ]
}

/// The member `key`, copied only when its text is not empty.
pub open spec fn text_part(row: Json, key: Seq<char>) -> Seq<(Seq<char>, JsonView)> {
    if text_at(row, key).len() > 0 {
        seq![(key, member_at(row, key))]
    } else {
        Seq::empty()
    }
}

/// The due date and its all-day flag, when there is a due date.
pub open spec fn due_part(row: Json) -> Seq<(Seq<char>, JsonView)> {
    if text_at(row, "dueDate"@).len() > 0 {
        seq![("dueDate"@, member_at(row, "dueDate"@)), ("allDay"@, JsonView::Bool(flag_at(row, "allDay"@)))]
    } else {
        Seq::empty()
    }
}

/// Whether the row holds a non-empty array of tags.
pub open spec fn has_tags(row: Json) -> bool {
    match json_get(row, "tags"@) {
        Some(Json::Array(items, _)) => items@.len() > 0,
        _ => false,
    }
}

/// The tags, when there are any.
pub open spec fn tags_part(row: Json) -> Seq<(Seq<char>, JsonView)> {
    if has_tags(row) {
        seq![("tags"@, member_at(row, "tags"@))]
    } else {
        Seq::empty()
    }
}

/// A reminder row as remctl serializes it.
pub open spec fn reminder_view(row: Json) -> JsonView {
    JsonView::Object(
        base_part(row) + text_part(row, "notes"@) + text_part(row, "url"@) + due_part(row)
            + tags_part(row) + text_part(row, "completionDate"@),
    )
}

fn text_of(v: &Json, key: &str) -> (r: String)
    ensures
        r@ == text_at(*v, key@),
{
    match v.get(key) {
        Some(Json::Str(s)) => s.clone(),
        _ => String::new(),
    }
}

fn flag_of(v: &Json, key: &str) -> (r: bool)
    ensures
        r == flag_at(*v, key@),
{
    match v.get(key) {
        Some(Json::Bool(b)) => *b,
        _ => false,
    }
}

fn member_of(v: &Json, key: &str) -> (r: Json)
    ensures
        jv(r) == member_at(*v, key@),
{
    match v.get(key) {
        Some(m) => m.copy(),
        None => Json::Null,
    }
}

fn put(es: &mut Vec<(String, Json)>, key: &str, value: Json)
    ensures
        crate::json::jv_entries(final(es)@) == crate::json::jv_entries(old(es)@).push((key@, jv(value))),
{
    let e = (string_of(chars_of(key).as_slice()), value);
    proof {
        lemma_jv_entries_push(es@, e);
    }
    es.push(e);
}

fn base_entries(row: &Json) -> (r: Vec<(String, Json)>)
    ensures
        crate::json::jv_entries(r@) =~= base_part(*row),
{
    let mut es: Vec<(String, Json)> = Vec::new();
    put(&mut es, "id", member_of(row, "id"));
    put(&mut es, "title", member_of(row, "title"));
    put(&mut es, "list", member_of(row, "list"));
    put(&mut es, "completed", Json::Bool(flag_of(row, "completed")));
    put(&mut es, "flagged", Json::Bool(flag_of(row, "flagged")));
    put(&mut es, "urgent", Json::Bool(flag_of(row, "urgent")));
    let priority = text_of(row, "priority");
    if priority.as_str().is_empty() {
        put(&mut es, "priority", Json::text("none"));
    } else {
        put(&mut es, "priority", Json::Str(priority));
    }
    put(&mut es, "subtaskCount", Json::integer(0));
    put(&mut es, "isSubtask", Json::Bool(false));
    proof {
        reveal_strlit("none");
    }
    es
}

fn put_text_member(es: &mut Vec<(String, Json)>, row: &Json, key: &str)
    ensures
        crate::json::jv_entries(final(es)@) =~= crate::json::jv_entries(old(es)@) + text_part(*row, key@),
{
    if !text_of(row, key).as_str().is_empty() {
        put(es, key, member_of(row, key));
    }
}

fn put_due(es: &mut Vec<(String, Json)>, row: &Json)
    ensures
        crate::json::jv_entries(final(es)@) =~= crate::json::jv_entries(old(es)@) + due_part(*row),
{
    if !text_of(row, "dueDate").as_str().is_empty() {
        put(es, "dueDate", member_of(row, "dueDate"));
        put(es, "allDay", Json::Bool(flag_of(row, "allDay")));
    }
}

fn put_tags(es: &mut Vec<(String, Json)>, row: &Json)
    ensures
        crate::json::jv_entries(final(es)@) =~= crate::json::jv_entries(old(es)@) + tags_part(*row),
{
    let has = match row.get("tags") {
        Some(Json::Array(items, _)) => items.len() > 0,
        _ => false,
    };
    if has {
        put(es, "tags", member_of(row, "tags"));
    }
}

/// A reminder row as remctl serializes it.
pub fn serialize_reminder(row: &Json) -> (r: Json)
    ensures
        jv(r) == reminder_view(*row),
{
    let mut es = base_entries(row);
    put_text_member(&mut es, row, "notes");
    put_text_member(&mut es, row, "url");
    put_due(&mut es, row);
    put_tags(&mut es, row);
    put_text_member(&mut es, row, "completionDate");
    proof {
        assert(crate::json::jv_entries(es@) =~= reminder_view(*row)->Object_0);
    }
    Json::object(es)
}


const FLAG_ERROR: &'static str = "osascript: Automation permission denied (-1743)";

/// The reminders of a state: its `reminders` array, or none.
pub open spec fn reminders_of(state: Json) -> Seq<Json> {
    match json_get(state, "reminders"@) {
        Some(Json::Array(items, _)) => items@,
        _ => Seq::empty(),
    }
}

/// The lists of a state: its `lists` array, or none.
pub open spec fn lists_of(state: Json) -> Seq<Json> {
    match json_get(state, "lists"@) {
        Some(Json::Array(items, _)) => items@,
        _ => Seq::empty(),
    }
}

/// The due moment of a row: its `dueDate` stamp read as `%Y-%m-%dT%H:%M:%S`.
pub open spec fn due_of(row: Json) -> Option<DateTime> {
    if text_at(row, "dueDate"@).len() == 0 {
        None
    } else {
        chrono_naive_datetime(text_at(row, "dueDate"@), "%Y-%m-%dT%H:%M:%S"@)
    }
}

fn due_datetime(row: &Json) -> (r: Option<DateTime>)
    ensures
        r == due_of(*row),
        r matches Some(t) ==> valid_datetime(t),
{
    let text = text_of(row, "dueDate");
    if text.as_str().is_empty() {
        None
    } else {
        parse_naive_datetime(text.as_str(), "%Y-%m-%dT%H:%M:%S")
    }
}

/// Which reminders a read command lists.
pub enum Sel {
    /// In the list with this title; completed ones too when asked.
    InList(Seq<char>, bool),
    /// Active and due on this day.
    Today(DateTime),
    /// Active and due on a day numbered within these bounds.
    Upcoming(int, int),
    /// Active and overdue at this moment.
    Overdue(DateTime),
    /// Active and flagged.
    Flagged,
    /// Title or notes, lower-cased, hold this needle; completed ones too when asked.
    Search(Seq<char>, bool),
}

/// Whether a reminder row is selected.
pub open spec fn picks(s: Sel, r: Json) -> bool {
    let active = !flag_at(r, "completed"@);
    match s {
        Sel::InList(title, all) => text_at(r, "list"@) == title && (all || active),
        Sel::Today(now) => active && match due_of(r) {
            Some(d) => same_date(d, now),
            None => false,
        },
        Sel::Upcoming(first, last) => active && match due_of(r) {
            Some(d) => first <= day_number(d) <= last,
            None => false,
        },
        Sel::Overdue(now) => active && overdue(due_of(r), flag_at(r, "allDay"@), now),
        Sel::Flagged => active && flag_at(r, "flagged"@),
        Sel::Search(needle, all) => (all || active) && (contains(lowercase(text_at(r, "title"@)), needle)
            || contains(lowercase(text_at(r, "notes"@)), needle)),
    }
}

/// The selected rows, in order.
pub open spec fn picked(rs: Seq<Json>, s: Sel) -> Seq<Json>
    decreases rs.len(),
{
    if rs.len() == 0 {
        Seq::empty()
    } else {
        let prev = picked(rs.drop_last(), s);
        if picks(s, rs.last()) {
            prev.push(rs.last())
        } else {
            prev
        }
    }
}

/// Rows as remctl serializes them.
pub open spec fn serialized(rs: Seq<Json>) -> Seq<JsonView>
    decreases rs.len(),
{
    if rs.len() == 0 {
        Seq::empty()
    } else {
        serialized(rs.drop_last()).push(reminder_view(rs.last()))
    }
}

enum Pick {
    InList(String, bool),
    Today(DateTime),
    Upcoming(i64, i64),
    Overdue(DateTime),
    Flagged,
    Search(String, bool),
}

impl Pick {
    spec fn view(&self) -> Sel {
        match self {
            Pick::InList(t, all) => Sel::InList(t@, *all),
            Pick::Today(now) => Sel::Today(*now),
            Pick::Upcoming(a, b) => Sel::Upcoming(*a as int, *b as int),
            Pick::Overdue(now) => Sel::Overdue(*now),
            Pick::Flagged => Sel::Flagged,
            Pick::Search(n, all) => Sel::Search(n@, *all),
        }
    }
}

fn picks_row(p: &Pick, r: &Json) -> (b: bool)
    ensures
        b == picks(p.view(), *r),
{
    let active = !flag_of(r, "completed");
    match p {
        Pick::InList(title, all) => same_str(text_of(r, "list").as_str(), title.as_str()) && (*all || active),
        Pick::Today(now) => active && crate::dates::is_due_today(due_datetime(r), *now),
        Pick::Upcoming(first, last) => active && match due_datetime(r) {
            Some(d) => {
                let dn = crate::dates::civil_days(d.year, d.month, d.day);
                *first <= dn && dn <= *last
            },
            None => false,
        },
        Pick::Overdue(now) => active && crate::dates::is_overdue(due_datetime(r), flag_of(r, "allDay"), *now),
        Pick::Flagged => active && flag_of(r, "flagged"),
        Pick::Search(needle, all) => (*all || active) && (contains_str(
            to_lower(text_of(r, "title").as_str()).as_str(),
            needle.as_str(),
        ) || contains_str(to_lower(text_of(r, "notes").as_str()).as_str(), needle.as_str())),
    }
}

/// The selected rows, serialized.
fn emit_rows(rows: &Vec<Json>, p: &Pick) -> (r: Vec<Json>)
    ensures
        crate::json::jv_items(r@) == serialized(picked(rows@, p.view())),
{
    let mut out: Vec<Json> = Vec::new();
    let mut i: usize = 0;
    proof {
        lemma_jv_items_push(out@, Json::Null);
    }
    while i < rows.len()
        invariant
            i <= rows@.len(),
            crate::json::jv_items(out@) == serialized(picked(rows@.take(i as int), p.view())),
        decreases rows.len() - i,
    {
        let ghost before = picked(rows@.take(i as int), p.view());
        proof {
            assert(rows@.take(i + 1).drop_last() =~= rows@.take(i as int));
        }
        if picks_row(p, &rows[i]) {
            let v = serialize_reminder(&rows[i]);
            proof {
                lemma_jv_items_push(out@, v);
                assert(before.push(rows@[i as int]).drop_last() =~= before);
            }
            out.push(v);
        }
        i += 1;
    }
    assert(rows@.take(rows@.len() as int) =~= rows@);
    out
}

pub open spec fn ok_view(out: PrintedView) -> OutcomeView {
    (out, silent(), 0)
}

pub open spec fn fail_view(message: Seq<char>) -> OutcomeView {
    (silent(), PrintedView::Text(message + "\n"@), 1)
}

pub open spec fn usage_view(message: Seq<char>) -> OutcomeView {
    (silent(), PrintedView::Text("usage: remctl (fake) ...\nremctl (fake): error: "@ + message + "\n"@), 2)
}

/// Rows printed as a pretty JSON array.
pub open spec fn listed_view(rows: Seq<Json>) -> OutcomeView {
    ok_view(PrintedView::Pretty(JsonView::Array(serialized(rows))))
}

/// A status object printed compactly.
pub open spec fn status_view(payload: Seq<(Seq<char>, JsonView)>) -> OutcomeView {
    ok_view(PrintedView::Compact(JsonView::Object(payload)))
}

pub open spec fn not_found_view(id: int) -> OutcomeView {
    fail_view("Error: #"@ + dec_signed(id) + " not found"@)
}

pub open spec fn id_error_view() -> OutcomeView {
    usage_view("argument id: invalid int value"@)
}

fn joined(a: &str, b: &str, c: &str) -> (r: String)
    ensures
        r@ == a@ + b@ + c@,
{
    let mut v: Vec<char> = Vec::new();
    push_str(&mut v, a);
    push_str(&mut v, b);
    push_str(&mut v, c);
    string_of(v.as_slice())
}

fn ok_out(out: Printed) -> (o: Outcome)
    ensures
        o.view() == ok_view(out.view()),
{
    Outcome { stdout: out, stderr: Printed::Text(String::new()), code: 0 }
}

fn fail(message: &str) -> (o: Outcome)
    ensures
        o.view() == fail_view(message@),
{
    let mut v = chars_of(message);
    push_str(&mut v, "\n");
    Outcome { stdout: Printed::Text(String::new()), stderr: Printed::Text(string_of(v.as_slice())), code: 1 }
}

fn usage(message: &str) -> (o: Outcome)
    ensures
        o.view() == usage_view(message@),
{
    let mut v: Vec<char> = Vec::new();
    push_str(&mut v, "usage: remctl (fake) ...\nremctl (fake): error: ");
    push_str(&mut v, message);
    push_str(&mut v, "\n");
    Outcome { stdout: Printed::Text(String::new()), stderr: Printed::Text(string_of(v.as_slice())), code: 2 }
}

fn fail_not_found(id: i64) -> (o: Outcome)
    ensures
        o.view() == not_found_view(id as int),
{
    let mut v: Vec<char> = Vec::new();
    push_str(&mut v, "Error: #");
    push_all(&mut v, decimal_signed(id).as_slice());
    push_str(&mut v, " not found");
    fail(string_of(v.as_slice()).as_str())
}

/// The outcome when the state could not be written.
pub fn save_failed(message: &str) -> (o: Outcome)
    ensures
        o.view() == fail_view("Error: "@ + message@),
{
    let mut v: Vec<char> = Vec::new();
    push_str(&mut v, "Error: ");
    push_str(&mut v, message);
    fail(string_of(v.as_slice()).as_str())
}

/// The first list with exactly this title, from `from` on.
pub open spec fn title_index(ls: Seq<Json>, name: Seq<char>, from: int) -> Option<int>
    decreases ls.len() - from,
{
    if from < 0 || from >= ls.len() {
        None
    } else if text_at(ls[from], "title"@) == name {
        Some(from)
    } else {
        title_index(ls, name, from + 1)
    }
}

/// The first list whose title matches ignoring case, from `from` on.
pub open spec fn folded_index(ls: Seq<Json>, name: Seq<char>, from: int) -> Option<int>
    decreases ls.len() - from,
{
    if from < 0 || from >= ls.len() {
        None
    } else if lowercase(text_at(ls[from], "title"@)) == lowercase(name) {
        Some(from)
    } else {
        folded_index(ls, name, from + 1)
    }
}

/// The list a name picks: an exact title first, else one equal ignoring case.
pub open spec fn list_index(ls: Seq<Json>, name: Seq<char>) -> Option<int> {
    match title_index(ls, name, 0) {
        Some(i) => Some(i),
        None => folded_index(ls, name, 0),
    }
}

fn find_list(ls: &Vec<Json>, name: &str) -> (r: Option<usize>)
    ensures
        match r {
            Some(i) => i < ls@.len() && list_index(ls@, name@) == Some(i as int),
            None => list_index(ls@, name@) is None,
        },
{
    let mut i: usize = 0;
    while i < ls.len()
        invariant
            i <= ls@.len(),
            title_index(ls@, name@, 0) == title_index(ls@, name@, i as int),
        decreases ls.len() - i,
    {
        if same_str(text_of(&ls[i], "title").as_str(), name) {
            return Some(i);
        }
        i += 1;
    }
    let folded = to_lower(name);
    let mut j: usize = 0;
    while j < ls.len()
        invariant
            j <= ls@.len(),
            title_index(ls@, name@, 0) is None,
            folded@ == lowercase(name@),
            folded_index(ls@, name@, 0) == folded_index(ls@, name@, j as int),
        decreases ls.len() - j,
    {
        if same_str(to_lower(text_of(&ls[j], "title").as_str()).as_str(), folded.as_str()) {
            return Some(j);
        }
        j += 1;
    }
    None
}

/// A row's numeric id, when it has one.
pub open spec fn row_id(r: Json) -> Option<i64> {
    match json_get(r, "id"@) {
        Some(Json::Number(n)) => n.int,
        _ => None,
    }
}

/// The first row with this id, from `from` on.
pub open spec fn id_index(rs: Seq<Json>, id: int, from: int) -> Option<int>
    decreases rs.len() - from,
{
    if from < 0 || from >= rs.len() {
        None
    } else if row_id(rs[from]) == Some(id as i64) {
        Some(from)
    } else {
        id_index(rs, id, from + 1)
    }
}

fn find_row(rs: &Vec<Json>, id: i64) -> (r: Option<usize>)
    ensures
        r matches Some(i) ==> i < rs@.len() && id_index(rs@, id as int, 0) == Some(i as int),
        r is None ==> id_index(rs@, id as int, 0) is None,
{
    let mut i: usize = 0;
    while i < rs.len()
        invariant
            i <= rs@.len(),
            id_index(rs@, id as int, 0) == id_index(rs@, id as int, i as int),
        decreases rs.len() - i,
    {
        let rid = match rs[i].get("id") {
            Some(v) => v.as_i64(),
            None => None,
        };
        if rid == Some(id) {
            return Some(i);
        }
        i += 1;
    }
    None
}

/// The id the first positional argument gives, if it parses.
pub open spec fn arg_id(args: ArgsView) -> Option<int> {
    if args.0.len() > 0 {
        parse_int(args.0[0])
    } else {
        None
    }
}

fn parse_id(args: &Args) -> (r: Result<i64, Outcome>)
    ensures
        match r {
            Ok(id) => arg_id(args.view()) == Some(id as int),
            Err(o) => arg_id(args.view()) is None && o.view() == id_error_view(),
        },
{
    if args.positional.len() == 0 {
        return Err(usage("argument id: invalid int value"));
    }
    let v = chars_of(args.positional[0].as_str());
    assert(args.view().0[0] == args.positional@[0]@);
    match parse_i64(v.as_slice()) {
        Some(id) => Ok(id),
        None => Err(usage("argument id: invalid int value")),
    }
}

/// A list as remctl serializes it, with the counts of its reminders.
pub open spec fn list_view(l: Json, rems: Seq<Json>) -> JsonView {
    let title = text_at(l, "title"@);
    let color = if text_at(l, "color"@).len() == 0 {
        "blue"@
    } else {
        text_at(l, "color"@)
    };
    let total = picked(rems, Sel::InList(title, true)).len();
    let active = picked(rems, Sel::InList(title, false)).len();
    let emoji = text_at(l, "emoji"@);
    let base = seq![
        ("id"@, member_at(l, "id"@)),
        ("title"@, JsonView::Str(title)),
        ("listType"@, JsonView::Str(if title == "Groceries"@ {
            "groceries"@
        } else {
            "standard"@
        })),
        ("isGroup"@, JsonView::Bool(false)),
        ("isGroceries"@, JsonView::Bool(title == "Groceries"@)),
        ("color"@, JsonView::Object(seq![("name"@, JsonView::Str(color)), ("hex"@, JsonView::Str(color_hex_of(color)))])),
        ("counts"@, JsonView::Object(seq![
            ("active"@, json_count_view(active)),
            ("completed"@, json_count_view((total - active) as nat)),
            ("total"@, json_count_view(total)),
        ])),
    ];
    JsonView::Object(if emoji.len() > 0 {
        base.push(("badge"@, JsonView::Object(seq![("raw"@, JsonView::Str(emoji)), ("emoji"@, JsonView::Str(emoji))])))
    } else {
        base
    })
}

pub open spec fn list_views(ls: Seq<Json>, rems: Seq<Json>) -> Seq<JsonView>
    decreases ls.len(),
{
    if ls.len() == 0 {
        Seq::empty()
    } else {
        list_views(ls.drop_last(), rems).push(list_view(ls.last(), rems))
    }
}

/// How many rows are in the list, and how many of those are active.
fn list_counts(rems: &Vec<Json>, title: &String) -> (r: (usize, usize))
    ensures
        r.0 == picked(rems@, Sel::InList(title@, true)).len(),
        r.1 == picked(rems@, Sel::InList(title@, false)).len(),
        r.1 <= r.0,
{
    let mut total: usize = 0;
    let mut active: usize = 0;
    let mut i: usize = 0;
    while i < rems.len()
        invariant
            i <= rems@.len(),
            total == picked(rems@.take(i as int), Sel::InList(title@, true)).len(),
            active == picked(rems@.take(i as int), Sel::InList(title@, false)).len(),
            active <= total <= i,
        decreases rems.len() - i,
    {
        proof {
            assert(rems@.take(i + 1).drop_last() =~= rems@.take(i as int));
        }
        if same_str(text_of(&rems[i], "list").as_str(), title.as_str()) {
            total += 1;
            if !flag_of(&rems[i], "completed") {
                active += 1;
            }
        }
        i += 1;
    }
    assert(rems@.take(rems@.len() as int) =~= rems@);
    (total, active)
}

fn pair_object(k1: &str, v1: Json, k2: &str, v2: Json) -> (r: Json)
    ensures
        jv(r) == JsonView::Object(seq![(k1@, jv(v1)), (k2@, jv(v2))]),
{
    let mut es: Vec<(String, Json)> = Vec::new();
    put(&mut es, k1, v1);
    put(&mut es, k2, v2);
    assert(crate::json::jv_entries(es@) =~= seq![(k1@, jv(v1)), (k2@, jv(v2))]);
    Json::object(es)
}

fn list_json(l: &Json, rems: &Vec<Json>) -> (r: Json)
    ensures
        jv(r) == list_view(*l, rems@),
{
    let title = text_of(l, "title");
    let color0 = text_of(l, "color");
    let color = if color0.as_str().is_empty() {
        string_of(chars_of("blue").as_slice())
    } else {
        color0
    };
    let (total, active) = list_counts(rems, &title);
    let groceries = same_str(title.as_str(), "Groceries");
    let mut es: Vec<(String, Json)> = Vec::new();
    put(&mut es, "id", member_of(l, "id"));
    put(&mut es, "title", Json::Str(title.clone()));
    put(&mut es, "listType", Json::text(if groceries { "groceries" } else { "standard" }));
    put(&mut es, "isGroup", Json::Bool(false));
    put(&mut es, "isGroceries", Json::Bool(groceries));
    let hex = list_color(color.as_str());
    put(&mut es, "color", pair_object("name", Json::Str(color), "hex", Json::text(hex)));
    let mut counts: Vec<(String, Json)> = Vec::new();
    put(&mut counts, "active", Json::count(active));
    put(&mut counts, "completed", Json::count(total - active));
    put(&mut counts, "total", Json::count(total));
    assert(crate::json::jv_entries(counts@) =~= seq![
        ("active"@, json_count_view(active as nat)),
        ("completed"@, json_count_view((total - active) as nat)),
        ("total"@, json_count_view(total as nat)),
    ]);
    put(&mut es, "counts", Json::object(counts));
    assert(crate::json::jv_entries(es@) =~~= (match list_view(*l, rems@) {
        JsonView::Object(e) => e.take(7),
        _ => Seq::empty(),
    }));
    let emoji = text_of(l, "emoji");
    if !emoji.as_str().is_empty() {
        put(&mut es, "badge", pair_object("raw", Json::Str(emoji.clone()), "emoji", Json::Str(emoji)));
    }
    proof {
        assert(crate::json::jv_entries(es@) =~~= list_view(*l, rems@)->Object_0);
    }
    Json::object(es)
}

/// The lists, serialized with their counts.
fn lists_json(ls: &Vec<Json>, rems: &Vec<Json>) -> (r: Vec<Json>)
    ensures
        crate::json::jv_items(r@) == list_views(ls@, rems@),
{
    let mut out: Vec<Json> = Vec::new();
    let mut i: usize = 0;
    proof {
        lemma_jv_items_push(out@, Json::Null);
    }
    while i < ls.len()
        invariant
            i <= ls@.len(),
            crate::json::jv_items(out@) == list_views(ls@.take(i as int), rems@),
        decreases ls.len() - i,
    {
        proof {
            assert(ls@.take(i + 1).drop_last() =~= ls@.take(i as int));
        }
        let v = list_json(&ls[i], rems);
        proof {
            lemma_jv_items_push(out@, v);
        }
        out.push(v);
        i += 1;
    }
    assert(ls@.take(ls@.len() as int) =~= ls@);
    out
}

/// The options of remctl's commands that take a value.
pub open spec fn remctl_value_options() -> Seq<Seq<char>> {
    seq!["list"@, "notes"@, "due"@, "priority"@, "tags"@, "url"@, "title"@]
}

/// remctl's short option names.
pub open spec fn remctl_aliases() -> Seq<(Seq<char>, Seq<char>)> {
    seq![("l"@, "list"@), ("n"@, "notes"@), ("d"@, "due"@), ("p"@, "priority"@), ("f"@, "flag"@), ("t"@, "tags"@)]
}

/// The command line parsed, or the usage error it gives.
pub open spec fn remctl_arguments(argv: Seq<Seq<char>>) -> Result<ArgsView, OutcomeView> {
    if argv.len() == 0 {
        Err((silent(), PrintedView::Text(
            "usage: remctl (fake) command ...\nremctl (fake): error: the following arguments are required: command\n"@,
        ), 2))
    } else {
        match parse_from(argv.drop_first(), remctl_value_options(), remctl_aliases(), 0, (Seq::empty(), Seq::empty(), Seq::empty()), false) {
            Ok(a) => Ok(a),
            Err(e) => Err(usage_view(e)),
        }
    }
}

/// Parse the command line; the usage error when it does not parse. The
/// state file is read only after this succeeds.
pub fn arguments(argv: &[String]) -> (r: Result<Args, Outcome>)
    ensures
        match r {
            Ok(a) => remctl_arguments(string_views(argv@)) == Ok::<ArgsView, OutcomeView>(a.view()),
            Err(o) => remctl_arguments(string_views(argv@)) == Err::<ArgsView, OutcomeView>(o.view()),
        },
{
    if argv.len() == 0 {
        let text = string_of(chars_of(
            "usage: remctl (fake) command ...\nremctl (fake): error: the following arguments are required: command\n",
        ).as_slice());
        return Err(Outcome { stdout: Printed::Text(String::new()), stderr: Printed::Text(text), code: 2 });
    }
    let rest = super::args::tail_of(argv);
    assert(string_views(rest@) =~= string_views(argv@).drop_first());
    let takes = vec!["list", "notes", "due", "priority", "tags", "url", "title"];
    assert(super::args::str_views(takes@) =~= remctl_value_options());
    let aliases = vec![("l", "list"), ("n", "notes"), ("d", "due"), ("p", "priority"), ("f", "flag"), ("t", "tags")];
    assert(super::args::alias_views(aliases@) =~= remctl_aliases());
    match Args::parse(rest.as_slice(), takes.as_slice(), aliases.as_slice()) {
        Ok(a) => Ok(a),
        Err(e) => Err(usage(e.as_str())),
    }
}

/// How many days ahead `upcoming` looks: the first argument, or a week.
pub open spec fn upcoming_days(args: ArgsView) -> int {
    match arg_id(args) {
        Some(n) => n,
        None => 7,
    }
}

/// `show`: the reminders of one list.
pub open spec fn show_view(args: ArgsView, ls: Seq<Json>, rems: Seq<Json>) -> OutcomeView {
    if args.0.len() == 0 {
        fail_view("usage: remctl (fake) show [--json] [--completed] list"@)
    } else {
        match list_index(ls, args.0[0]) {
            None => fail_view("Error: list '"@ + args.0[0] + "' not found"@),
            Some(i) => listed_view(
                picked(rems, Sel::InList(text_at(ls[i], "title"@), args.2.contains("completed"@))),
            ),
        }
    }
}

/// `search`: reminders whose title or notes hold the query, ignoring case.
pub open spec fn search_view(args: ArgsView, rems: Seq<Json>) -> OutcomeView {
    if args.0.len() == 0 {
        fail_view("usage: remctl (fake) search [--json] [--completed] query"@)
    } else {
        listed_view(picked(rems, Sel::Search(lowercase(args.0[0]), args.2.contains("completed"@))))
    }
}

/// One reminder in full, with its (empty) subtasks.
pub open spec fn info_payload(row: Json) -> JsonView {
    JsonView::Object(reminder_view(row)->Object_0.push(("subtasks"@, JsonView::Array(Seq::empty()))))
}

/// `info`: one reminder by id.
pub open spec fn info_view(args: ArgsView, rems: Seq<Json>) -> OutcomeView {
    match arg_id(args) {
        None => id_error_view(),
        Some(id) => match id_index(rems, id, 0) {
            None => not_found_view(id),
            Some(p) => ok_view(PrintedView::Pretty(info_payload(rems[p]))),
        },
    }
}

fn listed(rows: &Vec<Json>, p: Pick) -> (o: Outcome)
    ensures
        o.view() == listed_view(picked(rows@, p.view())),
{
    ok_out(Printed::Pretty(Json::array(emit_rows(rows, &p))))
}

fn show(args: &Args, ls: &Vec<Json>, rems: &Vec<Json>) -> (o: Outcome)
    ensures
        o.view() == show_view(args.view(), ls@, rems@),
{
    if args.positional.len() == 0 {
        return fail("usage: remctl (fake) show [--json] [--completed] list");
    }
    let name = args.positional[0].as_str();
    assert(name@ == args.view().0[0]);
    match find_list(ls, name) {
        None => fail(joined("Error: list '", name, "' not found").as_str()),
        Some(i) => {
            let title = text_of(&ls[i], "title");
            listed(rems, Pick::InList(title, args.flag("completed")))
        },
    }
}

fn search(args: &Args, rems: &Vec<Json>) -> (o: Outcome)
    ensures
        o.view() == search_view(args.view(), rems@),
{
    if args.positional.len() == 0 {
        return fail("usage: remctl (fake) search [--json] [--completed] query");
    }
    assert(args.positional@[0]@ == args.view().0[0]);
    let needle = to_lower(args.positional[0].as_str());
    listed(rems, Pick::Search(needle, args.flag("completed")))
}

fn info(args: &Args, rems: &Vec<Json>) -> (o: Outcome)
    ensures
        o.view() == info_view(args.view(), rems@),
{
    let id = match parse_id(args) {
        Ok(id) => id,
        Err(o) => {
            return o;
        },
    };
    match find_row(rems, id) {
        None => fail_not_found(id),
        Some(p) => {
            let row = serialize_reminder(&rems[p]);
            let payload = match row {
                Json::Object(mut es, text) => {
                    put(&mut es, "subtasks", Json::array(Vec::new()));
                    Json::Object(es, text)
                },
                other => other,
            };
            ok_out(Printed::Pretty(payload))
        },
    }
}

/// The id the next added reminder takes.
pub open spec fn next_id_of(st: Json) -> int {
    match json_get(st, "next_id"@) {
        Some(Json::Number(n)) => match n.int {
            Some(v) => v as int,
            None => 200,
        },
        _ => 200,
    }
}

/// The state with its reminders replaced.
pub open spec fn with_rows(st: Json, rows: Seq<JsonView>) -> JsonView {
    JsonView::Object(entries_set(entries_of(st), "reminders"@, JsonView::Array(rows)))
}

/// The entries without any named `key`.
pub open spec fn entries_without(es: Seq<(Seq<char>, JsonView)>, key: Seq<char>) -> Seq<(Seq<char>, JsonView)>
    decreases es.len(),
{
    if es.len() == 0 {
        Seq::empty()
    } else if es[0].0 == key {
        entries_without(es.drop_first(), key)
    } else {
        seq![es[0]] + entries_without(es.drop_first(), key)
    }
}

/// A row's fields once it is completed at the time `stamp`.
pub open spec fn completed_fields(es: Seq<(Seq<char>, JsonView)>, stamp: Seq<char>) -> Seq<(Seq<char>, JsonView)> {
    entries_set(entries_set(es, "completed"@, JsonView::Bool(true)), "completionDate"@, JsonView::Str(stamp))
}

/// A row's fields once it is reopened.
pub open spec fn reopened_fields(es: Seq<(Seq<char>, JsonView)>) -> Seq<(Seq<char>, JsonView)> {
    entries_without(entries_set(es, "completed"@, JsonView::Bool(false)), "completionDate"@)
}

/// The error for a due phrase that does not parse.
pub open spec fn invalid_due_view(value: Seq<char>) -> OutcomeView {
    (silent(), PrintedView::Compact(JsonView::Object(seq![
        ("status"@, JsonView::Str("error"@)),
        ("code"@, JsonView::Str("invalid_due_date"@)),
        ("message"@, JsonView::Str("Could not parse due date: "@ + python_repr(value))),
        ("field"@, JsonView::Str("due"@)),
        ("input"@, JsonView::Str(value)),
        ("examples"@, JsonView::Array(seq![
            JsonView::Str("2026-06-01"@),
            JsonView::Str("tomorrow 09:30"@),
            JsonView::Str("today at 3pm"@),
            JsonView::Str("+3d"@),
        ])),
    ])), 2)
}

/// A row's fields after a due argument: cleared by `clear`, else set from
/// what the phrase parses to, or the error when it does not parse.
pub open spec fn due_applied(
    es: Seq<(Seq<char>, JsonView)>,
    value: Seq<char>,
    res: Result<(Seq<char>, bool), Seq<char>>,
) -> Result<Seq<(Seq<char>, JsonView)>, OutcomeView> {
    if value == "clear"@ {
        Ok(entries_set(entries_set(es, "dueDate"@, JsonView::Str(Seq::empty())), "allDay"@, JsonView::Bool(false)))
    } else {
        match res {
            Ok((stamp, all_day)) => Ok(
                entries_set(entries_set(es, "dueDate"@, JsonView::Str(stamp)), "allDay"@, JsonView::Bool(all_day)),
            ),
            Err(_) => Err(invalid_due_view(value)),
        }
    }
}

/// `res` is what the due phrase, where one is applied, parses to.
pub open spec fn due_parse(value: Option<Seq<char>>, now: DateTime, res: Result<(Seq<char>, bool), Seq<char>>) -> bool {
    match value {
        Some(v) => v == "clear"@ || due_result(v, now, res),
        None => true,
    }
}

/// The fields after an optional due argument.
pub open spec fn maybe_due(
    es: Seq<(Seq<char>, JsonView)>,
    value: Option<Seq<char>>,
    res: Result<(Seq<char>, bool), Seq<char>>,
) -> Result<Seq<(Seq<char>, JsonView)>, OutcomeView> {
    match value {
        Some(v) => due_applied(es, v, res),
        None => Ok(es),
    }
}

/// The due argument `add` applies: a non-empty one.
pub open spec fn add_due(args: ArgsView) -> Option<Seq<char>> {
    match option_get(args.1, "due"@) {
        Some(d) => if d.len() > 0 {
            Some(d)
        } else {
            None
        },
        None => None,
    }
}

/// An option's value, or "".
pub open spec fn opt_text(args: ArgsView, name: Seq<char>) -> Seq<char> {
    match option_get(args.1, name) {
        Some(v) => v,
        None => Seq::empty(),
    }
}

/// The priority `add` sets, or the value it refuses.
pub open spec fn add_priority(p: Option<Seq<char>>) -> Result<Seq<char>, Seq<char>> {
    match p {
        Some(v) => if v.len() > 0 {
            match priority_named(v) {
                Some(w) => Ok(w),
                None => Err(v),
            }
        } else {
            Ok("none"@)
        },
        None => Ok("none"@),
    }
}

/// Comma separated tags, trimmed, empty ones dropped.
pub open spec fn tag_views(parts: Seq<Seq<char>>) -> Seq<JsonView>
    decreases parts.len(),
{
    if parts.len() == 0 {
        Seq::empty()
    } else {
        let prev = tag_views(parts.drop_last());
        if trim(parts.last()).len() > 0 {
            prev.push(JsonView::Str(trim(parts.last())))
        } else {
            prev
        }
    }
}

/// A new reminder as `add` writes it.
pub open spec fn new_row(
    id: int,
    title: Seq<char>,
    list: Seq<char>,
    flagged: bool,
    priority: Seq<char>,
    notes: Seq<char>,
    tags: Seq<JsonView>,
) -> Seq<(Seq<char>, JsonView)> {
    seq![
        ("id"@, json_int_view(id)),
        ("title"@, JsonView::Str(title)),
        ("list"@, JsonView::Str(list)),
        ("completed"@, JsonView::Bool(false)),
        ("flagged"@, JsonView::Bool(flagged)),
        ("urgent"@, JsonView::Bool(false)),
        ("priority"@, JsonView::Str(priority)),
        ("notes"@, JsonView::Str(notes)),
        ("tags"@, JsonView::Array(tags)),
        ("dueDate"@, JsonView::Str(Seq::empty())),
        ("allDay"@, JsonView::Bool(false)),
    ]
}

/// The row `add` builds before its due date: fields, then a non-empty url.
pub open spec fn added_row(args: ArgsView, id: int, list: Seq<char>, flagged: bool, priority: Seq<char>) -> Seq<(Seq<char>, JsonView)> {
    let row = new_row(id, args.0[0], list, flagged, priority, opt_text(args, "notes"@), tag_views(
        split_on(opt_text(args, "tags"@), ','),
    ));
    if opt_text(args, "url"@).len() > 0 {
        row.push(("url"@, JsonView::Str(opt_text(args, "url"@))))
    } else {
        row
    }
}

/// What `add` reports.
pub open spec fn created_payload(id: int, title: Seq<char>, warn: bool) -> Seq<(Seq<char>, JsonView)> {
    let base = seq![
        ("status"@, JsonView::Str("created"@)),
        ("id"@, JsonView::Str("FAKE-CK-"@ + dec_signed(id))),
        ("title"@, JsonView::Str(title)),
        ("numericId"@, json_int_view(id)),
    ];
    if warn {
        base.push(("warnings"@, JsonView::Array(seq![
            JsonView::Str("flag_not_set: osascript: Automation permission denied (-1743)"@),
        ])))
    } else {
        base
    }
}

/// What `add` settles before its due date: the new id and row, or the
/// error that stops it.
pub open spec fn add_prep(args: ArgsView, st: Json, flag_fails: bool) -> Result<(int, Seq<(Seq<char>, JsonView)>), OutcomeView> {
    let ls = lists_of(st);
    if args.0.len() == 0 {
        Err(fail_view("usage: remctl (fake) add [--json] title"@))
    } else {
        let list_name = match option_get(args.1, "list"@) {
            Some(l) => l,
            None => if ls.len() > 0 {
                text_at(ls[0], "title"@)
            } else {
                Seq::empty()
            },
        };
        match list_index(ls, list_name) {
            None => Err(fail_view("Error: list '"@ + list_name + "' not found"@)),
            Some(i) => match add_priority(option_get(args.1, "priority"@)) {
                Err(p) => Err(fail_view("Error: invalid priority '"@ + p + "'"@)),
                Ok(priority) => Ok((
                    next_id_of(st),
                    added_row(args, next_id_of(st), text_at(ls[i], "title"@), args.2.contains("flag"@) && !flag_fails, priority),
                )),
            },
        }
    }
}

/// `add` once its due phrase parsed to `res`: the state with the new row
/// and the next id counted up, and the report.
pub open spec fn add_finish(
    args: ArgsView,
    st: Json,
    flag_fails: bool,
    id: int,
    row: Seq<(Seq<char>, JsonView)>,
    res: Result<(Seq<char>, bool), Seq<char>>,
) -> StepView {
    match maybe_due(row, add_due(args), res) {
        Err(o) => StepView::Finish(o),
        Ok(r) => StepView::Save(
            JsonView::Object(entries_set(
                entries_set(entries_of(st), "next_id"@, json_int_view(id + 1)),
                "reminders"@,
                JsonView::Array(crate::json::jv_items(reminders_of(st)).push(JsonView::Object(r))),
            )),
            status_view(created_payload(id, args.0[0], args.2.contains("flag"@) && flag_fails)),
        ),
    }
}

/// `r` is what `add` does at `now`.
pub open spec fn add_step(args: ArgsView, st: Json, now: DateTime, flag_fails: bool, r: StepView) -> bool {
    match add_prep(args, st, flag_fails) {
        Err(o) => r == StepView::Finish(o),
        Ok((id, row)) => exists|res: Result<(Seq<char>, bool), Seq<char>>|
            #[trigger] due_parse(add_due(args), now, res) && r == add_finish(args, st, flag_fails, id, row, res),
    }
}

/// The message for an edit of the flag, which needs private access.
pub open spec fn private_message() -> Seq<char> {
    "Error: synced tag replacement/removal, grocery, section, assignment, subtask, image, urgent, early-reminder, flagged, and location writes require --private."@
}

/// A priority word `edit` accepts.
pub open spec fn priority_ok(p: Seq<char>) -> bool {
    p == "high"@ || p == "medium"@ || p == "low"@ || p == "none"@
}

/// The fields an edit sets before its due date, or the error that stops it.
pub open spec fn edited_fields(args: ArgsView, ls: Seq<Json>, row: Json) -> Result<Seq<(Seq<char>, JsonView)>, OutcomeView> {
    let es0 = entries_of(row);
    let es1 = match option_get(args.1, "title"@) {
        Some(t) => entries_set(es0, "title"@, JsonView::Str(t)),
        None => es0,
    };
    let es2 = match option_get(args.1, "notes"@) {
        Some(n) => entries_set(es1, "notes"@, JsonView::Str(n)),
        None => es1,
    };
    let bad = match option_get(args.1, "priority"@) {
        Some(p) => !priority_ok(lowercase(p)),
        None => false,
    };
    if bad {
        Err(fail_view("Error: invalid priority '"@ + option_get(args.1, "priority"@).unwrap() + "'"@))
    } else {
        let es3 = match option_get(args.1, "priority"@) {
            Some(p) => entries_set(es2, "priority"@, JsonView::Str(lowercase(p))),
            None => es2,
        };
        match option_get(args.1, "list"@) {
            None => Ok(es3),
            Some(l) => match list_index(ls, l) {
                None => Err(fail_view("Error: list '"@ + l + "' not found"@)),
                Some(i) => Ok(entries_set(es3, "list"@, member_at(ls[i], "title"@))),
            },
        }
    }
}

/// What `edit` settles before its due date: the id, the row's place and
/// its new fields, or the error that stops it.
pub open spec fn edit_prep(args: ArgsView, st: Json) -> Result<(int, int, Seq<(Seq<char>, JsonView)>), OutcomeView> {
    let rems = reminders_of(st);
    match arg_id(args) {
        None => Err(id_error_view()),
        Some(id) => if args.2.contains("flagged"@) || args.2.contains("no-flagged"@) {
            Err(fail_view(private_message()))
        } else {
            match id_index(rems, id, 0) {
                None => Err(not_found_view(id)),
                Some(pos) => match edited_fields(args, lists_of(st), rems[pos]) {
                    Err(o) => Err(o),
                    Ok(es) => Ok((id, pos, es)),
                },
            }
        },
    }
}

/// `edit` once its due phrase parsed to `res`.
pub open spec fn edit_finish(
    args: ArgsView,
    st: Json,
    id: int,
    pos: int,
    es: Seq<(Seq<char>, JsonView)>,
    res: Result<(Seq<char>, bool), Seq<char>>,
) -> StepView {
    match maybe_due(es, option_get(args.1, "due"@), res) {
        Err(o) => StepView::Finish(o),
        Ok(es2) => StepView::Save(
            with_rows(st, crate::json::jv_items(reminders_of(st)).update(pos, JsonView::Object(es2))),
            status_view(seq![("status"@, JsonView::Str("updated"@)), ("id"@, json_int_view(id))]),
        ),
    }
}

/// `r` is what `edit` does at `now`.
pub open spec fn edit_step(args: ArgsView, st: Json, now: DateTime, r: StepView) -> bool {
    match edit_prep(args, st) {
        Err(o) => r == StepView::Finish(o),
        Ok((id, pos, es)) => exists|res: Result<(Seq<char>, bool), Seq<char>>|
            #[trigger] due_parse(option_get(args.1, "due"@), now, res) && r == edit_finish(args, st, id, pos, es, res),
    }
}

/// `done` and `undone`.
pub open spec fn done_view(args: ArgsView, st: Json, now: DateTime, done: bool) -> StepView {
    let rems = reminders_of(st);
    match arg_id(args) {
        None => StepView::Finish(id_error_view()),
        Some(id) => match id_index(rems, id, 0) {
            None => StepView::Finish(not_found_view(id)),
            Some(pos) => {
                let es = entries_of(rems[pos]);
                let es2 = if done {
                    completed_fields(es, stamp_text(now))
                } else {
                    reopened_fields(es)
                };
                StepView::Save(
                    with_rows(st, crate::json::jv_items(rems).update(pos, JsonView::Object(es2))),
                    status_view(seq![
                        ("status"@, JsonView::Str(if done { "completed"@ } else { "uncompleted"@ })),
                        ("id"@, json_int_view(id)),
                        ("title"@, member_at(rems[pos], "title"@)),
                    ]),
                )
            },
        },
    }
}

/// The error when the flag cannot be written.
pub open spec fn flag_fail_view(id: int) -> OutcomeView {
    (silent(), PrintedView::Compact(JsonView::Object(seq![
        ("status"@, JsonView::Str("error"@)),
        ("code"@, JsonView::Str("applescript_flag_failed"@)),
        ("id"@, json_int_view(id)),
        ("message"@, JsonView::Str("Could not set the flag: osascript: Automation permission denied (-1743)"@)),
    ])), 1)
}

/// `flag` and `unflag`.
pub open spec fn flag_view(args: ArgsView, st: Json, flag_fails: bool, flagged: bool) -> StepView {
    let rems = reminders_of(st);
    match arg_id(args) {
        None => StepView::Finish(id_error_view()),
        Some(id) => match id_index(rems, id, 0) {
            None => StepView::Finish(not_found_view(id)),
            Some(pos) => if flag_fails {
                StepView::Finish(flag_fail_view(id))
            } else {
                StepView::Save(
                    with_rows(st, crate::json::jv_items(rems).update(pos, JsonView::Object(
                        entries_set(entries_of(rems[pos]), "flagged"@, JsonView::Bool(flagged)),
                    ))),
                    status_view(seq![
                        ("status"@, JsonView::Str(if flagged { "flagged"@ } else { "unflagged"@ })),
                        ("id"@, json_int_view(id)),
                        ("title"@, member_at(rems[pos], "title"@)),
                    ]),
                )
            },
        },
    }
}

/// `delete`: only with `--force`; without it nothing changes.
pub open spec fn delete_view(args: ArgsView, st: Json) -> StepView {
    let rems = reminders_of(st);
    match arg_id(args) {
        None => StepView::Finish(id_error_view()),
        Some(id) => match id_index(rems, id, 0) {
            None => StepView::Finish(not_found_view(id)),
            Some(pos) => if !args.2.contains("force"@) {
                StepView::Finish(ok_view(PrintedView::Text("Cancelled.\n"@)))
            } else {
                StepView::Save(
                    with_rows(st, crate::json::jv_items(rems).remove(pos)),
                    status_view(seq![
                        ("status"@, JsonView::Str("deleted"@)),
                        ("id"@, json_int_view(id)),
                        ("title"@, member_at(rems[pos], "title"@)),
                    ]),
                )
            },
        },
    }
}

/// A parse result as plain values.
pub open spec fn res_view(r: Result<(String, bool), String>) -> Result<(Seq<char>, bool), Seq<char>> {
    match r {
        Ok((s, b)) => Ok((s@, b)),
        Err(e) => Err(e@),
    }
}

/// What `add` needs of the state and the clock to finish without a fault:
/// a due phrase whose days exist, an array of reminders to add to, and a
/// next id that can still be counted up.
pub open spec fn add_defined(args: ArgsView, st: Json, now: DateTime) -> bool {
    &&& (add_due(args) matches Some(d) ==> (d != "clear"@ ==> due_defined(d, now)))
    &&& json_get(st, "reminders"@) matches Some(Json::Array(_, _))
    &&& next_id_of(st) < i64::MAX
}

fn fail_invalid_due(value: &str) -> (o: Outcome)
    ensures
        o.view() == invalid_due_view(value@),
{
    let mut es: Vec<(String, Json)> = Vec::new();
    put(&mut es, "status", Json::text("error"));
    put(&mut es, "code", Json::text("invalid_due_date"));
    let mut m = chars_of("Could not parse due date: ");
    push_str(&mut m, py_repr(value).as_str());
    put(&mut es, "message", Json::Str(string_of(m.as_slice())));
    put(&mut es, "field", Json::text("due"));
    put(&mut es, "input", Json::text(value));
    let mut ex: Vec<Json> = Vec::new();
    let e1 = Json::text("2026-06-01");
    proof {
        lemma_jv_items_push(ex@, e1);
    }
    ex.push(e1);
    let e2 = Json::text("tomorrow 09:30");
    proof {
        lemma_jv_items_push(ex@, e2);
    }
    ex.push(e2);
    let e3 = Json::text("today at 3pm");
    proof {
        lemma_jv_items_push(ex@, e3);
    }
    ex.push(e3);
    let e4 = Json::text("+3d");
    proof {
        lemma_jv_items_push(ex@, e4);
    }
    ex.push(e4);
    assert(crate::json::jv_items(ex@) =~= seq![
        JsonView::Str("2026-06-01"@),
        JsonView::Str("tomorrow 09:30"@),
        JsonView::Str("today at 3pm"@),
        JsonView::Str("+3d"@),
    ]);
    put(&mut es, "examples", Json::array(ex));
    assert(crate::json::jv_entries(es@) =~~= seq![
        ("status"@, JsonView::Str("error"@)),
        ("code"@, JsonView::Str("invalid_due_date"@)),
        ("message"@, JsonView::Str("Could not parse due date: "@ + python_repr(value@))),
        ("field"@, JsonView::Str("due"@)),
        ("input"@, JsonView::Str(value@)),
        ("examples"@, JsonView::Array(seq![
            JsonView::Str("2026-06-01"@),
            JsonView::Str("tomorrow 09:30"@),
            JsonView::Str("today at 3pm"@),
            JsonView::Str("+3d"@),
        ])),
    ]);
    let doc = Json::object(es);
    assert(jv(doc) =~~= invalid_due_view(value@).1->Compact_0);
    Outcome { stdout: Printed::Text(String::new()), stderr: Printed::Compact(doc), code: 2 }
}

/// Parse a due argument, unless it is `clear`.
fn parse_due_arg(value: &str, now: DateTime) -> (r: Result<(String, bool), String>)
    requires
        valid_datetime(now),
        value@ != "clear"@ ==> due_defined(value@, now),
    ensures
        value@ == "clear"@ || due_result(value@, now, res_view(r)),
{
    if same_str(value, "clear") {
        Err(String::new())
    } else {
        parse_due_input(value, now)
    }
}

/// Set a row's due fields from a due argument and what it parsed to.
fn set_due(es: Vec<(String, Json)>, value: &str, res: Result<(String, bool), String>) -> (r: Result<Vec<(String, Json)>, Outcome>)
    ensures
        match r {
            Ok(v) => due_applied(crate::json::jv_entries(es@), value@, res_view(res)) == Ok::<
                Seq<(Seq<char>, JsonView)>,
                OutcomeView,
            >(crate::json::jv_entries(v@)),
            Err(o) => due_applied(crate::json::jv_entries(es@), value@, res_view(res)) == Err::<
                Seq<(Seq<char>, JsonView)>,
                OutcomeView,
            >(o.view()),
        },
{
    let mut es = es;
    if same_str(value, "clear") {
        crate::json::set_entry(&mut es, "dueDate", Json::Str(String::new()));
        crate::json::set_entry(&mut es, "allDay", Json::Bool(false));
        return Ok(es);
    }
    match res {
        Ok((stamp, all_day)) => {
            crate::json::set_entry(&mut es, "dueDate", Json::Str(stamp));
            crate::json::set_entry(&mut es, "allDay", Json::Bool(all_day));
            Ok(es)
        },
        Err(_) => Err(fail_invalid_due(value)),
    }
}

/// The reminders of a state, copied.
fn rows_of(st: &Json) -> (r: Vec<Json>)
    ensures
        crate::json::jv_items(r@) == crate::json::jv_items(reminders_of(*st)),
        r@.len() == reminders_of(*st).len(),
{
    match st.get("reminders") {
        Some(Json::Array(items, _)) => copy_items(items),
        _ => Vec::new(),
    }
}

/// The state with its reminders replaced.
fn state_with_rows(st: Json, rows: Vec<Json>) -> (r: Json)
    requires
        st matches Json::Object(_, _),
    ensures
        jv(r) == with_rows(st, crate::json::jv_items(rows@)),
{
    match st {
        Json::Object(mut es, text) => {
            crate::json::set_entry(&mut es, "reminders", Json::array(rows));
            Json::Object(es, text)
        },
        _ => Json::Null,
    }
}

/// The entries without `key`.
fn without_key(es: &Vec<(String, Json)>, key: &str) -> (r: Vec<(String, Json)>)
    ensures
        crate::json::jv_entries(r@) == entries_without(crate::json::jv_entries(es@), key@),
{
    let ghost all = crate::json::jv_entries(es@);
    let mut out: Vec<(String, Json)> = Vec::new();
    let mut i: usize = 0;
    proof {
        crate::json::lemma_jv_entries_len(es@);
        assert(all.skip(0) =~= all);
    }
    while i < es.len()
        invariant
            i <= es@.len(),
            all == crate::json::jv_entries(es@),
            all.len() == es@.len(),
            crate::json::jv_entries(out@) + entries_without(all.skip(i as int), key@) == entries_without(all, key@),
        decreases es.len() - i,
    {
        proof {
            crate::json::lemma_jv_entries_at(es@, i as int);
            assert(all.skip(i as int).drop_first() =~= all.skip(i + 1));
            assert(all.skip(i as int)[0] == all[i as int]);
        }
        if !same_str(es[i].0.as_str(), key) {
            let e = (es[i].0.clone(), es[i].1.copy());
            proof {
                lemma_jv_entries_push(out@, e);
                assert(crate::json::jv_entries(out@).push((e.0@, jv(e.1))) + entries_without(all.skip(i + 1), key@)
                    =~= crate::json::jv_entries(out@) + entries_without(all.skip(i as int), key@));
            }
            out.push(e);
        }
        i += 1;
    }
    assert(all.skip(i as int) =~= Seq::<(Seq<char>, JsonView)>::empty());
    assert(crate::json::jv_entries(out@) =~= crate::json::jv_entries(out@) + Seq::<(Seq<char>, JsonView)>::empty());
    out
}

/// The tags of a comma separated list.
fn tag_list(text: &str) -> (r: Vec<Json>)
    ensures
        crate::json::jv_items(r@) == tag_views(split_on(text@, ',')),
{
    let parts = split_chars(chars_of(text).as_slice(), ',');
    let ghost ps = views(parts@);
    let mut out: Vec<Json> = Vec::new();
    let mut i: usize = 0;
    while i < parts.len()
        invariant
            i <= parts@.len(),
            ps == views(parts@),
            ps == split_on(text@, ','),
            crate::json::jv_items(out@) == tag_views(ps.take(i as int)),
        decreases parts.len() - i,
    {
        proof {
            assert(ps.take(i + 1).drop_last() =~= ps.take(i as int));
            assert(ps[i as int] == parts@[i as int]@);
        }
        let t = trim_chars(parts[i].as_slice());
        if t.len() > 0 {
            let v = Json::Str(string_of(t.as_slice()));
            proof {
                lemma_jv_items_push(out@, v);
            }
            out.push(v);
        }
        i += 1;
    }
    assert(ps.take(ps.len() as int) =~= ps);
    out
}

/// The row `add` builds, before its due date.
fn added_row_json(args: &Args, id: i64, list: String, flagged: bool, priority: &str) -> (r: Vec<(String, Json)>)
    requires
        args.view().0.len() > 0,
    ensures
        crate::json::jv_entries(r@) == added_row(args.view(), id as int, list@, flagged, priority@),
{
    let mut es: Vec<(String, Json)> = Vec::new();
    put(&mut es, "id", Json::integer(id));
    assert(args.positional@[0]@ == args.view().0[0]);
    put(&mut es, "title", Json::Str(args.positional[0].clone()));
    put(&mut es, "list", Json::Str(list));
    put(&mut es, "completed", Json::Bool(false));
    put(&mut es, "flagged", Json::Bool(flagged));
    put(&mut es, "urgent", Json::Bool(false));
    put(&mut es, "priority", Json::text(priority));
    let notes = match args.opt("notes") {
        Some(n) => n,
        None => "",
    };
    proof {
        reveal_strlit("");
    }
    assert(notes@ == opt_text(args.view(), "notes"@));
    put(&mut es, "notes", Json::text(notes));
    let tags = match args.opt("tags") {
        Some(t) => t,
        None => "",
    };
    assert(tags@ == opt_text(args.view(), "tags"@));
    let tl = tag_list(tags);
    assert(crate::json::jv_items(tl@) == tag_views(split_on(opt_text(args.view(), "tags"@), ',')));
    put(&mut es, "tags", Json::array(tl));
    put(&mut es, "dueDate", Json::Str(String::new()));
    put(&mut es, "allDay", Json::Bool(false));
    assert(crate::json::jv_entries(es@) =~= new_row(id as int, args.view().0[0], list@, flagged, priority@, opt_text(
        args.view(),
        "notes"@,
    ), tag_views(split_on(opt_text(args.view(), "tags"@), ','))));
    let url = match args.opt("url") {
        Some(u) => u,
        None => "",
    };
    if !url.is_empty() {
        put(&mut es, "url", Json::text(url));
    }
    es
}

fn created_json(id: i64, title: &str, warn: bool) -> (r: Json)
    ensures
        jv(r) == JsonView::Object(created_payload(id as int, title@, warn)),
{
    let mut es: Vec<(String, Json)> = Vec::new();
    put(&mut es, "status", Json::text("created"));
    let mut v = chars_of("FAKE-CK-");
    push_all(&mut v, decimal_signed(id).as_slice());
    put(&mut es, "id", Json::Str(string_of(v.as_slice())));
    put(&mut es, "title", Json::text(title));
    put(&mut es, "numericId", Json::integer(id));
    if warn {
        let w = Json::text("flag_not_set: osascript: Automation permission denied (-1743)");
        let mut ws: Vec<Json> = Vec::new();
        proof {
            lemma_jv_items_push(ws@, w);
        }
        ws.push(w);
        put(&mut es, "warnings", Json::array(ws));
    }
    assert(crate::json::jv_entries(es@) =~~= created_payload(id as int, title@, warn));
    Json::object(es)
}

/// `add`: a new reminder in the named (or first) list.
fn add_reminder(args: &Args, st: Json, now: DateTime, flag_fails: bool) -> (r: Step)
    requires
        valid_datetime(now),
        add_defined(args.view(), st, now),
    ensures
        add_step(args.view(), st, now, flag_fails, r.view()),
{
    let ghost av = args.view();
    let ghost st0 = st;
    if args.positional.len() == 0 {
        return Step::Finish(fail("usage: remctl (fake) add [--json] title"));
    }
    let title = args.positional[0].as_str();
    assert(title@ == av.0[0]);
    let ls_empty: Vec<Json> = Vec::new();
    let ls: &Vec<Json> = match st.get("lists") {
        Some(Json::Array(items, _)) => items,
        _ => &ls_empty,
    };
    assert(ls@ == lists_of(st));
    let list_name: String = match args.opt("list") {
        Some(l) => string_of(chars_of(l).as_slice()),
        None => if ls.len() > 0 {
            text_of(&ls[0], "title")
        } else {
            String::new()
        },
    };
    let idx = match find_list(ls, list_name.as_str()) {
        None => {
            return Step::Finish(fail(joined("Error: list '", list_name.as_str(), "' not found").as_str()));
        },
        Some(i) => i,
    };
    let list_title = text_of(&ls[idx], "title");
    let priority: &str = match args.opt("priority") {
        Some(p) => if p.is_empty() {
            "none"
        } else {
            match priority_alias(p) {
                Some(w) => w,
                None => {
                    return Step::Finish(fail(joined("Error: invalid priority '", p, "'").as_str()));
                },
            }
        },
        None => "none",
    };
    assert(add_priority(option_get(av.1, "priority"@)) == Ok::<Seq<char>, Seq<char>>(priority@)) by {
        reveal_strlit("none");
    }
    let id: i64 = match st.get("next_id") {
        Some(v) => match v.as_i64() {
            Some(n) => n,
            None => 200,
        },
        None => 200,
    };
    assert(id as int == next_id_of(st));
    let flag = args.flag("flag");
    let row = added_row_json(args, id, list_title, flag && !flag_fails, priority);
    let due: Option<&str> = match args.opt("due") {
        Some(d) => if d.is_empty() {
            None
        } else {
            Some(d)
        },
        None => None,
    };
    assert(match due {
        Some(d) => add_due(av) == Some(d@),
        None => add_due(av) is None,
    });
    let res = match due {
        Some(d) => parse_due_arg(d, now),
        None => Err(String::new()),
    };
    let ghost rv = res_view(res);
    assert(due_parse(add_due(av), now, rv));
    let row = match due {
        Some(d) => match set_due(row, d, res) {
            Ok(v) => v,
            Err(o) => {
                return Step::Finish(o);
            },
        },
        None => row,
    };
    let created = created_json(id, title, flag && flag_fails);
    let mut items = rows_of(&st);
    let ghost before = items@;
    let rj = Json::object(row);
    proof {
        lemma_jv_items_push(before, rj);
    }
    items.push(rj);
    let next = Json::integer(id + 1);
    let new_state = match st {
        Json::Object(mut es, text) => {
            crate::json::set_entry(&mut es, "next_id", next);
            crate::json::set_entry(&mut es, "reminders", Json::array(items));
            Json::Object(es, text)
        },
        _ => Json::Null,
    };
    Step::Save { state: new_state, then: ok_out(Printed::Compact(created)) }
}

/// What `edit` needs of the clock: a due phrase whose days exist.
pub open spec fn edit_defined(args: ArgsView, now: DateTime) -> bool {
    option_get(args.1, "due"@) matches Some(d) ==> (d != "clear"@ ==> due_defined(d, now))
}

/// The fields of a row, copied.
fn row_entries(row: &Json) -> (r: Vec<(String, Json)>)
    ensures
        crate::json::jv_entries(r@) == entries_of(*row),
{
    match row.copy() {
        Json::Object(es, _) => es,
        _ => Vec::new(),
    }
}

/// The state with one row replaced.
fn state_with_row(st: Json, pos: usize, es: Vec<(String, Json)>) -> (r: Json)
    requires
        pos < reminders_of(st).len(),
    ensures
        jv(r) == with_rows(st, crate::json::jv_items(reminders_of(st)).update(pos as int, JsonView::Object(crate::json::jv_entries(es@)))),
{
    let mut items = rows_of(&st);
    let ghost before = items@;
    let row = Json::object(es);
    items.set(pos, row);
    proof {
        crate::json::lemma_jv_items_update(before, pos as int, row);
    }
    state_with_rows(st, items)
}

fn status_json(status: &str, id: i64, title: Json) -> (r: Json)
    ensures
        jv(r) == JsonView::Object(seq![("status"@, JsonView::Str(status@)), ("id"@, json_int_view(id as int)), ("title"@, jv(title))]),
{
    let mut es: Vec<(String, Json)> = Vec::new();
    put(&mut es, "status", Json::text(status));
    put(&mut es, "id", Json::integer(id));
    put(&mut es, "title", title);
    assert(crate::json::jv_entries(es@) =~= seq![("status"@, JsonView::Str(status@)), ("id"@, json_int_view(id as int)), ("title"@, jv(title))]);
    Json::object(es)
}

/// `edit`: new values for the fields given.
fn edit(args: &Args, st: Json, now: DateTime) -> (r: Step)
    requires
        valid_datetime(now),
        edit_defined(args.view(), now),
    ensures
        edit_step(args.view(), st, now, r.view()),
{
    let ghost av = args.view();
    let id = match parse_id(args) {
        Ok(id) => id,
        Err(o) => {
            return Step::Finish(o);
        },
    };
    if args.flag("flagged") || args.flag("no-flagged") {
        return Step::Finish(fail(
            "Error: synced tag replacement/removal, grocery, section, assignment, subtask, image, urgent, early-reminder, flagged, and location writes require --private.",
        ));
    }
    let empty: Vec<Json> = Vec::new();
    let rems: &Vec<Json> = match st.get("reminders") {
        Some(Json::Array(items, _)) => items,
        _ => &empty,
    };
    assert(rems@ == reminders_of(st));
    let pos = match find_row(rems, id) {
        None => {
            return Step::Finish(fail_not_found(id));
        },
        Some(p) => p,
    };
    let mut es = row_entries(&rems[pos]);
    match args.opt("title") {
        Some(t) => crate::json::set_entry(&mut es, "title", Json::text(t)),
        None => {},
    }
    match args.opt("notes") {
        Some(n) => crate::json::set_entry(&mut es, "notes", Json::text(n)),
        None => {},
    }
    match args.opt("priority") {
        Some(p) => {
            let lower = to_lower(p);
            let l = lower.as_str();
            if !(same_str(l, "high") || same_str(l, "medium") || same_str(l, "low") || same_str(l, "none")) {
                return Step::Finish(fail(joined("Error: invalid priority '", p, "'").as_str()));
            }
            crate::json::set_entry(&mut es, "priority", Json::Str(lower));
        },
        None => {},
    }
    match args.opt("list") {
        Some(l) => {
            let ls_empty: Vec<Json> = Vec::new();
            let ls: &Vec<Json> = match st.get("lists") {
                Some(Json::Array(items, _)) => items,
                _ => &ls_empty,
            };
            assert(ls@ == lists_of(st));
            match find_list(ls, l) {
                None => {
                    return Step::Finish(fail(joined("Error: list '", l, "' not found").as_str()));
                },
                Some(i) => crate::json::set_entry(&mut es, "list", member_of(&ls[i], "title")),
            }
        },
        None => {},
    }
    assert(edited_fields(av, lists_of(st), reminders_of(st)[pos as int]) == Ok::<
        Seq<(Seq<char>, JsonView)>,
        OutcomeView,
    >(crate::json::jv_entries(es@)));
    let due = args.opt("due");
    let res = match due {
        Some(d) => parse_due_arg(d, now),
        None => Err(String::new()),
    };
    let ghost rv = res_view(res);
    assert(due_parse(option_get(av.1, "due"@), now, rv));
    let es = match due {
        Some(d) => match set_due(es, d, res) {
            Ok(v) => v,
            Err(o) => {
                return Step::Finish(o);
            },
        },
        None => es,
    };
    let status = status_json_id("updated", id);
    Step::Save { state: state_with_row(st, pos, es), then: ok_out(Printed::Compact(status)) }
}

fn status_json_id(status: &str, id: i64) -> (r: Json)
    ensures
        jv(r) == JsonView::Object(seq![("status"@, JsonView::Str(status@)), ("id"@, json_int_view(id as int))]),
{
    let mut es: Vec<(String, Json)> = Vec::new();
    put(&mut es, "status", Json::text(status));
    put(&mut es, "id", Json::integer(id));
    assert(crate::json::jv_entries(es@) =~= seq![("status"@, JsonView::Str(status@)), ("id"@, json_int_view(id as int))]);
    Json::object(es)
}

/// The reminders of a state, borrowed, and the place of the row with this id.
fn locate<'a>(st: &'a Json, empty: &'a Vec<Json>, id: i64) -> (r: (&'a Vec<Json>, Option<usize>))
    requires
        empty@.len() == 0,
    ensures
        r.0@ == reminders_of(*st),
        r.1 matches Some(p) ==> p < r.0@.len() && id_index(r.0@, id as int, 0) == Some(p as int),
        r.1 is None ==> id_index(r.0@, id as int, 0) is None,
{
    let rems: &Vec<Json> = match st.get("reminders") {
        Some(Json::Array(items, _)) => items,
        _ => empty,
    };
    (rems, find_row(rems, id))
}

/// `done` and `undone`: mark a reminder completed (with the time) or not.
fn complete(args: &Args, st: Json, now: DateTime, done: bool) -> (r: Step)
    requires
        valid_datetime(now),
    ensures
        r.view() == done_view(args.view(), st, now, done),
{
    let id = match parse_id(args) {
        Ok(id) => id,
        Err(o) => {
            return Step::Finish(o);
        },
    };
    let empty: Vec<Json> = Vec::new();
    let (rems, found) = locate(&st, &empty, id);
    let pos = match found {
        None => {
            return Step::Finish(fail_not_found(id));
        },
        Some(p) => p,
    };
    let title = member_of(&rems[pos], "title");
    let mut es = row_entries(&rems[pos]);
    let status = if done {
        crate::json::set_entry(&mut es, "completed", Json::Bool(true));
        crate::json::set_entry(&mut es, "completionDate", Json::Str(crate::dates::format_stamp(now)));
        "completed"
    } else {
        crate::json::set_entry(&mut es, "completed", Json::Bool(false));
        es = without_key(&es, "completionDate");
        "uncompleted"
    };
    let out = status_json(status, id, title);
    Step::Save { state: state_with_row(st, pos, es), then: ok_out(Printed::Compact(out)) }
}

/// `flag` and `unflag`.
fn flag(args: &Args, st: Json, flag_fails: bool, flagged: bool) -> (r: Step)
    ensures
        r.view() == flag_view(args.view(), st, flag_fails, flagged),
{
    let id = match parse_id(args) {
        Ok(id) => id,
        Err(o) => {
            return Step::Finish(o);
        },
    };
    let empty: Vec<Json> = Vec::new();
    let (rems, found) = locate(&st, &empty, id);
    let pos = match found {
        None => {
            return Step::Finish(fail_not_found(id));
        },
        Some(p) => p,
    };
    if flag_fails {
        return Step::Finish(fail_flag_write(id));
    }
    let title = member_of(&rems[pos], "title");
    let mut es = row_entries(&rems[pos]);
    crate::json::set_entry(&mut es, "flagged", Json::Bool(flagged));
    let out = status_json(if flagged { "flagged" } else { "unflagged" }, id, title);
    Step::Save { state: state_with_row(st, pos, es), then: ok_out(Printed::Compact(out)) }
}

fn fail_flag_write(id: i64) -> (o: Outcome)
    ensures
        o.view() == flag_fail_view(id as int),
{
    let mut es: Vec<(String, Json)> = Vec::new();
    put(&mut es, "status", Json::text("error"));
    put(&mut es, "code", Json::text("applescript_flag_failed"));
    put(&mut es, "id", Json::integer(id));
    put(&mut es, "message", Json::text("Could not set the flag: osascript: Automation permission denied (-1743)"));
    assert(crate::json::jv_entries(es@) =~= flag_fail_view(id as int).1->Compact_0->Object_0);
    Outcome { stdout: Printed::Text(String::new()), stderr: Printed::Compact(Json::object(es)), code: 1 }
}

/// `delete`: remove a reminder, only with `--force`.
fn delete(args: &Args, st: Json) -> (r: Step)
    ensures
        r.view() == delete_view(args.view(), st),
{
    let id = match parse_id(args) {
        Ok(id) => id,
        Err(o) => {
            return Step::Finish(o);
        },
    };
    let empty: Vec<Json> = Vec::new();
    let (rems, found) = locate(&st, &empty, id);
    let pos = match found {
        None => {
            return Step::Finish(fail_not_found(id));
        },
        Some(p) => p,
    };
    if !args.flag("force") {
        return Step::Finish(ok_out(Printed::Text(string_of(chars_of("Cancelled.\n").as_slice()))));
    }
    let title = member_of(&rems[pos], "title");
    let mut items = rows_of(&st);
    let ghost before = items@;
    items.remove(pos);
    proof {
        crate::json::lemma_jv_items_remove(before, pos as int);
    }
    let out = status_json("deleted", id, title);
    Step::Save { state: state_with_rows(st, items), then: ok_out(Printed::Compact(out)) }
}

/// What a command other than `add` and `edit` does.
pub open spec fn command_view(c: Seq<char>, args: ArgsView, st: Json, now: DateTime, flag_fails: bool) -> StepView {
    let rems = reminders_of(st);
    if c == "lists"@ {
        StepView::Finish(ok_view(PrintedView::Pretty(JsonView::Array(list_views(lists_of(st), rems)))))
    } else if c == "show"@ {
        StepView::Finish(show_view(args, lists_of(st), rems))
    } else if c == "today"@ {
        StepView::Finish(listed_view(picked(rems, Sel::Today(now))))
    } else if c == "upcoming"@ {
        StepView::Finish(listed_view(picked(rems, Sel::Upcoming(day_number(now), day_number(now) + upcoming_days(args)))))
    } else if c == "overdue"@ {
        StepView::Finish(listed_view(picked(rems, Sel::Overdue(now))))
    } else if c == "flagged"@ {
        StepView::Finish(listed_view(picked(rems, Sel::Flagged)))
    } else if c == "search"@ {
        StepView::Finish(search_view(args, rems))
    } else if c == "info"@ {
        StepView::Finish(info_view(args, rems))
    } else if c == "done"@ || c == "undone"@ {
        done_view(args, st, now, c == "done"@)
    } else if c == "flag"@ || c == "unflag"@ {
        flag_view(args, st, flag_fails, c == "flag"@)
    } else if c == "delete"@ {
        delete_view(args, st)
    } else {
        StepView::Finish((silent(), PrintedView::Text(
            "usage: remctl (fake) command ...\nremctl (fake): error: argument command: invalid choice: '"@ + c + "'\n"@,
        ), 2))
    }
}

/// `r` is what a run of the fake does with `argv` (without the program
/// name) at `now`, against the state as loaded (or the message of the error
/// loading it), with flag writes failing or not.
pub open spec fn remctl_run(argv: Seq<Seq<char>>, now: DateTime, state: Result<Json, String>, flag_fails: bool, r: StepView) -> bool {
    match remctl_arguments(argv) {
        Err(o) => r == StepView::Finish(o),
        Ok(args) => match state {
            Err(e) => r == StepView::Finish(fail_view("Error: "@ + e@)),
            Ok(st) => if argv[0] == "add"@ {
                add_step(args, st, now, flag_fails, r)
            } else if argv[0] == "edit"@ {
                edit_step(args, st, now, r)
            } else {
                r == command_view(argv[0], args, st, now, flag_fails)
            },
        },
    }
}

/// What a run needs to finish without a fault: a valid clock, days that
/// exist where a command counts them from today, and for `add` a state it
/// can add to.
pub open spec fn run_defined(argv: Seq<Seq<char>>, now: DateTime, state: Result<Json, String>) -> bool {
    &&& valid_datetime(now)
    &&& match remctl_arguments(argv) {
        Ok(args) => match state {
            Ok(st) => {
                &&& argv[0] == "upcoming"@ ==> day_fits(now, upcoming_days(args))
                &&& argv[0] == "add"@ ==> add_defined(args, st, now)
                &&& argv[0] == "edit"@ ==> edit_defined(args, now)
            },
            Err(_) => true,
        },
        Err(_) => true,
    }
}

fn upcoming(args: &Args, rems: &Vec<Json>, now: DateTime) -> (o: Outcome)
    requires
        valid_datetime(now),
        day_fits(now, upcoming_days(args.view())),
    ensures
        o.view() == listed_view(picked(rems@, Sel::Upcoming(day_number(now), day_number(now) + upcoming_days(args.view())))),
{
    let days: i64 = if args.positional.len() > 0 {
        assert(args.positional@[0]@ == args.view().0[0]);
        match parse_i64(chars_of(args.positional[0].as_str()).as_slice()) {
            Some(n) => n,
            None => 7,
        }
    } else {
        7
    };
    assert(days as int == upcoming_days(args.view()));
    let first = crate::dates::civil_days(now.year, now.month, now.day);
    match date_plus_days(now.year, now.month, now.day, days) {
        Some(h) => {
            let last = crate::dates::civil_days(h.0, h.1, h.2);
            listed(rems, Pick::Upcoming(first, last))
        },
        None => {
            assert(false);
            fail("")
        },
    }
}

/// Run the fake with `argv` (without the program name) at `now`, against
/// the state as loaded or the message of the error loading it, and with
/// flag writes failing or not (`$REMTUI_FAKE_FLAG_FAILS`).
pub fn run_at(argv: &[String], now: DateTime, state: Result<Json, String>, flag_fails: bool) -> (r: Step)
    requires
        run_defined(string_views(argv@), now, state),
    ensures
        remctl_run(string_views(argv@), now, state, flag_fails, r.view()),
{
    let args = match arguments(argv) {
        Ok(a) => a,
        Err(o) => {
            return Step::Finish(o);
        },
    };
    let st = match state {
        Ok(st) => st,
        Err(e) => {
            return Step::Finish(save_failed(e.as_str()));
        },
    };
    let c = argv[0].as_str();
    assert(c@ == string_views(argv@)[0]);
    proof {
        reveal_strlit("add");
        reveal_strlit("edit");
        reveal_strlit("lists");
        reveal_strlit("show");
        reveal_strlit("today");
        reveal_strlit("upcoming");
        reveal_strlit("overdue");
        reveal_strlit("flagged");
        reveal_strlit("search");
        reveal_strlit("info");
        reveal_strlit("done");
        reveal_strlit("undone");
        reveal_strlit("flag");
        reveal_strlit("unflag");
        reveal_strlit("delete");
    }
    if same_str(c, "add") {
        return add_reminder(&args, st, now, flag_fails);
    }
    if same_str(c, "edit") {
        return edit(&args, st, now);
    }
    if same_str(c, "done") || same_str(c, "undone") {
        let is_done = same_str(c, "done");
        assert(c@.len() > 1 && (c@[0] == 'd' || c@[0] == 'u') && (c@[1] == 'o' || c@[1] == 'n'));
        assert(command_view(c@, args.view(), st, now, flag_fails) == done_view(args.view(), st, now, is_done));
        return complete(&args, st, now, is_done);
    }
    if same_str(c, "flag") || same_str(c, "unflag") {
        let is_flag = same_str(c, "flag");
        assert(c@.len() > 3 && (c@[0] == 'f' || c@[0] == 'u') && (c@[2] == 'a' || c@[2] == 'f') && (c@[3] == 'g' || c@[3] == 'l'));
        assert(command_view(c@, args.view(), st, now, flag_fails) == flag_view(args.view(), st, flag_fails, is_flag));
        return flag(&args, st, flag_fails, is_flag);
    }
    if same_str(c, "delete") {
        assert(c@.len() == 6 && c@[0] == 'd');
        assert(command_view(c@, args.view(), st, now, flag_fails) == delete_view(args.view(), st));
        return delete(&args, st);
    }
    let empty: Vec<Json> = Vec::new();
    let rems: &Vec<Json> = match st.get("reminders") {
        Some(Json::Array(items, _)) => items,
        _ => &empty,
    };
    let ls_empty: Vec<Json> = Vec::new();
    let ls: &Vec<Json> = match st.get("lists") {
        Some(Json::Array(items, _)) => items,
        _ => &ls_empty,
    };
    let o = if same_str(c, "lists") {
        ok_out(Printed::Pretty(Json::array(lists_json(ls, rems))))
    } else if same_str(c, "show") {
        show(&args, ls, rems)
    } else if same_str(c, "today") {
        listed(rems, Pick::Today(now))
    } else if same_str(c, "upcoming") {
        upcoming(&args, rems, now)
    } else if same_str(c, "overdue") {
        listed(rems, Pick::Overdue(now))
    } else if same_str(c, "flagged") {
        listed(rems, Pick::Flagged)
    } else if same_str(c, "search") {
        search(&args, rems)
    } else if same_str(c, "info") {
        info(&args, rems)
    } else {
        let text = joined("usage: remctl (fake) command ...\nremctl (fake): error: argument command: invalid choice: '", c, "'\n");
        Outcome { stdout: Printed::Text(String::new()), stderr: Printed::Text(text), code: 2 }
    };
    Step::Finish(o)
}

/// One sample reminder: title, list, due day (days from today, hour,
/// minute), all day, priority, flagged, notes, tag ("" for none), completed.
pub struct SeedRow {
    pub title: &'static str,
    pub list: &'static str,
    pub due: Option<(i64, u32, u32)>,
    pub all_day: bool,
    pub priority: &'static str,
    pub flagged: bool,
    pub notes: &'static str,
    pub tag: &'static str,
    pub completed: bool,
}

/// A sample reminder as plain values.
pub struct SeedView {
    pub title: Seq<char>,
    pub list: Seq<char>,
    pub due: Option<(int, int, int)>,
    pub all_day: bool,
    pub priority: Seq<char>,
    pub flagged: bool,
    pub notes: Seq<char>,
    pub tag: Seq<char>,
    pub completed: bool,
}

impl SeedRow {
    pub open spec fn view(&self) -> SeedView {
        SeedView {
            title: self.title@,
            list: self.list@,
            due: match self.due {
                Some((n, h, m)) => Some((n as int, h as int, m as int)),
                None => None,
            },
            all_day: self.all_day,
            priority: self.priority@,
            flagged: self.flagged,
            notes: self.notes@,
            tag: self.tag@,
            completed: self.completed,
        }
    }
}

pub open spec fn seq_row(
    title: Seq<char>,
    list: Seq<char>,
    due: Option<(int, int, int)>,
    all_day: bool,
    priority: Seq<char>,
    flagged: bool,
    notes: Seq<char>,
    tag: Seq<char>,
    completed: bool,
) -> SeedView {
    SeedView { title, list, due, all_day, priority, flagged, notes, tag, completed }
}

/// The sample reminders, in order.
pub open spec fn seed_table(k: int) -> SeedView {
    if k == 0 {
        (seq_row("Renew passport"@, "Personal"@, Some((-3, 0, 0)), true, "high"@, true, "Bring old passport and two photos"@, "errands"@, false))
    } else if k == 1 {
        (seq_row("Call the dentist"@, "Personal"@, Some((0, 11, 30)), false, "medium"@, false, "Reschedule the cleaning"@, ""@, false))
    } else if k == 2 {
        (seq_row("Pay credit card bill"@, "Personal"@, Some((0, 0, 0)), true, "high"@, false, ""@, "finance"@, false))
    } else if k == 3 {
        (seq_row("Book flights for August"@, "Personal"@, Some((4, 0, 0)), true, "none"@, false, "Check points balance first"@, "travel"@, false))
    } else if k == 4 {
        (seq_row("Morning run"@, "Personal"@, Some((1, 7, 0)), false, "none"@, false, "5k along the river"@, "health"@, true))
    } else if k == 5 {
        (seq_row("Ship v2.3 release notes"@, "Work"@, Some((0, 16, 0)), false, "high"@, true, "Waiting on changelog review from Sam"@, "release"@, false))
    } else if k == 6 {
        (seq_row("Review Q3 hiring plan"@, "Work"@, Some((-1, 10, 0)), false, "medium"@, false, ""@, ""@, false))
    } else if k == 7 {
        (seq_row("1:1 prep — Patricia"@, "Work"@, Some((1, 9, 0)), false, "medium"@, false, "Bring dashboard sync status"@, "meetings"@, false))
    } else if k == 8 {
        (seq_row("File expense report"@, "Work"@, Some((6, 0, 0)), true, "low"@, false, "Conference receipts in Downloads"@, ""@, false))
    } else if k == 9 {
        (seq_row("Archive old sprint boards"@, "Work"@, None, false, "none"@, false, ""@, ""@, true))
    } else if k == 10 {
        (seq_row("Milk"@, "Groceries"@, None, false, "none"@, false, ""@, ""@, false))
    } else if k == 11 {
        (seq_row("Sourdough bread"@, "Groceries"@, None, false, "none"@, false, ""@, ""@, false))
    } else if k == 12 {
        (seq_row("Olive oil"@, "Groceries"@, None, false, "none"@, false, "The good one"@, ""@, false))
    } else if k == 13 {
        (seq_row("Coffee beans"@, "Groceries"@, None, false, "high"@, false, ""@, ""@, true))
    } else if k == 14 {
        (seq_row("Finish 'The Shallows'"@, "Reading"@, Some((9, 0, 0)), true, "none"@, false, "Chapter 7 onward"@, "books"@, false))
    } else if k == 15 {
        (seq_row("Start sci-fi book club pick"@, "Reading"@, None, false, "low"@, false, ""@, "books"@, false))
    } else if k == 16 {
        (seq_row("Replace furnace filter"@, "Home"@, Some((2, 0, 0)), true, "medium"@, false, "16x25x1 — two spares in garage"@, ""@, false))
    } else {
        (seq_row("Fix squeaky hinge"@, "Home"@, None, false, "none"@, false, ""@, ""@, false))
    }
}


fn seed_entry(k: usize) -> (e: SeedRow)
    requires
        k < 18,
    ensures
        e.view() == seed_table(k as int),
        e.due matches Some(d) ==> -3 <= d.0 <= 9,
{
    if k == 0 {
        SeedRow { title: "Renew passport", list: "Personal", due: Some((-3, 0, 0)), all_day: true, priority: "high", flagged: true, notes: "Bring old passport and two photos", tag: "errands", completed: false }
    } else if k == 1 {
        SeedRow { title: "Call the dentist", list: "Personal", due: Some((0, 11, 30)), all_day: false, priority: "medium", flagged: false, notes: "Reschedule the cleaning", tag: "", completed: false }
    } else if k == 2 {
        SeedRow { title: "Pay credit card bill", list: "Personal", due: Some((0, 0, 0)), all_day: true, priority: "high", flagged: false, notes: "", tag: "finance", completed: false }
    } else if k == 3 {
        SeedRow { title: "Book flights for August", list: "Personal", due: Some((4, 0, 0)), all_day: true, priority: "none", flagged: false, notes: "Check points balance first", tag: "travel", completed: false }
    } else if k == 4 {
        SeedRow { title: "Morning run", list: "Personal", due: Some((1, 7, 0)), all_day: false, priority: "none", flagged: false, notes: "5k along the river", tag: "health", completed: true }
    } else if k == 5 {
        SeedRow { title: "Ship v2.3 release notes", list: "Work", due: Some((0, 16, 0)), all_day: false, priority: "high", flagged: true, notes: "Waiting on changelog review from Sam", tag: "release", completed: false }
    } else if k == 6 {
        SeedRow { title: "Review Q3 hiring plan", list: "Work", due: Some((-1, 10, 0)), all_day: false, priority: "medium", flagged: false, notes: "", tag: "", completed: false }
    } else if k == 7 {
        SeedRow { title: "1:1 prep — Patricia", list: "Work", due: Some((1, 9, 0)), all_day: false, priority: "medium", flagged: false, notes: "Bring dashboard sync status", tag: "meetings", completed: false }
    } else if k == 8 {
        SeedRow { title: "File expense report", list: "Work", due: Some((6, 0, 0)), all_day: true, priority: "low", flagged: false, notes: "Conference receipts in Downloads", tag: "", completed: false }
    } else if k == 9 {
        SeedRow { title: "Archive old sprint boards", list: "Work", due: None, all_day: false, priority: "none", flagged: false, notes: "", tag: "", completed: true }
    } else if k == 10 {
        SeedRow { title: "Milk", list: "Groceries", due: None, all_day: false, priority: "none", flagged: false, notes: "", tag: "", completed: false }
    } else if k == 11 {
        SeedRow { title: "Sourdough bread", list: "Groceries", due: None, all_day: false, priority: "none", flagged: false, notes: "", tag: "", completed: false }
    } else if k == 12 {
        SeedRow { title: "Olive oil", list: "Groceries", due: None, all_day: false, priority: "none", flagged: false, notes: "The good one", tag: "", completed: false }
    } else if k == 13 {
        SeedRow { title: "Coffee beans", list: "Groceries", due: None, all_day: false, priority: "high", flagged: false, notes: "", tag: "", completed: true }
    } else if k == 14 {
        SeedRow { title: "Finish 'The Shallows'", list: "Reading", due: Some((9, 0, 0)), all_day: true, priority: "none", flagged: false, notes: "Chapter 7 onward", tag: "books", completed: false }
    } else if k == 15 {
        SeedRow { title: "Start sci-fi book club pick", list: "Reading", due: None, all_day: false, priority: "low", flagged: false, notes: "", tag: "books", completed: false }
    } else if k == 16 {
        SeedRow { title: "Replace furnace filter", list: "Home", due: Some((2, 0, 0)), all_day: true, priority: "medium", flagged: false, notes: "16x25x1 — two spares in garage", tag: "", completed: false }
    } else {
        SeedRow { title: "Fix squeaky hinge", list: "Home", due: None, all_day: false, priority: "none", flagged: false, notes: "", tag: "", completed: false }
    }
}

/// One sample list.
pub open spec fn seed_list(id: int, title: Seq<char>, color: Seq<char>, emoji: Seq<char>) -> JsonView {
    JsonView::Object(seq![
        ("id"@, json_int_view(id)),
        ("title"@, JsonView::Str(title)),
        ("color"@, JsonView::Str(color)),
        ("emoji"@, JsonView::Str(emoji)),
    ])
}

/// The sample lists.
pub open spec fn seed_lists() -> Seq<JsonView> {
    seq![
        seed_list(1, "Personal"@, "blue"@, ""@),
        seed_list(2, "Work"@, "red"@, ""@),
        seed_list(3, "Groceries"@, "green"@, "🛒"@),
        seed_list(4, "Reading"@, "purple"@, "📚"@),
        seed_list(5, "Home"@, "orange"@, ""@),
    ]
}

/// `due` is the stamp a sample's due day gives, or "" when it has none.
pub open spec fn due_ok(now: DateTime, when: Option<(int, int, int)>, due: Seq<char>) -> bool {
    match when {
        Some((n, h, m)) => stamp_for(now, n, h, m, due),
        None => due == Seq::<char>::empty(),
    }
}

/// A sample reminder with this id and due stamp.
pub open spec fn seed_row_view(id: int, t: SeedView, due: Seq<char>) -> JsonView {
    let base = seq![
        ("id"@, json_int_view(id)),
        ("title"@, JsonView::Str(t.title)),
        ("list"@, JsonView::Str(t.list)),
        ("completed"@, JsonView::Bool(t.completed)),
        ("flagged"@, JsonView::Bool(t.flagged)),
        ("urgent"@, JsonView::Bool(false)),
        ("priority"@, JsonView::Str(t.priority)),
        ("notes"@, JsonView::Str(t.notes)),
        ("tags"@, JsonView::Array(if t.tag.len() > 0 {
            seq![JsonView::Str(t.tag)]
        } else {
            Seq::empty()
        })),
        ("dueDate"@, JsonView::Str(due)),
        ("allDay"@, JsonView::Bool(t.all_day)),
    ];
    JsonView::Object(if t.title == "Start sci-fi book club pick"@ {
        base.push(("url"@, JsonView::Str("https://bookclub.example.com/picks"@)))
    } else {
        base
    })
}

/// `v` is the sample reminder `t` with this id, due on its day.
pub open spec fn seed_row_ok(id: int, t: SeedView, now: DateTime, v: JsonView) -> bool {
    exists|due: Seq<char>| due_ok(now, t.due, due) && v == #[trigger] seed_row_view(id, t, due)
}

/// `v` is the sample state at `now`: the next id, the five lists, and the
/// eighteen reminders numbered from 101, due relative to today.
pub open spec fn seed_view_ok(v: JsonView, now: DateTime) -> bool {
    &&& v matches JsonView::Object(es)
    &&& es.len() == 3
    &&& es[0] == ("next_id"@, json_int_view(200))
    &&& es[1] == ("lists"@, JsonView::Array(seed_lists()))
    &&& es[2].0 == "reminders"@
    &&& es[2].1 matches JsonView::Array(rs)
    &&& rs.len() == 18
    &&& forall|k: int| 0 <= k < 18 ==> seed_row_ok(101 + k, seed_table(k), now, #[trigger] rs[k])
}

fn seed_list_json(id: i64, title: &str, color: &str, emoji: &str) -> (r: Json)
    ensures
        jv(r) == seed_list(id as int, title@, color@, emoji@),
{
    let mut es: Vec<(String, Json)> = Vec::new();
    put(&mut es, "id", Json::integer(id));
    put(&mut es, "title", Json::text(title));
    put(&mut es, "color", Json::text(color));
    put(&mut es, "emoji", Json::text(emoji));
    assert(crate::json::jv_entries(es@) =~= seed_list(id as int, title@, color@, emoji@)->Object_0);
    Json::object(es)
}

fn seed_lists_json() -> (r: Vec<Json>)
    ensures
        crate::json::jv_items(r@) == seed_lists(),
{
    let mut out: Vec<Json> = Vec::new();
    let l1 = seed_list_json(1, "Personal", "blue", "");
    proof {
        lemma_jv_items_push(out@, l1);
    }
    out.push(l1);
    let l2 = seed_list_json(2, "Work", "red", "");
    proof {
        lemma_jv_items_push(out@, l2);
    }
    out.push(l2);
    let l3 = seed_list_json(3, "Groceries", "green", "🛒");
    proof {
        lemma_jv_items_push(out@, l3);
    }
    out.push(l3);
    let l4 = seed_list_json(4, "Reading", "purple", "📚");
    proof {
        lemma_jv_items_push(out@, l4);
    }
    out.push(l4);
    let l5 = seed_list_json(5, "Home", "orange", "");
    proof {
        lemma_jv_items_push(out@, l5);
    }
    out.push(l5);
    assert(crate::json::jv_items(out@) =~= seed_lists());
    out
}

fn seed_row_json(id: i64, e: &SeedRow, now: DateTime) -> (r: Json)
    requires
        valid_datetime(now),
        e.due matches Some(d) ==> day_fits(now, d.0 as int),
    ensures
        seed_row_ok(id as int, e.view(), now, jv(r)),
{
    let due = match e.due {
        Some((n, h, m)) => day_from_today(now, n, h, m),
        None => String::new(),
    };
    assert(due_ok(now, e.view().due, due@));
    let mut es: Vec<(String, Json)> = Vec::new();
    put(&mut es, "id", Json::integer(id));
    put(&mut es, "title", Json::text(e.title));
    put(&mut es, "list", Json::text(e.list));
    put(&mut es, "completed", Json::Bool(e.completed));
    put(&mut es, "flagged", Json::Bool(e.flagged));
    put(&mut es, "urgent", Json::Bool(false));
    put(&mut es, "priority", Json::text(e.priority));
    put(&mut es, "notes", Json::text(e.notes));
    let mut tags: Vec<Json> = Vec::new();
    if !e.tag.is_empty() {
        let t = Json::text(e.tag);
        proof {
            lemma_jv_items_push(tags@, t);
        }
        tags.push(t);
    }
    assert(crate::json::jv_items(tags@) =~= (if e.view().tag.len() > 0 {
        seq![JsonView::Str(e.view().tag)]
    } else {
        Seq::empty()
    }));
    put(&mut es, "tags", Json::array(tags));
    put(&mut es, "dueDate", Json::Str(due));
    put(&mut es, "allDay", Json::Bool(e.all_day));
    let ghost t = e.view();
    assert(crate::json::jv_entries(es@) =~~= seq![
        ("id"@, json_int_view(id as int)),
        ("title"@, JsonView::Str(t.title)),
        ("list"@, JsonView::Str(t.list)),
        ("completed"@, JsonView::Bool(t.completed)),
        ("flagged"@, JsonView::Bool(t.flagged)),
        ("urgent"@, JsonView::Bool(false)),
        ("priority"@, JsonView::Str(t.priority)),
        ("notes"@, JsonView::Str(t.notes)),
        ("tags"@, JsonView::Array(if t.tag.len() > 0 {
            seq![JsonView::Str(t.tag)]
        } else {
            Seq::empty()
        })),
        ("dueDate"@, JsonView::Str(due@)),
        ("allDay"@, JsonView::Bool(t.all_day)),
    ]);
    if same_str(e.title, "Start sci-fi book club pick") {
        put(&mut es, "url", Json::text("https://bookclub.example.com/picks"));
    }
    let r = Json::object(es);
    assert(jv(r) =~~= seed_row_view(id as int, e.view(), due@));
    r
}

/// The sample state a first run starts from, with due dates relative to
/// the day of `now`.
pub fn seed_state(now: DateTime) -> (r: Json)
    requires
        valid_datetime(now),
        day_fits(now, -3),
        day_fits(now, 9),
    ensures
        seed_view_ok(jv(r), now),
{
    let mut rs: Vec<Json> = Vec::new();
    let mut k: usize = 0;
    while k < 18
        invariant
            k <= 18,
            rs@.len() == k,
            valid_datetime(now),
            day_fits(now, -3),
            day_fits(now, 9),
            crate::json::jv_items(rs@).len() == k,
            forall|j: int| 0 <= j < k ==> seed_row_ok(101 + j, seed_table(j), now, #[trigger] crate::json::jv_items(rs@)[j]),
        decreases 18 - k,
    {
        let e = seed_entry(k);
        let row = seed_row_json(101 + k as i64, &e, now);
        let ghost before = crate::json::jv_items(rs@);
        proof {
            lemma_jv_items_push(rs@, row);
        }
        rs.push(row);
        assert(crate::json::jv_items(rs@) == before.push(jv(row)));
        k += 1;
    }
    let mut es: Vec<(String, Json)> = Vec::new();
    put(&mut es, "next_id", Json::integer(200));
    put(&mut es, "lists", Json::array(seed_lists_json()));
    let ghost rv = crate::json::jv_items(rs@);
    put(&mut es, "reminders", Json::array(rs));
    assert(crate::json::jv_entries(es@) =~~= seq![
        ("next_id"@, json_int_view(200)),
        ("lists"@, JsonView::Array(seed_lists())),
        ("reminders"@, JsonView::Array(rv)),
    ]);
    let r = Json::object(es);
    assert(jv(r) == JsonView::Object(seq![
        ("next_id"@, json_int_view(200)),
        ("lists"@, JsonView::Array(seed_lists())),
        ("reminders"@, JsonView::Array(rv)),
    ]));
    r
}

proof fn lemma_without_set(es: Seq<(Seq<char>, JsonView)>, k: Seq<char>, v: JsonView)
    ensures
        entries_without(entries_set(es, k, v), k) == entries_without(es, k),
    decreases es.len(),
{
    if es.len() == 0 {
        assert(seq![(k, v)][0].0 == k);
        assert(seq![(k, v)].drop_first() =~= Seq::<(Seq<char>, JsonView)>::empty());
        assert(entries_without(seq![(k, v)].drop_first(), k) == Seq::<(Seq<char>, JsonView)>::empty());
        assert(entries_without(es, k) == Seq::<(Seq<char>, JsonView)>::empty());
    } else {
        if es[0].0 == k {
            assert(es.update(0, (k, v))[0].0 == k);
            assert(es.update(0, (k, v)).drop_first() =~= es.drop_first());
        } else {
            lemma_without_set(es.drop_first(), k, v);
            let rest = entries_set(es.drop_first(), k, v);
            assert((seq![es[0]] + rest)[0] == es[0]);
            assert((seq![es[0]] + rest).drop_first() =~= rest);
        }
    }
}

proof fn lemma_set_twice(es: Seq<(Seq<char>, JsonView)>, k: Seq<char>, v1: JsonView, v2: JsonView)
    ensures
        entries_set(entries_set(es, k, v1), k, v2) == entries_set(es, k, v2),
    decreases es.len(),
{
    if es.len() == 0 {
        assert(seq![(k, v1)].update(0, (k, v2)) =~= seq![(k, v2)]);
    } else if es[0].0 == k {
        assert(es.update(0, (k, v1)).update(0, (k, v2)) =~= es.update(0, (k, v2)));
    } else {
        lemma_set_twice(es.drop_first(), k, v1, v2);
        let rest = entries_set(es.drop_first(), k, v1);
        assert((seq![es[0]] + rest)[0] == es[0]);
        assert((seq![es[0]] + rest).drop_first() =~= rest);
    }
}

proof fn lemma_without_after_other(
    es: Seq<(Seq<char>, JsonView)>,
    gone: Seq<char>,
    s: JsonView,
    k: Seq<char>,
    v: JsonView,
)
    requires
        gone != k,
    ensures
        entries_without(entries_set(entries_set(es, gone, s), k, v), gone) == entries_without(entries_set(es, k, v), gone),
    decreases es.len(),
{
    let rest = es.drop_first();
    if es.len() == 0 {
        let one = seq![(gone, s)];
        assert(one[0].0 != k);
        assert(one.drop_first() =~= Seq::<(Seq<char>, JsonView)>::empty());
        let two = seq![one[0]] + entries_set(one.drop_first(), k, v);
        assert(two =~= seq![(gone, s), (k, v)]);
        assert(two.drop_first() =~= seq![(k, v)]);
        assert(seq![(k, v)].drop_first() =~= Seq::<(Seq<char>, JsonView)>::empty());
    } else if es[0].0 == gone {
        let a = es.update(0, (gone, s));
        assert(a.drop_first() =~= rest);
        let b = seq![a[0]] + entries_set(rest, k, v);
        assert(b.drop_first() =~= entries_set(rest, k, v));
        let c = seq![es[0]] + entries_set(rest, k, v);
        assert(c.drop_first() =~= entries_set(rest, k, v));
    } else if es[0].0 == k {
        let a = seq![es[0]] + entries_set(rest, gone, s);
        assert(a[0] == es[0]);
        let b = a.update(0, (k, v));
        assert(b.drop_first() =~= entries_set(rest, gone, s));
        lemma_without_set(rest, gone, s);
        let c = es.update(0, (k, v));
        assert(c.drop_first() =~= rest);
    } else {
        lemma_without_after_other(rest, gone, s, k, v);
        let a = seq![es[0]] + entries_set(rest, gone, s);
        assert(a[0] == es[0]);
        assert(a.drop_first() =~= entries_set(rest, gone, s));
        let b = seq![a[0]] + entries_set(a.drop_first(), k, v);
        assert(b.drop_first() =~= entries_set(entries_set(rest, gone, s), k, v));
        let c = seq![es[0]] + entries_set(rest, k, v);
        assert(c.drop_first() =~= entries_set(rest, k, v));
    }
}

/// Reopening a completed reminder leaves its fields as reopening it alone
/// would: `undone` undoes `done`, whatever the time it was completed at.
pub proof fn law_reopen_undoes_complete(es: Seq<(Seq<char>, JsonView)>, stamp: Seq<char>)
    ensures
        reopened_fields(completed_fields(es, stamp)) == reopened_fields(es),
{
    let x = entries_set(es, "completed"@, JsonView::Bool(true));
    assert("completionDate"@ != "completed"@) by {
        reveal_strlit("completionDate");
        reveal_strlit("completed");
        assert("completionDate"@.len() == 14);
        assert("completed"@.len() == 9);
    }
    lemma_without_after_other(x, "completionDate"@, JsonView::Str(stamp), "completed"@, JsonView::Bool(false));
    lemma_set_twice(es, "completed"@, JsonView::Bool(true), JsonView::Bool(false));
}


/// Whether the date `n` days from `now`'s is one chrono can hold.
fn day_fits_check(now: DateTime, n: i64) -> (b: bool)
    requires
        valid_datetime(now),
    ensures
        b == day_fits(now, n as int),
{
    let today = crate::dates::civil_days(now.year, now.month, now.day);
    let lo = crate::dates::civil_days(-262143, 1, 1);
    let hi = crate::dates::civil_days(262142, 12, 31);
    proof {
        crate::dates::lemma_days_bounds(now.year as int, now.month as int, now.day as int);
    }
    let d: i128 = today as i128 + n as i128;
    lo as i128 <= d && d <= hi as i128
}

/// Whether every date a due phrase counts from today exists, so that the
/// tool answers rather than stops.
pub fn due_is_defined(text: &str, now: DateTime) -> (b: bool)
    requires
        valid_datetime(now),
    ensures
        b == due_defined(text@, now),
{
    let tv = chars_of(text);
    let t = trim_chars(tv.as_slice());
    let ts = string_of(t.as_slice());
    if due_literal(&t, &ts).is_some() {
        return true;
    }
    let low = to_lower(ts.as_str());
    let lv = chars_of(low.as_str());
    let n_low = lv.len();
    if n_low >= 2 && lv[0] == '+' && lv[n_low - 1] == 'd' {
        let mid = slice_chars(lv.as_slice(), 1, n_low - 1);
        if let Some(n) = parse_i64(mid.as_slice()) {
            assert(plus_branch(lv@) == Some(n as int));
            return day_fits_check(now, n);
        }
        assert(plus_branch(lv@) is None);
    }
    let ghost ws_spec = due_words(lv@);
    let at = chars_of(" at ");
    let sp = chars_of(" ");
    proof {
        reveal_strlit(" at ");
    }
    let joined = crate::text::replace_all_chars(lv.as_slice(), at.as_slice(), sp.as_slice());
    let ws = words_of(joined.as_slice());
    assert(views(ws@) == ws_spec);
    proof {
        if ws@.len() > 0 {
            assert(views(ws@)[0] == ws@[0]@);
        }
        if ws@.len() > 1 {
            assert(views(ws@)[1] == ws@[1]@);
        }
    }
    let base: Option<i64> = if is_word(&ws, 0, "today") || is_word(&ws, 0, "tonight") {
        Some(0)
    } else if is_word(&ws, 0, "tomorrow") {
        Some(1)
    } else {
        None
    };
    assert(match base {
        Some(b) => base_offset(ws_spec) == Some(b as int),
        None => base_offset(ws_spec) is None,
    });
    let first_ok = match base {
        Some(b) => day_fits_check(now, b),
        None => true,
    };
    let based = match base {
        Some(_) => if ws.len() == 1 {
            true
        } else {
            let w1 = string_of(ws[1].as_slice());
            parse_time(w1.as_str()).is_some()
        },
        None => false,
    };
    let skip: usize = if is_word(&ws, 0, "next") {
        1
    } else {
        0
    };
    let ghost ws2 = after_next(ws_spec);
    proof {
        if skip == 1 {
            assert(ws2 =~= views(ws@).skip(1));
        } else {
            assert(ws2 =~= views(ws@).skip(0));
        }
    }
    let weekday_ok = if skip < ws.len() {
        assert(ws2[0] == ws@[skip as int]@);
        match weekday_index(ws[skip].as_slice()) {
            Some(target) => {
                let today = crate::dates::civil_days(now.year, now.month, now.day);
                let wd = crate::dates::weekday(today);
                let raw: i64 = (target as i64 - wd as i64 + 7) % 7;
                proof {
                    assert(raw == (target as int - weekday_of(day_number(now))) % 7) by (nonlinear_arith)
                        requires
                            0 <= target < 7,
                            0 <= wd < 7,
                            wd == weekday_of(day_number(now)),
                            raw == (target as int - wd as int + 7) % 7,
                    ;
                }
                let delta: i64 = if raw == 0 {
                    7
                } else {
                    raw
                };
                day_fits_check(now, delta)
            },
            None => true,
        }
    } else {
        true
    };
    first_ok && (based || weekday_ok)
}

/// Whether `run_at` answers `argv` at `now` on this state rather than stop
/// as the tool does: every date a command counts to exists, and `add` has
/// a reminders array and an id left to give.
pub fn run_is_defined(argv: &[String], now: DateTime, state: &Result<Json, String>) -> (b: bool)
    requires
        valid_datetime(now),
    ensures
        b == run_defined(string_views(argv@), now, *state),
{
    let args = match arguments(argv) {
        Ok(a) => a,
        Err(_) => {
            return true;
        },
    };
    let st = match state {
        Ok(st) => st,
        Err(_) => {
            return true;
        },
    };
    let c = argv[0].as_str();
    assert(c@ == string_views(argv@)[0]);
    if same_str(c, "upcoming") {
        let days: i64 = if args.positional.len() > 0 {
            assert(args.positional@[0]@ == args.view().0[0]);
            match parse_i64(chars_of(args.positional[0].as_str()).as_slice()) {
                Some(n) => n,
                None => 7,
            }
        } else {
            7
        };
        assert(days as int == upcoming_days(args.view()));
        if !day_fits_check(now, days) {
            return false;
        }
    }
    if same_str(c, "add") {
        if let Some(d) = args.opt("due") {
            if !d.is_empty() && !same_str(d, "clear") && !due_is_defined(d, now) {
                return false;
            }
        }
        match st.get("reminders") {
            Some(Json::Array(_, _)) => {},
            _ => {
                return false;
            },
        }
        let id: i64 = match st.get("next_id") {
            Some(v) => match v.as_i64() {
                Some(n) => n,
                None => 200,
            },
            None => 200,
        };
        assert(id as int == next_id_of(*st));
        if id == i64::MAX {
            return false;
        }
    }
    if same_str(c, "edit") {
        if let Some(d) = args.opt("due") {
            if !same_str(d, "clear") && !due_is_defined(d, now) {
                return false;
            }
        }
    }
    proof {
        reveal_strlit("upcoming");
        reveal_strlit("add");
        reveal_strlit("edit");
        reveal_strlit("clear");
    }
    true
}


/// Whether the seed's dates, three days back to nine days on from `now`,
/// all exist.
pub fn seed_fits(now: DateTime) -> (b: bool)
    requires
        valid_datetime(now),
    ensures
        b == (day_fits(now, -3) && day_fits(now, 9)),
{
    day_fits_check(now, -3) && day_fits_check(now, 9)
}

} // verus!
