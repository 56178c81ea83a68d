//! Rendering of one reminder row and one sidebar row, as styled text.

use vstd::prelude::*;

use crate::dates::{humanize, humanize_due, is_due_today, is_overdue, overdue, same_date, valid_datetime, DateTime};
use crate::models::{Priority, Reminder, ReminderList, SmartView};
use crate::text::{chars_of, dec, decimal, push_all, push_str, string_of, to_upper, uppercase};
use super::theme::{color, dim, dim_style, fg, fg_style, hex, hex_color, plain, plain_style, tone_color, Color, Style, Tone};

verus! {

/// A run of text in one style.
#[derive(Debug, Clone, PartialEq, Eq)]
pub struct Span {
    pub text: String,
    pub style: Style,
}

/// A span as plain values.
pub type SpanView = (Seq<char>, Style);

impl Span {
    pub open spec fn view(&self) -> SpanView {
        (self.text@, self.style)
    }
}

/// The plain values of a line of spans.
pub open spec fn span_views(v: Seq<Span>) -> Seq<SpanView> {
    v.map_values(|s: Span| s.view())
}

/// What `UnicodeWidthStr::width(s)` returns: the cells `s` takes in a
/// terminal.
pub uninterp spec fn display_width(s: Seq<char>) -> usize;

/// `unicode_width::UnicodeWidthStr::width`: the contract claims only that
/// the result is the named width of `s`.
#[verifier::external_body]
pub(crate) fn width_of(s: &str) -> (r: usize)
    ensures
        r == display_width(s@),
{
    unicode_width::UnicodeWidthStr::width(s)
}

/// The cells a run of spans takes.
pub open spec fn spans_width(v: Seq<SpanView>) -> int
    decreases v.len(),
{
    if v.len() == 0 {
        0
    } else {
        spans_width(v.drop_last()) + display_width(v.last().0)
    }
}

/// The cells of a run of spans, counted without overflow.
pub(crate) fn width_sum(line: &Vec<Span>) -> (r: u128)
    requires
        line@.len() < 0x1_0000_0000,
    ensures
        r == spans_width(span_views(line@)),
        r <= line@.len() * 0x1_0000_0000_0000_0000,
{
    let mut total: u128 = 0;
    let mut i: usize = 0;
    while i < line.len()
        invariant
            i <= line@.len(),
            line@.len() < 0x1_0000_0000,
            total == spans_width(span_views(line@.take(i as int))),
            total <= i * 0x1_0000_0000_0000_0000,
        decreases line.len() - i,
    {
        proof {
            assert(span_views(line@.take(i + 1)).drop_last() =~= span_views(line@.take(i as int)));
        }
        let w = width_of(line[i].text.as_str());
        assert(w < 0x1_0000_0000_0000_0000);
        assert(total + w <= (i + 1) * 0x1_0000_0000_0000_0000) by (nonlinear_arith)
            requires
                total <= i * 0x1_0000_0000_0000_0000,
                w < 0x1_0000_0000_0000_0000,
        ;
        total = total + w as u128;
        i += 1;
    }
    assert(line@.take(line@.len() as int) =~= line@);
    total
}

/// The width of a line's text in cells.
pub fn line_width(line: &Vec<Span>) -> (r: usize)
    requires
        line@.len() < 0x1_0000_0000,
        spans_width(span_views(line@)) <= usize::MAX,
    ensures
        r == spans_width(span_views(line@)),
{
    width_sum(line) as usize
}

/// The longest run of `cs` from `i` whose characters, one by one, fit in
/// `left` cells: it stops at the first that does not.
pub open spec fn fit_from(cs: Seq<char>, i: int, left: int) -> Seq<char>
    decreases cs.len() - i,
{
    if i < 0 || i >= cs.len() {
        Seq::empty()
    } else if display_width(seq![cs[i]]) > left {
        Seq::empty()
    } else {
        seq![cs[i]] + fit_from(cs, i + 1, left - display_width(seq![cs[i]]))
    }
}

/// `text` cut to `width` cells, the last of them an ellipsis, when it does
/// not fit.
pub open spec fn fitted(text: Seq<char>, width: int) -> Seq<char> {
    if display_width(text) <= width {
        text
    } else if width <= 0 {
        Seq::empty()
    } else {
        fit_from(text, 0, width - 1).push('…')
    }
}

/// Cut text to `width` cells with an ellipsis.
pub fn fit(text: &str, width: usize) -> (r: String)
    ensures
        r@ == fitted(text@, width as int),
{
    if width_of(text) <= width {
        return text.to_owned();
    }
    if width == 0 {
        return String::new();
    }
    let cs = chars_of(text);
    let room: u128 = (width - 1) as u128;
    let mut out: Vec<char> = Vec::new();
    let mut used: u128 = 0;
    let mut i: usize = 0;
    while i < cs.len()
        invariant
            i <= cs@.len(),
            cs@ == text@,
            used <= room,
            room == width - 1,
            out@ + fit_from(cs@, i as int, room - used) == fit_from(cs@, 0, room as int),
        ensures
            out@ + fit_from(cs@, i as int, room - used) == fit_from(cs@, 0, room as int),
            fit_from(cs@, i as int, room - used) == Seq::<char>::empty(),
        decreases cs.len() - i,
    {
        let c = cs[i];
        let mut one: Vec<char> = Vec::new();
        one.push(c);
        assert(one@ =~= seq![cs@[i as int]]);
        let w = width_of(string_of(one.as_slice()).as_str()) as u128;
        if used + w > room {
            break;
        }
        proof {
            assert(out@.push(c) + fit_from(cs@, i + 1, room - (used + w)) =~= out@ + fit_from(cs@, i as int, room - used));
        }
        out.push(c);
        used = used + w;
        i += 1;
    }
    assert(out@ =~= fit_from(cs@, 0, room as int));
    out.push('…');
    string_of(out.as_slice())
}

/// `x`, or 0 when it is negative: `usize::saturating_sub` on integers.
pub open spec fn max0(x: int) -> int {
    if x > 0 {
        x
    } else {
        0
    }
}

/// `n` spaces.
pub open spec fn spaces(n: int) -> Seq<char> {
    Seq::new(max0(n) as nat, |i: int| ' ')
}

/// The colour of a priority mark.
pub open spec fn priority_tone(p: Priority) -> Tone {
    match p {
        Priority::High => Tone::Error,
        Priority::Medium => Tone::Accent,
        _ => Tone::Warning,
    }
}

/// A priority's mark: `!!!`, `!!`, `!` or nothing.
pub open spec fn mark_text(p: Priority) -> Seq<char> {
    match p {
        Priority::High => seq!['!', '!', '!'],
        Priority::Medium => seq!['!', '!'],
        Priority::Low => seq!['!'],
        Priority::Unset => Seq::empty(),
    }
}

/// The glyph in front of a row: a pending flag write, done, overdue, open.
pub open spec fn check_view(completed: bool, overdue: bool, pending: bool) -> SpanView {
    if pending {
        ("◌"@, fg_style(tone_color(Tone::Accent)))
    } else if completed {
        ("⬤"@, fg_style(tone_color(Tone::Done)))
    } else if overdue {
        ("◯"@, fg_style(tone_color(Tone::Overdue)))
    } else {
        ("◯"@, dim_style())
    }
}

/// How the due label is drawn.
pub open spec fn due_style(completed: bool, overdue: bool, today: bool) -> Style {
    if completed {
        dim_style()
    } else if overdue {
        Style { fg: Some(tone_color(Tone::Overdue)), bold: true, ..plain_style() }
    } else if today {
        fg_style(tone_color(Tone::Today))
    } else {
        dim_style()
    }
}

/// Overdue and still open.
pub open spec fn row_overdue(r: Reminder, due: Option<DateTime>, now: DateTime) -> bool {
    !r.completed && overdue(due, r.all_day, now)
}

/// The right-hand badges: urgent, flagged, the due label.
pub open spec fn meta_views(r: Reminder, due: Option<DateTime>, now: DateTime) -> Seq<SpanView> {
    (if r.urgent {
        seq![("⏰ "@, fg_style(tone_color(Tone::Flag)))]
    } else {
        Seq::empty()
    }) + (if r.flagged {
        seq![("⚑ "@, fg_style(tone_color(Tone::Flag)))]
    } else {
        Seq::empty()
    }) + match due {
        Some(d) => seq![(humanize(due, r.all_day, now), due_style(r.completed, row_overdue(r, due, now), same_date(d, now)))],
        None => Seq::empty(),
    }
}

/// The priority mark of an open reminder.
pub open spec fn mark_views(r: Reminder) -> Seq<SpanView> {
    if !r.completed && r.priority != Priority::Unset {
        seq![(mark_text(r.priority) + seq![' '], Style { fg: Some(tone_color(priority_tone(r.priority))), bold: true, ..plain_style() })]
    } else {
        Seq::empty()
    }
}

/// The cells the recurrence and subtask badges take.
pub open spec fn extras_width(r: Reminder) -> int {
    (if r.recurring {
        2int
    } else {
        0int
    }) + (if r.subtask_count > 0 {
        2 + dec(r.subtask_count as nat).len() as int
    } else {
        0int
    })
}

pub open spec fn title_style(completed: bool) -> Style {
    if completed {
        Style { dim: true, crossed_out: true, ..plain_style() }
    } else {
        plain_style()
    }
}

/// The left part of a row after the glyph: the mark, the title cut to the
/// room the badges leave, the recurrence and subtask badges.
pub open spec fn body_views(r: Reminder, meta_width: int, width: int) -> Seq<SpanView> {
    let marks = mark_views(r);
    let budget = max0(width - (3 + if meta_width > 0 {
        meta_width + 2
    } else {
        0
    }));
    let title = fitted(r.title@, max0(budget - (spans_width(marks) + extras_width(r))));
    marks.push((title, title_style(r.completed))) + (if r.recurring {
        seq![(" ↻"@, Style { fg: Some(tone_color(Tone::Tag)), dim: true, ..plain_style() })]
    } else {
        Seq::empty()
    }) + (if r.subtask_count > 0 {
        seq![(" ⤷"@ + dec(r.subtask_count as nat), dim_style())]
    } else {
        Seq::empty()
    })
}

/// The first line of a row: glyph, body, padding, badges.
pub open spec fn first_row(r: Reminder, due: Option<DateTime>, now: DateTime, width: int, pending: bool) -> Seq<SpanView> {
    let meta = meta_views(r, due, now);
    let body = body_views(r, spans_width(meta), width);
    seq![check_view(r.completed, row_overdue(r, due, now), pending), ("  "@, plain_style())] + body + seq![
        (spaces(width - (3 + spans_width(body) + spans_width(meta))), plain_style()),
    ] + meta
}

/// The first line of the notes, cut to 72 characters.
pub open spec fn notes_shown(notes: Seq<char>) -> Seq<char> {
    let ls = crate::text::lines(notes);
    let first = if ls.len() > 0 {
        ls[0]
    } else {
        Seq::empty()
    };
    if first.len() > 72 {
        first.take(71).push('…')
    } else {
        first
    }
}

/// Tags as `#a #b`.
pub open spec fn hashed(tags: Seq<Seq<char>>) -> Seq<Seq<char>> {
    tags.map_values(|t: Seq<char>| seq!['#'] + t)
}

/// A detail after the others, a dot between.
pub open spec fn add_detail(ds: Seq<SpanView>, s: SpanView) -> Seq<SpanView> {
    (if ds.len() > 0 {
        ds.push((" · "@, dim_style()))
    } else {
        ds
    }).push(s)
}

/// The details a row shows under its title: section, first notes line,
/// tags, a link mark.
pub open spec fn detail_views(r: Reminder) -> Seq<SpanView> {
    let d1 = if r.section@.len() > 0 {
        seq![("§ "@ + r.section@, Style { dim: true, italic: true, ..plain_style() })]
    } else {
        Seq::empty()
    };
    let d2 = if r.notes@.len() > 0 {
        add_detail(d1, (notes_shown(r.notes@), dim_style()))
    } else {
        d1
    };
    let d3 = if r.tags@.len() > 0 {
        add_detail(d2, (crate::text::join(hashed(crate::text::string_views(r.tags@)), seq![' ']), Style {
            fg: Some(tone_color(Tone::Tag)),
            dim: true,
            ..plain_style()
        }))
    } else {
        d2
    };
    if r.url@.len() > 0 {
        add_detail(d3, ("🔗"@, dim_style()))
    } else {
        d3
    }
}

/// The details from `i` that fit in `width` cells with `used` taken: each
/// whole while it fits, then the first that does not cut to the room left
/// when more than one cell is.
pub open spec fn clipped(ds: Seq<SpanView>, i: int, used: int, width: int) -> Seq<SpanView>
    decreases ds.len() - i,
{
    if i < 0 || i >= ds.len() {
        Seq::empty()
    } else if used + display_width(ds[i].0) > width {
        if max0(width - used) > 1 {
            seq![(fitted(ds[i].0, max0(width - used)), ds[i].1)]
        } else {
            Seq::empty()
        }
    } else {
        seq![ds[i]] + clipped(ds, i + 1, used + display_width(ds[i].0), width)
    }
}

/// A reminder row as one or two lines: glyph, title and badges, then the
/// details line when there are details.
pub open spec fn reminder_rows(r: Reminder, due: Option<DateTime>, now: DateTime, width: int, pending: bool) -> Seq<Seq<SpanView>> {
    let ds = detail_views(r);
    if ds.len() > 0 {
        seq![first_row(r, due, now, width, pending), seq![("   "@, plain_style())] + clipped(ds, 0, 3, width)]
    } else {
        seq![first_row(r, due, now, width, pending)]
    }
}

/// The plain values of lines of spans.
pub open spec fn lines_view(v: Seq<Vec<Span>>) -> Seq<Seq<SpanView>> {
    v.map_values(|l: Vec<Span>| span_views(l@))
}

pub(crate) fn span(text: &str, style: Style) -> (s: Span)
    ensures
        s.view() == (text@, style),
{
    Span { text: text.to_owned(), style }
}

pub(crate) fn push_span(line: &mut Vec<Span>, s: Span)
    ensures
        span_views(final(line)@) == span_views(old(line)@).push(s.view()),
        final(line)@.len() == old(line)@.len() + 1,
{
    let ghost before = line@;
    line.push(s);
    assert(span_views(line@) =~= span_views(before).push(s.view()));
}

fn check_span(completed: bool, overdue: bool, pending: bool) -> (s: Span)
    ensures
        s.view() == check_view(completed, overdue, pending),
{
    if pending {
        span("◌", fg(color(Tone::Accent)))
    } else if completed {
        span("⬤", fg(color(Tone::Done)))
    } else if overdue {
        span("◯", fg(color(Tone::Overdue)))
    } else {
        span("◯", dim())
    }
}

fn meta_spans(r: &Reminder, due: Option<DateTime>, now: DateTime) -> (m: Vec<Span>)
    requires
        due matches Some(d) ==> valid_datetime(d),
        valid_datetime(now),
    ensures
        span_views(m@) == meta_views(*r, due, now),
        m@.len() <= 3,
{
    let mut m: Vec<Span> = Vec::new();
    if r.urgent {
        push_span(&mut m, span("⏰ ", fg(color(Tone::Flag))));
    }
    if r.flagged {
        push_span(&mut m, span("⚑ ", fg(color(Tone::Flag))));
    }
    match due {
        Some(d) => {
            let od = !r.completed && is_overdue(due, r.all_day, now);
            let style = if r.completed {
                dim()
            } else if od {
                Style { fg: Some(color(Tone::Overdue)), bold: true, ..plain() }
            } else if is_due_today(due, now) {
                fg(color(Tone::Today))
            } else {
                dim()
            };
            let label = humanize_due(due, r.all_day, now);
            push_span(&mut m, Span { text: label, style });
        },
        None => {},
    }
    assert(span_views(m@) =~= meta_views(*r, due, now));
    m
}

fn mark_spans(r: &Reminder) -> (m: Vec<Span>)
    ensures
        span_views(m@) == mark_views(*r),
        m@.len() <= 1,
{
    let mut m: Vec<Span> = Vec::new();
    if !r.completed && r.priority != Priority::Unset {
        let tone = match r.priority {
            Priority::High => Tone::Error,
            Priority::Medium => Tone::Accent,
            _ => Tone::Warning,
        };
        assert(tone == priority_tone(r.priority));
        let mut t = chars_of(r.priority.mark());
        t.push(' ');
        assert(t@ =~= mark_text(r.priority) + seq![' ']);
        let style = Style { fg: Some(color(tone)), bold: true, ..plain() };
        assert(style == Style { fg: Some(tone_color(priority_tone(r.priority))), bold: true, ..plain_style() });
        push_span(&mut m, Span { text: string_of(t.as_slice()), style });
    }
    assert(span_views(m@) =~= mark_views(*r));
    m
}

fn body_spans(r: &Reminder, meta_width: u128, width: usize) -> (b: Vec<Span>)
    requires
        meta_width < 0x1_0000_0000_0000_0000_0000,
    ensures
        span_views(b@) == body_views(*r, meta_width as int, width as int),
        b@.len() <= 4,
{
    let mut b = mark_spans(r);
    let taken: u128 = 3 + if meta_width > 0 {
        meta_width + 2
    } else {
        0
    };
    let budget: u128 = if (width as u128) > taken {
        width as u128 - taken
    } else {
        0
    };
    let marks_width = width_sum(&b);
    let subtasks: Vec<char> = if r.subtask_count > 0 {
        decimal(r.subtask_count as u64)
    } else {
        Vec::new()
    };
    let fixed: u128 = marks_width + (if r.recurring {
        2
    } else {
        0
    }) + (if r.subtask_count > 0 {
        2 + subtasks.len() as u128
    } else {
        0
    });
    let room: u128 = if budget > fixed {
        budget - fixed
    } else {
        0
    };
    let title = fit(r.title.as_str(), room as usize);
    let style = if r.completed {
        Style { dim: true, crossed_out: true, ..plain() }
    } else {
        plain()
    };
    push_span(&mut b, Span { text: title, style });
    if r.recurring {
        push_span(&mut b, span(" ↻", Style { fg: Some(color(Tone::Tag)), dim: true, ..plain() }));
    }
    if r.subtask_count > 0 {
        let mut t = chars_of(" ⤷");
        push_all(&mut t, subtasks.as_slice());
        push_span(&mut b, Span { text: string_of(t.as_slice()), style: dim() });
    }
    assert(span_views(b@) =~= body_views(*r, meta_width as int, width as int));
    b
}

fn push_line(lines: &mut Vec<Vec<Span>>, l: Vec<Span>)
    ensures
        lines_view(final(lines)@) == lines_view(old(lines)@).push(span_views(l@)),
{
    let ghost before = lines@;
    let ghost lv = span_views(l@);
    lines.push(l);
    assert(lines_view(lines@) =~= lines_view(before).push(lv));
}

pub(crate) fn spaces_of(n: usize) -> (r: String)
    ensures
        r@ == spaces(n as int),
{
    let mut v: Vec<char> = Vec::new();
    let mut i: usize = 0;
    while i < n
        invariant
            i <= n,
            v@ == Seq::new(i as nat, |k: int| ' '),
        decreases n - i,
    {
        v.push(' ');
        i += 1;
        assert(v@ =~= Seq::new(i as nat, |k: int| ' '));
    }
    string_of(v.as_slice())
}

fn append_spans(line: &mut Vec<Span>, more: Vec<Span>)
    ensures
        span_views(final(line)@) == span_views(old(line)@) + span_views(more@),
{
    let ghost start = span_views(line@);
    let mut i: usize = 0;
    let ghost all = span_views(more@);
    while i < more.len()
        invariant
            i <= more@.len(),
            all == span_views(more@),
            span_views(line@) == start + all.take(i as int),
        decreases more.len() - i,
    {
        let s = Span { text: more[i].text.clone(), style: more[i].style };
        assert(s.view() == all[i as int]);
        push_span(line, s);
        assert(all.take(i + 1) =~= all.take(i as int).push(all[i as int]));
        i += 1;
    }
    assert(all.take(all.len() as int) =~= all);
}

fn first_line_of(r: &Reminder, due: Option<DateTime>, now: DateTime, width: usize, pending: bool) -> (l: Vec<Span>)
    requires
        due matches Some(d) ==> valid_datetime(d),
        valid_datetime(now),
    ensures
        span_views(l@) == first_row(*r, due, now, width as int, pending),
{
    let meta = meta_spans(r, due, now);
    let ghost mv = span_views(meta@);
    let meta_width = width_sum(&meta);
    let body = body_spans(r, meta_width, width);
    let ghost bv = span_views(body@);
    let body_width = width_sum(&body);
    let taken: u128 = 3 + body_width + meta_width;
    let pad: usize = if (width as u128) > taken {
        (width as u128 - taken) as usize
    } else {
        0
    };
    assert(spaces(pad as int) =~= spaces(width - (3 + spans_width(bv) + spans_width(mv))));
    let od = !r.completed && is_overdue(due, r.all_day, now);
    let mut line: Vec<Span> = Vec::new();
    push_span(&mut line, check_span(r.completed, od, pending));
    push_span(&mut line, span("  ", plain()));
    let ghost head = span_views(line@);
    assert(head =~= seq![check_view(r.completed, row_overdue(*r, due, now), pending), ("  "@, plain_style())]);
    append_spans(&mut line, body);
    push_span(&mut line, Span { text: spaces_of(pad), style: plain() });
    append_spans(&mut line, meta);
    proof {
        lemma_first_row(*r, due, now, width as int, pending, head, bv, mv, spaces(pad as int), span_views(line@));
    }
    line
}

proof fn lemma_first_row(
    r: Reminder,
    due: Option<DateTime>,
    now: DateTime,
    width: int,
    pending: bool,
    head: Seq<SpanView>,
    bv: Seq<SpanView>,
    mv: Seq<SpanView>,
    pad: Seq<char>,
    line: Seq<SpanView>,
)
    requires
        mv == meta_views(r, due, now),
        bv == body_views(r, spans_width(mv), width),
        head == seq![check_view(r.completed, row_overdue(r, due, now), pending), ("  "@, plain_style())],
        pad == spaces(width - (3 + spans_width(bv) + spans_width(mv))),
        line == (head + bv).push((pad, plain_style())) + mv,
    ensures
        line == first_row(r, due, now, width, pending),
{
    assert(line =~= first_row(r, due, now, width, pending));
}

fn shown_notes(notes: &str) -> (r: String)
    ensures
        r@ == notes_shown(notes@),
{
    let ls = crate::text::lines_of(chars_of(notes).as_slice());
    let first: Vec<char> = if ls.len() > 0 {
        let mut c: Vec<char> = Vec::new();
        push_all(&mut c, ls[0].as_slice());
        c
    } else {
        Vec::new()
    };
    assert(first@ == (if crate::text::lines(notes@).len() > 0 {
        crate::text::lines(notes@)[0]
    } else {
        Seq::empty()
    }));
    if first.len() > 72 {
        let mut out: Vec<char> = Vec::new();
        let mut i: usize = 0;
        while i < 71
            invariant
                i <= 71,
                first@.len() > 72,
                out@ == first@.take(i as int),
            decreases 71 - i,
        {
            out.push(first[i]);
            i += 1;
            assert(out@ =~= first@.take(i as int));
        }
        out.push('…');
        string_of(out.as_slice())
    } else {
        string_of(first.as_slice())
    }
}

fn add_detail_span(ds: &mut Vec<Span>, s: Span)
    ensures
        span_views(final(ds)@) == add_detail(span_views(old(ds)@), s.view()),
        final(ds)@.len() <= old(ds)@.len() + 2,
{
    if ds.len() > 0 {
        push_span(ds, span(" · ", dim()));
    }
    push_span(ds, s);
}

fn hashed_tags(tags: &Vec<String>) -> (r: Vec<String>)
    ensures
        crate::text::string_views(r@) == hashed(crate::text::string_views(tags@)),
{
    let mut out: Vec<String> = Vec::new();
    let mut i: usize = 0;
    while i < tags.len()
        invariant
            i <= tags@.len(),
            crate::text::string_views(out@) == hashed(crate::text::string_views(tags@)).take(i as int),
        decreases tags.len() - i,
    {
        let mut t: Vec<char> = Vec::new();
        t.push('#');
        push_str(&mut t, tags[i].as_str());
        assert(t@ =~= seq!['#'] + tags@[i as int]@);
        let ghost before = crate::text::string_views(out@);
        out.push(string_of(t.as_slice()));
        assert(crate::text::string_views(out@) =~= before.push(t@));
        assert(hashed(crate::text::string_views(tags@))[i as int] == seq!['#'] + tags@[i as int]@);
        assert(hashed(crate::text::string_views(tags@)).take(i + 1) =~= hashed(crate::text::string_views(tags@)).take(
            i as int,
        ).push(t@));
        i += 1;
    }
    assert(hashed(crate::text::string_views(tags@)).take(tags@.len() as int) =~= hashed(crate::text::string_views(tags@)));
    out
}

fn detail_spans(r: &Reminder) -> (ds: Vec<Span>)
    ensures
        span_views(ds@) == detail_views(*r),
        ds@.len() <= 7,
{
    let mut ds: Vec<Span> = Vec::new();
    if !r.section.as_str().is_empty() {
        let mut t = chars_of("§ ");
        push_str(&mut t, r.section.as_str());
        push_span(&mut ds, Span { text: string_of(t.as_slice()), style: Style { dim: true, italic: true, ..plain() } });
    }
    assert(span_views(ds@) =~= (if r.section@.len() > 0 {
        seq![("§ "@ + r.section@, Style { dim: true, italic: true, ..plain_style() })]
    } else {
        Seq::<SpanView>::empty()
    }));
    if !r.notes.as_str().is_empty() {
        add_detail_span(&mut ds, Span { text: shown_notes(r.notes.as_str()), style: dim() });
    }
    if r.tags.len() > 0 {
        let joined = crate::text::join_strings(hashed_tags(&r.tags).as_slice(), " ");
        proof {
            reveal_strlit(" ");
            assert(" "@ =~= seq![' ']);
        }
        add_detail_span(&mut ds, Span { text: joined, style: Style { fg: Some(color(Tone::Tag)), dim: true, ..plain() } });
    }
    if !r.url.as_str().is_empty() {
        add_detail_span(&mut ds, span("🔗", dim()));
    }
    ds
}

/// The details line after its indent.
fn clip_details(ds: &Vec<Span>, width: usize) -> (l: Vec<Span>)
    requires
        ds@.len() <= 7,
    ensures
        span_views(l@) == clipped(span_views(ds@), 0, 3, width as int),
{
    let ghost all = span_views(ds@);
    let mut out: Vec<Span> = Vec::new();
    let mut used: u128 = 3;
    let mut i: usize = 0;
    while i < ds.len()
        invariant_except_break
            span_views(out@) + clipped(all, i as int, used as int, width as int) == clipped(all, 0, 3, width as int),
        invariant
            i <= ds@.len(),
            ds@.len() <= 7,
            all == span_views(ds@),
            3 <= used <= 3 + i * 0x1_0000_0000_0000_0000,
        ensures
            span_views(out@) == clipped(all, 0, 3, width as int),
        decreases ds.len() - i,
    {
        let w = width_of(ds[i].text.as_str()) as u128;
        assert(all[i as int] == ds@[i as int].view());
        if used + w > width as u128 {
            let room: u128 = if (width as u128) > used {
                width as u128 - used
            } else {
                0
            };
            if room > 1 {
                let s = Span { text: fit(ds[i].text.as_str(), room as usize), style: ds[i].style };
                proof {
                    assert(span_views(out@).push(s.view()) =~= span_views(out@) + clipped(all, i as int, used as int, width as int));
                }
                push_span(&mut out, s);
            } else {
                assert(span_views(out@) =~= span_views(out@) + clipped(all, i as int, used as int, width as int));
            }
            break;
        }
        let s = Span { text: ds[i].text.clone(), style: ds[i].style };
        proof {
            assert(span_views(out@).push(s.view()) + clipped(all, i + 1, used + w, width as int) =~= span_views(out@)
                + clipped(all, i as int, used as int, width as int));
        }
        push_span(&mut out, s);
        assert(w <= 0xFFFF_FFFF_FFFF_FFFF);
        used = used + w;
        i += 1;
    }
    out
}

/// A reminder row as one or two lines, with its due moment given: check |
/// title and badges … meta, then an optional details line. `pending` marks
/// a flag write in flight.
pub fn reminder_lines_at(r: &Reminder, due: Option<DateTime>, now: DateTime, width: usize, pending: bool) -> (lines: Vec<
    Vec<Span>,
>)
    requires
        due matches Some(d) ==> valid_datetime(d),
        valid_datetime(now),
    ensures
        lines_view(lines@) == reminder_rows(*r, due, now, width as int, pending),
{
    let mut lines: Vec<Vec<Span>> = Vec::new();
    push_line(&mut lines, first_line_of(r, due, now, width, pending));
    let ds = detail_spans(r);
    assert(span_views(ds@).len() == ds@.len());
    if ds.len() > 0 {
        let mut second: Vec<Span> = Vec::new();
        push_span(&mut second, span("   ", plain()));
        let clipped_part = clip_details(&ds, width);
        let ghost cv = span_views(clipped_part@);
        append_spans(&mut second, clipped_part);
        assert(span_views(second@) =~= seq![("   "@, plain_style())] + clipped(detail_views(*r), 0, 3, width as int));
        push_line(&mut lines, second);
    }
    assert(lines_view(lines@) =~= reminder_rows(*r, due, now, width as int, pending));
    lines
}

/// A reminder row as one or two lines at `now`, its due stamp parsed.
pub fn reminder_lines(r: &Reminder, now: DateTime, width: usize, pending: bool) -> (lines: Vec<Vec<Span>>)
    requires
        valid_datetime(now),
    ensures
        exists|due: Option<DateTime>|
            crate::dates::due_fits(r.due_raw@, due) && lines_view(lines@) == #[trigger] reminder_rows(*r, due, now, width as int, pending),
{
    let due = r.due();
    let lines = reminder_lines_at(r, due, now, width, pending);
    assert(crate::dates::due_fits(r.due_raw@, due) && lines_view(lines@) == reminder_rows(*r, due, now, width as int, pending));
    lines
}

/// A sidebar section header: the label in capitals, bold grey.
pub open spec fn nav_header_view(label: Seq<char>) -> Seq<SpanView> {
    seq![(uppercase(label), Style { fg: Some(tone_color(Tone::NavHeader)), bold: true, ..plain_style() })]
}

pub fn nav_header(label: &str) -> (l: Vec<Span>)
    ensures
        span_views(l@) == nav_header_view(label@),
        (forall|i: int| 0 <= i < label@.len() ==> (label@[i] as u32) < 128) ==> span_views(l@)
            == seq![(label@.map_values(|c: char| crate::text::ascii_upper(c)), Style { fg: Some(tone_color(Tone::NavHeader)), bold: true, ..plain_style() })],
{
    let mut l: Vec<Span> = Vec::new();
    push_span(&mut l, Span { text: to_upper(label), style: Style { fg: Some(color(Tone::NavHeader)), bold: true, ..plain() } });
    l
}

/// A smart view in the sidebar: its icon in its colour, its label cut to
/// the width.
pub open spec fn smart_row_view(v: SmartView, width: int) -> Seq<SpanView> {
    seq![
        (crate::models::view_icon(v) + seq![' '], fg_style(hex_color(crate::models::view_hex(v)))),
        (fitted(crate::models::view_label(v), max0(width - 2)), plain_style()),
    ]
}

pub fn smart_row(view: SmartView, width: usize) -> (l: Vec<Span>)
    ensures
        span_views(l@) == smart_row_view(view, width as int),
{
    let mut icon = chars_of(view.icon());
    icon.push(' ');
    assert(icon@ =~= crate::models::view_icon(view) + seq![' ']);
    let mut l: Vec<Span> = Vec::new();
    push_span(&mut l, Span { text: string_of(icon.as_slice()), style: fg(hex(view.color_hex())) });
    let room: usize = if width > 2 {
        width - 2
    } else {
        0
    };
    assert(room as int == max0(width - 2));
    push_span(&mut l, Span { text: fit(view.label(), room), style: plain() });
    assert(span_views(l@) =~= smart_row_view(view, width as int));
    l
}

/// The active count a list shows, or nothing.
pub open spec fn list_count(l: ReminderList) -> Seq<char> {
    if l.active > 0 {
        dec(l.active as nat)
    } else {
        Seq::empty()
    }
}

/// A list in the sidebar: a dot in its colour, its emoji, its title cut to
/// the room the count leaves, the count at the right edge.
pub open spec fn list_row_view(l: ReminderList, width: int) -> Seq<SpanView> {
    let count = list_count(l);
    let lead = 2 + if l.emoji@.len() > 0 {
        display_width(l.emoji@) + 1
    } else {
        0int
    };
    let title = fitted(l.title@, max0(width - (lead + if count.len() == 0 {
        0int
    } else {
        count.len() + 1int
    })));
    seq![("● "@, fg_style(hex_color(l.color_hex@)))] + (if l.emoji@.len() > 0 {
        seq![(l.emoji@ + seq![' '], plain_style())]
    } else {
        Seq::empty()
    }) + seq![
        (title, plain_style()),
        (spaces(width - (lead + display_width(title) + count.len())), plain_style()),
        (count, dim_style()),
    ]
}

pub fn list_row(list: &ReminderList, width: usize) -> (l: Vec<Span>)
    ensures
        span_views(l@) == list_row_view(*list, width as int),
{
    let count: Vec<char> = if list.active > 0 {
        decimal(list.active as u64)
    } else {
        Vec::new()
    };
    let mut left: Vec<Span> = Vec::new();
    push_span(&mut left, span("● ", fg(hex(list.color_hex.as_str()))));
    assert(count@ == list_count(*list));
    let mut used: u128 = 2;
    if !list.emoji.as_str().is_empty() {
        let mut e = chars_of(list.emoji.as_str());
        e.push(' ');
        assert(e@ =~= list.emoji@ + seq![' ']);
        push_span(&mut left, Span { text: string_of(e.as_slice()), style: plain() });
        used = used + width_of(list.emoji.as_str()) as u128 + 1;
    }
    let ghost lead = 2 + if list.emoji@.len() > 0 {
        display_width(list.emoji@) + 1
    } else {
        0int
    };
    assert(used == lead);
    let ghost head = span_views(left@);
    assert(head =~= seq![("● "@, fg_style(hex_color(list.color_hex@)))] + (if list.emoji@.len() > 0 {
        seq![(list.emoji@ + seq![' '], plain_style())]
    } else {
        Seq::empty()
    }));
    let want: u128 = used + if count.len() == 0 {
        0
    } else {
        count.len() as u128 + 1
    };
    let room: usize = if (width as u128) > want {
        (width as u128 - want) as usize
    } else {
        0
    };
    assert(room as int == max0(width - (lead + if list_count(*list).len() == 0 {
        0int
    } else {
        list_count(*list).len() + 1int
    })));
    let title = fit(list.title.as_str(), room);
    let taken: u128 = used + width_of(title.as_str()) as u128 + count.len() as u128;
    let pad: usize = if (width as u128) > taken {
        (width as u128 - taken) as usize
    } else {
        0
    };
    let ghost title_v = title@;
    push_span(&mut left, Span { text: title, style: plain() });
    push_span(&mut left, Span { text: spaces_of(pad), style: plain() });
    push_span(&mut left, Span { text: string_of(count.as_slice()), style: dim() });
    assert(spaces(pad as int) =~= spaces(width - (used + display_width(title_v) + count@.len())));
    assert(span_views(left@) =~= list_row_view(*list, width as int));
    left
}

/// The glyph of wordmark letter `i` on line `row`.
pub open spec fn wordmark(i: int, row: int) -> Seq<char> {
    if i == 0 {
        if row == 0 { "╦═╗"@ } else if row == 1 { "╠╦╝"@ } else { "╩╚═"@ }
    } else if i == 1 {
        if row == 0 { "┌─┐"@ } else if row == 1 { "├┤ "@ } else { "└─┘"@ }
    } else if i == 2 {
        if row == 0 { "┌┬┐"@ } else if row == 1 { "│││"@ } else { "┴ ┴"@ }
    } else if i == 3 {
        if row == 0 { "╔╦╗"@ } else if row == 1 { " ║ "@ } else { " ╩ "@ }
    } else if i == 4 {
        if row == 0 { "╦ ╦"@ } else if row == 1 { "║ ║"@ } else { "╚═╝"@ }
    } else {
        if row == 0 { "╦"@ } else if row == 1 { "║"@ } else { "╩"@ }
    }
}

fn wordmark_glyph(i: usize, row: usize) -> (s: &'static str)
    requires
        i < 6,
        row < 3,
    ensures
        s@ == wordmark(i as int, row as int),
{
    if i == 0 {
        if row == 0 { "╦═╗" } else if row == 1 { "╠╦╝" } else { "╩╚═" }
    } else if i == 1 {
        if row == 0 { "┌─┐" } else if row == 1 { "├┤ " } else { "└─┘" }
    } else if i == 2 {
        if row == 0 { "┌┬┐" } else if row == 1 { "│││" } else { "┴ ┴" }
    } else if i == 3 {
        if row == 0 { "╔╦╗" } else if row == 1 { " ║ " } else { " ╩ " }
    } else if i == 4 {
        if row == 0 { "╦ ╦" } else if row == 1 { "║ ║" } else { "╚═╝" }
    } else {
        if row == 0 { "╦" } else if row == 1 { "║" } else { "╩" }
    }
}

/// The first `n` letters of wordmark line `row`, a space between letters,
/// each bold in its rainbow colour.
pub open spec fn logo_spans(row: int, n: int) -> Seq<SpanView>
    decreases n,
{
    if n <= 0 {
        Seq::empty()
    } else {
        (if n > 1 {
            logo_spans(row, n - 1).push((seq![' '], plain_style()))
        } else {
            Seq::empty()
        }).push((wordmark(n - 1, row), Style { fg: Some(crate::ui::theme::rainbow_at(n - 1)), bold: true, ..plain_style() }))
    }
}

/// The sidebar wordmark: "RemTUI" in box glyphs, one colour per letter.
pub fn logo() -> (lines: Vec<Vec<Span>>)
    ensures
        lines_view(lines@) == seq![logo_spans(0, 6), logo_spans(1, 6), logo_spans(2, 6)],
{
    let mut lines: Vec<Vec<Span>> = Vec::new();
    let mut row: usize = 0;
    while row < 3
        invariant
            row <= 3,
            lines_view(lines@) == Seq::new(row as nat, |k: int| logo_spans(k, 6)),
        decreases 3 - row,
    {
        let mut spans: Vec<Span> = Vec::new();
        let mut i: usize = 0;
        while i < 6
            invariant
                i <= 6,
                row < 3,
                span_views(spans@) == logo_spans(row as int, i as int),
            decreases 6 - i,
        {
            proof {
                reveal_strlit(" ");
                assert(" "@ =~= seq![' ']);
            }
            let g = Span {
                text: wordmark_glyph(i, row).to_owned(),
                style: Style { fg: Some(crate::ui::theme::rainbow(i)), bold: true, ..plain() },
            };
            assert(g.view() == (wordmark(i as int, row as int), Style {
                fg: Some(crate::ui::theme::rainbow_at(i as int)),
                bold: true,
                ..plain_style()
            }));
            let ghost before = span_views(spans@);
            if i > 0 {
                push_span(&mut spans, span(" ", plain()));
                assert(span_views(spans@) == before.push((seq![' '], plain_style())));
            }
            push_span(&mut spans, g);
            assert(logo_spans(row as int, i + 1) == (if i + 1 > 1 {
                logo_spans(row as int, i as int).push((seq![' '], plain_style()))
            } else {
                Seq::empty()
            }).push(g.view()));
            i += 1;
            assert(span_views(spans@) =~= logo_spans(row as int, i as int));
        }
        push_line(&mut lines, spans);
        row += 1;
        assert(lines_view(lines@) =~= Seq::new(row as nat, |k: int| logo_spans(k, 6)));
    }
    assert(lines_view(lines@) =~= seq![logo_spans(0, 6), logo_spans(1, 6), logo_spans(2, 6)]);
    lines
}

} // verus!
