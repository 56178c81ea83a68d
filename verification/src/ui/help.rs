//! The keyboard reference.

use vstd::prelude::*;

use crate::text::{chars_of, join, join_strings, push_str, string_of, string_views};

verus! {

/// One section of the reference: heading, qualifier, (keys, what they do).
pub struct Section {
    pub heading: &'static str,
    pub qualifier: &'static str,
    pub rows: Vec<(&'static str, &'static str)>,
}

/// A section as plain values.
pub type SectionView = (Seq<char>, Seq<char>, Seq<(Seq<char>, Seq<char>)>);

impl Section {
    pub open spec fn view(&self) -> SectionView {
        (self.heading@, self.qualifier@, self.rows@.map_values(|r: (&'static str, &'static str)| (r.0@, r.1@)))
    }
}

/// The sections of the reference; the Bear section only when Bear triage is on.
pub open spec fn help_sections(bear: bool) -> Seq<SectionView> {
    let base = seq![
        ("Navigate"@, ""@, seq![
            ("j / ↓, k / ↑"@, "move down / up"@),
            ("← / h, → / l"@, "focus sidebar / reminders"@),
            ("tab"@, "switch pane"@),
            ("g, G"@, "jump to top / bottom"@),
        ]),
        ("Reminders"@, ""@, seq![
            ("a"@, "add a reminder"@),
            ("e / enter"@, "edit selected"@),
            ("space"@, "toggle done"@),
            ("d / ⌫"@, "delete (asks first)"@),
            ("f"@, "toggle flag ⚑"@),
            ("p"@, "cycle priority"@),
        ]),
        ("Views"@, ""@, seq![
            ("/"@, "filter current view"@),
            ("esc"@, "clear filter"@),
            ("c"@, "show/hide completed (list views)"@),
            ("r"@, "refresh"@),
        ]),
        ("Form (add / edit)"@, ""@, seq![
            ("ctrl+s"@, "save"@),
            ("ctrl+e"@, "edit notes in $EDITOR"@),
            ("esc"@, "cancel"@),
        ]),
        ("App"@, ""@, seq![
            ("ctrl+p"@, "this help (the Python remtui's command palette)"@),
            ("?"@, "this help"@),
            ("q"@, "quit"@),
        ]),
        ("Vim profile"@, "(--vim, REMTUI_KEYS=vim, or config)"@, seq![
            ("gg / G"@, "jump to top / bottom"@),
            ("ctrl+d / ctrl+u"@, "half page down / up"@),
            ("ctrl+f / ctrl+b"@, "full page down / up"@),
            (":"@, "this help"@),
            ("o"@, "add a reminder"@),
        ]),
    ];
    if bear {
        base.push(("Bear triage"@, "([bear] enabled = true)"@, seq![
            ("b"@, "review open todos from Bear notes"@),
            ("space"@, "mark / unmark a todo"@),
            ("enter / ctrl+s"@, "add marked todos to Reminders"@),
            ("o"@, "open the note in Bear"@),
            ("x"@, "tick the todo in Bear (done rows only, asks first)"@),
            ("/"@, "filter todos"@),
            ("r"@, "reload from Bear and Reminders"@),
        ]))
    } else {
        base
    }
}

fn section(heading: &'static str, qualifier: &'static str, rows: Vec<(&'static str, &'static str)>) -> (s: Section)
    ensures
        s.heading == heading,
        s.qualifier == qualifier,
        s.rows == rows,
{
    Section { heading, qualifier, rows }
}

/// The sections of the reference.
pub fn sections(bear: bool) -> (v: Vec<Section>)
    ensures
        v@.map_values(|s: Section| s.view()) == help_sections(bear),
{
    let mut v = vec![
        section("Navigate", "", vec![
            ("j / ↓, k / ↑", "move down / up"),
            ("← / h, → / l", "focus sidebar / reminders"),
            ("tab", "switch pane"),
            ("g, G", "jump to top / bottom"),
        ]),
        section("Reminders", "", vec![
            ("a", "add a reminder"),
            ("e / enter", "edit selected"),
            ("space", "toggle done"),
            ("d / ⌫", "delete (asks first)"),
            ("f", "toggle flag ⚑"),
            ("p", "cycle priority"),
        ]),
        section("Views", "", vec![
            ("/", "filter current view"),
            ("esc", "clear filter"),
            ("c", "show/hide completed (list views)"),
            ("r", "refresh"),
        ]),
        section("Form (add / edit)", "", vec![
            ("ctrl+s", "save"),
            ("ctrl+e", "edit notes in $EDITOR"),
            ("esc", "cancel"),
        ]),
        section("App", "", vec![
            ("ctrl+p", "this help (the Python remtui's command palette)"),
            ("?", "this help"),
            ("q", "quit"),
        ]),
        section("Vim profile", "(--vim, REMTUI_KEYS=vim, or config)", vec![
            ("gg / G", "jump to top / bottom"),
            ("ctrl+d / ctrl+u", "half page down / up"),
            ("ctrl+f / ctrl+b", "full page down / up"),
            (":", "this help"),
            ("o", "add a reminder"),
        ]),
    ];
    if bear {
        v.push(section("Bear triage", "([bear] enabled = true)", vec![
            ("b", "review open todos from Bear notes"),
            ("space", "mark / unmark a todo"),
            ("enter / ctrl+s", "add marked todos to Reminders"),
            ("o", "open the note in Bear"),
            ("x", "tick the todo in Bear (done rows only, asks first)"),
            ("/", "filter todos"),
            ("r", "reload from Bear and Reminders"),
        ]));
    }
    assert(v@.map_values(|s: Section| s.view()) =~~= help_sections(bear));
    v
}

/// `s` padded with spaces to `width` characters, as `{:<width}` formats it.
pub open spec fn padded(s: Seq<char>, width: nat) -> Seq<char> {
    if s.len() < width {
        s + Seq::new((width - s.len()) as nat, |i: int| ' ')
    } else {
        s
    }
}

/// The lines of one section, with a blank line before every section but the first.
pub open spec fn section_lines(s: SectionView, first: bool) -> Seq<Seq<char>> {
    let blank: Seq<Seq<char>> = if first {
        Seq::empty()
    } else {
        seq![Seq::empty()]
    };
    let heading = if s.1.len() > 0 {
        s.0 + "  "@ + s.1
    } else {
        s.0
    };
    blank + seq![heading] + s.2.map_values(|r: (Seq<char>, Seq<char>)| "  "@ + padded(r.0, 20) + r.1)
}

/// The lines of the reference.
pub open spec fn help_lines(secs: Seq<SectionView>) -> Seq<Seq<char>>
    decreases secs.len(),
{
    if secs.len() == 0 {
        Seq::empty()
    } else {
        help_lines(secs.drop_last()) + section_lines(secs.last(), secs.len() == 1)
    }
}

fn pad_to(v: &mut Vec<char>, s: &str, width: usize)
    ensures
        final(v)@ == old(v)@ + padded(s@, width as nat),
{
    let c = chars_of(s);
    let ghost start = v@;
    let mut i: usize = 0;
    while i < c.len()
        invariant
            i <= c@.len(),
            v@ == start + c@.take(i as int),
        decreases c.len() - i,
    {
        v.push(c[i]);
        i += 1;
        assert(v@ =~= start + c@.take(i as int));
    }
    assert(c@.take(c@.len() as int) =~= c@);
    let mut k = c.len();
    while k < width
        invariant
            c@.len() <= k <= width || (k == c@.len() && k >= width),
            v@ == start + c@ + Seq::new((k - c@.len()) as nat, |i: int| ' '),
        decreases width - k,
    {
        v.push(' ');
        k += 1;
        assert(v@ =~= start + c@ + Seq::new((k - c@.len()) as nat, |i: int| ' '));
    }
    assert(v@ =~= start + padded(s@, width as nat));
}

/// Plain text of the reference, one line per row.
pub fn text(bear: bool) -> (r: String)
    ensures
        r@ == join(help_lines(help_sections(bear)), "\n"@),
{
    let secs = sections(bear);
    let mut out: Vec<String> = Vec::new();
    let mut i: usize = 0;
    while i < secs.len()
        invariant
            i <= secs@.len(),
            secs@.map_values(|s: Section| s.view()) == help_sections(bear),
            string_views(out@) == help_lines(help_sections(bear).take(i as int)),
        decreases secs.len() - i,
    {
        let sec = &secs[i];
        let ghost before = string_views(out@);
        let ghost sv = sec.view();
        proof {
            assert(help_sections(bear)[i as int] == sv);
            assert(help_sections(bear).take(i + 1).drop_last() =~= help_sections(bear).take(i as int));
        }
        if i > 0 {
            out.push(String::new());
        }
        let mut head: Vec<char> = Vec::new();
        push_str(&mut head, sec.heading);
        if !sec.qualifier.is_empty() {
            push_str(&mut head, "  ");
            push_str(&mut head, sec.qualifier);
        }
        out.push(string_of(head.as_slice()));
        let ghost mid = string_views(out@);
        let mut j: usize = 0;
        while j < sec.rows.len()
            invariant
                j <= sec.rows@.len(),
                sv == sec.view(),
                string_views(out@) == mid + sv.2.take(j as int).map_values(|r: (Seq<char>, Seq<char>)| "  "@ + padded(r.0, 20) + r.1),
            decreases sec.rows.len() - j,
        {
            let (key, what) = sec.rows[j];
            let mut line: Vec<char> = Vec::new();
            push_str(&mut line, "  ");
            pad_to(&mut line, key, 20);
            push_str(&mut line, what);
            let ghost prev = string_views(out@);
            out.push(string_of(line.as_slice()));
            proof {
                assert(sv.2[j as int] == (key@, what@));
                assert(sv.2.take(j + 1) =~= sv.2.take(j as int).push(sv.2[j as int]));
                assert(string_views(out@) =~= prev.push(line@));
                assert(string_views(out@) =~= mid + sv.2.take(j + 1).map_values(|r: (Seq<char>, Seq<char>)| "  "@ + padded(r.0, 20) + r.1));
            }
            j += 1;
        }
        proof {
            assert(sv.2.take(sv.2.len() as int) =~= sv.2);
            assert(string_views(out@) =~= before + section_lines(sv, i == 0));
        }
        i += 1;
    }
    proof {
        assert(help_sections(bear).take(secs@.len() as int) =~= help_sections(bear));
    }
    join_strings(out.as_slice(), "\n")
}

} // verus!
