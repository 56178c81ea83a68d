//! The palette: remtui's Apple colors as RGB, the terminal's own foreground
//! and background everywhere else, and the styles built from them.

use vstd::prelude::*;

use crate::text::{chars_of, trim, trim_chars};

verus! {

/// A terminal colour.
#[derive(Debug, Clone, Copy, PartialEq, Eq, Structural)]
pub enum Color {
    Rgb(u8, u8, u8),
    DarkGray,
}

/// The named colours of the palette.
#[derive(Debug, Clone, Copy, PartialEq, Eq, Structural)]
pub enum Tone {
    Primary,
    Accent,
    Warning,
    Error,
    Success,
    Secondary,
    Tag,
    Today,
    Overdue,
    Flag,
    Done,
    NavHeader,
    /// The unfocused cursor bar.
    Panel,
    /// The focused cursor bar: the primary blue at 35% over the dark background.
    Cursor,
    Border,
    Muted,
}

pub open spec fn tone_color(t: Tone) -> Color {
    match t {
        Tone::Primary | Tone::Today => Color::Rgb(0x0A, 0x84, 0xFF),
        Tone::Accent | Tone::Flag => Color::Rgb(0xFF, 0x9F, 0x0A),
        Tone::Warning => Color::Rgb(0xFF, 0xD6, 0x0A),
        Tone::Error | Tone::Overdue => Color::Rgb(0xFF, 0x45, 0x3A),
        Tone::Success | Tone::Done => Color::Rgb(0x30, 0xD1, 0x58),
        Tone::Secondary => Color::Rgb(0x5E, 0x5C, 0xE6),
        Tone::Tag => Color::Rgb(0x64, 0xD2, 0xFF),
        Tone::NavHeader => Color::Rgb(0x6E, 0x6E, 0x73),
        Tone::Panel => Color::Rgb(0x3A, 0x3A, 0x3C),
        Tone::Cursor => Color::Rgb(0x1B, 0x40, 0x6F),
        Tone::Border | Tone::Muted => Color::DarkGray,
    }
}

/// The colour of a palette name.
pub fn color(t: Tone) -> (c: Color)
    ensures
        c == tone_color(t),
{
    match t {
        Tone::Primary | Tone::Today => Color::Rgb(0x0A, 0x84, 0xFF),
        Tone::Accent | Tone::Flag => Color::Rgb(0xFF, 0x9F, 0x0A),
        Tone::Warning => Color::Rgb(0xFF, 0xD6, 0x0A),
        Tone::Error | Tone::Overdue => Color::Rgb(0xFF, 0x45, 0x3A),
        Tone::Success | Tone::Done => Color::Rgb(0x30, 0xD1, 0x58),
        Tone::Secondary => Color::Rgb(0x5E, 0x5C, 0xE6),
        Tone::Tag => Color::Rgb(0x64, 0xD2, 0xFF),
        Tone::NavHeader => Color::Rgb(0x6E, 0x6E, 0x73),
        Tone::Panel => Color::Rgb(0x3A, 0x3A, 0x3C),
        Tone::Cursor => Color::Rgb(0x1B, 0x40, 0x6F),
        Tone::Border | Tone::Muted => Color::DarkGray,
    }
}

/// The classic Apple logo rainbow, left to right across the wordmark.
pub open spec fn rainbow_at(i: int) -> Color {
    if i == 0 {
        Color::Rgb(0x61, 0xBB, 0x46)
    } else if i == 1 {
        Color::Rgb(0xFD, 0xB8, 0x27)
    } else if i == 2 {
        Color::Rgb(0xF5, 0x82, 0x1F)
    } else if i == 3 {
        Color::Rgb(0xE0, 0x3A, 0x3E)
    } else if i == 4 {
        Color::Rgb(0x96, 0x3D, 0x97)
    } else {
        Color::Rgb(0x00, 0x9D, 0xDC)
    }
}

pub fn rainbow(i: usize) -> (c: Color)
    requires
        i < 6,
    ensures
        c == rainbow_at(i as int),
{
    if i == 0 {
        Color::Rgb(0x61, 0xBB, 0x46)
    } else if i == 1 {
        Color::Rgb(0xFD, 0xB8, 0x27)
    } else if i == 2 {
        Color::Rgb(0xF5, 0x82, 0x1F)
    } else if i == 3 {
        Color::Rgb(0xE0, 0x3A, 0x3E)
    } else if i == 4 {
        Color::Rgb(0x96, 0x3D, 0x97)
    } else {
        Color::Rgb(0x00, 0x9D, 0xDC)
    }
}

/// How a piece of text is drawn: colours (the terminal's own where None)
/// and modifiers.
#[derive(Debug, Clone, Copy, PartialEq, Eq, Structural)]
pub struct Style {
    pub fg: Option<Color>,
    pub bg: Option<Color>,
    pub bold: bool,
    pub dim: bool,
    pub italic: bool,
    pub crossed_out: bool,
}

pub open spec fn plain_style() -> Style {
    Style { fg: None, bg: None, bold: false, dim: false, italic: false, crossed_out: false }
}

/// The terminal's own look.
pub fn plain() -> (s: Style)
    ensures
        s == plain_style(),
{
    Style { fg: None, bg: None, bold: false, dim: false, italic: false, crossed_out: false }
}

/// Dimmed text.
pub open spec fn dim_style() -> Style {
    Style { dim: true, ..plain_style() }
}

/// Text in a colour.
pub open spec fn fg_style(c: Color) -> Style {
    Style { fg: Some(c), ..plain_style() }
}

pub fn dim() -> (s: Style)
    ensures
        s == dim_style(),
{
    Style { dim: true, ..plain() }
}

pub fn muted() -> (s: Style)
    ensures
        s == (Style { fg: Some(Color::DarkGray), ..plain_style() }),
{
    Style { fg: Some(Color::DarkGray), ..plain() }
}

pub fn bold() -> (s: Style)
    ensures
        s == (Style { bold: true, ..plain_style() }),
{
    Style { bold: true, ..plain() }
}

pub fn fg(c: Color) -> (s: Style)
    ensures
        s == fg_style(c),
{
    Style { fg: Some(c), ..plain() }
}

/// The cursor bar, focused or not.
pub fn cursor(focused: bool) -> (s: Style)
    ensures
        s == (Style { bg: Some(tone_color(if focused { Tone::Cursor } else { Tone::Panel })), ..plain_style() }),
{
    Style { bg: Some(color(if focused { Tone::Cursor } else { Tone::Panel })), ..plain() }
}

pub fn border() -> (s: Style)
    ensures
        s == (Style { fg: Some(Color::DarkGray), ..plain_style() }),
{
    Style { fg: Some(Color::DarkGray), ..plain() }
}

/// `s` without its leading `#` characters.
pub open spec fn without_hashes(s: Seq<char>) -> Seq<char>
    decreases s.len(),
{
    if s.len() > 0 && s[0] == '#' {
        without_hashes(s.drop_first())
    } else {
        s
    }
}

pub open spec fn hex_digit(c: char) -> Option<int> {
    if '0' <= c <= '9' {
        Some(c as int - 48)
    } else if 'a' <= c <= 'f' {
        Some(c as int - 87)
    } else if 'A' <= c <= 'F' {
        Some(c as int - 55)
    } else {
        None
    }
}

/// The value of a run of hexadecimal digits.
pub open spec fn hex_digits_value(s: Seq<char>) -> Option<int>
    decreases s.len(),
{
    if s.len() == 0 {
        Some(0)
    } else {
        match (hex_digits_value(s.drop_last()), hex_digit(s.last())) {
            (Some(v), Some(d)) => Some(v * 16 + d),
            _ => None,
        }
    }
}

/// What `u32::from_str_radix(t, 16)` accepts: an optional `+`, then one or
/// more hexadecimal digits, within range.
pub open spec fn hex_value(t: Seq<char>) -> Option<int> {
    let body = if t.len() > 0 && t[0] == '+' {
        t.drop_first()
    } else {
        t
    };
    if body.len() == 0 {
        None
    } else {
        match hex_digits_value(body) {
            Some(v) => if v <= u32::MAX {
                Some(v)
            } else {
                None
            },
            None => None,
        }
    }
}

/// `#RRGGBB` (surrounding space and any number of `#` ignored) as a
/// colour; anything else falls back to the primary blue.
pub open spec fn hex_color(text: Seq<char>) -> Color {
    let t = without_hashes(trim(text));
    if t.len() == 6 && hex_value(t) is Some {
        let v = hex_value(t).unwrap();
        Color::Rgb((v / 65536 % 256) as u8, (v / 256 % 256) as u8, (v % 256) as u8)
    } else {
        tone_color(Tone::Primary)
    }
}

fn digit_of(c: char) -> (r: Option<u32>)
    ensures
        match r {
            Some(d) => hex_digit(c) == Some(d as int),
            None => hex_digit(c) is None,
        },
{
    if '0' <= c && c <= '9' {
        Some(c as u32 - 48)
    } else if 'a' <= c && c <= 'f' {
        Some(c as u32 - 87)
    } else if 'A' <= c && c <= 'F' {
        Some(c as u32 - 55)
    } else {
        None
    }
}

/// `#RRGGBB` → a colour; anything else falls back to the primary blue.
pub fn hex(text: &str) -> (c: Color)
    ensures
        c == hex_color(text@),
{
    let trimmed = trim_chars(chars_of(text).as_slice());
    let mut start: usize = 0;
    assert(trimmed@.skip(0) =~= trimmed@);
    while start < trimmed.len() && trimmed[start] == '#'
        invariant
            start <= trimmed@.len(),
            without_hashes(trimmed@) == without_hashes(trimmed@.skip(start as int)),
        decreases trimmed.len() - start,
    {
        assert(trimmed@.skip(start as int).drop_first() =~= trimmed@.skip(start + 1));
        start += 1;
    }
    let ghost t = trimmed@.skip(start as int);
    assert(without_hashes(t) == t);
    assert(t == without_hashes(trim(text@)));
    if trimmed.len() - start != 6 {
        return color(Tone::Primary);
    }
    let mut i: usize = start;
    if trimmed[start] == '+' {
        i = start + 1;
    }
    let ghost body = if t.len() > 0 && t[0] == '+' {
        t.drop_first()
    } else {
        t
    };
    assert(body =~= trimmed@.subrange(i as int, trimmed@.len() as int));
    let mut v: u32 = 0;
    let first = i;
    while i < trimmed.len()
        invariant
            start <= first <= i <= trimmed@.len(),
            trimmed@.len() - start == 6,
            first + 5 <= trimmed@.len(),
            hex_digits_value(trimmed@.subrange(first as int, i as int)) == Some(v as int),
            v < pow16((i - first) as nat),
            body == trimmed@.subrange(first as int, trimmed@.len() as int),
            t == trimmed@.skip(start as int),
            t == without_hashes(trim(text@)),
            body == (if t.len() > 0 && t[0] == '+' {
                t.drop_first()
            } else {
                t
            }),
        decreases trimmed.len() - i,
    {
        assert(trimmed@.subrange(first as int, i + 1).drop_last() =~= trimmed@.subrange(first as int, i as int));
        match digit_of(trimmed[i]) {
            Some(d) => {
                assert(pow16((i + 1 - first) as nat) == 16 * pow16((i - first) as nat));
                assert(v * 16 + d < pow16((i + 1 - first) as nat)) by (nonlinear_arith)
                    requires
                        v < pow16((i - first) as nat),
                        d < 16,
                        pow16((i + 1 - first) as nat) == 16 * pow16((i - first) as nat),
                ;
                proof {
                    lemma_pow16_bound((i + 1 - first) as nat);
                }
                v = v * 16 + d;
            },
            None => {
                proof {
                    assert(body.take(i + 1 - first) =~= trimmed@.subrange(first as int, i + 1));
                    lemma_hex_prefix_none(body, i + 1 - first);
                    assert(hex_value(t) is None);
                }
                return color(Tone::Primary);
            },
        }
        i += 1;
    }
    if first == trimmed.len() {
        return color(Tone::Primary);
    }
    proof {
        lemma_pow16_bound(6);
    }
    Color::Rgb((v / 65536 % 256) as u8, (v / 256 % 256) as u8, (v % 256) as u8)
}

/// A run whose prefix holds a non-digit holds one.
proof fn lemma_hex_prefix_none(s: Seq<char>, j: int)
    requires
        0 <= j <= s.len(),
        hex_digits_value(s.take(j)) is None,
    ensures
        hex_digits_value(s) is None,
    decreases s.len() - j,
{
    if j < s.len() {
        assert(s.take(j + 1).drop_last() =~= s.take(j));
        lemma_hex_prefix_none(s, j + 1);
    } else {
        assert(s.take(j) =~= s);
    }
}

/// Sixteen to the power `k`.
pub open spec fn pow16(k: nat) -> nat
    decreases k,
{
    if k == 0 {
        1
    } else {
        16 * pow16((k - 1) as nat)
    }
}

proof fn lemma_pow16_bound(k: nat)
    requires
        k <= 6,
    ensures
        pow16(k) <= 16_777_216,
    decreases k,
{
    reveal_with_fuel(pow16, 7);
    if k > 0 {
        lemma_pow16_bound((k - 1) as nat);
    }
}

} // verus!
