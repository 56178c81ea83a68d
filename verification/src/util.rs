//! Small helpers with no better home: paths and first lines.

use vstd::prelude::*;

use crate::text::{
    chars_of, end_without_ws, is_ws, leading_ws, lines, lines_of, push_all, push_str, slice_chars,
    string_of, trim, trim_chars,
};

verus! {

/// `PathBuf::join` on Unix: an absolute `rest` replaces `base`; otherwise a
/// `/` is put between them unless `base` is empty or already ends in one.
pub open spec fn path_join(base: Seq<char>, rest: Seq<char>) -> Seq<char> {
    if rest.len() > 0 && rest[0] == '/' {
        rest
    } else if base.len() > 0 && base.last() != '/' {
        base + seq!['/'] + rest
    } else {
        base + rest
    }
}

/// `~` and `~/x` expanded against `home`, anything else as written.
pub open spec fn tilde_expanded(text: Seq<char>, home: Seq<char>) -> Seq<char> {
    if text == seq!['~'] {
        home
    } else if text.len() >= 2 && text[0] == '~' && text[1] == '/' {
        path_join(home, text.skip(2))
    } else {
        text
    }
}

/// `~` and `~/x` expanded against the home directory `home`, anything else
/// returned as written.
pub fn expand_tilde(text: &str, home: &str) -> (r: String)
    ensures
        r@ == tilde_expanded(text@, home@),
{
    let t = chars_of(text);
    let h = chars_of(home);
    if t.len() == 1 && t[0] == '~' {
        assert(t@ =~= seq!['~']);
        return home.to_owned();
    }
    if !(t.len() >= 2 && t[0] == '~' && t[1] == '/') {
        assert(t@ != seq!['~']);
        return text.to_owned();
    }
    let rest = slice_chars(t.as_slice(), 2, t.len());
    assert(rest@ == t@.skip(2));
    if rest.len() > 0 && rest[0] == '/' {
        return string_of(rest.as_slice());
    }
    let mut out = slice_chars(h.as_slice(), 0, h.len());
    assert(out@ =~= h@);
    if h.len() > 0 && h[h.len() - 1] != '/' {
        out.push('/');
    }
    push_all(&mut out, rest.as_slice());
    string_of(out.as_slice())
}

/// The first line of `text` that is not blank, trimmed.
pub open spec fn first_nonblank(ls: Seq<Seq<char>>) -> Seq<char>
    decreases ls.len(),
{
    if ls.len() == 0 {
        Seq::empty()
    } else if trim(ls[0]).len() > 0 {
        trim(ls[0])
    } else {
        first_nonblank(ls.drop_first())
    }
}

/// The first non-blank line, trimmed, or "".
pub fn first_line(text: &str) -> (r: String)
    ensures
        r@ == first_nonblank(lines(text@)),
{
    let v = chars_of(text);
    let ls = lines_of(v.as_slice());
    let ghost all = crate::text::views(ls@);
    let mut i: usize = 0;
    assert(all.skip(0) =~= all);
    while i < ls.len()
        invariant
            i <= ls@.len(),
            all == crate::text::views(ls@),
            all == lines(text@),
            first_nonblank(all) == first_nonblank(all.skip(i as int)),
        decreases ls.len() - i,
    {
        let t = trim_chars(ls[i].as_slice());
        proof {
            assert(all.skip(i as int)[0] == ls@[i as int]@);
        }
        if t.len() > 0 {
            return string_of(t.as_slice());
        }
        proof {
            assert(all.skip(i as int).drop_first() =~= all.skip(i + 1));
        }
        i += 1;
    }
    String::new()
}

/// `text` cut to `max` characters, ending in `…` when anything was cut.
pub open spec fn ellipsized(text: Seq<char>, max: nat) -> Seq<char> {
    if text.len() <= max {
        text
    } else {
        let keep = if max >= 1 {
            (max - 1) as nat
        } else {
            0
        };
        text.take(keep as int).push('…')
    }
}

/// Truncate to `max` characters, ending in `…` when anything was cut.
pub fn ellipsize(text: &str, max: usize) -> (r: String)
    ensures
        r@ == ellipsized(text@, max as nat),
{
    let v = chars_of(text);
    if v.len() <= max {
        return text.to_owned();
    }
    let keep = if max >= 1 {
        max - 1
    } else {
        0
    };
    let mut out = slice_chars(v.as_slice(), 0, keep);
    out.push('…');
    string_of(out.as_slice())
}

} // verus!
