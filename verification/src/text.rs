//! Character-level text helpers shared by the parsers and editors.

use vstd::prelude::*;

verus! {

/// Unicode `White_Space`, the property `char::is_whitespace` tests.
pub open spec fn is_ws(c: char) -> bool {
    let u = c as u32;
    ||| 0x09 <= u <= 0x0D
    ||| u == 0x20
    ||| u == 0x85
    ||| u == 0xA0
    ||| u == 0x1680
    ||| 0x2000 <= u <= 0x200A
    ||| u == 0x2028
    ||| u == 0x2029
    ||| u == 0x202F
    ||| u == 0x205F
    ||| u == 0x3000
}

/// Whether `c` is Unicode white space.
pub fn is_whitespace(c: char) -> (r: bool)
    ensures
        r == is_ws(c),
{
    let u = c as u32;
    (0x09 <= u && u <= 0x0D) || u == 0x20 || u == 0x85 || u == 0xA0 || u == 0x1680 || (0x2000
        <= u && u <= 0x200A) || u == 0x2028 || u == 0x2029 || u == 0x202F || u == 0x205F || u
        == 0x3000
}

/// `String::push` appends one character.
pub assume_specification[ String::push ](s: &mut String, ch: char)
    ensures
        final(s)@ == old(s)@.push(ch),
;

/// The characters of `s`, in order.
pub fn chars_of(s: &str) -> (v: Vec<char>)
    ensures
        v@ == s@,
{
    let mut v: Vec<char> = Vec::new();
    for c in it: s.chars()
        invariant
            v@ == it.seq().take(it.index() as int),
            it.seq() == s@,
    {
        v.push(c);
    }
    v
}

/// A string holding `v`'s characters.
pub fn string_of(v: &[char]) -> (s: String)
    ensures
        s@ == v@,
{
    let mut s = String::new();
    let mut i: usize = 0;
    while i < v.len()
        invariant
            i <= v.len(),
            s@ == v@.take(i as int),
        decreases v.len() - i,
    {
        s.push(v[i]);
        i += 1;
        assert(v@.take(i as int) == v@.take((i - 1) as int).push(v@[i - 1]));
    }
    assert(v@.take(v@.len() as int) == v@);
    s
}


/// `s` without its leading white space (`str::trim_start`).
pub open spec fn trim_start(s: Seq<char>) -> Seq<char>
    decreases s.len(),
{
    if s.len() > 0 && is_ws(s[0]) {
        trim_start(s.drop_first())
    } else {
        s
    }
}

/// `s` without its trailing white space (`str::trim_end`).
pub open spec fn trim_end(s: Seq<char>) -> Seq<char>
    decreases s.len(),
{
    if s.len() > 0 && is_ws(s.last()) {
        trim_end(s.drop_last())
    } else {
        s
    }
}

/// `s` without white space at either end (`str::trim`).
pub open spec fn trim(s: Seq<char>) -> Seq<char> {
    trim_end(trim_start(s))
}

/// Every character of `s` is white space.
pub open spec fn all_ws(s: Seq<char>) -> bool {
    forall|i: int| 0 <= i < s.len() ==> is_ws(#[trigger] s[i])
}

pub proof fn lemma_trim_start_skip(s: Seq<char>, k: int)
    requires
        0 <= k <= s.len(),
        all_ws(s.take(k)),
    ensures
        trim_start(s) == trim_start(s.skip(k)),
    decreases k,
{
    if k > 0 {
        assert(is_ws(s.take(k)[0]));
        assert(s.drop_first().take(k - 1) =~= s.take(k).drop_first());
        lemma_trim_start_skip(s.drop_first(), k - 1);
        assert(s.drop_first().skip(k - 1) =~= s.skip(k));
    } else {
        assert(s.skip(0) =~= s);
    }
}

pub proof fn lemma_trim_end_take(s: Seq<char>, k: int)
    requires
        0 <= k <= s.len(),
        all_ws(s.skip(k)),
    ensures
        trim_end(s) == trim_end(s.take(k)),
    decreases s.len() - k,
{
    if k < s.len() {
        assert(is_ws(s.skip(k)[s.len() - k - 1]));
        assert(s.drop_last().skip(k) =~= s.skip(k).drop_last());
        lemma_trim_end_take(s.drop_last(), k);
        assert(s.drop_last().take(k) =~= s.take(k));
    } else {
        assert(s.take(k) =~= s);
    }
}

pub proof fn lemma_trim_len(s: Seq<char>)
    ensures
        trim_start(s).len() <= s.len(),
        trim(s).len() <= s.len(),
    decreases s.len(),
{
    if s.len() > 0 && is_ws(s[0]) {
        lemma_trim_len(s.drop_first());
    }
    lemma_trim_end_len(trim_start(s));
}

pub proof fn lemma_trim_end_len(s: Seq<char>)
    ensures
        trim_end(s).len() <= s.len(),
    decreases s.len(),
{
    if s.len() > 0 && is_ws(s.last()) {
        lemma_trim_end_len(s.drop_last());
    }
}

/// Number of leading white-space characters of `v`.
pub fn leading_ws(v: &[char]) -> (k: usize)
    ensures
        k <= v@.len(),
        all_ws(v@.take(k as int)),
        k == v@.len() || !is_ws(v@[k as int]),
        trim_start(v@) == v@.skip(k as int),
{
    let mut k: usize = 0;
    while k < v.len() && is_whitespace(v[k])
        invariant
            k <= v@.len(),
            all_ws(v@.take(k as int)),
        decreases v.len() - k,
    {
        k += 1;
        assert forall|i: int| 0 <= i < k implies is_ws(#[trigger] v@.take(k as int)[i]) by {
            if i < k - 1 {
                assert(v@.take(k as int)[i] == v@.take((k - 1) as int)[i]);
            }
        }
    }
    proof {
        lemma_trim_start_skip(v@, k as int);
        if k < v.len() {
            assert(!is_ws(v@.skip(k as int)[0]));
        }
    }
    k
}

/// Length of `v` once trailing white space is dropped.
pub fn end_without_ws(v: &[char]) -> (k: usize)
    ensures
        k <= v@.len(),
        all_ws(v@.skip(k as int)),
        k == 0 || !is_ws(v@[k - 1]),
        trim_end(v@) == v@.take(k as int),
{
    let mut k: usize = v.len();
    while k > 0 && is_whitespace(v[k - 1])
        invariant
            k <= v@.len(),
            all_ws(v@.skip(k as int)),
        decreases k,
    {
        k -= 1;
        assert forall|i: int| 0 <= i < v@.len() - k implies is_ws(#[trigger] v@.skip(k as int)[i]) by {
            if i > 0 {
                assert(v@.skip(k as int)[i] == v@.skip((k + 1) as int)[i - 1]);
            }
        }
    }
    proof {
        lemma_trim_end_take(v@, k as int);
        if k > 0 {
            assert(!is_ws(v@.take(k as int).last()));
        }
    }
    k
}

/// The characters of `v` from `lo` up to `hi`.
pub fn slice_chars(v: &[char], lo: usize, hi: usize) -> (r: Vec<char>)
    requires
        lo <= hi <= v@.len(),
    ensures
        r@ == v@.subrange(lo as int, hi as int),
{
    let mut r: Vec<char> = Vec::new();
    let mut i = lo;
    while i < hi
        invariant
            lo <= i <= hi <= v@.len(),
            r@ == v@.subrange(lo as int, i as int),
        decreases hi - i,
    {
        r.push(v[i]);
        i += 1;
        assert(r@ =~= v@.subrange(lo as int, i as int));
    }
    r
}

/// `str::trim`.
pub fn trim_chars(v: &[char]) -> (r: Vec<char>)
    ensures
        r@ == trim(v@),
{
    let a = leading_ws(v);
    let rest = slice_chars(v, a, v.len());
    assert(rest@ == v@.skip(a as int));
    let b = end_without_ws(rest.as_slice());
    slice_chars(rest.as_slice(), 0, b)
}

/// `str::trim` on a string.
pub fn trim_str(s: &str) -> (r: String)
    ensures
        r@ == trim(s@),
{
    let v = chars_of(s);
    let t = trim_chars(v.as_slice());
    string_of(t.as_slice())
}

/// `str::trim_end` on a string.
pub fn trim_end_str(s: &str) -> (r: String)
    ensures
        r@ == trim_end(s@),
{
    let v = chars_of(s);
    let b = end_without_ws(v.as_slice());
    let t = slice_chars(v.as_slice(), 0, b);
    string_of(t.as_slice())
}

/// What `str::to_lowercase` returns for `s`: Unicode's full lower-case
/// mapping, applied character by character.
pub uninterp spec fn lowercase(s: Seq<char>) -> Seq<char>;

/// ASCII lower-casing of one character.
pub open spec fn ascii_lower(c: char) -> char {
    if 'A' <= c <= 'Z' {
        ((c as u32) + 32) as char
    } else {
        c
    }
}

/// `str::to_lowercase`. Its documentation gives the full Unicode mapping;
/// what is stated here is the part on ASCII text, where each letter maps to
/// its ASCII lower case and every other character stays.
#[verifier::external_body]
pub(crate) fn to_lower(s: &str) -> (r: String)
    ensures
        r@ == lowercase(s@),
        (forall|i: int| 0 <= i < s@.len() ==> (s@[i] as u32) < 128) ==> r@ == s@.map_values(
            |c: char| ascii_lower(c),
        ),
{
    s.to_lowercase()
}

/// What `str::to_uppercase` returns for `s`: Unicode's full upper-case
/// mapping, applied character by character.
pub uninterp spec fn uppercase(s: Seq<char>) -> Seq<char>;

/// ASCII upper-casing of one character.
pub open spec fn ascii_upper(c: char) -> char {
    if 'a' <= c <= 'z' {
        ((c as u32) - 32) as char
    } else {
        c
    }
}

/// `str::to_uppercase`. Its documentation gives the full Unicode mapping;
/// what is stated here is the part on ASCII text, where each letter maps to
/// its ASCII upper case and every other character stays.
#[verifier::external_body]
pub(crate) fn to_upper(s: &str) -> (r: String)
    ensures
        r@ == uppercase(s@),
        (forall|i: int| 0 <= i < s@.len() ==> (s@[i] as u32) < 128) ==> r@ == s@.map_values(
            |c: char| ascii_upper(c),
        ),
{
    s.to_uppercase()
}

/// The white-space separated words of `s` (`str::split_whitespace`).
pub open spec fn words(s: Seq<char>) -> Seq<Seq<char>> {
    if squash(s).len() == 0 {
        Seq::empty()
    } else {
        split_on(squash(s), ' ')
    }
}

/// The words of `v`.
pub fn words_of(v: &[char]) -> (r: Vec<Vec<char>>)
    ensures
        views(r@) == words(v@),
{
    let sq = squash_chars(v);
    if sq.len() == 0 {
        Vec::new()
    } else {
        split_chars(sq.as_slice(), ' ')
    }
}

/// `needle` occurs in `hay` starting at `i`.
pub open spec fn occurs_at(hay: Seq<char>, needle: Seq<char>, i: int) -> bool {
    0 <= i && i + needle.len() <= hay.len() && hay.subrange(i, i + needle.len()) == needle
}

/// `needle` occurs somewhere in `hay` (`str::contains`).
pub open spec fn contains(hay: Seq<char>, needle: Seq<char>) -> bool {
    exists|i: int| occurs_at(hay, needle, i)
}

/// Whether `needle` occurs in `hay` at `i`.
pub fn matches_at(hay: &[char], needle: &[char], i: usize) -> (r: bool)
    ensures
        r == occurs_at(hay@, needle@, i as int),
{
    if i > hay.len() || needle.len() > hay.len() - i {
        return false;
    }
    let mut j: usize = 0;
    while j < needle.len()
        invariant
            i + needle@.len() <= hay@.len(),
            i <= hay@.len(),
            j <= needle@.len(),
            forall|k: int| 0 <= k < j ==> hay@[i + k] == needle@[k],
        decreases needle.len() - j,
    {
        assert(i + j < hay.len());
        if hay[i + j] != needle[j] {
            assert(hay@.subrange(i as int, i + needle@.len())[j as int] != needle@[j as int]);
            return false;
        }
        j += 1;
    }
    assert(hay@.subrange(i as int, i + needle@.len()) =~= needle@);
    true
}

/// `str::contains` on characters.
pub fn contains_chars(hay: &[char], needle: &[char]) -> (r: bool)
    ensures
        r == contains(hay@, needle@),
{
    if needle.len() > hay.len() {
        return false;
    }
    let last = hay.len() - needle.len();
    let mut i: usize = 0;
    loop
        invariant
            i <= last,
            last == hay@.len() - needle@.len(),
            forall|k: int| 0 <= k < i ==> !occurs_at(hay@, needle@, k),
        decreases last - i,
    {
        if matches_at(hay, needle, i) {
            return true;
        }
        if i == last {
            assert forall|k: int| !occurs_at(hay@, needle@, k) by {
                if 0 <= k <= last {
                }
            }
            return false;
        }
        i += 1;
    }
}

/// `str::contains` on strings.
pub fn contains_str(hay: &str, needle: &str) -> (r: bool)
    ensures
        r == contains(hay@, needle@),
{
    let h = chars_of(hay);
    let n = chars_of(needle);
    contains_chars(h.as_slice(), n.as_slice())
}


/// `s` cut at every `'\n'` (`str::split('\n')`): always one piece more than
/// there are newlines.
pub open spec fn split_nl(s: Seq<char>) -> Seq<Seq<char>>
    decreases s.len(),
{
    if s.len() == 0 {
        seq![Seq::empty()]
    } else {
        let p = split_nl(s.drop_last());
        if s.last() == '\n' {
            p.push(Seq::empty())
        } else {
            p.update(p.len() - 1, p.last().push(s.last()))
        }
    }
}

pub proof fn lemma_split_nl_len(s: Seq<char>)
    ensures
        split_nl(s).len() >= 1,
    decreases s.len(),
{
    if s.len() > 0 {
        lemma_split_nl_len(s.drop_last());
    }
}

/// A line with the `'\r'` of a `"\r\n"` ending dropped.
pub open spec fn strip_cr(l: Seq<char>) -> Seq<char> {
    if l.len() > 0 && l.last() == '\r' {
        l.drop_last()
    } else {
        l
    }
}

/// `str::lines`: split at `"\n"` or `"\r\n"`; a final line ending is optional
/// and yields no empty last line.
pub open spec fn lines(s: Seq<char>) -> Seq<Seq<char>> {
    let p = split_nl(s);
    p.take(p.len() - 1).map_values(|l: Seq<char>| strip_cr(l)) + if p.last().len() == 0 {
        Seq::<Seq<char>>::empty()
    } else {
        seq![p.last()]
    }
}

/// The character sequences held by a vector of character vectors.
pub open spec fn views(v: Seq<Vec<char>>) -> Seq<Seq<char>> {
    v.map_values(|x: Vec<char>| x@)
}

/// The lines of `v`, as `str::lines` yields them.
pub fn lines_of(v: &[char]) -> (r: Vec<Vec<char>>)
    ensures
        views(r@) == lines(v@),
{
    let mut out: Vec<Vec<char>> = Vec::new();
    let mut cur: Vec<char> = Vec::new();
    let mut i: usize = 0;
    proof {
        assert(v@.take(0) =~= Seq::<char>::empty());
    }
    while i < v.len()
        invariant
            i <= v@.len(),
            split_nl(v@.take(i as int)).len() >= 1,
            views(out@) == ({
                let p = split_nl(v@.take(i as int));
                p.take(p.len() - 1).map_values(|l: Seq<char>| strip_cr(l))
            }),
            cur@ == split_nl(v@.take(i as int)).last(),
        decreases v.len() - i,
    {
        let ghost before = v@.take(i as int);
        let ghost p = split_nl(before);
        let c = v[i];
        i += 1;
        proof {
            assert(v@.take(i as int).drop_last() =~= before);
            assert(v@.take(i as int).last() == c);
            lemma_split_nl_len(v@.take(i as int));
        }
        if c == '\n' {
            let n = cur.len();
            let line = if n > 0 && cur[n - 1] == '\r' {
                slice_chars(cur.as_slice(), 0, n - 1)
            } else {
                slice_chars(cur.as_slice(), 0, n)
            };
            proof {
                assert(line@ == strip_cr(cur@));
            }
            let ghost old_dv = views(out@);
            out.push(line);
            proof {
                assert(views(out@) =~= old_dv.push(strip_cr(p.last())));
            }
            cur = Vec::new();
            proof {
                let q = split_nl(v@.take(i as int));
                assert(q == p.push(Seq::empty()));
                assert(q.take(q.len() - 1) =~= p);
                assert(p =~= p.take(p.len() - 1).push(p.last()));
                assert(views(out@) =~= q.take(q.len() - 1).map_values(|l: Seq<char>| strip_cr(l)));
            }
        } else {
            cur.push(c);
            proof {
                let q = split_nl(v@.take(i as int));
                assert(q == p.update(p.len() - 1, p.last().push(c)));
                assert(q.take(q.len() - 1) =~= p.take(p.len() - 1));
            }
        }
    }
    proof {
        assert(v@.take(v@.len() as int) =~= v@);
    }
    let ghost p = split_nl(v@);
    if cur.len() > 0 {
        let ghost old_dv = views(out@);
        let ghost last = cur@;
        out.push(cur);
        proof {
            assert(views(out@) =~= old_dv.push(last));
            assert(views(out@) =~= lines(v@));
        }
    } else {
        proof {
            assert(views(out@) =~= lines(v@));
        }
    }
    out
}


/// `s` cut at every `sep` (`str::split(sep)`): one piece more than there are
/// separators.
pub open spec fn split_on(s: Seq<char>, sep: char) -> Seq<Seq<char>>
    decreases s.len(),
{
    if s.len() == 0 {
        seq![Seq::empty()]
    } else {
        let p = split_on(s.drop_last(), sep);
        if s.last() == sep {
            p.push(Seq::empty())
        } else {
            p.update(p.len() - 1, p.last().push(s.last()))
        }
    }
}

pub proof fn lemma_split_on_len(s: Seq<char>, sep: char)
    ensures
        split_on(s, sep).len() >= 1,
    decreases s.len(),
{
    if s.len() > 0 {
        lemma_split_on_len(s.drop_last(), sep);
    }
}

/// The pieces of `v` between occurrences of `sep`.
pub fn split_chars(v: &[char], sep: char) -> (r: Vec<Vec<char>>)
    ensures
        views(r@) == split_on(v@, sep),
{
    let mut out: Vec<Vec<char>> = Vec::new();
    let mut cur: Vec<char> = Vec::new();
    let mut i: usize = 0;
    proof {
        assert(v@.take(0) =~= Seq::<char>::empty());
    }
    while i < v.len()
        invariant
            i <= v@.len(),
            split_on(v@.take(i as int), sep).len() >= 1,
            views(out@).push(cur@) == split_on(v@.take(i as int), sep),
        decreases v.len() - i,
    {
        let ghost before = v@.take(i as int);
        let ghost p = split_on(before, sep);
        let c = v[i];
        i += 1;
        proof {
            assert(v@.take(i as int).drop_last() =~= before);
            assert(v@.take(i as int).last() == c);
            lemma_split_on_len(v@.take(i as int), sep);
        }
        if c == sep {
            let ghost old_dv = views(out@);
            let done = cur;
            out.push(done);
            cur = Vec::new();
            proof {
                assert(views(out@) =~= old_dv.push(p.last()));
                assert(old_dv.push(p.last()) =~= p);
                assert(views(out@).push(cur@) =~= p.push(Seq::empty()));
            }
        } else {
            cur.push(c);
            proof {
                assert(views(out@).push(cur@) =~= p.update(p.len() - 1, p.last().push(c)));
            }
        }
    }
    proof {
        assert(v@.take(v@.len() as int) =~= v@);
    }
    let ghost old_dv = views(out@);
    let last = cur;
    out.push(last);
    proof {
        assert(views(out@) =~= old_dv.push(last@));
    }
    out
}

/// One step of `split_whitespace().join(" ")`: the text so far, and whether a
/// separator is owed before the next word.
pub open spec fn squash_step(st: (Seq<char>, bool), c: char) -> (Seq<char>, bool) {
    if is_ws(c) {
        (st.0, st.0.len() > 0)
    } else if st.1 {
        (st.0.push(' ').push(c), false)
    } else {
        (st.0.push(c), false)
    }
}

pub open spec fn squash_from(s: Seq<char>) -> (Seq<char>, bool)
    decreases s.len(),
{
    if s.len() == 0 {
        (Seq::empty(), false)
    } else {
        squash_step(squash_from(s.drop_last()), s.last())
    }
}

/// The white-space separated words of `s` joined by single spaces
/// (`s.split_whitespace().collect::<Vec<_>>().join(" ")`).
pub open spec fn squash(s: Seq<char>) -> Seq<char> {
    squash_from(s).0
}

/// `split_whitespace().join(" ")` on characters.
pub fn squash_chars(v: &[char]) -> (r: Vec<char>)
    ensures
        r@ == squash(v@),
{
    let mut out: Vec<char> = Vec::new();
    let mut pending = false;
    let mut i: usize = 0;
    while i < v.len()
        invariant
            i <= v@.len(),
            (out@, pending) == squash_from(v@.take(i as int)),
        decreases v.len() - i,
    {
        let c = v[i];
        if is_whitespace(c) {
            pending = out.len() > 0;
        } else {
            if pending {
                out.push(' ');
            }
            out.push(c);
            pending = false;
        }
        i += 1;
        assert(v@.take(i as int).drop_last() =~= v@.take((i - 1) as int));
    }
    assert(v@.take(v@.len() as int) =~= v@);
    out
}

/// `needle` first occurs in `hay` at `i`.
pub open spec fn first_occurrence(hay: Seq<char>, needle: Seq<char>, i: int) -> bool {
    occurs_at(hay, needle, i) && forall|j: int| 0 <= j < i ==> !occurs_at(hay, needle, j)
}

pub proof fn lemma_first_occurrence_unique(hay: Seq<char>, needle: Seq<char>, i: int, j: int)
    requires
        first_occurrence(hay, needle, i),
        first_occurrence(hay, needle, j),
    ensures
        i == j,
{
}

/// Every occurrence of `needle` replaced by `by`, scanning from the left
/// without overlap (`str::replace` with a non-empty pattern).
pub open spec fn replace_all(hay: Seq<char>, needle: Seq<char>, by: Seq<char>) -> Seq<char>
    decreases hay.len(),
{
    if needle.len() > 0 && contains(hay, needle) {
        let i = choose|i: int| first_occurrence(hay, needle, i);
        if 0 <= i && i + needle.len() <= hay.len() {
            hay.take(i) + by + replace_all(hay.skip(i + needle.len()), needle, by)
        } else {
            hay
        }
    } else {
        hay
    }
}

/// `str::replace` with a non-empty pattern, on characters.
pub fn replace_all_chars(hay: &[char], needle: &[char], by: &[char]) -> (r: Vec<char>)
    requires
        needle@.len() > 0,
    ensures
        r@ == replace_all(hay@, needle@, by@),
{
    let mut out: Vec<char> = Vec::new();
    let mut rest = slice_chars(hay, 0, hay.len());
    assert(rest@ =~= hay@);
    while rest.len() > 0
        invariant
            needle@.len() > 0,
            replace_all(hay@, needle@, by@) == out@ + replace_all(rest@, needle@, by@),
        decreases rest.len(),
    {
        match find_chars(rest.as_slice(), needle) {
            Some(i) => {
                proof {
                    lemma_first_occurrence_unique(rest@, needle@, i as int, choose|j: int| first_occurrence(rest@, needle@, j));
                }
                let head = slice_chars(rest.as_slice(), 0, i);
                let next = slice_chars(rest.as_slice(), i + needle.len(), rest.len());
                let ghost before = out@;
                push_all(&mut out, head.as_slice());
                push_all(&mut out, by);
                assert(out@ =~= before + rest@.take(i as int) + by@);
                rest = next;
            },
            None => {
                let ghost before = out@;
                push_all(&mut out, rest.as_slice());
                return out;
            },
        }
    }
    proof {
        assert(!contains(rest@, needle@));
        assert(out@ =~= out@ + rest@);
    }
    out
}

/// Where `needle` first occurs in `hay`, if it does (`str::find`).
pub fn find_chars(hay: &[char], needle: &[char]) -> (r: Option<usize>)
    ensures
        r matches Some(i) ==> first_occurrence(hay@, needle@, i as int),
        r is None ==> !contains(hay@, needle@),
{
    if needle.len() > hay.len() {
        return None;
    }
    let last = hay.len() - needle.len();
    let mut i: usize = 0;
    loop
        invariant
            i <= last,
            last == hay@.len() - needle@.len(),
            forall|k: int| 0 <= k < i ==> !occurs_at(hay@, needle@, k),
        decreases last - i,
    {
        if matches_at(hay, needle, i) {
            return Some(i);
        }
        if i == last {
            assert forall|k: int| !occurs_at(hay@, needle@, k) by {
                if 0 <= k <= last {
                }
            }
            return None;
        }
        i += 1;
    }
}

/// `hay` with the first `needle` replaced by `by` (`str::replacen(.., 1)`).
pub open spec fn replace_first(hay: Seq<char>, needle: Seq<char>, by: Seq<char>) -> Seq<char> {
    if contains(hay, needle) {
        let i = choose|i: int| first_occurrence(hay, needle, i);
        hay.take(i) + by + hay.skip(i + needle.len())
    } else {
        hay
    }
}

/// `str::replacen(needle, by, 1)` on characters.
pub fn replace_first_chars(hay: &[char], needle: &[char], by: &[char]) -> (r: Vec<char>)
    ensures
        r@ == replace_first(hay@, needle@, by@),
{
    match find_chars(hay, needle) {
        None => slice_chars(hay, 0, hay.len()),
        Some(i) => {
            proof {
                assert(first_occurrence(hay@, needle@, i as int));
                let j = choose|j: int| first_occurrence(hay@, needle@, j);
                lemma_first_occurrence_unique(hay@, needle@, i as int, j);
            }
            let mut r = slice_chars(hay, 0, i);
            let mut k: usize = 0;
            while k < by.len()
                invariant
                    k <= by@.len(),
                    r@ == hay@.take(i as int) + by@.take(k as int),
                decreases by.len() - k,
            {
                r.push(by[k]);
                k += 1;
                assert(r@ =~= hay@.take(i as int) + by@.take(k as int));
            }
            assert(i + needle.len() <= hay.len());
            let tail = slice_chars(hay, i + needle.len(), hay.len());
            let mut j: usize = 0;
            let ghost head = r@;
            while j < tail.len()
                invariant
                    j <= tail@.len(),
                    r@ == head + tail@.take(j as int),
                decreases tail.len() - j,
            {
                r.push(tail[j]);
                j += 1;
                assert(r@ =~= head + tail@.take(j as int));
            }
            assert(by@.take(by@.len() as int) =~= by@);
            assert(tail@.take(tail@.len() as int) =~= tail@);
            r
        },
    }
}

/// `a` followed by `b`.
pub fn concat_chars(a: &[char], b: &[char]) -> (r: Vec<char>)
    ensures
        r@ == a@ + b@,
{
    let mut r = slice_chars(a, 0, a.len());
    let mut j: usize = 0;
    while j < b.len()
        invariant
            j <= b@.len(),
            r@ == a@ + b@.take(j as int),
        decreases b.len() - j,
    {
        r.push(b[j]);
        j += 1;
        assert(r@ =~= a@ + b@.take(j as int));
    }
    assert(b@.take(b@.len() as int) =~= b@);
    assert(a@.take(a@.len() as int) =~= a@);
    r
}

/// Appends `b`'s characters to `r`.
pub fn push_all(r: &mut Vec<char>, b: &[char])
    ensures
        final(r)@ == old(r)@ + b@,
{
    let ghost start = r@;
    let mut j: usize = 0;
    while j < b.len()
        invariant
            j <= b@.len(),
            r@ == start + b@.take(j as int),
        decreases b.len() - j,
    {
        r.push(b[j]);
        j += 1;
        assert(r@ =~= start + b@.take(j as int));
    }
    assert(b@.take(b@.len() as int) =~= b@);
}

/// Appends `s`'s characters to `r`.
pub fn push_str(r: &mut Vec<char>, s: &str)
    ensures
        final(r)@ == old(r)@ + s@,
{
    let v = chars_of(s);
    push_all(r, v.as_slice());
}

/// A copy of a list of strings.
pub fn copy_strings(v: &[String]) -> (r: Vec<String>)
    ensures
        r@ == v@,
{
    let mut r: Vec<String> = Vec::new();
    let mut i: usize = 0;
    while i < v.len()
        invariant
            i <= v@.len(),
            r@ == v@.take(i as int),
        decreases v.len() - i,
    {
        r.push(v[i].clone());
        i += 1;
        assert(r@ =~= v@.take(i as int));
    }
    assert(v@.take(v@.len() as int) =~= v@);
    r
}

/// The character sequences of a list of strings.
pub open spec fn string_views(v: Seq<String>) -> Seq<Seq<char>> {
    v.map_values(|s: String| s@)
}

pub proof fn lemma_encode_utf8_concat(a: Seq<char>, b: Seq<char>)
    ensures
        vstd::utf8::encode_utf8(a + b) == vstd::utf8::encode_utf8(a) + vstd::utf8::encode_utf8(b),
    decreases a.len(),
{
    if a.len() > 0 {
        assert((a + b).drop_first() =~= a.drop_first() + b);
        lemma_encode_utf8_concat(a.drop_first(), b);
        assert(vstd::utf8::encode_utf8(a + b) =~= vstd::utf8::encode_utf8(a) + vstd::utf8::encode_utf8(b));
    } else {
        assert(a + b =~= b);
        assert(vstd::utf8::encode_utf8(a) =~= Seq::<u8>::empty());
        assert(Seq::<u8>::empty() + vstd::utf8::encode_utf8(b) =~= vstd::utf8::encode_utf8(b));
    }
}

/// Bytes in the UTF-8 encoding of `c`.
pub fn utf8_width(c: char) -> (n: usize)
    ensures
        n == vstd::utf8::encode_utf8(seq![c]).len(),
        1 <= n <= 4,
{
    proof {
        reveal_with_fuel(vstd::utf8::encode_utf8, 2);
        assert(seq![c].drop_first() =~= Seq::<char>::empty());
        assert(vstd::utf8::encode_utf8(seq![c]) =~= vstd::utf8::encode_scalar(c as u32));
    }
    let u = c as u32;
    if u < 0x80 {
        1
    } else if u < 0x800 {
        2
    } else if u < 0x10000 {
        3
    } else {
        4
    }
}


/// The decimal digit for `d` (`0..10`).
pub open spec fn digit_char(d: int) -> char {
    (48 + d) as char
}

/// `n` written in decimal, as `{}` formats an unsigned integer.
pub open spec fn dec(n: nat) -> Seq<char>
    decreases n,
{
    if n < 10 {
        seq![digit_char(n as int)]
    } else {
        dec(n / 10).push(digit_char((n % 10) as int))
    }
}

/// `n` in decimal with a leading `-` when negative, as `{}` formats an integer.
pub open spec fn dec_signed(n: int) -> Seq<char> {
    if n < 0 {
        seq!['-'] + dec((-n) as nat)
    } else {
        dec(n as nat)
    }
}

/// At least two decimal digits, as `{:02}` formats.
pub open spec fn pad2(n: nat) -> Seq<char> {
    if n < 10 {
        seq!['0', digit_char(n as int)]
    } else {
        dec(n)
    }
}

/// `n` in decimal.
pub fn decimal(n: u64) -> (r: Vec<char>)
    ensures
        r@ == dec(n as nat),
    decreases n,
{
    if n < 10 {
        let mut r = Vec::new();
        r.push(((48 + n) as u8) as char);
        r
    } else {
        let mut r = decimal(n / 10);
        r.push(((48 + n % 10) as u8) as char);
        r
    }
}

/// `n` in decimal, for wide counts.
pub fn decimal_wide(n: u128) -> (r: Vec<char>)
    ensures
        r@ == dec(n as nat),
    decreases n,
{
    if n < 10 {
        let mut r = Vec::new();
        r.push(((48 + n) as u8) as char);
        r
    } else {
        let mut r = decimal_wide(n / 10);
        r.push(((48 + n % 10) as u8) as char);
        r
    }
}

/// `n` in decimal with a sign when negative.
pub fn decimal_signed(n: i64) -> (r: Vec<char>)
    ensures
        r@ == dec_signed(n as int),
{
    if n < 0 {
        let mut r = Vec::new();
        r.push('-');
        let m: u64 = (-(n + 1)) as u64 + 1;
        let d = decimal(m);
        push_all(&mut r, d.as_slice());
        r
    } else {
        decimal(n as u64)
    }
}

/// `n` with at least two digits.
pub fn padded2(n: u64) -> (r: Vec<char>)
    ensures
        r@ == pad2(n as nat),
{
    if n < 10 {
        let mut r = Vec::new();
        r.push('0');
        r.push(((48 + n) as u8) as char);
        r
    } else {
        decimal(n)
    }
}


/// At least four decimal digits, as `{:04}` formats.
pub open spec fn pad4(n: nat) -> Seq<char> {
    if n < 10 {
        seq!['0', '0', '0'] + dec(n)
    } else if n < 100 {
        seq!['0', '0'] + dec(n)
    } else if n < 1000 {
        seq!['0'] + dec(n)
    } else {
        dec(n)
    }
}

/// `n` with at least four digits.
pub fn padded4(n: u64) -> (r: Vec<char>)
    ensures
        r@ == pad4(n as nat),
{
    let mut r: Vec<char> = Vec::new();
    if n < 10 {
        r.push('0');
        r.push('0');
        r.push('0');
    } else if n < 100 {
        r.push('0');
        r.push('0');
    } else if n < 1000 {
        r.push('0');
    }
    let d = decimal(n);
    let ghost before = r@;
    push_all(&mut r, d.as_slice());
    assert(r@ =~= pad4(n as nat));
    r
}

/// `v` joined with `sep` between neighbours (`[..].join(sep)`).
pub open spec fn join(v: Seq<Seq<char>>, sep: Seq<char>) -> Seq<char>
    decreases v.len(),
{
    if v.len() == 0 {
        Seq::empty()
    } else if v.len() == 1 {
        v[0]
    } else {
        join(v.drop_last(), sep) + sep + v.last()
    }
}

/// `v.join(sep)` on strings.
pub fn join_strings(v: &[String], sep: &str) -> (r: String)
    ensures
        r@ == join(string_views(v@), sep@),
{
    let mut out: Vec<char> = Vec::new();
    let mut i: usize = 0;
    while i < v.len()
        invariant
            i <= v@.len(),
            out@ == join(string_views(v@.take(i as int)), sep@),
        decreases v.len() - i,
    {
        let ghost prev = out@;
        if i > 0 {
            push_str(&mut out, sep);
        }
        push_str(&mut out, v[i].as_str());
        proof {
            let w = string_views(v@.take(i + 1));
            assert(w.drop_last() =~= string_views(v@.take(i as int)));
            assert(w.last() == v@[i as int]@);
            if i == 0 {
                assert(out@ =~= w[0]);
            } else {
                assert(out@ =~= join(w.drop_last(), sep@) + sep@ + w.last());
            }
        }
        i += 1;
    }
    assert(v@.take(v@.len() as int) =~= v@);
    string_of(out.as_slice())
}

/// Whether `s` holds exactly the characters of the literal-free sequence `t`.
pub open spec fn is_digit(c: char) -> bool {
    '0' <= c && c <= '9'
}

/// The value of a run of decimal digits.
pub open spec fn digits_value(s: Seq<char>) -> int
    decreases s.len(),
{
    if s.len() == 0 {
        0
    } else {
        digits_value(s.drop_last()) * 10 + (s.last() as int - 48)
    }
}

/// One or more decimal digits.
pub open spec fn all_digits(s: Seq<char>) -> bool {
    s.len() > 0 && forall|i: int| 0 <= i < s.len() ==> is_digit(#[trigger] s[i])
}

/// What `str::parse::<i64>` accepts: an optional sign, then digits, within range.
pub open spec fn parse_int(s: Seq<char>) -> Option<int> {
    let neg = s.len() > 0 && s[0] == '-';
    let body = if s.len() > 0 && (s[0] == '-' || s[0] == '+') {
        s.drop_first()
    } else {
        s
    };
    if all_digits(body) {
        let v = if neg {
            -digits_value(body)
        } else {
            digits_value(body)
        };
        if i64::MIN <= v <= i64::MAX {
            Some(v)
        } else {
            None
        }
    } else {
        None
    }
}

pub proof fn lemma_digits_monotone(s: Seq<char>, i: int)
    requires
        0 <= i <= s.len(),
        forall|j: int| 0 <= j < s.len() ==> is_digit(#[trigger] s[j]),
    ensures
        digits_value(s.take(i)) <= digits_value(s),
        0 <= digits_value(s.take(i)),
    decreases s.len() - i,
{
    if i < s.len() {
        lemma_digits_monotone(s.drop_last(), i);
        assert(s.drop_last().take(i) =~= s.take(i));
        assert(s.take(s.len() - 1) =~= s.drop_last());
    } else {
        assert(s.take(i) =~= s);
        lemma_digits_nonneg(s);
    }
}

pub proof fn lemma_digits_nonneg(s: Seq<char>)
    requires
        forall|j: int| 0 <= j < s.len() ==> is_digit(#[trigger] s[j]),
    ensures
        0 <= digits_value(s),
    decreases s.len(),
{
    if s.len() > 0 {
        lemma_digits_nonneg(s.drop_last());
        assert(is_digit(s[s.len() - 1]));
    }
}

/// `str::parse::<i64>`, on characters.
pub fn parse_i64(v: &[char]) -> (r: Option<i64>)
    ensures
        r matches Some(x) ==> parse_int(v@) == Some(x as int),
        r is None ==> parse_int(v@) is None,
{
    let n = v.len();
    let neg = n > 0 && v[0] == '-';
    let start: usize = if n > 0 && (v[0] == '-' || v[0] == '+') {
        1
    } else {
        0
    };
    let ghost body = if v@.len() > 0 && (v@[0] == '-' || v@[0] == '+') {
        v@.drop_first()
    } else {
        v@
    };
    assert(body =~= v@.skip(start as int));
    if start >= n {
        return None;
    }
    let limit: u64 = if neg {
        9_223_372_036_854_775_808
    } else {
        9_223_372_036_854_775_807
    };
    let mut acc: u64 = 0;
    let mut i: usize = start;
    while i < n
        invariant
            start <= i <= n,
            n == v@.len(),
            body =~= v@.skip(start as int),
            body == (if v@.len() > 0 && (v@[0] == '-' || v@[0] == '+') {
                v@.drop_first()
            } else {
                v@
            }),
            neg == (v@.len() > 0 && v@[0] == '-'),
            neg ==> limit == 9_223_372_036_854_775_808,
            !neg ==> limit == 9_223_372_036_854_775_807,
            acc as int == digits_value(body.take(i - start)),
            acc <= limit,
            9_223_372_036_854_775_807 <= limit <= 9_223_372_036_854_775_808,
            forall|j: int| 0 <= j < i - start ==> is_digit(#[trigger] body[j]),
        decreases n - i,
    {
        let c = v[i];
        if !(c >= '0' && c <= '9') {
            proof {
                assert(body[i - start] == v@[i as int]);
                assert(!is_digit(body[i - start]));
                assert(!all_digits(body));
                assert(parse_int(v@) is None);
            }
            return None;
        }
        let d = (c as u32 - 48) as u64;
        assert(d <= 9);
        proof {
            assert(body.take(i - start + 1).drop_last() =~= body.take(i - start));
            assert(body.take(i - start + 1).last() == c);
        }
        if acc > (limit - d) / 10 {
            proof {
                assert(acc * 10 + d > limit) by (nonlinear_arith)
                    requires
                        acc > (limit - d) / 10,
                        d <= 9,
                        limit >= 9,
                ;
                assert(digits_value(body.take(i - start + 1)) == digits_value(body.take(i - start)) * 10 + (c as int - 48));
                assert(digits_value(body.take(i - start + 1)) > limit);
                assert forall|j: int| 0 <= j < i - start + 1 implies is_digit(#[trigger] body.take(i - start + 1)[j]) by {
                    if j < i - start {
                        assert(body.take(i - start + 1)[j] == body[j]);
                    }
                }
                if all_digits(body) {
                    lemma_digits_monotone(body, i - start + 1);
                }
                assert(parse_int(v@) is None);
            }
            return None;
        }
        acc = acc * 10 + d;
        i += 1;
    }
    proof {
        assert(body.take(n - start) =~= body);
    }
    if neg {
        if acc == 9_223_372_036_854_775_808 {
            Some(i64::MIN)
        } else {
            Some(-(acc as i64))
        }
    } else {
        Some(acc as i64)
    }
}

} // verus!
