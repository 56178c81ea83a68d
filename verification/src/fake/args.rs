//! A minimal argv parser in argparse's style: `--flag`, `--opt value`,
//! `--opt=value`, short aliases, and `--` ending option parsing.

use vstd::prelude::*;

use crate::models::same_str;
use crate::text::{chars_of, push_str, slice_chars, string_of, string_views};

verus! {

/// Options as (name, value) pairs, each name once: a later value replaces
/// an earlier one in its place.
pub open spec fn option_set(opts: Seq<(Seq<char>, Seq<char>)>, name: Seq<char>, value: Seq<char>) -> Seq<(Seq<char>, Seq<char>)>
    decreases opts.len(),
{
    if opts.len() == 0 {
        seq![(name, value)]
    } else if opts[0].0 == name {
        opts.update(0, (name, value))
    } else {
        seq![opts[0]] + option_set(opts.drop_first(), name, value)
    }
}

/// The value of an option, if given.
pub open spec fn option_get(opts: Seq<(Seq<char>, Seq<char>)>, name: Seq<char>) -> Option<Seq<char>>
    decreases opts.len(),
{
    if opts.len() == 0 {
        None
    } else if opts[0].0 == name {
        Some(opts[0].1)
    } else {
        option_get(opts.drop_first(), name)
    }
}

/// Flags as a list, each once.
pub open spec fn flag_set(flags: Seq<Seq<char>>, name: Seq<char>) -> Seq<Seq<char>> {
    if flags.contains(name) {
        flags
    } else {
        flags.push(name)
    }
}

/// Parsed arguments as plain values: positionals, options, flags.
pub type ArgsView = (Seq<Seq<char>>, Seq<(Seq<char>, Seq<char>)>, Seq<Seq<char>>);

/// The index of the first `=`, if any.
pub open spec fn first_eq(tok: Seq<char>) -> Option<int> {
    if exists|k: int| 0 <= k < tok.len() && tok[k] == '=' {
        Some(choose|k: int| 0 <= k < tok.len() && tok[k] == '=' && forall|j: int| 0 <= j < k ==> tok[j] != '=')
    } else {
        None
    }
}

/// `tok` starts with `--`.
pub open spec fn long_form(t: Seq<char>) -> bool {
    t.len() >= 2 && t[0] == '-' && t[1] == '-'
}

/// `t` without its leading `-` characters.
pub open spec fn strip_dashes(t: Seq<char>) -> Seq<char>
    decreases t.len(),
{
    if t.len() > 0 && t[0] == '-' {
        strip_dashes(t.drop_first())
    } else {
        t
    }
}

/// The long name an alias stands for.
pub open spec fn alias_of(aliases: Seq<(Seq<char>, Seq<char>)>, short: Seq<char>) -> Option<Seq<char>>
    decreases aliases.len(),
{
    if aliases.len() == 0 {
        None
    } else if aliases[0].0 == short {
        Some(aliases[0].1)
    } else {
        alias_of(aliases.drop_first(), short)
    }
}

/// The option name and inline value a dashed token carries.
pub open spec fn token_parts(tok: Seq<char>) -> (Seq<char>, Option<Seq<char>>) {
    match first_eq(tok) {
        Some(k) => if long_form(tok.take(k)) {
            (tok.take(k), Some(tok.skip(k + 1)))
        } else {
            (tok, None)
        },
        None => (tok, None),
    }
}

/// The option name a dashed token names, or the error when it names none.
pub open spec fn token_name(tok: Seq<char>, aliases: Seq<(Seq<char>, Seq<char>)>) -> Result<Seq<char>, Seq<char>> {
    let raw = token_parts(tok).0;
    if long_form(raw) {
        Ok(raw.skip(2))
    } else {
        match alias_of(aliases, strip_dashes(raw)) {
            Some(l) => Ok(l),
            None => Err("unrecognized arguments: "@ + tok),
        }
    }
}

/// argparse on `argv` from token `i`, given what was parsed before it.
pub open spec fn parse_from(
    argv: Seq<Seq<char>>,
    takes_value: Seq<Seq<char>>,
    aliases: Seq<(Seq<char>, Seq<char>)>,
    i: int,
    acc: ArgsView,
    only_positional: bool,
) -> Result<ArgsView, Seq<char>>
    decreases argv.len() - i,
{
    if i < 0 || i >= argv.len() {
        Ok(acc)
    } else {
        let tok = argv[i];
        if only_positional || !(tok.len() > 0 && tok[0] == '-') || tok == "-"@ {
            parse_from(argv, takes_value, aliases, i + 1, (acc.0.push(tok), acc.1, acc.2), only_positional)
        } else if tok == "--"@ {
            parse_from(argv, takes_value, aliases, i + 1, acc, true)
        } else {
            match token_name(tok, aliases) {
                Err(e) => Err(e),
                Ok(name) => {
                    let inline = token_parts(tok).1;
                    if takes_value.contains(name) {
                        match inline {
                            Some(v) => parse_from(argv, takes_value, aliases, i + 1, (acc.0, option_set(acc.1, name, v), acc.2), false),
                            None => if i + 1 < argv.len() {
                                parse_from(argv, takes_value, aliases, i + 2, (acc.0, option_set(acc.1, name, argv[i + 1]), acc.2), false)
                            } else {
                                Err("argument --"@ + name + ": expected one argument"@)
                            },
                        }
                    } else if inline is Some {
                        Err("argument --"@ + name + ": ignored explicit argument"@)
                    } else {
                        parse_from(argv, takes_value, aliases, i + 1, (acc.0, acc.1, flag_set(acc.2, name)), false)
                    }
                },
            }
        }
    }
}

pub struct Args {
    pub positional: Vec<String>,
    pub options: Vec<(String, String)>,
    pub flags: Vec<String>,
}

/// The plain values of (name, value) string pairs.
pub open spec fn pair_views(v: Seq<(String, String)>) -> Seq<(Seq<char>, Seq<char>)> {
    v.map_values(|p: (String, String)| (p.0@, p.1@))
}

/// The plain values of (short, long) alias pairs.
pub open spec fn alias_views(v: Seq<(&str, &str)>) -> Seq<(Seq<char>, Seq<char>)> {
    v.map_values(|p: (&str, &str)| (p.0@, p.1@))
}

/// The plain values of string slices.
pub open spec fn str_views(v: Seq<&str>) -> Seq<Seq<char>> {
    v.map_values(|s: &str| s@)
}

impl Args {
    pub open spec fn view(&self) -> ArgsView {
        (string_views(self.positional@), pair_views(self.options@), string_views(self.flags@))
    }

    /// Whether a flag was given.
    pub fn flag(&self, name: &str) -> (r: bool)
        ensures
            r == string_views(self.flags@).contains(name@),
    {
        let mut i: usize = 0;
        while i < self.flags.len()
            invariant
                i <= self.flags@.len(),
                forall|j: int| 0 <= j < i ==> self.flags@[j]@ != name@,
            decreases self.flags.len() - i,
        {
            if same_str(self.flags[i].as_str(), name) {
                assert(string_views(self.flags@)[i as int] == name@);
                return true;
            }
            i += 1;
        }
        proof {
            if string_views(self.flags@).contains(name@) {
                let m = choose|m: int| 0 <= m < string_views(self.flags@).len() && string_views(self.flags@)[m] == name@;
                assert(self.flags@[m]@ == name@);
            }
        }
        false
    }

    /// The value of an option, if given.
    pub fn opt(&self, name: &str) -> (r: Option<&str>)
        ensures
            match r {
                Some(v) => option_get(pair_views(self.options@), name@) == Some(v@),
                None => option_get(pair_views(self.options@), name@) is None,
            },
    {
        let mut i: usize = 0;
        assert(pair_views(self.options@).skip(0) =~= pair_views(self.options@));
        while i < self.options.len()
            invariant
                i <= self.options@.len(),
                option_get(pair_views(self.options@), name@) == option_get(pair_views(self.options@).skip(i as int), name@),
            decreases self.options.len() - i,
        {
            assert(pair_views(self.options@).skip(i as int).drop_first() =~= pair_views(self.options@).skip(i + 1));
            if same_str(self.options[i].0.as_str(), name) {
                return Some(self.options[i].1.as_str());
            }
            i += 1;
        }
        None
    }
}

fn option_insert(opts: &mut Vec<(String, String)>, name: String, value: String)
    ensures
        pair_views(final(opts)@) == option_set(pair_views(old(opts)@), name@, value@),
{
    let ghost start = pair_views(opts@);
    let mut i: usize = 0;
    assert(start.take(0) =~= Seq::<(Seq<char>, Seq<char>)>::empty());
    assert(start.skip(0) =~= start);
    while i < opts.len()
        invariant
            i <= opts@.len(),
            *opts == *old(opts),
            start == pair_views(opts@),
            option_set(start, name@, value@) == start.take(i as int) + option_set(start.skip(i as int), name@, value@),
            forall|j: int| 0 <= j < i ==> opts@[j].0@ != name@,
        decreases opts.len() - i,
    {
        proof {
            assert(start.skip(i as int).drop_first() =~= start.skip(i + 1));
            assert(start.take(i + 1) =~= start.take(i as int).push(start[i as int]));
        }
        if opts[i].0 == name {
            let ghost before = pair_views(opts@);
            opts.set(i, (name, value));
            proof {
                assert(pair_views(opts@) =~= start.take(i as int) + start.skip(i as int).update(0, (name@, value@)));
            }
            return;
        }
        i += 1;
        proof {
            assert(option_set(start.skip(i - 1), name@, value@) =~= seq![start[i - 1]] + option_set(start.skip(i as int), name@, value@));
            assert(option_set(start, name@, value@) =~= start.take(i as int) + option_set(start.skip(i as int), name@, value@));
        }
    }
    let ghost nv = name@;
    let ghost vv = value@;
    opts.push((name, value));
    proof {
        assert(start.skip(i as int) =~= Seq::<(Seq<char>, Seq<char>)>::empty());
        assert(start.take(i as int) =~= start);
        assert(pair_views(opts@) =~= start.push((nv, vv)));
        assert(pair_views(opts@) =~= option_set(start, nv, vv));
    }
}

fn flag_insert(flags: &mut Vec<String>, name: String)
    ensures
        string_views(final(flags)@) == flag_set(string_views(old(flags)@), name@),
{
    let mut i: usize = 0;
    while i < flags.len()
        invariant
            i <= flags@.len(),
            *flags == *old(flags),
            forall|j: int| 0 <= j < i ==> flags@[j]@ != name@,
        decreases flags.len() - i,
    {
        if flags[i] == name {
            assert(string_views(flags@)[i as int] == name@);
            return;
        }
        i += 1;
    }
    proof {
        if string_views(flags@).contains(name@) {
            let m = choose|m: int| 0 <= m < string_views(flags@).len() && string_views(flags@)[m] == name@;
            assert(flags@[m]@ == name@);
        }
    }
    let ghost before = string_views(flags@);
    let ghost nv = name@;
    flags.push(name);
    assert(string_views(flags@) =~= before.push(nv));
}

fn is_dashed_long(t: &[char]) -> (r: bool)
    ensures
        r == long_form(t@),
{
    t.len() >= 2 && t[0] == '-' && t[1] == '-'
}

fn parts_of(tok: &[char]) -> (r: (Vec<char>, Option<Vec<char>>))
    ensures
        r.0@ == token_parts(tok@).0,
        match r.1 {
            Some(v) => token_parts(tok@).1 == Some(v@),
            None => token_parts(tok@).1 is None,
        },
{
    let mut k: usize = 0;
    while k < tok.len() && tok[k] != '='
        invariant
            k <= tok@.len(),
            forall|j: int| 0 <= j < k ==> tok@[j] != '=',
        decreases tok.len() - k,
    {
        k += 1;
    }
    if k == tok.len() {
        proof {
            assert(!(exists|m: int| 0 <= m < tok@.len() && tok@[m] == '='));
        }
        return (slice_chars(tok, 0, tok.len()), None);
    }
    proof {
        assert(tok@[k as int] == '=');
        let c = choose|m: int| 0 <= m < tok@.len() && tok@[m] == '=' && forall|j: int| 0 <= j < m ==> tok@[j] != '=';
        if c < k {
            assert(tok@[c] != '=');
        }
        if c > k {
            assert(tok@[k as int] != '=');
        }
        assert(first_eq(tok@) == Some(k as int));
    }
    let head = slice_chars(tok, 0, k);
    assert(head@ == tok@.take(k as int));
    if is_dashed_long(head.as_slice()) {
        let tail = slice_chars(tok, k + 1, tok.len());
        assert(tail@ == tok@.skip(k + 1));
        (head, Some(tail))
    } else {
        let whole = slice_chars(tok, 0, tok.len());
        assert(whole@ =~= tok@);
        (whole, None)
    }
}

fn name_of(tok: &[char], raw: &[char], aliases: &[(&str, &str)]) -> (r: Result<Vec<char>, String>)
    requires
        raw@ == token_parts(tok@).0,
    ensures
        match r {
            Ok(n) => token_name(tok@, alias_views(aliases@)) == Ok::<Seq<char>, Seq<char>>(n@),
            Err(e) => token_name(tok@, alias_views(aliases@)) == Err::<Seq<char>, Seq<char>>(e@),
        },
{
    if is_dashed_long(raw) {
        let n = slice_chars(raw, 2, raw.len());
        assert(n@ == raw@.skip(2));
        return Ok(n);
    }
    let mut k: usize = 0;
    assert(raw@.skip(0) =~= raw@);
    while k < raw.len() && raw[k] == '-'
        invariant
            k <= raw@.len(),
            strip_dashes(raw@) == strip_dashes(raw@.skip(k as int)),
        decreases raw.len() - k,
    {
        assert(raw@.skip(k as int).drop_first() =~= raw@.skip(k + 1));
        k += 1;
    }
    let short = slice_chars(raw, k, raw.len());
    assert(short@ == raw@.skip(k as int));
    let short_text = string_of(short.as_slice());
    let mut i: usize = 0;
    assert(alias_views(aliases@).skip(0) =~= alias_views(aliases@));
    while i < aliases.len()
        invariant
            i <= aliases@.len(),
            short_text@ == strip_dashes(raw@),
            raw@ == token_parts(tok@).0,
            !long_form(raw@),
            alias_of(alias_views(aliases@), short_text@) == alias_of(alias_views(aliases@).skip(i as int), short_text@),
        decreases aliases.len() - i,
    {
        assert(alias_views(aliases@).skip(i as int).drop_first() =~= alias_views(aliases@).skip(i + 1));
        let (s, l) = aliases[i];
        assert(alias_views(aliases@).skip(i as int)[0] == (s@, l@));
        if same_str(s, short_text.as_str()) {
            return Ok(chars_of(l));
        }
        i += 1;
    }
    let mut e: Vec<char> = Vec::new();
    push_str(&mut e, "unrecognized arguments: ");
    let ghost before = e@;
    let mut j: usize = 0;
    while j < tok.len()
        invariant
            j <= tok@.len(),
            e@ == before + tok@.take(j as int),
        decreases tok.len() - j,
    {
        e.push(tok[j]);
        j += 1;
        assert(e@ =~= before + tok@.take(j as int));
    }
    assert(tok@.take(tok@.len() as int) =~= tok@);
    Err(string_of(e.as_slice()))
}

fn listed(v: &[&str], x: &[char]) -> (r: bool)
    ensures
        r == str_views(v@).contains(x@),
{
    let xs = string_of(x);
    let mut i: usize = 0;
    while i < v.len()
        invariant
            i <= v@.len(),
            xs@ == x@,
            forall|j: int| 0 <= j < i ==> v@[j]@ != x@,
        decreases v.len() - i,
    {
        if same_str(v[i], xs.as_str()) {
            assert(str_views(v@)[i as int] == x@);
            return true;
        }
        i += 1;
    }
    proof {
        if str_views(v@).contains(x@) {
            let m = choose|m: int| 0 <= m < str_views(v@).len() && str_views(v@)[m] == x@;
            assert(v@[m]@ == x@);
        }
    }
    false
}

fn message(a: &str, name: &[char], b: &str) -> (r: String)
    ensures
        r@ == a@ + name@ + b@,
{
    let mut v: Vec<char> = Vec::new();
    push_str(&mut v, a);
    let ghost mid = v@;
    let mut j: usize = 0;
    while j < name.len()
        invariant
            j <= name@.len(),
            v@ == mid + name@.take(j as int),
        decreases name.len() - j,
    {
        v.push(name[j]);
        j += 1;
        assert(v@ =~= mid + name@.take(j as int));
    }
    assert(name@.take(name@.len() as int) =~= name@);
    push_str(&mut v, b);
    string_of(v.as_slice())
}

impl Args {
    /// `takes_value` names options that consume the next token; `aliases` maps
    /// short forms to long names (`-l` → `list`).
    pub fn parse(argv: &[String], takes_value: &[&str], aliases: &[(&str, &str)]) -> (r: Result<Args, String>)
        ensures
            match r {
                Ok(a) => parse_from(string_views(argv@), str_views(takes_value@), alias_views(aliases@), 0,
                    (Seq::empty(), Seq::empty(), Seq::empty()), false) == Ok::<ArgsView, Seq<char>>(a.view()),
                Err(e) => parse_from(string_views(argv@), str_views(takes_value@), alias_views(aliases@), 0,
                    (Seq::empty(), Seq::empty(), Seq::empty()), false) == Err::<ArgsView, Seq<char>>(e@),
            },
    {
        let ghost av = string_views(argv@);
        let ghost tv = str_views(takes_value@);
        let ghost al = alias_views(aliases@);
        let ghost start = parse_from(av, tv, al, 0, (Seq::empty(), Seq::empty(), Seq::empty()), false);
        let mut args = Args { positional: Vec::new(), options: Vec::new(), flags: Vec::new() };
        let mut i: usize = 0;
        let mut only_positional = false;
        proof {
            assert(args.view() =~= (Seq::<Seq<char>>::empty(), Seq::<(Seq<char>, Seq<char>)>::empty(), Seq::<Seq<char>>::empty()));
        }
        while i < argv.len()
            invariant
                i <= argv@.len(),
                av == string_views(argv@),
                tv == str_views(takes_value@),
                al == alias_views(aliases@),
                start == parse_from(av, tv, al, 0, (Seq::empty(), Seq::empty(), Seq::empty()), false),
                start == parse_from(av, tv, al, i as int, args.view(), only_positional),
            decreases argv.len() - i,
        {
            let tok = chars_of(argv[i].as_str());
            assert(tok@ == av[i as int]);
            let dash = tok.len() > 0 && tok[0] == '-';
            proof {
                reveal_strlit("-");
                reveal_strlit("--");
            }
            let lone = tok.len() == 1 && tok[0] == '-';
            proof {
                assert("-"@ =~= seq!['-']);
                if lone {
                    assert(tok@ =~= seq!['-']);
                }
            }
            if only_positional || !dash || lone {
                let ghost before = args.view();
                args.positional.push(argv[i].clone());
                assert(args.view() =~= (before.0.push(av[i as int]), before.1, before.2));
                i += 1;
                continue;
            }
            let double = tok.len() == 2 && tok[0] == '-' && tok[1] == '-';
            proof {
                assert("--"@ =~= seq!['-', '-']);
                if double {
                    assert(tok@ =~= seq!['-', '-']);
                }
            }
            if double {
                only_positional = true;
                i += 1;
                continue;
            }
            let (raw, inline) = parts_of(tok.as_slice());
            proof {
                assert(!only_positional);
                assert(tok@.len() > 0 && tok@[0] == '-');
                assert(tok@ != "-"@);
                assert(tok@ != "--"@);
            }
            let name = match name_of(tok.as_slice(), raw.as_slice(), aliases) {
                Ok(n) => n,
                Err(e) => {
                    assert(token_name(av[i as int], al) == Err::<Seq<char>, Seq<char>>(e@));
                    return Err(e);
                },
            };
            if listed(takes_value, name.as_slice()) {
                let value: String = match inline {
                    Some(v) => string_of(v.as_slice()),
                    None => {
                        if i + 1 < argv.len() {
                            i += 1;
                            argv[i].clone()
                        } else {
                            return Err(message("argument --", name.as_slice(), ": expected one argument"));
                        }
                    },
                };
                option_insert(&mut args.options, string_of(name.as_slice()), value);
            } else {
                if inline.is_some() {
                    return Err(message("argument --", name.as_slice(), ": ignored explicit argument"));
                }
                flag_insert(&mut args.flags, string_of(name.as_slice()));
            }
            only_positional = false;
            i += 1;
        }
        Ok(args)
    }
}

/// The arguments after the first.
pub fn tail_of(argv: &[String]) -> (r: Vec<String>)
    requires
        argv@.len() > 0,
    ensures
        r@ == argv@.drop_first(),
{
    let mut r: Vec<String> = Vec::new();
    let mut i: usize = 1;
    while i < argv.len()
        invariant
            1 <= i <= argv@.len(),
            r@ == argv@.subrange(1, i as int),
        decreases argv.len() - i,
    {
        r.push(argv[i].clone());
        i += 1;
        assert(r@ =~= argv@.subrange(1, i as int));
    }
    assert(argv@.subrange(1, argv@.len() as int) =~= argv@.drop_first());
    r
}

} // verus!
