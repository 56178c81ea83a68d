//! Handing the notes field to `$EDITOR`: which editor, and the command that
//! opens a file in it. Writing the file and running the command happen
//! around this.

use vstd::prelude::*;

use crate::text::{chars_of, string_of, string_views, trim, trim_chars, views, words, words_of};

verus! {

/// The editor to use: `$EDITOR` (given as `env_value`) trimmed, when it is
/// not blank; else `vim`.
pub open spec fn editor_of(env_value: Option<Seq<char>>) -> Seq<char> {
    match env_value {
        Some(v) => if trim(v).len() > 0 {
            trim(v)
        } else {
            "vim"@
        },
        None => "vim"@,
    }
}

/// `$EDITOR`, else `vim`.
pub fn resolve_editor(env_value: Option<&str>) -> (r: String)
    ensures
        r@ == editor_of(
            match env_value {
                Some(v) => Some(v@),
                None => None,
            },
        ),
{
    if let Some(v) = env_value {
        let t = trim_chars(chars_of(v).as_slice());
        if t.len() > 0 {
            return string_of(t.as_slice());
        }
    }
    "vim".to_owned()
}

/// What `shlex::split(text)` returns: the words a POSIX shell would make of
/// `text`, or None when its quoting is unbalanced.
pub uninterp spec fn shell_split(text: Seq<char>) -> Option<Seq<Seq<char>>>;

/// `shlex::split`: the contract claims only that the result is the named
/// split of `text`, word by word.
#[verifier::external_body]
fn shell_words(text: &str) -> (r: Option<Vec<String>>)
    ensures
        match r {
            Some(v) => shell_split(text@) == Some(string_views(v@)),
            None => shell_split(text@) is None,
        },
{
    shlex::split(text)
}

/// The command that opens `path`: the editor's words as a shell split them
/// (`split`, or the white-space separated words of `editor` when the split
/// failed), `vim` when there are none, then the path.
pub open spec fn editor_argv(split: Option<Seq<Seq<char>>>, editor: Seq<char>, path: Seq<char>) -> Seq<Seq<char>> {
    let ws = match split {
        Some(ws) => ws,
        None => words(editor),
    };
    (if ws.len() == 0 {
        seq!["vim"@]
    } else {
        ws
    }).push(path)
}

/// The command that opens `path` in `editor`, given how a shell split it.
pub fn command_from_words(split: Option<Vec<String>>, editor: &str, path: &str) -> (r: Vec<String>)
    ensures
        string_views(r@) == editor_argv(
            match split {
                Some(v) => Some(string_views(v@)),
                None => None,
            },
            editor@,
            path@,
        ),
{
    let mut command: Vec<String> = match split {
        Some(v) => v,
        None => {
            let ws = words_of(chars_of(editor).as_slice());
            let mut out: Vec<String> = Vec::new();
            let mut i: usize = 0;
            while i < ws.len()
                invariant
                    i <= ws@.len(),
                    string_views(out@) == views(ws@).take(i as int),
                decreases ws.len() - i,
            {
                let ghost before = out@;
                out.push(string_of(ws[i].as_slice()));
                assert(string_views(out@) =~= string_views(before).push(ws@[i as int]@));
                assert(views(ws@).take(i + 1) =~= views(ws@).take(i as int).push(ws@[i as int]@));
                i += 1;
            }
            assert(views(ws@).take(ws@.len() as int) =~= views(ws@));
            out
        },
    };
    if command.len() == 0 {
        command.push("vim".to_owned());
        assert(string_views(command@) =~= seq!["vim"@]);
    }
    let ghost before = command@;
    command.push(path.to_owned());
    assert(string_views(command@) =~= string_views(before).push(path@));
    command
}

/// The command that opens `path` in `editor`: split as a shell would.
pub fn editor_command(editor: &str, path: &str) -> (r: Vec<String>)
    ensures
        string_views(r@) == editor_argv(shell_split(editor@), editor@, path@),
{
    let split = shell_words(editor);
    command_from_words(split, editor, path)
}


/// One editing session: the temp file the notes were written to, and the
/// command that opens it.
#[derive(Debug, Clone)]
pub struct EditorJob {
    pub tmp: String,
    pub command: Vec<String>,
}

impl EditorJob {
    /// The session for the file at `tmp`, opened in `editor`.
    pub fn new(tmp: &str, editor: &str) -> (job: EditorJob)
        ensures
            job.tmp@ == tmp@,
            string_views(job.command@) == editor_argv(shell_split(editor@), editor@, tmp@),
    {
        EditorJob { tmp: tmp.to_owned(), command: editor_command(editor, tmp) }
    }
}

} // verus!
