//! The pieces of the interactive shell that are decisions on text: which
//! lines enter the history, where the history file lives, the prompt, the
//! error lines and the job notices.
use vstd::prelude::*;
use crate::colors::{paint_red, paint_yellow, paint_cyan, painted, red_code, yellow_code, cyan_code};
use crate::text::{chars_of, string_of, extend_chars, decimal, decimal_chars};
use crate::machine::{Diag, ShellState};
use crate::commands::{Command, strs};
use crate::history::{history_entries, again_spec, again_command};
use crate::format_line::{format_line, format_error, format_line_spec, enc_upto};
use crate::parser::{ParseError, try_parser, parse_result, parse_spec};
use rustyline::history::FileHistory;

verus! {

/// The name of the history file, in the home directory.
pub const HISTORY_FILE: &'static str = ".rsh_history";

/// Whether a (non-empty) line is saved in the history: not when it starts
/// with a space.
pub fn should_save(line: &str) -> (r: bool)
    requires
        line@.len() > 0,
    ensures
        r == (line@[0] != ' '),
{
    let c = chars_of(line);
    c[0] != ' '
}

/// The path of the history file: `home/.rsh_history`.
pub fn history_path(home: &str) -> (r: String)
    ensures
        r@ == home@ + seq!['/'] + HISTORY_FILE@,
{
    let mut v = chars_of(home);
    v.push('/');
    let f = chars_of(HISTORY_FILE);
    extend_chars(&mut v, &f);
    string_of(&v)
}

/// The prompt: `rsh@user:` in yellow, then `cwd$ ` in cyan.
pub fn prompt(user: &str, current_dir: &str) -> (r: String)
    ensures
        exists|a: Seq<char>, b: Seq<char>, c: Seq<char>, d: Seq<char>, e: Seq<char>|
            painted(a, "rsh@"@, yellow_code()) && painted(b, user@, yellow_code()) && painted(
                c,
                ":"@,
                yellow_code(),
            ) && painted(d, current_dir@, cyan_code()) && painted(e, "$ "@, cyan_code()) && r@ == a
                + b + c + d + e,
{
    let a = paint_yellow("rsh@");
    let b = paint_yellow(user);
    let c = paint_yellow(":");
    let d = paint_cyan(current_dir);
    let e = paint_cyan("$ ");
    let mut v = chars_of(a.as_str());
    extend_chars(&mut v, &chars_of(b.as_str()));
    extend_chars(&mut v, &chars_of(c.as_str()));
    extend_chars(&mut v, &chars_of(d.as_str()));
    extend_chars(&mut v, &chars_of(e.as_str()));
    assert(v@ == a@ + b@ + c@ + d@ + e@);
    string_of(&v)
}

/// An error line: `rsh:` in red, a space, the message.
pub fn error_line(msg: &str) -> (r: String)
    ensures
        exists|p: Seq<char>| painted(p, "rsh:"@, red_code()) && r@ == p + seq![' '] + msg@,
{
    let p = paint_red("rsh:");
    let mut v = chars_of(p.as_str());
    v.push(' ');
    extend_chars(&mut v, &chars_of(msg));
    string_of(&v)
}

pub open spec fn diag_message(d: Diag) -> Seq<char> {
    match d {
        Diag::IncorrectCd => "incorrect command cd"@,
        Diag::IncorrectSet => "incorrect command set"@,
        Diag::IncorrectGet => "incorrect command get"@,
        Diag::IncorrectUnset => "incorrect command unset"@,
        Diag::VariableNotFound => "variable not found"@,
        Diag::NullOutput => "the out of the command is null"@,
        Diag::IncorrectFg => "incorrect command fg"@,
        Diag::NoJob => "no such job"@,
        Diag::IncorrectHelp => "incorrect command help"@,
    }
}

impl Diag {
    /// The message shown for the problem.
    pub fn message(&self) -> (r: &'static str)
        ensures
            r@ == diag_message(*self),
    {
        match self {
            Diag::IncorrectCd => "incorrect command cd",
            Diag::IncorrectSet => "incorrect command set",
            Diag::IncorrectGet => "incorrect command get",
            Diag::IncorrectUnset => "incorrect command unset",
            Diag::VariableNotFound => "variable not found",
            Diag::NullOutput => "the out of the command is null",
            Diag::IncorrectFg => "incorrect command fg",
            Diag::NoJob => "no such job",
            Diag::IncorrectHelp => "incorrect command help",
        }
    }
}

/// The notice for a finished background job: `[n]\tDone\tpid`, `n` from 1.
pub fn job_done_line(index: usize, pid: u32) -> (r: String)
    requires
        index < usize::MAX,
    ensures
        r@ == seq!['['] + decimal(index as nat + 1) + "]\tDone\t"@ + decimal(pid as nat),
{
    let mut v: Vec<char> = Vec::new();
    v.push('[');
    extend_chars(&mut v, &decimal_chars(index + 1));
    extend_chars(&mut v, &chars_of("]\tDone\t"));
    extend_chars(&mut v, &decimal_chars(pid as usize));
    string_of(&v)
}

/// A command line made ready to run.
pub struct Prepared {
    /// Whether the line enters the history.
    pub save: bool,
    /// The line with `again` expanded; this is what the history keeps.
    pub line: String,
    /// How many wrong `again` indices were met (each reported).
    pub again_errors: usize,
    /// Whether a double quote was left open (reported; the line then stands
    /// for `false`).
    pub format_error: bool,
    /// The command; `None` where the line has no arguments.
    pub command: Option<Command>,
    /// The errors met while parsing, in order (each reported).
    pub parse_errors: Vec<ParseError>,
}

/// What the shell decides about a line before running it: whether it is
/// saved, its expansion of `again` against the history, its arguments and
/// the command they make. `None` for an empty line (the shell ignores it) and
/// for one too long to split.
pub fn prepare(history: &FileHistory, line: &str) -> (r: Option<Prepared>)
    ensures
        line@.len() == 0 ==> r is None,
        ({
            let l = again_spec(line@, history_entries(*history)).0;
            line@.len() > 0 && 6 * l.len() <= usize::MAX && format_line_spec(l).len() <= i32::MAX
                ==> r is Some
        }),
        r matches Some(p) ==> {
            let (l, e) = again_spec(line@, history_entries(*history));
            &&& line@.len() > 0
            &&& p.save == (line@[0] != ' ')
            &&& p.line@ == l
            &&& p.again_errors == e
            &&& p.format_error == enc_upto(l, l.len()).quoted
            &&& parse_result(p.command, parse_spec(format_line_spec(l)), seq![], p.parse_errors@)
        },
{
    let chars = chars_of(line);
    if chars.len() == 0 {
        return None;
    }
    let save = should_save(line);
    let (expanded, again_errors) = again_command(history, line);
    let lc = chars_of(expanded.as_str());
    if lc.len() > usize::MAX / 6 {
        return None;
    }
    let fe = format_error(expanded.as_str());
    let args = format_line(string_of(&lc));
    if args.len() > 2147483647usize {
        return None;
    }
    assert(strs(args@) == format_line_spec(lc@));
    let mut parse_errors: Vec<ParseError> = Vec::new();
    let command = try_parser(args.as_slice(), &mut parse_errors);
    assert(parse_errors@ == Seq::<ParseError>::empty() + parse_errors@);
    Some(Prepared { save, line: expanded, again_errors, format_error: fe, command, parse_errors })
}

impl ShellState {
    /// Forgets the background job at `index` (it has finished).
    pub fn remove_job(&mut self, index: usize)
        requires
            index < old(self).jobs@.len(),
        ensures
            final(self).jobs@ == old(self).jobs@.remove(index as int),
            final(self).variables.entries() == old(self).variables.entries(),
    {
        self.jobs.remove(index);
    }
}

} // verus!
