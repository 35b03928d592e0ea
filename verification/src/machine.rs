//! Running a command tree. The shell's outside work (starting programs,
//! opening and copying files, reading pipes, printing, changing directory)
//! is done by the caller; the machine decides, one step at a time, what to
//! do next from its state and the outcome of the last piece of work.
use vstd::prelude::*;
use rustyline::history::FileHistory;
use crate::commands::{
    Redirect, Chain, Special, GetSet, strs, Command, CmdV, cmd_view,
};
use crate::text::{trim, decimal, parse_usize_spec, parse_usize, chars_of, string_of, trim_chars, extend_chars, decimal_chars};
use crate::variables::{Variables, lookup_var, insert_var, remove_var, has_key, listing_ok, var_line_ok, valid_name, valid_name_spec};
use crate::colors::{painted, green_code};
use crate::history::{history_entries, history_len, history_get};
use crate::help::{help, help_spec};

verus! {

/// A problem a built-in reports.
#[derive(PartialEq, Eq, Structural, Clone, Copy, Debug)]
pub enum Diag {
    IncorrectCd,
    IncorrectSet,
    IncorrectGet,
    IncorrectUnset,
    VariableNotFound,
    NullOutput,
    IncorrectFg,
    NoJob,
    IncorrectHelp,
}

/// The background jobs, oldest first: process id and command text.
pub type JobsV = Seq<(u32, Seq<char>)>;

pub open spec fn jobs_view(j: Seq<(u32, String)>) -> JobsV {
    j.map_values(|p: (u32, String)| (p.0, p.1@))
}

/// The variables and the background jobs (process id and command text,
/// oldest first).
pub struct ShellState {
    pub variables: Variables,
    pub jobs: Vec<(u32, String)>,
}

impl ShellState {
    pub fn new() -> (r: ShellState)
        ensures
            r.variables.entries() == Seq::<(Seq<char>, Seq<char>)>::empty(),
            jobs_view(r.jobs@) == Seq::<(u32, Seq<char>)>::empty(),
    {
        let r = ShellState { variables: Variables::new(), jobs: Vec::new() };
        assert(jobs_view(r.jobs@) =~= Seq::<(u32, Seq<char>)>::empty());
        r
    }
}

/// What is left to do once a child command has given its result.
pub enum Frame {
    /// The first command of a pipe is running; the second reads its output.
    PipeSecond { command2: Box<Command>, out: bool },
    /// The second command of a pipe is running.
    PipeDone { status1: bool },
    /// The first command of a chain is running.
    ChainSecond { command2: Box<Command>, chain: Chain, out: bool },
    /// The second command of a chain is running.
    ChainDone { fd1: i32, status1: bool },
    /// The condition of a conditional is running.
    CondBranch { c_then: Box<Command>, c_else: Box<Command>, out: bool },
    /// The chosen branch of a conditional is running.
    CondDone { fd1: i32 },
    /// The command of a redirection is running, `file` open.
    RedirectDone { redirect: Redirect, file: i32 },
    /// The command of `set variable ( command )` is running.
    ComplexSetDone { variable: String },
}

/// The outside work the machine waits for.
pub enum Awaiting {
    /// A program started by `Spawn`.
    Spawn,
    /// `cd`.
    ChangeDir,
    /// The file of a redirection.
    Open { command: Box<Command>, redirect: Redirect, stdin: i32, out: bool },
    /// Copying a command's output into the file of a redirection.
    Copy { status: bool },
    /// The output of the first of two commands whose outputs are joined.
    ReadFirst { fd2: i32, status: bool },
    /// The output of the second of two commands whose outputs are joined.
    ReadSecond { text1: Option<String>, status: bool },
    /// `echo`, started to turn text into an output.
    Echo { status: bool },
    /// Printing.
    Print { status: bool },
    /// The output of the command of `set variable ( command )`.
    ReadVar { variable: String },
    /// A background job being started, with its command text.
    Background { text: String },
    /// A background job brought to the foreground, at this index.
    Wait { index: usize },
    /// Leaving the shell.
    Exit,
}

pub enum Mode {
    Eval { command: Command, stdin: i32, out: bool },
    Return { fd: i32, status: bool },
    Await(Awaiting),
    Finished { fd: i32, status: bool },
}

/// The outcome of the last piece of outside work.
pub enum Event {
    Ack,
    Failed,
    Done { fd: i32, status: bool },
    Text(String),
    Opened(i32),
    Started(u32),
}

/// The next piece of outside work.
pub enum Action {
    /// Nothing to do: call `step` again.
    Continue,
    /// Start `program` with `args`, its input the descriptor `stdin` (-1:
    /// the shell's), its output the shell's when `out`, else a pipe; answer
    /// with `Done` (the pipe's descriptor or -1, and whether it succeeded).
    Spawn { program: String, args: Vec<String>, stdin: i32, out: bool },
    /// Change directory (`None`: the home directory); `Ack` or `Failed`.
    ChangeDir { dir: Option<String> },
    /// Open the file of a redirection; `Opened` or `Failed`.
    Open { path: String, redirect: Redirect },
    /// Copy what can be read from `fd` into `file`; `Ack` or `Failed`.
    Copy { fd: i32, file: i32 },
    /// Read all of `fd`; `Text`.
    Read { fd: i32 },
    /// Print the text; `Ack`.
    Print { text: String },
    /// Run the command as a background job; `Started` or `Failed`.
    Background { command: Command },
    /// Wait for the process; `Done`.
    Wait { pid: u32 },
    /// Save the history and leave.
    Exit,
    /// The command line is done.
    Finish { fd: i32, status: bool },
}

pub enum ActionV {
    Continue,
    Spawn { program: Seq<char>, args: Seq<Seq<char>>, stdin: i32, out: bool },
    ChangeDir { dir: Option<Seq<char>> },
    Open { path: Seq<char>, redirect: Redirect },
    Copy { fd: i32, file: i32 },
    Read { fd: i32 },
    Print { text: Seq<char> },
    Background { command: CmdV },
    Wait { pid: u32 },
    Exit,
    Finish { fd: i32, status: bool },
}

impl View for Action {
    type V = ActionV;

    open spec fn view(&self) -> ActionV {
        match self {
            Action::Continue => ActionV::Continue,
            Action::Spawn { program, args, stdin, out } => ActionV::Spawn {
                program: program@,
                args: strs(args@),
                stdin: *stdin,
                out: *out,
            },
            Action::ChangeDir { dir } => ActionV::ChangeDir {
                dir: match dir {
                    Some(d) => Some(d@),
                    None => None,
                },
            },
            Action::Open { path, redirect } => ActionV::Open { path: path@, redirect: *redirect },
            Action::Copy { fd, file } => ActionV::Copy { fd: *fd, file: *file },
            Action::Read { fd } => ActionV::Read { fd: *fd },
            Action::Print { text } => ActionV::Print { text: text@ },
            Action::Background { command } => ActionV::Background { command: command@ },
            Action::Wait { pid } => ActionV::Wait { pid: *pid },
            Action::Exit => ActionV::Exit,
            Action::Finish { fd, status } => ActionV::Finish { fd: *fd, status: *status },
        }
    }
}

pub struct MachineV {
    pub frames: Seq<Frame>,
    pub mode: Mode,
}

/// A command line being run.
pub struct Machine {
    frames: Vec<Frame>,
    mode: Mode,
}

impl View for Machine {
    type V = MachineV;

    closed spec fn view(&self) -> MachineV {
        MachineV { frames: self.frames@, mode: self.mode }
    }
}

/// The variables, as name-value pairs.
pub type Vars = Seq<(Seq<char>, Seq<char>)>;

/// The result of one step.
pub struct Next {
    pub machine: MachineV,
    pub vars: Vars,
    pub jobs: JobsV,
    pub action: ActionV,
    pub diag: Option<Diag>,
}

pub open spec fn echo_action(buf: Seq<char>) -> ActionV {
    ActionV::Spawn { program: "echo"@, args: seq![trim(buf)], stdin: -1i32, out: false }
}

/// The history as `history` lists it: `n: entry` lines, from 1.
pub open spec fn history_listing(hist: Seq<Seq<char>>) -> Seq<char>
    decreases hist.len(),
{
    if hist.len() == 0 {
        seq![]
    } else {
        history_listing(hist.drop_last()) + decimal(hist.len()) + seq![':', ' '] + hist.last()
            + seq!['\n']
    }
}

/// The entries `history` shows: the last 100.
pub open spec fn last_hundred(hist: Seq<Seq<char>>) -> Seq<Seq<char>> {
    if hist.len() > 100 {
        hist.subrange(hist.len() - 100, hist.len() as int)
    } else {
        hist
    }
}

/// The background jobs as `jobs` lists them: `[n]\tcommand\tpid` lines,
/// from 1.
pub open spec fn jobs_listing(jobs: JobsV) -> Seq<char>
    decreases jobs.len(),
{
    if jobs.len() == 0 {
        seq![]
    } else {
        jobs_listing(jobs.drop_last()) + seq!['['] + decimal(jobs.len()) + seq![']', '\t']
            + jobs.last().1 + seq!['\t'] + decimal(jobs.last().0 as nat) + seq!['\n']
    }
}

/// What a variable built-in does: its output text, its status, the problem
/// it reports and the variables after it. `listing` is the output of `get`
/// alone.
pub open spec fn get_set_outcome(
    args: Seq<Seq<char>>,
    gs: GetSet,
    vars: Vars,
    listing: Seq<char>,
) -> (Seq<char>, bool, Option<Diag>, Vars) {
    match gs {
        GetSet::SetVar => if args.len() == 3 && valid_name_spec(args[1]) {
            (seq![], true, None, insert_var(vars, args[1], args[2]))
        } else {
            (seq![], false, Some(Diag::IncorrectSet), vars)
        },
        GetSet::Get => if args.len() == 1 {
            (listing, true, None, vars)
        } else if args.len() == 2 {
            match lookup_var(vars, args[1]) {
                Some(v) => (v.push('\n'), true, None, vars),
                None => (seq![], false, Some(Diag::VariableNotFound), vars),
            }
        } else {
            (seq![], false, Some(Diag::IncorrectGet), vars)
        },
        GetSet::UnSet => if args.len() == 2 {
            if has_key(vars, args[1]) {
                (seq![], true, None, remove_var(vars, args[1]))
            } else {
                (seq![], false, Some(Diag::VariableNotFound), vars)
            }
        } else {
            (seq![], false, Some(Diag::IncorrectUnset), vars)
        },
    }
}

/// Handing a built-in's output on: printed when the output goes to the
/// terminal or is empty, else turned into a pipe by `echo`.
pub open spec fn emit(text: Seq<char>, status: bool, out: bool) -> (Mode, ActionV) {
    if out || text.len() == 0 {
        (Mode::Await(Awaiting::Print { status }), ActionV::Print { text })
    } else {
        (Mode::Await(Awaiting::Echo { status }), echo_action(text))
    }
}

/// Like `emit`, but empty text goes to `echo` too.
pub open spec fn emit_listing(text: Seq<char>, out: bool) -> (Mode, ActionV) {
    if out {
        (Mode::Await(Awaiting::Print { status: true }), ActionV::Print { text })
    } else {
        (Mode::Await(Awaiting::Echo { status: true }), echo_action(text))
    }
}

pub open spec fn opt_text(t: Option<String>) -> Seq<char> {
    match t {
        Some(s) => s@,
        None => seq![],
    }
}

/// Joining the outputs of two commands once the first one is known.
pub open spec fn merge_second(text1: Option<String>, fd2: i32, status: bool) -> (Mode, ActionV) {
    if fd2 != -1 {
        (Mode::Await(Awaiting::ReadSecond { text1, status }), ActionV::Read { fd: fd2 })
    } else {
        (Mode::Await(Awaiting::Echo { status }), echo_action(opt_text(text1)))
    }
}

/// Joining the outputs of two commands: the first output followed by the
/// second one trimmed, made into one pipe by `echo`.
pub open spec fn merge(fd1: i32, fd2: i32, status: bool) -> (Mode, ActionV) {
    if fd1 != -1 {
        (Mode::Await(Awaiting::ReadFirst { fd2, status }), ActionV::Read { fd: fd1 })
    } else {
        merge_second(None, fd2, status)
    }
}

pub open spec fn with_mode(m: Seq<Frame>, vars: Vars, jobs: JobsV, ma: (Mode, ActionV), diag: Option<Diag>) -> Next {
    Next { machine: MachineV { frames: m, mode: ma.0 }, vars, jobs, action: ma.1, diag }
}

pub open spec fn push_eval(m: Seq<Frame>, vars: Vars, jobs: JobsV, f: Frame, command: Command, stdin: i32, out: bool) -> Next {
    Next {
        machine: MachineV { frames: m.push(f), mode: Mode::Eval { command, stdin, out } },
        vars,
        jobs,
        action: ActionV::Continue,
        diag: None,
    }
}

pub open spec fn ret(m: Seq<Frame>, vars: Vars, jobs: JobsV, fd: i32, status: bool, diag: Option<Diag>) -> Next {
    Next { machine: MachineV { frames: m, mode: Mode::Return { fd, status } }, vars, jobs, action: ActionV::Continue, diag }
}

/// Starting to run a command.
pub open spec fn eval_next(m: Seq<Frame>, vars: Vars, jobs: JobsV, hist: Seq<Seq<char>>, command: Command, stdin: i32, out: bool, listing: Seq<char>) -> Next {
    match command {
        Command::System(s) => with_mode(m, vars, jobs, (Mode::Await(Awaiting::Spawn), ActionV::Spawn {
            program: s.program@,
            args: strs(s.args@),
            stdin,
            out,
        }), None),
        Command::Cd(c) => {
            let a = strs(c.args@);
            if a.len() > 2 {
                ret(m, vars, jobs, -1i32, false, Some(Diag::IncorrectCd))
            } else {
                with_mode(m, vars, jobs, (Mode::Await(Awaiting::ChangeDir), ActionV::ChangeDir {
                    dir: if a.len() <= 1 { None } else { Some(a[1]) },
                }), None)
            }
        },
        Command::Pipe(p) => push_eval(m, vars, jobs, Frame::PipeSecond { command2: p.command2, out }, *p.command1, stdin, false),
        Command::Redirect(r) => with_mode(m, vars, jobs, (Mode::Await(Awaiting::Open {
            command: r.command,
            redirect: r.redirect,
            stdin,
            out,
        }), ActionV::Open { path: r.path@, redirect: r.redirect }), None),
        Command::Chain(c) => push_eval(m, vars, jobs, Frame::ChainSecond { command2: c.command2, chain: c.chain, out }, *c.command1, -1i32, out),
        Command::Special(s) => match s.special {
            Special::True => ret(m, vars, jobs, -1i32, true, None),
            Special::False => ret(m, vars, jobs, -1i32, false, None),
            Special::Exit => with_mode(m, vars, jobs, (Mode::Await(Awaiting::Exit), ActionV::Exit), None),
        },
        Command::GetSet(g) => {
            let o = get_set_outcome(strs(g.args@), g.get_set, vars, listing);
            with_mode(m, o.3, jobs, emit(o.0, o.1, out), o.2)
        },
        Command::ComplexSet(cs) => if valid_name_spec(cs.variable@) {
            push_eval(m, vars, jobs, Frame::ComplexSetDone { variable: cs.variable }, *cs.command, -1i32, false)
        } else {
            ret(m, vars, jobs, -1i32, false, Some(Diag::IncorrectSet))
        },
        Command::History(_) => with_mode(m, vars, jobs, emit_listing(history_listing(last_hundred(hist)), out), None),
        Command::Conditional(c) => push_eval(m, vars, jobs, Frame::CondBranch { c_then: c.c_then, c_else: c.c_else, out }, *c.c_if, -1i32, out),
        Command::Background(b) => with_mode(m, vars, jobs, (Mode::Await(Awaiting::Background { text: b.text }), ActionV::Background { command: cmd_view(*b.command) }), None),
        Command::Jobs(_) => with_mode(m, vars, jobs, emit_listing(jobs_listing(jobs), out), None),
        Command::Foreground(f) => {
            let a = strs(f.args@);
            let index: Option<int> = if a.len() == 1 {
                if jobs.len() > 0 { Some(jobs.len() - 1) } else { None }
            } else if a.len() == 2 {
                match parse_usize_spec(a[1]) {
                    Some(n) => if 1 <= n <= jobs.len() { Some(n - 1) } else { None },
                    None => None,
                }
            } else {
                None
            };
            if a.len() > 2 {
                ret(m, vars, jobs, -1i32, false, Some(Diag::IncorrectFg))
            } else {
                match index {
                    Some(i) => with_mode(m, vars, jobs, (Mode::Await(Awaiting::Wait { index: i as usize }), ActionV::Wait { pid: jobs[i].0 }), None),
                    None => ret(m, vars, jobs, -1i32, false, Some(Diag::NoJob)),
                }
            }
        },
        Command::Help(h) => match help_spec(strs(h.args@)) {
            Some(t) => with_mode(m, vars, jobs, emit(t, true, out), None),
            None => ret(m, vars, jobs, -1i32, false, Some(Diag::IncorrectHelp)),
        },
    }
}

/// Handing a result `(fd, status)` to the innermost waiting frame.
pub open spec fn return_next(m: Seq<Frame>, vars: Vars, jobs: JobsV, fd: i32, status: bool) -> Next {
    if m.len() == 0 {
        Next {
            machine: MachineV { frames: m, mode: Mode::Finished { fd, status } },
            vars,
            jobs,
            action: ActionV::Finish { fd, status },
            diag: None,
        }
    } else {
        let rest = m.drop_last();
        match m.last() {
            Frame::PipeSecond { command2, out } => push_eval(rest, vars, jobs, Frame::PipeDone { status1: status }, *command2, fd, out),
            Frame::PipeDone { status1 } => ret(rest, vars, jobs, fd, status1 && status, None),
            Frame::ChainSecond { command2, chain, out } => {
                let run = match chain {
                    Chain::And => status,
                    Chain::Or => !status,
                    Chain::Multiple => true,
                };
                if run {
                    push_eval(rest, vars, jobs, Frame::ChainDone { fd1: fd, status1: status }, *command2, -1i32, out)
                } else {
                    with_mode(rest, vars, jobs, merge(fd, -1i32, status), None)
                }
            },
            Frame::ChainDone { fd1, status1 } => with_mode(rest, vars, jobs, merge(fd1, fd, status1 && status), None),
            Frame::CondBranch { c_then, c_else, out } => push_eval(rest, vars, jobs, Frame::CondDone { fd1: fd }, if status { *c_then } else { *c_else }, -1i32, out),
            Frame::CondDone { fd1 } => with_mode(rest, vars, jobs, merge(fd1, fd, status), None),
            Frame::RedirectDone { redirect, file } => if redirect == Redirect::In || fd == -1 {
                ret(rest, vars, jobs, fd, status, None)
            } else {
                with_mode(rest, vars, jobs, (Mode::Await(Awaiting::Copy { status }), ActionV::Copy { fd, file }), None)
            },
            Frame::ComplexSetDone { variable } => if fd == -1 {
                ret(rest, vars, jobs, -1i32, false, Some(Diag::NullOutput))
            } else {
                with_mode(rest, vars, jobs, (Mode::Await(Awaiting::ReadVar { variable }), ActionV::Read { fd }), None)
            },
        }
    }
}

/// The outcome of outside work reaching the machine.
pub open spec fn await_next(m: Seq<Frame>, vars: Vars, jobs: JobsV, a: Awaiting, ev: Event) -> Next {
    let stay = Next { machine: MachineV { frames: m, mode: Mode::Await(a) }, vars, jobs, action: ActionV::Continue, diag: None };
    match (a, ev) {
        (Awaiting::Spawn, Event::Done { fd, status }) => ret(m, vars, jobs, fd, status, None),
        (Awaiting::ChangeDir, Event::Ack) => ret(m, vars, jobs, -1i32, true, None),
        (Awaiting::ChangeDir, Event::Failed) => ret(m, vars, jobs, -1i32, false, None),
        (Awaiting::Open { command, redirect, stdin, out }, Event::Opened(file)) => push_eval(
            m,
            vars,
            jobs,
            Frame::RedirectDone { redirect, file },
            *command,
            if redirect == Redirect::In { file } else { stdin },
            if redirect == Redirect::In { out } else { false },
        ),
        (Awaiting::Open { .. }, Event::Failed) => ret(m, vars, jobs, -1i32, false, None),
        (Awaiting::Copy { status }, Event::Ack) => ret(m, vars, jobs, -1i32, status, None),
        (Awaiting::Copy { .. }, Event::Failed) => ret(m, vars, jobs, -1i32, false, None),
        (Awaiting::ReadFirst { fd2, status }, Event::Text(t)) => with_mode(m, vars, jobs, merge_second(Some(t), fd2, status), None),
        (Awaiting::ReadSecond { text1, status }, Event::Text(t)) => with_mode(m, vars, jobs, (
            Mode::Await(Awaiting::Echo { status }),
            echo_action(opt_text(text1) + trim(t@)),
        ), None),
        (Awaiting::Echo { status }, Event::Done { fd, .. }) => ret(m, vars, jobs, fd, status, None),
        (Awaiting::Print { status }, Event::Ack) => ret(m, vars, jobs, -1i32, status, None),
        (Awaiting::ReadVar { variable }, Event::Text(t)) => if trim(t@).len() == 0 {
            ret(m, vars, jobs, -1i32, false, Some(Diag::NullOutput))
        } else {
            ret(m, insert_var(vars, variable@, trim(t@)), jobs, -1i32, true, None)
        },
        (Awaiting::Background { text }, Event::Started(pid)) => ret(m, vars, jobs.push((pid, text@)), -1i32, true, None),
        (Awaiting::Background { .. }, Event::Failed) => ret(m, vars, jobs, -1i32, false, None),
        (Awaiting::Wait { index }, Event::Done { status, .. }) => if index < jobs.len() {
            ret(m, vars, jobs.remove(index as int), -1i32, status, None)
        } else {
            ret(m, vars, jobs, -1i32, status, None)
        },
        (Awaiting::Exit, _) => Next { machine: MachineV { frames: m, mode: Mode::Await(a) }, vars, jobs, action: ActionV::Exit, diag: None },
        _ => stay,
    }
}

/// One step of the machine.
pub open spec fn next(m: MachineV, vars: Vars, jobs: JobsV, hist: Seq<Seq<char>>, ev: Event, listing: Seq<char>) -> Next {
    match m.mode {
        Mode::Eval { command, stdin, out } => eval_next(m.frames, vars, jobs, hist, command, stdin, out, listing),
        Mode::Return { fd, status } => return_next(m.frames, vars, jobs, fd, status),
        Mode::Await(a) => await_next(m.frames, vars, jobs, a, ev),
        Mode::Finished { fd, status } => Next { machine: m, vars, jobs, action: ActionV::Finish { fd, status }, diag: None },
    }
}

/// The listing of the variables with colors off.
pub open spec fn plain_listing(e: Vars) -> Seq<char>
    decreases e.len(),
{
    if e.len() == 0 {
        seq![]
    } else {
        plain_listing(e.drop_last()) + e.last().0 + seq![' ', '=', ' '] + e.last().1 + seq!['\n']
    }
}

proof fn lemma_listing_exists(e: Vars)
    ensures
        listing_ok(plain_listing(e), e),
    decreases e.len(),
{
    if e.len() > 0 {
        lemma_listing_exists(e.drop_last());
        let out = plain_listing(e);
        let k = plain_listing(e.drop_last()).len() as int;
        let line = e.last().0 + seq![' ', '=', ' '] + e.last().1 + seq!['\n'];
        assert(out.take(k) =~= plain_listing(e.drop_last()));
        assert(out.skip(k) =~= line);
        assert(painted(e.last().0, e.last().0, green_code()));
        assert(var_line_ok(out.skip(k), e.last()));
    }
}

fn echo(buf: &Vec<char>) -> (a: Action)
    ensures
        a@ == echo_action(buf@),
{
    let t = trim_chars(buf);
    let s = string_of(&t);
    let mut args: Vec<String> = Vec::new();
    args.push(s);
    assert(strs(args@) =~= seq![trim(buf@)]);
    Action::Spawn { program: "echo".to_owned(), args, stdin: -1, out: false }
}

fn emit_exec(text: Vec<char>, status: bool, out: bool) -> (r: (Mode, Action))
    ensures
        (r.0, r.1@) == emit(text@, status, out),
{
    if out || text.len() == 0 {
        (Mode::Await(Awaiting::Print { status }), Action::Print { text: string_of(&text) })
    } else {
        (Mode::Await(Awaiting::Echo { status }), echo(&text))
    }
}

fn emit_listing_exec(text: Vec<char>, out: bool) -> (r: (Mode, Action))
    ensures
        (r.0, r.1@) == emit_listing(text@, out),
{
    if out {
        (Mode::Await(Awaiting::Print { status: true }), Action::Print { text: string_of(&text) })
    } else {
        (Mode::Await(Awaiting::Echo { status: true }), echo(&text))
    }
}

fn merge_second_exec(text1: Option<String>, fd2: i32, status: bool) -> (r: (Mode, Action))
    ensures
        (r.0, r.1@) == merge_second(text1, fd2, status),
{
    if fd2 != -1 {
        (Mode::Await(Awaiting::ReadSecond { text1, status }), Action::Read { fd: fd2 })
    } else {
        let buf = match &text1 {
            Some(t) => chars_of(t.as_str()),
            None => Vec::new(),
        };
        (Mode::Await(Awaiting::Echo { status }), echo(&buf))
    }
}

fn merge_exec(fd1: i32, fd2: i32, status: bool) -> (r: (Mode, Action))
    ensures
        (r.0, r.1@) == merge(fd1, fd2, status),
{
    if fd1 != -1 {
        (Mode::Await(Awaiting::ReadFirst { fd2, status }), Action::Read { fd: fd1 })
    } else {
        merge_second_exec(None, fd2, status)
    }
}

/// The listing of the history.
pub fn history_listing_exec(history: &FileHistory) -> (r: Vec<char>)
    ensures
        r@ == history_listing(last_hundred(history_entries(*history))),
{
    let ghost all = history_entries(*history);
    let n = history_len(history);
    let start: usize = if n > 100 {
        n - 100
    } else {
        0
    };
    let ghost hist = last_hundred(all);
    assert(hist =~= all.subrange(start as int, n as int));
    let m = n - start;
    let mut out: Vec<char> = Vec::new();
    let mut i: usize = 0;
    assert(hist.take(0) =~= Seq::<Seq<char>>::empty());
    while i < m
        invariant
            i <= m,
            m == hist.len(),
            start + m == n,
            n == all.len(),
            all == history_entries(*history),
            hist == all.subrange(start as int, n as int),
            out@ == history_listing(hist.take(i as int)),
        decreases m - i,
    {
        let num = decimal_chars(i + 1);
        extend_chars(&mut out, &num);
        out.push(':');
        out.push(' ');
        let entry = history_get(history, start + i);
        let e = chars_of(entry.as_str());
        extend_chars(&mut out, &e);
        out.push('\n');
        let ghost t = hist.take(i + 1);
        assert(t.drop_last() =~= hist.take(i as int));
        assert(t.last() == hist[i as int]);
        assert(out@ =~= history_listing(t.drop_last()) + decimal(t.len()) + seq![':', ' ']
            + t.last() + seq!['\n']);
        i += 1;
    }
    assert(hist.take(m as int) =~= hist);
    out
}

/// The listing of the background jobs.
pub fn jobs_listing_exec(jobs: &Vec<(u32, String)>) -> (r: Vec<char>)
    ensures
        r@ == jobs_listing(jobs_view(jobs@)),
{
    let ghost j = jobs_view(jobs@);
    let mut out: Vec<char> = Vec::new();
    let mut i: usize = 0;
    assert(j.take(0) =~= Seq::<(u32, Seq<char>)>::empty());
    while i < jobs.len()
        invariant
            i <= jobs@.len(),
            j == jobs_view(jobs@),
            out@ == jobs_listing(j.take(i as int)),
        decreases jobs@.len() - i,
    {
        out.push('[');
        let num = decimal_chars(i + 1);
        extend_chars(&mut out, &num);
        out.push(']');
        out.push('\t');
        let text = chars_of(jobs[i].1.as_str());
        extend_chars(&mut out, &text);
        out.push('\t');
        let pid = decimal_chars(jobs[i].0 as usize);
        extend_chars(&mut out, &pid);
        out.push('\n');
        let ghost t = j.take(i + 1);
        assert(t.drop_last() =~= j.take(i as int));
        assert(t.last() == j[i as int]);
        assert(out@ =~= jobs_listing(t.drop_last()) + seq!['['] + decimal(t.len()) + seq![']', '\t']
            + t.last().1 + seq!['\t'] + decimal(t.last().0 as nat) + seq!['\n']);
        i += 1;
    }
    assert(j.take(jobs@.len() as int) =~= j);
    out
}

/// Runs a variable built-in on the variables: its output text, status and
/// problem.
fn get_set_exec(args: &Vec<String>, gs: GetSet, vars: &mut Variables) -> (r: (Vec<char>, bool, Option<Diag>))
    ensures
        exists|l: Seq<char>|
            listing_ok(l, old(vars).entries()) && get_set_outcome(strs(args@), gs, old(vars).entries(), l) == (
            r.0@,
            r.1,
            r.2,
            final(vars).entries(),
        ),
{
    let ghost e = vars.entries();
    proof {
        lemma_listing_exists(e);
    }
    let ghost pl = plain_listing(e);
    match gs {
        GetSet::SetVar => {
            if args.len() == 3 && valid_name(&args[1]) {
                vars.set(args[1].clone(), args[2].clone());
                assert(get_set_outcome(strs(args@), gs, e, pl) == (Seq::<char>::empty(), true, None::<Diag>, vars.entries()));
                (Vec::new(), true, None)
            } else {
                (Vec::new(), false, Some(Diag::IncorrectSet))
            }
        },
        GetSet::Get => {
            if args.len() == 1 {
                let t = vars.listing();
                let v = chars_of(t.as_str());
                assert(get_set_outcome(strs(args@), gs, e, t@) == (v@, true, None::<Diag>, vars.entries()));
                (v, true, None)
            } else if args.len() == 2 {
                match vars.get(args[1].as_str()) {
                    Some(val) => {
                        let mut v = chars_of(val.as_str());
                        v.push('\n');
                        (v, true, None)
                    },
                    None => (Vec::new(), false, Some(Diag::VariableNotFound)),
                }
            } else {
                (Vec::new(), false, Some(Diag::IncorrectGet))
            }
        },
        GetSet::UnSet => {
            if args.len() == 2 {
                if vars.unset(args[1].as_str()) {
                    (Vec::new(), true, None)
                } else {
                    (Vec::new(), false, Some(Diag::VariableNotFound))
                }
            } else {
                (Vec::new(), false, Some(Diag::IncorrectUnset))
            }
        },
    }
}

impl Machine {
    /// A machine about to run `command` with input `stdin` (-1: the shell's)
    /// and its output to the terminal when `out`.
    pub fn new(command: Command, stdin: i32, out: bool) -> (m: Machine)
        ensures
            m@ == (MachineV { frames: Seq::<Frame>::empty(), mode: Mode::Eval { command, stdin, out } }),
    {
        Machine { frames: Vec::new(), mode: Mode::Eval { command, stdin, out } }
    }

    fn eval(
        &mut self,
        state: &mut ShellState,
        history: &FileHistory,
        command: Command,
        stdin: i32,
        out: bool,
    ) -> (r: (Action, Option<Diag>))
        ensures
            exists|l: Seq<char>|
                listing_ok(l, old(state).variables.entries()) && eval_next(
                    old(self)@.frames,
                    old(state).variables.entries(),
                    jobs_view(old(state).jobs@),
                    history_entries(*history),
                    command,
                    stdin,
                    out,
                    l,
                ) == (Next {
                    machine: final(self)@,
                    vars: final(state).variables.entries(),
                    jobs: jobs_view(final(state).jobs@),
                    action: r.0@,
                    diag: r.1,
                }),
    {
        let ghost e = state.variables.entries();
        let ghost c0 = command;
        proof {
            lemma_listing_exists(e);
        }
        let ghost mut wit = plain_listing(e);
        let r = match command {
            Command::System(s) => {
                self.mode = Mode::Await(Awaiting::Spawn);
                (Action::Spawn { program: s.program, args: s.args, stdin, out }, None)
            },
            Command::Cd(c) => {
                if c.args.len() > 2 {
                    self.mode = Mode::Return { fd: -1, status: false };
                    (Action::Continue, Some(Diag::IncorrectCd))
                } else {
                    let dir = if c.args.len() <= 1 {
                        None
                    } else {
                        Some(c.args[1].clone())
                    };
                    self.mode = Mode::Await(Awaiting::ChangeDir);
                    (Action::ChangeDir { dir }, None)
                }
            },
            Command::Pipe(p) => {
                self.frames.push(Frame::PipeSecond { command2: p.command2, out });
                self.mode = Mode::Eval { command: *p.command1, stdin, out: false };
                (Action::Continue, None)
            },
            Command::Redirect(rc) => {
                let path = rc.path;
                let redirect = rc.redirect;
                self.mode = Mode::Await(Awaiting::Open { command: rc.command, redirect, stdin, out });
                (Action::Open { path, redirect }, None)
            },
            Command::Chain(c) => {
                self.frames.push(Frame::ChainSecond { command2: c.command2, chain: c.chain, out });
                self.mode = Mode::Eval { command: *c.command1, stdin: -1, out };
                (Action::Continue, None)
            },
            Command::Special(sp) => {
                match sp.special {
                    Special::True => {
                        self.mode = Mode::Return { fd: -1, status: true };
                        (Action::Continue, None)
                    },
                    Special::False => {
                        self.mode = Mode::Return { fd: -1, status: false };
                        (Action::Continue, None)
                    },
                    Special::Exit => {
                        self.mode = Mode::Await(Awaiting::Exit);
                        (Action::Exit, None)
                    },
                }
            },
            Command::GetSet(g) => {
                let (text, status, diag) = get_set_exec(&g.args, g.get_set, &mut state.variables);
                proof {
                    wit = choose|l: Seq<char>|
                        listing_ok(l, e) && get_set_outcome(strs(g.args@), g.get_set, e, l) == (
                            text@,
                            status,
                            diag,
                            state.variables.entries(),
                        );
                }
                let (m, a) = emit_exec(text, status, out);
                self.mode = m;
                (a, diag)
            },
            Command::ComplexSet(cs) => {
                if valid_name(&cs.variable) {
                    self.frames.push(Frame::ComplexSetDone { variable: cs.variable });
                    self.mode = Mode::Eval { command: *cs.command, stdin: -1, out: false };
                    (Action::Continue, None)
                } else {
                    self.mode = Mode::Return { fd: -1, status: false };
                    (Action::Continue, Some(Diag::IncorrectSet))
                }
            },
            Command::History(_) => {
                let text = history_listing_exec(history);
                let (m, a) = emit_listing_exec(text, out);
                self.mode = m;
                (a, None)
            },
            Command::Conditional(c) => {
                self.frames.push(Frame::CondBranch { c_then: c.c_then, c_else: c.c_else, out });
                self.mode = Mode::Eval { command: *c.c_if, stdin: -1, out };
                (Action::Continue, None)
            },
            Command::Background(b) => {
                self.mode = Mode::Await(Awaiting::Background { text: b.text });
                (Action::Background { command: *b.command }, None)
            },
            Command::Jobs(_) => {
                let text = jobs_listing_exec(&state.jobs);
                let (m, a) = emit_listing_exec(text, out);
                self.mode = m;
                (a, None)
            },
            Command::Foreground(f) => {
                if f.args.len() > 2 {
                    self.mode = Mode::Return { fd: -1, status: false };
                    (Action::Continue, Some(Diag::IncorrectFg))
                } else {
                    let mut index: Option<usize> = None;
                    if f.args.len() == 1 {
                        if state.jobs.len() > 0 {
                            index = Some(state.jobs.len() - 1);
                        }
                    } else if f.args.len() == 2 {
                        let a1 = chars_of(f.args[1].as_str());
                        match parse_usize(&a1, 0, a1.len()) {
                            Some(n) => {
                                if 1 <= n && n <= state.jobs.len() {
                                    index = Some(n - 1);
                                }
                            },
                            None => {},
                        }
                        assert(a1@.subrange(0, a1@.len() as int) =~= a1@);
                    }
                    match index {
                        Some(i) => {
                            let pid = state.jobs[i].0;
                            self.mode = Mode::Await(Awaiting::Wait { index: i });
                            (Action::Wait { pid }, None)
                        },
                        None => {
                            self.mode = Mode::Return { fd: -1, status: false };
                            (Action::Continue, Some(Diag::NoJob))
                        },
                    }
                }
            },
            Command::Help(h) => {
                match help(&h.args) {
                    Some(t) => {
                        let (m, a) = emit_exec(chars_of(t), true, out);
                        self.mode = m;
                        (a, None)
                    },
                    None => {
                        self.mode = Mode::Return { fd: -1, status: false };
                        (Action::Continue, Some(Diag::IncorrectHelp))
                    },
                }
            },
        };
        assert(listing_ok(wit, e) && eval_next(
            old(self)@.frames,
            e,
            jobs_view(old(state).jobs@),
            history_entries(*history),
            c0,
            stdin,
            out,
            wit,
        ) == (Next {
            machine: self@,
            vars: state.variables.entries(),
            jobs: jobs_view(state.jobs@),
            action: r.0@,
            diag: r.1,
        }));
        r
    }

    fn ret(&mut self, state: &mut ShellState, fd: i32, status: bool) -> (r: (Action, Option<Diag>))
        ensures
            return_next(old(self)@.frames, old(state).variables.entries(), jobs_view(old(state).jobs@), fd, status)
                == (Next {
                machine: final(self)@,
                vars: final(state).variables.entries(),
                jobs: jobs_view(final(state).jobs@),
                action: r.0@,
                diag: r.1,
            }),
            final(state).variables.entries() == old(state).variables.entries(),
    {
        let ghost f0 = self.frames@;
        match self.frames.pop() {
            None => {
                self.mode = Mode::Finished { fd, status };
                (Action::Finish { fd, status }, None)
            },
            Some(frame) => {
                assert(self.frames@ == f0.drop_last());
                match frame {
                    Frame::PipeSecond { command2, out } => {
                        self.frames.push(Frame::PipeDone { status1: status });
                        self.mode = Mode::Eval { command: *command2, stdin: fd, out };
                        (Action::Continue, None)
                    },
                    Frame::PipeDone { status1 } => {
                        self.mode = Mode::Return { fd, status: status1 && status };
                        (Action::Continue, None)
                    },
                    Frame::ChainSecond { command2, chain, out } => {
                        let run = match chain {
                            Chain::And => status,
                            Chain::Or => !status,
                            Chain::Multiple => true,
                        };
                        if run {
                            self.frames.push(Frame::ChainDone { fd1: fd, status1: status });
                            self.mode = Mode::Eval { command: *command2, stdin: -1, out };
                            (Action::Continue, None)
                        } else {
                            let (m, a) = merge_exec(fd, -1, status);
                            self.mode = m;
                            (a, None)
                        }
                    },
                    Frame::ChainDone { fd1, status1 } => {
                        let (m, a) = merge_exec(fd1, fd, status1 && status);
                        self.mode = m;
                        (a, None)
                    },
                    Frame::CondBranch { c_then, c_else, out } => {
                        self.frames.push(Frame::CondDone { fd1: fd });
                        let c = if status {
                            c_then
                        } else {
                            c_else
                        };
                        self.mode = Mode::Eval { command: *c, stdin: -1, out };
                        (Action::Continue, None)
                    },
                    Frame::CondDone { fd1 } => {
                        let (m, a) = merge_exec(fd1, fd, status);
                        self.mode = m;
                        (a, None)
                    },
                    Frame::RedirectDone { redirect, file } => {
                        if redirect == Redirect::In || fd == -1 {
                            self.mode = Mode::Return { fd, status };
                            (Action::Continue, None)
                        } else {
                            self.mode = Mode::Await(Awaiting::Copy { status });
                            (Action::Copy { fd, file }, None)
                        }
                    },
                    Frame::ComplexSetDone { variable } => {
                        if fd == -1 {
                            self.mode = Mode::Return { fd: -1, status: false };
                            (Action::Continue, Some(Diag::NullOutput))
                        } else {
                            self.mode = Mode::Await(Awaiting::ReadVar { variable });
                            (Action::Read { fd }, None)
                        }
                    },
                }
            },
        }
    }

    fn await_event(&mut self, state: &mut ShellState, a: Awaiting, event: Event) -> (r: (
        Action,
        Option<Diag>,
    ))
        ensures
            await_next(old(self)@.frames, old(state).variables.entries(), jobs_view(old(state).jobs@), a, event)
                == (Next {
                machine: final(self)@,
                vars: final(state).variables.entries(),
                jobs: jobs_view(final(state).jobs@),
                action: r.0@,
                diag: r.1,
            }),
    {
        match a {
            Awaiting::Spawn => match event {
                Event::Done { fd, status } => {
                    self.mode = Mode::Return { fd, status };
                    (Action::Continue, None)
                },
                _ => {
                    self.mode = Mode::Await(Awaiting::Spawn);
                    (Action::Continue, None)
                },
            },
            Awaiting::ChangeDir => match event {
                Event::Ack => {
                    self.mode = Mode::Return { fd: -1, status: true };
                    (Action::Continue, None)
                },
                Event::Failed => {
                    self.mode = Mode::Return { fd: -1, status: false };
                    (Action::Continue, None)
                },
                _ => {
                    self.mode = Mode::Await(Awaiting::ChangeDir);
                    (Action::Continue, None)
                },
            },
            Awaiting::Open { command, redirect, stdin, out } => match event {
                Event::Opened(file) => {
                    self.frames.push(Frame::RedirectDone { redirect, file });
                    let input = if redirect == Redirect::In {
                        file
                    } else {
                        stdin
                    };
                    let o = if redirect == Redirect::In {
                        out
                    } else {
                        false
                    };
                    self.mode = Mode::Eval { command: *command, stdin: input, out: o };
                    (Action::Continue, None)
                },
                Event::Failed => {
                    self.mode = Mode::Return { fd: -1, status: false };
                    (Action::Continue, None)
                },
                _ => {
                    self.mode = Mode::Await(Awaiting::Open { command, redirect, stdin, out });
                    (Action::Continue, None)
                },
            },
            Awaiting::Copy { status } => match event {
                Event::Ack => {
                    self.mode = Mode::Return { fd: -1, status };
                    (Action::Continue, None)
                },
                Event::Failed => {
                    self.mode = Mode::Return { fd: -1, status: false };
                    (Action::Continue, None)
                },
                _ => {
                    self.mode = Mode::Await(Awaiting::Copy { status });
                    (Action::Continue, None)
                },
            },
            Awaiting::ReadFirst { fd2, status } => match event {
                Event::Text(t) => {
                    let (m, a) = merge_second_exec(Some(t), fd2, status);
                    self.mode = m;
                    (a, None)
                },
                _ => {
                    self.mode = Mode::Await(Awaiting::ReadFirst { fd2, status });
                    (Action::Continue, None)
                },
            },
            Awaiting::ReadSecond { text1, status } => match event {
                Event::Text(t) => {
                    let mut buf = match &text1 {
                        Some(t1) => chars_of(t1.as_str()),
                        None => Vec::new(),
                    };
                    let t2 = chars_of(t.as_str());
                    let t2 = trim_chars(&t2);
                    extend_chars(&mut buf, &t2);
                    self.mode = Mode::Await(Awaiting::Echo { status });
                    (echo(&buf), None)
                },
                _ => {
                    self.mode = Mode::Await(Awaiting::ReadSecond { text1, status });
                    (Action::Continue, None)
                },
            },
            Awaiting::Echo { status } => match event {
                Event::Done { fd, .. } => {
                    self.mode = Mode::Return { fd, status };
                    (Action::Continue, None)
                },
                _ => {
                    self.mode = Mode::Await(Awaiting::Echo { status });
                    (Action::Continue, None)
                },
            },
            Awaiting::Print { status } => match event {
                Event::Ack => {
                    self.mode = Mode::Return { fd: -1, status };
                    (Action::Continue, None)
                },
                _ => {
                    self.mode = Mode::Await(Awaiting::Print { status });
                    (Action::Continue, None)
                },
            },
            Awaiting::ReadVar { variable } => match event {
                Event::Text(t) => {
                    let tc = chars_of(t.as_str());
                    let v = trim_chars(&tc);
                    if v.len() == 0 {
                        self.mode = Mode::Return { fd: -1, status: false };
                        (Action::Continue, Some(Diag::NullOutput))
                    } else {
                        state.variables.set(variable, string_of(&v));
                        self.mode = Mode::Return { fd: -1, status: true };
                        (Action::Continue, None)
                    }
                },
                _ => {
                    self.mode = Mode::Await(Awaiting::ReadVar { variable });
                    (Action::Continue, None)
                },
            },
            Awaiting::Background { text } => match event {
                Event::Started(pid) => {
                    let ghost j0 = state.jobs@;
                    let ghost tv = text@;
                    state.jobs.push((pid, text));
                    assert(jobs_view(state.jobs@) =~= jobs_view(j0).push((pid, tv)));
                    self.mode = Mode::Return { fd: -1, status: true };
                    (Action::Continue, None)
                },
                Event::Failed => {
                    self.mode = Mode::Return { fd: -1, status: false };
                    (Action::Continue, None)
                },
                _ => {
                    self.mode = Mode::Await(Awaiting::Background { text });
                    (Action::Continue, None)
                },
            },
            Awaiting::Wait { index } => match event {
                Event::Done { status, .. } => {
                    if index < state.jobs.len() {
                        let ghost j0 = state.jobs@;
                        state.jobs.remove(index);
                        assert(jobs_view(state.jobs@) =~= jobs_view(j0).remove(index as int));
                    }
                    self.mode = Mode::Return { fd: -1, status };
                    (Action::Continue, None)
                },
                _ => {
                    self.mode = Mode::Await(Awaiting::Wait { index });
                    (Action::Continue, None)
                },
            },
            Awaiting::Exit => {
                self.mode = Mode::Await(Awaiting::Exit);
                (Action::Exit, None)
            },
        }
    }

    /// One step: from the outcome `event` of the last piece of outside work,
    /// the next one. The variables and jobs change as `next` says, for a
    /// listing of the variables as `get` prints it.
    pub fn step(&mut self, state: &mut ShellState, history: &FileHistory, event: Event) -> (r: (
        Action,
        Option<Diag>,
    ))
        ensures
            exists|l: Seq<char>|
                listing_ok(l, old(state).variables.entries()) && next(
                    old(self)@,
                    old(state).variables.entries(),
                    jobs_view(old(state).jobs@),
                    history_entries(*history),
                    event,
                    l,
                ) == (Next {
                    machine: final(self)@,
                    vars: final(state).variables.entries(),
                    jobs: jobs_view(final(state).jobs@),
                    action: r.0@,
                    diag: r.1,
                }),
    {
        let ghost e = state.variables.entries();
        proof {
            lemma_listing_exists(e);
        }
        let ghost pl = plain_listing(e);
        let ghost m0 = self@;
        let ghost ev = event;
        let mut mode = Mode::Finished { fd: -1, status: false };
        std::mem::swap(&mut mode, &mut self.mode);
        match mode {
            Mode::Eval { command, stdin, out } => self.eval(state, history, command, stdin, out),
            Mode::Return { fd, status } => {
                let r = self.ret(state, fd, status);
                assert(listing_ok(pl, e));
                r
            },
            Mode::Await(a) => {
                let r = self.await_event(state, a, event);
                assert(listing_ok(pl, e));
                r
            },
            Mode::Finished { fd, status } => {
                self.mode = Mode::Finished { fd, status };
                assert(self@ == m0);
                assert(listing_ok(pl, e));
                (Action::Finish { fd, status }, None)
            },
        }
    }
}

} // verus!
