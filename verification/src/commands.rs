//! The commands a line parses into. A `Command` is a tree: leaves run a
//! program or a built-in, inner nodes combine the results of their children.
use vstd::prelude::*;

verus! {

/// Where a redirection sends or takes data.
#[derive(PartialEq, Eq, Structural, Clone, Copy, Debug)]
pub enum Redirect {
    In,
    Out,
    OutAppend,
}

/// How two commands of a chain are joined.
#[derive(PartialEq, Eq, Structural, Clone, Copy, Debug)]
pub enum Chain {
    Multiple,
    And,
    Or,
}

/// The built-ins that take no argument.
#[derive(PartialEq, Eq, Structural, Clone, Copy, Debug)]
pub enum Special {
    True,
    False,
    Exit,
}

/// The variable built-ins.
#[derive(PartialEq, Eq, Structural, Clone, Copy, Debug)]
pub enum GetSet {
    Get,
    SetVar,
    UnSet,
}

/// The views of a list of strings.
pub open spec fn strs(v: Seq<String>) -> Seq<Seq<char>> {
    v.map_values(|s: String| s@)
}

/// An outside program with its arguments.
pub struct CommandSystem {
    pub program: String,
    pub args: Vec<String>,
}

impl CommandSystem {
    pub fn new(program: String, args: Vec<String>) -> (r: CommandSystem)
        ensures
            r.program == program,
            r.args == args,
    {
        CommandSystem { program, args }
    }
}

/// `cd`, with the whole line as its arguments (`args[0]` is `cd`).
pub struct Cd {
    pub args: Vec<String>,
}

impl Cd {
    pub fn new(args: Vec<String>) -> (r: Cd)
        ensures
            r.args == args,
    {
        Cd { args }
    }
}

/// The output of the first command is the input of the second.
pub struct Pipe {
    pub command1: Box<Command>,
    pub command2: Box<Command>,
}

impl Pipe {
    pub fn new(command1: Box<Command>, command2: Box<Command>) -> (r: Pipe)
        ensures
            r.command1 == command1,
            r.command2 == command2,
    {
        Pipe { command1, command2 }
    }
}

/// A command whose input or output is a file.
pub struct RedirectCommand {
    pub command: Box<Command>,
    pub redirect: Redirect,
    pub path: String,
}

impl RedirectCommand {
    pub fn new(command: Box<Command>, redirect: Redirect, path: String) -> (r: RedirectCommand)
        ensures
            r.command == command,
            r.redirect == redirect,
            r.path == path,
    {
        RedirectCommand { command, redirect, path }
    }
}

/// Two commands run one after the other (`;`), or the second one only when
/// the first succeeds (`&&`) or fails (`||`).
pub struct ChainCommand {
    pub command1: Box<Command>,
    pub command2: Box<Command>,
    pub chain: Chain,
}

impl ChainCommand {
    pub fn new(command1: Box<Command>, command2: Box<Command>, chain: Chain) -> (r: ChainCommand)
        ensures
            r.command1 == command1,
            r.command2 == command2,
            r.chain == chain,
    {
        ChainCommand { command1, command2, chain }
    }
}

/// `true`, `false` or `exit`.
pub struct SpecialCommand {
    pub special: Special,
}

impl SpecialCommand {
    pub fn new(special: Special) -> (r: SpecialCommand)
        ensures
            r.special == special,
    {
        SpecialCommand { special }
    }
}

/// `get`, `set` or `unset`, with the whole line as its arguments.
pub struct GetSetCommand {
    pub args: Vec<String>,
    pub get_set: GetSet,
}

impl GetSetCommand {
    pub fn new(args: Vec<String>, get_set: GetSet) -> (r: GetSetCommand)
        ensures
            r.args == args,
            r.get_set == get_set,
    {
        GetSetCommand { args, get_set }
    }
}

/// `set variable ( command )`: the variable takes the command's output.
pub struct ComplexSet {
    pub variable: String,
    pub command: Box<Command>,
}

impl ComplexSet {
    pub fn new(variable: String, command: Box<Command>) -> (r: ComplexSet)
        ensures
            r.variable == variable,
            r.command == command,
    {
        ComplexSet { variable, command }
    }
}

/// `history`.
pub struct HistoryCommand {}

impl HistoryCommand {
    pub fn new() -> (r: HistoryCommand) {
        HistoryCommand {  }
    }
}

/// `if c_if then c_then else c_else end`.
pub struct Conditional {
    pub c_if: Box<Command>,
    pub c_then: Box<Command>,
    pub c_else: Box<Command>,
}

impl Conditional {
    pub fn new(c_if: Box<Command>, c_then: Box<Command>, c_else: Box<Command>) -> (r: Conditional)
        ensures
            r.c_if == c_if,
            r.c_then == c_then,
            r.c_else == c_else,
    {
        Conditional { c_if, c_then, c_else }
    }
}

/// `command &`: the command runs without the shell waiting for it; `text`
/// is the command as written, which `jobs` shows.
pub struct Background {
    pub command: Box<Command>,
    pub text: String,
}

impl Background {
    pub fn new(command: Box<Command>, text: String) -> (r: Background)
        ensures
            r.command == command,
            r.text == text,
    {
        Background { command, text }
    }
}

/// `jobs`.
pub struct Jobs {}

impl Jobs {
    pub fn new() -> (r: Jobs) {
        Jobs {  }
    }
}

/// `fg [number]`, with the whole line as its arguments.
pub struct Foreground {
    pub args: Vec<String>,
}

impl Foreground {
    pub fn new(args: Vec<String>) -> (r: Foreground)
        ensures
            r.args == args,
    {
        Foreground { args }
    }
}

/// `help`, with the whole line as its arguments (`args[0]` is `help`).
pub struct HelpCommand {
    pub args: Vec<String>,
}

impl HelpCommand {
    pub fn new(args: Vec<String>) -> (r: HelpCommand)
        ensures
            r.args == args,
    {
        HelpCommand { args }
    }
}

/// A parsed command line.
pub enum Command {
    System(CommandSystem),
    Cd(Cd),
    Pipe(Pipe),
    Redirect(RedirectCommand),
    Chain(ChainCommand),
    Special(SpecialCommand),
    GetSet(GetSetCommand),
    ComplexSet(ComplexSet),
    History(HistoryCommand),
    Conditional(Conditional),
    Background(Background),
    Jobs(Jobs),
    Foreground(Foreground),
    Help(HelpCommand),
}

/// The mathematical form of a `Command`: strings as character sequences.
pub enum CmdV {
    System { program: Seq<char>, args: Seq<Seq<char>> },
    Cd { args: Seq<Seq<char>> },
    Pipe { command1: Box<CmdV>, command2: Box<CmdV> },
    Redirect { command: Box<CmdV>, redirect: Redirect, path: Seq<char> },
    Chain { command1: Box<CmdV>, command2: Box<CmdV>, chain: Chain },
    Special { special: Special },
    GetSet { args: Seq<Seq<char>>, get_set: GetSet },
    ComplexSet { variable: Seq<char>, command: Box<CmdV> },
    History,
    Conditional { c_if: Box<CmdV>, c_then: Box<CmdV>, c_else: Box<CmdV> },
    Background { command: Box<CmdV>, text: Seq<char> },
    Jobs,
    Foreground { args: Seq<Seq<char>> },
    Help { args: Seq<Seq<char>> },
}

pub open spec fn cmd_view(c: Command) -> CmdV
    decreases c,
{
    match c {
        Command::System(s) => CmdV::System { program: s.program@, args: strs(s.args@) },
        Command::Cd(s) => CmdV::Cd { args: strs(s.args@) },
        Command::Pipe(p) => CmdV::Pipe {
            command1: Box::new(cmd_view(*p.command1)),
            command2: Box::new(cmd_view(*p.command2)),
        },
        Command::Redirect(r) => CmdV::Redirect {
            command: Box::new(cmd_view(*r.command)),
            redirect: r.redirect,
            path: r.path@,
        },
        Command::Chain(ch) => CmdV::Chain {
            command1: Box::new(cmd_view(*ch.command1)),
            command2: Box::new(cmd_view(*ch.command2)),
            chain: ch.chain,
        },
        Command::Special(s) => CmdV::Special { special: s.special },
        Command::GetSet(g) => CmdV::GetSet { args: strs(g.args@), get_set: g.get_set },
        Command::ComplexSet(cs) => CmdV::ComplexSet {
            variable: cs.variable@,
            command: Box::new(cmd_view(*cs.command)),
        },
        Command::History(_) => CmdV::History,
        Command::Conditional(c) => CmdV::Conditional {
            c_if: Box::new(cmd_view(*c.c_if)),
            c_then: Box::new(cmd_view(*c.c_then)),
            c_else: Box::new(cmd_view(*c.c_else)),
        },
        Command::Background(b) => CmdV::Background { command: Box::new(cmd_view(*b.command)), text: b.text@ },
        Command::Jobs(_) => CmdV::Jobs,
        Command::Foreground(f) => CmdV::Foreground { args: strs(f.args@) },
        Command::Help(h) => CmdV::Help { args: strs(h.args@) },
    }
}

impl View for Command {
    type V = CmdV;

    open spec fn view(&self) -> CmdV {
        cmd_view(*self)
    }
}

} // verus!
