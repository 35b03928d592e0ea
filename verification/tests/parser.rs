use rsh::commands::{Chain, Command, GetSet, Redirect, Special};
use rsh::parser::{parser, try_parser, ParseError};

fn words(w: &[&str]) -> Vec<String> {
    w.iter().map(|s| s.to_string()).collect()
}

fn show(c: &Command) -> String {
    match c {
        Command::System(s) => format!("sys({} {:?})", s.program, s.args),
        Command::Cd(c) => format!("cd{:?}", c.args),
        Command::Pipe(p) => format!("pipe({}, {})", show(&p.command1), show(&p.command2)),
        Command::Redirect(r) => {
            let k = match r.redirect {
                Redirect::In => "<",
                Redirect::Out => ">",
                Redirect::OutAppend => ">>",
            };
            format!("redir({} {} {})", show(&r.command), k, r.path)
        }
        Command::Chain(c) => {
            let k = match c.chain {
                Chain::And => "&&",
                Chain::Or => "||",
                Chain::Multiple => ";",
            };
            format!("chain({} {} {})", show(&c.command1), k, show(&c.command2))
        }
        Command::Special(s) => match s.special {
            Special::True => "true".to_string(),
            Special::False => "false".to_string(),
            Special::Exit => "exit".to_string(),
        },
        Command::GetSet(g) => {
            let k = match g.get_set {
                GetSet::Get => "get",
                GetSet::SetVar => "set",
                GetSet::UnSet => "unset",
            };
            format!("{}{:?}", k, g.args)
        }
        Command::ComplexSet(c) => format!("cset({} {})", c.variable, show(&c.command)),
        Command::History(_) => "history".to_string(),
        Command::Conditional(c) => format!(
            "if({}, {}, {})",
            show(&c.c_if),
            show(&c.c_then),
            show(&c.c_else)
        ),
        Command::Background(b) => format!("bg({})", show(&b.command)),
        Command::Jobs(_) => "jobs".to_string(),
        Command::Foreground(f) => format!("fg{:?}", f.args),
        Command::Help(h) => format!("help{:?}", h.args),
    }
}

fn parse(w: &[&str]) -> (String, Vec<ParseError>) {
    let mut errors = Vec::new();
    let c = parser(&words(w), &mut errors);
    (show(&c), errors)
}

#[test]
fn program_with_arguments() {
    assert_eq!(parse(&["ls", "-l"]).0, "sys(ls [\"-l\"])");
}

#[test]
fn sequence_splits_first() {
    assert_eq!(
        parse(&["a", "&&", "b", ";", "c"]).0,
        "chain(chain(sys(a []) && sys(b [])) ; sys(c []))"
    );
}

#[test]
fn pipe_binds_looser_than_input_redirection() {
    assert_eq!(
        parse(&["cat", "<", "f", "|", "wc"]).0,
        "pipe(redir(sys(cat []) < f), sys(wc []))"
    );
}

#[test]
fn output_redirection_binds_looser_than_pipe() {
    assert_eq!(
        parse(&["a", "|", "b", ">", "out"]).0,
        "redir(pipe(sys(a []), sys(b [])) > out)"
    );
    assert_eq!(parse(&["a", ">>", "log"]).0, "redir(sys(a []) >> log)");
}

#[test]
fn leftmost_operator_of_a_priority_splits() {
    assert_eq!(
        parse(&["a", "||", "b", "&&", "c"]).0,
        "chain(sys(a []) || chain(sys(b []) && sys(c [])))"
    );
}

#[test]
fn misplaced_operators_are_false() {
    assert_eq!(parse(&["|", "a"]), ("false".to_string(), vec![ParseError::Pipe]));
    assert_eq!(parse(&["a", "&&"]), ("false".to_string(), vec![ParseError::Chain]));
    assert_eq!(parse(&["a", ">"]), ("false".to_string(), vec![ParseError::Redirect]));
    assert_eq!(parse(&["&", "a"]), ("false".to_string(), vec![]));
}

#[test]
fn trailing_semicolon_is_allowed() {
    assert_eq!(parse(&["a", ";"]).0, "chain(sys(a []) ; true)");
}

#[test]
fn conditional_without_else() {
    assert_eq!(
        parse(&["if", "true", "then", "ls", "end"]).0,
        "if(true, sys(ls []), false)"
    );
}

#[test]
fn conditional_with_else_then_more() {
    assert_eq!(
        parse(&["if", "a", "then", "b", "else", "c", "end", ";", "d"]).0,
        "chain(if(sys(a []), sys(b []), sys(c [])) ; sys(d []))"
    );
}

#[test]
fn nested_conditional() {
    assert_eq!(
        parse(&["if", "a", "then", "if", "b", "then", "c", "end", "else", "d", "end"]).0,
        "if(sys(a []), if(sys(b []), sys(c []), false), sys(d []))"
    );
}

#[test]
fn malformed_conditional() {
    assert_eq!(
        parse(&["if", "then", "b", "end"]),
        ("false".to_string(), vec![ParseError::Conditional])
    );
}

#[test]
fn conditional_without_end_does_not_parse() {
    let mut errors = Vec::new();
    assert!(try_parser(&words(&["if", "a", "then", "b"]), &mut errors).is_none());
}

#[test]
fn variables() {
    assert_eq!(parse(&["set", "x", "1"]).0, "set[\"set\", \"x\", \"1\"]");
    assert_eq!(parse(&["get", "x"]).0, "get[\"get\", \"x\"]");
    assert_eq!(parse(&["unset", "x"]).0, "unset[\"unset\", \"x\"]");
    assert_eq!(parse(&["set", "x", "(", "ls", ")"]).0, "cset(x sys(ls []))");
    assert_eq!(
        parse(&["set", "x", "y", "z"]),
        ("false".to_string(), vec![ParseError::Assign])
    );
}

#[test]
fn empty_command_does_not_parse() {
    let mut errors = Vec::new();
    assert!(try_parser(&words(&[]), &mut errors).is_none());
    assert!(try_parser(&words(&["set", "x", "(", ")"]), &mut errors).is_none());
}

#[test]
fn built_ins() {
    assert_eq!(parse(&["cd", "/tmp"]).0, "cd[\"cd\", \"/tmp\"]");
    assert_eq!(parse(&["history"]).0, "history");
    assert_eq!(parse(&["jobs"]).0, "jobs");
    assert_eq!(parse(&["fg", "1"]).0, "fg[\"fg\", \"1\"]");
    assert_eq!(parse(&["exit"]).0, "exit");
    assert_eq!(parse(&["true"]).0, "true");
    assert_eq!(parse(&["help", "again"]).0, "help[\"help\", \"again\"]");
    assert_eq!(parse(&["help", "|", "wc"]).0, "pipe(help[\"help\"], sys(wc []))");
}

#[test]
fn background_then_more() {
    assert_eq!(parse(&["sleep", "1", "&"]).0, "bg(sys(sleep [\"1\"]))");
    assert_eq!(
        parse(&["a", "&", "b"]).0,
        "chain(bg(sys(a [])) ; sys(b []))"
    );
}

#[test]
fn parenthesised_operators_do_not_split() {
    assert_eq!(parse(&["echo", "(", ";", ")"]).0, "sys(echo [\"(\", \";\", \")\"])");
}

#[test]
fn error_messages() {
    assert_eq!(ParseError::Chain.message(), "incorrect chain");
    assert_eq!(ParseError::Conditional.message(), "incorrect conditional");
}

#[test]
fn chain_operator_after_a_semicolon() {
    assert_eq!(
        parse(&["c1", "&&", "c2", ";", "||", "c3"]),
        ("chain(chain(sys(c1 []) && sys(c2 [])) || sys(c3 []))".to_string(), vec![])
    );
    assert_eq!(
        parse(&["a", ";", "||", "b", ";", "c"]),
        ("chain(chain(sys(a []) || sys(b [])) ; sys(c []))".to_string(), vec![])
    );
    assert_eq!(
        parse(&["a", ";", "&&", "b", ";", "||", "c"]),
        ("chain(chain(sys(a []) && sys(b [])) || sys(c []))".to_string(), vec![])
    );
}
