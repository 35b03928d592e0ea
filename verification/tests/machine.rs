use rsh::commands::Redirect;
use rsh::machine::{Action, Diag, Event, Machine, ShellState};
use rsh::parser::parser;
use rustyline::history::{FileHistory, History};
use std::collections::HashMap;

/// A stand-in for the outside world: programs succeed unless named `fail`,
/// `echo` makes a pipe holding its argument and a newline, `gen` makes a
/// pipe holding `  generated  `.
struct World {
    pipes: HashMap<i32, String>,
    next_fd: i32,
    printed: String,
    spawned: Vec<String>,
    diags: Vec<Diag>,
    dirs: Vec<Option<String>>,
    opened: Vec<(String, Redirect)>,
    copied: Vec<(i32, i32)>,
    stdins: Vec<i32>,
}

impl World {
    fn new() -> World {
        World {
            pipes: HashMap::new(),
            next_fd: 10,
            printed: String::new(),
            spawned: Vec::new(),
            diags: Vec::new(),
            dirs: Vec::new(),
            opened: Vec::new(),
            copied: Vec::new(),
            stdins: Vec::new(),
        }
    }

    fn pipe(&mut self, text: String) -> i32 {
        let fd = self.next_fd;
        self.next_fd += 1;
        self.pipes.insert(fd, text);
        fd
    }

    fn run(&mut self, state: &mut ShellState, history: &FileHistory, line: &[&str]) -> (i32, bool) {
        let args: Vec<String> = line.iter().map(|s| s.to_string()).collect();
        let mut errors = Vec::new();
        let command = parser(&args, &mut errors);
        let mut m = Machine::new(command, -1, true);
        let mut event = Event::Ack;
        loop {
            let (action, diag) = m.step(state, history, event);
            if let Some(d) = diag {
                self.diags.push(d);
            }
            event = match action {
                Action::Continue => Event::Ack,
                Action::Spawn { program, args, stdin, out } => {
                    self.spawned.push(program.clone());
                    self.stdins.push(stdin);
                    let ok = program != "fail";
                    let fd = if out {
                        -1
                    } else if program == "echo" {
                        let t = format!("{}\n", args.join(" "));
                        self.pipe(t)
                    } else if program == "gen" {
                        self.pipe("  generated  ".to_string())
                    } else {
                        self.pipe(String::new())
                    };
                    Event::Done { fd, status: ok }
                }
                Action::ChangeDir { dir } => {
                    self.dirs.push(dir);
                    Event::Ack
                }
                Action::Open { path, redirect } => {
                    self.opened.push((path, redirect));
                    Event::Opened(3)
                }
                Action::Copy { fd, file } => {
                    self.copied.push((fd, file));
                    Event::Ack
                }
                Action::Read { fd } => Event::Text(self.pipes.remove(&fd).unwrap_or_default()),
                Action::Print { text } => {
                    self.printed.push_str(&text);
                    Event::Ack
                }
                Action::Background { .. } => Event::Started(4242),
                Action::Wait { .. } => Event::Done { fd: -1, status: true },
                Action::Exit => panic!("exit"),
                Action::Finish { fd, status } => return (fd, status),
            };
        }
    }
}

fn history(entries: &[&str]) -> FileHistory {
    let mut h = FileHistory::new();
    for e in entries {
        h.add(e).unwrap();
    }
    h
}

#[test]
fn set_then_get_prints_the_value() {
    let mut w = World::new();
    let mut st = ShellState::new();
    let h = history(&[]);
    assert_eq!(w.run(&mut st, &h, &["set", "x", "hello"]), (-1, true));
    assert_eq!(w.run(&mut st, &h, &["get", "x"]), (-1, true));
    assert_eq!(w.printed, "hello\n");
}

#[test]
fn set_replaces_the_value() {
    let mut w = World::new();
    let mut st = ShellState::new();
    let h = history(&[]);
    w.run(&mut st, &h, &["set", "x", "1"]);
    w.run(&mut st, &h, &["set", "x", "2"]);
    assert_eq!(st.variables.len(), 1);
    w.run(&mut st, &h, &["get", "x"]);
    assert_eq!(w.printed, "2\n");
}

#[test]
fn unset_then_get_fails() {
    let mut w = World::new();
    let mut st = ShellState::new();
    let h = history(&[]);
    w.run(&mut st, &h, &["set", "x", "1"]);
    assert_eq!(w.run(&mut st, &h, &["unset", "x"]), (-1, true));
    assert_eq!(w.run(&mut st, &h, &["get", "x"]), (-1, false));
    assert_eq!(w.diags, vec![Diag::VariableNotFound]);
}

#[test]
fn wrong_variable_commands() {
    let mut w = World::new();
    let mut st = ShellState::new();
    let h = history(&[]);
    assert_eq!(w.run(&mut st, &h, &["set", "x"]), (-1, false));
    assert_eq!(w.run(&mut st, &h, &["get", "x", "y"]), (-1, false));
    assert_eq!(w.run(&mut st, &h, &["unset"]), (-1, false));
    assert_eq!(
        w.diags,
        vec![Diag::IncorrectSet, Diag::IncorrectGet, Diag::IncorrectUnset]
    );
}

#[test]
fn and_skips_after_failure() {
    let mut w = World::new();
    let mut st = ShellState::new();
    let h = history(&[]);
    let (_, status) = w.run(&mut st, &h, &["fail", "&&", "second"]);
    assert!(!status);
    assert!(!w.spawned.contains(&"second".to_string()));
}

#[test]
fn and_runs_after_success() {
    let mut w = World::new();
    let mut st = ShellState::new();
    let h = history(&[]);
    let (_, status) = w.run(&mut st, &h, &["first", "&&", "second"]);
    assert!(status);
    assert!(w.spawned.contains(&"second".to_string()));
}

#[test]
fn or_runs_after_failure_only() {
    let mut w = World::new();
    let mut st = ShellState::new();
    let h = history(&[]);
    w.run(&mut st, &h, &["first", "||", "second"]);
    assert!(!w.spawned.contains(&"second".to_string()));
    w.run(&mut st, &h, &["fail", "||", "third"]);
    assert!(w.spawned.contains(&"third".to_string()));
}

#[test]
fn sequence_runs_both() {
    let mut w = World::new();
    let mut st = ShellState::new();
    let h = history(&[]);
    let (_, status) = w.run(&mut st, &h, &["fail", ";", "second"]);
    assert!(!status);
    assert!(w.spawned.contains(&"second".to_string()));
}

#[test]
fn conditional_chooses_the_branch() {
    let mut w = World::new();
    let mut st = ShellState::new();
    let h = history(&[]);
    w.run(&mut st, &h, &["if", "true", "then", "yes", "else", "no", "end"]);
    assert!(w.spawned.contains(&"yes".to_string()));
    assert!(!w.spawned.contains(&"no".to_string()));
    let (_, status) = w.run(&mut st, &h, &["if", "false", "then", "a", "end"]);
    assert!(!status);
    assert!(!w.spawned.contains(&"a".to_string()));
}

#[test]
fn true_and_false() {
    let mut w = World::new();
    let mut st = ShellState::new();
    let h = history(&[]);
    assert_eq!(w.run(&mut st, &h, &["true"]), (-1, true));
    assert_eq!(w.run(&mut st, &h, &["false"]), (-1, false));
}

#[test]
fn history_lists_from_one() {
    let mut w = World::new();
    let mut st = ShellState::new();
    let h = history(&["ls", "cd"]);
    assert_eq!(w.run(&mut st, &h, &["history"]), (-1, true));
    assert_eq!(w.printed, "1: ls\n2: cd\n");
}

#[test]
fn set_from_command_output_is_trimmed() {
    let mut w = World::new();
    let mut st = ShellState::new();
    let h = history(&[]);
    assert_eq!(w.run(&mut st, &h, &["set", "x", "(", "gen", ")"]), (-1, true));
    w.run(&mut st, &h, &["get", "x"]);
    assert_eq!(w.printed, "generated\n");
}

#[test]
fn set_from_empty_output_fails() {
    let mut w = World::new();
    let mut st = ShellState::new();
    let h = history(&[]);
    assert_eq!(w.run(&mut st, &h, &["set", "x", "(", "quiet", ")"]), (-1, false));
    assert_eq!(w.diags, vec![Diag::NullOutput]);
}

#[test]
fn get_into_a_pipe_goes_through_echo() {
    let mut w = World::new();
    let mut st = ShellState::new();
    let h = history(&[]);
    w.run(&mut st, &h, &["set", "x", "v"]);
    let (_, status) = w.run(&mut st, &h, &["get", "x", "|", "cat"]);
    assert!(status);
    assert!(w.spawned.contains(&"echo".to_string()));
    assert!(w.spawned.contains(&"cat".to_string()));
}

#[test]
fn cd_arguments() {
    let mut w = World::new();
    let mut st = ShellState::new();
    let h = history(&[]);
    assert_eq!(w.run(&mut st, &h, &["cd"]), (-1, true));
    assert_eq!(w.run(&mut st, &h, &["cd", "/tmp"]), (-1, true));
    assert_eq!(w.run(&mut st, &h, &["cd", "a", "b"]), (-1, false));
    assert_eq!(w.dirs, vec![None, Some("/tmp".to_string())]);
    assert_eq!(w.diags, vec![Diag::IncorrectCd]);
}

#[test]
fn background_jobs() {
    let mut w = World::new();
    let mut st = ShellState::new();
    let h = history(&[]);
    assert_eq!(w.run(&mut st, &h, &["sleep", "&"]), (-1, true));
    assert_eq!(st.jobs, vec![(4242, "sleep".to_string())]);
    w.run(&mut st, &h, &["jobs"]);
    assert_eq!(w.printed, "[1]\tsleep\t4242\n");
    assert_eq!(w.run(&mut st, &h, &["fg"]), (-1, true));
    assert!(st.jobs.is_empty());
    assert_eq!(w.run(&mut st, &h, &["fg", "1"]), (-1, false));
    assert_eq!(w.diags, vec![Diag::NoJob]);
}

#[test]
fn pipe_feeds_the_second_command() {
    let mut w = World::new();
    let mut st = ShellState::new();
    let h = history(&[]);
    assert_eq!(w.run(&mut st, &h, &["a", "|", "b"]), (-1, true));
    assert_eq!(w.spawned, vec!["a".to_string(), "b".to_string()]);
    assert_eq!(w.run(&mut st, &h, &["fail", "|", "b"]), (-1, false));
}

#[test]
fn diagnostic_messages() {
    assert_eq!(Diag::VariableNotFound.message(), "variable not found");
    assert_eq!(Diag::NullOutput.message(), "the out of the command is null");
}

#[test]
fn output_redirection_copies_into_the_file() {
    let mut w = World::new();
    let mut st = ShellState::new();
    let h = history(&[]);
    assert_eq!(w.run(&mut st, &h, &["ls", ">", "out.txt"]), (-1, true));
    assert_eq!(w.opened, vec![("out.txt".to_string(), Redirect::Out)]);
    assert_eq!(w.copied, vec![(10, 3)]);
    assert_eq!(w.run(&mut st, &h, &["ls", ">>", "log"]), (-1, true));
    assert_eq!(w.opened[1], ("log".to_string(), Redirect::OutAppend));
}

#[test]
fn input_redirection_reads_the_file() {
    let mut w = World::new();
    let mut st = ShellState::new();
    let h = history(&[]);
    assert_eq!(w.run(&mut st, &h, &["wc", "<", "in.txt"]), (-1, true));
    assert_eq!(w.opened, vec![("in.txt".to_string(), Redirect::In)]);
    assert_eq!(w.stdins, vec![3]);
    assert!(w.copied.is_empty());
}

#[test]
fn help_prints_the_text_of_a_topic() {
    let mut w = World::new();
    let mut st = ShellState::new();
    let h = history(&[]);
    assert_eq!(w.run(&mut st, &h, &["help", "exit"]), (-1, true));
    assert_eq!(w.printed, "El comando exit finaliza la ejecución del shell.\n");
    assert_eq!(w.run(&mut st, &h, &["help"]), (-1, true));
    assert!(w.printed.contains("Raudel Alejandro Gómez Molina"));
    assert_eq!(w.run(&mut st, &h, &["help", "nothing"]), (-1, false));
    assert_eq!(w.run(&mut st, &h, &["help", "cd", "fg"]), (-1, false));
    assert_eq!(w.diags, vec![Diag::IncorrectHelp, Diag::IncorrectHelp]);
    assert_eq!(Diag::IncorrectHelp.message(), "incorrect command help");
}

#[test]
fn jobs_show_the_command_text() {
    let mut w = World::new();
    let mut st = ShellState::new();
    let h = history(&[]);
    w.run(&mut st, &h, &["cp", "movie.mkv", "..", "&"]);
    w.run(&mut st, &h, &["rm", "file.zip", "&"]);
    w.run(&mut st, &h, &["jobs"]);
    assert_eq!(w.printed, "[1]\tcp movie.mkv ..\t4242\n[2]\trm file.zip\t4242\n");
}

#[test]
fn set_needs_a_lowercase_name() {
    let mut w = World::new();
    let mut st = ShellState::new();
    let h = history(&[]);
    assert_eq!(w.run(&mut st, &h, &["set", "A1", "v"]), (-1, false));
    assert_eq!(w.run(&mut st, &h, &["set", "X", "(", "gen", ")"]), (-1, false));
    assert_eq!(st.variables.len(), 0);
    assert!(!w.spawned.contains(&"gen".to_string()));
    assert_eq!(w.diags, vec![Diag::IncorrectSet, Diag::IncorrectSet]);
    assert_eq!(w.run(&mut st, &h, &["set", "abc", "v"]), (-1, true));
}

#[test]
fn unset_of_a_missing_variable_fails() {
    let mut w = World::new();
    let mut st = ShellState::new();
    let h = history(&[]);
    assert_eq!(w.run(&mut st, &h, &["unset", "x"]), (-1, false));
    assert_eq!(w.diags, vec![Diag::VariableNotFound]);
}

#[test]
fn history_shows_the_last_hundred() {
    let mut w = World::new();
    let mut st = ShellState::new();
    let entries: Vec<String> = (1..=101).map(|i| format!("cmd{}", i)).collect();
    let refs: Vec<&str> = entries.iter().map(|s| s.as_str()).collect();
    let h = history(&refs);
    assert_eq!(w.run(&mut st, &h, &["history"]), (-1, true));
    let mut expected = String::new();
    for k in 1..=100 {
        expected.push_str(&format!("{}: cmd{}\n", k, k + 1));
    }
    assert_eq!(w.printed, expected);
}

#[test]
fn or_after_a_semicolon_joins_the_command_before_it() {
    let mut w = World::new();
    let mut st = ShellState::new();
    let h = history(&[]);
    w.run(&mut st, &h, &["fail", "&&", "c2", ";", "||", "c3"]);
    assert!(w.diags.is_empty());
    assert_eq!(w.spawned.iter().filter(|p| *p != "echo").cloned().collect::<Vec<String>>(), vec!["fail".to_string(), "c3".to_string()]);
    let mut w = World::new();
    w.run(&mut st, &h, &["c1", "&&", "c2", ";", "||", "c3"]);
    assert_eq!(w.spawned.iter().filter(|p| *p != "echo").cloned().collect::<Vec<String>>(), vec!["c1".to_string(), "c2".to_string()]);
}
