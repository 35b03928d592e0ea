use rsh::commands::Command;
use rsh::parser::ParseError;
use rsh::shell::{error_line, history_path, job_done_line, prepare, prompt, should_save};
use rustyline::history::{FileHistory, History};
use rsh::variables::Variables;
use rsh::{ctrl_c, Signal};

#[test]
fn lines_starting_with_a_space_are_not_saved() {
    assert!(should_save("ls"));
    assert!(!should_save(" hola"));
}

#[test]
fn history_file_in_home() {
    assert_eq!(history_path("/home/u"), "/home/u/.rsh_history");
}

#[test]
fn job_notice() {
    assert_eq!(job_done_line(0, 1925), "[1]\tDone\t1925");
}

#[test]
fn error_line_ends_with_the_message() {
    let e = error_line("incorrect pipe");
    assert!(e.ends_with(" incorrect pipe"));
    assert!(e.contains("rsh:"));
}

#[test]
fn prompt_holds_user_and_directory() {
    let p = prompt("ana", "/tmp");
    assert!(p.contains("rsh@"));
    assert!(p.contains("ana"));
    assert!(p.contains("/tmp"));
    assert!(p.ends_with("$ ") || p.ends_with("\x1b[0m"));
}

#[test]
fn ctrl_c_interrupts_then_kills() {
    assert_eq!(ctrl_c(-1, Signal::Default), (Signal::Default, None));
    let (s1, k1) = ctrl_c(100, Signal::Default);
    assert_eq!((s1, k1), (Signal::SigInt, Some(Signal::SigInt)));
    let (s2, k2) = ctrl_c(100, s1);
    assert_eq!((s2, k2), (Signal::SigKill, Some(Signal::SigKill)));
    assert_eq!(ctrl_c(100, s2), (Signal::SigKill, Some(Signal::SigKill)));
}

#[test]
fn variables_store() {
    let mut v = Variables::new();
    v.set("a".to_string(), "1".to_string());
    v.set("b".to_string(), "2".to_string());
    v.set("a".to_string(), "3".to_string());
    assert_eq!(v.len(), 2);
    assert_eq!(v.get("a"), Some("3".to_string()));
    assert_eq!(v.get("c"), None);
    assert!(v.unset("a"));
    assert!(!v.unset("a"));
    assert_eq!(v.get("a"), None);
    let l = v.listing();
    assert!(l.ends_with(" = 2\n"));
    assert!(l.contains('b'));
}

fn history(entries: &[&str]) -> FileHistory {
    let mut h = FileHistory::new();
    for e in entries {
        h.add(e).unwrap();
    }
    h
}

#[test]
fn prepare_an_empty_line() {
    let h = history(&["ls"]);
    assert!(prepare(&h, "").is_none());
}

#[test]
fn prepare_expands_again_and_parses() {
    let h = history(&["ls -l", "pwd"]);
    let p = prepare(&h, "again 1 | wc").unwrap();
    assert!(p.save);
    assert_eq!(p.line, "ls -l | wc");
    assert_eq!(p.again_errors, 0);
    assert!(!p.format_error);
    assert!(p.parse_errors.is_empty());
    assert!(matches!(p.command, Some(Command::Pipe(_))));
}

#[test]
fn prepare_reports_what_went_wrong() {
    let h = history(&["ls"]);
    let p = prepare(&h, " again 7 |").unwrap();
    assert!(!p.save);
    assert_eq!(p.line, "false |");
    assert_eq!(p.again_errors, 1);
    assert_eq!(p.parse_errors, vec![ParseError::Pipe]);
    assert!(matches!(p.command, Some(Command::Special(_))));
    let q = prepare(&h, "echo \"open").unwrap();
    assert!(q.format_error);
    assert!(matches!(q.command, Some(Command::Special(_))));
}

#[test]
fn prepare_a_line_of_spaces() {
    let h = history(&["ls"]);
    let p = prepare(&h, "   ").unwrap();
    assert!(!p.save);
    assert_eq!(p.line, "");
    assert!(p.command.is_none());
}
