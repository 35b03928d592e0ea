use rsh::history::again_command;
use rustyline::history::{FileHistory, History};

fn history(entries: &[&str]) -> FileHistory {
    let mut h = FileHistory::new();
    for e in entries {
        h.add(e).unwrap();
    }
    h
}

#[test]
fn again_is_the_last_command() {
    let h = history(&["ls", "pwd"]);
    assert_eq!(again_command(&h, "again"), ("pwd".to_string(), 0));
}

#[test]
fn again_n_is_the_nth_command() {
    let h = history(&["ls", "pwd"]);
    assert_eq!(again_command(&h, "again 1"), ("ls".to_string(), 0));
    assert_eq!(again_command(&h, "again   2 ; ls"), ("pwd ; ls".to_string(), 0));
}

#[test]
fn again_out_of_range_is_false() {
    let h = history(&["ls"]);
    assert_eq!(again_command(&h, "again 5"), ("false".to_string(), 1));
    assert_eq!(again_command(&h, "again 0"), ("false".to_string(), 1));
    let empty = history(&[]);
    assert_eq!(again_command(&empty, "again"), ("false".to_string(), 1));
}

#[test]
fn again_before_an_operator() {
    let h = history(&["ls", "pwd"]);
    assert_eq!(again_command(&h, "again;ls"), ("pwd;ls".to_string(), 0));
    assert_eq!(again_command(&h, "again x"), ("pwd x".to_string(), 0));
}

#[test]
fn again_inside_quotes_or_after_help_stays() {
    let h = history(&["ls"]);
    assert_eq!(again_command(&h, "echo \"again\""), ("echo \"again\"".to_string(), 0));
    assert_eq!(again_command(&h, "help again"), ("help again".to_string(), 0));
}

#[test]
fn expanded_line_is_trimmed() {
    let h = history(&["ls"]);
    assert_eq!(again_command(&h, "  echo  "), ("echo".to_string(), 0));
}

#[test]
fn again_with_a_number_of_several_digits() {
    let entries: Vec<String> = (1..=12).map(|i| format!("echo {}", i)).collect();
    let refs: Vec<&str> = entries.iter().map(|s| s.as_str()).collect();
    let h = history(&refs);
    assert_eq!(again_command(&h, "again 12"), ("echo 12".to_string(), 0));
    assert_eq!(again_command(&h, "again 10"), ("echo 10".to_string(), 0));
    assert_eq!(again_command(&h, "again 13"), ("false".to_string(), 1));
}
