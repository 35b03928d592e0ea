use rsh::format_line::{format_error, format_line};

fn args(line: &str) -> Vec<String> {
    format_line(line.to_string())
}

fn words(w: &[&str]) -> Vec<String> {
    w.iter().map(|s| s.to_string()).collect()
}

#[test]
fn plain_words() {
    assert_eq!(args("ls -l /tmp"), words(&["ls", "-l", "/tmp"]));
}

#[test]
fn any_number_of_spaces() {
    assert_eq!(args("   ls     -l   "), words(&["ls", "-l"]));
}

#[test]
fn empty_line_has_no_arguments() {
    assert_eq!(args(""), words(&[]));
    assert_eq!(args("    "), words(&[]));
}

#[test]
fn quotes_keep_spaces() {
    assert_eq!(args("echo \"a b  c\" d"), words(&["echo", "a b  c", "d"]));
}

#[test]
fn operators_become_words() {
    assert_eq!(args("ls|grep x"), words(&["ls", "|", "grep", "x"]));
    assert_eq!(args("a&&b||c;d"), words(&["a", "&&", "b", "||", "c", ";", "d"]));
    assert_eq!(args("a>>f<g"), words(&["a", ">>", "f", "<", "g"]));
    assert_eq!(args("cmd &"), words(&["cmd", "&"]));
}

#[test]
fn comment_ends_the_line() {
    assert_eq!(args("echo hi # a comment"), words(&["echo", "hi"]));
}

#[test]
fn backslash_escapes() {
    assert_eq!(args("echo \\# x"), words(&["echo", "#", "x"]));
    assert_eq!(args("echo a\\ b"), words(&["echo", "a b"]));
    assert_eq!(args("echo \\\"q"), words(&["echo", "\"q"]));
    assert_eq!(args("echo a\\b"), words(&["echo", "ab"]));
}

#[test]
fn back_quotes_become_parentheses() {
    assert_eq!(args("set x `ls -a`"), words(&["set", "x", "(", "ls", "-a", ")"]));
}

#[test]
fn unclosed_quote_is_false() {
    assert!(format_error("echo \"a"));
    assert_eq!(args("echo \"a"), words(&["false"]));
    assert!(!format_error("echo \"a\""));
    assert_eq!(args("echo \"a b c"), words(&["false"]));
    assert_eq!(args("\"a b"), words(&["f lse"]));
}

#[test]
fn quoted_text_with_accents_stays_one_argument() {
    assert_eq!(args("echo \"á b\""), words(&["echo", "á b"]));
    assert_eq!(args("echo \"ñandú  x\" y"), words(&["echo", "ñandú  x", "y"]));
}

#[test]
fn decode_turns_recorded_positions_into_spaces() {
    let ws = vec![vec!['a', '#', 'b'], vec!['c', '#']];
    assert_eq!(
        rsh::format_line::decode(&ws, &vec![1, 5]),
        vec!["a b".to_string(), "c ".to_string()]
    );
    assert_eq!(
        rsh::format_line::decode(&ws, &vec![]),
        vec!["a#b".to_string(), "c#".to_string()]
    );
}
