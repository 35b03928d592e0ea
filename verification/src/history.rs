//! The command history and the expansion of `again` in a line: `again`
//! stands for the last command, `again n` for the n-th one (from 1).
use vstd::prelude::*;
use rustyline::history::{FileHistory, History, SearchDirection};
use crate::text::{
    chars_of, string_of, trim, trim_chars, parse_usize, parse_usize_spec, extend_chars,
};

verus! {

/// rustyline's file-backed history; its entries are seen through
/// `history_entries`.
#[verifier::external_type_specification]
#[verifier::external_body]
pub struct ExFileHistory(FileHistory);

/// The entries of a history, oldest first.
pub uninterp spec fn history_entries(h: FileHistory) -> Seq<Seq<char>>;

/// `History::len` of rustyline's `FileHistory`: the number of entries.
#[verifier::external_body]
pub(crate) fn history_len(h: &FileHistory) -> (n: usize)
    ensures
        n == history_entries(*h).len(),
{
    h.len()
}

/// `History::get` of rustyline's `FileHistory` with an index below its
/// length: that entry. `FileHistory::get` answers `Ok(Some(..))`, holding
/// the entry at that index, for every index below the length.
#[verifier::external_body]
pub(crate) fn history_get(h: &FileHistory, index: usize) -> (r: String)
    requires
        index < history_entries(*h).len(),
    ensures
        r@ == history_entries(*h)[index as int],
{
    h.get(index, SearchDirection::Forward).unwrap().unwrap().entry.to_string()
}

/// Whether `pat` occurs in `line` at `pos`.
pub open spec fn equal_pat_spec(line: Seq<char>, pat: Seq<char>, pos: int) -> bool {
    pos + pat.len() <= line.len() && line.subrange(pos, pos + pat.len()) == pat
}

pub open spec fn again_word() -> Seq<char> {
    seq!['a', 'g', 'a', 'i', 'n']
}

pub open spec fn help_word() -> Seq<char> {
    seq!['h', 'e', 'l', 'p']
}

/// The characters that end the number after `again`.
pub open spec fn special_char_spec(c: char) -> bool {
    c == '|' || c == ';' || c == '&' || c == '#' || c == '`'
}

/// Where the look-back for a preceding `help` stops: moving left from `w`
/// while `w >= 3`, up to the first character that is not a space.
pub open spec fn help_w(line: Seq<char>, w: int) -> int
    decreases w,
{
    if w >= 3 {
        if line[w - 1] != ' ' {
            w - 1
        } else {
            help_w(line, w - 1)
        }
    } else {
        w
    }
}

/// Index of the first character at or after `k` that is not a space.
pub open spec fn skip_spaces(line: Seq<char>, k: int) -> int
    decreases line.len() - k,
{
    if 0 <= k < line.len() && line[k] == ' ' {
        skip_spaces(line, k + 1)
    } else {
        k
    }
}

/// Index of the first space or special character at or after `k`.
pub open spec fn word_end(line: Seq<char>, k: int) -> int
    decreases line.len() - k,
{
    if 0 <= k < line.len() && line[k] != ' ' && !special_char_spec(line[k]) {
        word_end(line, k + 1)
    } else {
        k
    }
}

/// The text that `again` with this index stands for, and whether the index
/// was wrong (the text is then `false`).
pub open spec fn lookup(hist: Seq<Seq<char>>, index: int) -> (Seq<char>, bool) {
    if 0 < index <= hist.len() {
        (hist[index - 1], false)
    } else {
        (seq!['f', 'a', 'l', 's', 'e'], true)
    }
}

/// The expansion after a prefix of the line.
pub struct AgainState {
    pub out: Seq<char>,
    /// Characters still to skip (the rest of an expanded `again n`).
    pub next: int,
    pub quoted: bool,
    /// Number of wrong indices met.
    pub errors: nat,
    pub done: bool,
}

pub open spec fn with_lookup(st: AgainState, l: (Seq<char>, bool), next: int, done: bool) -> AgainState {
    AgainState {
        out: st.out + l.0,
        next,
        errors: if l.1 {
            st.errors + 1
        } else {
            st.errors
        },
        done,
        ..st
    }
}

pub open spec fn again_step(line: Seq<char>, hist: Seq<Seq<char>>, i: int, st0: AgainState) -> AgainState {
    if st0.done {
        st0
    } else {
        let st = AgainState {
            quoted: if line[i] == '"' {
                !st0.quoted
            } else {
                st0.quoted
            },
            ..st0
        };
        if st.next != 0 {
            AgainState { next: st.next - 1, ..st }
        } else {
            let equal = equal_pat_spec(line, again_word(), i) && !st.quoted;
            let help = equal && i > 0 && {
                let w = help_w(line, i - 1);
                w + 1 >= 4 && equal_pat_spec(line, help_word(), w + 1 - 4)
            };
            if help || !equal {
                AgainState { out: st.out.push(line[i]), ..st }
            } else if i + 5 == line.len() || special_char_spec(line[i + 5]) {
                with_lookup(st, lookup(hist, hist.len() as int), 4, false)
            } else {
                let s1 = skip_spaces(line, i + 5);
                if s1 == line.len() {
                    with_lookup(st, lookup(hist, hist.len() as int), st.next, true)
                } else {
                    let s2 = word_end(line, s1);
                    match parse_usize_spec(line.subrange(s1, s2)) {
                        Some(q) => with_lookup(st, lookup(hist, q as int), s2 - i - 1, false),
                        None => with_lookup(st, lookup(hist, hist.len() as int), 4, false),
                    }
                }
            }
        }
    }
}

pub open spec fn again_upto(line: Seq<char>, hist: Seq<Seq<char>>, k: nat) -> AgainState
    decreases k,
{
    if k == 0 {
        AgainState { out: seq![], next: 0, quoted: false, errors: 0, done: false }
    } else {
        again_step(line, hist, k - 1, again_upto(line, hist, (k - 1) as nat))
    }
}

/// The line with every `again` expanded, trimmed, and the number of wrong
/// indices met.
pub open spec fn again_spec(line: Seq<char>, hist: Seq<Seq<char>>) -> (Seq<char>, nat) {
    let st = again_upto(line, hist, line.len());
    (trim(st.out), st.errors)
}

proof fn lemma_again_errors(line: Seq<char>, hist: Seq<Seq<char>>, k: nat)
    ensures
        again_upto(line, hist, k).errors <= k,
    decreases k,
{
    if k > 0 {
        lemma_again_errors(line, hist, (k - 1) as nat);
    }
}

proof fn lemma_again_done(line: Seq<char>, hist: Seq<Seq<char>>, k: nat, n: nat)
    requires
        k <= n,
        again_upto(line, hist, k).done,
    ensures
        again_upto(line, hist, n) == again_upto(line, hist, k),
    decreases n - k,
{
    if n > k {
        lemma_again_done(line, hist, k, (n - 1) as nat);
    }
}

proof fn lemma_help_w_bounds(line: Seq<char>, w: int)
    requires
        0 <= w,
    ensures
        0 <= help_w(line, w) <= w,
    decreases w,
{
    if w >= 3 && line[w - 1] == ' ' {
        lemma_help_w_bounds(line, w - 1);
    }
}

/// The characters that end the number after `again`.
pub fn special_char(c: char) -> (r: bool)
    ensures
        r == special_char_spec(c),
{
    c == '|' || c == ';' || c == '&' || c == '#' || c == '`'
}

/// Whether `pat` occurs in `line` at `pos`.
pub fn equal_pat(line: &Vec<char>, pat: &Vec<char>, pos: usize) -> (r: bool)
    requires
        pos <= line@.len(),
    ensures
        r == equal_pat_spec(line@, pat@, pos as int),
{
    if line.len() - pos < pat.len() {
        return false;
    }
    let mut equal = true;
    let mut j: usize = 0;
    while j < pat.len()
        invariant
            j <= pat@.len(),
            pos + pat@.len() <= line@.len(),
            line@.len() <= usize::MAX,
            equal == (forall|m: int| 0 <= m < j ==> line@[pos + m] == pat@[m]),
        decreases pat@.len() - j,
    {
        assert(pos + j < line@.len());
        if line[pos + j] != pat[j] {
            equal = false;
        }
        j += 1;
    }
    if equal {
        assert(line@.subrange(pos as int, pos + pat@.len()) =~= pat@);
    } else {
        let ghost m = choose|m: int| 0 <= m < pat@.len() && line@[pos + m] != pat@[m];
        assert(line@.subrange(pos as int, pos + pat@.len())[m] != pat@[m]);
    }
    equal
}

/// Appends to `line` the history entry with this index (from 1); appends
/// `false` and answers `true` (an error) where there is none.
pub fn get_again(history: &FileHistory, line: &mut Vec<char>, index: usize) -> (err: bool)
    ensures
        final(line)@ == old(line)@ + lookup(history_entries(*history), index as int).0,
        err == lookup(history_entries(*history), index as int).1,
{
    if index > 0 && index <= history_len(history) {
        let command = history_get(history, index - 1);
        let c = chars_of(command.as_str());
        extend_chars(line, &c);
        false
    } else {
        let f = chars_of("false");
        proof {
            reveal_strlit("false");
        }
        assert(f@ == seq!['f', 'a', 'l', 's', 'e']);
        extend_chars(line, &f);
        true
    }
}

/// Expands `again` in a line from the history: the new line, trimmed, and
/// the number of wrong indices met (each is reported as an incorrect
/// `again`).
pub fn again_command(history: &FileHistory, line: &str) -> (r: (String, usize))
    ensures
        (r.0@, r.1 as nat) == again_spec(line@, history_entries(*history)),
{
    let ghost hist = history_entries(*history);
    let line = chars_of(line);
    let mut pat: Vec<char> = Vec::new();
    pat.push('a');
    pat.push('g');
    pat.push('a');
    pat.push('i');
    pat.push('n');
    let mut pat_help: Vec<char> = Vec::new();
    pat_help.push('h');
    pat_help.push('e');
    pat_help.push('l');
    pat_help.push('p');
    assert(pat@ == again_word());
    assert(pat_help@ == help_word());
    let n = line.len();
    let mut new_line: Vec<char> = Vec::new();
    let mut next: usize = 0;
    let mut c = false;
    let mut errors: usize = 0;
    let mut done = false;
    let mut i: usize = 0;
    while i < n && !done
        invariant
            i <= n,
            n == line@.len(),
            pat@ == again_word(),
            pat_help@ == help_word(),
            hist == history_entries(*history),
            again_upto(line@, hist, i as nat) == (AgainState {
                out: new_line@,
                next: next as int,
                quoted: c,
                errors: errors as nat,
                done,
            }),
        decreases n - i,
    {
        proof {
            lemma_again_errors(line@, hist, i as nat);
        }
        let ghost st0 = again_upto(line@, hist, i as nat);
        if line[i] == '"' {
            c = !c;
        }
        if next != 0 {
            next -= 1;
        } else {
            let equal = equal_pat(&line, &pat, i) && !c;
            let mut help = false;
            if equal && i > 0 {
                let mut w = i - 1;
                let mut stop = false;
                while w >= 3 && !stop
                    invariant
                        0 <= w < i < n,
                        n == line@.len(),
                        !stop ==> help_w(line@, i - 1) == help_w(line@, w as int),
                        stop ==> help_w(line@, i - 1) == w,
                    decreases w,
                {
                    w -= 1;
                    if line[w] != ' ' {
                        stop = true;
                    }
                }
                proof {
                    lemma_help_w_bounds(line@, i - 1);
                }
                help = w + 1 >= 4 && equal_pat(&line, &pat_help, w + 1 - 4);
            }
            if help || !equal {
                new_line.push(line[i]);
            } else if i + 5 == n || special_char(line[i + 5]) {
                let len = history_len(history);
                if get_again(history, &mut new_line, len) {
                    errors += 1;
                }
                next = 4;
            } else {
                let mut s1 = i + 5;
                while s1 < n && line[s1] == ' '
                    invariant
                        i + 5 <= s1 <= n,
                        n == line@.len(),
                        skip_spaces(line@, i + 5) == skip_spaces(line@, s1 as int),
                    decreases n - s1,
                {
                    s1 += 1;
                }
                if s1 == n {
                    let len = history_len(history);
                    if get_again(history, &mut new_line, len) {
                        errors += 1;
                    }
                    done = true;
                } else {
                    let mut s2 = s1;
                    while s2 < n && line[s2] != ' ' && !special_char(line[s2])
                        invariant
                            s1 <= s2 <= n,
                            n == line@.len(),
                            word_end(line@, s1 as int) == word_end(line@, s2 as int),
                        decreases n - s2,
                    {
                        s2 += 1;
                    }
                    match parse_usize(&line, s1, s2) {
                        Some(q) => {
                            if get_again(history, &mut new_line, q) {
                                errors += 1;
                            }
                            next = s2 - i - 1;
                        },
                        None => {
                            let len = history_len(history);
                            if get_again(history, &mut new_line, len) {
                                errors += 1;
                            }
                            next = 4;
                        },
                    }
                }
            }
        }
        i += 1;
    }
    proof {
        if done {
            lemma_again_done(line@, hist, i as nat, n as nat);
        }
    }
    let t = trim_chars(&new_line);
    (string_of(&t), errors)
}

} // verus!
