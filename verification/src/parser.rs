//! Builds the command tree of a list of arguments. The operator with the
//! highest priority outside parentheses and `if ... end` splits the line:
//! `&` before `;` before `&&`/`||` before `>`/`>>` before `|` before `<`.
use vstd::prelude::*;
use crate::commands::{
    Redirect, Chain, Special, GetSet, strs, CommandSystem, Cd, Pipe, RedirectCommand, ChainCommand,
    SpecialCommand, GetSetCommand, ComplexSet, HistoryCommand, Conditional, Background, Jobs, HelpCommand,
    Foreground, Command, CmdV,
};
use crate::text::{eq_lit, to_owned_vec, chars_of, string_of, extend_chars};

verus! {

/// A malformed construct; the command it stands for is `false`.
#[derive(PartialEq, Eq, Structural, Clone, Copy, Debug)]
pub enum ParseError {
    Chain,
    Pipe,
    Redirect,
    Assign,
    Conditional,
}

impl ParseError {
    /// The message shown for the error.
    pub fn message(&self) -> (r: &'static str)
        ensures
            r@ == parse_error_message(*self),
    {
        match self {
            ParseError::Chain => "incorrect chain",
            ParseError::Pipe => "incorrect pipe",
            ParseError::Redirect => "incorrect redirect",
            ParseError::Assign => "incorrect command set",
            ParseError::Conditional => "incorrect conditional",
        }
    }
}

pub open spec fn parse_error_message(e: ParseError) -> Seq<char> {
    match e {
        ParseError::Chain => "incorrect chain"@,
        ParseError::Pipe => "incorrect pipe"@,
        ParseError::Redirect => "incorrect redirect"@,
        ParseError::Assign => "incorrect command set"@,
        ParseError::Conditional => "incorrect conditional"@,
    }
}

/// How strongly an operator binds a line; 0 for any other word.
pub open spec fn priority_spec(w: Seq<char>) -> u16 {
    if w == "<"@ {
        2
    } else if w == "|"@ {
        3
    } else if w == ">"@ {
        4
    } else if w == ">>"@ {
        4
    } else if w == "&&"@ {
        5
    } else if w == "||"@ {
        5
    } else if w == ";"@ {
        6
    } else if w == "&"@ {
        7
    } else {
        0
    }
}

/// The search for the splitting operator after a prefix of the line.
pub struct Scan {
    pub ind: int,
    pub priority: int,
    pub c_parent: int,
    pub c_cond: int,
}

pub open spec fn scan_step(a: Seq<Seq<char>>, i: int, st: Scan) -> Scan {
    let w = a[i];
    let cp = st.c_parent + (if w == "("@ {
        1int
    } else {
        0int
    }) - (if w == ")"@ {
        1int
    } else {
        0int
    });
    let cc = st.c_cond + (if w == "if"@ {
        1int
    } else {
        0int
    }) - (if w == "end"@ {
        1int
    } else {
        0int
    });
    if cp != 0 || w == "("@ || w == ")"@ || cc != 0 || w == "if"@ || w == "end"@ {
        Scan { c_parent: cp, c_cond: cc, ..st }
    } else if priority_spec(w) > st.priority {
        Scan { ind: i, priority: priority_spec(w) as int, c_parent: cp, c_cond: cc }
    } else {
        Scan { c_parent: cp, c_cond: cc, ..st }
    }
}

pub open spec fn scan_upto(a: Seq<Seq<char>>, k: nat) -> Scan
    decreases k,
{
    if k == 0 {
        Scan { ind: 0, priority: 1, c_parent: 0, c_cond: 0 }
    } else {
        scan_step(a, k - 1, scan_upto(a, (k - 1) as nat))
    }
}

/// The parse of a line: the command and the errors met, in order; `None`
/// where the line cannot be parsed at all (an empty command).
pub type Parsed = Option<(CmdV, Seq<ParseError>)>;

pub open spec fn false_with(e: Seq<ParseError>) -> Parsed {
    Some((CmdV::Special { special: Special::False }, e))
}

pub open spec fn true_cmd() -> CmdV {
    CmdV::Special { special: Special::True }
}

pub open spec fn both(
    r1: Parsed,
    r2: Parsed,
    f: spec_fn(CmdV, CmdV) -> CmdV,
) -> Parsed {
    match (r1, r2) {
        (Some((c1, e1)), Some((c2, e2))) => Some((f(c1, c2), e1 + e2)),
        _ => None,
    }
}

pub open spec fn three(
    r1: Parsed,
    r2: Parsed,
    r3: Parsed,
    f: spec_fn(CmdV, CmdV, CmdV) -> CmdV,
) -> Parsed {
    match (r1, r2, r3) {
        (Some((c1, e1)), Some((c2, e2)), Some((c3, e3))) => Some((f(c1, c2, c3), e1 + e2 + e3)),
        _ => None,
    }
}

pub open spec fn chain_spec(a: Seq<Seq<char>>, ind: int, ch: Chain) -> Parsed
    decreases a.len(), 0nat,
{
    if ind < 0 || ind >= a.len() {
        None
    } else if (ind == 0 || ind == a.len() - 1) && ch != Chain::Multiple {
        false_with(seq![ParseError::Chain])
    } else {
        let r1 = if ind == 0 {
            Some((true_cmd(), Seq::<ParseError>::empty()))
        } else {
            parse_spec(a.subrange(0, ind))
        };
        if ch == Chain::Multiple {
            seq_spec(r1, a.subrange(ind + 1, a.len() as int))
        } else {
            let r2 = if ind == a.len() - 1 {
                Some((true_cmd(), Seq::<ParseError>::empty()))
            } else {
                parse_spec(a.subrange(ind + 1, a.len() as int))
            };
            both(r1, r2, |c1: CmdV, c2: CmdV| chain_cmd(c1, c2, ch))
        }
    }
}

pub open spec fn chain_cmd(c1: CmdV, c2: CmdV, ch: Chain) -> CmdV {
    CmdV::Chain { command1: Box::new(c1), command2: Box::new(c2), chain: ch }
}

/// The conditional chain operators.
pub open spec fn link_spec(w: Seq<char>) -> Option<Chain> {
    if w == "&&"@ {
        Some(Chain::And)
    } else if w == "||"@ {
        Some(Chain::Or)
    } else {
        None
    }
}

/// Whether `a[i]` is a `;` outside parentheses and conditionals.
pub open spec fn top_semi(a: Seq<Seq<char>>, i: int) -> bool {
    a[i] == ";"@ && scan_upto(a, i as nat).c_parent == 0 && scan_upto(a, i as nat).c_cond == 0
}

/// The first `;` of `a` at or after `i` outside parentheses and
/// conditionals.
pub open spec fn semi_from(a: Seq<Seq<char>>, i: int) -> Option<int>
    decreases a.len() - i,
{
    if i < 0 || i >= a.len() {
        None
    } else if top_semi(a, i) {
        Some(i)
    } else {
        semi_from(a, i + 1)
    }
}

pub proof fn lemma_semi_from_bounds(a: Seq<Seq<char>>, i: int)
    ensures
        semi_from(a, i) matches Some(j) ==> 0 <= i <= j < a.len() && top_semi(a, j),
    decreases a.len() - i,
{
    if 0 <= i < a.len() && !top_semi(a, i) {
        lemma_semi_from_bounds(a, i + 1);
    }
}

/// `left ; r`. Where `r` starts with `&&` or `||`, that operator joins the
/// command before the `;` with the words up to the next `;` (nothing there
/// is an incorrect chain, the command `false`), and the rest follows the
/// same way; otherwise `r` is the second command of a sequence (nothing
/// there stands for `true`).
pub open spec fn seq_spec(left: Parsed, r: Seq<Seq<char>>) -> Parsed
    decreases r.len(), 2nat,
{
    if r.len() >= 2 && link_spec(r[0]) is Some {
        let op = link_spec(r[0])->0;
        let t = r.subrange(1, r.len() as int);
        match semi_from(t, 0) {
            None => both(left, parse_spec(t), |c1: CmdV, c2: CmdV| chain_cmd(c1, c2, op)),
            Some(j) => {
                proof {
                    lemma_semi_from_bounds(t, 0);
                }
                let operand = if j == 0 {
                    false_with(seq![ParseError::Chain])
                } else {
                    parse_spec(t.subrange(0, j))
                };
                seq_spec(
                    both(left, operand, |c1: CmdV, c2: CmdV| chain_cmd(c1, c2, op)),
                    t.subrange(j + 1, t.len() as int),
                )
            },
        }
    } else {
        let r2 = if r.len() == 0 {
            Some((true_cmd(), Seq::<ParseError>::empty()))
        } else {
            parse_spec(r)
        };
        both(left, r2, |c1: CmdV, c2: CmdV| chain_cmd(c1, c2, Chain::Multiple))
    }
}

proof fn lemma_seq_none(r: Seq<Seq<char>>)
    ensures
        seq_spec(None, r) is None,
    decreases r.len(),
{
    if r.len() >= 2 && link_spec(r[0]) is Some {
        let t = r.subrange(1, r.len() as int);
        lemma_semi_from_bounds(t, 0);
        if let Some(j) = semi_from(t, 0) {
            lemma_seq_none(t.subrange(j + 1, t.len() as int));
        }
    }
}

/// Errors met before the left command come first.
pub open spec fn after_errors(e: Seq<ParseError>, p: Parsed) -> Parsed {
    match p {
        Some((c, e2)) => Some((c, e + e2)),
        None => None,
    }
}

proof fn lemma_seq_errors(c: CmdV, e: Seq<ParseError>, r: Seq<Seq<char>>)
    ensures
        seq_spec(Some((c, e)), r) == after_errors(e, seq_spec(Some((c, Seq::<ParseError>::empty())), r)),
    decreases r.len(),
{
    let z = Seq::<ParseError>::empty();
    if r.len() >= 2 && link_spec(r[0]) is Some {
        let op = link_spec(r[0])->0;
        let t = r.subrange(1, r.len() as int);
        lemma_semi_from_bounds(t, 0);
        match semi_from(t, 0) {
            None => {
                if let Some((c2, e2)) = parse_spec(t) {
                    assert(z + e2 == e2);
                }
            },
            Some(j) => {
                let operand = if j == 0 {
                    false_with(seq![ParseError::Chain])
                } else {
                    parse_spec(t.subrange(0, j))
                };
                let rest = t.subrange(j + 1, t.len() as int);
                match operand {
                    Some((c2, e2)) => {
                        let cc = chain_cmd(c, c2, op);
                        assert(z + e2 == e2);
                        lemma_seq_errors(cc, e + e2, rest);
                        lemma_seq_errors(cc, e2, rest);
                        if let Some((x, e3)) = seq_spec(Some((cc, z)), rest) {
                            assert((e + e2) + e3 == e + (e2 + e3));
                        }
                    },
                    None => {
                        lemma_seq_none(rest);
                    },
                }
            },
        }
    } else {
        let r2 = if r.len() == 0 {
            Some((true_cmd(), z))
        } else {
            parse_spec(r)
        };
        if let Some((c2, e2)) = r2 {
            assert(z + e2 == e2);
        }
    }
}

pub open spec fn pipes_spec(a: Seq<Seq<char>>, ind: int) -> Parsed
    decreases a.len(), 0nat,
{
    if ind < 0 || ind >= a.len() {
        None
    } else if ind == 0 || ind == a.len() - 1 {
        false_with(seq![ParseError::Pipe])
    } else {
        both(
            parse_spec(a.subrange(0, ind)),
            parse_spec(a.subrange(ind + 1, a.len() as int)),
            |c1: CmdV, c2: CmdV| CmdV::Pipe { command1: Box::new(c1), command2: Box::new(c2) },
        )
    }
}

pub open spec fn redirect_spec(a: Seq<Seq<char>>, ind: int, r: Redirect) -> Parsed
    decreases a.len(), 0nat,
{
    if ind < 0 || ind >= a.len() {
        None
    } else if ind == 0 || ind == a.len() - 1 {
        false_with(seq![ParseError::Redirect])
    } else {
        match parse_spec(a.subrange(0, ind)) {
            Some((c, e)) => Some(
                (CmdV::Redirect { command: Box::new(c), redirect: r, path: a[ind + 1] }, e),
            ),
            None => None,
        }
    }
}

pub open spec fn set_spec(a: Seq<Seq<char>>) -> Parsed
    decreases a.len(), 0nat,
{
    if a.len() > 3 {
        if a[2] == "("@ && a[a.len() - 1] == ")"@ {
            match parse_spec(a.subrange(3, a.len() - 1)) {
                Some((c, e)) => Some(
                    (CmdV::ComplexSet { variable: a[1], command: Box::new(c) }, e),
                ),
                None => None,
            }
        } else {
            false_with(seq![ParseError::Assign])
        }
    } else {
        Some((CmdV::GetSet { args: a, get_set: GetSet::SetVar }, seq![]))
    }
}

/// The search for `then`, `else` and the closing `end` of the `if` that
/// starts the line.
pub struct CondScan {
    pub c_cond: int,
    pub pos_then: int,
    pub pos_else: int,
    pub pos_end: int,
}

pub open spec fn cond_step(a: Seq<Seq<char>>, i: int, st: CondScan) -> CondScan {
    let w = a[i];
    let cc1 = st.c_cond + (if w == "if"@ {
        1int
    } else {
        0int
    });
    let cc = if w == "end"@ {
        cc1 - 1
    } else {
        cc1
    };
    let pe = if w == "end"@ && cc == 0 {
        i
    } else {
        st.pos_end
    };
    let pt = if cc == 1 && w == "then"@ {
        i
    } else {
        st.pos_then
    };
    let pl = if cc == 1 && w == "else"@ {
        i
    } else {
        st.pos_else
    };
    CondScan { c_cond: cc, pos_then: pt, pos_else: pl, pos_end: pe }
}

pub open spec fn cond_upto(a: Seq<Seq<char>>, k: nat) -> CondScan
    decreases k,
{
    if k == 0 {
        CondScan { c_cond: 0, pos_then: 0, pos_else: 0, pos_end: 0 }
    } else {
        cond_step(a, k - 1, cond_upto(a, (k - 1) as nat))
    }
}

/// Whether the positions found make a malformed conditional; `None` where
/// checking them subtracts past zero.
pub open spec fn cond_malformed(st: CondScan) -> Option<bool> {
    let e1 = st.c_cond != 0 && st.pos_then == 0 && st.pos_end == 0;
    if st.pos_else == 0 {
        if st.pos_then < 2 {
            Some(true)
        } else if st.pos_end < st.pos_then {
            None
        } else {
            Some(e1 || st.pos_end - st.pos_then < 2)
        }
    } else {
        if st.pos_then < 2 {
            Some(true)
        } else if st.pos_else < st.pos_then {
            None
        } else if st.pos_else - st.pos_then < 2 {
            Some(true)
        } else if st.pos_end < st.pos_else {
            None
        } else {
            Some(e1 || st.pos_end - st.pos_else < 2)
        }
    }
}

pub open spec fn conditional_spec(a: Seq<Seq<char>>) -> Parsed
    decreases a.len(), 0nat,
{
    let st = cond_upto(a, a.len());
    match cond_malformed(st) {
        None => None,
        Some(true) => false_with(seq![ParseError::Conditional]),
        Some(false) => {
            if st.pos_end >= a.len() || st.pos_then < 1 {
                None
            } else {
                let parts = if st.pos_else == 0 {
                    both(
                        parse_spec(a.subrange(1, st.pos_then)),
                        parse_spec(a.subrange(st.pos_then + 1, st.pos_end)),
                        |c1: CmdV, c2: CmdV|
                            CmdV::Conditional {
                                c_if: Box::new(c1),
                                c_then: Box::new(c2),
                                c_else: Box::new(CmdV::Special { special: Special::False }),
                            },
                    )
                } else {
                    three(
                        parse_spec(a.subrange(1, st.pos_then)),
                        parse_spec(a.subrange(st.pos_then + 1, st.pos_else)),
                        parse_spec(a.subrange(st.pos_else + 1, st.pos_end)),
                        |c1: CmdV, c2: CmdV, c3: CmdV|
                            CmdV::Conditional {
                                c_if: Box::new(c1),
                                c_then: Box::new(c2),
                                c_else: Box::new(c3),
                            },
                    )
                };
                if st.pos_end == a.len() - 1 {
                    parts
                } else {
                    both(
                        parts,
                        parse_spec(a.subrange(st.pos_end + 1, a.len() as int)),
                        |c1: CmdV, c2: CmdV|
                            CmdV::Chain {
                                command1: Box::new(c1),
                                command2: Box::new(c2),
                                chain: Chain::Multiple,
                            },
                    )
                }
            }
        },
    }
}

/// Words joined by single spaces.
pub open spec fn join_words(ws: Seq<Seq<char>>) -> Seq<char>
    decreases ws.len(),
{
    if ws.len() == 0 {
        seq![]
    } else if ws.len() == 1 {
        ws[0]
    } else {
        join_words(ws.drop_last()) + seq![' '] + ws.last()
    }
}

pub open spec fn background_spec(a: Seq<Seq<char>>, ind: int) -> Parsed
    decreases a.len(), 0nat,
{
    if ind < 0 || ind >= a.len() {
        None
    } else if ind == 0 {
        Some((CmdV::Special { special: Special::False }, seq![]))
    } else {
        match parse_spec(a.subrange(0, ind)) {
            Some((c, e)) => {
                let bg = CmdV::Background { command: Box::new(c), text: join_words(a.subrange(0, ind)) };
                if a.len() - 1 == ind {
                    Some((bg, e))
                } else {
                    both(
                        Some((bg, e)),
                        parse_spec(a.subrange(ind + 1, a.len() as int)),
                        |c1: CmdV, c2: CmdV|
                            CmdV::Chain {
                                command1: Box::new(c1),
                                command2: Box::new(c2),
                                chain: Chain::Multiple,
                            },
                    )
                }
            },
            None => None,
        }
    }
}

/// The parse of a list of arguments.
pub open spec fn parse_spec(a: Seq<Seq<char>>) -> Parsed
    decreases a.len(), 1nat,
{
    if a.len() == 0 {
        None
    } else {
        let ind = scan_upto(a, a.len()).ind;
        let w = if 0 <= ind < a.len() {
            a[ind]
        } else {
            a[0]
        };
        if w == "<"@ {
            redirect_spec(a, ind, Redirect::In)
        } else if w == "|"@ {
            pipes_spec(a, ind)
        } else if w == ">"@ {
            redirect_spec(a, ind, Redirect::Out)
        } else if w == ">>"@ {
            redirect_spec(a, ind, Redirect::OutAppend)
        } else if w == "&&"@ {
            chain_spec(a, ind, Chain::And)
        } else if w == "||"@ {
            chain_spec(a, ind, Chain::Or)
        } else if w == ";"@ {
            chain_spec(a, ind, Chain::Multiple)
        } else if w == "cd"@ {
            Some((CmdV::Cd { args: a }, seq![]))
        } else if w == "history"@ {
            Some((CmdV::History, seq![]))
        } else if w == "get"@ {
            Some((CmdV::GetSet { args: a, get_set: GetSet::Get }, seq![]))
        } else if w == "set"@ {
            set_spec(a)
        } else if w == "unset"@ {
            Some((CmdV::GetSet { args: a, get_set: GetSet::UnSet }, seq![]))
        } else if w == "if"@ {
            conditional_spec(a)
        } else if w == "&"@ {
            background_spec(a, ind)
        } else if w == "jobs"@ {
            Some((CmdV::Jobs, seq![]))
        } else if w == "fg"@ {
            Some((CmdV::Foreground { args: a }, seq![]))
        } else if w == "help"@ {
            Some((CmdV::Help { args: a }, seq![]))
        } else if w == "true"@ {
            Some((CmdV::Special { special: Special::True }, seq![]))
        } else if w == "false"@ {
            Some((CmdV::Special { special: Special::False }, seq![]))
        } else if w == "exit"@ {
            Some((CmdV::Special { special: Special::Exit }, seq![]))
        } else {
            Some((CmdV::System { program: a[0], args: a.subrange(1, a.len() as int) }, seq![]))
        }
    }
}

proof fn lemma_assoc(a: Seq<ParseError>, b: Seq<ParseError>, c: Seq<ParseError>)
    ensures
        (a + b) + c == a + (b + c),
{
    assert((a + b) + c =~= a + (b + c));
}

proof fn lemma_push(a: Seq<ParseError>, e: ParseError)
    ensures
        a.push(e) == a + seq![e],
{
    assert(a.push(e) =~= a + seq![e]);
}

proof fn lemma_strs_subrange(v: Seq<String>, i: int, j: int)
    requires
        0 <= i <= j <= v.len(),
    ensures
        strs(v.subrange(i, j)) == strs(v).subrange(i, j),
{
    assert(strs(v.subrange(i, j)) =~= strs(v).subrange(i, j));
}

proof fn lemma_scan_bounds(a: Seq<Seq<char>>, k: nat)
    requires
        k <= a.len(),
    ensures
        -(k as int) <= scan_upto(a, k).c_parent <= k,
        -(k as int) <= scan_upto(a, k).c_cond <= k,
        0 <= scan_upto(a, k).ind,
        scan_upto(a, k).ind < a.len() || a.len() == 0,
        1 <= scan_upto(a, k).priority <= 7,
    decreases k,
{
    if k > 0 {
        lemma_scan_bounds(a, (k - 1) as nat);
    }
}

proof fn lemma_cond_bounds(a: Seq<Seq<char>>, k: nat)
    requires
        k <= a.len(),
    ensures
        -(k as int) <= cond_upto(a, k).c_cond <= k,
        0 <= cond_upto(a, k).pos_then < a.len() || a.len() == 0,
        0 <= cond_upto(a, k).pos_else < a.len() || a.len() == 0,
        0 <= cond_upto(a, k).pos_end < a.len() || a.len() == 0,
        cond_upto(a, k).pos_then == 0 || cond_upto(a, k).pos_then < k,
        cond_upto(a, k).pos_else == 0 || cond_upto(a, k).pos_else < k,
        cond_upto(a, k).pos_end == 0 || cond_upto(a, k).pos_end < k,
    decreases k,
{
    if k > 0 {
        lemma_cond_bounds(a, (k - 1) as nat);
    }
}

/// The priority of an operator word, 0 for any other word.
pub fn priority_command(arg: &String) -> (r: u16)
    ensures
        r == priority_spec(arg@),
{
    if eq_lit(arg, "<") {
        2
    } else if eq_lit(arg, "|") {
        3
    } else if eq_lit(arg, ">") {
        4
    } else if eq_lit(arg, ">>") {
        4
    } else if eq_lit(arg, "&&") {
        5
    } else if eq_lit(arg, "||") {
        5
    } else if eq_lit(arg, ";") {
        6
    } else if eq_lit(arg, "&") {
        7
    } else {
        0
    }
}

pub open spec fn parse_result(r: Option<Command>, p: Parsed, old_errors: Seq<ParseError>, errors: Seq<ParseError>) -> bool {
    match p {
        Some((c, e)) => r matches Some(cmd) && cmd@ == c && errors == old_errors + e,
        None => r is None,
    }
}

fn special(s: Special) -> (r: Box<Command>)
    ensures
        r@ == (CmdV::Special { special: s }),
{
    Box::new(Command::Special(SpecialCommand::new(s)))
}

fn link(w: &String) -> (r: Option<Chain>)
    ensures
        r == link_spec(w@),
{
    if eq_lit(w, "&&") {
        Some(Chain::And)
    } else if eq_lit(w, "||") {
        Some(Chain::Or)
    } else {
        None
    }
}

/// The position of the first `;` outside parentheses and conditionals.
fn semi_position(args: &[String]) -> (r: Option<usize>)
    requires
        args@.len() <= i32::MAX,
    ensures
        match r {
            Some(j) => semi_from(strs(args@), 0) == Some(j as int),
            None => semi_from(strs(args@), 0) is None,
        },
{
    let ghost a = strs(args@);
    let mut c_parent: i32 = 0;
    let mut c_cond: i32 = 0;
    let mut i: usize = 0;
    while i < args.len()
        invariant
            i <= args@.len(),
            args@.len() <= i32::MAX,
            a == strs(args@),
            scan_upto(a, i as nat).c_parent == c_parent,
            scan_upto(a, i as nat).c_cond == c_cond,
            semi_from(a, 0) == semi_from(a, i as int),
        decreases args@.len() - i,
    {
        proof { lemma_scan_bounds(a, i as nat); }
        let w = &args[i];
        assert(a[i as int] == w@);
        if c_parent == 0 && c_cond == 0 && eq_lit(w, ";") {
            return Some(i);
        }
        if eq_lit(w, "(") {
            c_parent += 1;
        }
        if eq_lit(w, "if") {
            c_cond += 1;
        }
        if eq_lit(w, ")") {
            c_parent -= 1;
        }
        if eq_lit(w, "end") {
            c_cond -= 1;
        }
        i += 1;
    }
    None
}

/// The command `left ; args` (see `seq_spec`).
fn seq_rest(left: Command, args: &[String], errors: &mut Vec<ParseError>) -> (r: Option<Command>)
    requires
        args@.len() <= i32::MAX,
    ensures
        parse_result(r, seq_spec(Some((left@, Seq::<ParseError>::empty())), strs(args@)), old(errors)@, final(errors)@),
    decreases args@.len(), 2nat,
{
    let ghost a = strs(args@);
    let ghost z = Seq::<ParseError>::empty();
    let ghost e0 = errors@;
    let op = if args.len() >= 2 {
        link(&args[0])
    } else {
        None
    };
    assert(args@.len() >= 2 ==> a[0] == args@[0]@);
    match op {
        Some(op) => {
            proof { lemma_strs_subrange(args@, 1, args@.len() as int); }
            let t = &args[1..args.len()];
            let ghost ta = strs(t@);
            assert(ta == a.subrange(1, a.len() as int));
            proof { lemma_semi_from_bounds(ta, 0); }
            match semi_position(t) {
                None => {
                    let c2 = match try_parser(t, errors) {
                        Some(c) => c,
                        None => { return None; },
                    };
                    proof { assert(e0 + z == e0); }
                    let r = Command::Chain(ChainCommand::new(Box::new(left), Box::new(c2), op));
                    Some(r)
                },
                Some(j) => {
                    let operand: Box<Command> = if j == 0 {
                        proof { lemma_push(errors@, ParseError::Chain); }
                        errors.push(ParseError::Chain);
                        special(Special::False)
                    } else {
                        proof { lemma_strs_subrange(t@, 0, j as int); }
                        match try_parser(&t[0..j], errors) {
                            Some(c) => Box::new(c),
                            None => {
                                proof { lemma_seq_none(ta.subrange(j + 1, ta.len() as int)); }
                                return None;
                            },
                        }
                    };
                    let ghost e1 = errors@;
                    let ghost p = if j == 0 {
                        false_with(seq![ParseError::Chain])->0
                    } else {
                        parse_spec(ta.subrange(0, j as int))->0
                    };
                    assert(e1 == e0 + p.1);
                    assert(operand@ == p.0);
                    let new_left = Command::Chain(ChainCommand::new(Box::new(left), operand, op));
                    assert(new_left@ == chain_cmd(left@, p.0, op));
                    proof { lemma_strs_subrange(t@, j + 1, t@.len() as int); }
                    let ghost rest = ta.subrange(j + 1, ta.len() as int);
                    assert(z + p.1 == p.1);
                    let r = seq_rest(new_left, &t[j + 1..t.len()], errors);
                    proof {
                        lemma_seq_errors(chain_cmd(left@, p.0, op), p.1, rest);
                        if let Some((x, e3)) = seq_spec(Some((chain_cmd(left@, p.0, op), z)), rest) {
                            assert((e0 + p.1) + e3 == e0 + (p.1 + e3));
                        }
                    }
                    r
                },
            }
        },
        None => {
            if args.len() == 0 {
                proof { assert(e0 + z == e0); }
                Some(Command::Chain(ChainCommand::new(Box::new(left), special(Special::True), Chain::Multiple)))
            } else {
                let c2 = match try_parser(args, errors) {
                    Some(c) => c,
                    None => { return None; },
                };
                proof { assert(e0 + z == e0); }
                Some(Command::Chain(ChainCommand::new(Box::new(left), Box::new(c2), Chain::Multiple)))
            }
        },
    }
}

fn chain(args: &[String], ind: usize, ch: Chain, errors: &mut Vec<ParseError>) -> (r: Option<Command>)
    requires
        args@.len() <= i32::MAX,
    ensures
        parse_result(r, chain_spec(strs(args@), ind as int, ch), old(errors)@, final(errors)@),
    decreases args@.len(), 0nat,
{
    let ghost a = strs(args@);
    if ind >= args.len() {
        return None;
    }
    if (ind == 0 || ind == args.len() - 1) && ch != Chain::Multiple {
        proof { lemma_push(errors@, ParseError::Chain); }
        errors.push(ParseError::Chain);
        return Some(Command::Special(SpecialCommand::new(Special::False)));
    }
    let ghost e0 = errors@;
    let c1 = if ind == 0 {
        special(Special::True)
    } else {
        proof { lemma_strs_subrange(args@, 0, ind as int); }
        match try_parser(&args[0..ind], errors) {
            Some(c) => Box::new(c),
            None => {
                proof { lemma_seq_none(a.subrange(ind + 1, a.len() as int)); }
                return None;
            },
        }
    };
    let ghost e1 = errors@;
    let ghost p1 = if ind == 0 {
        (true_cmd(), Seq::<ParseError>::empty())
    } else {
        parse_spec(a.subrange(0, ind as int))->0
    };
    if ch == Chain::Multiple {
        proof { lemma_strs_subrange(args@, ind + 1, args@.len() as int); }
        let ghost rest = a.subrange(ind + 1, a.len() as int);
        assert(e1 == e0 + p1.1);
        let r = seq_rest(*c1, &args[ind + 1..args.len()], errors);
        proof {
            lemma_seq_errors(p1.0, p1.1, rest);
            if let Some((x, e3)) = seq_spec(Some((p1.0, Seq::<ParseError>::empty())), rest) {
                assert((e0 + p1.1) + e3 == e0 + (p1.1 + e3));
            }
        }
        return r;
    }
    let c2 = if ind == args.len() - 1 {
        special(Special::True)
    } else {
        proof { lemma_strs_subrange(args@, ind + 1, args@.len() as int); }
        match try_parser(&args[ind + 1..args.len()], errors) {
            Some(c) => Box::new(c),
            None => { return None; },
        }
    };
    let ghost p2 = if ind == args.len() - 1 {
        (true_cmd(), Seq::<ParseError>::empty())
    } else {
        parse_spec(a.subrange(ind + 1, a.len() as int))->0
    };
    proof {
        lemma_assoc(e0, p1.1, p2.1);
        assert(e0 + Seq::<ParseError>::empty() == e0);
        assert(e1 + Seq::<ParseError>::empty() == e1);
        assert(e1 == e0 + p1.1);
        assert(errors@ == e1 + p2.1);
    }
    let r = Command::Chain(ChainCommand::new(c1, c2, ch));
    assert(r@ == CmdV::Chain { command1: Box::new(p1.0), command2: Box::new(p2.0), chain: ch });
    assert(chain_spec(a, ind as int, ch) == Some((r@, p1.1 + p2.1)));
    Some(r)
}

fn pipes(args: &[String], ind: usize, errors: &mut Vec<ParseError>) -> (r: Option<Command>)
    requires
        args@.len() <= i32::MAX,
    ensures
        parse_result(r, pipes_spec(strs(args@), ind as int), old(errors)@, final(errors)@),
    decreases args@.len(), 0nat,
{
    if ind >= args.len() {
        return None;
    }
    if ind == 0 || ind == args.len() - 1 {
        proof { lemma_push(errors@, ParseError::Pipe); }
        errors.push(ParseError::Pipe);
        return Some(Command::Special(SpecialCommand::new(Special::False)));
    }
    let ghost e0 = errors@;
    proof { lemma_strs_subrange(args@, 0, ind as int); }
    let c1 = match try_parser(&args[0..ind], errors) {
        Some(c) => c,
        None => { return None; },
    };
    let ghost e1 = errors@;
    proof { lemma_strs_subrange(args@, ind + 1, args@.len() as int); }
    let c2 = match try_parser(&args[ind + 1..args.len()], errors) {
        Some(c) => c,
        None => { return None; },
    };
    let ghost a = strs(args@);
    let ghost p1 = parse_spec(a.subrange(0, ind as int))->0;
    let ghost p2 = parse_spec(a.subrange(ind + 1, a.len() as int))->0;
    proof {
        lemma_assoc(e0, p1.1, p2.1);
    }
    let r = Command::Pipe(Pipe::new(Box::new(c1), Box::new(c2)));
    assert(r@ == CmdV::Pipe { command1: Box::new(p1.0), command2: Box::new(p2.0) });
    assert(pipes_spec(a, ind as int) == Some((r@, p1.1 + p2.1)));
    Some(r)
}

fn redirect(args: &[String], ind: usize, redirect_command: Redirect, errors: &mut Vec<ParseError>) -> (r: Option<Command>)
    requires
        args@.len() <= i32::MAX,
    ensures
        parse_result(r, redirect_spec(strs(args@), ind as int, redirect_command), old(errors)@, final(errors)@),
    decreases args@.len(), 0nat,
{
    if ind >= args.len() {
        return None;
    }
    if ind == 0 || ind == args.len() - 1 {
        proof { lemma_push(errors@, ParseError::Redirect); }
        errors.push(ParseError::Redirect);
        return Some(Command::Special(SpecialCommand::new(Special::False)));
    }
    proof { lemma_strs_subrange(args@, 0, ind as int); }
    let c = match try_parser(&args[0..ind], errors) {
        Some(c) => c,
        None => { return None; },
    };
    let path = args[ind + 1].clone();
    Some(Command::Redirect(RedirectCommand::new(Box::new(c), redirect_command, path)))
}

fn set(args: &[String], errors: &mut Vec<ParseError>) -> (r: Option<Command>)
    requires
        args@.len() <= i32::MAX,
    ensures
        parse_result(r, set_spec(strs(args@)), old(errors)@, final(errors)@),
    decreases args@.len(), 0nat,
{
    if args.len() > 3 {
        if eq_lit(&args[2], "(") && eq_lit(&args[args.len() - 1], ")") {
            proof { lemma_strs_subrange(args@, 3, args@.len() - 1); }
            let c = match try_parser(&args[3..args.len() - 1], errors) {
                Some(c) => c,
                None => { return None; },
            };
            return Some(Command::ComplexSet(ComplexSet::new(args[1].clone(), Box::new(c))));
        } else {
            proof { lemma_push(errors@, ParseError::Assign); }
            errors.push(ParseError::Assign);
            return Some(Command::Special(SpecialCommand::new(Special::False)));
        }
    }
    let v = to_owned_vec(args);
    Some(Command::GetSet(GetSetCommand::new(v, GetSet::SetVar)))
}

#[verifier::rlimit(40)]
fn conditional(args: &[String], errors: &mut Vec<ParseError>) -> (r: Option<Command>)
    requires
        args@.len() <= i32::MAX,
    ensures
        parse_result(r, conditional_spec(strs(args@)), old(errors)@, final(errors)@),
    decreases args@.len(), 0nat,
{
    let ghost a = strs(args@);
    let mut c_cond: i32 = 0;
    let mut pos_then: usize = 0;
    let mut pos_else: usize = 0;
    let mut pos_end: usize = 0;
    let mut i: usize = 0;
    while i < args.len()
        invariant
            i <= args@.len(),
            args@.len() <= i32::MAX,
            a == strs(args@),
            cond_upto(a, i as nat) == (CondScan {
                c_cond: c_cond as int,
                pos_then: pos_then as int,
                pos_else: pos_else as int,
                pos_end: pos_end as int,
            }),
        decreases args@.len() - i,
    {
        proof { lemma_cond_bounds(a, i as nat); }
        if eq_lit(&args[i], "if") {
            c_cond += 1;
        }
        if eq_lit(&args[i], "end") {
            c_cond -= 1;
            if c_cond == 0 {
                pos_end = i;
            }
        }
        if c_cond == 1 {
            if eq_lit(&args[i], "then") {
                pos_then = i;
            }
            if eq_lit(&args[i], "else") {
                pos_else = i;
            }
        }
        i += 1;
    }
    proof { lemma_cond_bounds(a, a.len()); }
    let ghost st = cond_upto(a, a.len());
    let mut e = false;
    if c_cond != 0 && pos_then == 0 && pos_end == 0 {
        e = true;
    }
    if pos_else == 0 {
        if pos_then < 2 {
            e = true;
        } else if pos_end < pos_then {
            return None;
        } else if pos_end - pos_then < 2 {
            e = true;
        }
    } else {
        if pos_then < 2 {
            e = true;
        } else if pos_else < pos_then {
            return None;
        } else if pos_else - pos_then < 2 {
            e = true;
        } else if pos_end < pos_else {
            return None;
        } else if pos_end - pos_else < 2 {
            e = true;
        }
    }
    assert(cond_malformed(st) == Some(e));
    if e {
        proof { lemma_push(errors@, ParseError::Conditional); }
        errors.push(ParseError::Conditional);
        return Some(Command::Special(SpecialCommand::new(Special::False)));
    }
    let ghost e0 = errors@;
    let ghost p1 = parse_spec(a.subrange(1, pos_then as int))->0;
    proof { lemma_strs_subrange(args@, 1, pos_then as int); }
    let c1 = match try_parser(&args[1..pos_then], errors) {
        Some(c) => c,
        None => { return None; },
    };
    let ghost parts: (CmdV, Seq<ParseError>);
    let command = if pos_else == 0 {
        let ghost p2 = parse_spec(a.subrange(pos_then + 1, pos_end as int))->0;
        proof { lemma_strs_subrange(args@, pos_then + 1, pos_end as int); }
        let c2 = match try_parser(&args[pos_then + 1..pos_end], errors) {
            Some(c) => c,
            None => { return None; },
        };
        let c3 = special(Special::False);
        proof {
            lemma_assoc(e0, p1.1, p2.1);
        }
        let r = Command::Conditional(Conditional::new(Box::new(c1), Box::new(c2), c3));
        proof {
            parts = (
                CmdV::Conditional {
                    c_if: Box::new(p1.0),
                    c_then: Box::new(p2.0),
                    c_else: Box::new(CmdV::Special { special: Special::False }),
                },
                p1.1 + p2.1,
            );
        }
        assert(r@ == parts.0);
        r
    } else {
        let ghost p2 = parse_spec(a.subrange(pos_then + 1, pos_else as int))->0;
        let ghost p3 = parse_spec(a.subrange(pos_else + 1, pos_end as int))->0;
        proof { lemma_strs_subrange(args@, pos_then + 1, pos_else as int); }
        let c2 = match try_parser(&args[pos_then + 1..pos_else], errors) {
            Some(c) => c,
            None => { return None; },
        };
        proof { lemma_strs_subrange(args@, pos_else + 1, pos_end as int); }
        let c3 = match try_parser(&args[pos_else + 1..pos_end], errors) {
            Some(c) => c,
            None => { return None; },
        };
        proof {
            lemma_assoc(e0, p1.1, p2.1);
            lemma_assoc(e0, p1.1 + p2.1, p3.1);
        }
        let r = Command::Conditional(Conditional::new(Box::new(c1), Box::new(c2), Box::new(c3)));
        proof {
            parts = (
                CmdV::Conditional {
                    c_if: Box::new(p1.0),
                    c_then: Box::new(p2.0),
                    c_else: Box::new(p3.0),
                },
                p1.1 + p2.1 + p3.1,
            );
        }
        assert(r@ == parts.0);
        r
    };
    assert(errors@ == e0 + parts.1);
    if pos_end == args.len() - 1 {
        assert(conditional_spec(a) == Some(parts));
        Some(command)
    } else {
        let ghost p4 = parse_spec(a.subrange(pos_end + 1, a.len() as int))->0;
        proof { lemma_strs_subrange(args@, pos_end + 1, args@.len() as int); }
        let c = match try_parser(&args[pos_end + 1..args.len()], errors) {
            Some(c) => c,
            None => { return None; },
        };
        proof {
            lemma_assoc(e0, parts.1, p4.1);
        }
        let r = Command::Chain(ChainCommand::new(Box::new(command), Box::new(c), Chain::Multiple));
        assert(r@ == CmdV::Chain {
            command1: Box::new(parts.0),
            command2: Box::new(p4.0),
            chain: Chain::Multiple,
        });
        assert(conditional_spec(a) == Some((r@, parts.1 + p4.1)));
        Some(r)
    }
}

/// The words joined by single spaces.
fn join(args: &[String]) -> (r: String)
    ensures
        r@ == join_words(strs(args@)),
{
    let ghost a = strs(args@);
    let mut out: Vec<char> = Vec::new();
    let mut i: usize = 0;
    while i < args.len()
        invariant
            i <= args@.len(),
            a == strs(args@),
            out@ == join_words(a.take(i as int)),
        decreases args@.len() - i,
    {
        if i > 0 {
            out.push(' ');
        }
        let w = chars_of(args[i].as_str());
        extend_chars(&mut out, &w);
        let ghost t = a.take(i + 1);
        assert(t.drop_last() =~= a.take(i as int));
        assert(t.last() == a[i as int]);
        if i == 0 {
            assert(out@ =~= t[0]);
        }
        i += 1;
    }
    assert(a.take(args@.len() as int) =~= a);
    string_of(&out)
}

fn background(args: &[String], ind: usize, errors: &mut Vec<ParseError>) -> (r: Option<Command>)
    requires
        args@.len() <= i32::MAX,
    ensures
        parse_result(r, background_spec(strs(args@), ind as int), old(errors)@, final(errors)@),
    decreases args@.len(), 0nat,
{
    if ind >= args.len() {
        return None;
    }
    if ind == 0 {
        return Some(Command::Special(SpecialCommand::new(Special::False)));
    }
    let ghost e0 = errors@;
    proof { lemma_strs_subrange(args@, 0, ind as int); }
    let c = match try_parser(&args[0..ind], errors) {
        Some(c) => c,
        None => { return None; },
    };
    let text = join(&args[0..ind]);
    let command = Command::Background(Background::new(Box::new(c), text));
    assert(command@ == CmdV::Background {
        command: Box::new((parse_spec(strs(args@).subrange(0, ind as int))->0).0),
        text: join_words(strs(args@).subrange(0, ind as int)),
    });
    if args.len() - 1 == ind {
        Some(command)
    } else {
        let ghost e1 = errors@;
        proof { lemma_strs_subrange(args@, ind + 1, args@.len() as int); }
        let c2 = match try_parser(&args[ind + 1..args.len()], errors) {
            Some(c) => c,
            None => { return None; },
        };
        let ghost a = strs(args@);
        let ghost p1 = parse_spec(a.subrange(0, ind as int))->0;
        let ghost p2 = parse_spec(a.subrange(ind + 1, a.len() as int))->0;
        proof {
            lemma_assoc(e0, p1.1, p2.1);
        }
        let r = Command::Chain(ChainCommand::new(Box::new(command), Box::new(c2), Chain::Multiple));
        assert(r@ == CmdV::Chain {
            command1: Box::new(CmdV::Background { command: Box::new(p1.0), text: join_words(a.subrange(0, ind as int)) }),
            command2: Box::new(p2.0),
            chain: Chain::Multiple,
        });
        assert(background_spec(a, ind as int) == Some((r@, p1.1 + p2.1)));
        Some(r)
    }
}

/// Parses a list of arguments; `None` where the list or a part of it that
/// has to be a command is empty.
pub fn try_parser(args: &[String], errors: &mut Vec<ParseError>) -> (r: Option<Command>)
    requires
        args@.len() <= i32::MAX,
    ensures
        parse_result(r, parse_spec(strs(args@)), old(errors)@, final(errors)@),
    decreases args@.len(), 1nat,
{
    let ghost a = strs(args@);
    if args.len() == 0 {
        return None;
    }
    let mut ind: usize = 0;
    let mut priority: u16 = 1;
    let mut c_parent: i32 = 0;
    let mut c_cond: i32 = 0;
    let mut i: usize = 0;
    while i < args.len()
        invariant
            i <= args@.len(),
            args@.len() <= i32::MAX,
            a == strs(args@),
            scan_upto(a, i as nat) == (Scan {
                ind: ind as int,
                priority: priority as int,
                c_parent: c_parent as int,
                c_cond: c_cond as int,
            }),
        decreases args@.len() - i,
    {
        proof { lemma_scan_bounds(a, i as nat); }
        let w = &args[i];
        let lp = eq_lit(w, "(");
        let rp = eq_lit(w, ")");
        let iff = eq_lit(w, "if");
        let end = eq_lit(w, "end");
        if lp {
            c_parent += 1;
        }
        if iff {
            c_cond += 1;
        }
        if rp {
            c_parent -= 1;
        }
        if end {
            c_cond -= 1;
        }
        if !(c_parent != 0 || lp || rp) && !(c_cond != 0 || iff || end) {
            let aux = priority_command(w);
            if aux > priority {
                priority = aux;
                ind = i;
            }
        }
        i += 1;
    }
    proof { lemma_scan_bounds(a, a.len()); }
    let w = &args[ind];
    if eq_lit(w, "<") {
        redirect(args, ind, Redirect::In, errors)
    } else if eq_lit(w, "|") {
        pipes(args, ind, errors)
    } else if eq_lit(w, ">") {
        redirect(args, ind, Redirect::Out, errors)
    } else if eq_lit(w, ">>") {
        redirect(args, ind, Redirect::OutAppend, errors)
    } else if eq_lit(w, "&&") {
        chain(args, ind, Chain::And, errors)
    } else if eq_lit(w, "||") {
        chain(args, ind, Chain::Or, errors)
    } else if eq_lit(w, ";") {
        chain(args, ind, Chain::Multiple, errors)
    } else if eq_lit(w, "cd") {
        Some(Command::Cd(Cd::new(to_owned_vec(args))))
    } else if eq_lit(w, "history") {
        Some(Command::History(HistoryCommand::new()))
    } else if eq_lit(w, "get") {
        Some(Command::GetSet(GetSetCommand::new(to_owned_vec(args), GetSet::Get)))
    } else if eq_lit(w, "set") {
        set(args, errors)
    } else if eq_lit(w, "unset") {
        Some(Command::GetSet(GetSetCommand::new(to_owned_vec(args), GetSet::UnSet)))
    } else if eq_lit(w, "if") {
        conditional(args, errors)
    } else if eq_lit(w, "&") {
        background(args, ind, errors)
    } else if eq_lit(w, "jobs") {
        Some(Command::Jobs(Jobs::new()))
    } else if eq_lit(w, "fg") {
        Some(Command::Foreground(Foreground::new(to_owned_vec(args))))
    } else if eq_lit(w, "help") {
        Some(Command::Help(HelpCommand::new(to_owned_vec(args))))
    } else if eq_lit(w, "true") {
        Some(Command::Special(SpecialCommand::new(Special::True)))
    } else if eq_lit(w, "false") {
        Some(Command::Special(SpecialCommand::new(Special::False)))
    } else if eq_lit(w, "exit") {
        Some(Command::Special(SpecialCommand::new(Special::Exit)))
    } else {
        proof { lemma_strs_subrange(args@, 1, args@.len() as int); }
        let program = args[0].clone();
        let rest = to_owned_vec(&args[1..args.len()]);
        Some(Command::System(CommandSystem::new(program, rest)))
    }
}

/// Whether a list of arguments parses: no part of it that has to be a
/// command is empty.
pub open spec fn parses(args: Seq<Seq<char>>) -> bool {
    parse_spec(args) is Some
}

/// The command a list of arguments stands for; the errors met on the way are
/// appended to `errors`. Only for lists that parse; `try_parser` takes any.
pub fn parser(args: &[String], errors: &mut Vec<ParseError>) -> (c: Command)
    requires
        args@.len() <= i32::MAX,
        parses(strs(args@)),
    ensures
        c@ == (parse_spec(strs(args@))->0).0,
        final(errors)@ == old(errors)@ + (parse_spec(strs(args@))->0).1,
{
    match try_parser(args, errors) {
        Some(c) => c,
        None => {
            assert(false);
            Command::Special(SpecialCommand::new(Special::False))
        },
    }
}

} // verus!
