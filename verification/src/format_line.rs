//! Turns a command line into its list of arguments: quotes group words,
//! backslash escapes, the operators `& | ; < > ( )` become words of their own,
//! back-quotes become parentheses, and `#` starts a comment.
use vstd::prelude::*;
use crate::text::{is_ws, chars_of, string_of, split_ws, split_ws_from, split_whitespace};

verus! {

/// What the formatter has produced after a prefix of the line.
pub struct EncState {
    /// The reformatted line so far.
    pub out: Seq<char>,
    /// Positions in `out` (counted in characters) of the placeholders that
    /// stand for quoted or escaped spaces.
    pub spaces: Seq<usize>,
    /// Inside double quotes.
    pub quoted: bool,
    /// The next character was consumed by a backslash.
    pub skip: bool,
    /// A comment started: the rest of the line is ignored.
    pub done: bool,
}

pub open spec fn enc_init() -> EncState {
    EncState { out: seq![], spaces: seq![], quoted: false, skip: false, done: false }
}

/// The characters that a backslash escapes.
pub open spec fn is_escapable(c: char) -> bool {
    c == '\\' || c == '"' || c == '`' || c == ' ' || c == '#'
}

/// The operator characters, with whether a doubled operator (`&&`, `||`,
/// `>>`) stays one word.
pub open spec fn pat_flag(c: char) -> Option<bool> {
    if c == '&' || c == '|' || c == '>' {
        Some(true)
    } else if c == ';' || c == '<' || c == '(' || c == ')' {
        Some(false)
    } else {
        None
    }
}

/// What an operator character at `i` becomes: itself, with a space before
/// and after unless one is there already or the operator is doubled.
pub open spec fn pat_piece(line: Seq<char>, i: int) -> Seq<char> {
    let x = line[i];
    let y = pat_flag(x)->0;
    (if i != 0 && line[i - 1] != ' ' && line[i - 1] != x {
        seq![' ']
    } else {
        seq![]
    }) + seq![x] + (if i != line.len() - 1 && line[i + 1] != ' ' && (!y || line[i + 1] != x) {
        seq![' ']
    } else {
        seq![]
    })
}

/// A placeholder `#` for a space that belongs to a word, its position
/// recorded.
pub open spec fn with_special_space(st: EncState) -> EncState {
    EncState {
        out: st.out.push('#'),
        spaces: st.spaces.push(st.out.len() as usize),
        ..st
    }
}

/// One character at `i`, outside quotes and comments.
pub open spec fn unquoted_step(line: Seq<char>, i: int, st: EncState) -> EncState {
    let c = line[i];
    if c == '\\' {
        if i != line.len() - 1 && is_escapable(line[i + 1]) {
            if line[i + 1] != ' ' {
                EncState { out: st.out.push(line[i + 1]), skip: true, ..st }
            } else {
                EncState { skip: true, ..with_special_space(st) }
            }
        } else {
            st
        }
    } else if c == ' ' && (i == 0 || line[i - 1] == ' ') {
        st
    } else if c == '`' {
        EncState {
            out: st.out + (if i == 0 || line[i - 1] == ' ' {
                seq!['(', ' ']
            } else {
                seq![' ', ')']
            }),
            ..st
        }
    } else if pat_flag(c) is Some {
        EncState { out: st.out + pat_piece(line, i), ..st }
    } else {
        EncState { out: st.out.push(c), ..st }
    }
}

/// One character at `i`.
pub open spec fn enc_step(line: Seq<char>, i: int, st: EncState) -> EncState {
    if st.done {
        st
    } else if st.skip {
        EncState { skip: false, ..st }
    } else if line[i] == '"' {
        EncState { quoted: !st.quoted, ..st }
    } else if st.quoted {
        if line[i] == ' ' {
            with_special_space(st)
        } else {
            EncState { out: st.out.push(line[i]), ..st }
        }
    } else if line[i] == '#' {
        EncState { done: true, ..st }
    } else {
        unquoted_step(line, i, st)
    }
}

/// The state after the first `k` characters.
pub open spec fn enc_upto(line: Seq<char>, k: nat) -> EncState
    decreases k,
{
    if k == 0 {
        enc_init()
    } else {
        enc_step(line, k - 1, enc_upto(line, (k - 1) as nat))
    }
}

/// The reformatted line and its placeholder positions; an unclosed quote
/// turns the line into `false`, the positions recorded so far kept (a
/// position below 5 then turns that letter of `false` into a space).
pub open spec fn encode(line: Seq<char>) -> (Seq<char>, Seq<usize>) {
    let st = enc_upto(line, line.len());
    if st.quoted {
        (seq!['f', 'a', 'l', 's', 'e'], st.spaces)
    } else {
        (st.out, st.spaces)
    }
}

/// Decoding one word that starts at character offset `j`, the next unused
/// placeholder being `x`: the decoded word and the next unused placeholder.
pub open spec fn dec_chars(w: Seq<char>, sp: Seq<usize>, x: nat, j: nat) -> (Seq<char>, nat)
    decreases w.len(),
{
    if w.len() == 0 {
        (seq![], x)
    } else {
        let (p, x1) = dec_chars(w.drop_last(), sp, x, j);
        let at = j + w.len() - 1;
        if x1 < sp.len() && at == sp[x1 as int] {
            (p.push(' '), x1 + 1)
        } else {
            (p.push(w.last()), x1)
        }
    }
}

pub struct DecState {
    pub words: Seq<Seq<char>>,
    pub x: nat,
    pub j: nat,
}

/// Decoding a list of words, counting one separator between words.
pub open spec fn dec_words(ws: Seq<Seq<char>>, sp: Seq<usize>) -> DecState
    decreases ws.len(),
{
    if ws.len() == 0 {
        DecState { words: seq![], x: 0, j: 0 }
    } else {
        let st = dec_words(ws.drop_last(), sp);
        let (w, x1) = dec_chars(ws.last(), sp, st.x, st.j);
        DecState { words: st.words.push(w), x: x1, j: st.j + ws.last().len() + 1 }
    }
}

/// The arguments of a command line.
pub open spec fn format_line_spec(line: Seq<char>) -> Seq<Seq<char>> {
    let (nl, sp) = encode(line);
    dec_words(split_ws(nl), sp).words
}

pub proof fn lemma_enc_bounds(line: Seq<char>, k: nat)
    requires
        k <= line.len(),
    ensures
        enc_upto(line, k).out.len() <= 3 * k,
    decreases k,
{
    if k > 0 {
        lemma_enc_bounds(line, (k - 1) as nat);
    }
}

proof fn lemma_enc_done(line: Seq<char>, k: nat, n: nat)
    requires
        k <= n,
        enc_upto(line, k).done,
    ensures
        enc_upto(line, n) == enc_upto(line, k),
    decreases n - k,
{
    if n > k {
        lemma_enc_done(line, k, (n - 1) as nat);
    }
}

/// Records a placeholder for a space that belongs to a word.
pub fn format_special_spaces(new_line: &mut Vec<char>, special_spaces: &mut Vec<usize>)
    ensures
        final(special_spaces)@ == old(special_spaces)@.push(old(new_line)@.len() as usize),
        final(new_line)@ == old(new_line)@.push('#'),
{
    let n = new_line.len();
    special_spaces.push(n);
    new_line.push('#');
}

/// A backslash at `ind`: escapes the next character when it is one of
/// `\ " ` space #`, and is dropped in any case.
pub fn format_special(
    line: &Vec<char>,
    ind: usize,
    new_line: &mut Vec<char>,
    special_spaces: &mut Vec<usize>,
    cont: &mut bool,
) -> (r: bool)
    requires
        ind < line@.len(),
    ensures
        r == (line@[ind as int] == '\\'),
        !r || !(ind != line@.len() - 1 && is_escapable(line@[ind + 1])) ==> final(new_line)@ == old(
            new_line,
        )@ && final(special_spaces)@ == old(special_spaces)@ && *final(cont) == *old(cont),
        r && ind != line@.len() - 1 && is_escapable(line@[ind + 1]) ==> *final(cont) && (if line@[ind
            + 1] != ' ' {
            final(new_line)@ == old(new_line)@.push(line@[ind + 1]) && final(special_spaces)@ == old(
                special_spaces,
            )@
        } else {
            final(new_line)@ == old(new_line)@.push('#') && final(special_spaces)@ == old(
                special_spaces,
            )@.push(old(new_line)@.len() as usize)
        }),
{
    if line[ind] == '\\' {
        if ind != line.len() - 1 {
            let x = line[ind + 1];
            if x == '\\' || x == '"' || x == '`' || x == ' ' || x == '#' {
                if x != ' ' {
                    new_line.push(x);
                } else {
                    format_special_spaces(new_line, special_spaces);
                }
                *cont = true;
            }
        }
        return true;
    }
    false
}

/// A space at the start of the line or after another space is dropped.
pub fn format_spaces(line: &Vec<char>, ind: usize) -> (r: bool)
    requires
        ind < line@.len(),
    ensures
        r == (line@[ind as int] == ' ' && (ind == 0 || line@[ind - 1] == ' ')),
{
    if line[ind] == ' ' {
        if ind != 0 {
            if line[ind - 1] == ' ' {
                return true;
            }
        } else {
            return true;
        }
    }
    false
}

/// A back-quote opens a parenthesis at the start of a word and closes one
/// otherwise.
pub fn format_set(line: &Vec<char>, ind: usize, new_line: &mut Vec<char>) -> (r: bool)
    requires
        ind < line@.len(),
    ensures
        r == (line@[ind as int] == '`'),
        r ==> final(new_line)@ == old(new_line)@ + (if ind == 0 || line@[ind - 1] == ' ' {
            seq!['(', ' ']
        } else {
            seq![' ', ')']
        }),
        !r ==> final(new_line)@ == old(new_line)@,
{
    if line[ind] == '`' {
        if ind == 0 || line[ind - 1] == ' ' {
            new_line.push('(');
            new_line.push(' ');
        } else {
            new_line.push(' ');
            new_line.push(')');
        }
        return true;
    }
    false
}

/// An operator character becomes a word of its own.
pub fn format_pat(line: &Vec<char>, ind: usize, new_line: &mut Vec<char>) -> (r: bool)
    requires
        ind < line@.len(),
    ensures
        r == (pat_flag(line@[ind as int]) is Some),
        r ==> final(new_line)@ == old(new_line)@ + pat_piece(line@, ind as int),
        !r ==> final(new_line)@ == old(new_line)@,
{
    let pat: [(char, bool); 7] = [
        ('&', true),
        ('|', true),
        (';', false),
        ('<', false),
        ('>', true),
        ('(', false),
        (')', false),
    ];
    let ghost table = seq![('&', true), ('|', true), (';', false), ('<', false), ('>', true), ('(', false), (')', false)];
    assert(pat@ == table);
    let c = line[ind];
    let mut k: usize = 0;
    while k < 7
        invariant
            k <= 7,
            pat@ == table,
            table == seq![('&', true), ('|', true), (';', false), ('<', false), ('>', true), ('(', false), (')', false)],
            c == line@[ind as int],
            ind < line@.len(),
            new_line@ == old(new_line)@,
            forall|m: int| 0 <= m < k ==> table[m].0 != c,
        decreases 7 - k,
    {
        let (x, y) = pat[k];
        assert(table[k as int] == (x, y));
        assert(table[0] == ('&', true) && table[1] == ('|', true) && table[2] == (';', false)
            && table[3] == ('<', false) && table[4] == ('>', true) && table[5] == ('(', false)
            && table[6] == (')', false));
        if c == x {
            assert(pat_flag(c) == Some(y)) by {
                if k == 0 {
                } else if k == 1 {
                } else if k == 2 {
                } else if k == 3 {
                } else if k == 4 {
                } else if k == 5 {
                } else {
                }
            }
            if ind != 0 {
                if line[ind - 1] != ' ' && line[ind - 1] != x {
                    new_line.push(' ');
                }
            }
            new_line.push(c);
            if ind != line.len() - 1 {
                if line[ind + 1] != ' ' && (!y || line[ind + 1] != x) {
                    new_line.push(' ');
                }
            }
            assert(new_line@ == old(new_line)@ + pat_piece(line@, ind as int));
            return true;
        }
        k += 1;
    }
    assert(table[0].0 != c && table[1].0 != c && table[2].0 != c && table[3].0 != c && table[4].0
        != c && table[5].0 != c && table[6].0 != c);
    false
}

/// Reformats a command line: the new line and the positions (in characters)
/// of the placeholders that stand for spaces inside words.
pub fn format_encode(line: &str) -> (r: (Vec<char>, Vec<usize>, bool))
    ensures
        (r.0@, r.1@) == encode(line@),
        r.2 == enc_upto(line@, line@.len()).quoted,
{
    let line = chars_of(line);
    let mut new_line: Vec<char> = Vec::new();
    let mut special_spaces: Vec<usize> = Vec::new();
    let mut c = false;
    let mut cont = false;
    let mut done = false;
    let mut i: usize = 0;
    while i < line.len() && !done
        invariant
            i <= line@.len(),
            enc_upto(line@, i as nat) == (EncState {
                out: new_line@,
                spaces: special_spaces@,
                quoted: c,
                skip: cont,
                done,
            }),
        decreases line@.len() - i,
    {
        proof {
            lemma_enc_bounds(line@, i as nat);
        }
        let ghost st = enc_upto(line@, i as nat);
        if cont {
            cont = false;
        } else if line[i] == '"' {
            c = !c;
        } else if c {
            if line[i] == ' ' {
                format_special_spaces(&mut new_line, &mut special_spaces);
            } else {
                new_line.push(line[i]);
            }
        } else if line[i] == '#' {
            done = true;
        } else {
            let mut stop = format_special(&line, i, &mut new_line, &mut special_spaces, &mut cont);
            if !stop {
                stop = format_spaces(&line, i);
            }
            if !stop {
                stop = format_set(&line, i, &mut new_line);
            }
            if !stop {
                stop = format_pat(&line, i, &mut new_line);
            }
            if !stop {
                new_line.push(line[i]);
            }
            assert(unquoted_step(line@, i as int, st) == (EncState {
                out: new_line@,
                spaces: special_spaces@,
                quoted: c,
                skip: cont,
                done,
            }));
        }
        i += 1;
    }
    proof {
        if done {
            lemma_enc_done(line@, i as nat, line@.len());
        }
    }
    if c {
        let mut f: Vec<char> = Vec::new();
        f.push('f');
        f.push('a');
        f.push('l');
        f.push('s');
        f.push('e');
        return (f, special_spaces, true);
    }
    (new_line, special_spaces, false)
}

/// Total number of characters of a list of words.
pub open spec fn total_len(ws: Seq<Seq<char>>) -> nat
    decreases ws.len(),
{
    if ws.len() == 0 {
        0
    } else {
        total_len(ws.drop_last()) + ws.last().len()
    }
}

proof fn lemma_total_len_concat(a: Seq<Seq<char>>, b: Seq<Seq<char>>)
    ensures
        total_len(a + b) == total_len(a) + total_len(b),
    decreases b.len(),
{
    if b.len() > 0 {
        lemma_total_len_concat(a, b.drop_last());
        assert((a + b).drop_last() == a + b.drop_last());
    } else {
        assert(a + b == a);
    }
}

proof fn lemma_split_bound(s: Seq<char>, cur: Seq<char>)
    ensures
        total_len(split_ws_from(s, cur)) + split_ws_from(s, cur).len() <= 2 * (s.len()
            + cur.len()),
    decreases s.len(),
{
    if s.len() == 0 {
        if cur.len() > 0 {
            assert(seq![cur].drop_last() == Seq::<Seq<char>>::empty());
            assert(seq![cur].last() == cur);
            assert(total_len(Seq::<Seq<char>>::empty()) == 0);
            assert(total_len(seq![cur]) == cur.len());
        }
    } else if is_ws(s[0]) {
        lemma_split_bound(s.drop_first(), seq![]);
        let head: Seq<Seq<char>> = if cur.len() > 0 {
            seq![cur]
        } else {
            seq![]
        };
        if cur.len() > 0 {
            assert(head.drop_last() == Seq::<Seq<char>>::empty());
            assert(head.last() == cur);
            assert(total_len(Seq::<Seq<char>>::empty()) == 0);
            assert(total_len(head) == cur.len());
        } else {
            assert(total_len(head) == 0);
        }
        lemma_total_len_concat(head, split_ws_from(s.drop_first(), seq![]));
        assert(split_ws_from(s, cur) == head + split_ws_from(s.drop_first(), seq![]));
    } else {
        lemma_split_bound(s.drop_first(), cur.push(s[0]));
    }
}

proof fn lemma_dec_words_j(ws: Seq<Seq<char>>, sp: Seq<usize>)
    ensures
        dec_words(ws, sp).j == total_len(ws) + ws.len(),
        dec_words(ws, sp).words.len() == ws.len(),
    decreases ws.len(),
{
    if ws.len() > 0 {
        lemma_dec_words_j(ws.drop_last(), sp);
    }
}

/// Puts the placeholders back as spaces: the placeholder offsets are matched
/// against a character count that counts one separator between words.
pub fn decode(args: &Vec<Vec<char>>, special_spaces: &Vec<usize>) -> (r: Vec<String>)
    requires
        total_len(args@.map_values(|w: Vec<char>| w@)) + args@.len() <= usize::MAX,
    ensures
        r@.map_values(|s: String| s@) == dec_words(
            args@.map_values(|w: Vec<char>| w@),
            special_spaces@,
        ).words,
{
    let ghost ws = args@.map_values(|w: Vec<char>| w@);
    let mut new_args: Vec<String> = Vec::new();
    let mut x: usize = 0;
    let mut j: usize = 0;
    let mut k: usize = 0;
    while k < args.len()
        invariant
            k <= args@.len(),
            ws == args@.map_values(|w: Vec<char>| w@),
            total_len(ws) + ws.len() <= usize::MAX,
            x <= special_spaces@.len(),
            new_args@.map_values(|s: String| s@) == dec_words(ws.take(k as int), special_spaces@).words,
            x == dec_words(ws.take(k as int), special_spaces@).x,
            j == dec_words(ws.take(k as int), special_spaces@).j,
        decreases args@.len() - k,
    {
        let ghost pre = ws.take(k as int);
        assert(ws.take(k + 1).drop_last() == pre);
        assert(ws.take(k + 1).last() == args@[k as int]@);
        proof {
            lemma_dec_words_j(pre, special_spaces@);
            lemma_dec_words_j(ws.take(k + 1), special_spaces@);
            lemma_total_len_concat(ws.take(k + 1), ws.skip(k + 1));
            assert(ws.take(k + 1) + ws.skip(k + 1) == ws);
        }
        let arg = &args[k];
        let ghost j0 = j;
        let ghost x0 = x;
        let mut aux: Vec<char> = Vec::new();
        let mut m: usize = 0;
        while m < arg.len()
            invariant
                m <= arg@.len(),
                j == j0 + m,
                j0 + arg@.len() + 1 <= usize::MAX,
                x <= special_spaces@.len(),
                (aux@, x as nat) == dec_chars(arg@.take(m as int), special_spaces@, x0 as nat, j0 as nat),
            decreases arg@.len() - m,
        {
            assert(arg@.take(m + 1).drop_last() == arg@.take(m as int));
            if special_spaces.len() != x && j == special_spaces[x] {
                aux.push(' ');
                x += 1;
            } else {
                aux.push(arg[m]);
            }
            j += 1;
            m += 1;
        }
        assert(arg@.take(arg@.len() as int) == arg@);
        j += 1;
        let ghost old_words = new_args@.map_values(|s: String| s@);
        let sarg = string_of(&aux);
        new_args.push(sarg);
        assert(new_args@.map_values(|s: String| s@) == old_words.push(aux@));
        k += 1;
    }
    assert(ws.take(args@.len() as int) == ws);
    new_args
}

/// Whether a line leaves a double quote open (the line then stands for
/// `false`, and the shell reports an incorrect format).
pub fn format_error(line: &str) -> (r: bool)
    ensures
        r == enc_upto(line@, line@.len()).quoted,
{
    let (_, _, e) = format_encode(line);
    e
}

/// Splits a command line into its arguments.
pub fn format_line(line: String) -> (args: Vec<String>)
    requires
        6 * line@.len() <= usize::MAX,
    ensures
        args@.map_values(|s: String| s@) == format_line_spec(line@),
{
    let (new_line, special_spaces, _) = format_encode(line.as_str());
    let args = split_whitespace(&new_line);
    proof {
        lemma_split_bound(new_line@, seq![]);
        lemma_enc_bounds(line@, line@.len());
    }
    decode(&args, &special_spaces)
}

} // verus!
