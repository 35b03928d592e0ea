//! Character-level helpers shared by the line formatter, the parser and the
//! history expansion: whitespace, trimming, splitting, decimal numbers.
use vstd::prelude::*;

verus! {

/// Unicode `White_Space`, the property that std's `char::is_whitespace`,
/// `str::trim` and `str::split_whitespace` go by.
pub open spec fn is_ws(c: char) -> bool {
    let u = c as u32;
    ||| (0x9 <= u && u <= 0xd)
    ||| u == 0x20
    ||| u == 0x85
    ||| u == 0xa0
    ||| u == 0x1680
    ||| (0x2000 <= u && u <= 0x200a)
    ||| u == 0x2028
    ||| u == 0x2029
    ||| u == 0x202f
    ||| u == 0x205f
    ||| u == 0x3000
}

pub fn is_whitespace(c: char) -> (b: bool)
    ensures
        b == is_ws(c),
{
    let u = c as u32;
    (0x9 <= u && u <= 0xd) || u == 0x20 || u == 0x85 || u == 0xa0 || u == 0x1680 || (0x2000 <= u
        && u <= 0x200a) || u == 0x2028 || u == 0x2029 || u == 0x202f || u == 0x205f || u == 0x3000
}

/// Appends one character to a `String` (std's `String::push`).
#[verifier::external_body]
pub(crate) fn push_char(s: &mut String, c: char)
    ensures
        final(s)@ == old(s)@.push(c),
{
    s.push(c);
}

/// The characters of a string slice, in order.
pub fn chars_of(s: &str) -> (v: Vec<char>)
    ensures
        v@ == s@,
{
    let mut v: Vec<char> = Vec::new();
    for c in it: s.chars()
        invariant
            v@ == it.seq().take(it.index()),
            it.seq() == s@,
    {
        v.push(c);
    }
    v
}

/// The string made of the given characters.
pub fn string_of(v: &Vec<char>) -> (s: String)
    ensures
        s@ == v@,
{
    let mut s = String::new();
    let mut i: usize = 0;
    while i < v.len()
        invariant
            i <= v.len(),
            s@ == v@.take(i as int),
        decreases v.len() - i,
    {
        push_char(&mut s, v[i]);
        i += 1;
        assert(v@.take(i as int) == v@.take((i - 1) as int).push(v@[i - 1]));
    }
    assert(v@.take(v.len() as int) == v@);
    s
}

/// Appends the characters of `t` to `v`.
pub fn extend_chars(v: &mut Vec<char>, t: &Vec<char>)
    ensures
        final(v)@ == old(v)@ + t@,
{
    let mut i: usize = 0;
    while i < t.len()
        invariant
            i <= t.len(),
            v@ == old(v)@ + t@.take(i as int),
        decreases t.len() - i,
    {
        v.push(t[i]);
        i += 1;
        assert(t@.take(i as int) == t@.take((i - 1) as int).push(t@[i - 1]));
    }
    assert(t@.take(t.len() as int) == t@);
}

/// Leading whitespace removed.
pub open spec fn trim_start(s: Seq<char>) -> Seq<char>
    decreases s.len(),
{
    if s.len() > 0 && is_ws(s[0]) {
        trim_start(s.drop_first())
    } else {
        s
    }
}

/// Trailing whitespace removed.
pub open spec fn trim_end(s: Seq<char>) -> Seq<char>
    decreases s.len(),
{
    if s.len() > 0 && is_ws(s.last()) {
        trim_end(s.drop_last())
    } else {
        s
    }
}

/// Leading and trailing whitespace removed (std's `str::trim`).
pub open spec fn trim(s: Seq<char>) -> Seq<char> {
    trim_end(trim_start(s))
}

/// `v` with leading and trailing whitespace removed.
pub fn trim_chars(v: &Vec<char>) -> (r: Vec<char>)
    ensures
        r@ == trim(v@),
{
    let mut lo: usize = 0;
    assert(v@.skip(0) == v@);
    while lo < v.len() && is_whitespace(v[lo])
        invariant
            lo <= v.len(),
            trim_start(v@) == trim_start(v@.skip(lo as int)),
        decreases v.len() - lo,
    {
        assert(v@.skip(lo as int).drop_first() == v@.skip(lo + 1));
        lo += 1;
    }
    let ghost s = v@.skip(lo as int);
    assert(trim_start(v@) == s);
    let mut hi: usize = v.len();
    while hi > lo && is_whitespace(v[hi - 1])
        invariant
            lo <= hi <= v.len(),
            s == v@.skip(lo as int),
            trim_end(s) == trim_end(v@.subrange(lo as int, hi as int)),
        decreases hi,
    {
        assert(v@.subrange(lo as int, hi as int).drop_last() == v@.subrange(lo as int, hi - 1));
        hi -= 1;
    }
    let mut r: Vec<char> = Vec::new();
    let mut i: usize = lo;
    while i < hi
        invariant
            lo <= i <= hi,
            hi <= v.len(),
            r@ == v@.subrange(lo as int, i as int),
        decreases hi - i,
    {
        r.push(v[i]);
        i += 1;
        assert(v@.subrange(lo as int, i as int) == v@.subrange(lo as int, i - 1).push(v@[i - 1]));
    }
    assert(v@.skip(lo as int) == v@.subrange(lo as int, v.len() as int));
    r
}

/// The words that splitting `s` at whitespace gives, the word in progress
/// being `cur` (std's `str::split_whitespace`: maximal non-empty runs of
/// non-whitespace characters, in order).
pub open spec fn split_ws_from(s: Seq<char>, cur: Seq<char>) -> Seq<Seq<char>>
    decreases s.len(),
{
    if s.len() == 0 {
        if cur.len() > 0 {
            seq![cur]
        } else {
            seq![]
        }
    } else if is_ws(s[0]) {
        (if cur.len() > 0 {
            seq![cur]
        } else {
            seq![]
        }) + split_ws_from(s.drop_first(), seq![])
    } else {
        split_ws_from(s.drop_first(), cur.push(s[0]))
    }
}

pub open spec fn split_ws(s: Seq<char>) -> Seq<Seq<char>> {
    split_ws_from(s, seq![])
}

/// The whitespace-separated words of `v`.
pub fn split_whitespace(v: &Vec<char>) -> (r: Vec<Vec<char>>)
    ensures
        r@.map_values(|w: Vec<char>| w@) == split_ws(v@),
{
    let mut r: Vec<Vec<char>> = Vec::new();
    let mut cur: Vec<char> = Vec::new();
    let mut i: usize = 0;
    assert(v@.skip(0) == v@);
    assert(r@.map_values(|w: Vec<char>| w@) == Seq::<Seq<char>>::empty());
    assert(Seq::<Seq<char>>::empty() + split_ws_from(v@, cur@) == split_ws_from(v@, cur@));
    while i < v.len()
        invariant
            i <= v.len(),
            r@.map_values(|w: Vec<char>| w@) + split_ws_from(v@.skip(i as int), cur@) == split_ws(
                v@,
            ),
        decreases v.len() - i,
    {
        let ghost rest = v@.skip(i as int);
        assert(rest.drop_first() == v@.skip(i + 1));
        let ghost old_r = r@.map_values(|w: Vec<char>| w@);
        let ghost old_cur = cur@;
        if is_whitespace(v[i]) {
            let ghost tail = split_ws_from(rest.drop_first(), seq![]);
            if cur.len() > 0 {
                let w = cur;
                cur = Vec::new();
                r.push(w);
                assert(r@.map_values(|w: Vec<char>| w@) == old_r + seq![w@]);
                assert(split_ws_from(rest, old_cur) == seq![old_cur] + tail);
                assert(old_r + (seq![old_cur] + tail) == (old_r + seq![old_cur]) + tail);
            } else {
                assert(split_ws_from(rest, old_cur) == Seq::<Seq<char>>::empty() + tail);
                assert(Seq::<Seq<char>>::empty() + tail == tail);
            }
            assert(cur@ == Seq::<char>::empty());
        } else {
            cur.push(v[i]);
            assert(split_ws_from(rest, old_cur) == split_ws_from(rest.drop_first(), cur@));
        }
        i += 1;
    }
    let ghost old_r = r@.map_values(|w: Vec<char>| w@);
    assert(v@.skip(v.len() as int).len() == 0);
    if cur.len() > 0 {
        let ghost c = cur@;
        r.push(cur);
        assert(r@.map_values(|w: Vec<char>| w@) == old_r + seq![c]);
    } else {
        assert(old_r + Seq::<Seq<char>>::empty() == old_r);
    }
    r
}

/// Decimal value of a sequence of ASCII digits.
pub open spec fn digits_value(d: Seq<char>) -> nat
    decreases d.len(),
{
    if d.len() == 0 {
        0
    } else {
        digits_value(d.drop_last()) * 10 + ((d.last() as u32) - ('0' as u32)) as nat
    }
}

pub open spec fn is_digit(c: char) -> bool {
    '0' as u32 <= c as u32 && c as u32 <= '9' as u32
}

pub open spec fn all_digits(d: Seq<char>) -> bool {
    forall|i: int| 0 <= i < d.len() ==> is_digit(#[trigger] d[i])
}

/// What std's `str::parse::<usize>` gives: an optional `+`, then one or more
/// ASCII digits whose value fits in `usize`.
pub open spec fn parse_usize_spec(s: Seq<char>) -> Option<usize> {
    let d = unsigned_body(s);
    if d.len() > 0 && all_digits(d) && digits_value(d) <= usize::MAX {
        Some(digits_value(d) as usize)
    } else {
        None
    }
}

proof fn lemma_digits_value_mono(d: Seq<char>, i: int)
    requires
        0 <= i <= d.len(),
        all_digits(d),
    ensures
        digits_value(d.take(i)) <= digits_value(d),
    decreases d.len() - i,
{
    if i < d.len() {
        lemma_digits_value_mono(d, i + 1);
        assert(d.take(i + 1).drop_last() == d.take(i));
        assert(is_digit(d[i]));
    } else {
        assert(d.take(i) == d);
    }
}

/// The digits part of a number: `s` without a leading `+`.
pub open spec fn unsigned_body(s: Seq<char>) -> Seq<char> {
    if s.len() > 0 && s[0] == '+' {
        s.drop_first()
    } else {
        s
    }
}

/// Parses `v[lo..hi]` as std's `str::parse::<usize>` does.
pub fn parse_usize(v: &Vec<char>, lo: usize, hi: usize) -> (r: Option<usize>)
    requires
        lo <= hi <= v.len(),
    ensures
        r == parse_usize_spec(v@.subrange(lo as int, hi as int)),
{
    let ghost s = v@.subrange(lo as int, hi as int);
    let mut start = lo;
    if lo < hi && v[lo] == '+' {
        start = lo + 1;
    }
    let ghost d = v@.subrange(start as int, hi as int);
    assert(d == unsigned_body(s));
    if start == hi {
        return None;
    }
    let mut acc: usize = 0;
    let mut i: usize = start;
    while i < hi
        invariant
            start <= i <= hi,
            hi <= v.len(),
            d == v@.subrange(start as int, hi as int),
            d == unsigned_body(s),
            s == v@.subrange(lo as int, hi as int),
            d.len() > 0,
            all_digits(d.take(i - start)),
            acc as nat == digits_value(d.take(i - start)),
        decreases hi - i,
    {
        let c = v[i];
        assert(d.take(i - start + 1).drop_last() == d.take(i - start));
        if !(('0' as u32) <= (c as u32) && (c as u32) <= ('9' as u32)) {
            assert(!is_digit(d[i - start]));
            assert(!all_digits(d));
            assert(parse_usize_spec(s) is None);
            return None;
        }
        let dig = (c as u32 - '0' as u32) as usize;
        assert(d.take(i - start + 1).last() == c);
        assert(digits_value(d.take(i - start + 1)) == acc * 10 + dig);
        match acc.checked_mul(10) {
            Some(m) => match m.checked_add(dig) {
                Some(n) => {
                    acc = n;
                },
                None => {
                    proof {
                        if all_digits(d) {
                            lemma_digits_value_mono(d, i - start + 1);
                        }
                    }
                    assert(parse_usize_spec(s) is None);
                    return None;
                },
            },
            None => {
                proof {
                    if all_digits(d) {
                        lemma_digits_value_mono(d, i - start + 1);
                    }
                }
                assert(parse_usize_spec(s) is None);
                return None;
            },
        }
        i += 1;
        assert(all_digits(d.take(i - start)));
    }
    assert(d.take(hi - start) == d);
    Some(acc)
}

/// The decimal digit for `n < 10`.
pub open spec fn digit_char(n: nat) -> char {
    ((n + ('0' as u32)) as u32) as char
}

/// Decimal representation of `n`, as `to_string` gives it.
pub open spec fn decimal(n: nat) -> Seq<char>
    decreases n,
{
    if n < 10 {
        seq![digit_char(n)]
    } else {
        decimal(n / 10).push(digit_char(n % 10))
    }
}

/// Decimal representation of `n`.
pub fn decimal_chars(n: usize) -> (r: Vec<char>)
    ensures
        r@ == decimal(n as nat),
    decreases n,
{
    let d = n % 10;
    let c = if d == 0 {
        '0'
    } else if d == 1 {
        '1'
    } else if d == 2 {
        '2'
    } else if d == 3 {
        '3'
    } else if d == 4 {
        '4'
    } else if d == 5 {
        '5'
    } else if d == 6 {
        '6'
    } else if d == 7 {
        '7'
    } else if d == 8 {
        '8'
    } else {
        '9'
    };
    assert(c == digit_char(n as nat % 10));
    if n < 10 {
        let mut r = Vec::new();
        r.push(c);
        r
    } else {
        let mut r = decimal_chars(n / 10);
        r.push(c);
        r
    }
}

/// Whether `s` is the word `lit`.
pub fn eq_lit(s: &String, lit: &str) -> (b: bool)
    ensures
        b == (s@ == lit@),
{
    let a = chars_of(s.as_str());
    let w = chars_of(lit);
    if a.len() != w.len() {
        return false;
    }
    let mut i: usize = 0;
    while i < a.len()
        invariant
            i <= a@.len(),
            a@.len() == w@.len(),
            a@ == s@,
            w@ == lit@,
            forall|k: int| 0 <= k < i ==> a@[k] == w@[k],
        decreases a@.len() - i,
    {
        if a[i] != w[i] {
            assert(a@[i as int] != w@[i as int]);
            return false;
        }
        i += 1;
    }
    assert(a@ =~= w@);
    true
}

/// Copies of the strings of a slice.
pub fn to_owned_vec(a: &[String]) -> (v: Vec<String>)
    ensures
        v@.map_values(|s: String| s@) == a@.map_values(|s: String| s@),
{
    let mut v: Vec<String> = Vec::new();
    let mut i: usize = 0;
    while i < a.len()
        invariant
            i <= a@.len(),
            v@.map_values(|s: String| s@) == a@.take(i as int).map_values(|s: String| s@),
        decreases a@.len() - i,
    {
        let ghost old_v = v@;
        let c = a[i].clone();
        v.push(c);
        assert(a@.take(i + 1) == a@.take(i as int).push(a@[i as int]));
        assert(v@ == old_v.push(c));
        assert(v@.map_values(|s: String| s@) == old_v.map_values(|s: String| s@).push(c@));
        assert(a@.take(i + 1).map_values(|s: String| s@) == a@.take(i as int).map_values(
            |s: String| s@,
        ).push(a@[i as int]@));
        i += 1;
    }
    assert(a@.take(a@.len() as int) == a@);
    v
}

} // verus!
