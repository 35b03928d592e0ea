//! Colored text through the `colored` crate. Whether escape codes are
//! written depends on the environment and the terminal, so each result is
//! either the plain text or the text wrapped in a color sequence.
use vstd::prelude::*;
use colored::Colorize;

verus! {

/// The escape sequence that selects the foreground color `code`.
pub open spec fn sgr_open(code: Seq<char>) -> Seq<char> {
    seq!['\x1b', '['] + code + seq!['m']
}

/// The escape sequence that resets all attributes.
pub open spec fn sgr_reset() -> Seq<char> {
    seq!['\x1b', '[', '0', 'm']
}

pub open spec fn contains_reset(s: Seq<char>) -> bool {
    exists|i: int| 0 <= i && i + 4 <= s.len() && #[trigger] s.subrange(i, i + 4) == sgr_reset()
}

/// `r` is `s` as `colored` displays it in the color `code`: unchanged when
/// colors are off, else wrapped in the color sequence and a reset (with the
/// inner text unchanged unless it holds a reset of its own).
pub open spec fn painted(r: Seq<char>, s: Seq<char>, code: Seq<char>) -> bool {
    r == s || exists|mid: Seq<char>|
        r == sgr_open(code) + mid + sgr_reset() && (!contains_reset(s) ==> mid == s)
}

pub open spec fn red_code() -> Seq<char> {
    seq!['3', '1']
}

pub open spec fn green_code() -> Seq<char> {
    seq!['3', '2']
}

pub open spec fn yellow_code() -> Seq<char> {
    seq!['3', '3']
}

pub open spec fn cyan_code() -> Seq<char> {
    seq!['3', '6']
}

/// `s.green().to_string()` of `colored`.
#[verifier::external_body]
pub(crate) fn paint_green(s: &str) -> (r: String)
    ensures
        painted(r@, s@, green_code()),
{
    s.green().to_string()
}

/// `s.yellow().to_string()` of `colored`.
#[verifier::external_body]
pub(crate) fn paint_yellow(s: &str) -> (r: String)
    ensures
        painted(r@, s@, yellow_code()),
{
    s.yellow().to_string()
}

/// `s.cyan().to_string()` of `colored`.
#[verifier::external_body]
pub(crate) fn paint_cyan(s: &str) -> (r: String)
    ensures
        painted(r@, s@, cyan_code()),
{
    s.cyan().to_string()
}

/// `s.red().to_string()` of `colored`.
#[verifier::external_body]
pub(crate) fn paint_red(s: &str) -> (r: String)
    ensures
        painted(r@, s@, red_code()),
{
    s.red().to_string()
}

} // verus!
