use vstd::prelude::*;

verus! {

/// One decimal digit as a character; meaningful for `n < 10`.
pub open spec fn dec_digit(n: nat) -> char
    recommends
        n < 10,
{
    if n == 0 {
        '0'
    } else if n == 1 {
        '1'
    } else if n == 2 {
        '2'
    } else if n == 3 {
        '3'
    } else if n == 4 {
        '4'
    } else if n == 5 {
        '5'
    } else if n == 6 {
        '6'
    } else if n == 7 {
        '7'
    } else if n == 8 {
        '8'
    } else {
        '9'
    }
}

/// The decimal rendering of a number, without leading zeroes (a single
/// zero renders as "0").
pub open spec fn dec_of(n: nat) -> Seq<char>
    decreases n,
{
    if n < 10 {
        seq![dec_digit(n)]
    } else {
        dec_of(n / 10).push(dec_digit(n % 10))
    }
}

/// The ANSI true-color foreground escape sequence for the given color:
/// `ESC [ 38;2;<r>;<g>;<b> m` with each component in decimal.
pub open spec fn fg_escape_of(r: u8, g: u8, b: u8) -> Seq<char> {
    seq!['\u{1b}', '[', '3', '8', ';', '2', ';'] + dec_of(r as nat) + seq![';'] + dec_of(
        g as nat,
    ) + seq![';'] + dec_of(b as nat) + seq!['m']
}

/// The ANSI escape sequence that resets the foreground color: `ESC [ 39 m`.
pub open spec fn reset_escape() -> Seq<char> {
    seq!['\u{1b}', '[', '3', '9', 'm']
}

/// Relies on termion's `color::Rgb::fg_string`: it returns the ANSI true-color
/// foreground sequence `ESC[38;2;<r>;<g>;<b>m`, each component written in
/// decimal without leading zeroes (by numtoa), a function of the three
/// components alone.
#[verifier::external_body]
pub(crate) fn rgb_fg_string(r: u8, g: u8, b: u8) -> (s: String)
    ensures
        s@ == fg_escape_of(r, g, b),
{
    termion::color::Rgb(r, g, b).fg_string()
}

/// Relies on termion's `color::Reset::fg_str`: it returns the constant ANSI
/// sequence `ESC[39m` that restores the default foreground color.
#[verifier::external_body]
pub(crate) fn reset_fg_str() -> (s: &'static str)
    ensures
        s@ == reset_escape(),
{
    termion::color::Reset.fg_str()
}

} // verus!
