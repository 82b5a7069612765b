//! Terminal escape sequences, as character sequences.
//!
//! The spec functions here state each sequence exactly; the executable
//! functions obtain it from the terminal library the renderer is built on.

use vstd::prelude::*;

use crate::color::Color;

verus! {

/// The character of one decimal digit value.
pub open spec fn digit_char(d: int) -> char {
    if d == 0 { '0' } else if d == 1 { '1' } else if d == 2 { '2' } else if d == 3 { '3' }
    else if d == 4 { '4' } else if d == 5 { '5' } else if d == 6 { '6' } else if d == 7 { '7' }
    else if d == 8 { '8' } else { '9' }
}

/// A non-negative number in decimal, without leading zeroes.
pub open spec fn dec_digits(n: int) -> Seq<char>
    decreases n,
{
    if n < 0 {
        Seq::empty()
    } else if n < 10 {
        seq![digit_char(n)]
    } else {
        dec_digits(n / 10).push(digit_char(n % 10))
    }
}

/// The control-sequence introducer every sequence starts with.
pub open spec fn csi() -> Seq<char> {
    seq!['\u{1b}', '[']
}

/// Position the cursor at column `x`, row `y`, both one-based.
pub open spec fn goto_seq(x: int, y: int) -> Seq<char> {
    csi() + dec_digits(y) + seq![';'] + dec_digits(x) + seq!['H']
}

/// Clear the row the cursor is on.
pub open spec fn clear_line_seq() -> Seq<char> {
    csi() + seq!['2', 'K']
}

/// Enable bold text.
pub open spec fn bold_seq() -> Seq<char> {
    csi() + seq!['1', 'm']
}

/// Disable bold and faint text.
pub open spec fn no_faint_seq() -> Seq<char> {
    csi() + seq!['2', '2', 'm']
}

/// Enable italic text.
pub open spec fn italic_seq() -> Seq<char> {
    csi() + seq!['3', 'm']
}

/// Disable italic text.
pub open spec fn no_italic_seq() -> Seq<char> {
    csi() + seq!['2', '3', 'm']
}

/// Enable underlined text.
pub open spec fn underline_seq() -> Seq<char> {
    csi() + seq!['4', 'm']
}

/// Disable underlined text.
pub open spec fn no_underline_seq() -> Seq<char> {
    csi() + seq!['2', '4', 'm']
}

/// Enable reverse video.
pub open spec fn invert_seq() -> Seq<char> {
    csi() + seq!['7', 'm']
}

/// Disable reverse video.
pub open spec fn no_invert_seq() -> Seq<char> {
    csi() + seq!['2', '7', 'm']
}

/// Set the foreground to a true color: `38;2;{r};{g};{b}`.
pub open spec fn fg_rgb_seq(c: Color) -> Seq<char> {
    csi() + seq!['3', '8', ';', '2', ';'] + dec_digits(c.r as int) + seq![';']
        + dec_digits(c.g as int) + seq![';'] + dec_digits(c.b as int) + seq!['m']
}

/// Set the background to a true color: `48;2;{r};{g};{b}`.
pub open spec fn bg_rgb_seq(c: Color) -> Seq<char> {
    csi() + seq!['4', '8', ';', '2', ';'] + dec_digits(c.r as int) + seq![';']
        + dec_digits(c.g as int) + seq![';'] + dec_digits(c.b as int) + seq!['m']
}

/// Reset the foreground to its default.
pub open spec fn fg_reset_seq() -> Seq<char> {
    csi() + seq!['3', '9', 'm']
}

/// Relies on termion::cursor::Goto: it writes `ESC [ y ; x H` with both
/// coordinates in decimal, and is one-based.
#[verifier::external_body]
pub(crate) fn goto(x: u16, y: u16) -> (r: Vec<char>)
    requires
        x >= 1,
        y >= 1,
    ensures
        r@ == goto_seq(x as int, y as int),
{
    format!("{}", termion::cursor::Goto(x, y)).chars().collect()
}

/// Relies on termion::clear::CurrentLine: the constant sequence `ESC [ 2 K`.
#[verifier::external_body]
pub(crate) fn clear_line() -> (r: Vec<char>)
    ensures
        r@ == clear_line_seq(),
{
    format!("{}", termion::clear::CurrentLine).chars().collect()
}

/// Relies on termion::style::Bold: the constant sequence `ESC [ 1 m`.
#[verifier::external_body]
pub(crate) fn bold() -> (r: Vec<char>)
    ensures
        r@ == bold_seq(),
{
    format!("{}", termion::style::Bold).chars().collect()
}

/// Relies on termion::style::NoFaint: the constant sequence `ESC [ 2 2 m`.
#[verifier::external_body]
pub(crate) fn no_faint() -> (r: Vec<char>)
    ensures
        r@ == no_faint_seq(),
{
    format!("{}", termion::style::NoFaint).chars().collect()
}

/// Relies on termion::style::Italic: the constant sequence `ESC [ 3 m`.
#[verifier::external_body]
pub(crate) fn italic() -> (r: Vec<char>)
    ensures
        r@ == italic_seq(),
{
    format!("{}", termion::style::Italic).chars().collect()
}

/// Relies on termion::style::NoItalic: the constant sequence `ESC [ 2 3 m`.
#[verifier::external_body]
pub(crate) fn no_italic() -> (r: Vec<char>)
    ensures
        r@ == no_italic_seq(),
{
    format!("{}", termion::style::NoItalic).chars().collect()
}

/// Relies on termion::style::Underline: the constant sequence `ESC [ 4 m`.
#[verifier::external_body]
pub(crate) fn underline() -> (r: Vec<char>)
    ensures
        r@ == underline_seq(),
{
    format!("{}", termion::style::Underline).chars().collect()
}

/// Relies on termion::style::NoUnderline: the constant sequence `ESC [ 2 4 m`.
#[verifier::external_body]
pub(crate) fn no_underline() -> (r: Vec<char>)
    ensures
        r@ == no_underline_seq(),
{
    format!("{}", termion::style::NoUnderline).chars().collect()
}

/// Relies on termion::style::Invert: the constant sequence `ESC [ 7 m`.
#[verifier::external_body]
pub(crate) fn invert() -> (r: Vec<char>)
    ensures
        r@ == invert_seq(),
{
    format!("{}", termion::style::Invert).chars().collect()
}

/// Relies on termion::style::NoInvert: the constant sequence `ESC [ 2 7 m`.
#[verifier::external_body]
pub(crate) fn no_invert() -> (r: Vec<char>)
    ensures
        r@ == no_invert_seq(),
{
    format!("{}", termion::style::NoInvert).chars().collect()
}

/// Relies on termion::color::Fg with an Rgb color: it writes
/// `ESC [ 38 ; 2 ; r ; g ; b m` with the channels in decimal.
#[verifier::external_body]
pub(crate) fn fg_rgb(c: Color) -> (r: Vec<char>)
    ensures
        r@ == fg_rgb_seq(c),
{
    format!("{}", termion::color::Fg(termion::color::Rgb(c.r, c.g, c.b))).chars().collect()
}

/// Relies on termion::color::Bg with an Rgb color: it writes
/// `ESC [ 48 ; 2 ; r ; g ; b m` with the channels in decimal.
#[verifier::external_body]
pub(crate) fn bg_rgb(c: Color) -> (r: Vec<char>)
    ensures
        r@ == bg_rgb_seq(c),
{
    format!("{}", termion::color::Bg(termion::color::Rgb(c.r, c.g, c.b))).chars().collect()
}

/// Relies on termion::color::Fg with Reset: the constant sequence
/// `ESC [ 3 9 m`.
#[verifier::external_body]
pub(crate) fn fg_reset() -> (r: Vec<char>)
    ensures
        r@ == fg_reset_seq(),
{
    format!("{}", termion::color::Fg(termion::color::Reset)).chars().collect()
}

} // verus!
