//! Terminal colouring of message fragments, through the `colored` crate.
//!
//! Whether `colored` emits escape sequences depends on the environment of the process
//! (`CLICOLOR`, `CLICOLOR_FORCE`, `NO_COLOR`, a manual override): each function below
//! returns either the text itself or the text wrapped in its escape sequences.
use vstd::prelude::*;
use colored::Colorize;

verus! {

/// The text wrapped in the escape sequence that starts the style `code`, and the one that
/// resets all styles.
pub open spec fn styled(text: Seq<char>, code: Seq<char>) -> Seq<char> {
    seq!['\x1b', '['] + code + seq!['m'] + text + seq!['\x1b', '[', '0', 'm']
}

/// `out` is a rendering of `text` in the style `code`: the plain text when colours are
/// off, the styled text when they are on. Text that itself holds an escape character is
/// rendered in ways not described here.
pub open spec fn painted(text: Seq<char>, code: Seq<char>, out: Seq<char>) -> bool {
    !text.contains('\x1b') ==> (out == text || out == styled(text, code))
}

/// `colored`: the `Display` rendering of `text.bright_blue().bold()` (style code `1;94`).
#[verifier::external_body]
pub(crate) fn bright_blue_bold(text: &str) -> (r: String)
    ensures
        painted(text@, seq!['1', ';', '9', '4'], r@),
{
    format!("{}", text.bright_blue().bold())
}

/// `colored`: the `Display` rendering of `text.white().bold()` (style code `1;37`).
#[verifier::external_body]
pub(crate) fn white_bold(text: &str) -> (r: String)
    ensures
        painted(text@, seq!['1', ';', '3', '7'], r@),
{
    format!("{}", text.white().bold())
}

/// `colored`: the `Display` rendering of `text.green().bold()` (style code `1;32`).
#[verifier::external_body]
pub(crate) fn green_bold(text: &str) -> (r: String)
    ensures
        painted(text@, seq!['1', ';', '3', '2'], r@),
{
    format!("{}", text.green().bold())
}

/// `colored`: the `Display` rendering of `text.red().bold()` (style code `1;31`).
#[verifier::external_body]
pub(crate) fn red_bold(text: &str) -> (r: String)
    ensures
        painted(text@, seq!['1', ';', '3', '1'], r@),
{
    format!("{}", text.red().bold())
}

/// `colored`: the `Display` rendering of `text.bright_black().bold()` (style code `1;90`).
#[verifier::external_body]
pub(crate) fn bright_black_bold(text: &str) -> (r: String)
    ensures
        painted(text@, seq!['1', ';', '9', '0'], r@),
{
    format!("{}", text.bright_black().bold())
}

/// `colored`: the `Display` rendering of `text.bright_red().bold()` (style code `1;91`).
#[verifier::external_body]
pub(crate) fn bright_red_bold(text: &str) -> (r: String)
    ensures
        painted(text@, seq!['1', ';', '9', '1'], r@),
{
    format!("{}", text.bright_red().bold())
}

/// `colored`: the `Display` rendering of `text.magenta().bold()` (style code `1;35`).
#[verifier::external_body]
pub(crate) fn magenta_bold(text: &str) -> (r: String)
    ensures
        painted(text@, seq!['1', ';', '3', '5'], r@),
{
    format!("{}", text.magenta().bold())
}

/// `colored`: the `Display` rendering of `text.yellow().bold()` (style code `1;33`).
#[verifier::external_body]
pub(crate) fn yellow_bold(text: &str) -> (r: String)
    ensures
        painted(text@, seq!['1', ';', '3', '3'], r@),
{
    format!("{}", text.yellow().bold())
}

/// `colored`: the `Display` rendering of `text.cyan().bold()` (style code `1;36`).
#[verifier::external_body]
pub(crate) fn cyan_bold(text: &str) -> (r: String)
    ensures
        painted(text@, seq!['1', ';', '3', '6'], r@),
{
    format!("{}", text.cyan().bold())
}

/// `colored`: the `Display` rendering of `text.green()` (style code `32`).
#[verifier::external_body]
pub(crate) fn green(text: &str) -> (r: String)
    ensures
        painted(text@, seq!['3', '2'], r@),
{
    format!("{}", text.green())
}

} // verus!
