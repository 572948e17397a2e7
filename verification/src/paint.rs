//! Terminal colours for the lines the statistic reports.
use vstd::prelude::*;

verus! {

/// The foreground colour of a reported line.
#[derive(Clone, Copy, PartialEq, Eq, Debug)]
pub enum LogColor {
    Green,
    Red,
    Cyan,
}

/// The second digit of the foreground colour code (`3x`).
pub open spec fn color_digit(color: LogColor) -> char {
    match color {
        LogColor::Green => '2',
        LogColor::Red => '1',
        LogColor::Cyan => '6',
    }
}

/// `text` wrapped in the escape codes that select `color` and reset it.
pub open spec fn painted(color: LogColor, text: Seq<char>) -> Seq<char> {
    seq!['\u{1b}', '[', '3', color_digit(color), 'm'] + text + seq!['\u{1b}', '[', '0', 'm']
}

/// Paints `text` with `ansi_term`: `Colour::X.normal().paint(text)` rendered to a string.
/// The contract claims what `ansi_term` 0.12 writes for a style with a foreground colour
/// and no other attribute: the prefix `ESC [ 3 d m`, the text, and the reset `ESC [ 0 m`.
#[verifier::external_body]
pub(crate) fn paint(color: LogColor, text: String) -> (r: String)
    ensures
        r@ == painted(color, text@),
{
    let colour = match color {
        LogColor::Green => ansi_term::Colour::Green,
        LogColor::Red => ansi_term::Colour::Red,
        LogColor::Cyan => ansi_term::Colour::Cyan,
    };
    colour.normal().paint(text).to_string()
}

} // verus!
