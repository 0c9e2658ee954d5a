//! Terminal styling of prefixes. The recognised modifier vocabulary and
//! the `auto` palette are library logic; the actual ANSI rendering is
//! delegated to the `colored` crate, whose output also depends on the
//! environment and is therefore left unspecified.

use colored::Colorize;
use vstd::prelude::*;
use crate::text::{eq_str, split_str, spec_split};

verus! {

/// The styling of a prefix could not be applied.
#[derive(Debug)]
pub enum ColorError {
    /// A piece of the dot-separated color spec is not a recognised modifier.
    UnknownModifier(String),
}

/// The `colored` crate's styled-string type, carried opaquely.
#[verifier::external_type_specification]
#[verifier::external_body]
pub struct ExColoredString(colored::ColoredString);

/// Relies on `Colorize::clear` for `str`: a styled string with no styling.
#[verifier::external_body]
fn colored_plain(s: &str) -> colored::ColoredString {
    s.clear()
}

/// Relies on `Colorize::clear` for `ColoredString`: drops all styling.
#[verifier::external_body]
fn colored_reset(cs: colored::ColoredString) -> colored::ColoredString {
    cs.clear()
}

/// Relies on `Colorize::color` and `From<&str> for Color`: sets the
/// foreground color named by `name`.
#[verifier::external_body]
fn colored_fg(cs: colored::ColoredString, name: &str) -> colored::ColoredString {
    cs.color(name)
}

/// Relies on `Colorize::on_color` and `From<&str> for Color`: sets the
/// background color named by `name`.
#[verifier::external_body]
fn colored_bg(cs: colored::ColoredString, name: &str) -> colored::ColoredString {
    cs.on_color(name)
}

/// Relies on `Colorize::bold`.
#[verifier::external_body]
fn colored_bold(cs: colored::ColoredString) -> colored::ColoredString {
    cs.bold()
}

/// Relies on `Colorize::dimmed`.
#[verifier::external_body]
fn colored_dimmed(cs: colored::ColoredString) -> colored::ColoredString {
    cs.dimmed()
}

/// Relies on `Colorize::italic`.
#[verifier::external_body]
fn colored_italic(cs: colored::ColoredString) -> colored::ColoredString {
    cs.italic()
}

/// Relies on `Colorize::underline`.
#[verifier::external_body]
fn colored_underline(cs: colored::ColoredString) -> colored::ColoredString {
    cs.underline()
}

/// Relies on `Colorize::hidden`.
#[verifier::external_body]
fn colored_hidden(cs: colored::ColoredString) -> colored::ColoredString {
    cs.hidden()
}

/// Relies on `Colorize::strikethrough`.
#[verifier::external_body]
fn colored_strikethrough(cs: colored::ColoredString) -> colored::ColoredString {
    cs.strikethrough()
}

/// Relies on `ColoredString`'s `Display`: renders the text with ANSI
/// escapes, or plain when the environment disables coloring.
#[verifier::external_body]
fn colored_render(cs: &colored::ColoredString) -> String {
    cs.to_string()
}

/// The dot-separated modifier names that a color spec may use.
pub open spec fn known_modifier(m: Seq<char>) -> bool {
    ||| m == "reset"@
    ||| m == "bold"@
    ||| m == "dim"@
    ||| m == "italic"@
    ||| m == "underline"@
    ||| m == "hidden"@
    ||| m == "strikethrough"@
    ||| m == "black"@
    ||| m == "red"@
    ||| m == "green"@
    ||| m == "yellow"@
    ||| m == "blue"@
    ||| m == "magenta"@
    ||| m == "cyan"@
    ||| m == "white"@
    ||| m == "blackBright"@
    ||| m == "gray"@
    ||| m == "grey"@
    ||| m == "redBright"@
    ||| m == "greenBright"@
    ||| m == "yellowBright"@
    ||| m == "blueBright"@
    ||| m == "magentaBright"@
    ||| m == "cyanBright"@
    ||| m == "whiteBright"@
    ||| m == "bgBlack"@
    ||| m == "bgRed"@
    ||| m == "bgGreen"@
    ||| m == "bgYellow"@
    ||| m == "bgBlue"@
    ||| m == "bgMagenta"@
    ||| m == "bgCyan"@
    ||| m == "bgWhite"@
    ||| m == "bgBlackBright"@
    ||| m == "bgGray"@
    ||| m == "bgGrey"@
    ||| m == "bgRedBright"@
    ||| m == "bgGreenBright"@
    ||| m == "bgYellowBright"@
    ||| m == "bgBlueBright"@
    ||| m == "bgMagentaBright"@
    ||| m == "bgCyanBright"@
    ||| m == "bgWhiteBright"@
}

/// A piece of a color spec is acceptable: a known modifier or `auto`.
pub open spec fn piece_ok(p: Seq<char>) -> bool {
    p == "auto"@ || known_modifier(p)
}

/// A whole dot-separated color spec is acceptable.
pub open spec fn spec_format_ok(fmt: Seq<char>) -> bool {
    forall|k: int|
        0 <= k < spec_split(fmt, '.').len() ==> piece_ok(#[trigger] spec_split(fmt, '.')[k])
}

/// Applies one modifier; hands the input back unchanged when the name is
/// not recognised.
fn apply_modifier(cs: colored::ColoredString, m: &str) -> (r: Result<
    colored::ColoredString,
    colored::ColoredString,
>)
    ensures
        r is Ok <==> known_modifier(m@),
{
    if eq_str(m, "reset") {
        Ok(colored_reset(cs))
    } else if eq_str(m, "bold") {
        Ok(colored_bold(cs))
    } else if eq_str(m, "dim") {
        Ok(colored_dimmed(cs))
    } else if eq_str(m, "italic") {
        Ok(colored_italic(cs))
    } else if eq_str(m, "underline") {
        Ok(colored_underline(cs))
    } else if eq_str(m, "hidden") {
        Ok(colored_hidden(cs))
    } else if eq_str(m, "strikethrough") {
        Ok(colored_strikethrough(cs))
    } else if eq_str(m, "black") {
        Ok(colored_fg(cs, "black"))
    } else if eq_str(m, "red") {
        Ok(colored_fg(cs, "red"))
    } else if eq_str(m, "green") {
        Ok(colored_fg(cs, "green"))
    } else if eq_str(m, "yellow") {
        Ok(colored_fg(cs, "yellow"))
    } else if eq_str(m, "blue") {
        Ok(colored_fg(cs, "blue"))
    } else if eq_str(m, "magenta") {
        Ok(colored_fg(cs, "magenta"))
    } else if eq_str(m, "cyan") {
        Ok(colored_fg(cs, "cyan"))
    } else if eq_str(m, "white") {
        Ok(colored_fg(cs, "white"))
    } else if eq_str(m, "blackBright") || eq_str(m, "gray") || eq_str(m, "grey") {
        Ok(colored_fg(cs, "bright black"))
    } else if eq_str(m, "redBright") {
        Ok(colored_fg(cs, "bright red"))
    } else if eq_str(m, "greenBright") {
        Ok(colored_fg(cs, "bright green"))
    } else if eq_str(m, "yellowBright") {
        Ok(colored_fg(cs, "bright yellow"))
    } else if eq_str(m, "blueBright") {
        Ok(colored_fg(cs, "bright blue"))
    } else if eq_str(m, "magentaBright") {
        Ok(colored_fg(cs, "bright magenta"))
    } else if eq_str(m, "cyanBright") {
        Ok(colored_fg(cs, "bright cyan"))
    } else if eq_str(m, "whiteBright") {
        Ok(colored_fg(cs, "bright white"))
    } else if eq_str(m, "bgBlack") {
        Ok(colored_bg(cs, "black"))
    } else if eq_str(m, "bgRed") {
        Ok(colored_bg(cs, "red"))
    } else if eq_str(m, "bgGreen") {
        Ok(colored_bg(cs, "green"))
    } else if eq_str(m, "bgYellow") {
        Ok(colored_bg(cs, "yellow"))
    } else if eq_str(m, "bgBlue") {
        Ok(colored_bg(cs, "blue"))
    } else if eq_str(m, "bgMagenta") {
        Ok(colored_bg(cs, "magenta"))
    } else if eq_str(m, "bgCyan") {
        Ok(colored_bg(cs, "cyan"))
    } else if eq_str(m, "bgWhite") {
        Ok(colored_bg(cs, "white"))
    } else if eq_str(m, "bgBlackBright") || eq_str(m, "bgGray") || eq_str(m, "bgGrey") {
        Ok(colored_bg(cs, "bright black"))
    } else if eq_str(m, "bgRedBright") {
        Ok(colored_bg(cs, "bright red"))
    } else if eq_str(m, "bgGreenBright") {
        Ok(colored_bg(cs, "bright green"))
    } else if eq_str(m, "bgYellowBright") {
        Ok(colored_bg(cs, "bright yellow"))
    } else if eq_str(m, "bgBlueBright") {
        Ok(colored_bg(cs, "bright blue"))
    } else if eq_str(m, "bgMagentaBright") {
        Ok(colored_bg(cs, "bright magenta"))
    } else if eq_str(m, "bgCyanBright") {
        Ok(colored_bg(cs, "bright cyan"))
    } else if eq_str(m, "bgWhiteBright") {
        Ok(colored_bg(cs, "bright white"))
    } else {
        Err(cs)
    }
}

/// The fixed palette that `auto` cycles through by command index.
pub open spec fn spec_auto_color(idx: int) -> Seq<char> {
    let k = idx % 14;
    if k == 0 {
        "red"@
    } else if k == 1 {
        "green"@
    } else if k == 2 {
        "yellow"@
    } else if k == 3 {
        "blue"@
    } else if k == 4 {
        "magenta"@
    } else if k == 5 {
        "cyan"@
    } else if k == 6 {
        "white"@
    } else if k == 7 {
        "gray"@
    } else if k == 8 {
        "redBright"@
    } else if k == 9 {
        "greenBright"@
    } else if k == 10 {
        "yellowBright"@
    } else if k == 11 {
        "blueBright"@
    } else if k == 12 {
        "magentaBright"@
    } else {
        "cyanBright"@
    }
}

fn auto_color_name(idx: usize) -> (r: &'static str)
    ensures
        r@ == spec_auto_color(idx as int),
        known_modifier(r@),
{
    let k = idx % 14;
    if k == 0 {
        "red"
    } else if k == 1 {
        "green"
    } else if k == 2 {
        "yellow"
    } else if k == 3 {
        "blue"
    } else if k == 4 {
        "magenta"
    } else if k == 5 {
        "cyan"
    } else if k == 6 {
        "white"
    } else if k == 7 {
        "gray"
    } else if k == 8 {
        "redBright"
    } else if k == 9 {
        "greenBright"
    } else if k == 10 {
        "yellowBright"
    } else if k == 11 {
        "blueBright"
    } else if k == 12 {
        "magentaBright"
    } else {
        "cyanBright"
    }
}

/// Applies the dot-separated `format` to `input` and renders the result,
/// choosing the `auto` palette color by `command_idx`. Succeeds exactly
/// when every piece of the spec is acceptable; the rendered text itself is
/// produced by the `colored` crate.
pub fn colorize(command_idx: usize, format: &str, input: &str) -> (r: Result<String, ColorError>)
    ensures
        r is Ok <==> spec_format_ok(format@),
        r matches Err(e) ==> !spec_format_ok(format@) && (e matches ColorError::UnknownModifier(m)
            ==> !piece_ok(m@) && exists|k: int|
            0 <= k < spec_split(format@, '.').len() && spec_split(format@, '.')[k] == m@),
{
    let pieces = split_str(format, '.');
    let ghost pv = pieces.deep_view();
    assert(pv == spec_split(format@, '.'));
    let mut cs = colored_plain(input);
    let mut i: usize = 0;
    while i < pieces.len()
        invariant
            i <= pieces.len(),
            pv == pieces.deep_view(),
            pv == spec_split(format@, '.'),
            forall|k: int| 0 <= k < i ==> piece_ok(#[trigger] pv[k]),
        decreases pieces.len() - i,
    {
        let piece = &pieces[i];
        if eq_str(piece.as_str(), "auto") {
            let name = auto_color_name(command_idx);
            cs = match apply_modifier(cs, name) {
                Ok(c) => c,
                Err(c) => {
                    proof {
                        assert(false);
                    }
                    c
                },
            };
        } else {
            cs = match apply_modifier(cs, piece.as_str()) {
                Ok(c) => c,
                Err(_) => {
                    assert(pv[i as int] == piece@);
                    return Err(ColorError::UnknownModifier(piece.clone()));
                },
            };
        }
        i += 1;
    }
    Ok(colored_render(&cs))
}

} // verus!
