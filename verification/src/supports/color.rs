//! Colours of terminal output, and whether to use them.

use vstd::prelude::*;

use crate::digits::{number, parse_number};
use crate::text::{rsplit_once, rsplit_once_at};

verus! {

/// The indices, among the sixteen colours of a terminal, for each role.
#[derive(Debug, Clone, PartialEq, Eq)]
pub struct TerminalPalette {
    pub foreground: String,
    pub muted: String,
    pub primary: String,
    pub success: String,
    pub warning: String,
    pub error: String,
    pub info: String,
    pub border: String,
}

impl TerminalPalette {
    /// Whether the palette has these colours, in the order of the fields.
    pub open spec fn is(&self, colors: Seq<Seq<char>>) -> bool {
        colors == seq![
            self.foreground@,
            self.muted@,
            self.primary@,
            self.success@,
            self.warning@,
            self.error@,
            self.info@,
            self.border@,
        ]
    }
}

/// The colours for a dark background.
pub fn terminal_palette_dark() -> (r: TerminalPalette)
    ensures
        r.is(seq!["15"@, "7"@, "13"@, "10"@, "11"@, "9"@, "12"@, "13"@]),
{
    TerminalPalette {
        foreground: "15".to_owned(),
        muted: "7".to_owned(),
        primary: "13".to_owned(),
        success: "10".to_owned(),
        warning: "11".to_owned(),
        error: "9".to_owned(),
        info: "12".to_owned(),
        border: "13".to_owned(),
    }
}

/// The colours for a light background.
pub fn terminal_palette_light() -> (r: TerminalPalette)
    ensures
        r.is(seq!["0"@, "8"@, "4"@, "2"@, "3"@, "1"@, "4"@, "4"@]),
{
    TerminalPalette {
        foreground: "0".to_owned(),
        muted: "8".to_owned(),
        primary: "4".to_owned(),
        success: "2".to_owned(),
        warning: "3".to_owned(),
        error: "1".to_owned(),
        info: "4".to_owned(),
        border: "4".to_owned(),
    }
}

/// Whether to use colours: as the command line says, or else unless `NO_COLOR`
/// is set to something, the output is no terminal, or the terminal is dumb.
pub open spec fn colored(
    force: Option<bool>,
    no_color: Option<Seq<char>>,
    is_terminal: bool,
    term: Option<Seq<char>>,
) -> bool {
    match force {
        Some(f) => f,
        None => !(no_color is Some && no_color->0.len() > 0) && is_terminal && term != Some("dumb"@),
    }
}

/// Whether to use colours, from the command line, the values of `NO_COLOR` and
/// `TERM`, and whether the output is a terminal.
pub fn color_enabled(
    force_color: Option<bool>,
    no_color: Option<&str>,
    is_terminal: bool,
    term: Option<&str>,
) -> (r: bool)
    ensures
        r == colored(force_color, no_color.deep_view(), is_terminal, term.deep_view()),
{
    if let Some(forced) = force_color {
        return forced;
    }
    if let Some(v) = no_color {
        if !v.is_empty() {
            return false;
        }
    }
    if !is_terminal {
        return false;
    }
    if let Some(t) = term {
        if t.eq("dumb") {
            return false;
        }
    }
    true
}

/// Whether `COLORFGBG` tells of a light background: its last part is a number
/// of eight or more.
pub open spec fn light(colorfgbg: Option<Seq<char>>) -> bool {
    match colorfgbg {
        Some(v) => {
            let last = match rsplit_once(v, ';') {
                Some(p) => p.1,
                None => v,
            };
            match number(last, 10, 255) {
                Some(n) => n >= 8,
                None => false,
            }
        },
        None => false,
    }
}

/// Whether `COLORFGBG` tells of a light background.
pub fn light_background(colorfgbg: Option<&str>) -> (r: bool)
    ensures
        r == light(colorfgbg.deep_view()),
{
    let v = match colorfgbg {
        Some(v) => v,
        None => return false,
    };
    let last = match rsplit_once_at(v, ';') {
        Some(p) => p.1,
        None => v.to_owned(),
    };
    match parse_number(last.as_str(), 10, 255) {
        Some(n) => n >= 8,
        None => false,
    }
}

} // verus!
