//! How things look.

use vstd::prelude::*;

verus! {

/// A colour of the terminal.
#[derive(Debug, Clone, Copy, PartialEq, Eq, Structural)]
pub enum Color {
    Reset,
    Black,
    Red,
    Green,
    Yellow,
    Blue,
    Magenta,
    Cyan,
    Gray,
    DarkGray,
    LightRed,
    LightGreen,
    LightYellow,
    LightBlue,
    LightMagenta,
    LightCyan,
    White,
    Rgb(u8, u8, u8),
    Indexed(u8),
}

/// What is asked of the look of a text; the rest stays as it is.
#[derive(Debug, Clone, Copy, PartialEq, Eq, Structural)]
pub struct Style {
    pub fg: Option<Color>,
    pub bg: Option<Color>,
    pub bold: bool,
    pub rapid_blink: bool,
}

impl Style {
    /// Nothing is asked.
    pub open spec fn plain() -> Style {
        Style { fg: None, bg: None, bold: false, rapid_blink: false }
    }

    /// A foreground.
    pub open spec fn colored(color: Color) -> Style {
        Style { fg: Some(color), ..Style::plain() }
    }

    /// A foreground and a background.
    pub open spec fn on(fg: Color, bg: Color) -> Style {
        Style { fg: Some(fg), bg: Some(bg), ..Style::plain() }
    }

    /// Nothing is asked.
    pub fn new() -> (res: Style)
        ensures
            res == Style::plain(),
    {
        Style { fg: None, bg: None, bold: false, rapid_blink: false }
    }

    /// With this foreground.
    pub fn fg(self, color: Color) -> (res: Style)
        ensures
            res == (Style { fg: Some(color), ..self }),
    {
        Style { fg: Some(color), ..self }
    }

    /// With this background.
    pub fn bg(self, color: Color) -> (res: Style)
        ensures
            res == (Style { bg: Some(color), ..self }),
    {
        Style { bg: Some(color), ..self }
    }

    /// In bold.
    pub fn bold(self) -> (res: Style)
        ensures
            res == (Style { bold: true, ..self }),
    {
        Style { bold: true, ..self }
    }

    /// Blinking fast.
    pub fn rapid_blink(self) -> (res: Style)
        ensures
            res == (Style { rapid_blink: true, ..self }),
    {
        Style { rapid_blink: true, ..self }
    }
}

impl Default for Style {
    fn default() -> (res: Style)
        ensures
            res == Style::plain(),
    {
        Style::new()
    }
}

/// Dark grey for what does not matter.
pub open spec fn greyed(condition: bool) -> Style {
    if condition {
        Style::colored(Color::DarkGray)
    } else {
        Style::plain()
    }
}

/// Dark grey for what does not matter.
pub fn grey_out(condition: bool) -> (res: Style)
    ensures
        res == greyed(condition),
{
    match condition {
        true => Style::new().fg(Color::DarkGray),
        false => Style::new(),
    }
}

/// What does not matter has a dark grey foreground; nothing else is asked of it, and
/// nothing at all of what does matter.
pub proof fn only_what_does_not_matter_is_grey(condition: bool, res: Style)
    requires
        call_ensures(grey_out, (condition,), res),
    ensures
        condition == (res.fg == Some(Color::DarkGray)),
        !condition == res.fg is None,
        res.bg is None && !res.bold && !res.rapid_blink,
{
}

} // verus!
