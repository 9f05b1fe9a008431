use vstd::prelude::*;

verus! {

/// The colors in which teams and resources are drawn.
#[derive(Debug, Clone, Copy, PartialEq, Eq, Structural)]
pub enum ZappyColor {
    Red,
    Green,
    Yellow,
    Blue,
    Magenta,
    Cyan,
    Gray,
    DarkGray,
    LightRed,
    LightGreen,
    LightYellow,
    LightBlue,
    LightMagenta,
    LightCyan,
}

/// The named colors of a terminal palette (those of `ratatui::style::Color`).
#[derive(Debug, Clone, Copy, PartialEq, Eq, Structural)]
pub enum TerminalColor {
    Red,
    Green,
    Yellow,
    Blue,
    Magenta,
    Cyan,
    Gray,
    DarkGray,
    LightRed,
    LightGreen,
    LightYellow,
    LightBlue,
    LightMagenta,
    LightCyan,
}

/// How many colors the palette has.
pub const COLOR_COUNT: usize = 14;

/// The color at position `i` of the palette, in declaration order.
pub open spec fn spec_color_at(i: int) -> ZappyColor {
    if i == 0 {
        ZappyColor::Red
    } else if i == 1 {
        ZappyColor::Green
    } else if i == 2 {
        ZappyColor::Yellow
    } else if i == 3 {
        ZappyColor::Blue
    } else if i == 4 {
        ZappyColor::Magenta
    } else if i == 5 {
        ZappyColor::Cyan
    } else if i == 6 {
        ZappyColor::Gray
    } else if i == 7 {
        ZappyColor::DarkGray
    } else if i == 8 {
        ZappyColor::LightRed
    } else if i == 9 {
        ZappyColor::LightGreen
    } else if i == 10 {
        ZappyColor::LightYellow
    } else if i == 11 {
        ZappyColor::LightBlue
    } else if i == 12 {
        ZappyColor::LightMagenta
    } else {
        ZappyColor::LightCyan
    }
}

/// The position of a color in the palette.
pub open spec fn spec_color_index(c: ZappyColor) -> int {
    match c {
        ZappyColor::Red => 0,
        ZappyColor::Green => 1,
        ZappyColor::Yellow => 2,
        ZappyColor::Blue => 3,
        ZappyColor::Magenta => 4,
        ZappyColor::Cyan => 5,
        ZappyColor::Gray => 6,
        ZappyColor::DarkGray => 7,
        ZappyColor::LightRed => 8,
        ZappyColor::LightGreen => 9,
        ZappyColor::LightYellow => 10,
        ZappyColor::LightBlue => 11,
        ZappyColor::LightMagenta => 12,
        ZappyColor::LightCyan => 13,
    }
}

/// The RGB components of a color.
pub open spec fn spec_rgb(c: ZappyColor) -> (u8, u8, u8) {
    match c {
        ZappyColor::Red => (255, 0, 0),
        ZappyColor::Green => (0, 255, 0),
        ZappyColor::Yellow => (255, 255, 0),
        ZappyColor::Blue => (0, 0, 255),
        ZappyColor::Magenta => (255, 0, 255),
        ZappyColor::Cyan => (0, 255, 255),
        ZappyColor::Gray => (128, 128, 128),
        ZappyColor::DarkGray => (64, 64, 64),
        ZappyColor::LightRed => (255, 128, 128),
        ZappyColor::LightGreen => (128, 255, 128),
        ZappyColor::LightYellow => (255, 255, 128),
        ZappyColor::LightBlue => (128, 128, 255),
        ZappyColor::LightMagenta => (255, 128, 255),
        ZappyColor::LightCyan => (128, 255, 255),
    }
}

/// The terminal color of the same name.
pub open spec fn spec_terminal_color(c: ZappyColor) -> TerminalColor {
    match c {
        ZappyColor::Red => TerminalColor::Red,
        ZappyColor::Green => TerminalColor::Green,
        ZappyColor::Yellow => TerminalColor::Yellow,
        ZappyColor::Blue => TerminalColor::Blue,
        ZappyColor::Magenta => TerminalColor::Magenta,
        ZappyColor::Cyan => TerminalColor::Cyan,
        ZappyColor::Gray => TerminalColor::Gray,
        ZappyColor::DarkGray => TerminalColor::DarkGray,
        ZappyColor::LightRed => TerminalColor::LightRed,
        ZappyColor::LightGreen => TerminalColor::LightGreen,
        ZappyColor::LightYellow => TerminalColor::LightYellow,
        ZappyColor::LightBlue => TerminalColor::LightBlue,
        ZappyColor::LightMagenta => TerminalColor::LightMagenta,
        ZappyColor::LightCyan => TerminalColor::LightCyan,
    }
}

impl ZappyColor {
    /// The palette color for an index; indices past the end wrap around.
    pub fn idx(color_idx: usize) -> (c: ZappyColor)
        ensures
            c == spec_color_at(color_idx as int % COLOR_COUNT as int),
    {
        let i = color_idx % COLOR_COUNT;
        if i == 0 {
            ZappyColor::Red
        } else if i == 1 {
            ZappyColor::Green
        } else if i == 2 {
            ZappyColor::Yellow
        } else if i == 3 {
            ZappyColor::Blue
        } else if i == 4 {
            ZappyColor::Magenta
        } else if i == 5 {
            ZappyColor::Cyan
        } else if i == 6 {
            ZappyColor::Gray
        } else if i == 7 {
            ZappyColor::DarkGray
        } else if i == 8 {
            ZappyColor::LightRed
        } else if i == 9 {
            ZappyColor::LightGreen
        } else if i == 10 {
            ZappyColor::LightYellow
        } else if i == 11 {
            ZappyColor::LightBlue
        } else if i == 12 {
            ZappyColor::LightMagenta
        } else {
            ZappyColor::LightCyan
        }
    }

    pub fn to_ratatui_value(&self) -> (r: TerminalColor)
        ensures
            r == spec_terminal_color(*self),
    {
        match self {
            ZappyColor::Red => TerminalColor::Red,
            ZappyColor::Green => TerminalColor::Green,
            ZappyColor::Yellow => TerminalColor::Yellow,
            ZappyColor::Blue => TerminalColor::Blue,
            ZappyColor::Magenta => TerminalColor::Magenta,
            ZappyColor::Cyan => TerminalColor::Cyan,
            ZappyColor::Gray => TerminalColor::Gray,
            ZappyColor::DarkGray => TerminalColor::DarkGray,
            ZappyColor::LightRed => TerminalColor::LightRed,
            ZappyColor::LightGreen => TerminalColor::LightGreen,
            ZappyColor::LightYellow => TerminalColor::LightYellow,
            ZappyColor::LightBlue => TerminalColor::LightBlue,
            ZappyColor::LightMagenta => TerminalColor::LightMagenta,
            ZappyColor::LightCyan => TerminalColor::LightCyan,
        }
    }

    pub fn _to_rgb(&self) -> (r: (u8, u8, u8))
        ensures
            r == spec_rgb(*self),
    {
        match self {
            ZappyColor::Red => (255, 0, 0),
            ZappyColor::Green => (0, 255, 0),
            ZappyColor::Yellow => (255, 255, 0),
            ZappyColor::Blue => (0, 0, 255),
            ZappyColor::Magenta => (255, 0, 255),
            ZappyColor::Cyan => (0, 255, 255),
            ZappyColor::Gray => (128, 128, 128),
            ZappyColor::DarkGray => (64, 64, 64),
            ZappyColor::LightRed => (255, 128, 128),
            ZappyColor::LightGreen => (128, 255, 128),
            ZappyColor::LightYellow => (255, 255, 128),
            ZappyColor::LightBlue => (128, 128, 255),
            ZappyColor::LightMagenta => (255, 128, 255),
            ZappyColor::LightCyan => (128, 255, 255),
        }
    }
}

/// The palette lists every color exactly once: indexing and looking up the index are inverse.
pub proof fn lemma_palette_round_trip(c: ZappyColor, i: int)
    requires
        0 <= i < COLOR_COUNT,
    ensures
        spec_color_at(spec_color_index(c)) == c,
        spec_color_index(spec_color_at(i)) == i,
{
}

/// Colors repeat with the palette's length.
pub proof fn lemma_idx_periodic(i: nat)
    ensures
        spec_color_at((i + COLOR_COUNT) as int % COLOR_COUNT as int) == spec_color_at(
            i as int % COLOR_COUNT as int,
        ),
{
    assert((i + 14) % 14 == i % 14) by (nonlinear_arith);
}

} // verus!
