//! Terminal colours, with the same variants as ratatui's `Color`, and their
//! approximate RGB values (the xterm defaults for the 16 named colours and
//! the 256-colour palette).
use vstd::prelude::*;

verus! {

/// A terminal colour: the reset colour, the 16 named ANSI colours, a true
/// colour or an index into the 256-colour palette.
#[derive(Debug, Clone, Copy, PartialEq, Eq, Structural)]
pub enum Color {
    Reset,
    Black,
    Red,
    Green,
    Yellow,
    Blue,
    Magenta,
    Cyan,
    Gray,
    DarkGray,
    LightRed,
    LightGreen,
    LightYellow,
    LightBlue,
    LightMagenta,
    LightCyan,
    White,
    Rgb(u8, u8, u8),
    Indexed(u8),
}

/// The xterm RGB value of ANSI colour `i` (0 to 15).
pub open spec fn ansi16(i: int) -> (u8, u8, u8) {
    if i == 0 {
        (0, 0, 0)
    } else if i == 1 {
        (128, 0, 0)
    } else if i == 2 {
        (0, 128, 0)
    } else if i == 3 {
        (128, 128, 0)
    } else if i == 4 {
        (0, 0, 128)
    } else if i == 5 {
        (128, 0, 128)
    } else if i == 6 {
        (0, 128, 128)
    } else if i == 7 {
        (192, 192, 192)
    } else if i == 8 {
        (128, 128, 128)
    } else if i == 9 {
        (255, 0, 0)
    } else if i == 10 {
        (0, 255, 0)
    } else if i == 11 {
        (255, 255, 0)
    } else if i == 12 {
        (0, 0, 255)
    } else if i == 13 {
        (255, 0, 255)
    } else if i == 14 {
        (0, 255, 255)
    } else {
        (255, 255, 255)
    }
}

/// Intensity of a level (0 to 5) of the 6x6x6 colour cube.
pub open spec fn cube_level(v: int) -> int {
    if v == 0 {
        0
    } else {
        55 + v * 40
    }
}

/// The RGB value of a 256-colour palette index: the 16 ANSI colours, then
/// the 6x6x6 cube (index 16 + 36r + 6g + b), then 24 grays from 8 in steps
/// of 10.
pub open spec fn indexed_rgb(index: u8) -> (u8, u8, u8) {
    if index <= 15 {
        ansi16(index as int)
    } else if index <= 231 {
        let k = index - 16;
        (cube_level(k / 36) as u8, cube_level((k % 36) / 6) as u8, cube_level(k % 6) as u8)
    } else {
        let gray = (8 + (index - 232) * 10) as u8;
        (gray, gray, gray)
    }
}

/// The RGB value of a colour; none for `Reset`.
pub open spec fn rgb_of(color: Color) -> Option<(u8, u8, u8)> {
    match color {
        Color::Reset => None,
        Color::Black => Some(ansi16(0)),
        Color::Red => Some(ansi16(1)),
        Color::Green => Some(ansi16(2)),
        Color::Yellow => Some(ansi16(3)),
        Color::Blue => Some(ansi16(4)),
        Color::Magenta => Some(ansi16(5)),
        Color::Cyan => Some(ansi16(6)),
        Color::Gray => Some(ansi16(7)),
        Color::DarkGray => Some(ansi16(8)),
        Color::LightRed => Some(ansi16(9)),
        Color::LightGreen => Some(ansi16(10)),
        Color::LightYellow => Some(ansi16(11)),
        Color::LightBlue => Some(ansi16(12)),
        Color::LightMagenta => Some(ansi16(13)),
        Color::LightCyan => Some(ansi16(14)),
        Color::White => Some(ansi16(15)),
        Color::Rgb(r, g, b) => Some((r, g, b)),
        Color::Indexed(i) => Some(indexed_rgb(i)),
    }
}

fn ansi_16(i: u8) -> (r: (u8, u8, u8))
    requires
        i <= 15,
    ensures
        r == ansi16(i as int),
{
    match i {
        0 => (0, 0, 0),
        1 => (128, 0, 0),
        2 => (0, 128, 0),
        3 => (128, 128, 0),
        4 => (0, 0, 128),
        5 => (128, 0, 128),
        6 => (0, 128, 128),
        7 => (192, 192, 192),
        8 => (128, 128, 128),
        9 => (255, 0, 0),
        10 => (0, 255, 0),
        11 => (255, 255, 0),
        12 => (0, 0, 255),
        13 => (255, 0, 255),
        14 => (0, 255, 255),
        _ => (255, 255, 255),
    }
}

/// Intensity of a colour-cube level: 0, then 95 to 255 in steps of 40.
pub fn cube_channel(value: u8) -> (r: u8)
    requires
        value <= 5,
    ensures
        r == cube_level(value as int),
{
    if value == 0 {
        0
    } else {
        55 + value * 40
    }
}

/// The RGB value of a 256-colour palette index. Every index has one.
pub fn indexed_to_rgb(index: u8) -> (r: Option<(u8, u8, u8)>)
    ensures
        r == Some(indexed_rgb(index)),
{
    if index <= 15 {
        Some(ansi_16(index))
    } else if index <= 231 {
        let k = index - 16;
        let r = k / 36;
        let g = (k % 36) / 6;
        let b = k % 6;
        Some((cube_channel(r), cube_channel(g), cube_channel(b)))
    } else {
        let gray = 8 + (index - 232) * 10;
        Some((gray, gray, gray))
    }
}

/// The RGB value of a colour, or `None` for `Reset`.
pub fn color_to_rgb(color: Color) -> (r: Option<(u8, u8, u8)>)
    ensures
        r == rgb_of(color),
{
    match color {
        Color::Reset => None,
        Color::Black => Some((0, 0, 0)),
        Color::Red => Some((128, 0, 0)),
        Color::Green => Some((0, 128, 0)),
        Color::Yellow => Some((128, 128, 0)),
        Color::Blue => Some((0, 0, 128)),
        Color::Magenta => Some((128, 0, 128)),
        Color::Cyan => Some((0, 128, 128)),
        Color::Gray => Some((192, 192, 192)),
        Color::DarkGray => Some((128, 128, 128)),
        Color::LightRed => Some((255, 0, 0)),
        Color::LightGreen => Some((0, 255, 0)),
        Color::LightYellow => Some((255, 255, 0)),
        Color::LightBlue => Some((0, 0, 255)),
        Color::LightMagenta => Some((255, 0, 255)),
        Color::LightCyan => Some((0, 255, 255)),
        Color::White => Some((255, 255, 255)),
        Color::Rgb(r, g, b) => Some((r, g, b)),
        Color::Indexed(index) => indexed_to_rgb(index),
    }
}

/// Every colour but `Reset` has an RGB value.
pub proof fn law_only_reset_lacks_rgb(c: Color)
    ensures
        (rgb_of(c) is None) <==> (c == Color::Reset),
{
}

} // verus!
