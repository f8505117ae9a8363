use vstd::prelude::*;
use vstd::string::StringExecFns;
use crate::block::{BColor, BlockWithPos, Shape};

verus! {

/// One of the eight base colours of a terminal.
#[derive(Clone, Copy, Debug, PartialEq, Eq, Structural)]
pub enum BaseColor {
    Black,
    Red,
    Green,
    Yellow,
    Blue,
    Magenta,
    Cyan,
    White,
}

/// A colour as a terminal interface names it.
#[derive(Clone, Copy, Debug, PartialEq, Eq, Structural)]
pub enum Color {
    /// The colour that the terminal uses by default.
    TerminalDefault,
    /// The dark variant of a base colour.
    Dark(BaseColor),
    /// The light variant of a base colour.
    Light(BaseColor),
    /// Red, green and blue, each from 0 to 255.
    Rgb(u8, u8, u8),
    /// Red, green and blue at low resolution.
    RgbLowRes(u8, u8, u8),
}

/// The colours that a cell is drawn in.
#[derive(Clone, Copy, Debug, PartialEq, Eq, Structural)]
pub struct ColorStyle {
    pub front: Color,
    pub back: Color,
}

/// The colours that a cell is drawn in, as a canvas names them.
#[derive(Debug)]
pub struct ColorPair {
    pub front: String,
    pub back: String,
}

/// The hexadecimal digit for a number from 0 to 15.
pub open spec fn hex_char(n: int) -> char {
    if n == 0 {
        '0'
    } else if n == 1 {
        '1'
    } else if n == 2 {
        '2'
    } else if n == 3 {
        '3'
    } else if n == 4 {
        '4'
    } else if n == 5 {
        '5'
    } else if n == 6 {
        '6'
    } else if n == 7 {
        '7'
    } else if n == 8 {
        '8'
    } else if n == 9 {
        '9'
    } else if n == 10 {
        'a'
    } else if n == 11 {
        'b'
    } else if n == 12 {
        'c'
    } else if n == 13 {
        'd'
    } else if n == 14 {
        'e'
    } else {
        'f'
    }
}

/// A byte in two hexadecimal digits.
pub open spec fn hex_pair(b: u8) -> Seq<char> {
    seq![hex_char(b as int / 16), hex_char(b as int % 16)]
}

/// A byte in as few hexadecimal digits as it takes.
pub open spec fn hex_short(b: u8) -> Seq<char> {
    if b < 16 {
        seq![hex_char(b as int)]
    } else {
        hex_pair(b)
    }
}

/// The name that a canvas has for a dark or light base colour.
pub open spec fn base_css(base: BaseColor, light: bool) -> Seq<char> {
    if light {
        match base {
            BaseColor::Black => "#808080"@,
            BaseColor::Red => "#ff0000"@,
            BaseColor::Green => "#00ff00"@,
            BaseColor::Yellow => "#ffff00"@,
            BaseColor::Blue => "#0000ff"@,
            BaseColor::Magenta => "#ff00ff"@,
            BaseColor::Cyan => "#00ffff"@,
            BaseColor::White => "#ffffff"@,
        }
    } else {
        match base {
            BaseColor::Black => "#000000"@,
            BaseColor::Red => "#800000"@,
            BaseColor::Green => "#008000"@,
            BaseColor::Yellow => "#808000"@,
            BaseColor::Blue => "#000080"@,
            BaseColor::Magenta => "#800080"@,
            BaseColor::Cyan => "#008080"@,
            BaseColor::White => "#c0c0c0"@,
        }
    }
}

/// The name that a canvas has for a colour: `#` and the red, green and blue
/// parts in hexadecimal digits, two for each part, or as few as each part
/// takes for a colour at low resolution.
pub open spec fn css(c: Color) -> Seq<char> {
    match c {
        Color::TerminalDefault => "#000000"@,
        Color::Dark(base) => base_css(base, false),
        Color::Light(base) => base_css(base, true),
        Color::Rgb(r, g, b) => seq!['#'] + hex_pair(r) + hex_pair(g) + hex_pair(b),
        Color::RgbLowRes(r, g, b) => seq!['#'] + hex_short(r) + hex_short(g) + hex_short(b),
    }
}

/// A style that draws front and back in the same colour.
pub open spec fn solid(c: Color) -> ColorStyle {
    ColorStyle { front: c, back: c }
}

impl BColor {
    /// The style that cells of this colour identity are drawn in.
    pub open spec fn style(self) -> ColorStyle {
        match self {
            BColor::I => solid(Color::Light(BaseColor::Blue)),
            BColor::O => solid(Color::Light(BaseColor::Yellow)),
            BColor::T => solid(Color::Light(BaseColor::Magenta)),
            BColor::S => solid(Color::Light(BaseColor::Green)),
            BColor::Z => solid(Color::Light(BaseColor::Red)),
            BColor::J => solid(Color::Light(BaseColor::Cyan)),
            BColor::L => solid(Color::Light(BaseColor::White)),
            BColor::GRID1 => solid(Color::Rgb(0xb2, 0xe6, 0xc6)),
            BColor::GRID2 => solid(Color::Rgb(0x08, 0x95, 0x62)),
            BColor::HINT => solid(Color::Dark(BaseColor::White)),
            BColor::WARNING => solid(Color::Light(BaseColor::Yellow)),
        }
    }

    /// The style that cells of this colour identity are drawn in.
    pub fn to_cursive(&self) -> (style: ColorStyle)
        ensures
            style == self.style(),
    {
        let color = match self {
            BColor::I => Color::Light(BaseColor::Blue),
            BColor::O => Color::Light(BaseColor::Yellow),
            BColor::T => Color::Light(BaseColor::Magenta),
            BColor::S => Color::Light(BaseColor::Green),
            BColor::Z => Color::Light(BaseColor::Red),
            BColor::J => Color::Light(BaseColor::Cyan),
            BColor::L => Color::Light(BaseColor::White),
            BColor::GRID1 => Color::Rgb(0xb2, 0xe6, 0xc6),
            BColor::GRID2 => Color::Rgb(0x08, 0x95, 0x62),
            BColor::HINT => Color::Dark(BaseColor::White),
            BColor::WARNING => Color::Light(BaseColor::Yellow),
        };
        ColorStyle { front: color, back: color }
    }
}

impl Shape {
    /// The style that cells of this shape are drawn in.
    pub fn to_cursive(&self) -> (style: ColorStyle)
        ensures
            style == self.color().style(),
    {
        self.to_color().to_cursive()
    }
}

impl BlockWithPos {
    /// The style that the cells of this piece are drawn in.
    pub fn to_cursive_color(&self) -> (style: ColorStyle)
        ensures
            style == self.block.shape.color().style(),
    {
        self.block.shape.to_cursive()
    }
}

/// The hexadecimal digit for a number from 0 to 15.
fn hex_digit(n: u8) -> (digit: &'static str)
    requires
        n < 16,
    ensures
        digit@ == seq![hex_char(n as int)],
{
    proof {
        reveal_strlit("0");
        reveal_strlit("1");
        reveal_strlit("2");
        reveal_strlit("3");
        reveal_strlit("4");
        reveal_strlit("5");
        reveal_strlit("6");
        reveal_strlit("7");
        reveal_strlit("8");
        reveal_strlit("9");
        reveal_strlit("a");
        reveal_strlit("b");
        reveal_strlit("c");
        reveal_strlit("d");
        reveal_strlit("e");
        reveal_strlit("f");
    }
    let digit = if n == 0 {
        "0"
    } else if n == 1 {
        "1"
    } else if n == 2 {
        "2"
    } else if n == 3 {
        "3"
    } else if n == 4 {
        "4"
    } else if n == 5 {
        "5"
    } else if n == 6 {
        "6"
    } else if n == 7 {
        "7"
    } else if n == 8 {
        "8"
    } else if n == 9 {
        "9"
    } else if n == 10 {
        "a"
    } else if n == 11 {
        "b"
    } else if n == 12 {
        "c"
    } else if n == 13 {
        "d"
    } else if n == 14 {
        "e"
    } else {
        "f"
    };
    assert(digit@ =~= seq![hex_char(n as int)]);
    digit
}

/// Appends a byte in hexadecimal digits to `out`: in two digits, or, where
/// `short` is set, in as few as it takes.
fn push_hex(out: &mut String, b: u8, short: bool)
    ensures
        final(out)@ == old(out)@ + if short {
            hex_short(b)
        } else {
            hex_pair(b)
        },
{
    if !short || b >= 16 {
        out.append(hex_digit(b / 16));
    }
    out.append(hex_digit(b % 16));
    assert(final(out)@ =~= old(out)@ + if short {
        hex_short(b)
    } else {
        hex_pair(b)
    });
}

/// The name that a canvas has for a dark or light base colour.
fn base_to_color(base: BaseColor, light: bool) -> (name: &'static str)
    ensures
        name@ == base_css(base, light),
{
    if light {
        match base {
            BaseColor::Black => "#808080",
            BaseColor::Red => "#ff0000",
            BaseColor::Green => "#00ff00",
            BaseColor::Yellow => "#ffff00",
            BaseColor::Blue => "#0000ff",
            BaseColor::Magenta => "#ff00ff",
            BaseColor::Cyan => "#00ffff",
            BaseColor::White => "#ffffff",
        }
    } else {
        match base {
            BaseColor::Black => "#000000",
            BaseColor::Red => "#800000",
            BaseColor::Green => "#008000",
            BaseColor::Yellow => "#808000",
            BaseColor::Blue => "#000080",
            BaseColor::Magenta => "#800080",
            BaseColor::Cyan => "#008080",
            BaseColor::White => "#c0c0c0",
        }
    }
}

/// The name that a canvas has for a colour.
pub fn cursive_to_color(c: Color) -> (name: String)
    ensures
        name@ == css(c),
{
    match c {
        Color::TerminalDefault => String::from_str("#000000"),
        Color::Dark(base) => String::from_str(base_to_color(base, false)),
        Color::Light(base) => String::from_str(base_to_color(base, true)),
        Color::Rgb(r, g, b) => {
            proof {
                reveal_strlit("#");
            }
            let mut name = String::from_str("#");
            assert(name@ =~= seq!['#']);
            push_hex(&mut name, r, false);
            push_hex(&mut name, g, false);
            push_hex(&mut name, b, false);
            name
        },
        Color::RgbLowRes(r, g, b) => {
            proof {
                reveal_strlit("#");
            }
            let mut name = String::from_str("#");
            assert(name@ =~= seq!['#']);
            push_hex(&mut name, r, true);
            push_hex(&mut name, g, true);
            push_hex(&mut name, b, true);
            name
        },
    }
}

/// The names that a canvas has for the two colours of a style.
pub fn cursive_to_color_pair(c: ColorStyle) -> (pair: ColorPair)
    ensures
        pair.front@ == css(c.front),
        pair.back@ == css(c.back),
{
    ColorPair { front: cursive_to_color(c.front), back: cursive_to_color(c.back) }
}

} // verus!
