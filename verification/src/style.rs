//! ANSI colors and text styles, rendered as plain escape-code strings.
//!
//! The library only builds the strings; whether a terminal should see
//! them (the `NO_COLOR` convention) is the caller's affair.

use vstd::prelude::*;
use vstd::string::StringExecFns;
use crate::strutil::{dec_str, join_with, u64_string};

verus! {

/// ANSI foreground colors: the sixteen standard ones and the 256-color
/// palette.
#[derive(Debug, Clone, Copy)]
pub enum Color {
    /// Black (code 30)
    Black,
    /// Red (code 31)
    Red,
    /// Green (code 32)
    Green,
    /// Yellow (code 33)
    Yellow,
    /// Blue (code 34)
    Blue,
    /// Magenta (code 35)
    Magenta,
    /// Cyan (code 36)
    Cyan,
    /// White (code 37)
    White,
    /// Bright black, gray (code 90)
    BrightBlack,
    /// Bright red (code 91)
    BrightRed,
    /// Bright green (code 92)
    BrightGreen,
    /// Bright yellow (code 93)
    BrightYellow,
    /// Bright blue (code 94)
    BrightBlue,
    /// Bright magenta (code 95)
    BrightMagenta,
    /// Bright cyan (code 96)
    BrightCyan,
    /// Bright white (code 97)
    BrightWhite,
    /// One of the 256 palette colors, via `38;5;N`
    Custom(u8),
}

/// Text styles.
#[derive(Debug, Clone, Copy)]
pub enum Style {
    /// Bold (code 1)
    Bold,
    /// Dim (code 2)
    Dim,
    /// Italic (code 3)
    Italic,
    /// Underline (code 4)
    Underline,
    /// Slow blink (code 5)
    Blink,
    /// Reverse video (code 7)
    Reverse,
    /// Hidden text (code 8)
    Hidden,
}

/// A string together with its color and style attributes.
#[derive(Debug)]
pub struct StyledString {
    /// The text itself
    pub text: String,
    /// Foreground color, if any
    pub color: Option<Color>,
    /// Applied styles, in application order
    pub styles: Vec<Style>,
}

/// The foreground code of a color, as it appears inside the escape
/// sequence.
pub open spec fn spec_fg_code(c: Color) -> Seq<char> {
    match c {
        Color::Black => "30"@,
        Color::Red => "31"@,
        Color::Green => "32"@,
        Color::Yellow => "33"@,
        Color::Blue => "34"@,
        Color::Magenta => "35"@,
        Color::Cyan => "36"@,
        Color::White => "37"@,
        Color::BrightBlack => "90"@,
        Color::BrightRed => "91"@,
        Color::BrightGreen => "92"@,
        Color::BrightYellow => "93"@,
        Color::BrightBlue => "94"@,
        Color::BrightMagenta => "95"@,
        Color::BrightCyan => "96"@,
        Color::BrightWhite => "97"@,
        Color::Custom(n) => "38;5;"@ + dec_str(n as nat),
    }
}

/// The numeric code of a style.
pub open spec fn spec_style_code(s: Style) -> u8 {
    match s {
        Style::Bold => 1,
        Style::Dim => 2,
        Style::Italic => 3,
        Style::Underline => 4,
        Style::Blink => 5,
        Style::Reverse => 7,
        Style::Hidden => 8,
    }
}

/// All code strings of a styled string: the color first, then each
/// style in order.
pub open spec fn spec_codes(color: Option<Color>, styles: Seq<Style>) -> Seq<Seq<char>> {
    (match color {
        Some(c) => seq![spec_fg_code(c)],
        None => Seq::empty(),
    }) + styles.map_values(|s: Style| dec_str(spec_style_code(s) as nat))
}

/// The escape-coded rendering: the text wrapped in the joined codes, or
/// the bare text when there is nothing to apply.
pub open spec fn spec_ansi(text: Seq<char>, color: Option<Color>, styles: Seq<Style>) -> Seq<
    char,
> {
    let codes = spec_codes(color, styles);
    if codes.len() == 0 {
        text
    } else {
        "\u{1b}["@ + join_with(codes, ";"@) + "m"@ + text + "\u{1b}[0m"@
    }
}

impl Color {
    /// The foreground code string for this color.
    pub fn to_fg_code_string(self) -> (r: String)
        ensures
            r@ == spec_fg_code(self),
    {
        match self {
            Color::Black => String::from_str("30"),
            Color::Red => String::from_str("31"),
            Color::Green => String::from_str("32"),
            Color::Yellow => String::from_str("33"),
            Color::Blue => String::from_str("34"),
            Color::Magenta => String::from_str("35"),
            Color::Cyan => String::from_str("36"),
            Color::White => String::from_str("37"),
            Color::BrightBlack => String::from_str("90"),
            Color::BrightRed => String::from_str("91"),
            Color::BrightGreen => String::from_str("92"),
            Color::BrightYellow => String::from_str("93"),
            Color::BrightBlue => String::from_str("94"),
            Color::BrightMagenta => String::from_str("95"),
            Color::BrightCyan => String::from_str("96"),
            Color::BrightWhite => String::from_str("97"),
            Color::Custom(n) => {
                let mut out = String::from_str("38;5;");
                let digits = u64_string(n as u64);
                out.append(digits.as_str());
                out
            },
        }
    }

    /// Wraps text with this color.
    pub fn paint(self, text: &str) -> (r: StyledString)
        ensures
            r.text@ == text@,
            r.color == Some(self),
            r.styles@ == Seq::<Style>::empty(),
    {
        let r = StyledString {
            text: String::from_str(text),
            color: Some(self),
            styles: Vec::new(),
        };
        proof {
            assert(r.styles@ =~= Seq::<Style>::empty());
        }
        r
    }
}

impl Style {
    /// The numeric code of this style.
    pub fn code(self) -> (r: u8)
        ensures
            r == spec_style_code(self),
    {
        match self {
            Style::Bold => 1,
            Style::Dim => 2,
            Style::Italic => 3,
            Style::Underline => 4,
            Style::Blink => 5,
            Style::Reverse => 7,
            Style::Hidden => 8,
        }
    }

    /// Wraps text with this style.
    pub fn apply(&self, text: &str) -> (r: StyledString)
        ensures
            r.text@ == text@,
            r.color is None,
            r.styles@ == seq![*self],
    {
        let mut styles: Vec<Style> = Vec::new();
        styles.push(*self);
        let r = StyledString { text: String::from_str(text), color: None, styles };
        proof {
            assert(r.styles@ =~= seq![*self]);
        }
        r
    }
}

impl StyledString {
    /// Adds one more style.
    pub fn style(self, style: Style) -> (r: Self)
        ensures
            r.text@ == self.text@,
            r.color == self.color,
            r.styles@ == self.styles@.push(style),
    {
        let mut s = self;
        s.styles.push(style);
        s
    }

    /// The text with its escape codes applied, as `spec_ansi` lays it
    /// out.
    pub fn ansi_string(&self) -> (r: String)
        ensures
            r@ == spec_ansi(self.text@, self.color, self.styles@),
    {
        let ghost codes = spec_codes(self.color, self.styles@);
        let mut code_strings: Vec<String> = Vec::new();
        match self.color {
            Some(c) => {
                let cs = c.to_fg_code_string();
                code_strings.push(cs);
            },
            None => {},
        }
        let ghost head = code_strings.deep_view();
        proof {
            match self.color {
                Some(c) => {
                    assert(head =~= seq![spec_fg_code(c)]);
                },
                None => {
                    assert(head =~= Seq::<Seq<char>>::empty());
                },
            }
        }
        let n = self.styles.len();
        let mut i: usize = 0;
        while i < n
            invariant
                0 <= i <= n,
                n == self.styles.len(),
                head == (match self.color {
                    Some(c) => seq![spec_fg_code(c)],
                    None => Seq::<Seq<char>>::empty(),
                }),
                code_strings.deep_view() =~= head + self.styles@.take(i as int).map_values(
                    |s: Style| dec_str(spec_style_code(s) as nat),
                ),
            decreases n - i,
        {
            let code = self.styles[i].code();
            let digits = u64_string(code as u64);
            let ghost gd = digits;
            let ghost prev = code_strings;
            code_strings.push(digits);
            proof {
                crate::command::lemma_deep_view_push(prev, code_strings, gd);
                assert(self.styles@.take(i + 1).map_values(
                    |s: Style| dec_str(spec_style_code(s) as nat),
                ) =~= self.styles@.take(i as int).map_values(
                    |s: Style| dec_str(spec_style_code(s) as nat),
                ).push(dec_str(spec_style_code(self.styles@[i as int]) as nat)));
            }
            i = i + 1;
        }
        proof {
            assert(self.styles@.take(n as int) =~= self.styles@);
            assert(code_strings.deep_view() =~= codes);
        }
        if code_strings.len() == 0 {
            proof {
                assert(codes.len() == 0);
            }
            self.text.clone()
        } else {
            let mut out = String::from_str("\u{1b}[");
            let joined = crate::strutil::join_strings(&code_strings, ";");
            out.append(joined.as_str());
            out.append("m");
            out.append(self.text.as_str());
            out.append("\u{1b}[0m");
            proof {
                assert(out@ =~= spec_ansi(self.text@, self.color, self.styles@));
            }
            out
        }
    }

    /// The bare text, for surroundings that want no color.
    pub fn plain_string(&self) -> (r: String)
        ensures
            r@ == self.text@,
    {
        self.text.clone()
    }
}

} // verus!
