//! Per-port settings: device path, baud rate, line ending and display color,
//! together with the parsing and rendering of each field value as it appears
//! in the configuration file.

use vstd::prelude::*;

use crate::text::{digit_char, eq_ignore_ascii_case, lower_seq};

verus! {

/// Why a configuration value or document was rejected.
#[derive(Clone, Copy, Debug, PartialEq, Eq, Structural)]
pub enum ConfigError {
    /// A port table lacks the required `path` key.
    MissingPath,
    /// The same port name opens two tables.
    DuplicatePort,
    /// A line is neither a table header, a key-value pair, a comment nor blank.
    Syntax,
    /// `line_ending` is not one of the accepted spellings.
    InvalidLineEnding,
    /// `color` is neither a known name nor `#RRGGBB`.
    InvalidColor,
    /// `data_bits` is outside 5..=8.
    InvalidDataBits,
    /// `stop_bits` is outside 1..=2.
    InvalidStopBits,
    /// `parity` is not none, odd or even.
    InvalidParity,
    /// `flow_control` is not none, software or hardware.
    InvalidFlowControl,
    /// A numeric field does not hold a decimal number in range.
    InvalidNumber,
    /// A port name or device path the document format cannot carry.
    Unwritable,
}

/// The byte sequence appended to every payload sent to a port.
#[derive(Clone, Copy, Debug, PartialEq, Eq, Structural)]
pub enum LineEnding {
    LF,
    CR,
    CRLF,
}

impl LineEnding {
    /// The bytes this line ending stands for.
    pub open spec fn spec_bytes(self) -> Seq<u8> {
        match self {
            LineEnding::LF => seq![10u8],
            LineEnding::CR => seq![13u8],
            LineEnding::CRLF => seq![13u8, 10u8],
        }
    }

    /// Returns the byte representation of this line ending.
    pub fn as_bytes(&self) -> (r: Vec<u8>)
        ensures
            r@ == self.spec_bytes(),
    {
        match self {
            LineEnding::LF => vec![10u8],
            LineEnding::CR => vec![13u8],
            LineEnding::CRLF => vec![13u8, 10u8],
        }
    }

    /// The spelling used when a configuration is written out.
    pub open spec fn spec_name(self) -> Seq<char> {
        match self {
            LineEnding::LF => "lf"@,
            LineEnding::CR => "cr"@,
            LineEnding::CRLF => "crlf"@,
        }
    }

    /// Renders this line ending as its configuration spelling.
    pub fn name(&self) -> (r: &'static str)
        ensures
            r@ == self.spec_name(),
    {
        match self {
            LineEnding::LF => "lf",
            LineEnding::CR => "cr",
            LineEnding::CRLF => "crlf",
        }
    }

    /// Which line ending the text `s` names, ignoring ASCII case: exactly
    /// `lf`, `cr` or `crlf`; anything else is rejected.
    pub open spec fn spec_parse(s: Seq<char>) -> Option<LineEnding> {
        if lower_seq(s) == "lf"@ {
            Some(LineEnding::LF)
        } else if lower_seq(s) == "cr"@ {
            Some(LineEnding::CR)
        } else if lower_seq(s) == "crlf"@ {
            Some(LineEnding::CRLF)
        } else {
            None
        }
    }

    /// Reads a line ending from its configuration spelling.
    pub fn try_from(value: String) -> (r: Result<LineEnding, ConfigError>)
        ensures
            match r {
                Ok(le) => Self::spec_parse(value@) == Some(le),
                Err(e) => Self::spec_parse(value@) is None && e == ConfigError::InvalidLineEnding,
            },
    {
        proof {
            lemma_ending_spellings_lower();
        }
        let s = value.as_str();
        if eq_ignore_ascii_case(s, "lf") {
            Ok(LineEnding::LF)
        } else if eq_ignore_ascii_case(s, "cr") {
            Ok(LineEnding::CR)
        } else if eq_ignore_ascii_case(s, "crlf") {
            Ok(LineEnding::CRLF)
        } else {
            Err(ConfigError::InvalidLineEnding)
        }
    }
}

/// The accepted spellings of a line ending are already lower case.
proof fn lemma_ending_spellings_lower()
    ensures
        lower_seq("lf"@) == "lf"@,
        lower_seq("cr"@) == "cr"@,
        lower_seq("crlf"@) == "crlf"@,
{
    reveal_strlit("lf");
    reveal_strlit("cr");
    reveal_strlit("crlf");
    assert(lower_seq("lf"@) =~= "lf"@);
    assert(lower_seq("cr"@) =~= "cr"@);
    assert(lower_seq("crlf"@) =~= "crlf"@);
}

/// Reading back the spelling that `name` wrote yields the same line ending.
pub proof fn lemma_line_ending_round_trip(le: LineEnding)
    ensures
        LineEnding::spec_parse(le.spec_name()) == Some(le),
{
    reveal_strlit("lf");
    reveal_strlit("cr");
    reveal_strlit("crlf");
    lemma_ending_spellings_lower();
    match le {
        LineEnding::LF => {
            assert(LineEnding::spec_parse("lf"@) == Some(LineEnding::LF));
        }
        LineEnding::CR => {
            assert("cr"@ != "lf"@) by {
                assert("cr"@[0] == 'c' && "lf"@[0] == 'l');
            }
            assert(LineEnding::spec_parse("cr"@) == Some(LineEnding::CR));
        }
        LineEnding::CRLF => {
            assert("crlf"@ != "lf"@ && "crlf"@ != "cr"@) by {
                assert("crlf"@.len() == 4);
                assert("lf"@.len() == 2 && "cr"@.len() == 2);
            }
            assert(LineEnding::spec_parse("crlf"@) == Some(LineEnding::CRLF));
        }
    }
}

/// Number of data bits in a serial frame.
#[derive(Clone, Copy, Debug, PartialEq, Eq, Structural)]
pub enum DataBits {
    Five,
    Six,
    Seven,
    Eight,
}

impl DataBits {
    /// Reads a data-bit count from its numeric form, 5 through 8.
    pub fn try_from(value: u8) -> (r: Result<DataBits, ConfigError>)
        ensures
            match r {
                Ok(d) => (value == 5 && d == DataBits::Five) || (value == 6 && d == DataBits::Six)
                    || (value == 7 && d == DataBits::Seven) || (value == 8 && d
                    == DataBits::Eight),
                Err(e) => !(5 <= value <= 8) && e == ConfigError::InvalidDataBits,
            },
    {
        match value {
            5 => Ok(DataBits::Five),
            6 => Ok(DataBits::Six),
            7 => Ok(DataBits::Seven),
            8 => Ok(DataBits::Eight),
            _ => Err(ConfigError::InvalidDataBits),
        }
    }
}

/// Number of stop bits in a serial frame.
#[derive(Clone, Copy, Debug, PartialEq, Eq, Structural)]
pub enum StopBits {
    One,
    Two,
}

impl StopBits {
    /// Reads a stop-bit count from its numeric form, 1 or 2.
    pub fn try_from(value: u8) -> (r: Result<StopBits, ConfigError>)
        ensures
            match r {
                Ok(d) => (value == 1 && d == StopBits::One) || (value == 2 && d == StopBits::Two),
                Err(e) => !(1 <= value <= 2) && e == ConfigError::InvalidStopBits,
            },
    {
        match value {
            1 => Ok(StopBits::One),
            2 => Ok(StopBits::Two),
            _ => Err(ConfigError::InvalidStopBits),
        }
    }
}

/// Parity checking mode of a serial frame.
#[derive(Clone, Copy, Debug, PartialEq, Eq, Structural)]
pub enum Parity {
    Disabled,
    Odd,
    Even,
}

impl Parity {
    /// Which parity the text `s` names, ignoring ASCII case.
    pub open spec fn spec_parse(s: Seq<char>) -> Option<Parity> {
        if lower_seq(s) == "none"@ {
            Some(Parity::Disabled)
        } else if lower_seq(s) == "odd"@ {
            Some(Parity::Odd)
        } else if lower_seq(s) == "even"@ {
            Some(Parity::Even)
        } else {
            None
        }
    }

    /// Reads a parity mode from its configuration spelling.
    pub fn try_from(value: String) -> (r: Result<Parity, ConfigError>)
        ensures
            match r {
                Ok(p) => Self::spec_parse(value@) == Some(p),
                Err(e) => Self::spec_parse(value@) is None && e == ConfigError::InvalidParity,
            },
    {
        let s = value.as_str();
        if eq_ignore_ascii_case(s, "none") {
            proof {
                reveal_strlit("none");
                assert(lower_seq("none"@) =~= "none"@);
            }
            Ok(Parity::Disabled)
        } else if eq_ignore_ascii_case(s, "odd") {
            proof {
                reveal_strlit("none");
                reveal_strlit("odd");
                assert(lower_seq("none"@) =~= "none"@);
                assert(lower_seq("odd"@) =~= "odd"@);
            }
            Ok(Parity::Odd)
        } else if eq_ignore_ascii_case(s, "even") {
            proof {
                reveal_strlit("none");
                reveal_strlit("odd");
                reveal_strlit("even");
                assert(lower_seq("none"@) =~= "none"@);
                assert(lower_seq("odd"@) =~= "odd"@);
                assert(lower_seq("even"@) =~= "even"@);
            }
            Ok(Parity::Even)
        } else {
            proof {
                reveal_strlit("none");
                reveal_strlit("odd");
                reveal_strlit("even");
                assert(lower_seq("none"@) =~= "none"@);
                assert(lower_seq("odd"@) =~= "odd"@);
                assert(lower_seq("even"@) =~= "even"@);
            }
            Err(ConfigError::InvalidParity)
        }
    }
}

/// Flow-control mode of a serial connection.
#[derive(Clone, Copy, Debug, PartialEq, Eq, Structural)]
pub enum FlowControl {
    Disabled,
    Software,
    Hardware,
}

impl FlowControl {
    /// Which flow control the text `s` names, ignoring ASCII case.
    pub open spec fn spec_parse(s: Seq<char>) -> Option<FlowControl> {
        if lower_seq(s) == "none"@ {
            Some(FlowControl::Disabled)
        } else if lower_seq(s) == "software"@ {
            Some(FlowControl::Software)
        } else if lower_seq(s) == "hardware"@ {
            Some(FlowControl::Hardware)
        } else {
            None
        }
    }

    /// Reads a flow-control mode from its configuration spelling.
    pub fn try_from(value: String) -> (r: Result<FlowControl, ConfigError>)
        ensures
            match r {
                Ok(p) => Self::spec_parse(value@) == Some(p),
                Err(e) => Self::spec_parse(value@) is None && e == ConfigError::InvalidFlowControl,
            },
    {
        proof {
            reveal_strlit("none");
            reveal_strlit("software");
            reveal_strlit("hardware");
            assert(lower_seq("none"@) =~= "none"@);
            assert(lower_seq("software"@) =~= "software"@);
            assert(lower_seq("hardware"@) =~= "hardware"@);
        }
        let s = value.as_str();
        if eq_ignore_ascii_case(s, "none") {
            Ok(FlowControl::Disabled)
        } else if eq_ignore_ascii_case(s, "software") {
            Ok(FlowControl::Software)
        } else if eq_ignore_ascii_case(s, "hardware") {
            Ok(FlowControl::Hardware)
        } else {
            Err(ConfigError::InvalidFlowControl)
        }
    }
}

/// True when `c` is a hexadecimal digit, either case.
pub open spec fn is_hex_digit(c: char) -> bool {
    ('0' <= c && c <= '9') || ('a' <= c && c <= 'f') || ('A' <= c && c <= 'F')
}

/// The numeric value of hexadecimal digit `c`.
pub open spec fn hex_val(c: char) -> int
    recommends
        is_hex_digit(c),
{
    if '0' <= c && c <= '9' {
        c as int - 0x30
    } else if 'a' <= c && c <= 'f' {
        c as int - 0x61 + 10
    } else {
        c as int - 0x41 + 10
    }
}

/// The upper-case hexadecimal digit with value `d`.
pub open spec fn hex_digit_char(d: int) -> char
    recommends
        0 <= d < 16,
{
    if d < 10 {
        digit_char(d)
    } else {
        ((0x41 + (d - 10)) as u8) as char
    }
}

/// The two upper-case hexadecimal digits of byte `b`.
pub open spec fn byte_hex(b: u8) -> Seq<char> {
    seq![hex_digit_char(b as int / 16), hex_digit_char(b as int % 16)]
}

/// Reads one hexadecimal digit.
fn hex_digit_val(c: char) -> (r: Option<u8>)
    ensures
        match r {
            Some(d) => is_hex_digit(c) && hex_val(c) == d && d < 16,
            None => !is_hex_digit(c),
        },
{
    if '0' <= c && c <= '9' {
        Some((c as u8) - 0x30)
    } else if 'a' <= c && c <= 'f' {
        Some((c as u8) - 0x61 + 10)
    } else if 'A' <= c && c <= 'F' {
        Some((c as u8) - 0x41 + 10)
    } else {
        None
    }
}

/// The value of the two-digit hexadecimal pair `c1 c2`.
pub open spec fn hex_pair_val(c1: char, c2: char) -> int {
    hex_val(c1) * 16 + hex_val(c2)
}

/// Reads a byte from two hexadecimal digits.
fn hex_byte(c1: char, c2: char) -> (r: Option<u8>)
    ensures
        match r {
            Some(b) => is_hex_digit(c1) && is_hex_digit(c2) && hex_pair_val(c1, c2) == b,
            None => !(is_hex_digit(c1) && is_hex_digit(c2)),
        },
{
    match (hex_digit_val(c1), hex_digit_val(c2)) {
        (Some(h), Some(l)) => Some(h * 16 + l),
        _ => None,
    }
}

/// One upper-case hexadecimal digit as a string slice.
fn hex_digit_str(d: u8) -> (r: &'static str)
    requires
        d < 16,
    ensures
        r@ == seq![hex_digit_char(d as int)],
{
    proof {
        reveal_strlit("A");
        reveal_strlit("B");
        reveal_strlit("C");
        reveal_strlit("D");
        reveal_strlit("E");
        reveal_strlit("F");
    }
    if d < 10 {
        crate::text::digit_str(d)
    } else {
        match d {
            10 => "A",
            11 => "B",
            12 => "C",
            13 => "D",
            14 => "E",
            _ => "F",
        }
    }
}

/// A display color for a port: a named terminal color or a 24-bit value.
#[derive(Clone, Copy, Debug, PartialEq, Eq, Structural)]
pub enum Color {
    Reset,
    Black,
    Red,
    Green,
    Yellow,
    Blue,
    Magenta,
    Cyan,
    Gray,
    White,
    Rgb(u8, u8, u8),
}

impl Color {
    /// The text form written to a configuration file: the lower-case name,
    /// or `#RRGGBB` with upper-case hexadecimal digits.
    pub open spec fn spec_text(self) -> Seq<char> {
        match self {
            Color::Reset => "reset"@,
            Color::Black => "black"@,
            Color::Red => "red"@,
            Color::Green => "green"@,
            Color::Yellow => "yellow"@,
            Color::Blue => "blue"@,
            Color::Magenta => "magenta"@,
            Color::Cyan => "cyan"@,
            Color::Gray => "gray"@,
            Color::White => "white"@,
            Color::Rgb(r, g, b) => seq!['#'] + byte_hex(r) + byte_hex(g) + byte_hex(b),
        }
    }

    /// Renders this color as its configuration text.
    pub fn to_text(&self) -> (r: String)
        ensures
            r@ == self.spec_text(),
    {
        match self {
            Color::Reset => "reset".to_owned(),
            Color::Black => "black".to_owned(),
            Color::Red => "red".to_owned(),
            Color::Green => "green".to_owned(),
            Color::Yellow => "yellow".to_owned(),
            Color::Blue => "blue".to_owned(),
            Color::Magenta => "magenta".to_owned(),
            Color::Cyan => "cyan".to_owned(),
            Color::Gray => "gray".to_owned(),
            Color::White => "white".to_owned(),
            Color::Rgb(r, g, b) => {
                proof {
                    reveal_strlit("#");
                }
                let mut s = "#".to_owned();
                s.append(hex_digit_str(r / 16));
                s.append(hex_digit_str(r % 16));
                s.append(hex_digit_str(g / 16));
                s.append(hex_digit_str(g % 16));
                s.append(hex_digit_str(b / 16));
                s.append(hex_digit_str(b % 16));
                assert(s@ =~= seq!['#'] + byte_hex(*r) + byte_hex(*g) + byte_hex(*b));
                s
            }
        }
    }

    /// Which color the text `s` names: a hexadecimal triple when it starts
    /// with `#` (exactly `#RRGGBB`), else one of the ten color names,
    /// ignoring ASCII case; any other text is rejected.
    pub open spec fn spec_parse(s: Seq<char>) -> Option<Color> {
        if s.len() > 0 && s[0] == '#' {
            if s.len() == 7 && is_hex_digit(s[1]) && is_hex_digit(s[2]) && is_hex_digit(s[3])
                && is_hex_digit(s[4]) && is_hex_digit(s[5]) && is_hex_digit(s[6]) {
                Some(
                    Color::Rgb(
                        hex_pair_val(s[1], s[2]) as u8,
                        hex_pair_val(s[3], s[4]) as u8,
                        hex_pair_val(s[5], s[6]) as u8,
                    ),
                )
            } else {
                None
            }
        } else if lower_seq(s) == "reset"@ {
            Some(Color::Reset)
        } else if lower_seq(s) == "black"@ {
            Some(Color::Black)
        } else if lower_seq(s) == "red"@ {
            Some(Color::Red)
        } else if lower_seq(s) == "green"@ {
            Some(Color::Green)
        } else if lower_seq(s) == "yellow"@ {
            Some(Color::Yellow)
        } else if lower_seq(s) == "blue"@ {
            Some(Color::Blue)
        } else if lower_seq(s) == "magenta"@ {
            Some(Color::Magenta)
        } else if lower_seq(s) == "cyan"@ {
            Some(Color::Cyan)
        } else if lower_seq(s) == "gray"@ {
            Some(Color::Gray)
        } else if lower_seq(s) == "white"@ {
            Some(Color::White)
        } else {
            None
        }
    }

    /// Reads a color from its configuration text.
    pub fn from_str(s: &str) -> (r: Result<Color, ConfigError>)
        ensures
            match r {
                Ok(c) => Self::spec_parse(s@) == Some(c),
                Err(e) => Self::spec_parse(s@) is None && e == ConfigError::InvalidColor,
            },
    {
        proof {
            lemma_color_names_lower();
        }
        let cs = crate::text::chars_of(s);
        if cs.len() > 0 && cs[0] == '#' {
            if cs.len() != 7 {
                return Err(ConfigError::InvalidColor);
            }
            let r = hex_byte(cs[1], cs[2]);
            let g = hex_byte(cs[3], cs[4]);
            let b = hex_byte(cs[5], cs[6]);
            match (r, g, b) {
                (Some(r), Some(g), Some(b)) => Ok(Color::Rgb(r, g, b)),
                _ => Err(ConfigError::InvalidColor),
            }
        } else if eq_ignore_ascii_case(s, "reset") {
            Ok(Color::Reset)
        } else if eq_ignore_ascii_case(s, "black") {
            Ok(Color::Black)
        } else if eq_ignore_ascii_case(s, "red") {
            Ok(Color::Red)
        } else if eq_ignore_ascii_case(s, "green") {
            Ok(Color::Green)
        } else if eq_ignore_ascii_case(s, "yellow") {
            Ok(Color::Yellow)
        } else if eq_ignore_ascii_case(s, "blue") {
            Ok(Color::Blue)
        } else if eq_ignore_ascii_case(s, "magenta") {
            Ok(Color::Magenta)
        } else if eq_ignore_ascii_case(s, "cyan") {
            Ok(Color::Cyan)
        } else if eq_ignore_ascii_case(s, "gray") {
            Ok(Color::Gray)
        } else if eq_ignore_ascii_case(s, "white") {
            Ok(Color::White)
        } else {
            Err(ConfigError::InvalidColor)
        }
    }
}

/// The color names are already lower case, and none starts with `#`.
proof fn lemma_color_names_lower()
    ensures
        lower_seq("reset"@) == "reset"@,
        lower_seq("black"@) == "black"@,
        lower_seq("red"@) == "red"@,
        lower_seq("green"@) == "green"@,
        lower_seq("yellow"@) == "yellow"@,
        lower_seq("blue"@) == "blue"@,
        lower_seq("magenta"@) == "magenta"@,
        lower_seq("cyan"@) == "cyan"@,
        lower_seq("gray"@) == "gray"@,
        lower_seq("white"@) == "white"@,
{
    reveal_strlit("reset");
    reveal_strlit("black");
    reveal_strlit("red");
    reveal_strlit("green");
    reveal_strlit("yellow");
    reveal_strlit("blue");
    reveal_strlit("magenta");
    reveal_strlit("cyan");
    reveal_strlit("gray");
    reveal_strlit("white");
    assert(lower_seq("reset"@) =~= "reset"@);
    assert(lower_seq("black"@) =~= "black"@);
    assert(lower_seq("red"@) =~= "red"@);
    assert(lower_seq("green"@) =~= "green"@);
    assert(lower_seq("yellow"@) =~= "yellow"@);
    assert(lower_seq("blue"@) =~= "blue"@);
    assert(lower_seq("magenta"@) =~= "magenta"@);
    assert(lower_seq("cyan"@) =~= "cyan"@);
    assert(lower_seq("gray"@) =~= "gray"@);
    assert(lower_seq("white"@) =~= "white"@);
}

/// An upper-case hexadecimal digit reads back as its value.
proof fn lemma_hex_digit_round_trip(d: int)
    requires
        0 <= d < 16,
    ensures
        is_hex_digit(hex_digit_char(d)),
        hex_val(hex_digit_char(d)) == d,
{
    if d < 10 {
        assert(hex_digit_char(d) == ((0x30 + d) as u8) as char);
    } else {
        assert(hex_digit_char(d) == ((0x41 + (d - 10)) as u8) as char);
    }
}

/// Reading back the text that `to_text` wrote yields the same color.
pub proof fn lemma_color_round_trip(c: Color)
    ensures
        Color::spec_parse(c.spec_text()) == Some(c),
{
    lemma_color_names_lower();
    reveal_strlit("reset");
    reveal_strlit("black");
    reveal_strlit("red");
    reveal_strlit("green");
    reveal_strlit("yellow");
    reveal_strlit("blue");
    reveal_strlit("magenta");
    reveal_strlit("cyan");
    reveal_strlit("gray");
    reveal_strlit("white");
    let reset = "reset"@;
    let black = "black"@;
    let red = "red"@;
    let green = "green"@;
    let yellow = "yellow"@;
    let blue = "blue"@;
    let magenta = "magenta"@;
    let cyan = "cyan"@;
    let gray = "gray"@;
    let white = "white"@;
    assert(reset.len() == 5 && black.len() == 5 && red.len() == 3 && green.len() == 5
        && yellow.len() == 6 && blue.len() == 4 && magenta.len() == 7 && cyan.len() == 4
        && gray.len() == 4 && white.len() == 5);
    match c {
        Color::Reset => {
            assert(reset[0] == 'r');
        }
        Color::Black => {
            assert(black != reset) by {
                assert(black[0] == 'b' && reset[0] == 'r');
            }
        }
        Color::Red => {
        }
        Color::Green => {
            assert(green != reset) by {
                assert(green[0] == 'g' && reset[0] == 'r');
            }
            assert(green != black) by {
                assert(green[0] == 'g' && black[0] == 'b');
            }
        }
        Color::Yellow => {
        }
        Color::Blue => {
        }
        Color::Magenta => {
        }
        Color::Cyan => {
            assert(cyan != blue) by {
                assert(cyan[0] == 'c' && blue[0] == 'b');
            }
        }
        Color::Gray => {
            assert(gray != blue) by {
                assert(gray[0] == 'g' && blue[0] == 'b');
            }
            assert(gray != cyan) by {
                assert(gray[0] == 'g' && cyan[0] == 'c');
            }
        }
        Color::White => {
            assert(white != reset) by {
                assert(white[0] == 'w' && reset[0] == 'r');
            }
            assert(white != black) by {
                assert(white[0] == 'w' && black[0] == 'b');
            }
            assert(white != green) by {
                assert(white[0] == 'w' && green[0] == 'g');
            }
        }
        Color::Rgb(r, g, b) => {
            let s = c.spec_text();
            assert(s == seq!['#'] + byte_hex(r) + byte_hex(g) + byte_hex(b));
            assert(s.len() == 7);
            assert(s[0] == '#');
            assert(s[1] == hex_digit_char(r as int / 16));
            assert(s[2] == hex_digit_char(r as int % 16));
            assert(s[3] == hex_digit_char(g as int / 16));
            assert(s[4] == hex_digit_char(g as int % 16));
            assert(s[5] == hex_digit_char(b as int / 16));
            assert(s[6] == hex_digit_char(b as int % 16));
            lemma_hex_digit_round_trip(r as int / 16);
            lemma_hex_digit_round_trip(r as int % 16);
            lemma_hex_digit_round_trip(g as int / 16);
            lemma_hex_digit_round_trip(g as int % 16);
            lemma_hex_digit_round_trip(b as int / 16);
            lemma_hex_digit_round_trip(b as int % 16);
            assert(hex_pair_val(s[1], s[2]) == r);
            assert(hex_pair_val(s[3], s[4]) == g);
            assert(hex_pair_val(s[5], s[6]) == b);
        }
    }
}

/// Immutable settings for one port: device path, baud rate, the line ending
/// appended to outgoing payloads, and the display color of its output.
#[derive(Debug)]
pub struct PortConfig {
    /// Device path, such as `/dev/ttyUSB0` or `COM3`.
    pub path: String,
    /// Baud rate in bits per second.
    pub baud_rate: u32,
    /// Line ending appended to transmitted data.
    pub line_ending: LineEnding,
    /// Display color of this port's output.
    pub color: Color,
}

impl PortConfig {
    /// Value equality over all four fields.
    pub open spec fn eq_spec_with(&self, other: &PortConfig) -> bool {
        self.path@ == other.path@ && self.baud_rate == other.baud_rate && self.line_ending
            == other.line_ending && self.color == other.color
    }
}

impl Clone for PortConfig {
    fn clone(&self) -> (r: PortConfig)
        ensures
            r.eq_spec_with(self),
    {
        PortConfig {
            path: self.path.clone(),
            baud_rate: self.baud_rate,
            line_ending: self.line_ending,
            color: self.color,
        }
    }
}

impl PartialEq for PortConfig {
    fn eq(&self, other: &PortConfig) -> (r: bool) {
        self.path == other.path && self.baud_rate == other.baud_rate && self.line_ending
            == other.line_ending && self.color == other.color
    }
}

impl vstd::std_specs::cmp::PartialEqSpecImpl for PortConfig {
    open spec fn obeys_eq_spec() -> bool {
        true
    }

    open spec fn eq_spec(&self, other: &PortConfig) -> bool {
        self.eq_spec_with(other)
    }
}

impl Default for PortConfig {
    /// The defaults of the configuration file: empty path, 115 200 baud,
    /// `lf` line ending, `reset` color.
    fn default() -> (r: PortConfig)
        ensures
            r.path@ == Seq::<char>::empty(),
            r.baud_rate == 115200,
            r.line_ending == LineEnding::LF,
            r.color == Color::Reset,
    {
        PortConfig {
            path: String::new(),
            baud_rate: 115200,
            line_ending: LineEnding::LF,
            color: Color::Reset,
        }
    }
}

} // verus!
