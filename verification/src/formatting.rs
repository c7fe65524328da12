//! Code tables: the fixed mappings between single-character style and color
//! codes, symbolic names, and terminal display attributes.

use vstd::prelude::*;
use vstd::string::StrSliceExecFns;
use vstd::string::StringExecFns;

use crate::error::{ChatColorParseError, ChatFormatParseError, ColorErrorV, FormatErrorV};
use crate::text::{push_char, str_eq};

verus! {

/// The outcome of a color parse with the error payloads abstracted to
/// character sequences, so that contracts can state both sides exactly.
pub open spec fn color_result_view(r: Result<ChatColor, ChatColorParseError>) -> Result<
    ChatColor,
    ColorErrorV,
> {
    match r {
        Ok(c) => Ok(c),
        Err(e) => Err(e@),
    }
}

/// The outcome of a style flag parse, abstracted like [`color_result_view`].
pub open spec fn format_result_view(r: Result<ChatFormat, ChatFormatParseError>) -> Result<
    ChatFormat,
    FormatErrorV,
> {
    match r {
        Ok(f) => Ok(f),
        Err(e) => Err(e@),
    }
}

/// A chat color: one of the sixteen named colors, the explicit `reset`
/// pseudo-color, or an arbitrary red/green/blue byte triplet. Only the named
/// colors and `reset` have a single-character legacy code.
#[derive(Debug, Clone, Copy, PartialEq, Eq, Hash)]
pub enum ChatColor {
    Black,
    DarkBlue,
    DarkGreen,
    DarkAqua,
    DarkRed,
    DarkPurple,
    Gold,
    Gray,
    DarkGray,
    Blue,
    Green,
    Aqua,
    Red,
    LightPurple,
    Yellow,
    White,
    Reset,
    Hex([u8; 3]),
}

/// A style flag. The five flags are independent and combinable; `reset` is
/// recognized as a color value, not a flag.
#[derive(Debug, Clone, Copy, PartialEq, Eq, Hash)]
pub enum ChatFormat {
    Bold,
    Italic,
    Underlined,
    Strikethrough,
    Obfuscated,
}

/// The single-character legacy code of a color, if it has one: `0-9a-f` for
/// the named colors, `r` for reset, and none for a byte triplet.
pub open spec fn spec_color_code(c: ChatColor) -> Option<char> {
    match c {
        ChatColor::Black => Some('0'),
        ChatColor::DarkBlue => Some('1'),
        ChatColor::DarkGreen => Some('2'),
        ChatColor::DarkAqua => Some('3'),
        ChatColor::DarkRed => Some('4'),
        ChatColor::DarkPurple => Some('5'),
        ChatColor::Gold => Some('6'),
        ChatColor::Gray => Some('7'),
        ChatColor::DarkGray => Some('8'),
        ChatColor::Blue => Some('9'),
        ChatColor::Green => Some('a'),
        ChatColor::Aqua => Some('b'),
        ChatColor::Red => Some('c'),
        ChatColor::LightPurple => Some('d'),
        ChatColor::Yellow => Some('e'),
        ChatColor::White => Some('f'),
        ChatColor::Reset => Some('r'),
        ChatColor::Hex(_) => None,
    }
}

/// The color a single code character stands for, if any.
pub open spec fn spec_color_of_code(c: char) -> Option<ChatColor> {
    if c == '0' {
        Some(ChatColor::Black)
    } else if c == '1' {
        Some(ChatColor::DarkBlue)
    } else if c == '2' {
        Some(ChatColor::DarkGreen)
    } else if c == '3' {
        Some(ChatColor::DarkAqua)
    } else if c == '4' {
        Some(ChatColor::DarkRed)
    } else if c == '5' {
        Some(ChatColor::DarkPurple)
    } else if c == '6' {
        Some(ChatColor::Gold)
    } else if c == '7' {
        Some(ChatColor::Gray)
    } else if c == '8' {
        Some(ChatColor::DarkGray)
    } else if c == '9' {
        Some(ChatColor::Blue)
    } else if c == 'a' {
        Some(ChatColor::Green)
    } else if c == 'b' {
        Some(ChatColor::Aqua)
    } else if c == 'c' {
        Some(ChatColor::Red)
    } else if c == 'd' {
        Some(ChatColor::LightPurple)
    } else if c == 'e' {
        Some(ChatColor::Yellow)
    } else if c == 'f' {
        Some(ChatColor::White)
    } else if c == 'r' {
        Some(ChatColor::Reset)
    } else {
        None
    }
}

/// The single-character legacy code of a style flag.
pub open spec fn spec_format_code(f: ChatFormat) -> char {
    match f {
        ChatFormat::Bold => 'l',
        ChatFormat::Italic => 'o',
        ChatFormat::Underlined => 'n',
        ChatFormat::Strikethrough => 'm',
        ChatFormat::Obfuscated => 'k',
    }
}

/// The style flag a single code character stands for, if any.
pub open spec fn spec_format_of_code(c: char) -> Option<ChatFormat> {
    if c == 'l' {
        Some(ChatFormat::Bold)
    } else if c == 'm' {
        Some(ChatFormat::Strikethrough)
    } else if c == 'n' {
        Some(ChatFormat::Underlined)
    } else if c == 'o' {
        Some(ChatFormat::Italic)
    } else if c == 'k' {
        Some(ChatFormat::Obfuscated)
    } else {
        None
    }
}

/// The terminal display attribute of a named color: `30-37` and `90-97`.
/// Unused for `reset` and for byte triplets, which render differently.
pub open spec fn spec_color_attr(c: ChatColor) -> u8 {
    match c {
        ChatColor::Black => 30,
        ChatColor::DarkBlue => 34,
        ChatColor::DarkGreen => 32,
        ChatColor::DarkAqua => 36,
        ChatColor::DarkRed => 31,
        ChatColor::DarkPurple => 35,
        ChatColor::Gold => 33,
        ChatColor::Gray => 37,
        ChatColor::DarkGray => 90,
        ChatColor::Blue => 94,
        ChatColor::Green => 92,
        ChatColor::Aqua => 96,
        ChatColor::Red => 91,
        ChatColor::LightPurple => 95,
        ChatColor::Yellow => 93,
        ChatColor::White => 97,
        ChatColor::Reset => 0,
        ChatColor::Hex(_) => 0,
    }
}

/// The terminal display attribute of a style flag.
pub open spec fn spec_format_attr(f: ChatFormat) -> u8 {
    match f {
        ChatFormat::Bold => 1,
        ChatFormat::Italic => 3,
        ChatFormat::Underlined => 4,
        ChatFormat::Strikethrough => 9,
        ChatFormat::Obfuscated => 8,
    }
}

/// The numeric value of a hexadecimal digit character, either case.
pub open spec fn spec_hex_val(c: char) -> Option<u8> {
    if c == '0' {
        Some(0u8)
    } else if c == '1' {
        Some(1u8)
    } else if c == '2' {
        Some(2u8)
    } else if c == '3' {
        Some(3u8)
    } else if c == '4' {
        Some(4u8)
    } else if c == '5' {
        Some(5u8)
    } else if c == '6' {
        Some(6u8)
    } else if c == '7' {
        Some(7u8)
    } else if c == '8' {
        Some(8u8)
    } else if c == '9' {
        Some(9u8)
    } else if c == 'a' || c == 'A' {
        Some(10u8)
    } else if c == 'b' || c == 'B' {
        Some(11u8)
    } else if c == 'c' || c == 'C' {
        Some(12u8)
    } else if c == 'd' || c == 'D' {
        Some(13u8)
    } else if c == 'e' || c == 'E' {
        Some(14u8)
    } else if c == 'f' || c == 'F' {
        Some(15u8)
    } else {
        None
    }
}

/// The uppercase hexadecimal digit character for a value below sixteen.
pub open spec fn spec_hex_digit(d: u8) -> char {
    if d == 0 {
        '0'
    } else if d == 1 {
        '1'
    } else if d == 2 {
        '2'
    } else if d == 3 {
        '3'
    } else if d == 4 {
        '4'
    } else if d == 5 {
        '5'
    } else if d == 6 {
        '6'
    } else if d == 7 {
        '7'
    } else if d == 8 {
        '8'
    } else if d == 9 {
        '9'
    } else if d == 10 {
        'A'
    } else if d == 11 {
        'B'
    } else if d == 12 {
        'C'
    } else if d == 13 {
        'D'
    } else if d == 14 {
        'E'
    } else {
        'F'
    }
}

/// The two uppercase hexadecimal digits of a byte.
pub open spec fn spec_hex_byte(b: u8) -> Seq<char> {
    seq![spec_hex_digit(b / 16), spec_hex_digit(b % 16)]
}

/// The value of the two-digit hexadecimal group at `i`, if both characters
/// are hexadecimal digits.
pub open spec fn spec_hex_group(s: Seq<char>, i: int) -> Option<u8>
    recommends
        0 <= i && i + 1 < s.len(),
{
    match (spec_hex_val(s[i]), spec_hex_val(s[i + 1])) {
        (Some(h), Some(l)) => Some((16 * h + l) as u8),
        _ => None,
    }
}

/// The display name of a color: the symbolic lowercase name of a named
/// color, `reset`, or the `#RRGGBB` form of a byte triplet.
pub open spec fn spec_color_name(c: ChatColor) -> Seq<char> {
    match c {
        ChatColor::Black => "black"@,
        ChatColor::DarkBlue => "dark_blue"@,
        ChatColor::DarkGreen => "dark_green"@,
        ChatColor::DarkAqua => "dark_aqua"@,
        ChatColor::DarkRed => "dark_red"@,
        ChatColor::DarkPurple => "dark_purple"@,
        ChatColor::Gold => "gold"@,
        ChatColor::Gray => "gray"@,
        ChatColor::DarkGray => "dark_gray"@,
        ChatColor::Blue => "blue"@,
        ChatColor::Green => "green"@,
        ChatColor::Aqua => "aqua"@,
        ChatColor::Red => "red"@,
        ChatColor::LightPurple => "light_purple"@,
        ChatColor::Yellow => "yellow"@,
        ChatColor::White => "white"@,
        ChatColor::Reset => "reset"@,
        ChatColor::Hex(rgb) => "#"@ + spec_hex_byte(rgb[0]) + spec_hex_byte(rgb[1]) + spec_hex_byte(
            rgb[2],
        ),
    }
}

/// What parsing a `#RRGGBB` string yields: the byte triplet, or the error
/// for a malformed shape or the first channel group that is not hex.
pub open spec fn spec_color_from_hex(s: Seq<char>) -> Result<ChatColor, ColorErrorV> {
    if s.len() != 7 || s[0] != '#' {
        Err(ColorErrorV::InvalidHexFormat { found: s })
    } else {
        match (spec_hex_group(s, 1), spec_hex_group(s, 3), spec_hex_group(s, 5)) {
            (None, _, _) => Err(ColorErrorV::HexUnparsableInt { found: s.subrange(1, 3) }),
            (Some(_), None, _) => Err(ColorErrorV::HexUnparsableInt { found: s.subrange(3, 5) }),
            (Some(_), Some(_), None) => Err(
                ColorErrorV::HexUnparsableInt { found: s.subrange(5, 7) },
            ),
            (Some(r), Some(g), Some(b)) => Ok(ChatColor::Hex([r, g, b])),
        }
    }
}

/// What decoding a single color code character yields.
pub open spec fn spec_color_from_code_char(c: char) -> Result<ChatColor, ColorErrorV> {
    match spec_color_of_code(c) {
        Some(col) => Ok(col),
        None => Err(ColorErrorV::InvalidColorCodeChar { color_code_char: c }),
    }
}

/// What decoding a marker-plus-code color escape string yields.
pub open spec fn spec_color_from_code(s: Seq<char>) -> Result<ChatColor, ColorErrorV> {
    if s.len() == 2 {
        spec_color_from_code_char(s[1])
    } else {
        Err(ColorErrorV::InvalidColorCodeFormat { found: s, length: s.len() })
    }
}

/// What parsing a symbolic color name yields.
pub open spec fn spec_color_from_name(s: Seq<char>) -> Result<ChatColor, ColorErrorV> {
    if s == "black"@ {
        Ok(ChatColor::Black)
    } else if s == "dark_blue"@ {
        Ok(ChatColor::DarkBlue)
    } else if s == "dark_green"@ {
        Ok(ChatColor::DarkGreen)
    } else if s == "dark_aqua"@ {
        Ok(ChatColor::DarkAqua)
    } else if s == "dark_red"@ {
        Ok(ChatColor::DarkRed)
    } else if s == "dark_purple"@ {
        Ok(ChatColor::DarkPurple)
    } else if s == "gold"@ {
        Ok(ChatColor::Gold)
    } else if s == "gray"@ {
        Ok(ChatColor::Gray)
    } else if s == "dark_gray"@ {
        Ok(ChatColor::DarkGray)
    } else if s == "blue"@ {
        Ok(ChatColor::Blue)
    } else if s == "green"@ {
        Ok(ChatColor::Green)
    } else if s == "aqua"@ {
        Ok(ChatColor::Aqua)
    } else if s == "red"@ {
        Ok(ChatColor::Red)
    } else if s == "light_purple"@ {
        Ok(ChatColor::LightPurple)
    } else if s == "yellow"@ {
        Ok(ChatColor::Yellow)
    } else if s == "white"@ {
        Ok(ChatColor::White)
    } else if s == "reset"@ {
        Ok(ChatColor::Reset)
    } else {
        Err(ColorErrorV::InvalidColorName { color_name: s })
    }
}

/// What parsing an arbitrary standalone color string yields: the hex form
/// for a leading `#`, the escape form for a leading marker, and otherwise a
/// symbolic name, with name failures collapsed to the generic error.
pub open spec fn spec_color_from_str(s: Seq<char>) -> Result<ChatColor, ColorErrorV> {
    if s.len() > 0 && s[0] == '#' {
        spec_color_from_hex(s)
    } else if s.len() > 0 && s[0] == crate::spec_marker() {
        spec_color_from_code(s)
    } else {
        match spec_color_from_name(s) {
            Ok(c) => Ok(c),
            Err(_) => Err(ColorErrorV::UnknownChatColorFormat),
        }
    }
}

/// What decoding a single style flag code character yields.
pub open spec fn spec_format_from_code_char(c: char) -> Result<ChatFormat, FormatErrorV> {
    match spec_format_of_code(c) {
        Some(f) => Ok(f),
        None => Err(FormatErrorV::InvalidFormatCodeChar { format_code_char: c }),
    }
}

/// What decoding a marker-plus-code style flag escape string yields.
pub open spec fn spec_format_from_code(s: Seq<char>) -> Result<ChatFormat, FormatErrorV> {
    if s.len() == 2 {
        spec_format_from_code_char(s[1])
    } else {
        Err(FormatErrorV::InvalidFormatCodeFormat { found: s, length: s.len() })
    }
}

/// The decimal digit character for a value below ten.
pub open spec fn spec_dec_digit(d: u8) -> char {
    if d == 0 {
        '0'
    } else if d == 1 {
        '1'
    } else if d == 2 {
        '2'
    } else if d == 3 {
        '3'
    } else if d == 4 {
        '4'
    } else if d == 5 {
        '5'
    } else if d == 6 {
        '6'
    } else if d == 7 {
        '7'
    } else if d == 8 {
        '8'
    } else {
        '9'
    }
}

/// The shortest decimal rendering of a byte: one to three digits.
pub open spec fn spec_dec_u8(v: u8) -> Seq<char> {
    if v < 10 {
        seq![spec_dec_digit(v)]
    } else if v < 100 {
        seq![spec_dec_digit(v / 10), spec_dec_digit(v % 10)]
    } else {
        seq![spec_dec_digit(v / 100), spec_dec_digit((v / 10) % 10), spec_dec_digit(v % 10)]
    }
}

/// The terminal escape for a style flag: `ESC [ <attr> m`.
pub open spec fn spec_format_ansi(f: ChatFormat) -> Seq<char> {
    "\u{1b}["@ + spec_dec_u8(spec_format_attr(f)) + "m"@
}

/// The terminal escape for a color. With `reset` set, the attribute list is
/// prefixed by `0;` so that earlier styling is cleared first. The `reset`
/// color is always the bare clear-all escape; a byte triplet uses the
/// 24-bit `38;2;R;G;B` form.
pub open spec fn spec_color_ansi(c: ChatColor, reset: bool) -> Seq<char> {
    match c {
        ChatColor::Reset => "\u{1b}[0m"@,
        ChatColor::Hex(rgb) => "\u{1b}["@ + (if reset {
            "0;"@
        } else {
            Seq::<char>::empty()
        }) + "38;2;"@ + spec_dec_u8(rgb[0]) + ";"@ + spec_dec_u8(rgb[1]) + ";"@ + spec_dec_u8(
            rgb[2],
        ) + "m"@,
        _ => "\u{1b}["@ + (if reset {
            "0;"@
        } else {
            Seq::<char>::empty()
        }) + spec_dec_u8(spec_color_attr(c)) + "m"@,
    }
}

/// The decimal digit character for `d`, which must be below ten.
fn dec_digit(d: u8) -> (r: char)
    requires
        d < 10,
    ensures
        r == spec_dec_digit(d),
{
    match d {
        0 => '0',
        1 => '1',
        2 => '2',
        3 => '3',
        4 => '4',
        5 => '5',
        6 => '6',
        7 => '7',
        8 => '8',
        _ => '9',
    }
}

/// Appends the shortest decimal rendering of `v` to `out`.
fn push_dec_u8(out: &mut String, v: u8)
    ensures
        final(out)@ == old(out)@ + spec_dec_u8(v),
{
    if v >= 100 {
        push_char(out, dec_digit(v / 100));
    }
    if v >= 10 {
        push_char(out, dec_digit((v / 10) % 10));
    }
    push_char(out, dec_digit(v % 10));
    proof {
        if v < 10 {
            assert(old(out)@ + seq![spec_dec_digit(v % 10)] =~= old(out)@ + spec_dec_u8(v));
        } else if v < 100 {
            assert(v / 10 == (v / 10) % 10);
            assert(old(out)@ + seq![spec_dec_digit((v / 10) % 10)] + seq![spec_dec_digit(v % 10)]
                =~= old(out)@ + spec_dec_u8(v));
        } else {
            assert(old(out)@ + seq![spec_dec_digit(v / 100)] + seq![spec_dec_digit((v / 10) % 10)]
                + seq![spec_dec_digit(v % 10)] =~= old(out)@ + spec_dec_u8(v));
        }
    }
}

impl ChatFormat {
    /// Decodes a single style flag code character.
    pub fn from_format_code_char(format_code_char: char) -> (r: Result<Self, ChatFormatParseError>)
        ensures
            format_result_view(r) == spec_format_from_code_char(format_code_char),
    {
        match format_code_char {
            'l' => Ok(ChatFormat::Bold),
            'm' => Ok(ChatFormat::Strikethrough),
            'n' => Ok(ChatFormat::Underlined),
            'o' => Ok(ChatFormat::Italic),
            'k' => Ok(ChatFormat::Obfuscated),
            _ => Err(ChatFormatParseError::InvalidFormatCodeChar { format_code_char }),
        }
    }

    /// Decodes a two-character escape, the marker followed by one flag code
    /// (the first character itself is not validated). The wrong-length
    /// error's `length` deliberately counts characters, the same unit as the
    /// length check itself.
    pub fn from_format_code(format_code: &str) -> (r: Result<Self, ChatFormatParseError>)
        ensures
            format_result_view(r) == spec_format_from_code(format_code@),
    {
        if format_code.unicode_len() == 2 {
            Self::from_format_code_char(format_code.get_char(1))
        } else {
            Err(
                ChatFormatParseError::InvalidFormatCodeFormat {
                    found: format_code.to_owned(),
                    length: format_code.unicode_len(),
                },
            )
        }
    }

    /// The single-character legacy code of this flag.
    pub fn into_format_code(self) -> (r: char)
        ensures
            r == spec_format_code(self),
    {
        match self {
            ChatFormat::Bold => 'l',
            ChatFormat::Italic => 'o',
            ChatFormat::Underlined => 'n',
            ChatFormat::Strikethrough => 'm',
            ChatFormat::Obfuscated => 'k',
        }
    }

    /// The terminal display attribute of this flag.
    pub fn into_ansi_display_attribute(self) -> (r: u8)
        ensures
            r == spec_format_attr(self),
    {
        match self {
            ChatFormat::Bold => 1,
            ChatFormat::Italic => 3,
            ChatFormat::Underlined => 4,
            ChatFormat::Strikethrough => 9,
            ChatFormat::Obfuscated => 8,
        }
    }

    /// The terminal escape that switches this flag on.
    pub fn into_ansi_escape_code(self) -> (r: String)
        ensures
            r@ == spec_format_ansi(self),
    {
        let mut out = String::new();
        out.append("\u{1b}[");
        push_dec_u8(&mut out, self.into_ansi_display_attribute());
        out.append("m");
        out
    }
}

/// The numeric value of a hexadecimal digit character, if it is one.
fn hex_char_val(c: char) -> (r: Option<u8>)
    ensures
        r == spec_hex_val(c),
        r matches Some(v) ==> v < 16,
{
    match c {
        '0' => Some(0),
        '1' => Some(1),
        '2' => Some(2),
        '3' => Some(3),
        '4' => Some(4),
        '5' => Some(5),
        '6' => Some(6),
        '7' => Some(7),
        '8' => Some(8),
        '9' => Some(9),
        'a' | 'A' => Some(10),
        'b' | 'B' => Some(11),
        'c' | 'C' => Some(12),
        'd' | 'D' => Some(13),
        'e' | 'E' => Some(14),
        'f' | 'F' => Some(15),
        _ => None,
    }
}

/// The uppercase hexadecimal digit character for `d`, which must be below
/// sixteen.
fn hex_digit(d: u8) -> (r: char)
    requires
        d < 16,
    ensures
        r == spec_hex_digit(d),
{
    match d {
        0 => '0',
        1 => '1',
        2 => '2',
        3 => '3',
        4 => '4',
        5 => '5',
        6 => '6',
        7 => '7',
        8 => '8',
        9 => '9',
        10 => 'A',
        11 => 'B',
        12 => 'C',
        13 => 'D',
        14 => 'E',
        _ => 'F',
    }
}

/// Appends the two uppercase hexadecimal digits of `b` to `out`.
fn push_hex_byte(out: &mut String, b: u8)
    ensures
        final(out)@ == old(out)@ + spec_hex_byte(b),
{
    push_char(out, hex_digit(b / 16));
    push_char(out, hex_digit(b % 16));
    proof {
        assert(old(out)@ + seq![spec_hex_digit(b / 16)] + seq![spec_hex_digit(b % 16)] =~= old(
            out,
        )@ + spec_hex_byte(b));
    }
}

/// Reads the two-digit hexadecimal group of `s` starting at `i`, or reports
/// the group itself when it is not hexadecimal.
fn hex_group(s: &str, i: usize) -> (r: Result<u8, ChatColorParseError>)
    requires
        i + 2 <= s@.len(),
        s@.len() <= usize::MAX,
    ensures
        match spec_hex_group(s@, i as int) {
            Some(v) => r == Ok::<u8, ChatColorParseError>(v),
            None => r matches Err(e) && e@ matches ColorErrorV::HexUnparsableInt { found }
                && found == s@.subrange(i as int, i + 2),
        },
{
    let h = hex_char_val(s.get_char(i));
    let l = hex_char_val(s.get_char(i + 1));
    match (h, l) {
        (Some(h), Some(l)) => Ok(16 * h + l),
        _ => Err(
            ChatColorParseError::HexUnparsableInt {
                found: s.substring_char(i, i + 2).to_owned(),
            },
        ),
    }
}

impl ChatColor {
    /// Parses a `#RRGGBB` hex triplet string into a byte-triplet color.
    /// The shape check deliberately counts characters, not bytes: a valid
    /// hex color is exactly seven characters starting `#`. An input of the
    /// right shape whose digit pairs are not hexadecimal — non-ASCII
    /// characters included — reports the first unparsable group.
    pub fn from_hex_str(hex_str: &str) -> (r: Result<Self, ChatColorParseError>)
        ensures
            color_result_view(r) == spec_color_from_hex(hex_str@),
    {
        if hex_str.unicode_len() != 7 || hex_str.get_char(0) != '#' {
            return Err(ChatColorParseError::InvalidHexFormat { found: hex_str.to_owned() });
        }
        let red = match hex_group(hex_str, 1) {
            Ok(v) => v,
            Err(e) => return Err(e),
        };
        let green = match hex_group(hex_str, 3) {
            Ok(v) => v,
            Err(e) => return Err(e),
        };
        let blue = match hex_group(hex_str, 5) {
            Ok(v) => v,
            Err(e) => return Err(e),
        };
        Ok(ChatColor::Hex([red, green, blue]))
    }

    /// Parses a symbolic color name, `reset` included.
    pub fn from_color_name(color_name: &str) -> (r: Result<Self, ChatColorParseError>)
        ensures
            color_result_view(r) == spec_color_from_name(color_name@),
    {
        if str_eq(color_name, "black") {
            Ok(ChatColor::Black)
        } else if str_eq(color_name, "dark_blue") {
            Ok(ChatColor::DarkBlue)
        } else if str_eq(color_name, "dark_green") {
            Ok(ChatColor::DarkGreen)
        } else if str_eq(color_name, "dark_aqua") {
            Ok(ChatColor::DarkAqua)
        } else if str_eq(color_name, "dark_red") {
            Ok(ChatColor::DarkRed)
        } else if str_eq(color_name, "dark_purple") {
            Ok(ChatColor::DarkPurple)
        } else if str_eq(color_name, "gold") {
            Ok(ChatColor::Gold)
        } else if str_eq(color_name, "gray") {
            Ok(ChatColor::Gray)
        } else if str_eq(color_name, "dark_gray") {
            Ok(ChatColor::DarkGray)
        } else if str_eq(color_name, "blue") {
            Ok(ChatColor::Blue)
        } else if str_eq(color_name, "green") {
            Ok(ChatColor::Green)
        } else if str_eq(color_name, "aqua") {
            Ok(ChatColor::Aqua)
        } else if str_eq(color_name, "red") {
            Ok(ChatColor::Red)
        } else if str_eq(color_name, "light_purple") {
            Ok(ChatColor::LightPurple)
        } else if str_eq(color_name, "yellow") {
            Ok(ChatColor::Yellow)
        } else if str_eq(color_name, "white") {
            Ok(ChatColor::White)
        } else if str_eq(color_name, "reset") {
            Ok(ChatColor::Reset)
        } else {
            Err(ChatColorParseError::InvalidColorName { color_name: color_name.to_owned() })
        }
    }

    /// Parses a standalone color string: `#RRGGBB`, a marker-plus-code
    /// escape, or a symbolic name, in that order of shapes.
    pub fn from_str(s: &str) -> (r: Result<Self, ChatColorParseError>)
        ensures
            color_result_view(r) == spec_color_from_str(s@),
    {
        let n = s.unicode_len();
        if n > 0 && s.get_char(0) == '#' {
            Self::from_hex_str(s)
        } else if n > 0 && s.get_char(0) == '\u{a7}' {
            Self::from_color_code(s)
        } else {
            match Self::from_color_name(s) {
                Ok(c) => Ok(c),
                Err(_) => Err(ChatColorParseError::UnknownChatColorFormat),
            }
        }
    }

    /// The display name of this color: the symbolic name, `reset`, or the
    /// `#RRGGBB` form of a byte triplet.
    pub fn to_display_string(&self) -> (r: String)
        ensures
            r@ == spec_color_name(*self),
    {
        match self {
            ChatColor::Black => String::from_str("black"),
            ChatColor::DarkBlue => String::from_str("dark_blue"),
            ChatColor::DarkGreen => String::from_str("dark_green"),
            ChatColor::DarkAqua => String::from_str("dark_aqua"),
            ChatColor::DarkRed => String::from_str("dark_red"),
            ChatColor::DarkPurple => String::from_str("dark_purple"),
            ChatColor::Gold => String::from_str("gold"),
            ChatColor::Gray => String::from_str("gray"),
            ChatColor::DarkGray => String::from_str("dark_gray"),
            ChatColor::Blue => String::from_str("blue"),
            ChatColor::Green => String::from_str("green"),
            ChatColor::Aqua => String::from_str("aqua"),
            ChatColor::Red => String::from_str("red"),
            ChatColor::LightPurple => String::from_str("light_purple"),
            ChatColor::Yellow => String::from_str("yellow"),
            ChatColor::White => String::from_str("white"),
            ChatColor::Reset => String::from_str("reset"),
            ChatColor::Hex(rgb) => {
                let mut out = String::new();
                out.append("#");
                push_hex_byte(&mut out, rgb[0]);
                push_hex_byte(&mut out, rgb[1]);
                push_hex_byte(&mut out, rgb[2]);
                proof {
                    assert(out@ =~= spec_color_name(*self));
                }
                out
            },
        }
    }

    /// Decodes a single color code character, `reset` included.
    pub fn from_color_code_char(color_code_char: char) -> (r: Result<Self, ChatColorParseError>)
        ensures
            color_result_view(r) == spec_color_from_code_char(color_code_char),
    {
        match color_code_char {
            '0' => Ok(ChatColor::Black),
            '1' => Ok(ChatColor::DarkBlue),
            '2' => Ok(ChatColor::DarkGreen),
            '3' => Ok(ChatColor::DarkAqua),
            '4' => Ok(ChatColor::DarkRed),
            '5' => Ok(ChatColor::DarkPurple),
            '6' => Ok(ChatColor::Gold),
            '7' => Ok(ChatColor::Gray),
            '8' => Ok(ChatColor::DarkGray),
            '9' => Ok(ChatColor::Blue),
            'a' => Ok(ChatColor::Green),
            'b' => Ok(ChatColor::Aqua),
            'c' => Ok(ChatColor::Red),
            'd' => Ok(ChatColor::LightPurple),
            'e' => Ok(ChatColor::Yellow),
            'f' => Ok(ChatColor::White),
            'r' => Ok(ChatColor::Reset),
            _ => Err(ChatColorParseError::InvalidColorCodeChar { color_code_char }),
        }
    }

    /// Decodes a two-character escape, the marker followed by one color code
    /// (the first character itself is not validated). The wrong-length
    /// error's `length` deliberately counts characters, the same unit as the
    /// length check itself.
    pub fn from_color_code(color_code: &str) -> (r: Result<Self, ChatColorParseError>)
        ensures
            color_result_view(r) == spec_color_from_code(color_code@),
    {
        if color_code.unicode_len() == 2 {
            Self::from_color_code_char(color_code.get_char(1))
        } else {
            Err(
                ChatColorParseError::InvalidColorCodeFormat {
                    found: color_code.to_owned(),
                    length: color_code.unicode_len(),
                },
            )
        }
    }

    /// The single-character legacy code of this color, if it has one.
    pub fn into_color_code(self) -> (r: Option<char>)
        ensures
            r == spec_color_code(self),
    {
        match self {
            ChatColor::Black => Some('0'),
            ChatColor::DarkBlue => Some('1'),
            ChatColor::DarkGreen => Some('2'),
            ChatColor::DarkAqua => Some('3'),
            ChatColor::DarkRed => Some('4'),
            ChatColor::DarkPurple => Some('5'),
            ChatColor::Gold => Some('6'),
            ChatColor::Gray => Some('7'),
            ChatColor::DarkGray => Some('8'),
            ChatColor::Blue => Some('9'),
            ChatColor::Green => Some('a'),
            ChatColor::Aqua => Some('b'),
            ChatColor::Red => Some('c'),
            ChatColor::LightPurple => Some('d'),
            ChatColor::Yellow => Some('e'),
            ChatColor::White => Some('f'),
            ChatColor::Reset => Some('r'),
            ChatColor::Hex(_) => None,
        }
    }

    /// The terminal display attribute of this color (meaningful for the
    /// sixteen named colors).
    pub fn into_ansi_display_attribute(self) -> (r: u8)
        ensures
            r == spec_color_attr(self),
    {
        match self {
            ChatColor::Black => 30,
            ChatColor::DarkBlue => 34,
            ChatColor::DarkGreen => 32,
            ChatColor::DarkAqua => 36,
            ChatColor::DarkRed => 31,
            ChatColor::DarkPurple => 35,
            ChatColor::Gold => 33,
            ChatColor::Gray => 37,
            ChatColor::DarkGray => 90,
            ChatColor::Blue => 94,
            ChatColor::Green => 92,
            ChatColor::Aqua => 96,
            ChatColor::Red => 91,
            ChatColor::LightPurple => 95,
            ChatColor::Yellow => 93,
            ChatColor::White => 97,
            ChatColor::Reset => 0,
            ChatColor::Hex(_) => 0,
        }
    }

    /// The terminal escape that switches to this color, optionally clearing
    /// earlier styling first.
    pub fn into_ansi_escape_code(self, reset_formatting: bool) -> (r: String)
        ensures
            r@ == spec_color_ansi(self, reset_formatting),
    {
        match self {
            ChatColor::Reset => {
                let mut out = String::new();
                out.append("\u{1b}[0m");
                out
            },
            ChatColor::Hex(rgb) => {
                let mut out = String::new();
                out.append("\u{1b}[");
                if reset_formatting {
                    out.append("0;");
                }
                out.append("38;2;");
                push_dec_u8(&mut out, rgb[0]);
                out.append(";");
                push_dec_u8(&mut out, rgb[1]);
                out.append(";");
                push_dec_u8(&mut out, rgb[2]);
                out.append("m");
                out
            },
            _ => {
                let mut out = String::new();
                out.append("\u{1b}[");
                if reset_formatting {
                    out.append("0;");
                }
                push_dec_u8(&mut out, self.into_ansi_display_attribute());
                out.append("m");
                out
            },
        }
    }
}

/// The code table is a bijection: every color with a single-character code
/// decodes back to itself, and every recognized code character encodes back
/// to the same character.
pub proof fn lemma_color_code_bijection()
    ensures
        forall|c: ChatColor| #[trigger] spec_color_code(c) matches Some(ch)
            ==> spec_color_of_code(ch) == Some(c),
        forall|ch: char| #[trigger] spec_color_of_code(ch) matches Some(c)
            ==> spec_color_code(c) == Some(ch),
{
}

/// The style flag code table is a bijection.
pub proof fn lemma_format_code_bijection()
    ensures
        forall|f: ChatFormat| spec_format_of_code(#[trigger] spec_format_code(f)) == Some(f),
        forall|ch: char| #[trigger] spec_format_of_code(ch) matches Some(f)
            ==> spec_format_code(f) == ch,
{
}

/// A hexadecimal digit decodes back to its value.
proof fn lemma_hex_digit_round_trip(d: u8)
    requires
        d < 16,
    ensures
        spec_hex_val(spec_hex_digit(d)) == Some(d),
{
}

/// A byte's two-digit hexadecimal rendering decodes back to the byte.
proof fn lemma_hex_byte_round_trip(b: u8)
    ensures
        spec_hex_val(spec_hex_byte(b)[0]) == Some(b / 16),
        spec_hex_val(spec_hex_byte(b)[1]) == Some(b % 16),
        16 * (b / 16) + b % 16 == b,
{
    lemma_hex_digit_round_trip(b / 16);
    lemma_hex_digit_round_trip(b % 16);
}

/// Every color round-trips through its display name: the named colors and
/// `reset` through their symbolic names, a byte triplet through its
/// `#RRGGBB` form.
pub proof fn lemma_color_display_round_trip(c: ChatColor)
    ensures
        spec_color_from_str(spec_color_name(c)) == Ok::<ChatColor, ColorErrorV>(c),
{
    reveal_strlit("black");
    reveal_strlit("dark_blue");
    reveal_strlit("dark_green");
    reveal_strlit("dark_aqua");
    reveal_strlit("dark_red");
    reveal_strlit("dark_purple");
    reveal_strlit("gold");
    reveal_strlit("gray");
    reveal_strlit("dark_gray");
    reveal_strlit("blue");
    reveal_strlit("green");
    reveal_strlit("aqua");
    reveal_strlit("red");
    reveal_strlit("light_purple");
    reveal_strlit("yellow");
    reveal_strlit("white");
    reveal_strlit("reset");
    reveal_strlit("#");
    match c {
        ChatColor::Hex(rgb) => {
            let s = spec_color_name(c);
            lemma_hex_byte_round_trip(rgb[0]);
            lemma_hex_byte_round_trip(rgb[1]);
            lemma_hex_byte_round_trip(rgb[2]);
            assert(s.len() == 7);
            assert(s[0] == '#');
            assert(s[1] == spec_hex_digit(rgb[0] / 16));
            assert(s[2] == spec_hex_digit(rgb[0] % 16));
            assert(s[3] == spec_hex_digit(rgb[1] / 16));
            assert(s[4] == spec_hex_digit(rgb[1] % 16));
            assert(s[5] == spec_hex_digit(rgb[2] / 16));
            assert(s[6] == spec_hex_digit(rgb[2] % 16));
            assert(spec_hex_group(s, 1) == Some(rgb[0]));
            assert(spec_hex_group(s, 3) == Some(rgb[1]));
            assert(spec_hex_group(s, 5) == Some(rgb[2]));
            assert([rgb[0], rgb[1], rgb[2]] =~= rgb) by {
                broadcast use vstd::array::axiom_array_ext_equal;

            }
        },
        _ => {
        },
    }
}

} // verus!
