//! Error values returned by the standalone color / format code parsers.
//!
//! The legacy-string parser never raises these: inside legacy text an
//! unrecognized escape is dropped silently. They are produced only by the
//! explicit parsing entry points that validate standalone strings.

use vstd::prelude::*;

verus! {

/// Ghost model of a [`ChatColorParseError`]: the same variants with the
/// string payloads abstracted to character sequences.
pub enum ColorErrorV {
    InvalidHexFormat { found: Seq<char> },
    HexUnparsableInt { found: Seq<char> },
    UnknownChatColorFormat,
    InvalidColorCodeChar { color_code_char: char },
    InvalidColorCodeFormat { found: Seq<char>, length: nat },
    InvalidColorName { color_name: Seq<char> },
}

/// Raised when a standalone string cannot be read as a color: as a symbolic
/// name, a two-character escape code, or a `#RRGGBB` hex triplet.
#[derive(Debug, PartialEq, Eq)]
pub enum ChatColorParseError {
    /// The input did not have the `#RRGGBB` shape (7 characters starting `#`).
    InvalidHexFormat { found: String },
    /// A two-digit channel group was not valid hexadecimal.
    HexUnparsableInt { found: String },
    /// The input matched none of the accepted color spellings.
    UnknownChatColorFormat,
    /// The character is not one of the color code characters `0-9a-f,r`.
    InvalidColorCodeChar { color_code_char: char },
    /// A code string must be exactly two characters, the marker plus one
    /// code character; `length` counts the characters found.
    InvalidColorCodeFormat { found: String, length: usize },
    /// The name is not one of the sixteen color names or `reset`.
    InvalidColorName { color_name: String },
}

impl View for ChatColorParseError {
    type V = ColorErrorV;

    open spec fn view(&self) -> ColorErrorV {
        match self {
            ChatColorParseError::InvalidHexFormat { found } => ColorErrorV::InvalidHexFormat {
                found: found@,
            },
            ChatColorParseError::HexUnparsableInt { found } => ColorErrorV::HexUnparsableInt {
                found: found@,
            },
            ChatColorParseError::UnknownChatColorFormat => ColorErrorV::UnknownChatColorFormat,
            ChatColorParseError::InvalidColorCodeChar { color_code_char } => (
            ColorErrorV::InvalidColorCodeChar { color_code_char: *color_code_char }),
            ChatColorParseError::InvalidColorCodeFormat { found, length } => (
            ColorErrorV::InvalidColorCodeFormat { found: found@, length: *length as nat }),
            ChatColorParseError::InvalidColorName { color_name } => ColorErrorV::InvalidColorName {
                color_name: color_name@,
            },
        }
    }
}

/// Raised when translation-table content is not a JSON object of strings.
/// Carries the decoder's diagnostic message.
#[derive(Debug, PartialEq, Eq)]
pub struct TranslationParseError {
    pub message: String,
}

/// Ghost model of a [`ChatFormatParseError`].
pub enum FormatErrorV {
    InvalidFormatCodeChar { format_code_char: char },
    InvalidFormatCodeFormat { found: Seq<char>, length: nat },
}

/// Raised when a standalone string cannot be read as a style flag code.
#[derive(Debug, PartialEq, Eq)]
pub enum ChatFormatParseError {
    /// The character is not one of the flag code characters `k,l,m,n,o`.
    InvalidFormatCodeChar { format_code_char: char },
    /// A code string must be exactly two characters, the marker plus one
    /// code character; `length` counts the characters found.
    InvalidFormatCodeFormat { found: String, length: usize },
}

impl View for ChatFormatParseError {
    type V = FormatErrorV;

    open spec fn view(&self) -> FormatErrorV {
        match self {
            ChatFormatParseError::InvalidFormatCodeChar { format_code_char } => (
            FormatErrorV::InvalidFormatCodeChar { format_code_char: *format_code_char }),
            ChatFormatParseError::InvalidFormatCodeFormat { found, length } => (
            FormatErrorV::InvalidFormatCodeFormat { found: found@, length: *length as nat }),
        }
    }
}

} // verus!
