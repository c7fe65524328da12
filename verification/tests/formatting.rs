use chat_formatting::error::{ChatColorParseError, ChatFormatParseError};
use chat_formatting::formatting::{ChatColor, ChatFormat};

#[test]
fn test_colors() {
    assert_eq!(ChatColor::DarkGray.to_display_string(), "dark_gray");
    assert_eq!(ChatColor::Hex([0xF0, 0x04, 0x20]).to_display_string(), "#F00420");
    assert_eq!(
        ChatColor::from_hex_str("#F00420"),
        Ok(ChatColor::Hex([0xF0, 0x04, 0x20]))
    );
    assert_eq!(ChatColor::from_str("\u{a7}1"), Ok(ChatColor::DarkBlue));
    assert_eq!(ChatColor::from_str("dark_blue"), Ok(ChatColor::DarkBlue));
    assert_eq!(
        ChatColor::from_str("#F00420"),
        Ok(ChatColor::Hex([0xF0, 0x04, 0x20]))
    );
    assert_eq!(
        ChatColor::from_str("foobar"),
        Err(ChatColorParseError::UnknownChatColorFormat)
    );
    ChatColor::from_str("#-azxxxx").unwrap_err();
}

#[test]
fn test_formats() {
    assert_eq!(
        ChatFormat::from_format_code_char('k'),
        Ok(ChatFormat::Obfuscated)
    );
    assert_eq!(
        ChatFormat::from_format_code("\u{a7}m"),
        Ok(ChatFormat::Strikethrough)
    )
}

#[test]
fn color_code_round_trip() {
    let codes = ['0', '1', '2', '3', '4', '5', '6', '7', '8', '9', 'a', 'b', 'c', 'd', 'e', 'f',
        'r'];
    for code in codes {
        let color = ChatColor::from_color_code_char(code).unwrap();
        assert_eq!(color.into_color_code(), Some(code));
    }
    assert_eq!(ChatColor::Hex([1, 2, 3]).into_color_code(), None);
}

#[test]
fn display_round_trip_every_variant() {
    let all = [
        ChatColor::Black,
        ChatColor::DarkBlue,
        ChatColor::DarkGreen,
        ChatColor::DarkAqua,
        ChatColor::DarkRed,
        ChatColor::DarkPurple,
        ChatColor::Gold,
        ChatColor::Gray,
        ChatColor::DarkGray,
        ChatColor::Blue,
        ChatColor::Green,
        ChatColor::Aqua,
        ChatColor::Red,
        ChatColor::LightPurple,
        ChatColor::Yellow,
        ChatColor::White,
        ChatColor::Reset,
        ChatColor::Hex([0x00, 0xFF, 0x7F]),
    ];
    for color in all {
        assert_eq!(ChatColor::from_str(&color.to_display_string()), Ok(color));
    }
}

#[test]
fn hex_parse_errors() {
    assert_eq!(
        ChatColor::from_hex_str("nope"),
        Err(ChatColorParseError::InvalidHexFormat {
            found: "nope".to_owned()
        })
    );
    assert_eq!(
        ChatColor::from_hex_str("#zz0000"),
        Err(ChatColorParseError::HexUnparsableInt {
            found: "zz".to_owned()
        })
    );
    assert_eq!(
        ChatColor::from_hex_str("#00gg00"),
        Err(ChatColorParseError::HexUnparsableInt {
            found: "gg".to_owned()
        })
    );
    assert_eq!(ChatColor::from_hex_str("#00ff7f"), Ok(ChatColor::Hex([0, 255, 127])));
}

#[test]
fn code_parse_errors() {
    assert_eq!(
        ChatColor::from_color_code_char('z'),
        Err(ChatColorParseError::InvalidColorCodeChar {
            color_code_char: 'z'
        })
    );
    assert_eq!(
        ChatColor::from_color_code("\u{a7}"),
        Err(ChatColorParseError::InvalidColorCodeFormat {
            found: "\u{a7}".to_owned(),
            length: 1
        })
    );
    assert_eq!(
        ChatColor::from_color_name("nope"),
        Err(ChatColorParseError::InvalidColorName {
            color_name: "nope".to_owned()
        })
    );
    assert_eq!(
        ChatFormat::from_format_code_char('q'),
        Err(ChatFormatParseError::InvalidFormatCodeChar {
            format_code_char: 'q'
        })
    );
    assert_eq!(
        ChatFormat::from_format_code("\u{a7}lx"),
        Err(ChatFormatParseError::InvalidFormatCodeFormat {
            found: "\u{a7}lx".to_owned(),
            length: 3
        })
    );
}

#[test]
fn ansi_escape_codes() {
    assert_eq!(ChatColor::Red.into_ansi_escape_code(true), "\u{1b}[0;91m");
    assert_eq!(ChatColor::Red.into_ansi_escape_code(false), "\u{1b}[91m");
    assert_eq!(ChatColor::Black.into_ansi_escape_code(false), "\u{1b}[30m");
    assert_eq!(ChatColor::Reset.into_ansi_escape_code(true), "\u{1b}[0m");
    assert_eq!(ChatColor::Reset.into_ansi_escape_code(false), "\u{1b}[0m");
    assert_eq!(
        ChatColor::Hex([255, 0, 10]).into_ansi_escape_code(false),
        "\u{1b}[38;2;255;0;10m"
    );
    assert_eq!(
        ChatColor::Hex([255, 0, 10]).into_ansi_escape_code(true),
        "\u{1b}[0;38;2;255;0;10m"
    );
    assert_eq!(ChatFormat::Bold.into_ansi_display_attribute(), 1);
    assert_eq!(ChatFormat::Obfuscated.into_ansi_display_attribute(), 8);
    assert_eq!(ChatFormat::Strikethrough.into_ansi_escape_code(), "\u{1b}[9m");
}
