use chat_formatting::{legacy_to_ansi, legacy_to_plain};

#[test]
fn ansi_translates_known_escapes() {
    assert_eq!(legacy_to_ansi("\u{a7}cRed"), "\u{1b}[0;91mRed");
    assert_eq!(legacy_to_ansi("\u{a7}lBold"), "\u{1b}[1mBold");
    assert_eq!(
        legacy_to_ansi("\u{a7}cA\u{a7}rB"),
        "\u{1b}[0;91mA\u{1b}[0mB"
    );
}

#[test]
fn ansi_copies_unknown_code_characters() {
    assert_eq!(legacy_to_ansi("\u{a7}zX"), "zX");
    assert_eq!(legacy_to_ansi("plain"), "plain");
    // a trailing lone marker is dropped
    assert_eq!(legacy_to_ansi("ab\u{a7}"), "ab");
}

#[test]
fn plain_strips_every_escape() {
    assert_eq!(legacy_to_plain("\u{a7}cHello \u{a7}lWorld"), "Hello World");
    assert_eq!(legacy_to_plain("\u{a7}z\u{a7}\u{a7}x"), "x");
    assert_eq!(legacy_to_plain("ab\u{a7}"), "ab");
}

#[test]
fn plain_output_has_no_marker() {
    for s in [
        "\u{a7}cHello \u{a7}lWorld",
        "\u{a7}\u{a7}\u{a7}",
        "a\u{a7}bc\u{a7}",
        "no escapes at all",
    ] {
        assert!(!legacy_to_plain(s).contains('\u{a7}'));
    }
}
