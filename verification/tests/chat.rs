use chat_formatting::chat::{Chat, ChatComponent, TextContent, TextFormatter};
use chat_formatting::formatting::ChatColor;
use chat_formatting::translator::Translator;

fn literal(text: &str) -> TextContent {
    TextContent::Literal {
        text: text.to_owned(),
    }
}

#[test]
fn parse_carries_color_and_accumulates_flags() {
    let chat = Chat::from_legacy("\u{a7}cHello \u{a7}lWorld");
    let expected_root = ChatComponent {
        content: literal("Hello "),
        color: Some(ChatColor::Red),
        extra: vec![ChatComponent {
            content: literal("World"),
            color: Some(ChatColor::Red),
            bold: true,
            ..Default::default()
        }],
        ..Default::default()
    };
    assert_eq!(chat, Chat::Component(expected_root));
}

#[test]
fn parse_unknown_escape_is_dropped() {
    let chat = Chat::from_legacy("\u{a7}z");
    assert_eq!(chat, Chat::Component(ChatComponent::default()));
    let chat = Chat::from_legacy("\u{a7}zab");
    assert_eq!(
        chat,
        Chat::Component(ChatComponent {
            content: literal("ab"),
            ..Default::default()
        })
    );
}

#[test]
fn parse_color_resets_flags() {
    let chat = Chat::from_legacy("\u{a7}lA\u{a7}cB");
    let expected = ChatComponent {
        content: literal("A"),
        bold: true,
        extra: vec![ChatComponent {
            content: literal("B"),
            color: Some(ChatColor::Red),
            ..Default::default()
        }],
        ..Default::default()
    };
    assert_eq!(chat, Chat::Component(expected));
}

#[test]
fn render_emits_prefix_body_and_reset() {
    let t = Translator::default();
    let c = ChatComponent {
        content: literal("Hi"),
        color: Some(ChatColor::Gold),
        bold: true,
        underlined: true,
        ..Default::default()
    };
    assert_eq!(c.to_legacy_string(&t), "\u{a7}6\u{a7}l\u{a7}nHi\u{a7}r");
}

#[test]
fn render_after_parse() {
    let t = Translator::default();
    let chat = Chat::from_legacy("\u{a7}cHello \u{a7}lWorld");
    assert_eq!(
        chat.to_legacy_string(&t),
        "\u{a7}cHello \u{a7}r\u{a7}c\u{a7}lWorld\u{a7}r"
    );
}

#[test]
fn render_fixed_point_after_one_cycle() {
    let t = Translator::default();
    let cycle = |s: &str| Chat::from_legacy(s).to_legacy_string(&t);
    for s in ["A\u{a7}lB", "", "\u{a7}cHello \u{a7}lWorld", "x\u{a7}", "\u{a7}z\u{a7}1ok"] {
        let once = cycle(s);
        let twice = cycle(&once);
        let thrice = cycle(&twice);
        assert_eq!(thrice, twice);
    }
}

#[test]
fn render_placeholders() {
    let t = Translator::default();
    let keybind = ChatComponent {
        content: TextContent::Keybind {
            keybind: "key.jump".to_owned(),
        },
        ..Default::default()
    };
    assert_eq!(keybind.to_legacy_string(&t), "<keybind:\"key.jump\">\u{a7}r");
    let nbt = ChatComponent {
        content: TextContent::Nbt {
            nbt: "path".to_owned(),
            interpret: false,
            separator: None,
            block: None,
            entity: None,
            storage: None,
        },
        ..Default::default()
    };
    assert_eq!(nbt.to_legacy_string(&t), "<nbt>\u{a7}r");
    let selector = ChatComponent {
        content: TextContent::EntityNamesSelector {
            selector: "@a".to_owned(),
            separator: None,
        },
        ..Default::default()
    };
    assert_eq!(selector.to_legacy_string(&t), "<selector:\"@a\">\u{a7}r");
}

#[test]
fn render_translatable_restores_formatting_after_arguments() {
    let t = Translator::from_pairs(vec![(
        "greeting".to_owned(),
        "Hello %s!".to_owned(),
    )]);
    let c = ChatComponent {
        content: TextContent::Translatable {
            translate: "greeting".to_owned(),
            with: Some(vec![Chat::Legacy("Bob".to_owned())]),
            fallback: None,
        },
        color: Some(ChatColor::Red),
        ..Default::default()
    };
    assert_eq!(c.to_legacy_string(&t), "\u{a7}cHello Bob\u{a7}c!\u{a7}r");
}

#[test]
fn render_translatable_fallback_and_key() {
    let t = Translator::default();
    let with_fallback = ChatComponent {
        content: TextContent::Translatable {
            translate: "missing.key".to_owned(),
            with: None,
            fallback: Some("fell back".to_owned()),
        },
        ..Default::default()
    };
    assert_eq!(with_fallback.to_legacy_string(&t), "fell back\u{a7}r");
    let without_fallback = ChatComponent {
        content: TextContent::Translatable {
            translate: "missing.key".to_owned(),
            with: None,
            fallback: None,
        },
        ..Default::default()
    };
    assert_eq!(without_fallback.to_legacy_string(&t), "missing.key\u{a7}r");
}

#[test]
fn chat_variants_render() {
    let t = Translator::default();
    assert_eq!(
        Chat::Legacy("as-is \u{a7}x".to_owned()).to_legacy_string(&t),
        "as-is \u{a7}x"
    );
    let many = Chat::Components(vec![
        ChatComponent {
            content: literal("a"),
            ..Default::default()
        },
        ChatComponent {
            content: literal("b"),
            color: Some(ChatColor::Blue),
            ..Default::default()
        },
    ]);
    assert_eq!(many.to_legacy_string(&t), "a\u{a7}r\u{a7}9b\u{a7}r");
}

#[test]
fn trait_ansi_and_plain() {
    let t = Translator::default();
    let chat = Chat::from_legacy("\u{a7}cHi");
    assert_eq!(chat.to_plain_string(&t), "Hi");
    assert_eq!(chat.to_ansi_string(&t), "\u{1b}[0;91mHi\u{1b}[0m");
}

#[test]
fn constructors() {
    assert_eq!(
        TextContent::new_literal("x"),
        TextContent::Literal { text: "x".to_owned() }
    );
    assert_eq!(
        TextContent::new_translatable("k", &vec![]),
        TextContent::Translatable {
            translate: "k".to_owned(),
            with: None,
            fallback: None,
        }
    );
    assert_eq!(
        TextContent::new_translatable("k", &vec!["a".to_owned(), "b".to_owned()]),
        TextContent::Translatable {
            translate: "k".to_owned(),
            with: Some(vec![
                Chat::Legacy("a".to_owned()),
                Chat::Legacy("b".to_owned())
            ]),
            fallback: None,
        }
    );
    let via_new = Chat::new("\u{a7}cHi");
    assert_eq!(via_new, Chat::from_legacy("\u{a7}cHi"));
}
