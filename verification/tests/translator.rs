use chat_formatting::translator::Translator;

fn args(xs: &[&str]) -> Vec<String> {
    xs.iter().map(|s| s.to_string()).collect()
}

#[test]
fn positional_and_indexed_arguments() {
    let t = Translator::default();
    assert_eq!(t.translate("%s and %2$s", &args(&["A", "B"]), None), "A and B");
}

#[test]
fn percent_escape_is_kept() {
    let t = Translator::default();
    assert_eq!(t.translate("100%% done", &args(&[]), None), "100%% done");
}

#[test]
fn implicit_cursor_skips_indexed_tokens() {
    let t = Translator::default();
    assert_eq!(t.translate("%2$s %s", &args(&["x", "y"]), None), "y x");
    assert_eq!(t.translate("%1$s %s %s", &args(&["x", "y"]), None), "x x y");
}

#[test]
fn missing_arguments_become_empty() {
    let t = Translator::default();
    assert_eq!(t.translate("a%sb", &args(&[]), None), "ab");
    assert_eq!(t.translate("a%3$sb", &args(&["x", "y"]), None), "ab");
    assert_eq!(t.translate("a%0$sb", &args(&["x"]), None), "ab");
    assert_eq!(
        t.translate("a%99999999999999999999999$sb", &args(&["x"]), None),
        "ab"
    );
}

#[test]
fn non_substitution_tokens() {
    let t = Translator::default();
    // another letter: the token is dropped
    assert_eq!(t.translate("a%db", &args(&["x"]), None), "ab");
    // a bare percent at the end is dropped
    assert_eq!(t.translate("ab%", &args(&["x"]), None), "ab");
    // an indexed token cut off by the end is dropped
    assert_eq!(t.translate("ab%2$", &args(&["x"]), None), "ab");
    // digits without a dollar sign start no token
    assert_eq!(t.translate("a%12xb", &args(&["x"]), None), "a%12xb");
    // a percent before a non-token character stays
    assert_eq!(t.translate("50% off", &args(&[]), None), "50% off");
}

#[test]
fn lookup_fallback_chain() {
    let t = Translator::from_pairs(vec![("known".to_owned(), "yes %s".to_owned())]);
    assert_eq!(t.translate("known", &args(&["!"]), None), "yes !");
    assert_eq!(t.translate("unknown", &args(&[]), Some("fb")), "fb");
    assert_eq!(t.translate("unknown", &args(&[]), None), "unknown");
}

#[test]
fn first_matching_pair_wins() {
    let t = Translator::from_pairs(vec![
        ("k".to_owned(), "first".to_owned()),
        ("k".to_owned(), "second".to_owned()),
    ]);
    assert_eq!(t.translate("k", &args(&[]), None), "first");
}

#[test]
fn from_translation_content_parses_json() {
    let t = Translator::from_translation_content("{\"greeting\": \"Hello %s!\"}").unwrap();
    assert_eq!(t.translate("greeting", &args(&["World"]), None), "Hello World!");
}

#[test]
fn from_translation_content_rejects_bad_json() {
    assert!(Translator::from_translation_content("not json").is_err());
    assert!(Translator::from_translation_content("[1, 2]").is_err());
}
