use rey::text::{cut_at_first, same_text, trim};

#[test]
fn cut_at_first_cuts_once() {
    assert_eq!(cut_at_first("a:b:c", ':'), ("a", Some("b:c")));
    assert_eq!(cut_at_first(":b", ':'), ("", Some("b")));
    assert_eq!(cut_at_first("a:", ':'), ("a", Some("")));
    assert_eq!(cut_at_first(":", ':'), ("", Some("")));
    assert_eq!(cut_at_first("abc", ':'), ("abc", None));
    assert_eq!(cut_at_first("", ':'), ("", None));
    assert_eq!(cut_at_first("k\u{e4}se=br\u{f6}t=x", '='), ("k\u{e4}se", Some("br\u{f6}t=x")));
    assert_eq!(cut_at_first("a\u{e4}b", '\u{e4}'), ("a", Some("b")));
}

#[test]
fn same_text_compares_every_character() {
    assert!(same_text("", ""));
    assert!(same_text("GET", "GET"));
    assert!(!same_text("GET", "GE"));
    assert!(!same_text("GET", "GEt"));
    assert!(!same_text("", "G"));
    assert!(same_text("gr\u{fc}n", "gr\u{fc}n"));
    assert!(!same_text("gr\u{fc}n", "grun"));
}

#[test]
fn trim_takes_the_white_space_off_both_ends() {
    assert_eq!(trim("  a b  "), "a b");
    assert_eq!(trim("a b"), "a b");
    assert_eq!(trim("\t\r\n a"), "a");
    assert_eq!(trim("a \u{a0}\u{3000}\u{85}"), "a");
    assert_eq!(trim("\u{2003}\u{e4} \u{f6}\u{2028}"), "\u{e4} \u{f6}");
    assert_eq!(trim(" "), "");
    assert_eq!(trim(""), "");
    assert_eq!(trim(" \u{200b} "), "\u{200b}");
}

#[test]
fn trim_is_the_trim_of_text() {
    for text in [
        "",
        " ",
        "x",
        " x",
        "x ",
        " x y ",
        "\u{1680}x\u{1680}",
        "\u{feff}x",
        "\n\n",
        "a\u{0}",
        "\u{b}\u{c}a\u{1c}\u{1f}",
    ] {
        assert_eq!(trim(text), text.trim());
    }
}
