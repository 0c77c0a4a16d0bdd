use observer::text::{char_is_space, normalize, parse_args};

#[test]
fn normalize_strips_wrapping_quotes() {
    assert_eq!(normalize("\"C:\\Apps\\tool.exe\""), "C:\\Apps\\tool.exe");
}

#[test]
fn normalize_trims_surrounding_white_space() {
    assert_eq!(normalize("  notepad.exe \r"), "notepad.exe");
    assert_eq!(normalize("\tnotepad.exe\n"), "notepad.exe");
}

#[test]
fn normalize_trims_what_the_quotes_enclosed() {
    assert_eq!(normalize(" \"  a b \"  "), "a b");
}

#[test]
fn normalize_drops_quotes_inside_the_value() {
    assert_eq!(normalize("a\"b"), "ab");
}

#[test]
fn normalize_keeps_inner_white_space() {
    assert_eq!(normalize(" a  b\tc "), "a  b\tc");
}

#[test]
fn normalize_of_nothing_is_empty() {
    assert_eq!(normalize(""), "");
    assert_eq!(normalize("   "), "");
    assert_eq!(normalize("\"\""), "");
    assert_eq!(normalize(" \" \" "), "");
}

#[test]
fn normalize_knows_white_space_beyond_ascii() {
    assert_eq!(normalize("\u{3000}x\u{a0}"), "x");
    assert_eq!(normalize("\u{2003}\u{85}y z\u{2028}"), "y z");
}

#[test]
fn normalize_keeps_other_characters() {
    assert_eq!(normalize(" \u{e9}t\u{e9}.exe "), "\u{e9}t\u{e9}.exe");
    assert_eq!(normalize("\u{200b}x"), "\u{200b}x");
}

#[test]
fn normalize_is_stable() {
    for raw in ["\" --flag value \"", "  a\"b ", "", "\t\"\"x"] {
        let once = normalize(raw);
        assert_eq!(normalize(&once), once);
    }
}

#[test]
fn white_space_is_told_apart() {
    for c in [' ', '\t', '\n', '\u{b}', '\u{c}', '\r', '\u{85}', '\u{a0}', '\u{1680}', '\u{2000}',
        '\u{200a}', '\u{2028}', '\u{2029}', '\u{202f}', '\u{205f}', '\u{3000}']
    {
        assert!(char_is_space(c), "{:?}", c);
    }
    for c in ['a', '"', '=', '\u{0}', '\u{8}', '\u{e}', '\u{1f}', '\u{200b}', '\u{2060}', '\u{feff}'] {
        assert!(!char_is_space(c), "{:?}", c);
    }
}

#[test]
fn white_space_agrees_with_std() {
    let mut code: u32 = 0;
    while code <= 0x3100 {
        if let Some(c) = char::from_u32(code) {
            assert_eq!(char_is_space(c), c.is_whitespace(), "{:?}", c);
        }
        code += 1;
    }
}

#[test]
fn quoted_argument_string_parses_to_its_words() {
    assert_eq!(parse_args("\"--flag value\""), vec!["--flag", "value"]);
}

#[test]
fn empty_argument_string_has_no_arguments() {
    assert_eq!(parse_args(""), Vec::<String>::new());
    assert_eq!(parse_args("   "), Vec::<String>::new());
    assert_eq!(parse_args("\"\""), Vec::<String>::new());
}

#[test]
fn runs_of_spaces_yield_no_empty_argument() {
    assert_eq!(parse_args("  --a   --b  "), vec!["--a", "--b"]);
    assert_eq!(parse_args(" \" --x\" "), vec!["--x"]);
}

#[test]
fn only_single_spaces_separate_arguments() {
    assert_eq!(parse_args("a\tb c"), vec!["a\tb", "c"]);
}

#[test]
fn single_argument_stays_whole() {
    assert_eq!(parse_args("--verbose"), vec!["--verbose"]);
}

#[test]
fn arguments_are_never_empty() {
    for raw in ["", " ", "a  b", " \" \" x \"\" y ", "\"--flag value\""] {
        for arg in parse_args(raw) {
            assert!(!arg.is_empty());
            assert!(!arg.contains(' '));
            assert!(!arg.contains('"'));
        }
    }
}
