use webgen_menu::text;

fn chars(s: &str) -> Vec<char> {
    s.chars().collect()
}

#[test]
fn white_space_is_that_of_std() {
    for u in 0u32..0x110000 {
        if let Some(c) = char::from_u32(u) {
            assert_eq!(text::is_whitespace(c), c.is_whitespace(), "{:x}", u);
        }
    }
}

#[test]
fn trimmed_text_is_that_of_std() {
    for s in ["", " ", "a", " a b ", "\t\u{a0}x\u{3000}\n", "\u{2003}", "no ends"] {
        let all = chars(s);
        let r: String = text::trimmed(&all).iter().collect();
        assert_eq!(r, s.trim());
    }
}

#[test]
fn case_is_ignored_in_ascii_letters_alone() {
    for (a, b) in [
        ("Game", "gAME"),
        ("Game", "Games"),
        ("\u{c9}", "\u{e9}"),
        ("[", "{"),
        ("@", "`"),
        ("", ""),
        ("a1", "A1"),
    ] {
        assert_eq!(
            text::eq_ignore_ascii_case(&chars(a), &chars(b)),
            a.eq_ignore_ascii_case(b)
        );
    }
    assert!(text::eq_ignore_ascii_case(&chars("Game"), &chars("gAME")));
    assert!(!text::eq_ignore_ascii_case(&chars("\u{c9}"), &chars("\u{e9}")));
}

#[test]
fn order_is_that_of_std() {
    let all = ["", "a", "ab", "b", "B", "\u{e9}", "\u{ffff}", "\u{10000}", "z\u{1f600}", "z"];
    for a in all {
        for b in all {
            assert_eq!(text::comes_before(&chars(a), &chars(b)), a < b);
        }
    }
}

#[test]
fn same_strings_are_told_from_others() {
    assert!(text::same_str("", ""));
    assert!(text::same_str("desktop", "desktop"));
    assert!(!text::same_str("desktop", "Desktop"));
    assert!(!text::same_str("desk", "desktop"));
}

#[test]
fn numbers_are_written_in_decimal() {
    for n in [0u32, 7, 9, 10, 99, 100, 4294967295] {
        assert_eq!(text::decimal_text(n), n.to_string());
    }
}

#[test]
fn characters_of_a_string() {
    assert_eq!(text::chars_of("a\u{2026}b"), vec!['a', '\u{2026}', 'b']);
}
