use klipper_bridge::text::{chars_of, contains, is_space, lines, string_of, trim};

fn text_chars(s: &str) -> Vec<char> {
    s.chars().collect()
}

fn text_lines(s: &str) -> Vec<String> {
    lines(&text_chars(s)).iter().map(|l| l.iter().collect()).collect()
}

#[test]
fn trim_removes_surrounding_white_space() {
    assert_eq!(trim("  X10 \r\n"), "X10");
    assert_eq!(trim("\u{3000}a b\u{85}"), "a b");
    assert_eq!(trim(" \t "), "");
    assert_eq!(trim(""), "");
    assert_eq!(trim("G1 X20"), "G1 X20");
}

#[test]
fn trim_agrees_with_the_standard_library() {
    let samples = [
        "",
        " ",
        "a",
        " a",
        "a ",
        "\n\ta\u{a0}b \u{2003}",
        "\u{1680}\u{2028}x\u{2029}\u{202f}\u{205f}",
        "\u{200b}zero width is no space\u{200b}",
        "\u{b}\u{c}vertical\u{d}",
        "  two  words  ",
    ];
    for s in samples {
        assert_eq!(trim(s), s.trim(), "trimming {:?}", s);
    }
}

#[test]
fn white_space_is_what_unicode_says() {
    for code in 0u32..=0x10FFFF {
        if let Some(c) = char::from_u32(code) {
            assert_eq!(is_space(c), c.is_whitespace(), "U+{:04X}", code);
        }
    }
}

#[test]
fn chars_and_back() {
    let v = chars_of("a✅b");
    assert_eq!(v, vec!['a', '✅', 'b']);
    assert_eq!(string_of(&v, 0, 3), "a✅b");
    assert_eq!(string_of(&v, 1, 2), "✅");
    assert_eq!(string_of(&v, 2, 2), "");
}

#[test]
fn lines_end_at_line_feeds() {
    assert_eq!(text_lines(""), Vec::<String>::new());
    assert_eq!(text_lines("a"), vec!["a"]);
    assert_eq!(text_lines("a\n"), vec!["a"]);
    assert_eq!(text_lines("a\r\n"), vec!["a"]);
    assert_eq!(text_lines("a\r"), vec!["a\r"]);
    assert_eq!(text_lines("a\n\nb"), vec!["a", "", "b"]);
    assert_eq!(text_lines("\n"), vec![""]);
    assert_eq!(text_lines("x\r\r\ny"), vec!["x\r", "y"]);
}

#[test]
fn lines_agree_with_the_standard_library() {
    let samples = [
        "",
        "\n",
        "\r\n",
        "\r",
        "one",
        "one\ntwo",
        "one\r\ntwo\r\n",
        "one\rtwo\nthree",
        "\n\n\n",
        "a\n\r\nb\r",
        "MODULE M\r\nPROC main()\r\nENDPROC\r\nENDMODULE",
    ];
    for s in samples {
        let expected: Vec<String> = s.lines().map(|l| l.to_string()).collect();
        assert_eq!(text_lines(s), expected, "lines of {:?}", s);
    }
}

#[test]
fn contains_finds_adjacent_characters() {
    let hay = text_chars("ENDMODULE");
    assert!(contains(&hay, &text_chars("MODULE")));
    assert!(contains(&hay, &text_chars("END")));
    assert!(contains(&hay, &text_chars("")));
    assert!(contains(&hay, &text_chars("ENDMODULE")));
    assert!(!contains(&hay, &text_chars("MODULES")));
    assert!(!contains(&hay, &text_chars("EDM")));
    assert!(!contains(&text_chars(""), &text_chars("a")));
    assert!(contains(&text_chars(""), &text_chars("")));
    assert!(contains(&text_chars("aab"), &text_chars("ab")));
}
