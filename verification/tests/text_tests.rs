use maram::text::{chars_of, lines, split_on_char, string_from_chars, trim_str};

#[test]
fn chars_round_trip() {
    let cs = chars_of("héllo");
    assert_eq!(cs, vec!['h', 'é', 'l', 'l', 'o']);
    assert_eq!(string_from_chars(&cs), "héllo");
}

#[test]
fn split_keeps_empty_pieces() {
    assert_eq!(split_on_char("a//b", '/'), vec!["a", "", "b"]);
    assert_eq!(split_on_char("", '/'), vec![""]);
    assert_eq!(split_on_char("/x/", '/'), vec!["", "x", ""]);
}

#[test]
fn lines_like_std() {
    for s in ["a\r\nb\n", "a\n\nb", "", "\n", "x\ry", "one\r", "a\nb\r\n\r\n"] {
        let expected: Vec<String> = s.lines().map(|l| l.to_string()).collect();
        assert_eq!(lines(s), expected, "input {:?}", s);
    }
}

#[test]
fn trim_like_std() {
    for s in [" \t x \u{3000}", "x", "", "   ", "\u{85}a b\u{2029}", "\u{200b}x"] {
        assert_eq!(trim_str(s), s.trim(), "input {:?}", s);
    }
}

