use herdr_docs::text::{
    chars_of, decimal_string, lines_of, next_char_boundary, previous_char_boundary, trim_chars,
    utf8_width,
};

#[test]
fn character_cursor_moves_without_splitting_utf8() {
    let value = "あb";
    let cursor = value.len();
    let previous = previous_char_boundary(value, cursor);
    assert_eq!(&value[previous..], "b");
    assert_eq!(next_char_boundary(value, previous), cursor);
}

#[test]
fn boundaries_at_the_ends() {
    assert_eq!(previous_char_boundary("abc", 0), 0);
    assert_eq!(next_char_boundary("abc", 3), 3);
    assert_eq!(next_char_boundary("あb", 0), 3);
    assert_eq!(previous_char_boundary("aあ", 4), 1);
}

#[test]
fn cursor_round_trips() {
    let value = "x€yあ";
    let mut index = 0;
    while index < value.len() {
        let next = next_char_boundary(value, index);
        assert_eq!(previous_char_boundary(value, next), index);
        index = next;
    }
}

#[test]
fn lines_follow_str_lines() {
    for text in ["", "a", "a\n", "a\nb", "a\r\nb\r\n", "\n\n", "a\r", "x\n\ny"] {
        let got: Vec<String> = lines_of(&chars_of(text))
            .iter()
            .map(|line| line.iter().collect())
            .collect();
        let want: Vec<String> = text.lines().map(str::to_string).collect();
        assert_eq!(got, want, "lines of {:?}", text);
    }
}

#[test]
fn trim_matches_str_trim() {
    for text in ["", "  a b  ", "\t\u{3000}x\u{a0}", "none"] {
        let got: String = trim_chars(&chars_of(text)).iter().collect();
        assert_eq!(got, text.trim());
    }
}

#[test]
fn decimal_and_width() {
    assert_eq!(decimal_string(0), "0");
    assert_eq!(decimal_string(1207), "1207");
    assert_eq!(decimal_string(usize::MAX), usize::MAX.to_string());
    for c in ['a', 'é', '€', '😀'] {
        assert_eq!(utf8_width(c), c.len_utf8());
    }
}

