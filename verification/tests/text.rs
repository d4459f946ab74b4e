use itmo_terminal::text::{chars_of, is_space, join_chars, split_at_char, split_words, string_of};

fn pieces(v: Vec<Vec<char>>) -> Vec<String> {
    v.into_iter().map(|w| w.into_iter().collect()).collect()
}

#[test]
fn is_space_agrees_with_char_is_whitespace() {
    for n in 0u32..=0x10FFFF {
        if let Some(c) = char::from_u32(n) {
            assert_eq!(is_space(c), c.is_whitespace(), "U+{:04X}", n);
        }
    }
}

#[test]
fn split_at_char_keeps_empty_pieces() {
    let cs = chars_of("a//b/");
    assert_eq!(pieces(split_at_char(&cs, '/')), vec!["a", "", "b", ""]);
    assert_eq!(pieces(split_at_char(&[], '/')), vec![""]);
    for s in ["a//b/", "", "/", "x y  z", "без/пробелов"] {
        let cs = chars_of(s);
        let expected: Vec<String> = s.split('/').map(|p| p.to_string()).collect();
        assert_eq!(pieces(split_at_char(&cs, '/')), expected);
    }
}

#[test]
fn split_words_drops_whitespace() {
    for s in ["", "  ", " a  b\tc\n", "echo\u{3000}hi", "one"] {
        let cs = chars_of(s);
        let expected: Vec<String> = s.split_whitespace().map(|p| p.to_string()).collect();
        assert_eq!(pieces(split_words(&cs)), expected);
    }
}

#[test]
fn join_and_string_of() {
    let parts = vec![chars_of("a"), chars_of(""), chars_of("bc")];
    let sep = chars_of(", ");
    assert_eq!(string_of(&join_chars(&parts, &sep)), "a, , bc");
    assert_eq!(string_of(&join_chars(&vec![], &sep)), "");
    assert_eq!(string_of(&chars_of("héllo")), "héllo");
}
