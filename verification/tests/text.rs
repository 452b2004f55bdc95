use tabletflow::text::{
    equal_but_case, has_part, lines_of, parse_unsigned, printed, split_once, trim, with_lower_first,
    words_of,
};

#[test]
fn lines_are_those_of_the_standard_library() {
    for text in ["", "\n", "a", "a\n", "a\r\nb", "a\r", "\r\n\r\n", "a\n\nb\n", "x\r\r\ny"] {
        let wanted: Vec<String> = text.lines().map(|line| line.to_string()).collect();
        assert_eq!(lines_of(text), wanted);
    }
}

#[test]
fn words_are_those_of_the_standard_library() {
    for text in ["", "  ", "a b", " a\tb\u{a0}c\u{3000}d\n", "one", "\u{2003}x\u{85}y\u{feff}z"] {
        let wanted: Vec<String> = text.split_whitespace().map(|word| word.to_string()).collect();
        assert_eq!(words_of(text), wanted);
        assert_eq!(trim(text), text.trim());
    }
}

#[test]
fn texts_are_split_and_searched_as_by_the_standard_library() {
    for text in ["", "=", "a=b=c", "none", "==", "x="] {
        let wanted = text.split_once('=').map(|(a, b)| (a.to_string(), b.to_string()));
        assert_eq!(split_once(text, '='), wanted);
        for part in ["", "=", "b=c", "=b", "zz"] {
            assert_eq!(has_part(text, part), text.contains(part));
        }
    }
    assert!(equal_but_case("Content-LENGTH", "content-length"));
    assert!(!equal_but_case("\u{c4}", "\u{e4}"));
    assert_eq!(with_lower_first("Width"), "width");
    assert_eq!(with_lower_first("\u{c4}x"), "\u{c4}x");
}

#[test]
fn numbers_are_read_as_by_the_standard_library() {
    for text in ["0", "007", "+5", "-5", "", "+", "12a", " 1", "18446744073709551615", "18446744073709551616"] {
        assert_eq!(parse_unsigned(text), text.parse::<usize>().ok());
    }
}

#[test]
fn printed_bytes_are_text() {
    assert_eq!(printed(&"caf\u{e9}\n".as_bytes().to_vec()), "caf\u{e9}\n");
    assert_eq!(printed(&vec![b'a', 0xff, b'b']), "a\u{fffd}b");
}
