use systemd_manager::order::{chars_precede, sorted_order};
use systemd_manager::text::{
    find_match, line_spans, same_text, span_contains, span_ends_with, span_equals, span_is,
    span_starts_with, split_spans, string_of, to_chars, trim_span, whitespace, whole, word_spans,
    Delimiter, Span,
};

fn cut(text: &str, spans: &[Span]) -> Vec<String> {
    spans.iter().map(|s| string_of(text, *s)).collect()
}

#[test]
fn characters_of_a_string() {
    assert_eq!(to_chars("a\u{e9}\u{25cf}"), vec!['a', '\u{e9}', '\u{25cf}']);
    assert_eq!(to_chars(""), Vec::<char>::new());
    let chars = to_chars("h\u{e9}llo");
    assert_eq!(string_of("h\u{e9}llo", Span { start: 1, end: 4 }), "\u{e9}ll");
    assert_eq!(string_of("h\u{e9}llo", Span { start: 2, end: 2 }), "");
    assert_eq!(string_of("h\u{e9}llo", Span { start: 0, end: 5 }), "h\u{e9}llo");
    assert_eq!(whole(&chars), Span { start: 0, end: 5 });
}

#[test]
fn fields_between_delimiters() {
    let split = |text: &str, d: Delimiter| cut(text, &split_spans(&to_chars(text), d));
    assert_eq!(split("a,b,,c", Delimiter::Char(',')), vec!["a", "b", "", "c"]);
    assert_eq!(split("", Delimiter::Char(',')), vec![""]);
    assert_eq!(split(",", Delimiter::Char(',')), vec!["", ""]);
    assert_eq!(split("abc", Delimiter::Char(',')), vec!["abc"]);
    assert_eq!(split("a b\tc", Delimiter::Whitespace), vec!["a", "b", "c"]);
}

#[test]
fn lines_of_a_text() {
    let lines = |text: &str| cut(text, &line_spans(&to_chars(text)));
    assert_eq!(lines("a\nb\r\nc"), vec!["a", "b", "c"]);
    assert_eq!(lines("a\nb\n"), vec!["a", "b"]);
    assert_eq!(lines("a\n\nb\n\n"), vec!["a", "", "b", ""]);
    assert_eq!(lines("a\r"), vec!["a\r"]);
    assert_eq!(lines("\r\n"), vec![""]);
    assert_eq!(lines(""), Vec::<String>::new());
    let text = "one\r\ntwo\nthree";
    let std: Vec<String> = text.lines().map(String::from).collect();
    assert_eq!(lines(text), std);
}

#[test]
fn words_of_a_text() {
    let words = |text: &str| {
        let chars = to_chars(text);
        cut(text, &word_spans(&chars, whole(&chars)))
    };
    assert_eq!(words("  a  b\tc\n"), vec!["a", "b", "c"]);
    assert_eq!(words(""), Vec::<String>::new());
    assert_eq!(words(" \u{a0}\u{3000} "), Vec::<String>::new());
    assert_eq!(words("one"), vec!["one"]);
    let text = " Startup\u{2003}finished in\r\n7s ";
    let std: Vec<String> = text.split_whitespace().map(String::from).collect();
    assert_eq!(words(text), std);
}

#[test]
fn white_space_is_what_the_standard_says() {
    for n in 0..0x3100u32 {
        if let Some(c) = char::from_u32(n) {
            assert_eq!(whitespace(c), c.is_whitespace());
        }
    }
    assert!(!whitespace('\u{feff}'));
}

#[test]
fn trimming() {
    let trim = |text: &str| {
        let chars = to_chars(text);
        string_of(text, trim_span(&chars, whole(&chars)))
    };
    assert_eq!(trim("  a b \n"), "a b");
    assert_eq!(trim("ab"), "ab");
    assert_eq!(trim(" \t "), "");
    assert_eq!(trim(""), "");
}

#[test]
fn searching_in_spans() {
    let chars = to_chars("key=value=more");
    let all = whole(&chars);
    assert_eq!(find_match(&chars, all, Delimiter::Char('=')), Some(3));
    assert_eq!(find_match(&chars, Span { start: 4, end: 14 }, Delimiter::Char('=')), Some(9));
    assert_eq!(find_match(&chars, all, Delimiter::Char('#')), None);
    assert_eq!(find_match(&chars, all, Delimiter::Whitespace), None);
    assert!(span_starts_with(&chars, all, &to_chars("key=")));
    assert!(!span_starts_with(&chars, all, &to_chars("value")));
    assert!(span_starts_with(&chars, all, &[]));
    assert!(span_ends_with(&chars, all, &to_chars("more")));
    assert!(!span_ends_with(&chars, all, &to_chars("key=value=more!")));
    assert!(span_contains(&chars, all, &to_chars("value")));
    assert!(span_contains(&chars, all, &[]));
    assert!(!span_contains(&chars, Span { start: 0, end: 8 }, &to_chars("value")));
    assert!(span_equals(&chars, Span { start: 4, end: 9 }, &to_chars("value")));
    assert!(!span_equals(&chars, Span { start: 4, end: 9 }, &to_chars("valu")));
    assert!(span_is(&chars, Span { start: 0, end: 3 }, "key"));
    assert!(!span_is(&chars, Span { start: 0, end: 3 }, "kex"));
    assert!(same_text("abc", "abc"));
    assert!(!same_text("abc", "abd"));
    assert!(!same_text("abc", "ab"));
}

#[test]
fn order_of_texts() {
    let before = |a: &str, b: &str| chars_precede(&to_chars(a), &to_chars(b));
    assert!(before("a", "b"));
    assert!(!before("b", "a"));
    assert!(!before("a", "a"));
    assert!(before("", "a"));
    assert!(!before("a", ""));
    assert!(!before("", ""));
    assert!(before("ab", "abc"));
    assert!(before("B", "a"));
    assert!(before("z", "\u{e9}"));
    for (a, b) in [("sshd", "sshd@"), ("a.service", "a.socket"), ("\u{1F600}", "\u{e9}")] {
        assert_eq!(before(a, b), a < b);
        assert_eq!(before(b, a), b < a);
    }
}

#[test]
fn sorted_positions() {
    let keys: Vec<Vec<char>> = ["b", "a", "c", "a", ""].iter().map(|s| to_chars(s)).collect();
    assert_eq!(sorted_order(&keys), vec![4, 1, 3, 0, 2]);
    assert_eq!(sorted_order(&vec![]), Vec::<usize>::new());
    let mut many: Vec<String> = (0..200).map(|i| format!("unit-{}.service", (i * 37) % 101)).collect();
    let keys: Vec<Vec<char>> = many.iter().map(|s| to_chars(s)).collect();
    let order = sorted_order(&keys);
    let sorted: Vec<String> = order.iter().map(|&i| many[i].clone()).collect();
    many.sort();
    assert_eq!(sorted, many);
}
