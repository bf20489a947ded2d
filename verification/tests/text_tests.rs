use flats_bot::text::{
    chars_of, find, parse_decimal, read_leading_number, same_text, sort_texts, stands_at, text_le,
    trim,
};

fn strings(items: &[&str]) -> Vec<String> {
    items.iter().map(|s| s.to_string()).collect()
}

#[test]
fn chars_of_keeps_every_character() {
    assert_eq!(chars_of("a\u{a0}b"), vec!['a', '\u{a0}', 'b']);
    assert_eq!(chars_of(""), Vec::<char>::new());
}

#[test]
fn same_text_compares_characters() {
    assert!(same_text("Riga", "Riga"));
    assert!(!same_text("Riga", "riga"));
    assert!(!same_text("Riga", "Riga "));
}

#[test]
fn text_le_is_the_lexicographic_order() {
    assert!(text_le("", ""));
    assert!(text_le("", "a"));
    assert!(!text_le("a", ""));
    assert!(text_le("a", "ab"));
    assert!(!text_le("ab", "a"));
    assert!(text_le("ab", "b"));
    assert!(text_le("B", "a"));
    assert!(!text_le("a", "B"));
    assert!(text_le("z", "\u{101}"));
}

#[test]
fn text_le_agrees_with_the_order_of_strings() {
    let samples = ["", "a", "ab", "b", "B", "Riga", "Rīga", "Jurmala", "\u{2022} x"];
    for a in samples.iter() {
        for b in samples.iter() {
            assert_eq!(text_le(a, b), a <= b);
        }
    }
}

#[test]
fn sort_texts_sorts_and_keeps_repetitions() {
    let sorted = sort_texts(&strings(&["b", "a", "ab", "a", ""]));
    assert_eq!(sorted, strings(&["", "a", "a", "ab", "b"]));
    assert_eq!(sort_texts(&Vec::new()), Vec::<String>::new());
}

#[test]
fn trim_removes_blanks_at_both_ends_only() {
    assert_eq!(trim("  Riga \t\r\n"), "Riga");
    assert_eq!(trim("a  b"), "a  b");
    assert_eq!(trim(" \t "), "");
    assert_eq!(trim(""), "");
    assert_eq!(trim("\u{a0}x"), "\u{a0}x");
}

#[test]
fn find_gives_the_first_occurrence() {
    let hay = chars_of("a and b and c");
    assert_eq!(find(&hay, &chars_of(" and ")), Some(1));
    assert_eq!(find(&hay, &chars_of("c")), Some(12));
    assert_eq!(find(&hay, &chars_of("d b")), Some(4));
    assert_eq!(find(&hay, &chars_of("x")), None);
    assert_eq!(find(&hay, &chars_of("")), Some(0));
    assert_eq!(find(&chars_of("ab"), &chars_of("abc")), None);
    assert!(stands_at(&hay, &chars_of("and"), 2));
    assert!(!stands_at(&hay, &chars_of("and"), 3));
    assert!(!stands_at(&hay, &chars_of("c!"), 12));
}

#[test]
fn parse_decimal_reads_digits_only() {
    assert_eq!(parse_decimal("0042"), Some(42));
    assert_eq!(parse_decimal("0"), Some(0));
    assert_eq!(parse_decimal("x0042"), None);
    assert_eq!(parse_decimal("0042y"), None);
    assert_eq!(parse_decimal(" 42"), None);
    assert_eq!(parse_decimal(""), None);
    assert_eq!(parse_decimal("-5"), None);
    assert_eq!(parse_decimal("+5"), None);
    assert_eq!(parse_decimal("\u{664}"), None);
}

#[test]
fn parse_decimal_stops_at_thirty_two_bits() {
    assert_eq!(parse_decimal("4294967295"), Some(4294967295));
    assert_eq!(parse_decimal("4294967296"), None);
    assert_eq!(parse_decimal("99999999999999999999999999"), None);
    assert_eq!(parse_decimal("000000000000000000000007"), Some(7));
}

#[test]
fn leading_number_reads_what_a_text_starts_with() {
    assert_eq!(read_leading_number("3/5"), 3);
    assert_eq!(read_leading_number(" 45 m2"), 45);
    assert_eq!(read_leading_number("12"), 12);
    assert_eq!(read_leading_number("-"), 0);
    assert_eq!(read_leading_number(""), 0);
    assert_eq!(read_leading_number("a1"), 0);
    assert_eq!(read_leading_number("4294967296"), 0);
}
