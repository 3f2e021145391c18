use herdr_beads::text::{
    chars_of, is_ordered, is_white_space, join, same, split_words, trim, write_decimal,
};

fn samples() -> Vec<&'static str> {
    vec![
        "",
        " ",
        "\u{1}",
        "a",
        " a",
        "a ",
        "\t\n a b \u{a0}",
        "\u{3000}x\u{2028}y\u{85}",
        "\u{200b}zero width\u{200b}",
        "caf\u{e9}",
        "cafe",
        "caf",
        "\u{10ffff}",
        "\u{ffff}",
        "two  words\r\n",
    ]
}

#[test]
fn white_space_is_what_std_says() {
    for c in '\u{0}'..=char::MAX {
        assert_eq!(is_white_space(c), c.is_whitespace(), "{:?}", c);
    }
}

#[test]
fn trimming_is_what_std_does() {
    for s in samples() {
        assert_eq!(trim(s), s.trim());
    }
}

#[test]
fn splitting_is_what_std_does() {
    for s in samples() {
        let expected: Vec<String> = s.split_whitespace().map(String::from).collect();
        assert_eq!(split_words(s), expected);
    }
}

#[test]
fn order_and_sameness_are_what_std_says() {
    for a in samples() {
        for b in samples() {
            assert_eq!(is_ordered(a, b), a <= b, "{:?} {:?}", a, b);
            assert_eq!(same(a, b), a == b, "{:?} {:?}", a, b);
        }
    }
}

#[test]
fn decimals_are_what_std_writes() {
    for n in [0u64, 4, 9, 10, 99, 100, 255, 1234567890, u64::MAX] {
        assert_eq!(write_decimal(n), n.to_string());
    }
}

#[test]
fn joining_puts_the_separator_between() {
    let parts = vec!["a".to_string(), String::new(), "b c".to_string()];
    assert_eq!(join(&parts, " "), "a  b c");
    assert_eq!(join(&parts[..1], " "), "a");
    assert_eq!(join(&[], " "), "");
}

#[test]
fn characters_come_in_order() {
    assert_eq!(chars_of("a\u{e9}\u{1f600}"), vec!['a', '\u{e9}', '\u{1f600}']);
}
