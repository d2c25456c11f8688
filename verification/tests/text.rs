use synth::ir_text::pad_right;
use synth::text::{counter_text, int_text, is_digit, is_text, nat_text, parse_integer};

#[test]
fn integers_read_as_the_standard_library_reads_them() {
    let samples = [
        "0",
        "-0",
        "+0",
        "7",
        "007",
        "42",
        "+42",
        "-42",
        "2147483647",
        "2147483648",
        "+2147483647",
        "+2147483648",
        "-2147483648",
        "-2147483649",
        "0000000000000000000002147483647",
        "-0000000000000000000002147483648",
        "4294967296",
        "99999999999999999999999999999",
        "-99999999999999999999999999999",
        "18446744073709551616",
        "",
        "+",
        "-",
        "--5",
        "+-5",
        "-+5",
        "5-",
        "1a",
        "a1",
        " 1",
        "1 ",
        "1_000",
        "1.0",
        "1.",
        ".5",
        "1e3",
        "0x10",
        "\u{663}",
        "\u{ff11}",
        "1\u{0}",
        "12\n",
    ];
    for s in samples {
        assert_eq!(parse_integer(s), s.parse::<i32>().ok(), "{:?}", s);
    }
}

#[test]
fn integers_read_back_from_their_text() {
    for i in [0, 1, -1, 9, 10, -10, 99, 100, 12345, -54321, i32::MAX, i32::MIN, i32::MAX - 1] {
        assert_eq!(parse_integer(&int_text(i)), Some(i));
    }
}

#[test]
fn exact_values_of_integers() {
    assert_eq!(parse_integer("123"), Some(123));
    assert_eq!(parse_integer("-2147483648"), Some(i32::MIN));
    assert_eq!(parse_integer("2147483648"), None);
    assert_eq!(parse_integer("12x"), None);
}

#[test]
fn integers_are_written_in_decimal() {
    for i in [0, 1, -1, 9, 10, 11, -10, 99, 100, 101, 12345, -54321, i32::MAX, i32::MIN] {
        assert_eq!(int_text(i), i.to_string());
    }
    assert_eq!(int_text(42), "42");
    assert_eq!(int_text(-7), "-7");
    assert_eq!(int_text(i32::MIN), "-2147483648");
}

#[test]
fn unsigned_numbers_are_written_in_decimal() {
    for n in [0u64, 1, 9, 10, 19, 100, 1000, 4294967295, u64::MAX, 10000000000000000000] {
        assert_eq!(nat_text(n), n.to_string());
    }
    for n in [0usize, 5, 41, 1234567, usize::MAX] {
        assert_eq!(counter_text(n), n.to_string());
    }
    assert_eq!(nat_text(18446744073709551615), "18446744073709551615");
}

#[test]
fn digits_are_the_ten_decimal_digits() {
    for c in ['0', '1', '5', '9'] {
        assert!(is_digit(c));
    }
    for c in ['/', ':', 'a', ' ', '.', '-', '\u{663}', '\u{ff11}'] {
        assert!(!is_digit(c));
    }
    for c in ['0', '9', '/', ':', 'x', '\u{663}'] {
        assert_eq!(is_digit(c), c.is_digit(10));
    }
}

#[test]
fn text_is_compared_in_full() {
    assert!(is_text(&"printf".to_string(), "printf"));
    assert!(!is_text(&"print".to_string(), "printf"));
    assert!(!is_text(&"printff".to_string(), "printf"));
    assert!(!is_text(&"Printf".to_string(), "printf"));
    assert!(is_text(&String::new(), ""));
}

#[test]
fn padding_fills_up_on_the_right() {
    assert_eq!(pad_right("ab", 5), "ab   ");
    assert_eq!(pad_right("", 3), "   ");
    assert_eq!(pad_right("abc", 3), "abc");
    assert_eq!(pad_right("abcd", 3), "abcd");
    assert_eq!(pad_right("x", 0), "x");
    for s in ["", "a", "load", "stack_var", "0123456789", "exactly15chars!", "longer than fifteen"] {
        assert_eq!(pad_right(s, 15), format!("{:<15}", s));
        assert_eq!(pad_right(s, 10), format!("{:<10}", s));
    }
}

#[test]
fn padding_counts_characters() {
    assert_eq!(pad_right("\u{e9}", 3), "\u{e9}  ");
    assert_eq!(pad_right("\u{3b1}\u{3b2}\u{3b3}", 5), format!("{:<5}", "\u{3b1}\u{3b2}\u{3b3}"));
}
