use candouble::utils::{num_from_string_u64, parse_number, to_chars};

#[test]
fn reads_decimal_numerals() {
    assert_eq!(Some(0), parse_number("0"));
    assert_eq!(Some(256), parse_number("256"));
    assert_eq!(Some(7), parse_number("007"));
    assert_eq!(256, num_from_string_u64("256"));
}

#[test]
fn reads_hexadecimal_numerals() {
    assert_eq!(Some(0x0101), parse_number("0x0101"));
    assert_eq!(Some(0xCAFE), parse_number("0xCAFE"));
    assert_eq!(Some(0xcafe), parse_number("0xcafe"));
    assert_eq!(Some(0x17), parse_number("0x017"));
    assert_eq!(0x0101, num_from_string_u64("0x0101"));
}

#[test]
fn hexadecimal_prefix_is_case_sensitive() {
    assert_eq!(None, parse_number("0X10"));
}

#[test]
fn accepts_a_leading_plus_sign() {
    assert_eq!(Some(5), parse_number("+5"));
    assert_eq!(Some(255), parse_number("0x+ff"));
    assert_eq!(None, parse_number("+"));
    assert_eq!(None, parse_number("++5"));
    assert_eq!(None, parse_number("-5"));
}

#[test]
fn rejects_what_is_no_numeral() {
    assert_eq!(None, parse_number(""));
    assert_eq!(None, parse_number("*"));
    assert_eq!(None, parse_number("0x"));
    assert_eq!(None, parse_number("12a"));
    assert_eq!(None, parse_number("0xfg"));
    assert_eq!(None, parse_number(" 12"));
    assert_eq!(None, parse_number("12 "));
    assert_eq!(None, parse_number("1_000"));
    assert_eq!(None, parse_number("\u{663}"));
    assert_eq!(None, parse_number("1\u{e9}"));
}

#[test]
fn reads_the_largest_number_and_rejects_larger_ones() {
    assert_eq!(Some(u64::MAX), parse_number("18446744073709551615"));
    assert_eq!(None, parse_number("18446744073709551616"));
    assert_eq!(None, parse_number("99999999999999999999999"));
    assert_eq!(Some(u64::MAX), parse_number("0xffffffffffffffff"));
    assert_eq!(None, parse_number("0x10000000000000000"));
    assert_eq!(Some(1), parse_number("0x00000000000000000000001"));
}

#[test]
fn agrees_with_the_standard_parsers() {
    let decimal = ["0", "1", "42", "+42", "0042", "18446744073709551615", "18446744073709551616",
        "", "+", "-1", "4 2", "x", "0x", "1e3"];
    for text in decimal {
        assert_eq!(text.parse::<u64>().ok(), parse_number(text), "{}", text);
    }
    let hexadecimal = ["0", "a", "A", "ff", "+ff", "FfFf", "g", "", "+", "ffffffffffffffff",
        "10000000000000000", "0x1", "-f"];
    for digits in hexadecimal {
        let text = format!("0x{}", digits);
        assert_eq!(u64::from_str_radix(digits, 16).ok(), parse_number(&text), "{}", text);
    }
}

#[test]
fn splits_text_into_characters() {
    assert_eq!(vec!['0', 'x', '1'], to_chars("0x1"));
    assert_eq!(Vec::<char>::new(), to_chars(""));
    assert_eq!(vec!['\u{e9}', 'a'], to_chars("\u{e9}a"));
}
