use qcsim::{parse_count, parse_uint, Error};

fn operands(list: &[&str]) -> Vec<String> {
    list.iter().map(|text| text.to_string()).collect()
}

fn invalid(text: &str) -> Result<u64, Error> {
    Err(Error::InvalidCount { text: text.to_string() })
}

#[test]
fn decimal_numerals_are_read() {
    assert_eq!(parse_uint("0"), Some(0));
    assert_eq!(parse_uint("1"), Some(1));
    assert_eq!(parse_uint("42"), Some(42));
    assert_eq!(parse_uint("100000"), Some(100_000));
    assert_eq!(parse_uint("1234567890"), Some(1_234_567_890));
}

#[test]
fn leading_zeros_and_plus_sign_are_read() {
    assert_eq!(parse_uint("007"), Some(7));
    assert_eq!(parse_uint("+7"), Some(7));
    assert_eq!(parse_uint("+0"), Some(0));
    assert_eq!(parse_uint("+0012"), Some(12));
    assert_eq!(parse_uint("00000000000000000000000001"), Some(1));
}

#[test]
fn largest_number_is_read_and_the_next_is_not() {
    assert_eq!(parse_uint("18446744073709551615"), Some(u64::MAX));
    assert_eq!(parse_uint("18446744073709551616"), None);
    assert_eq!(parse_uint("18446744073709551620"), None);
    assert_eq!(parse_uint("99999999999999999999"), None);
    assert_eq!(parse_uint("184467440737095516150"), None);
}

#[test]
fn what_is_no_numeral_is_not_read() {
    assert_eq!(parse_uint(""), None);
    assert_eq!(parse_uint("+"), None);
    assert_eq!(parse_uint("-1"), None);
    assert_eq!(parse_uint("++1"), None);
    assert_eq!(parse_uint("1+"), None);
    assert_eq!(parse_uint("12a"), None);
    assert_eq!(parse_uint("a12"), None);
    assert_eq!(parse_uint(" 12"), None);
    assert_eq!(parse_uint("12 "), None);
    assert_eq!(parse_uint("1.5"), None);
    assert_eq!(parse_uint("0x10"), None);
    assert_eq!(parse_uint("\u{663}"), None);
    assert_eq!(parse_uint("1\u{e9}"), None);
}

#[test]
fn numerals_are_read_as_the_standard_library_reads_them() {
    let texts = [
        "0", "1", "+1", "-1", "", "+", "0009", "18446744073709551615", "18446744073709551616",
        "12x", "x", "+-3", "3+", "  3", "\u{ff11}",
    ];
    for text in texts {
        assert_eq!(parse_uint(text), text.parse::<u64>().ok(), "{:?}", text);
    }
}

#[test]
fn measure_without_operand_samples_once() {
    assert_eq!(parse_count(&operands(&[])), Ok(1));
}

#[test]
fn measure_samples_as_often_as_its_operand_says() {
    assert_eq!(parse_count(&operands(&["1"])), Ok(1));
    assert_eq!(parse_count(&operands(&["1000"])), Ok(1000));
    assert_eq!(parse_count(&operands(&["18446744073709551615"])), Ok(u64::MAX));
}

#[test]
fn zero_is_an_invalid_count() {
    assert_eq!(parse_count(&operands(&["0"])), invalid("0"));
    assert_eq!(parse_count(&operands(&["000"])), invalid("000"));
    assert_eq!(parse_count(&operands(&["+0"])), invalid("+0"));
}

#[test]
fn what_is_no_number_is_an_invalid_count() {
    assert_eq!(parse_count(&operands(&["many"])), invalid("many"));
    assert_eq!(parse_count(&operands(&["-3"])), invalid("-3"));
    assert_eq!(parse_count(&operands(&[""])), invalid(""));
    assert_eq!(parse_count(&operands(&["18446744073709551616"])), invalid("18446744073709551616"));
}
