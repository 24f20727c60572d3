use mlg::numeral::{
    characters, find_char, only_digits, parse_decimal, parse_list, parse_number, read_digits,
};

#[test]
fn whole_numbers() {
    assert_eq!(parse_number("0"), Some(0));
    assert_eq!(parse_number("1"), Some(1000));
    assert_eq!(parse_number("60"), Some(60_000));
    assert_eq!(parse_number("007"), Some(7000));
}

#[test]
fn fractions() {
    assert_eq!(parse_number("0.25"), Some(250));
    assert_eq!(parse_number("1.5"), Some(1500));
    assert_eq!(parse_number("1.0"), Some(1000));
    assert_eq!(parse_number("0.125"), Some(125));
    assert_eq!(parse_number(".5"), Some(500));
    assert_eq!(parse_number("1."), Some(1000));
    assert_eq!(parse_number("0.001"), Some(1));
}

#[test]
fn texts_that_are_no_numerals() {
    assert_eq!(parse_number(""), None);
    assert_eq!(parse_number("."), None);
    assert_eq!(parse_number("abc"), None);
    assert_eq!(parse_number("-1"), None);
    assert_eq!(parse_number("1.23x"), None);
    assert_eq!(parse_number("1.2345x"), None);
    assert_eq!(parse_number("+1"), None);
    assert_eq!(parse_number("1.2.3"), None);
    assert_eq!(parse_number("1,5"), None);
    assert_eq!(parse_number(" 1"), None);
    assert_eq!(parse_number("1e3"), None);
}

#[test]
fn decimals_after_the_third_are_cut_off() {
    assert_eq!(parse_number("1.2345"), Some(1234));
    assert_eq!(parse_number("0.3333333"), Some(333));
    assert_eq!(parse_number("0.9999"), Some(999));
    assert_eq!(parse_number("0.0009"), Some(0));
    assert_eq!(parse_number(".00051"), Some(0));
    assert_eq!(parse_number("18446744073709551.6159"), Some(u64::MAX));
}

#[test]
fn largest_numeral() {
    assert_eq!(parse_number("18446744073709551.615"), Some(u64::MAX));
    assert_eq!(parse_number("18446744073709551.616"), None);
    assert_eq!(parse_number("18446744073709552"), None);
    assert_eq!(parse_number("99999999999999999999999999"), None);
}

#[test]
fn lists_of_numerals() {
    assert_eq!(parse_list("1"), Some(vec![1000]));
    assert_eq!(parse_list("0.25,0.5,1"), Some(vec![250, 500, 1000]));
    assert_eq!(parse_list("0,0"), Some(vec![0, 0]));
}

#[test]
fn lists_with_a_bad_item() {
    assert_eq!(parse_list(""), None);
    assert_eq!(parse_list("1,"), None);
    assert_eq!(parse_list(",1"), None);
    assert_eq!(parse_list("1,,2"), None);
    assert_eq!(parse_list("1,x"), None);
    assert_eq!(parse_list("[1,2]"), None);
}

#[test]
fn parts_of_a_text() {
    let chars = characters("12.5,x");
    assert_eq!(chars, vec!['1', '2', '.', '5', ',', 'x']);
    assert_eq!(find_char(&chars, 0, 6, '.'), 2);
    assert_eq!(find_char(&chars, 3, 6, '.'), 6);
    assert_eq!(find_char(&chars, 0, 2, '.'), 2);
    assert_eq!(read_digits(&chars, 0, 2), Some(12));
    assert_eq!(read_digits(&chars, 0, 3), None);
    assert_eq!(read_digits(&chars, 1, 1), Some(0));
    assert!(only_digits(&chars, 0, 2));
    assert!(only_digits(&chars, 3, 3));
    assert!(!only_digits(&chars, 0, 3));
    assert_eq!(parse_decimal(&chars, 0, 4), Some(12_500));
    assert_eq!(parse_decimal(&chars, 1, 4), Some(2500));
    assert_eq!(parse_decimal(&chars, 0, 6), None);
}
