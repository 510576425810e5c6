use gridcalc::format::{
    format_with_thousands_separator, group_digit_chars, is_numeral_text,
    reads_as_number_text, remove_thousands_separator,
};
use gridcalc::normalize::{normalize, replace_percentage};

fn chars(s: &str) -> Vec<char> {
    s.chars().collect()
}

#[test]
fn fraction_keeps_its_digits_without_trailing_zeros() {
    assert_eq!(format_with_thousands_separator("1234567.500"), "1,234,567.5");
    assert_eq!(format_with_thousands_separator("0.2500"), "0.25");
    assert_eq!(format_with_thousands_separator("12.3456"), "12.3456");
}

#[test]
fn integer_has_no_decimal_part() {
    assert_eq!(format_with_thousands_separator("1000"), "1,000");
    assert_eq!(format_with_thousands_separator("1000.0000"), "1,000");
    assert_eq!(format_with_thousands_separator("0.0000"), "0");
}

#[test]
fn short_numbers_have_no_separator() {
    assert_eq!(format_with_thousands_separator("0"), "0");
    assert_eq!(format_with_thousands_separator("999"), "999");
    assert_eq!(format_with_thousands_separator("100000"), "100,000");
}

#[test]
fn sign_stays_in_front() {
    assert_eq!(format_with_thousands_separator("-123"), "-123");
    assert_eq!(format_with_thousands_separator("-1234.50"), "-1,234.5");
    assert_eq!(format_with_thousands_separator("-123456"), "-123,456");
}

#[test]
fn text_that_is_no_number_is_left_alone() {
    assert_eq!(format_with_thousands_separator("inf"), "inf");
    assert_eq!(format_with_thousands_separator("NaN"), "NaN");
    assert_eq!(format_with_thousands_separator(""), "");
}

#[test]
fn digits_are_grouped_from_the_right() {
    assert_eq!(group_digit_chars(&chars("1234567")), chars("1,234,567"));
    assert_eq!(group_digit_chars(&chars("123456")), chars("123,456"));
    assert_eq!(group_digit_chars(&chars("12")), chars("12"));
}

#[test]
fn separators_are_removed() {
    assert_eq!(remove_thousands_separator("1,234,567.5"), "1234567.5");
    assert_eq!(remove_thousands_separator("12"), "12");
    assert_eq!(remove_thousands_separator(",,"), "");
}

#[test]
fn removing_separators_twice_changes_nothing_more() {
    let once = remove_thousands_separator("9,876,543.21");
    let twice = remove_thousands_separator(&once);
    assert_eq!(once, twice);
}

#[test]
fn format_then_strip_gives_the_value_back() {
    for rendered in ["1234567.5000", "1000", "-42.1250", "0.0001", "999999.9999"] {
        let shown = format_with_thousands_separator(rendered);
        let stripped = remove_thousands_separator(&shown);
        let value: f64 = stripped.parse().unwrap();
        let expected: f64 = rendered.parse().unwrap();
        assert_eq!(value, expected);
        let again = format!("{:.4}", value);
        assert_eq!(format_with_thousands_separator(&again), shown);
    }
}

#[test]
fn numerals_are_recognised() {
    assert!(is_numeral_text(&chars("12")));
    assert!(is_numeral_text(&chars("-12.5")));
    assert!(!is_numeral_text(&chars("")));
    assert!(!is_numeral_text(&chars("-")));
    assert!(!is_numeral_text(&chars("12.")));
    assert!(!is_numeral_text(&chars(".5")));
    assert!(!is_numeral_text(&chars("1,000")));
    assert!(!is_numeral_text(&chars("Error")));
    assert!(!is_numeral_text(&chars("1.2.3")));
}

#[test]
fn normal_form_of_a_formula() {
    assert_eq!(normalize(" 6 / 3  # half"), "6*1.0/3");
    assert_eq!(normalize("2 * X"), "2*x");
    assert_eq!(normalize("\t1 +\u{a0}2 "), "1+2");
    assert_eq!(normalize("# only a comment"), "");
}

#[test]
fn normal_form_rewrites_percentages() {
    assert_eq!(normalize("200 * 15%"), "200*15 * 0.01");
    assert_eq!(replace_percentage("12.5%+3%"), "12.5 * 0.01+3 * 0.01");
    assert_eq!(replace_percentage("a%"), "a%");
}

#[test]
fn reading_as_a_number_is_what_the_parser_accepts() {
    let samples = [
        "", "0", "12", "-12.5", "+3", "+", "-", ".", ".5", "5.", "-.5", "1.2.3", "1e5", "1E5",
        "1e", "1e+", "1e+5", "1e-5", "1.5e3", ".e3", "e3", "1e5.0", "1e5e5", "inf", "-inf",
        "+INF", "Infinity", "infinit", "nan", "NaN", "-nan", "na n", " 1", "1 ", "1,000",
        "0x10", "1_000", "Error", "Import from cfg file", "--1", "+-1", "1e--5", "infinitye",
        "5.e", "5.e1", "00012", "1.0000000000000000000000001", "\u{661}", "1f",
    ];
    for text in samples {
        let mine = reads_as_number_text(&chars(text));
        assert_eq!(mine, text.parse::<f64>().is_ok(), "{:?}", text);
    }
}
