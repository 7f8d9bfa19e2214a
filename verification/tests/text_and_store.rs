use ft_linear_regression::fixed::{Fixed, MAX_RAW};
use ft_linear_regression::store::{csv_exists, format_fixed, parse_fixed};
use ft_linear_regression::text::{center, separator, underline};

#[test]
fn coefficients_are_written_in_canonical_text() {
    assert_eq!(format_fixed(Fixed { raw: 0 }).as_str(), "0.000000");
    assert_eq!(format_fixed(Fixed { raw: 17_000_000_000 }).as_str(), "17000.000000");
    assert_eq!(format_fixed(Fixed { raw: -2_236_069 }).as_str(), "-2.236069");
    assert_eq!(format_fixed(Fixed { raw: 42 }).as_str(), "0.000042");
    assert_eq!(format_fixed(Fixed { raw: MAX_RAW }).as_str(), "1000000000000.000000");
}

#[test]
fn stored_coefficients_read_back_unchanged() {
    for raw in [0i64, 1, -1, 42, -42, 17_000_000_000, -2_236_069, MAX_RAW, -MAX_RAW] {
        let f = Fixed { raw };
        let text = format_fixed(f);
        assert_eq!(parse_fixed(text.as_str()), Some(f));
    }
}

#[test]
fn parsing_accepts_only_the_canonical_form() {
    assert_eq!(parse_fixed("17000.000000"), Some(Fixed { raw: 17_000_000_000 }));
    assert_eq!(parse_fixed("-0.500000"), Some(Fixed { raw: -500_000 }));
    assert_eq!(parse_fixed(""), None);
    assert_eq!(parse_fixed("17000"), None); // no fraction digits
    assert_eq!(parse_fixed("17000.0"), None); // too few fraction digits
    assert_eq!(parse_fixed("017.000000"), None); // leading zero
    assert_eq!(parse_fixed("1x000.000000"), None); // not a digit
    assert_eq!(parse_fixed("1.0000000"), None); // seven fraction digits
    assert_eq!(parse_fixed("1000000000001.000000"), None); // out of range
    assert_eq!(parse_fixed("+1.000000"), None); // no plus sign
}

#[test]
fn separator_repeats_the_style() {
    assert_eq!(separator("-", 5).as_str(), "-----");
    assert_eq!(separator("=-", 3).as_str(), "=-=-=-");
    assert_eq!(separator("-", 0).as_str(), "");
}

#[test]
fn underline_draws_a_rule_of_the_text_length() {
    assert_eq!(underline("abc", "-").as_str(), "abc\n---");
    assert_eq!(underline("", "=").as_str(), "\n");
}

#[test]
fn center_pads_both_sides_evenly() {
    assert_eq!(center("ab", 6).as_str(), "  ab  ");
    // An odd leftover column is not padded.
    assert_eq!(center("ab", 7).as_str(), "  ab  ");
    assert_eq!(center("ab", 2).as_str(), "ab");
}

#[test]
fn a_missing_store_does_not_exist() {
    assert!(!csv_exists("surely_no_such_store_file_here.csv"));
}
