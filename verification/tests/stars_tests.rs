use ghtodep::dependent::convert_stars_to_number;

#[test]
fn test_convert_stars_to_number() {
    assert_eq!(convert_stars_to_number("100"), 100 * 1000);
    assert_eq!(convert_stars_to_number("1.2k"), 1200 * 1000);
    assert_eq!(convert_stars_to_number("1,234"), 1234 * 1000);
    assert_eq!(convert_stars_to_number("N/A"), -1000);
    assert_eq!(convert_stars_to_number(""), 0);
    assert_eq!(convert_stars_to_number("invalid"), 0);
}

#[test]
fn blank_and_whitespace_count_zero() {
    assert_eq!(convert_stars_to_number("   "), 0);
    assert_eq!(convert_stars_to_number("\t\n"), 0);
}

#[test]
fn k_suffix_scales_by_a_thousand() {
    assert_eq!(convert_stars_to_number("70.9k"), 70_900 * 1000);
    assert_eq!(convert_stars_to_number("70.9K"), 70_900 * 1000);
    assert_eq!(convert_stars_to_number(" 2k "), 2000 * 1000);
    // fractional thousandths of a star survive the k scaling
    assert_eq!(convert_stars_to_number("1.2345k"), 1_234_500);
}

#[test]
fn only_a_trailing_k_scales() {
    // the scaling applies to a case-insensitive suffix only: a k anywhere
    // else leaves an unparsable numeral, which counts zero
    assert_eq!(convert_stars_to_number("k1"), 0);
    assert_eq!(convert_stars_to_number("1k2"), 0);
    assert_eq!(convert_stars_to_number("1kk"), 0);
    assert_eq!(convert_stars_to_number("k"), 0);
}

#[test]
fn commas_are_thousands_separators() {
    assert_eq!(convert_stars_to_number("1,234,567"), 1_234_567 * 1000);
    // a comma inside a k-suffixed numeral is not stripped, so it fails to parse
    assert_eq!(convert_stars_to_number("1,2k"), 0);
}

#[test]
fn sentinel_check_precedes_trimming() {
    // only the exact text "N/A" is the sentinel; near misses parse as numerals and fail
    assert_eq!(convert_stars_to_number("N/A"), -1000);
    assert_eq!(convert_stars_to_number(" N/A"), 0);
    assert_eq!(convert_stars_to_number("n/a"), 0);
}

#[test]
fn fractions_and_signs_parse() {
    assert_eq!(convert_stars_to_number("0.5"), 500);
    assert_eq!(convert_stars_to_number("3."), 3000);
    assert_eq!(convert_stars_to_number(".5"), 500);
    assert_eq!(convert_stars_to_number("-5"), -5000);
    assert_eq!(convert_stars_to_number("+5"), 5000);
    assert_eq!(convert_stars_to_number("."), 0);
    assert_eq!(convert_stars_to_number("1.2.3"), 0);
}

#[test]
fn huge_counts_saturate() {
    assert_eq!(
        convert_stars_to_number("99999999999999999999999999"),
        i64::MAX
    );
    assert_eq!(
        convert_stars_to_number("-99999999999999999999999999"),
        -i64::MAX
    );
}
