use scatters::error::AppError;
use scatters::numlit::check_float_str;
use scatters::text::{concat2, i64_to_string, trim_string, u64_to_string};

#[test]
fn float_recognizer_agrees_with_the_float_parser() {
    let samples = [
        "1", "0", "-0", "+1", "1.5", "-2e3", ".5", "1.", "1.e5", "3.25E-7", "inf", "INF",
        "-infinity", "Infinity", "NaN", "nan", "+inf", "007", "9e0", "1_000", "1e", "e5", "",
        "+", "-", ".", "1.2.3", "abc", "1a", " 1", "1 ", "0x10", "1e+", "1e-", "1e+2", "--1",
        "in", "infinit", "nana", "1,000",
    ];
    for s in samples {
        let expected = s.parse::<f64>().is_ok();
        assert_eq!(check_float_str(s), expected, "disagreement on {:?}", s);
    }
}

#[test]
fn trim_strips_unicode_whitespace() {
    assert_eq!(trim_string("  a b \t"), "a b");
    assert_eq!(trim_string("\u{a0}x\u{3000}"), "x");
    assert_eq!(trim_string(""), "");
    assert_eq!(trim_string(" \t "), "");
    assert_eq!(trim_string("nospace"), "nospace");
}

#[test]
fn integers_render_in_decimal() {
    assert_eq!(u64_to_string(0), "0");
    assert_eq!(u64_to_string(907), "907");
    assert_eq!(u64_to_string(u64::MAX), "18446744073709551615");
    assert_eq!(i64_to_string(-45), "-45");
    assert_eq!(i64_to_string(0), "0");
    assert_eq!(i64_to_string(i64::MIN), "-9223372036854775808");
    assert_eq!(i64_to_string(i64::MAX), "9223372036854775807");
}

#[test]
fn concat_joins_strings() {
    assert_eq!(concat2("ab", "cd"), "abcd");
    assert_eq!(concat2("", "x"), "x");
    assert_eq!(concat2("x", ""), "x");
}

#[test]
fn error_messages_name_the_failure() {
    assert_eq!(
        AppError::ColumnNotFound("nosuchcol".to_string()).message(),
        "Column 'nosuchcol' not found in the data"
    );
    assert_eq!(
        AppError::NoNumericColumns.message(),
        "No numeric columns found to plot"
    );
    assert_eq!(
        AppError::UnsupportedFormat("a.zip".to_string()).message(),
        "Unsupported file format for: a.zip"
    );
    assert_eq!(
        AppError::DuplicateColumn("t".to_string()).message(),
        "Duplicate column name: t"
    );
}
