use taiko_untitled::tja::{leading_decimal_literal, parse_first_i64, parse_first_u32, parse_first_u64};

/// Reads the decimal number a line starts with, the way the score loader does.
fn parse_first_f64(line: &str) -> Option<f64> {
    leading_decimal_literal(line).and_then(|text| text.parse().ok())
}

#[test]
#[allow(clippy::approx_constant)]
fn test_parse_f64() {
    assert_eq!(parse_first_f64("3.14"), Some(3.14));
    assert_eq!(parse_first_f64("-3.14"), Some(-3.14));
    assert_eq!(parse_first_f64("2.5E10"), Some(2.5e10));
    assert_eq!(parse_first_f64("2.5e10"), Some(2.5e10));
    assert_eq!(parse_first_f64("2.5E-10"), Some(2.5e-10));
    assert_eq!(parse_first_f64("5"), Some(5.0));
    assert_eq!(parse_first_f64("5."), Some(5.0));
    assert_eq!(parse_first_f64(".5"), Some(0.5));
    assert_eq!(parse_first_f64("0.5"), Some(0.5));

    assert_eq!(parse_first_f64("inf"), None as Option<f64>);
    assert_eq!(parse_first_f64("-inf"), None as Option<f64>);
    assert_eq!(parse_first_f64("NaN"), None as Option<f64>);

    assert_eq!(parse_first_f64("  3.14"), Some(3.14));
    assert_eq!(parse_first_f64("      -3.14"), Some(-3.14));
    assert_eq!(parse_first_f64("  \t\t\t2.5E10"), Some(2.5e10));
    assert_eq!(parse_first_f64("  \t \t  2.5e10"), Some(2.5e10));

    assert_eq!(parse_first_f64("  3.14abc"), Some(3.14));
    assert_eq!(parse_first_f64("      -3.14e"), Some(-3.14));
    assert_eq!(parse_first_f64("  \t\t\t2.5E10//"), Some(2.5e10));
    assert_eq!(parse_first_f64("  \t \t  2.5e10e"), Some(2.5e10));
    assert_eq!(parse_first_f64("  5.2.3.1"), Some(5.2));
    assert_eq!(parse_first_f64("  120 //180"), Some(120.0));
}

#[test]
fn test_parse_u64() {
    assert_eq!(parse_first_u64("0"), Some(0u64));
    assert_eq!(parse_first_u64("1234"), Some(1234u64));
    assert_eq!(parse_first_u64("2147483648"), Some(2147483648u64));

    assert_eq!(parse_first_u64("-0"), None as Option<u64>);
    assert_eq!(parse_first_u64("-1234"), None as Option<u64>);
    assert_eq!(parse_first_u64("-2147483648"), None as Option<u64>);

    assert_eq!(parse_first_u64("a"), None as Option<u64>);

    assert_eq!(parse_first_u64("   123"), Some(123u64));
    assert_eq!(parse_first_u64("  \t123e2"), Some(123u64));
    assert_eq!(parse_first_u64("  \t123//456"), Some(123u64));
}

#[test]
fn test_parse_i64() {
    assert_eq!(parse_first_i64("0"), Some(0i64));
    assert_eq!(parse_first_i64("1234"), Some(1234i64));
    assert_eq!(parse_first_i64("2147483648"), Some(2147483648i64));

    assert_eq!(parse_first_i64("-0"), Some(0i64));
    assert_eq!(parse_first_i64("-1234"), Some(-1234i64));
    assert_eq!(parse_first_i64("-2147483648"), Some(-2147483648i64));

    assert_eq!(parse_first_i64("a"), None as Option<i64>);

    assert_eq!(parse_first_i64("   123"), Some(123i64));
    assert_eq!(parse_first_i64("  \t123e2"), Some(123i64));
    assert_eq!(parse_first_i64("  \t123//456"), Some(123i64));
}

#[test]
fn integers_at_the_edges_of_their_types() {
    assert_eq!(parse_first_u64("18446744073709551615"), Some(u64::MAX));
    assert_eq!(parse_first_u64("18446744073709551616"), None);
    assert_eq!(parse_first_u64("+7"), Some(7));
    assert_eq!(parse_first_u64("00042x"), Some(42));
    assert_eq!(parse_first_i64("-9223372036854775808"), Some(i64::MIN));
    assert_eq!(parse_first_i64("-9223372036854775809"), None);
    assert_eq!(parse_first_i64("9223372036854775807"), Some(i64::MAX));
    assert_eq!(parse_first_i64("9223372036854775808"), None);
    assert_eq!(parse_first_u32("4294967295"), Some(u32::MAX));
    assert_eq!(parse_first_u32("4294967296"), None);
    assert_eq!(parse_first_u32("\u{3000}12"), Some(12));
    assert_eq!(parse_first_u32("+"), None);
    assert_eq!(parse_first_u32(""), None);
}

#[test]
fn decimal_literals_keep_only_the_number() {
    assert_eq!(leading_decimal_literal("  -1.5e+3xyz"), Some("-1.5e+3"));
    assert_eq!(leading_decimal_literal("1e+"), Some("1"));
    assert_eq!(leading_decimal_literal("."), None);
    assert_eq!(leading_decimal_literal("+.25"), Some("+.25"));
    assert_eq!(leading_decimal_literal(""), None);
}

#[test]
fn digits_read_back_as_the_number() {
    for n in [0u64, 7, 10, 1234, 2147483648, u64::MAX] {
        let text: String = taiko_untitled::utils::to_digits(n)
            .into_iter()
            .map(|d| char::from_digit(d, 10).unwrap())
            .collect();
        assert_eq!(parse_first_u64(&text), Some(n));
    }
}
