use paper::line_number::{LineNumber, ParseLineNumberError};
use paper::number::{format_decimal, format_decimal_padded, parse_i32, parse_usize, IntErrorKind};
use paper::ui::{Index, Length};
use paper::convert::IntConversionError;

fn chars(s: &str) -> Vec<char> {
    s.chars().collect()
}

#[test]
fn line_number_new_rejects_zero_and_large_values() {
    assert!(LineNumber::new(0).is_none());
    assert_eq!(LineNumber::new(5).unwrap().value(), 5);
    assert_eq!(LineNumber::new(u32::MAX as usize).unwrap().value(), u32::MAX);
    if usize::BITS > 32 {
        assert!(LineNumber::new(u32::MAX as usize + 1).is_none());
    }
}

#[test]
fn line_number_row_is_one_less() {
    assert_eq!(LineNumber::new(1).unwrap().row(), 0);
    assert_eq!(LineNumber::new(42).unwrap().row(), 41);
}

#[test]
fn line_number_add_saturates() {
    let three = LineNumber::new(3).unwrap();
    assert_eq!(three.add(2).value(), 5);
    assert_eq!(three.add(-10).value(), 1);
    assert_eq!(three.add(-3).value(), 0);
    assert_eq!(three.add(0).value(), 3);
    assert_eq!(LineNumber::new(u32::MAX as usize).unwrap().add(1).value(), u32::MAX);
    assert_eq!(LineNumber::default().value(), 1);
}

#[test]
fn line_number_sub_counts_lines_between() {
    let a = LineNumber::new(10).unwrap();
    let b = LineNumber::new(4).unwrap();
    assert_eq!(a.sub(b), 6);
    assert_eq!(b.sub(a), -6);
    assert_eq!(a.add(7).sub(a), 7);
}

#[test]
fn line_number_from_chars_reads_decimal() {
    assert_eq!(LineNumber::from_chars(&chars("12")).unwrap().value(), 12);
    assert_eq!(LineNumber::from_chars(&chars("+7")).unwrap().value(), 7);
    assert_eq!(LineNumber::from_chars(&chars("0")), Err(ParseLineNumberError::InvalidValue));
    assert_eq!(
        LineNumber::from_chars(&chars("")),
        Err(ParseLineNumberError::ParseInt(IntErrorKind::Empty))
    );
    assert_eq!(
        LineNumber::from_chars(&chars("1a")),
        Err(ParseLineNumberError::ParseInt(IntErrorKind::InvalidDigit))
    );
    assert_eq!(
        LineNumber::from_chars(&chars("-3")),
        Err(ParseLineNumberError::ParseInt(IntErrorKind::InvalidDigit))
    );
    assert_eq!(
        LineNumber::from_chars(&chars("99999999999999999999999")),
        Err(ParseLineNumberError::ParseInt(IntErrorKind::PosOverflow))
    );
    assert_eq!(
        LineNumber::from_chars(&chars("4294967296")),
        Err(ParseLineNumberError::InvalidValue)
    );
}

#[test]
fn parse_usize_matches_std() {
    for text in ["0", "17", "+17", "", "+", "-", "-1", "1 ", "18446744073709551615", "18446744073709551616", "00042"] {
        let expected = text.parse::<usize>().map_err(|_| ());
        let got = parse_usize(&chars(text)).map_err(|_| ());
        if usize::BITS == 64 {
            assert_eq!(got, expected, "{:?}", text);
        }
    }
    assert_eq!(parse_usize(&chars("+")), Err(IntErrorKind::InvalidDigit));
    assert_eq!(parse_usize(&chars("1x9")), Err(IntErrorKind::InvalidDigit));
}

#[test]
fn parse_i32_matches_std() {
    for text in ["0", "-0", "+5", "-5", "2147483647", "2147483648", "-2147483648", "-2147483649", "", "-", "+", "3-"] {
        let expected = text.parse::<i32>().map_err(|_| ());
        let got = parse_i32(&chars(text)).map_err(|_| ());
        assert_eq!(got, expected, "{:?}", text);
    }
    assert_eq!(parse_i32(&chars("-2147483649")), Err(IntErrorKind::NegOverflow));
    assert_eq!(parse_i32(&chars("2147483648")), Err(IntErrorKind::PosOverflow));
    assert_eq!(parse_i32(&chars("-2147483648")), Ok(i32::MIN));
}

#[test]
fn decimal_text_reads_back() {
    for n in [0u64, 7, 10, 99, 1234, 4294967295] {
        let text = format_decimal(n);
        assert_eq!(text.iter().collect::<String>(), n.to_string());
        assert_eq!(parse_usize(&text), Ok(n as usize));
    }
}

#[test]
fn padded_decimal_aligns_right() {
    assert_eq!(format_decimal_padded(7, 3), chars("  7"));
    assert_eq!(format_decimal_padded(1234, 2), chars("1234"));
    assert_eq!(format_decimal_padded(12, 2), chars("12"));
}

#[test]
fn index_conversions_fail_out_of_range() {
    assert_eq!(Index::try_from_i64(-1), Err(IntConversionError::Underflow));
    assert_eq!(Index::try_from_i64(1 << 40), Err(IntConversionError::Overflow));
    assert_eq!(Index::try_from_i64(12).unwrap().value(), 12);
    assert_eq!(Index::try_from_usize(i32::MAX as usize).unwrap().value(), i32::MAX);
    assert_eq!(Index::try_from_usize(i32::MAX as usize + 1), Err(IntConversionError::Overflow));
    assert_eq!(Index::try_from_length(Length::End), Err(IntConversionError::Overflow));
    assert_eq!(Index::try_from_length(Length::from_u8(3)).unwrap().value(), 3);
    assert_eq!(Length::try_from_usize(i32::MAX as usize + 1), Err(IntConversionError::Overflow));
    assert_eq!(Index::from_u8(9).to_usize(), Ok(9));
}

#[test]
fn index_shift_saturates() {
    assert_eq!(Index::from_u8(5).shifted(-3).value(), 2);
    assert_eq!(Index::from_u8(5).shifted(-9).value(), 0);
    assert_eq!(Index::try_from_usize(i32::MAX as usize).unwrap().shifted(1).value(), i32::MAX);
    assert_eq!(Index::from_u8(5).shifted(2).shifted(3).value(), Index::from_u8(5).shifted(5).value());
    assert_eq!(Index::from_u8(4).negated(), -4);
}
