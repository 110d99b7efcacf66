use calc_core::{eval_expression, format_all, parse, CalcError, FormattedValue};

#[test]
fn left_associative_subtraction() {
    assert_eq!(eval_expression("10-2-3"), Ok(5));
}

#[test]
fn remainder_then_multiply_left_to_right() {
    assert_eq!(eval_expression("7%4*2"), Ok(6));
}

#[test]
fn remainder_negative_divisor_is_euclidean() {
    assert_eq!(eval_expression("5 % -3"), Ok(2));
    assert_eq!(eval_expression("-7 % -3"), Ok(2));
    assert_eq!(eval_expression("-7 % 3"), Ok(2));
}

#[test]
fn whitespace_kinds_between_tokens() {
    assert_eq!(eval_expression("\t1\n+\r2 "), Ok(3));
}

#[test]
fn empty_and_blank_input() {
    assert_eq!(eval_expression(""), Err(CalcError::InvalidLiteral));
    assert_eq!(eval_expression("   "), Err(CalcError::InvalidLiteral));
    assert_eq!(parse(""), Err(CalcError::InvalidLiteral));
}

#[test]
fn trailing_garbage_after_expression() {
    assert_eq!(eval_expression("1 2"), Err(CalcError::InvalidToken('2')));
    assert_eq!(eval_expression("1 é"), Err(CalcError::InvalidToken('é')));
    assert_eq!(eval_expression("1+é"), Err(CalcError::InvalidToken('é')));
}

#[test]
fn double_unary_minus() {
    assert_eq!(eval_expression("--2"), Ok(2));
}

#[test]
fn widened_bound_only_directly_under_minus() {
    assert_eq!(eval_expression("-2147483648"), Ok(-2147483648));
    assert_eq!(eval_expression("2147483648"), Err(CalcError::LiteralOutOfRange));
    assert_eq!(eval_expression("-(2147483648)"), Err(CalcError::LiteralOutOfRange));
    assert_eq!(eval_expression("-2147483649"), Err(CalcError::LiteralOutOfRange));
    assert_eq!(eval_expression("--2147483648"), Err(CalcError::RangeError));
}

#[test]
fn multiplication_overflow() {
    assert_eq!(eval_expression("65536*65536"), Err(CalcError::RangeError));
    assert_eq!(eval_expression("-2147483648 * -1"), Err(CalcError::RangeError));
    assert_eq!(eval_expression("-2147483648 % -1"), Ok(0));
}

#[test]
fn long_literal_fails_as_out_of_range() {
    assert_eq!(
        eval_expression("99999999999999999999999999999999"),
        Err(CalcError::LiteralOutOfRange)
    );
    assert_eq!(parse("9999999999__"), Err(CalcError::LiteralOutOfRange));
}

#[test]
fn malformed_underscores_in_expressions() {
    assert_eq!(eval_expression("_1"), Err(CalcError::InvalidLiteral));
    assert_eq!(eval_expression("1__2 + 3"), Err(CalcError::InvalidLiteral));
    assert_eq!(eval_expression("1_ * 3"), Err(CalcError::InvalidLiteral));
    assert_eq!(eval_expression("0x_1"), Err(CalcError::InvalidLiteral));
}

#[test]
fn unbalanced_parentheses_variants() {
    assert_eq!(eval_expression("( )"), Err(CalcError::InvalidToken(')')));
    assert_eq!(eval_expression("("), Err(CalcError::InvalidToken(')')));
    assert_eq!(eval_expression("((1)"), Err(CalcError::InvalidToken(')')));
}

#[test]
fn literals_in_each_base() {
    assert_eq!(parse("0xfF"), Ok(255));
    assert_eq!(parse("0X1_0"), Ok(16));
    assert_eq!(parse("0B11"), Ok(3));
    assert_eq!(parse("1_000_000"), Ok(1000000));
    assert_eq!(parse("0b1010_1010"), Ok(170));
    assert_eq!(parse("0x7FFF_FFFF"), Ok(2147483647));
    assert_eq!(parse("  42\t"), Ok(42));
}

#[test]
fn literal_bound_in_each_base() {
    assert_eq!(parse("0x8000_0000"), Err(CalcError::LiteralOutOfRange));
    assert_eq!(
        parse("0b1000_0000_0000_0000_0000_0000_0000_0000"),
        Err(CalcError::LiteralOutOfRange)
    );
    assert_eq!(parse("2147483648"), Err(CalcError::LiteralOutOfRange));
}

#[test]
fn prefixed_literal_with_stray_characters() {
    assert_eq!(parse("0x1g"), Err(CalcError::InvalidLiteral));
    assert_eq!(parse("0x"), Err(CalcError::InvalidLiteral));
    assert_eq!(eval_expression("0b12"), Err(CalcError::InvalidLiteral));
    assert_eq!(eval_expression("0x1-2"), Ok(-1));
    assert_eq!(eval_expression("0x10-1"), Ok(15));
    assert_eq!(eval_expression("0x1 -2"), Ok(-1));
}

#[test]
fn parse_trailing_minus_after_hex_literal() {
    assert_eq!(parse("0x1 -"), Err(CalcError::LiteralOutOfRange));
    assert_eq!(parse("0x1-"), Err(CalcError::LiteralOutOfRange));
    assert_eq!(parse("0X1F -"), Err(CalcError::LiteralOutOfRange));
    assert_eq!(parse("0b1-"), Err(CalcError::InvalidToken('-')));
    assert_eq!(parse("1 -"), Err(CalcError::InvalidToken('-')));
    assert_eq!(parse("-1"), Err(CalcError::InvalidToken('-')));
}

#[test]
fn format_extremes() {
    assert_eq!(
        format_all(2147483647),
        Ok(FormattedValue {
            bin: "0b111_1111_1111_1111_1111_1111_1111_1111".to_string(),
            dec: "2147483647".to_string(),
            hex: "0x7FFFFFFF".to_string(),
        })
    );
    assert_eq!(
        format_all(-2147483648),
        Ok(FormattedValue {
            bin: "-0b1000_0000_0000_0000_0000_0000_0000_0000".to_string(),
            dec: "-2147483648".to_string(),
            hex: "-0x80000000".to_string(),
        })
    );
    assert_eq!(format_all(-2147483649), Err(CalcError::RangeError));
}

#[test]
fn format_group_boundary() {
    let f = format_all(15).unwrap();
    assert_eq!(f.bin, "0b1111");
    assert_eq!(f.hex, "0xF");
    let g = format_all(16).unwrap();
    assert_eq!(g.bin, "0b1_0000");
    assert_eq!(g.dec, "16");
    assert_eq!(g.hex, "0x10");
}

#[test]
fn literal_round_trip_values() {
    assert_eq!(parse("0b1_0000_0000"), Ok(256));
    assert_eq!(parse("0xDEAD"), Ok(57005));
    assert_eq!(parse("0"), Ok(0));
    assert_eq!(parse("0_1"), Ok(1));
}

#[test]
fn decimal_rendering_reads_back() {
    for v in [0i64, 7, 26, 1000, 2147483647] {
        let f = format_all(v).unwrap();
        assert_eq!(parse(&f.dec), Ok(v));
    }
}

#[test]
fn negative_decimal_rendering_is_not_one_literal() {
    let f = format_all(-26).unwrap();
    assert_eq!(parse(&f.dec), Err(CalcError::InvalidToken('-')));
}

#[test]
fn error_messages() {
    assert_eq!(CalcError::InvalidToken('a').message(), "invalid token 'a'");
    assert_eq!(CalcError::InvalidLiteral.message(), "invalid literal");
    assert_eq!(CalcError::LiteralOutOfRange.message(), "literal out of range");
    assert_eq!(CalcError::RangeError.message(), "range error");
}

#[test]
fn evaluate_then_format() {
    let v = eval_expression("0x10 + 0b11").unwrap();
    let f = format_all(v).unwrap();
    assert_eq!(f.bin, "0b1_0011");
    assert_eq!(f.dec, "19");
    assert_eq!(f.hex, "0x13");
}
