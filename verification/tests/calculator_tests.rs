use fraction_kata::error::CalcError;
use fraction_kata::fraction::Fraction;
use fraction_kata::parser::{Operation, ParsedFractions};

#[test]
fn round_trip_keeps_the_fraction() {
    for f in [
        Fraction::new(1, 2),
        Fraction::new(0, 1),
        Fraction::new(19, 15),
        Fraction::new(10, 100),
        Fraction::new(4294967295, 4294967295),
    ] {
        let text = f.to_text();
        assert_eq!(Fraction::parse(&text), Ok(f));
    }
}

#[test]
fn to_text_writes_numerator_semicolon_denominator() {
    assert_eq!(Fraction::new(1, 2).to_text(), "1;2");
    assert_eq!(Fraction::new(0, 1).to_text(), "0;1");
    assert_eq!(Fraction::new(1234567890, 987).to_text(), "1234567890;987");
}

#[test]
fn simplify_leaves_a_reduced_pair_unchanged() {
    assert_eq!(Fraction::simplify(3, 8), Fraction::new(3, 8));
    assert_eq!(Fraction::simplify(0, 1), Fraction::new(0, 1));
    assert_eq!(Fraction::simplify(1, 1), Fraction::new(1, 1));
}

#[test]
fn simplify_divides_by_the_gcd() {
    assert_eq!(Fraction::simplify(2, 4), Fraction::new(1, 2));
    assert_eq!(Fraction::simplify(0, 5), Fraction::new(0, 1));
    assert_eq!(Fraction::simplify(12, 8), Fraction::new(3, 2));
}

#[test]
fn pgcd_computes_the_greatest_common_divisor() {
    assert_eq!(Fraction::pgcd(12, 8), 4);
    assert_eq!(Fraction::pgcd(7, 0), 7);
    assert_eq!(Fraction::pgcd(0, 9), 9);
    assert_eq!(Fraction::pgcd(35, 21), 7);
}

#[test]
fn divide_by_zero_numerator_is_rejected() {
    for (a, d) in [((3, 7), 9), ((0, 1), 1), ((4294967295, 2), 4294967295)] {
        let first = Fraction::new(a.0, a.1);
        let second = Fraction::new(0, d);
        assert_eq!(first.divide(second), Err(CalcError::DivisionByZero));
    }
    assert_eq!(CalcError::DivisionByZero.message(), "Division by zero");
}

#[test]
fn subtract_below_zero_is_rejected() {
    let result = Fraction::new(1, 3).subtract(Fraction::new(1, 2));
    assert_eq!(result, Err(CalcError::ArithmeticUnderflow));
    assert_eq!(CalcError::ArithmeticUnderflow.message(), "Arithmetic underflow");
}

#[test]
fn subtract_computes_the_difference() {
    let result = Fraction::new(2, 3).subtract(Fraction::new(3, 5));
    assert_eq!(result, Ok(Fraction::new(1, 15)));
}

#[test]
fn parse_accepts_leading_zeros() {
    assert_eq!(Fraction::parse("007;2"), Ok(Fraction::new(7, 2)));
    assert_eq!(Fraction::parse("1;02"), Ok(Fraction::new(1, 2)));
}

#[test]
fn parse_rejects_text_without_one_semicolon() {
    assert_eq!(Fraction::parse(""), Err(CalcError::MalformedExpression));
    assert_eq!(Fraction::parse("12"), Err(CalcError::MalformedExpression));
    assert_eq!(Fraction::parse("1;2;3"), Err(CalcError::MalformedExpression));
}

#[test]
fn parse_rejects_a_numerator_that_is_no_numeral() {
    assert_eq!(Fraction::parse("a;2"), Err(CalcError::InvalidNumerator));
    assert_eq!(Fraction::parse(";2"), Err(CalcError::InvalidNumerator));
    assert_eq!(Fraction::parse("-1;2"), Err(CalcError::InvalidNumerator));
}

#[test]
fn parse_rejects_a_denominator_that_is_no_numeral() {
    assert_eq!(Fraction::parse("1;b"), Err(CalcError::InvalidDenominator));
    assert_eq!(Fraction::parse("1;"), Err(CalcError::InvalidDenominator));
}

#[test]
fn parse_rejects_a_numeral_beyond_u32() {
    assert_eq!(Fraction::parse("4294967295;1"), Ok(Fraction::new(4294967295, 1)));
    assert_eq!(Fraction::parse("4294967296;1"), Err(CalcError::InvalidNumerator));
    assert_eq!(Fraction::parse("1;4294967296"), Err(CalcError::InvalidDenominator));
}

#[test]
fn expression_parse_rejects_missing_or_repeated_operators() {
    assert_eq!(ParsedFractions::parse("1;2"), Err(CalcError::MalformedExpression));
    assert_eq!(ParsedFractions::parse(""), Err(CalcError::MalformedExpression));
    assert_eq!(ParsedFractions::parse("1;2x3;4x5;6"), Err(CalcError::MalformedExpression));
    assert_eq!(ParsedFractions::parse("1;2*3;4"), Err(CalcError::MalformedExpression));
}

#[test]
fn expression_parse_propagates_operand_errors() {
    assert_eq!(ParsedFractions::parse("x1;2"), Err(CalcError::MalformedExpression));
    assert_eq!(ParsedFractions::parse("1;0x1;2"), Err(CalcError::InvalidDenominator));
    assert_eq!(ParsedFractions::parse("1;2xa;2"), Err(CalcError::InvalidNumerator));
}

#[test]
fn a_character_outside_the_operator_set_is_an_unknown_operator() {
    assert_eq!(Operation::from_char('*'), Err(CalcError::UnknownOperator));
    assert_eq!(Operation::from_char(';'), Err(CalcError::UnknownOperator));
    assert_eq!(Operation::from_char('9').err().map(|e| e.message()), Some("Unknown sign"));
}

#[test]
fn evaluate_applies_the_parsed_operation() {
    let add = ParsedFractions {
        first: Fraction::new(2, 3),
        second: Fraction::new(3, 5),
        operation: Operation::Add,
    };
    assert_eq!(add.evaluate(), Ok(Fraction::new(19, 15)));
    let subtract = ParsedFractions {
        first: Fraction::new(2, 4),
        second: Fraction::new(2, 4),
        operation: Operation::Subtract,
    };
    assert_eq!(subtract.evaluate(), Ok(Fraction::new(0, 1)));
    let multiply = ParsedFractions {
        first: Fraction::new(2, 4),
        second: Fraction::new(3, 4),
        operation: Operation::Multiply,
    };
    assert_eq!(multiply.evaluate(), Ok(Fraction::new(3, 8)));
    let divide = ParsedFractions {
        first: Fraction::new(8, 4),
        second: Fraction::new(3, 1),
        operation: Operation::Divide,
    };
    assert_eq!(divide.evaluate(), Ok(Fraction::new(2, 3)));
}

#[test]
fn evaluate_guards_division_by_zero() {
    let divide = ParsedFractions {
        first: Fraction::new(8, 4),
        second: Fraction::new(0, 3),
        operation: Operation::Divide,
    };
    assert_eq!(divide.evaluate(), Err(CalcError::DivisionByZero));
}

#[test]
fn end_to_end_multiplication() {
    let parsed = ParsedFractions::parse("1;3x1;2").unwrap();
    assert_eq!(parsed.to_text(), "first:1;3;second:1;2;operation:Multiply");
    let result = parsed.evaluate().unwrap();
    assert_eq!(result.to_text(), "1;6");
}

#[test]
fn end_to_end_demo_sum() {
    let result = Fraction::new(1, 2).add_fraction(Fraction::new(2, 2));
    assert_eq!(result.to_text(), "3;2");
}

#[test]
fn operation_names_are_the_capitalized_variants() {
    assert_eq!(Operation::Multiply.name(), "Multiply");
    assert_eq!(Operation::Add.name(), "Add");
    assert_eq!(Operation::Divide.name(), "Divide");
    assert_eq!(Operation::Subtract.name(), "Subtract");
}

#[test]
fn error_messages_match_their_failures() {
    assert_eq!(CalcError::MalformedExpression.message(), "Wrong input");
    assert_eq!(CalcError::InvalidNumerator.message(), "Failed to parse numerator");
    assert_eq!(CalcError::InvalidDenominator.message(), "Invalid denominator");
    assert_eq!(CalcError::UnknownOperator.message(), "Unknown sign");
}
