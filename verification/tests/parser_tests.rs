use fraction_kata::fraction::Fraction;
use fraction_kata::parser::{Operation, ParsedFractions};

#[test]
fn should_get_a_multiply() {
    let input = 'x';
    let result = Operation::from_char(input);
    assert_eq!(result.ok(), Some(Operation::Multiply))
}

#[test]
fn should_get_a_add() {
    let input = '+';
    let result = Operation::from_char(input);
    assert_eq!(result.ok(), Some(Operation::Add))
}

#[test]
fn should_get_a_divide() {
    let input = '/';
    let result = Operation::from_char(input);
    assert_eq!(result.ok(), Some(Operation::Divide))
}

#[test]
fn should_get_a_subtract() {
    let input = '-';
    let result = Operation::from_char(input);
    assert_eq!(result.ok(), Some(Operation::Subtract))
}

#[test]
fn should_get_an_error() {
    let input = '1';
    let result = Operation::from_char(input);
    assert_eq!(result.err().map(|e| e.message()), Some("Unknown sign"))
}

#[test]
fn should_get_a_result_with_fractions_and_operation() {
    let input = "1;3x1;2";
    let result = ParsedFractions::parse(input);
    assert_eq!(
        result.ok(),
        Some(ParsedFractions {
            first: Fraction::new(1, 3),
            second: Fraction::new(1, 2),
            operation: Operation::Multiply,
        })
    );
}
