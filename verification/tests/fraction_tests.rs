use fraction_kata::fraction::Fraction;
use std::any::{Any, TypeId};

fn type_of<T: Any>(_: T) -> &'static str {
    if TypeId::of::<T>() == TypeId::of::<Fraction>() {
        "fraction_kata::fraction::Fraction"
    } else {
        "not a fraction"
    }
}

#[test]
fn should_get_a_fraction_when_adding_an_other_fraction() {
    let fraction = Fraction { numerator: 2, denominator: 3 };
    let result = fraction.add_fraction(Fraction { numerator: 3, denominator: 5 });
    assert_eq!(type_of(result), "fraction_kata::fraction::Fraction")
}

#[test]
fn should_add_a_fraction() {
    let fraction = Fraction { numerator: 2, denominator: 3 };
    let result = fraction.add_fraction(Fraction { numerator: 3, denominator: 5 });
    assert_eq!(result, Fraction { numerator: 19, denominator: 15 })
}

#[test]
fn should_reduce_a_fraction_when_added() {
    let fraction = Fraction { numerator: 1, denominator: 4 };
    let result = fraction.add_fraction(Fraction { numerator: 1, denominator: 4 });
    assert_eq!(result, Fraction { numerator: 1, denominator: 2 })
}

#[test]
fn should_subtract_a_fraction() {
    let fraction = Fraction { numerator: 2, denominator: 4 };
    let result = fraction.subtract(Fraction { numerator: 2, denominator: 4 });
    assert_eq!(result, Ok(Fraction { numerator: 0, denominator: 1 }));
}

#[test]
fn should_multiply_a_fraction() {
    let fraction = Fraction { numerator: 2, denominator: 4 };
    let result = fraction.multiply(Fraction { numerator: 3, denominator: 4 });
    assert_eq!(result, Fraction { numerator: 3, denominator: 8 });
}

#[test]
fn should_divide_a_fraction() {
    let fraction = Fraction { numerator: 8, denominator: 4 };
    let result = fraction.divide(Fraction { numerator: 3, denominator: 1 });
    assert_eq!(result, Ok(Fraction { numerator: 2, denominator: 3 }));
}

#[test]
fn should_get_a_valid_fraction() {
    let input = "1;2";
    let result = Fraction::parse(input);
    assert_eq!(result.ok(), Some(Fraction::new(1, 2)));
}

#[test]
fn should_get_an_error_when_denominator_is_zero() {
    let input = "1;0";
    let result = Fraction::parse(input);
    assert_eq!(result.err().unwrap().message(), "Invalid denominator");
}
