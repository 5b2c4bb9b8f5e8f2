//! The fraction engine: a non-negative rational number in lowest terms, with
//! exact arithmetic, canonical text output, and checked parsing of the
//! `"numerator;denominator"` form.

use crate::arith::{
    gcd, lemma_gcd_divides, lemma_reduced_bounds, lemma_reduced_coprime, lemma_reduced_identity,
    lemma_reduced_same_ratio, reduced_den, reduced_num,
};
use crate::error::CalcError;
use crate::text::{
    all_digits, dec_digits, digits_value, find_char, find_first, is_digit, lemma_dec_digits,
    lemma_find_first, lemma_find_first_at, parse_u32, u32_to_decimal,
};
use vstd::prelude::*;
use vstd::string::{StrSliceExecFns, StringExecFns};

verus! {

/// A non-negative rational number, held as a numerator/denominator pair of
/// fixed-width unsigned integers. Construction does not validate; every
/// arithmetic operation demands a positive denominator and returns its result
/// reduced to lowest terms.
#[derive(Clone, Copy, Debug, PartialEq, Eq, Structural)]
pub struct Fraction {
    pub numerator: u32,
    pub denominator: u32,
}

impl Fraction {
    /// A fraction denotes a number only when its denominator is positive.
    pub open spec fn wf(self) -> bool {
        self.denominator > 0
    }

    /// The pair `(n, d)` divided by its gcd, as a fraction.
    pub open spec fn reduced(n: nat, d: nat) -> Fraction {
        Fraction { numerator: reduced_num(n, d) as u32, denominator: reduced_den(n, d) as u32 }
    }

    /// The sum, as the reduced form of the cross-multiplied pair.
    pub open spec fn spec_add(self, other: Fraction) -> Fraction {
        Self::reduced(
            (other.numerator * self.denominator + self.numerator * other.denominator) as nat,
            (other.denominator * self.denominator) as nat,
        )
    }

    /// The difference, defined when `other` is not larger than `self`.
    pub open spec fn spec_sub(self, other: Fraction) -> Fraction {
        Self::reduced(
            (self.numerator * other.denominator - other.numerator * self.denominator) as nat,
            (other.denominator * self.denominator) as nat,
        )
    }

    /// The product, as the reduced form of the multiplied pair.
    pub open spec fn spec_mul(self, other: Fraction) -> Fraction {
        Self::reduced(
            (other.numerator * self.numerator) as nat,
            (other.denominator * self.denominator) as nat,
        )
    }

    /// The quotient, defined when `other` has a non-zero numerator.
    pub open spec fn spec_div(self, other: Fraction) -> Fraction {
        Self::reduced(
            (self.numerator * other.denominator) as nat,
            (self.denominator * other.numerator) as nat,
        )
    }

    /// The unreduced sum of `self` and `other` stays within `u32`.
    pub open spec fn add_fits(self, other: Fraction) -> bool {
        &&& other.numerator * self.denominator + self.numerator * other.denominator <= u32::MAX
        &&& other.denominator * self.denominator <= u32::MAX
    }

    /// Both cross-products and the common denominator of a subtraction stay
    /// within `u32`.
    pub open spec fn sub_fits(self, other: Fraction) -> bool {
        &&& self.numerator * other.denominator <= u32::MAX
        &&& other.numerator * self.denominator <= u32::MAX
        &&& other.denominator * self.denominator <= u32::MAX
    }

    /// The unreduced product of `self` and `other` stays within `u32`.
    pub open spec fn mul_fits(self, other: Fraction) -> bool {
        &&& other.numerator * self.numerator <= u32::MAX
        &&& other.denominator * self.denominator <= u32::MAX
    }

    /// The unreduced quotient of `self` by `other` stays within `u32`.
    pub open spec fn div_fits(self, other: Fraction) -> bool {
        &&& self.numerator * other.denominator <= u32::MAX
        &&& self.denominator * other.numerator <= u32::MAX
    }

    /// Stores the pair as given; the caller answers for the denominator.
    pub fn new(numerator: u32, denominator: u32) -> (r: Fraction)
        ensures
            r.numerator == numerator,
            r.denominator == denominator,
    {
        Fraction { numerator, denominator }
    }

    /// The greatest common divisor, by the classical Euclidean recursion.
    pub fn pgcd(a: u32, b: u32) -> (r: u32)
        ensures
            r == gcd(a as nat, b as nat),
        decreases b,
    {
        if b == 0 {
            return a;
        }
        Self::pgcd(b, a % b)
    }

    /// Divides the pair by its gcd. The result is in lowest terms, keeps the
    /// ratio of the pair, and is the pair itself when that is already in
    /// lowest terms.
    pub fn simplify(numerator: u32, denominator: u32) -> (r: Fraction)
        requires
            denominator > 0,
        ensures
            r == Self::reduced(numerator as nat, denominator as nat),
            r.numerator == reduced_num(numerator as nat, denominator as nat),
            r.denominator == reduced_den(numerator as nat, denominator as nat),
            r.wf(),
            gcd(r.numerator as nat, r.denominator as nat) == 1,
            r.numerator * denominator == numerator * r.denominator,
            gcd(numerator as nat, denominator as nat) == 1 ==> r == (Fraction {
                numerator,
                denominator,
            }),
    {
        proof {
            lemma_gcd_divides(numerator as nat, denominator as nat);
            lemma_reduced_bounds(numerator as nat, denominator as nat);
            lemma_reduced_coprime(numerator as nat, denominator as nat);
            lemma_reduced_same_ratio(numerator as nat, denominator as nat);
            if gcd(numerator as nat, denominator as nat) == 1 {
                lemma_reduced_identity(numerator as nat, denominator as nat);
            }
        }
        let g = Self::pgcd(numerator, denominator);
        Fraction { numerator: numerator / g, denominator: denominator / g }
    }

    /// The sum of two fractions, reduced to lowest terms.
    pub fn add_fraction(&self, fraction: Fraction) -> (r: Fraction)
        requires
            self.wf(),
            fraction.wf(),
            self.add_fits(fraction),
        ensures
            r == self.spec_add(fraction),
            r.wf(),
            gcd(r.numerator as nat, r.denominator as nat) == 1,
            r.numerator * (fraction.denominator * self.denominator) == (fraction.numerator
                * self.denominator + self.numerator * fraction.denominator) * r.denominator,
    {
        proof {
            assert(fraction.denominator * self.denominator > 0) by (nonlinear_arith)
                requires
                    fraction.denominator > 0,
                    self.denominator > 0,
            ;
        }
        let denominator = fraction.denominator * self.denominator;
        let numerator = fraction.numerator * self.denominator + self.numerator
            * fraction.denominator;
        Self::simplify(numerator, denominator)
    }

    /// The difference `self - fraction`, reduced to lowest terms. Negative
    /// results are not representable: when `fraction` is larger than `self`
    /// the subtraction fails with `ArithmeticUnderflow`.
    pub fn subtract(&self, fraction: Fraction) -> (r: Result<Fraction, CalcError>)
        requires
            self.wf(),
            fraction.wf(),
            self.sub_fits(fraction),
        ensures
            fraction.numerator * self.denominator > self.numerator * fraction.denominator ==> r
                == Err::<Fraction, CalcError>(CalcError::ArithmeticUnderflow),
            fraction.numerator * self.denominator <= self.numerator * fraction.denominator ==> {
                &&& r is Ok
                &&& r.unwrap() == self.spec_sub(fraction)
                &&& r.unwrap().wf()
                &&& gcd(r.unwrap().numerator as nat, r.unwrap().denominator as nat) == 1
                &&& r.unwrap().numerator * (fraction.denominator * self.denominator) == (
                self.numerator * fraction.denominator - fraction.numerator * self.denominator)
                    * r.unwrap().denominator
            },
    {
        proof {
            assert(fraction.denominator * self.denominator > 0) by (nonlinear_arith)
                requires
                    fraction.denominator > 0,
                    self.denominator > 0,
            ;
        }
        let denominator = fraction.denominator * self.denominator;
        let minuend = self.numerator * fraction.denominator;
        let subtrahend = fraction.numerator * self.denominator;
        if subtrahend > minuend {
            return Err(CalcError::ArithmeticUnderflow);
        }
        Ok(Self::simplify(minuend - subtrahend, denominator))
    }

    /// The product of two fractions, reduced to lowest terms.
    pub fn multiply(&self, fraction: Fraction) -> (r: Fraction)
        requires
            self.wf(),
            fraction.wf(),
            self.mul_fits(fraction),
        ensures
            r == self.spec_mul(fraction),
            r.wf(),
            gcd(r.numerator as nat, r.denominator as nat) == 1,
            r.numerator * (fraction.denominator * self.denominator) == (fraction.numerator
                * self.numerator) * r.denominator,
    {
        proof {
            assert(fraction.denominator * self.denominator > 0) by (nonlinear_arith)
                requires
                    fraction.denominator > 0,
                    self.denominator > 0,
            ;
        }
        Self::simplify(fraction.numerator * self.numerator, fraction.denominator * self.denominator)
    }

    /// The quotient `self / fraction`, reduced to lowest terms. A divisor
    /// with numerator zero fails with `DivisionByZero`, whatever `self` is.
    pub fn divide(&self, fraction: Fraction) -> (r: Result<Fraction, CalcError>)
        requires
            self.wf(),
            fraction.wf(),
            self.div_fits(fraction),
        ensures
            fraction.numerator == 0 ==> r == Err::<Fraction, CalcError>(CalcError::DivisionByZero),
            fraction.numerator != 0 ==> {
                &&& r is Ok
                &&& r.unwrap() == self.spec_div(fraction)
                &&& r.unwrap().wf()
                &&& gcd(r.unwrap().numerator as nat, r.unwrap().denominator as nat) == 1
                &&& r.unwrap().numerator * (self.denominator * fraction.numerator) == (
                self.numerator * fraction.denominator) * r.unwrap().denominator
            },
    {
        if fraction.numerator == 0 {
            return Err(CalcError::DivisionByZero);
        }
        proof {
            assert(self.denominator * fraction.numerator > 0) by (nonlinear_arith)
                requires
                    self.denominator > 0,
                    fraction.numerator > 0,
            ;
        }
        Ok(Self::simplify(self.numerator * fraction.denominator, self.denominator * fraction.numerator))
    }

    /// The canonical text of the fraction: numerator, `;`, denominator.
    pub open spec fn text_spec(self) -> Seq<char> {
        dec_digits(self.numerator as nat) + seq![';'] + dec_digits(self.denominator as nat)
    }

    /// Renders the fraction in its canonical text form, the same form that
    /// `parse` reads.
    pub fn to_text(&self) -> (s: String)
        ensures
            s@ == self.text_spec(),
    {
        let mut s = u32_to_decimal(self.numerator);
        s.append(";");
        let den = u32_to_decimal(self.denominator);
        s.append(den.as_str());
        proof {
            reveal_strlit(";");
            assert(";"@ =~= seq![';']);
            assert(s@ =~= self.text_spec());
        }
        s
    }

    /// What parsing a fraction text yields: the text must hold exactly one
    /// `;`, each side must be a decimal numeral that fits in `u32`, and the
    /// denominator must not be zero.
    pub open spec fn parse_spec(s: Seq<char>) -> Result<Fraction, CalcError> {
        let p = find_first(s, ';');
        if p < 0 {
            Err(CalcError::MalformedExpression)
        } else if find_first(s.skip(p + 1), ';') >= 0 {
            Err(CalcError::MalformedExpression)
        } else {
            let numtext = s.take(p);
            let dentext = s.skip(p + 1);
            if !(numtext.len() > 0 && all_digits(numtext) && digits_value(numtext) <= u32::MAX) {
                Err(CalcError::InvalidNumerator)
            } else if !(dentext.len() > 0 && all_digits(dentext) && digits_value(dentext)
                <= u32::MAX) {
                Err(CalcError::InvalidDenominator)
            } else if digits_value(dentext) == 0 {
                Err(CalcError::InvalidDenominator)
            } else {
                Ok(
                    Fraction {
                        numerator: digits_value(numtext) as u32,
                        denominator: digits_value(dentext) as u32,
                    },
                )
            }
        }
    }

    /// The sole checked construction entry point: reads the text form and
    /// validates the denominator.
    pub fn parse(s: &str) -> (r: Result<Fraction, CalcError>)
        ensures
            r == Self::parse_spec(s@),
    {
        let n = s.unicode_len();
        let p = match find_char(s, ';') {
            None => {
                return Err(CalcError::MalformedExpression);
            },
            Some(p) => p,
        };
        proof {
            lemma_find_first(s@, ';');
        }
        let rest = s.substring_char(p + 1, n);
        proof {
            assert(rest@ =~= s@.skip(p + 1));
        }
        if find_char(rest, ';').is_some() {
            return Err(CalcError::MalformedExpression);
        }
        let numtext = s.substring_char(0, p);
        proof {
            assert(numtext@ =~= s@.take(p as int));
        }
        let numerator = match parse_u32(numtext) {
            None => {
                return Err(CalcError::InvalidNumerator);
            },
            Some(v) => v,
        };
        let denominator = match parse_u32(rest) {
            None => {
                return Err(CalcError::InvalidDenominator);
            },
            Some(v) => v,
        };
        if denominator == 0 {
            return Err(CalcError::InvalidDenominator);
        }
        Ok(Fraction { numerator, denominator })
    }

    /// Law: formatting any fraction with a positive denominator and parsing
    /// the text back yields that fraction again.
    pub proof fn lemma_round_trip(f: Fraction)
        requires
            f.wf(),
        ensures
            Self::parse_spec(f.text_spec()) == Ok::<Fraction, CalcError>(f),
    {
        let a = dec_digits(f.numerator as nat);
        let b = dec_digits(f.denominator as nat);
        let s = f.text_spec();
        lemma_dec_digits(f.numerator as nat);
        lemma_dec_digits(f.denominator as nat);
        let p = a.len() as int;
        assert(s[p] == ';');
        assert forall|i: int| 0 <= i < p implies s[i] != ';' by {
            assert(s[i] == a[i]);
            assert(is_digit(a[i]));
        }
        lemma_find_first_at(s, ';', p);
        assert(s.take(p) =~= a);
        assert(s.skip(p + 1) =~= b);
        assert forall|i: int| 0 <= i < b.len() implies b[i] != ';' by {
            assert(is_digit(b[i]));
        }
        lemma_find_first(b, ';');
    }
}

} // verus!
