//! The expression splitter: one operator character with a fraction text on
//! each side, and the evaluation of the split expression.

use crate::error::CalcError;
use crate::fraction::Fraction;
use vstd::prelude::*;
use vstd::string::{StrSliceExecFns, StringExecFns};

verus! {

/// The four arithmetic operations, each selected by one delimiter character.
#[derive(Clone, Copy, Debug, PartialEq, Eq, Structural)]
pub enum Operation {
    Multiply,
    Add,
    Divide,
    Subtract,
}

/// Whether `c` is one of the four operator characters.
pub open spec fn is_op_char(c: char) -> bool {
    c == 'x' || c == '+' || c == '-' || c == '/'
}

/// The operation selected by a delimiter character, when it is one of the
/// four.
pub open spec fn op_for_char(c: char) -> Option<Operation> {
    if c == 'x' {
        Some(Operation::Multiply)
    } else if c == '/' {
        Some(Operation::Divide)
    } else if c == '+' {
        Some(Operation::Add)
    } else if c == '-' {
        Some(Operation::Subtract)
    } else {
        None
    }
}

/// The index of the first operator character in `s`, or -1 when none occurs.
pub open spec fn find_first_op(s: Seq<char>) -> int
    decreases s.len(),
{
    if s.len() == 0 {
        -1
    } else if is_op_char(s[0]) {
        0
    } else if find_first_op(s.drop_first()) == -1 {
        -1
    } else {
        find_first_op(s.drop_first()) + 1
    }
}

/// What `find_first_op` returns: either -1 and no operator character occurs,
/// or the least index holding one.
pub proof fn lemma_find_first_op(s: Seq<char>)
    ensures
        find_first_op(s) == -1 ==> forall|i: int| 0 <= i < s.len() ==> !is_op_char(#[trigger] s[i]),
        find_first_op(s) != -1 ==> {
            let p = find_first_op(s);
            &&& 0 <= p < s.len()
            &&& is_op_char(s[p])
            &&& forall|i: int| 0 <= i < p ==> !is_op_char(#[trigger] s[i])
        },
    decreases s.len(),
{
    if s.len() == 0 || is_op_char(s[0]) {
    } else {
        let t = s.drop_first();
        lemma_find_first_op(t);
        if find_first_op(s) == -1 {
            assert forall|i: int| 0 <= i < s.len() implies !is_op_char(#[trigger] s[i]) by {
                if i >= 1 {
                    assert(!is_op_char(t[i - 1]));
                }
            }
        } else {
            let p = find_first_op(s);
            assert(s[p] == t[p - 1]);
            assert forall|i: int| 0 <= i < p implies !is_op_char(#[trigger] s[i]) by {
                if i >= 1 {
                    assert(!is_op_char(t[i - 1]));
                }
            }
        }
    }
}

/// Where an operator character stands at index `p` with none earlier,
/// `find_first_op` returns exactly `p`.
pub proof fn lemma_find_first_op_at(s: Seq<char>, p: int)
    requires
        0 <= p < s.len(),
        is_op_char(s[p]),
        forall|i: int| 0 <= i < p ==> !is_op_char(#[trigger] s[i]),
    ensures
        find_first_op(s) == p,
    decreases s.len(),
{
    if p > 0 {
        let t = s.drop_first();
        assert(t[p - 1] == s[p]);
        assert forall|i: int| 0 <= i < p - 1 implies !is_op_char(#[trigger] t[i]) by {
            assert(s[i + 1] == t[i]);
        }
        lemma_find_first_op_at(t, p - 1);
    }
}

/// Returns the index of the first operator character in `s`, if any.
fn find_op_char(s: &str) -> (r: Option<usize>)
    ensures
        r is Some <==> find_first_op(s@) >= 0,
        r is Some ==> r.unwrap() == find_first_op(s@),
{
    let n = s.unicode_len();
    let mut i: usize = 0;
    while i < n
        invariant
            0 <= i <= n,
            n == s@.len(),
            forall|j: int| 0 <= j < i ==> !is_op_char(#[trigger] s@[j]),
        decreases n - i,
    {
        let c = s.get_char(i);
        if c == 'x' || c == '+' || c == '-' || c == '/' {
            proof {
                lemma_find_first_op_at(s@, i as int);
            }
            return Some(i);
        }
        i = i + 1;
    }
    proof {
        lemma_find_first_op(s@);
    }
    None
}

impl Operation {
    /// Maps a delimiter character to its operation; any character outside the
    /// four fails with `UnknownOperator`.
    pub fn from_char(c: char) -> (r: Result<Operation, CalcError>)
        ensures
            op_for_char(c) is Some ==> r == Ok::<Operation, CalcError>(op_for_char(c).unwrap()),
            op_for_char(c) is None ==> r == Err::<Operation, CalcError>(
                CalcError::UnknownOperator,
            ),
    {
        match c {
            'x' => Ok(Operation::Multiply),
            '/' => Ok(Operation::Divide),
            '+' => Ok(Operation::Add),
            '-' => Ok(Operation::Subtract),
            _ => Err(CalcError::UnknownOperator),
        }
    }

    /// The capitalized name of the operation.
    pub open spec fn name_spec(self) -> Seq<char> {
        match self {
            Operation::Multiply => "Multiply"@,
            Operation::Add => "Add"@,
            Operation::Divide => "Divide"@,
            Operation::Subtract => "Subtract"@,
        }
    }

    /// Writes the capitalized name of the operation.
    pub fn name(&self) -> (r: &'static str)
        ensures
            r@ == self.name_spec(),
    {
        match self {
            Operation::Multiply => "Multiply",
            Operation::Add => "Add",
            Operation::Divide => "Divide",
            Operation::Subtract => "Subtract",
        }
    }
}

/// A whole parsed expression: two fraction operands and the operation that
/// stood between them, consumed once to compute a result.
#[derive(Clone, Copy, Debug, PartialEq, Eq, Structural)]
pub struct ParsedFractions {
    pub first: Fraction,
    pub second: Fraction,
    pub operation: Operation,
}

impl ParsedFractions {
    /// Both operands denote numbers.
    pub open spec fn wf(self) -> bool {
        self.first.wf() && self.second.wf()
    }

    /// The intermediate products of the selected operation stay within `u32`.
    pub open spec fn fits(self) -> bool {
        match self.operation {
            Operation::Multiply => self.first.mul_fits(self.second),
            Operation::Add => self.first.add_fits(self.second),
            Operation::Divide => self.first.div_fits(self.second),
            Operation::Subtract => self.first.sub_fits(self.second),
        }
    }

    /// What parsing a whole expression yields: the first operator character
    /// splits the text, no second operator character may follow it, the
    /// character names the operation, and each side reads as a fraction.
    pub open spec fn parse_spec(s: Seq<char>) -> Result<ParsedFractions, CalcError> {
        let p = find_first_op(s);
        if p < 0 {
            Err(CalcError::MalformedExpression)
        } else if find_first_op(s.skip(p + 1)) >= 0 {
            Err(CalcError::MalformedExpression)
        } else {
            match op_for_char(s[p]) {
                None => Err(CalcError::UnknownOperator),
                Some(operation) => match Fraction::parse_spec(s.take(p)) {
                    Err(e) => Err(e),
                    Ok(first) => match Fraction::parse_spec(s.skip(p + 1)) {
                        Err(e) => Err(e),
                        Ok(second) => Ok(ParsedFractions { first, second, operation }),
                    },
                },
            }
        }
    }

    /// Splits an expression on its operator character and reads both operand
    /// texts as fractions.
    pub fn parse(s: &str) -> (r: Result<ParsedFractions, CalcError>)
        ensures
            r == Self::parse_spec(s@),
    {
        let n = s.unicode_len();
        let p = match find_op_char(s) {
            None => {
                return Err(CalcError::MalformedExpression);
            },
            Some(p) => p,
        };
        proof {
            lemma_find_first_op(s@);
        }
        let rest = s.substring_char(p + 1, n);
        proof {
            assert(rest@ =~= s@.skip(p + 1));
        }
        if find_op_char(rest).is_some() {
            return Err(CalcError::MalformedExpression);
        }
        let operation = match Operation::from_char(s.get_char(p)) {
            Err(e) => {
                return Err(e);
            },
            Ok(op) => op,
        };
        let firsttext = s.substring_char(0, p);
        proof {
            assert(firsttext@ =~= s@.take(p as int));
        }
        let first = match Fraction::parse(firsttext) {
            Err(e) => {
                return Err(e);
            },
            Ok(f) => f,
        };
        let second = match Fraction::parse(rest) {
            Err(e) => {
                return Err(e);
            },
            Ok(f) => f,
        };
        Ok(ParsedFractions { first, second, operation })
    }

    /// Applies the operation to the two operands. Division by a zero
    /// numerator and subtraction below zero fail; the other operations, and
    /// division and subtraction away from those inputs, always succeed.
    pub fn evaluate(&self) -> (r: Result<Fraction, CalcError>)
        requires
            self.wf(),
            self.fits(),
        ensures
            self.operation == Operation::Multiply ==> r == Ok::<Fraction, CalcError>(
                self.first.spec_mul(self.second),
            ),
            self.operation == Operation::Add ==> r == Ok::<Fraction, CalcError>(
                self.first.spec_add(self.second),
            ),
            self.operation == Operation::Divide ==> {
                &&& self.second.numerator == 0 ==> r == Err::<Fraction, CalcError>(
                    CalcError::DivisionByZero,
                )
                &&& self.second.numerator != 0 ==> r == Ok::<Fraction, CalcError>(
                    self.first.spec_div(self.second),
                )
            },
            self.operation == Operation::Subtract ==> {
                &&& self.second.numerator * self.first.denominator > self.first.numerator
                    * self.second.denominator ==> r == Err::<Fraction, CalcError>(
                    CalcError::ArithmeticUnderflow,
                )
                &&& self.second.numerator * self.first.denominator <= self.first.numerator
                    * self.second.denominator ==> r == Ok::<Fraction, CalcError>(
                    self.first.spec_sub(self.second),
                )
            },
            r is Ok ==> r.unwrap().wf(),
    {
        match self.operation {
            Operation::Multiply => Ok(self.first.multiply(self.second)),
            Operation::Add => Ok(self.first.add_fraction(self.second)),
            Operation::Divide => self.first.divide(self.second),
            Operation::Subtract => self.first.subtract(self.second),
        }
    }

    /// The text of the expression as echoed back to the user: both operands
    /// in canonical form and the name of the operation.
    pub open spec fn text_spec(self) -> Seq<char> {
        "first:"@ + self.first.text_spec() + ";second:"@ + self.second.text_spec()
            + ";operation:"@ + self.operation.name_spec()
    }

    /// Renders the parsed expression in its echo form.
    pub fn to_text(&self) -> (s: String)
        ensures
            s@ == self.text_spec(),
    {
        let mut s = String::from_str("first:");
        let first = self.first.to_text();
        s.append(first.as_str());
        s.append(";second:");
        let second = self.second.to_text();
        s.append(second.as_str());
        s.append(";operation:");
        s.append(self.operation.name());
        proof {
            assert(s@ =~= self.text_spec());
        }
        s
    }
}

} // verus!
