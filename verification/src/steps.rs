//! The steps of lexing and evaluating that need nothing but the values at
//! hand.

use vstd::prelude::*;
use crate::charclass::decimal_digit;
use crate::grammar::{
    combined, decimal_value, first_non_decimal, literal, operand_error, token_of_char,
};
use crate::token::{EvalError, Token};

verus! {

/// The token that `c` makes by itself, or `None` where `c` begins a literal.
pub fn single_char_token(c: char, numeric: bool) -> (r: Option<Token>)
    ensures
        r == token_of_char(c, numeric),
{
    if c == '+' {
        Some(Token::Plus)
    } else if c == '-' {
        Some(Token::Minus)
    } else if c == '*' {
        Some(Token::Multiply)
    } else if c == '/' {
        Some(Token::Divide)
    } else if numeric {
        None
    } else {
        Some(Token::Illegal)
    }
}

/// The value of the literal that `digits` write in base ten.
///
/// The first character that is no decimal digit is an error, whatever the
/// others are; a value above `i32::MAX` is one too. No digits at all write
/// zero.
pub fn parse_decimal(digits: &Vec<char>) -> (r: Result<i32, EvalError>)
    ensures
        r == literal(digits@),
{
    let mut value: i64 = 0;
    let mut bad: Option<char> = None;
    let mut overflow = false;
    let mut i: usize = 0;
    while i < digits.len()
        invariant
            i <= digits.len(),
            bad == first_non_decimal(digits@.take(i as int)),
            bad is None && !overflow ==> value == decimal_value(digits@.take(i as int)) && 0
                <= value <= i32::MAX,
            bad is None && overflow ==> decimal_value(digits@.take(i as int)) > i32::MAX,
        decreases digits.len() - i,
    {
        let c = digits[i];
        proof {
            assert(digits@.take(i + 1).drop_last() =~= digits@.take(i as int));
            assert(digits@.take(i + 1).last() == c);
        }
        match decimal_digit(c) {
            Some(d) => {
                if bad.is_none() && !overflow {
                    let next: i64 = value * 10 + d as i64;
                    if next > i32::MAX as i64 {
                        overflow = true;
                    } else {
                        value = next;
                    }
                }
            },
            None => {
                if bad.is_none() {
                    bad = Some(c);
                }
            },
        }
        i = i + 1;
    }
    proof {
        assert(digits@.take(digits.len() as int) =~= digits@);
    }
    match bad {
        Some(c) => Err(EvalError::InvalidDigit(c)),
        None => if overflow {
            Err(EvalError::LiteralOverflow)
        } else {
            Ok(value as i32)
        },
    }
}

/// The error for the token `found`, which stands where an operand is
/// expected: a `*` or `/` is an operator that no expression has, any other
/// token is unexpected.
pub fn reject_operand(found: Token) -> (e: EvalError)
    ensures
        e == operand_error(found),
{
    match found {
        Token::Multiply | Token::Divide => EvalError::UnsupportedOperator(found),
        _ => EvalError::UnexpectedToken(found),
    }
}

/// Adds `operand` to `acc`, or takes it from `acc` where `minus` is set.
///
/// A result outside the range of `i32` is an error.
pub fn combine(acc: i32, minus: bool, operand: i32) -> (r: Result<i32, EvalError>)
    ensures
        r == combined(acc, minus, operand),
{
    let folded = if minus {
        acc.checked_sub(operand)
    } else {
        acc.checked_add(operand)
    };
    match folded {
        Some(v) => Ok(v),
        None => Err(EvalError::ArithmeticOverflow),
    }
}

} // verus!
