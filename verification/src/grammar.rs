//! What a line of characters means: its tokens, and the values of its
//! expressions. Everything here is a mathematical function of the characters
//! that are still unread.

use vstd::prelude::*;
use crate::charclass::{digit_value, is_decimal_digit, is_numeric_char, is_whitespace_char};
use crate::token::{EvalError, Token};

verus! {

/// `s` without the whitespace it begins with.
pub open spec fn skip_spaces(s: Seq<char>) -> Seq<char>
    decreases s.len(),
{
    if s.len() > 0 && is_whitespace_char(s[0]) {
        skip_spaces(s.drop_first())
    } else {
        s
    }
}

/// How many numeric characters `s` begins with.
pub open spec fn leading_numeric(s: Seq<char>) -> nat
    decreases s.len(),
{
    if s.len() > 0 && is_numeric_char(s[0]) {
        1 + leading_numeric(s.drop_first())
    } else {
        0
    }
}

/// The first character of `s` that is no decimal digit, if there is one.
pub open spec fn first_non_decimal(s: Seq<char>) -> Option<char>
    decreases s.len(),
{
    if s.len() == 0 {
        None
    } else {
        match first_non_decimal(s.drop_last()) {
            Some(c) => Some(c),
            None => if is_decimal_digit(s.last()) {
                None
            } else {
                Some(s.last())
            },
        }
    }
}

/// The number that the digits of `s` write in base ten.
pub open spec fn decimal_value(s: Seq<char>) -> nat
    decreases s.len(),
{
    if s.len() == 0 {
        0
    } else {
        decimal_value(s.drop_last()) * 10 + digit_value(s.last())
    }
}

/// The value of a literal written with the characters `digits`.
pub open spec fn literal(digits: Seq<char>) -> Result<i32, EvalError> {
    match first_non_decimal(digits) {
        Some(c) => Err(EvalError::InvalidDigit(c)),
        None => if decimal_value(digits) > i32::MAX {
            Err(EvalError::LiteralOverflow)
        } else {
            Ok(decimal_value(digits) as i32)
        },
    }
}

/// The token that `c` makes by itself, where it is known whether `c` is
/// numeric: an operator sign is its token, a numeric character begins a
/// literal and makes none, and any other character is `Illegal`.
pub open spec fn token_of_char(c: char, numeric: bool) -> Option<Token> {
    if c == '+' {
        Some(Token::Plus)
    } else if c == '-' {
        Some(Token::Minus)
    } else if c == '*' {
        Some(Token::Multiply)
    } else if c == '/' {
        Some(Token::Divide)
    } else if numeric {
        None
    } else {
        Some(Token::Illegal)
    }
}

/// The token that stands at the head of a line, and what follows it.
pub struct Lexed {
    pub token: Result<Token, EvalError>,
    pub rest: Seq<char>,
}

/// The first token of `s`, and the characters behind it.
///
/// Whitespace in front of the token is passed over. A literal is the longest
/// run of numeric characters; any character that begins no token is a token
/// of its own, `Illegal`.
pub open spec fn lex(s: Seq<char>) -> Lexed {
    let t = skip_spaces(s);
    if t.len() == 0 {
        Lexed { token: Ok(Token::Eof), rest: t }
    } else {
        let c = t[0];
        let rest = t.drop_first();
        match token_of_char(c, is_numeric_char(c)) {
            Some(token) => Lexed { token: Ok(token), rest },
            None => {
                let n = leading_numeric(rest) as int;
                Lexed {
                    token: match literal(seq![c] + rest.take(n)) {
                        Ok(v) => Ok(Token::Integer(v)),
                        Err(e) => Err(e),
                    },
                    rest: rest.skip(n),
                }
            },
        }
    }
}

/// The error for a token that stands where an operand is expected.
pub open spec fn operand_error(t: Token) -> EvalError {
    match t {
        Token::Multiply | Token::Divide => EvalError::UnsupportedOperator(t),
        _ => EvalError::UnexpectedToken(t),
    }
}

/// Whether `v` is a value of `i32`.
pub open spec fn fits_i32(v: int) -> bool {
    i32::MIN <= v <= i32::MAX
}

/// What evaluating one expression gives, and the characters behind it.
pub struct Evaluated {
    pub value: Result<i32, EvalError>,
    pub rest: Seq<char>,
}

/// An expression that failed: nothing of the line is left behind it.
pub open spec fn failed(e: EvalError) -> Evaluated {
    Evaluated { value: Err(e), rest: Seq::empty() }
}

/// The operand at the head of `s`.
pub open spec fn operand(s: Seq<char>) -> Evaluated {
    match lex(s).token {
        Ok(Token::Integer(v)) => Evaluated { value: Ok(v), rest: lex(s).rest },
        Ok(t) => failed(operand_error(t)),
        Err(e) => failed(e),
    }
}

/// The token that an evaluator sees at the head of `s`: the one that `lex`
/// finds there, or `Illegal` in place of a literal that cannot be read.
pub open spec fn lookahead(s: Seq<char>) -> Token {
    match lex(s).token {
        Ok(t) => t,
        Err(_) => Token::Illegal,
    }
}

/// `acc` with `operand` added to it, or taken from it where `minus` is set;
/// an error where the result is no value of `i32`.
pub open spec fn combined(acc: i32, minus: bool, operand: i32) -> Result<i32, EvalError> {
    let v = if minus {
        acc - operand
    } else {
        acc + operand
    };
    if fits_i32(v) {
        Ok(v as i32)
    } else {
        Err(EvalError::ArithmeticOverflow)
    }
}

/// The rest of an expression whose operands so far come to `acc`.
///
/// While a `+` or `-` follows, the operand behind it is added to or taken
/// from `acc`, in the order in which they stand. Anything else ends the
/// expression and is left in place, a literal that cannot be read too: it
/// fails the expression that needs it as an operand.
pub open spec fn expr_tail(acc: i32, s: Seq<char>) -> Evaluated
    decreases s.len(),
    via expr_tail_decreases
{
    match lex(s).token {
        Ok(Token::Plus) | Ok(Token::Minus) => {
            let minus = lex(s).token == Ok::<Token, EvalError>(Token::Minus);
            let next = operand(lex(s).rest);
            match next.value {
                Ok(v) => match combined(acc, minus, v) {
                    Ok(sum) => expr_tail(sum, next.rest),
                    Err(e) => failed(e),
                },
                Err(e) => failed(e),
            }
        },
        _ => Evaluated { value: Ok(acc), rest: s },
    }
}

#[via_fn]
proof fn expr_tail_decreases(acc: i32, s: Seq<char>) {
    lemma_lex_shortens(s);
    lemma_lex_shortens(lex(s).rest);
}

/// The expression at the head of `s`: its value and the characters behind it.
pub open spec fn eval_expr(s: Seq<char>) -> Evaluated {
    let first = operand(s);
    match first.value {
        Ok(v) => expr_tail(v, first.rest),
        Err(e) => failed(e),
    }
}

/// What evaluating a whole line gives: the values of its expressions, in
/// order, up to the end of the line or to the first that fails.
pub struct LineValues {
    pub values: Seq<i32>,
    pub error: Option<EvalError>,
}

/// The values of the expressions of `s`.
pub open spec fn eval_line(s: Seq<char>) -> LineValues
    decreases s.len(),
    via eval_line_decreases
{
    if lex(s).token == Ok::<Token, EvalError>(Token::Eof) {
        LineValues { values: Seq::empty(), error: None }
    } else {
        let first = eval_expr(s);
        match first.value {
            Ok(v) => {
                let others = eval_line(first.rest);
                LineValues { values: seq![v] + others.values, error: others.error }
            },
            Err(e) => LineValues { values: Seq::empty(), error: Some(e) },
        }
    }
}

#[via_fn]
proof fn eval_line_decreases(s: Seq<char>) {
    lemma_expr_shortens(s);
}

/// Skipping whitespace leaves a suffix of the line that begins with none.
pub proof fn lemma_skip_spaces(s: Seq<char>)
    ensures
        skip_spaces(s).len() <= s.len(),
        skip_spaces(s) == s.skip(s.len() - skip_spaces(s).len()),
        skip_spaces(s).len() > 0 ==> !is_whitespace_char(skip_spaces(s)[0]),
    decreases s.len(),
{
    if s.len() > 0 && is_whitespace_char(s[0]) {
        let t = s.drop_first();
        lemma_skip_spaces(t);
        assert(t.skip(t.len() - skip_spaces(t).len()) =~= s.skip(s.len() - skip_spaces(t).len()));
    } else {
        assert(s.skip(0) =~= s);
    }
}

/// A line begins with no more numeric characters than it has characters.
pub proof fn lemma_leading_numeric(s: Seq<char>)
    ensures
        leading_numeric(s) <= s.len(),
    decreases s.len(),
{
    if s.len() > 0 && is_numeric_char(s[0]) {
        lemma_leading_numeric(s.drop_first());
    }
}

/// A token takes characters away from the line, and every token but `Eof`
/// takes at least one.
pub proof fn lemma_lex_shortens(s: Seq<char>)
    ensures
        lex(s).rest.len() <= s.len(),
        lex(s).token != Ok::<Token, EvalError>(Token::Eof) ==> lex(s).rest.len() < s.len(),
        lex(s).token == Ok::<Token, EvalError>(Token::Eof) ==> lex(s).rest.len() == 0,
{
    lemma_skip_spaces(s);
    let t = skip_spaces(s);
    if t.len() > 0 {
        lemma_leading_numeric(t.drop_first());
    }
}

/// An expression that has a value took at least one character, and one that
/// has none leaves nothing of the line.
pub proof fn lemma_expr_shortens(s: Seq<char>)
    ensures
        eval_expr(s).value is Ok ==> eval_expr(s).rest.len() < s.len(),
        eval_expr(s).value is Err ==> eval_expr(s).rest.len() == 0,
{
    lemma_lex_shortens(s);
    if operand(s).value is Ok {
        lemma_expr_tail_shortens(operand(s).value->Ok_0, operand(s).rest);
    }
}

/// The rest of an expression never grows the line.
pub proof fn lemma_expr_tail_shortens(acc: i32, s: Seq<char>)
    ensures
        expr_tail(acc, s).rest.len() <= s.len(),
        expr_tail(acc, s).value is Err ==> expr_tail(acc, s).rest.len() == 0,
    decreases s.len(),
{
    lemma_lex_shortens(s);
    lemma_lex_shortens(lex(s).rest);
    let next = operand(lex(s).rest);
    let minus = lex(s).token == Ok::<Token, EvalError>(Token::Minus);
    if lex(s).token == Ok::<Token, EvalError>(Token::Plus) || minus {
        if let Ok(v) = next.value {
            if let Ok(sum) = combined(acc, minus, v) {
                lemma_expr_tail_shortens(sum, next.rest);
            }
        }
    }
}

} // verus!
