use vstd::prelude::*;

verus! {

/// The smallest classified unit of input text.
#[derive(Debug, PartialEq, Eq, Copy, Clone, Structural)]
pub enum Token {
    /// A decimal literal and its value.
    Integer(i32),
    Plus,
    Minus,
    Multiply,
    Divide,
    /// A character that begins no token.
    Illegal,
    /// The end of the line.
    Eof,
}

impl Default for Token {
    fn default() -> (t: Token)
        ensures
            t == Token::Illegal,
    {
        Token::Illegal
    }
}

/// Why a line, or an expression in it, could not be evaluated.
#[derive(Debug, PartialEq, Eq, Copy, Clone, Structural)]
pub enum EvalError {
    /// A run of numeric characters holds this character, which is no decimal
    /// digit.
    InvalidDigit(char),
    /// A decimal literal is larger than `i32::MAX`.
    LiteralOverflow,
    /// An operand was expected where a multiplication or division sign stands.
    UnsupportedOperator(Token),
    /// An operand was expected where this token stands.
    UnexpectedToken(Token),
    /// A sum or difference left the range of `i32`.
    ArithmeticOverflow,
}

} // verus!
