//! The interpreter: a cursor over one line of characters, a lexer on top of
//! it, and an evaluator that parses and computes in a single pass.

use vstd::prelude::*;
use crate::grammar::{
    eval_expr, eval_line, expr_tail, leading_numeric, lemma_expr_shortens, lemma_leading_numeric,
    lemma_lex_shortens, lex, literal, lookahead, operand_error, skip_spaces,
};
use crate::steps::{combine, parse_decimal, reject_operand, single_char_token};
use crate::token::{EvalError, Token};

verus! {

/// What an interpreter stands for: a line, how far it has been read, and the
/// token that the evaluator looks at.
pub struct InterpreterView {
    pub line: Seq<char>,
    pub consumed: nat,
    pub current_token: Token,
}

impl InterpreterView {
    /// The characters that are still unread.
    pub open spec fn remaining(self) -> Seq<char> {
        self.line.skip(self.consumed as int)
    }

    /// Whether the current token is what the evaluator sees at the head of
    /// the unread characters.
    pub open spec fn primed(self) -> bool {
        self.current_token == lookahead(self.remaining())
    }

    /// Whether `eat` succeeds: the current token is the expected one, and
    /// the token that is taken off the line can be read.
    pub open spec fn eat_result(self, expected: Token) -> Result<(), EvalError> {
        if self.current_token != expected {
            Err(EvalError::UnexpectedToken(self.current_token))
        } else {
            match lex(self.remaining()).token {
                Err(e) => Err(e),
                Ok(_) => Ok(()),
            }
        }
    }

    /// What `term` gives: the value of the current token where it is a
    /// literal that can be eaten; else the error of the literal that stands
    /// next and cannot be read, or the error for the current token.
    pub open spec fn term_result(self) -> Result<i32, EvalError> {
        match self.current_token {
            Token::Integer(v) => match self.eat_result(self.current_token) {
                Ok(_) => Ok(v),
                Err(e) => Err(e),
            },
            t => match lex(self.remaining()).token {
                Err(e) => Err(e),
                Ok(_) => Err(operand_error(t)),
            },
        }
    }
}

/// The values of the expressions of one line, in order, and the error that
/// ended the evaluation, if one did.
#[derive(Debug, PartialEq, Eq)]
pub struct LineResult {
    pub values: Vec<i32>,
    pub error: Option<EvalError>,
}

/// An evaluator for one line of input.
///
/// It reads the line from left to right and never goes back. Its current
/// token is `Illegal` until `eat` or `expr` sets it; from then on it is the
/// token that stands next on the line, which is taken off the line only when
/// it is eaten.
pub struct Interpreter {
    input: Vec<char>,
    pos: usize,
    /// The next token and the position behind it, once it has been looked at.
    peeked: Option<(Token, usize)>,
    current_token: Token,
}

impl View for Interpreter {
    type V = InterpreterView;

    closed spec fn view(&self) -> InterpreterView {
        InterpreterView {
            line: self.input@,
            consumed: self.pos as nat,
            current_token: self.current_token,
        }
    }
}

impl Interpreter {
    /// The cursor lies within the line, and a token that was looked at ahead
    /// is the one that the unread characters begin with.
    pub closed spec fn well_formed(&self) -> bool {
        &&& self.pos <= self.input.len()
        &&& match self.peeked {
            Some((t, end)) => {
                &&& self.pos <= end <= self.input.len()
                &&& lex(self.input@.skip(self.pos as int)).token == Ok::<Token, EvalError>(t)
                &&& lex(self.input@.skip(self.pos as int)).rest == self.input@.skip(end as int)
            },
            None => true,
        }
    }

    /// An interpreter at the start of `input`, with `Illegal` as its current
    /// token.
    pub fn new(input: &str) -> (r: Interpreter)
        ensures
            r.well_formed(),
            r@.line == input@,
            r@.consumed == 0,
            r@.current_token == Token::Illegal,
    {
        let mut chars: Vec<char> = Vec::new();
        for c in it: input.chars()
            invariant
                chars@ == it.seq().take(it.index()),
        {
            chars.push(c);
        }
        Interpreter { input: chars, pos: 0, peeked: None, current_token: Token::Illegal }
    }

    /// The token that the evaluator looks at.
    pub fn current_token(&self) -> (t: Token)
        ensures
            t == self@.current_token,
    {
        self.current_token
    }

    /// Takes the next character off the line, if there is one.
    pub fn advance(&mut self) -> (c: Option<char>)
        requires
            old(self).well_formed(),
        ensures
            final(self).well_formed(),
            final(self)@.line == old(self)@.line,
            final(self)@.current_token == old(self)@.current_token,
            old(self)@.remaining().len() == 0 ==> c is None && final(self)@ == old(self)@,
            old(self)@.remaining().len() > 0 ==> c == Some(old(self)@.remaining()[0])
                && final(self)@.consumed == old(self)@.consumed + 1,
    {
        if self.pos < self.input.len() {
            let c = self.input[self.pos];
            self.peeked = None;
            self.pos = self.pos + 1;
            Some(c)
        } else {
            None
        }
    }

    /// The next character of the line, which stays where it is.
    pub fn peek_char(&self) -> (c: Option<char>)
        requires
            self.well_formed(),
        ensures
            self@.remaining().len() == 0 ==> c is None,
            self@.remaining().len() > 0 ==> c == Some(self@.remaining()[0]),
    {
        if self.pos < self.input.len() {
            Some(self.input[self.pos])
        } else {
            None
        }
    }

    /// Passes over the whitespace that the unread characters begin with.
    pub fn skip_whitespace(&mut self)
        requires
            old(self).well_formed(),
        ensures
            final(self).well_formed(),
            final(self)@.line == old(self)@.line,
            final(self)@.current_token == old(self)@.current_token,
            final(self)@.remaining() == skip_spaces(old(self)@.remaining()),
    {
        let ghost line = self.input@;
        let ghost start = self@.remaining();
        let ghost current = self.current_token;
        self.peeked = None;
        while self.pos < self.input.len() && self.input[self.pos].is_whitespace()
            invariant
                self.pos <= self.input.len(),
                self.peeked is None,
                self.input@ == line,
                self.current_token == current,
                skip_spaces(line.skip(self.pos as int)) == skip_spaces(start),
            decreases self.input.len() - self.pos,
        {
            proof {
                assert(line.skip(self.pos as int).drop_first() =~= line.skip(self.pos + 1));
            }
            self.pos = self.pos + 1;
        }
    }

    /// Reads the literal whose first character, `first`, was taken off the
    /// line already: takes every numeric character that follows and gives
    /// the value that they write together with `first`.
    ///
    /// A character among them that is no decimal digit, or a value above
    /// `i32::MAX`, is an error; the run is taken off the line all the same.
    pub fn integer(&mut self, first: char) -> (r: Result<i32, EvalError>)
        requires
            old(self).well_formed(),
        ensures
            final(self).well_formed(),
            final(self)@.line == old(self)@.line,
            final(self)@.current_token == old(self)@.current_token,
            final(self)@.consumed == old(self)@.consumed + leading_numeric(
                old(self)@.remaining(),
            ),
            r == literal(
                seq![first] + old(self)@.remaining().take(
                    leading_numeric(old(self)@.remaining()) as int,
                ),
            ),
    {
        let ghost line = self.input@;
        let ghost current = self.current_token;
        let ghost start = self.pos as int;
        self.peeked = None;
        let mut run: Vec<char> = Vec::new();
        run.push(first);
        proof {
            assert(run@ =~= seq![first] + line.subrange(start, start));
        }
        while self.pos < self.input.len() && self.input[self.pos].is_numeric()
            invariant
                0 <= start <= self.pos <= self.input.len(),
                self.peeked is None,
                self.input@ == line,
                self.current_token == current,
                leading_numeric(line.skip(start)) == (self.pos - start) + leading_numeric(
                    line.skip(self.pos as int),
                ),
                run@ == seq![first] + line.subrange(start, self.pos as int),
            decreases self.input.len() - self.pos,
        {
            proof {
                assert(run@.push(line[self.pos as int]) =~= seq![first] + line.subrange(
                    start,
                    self.pos + 1,
                ));
                assert(line.skip(self.pos as int).drop_first() =~= line.skip(self.pos + 1));
            }
            run.push(self.input[self.pos]);
            self.pos = self.pos + 1;
        }
        proof {
            let n = leading_numeric(line.skip(start)) as int;
            assert(line.subrange(start, self.pos as int) =~= line.skip(start).take(n));
        }
        parse_decimal(&run)
    }

    /// Takes the next token off the line.
    ///
    /// The token is the one that `lex` finds at the head of the unread
    /// characters, and exactly its characters, with the whitespace in front
    /// of them, are taken. The current token stays as it is.
    pub fn get_next_token(&mut self) -> (r: Result<Token, EvalError>)
        requires
            old(self).well_formed(),
        ensures
            final(self).well_formed(),
            final(self)@.line == old(self)@.line,
            final(self)@.current_token == old(self)@.current_token,
            r == lex(old(self)@.remaining()).token,
            final(self)@.remaining() == lex(old(self)@.remaining()).rest,
    {
        if let Some((t, end)) = self.peeked {
            self.peeked = None;
            self.pos = end;
            return Ok(t);
        }
        let ghost line = self.input@;
        self.skip_whitespace();
        let ghost at = self.pos as int;
        proof {
            if at < line.len() {
                assert(line.skip(at).drop_first() =~= line.skip(at + 1));
            }
        }
        match self.advance() {
            None => Ok(Token::Eof),
            Some(c) => {
                let numeric = c.is_numeric();
                match single_char_token(c, numeric) {
                    Some(t) => Ok(t),
                    None => {
                        proof {
                            let n = leading_numeric(line.skip(at + 1)) as int;
                            lemma_leading_numeric(line.skip(at + 1));
                            assert(line.skip(at + 1).skip(n) =~= line.skip(at + 1 + n));
                        }
                        match self.integer(c) {
                            Ok(v) => Ok(Token::Integer(v)),
                            Err(e) => Err(e),
                        }
                    },
                }
            },
        }
    }

    /// The next token of the line, which stays where it is: the interpreter
    /// stands for the same line, read as far, before and after.
    pub fn peek_next_token(&mut self) -> (r: Result<Token, EvalError>)
        requires
            old(self).well_formed(),
        ensures
            final(self).well_formed(),
            final(self)@ == old(self)@,
            r == lex(old(self)@.remaining()).token,
    {
        if let Some((t, _)) = self.peeked {
            return Ok(t);
        }
        let start = self.pos;
        let r = self.get_next_token();
        let end = self.pos;
        proof {
            lemma_lex_shortens(self.input@.skip(start as int));
        }
        self.peeked = None;
        self.pos = start;
        if let Ok(t) = r {
            self.peeked = Some((t, end));
        }
        r
    }

    /// Makes the token that stands next the current one, without taking it
    /// off the line; `Illegal` stands in for a literal that cannot be read.
    fn look_ahead(&mut self)
        requires
            old(self).well_formed(),
        ensures
            final(self).well_formed(),
            final(self)@.line == old(self)@.line,
            final(self)@.consumed == old(self)@.consumed,
            final(self)@.primed(),
    {
        self.current_token = match self.peek_next_token() {
            Ok(t) => t,
            Err(_) => Token::Illegal,
        };
    }

    /// Consumes the current token if it is `expected`: takes the next token
    /// off the line and makes what stands behind it the current one.
    ///
    /// On a mismatch nothing changes and the error names the current token.
    pub fn eat(&mut self, expected: Token) -> (r: Result<(), EvalError>)
        requires
            old(self).well_formed(),
        ensures
            final(self).well_formed(),
            r == old(self)@.eat_result(expected),
            old(self)@.current_token != expected ==> final(self)@ == old(self)@,
            old(self)@.current_token == expected ==> final(self)@.line == old(self)@.line
                && final(self)@.remaining() == lex(old(self)@.remaining()).rest,
            r is Ok ==> final(self)@.primed(),
            r is Err ==> final(self)@.current_token == old(self)@.current_token,
    {
        if self.current_token == expected {
            match self.get_next_token() {
                Ok(_) => {},
                Err(e) => {
                    return Err(e);
                },
            }
            self.look_ahead();
            Ok(())
        } else {
            Err(EvalError::UnexpectedToken(self.current_token))
        }
    }

    /// The value of the current token: that of a literal, zero for any other
    /// token.
    pub fn process_token(&self) -> (v: i32)
        ensures
            v == match self@.current_token {
                Token::Integer(n) => n,
                _ => 0i32,
            },
    {
        match self.current_token {
            Token::Integer(num) => num,
            _ => 0,
        }
    }

    /// One operand: the current token has to be a literal, which is eaten and
    /// whose value is returned.
    ///
    /// Any other token is an error, and then nothing changes: a literal that
    /// cannot be read is reported as such, a `*` or `/` as an operator that
    /// no expression has.
    pub fn term(&mut self) -> (r: Result<i32, EvalError>)
        requires
            old(self).well_formed(),
        ensures
            final(self).well_formed(),
            r == old(self)@.term_result(),
            !(old(self)@.current_token is Integer) ==> final(self)@ == old(self)@,
            old(self)@.current_token is Integer ==> final(self)@.line == old(self)@.line
                && final(self)@.remaining() == lex(old(self)@.remaining()).rest,
            r is Ok ==> final(self)@.primed(),
            r is Err ==> final(self)@.current_token == old(self)@.current_token,
    {
        match self.current_token {
            Token::Integer(_) => {
                let value = self.process_token();
                match self.eat(Token::Integer(value)) {
                    Ok(_) => Ok(value),
                    Err(e) => Err(e),
                }
            },
            found => match self.peek_next_token() {
                Err(e) => Err(e),
                Ok(_) => Err(reject_operand(found)),
            },
        }
    }

    /// Gives up the line: moves the cursor behind its last character, where
    /// the only token is `Eof`.
    fn abandon(&mut self)
        requires
            old(self).well_formed(),
        ensures
            final(self).well_formed(),
            final(self)@.line == old(self)@.line,
            final(self)@.remaining() == Seq::<char>::empty(),
            final(self)@.current_token == Token::Eof,
    {
        self.peeked = None;
        self.pos = self.input.len();
        self.current_token = Token::Eof;
        proof {
            assert(self.input@.skip(self.pos as int) =~= Seq::<char>::empty());
        }
    }

    /// Evaluates the expression that the unread characters begin with.
    ///
    /// The operands are added and subtracted in the order in which they
    /// stand. The token that ends the expression is left on the line and
    /// becomes the current token. On an error the rest of the line is given
    /// up, so that the next token is `Eof`.
    pub fn expr(&mut self) -> (r: Result<i32, EvalError>)
        requires
            old(self).well_formed(),
        ensures
            final(self).well_formed(),
            final(self)@.line == old(self)@.line,
            r == eval_expr(old(self)@.remaining()).value,
            final(self)@.remaining() == eval_expr(old(self)@.remaining()).rest,
            r is Ok ==> final(self)@.primed(),
            r is Err ==> final(self)@.current_token == Token::Eof,
    {
        let ghost line = self.input@;
        let ghost start = self@.remaining();
        self.look_ahead();
        let mut result: i32 = match self.term() {
            Ok(v) => v,
            Err(e) => {
                self.abandon();
                return Err(e);
            },
        };
        loop
            invariant
                self.well_formed(),
                self.input@ == line,
                line == old(self)@.line,
                start == old(self)@.remaining(),
                self@.primed(),
                eval_expr(start) == expr_tail(result, self@.remaining()),
            ensures
                self.well_formed(),
                self.input@ == line,
                self@.primed(),
                eval_expr(start).value == Ok::<i32, EvalError>(result),
                eval_expr(start).rest == self@.remaining(),
            decreases self@.remaining().len(),
        {
            let ghost here = self@.remaining();
            proof {
                lemma_lex_shortens(here);
                lemma_lex_shortens(lex(here).rest);
            }
            let minus = match self.current_token {
                Token::Plus => false,
                Token::Minus => true,
                _ => {
                    break ;
                },
            };
            match self.eat(self.current_token) {
                Ok(_) => {},
                Err(e) => {
                    self.abandon();
                    return Err(e);
                },
            }
            let operand: i32 = match self.term() {
                Ok(v) => v,
                Err(e) => {
                    self.abandon();
                    return Err(e);
                },
            };
            match combine(result, minus, operand) {
                Ok(next) => {
                    result = next;
                },
                Err(e) => {
                    self.abandon();
                    return Err(e);
                },
            }
        }
        Ok(result)
    }

    /// Evaluates the expressions of the line one after another, until the
    /// next token is `Eof` or an expression fails. Either way the line is
    /// used up afterwards.
    pub fn evaluate_line(&mut self) -> (r: LineResult)
        requires
            old(self).well_formed(),
        ensures
            final(self).well_formed(),
            final(self)@.line == old(self)@.line,
            r.values@ == eval_line(old(self)@.remaining()).values,
            r.error == eval_line(old(self)@.remaining()).error,
            final(self)@.remaining() == Seq::<char>::empty(),
            final(self)@.current_token == Token::Eof,
    {
        let ghost line = self.input@;
        let ghost start = self@.remaining();
        let mut values: Vec<i32> = Vec::new();
        loop
            invariant
                self.well_formed(),
                self.input@ == line,
                line == old(self)@.line,
                start == old(self)@.remaining(),
                eval_line(start).values == values@ + eval_line(self@.remaining()).values,
                eval_line(start).error == eval_line(self@.remaining()).error,
            decreases self@.remaining().len(),
        {
            let ghost here = self@.remaining();
            proof {
                lemma_expr_shortens(here);
            }
            match self.peek_next_token() {
                Ok(Token::Eof) => {
                    proof {
                        assert(values@ + Seq::<i32>::empty() =~= values@);
                    }
                    self.abandon();
                    return LineResult { values, error: None };
                },
                _ => {},
            }
            match self.expr() {
                Ok(v) => {
                    proof {
                        let after = self@.remaining();
                        assert(values@.push(v) + eval_line(after).values =~= values@ + (seq![v]
                            + eval_line(after).values));
                    }
                    values.push(v);
                },
                Err(e) => {
                    proof {
                        assert(values@ + Seq::<i32>::empty() =~= values@);
                    }
                    return LineResult { values, error: Some(e) };
                },
            }
        }
    }
}

} // verus!
