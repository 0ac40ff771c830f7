use arith_eval::{EvalError, Interpreter, Token};

fn tokens(line: &str) -> Vec<Result<Token, EvalError>> {
    let mut interpreter = Interpreter::new(line);
    let mut out = Vec::new();
    loop {
        let t = interpreter.get_next_token();
        let done = t == Ok(Token::Eof);
        out.push(t);
        if done {
            return out;
        }
    }
}

#[test]
fn default_token_is_illegal() {
    assert_eq!(Token::default(), Token::Illegal);
}

#[test]
fn new_interpreter_holds_illegal() {
    let interpreter = Interpreter::new("1+2");
    assert_eq!(interpreter.current_token(), Token::Illegal);
    assert_eq!(interpreter.peek_char(), Some('1'));
}

#[test]
fn advance_walks_the_line() {
    let mut interpreter = Interpreter::new("a+");
    assert_eq!(interpreter.peek_char(), Some('a'));
    assert_eq!(interpreter.advance(), Some('a'));
    assert_eq!(interpreter.peek_char(), Some('+'));
    assert_eq!(interpreter.advance(), Some('+'));
    assert_eq!(interpreter.peek_char(), None);
    assert_eq!(interpreter.advance(), None);
    assert_eq!(interpreter.advance(), None);
}

#[test]
fn advance_handles_wide_characters() {
    let mut interpreter = Interpreter::new("\u{8d8a}1");
    assert_eq!(interpreter.advance(), Some('\u{8d8a}'));
    assert_eq!(interpreter.advance(), Some('1'));
    assert_eq!(interpreter.advance(), None);
}

#[test]
fn skip_whitespace_stops_at_first_other_character() {
    let mut interpreter = Interpreter::new(" \t\n\u{a0} 7 ");
    interpreter.skip_whitespace();
    assert_eq!(interpreter.peek_char(), Some('7'));
    interpreter.skip_whitespace();
    assert_eq!(interpreter.peek_char(), Some('7'));
}

#[test]
fn skip_whitespace_on_blank_line_reaches_the_end() {
    let mut interpreter = Interpreter::new("   ");
    interpreter.skip_whitespace();
    assert_eq!(interpreter.peek_char(), None);
}

#[test]
fn integer_takes_the_whole_run() {
    let mut interpreter = Interpreter::new("23+4");
    assert_eq!(interpreter.integer('1'), Ok(123));
    assert_eq!(interpreter.peek_char(), Some('+'));
}

#[test]
fn integer_of_single_digit() {
    let mut interpreter = Interpreter::new(" 5");
    assert_eq!(interpreter.integer('7'), Ok(7));
    assert_eq!(interpreter.peek_char(), Some(' '));
}

#[test]
fn integer_keeps_leading_zeros_out_of_the_value() {
    let mut interpreter = Interpreter::new("007");
    assert_eq!(interpreter.integer('0'), Ok(7));
    assert_eq!(interpreter.peek_char(), None);
}

#[test]
fn integer_at_the_upper_limit() {
    let mut interpreter = Interpreter::new("147483647");
    assert_eq!(interpreter.integer('2'), Ok(2147483647));
}

#[test]
fn integer_above_the_upper_limit_overflows() {
    let mut interpreter = Interpreter::new("147483648 1");
    assert_eq!(interpreter.integer('2'), Err(EvalError::LiteralOverflow));
    assert_eq!(interpreter.peek_char(), Some(' '));
}

#[test]
fn integer_far_above_the_upper_limit_overflows() {
    let mut interpreter = Interpreter::new("9999999999999999999999999999999999");
    assert_eq!(interpreter.integer('9'), Err(EvalError::LiteralOverflow));
    assert_eq!(interpreter.peek_char(), None);
}

#[test]
fn integer_with_a_numeric_character_that_is_no_decimal_digit() {
    let mut interpreter = Interpreter::new("\u{0663}4+");
    assert_eq!(interpreter.integer('1'), Err(EvalError::InvalidDigit('\u{0663}')));
    assert_eq!(interpreter.peek_char(), Some('+'));
}

#[test]
fn integer_reports_the_first_bad_character() {
    let mut interpreter = Interpreter::new("2\u{0663}4\u{2460}");
    assert_eq!(interpreter.integer('1'), Err(EvalError::InvalidDigit('\u{0663}')));
    assert_eq!(interpreter.peek_char(), None);
    let mut interpreter = Interpreter::new("99999999999999\u{2460}");
    assert_eq!(interpreter.integer('1'), Err(EvalError::InvalidDigit('\u{2460}')));
}

#[test]
fn integer_whose_first_character_is_no_decimal_digit() {
    let mut interpreter = Interpreter::new("4");
    assert_eq!(interpreter.integer('\u{00bd}'), Err(EvalError::InvalidDigit('\u{00bd}')));
}

#[test]
fn lexes_every_operator() {
    assert_eq!(
        tokens("+-*/"),
        vec![
            Ok(Token::Plus),
            Ok(Token::Minus),
            Ok(Token::Multiply),
            Ok(Token::Divide),
            Ok(Token::Eof)
        ]
    );
}

#[test]
fn lexes_product_without_evaluating_it() {
    assert_eq!(
        tokens("2*3"),
        vec![
            Ok(Token::Integer(2)),
            Ok(Token::Multiply),
            Ok(Token::Integer(3)),
            Ok(Token::Eof)
        ]
    );
}

#[test]
fn lexes_multi_digit_literals_between_whitespace() {
    assert_eq!(
        tokens("  12 +\t345 "),
        vec![
            Ok(Token::Integer(12)),
            Ok(Token::Plus),
            Ok(Token::Integer(345)),
            Ok(Token::Eof)
        ]
    );
}

#[test]
fn whitespace_does_not_change_the_tokens() {
    assert_eq!(tokens("3+4"), tokens(" 3 + 4 "));
}

#[test]
fn unrecognized_character_is_illegal_token() {
    assert_eq!(tokens("a"), vec![Ok(Token::Illegal), Ok(Token::Eof)]);
    assert_eq!(
        tokens("1a2"),
        vec![
            Ok(Token::Integer(1)),
            Ok(Token::Illegal),
            Ok(Token::Integer(2)),
            Ok(Token::Eof)
        ]
    );
}

#[test]
fn empty_line_is_eof_again_and_again() {
    let mut interpreter = Interpreter::new("");
    assert_eq!(interpreter.get_next_token(), Ok(Token::Eof));
    assert_eq!(interpreter.get_next_token(), Ok(Token::Eof));
    assert_eq!(interpreter.peek_next_token(), Ok(Token::Eof));
}

#[test]
fn literal_overflow_is_a_lexer_error() {
    let mut interpreter = Interpreter::new("2147483648+1");
    assert_eq!(interpreter.get_next_token(), Err(EvalError::LiteralOverflow));
    assert_eq!(interpreter.get_next_token(), Ok(Token::Plus));
    assert_eq!(interpreter.get_next_token(), Ok(Token::Integer(1)));
}

#[test]
fn get_next_token_leaves_current_token_alone() {
    let mut interpreter = Interpreter::new("1+2");
    assert_eq!(interpreter.get_next_token(), Ok(Token::Integer(1)));
    assert_eq!(interpreter.current_token(), Token::Illegal);
}

#[test]
fn peek_does_not_consume() {
    let mut interpreter = Interpreter::new("123 + 4");
    assert_eq!(interpreter.peek_next_token(), Ok(Token::Integer(123)));
    assert_eq!(interpreter.peek_next_token(), Ok(Token::Integer(123)));
    assert_eq!(interpreter.peek_char(), Some('1'));
    assert_eq!(interpreter.get_next_token(), Ok(Token::Integer(123)));
    assert_eq!(interpreter.peek_next_token(), Ok(Token::Plus));
    assert_eq!(interpreter.get_next_token(), Ok(Token::Plus));
    assert_eq!(interpreter.get_next_token(), Ok(Token::Integer(4)));
    assert_eq!(interpreter.peek_next_token(), Ok(Token::Eof));
    assert_eq!(interpreter.get_next_token(), Ok(Token::Eof));
}

#[test]
fn peek_matches_next_on_every_token_of_a_line() {
    let line = " 12+ 7 -a*/ 2147483648 9";
    let mut plain = Interpreter::new(line);
    let mut peeking = Interpreter::new(line);
    loop {
        let peeked = peeking.peek_next_token();
        let read = peeking.get_next_token();
        let expected = plain.get_next_token();
        assert_eq!(peeked, expected);
        assert_eq!(read, expected);
        if expected == Ok(Token::Eof) {
            break;
        }
    }
}

#[test]
fn peek_of_a_bad_literal_does_not_consume() {
    let mut interpreter = Interpreter::new("99999999999 1");
    assert_eq!(interpreter.peek_next_token(), Err(EvalError::LiteralOverflow));
    assert_eq!(interpreter.peek_char(), Some('9'));
    assert_eq!(interpreter.get_next_token(), Err(EvalError::LiteralOverflow));
    assert_eq!(interpreter.get_next_token(), Ok(Token::Integer(1)));
}

#[test]
fn advance_after_peek_reads_the_peeked_characters() {
    let mut interpreter = Interpreter::new("12+3");
    assert_eq!(interpreter.peek_next_token(), Ok(Token::Integer(12)));
    assert_eq!(interpreter.advance(), Some('1'));
    assert_eq!(interpreter.get_next_token(), Ok(Token::Integer(2)));
}
