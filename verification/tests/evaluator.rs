use arith_eval::{evaluate, respond, EvalError, Interpreter, LineResult, Step, Token};

fn value(line: &str) -> Result<i32, EvalError> {
    Interpreter::new(line).expr()
}

#[test]
fn evaluates_left_to_right() {
    assert_eq!(value("3 + 4 - 2"), Ok(5));
    assert_eq!(value("10-3-2"), Ok(5));
}

#[test]
fn subtraction_is_left_associative() {
    assert_eq!(value("1-2+3"), Ok(2));
    assert_eq!(value("1-2-3"), Ok(-4));
    assert_eq!(value("100 - 50 + 25 - 75"), Ok(0));
}

#[test]
fn single_literal_is_an_expression() {
    assert_eq!(value("42"), Ok(42));
    assert_eq!(value("0"), Ok(0));
}

#[test]
fn whitespace_between_tokens_is_insignificant() {
    assert_eq!(value("3+4"), Ok(7));
    assert_eq!(value(" 3 + 4 "), Ok(7));
    assert_eq!(value("3+4"), value(" 3 + 4 "));
    assert_eq!(value("\t3\u{a0}+\n4\r\n"), Ok(7));
}

#[test]
fn line_with_two_expressions() {
    assert_eq!(evaluate("1+1 2+2"), LineResult { values: vec![2, 4], error: None });
    assert_eq!(evaluate("1+2 3-1"), LineResult { values: vec![3, 2], error: None });
}

#[test]
fn line_with_trailing_literal() {
    assert_eq!(evaluate("1+1 2"), LineResult { values: vec![2, 2], error: None });
    assert_eq!(evaluate("1 2 3\n"), LineResult { values: vec![1, 2, 3], error: None });
}

#[test]
fn empty_and_blank_lines_have_no_values() {
    assert_eq!(evaluate(""), LineResult { values: vec![], error: None });
    assert_eq!(evaluate(" \t\n"), LineResult { values: vec![], error: None });
}

#[test]
fn expression_leaves_the_next_token_unread() {
    let mut interpreter = Interpreter::new("1+1 2+2");
    assert_eq!(interpreter.expr(), Ok(2));
    assert_eq!(interpreter.current_token(), Token::Integer(2));
    assert_eq!(interpreter.peek_next_token(), Ok(Token::Integer(2)));
    assert_eq!(interpreter.expr(), Ok(4));
    assert_eq!(interpreter.current_token(), Token::Eof);
    assert_eq!(interpreter.peek_next_token(), Ok(Token::Eof));
}

#[test]
fn product_is_rejected_after_its_first_operand() {
    let mut interpreter = Interpreter::new("2*3");
    assert_eq!(interpreter.expr(), Ok(2));
    assert_eq!(interpreter.current_token(), Token::Multiply);
    assert_eq!(interpreter.expr(), Err(EvalError::UnsupportedOperator(Token::Multiply)));
    assert_eq!(interpreter.peek_next_token(), Ok(Token::Eof));
    assert_eq!(
        evaluate("2*3"),
        LineResult {
            values: vec![2],
            error: Some(EvalError::UnsupportedOperator(Token::Multiply))
        }
    );
}

#[test]
fn quotient_is_rejected() {
    assert_eq!(
        evaluate("8 / 2"),
        LineResult { values: vec![8], error: Some(EvalError::UnsupportedOperator(Token::Divide)) }
    );
    assert_eq!(value("/2"), Err(EvalError::UnsupportedOperator(Token::Divide)));
    assert_eq!(value("1+*2"), Err(EvalError::UnsupportedOperator(Token::Multiply)));
}

#[test]
fn unrecognized_character_is_reported() {
    assert_eq!(value("a"), Err(EvalError::UnexpectedToken(Token::Illegal)));
    assert_eq!(
        evaluate("a"),
        LineResult { values: vec![], error: Some(EvalError::UnexpectedToken(Token::Illegal)) }
    );
    assert_eq!(
        evaluate("aaaa 1"),
        LineResult { values: vec![], error: Some(EvalError::UnexpectedToken(Token::Illegal)) }
    );
}

#[test]
fn unrecognized_character_behind_an_expression() {
    assert_eq!(
        evaluate("1+2 a 3"),
        LineResult { values: vec![3], error: Some(EvalError::UnexpectedToken(Token::Illegal)) }
    );
    assert_eq!(value("1+a"), Err(EvalError::UnexpectedToken(Token::Illegal)));
}

#[test]
fn error_gives_up_the_rest_of_the_line() {
    let mut interpreter = Interpreter::new("a 1+1");
    assert_eq!(interpreter.expr(), Err(EvalError::UnexpectedToken(Token::Illegal)));
    assert_eq!(interpreter.current_token(), Token::Eof);
    assert_eq!(interpreter.peek_char(), None);
    assert_eq!(interpreter.peek_next_token(), Ok(Token::Eof));
}

#[test]
fn missing_operand_is_reported() {
    assert_eq!(value("1 +"), Err(EvalError::UnexpectedToken(Token::Eof)));
    assert_eq!(value("1 + + 2"), Err(EvalError::UnexpectedToken(Token::Plus)));
    assert_eq!(value("+1"), Err(EvalError::UnexpectedToken(Token::Plus)));
    assert_eq!(value("-1"), Err(EvalError::UnexpectedToken(Token::Minus)));
    assert_eq!(value(""), Err(EvalError::UnexpectedToken(Token::Eof)));
}

#[test]
fn literal_overflow_is_reported() {
    assert_eq!(value("2147483647"), Ok(2147483647));
    assert_eq!(value("2147483648"), Err(EvalError::LiteralOverflow));
    assert_eq!(value("1+99999999999"), Err(EvalError::LiteralOverflow));
    assert_eq!(
        evaluate("1+1 99999999999"),
        LineResult { values: vec![2], error: Some(EvalError::LiteralOverflow) }
    );
    assert_eq!(
        evaluate("99999999999 1+1"),
        LineResult { values: vec![], error: Some(EvalError::LiteralOverflow) }
    );
}

#[test]
fn invalid_digit_is_reported() {
    assert_eq!(value("1\u{0663}"), Err(EvalError::InvalidDigit('\u{0663}')));
    assert_eq!(value("\u{00bd}"), Err(EvalError::InvalidDigit('\u{00bd}')));
    assert_eq!(
        evaluate("5 \u{2460}"),
        LineResult { values: vec![5], error: Some(EvalError::InvalidDigit('\u{2460}')) }
    );
}

#[test]
fn arithmetic_overflow_is_reported() {
    assert_eq!(value("2147483647+1"), Err(EvalError::ArithmeticOverflow));
    assert_eq!(value("2147483647+0"), Ok(2147483647));
    assert_eq!(value("0-2147483647-1"), Ok(-2147483648));
    assert_eq!(value("0-2147483647-2"), Err(EvalError::ArithmeticOverflow));
    assert_eq!(value("2147483647+1-1"), Err(EvalError::ArithmeticOverflow));
    assert_eq!(value("2147483647-1+1"), Ok(2147483647));
}

#[test]
fn eat_advances_on_a_match() {
    let mut interpreter = Interpreter::new("7+8");
    assert_eq!(interpreter.expr(), Ok(15));
    let mut interpreter = Interpreter::new("+ 8");
    assert_eq!(interpreter.eat(Token::Illegal), Ok(()));
    assert_eq!(interpreter.current_token(), Token::Integer(8));
    assert_eq!(interpreter.peek_next_token(), Ok(Token::Integer(8)));
    assert_eq!(interpreter.eat(Token::Integer(8)), Ok(()));
    assert_eq!(interpreter.current_token(), Token::Eof);
}

#[test]
fn eat_mismatch_changes_nothing() {
    let mut interpreter = Interpreter::new("7+8");
    assert_eq!(interpreter.eat(Token::Plus), Err(EvalError::UnexpectedToken(Token::Illegal)));
    assert_eq!(interpreter.current_token(), Token::Illegal);
    assert_eq!(interpreter.get_next_token(), Ok(Token::Integer(7)));
}

#[test]
fn eat_fails_on_unreadable_token() {
    let mut interpreter = Interpreter::new("99999999999 7");
    assert_eq!(interpreter.eat(Token::Illegal), Err(EvalError::LiteralOverflow));
    assert_eq!(interpreter.current_token(), Token::Illegal);
    assert_eq!(interpreter.get_next_token(), Ok(Token::Integer(7)));
}

#[test]
fn unreadable_literal_ahead_shows_as_illegal() {
    let mut interpreter = Interpreter::new("7 99999999999");
    assert_eq!(interpreter.eat(Token::Illegal), Ok(()));
    assert_eq!(interpreter.current_token(), Token::Illegal);
    assert_eq!(interpreter.term(), Err(EvalError::LiteralOverflow));
    assert_eq!(interpreter.peek_char(), Some(' '));
}

#[test]
fn arithmetic_overflow_comes_before_a_later_bad_literal() {
    assert_eq!(
        evaluate("2147483647+1 99999999999"),
        LineResult { values: vec![], error: Some(EvalError::ArithmeticOverflow) }
    );
    assert_eq!(
        evaluate("2147483646+1 99999999999"),
        LineResult { values: vec![2147483647], error: Some(EvalError::LiteralOverflow) }
    );
}

#[test]
fn process_token_is_zero_without_a_literal() {
    let mut interpreter = Interpreter::new("+ 12");
    assert_eq!(interpreter.process_token(), 0);
    assert_eq!(interpreter.eat(Token::Illegal), Ok(()));
    assert_eq!(interpreter.current_token(), Token::Integer(12));
    assert_eq!(interpreter.process_token(), 12);
}

#[test]
fn term_needs_a_literal() {
    let mut interpreter = Interpreter::new("+ 12 -");
    assert_eq!(interpreter.term(), Err(EvalError::UnexpectedToken(Token::Illegal)));
    assert_eq!(interpreter.eat(Token::Illegal), Ok(()));
    assert_eq!(interpreter.term(), Ok(12));
    assert_eq!(interpreter.current_token(), Token::Minus);
    assert_eq!(interpreter.term(), Err(EvalError::UnexpectedToken(Token::Minus)));
    assert_eq!(interpreter.current_token(), Token::Minus);
}

#[test]
fn evaluate_line_continues_from_the_cursor() {
    let mut interpreter = Interpreter::new("1+1 2+2 3");
    assert_eq!(interpreter.expr(), Ok(2));
    assert_eq!(interpreter.evaluate_line(), LineResult { values: vec![4, 3], error: None });
    assert_eq!(interpreter.current_token(), Token::Eof);
    assert_eq!(interpreter.peek_char(), None);
    assert_eq!(interpreter.evaluate_line(), LineResult { values: vec![], error: None });
}

#[test]
fn evaluate_line_uses_up_trailing_whitespace() {
    let mut interpreter = Interpreter::new("   ");
    assert_eq!(interpreter.evaluate_line(), LineResult { values: vec![], error: None });
    assert_eq!(interpreter.current_token(), Token::Eof);
    assert_eq!(interpreter.peek_char(), None);
}

#[test]
fn end_of_input_stops_the_loop() {
    assert_eq!(respond(None), Step::Stop);
}

#[test]
fn a_line_is_answered_even_when_empty() {
    assert_eq!(respond(Some("")), Step::Report(LineResult { values: vec![], error: None }));
    assert_eq!(
        respond(Some("1+2 3-1\n")),
        Step::Report(LineResult { values: vec![3, 2], error: None })
    );
    assert_eq!(
        respond(Some("a\n")),
        Step::Report(LineResult {
            values: vec![],
            error: Some(EvalError::UnexpectedToken(Token::Illegal))
        })
    );
}
