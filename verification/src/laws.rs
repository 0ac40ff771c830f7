//! General facts about the meaning of a line, each proved from the
//! definitions of the grammar.

use vstd::prelude::*;
use crate::charclass::{is_numeric_char, is_whitespace_char};
use crate::grammar::{
    combined, eval_expr, eval_line, expr_tail, failed, fits_i32, leading_numeric, lemma_expr_shortens,
    lemma_leading_numeric, lemma_lex_shortens, lemma_skip_spaces, lex, operand, operand_error,
    skip_spaces, Evaluated, Lexed, LineValues,
};
use crate::token::{EvalError, Token};

verus! {

/// A further operand of an expression: the sign in front of it (`true` for
/// `-`) and its value.
pub type SignedOperand = (bool, i32);

/// The token that writes a sign.
pub open spec fn sign_token(minus: bool) -> Token {
    if minus {
        Token::Minus
    } else {
        Token::Plus
    }
}

/// `acc` with one further operand added to it or taken from it.
pub open spec fn apply(acc: int, op: SignedOperand) -> int {
    if op.0 {
        acc - op.1
    } else {
        acc + op.1
    }
}

/// `acc` with the operands of `ops` applied one after another, the first
/// one first.
pub open spec fn fold_left(acc: int, ops: Seq<SignedOperand>) -> int
    decreases ops.len(),
{
    if ops.len() == 0 {
        acc
    } else {
        fold_left(apply(acc, ops[0]), ops.drop_first())
    }
}

/// Whether every value on the way from `acc` to `fold_left(acc, ops)` is a
/// value of `i32`.
pub open spec fn fits_throughout(acc: int, ops: Seq<SignedOperand>) -> bool
    decreases ops.len(),
{
    ops.len() == 0 || (fits_i32(apply(acc, ops[0])) && fits_throughout(
        apply(acc, ops[0]),
        ops.drop_first(),
    ))
}

/// Whether `s` is written as the signs and literals of `ops`, in order, and
/// then `rest`.
pub open spec fn reads_as(s: Seq<char>, ops: Seq<SignedOperand>, rest: Seq<char>) -> bool
    decreases ops.len(),
{
    if ops.len() == 0 {
        s == rest
    } else {
        let behind_sign = lex(s).rest;
        &&& lex(s).token == Ok::<Token, EvalError>(sign_token(ops[0].0))
        &&& lex(behind_sign).token == Ok::<Token, EvalError>(Token::Integer(ops[0].1))
        &&& reads_as(lex(behind_sign).rest, ops.drop_first(), rest)
    }
}

/// Whether what stands at the head of `s` ends an expression: any token but
/// `+` and `-`, or a literal that cannot be read.
pub open spec fn ends_expression(s: Seq<char>) -> bool {
    match lex(s).token {
        Ok(Token::Plus) | Ok(Token::Minus) => false,
        _ => true,
    }
}

/// Operands joined by `+` and `-` are folded strictly from left to right:
/// with `acc` for the operands read so far, the signs and literals of `ops`
/// give `fold_left(acc, ops)`, and what ends the expression stays unread.
pub proof fn law_tail_folds_left(
    acc: i32,
    s: Seq<char>,
    ops: Seq<SignedOperand>,
    rest: Seq<char>,
)
    requires
        reads_as(s, ops, rest),
        ends_expression(rest),
        fits_throughout(acc as int, ops),
    ensures
        fits_i32(fold_left(acc as int, ops)),
        expr_tail(acc, s) == (Evaluated {
            value: Ok(fold_left(acc as int, ops) as i32),
            rest,
        }),
    decreases ops.len(),
{
    reveal_with_fuel(reads_as, 2);
    if ops.len() > 0 {
        let behind_sign = lex(s).rest;
        let behind_operand = lex(behind_sign).rest;
        let tail = ops.drop_first();
        assert(operand(behind_sign) == (Evaluated { value: Ok(ops[0].1), rest: behind_operand }));
        law_tail_folds_left(apply(acc as int, ops[0]) as i32, behind_operand, tail, rest);
    }
}

/// An expression made of the literal `first` and the signs and literals of
/// `ops` has the value that folding them from left to right gives, as long
/// as every value on the way is a value of `i32`.
pub proof fn law_expr_folds_left(
    s: Seq<char>,
    first: i32,
    ops: Seq<SignedOperand>,
    rest: Seq<char>,
)
    requires
        lex(s).token == Ok::<Token, EvalError>(Token::Integer(first)),
        reads_as(lex(s).rest, ops, rest),
        ends_expression(rest),
        fits_throughout(first as int, ops),
    ensures
        fits_i32(fold_left(first as int, ops)),
        eval_expr(s) == (Evaluated { value: Ok(fold_left(first as int, ops) as i32), rest }),
{
    law_tail_folds_left(first, lex(s).rest, ops, rest);
}

/// An expression whose running value leaves the range of `i32` at one of
/// its signs fails with `ArithmeticOverflow`, whatever stands behind that
/// operand.
pub proof fn law_overflow_is_reported(
    acc: i32,
    s: Seq<char>,
    ops: Seq<SignedOperand>,
    rest: Seq<char>,
)
    requires
        reads_as(s, ops, rest),
        !fits_throughout(acc as int, ops),
    ensures
        expr_tail(acc, s) == failed(EvalError::ArithmeticOverflow),
    decreases ops.len(),
{
    if ops.len() > 0 && fits_i32(apply(acc as int, ops[0])) {
        let behind_operand = lex(lex(s).rest).rest;
        law_overflow_is_reported(
            apply(acc as int, ops[0]) as i32,
            behind_operand,
            ops.drop_first(),
            rest,
        );
    }
}

/// Whether every character of `s` is whitespace.
pub open spec fn all_whitespace(s: Seq<char>) -> bool {
    forall|i: int| 0 <= i < s.len() ==> is_whitespace_char(#[trigger] s[i])
}

/// Whitespace in front of a line is passed over.
pub proof fn law_skip_leading_whitespace(ws: Seq<char>, s: Seq<char>)
    requires
        all_whitespace(ws),
    ensures
        skip_spaces(ws + s) == skip_spaces(s),
    decreases ws.len(),
{
    if ws.len() == 0 {
        assert(ws + s =~= s);
    } else {
        assert((ws + s)[0] == ws[0]);
        assert((ws + s).drop_first() =~= ws.drop_first() + s);
        law_skip_leading_whitespace(ws.drop_first(), s);
    }
}

/// Whitespace in front of a token is insignificant: it changes neither the
/// token, nor what is left behind it, nor the value of the expression or of
/// the line that begins there.
pub proof fn law_whitespace_is_insignificant(ws: Seq<char>, s: Seq<char>)
    requires
        all_whitespace(ws),
    ensures
        lex(ws + s) == lex(s),
        operand(ws + s) == operand(s),
        eval_expr(ws + s) == eval_expr(s),
        eval_line(ws + s) == eval_line(s),
{
    law_skip_leading_whitespace(ws, s);
}

/// Whitespace at the end of a line is insignificant: behind it stands `Eof`,
/// as at the end of the line without it.
pub proof fn law_trailing_whitespace(ws: Seq<char>)
    requires
        all_whitespace(ws),
    ensures
        lex(ws).token == Ok::<Token, EvalError>(Token::Eof),
        eval_line(ws) == (LineValues { values: Seq::empty(), error: None }),
{
    law_skip_leading_whitespace(ws, Seq::empty());
    assert(ws + Seq::<char>::empty() =~= ws);
}

/// The characters that the first token of `s` is made of, with the
/// whitespace in front of them.
pub open spec fn taken(s: Seq<char>) -> Seq<char> {
    s.take(s.len() - lex(s).rest.len())
}

/// Whether `x` can stand behind a literal without becoming part of it: it
/// is empty or begins with a character that is not numeric.
pub open spec fn ends_literal(x: Seq<char>) -> bool {
    x.len() == 0 || !is_numeric_char(x[0])
}

/// Whether the first token of `s` is written with a run of numeric
/// characters, readable as a literal or not.
pub open spec fn begins_with_digit_run(s: Seq<char>) -> bool {
    lex(s).token is Err || (lex(s).token matches Ok(t) && t is Integer)
}

/// Every character that `skip_spaces` passes over is whitespace.
proof fn lemma_skipped_is_whitespace(s: Seq<char>)
    ensures
        skip_spaces(s).len() <= s.len(),
        forall|i: int| 0 <= i < s.len() - skip_spaces(s).len() ==> is_whitespace_char(#[trigger] s[i]),
    decreases s.len(),
{
    if s.len() > 0 && is_whitespace_char(s[0]) {
        let t = s.drop_first();
        lemma_skipped_is_whitespace(t);
        assert forall|i: int| 0 <= i < s.len() - skip_spaces(s).len() implies is_whitespace_char(
            #[trigger] s[i],
        ) by {
            if i > 0 {
                assert(s[i] == t[i - 1]);
            }
        }
    }
}

/// `skip_spaces` stops at the first character that is no whitespace.
proof fn lemma_skip_spaces_stops(u: Seq<char>, k: int)
    requires
        0 <= k < u.len(),
        forall|i: int| 0 <= i < k ==> is_whitespace_char(#[trigger] u[i]),
        !is_whitespace_char(u[k]),
    ensures
        skip_spaces(u) == u.skip(k),
    decreases k,
{
    if k == 0 {
        assert(u.skip(0) =~= u);
    } else {
        let t = u.drop_first();
        assert forall|i: int| 0 <= i < k - 1 implies is_whitespace_char(#[trigger] t[i]) by {
            assert(t[i] == u[i + 1]);
        }
        lemma_skip_spaces_stops(t, k - 1);
        assert(t.skip(k - 1) =~= u.skip(k));
    }
}

/// The characters that `leading_numeric` counts are numeric, and the one
/// behind them is not.
proof fn lemma_counted_is_numeric(u: Seq<char>)
    ensures
        leading_numeric(u) <= u.len(),
        forall|i: int| 0 <= i < leading_numeric(u) ==> is_numeric_char(#[trigger] u[i]),
        ends_literal(u.skip(leading_numeric(u) as int)),
    decreases u.len(),
{
    if u.len() > 0 && is_numeric_char(u[0]) {
        let t = u.drop_first();
        lemma_counted_is_numeric(t);
        assert forall|i: int| 0 <= i < leading_numeric(u) implies is_numeric_char(
            #[trigger] u[i],
        ) by {
            if i > 0 {
                assert(u[i] == t[i - 1]);
            }
        }
        assert(t.skip(leading_numeric(t) as int) =~= u.skip(leading_numeric(u) as int));
    } else {
        assert(u.skip(0) =~= u);
    }
}

/// `leading_numeric` counts up to the first character that is not numeric.
proof fn lemma_leading_numeric_stops(u: Seq<char>, n: int)
    requires
        0 <= n <= u.len(),
        forall|i: int| 0 <= i < n ==> is_numeric_char(#[trigger] u[i]),
        ends_literal(u.skip(n)),
    ensures
        leading_numeric(u) == n,
    decreases n,
{
    if n == 0 {
        assert(u.skip(0) =~= u);
    } else {
        let t = u.drop_first();
        assert forall|i: int| 0 <= i < n - 1 implies is_numeric_char(#[trigger] t[i]) by {
            assert(t[i] == u[i + 1]);
        }
        assert(t.skip(n - 1) =~= u.skip(n));
        lemma_leading_numeric_stops(t, n - 1);
    }
}

/// A literal is as long as it can be: what is left behind a run of numeric
/// characters does not go on with one.
pub proof fn law_literal_is_maximal(s: Seq<char>)
    requires
        begins_with_digit_run(s),
    ensures
        ends_literal(lex(s).rest),
{
    let t = skip_spaces(s);
    if t.len() > 0 {
        lemma_counted_is_numeric(t.drop_first());
    }
}

/// A token is decided by its own characters: put in front of any other
/// text `x`, the characters of the first token of `s` give the same token
/// and leave `x`. Only behind a run of numeric characters `x` must not go on
/// with one.
pub proof fn law_token_is_local(s: Seq<char>, x: Seq<char>)
    requires
        lex(s).token != Ok::<Token, EvalError>(Token::Eof),
        begins_with_digit_run(s) ==> ends_literal(x),
    ensures
        s == taken(s) + lex(s).rest,
        lex(taken(s) + x) == (Lexed { token: lex(s).token, rest: x }),
{
    lemma_skip_spaces(s);
    lemma_skipped_is_whitespace(s);
    lemma_lex_shortens(s);
    let t = skip_spaces(s);
    let k = s.len() - t.len();
    let p = taken(s);
    let u = p + x;
    let tail = t.drop_first();
    lemma_leading_numeric(tail);
    lemma_counted_is_numeric(tail);
    assert(t[0] == s[k]);
    assert(p.len() > k);
    assert(s =~= p + lex(s).rest);
    assert(u[k] == s[k]);
    assert forall|i: int| 0 <= i < k implies is_whitespace_char(#[trigger] u[i]) by {
        assert(u[i] == s[i]);
    }
    lemma_skip_spaces_stops(u, k);
    let c = t[0];
    if c != '+' && c != '-' && c != '*' && c != '/' && is_numeric_char(c) {
        let n = leading_numeric(tail) as int;
        let v = u.skip(k).drop_first();
        assert(p.len() == k + 1 + n);
        assert forall|i: int| 0 <= i < n implies is_numeric_char(#[trigger] v[i]) by {
            assert(v[i] == tail[i]);
        }
        assert(v.skip(n) =~= x);
        lemma_leading_numeric_stops(v, n);
        assert(v.take(n) =~= tail.take(n));
    } else {
        assert(u.skip(k).drop_first() =~= x);
    }
}

/// The tokens of `s` in order, up to the end of the line. A literal that
/// cannot be read stands there as its error.
pub open spec fn tokens(s: Seq<char>) -> Seq<Result<Token, EvalError>>
    decreases s.len(),
    via tokens_decreases
{
    if lex(s).token == Ok::<Token, EvalError>(Token::Eof) {
        Seq::empty()
    } else {
        seq![lex(s).token] + tokens(lex(s).rest)
    }
}

#[via_fn]
proof fn tokens_decreases(s: Seq<char>) {
    lemma_lex_shortens(s);
}

/// Two lines with the same tokens begin with the same token, and have the
/// same tokens behind it.
proof fn lemma_same_head(a: Seq<char>, b: Seq<char>)
    requires
        tokens(a) == tokens(b),
    ensures
        lex(a).token == lex(b).token,
        tokens(lex(a).rest) == tokens(lex(b).rest),
{
    let eof = Ok::<Token, EvalError>(Token::Eof);
    lemma_lex_shortens(a);
    lemma_lex_shortens(b);
    if lex(a).token == eof {
        assert(tokens(a).len() == 0);
        if lex(b).token != eof {
            assert(tokens(b).len() > 0);
        }
        assert(lex(a).rest =~= lex(b).rest);
    } else {
        assert(tokens(a)[0] == lex(a).token);
        if lex(b).token == eof {
            assert(tokens(b).len() == 0);
        }
        assert(tokens(b)[0] == lex(b).token);
        assert(tokens(a).skip(1) =~= tokens(lex(a).rest));
        assert(tokens(b).skip(1) =~= tokens(lex(b).rest));
    }
}

/// The rest of an expression is decided by the tokens that it is written
/// with.
proof fn lemma_tail_is_decided_by_tokens(acc: i32, a: Seq<char>, b: Seq<char>)
    requires
        tokens(a) == tokens(b),
    ensures
        expr_tail(acc, a).value == expr_tail(acc, b).value,
        tokens(expr_tail(acc, a).rest) == tokens(expr_tail(acc, b).rest),
    decreases a.len(),
{
    lemma_same_head(a, b);
    lemma_lex_shortens(a);
    let minus = lex(a).token == Ok::<Token, EvalError>(Token::Minus);
    if lex(a).token == Ok::<Token, EvalError>(Token::Plus) || minus {
        let ra = lex(a).rest;
        let rb = lex(b).rest;
        lemma_same_head(ra, rb);
        lemma_lex_shortens(ra);
        if let Ok(v) = operand(ra).value {
            if let Ok(sum) = combined(acc, minus, v) {
                lemma_tail_is_decided_by_tokens(sum, lex(ra).rest, lex(rb).rest);
            }
        }
    }
}

/// What a line evaluates to is decided by its tokens: two lines that are
/// written with the same tokens give the same values and the same error.
pub proof fn law_line_is_decided_by_tokens(a: Seq<char>, b: Seq<char>)
    requires
        tokens(a) == tokens(b),
    ensures
        eval_expr(a).value == eval_expr(b).value,
        eval_line(a) == eval_line(b),
    decreases a.len(),
{
    lemma_same_head(a, b);
    lemma_expr_shortens(a);
    if let Ok(v) = operand(a).value {
        lemma_tail_is_decided_by_tokens(v, lex(a).rest, lex(b).rest);
    }
    if lex(a).token != Ok::<Token, EvalError>(Token::Eof) && eval_expr(a).value is Ok {
        law_line_is_decided_by_tokens(eval_expr(a).rest, eval_expr(b).rest);
    }
}

/// `s` with `ws` put in behind its first `k` tokens, or at its end where it
/// has fewer.
pub open spec fn with_gap(s: Seq<char>, k: nat, ws: Seq<char>) -> Seq<char>
    decreases k,
{
    if k == 0 {
        ws + s
    } else {
        taken(s) + with_gap(lex(s).rest, (k - 1) as nat, ws)
    }
}

/// A gap that can stand behind a literal, put into text that can, gives text
/// that can.
proof fn lemma_gap_ends_literal(r: Seq<char>, k: nat, ws: Seq<char>)
    requires
        ends_literal(r),
        ends_literal(ws),
    ensures
        ends_literal(with_gap(r, k, ws)),
    decreases k,
{
    if k > 0 {
        lemma_lex_shortens(r);
        let inner = with_gap(lex(r).rest, (k - 1) as nat, ws);
        if taken(r).len() == 0 {
            assert(lex(r).rest =~= r) by {
                lemma_skip_spaces(r);
            }
            lemma_gap_ends_literal(lex(r).rest, (k - 1) as nat, ws);
            assert(taken(r) + inner =~= inner);
        } else {
            assert((taken(r) + inner)[0] == r[0]);
        }
    }
}

/// Whitespace between any two tokens is insignificant: with `ws` put in
/// behind the first `k` tokens of `s`, the line has the same tokens, and so
/// the same values and the same error. This is said of whitespace whose
/// first character is not numeric as well, so that it ends a literal.
pub proof fn law_whitespace_at_any_boundary(s: Seq<char>, k: nat, ws: Seq<char>)
    requires
        all_whitespace(ws),
        ends_literal(ws),
    ensures
        tokens(with_gap(s, k, ws)) == tokens(s),
        eval_line(with_gap(s, k, ws)) == eval_line(s),
    decreases k,
{
    if k == 0 {
        law_whitespace_is_insignificant(ws, s);
    } else {
        let r = lex(s).rest;
        let gap = with_gap(r, (k - 1) as nat, ws);
        law_whitespace_at_any_boundary(r, (k - 1) as nat, ws);
        lemma_lex_shortens(s);
        if lex(s).token == Ok::<Token, EvalError>(Token::Eof) {
            lemma_skipped_is_whitespace(s);
            assert(taken(s) =~= s);
            assert(all_whitespace(s));
            law_whitespace_is_insignificant(s, gap);
            lemma_same_head(gap, r);
        } else {
            if begins_with_digit_run(s) {
                law_literal_is_maximal(s);
                lemma_gap_ends_literal(r, (k - 1) as nat, ws);
            }
            law_token_is_local(s, gap);
        }
    }
    law_line_is_decided_by_tokens(with_gap(s, k, ws), s);
}

/// Each of the four operator signs is a token by itself, `*` and `/` as
/// well as `+` and `-`, as long as it does not count as whitespace.
pub proof fn law_operator_signs_are_tokens(c: char, s: Seq<char>)
    requires
        !is_whitespace_char(c),
        c == '+' || c == '-' || c == '*' || c == '/',
    ensures
        lex(seq![c] + s).rest == s,
        lex(seq![c] + s).token == Ok::<Token, EvalError>(
            if c == '+' {
                Token::Plus
            } else if c == '-' {
                Token::Minus
            } else if c == '*' {
                Token::Multiply
            } else {
                Token::Divide
            },
        ),
{
    let line = seq![c] + s;
    assert(line[0] == c);
    assert(line.drop_first() =~= s);
}

/// An expression ends in front of anything that is neither `+` nor `-`,
/// `*` and `/` among them, and leaves it unread.
pub proof fn law_expression_ends_before_other_tokens(acc: i32, s: Seq<char>)
    requires
        ends_expression(s),
    ensures
        expr_tail(acc, s) == (Evaluated { value: Ok(acc), rest: s }),
{
}

/// No expression begins with a token that is no literal: the expression
/// fails with an error that names the token, `UnsupportedOperator` for `*`
/// and `/` and `UnexpectedToken` for any other, and the line gives no value
/// from there on.
pub proof fn law_bad_start_is_reported(s: Seq<char>, t: Token)
    requires
        lex(s).token == Ok::<Token, EvalError>(t),
        !(t is Integer),
    ensures
        eval_expr(s) == failed(operand_error(t)),
        t != Token::Eof ==> eval_line(s) == (LineValues {
            values: Seq::empty(),
            error: Some(operand_error(t)),
        }),
{
}

/// A character that is no whitespace, no operator sign and not numeric is
/// the token `Illegal`, and an expression that begins with it fails with
/// `UnexpectedToken(Illegal)`.
pub proof fn law_unrecognized_character_is_reported(c: char, s: Seq<char>)
    requires
        !is_whitespace_char(c),
        !is_numeric_char(c),
        c != '+' && c != '-' && c != '*' && c != '/',
    ensures
        lex(seq![c] + s).token == Ok::<Token, EvalError>(Token::Illegal),
        lex(seq![c] + s).rest == s,
        eval_expr(seq![c] + s) == failed(EvalError::UnexpectedToken(Token::Illegal)),
        eval_line(seq![c] + s).error == Some(EvalError::UnexpectedToken(Token::Illegal)),
{
    let line = seq![c] + s;
    assert(line[0] == c);
    assert(line.drop_first() =~= s);
}

/// The evaluator makes progress: an expression that has a value has taken at
/// least one character off the line, and one that has none leaves nothing of
/// the line, so that a line is evaluated in at most as many steps as it has
/// characters.
pub proof fn law_evaluation_makes_progress(s: Seq<char>)
    ensures
        eval_expr(s).value is Ok ==> eval_expr(s).rest.len() < s.len(),
        eval_expr(s).value is Err ==> eval_expr(s).rest.len() == 0,
        eval_line(s).values.len() <= s.len(),
    decreases s.len(),
{
    lemma_expr_shortens(s);
    if lex(s).token != Ok::<Token, EvalError>(Token::Eof) && eval_expr(s).value is Ok {
        law_evaluation_makes_progress(eval_expr(s).rest);
    }
}

} // verus!
