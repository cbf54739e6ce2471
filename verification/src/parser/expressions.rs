//! Expressions, by precedence climbing.
use vstd::prelude::*;
use crate::ast::{lemma_stmt_view, stmts_view, BinaryOperator, Stmt, StmtView, UnaryOperator};
use crate::parser::grammar::{
    agrees,
    arguments,
    binary,
    expression,
    more_arguments,
    operand,
    operation,
    operation_rest,
    operator_at_level,
    shift,
    span_at,
    term,
    token_at,
    tokens_left,
    Parsed,
};
use crate::parser::StatementResult;
use crate::tokens::{Scanner, Spanned, Token, TokenView};
use crate::parser::strings::{parse_string};

verus! {

/// Parses an expression.
pub fn parse_expression(tokens: &mut Scanner) -> (r: StatementResult)
    ensures
        final(tokens).all() == old(tokens).all(),
        agrees(
            r,
            expression(old(tokens).all(), old(tokens).position()),
            old(tokens).position(),
            final(tokens).position(),
        ),
    decreases tokens_left(old(tokens).all(), old(tokens).position()), 20nat,
{
    parse_operation(tokens, 4)
}

/// Parses a chain of logical-or operators, which bind loosest.
pub fn parse_logical_or(tokens: &mut Scanner) -> (r: StatementResult)
    ensures
        final(tokens).all() == old(tokens).all(),
        agrees(
            r,
            operation(old(tokens).all(), old(tokens).position(), 4),
            old(tokens).position(),
            final(tokens).position(),
        ),
{
    parse_operation(tokens, 4)
}

/// Parses a chain of logical-and operators.
pub fn parse_logical_and(tokens: &mut Scanner) -> (r: StatementResult)
    ensures
        final(tokens).all() == old(tokens).all(),
        agrees(
            r,
            operation(old(tokens).all(), old(tokens).position(), 3),
            old(tokens).position(),
            final(tokens).position(),
        ),
{
    parse_operation(tokens, 3)
}

/// Parses a chain of comparison operators.
pub fn parse_comparison(tokens: &mut Scanner) -> (r: StatementResult)
    ensures
        final(tokens).all() == old(tokens).all(),
        agrees(
            r,
            operation(old(tokens).all(), old(tokens).position(), 2),
            old(tokens).position(),
            final(tokens).position(),
        ),
{
    parse_operation(tokens, 2)
}

/// Parses a chain of additions and subtractions.
pub fn parse_addition_subtraction(tokens: &mut Scanner) -> (r: StatementResult)
    ensures
        final(tokens).all() == old(tokens).all(),
        agrees(
            r,
            operation(old(tokens).all(), old(tokens).position(), 1),
            old(tokens).position(),
            final(tokens).position(),
        ),
{
    parse_operation(tokens, 1)
}

/// Parses a chain of multiplications, divisions and remainders, which bind
/// tightest of the binary operators.
pub fn parse_multiplication_division(tokens: &mut Scanner) -> (r: StatementResult)
    ensures
        final(tokens).all() == old(tokens).all(),
        agrees(
            r,
            operation(old(tokens).all(), old(tokens).position(), 0),
            old(tokens).position(),
            final(tokens).position(),
        ),
{
    parse_operation(tokens, 0)
}

fn operator_of(level: u8, token: Option<&Token>) -> (r: Option<BinaryOperator>)
    requires
        level <= 4,
    ensures
        r == operator_at_level(
            level as nat,
            match token {
                Some(t) => Some(t@),
                None => None,
            },
        ),
{
    match token {
        None => None,
        Some(t) => {
            if level == 4 {
                match t {
                    Token::Or => Some(BinaryOperator::Or),
                    _ => None,
                }
            } else if level == 3 {
                match t {
                    Token::And => Some(BinaryOperator::And),
                    _ => None,
                }
            } else if level == 2 {
                match t {
                    Token::GreaterThan => Some(BinaryOperator::GreaterThan),
                    Token::GreaterThanEqual => Some(BinaryOperator::GreaterThanEqual),
                    Token::EqualEqual => Some(BinaryOperator::Equal),
                    Token::NotEqual => Some(BinaryOperator::NotEqual),
                    Token::LessThanEqual => Some(BinaryOperator::LessThanEqual),
                    Token::LessThan => Some(BinaryOperator::LessThan),
                    _ => None,
                }
            } else if level == 1 {
                match t {
                    Token::Plus => Some(BinaryOperator::Add),
                    Token::Minus => Some(BinaryOperator::Subtract),
                    _ => None,
                }
            } else {
                match t {
                    Token::Multiply => Some(BinaryOperator::Multiply),
                    Token::Divide => Some(BinaryOperator::Divide),
                    Token::Modulus => Some(BinaryOperator::Modulus),
                    _ => None,
                }
            }
        },
    }
}

fn parse_operand(tokens: &mut Scanner, level: u8) -> (r: StatementResult)
    requires
        level <= 4,
    ensures
        final(tokens).all() == old(tokens).all(),
        agrees(
            r,
            operand(old(tokens).all(), old(tokens).position(), level as nat),
            old(tokens).position(),
            final(tokens).position(),
        ),
    decreases tokens_left(old(tokens).all(), old(tokens).position()), 2 * level + 2,
{
    if level == 0 {
        parse_term(tokens)
    } else {
        parse_operation(tokens, level - 1)
    }
}

fn parse_operation(tokens: &mut Scanner, level: u8) -> (r: StatementResult)
    requires
        level <= 4,
    ensures
        final(tokens).all() == old(tokens).all(),
        agrees(
            r,
            operation(old(tokens).all(), old(tokens).position(), level as nat),
            old(tokens).position(),
            final(tokens).position(),
        ),
    decreases tokens_left(old(tokens).all(), old(tokens).position()), 2 * level + 3,
{
    let ghost toks = tokens.all();
    let ghost start = tokens.position();
    let mut left = match parse_operand(tokens, level) {
        Ok(s) => s,
        Err(e) => {
            return Err(e);
        },
    };
    loop
        invariant
            level <= 4,
            tokens.all() == toks,
            toks == old(tokens).all(),
            start == old(tokens).position(),
            tokens.position() > start,
            start >= 0,
            operation(toks, start, level as nat) == shift(
                operation_rest(toks, tokens.position(), level as nat, left@),
                (tokens.position() - start) as nat,
            ),
        decreases tokens_left(toks, tokens.position()),
    {
        let operator = match operator_of(level, tokens.peek()) {
            Some(o) => o,
            None => {
                return Ok(left);
            },
        };
        tokens.advance();
        let right = match parse_operand(tokens, level) {
            Ok(s) => s,
            Err(e) => {
                return Err(e);
            },
        };
        left = Stmt::BinaryExpression { left: Box::new(left), right: Box::new(right), operator };
    }
}

/// Parses a term: a parenthesized expression, a negated or inverted term,
/// a literal, an identifier or a function call.
pub fn parse_term(tokens: &mut Scanner) -> (r: StatementResult)
    ensures
        final(tokens).all() == old(tokens).all(),
        agrees(
            r,
            term(old(tokens).all(), old(tokens).position()),
            old(tokens).position(),
            final(tokens).position(),
        ),
    decreases tokens_left(old(tokens).all(), old(tokens).position()), 1nat,
{
    let ghost toks = tokens.all();
    let ghost start = tokens.position();
    match tokens.peek() {
        None => Err("Unexpected end of tokens in expression"),
        Some(Token::OpenParen) => {
            tokens.advance();
            let inner = match parse_expression(tokens) {
                Ok(s) => s,
                Err(e) => {
                    return Err(e);
                },
            };
            match tokens.peek() {
                Some(Token::CloseParen) => {
                    tokens.advance();
                    Ok(inner)
                },
                _ => Err("Expected a closing parenthesis"),
            }
        },
        Some(Token::Minus) => {
            tokens.advance();
            match parse_term(tokens) {
                Ok(value) => Ok(
                    Stmt::UnaryExpression {
                        value: Box::new(value),
                        operator: UnaryOperator::Negative,
                    },
                ),
                Err(e) => Err(e),
            }
        },
        Some(Token::Not) => {
            tokens.advance();
            match parse_term(tokens) {
                Ok(value) => Ok(
                    Stmt::UnaryExpression { value: Box::new(value), operator: UnaryOperator::Not },
                ),
                Err(e) => Err(e),
            }
        },
        Some(Token::Integer(_)) | Some(Token::Float(_)) | Some(Token::Boolean(_)) => parse_literal(
            tokens,
        ),
        Some(Token::Word(_)) => parse_identifier_or_function_call(tokens),
        Some(Token::String(_)) => parse_string(tokens),
        Some(_) => Err("Unexpected token in expression"),
    }
}

/// What a literal is at a position: an integer that is not negative, a
/// float or a truth value.
pub open spec fn literal_at(toks: Seq<Spanned>, pos: int) -> Parsed<StmtView> {
    match token_at(toks, pos) {
        Some(TokenView::Integer(value)) => if value >= 0 {
            Ok((StmtView::Integer { value: value as u64, span: span_at(toks, pos) }, 1))
        } else {
            Err("Expected literal"@)
        },
        Some(TokenView::Float(value)) => Ok(
            (StmtView::Float { value, span: span_at(toks, pos) }, 1),
        ),
        Some(TokenView::Boolean(value)) => Ok(
            (StmtView::Boolean { value, span: span_at(toks, pos) }, 1),
        ),
        _ => Err("Expected literal"@),
    }
}

/// Parses a literal number or truth value.
pub fn parse_literal(tokens: &mut Scanner) -> (r: StatementResult)
    ensures
        final(tokens).all() == old(tokens).all(),
        agrees(
            r,
            literal_at(old(tokens).all(), old(tokens).position()),
            old(tokens).position(),
            final(tokens).position(),
        ),
{
    let span = tokens.peek_span();
    let r = match tokens.peek() {
        Some(Token::Integer(value)) => {
            if *value >= 0 {
                Stmt::Integer { value: *value as u64, span }
            } else {
                return Err("Expected literal");
            }
        },
        Some(Token::Float(value)) => Stmt::Float { value: value.clone(), span },
        Some(Token::Boolean(value)) => Stmt::Boolean { value: *value, span },
        _ => {
            return Err("Expected literal");
        },
    };
    tokens.advance();
    Ok(r)
}

/// What an identifier or a function call is at a position.
pub open spec fn identifier_or_call_at(toks: Seq<Spanned>, pos: int) -> Parsed<StmtView> {
    match token_at(toks, pos) {
        Some(TokenView::Word(name)) => term(toks, pos),
        _ => Err("Expected identifier"@),
    }
}

/// Parses an identifier, or a function call where an opening parenthesis
/// follows the identifier.
pub fn parse_identifier_or_function_call(tokens: &mut Scanner) -> (r: StatementResult)
    ensures
        final(tokens).all() == old(tokens).all(),
        agrees(
            r,
            identifier_or_call_at(old(tokens).all(), old(tokens).position()),
            old(tokens).position(),
            final(tokens).position(),
        ),
    decreases tokens_left(old(tokens).all(), old(tokens).position()), 0nat,
{
    broadcast use lemma_stmt_view;

    let span = tokens.peek_span();
    let name = match tokens.peek() {
        Some(Token::Word(name)) => name.clone(),
        _ => {
            return Err("Expected identifier");
        },
    };
    tokens.advance();
    match tokens.peek() {
        Some(Token::OpenParen) => {
            tokens.advance();
            match parse_arguments(
                tokens,
                "Expected a comma or closing parenthesis in the function call",
            ) {
                Ok(args) => Ok(Stmt::FunctionCall { name, args, span }),
                Err(e) => Err(e),
            }
        },
        _ => Ok(Stmt::Identifier { name, span }),
    }
}

/// Whether a function that parses a list gave what the grammar asks for.
pub open spec fn list_agrees(
    r: Result<Vec<Stmt>, &'static str>,
    expected: Parsed<Seq<StmtView>>,
    before: int,
    after: int,
) -> bool {
    match expected {
        Ok((v, n)) => r is Ok && stmts_view(r->Ok_0@) == v && after == before + n && n >= 1,
        Err(e) => r is Err && r->Err_0@ == e,
    }
}

/// Parses a list of arguments after its opening parenthesis, up to and
/// with the closing one. `message` is the error for an argument that
/// neither a comma nor the closing parenthesis follows.
pub fn parse_arguments(tokens: &mut Scanner, message: &'static str) -> (r: Result<
    Vec<Stmt>,
    &'static str,
>)
    ensures
        final(tokens).all() == old(tokens).all(),
        list_agrees(
            r,
            arguments(old(tokens).all(), old(tokens).position(), message@),
            old(tokens).position(),
            final(tokens).position(),
        ),
    decreases tokens_left(old(tokens).all(), old(tokens).position()), 22nat,
{
    let ghost toks = tokens.all();
    let ghost start = tokens.position();
    let mut args: Vec<Stmt> = Vec::new();
    match tokens.peek() {
        Some(Token::CloseParen) => {
            tokens.advance();
            assert(stmts_view(args@) =~= Seq::<StmtView>::empty());
            return Ok(args);
        },
        _ => {},
    }
    assert(stmts_view(args@) =~= Seq::<StmtView>::empty());
    loop
        invariant
            tokens.all() == toks,
            toks == old(tokens).all(),
            start == old(tokens).position(),
            tokens.position() >= start,
            start >= 0,
            arguments(toks, start, message@) == shift(
                more_arguments(toks, tokens.position(), message@, stmts_view(args@)),
                (tokens.position() - start) as nat,
            ),
        decreases tokens_left(toks, tokens.position()),
    {
        let ghost before = stmts_view(args@);
        let argument = match parse_expression(tokens) {
            Ok(s) => s,
            Err(e) => {
                return Err(e);
            },
        };
        args.push(argument);
        assert(stmts_view(args@) =~= before.push(argument@));
        match tokens.peek() {
            Some(Token::Comma) => {
                tokens.advance();
            },
            Some(Token::CloseParen) => {
                tokens.advance();
                return Ok(args);
            },
            _ => {
                return Err(message);
            },
        }
    }
}

} // verus!
