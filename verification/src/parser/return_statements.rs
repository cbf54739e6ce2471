//! Return statements.
use vstd::prelude::*;
use crate::ast::Stmt;
use crate::parser::expressions::parse_expression;
use crate::parser::grammar::{agrees, return_statement, starts_expression, tokens_left};
use crate::parser::StatementResult;
use crate::tokens::{Scanner, Token};

verus! {

/// Whether an expression can start with this token.
pub fn can_start_expression(token: &Token) -> (r: bool)
    ensures
        r == starts_expression(token@),
{
    match token {
        Token::Integer(_)
        | Token::Float(_)
        | Token::Boolean(_)
        | Token::String(_)
        | Token::OpenParen
        | Token::Word(_)
        | Token::Minus
        | Token::Not => true,
        _ => false,
    }
}

/// Parses a return statement, with its value if there is one.
pub fn parse_return_statement(tokens: &mut Scanner) -> (r: StatementResult)
    ensures
        final(tokens).all() == old(tokens).all(),
        agrees(
            r,
            return_statement(old(tokens).all(), old(tokens).position()),
            old(tokens).position(),
            final(tokens).position(),
        ),
    decreases tokens_left(old(tokens).all(), old(tokens).position()), 30nat,
{
    match tokens.peek() {
        Some(Token::Return) => {},
        _ => {
            return Err("Expected return statement");
        },
    }
    tokens.advance();
    let has_value = match tokens.peek() {
        Some(t) => can_start_expression(t),
        None => false,
    };
    if has_value {
        match parse_expression(tokens) {
            Ok(value) => Ok(Stmt::ReturnStatement { value: Some(Box::new(value)) }),
            Err(e) => Err(e),
        }
    } else {
        Ok(Stmt::ReturnStatement { value: None })
    }
}

} // verus!
