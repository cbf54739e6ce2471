//! If statements.
use vstd::prelude::*;
use crate::ast::Stmt;
use crate::parser::block::parse_block;
use crate::parser::expressions::parse_expression;
use crate::parser::grammar::{agrees, if_statement, tokens_left};
use crate::parser::StatementResult;
use crate::tokens::{Scanner, Token};

verus! {

/// Parses an if statement with its else branch, if there is one. A chain
/// of `else if` becomes an if statement in the else branch.
pub fn parse_if_statement(tokens: &mut Scanner) -> (r: StatementResult)
    ensures
        final(tokens).all() == old(tokens).all(),
        agrees(
            r,
            if_statement(old(tokens).all(), old(tokens).position()),
            old(tokens).position(),
            final(tokens).position(),
        ),
    decreases tokens_left(old(tokens).all(), old(tokens).position()), 30nat,
{
    match tokens.peek() {
        Some(Token::If) => {},
        _ => {
            return Err("Expected if statement");
        },
    }
    tokens.advance();
    let condition = match parse_expression(tokens) {
        Ok(s) => s,
        Err(e) => {
            return Err(e);
        },
    };
    let body = match parse_block(tokens) {
        Ok(s) => s,
        Err(e) => {
            return Err(e);
        },
    };
    let follows_else = match tokens.peek() {
        Some(Token::Else) => true,
        _ => false,
    };
    let mut else_block: Option<Box<Stmt>> = None;
    if follows_else {
        tokens.advance();
        let next: u8 = match tokens.peek() {
            Some(Token::If) => 1,
            Some(Token::OpenBrace) => 2,
            _ => 0,
        };
        if next == 1 {
            match parse_if_statement(tokens) {
                Ok(s) => {
                    else_block = Some(Box::new(s));
                },
                Err(e) => {
                    return Err(e);
                },
            }
        } else if next == 2 {
            match parse_block(tokens) {
                Ok(s) => {
                    else_block = Some(Box::new(s));
                },
                Err(e) => {
                    return Err(e);
                },
            }
        }
    }
    Ok(Stmt::IfStatement { condition: Box::new(condition), block: Box::new(body), else_block })
}

} // verus!
