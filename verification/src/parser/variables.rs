//! Types and variable declarations.
use vstd::prelude::*;
use crate::ast::Stmt;
use crate::parser::expressions::parse_expression;
use crate::parser::grammar::{
    agrees,
    tokens_left,
    type_at,
    variable_declaration,
};
use crate::parser::StatementResult;
use crate::tokens::{Scanner, Token};
use crate::types::DataType;

verus! {

/// Parses a type.
pub fn parse_type(tokens: &mut Scanner) -> (r: Result<DataType, &'static str>)
    ensures
        final(tokens).all() == old(tokens).all(),
        agrees(
            r,
            type_at(old(tokens).all(), old(tokens).position()),
            old(tokens).position(),
            final(tokens).position(),
        ),
{
    let name = match tokens.peek() {
        Some(Token::Word(name)) => name.clone(),
        _ => {
            return Err("Expected a type");
        },
    };
    tokens.advance();
    Ok(DataType::from_name(name))
}

/// Parses a variable declaration: `var` or `const`, a name, then a type,
/// a value, or both.
pub fn parse_variable_declaration(tokens: &mut Scanner) -> (r: StatementResult)
    ensures
        final(tokens).all() == old(tokens).all(),
        agrees(
            r,
            variable_declaration(old(tokens).all(), old(tokens).position()),
            old(tokens).position(),
            final(tokens).position(),
        ),
    decreases tokens_left(old(tokens).all(), old(tokens).position()), 30nat,
{
    let mutable = match tokens.peek() {
        Some(Token::Var) => true,
        Some(Token::Const) => false,
        _ => {
            return Err("Expected variable declaration");
        },
    };
    tokens.advance();
    let name = match tokens.peek() {
        Some(Token::Word(name)) => name.clone(),
        _ => {
            return Err("Expected variable name");
        },
    };
    tokens.advance();
    let data_type = match tokens.peek() {
        Some(Token::Colon) => {
            tokens.advance();
            match parse_type(tokens) {
                Ok(t) => Some(t),
                Err(e) => {
                    return Err(e);
                },
            }
        },
        _ => None,
    };
    match tokens.peek() {
        Some(Token::Equal) => {
            tokens.advance();
            match parse_expression(tokens) {
                Ok(value) => Ok(
                    Stmt::Declaration { mutable, name, data_type, value: Some(Box::new(value)) },
                ),
                Err(e) => Err(e),
            }
        },
        _ => {
            if data_type.is_none() {
                return Err("Expected a type or value for the variable");
            }
            Ok(Stmt::Declaration { mutable, name, data_type, value: None })
        },
    }
}

} // verus!
