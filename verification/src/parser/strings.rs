//! String literals.
use vstd::prelude::*;
use crate::ast::Stmt;
use crate::parser::grammar::{agrees, string_at};
use crate::parser::StatementResult;
use crate::tokens::{Scanner, Token};

verus! {

/// Parses a string literal.
pub fn parse_string(tokens: &mut Scanner) -> (r: StatementResult)
    ensures
        final(tokens).all() == old(tokens).all(),
        agrees(
            r,
            string_at(old(tokens).all(), old(tokens).position()),
            old(tokens).position(),
            final(tokens).position(),
        ),
{
    let span = tokens.peek_span();
    let value = match tokens.peek() {
        Some(Token::String(value)) => value.clone(),
        _ => {
            return Err("Expected string");
        },
    };
    tokens.advance();
    Ok(Stmt::String { value, span })
}

} // verus!
