//! Blocks.
use vstd::prelude::*;
use crate::ast::{lemma_stmt_view, stmts_view, Stmt, StmtView};
use crate::parser::grammar::{
    agrees,
    block,
    block_items,
    newline_at,
    shift,
    token_at,
    tokens_left,
};
use crate::parser::{parse_statement, StatementResult};
use crate::tokens::{Scanner, Token, TokenView};

verus! {

/// Reads a statement end, if one is next.
pub fn skip_newline(tokens: &mut Scanner)
    ensures
        final(tokens).all() == old(tokens).all(),
        final(tokens).position() == old(tokens).position() + newline_at(
            old(tokens).all(),
            old(tokens).position(),
        ),
{
    let found = match tokens.peek() {
        Some(Token::NewLine) => true,
        _ => false,
    };
    if found {
        tokens.advance();
    }
}

/// Parses a block: statements between braces.
pub fn parse_block(tokens: &mut Scanner) -> (r: StatementResult)
    ensures
        final(tokens).all() == old(tokens).all(),
        agrees(
            r,
            block(old(tokens).all(), old(tokens).position()),
            old(tokens).position(),
            final(tokens).position(),
        ),
    decreases tokens_left(old(tokens).all(), old(tokens).position()), 28nat,
{
    let ghost toks = tokens.all();
    let ghost start = tokens.position();
    let ghost lead = newline_at(toks, start);
    skip_newline(tokens);
    match tokens.peek() {
        Some(Token::OpenBrace) => {},
        _ => {
            return Err("Expected opening brace");
        },
    }
    tokens.advance();
    skip_newline(tokens);
    let ghost inside = tokens.position();
    let mut body: Vec<Stmt> = Vec::new();
    assert(stmts_view(body@) =~= Seq::<StmtView>::empty());
    loop
        invariant
            tokens.all() == toks,
            toks == old(tokens).all(),
            start == old(tokens).position(),
            lead == newline_at(toks, start),
            token_at(toks, start + lead) == Some(TokenView::OpenBrace),
            inside == start + lead + 1 + newline_at(toks, start + lead + 1),
            tokens.position() >= inside,
            block_items(toks, inside, Seq::empty()) == shift(
                block_items(toks, tokens.position(), stmts_view(body@)),
                (tokens.position() - inside) as nat,
            ),
        decreases tokens_left(toks, tokens.position()),
    {
        let ghost here = tokens.position();
        let ghost parsed = stmts_view(body@);
        let next: u8 = match tokens.peek() {
            None => 0,
            Some(Token::CloseBrace) => 1,
            Some(Token::NewLine) => 2,
            Some(_) => 3,
        };
        if next == 0 {
            assert(block_items(toks, here, parsed) is Err);
            return Err("Unexpected end of tokens in indented block");
        } else if next == 1 {
            tokens.advance();
            let r = Stmt::Block { body };
            proof {
                lemma_stmt_view(&r);
                assert(block_items(toks, here, parsed) == Ok::<(Seq<StmtView>, nat), Seq<char>>(
                    (parsed, 1nat),
                ));
            }
            return Ok(r);
        } else if next == 2 {
            tokens.advance();
            assert(block_items(toks, here, parsed) == shift(
                block_items(toks, here + 1, parsed),
                1,
            ));
        } else {
            let statement = match parse_statement(tokens, false) {
                Ok(s) => s,
                Err(e) => {
                    assert(block_items(toks, here, parsed) is Err);
                    return Err(e);
                },
            };
            assert(block_items(toks, here, parsed) == shift(
                block_items(toks, tokens.position(), parsed.push(statement@)),
                (tokens.position() - here) as nat,
            ));
            body.push(statement);
            assert(stmts_view(body@) =~= parsed.push(statement@));
        }
    }
}

} // verus!
