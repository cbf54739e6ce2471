//! The parser: tokens to a program.
//!
//! Parsing is recursive descent with one function for each form of the
//! grammar. Each function either gives the tree that the grammar asks for
//! at the stream's position or the message of the first error. There is no
//! partial result.
use vstd::prelude::*;
use crate::ast::{stmts_view, Program, ProgramView, Stmt, StmtView};
use crate::parser::block::{parse_block, skip_newline};
use crate::parser::expressions::parse_expression;
use crate::parser::funcs::parse_func_declaration;
use crate::parser::grammar::{agrees, program_from, statement, tokens_left};
use crate::parser::ifs::parse_if_statement;
use crate::parser::imports::parse_import;
use crate::parser::return_statements::{can_start_expression, parse_return_statement};
use crate::parser::variables::parse_variable_declaration;
use crate::tokens::{Scanner, Token};

pub mod block;
pub mod expressions;
pub mod funcs;
pub mod grammar;
pub mod ifs;
pub mod imports;
pub mod laws;
pub mod return_statements;
pub mod strings;
pub mod variables;
use crate::parser::laws::{lemma_program_is_laid_out, program_ok};

verus! {

/// The stream of tokens that the parser reads.
pub type TokenStream = Scanner;

/// The result of parsing one statement.
pub type StatementResult = Result<Stmt, &'static str>;

/// The result of parsing several statements.
pub type MultiStatementResult = Result<Vec<Stmt>, &'static str>;

/// The result of parsing a program.
pub type ProgramResult = Result<Program, &'static str>;

/// Parses one statement with the statement end after it, if there is one.
/// Imports and function declarations are accepted only where `top_level`
/// says that the statement stands at the top level of a program.
pub fn parse_statement(tokens: &mut Scanner, top_level: bool) -> (r: StatementResult)
    ensures
        final(tokens).all() == old(tokens).all(),
        agrees(
            r,
            statement(old(tokens).all(), old(tokens).position(), top_level),
            old(tokens).position(),
            final(tokens).position(),
        ),
    decreases tokens_left(old(tokens).all(), old(tokens).position()), 40nat,
{
    let kind: u8 = match tokens.peek() {
        None => {
            return Err("Unexpected end of tokens at beginning of line");
        },
        Some(t) => match t {
            Token::Var | Token::Const => 1,
            Token::If => 2,
            Token::Annotation(_) | Token::Func => 3,
            Token::Import => 4,
            Token::OpenBrace => 5,
            Token::Return => 6,
            _ => if can_start_expression(t) {
                7
            } else {
                0
            },
        },
    };
    let parsed = if kind == 1 {
        parse_variable_declaration(tokens)
    } else if kind == 2 {
        parse_if_statement(tokens)
    } else if kind == 3 {
        if top_level {
            parse_func_declaration(tokens)
        } else {
            Err("Functions can only be declared at the top level")
        }
    } else if kind == 4 {
        if top_level {
            parse_import(tokens)
        } else {
            Err("Imports can only stand at the top level")
        }
    } else if kind == 5 {
        parse_block(tokens)
    } else if kind == 6 {
        parse_return_statement(tokens)
    } else if kind == 7 {
        parse_expression(tokens)
    } else {
        Err("Unexpected token")
    };
    match parsed {
        Ok(s) => {
            skip_newline(tokens);
            Ok(s)
        },
        Err(e) => Err(e),
    }
}

/// Parses a program from the stream's position to its end. Each top-level
/// statement goes to one of the program's three lists: an import to
/// `imports`, a function declaration to `functions`, anything else to
/// `body`. The result is the whole program or the first error; there is no
/// partial program.
pub fn parse(tokens: &mut Scanner) -> (r: ProgramResult)
    ensures
        final(tokens).all() == old(tokens).all(),
        match program_from(
            old(tokens).all(),
            old(tokens).position(),
            ProgramView { imports: Seq::empty(), functions: Seq::empty(), body: Seq::empty() },
        ) {
            Ok(p) => {
                &&& r is Ok
                &&& r->Ok_0@ == p
                &&& final(tokens).position() == final(tokens).all().len()
                &&& program_ok(p)
            },
            Err(e) => r is Err && r->Err_0@ == e,
        },
{
    proof {
        lemma_program_is_laid_out(
            tokens.all(),
            tokens.position(),
            ProgramView { imports: Seq::empty(), functions: Seq::empty(), body: Seq::empty() },
        );
    }
    let ghost toks = tokens.all();
    let ghost start = tokens.position();
    let ghost empty = ProgramView {
        imports: Seq::empty(),
        functions: Seq::empty(),
        body: Seq::empty(),
    };
    let mut imports: Vec<Stmt> = Vec::new();
    let mut functions: Vec<Stmt> = Vec::new();
    let mut body: Vec<Stmt> = Vec::new();
    assert(stmts_view(imports@) =~= Seq::<StmtView>::empty());
    assert(stmts_view(functions@) =~= Seq::<StmtView>::empty());
    assert(stmts_view(body@) =~= Seq::<StmtView>::empty());
    loop
        invariant
            tokens.all() == toks,
            toks == old(tokens).all(),
            start == old(tokens).position(),
            empty == (ProgramView {
                imports: Seq::empty(),
                functions: Seq::empty(),
                body: Seq::empty(),
            }),
            program_from(toks, start, empty) matches Ok(p) ==> program_ok(p),
            program_from(toks, start, empty) == program_from(
                toks,
                tokens.position(),
                ProgramView {
                    imports: stmts_view(imports@),
                    functions: stmts_view(functions@),
                    body: stmts_view(body@),
                },
            ),
        decreases tokens_left(toks, tokens.position()),
    {
        let next: u8 = match tokens.peek() {
            None => 0,
            Some(Token::NewLine) => 1,
            Some(_) => 2,
        };
        if next == 0 {
            return Ok(Program { imports, functions, body });
        } else if next == 1 {
            tokens.advance();
        } else {
            let statement = match parse_statement(tokens, true) {
                Ok(s) => s,
                Err(e) => {
                    return Err(e);
                },
            };
            let ghost before_imports = stmts_view(imports@);
            let ghost before_functions = stmts_view(functions@);
            let ghost before_body = stmts_view(body@);
            let ghost s = statement@;
            match statement {
                Stmt::ImportModule { .. }
                | Stmt::ImportModules { .. }
                | Stmt::ImportEverything { .. }
                | Stmt::ImportCollection { .. } => {
                    imports.push(statement);
                    assert(stmts_view(imports@) =~= before_imports.push(s));
                },
                Stmt::FunctionDeclaration { .. } => {
                    functions.push(statement);
                    assert(stmts_view(functions@) =~= before_functions.push(s));
                },
                _ => {
                    body.push(statement);
                    assert(stmts_view(body@) =~= before_body.push(s));
                },
            }
        }
    }
}

} // verus!
