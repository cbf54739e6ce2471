//! Function declarations.
use vstd::prelude::*;
use crate::ast::{annotations_view, lemma_annotation_view, lemma_stmt_view, params_view, stmts_view, Annotation, AnnotationView, FunctionParam, ParamView, Stmt, StmtView};
use crate::parser::block::{parse_block, skip_newline};
use crate::parser::expressions::{parse_arguments, parse_expression};
use crate::parser::grammar::{
    agrees,
    annotations,
    function_declaration,
    parameters,
    shift,
    tokens_left,
};
use crate::parser::variables::parse_type;
use crate::parser::StatementResult;
use crate::tokens::{Scanner, Token};
use crate::types::DataType;

verus! {

/// Parses the annotations in front of a function declaration; there may be
/// none.
pub fn parse_annotations(tokens: &mut Scanner) -> (r: Result<Vec<Annotation>, &'static str>)
    ensures
        final(tokens).all() == old(tokens).all(),
        match annotations(old(tokens).all(), old(tokens).position(), Seq::empty()) {
            Ok((v, n)) => r is Ok && annotations_view(r->Ok_0@) == v && final(tokens).position()
                == old(tokens).position() + n,
            Err(e) => r is Err && r->Err_0@ == e,
        },
    decreases tokens_left(old(tokens).all(), old(tokens).position()), 23nat,
{
    broadcast use lemma_annotation_view;

    let ghost toks = tokens.all();
    let ghost start = tokens.position();
    let mut notes: Vec<Annotation> = Vec::new();
    assert(annotations_view(notes@) =~= Seq::<AnnotationView>::empty());
    loop
        invariant
            tokens.all() == toks,
            toks == old(tokens).all(),
            start == old(tokens).position(),
            tokens.position() >= start,
            annotations(toks, start, Seq::empty()) == shift(
                annotations(toks, tokens.position(), annotations_view(notes@)),
                (tokens.position() - start) as nat,
            ),
        decreases tokens_left(toks, tokens.position()),
    {
        let ghost here = tokens.position();
        let name = match tokens.peek() {
            Some(Token::Annotation(name)) => name.clone(),
            _ => {
                return Ok(notes);
            },
        };
        tokens.advance();
        let has_list = match tokens.peek() {
            Some(Token::OpenParen) => true,
            _ => false,
        };
        let args = if has_list {
            tokens.advance();
            match parse_arguments(
                tokens,
                "Expected a comma or closing parenthesis in the annotation",
            ) {
                Ok(a) => a,
                Err(e) => {
                    return Err(e);
                },
            }
        } else {
            let none: Vec<Stmt> = Vec::new();
            assert(stmts_view(none@) =~= Seq::<StmtView>::empty());
            none
        };
        skip_newline(tokens);
        let ghost before = annotations_view(notes@);
        let note = Annotation { name, args };
        proof {
            lemma_annotation_view(&note);
            assert(annotations(toks, here, before) == shift(
                annotations(toks, tokens.position(), before.push(note@)),
                (tokens.position() - here) as nat,
            ));
        }
        notes.push(note);
        assert(annotations_view(notes@) =~= before.push(note@));
    }
}

/// Parses the parameters of a function declaration after the opening
/// parenthesis, up to and with the closing one.
pub fn parse_parameters(tokens: &mut Scanner) -> (r: Result<Vec<FunctionParam>, &'static str>)
    ensures
        final(tokens).all() == old(tokens).all(),
        match parameters(old(tokens).all(), old(tokens).position(), Seq::empty()) {
            Ok((v, n)) => r is Ok && params_view(r->Ok_0@) == v && final(tokens).position()
                == old(tokens).position() + n,
            Err(e) => r is Err && r->Err_0@ == e,
        },
    decreases tokens_left(old(tokens).all(), old(tokens).position()), 23nat,
{
    let ghost toks = tokens.all();
    let ghost start = tokens.position();
    let mut params: Vec<FunctionParam> = Vec::new();
    assert(params_view(params@) =~= Seq::<ParamView>::empty());
    loop
        invariant
            tokens.all() == toks,
            toks == old(tokens).all(),
            start == old(tokens).position(),
            tokens.position() >= start,
            parameters(toks, start, Seq::empty()) == shift(
                parameters(toks, tokens.position(), params_view(params@)),
                (tokens.position() - start) as nat,
            ),
        decreases tokens_left(toks, tokens.position()),
    {
        let next: u8 = match tokens.peek() {
            Some(Token::NewLine) => 1,
            Some(Token::CloseParen) => 2,
            Some(Token::Word(_)) => 3,
            _ => 0,
        };
        if next == 0 {
            return Err("Expected a parameter or a closing parenthesis");
        } else if next == 1 {
            tokens.advance();
        } else if next == 2 {
            tokens.advance();
            return Ok(params);
        } else {
            let name = match tokens.peek() {
                Some(Token::Word(name)) => name.clone(),
                _ => {
                    return Err("Expected a parameter or a closing parenthesis");
                },
            };
            tokens.advance();
            match tokens.peek() {
                Some(Token::Colon) => {},
                _ => {
                    return Err("Expected a colon after the parameter name");
                },
            }
            tokens.advance();
            let data_type = match parse_type(tokens) {
                Ok(t) => t,
                Err(e) => {
                    return Err(e);
                },
            };
            let has_default = match tokens.peek() {
                Some(Token::Equal) => true,
                _ => false,
            };
            let mut default_value: Option<Box<Stmt>> = None;
            if has_default {
                tokens.advance();
                match parse_expression(tokens) {
                    Ok(value) => {
                        default_value = Some(Box::new(value));
                    },
                    Err(e) => {
                        return Err(e);
                    },
                }
            }
            let has_comma = match tokens.peek() {
                Some(Token::Comma) => true,
                _ => false,
            };
            if has_comma {
                tokens.advance();
            }
            let ghost before = params_view(params@);
            let param = FunctionParam { name, data_type, default_value };
            params.push(param);
            assert(params_view(params@) =~= before.push(param@));
        }
    }
}

/// Parses a function declaration with its annotations.
#[verifier::rlimit(80)]
pub fn parse_func_declaration(tokens: &mut Scanner) -> (r: StatementResult)
    ensures
        final(tokens).all() == old(tokens).all(),
        agrees(
            r,
            function_declaration(old(tokens).all(), old(tokens).position()),
            old(tokens).position(),
            final(tokens).position(),
        ),
    decreases tokens_left(old(tokens).all(), old(tokens).position()), 30nat,
{
    let annotations = match parse_annotations(tokens) {
        Ok(a) => a,
        Err(e) => {
            return Err(e);
        },
    };
    match tokens.peek() {
        Some(Token::Func) => {},
        _ => {
            return Err("Expected the 'func' keyword");
        },
    }
    tokens.advance();
    let name = match tokens.peek() {
        Some(Token::Word(name)) => name.clone(),
        _ => {
            return Err("Expected the function name");
        },
    };
    tokens.advance();
    match tokens.peek() {
        Some(Token::OpenParen) => {},
        _ => {
            return Err("Expected an opening parenthesis");
        },
    }
    tokens.advance();
    let params = match parse_parameters(tokens) {
        Ok(p) => p,
        Err(e) => {
            return Err(e);
        },
    };
    let next: u8 = match tokens.peek() {
        Some(Token::OpenBrace) => 1,
        Some(Token::Arrow) => 2,
        _ => 0,
    };
    let return_type = if next == 1 {
        DataType::default()
    } else if next == 2 {
        tokens.advance();
        match parse_type(tokens) {
            Ok(t) => t,
            Err(e) => {
                return Err(e);
            },
        }
    } else {
        return Err("Missing a colon after the function name or a return type");
    };
    let body = match parse_block(tokens) {
        Ok(b) => b,
        Err(e) => {
            return Err(e);
        },
    };
    let r = Stmt::FunctionDeclaration {
        annotations,
        name,
        params,
        return_type,
        block: Box::new(body),
    };
    proof {
        lemma_stmt_view(&r);
    }
    Ok(r)
}

} // verus!
