//! Import statements.
use vstd::prelude::*;
use crate::ast::{items_view, opt_name_view, ImportItem, Stmt};
use crate::parser::grammar::{agrees, import_items, import_statement, shift, tokens_left};
use crate::parser::StatementResult;
use crate::tokens::{Scanner, Token};

verus! {

/// Parses the items of an import: names separated by commas, each with an
/// optional alias after `as`.
pub fn read_import_items(tokens: &mut Scanner) -> (r: Result<
    Vec<(String, Option<String>)>,
    &'static str,
>)
    ensures
        final(tokens).all() == old(tokens).all(),
        match import_items(old(tokens).all(), old(tokens).position(), Seq::empty()) {
            Ok((v, n)) => r is Ok && items_view(r->Ok_0@) == v && final(tokens).position()
                == old(tokens).position() + n && n >= 1,
            Err(e) => r is Err && r->Err_0@ == e,
        },
{
    let ghost toks = tokens.all();
    let ghost start = tokens.position();
    let mut items: Vec<(String, Option<String>)> = Vec::new();
    assert(items_view(items@) =~= Seq::<ImportItem>::empty());
    loop
        invariant
            tokens.all() == toks,
            toks == old(tokens).all(),
            start == old(tokens).position(),
            tokens.position() >= start,
            import_items(toks, start, Seq::empty()) == shift(
                import_items(toks, tokens.position(), items_view(items@)),
                (tokens.position() - start) as nat,
            ),
        decreases tokens_left(toks, tokens.position()),
    {
        let name = match tokens.peek() {
            Some(Token::Word(name)) => name.clone(),
            _ => {
                return Err("Expected import item name");
            },
        };
        tokens.advance();
        let has_alias = match tokens.peek() {
            Some(Token::As) => true,
            _ => false,
        };
        let mut alias: Option<String> = None;
        if has_alias {
            tokens.advance();
            match tokens.peek() {
                Some(Token::Word(a)) => {
                    alias = Some(a.clone());
                },
                _ => {
                    return Err("Expected an alias for the imported item after the 'as' keyword");
                },
            }
            tokens.advance();
        }
        let ghost before = items_view(items@);
        let ghost item = (name@, opt_name_view(alias));
        items.push((name, alias));
        assert(items_view(items@) =~= before.push(item));
        let has_comma = match tokens.peek() {
            Some(Token::Comma) => true,
            _ => false,
        };
        if has_comma {
            tokens.advance();
        } else {
            return Ok(items);
        }
    }
}

/// Parses an import statement in any of its four forms.
pub fn parse_import(tokens: &mut Scanner) -> (r: StatementResult)
    ensures
        final(tokens).all() == old(tokens).all(),
        agrees(
            r,
            import_statement(old(tokens).all(), old(tokens).position()),
            old(tokens).position(),
            final(tokens).position(),
        ),
{
    match tokens.peek() {
        Some(Token::Import) => {},
        _ => {
            return Err("Expected import statement");
        },
    }
    tokens.advance();
    let everything = match tokens.peek() {
        Some(Token::Multiply) => true,
        _ => false,
    };
    if everything {
        tokens.advance();
        let next: u8 = match tokens.peek() {
            Some(Token::From) => 1,
            Some(Token::As) => 2,
            _ => 0,
        };
        if next == 1 {
            tokens.advance();
            let module = match tokens.peek() {
                Some(Token::Word(module)) => module.clone(),
                _ => {
                    return Err("Expected a module name after the 'from' keyword");
                },
            };
            tokens.advance();
            return Ok(Stmt::ImportEverything { module });
        } else if next == 2 {
            tokens.advance();
            let alias = match tokens.peek() {
                Some(Token::Word(name)) => name.clone(),
                _ => {
                    return Err("Expected an alias name after the 'as' keyword");
                },
            };
            tokens.advance();
            match tokens.peek() {
                Some(Token::From) => {},
                _ => {
                    return Err("Expected the 'from' keyword after module alias");
                },
            }
            tokens.advance();
            let module = match tokens.peek() {
                Some(Token::Word(module)) => module.clone(),
                _ => {
                    return Err("Expected a module name after the 'from' keyword");
                },
            };
            tokens.advance();
            let mut modules: Vec<(String, Option<String>)> = Vec::new();
            let ghost item = (module@, Some(alias@));
            modules.push((module, Some(alias)));
            assert(items_view(modules@) =~= seq![item]);
            return Ok(Stmt::ImportModules { modules });
        } else {
            return Err("Expected the 'from' or 'as' keyword after '*'");
        }
    }
    let items = match read_import_items(tokens) {
        Ok(i) => i,
        Err(e) => {
            return Err(e);
        },
    };
    let has_from = match tokens.peek() {
        Some(Token::From) => true,
        _ => false,
    };
    if has_from {
        tokens.advance();
        let module = match tokens.peek() {
            Some(Token::Word(module)) => module.clone(),
            _ => {
                return Err("Expected a module name after the 'from' keyword");
            },
        };
        tokens.advance();
        Ok(Stmt::ImportCollection { module, items })
    } else {
        Ok(Stmt::ImportModules { modules: items })
    }
}

} // verus!
