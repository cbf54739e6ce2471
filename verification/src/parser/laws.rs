//! What holds of every program that the parser gives: each top-level
//! statement stands in the list that is meant for it, functions and
//! imports stand nowhere but at the top level, and the body of every if
//! statement and of every function is a block.
use vstd::prelude::*;
use crate::ast::{AnnotationView, ParamView, ProgramView, StmtView};
use crate::parser::grammar::{annotations, arguments, binary, block, block_items, classify, expression, function_declaration, if_statement, import_statement, more_arguments, newline_at, operand, operation, operation_rest, operator_at_level, parameters, program_from, return_statement, shift, starts_expression, statement, term, token_at, tokens_left, type_at, variable_after_keyword, variable_declaration};
use crate::tokens::{Spanned, TokenView};

verus! {

/// Whether a statement is an import.
pub open spec fn is_import(s: StmtView) -> bool {
    s is ImportModule || s is ImportModules || s is ImportEverything || s is ImportCollection
}

/// Whether a statement can stand inside a block or an expression: neither
/// it nor anything in it is an import or a function declaration, and the
/// body of every if statement in it is a block, its else branch a block or
/// an if statement.
pub open spec fn nested_ok(s: StmtView) -> bool
    decreases s,
{
    match s {
        StmtView::Declaration { value, .. } => match value {
            Some(v) => nested_ok(*v),
            None => true,
        },
        StmtView::Block { body } => forall|i: int|
            0 <= i < body.len() ==> nested_ok(#[trigger] body[i]),
        StmtView::IfStatement { condition, block, else_block } => {
            &&& nested_ok(*condition)
            &&& *block is Block
            &&& nested_ok(*block)
            &&& match else_block {
                Some(e) => (*e is Block || *e is IfStatement) && nested_ok(*e),
                None => true,
            }
        },
        StmtView::FunctionCall { args, .. } => forall|i: int|
            0 <= i < args.len() ==> nested_ok(#[trigger] args[i]),
        StmtView::BinaryExpression { left, right, .. } => nested_ok(*left) && nested_ok(*right),
        StmtView::UnaryExpression { value, .. } => nested_ok(*value),
        StmtView::ReturnStatement { value } => match value {
            Some(v) => nested_ok(*v),
            None => true,
        },
        StmtView::Identifier { .. }
        | StmtView::Integer { .. }
        | StmtView::Float { .. }
        | StmtView::Boolean { .. }
        | StmtView::String { .. } => true,
        _ => false,
    }
}

/// Whether every statement of a list can stand inside a block.
pub open spec fn all_nested_ok(v: Seq<StmtView>) -> bool {
    forall|i: int| 0 <= i < v.len() ==> nested_ok(#[trigger] v[i])
}

/// Whether the default value of a parameter, if it has one, is an
/// expression without imports and function declarations.
pub open spec fn param_ok(p: ParamView) -> bool {
    match p.default_value {
        Some(v) => nested_ok(*v),
        None => true,
    }
}

/// Whether a statement is a function declaration whose body is a block,
/// with no import and no function declaration anywhere in it.
pub open spec fn function_ok(s: StmtView) -> bool {
    match s {
        StmtView::FunctionDeclaration { annotations, params, block, .. } => {
            &&& *block is Block
            &&& nested_ok(*block)
            &&& forall|i: int| 0 <= i < params.len() ==> param_ok(#[trigger] params[i])
            &&& forall|i: int|
                0 <= i < annotations.len() ==> all_nested_ok((#[trigger] annotations[i]).args)
        },
        _ => false,
    }
}

/// Whether a program is laid out as the later stages expect: `imports`
/// holds imports and nothing else, `functions` function declarations and
/// nothing else, and `body` neither, at any depth.
pub open spec fn program_ok(p: ProgramView) -> bool {
    &&& forall|i: int| 0 <= i < p.imports.len() ==> is_import(#[trigger] p.imports[i])
    &&& forall|i: int| 0 <= i < p.functions.len() ==> function_ok(#[trigger] p.functions[i])
    &&& all_nested_ok(p.body)
}

proof fn lemma_push_ok(v: Seq<StmtView>, s: StmtView)
    requires
        all_nested_ok(v),
        nested_ok(s),
    ensures
        all_nested_ok(v.push(s)),
{
    assert forall|i: int| 0 <= i < v.push(s).len() implies nested_ok(#[trigger] v.push(s)[i]) by {
        if i < v.len() {
            assert(v.push(s)[i] == v[i]);
        }
    }
}

proof fn lemma_expression(toks: Seq<Spanned>, pos: int)
    ensures
        expression(toks, pos) matches Ok((v, _)) ==> nested_ok(v),
    decreases tokens_left(toks, pos), 20nat,
{
    lemma_operation(toks, pos, 4);
}

proof fn lemma_operation(toks: Seq<Spanned>, pos: int, level: nat)
    ensures
        operation(toks, pos, level) matches Ok((v, _)) ==> nested_ok(v),
    decreases tokens_left(toks, pos), 2 * level + 3,
{
    lemma_operand(toks, pos, level);
    match operand(toks, pos, level) {
        Err(_) => {},
        Ok((left, n)) => {
            lemma_operation_rest(toks, pos + n, level, left);
        },
    }
}

proof fn lemma_operand(toks: Seq<Spanned>, pos: int, level: nat)
    ensures
        operand(toks, pos, level) matches Ok((v, _)) ==> nested_ok(v),
    decreases tokens_left(toks, pos), 2 * level + 2,
{
    if level == 0 {
        lemma_term(toks, pos);
    } else {
        lemma_operation(toks, pos, (level - 1) as nat);
    }
}

proof fn lemma_operation_rest(toks: Seq<Spanned>, pos: int, level: nat, left: StmtView)
    requires
        nested_ok(left),
    ensures
        operation_rest(toks, pos, level, left) matches Ok((v, _)) ==> nested_ok(v),
    decreases tokens_left(toks, pos), 0nat,
{
    match operator_at_level(level, token_at(toks, pos)) {
        None => {},
        Some(operator) => {
            lemma_operand(toks, pos + 1, level);
            match operand(toks, pos + 1, level) {
                Err(_) => {},
                Ok((right, n)) => {
                    lemma_operation_rest(
                        toks,
                        pos + 1 + n,
                        level,
                        binary(left, right, operator),
                    );
                },
            }
        },
    }
}

proof fn lemma_term(toks: Seq<Spanned>, pos: int)
    ensures
        term(toks, pos) matches Ok((v, _)) ==> nested_ok(v),
    decreases tokens_left(toks, pos), 1nat,
{
    match token_at(toks, pos) {
        Some(TokenView::OpenParen) => {
            lemma_expression(toks, pos + 1);
        },
        Some(TokenView::Minus) => {
            lemma_term(toks, pos + 1);
        },
        Some(TokenView::Not) => {
            lemma_term(toks, pos + 1);
        },
        Some(TokenView::Word(name)) => {
            if token_at(toks, pos + 1) == Some(TokenView::OpenParen) {
                lemma_arguments(
                    toks,
                    pos + 2,
                    "Expected a comma or closing parenthesis in the function call"@,
                );
            }
        },
        _ => {},
    }
}

proof fn lemma_arguments(toks: Seq<Spanned>, pos: int, message: Seq<char>)
    ensures
        arguments(toks, pos, message) matches Ok((v, _)) ==> all_nested_ok(v),
    decreases tokens_left(toks, pos), 22nat,
{
    if token_at(toks, pos) != Some(TokenView::CloseParen) {
        lemma_more_arguments(toks, pos, message, Seq::empty());
    }
}

proof fn lemma_more_arguments(
    toks: Seq<Spanned>,
    pos: int,
    message: Seq<char>,
    parsed: Seq<StmtView>,
)
    requires
        all_nested_ok(parsed),
    ensures
        more_arguments(toks, pos, message, parsed) matches Ok((v, _)) ==> all_nested_ok(v),
    decreases tokens_left(toks, pos), 21nat,
{
    lemma_expression(toks, pos);
    match expression(toks, pos) {
        Err(_) => {},
        Ok((argument, n)) => {
            lemma_push_ok(parsed, argument);
            match token_at(toks, pos + n) {
                Some(TokenView::Comma) => {
                    lemma_more_arguments(toks, pos + n + 1, message, parsed.push(argument));
                },
                _ => {},
            }
        },
    }
}

proof fn lemma_variable_declaration(toks: Seq<Spanned>, pos: int)
    ensures
        variable_declaration(toks, pos) matches Ok((v, _)) ==> nested_ok(v),
{
    lemma_variable_after_keyword(toks, pos, true);
    lemma_variable_after_keyword(toks, pos, false);
}

proof fn lemma_variable_after_keyword(toks: Seq<Spanned>, pos: int, mutable: bool)
    ensures
        variable_after_keyword(toks, pos, mutable) matches Ok((v, _)) ==> nested_ok(v),
{
    if token_at(toks, pos) is Some {
        match token_at(toks, pos + 1) {
            Some(TokenView::Word(name)) => {
                let n: nat = if token_at(toks, pos + 2) == Some(TokenView::Colon) {
                    match type_at(toks, pos + 3) {
                        Err(e) => 0nat,
                        Ok((t, n)) => n + 1,
                    }
                } else {
                    0nat
                };
                lemma_expression(toks, pos + 3 + n);
            },
            _ => {},
        }
    }
}

proof fn lemma_return_statement(toks: Seq<Spanned>, pos: int)
    ensures
        return_statement(toks, pos) matches Ok((v, _)) ==> nested_ok(v),
{
    lemma_expression(toks, pos + 1);
}

proof fn lemma_if_statement(toks: Seq<Spanned>, pos: int)
    ensures
        if_statement(toks, pos) matches Ok((v, _)) ==> nested_ok(v) && v is IfStatement,
    decreases tokens_left(toks, pos), 30nat,
{
    match token_at(toks, pos) {
        Some(TokenView::If) => {
            lemma_expression(toks, pos + 1);
            match expression(toks, pos + 1) {
                Err(_) => {},
                Ok((condition, n)) => {
                    lemma_block(toks, pos + 1 + n);
                    match block(toks, pos + 1 + n) {
                        Err(_) => {},
                        Ok((body, m)) => {
                            let after = pos + 1 + n + m;
                            if token_at(toks, after) == Some(TokenView::Else) {
                                match token_at(toks, after + 1) {
                                    Some(TokenView::If) => {
                                        lemma_if_statement(toks, after + 1);
                                    },
                                    Some(TokenView::OpenBrace) => {
                                        lemma_block(toks, after + 1);
                                    },
                                    _ => {},
                                }
                            }
                        },
                    }
                },
            }
        },
        _ => {},
    }
}

proof fn lemma_block(toks: Seq<Spanned>, pos: int)
    ensures
        block(toks, pos) matches Ok((v, _)) ==> nested_ok(v) && v is Block,
    decreases tokens_left(toks, pos), 28nat,
{
    let lead = newline_at(toks, pos);
    if token_at(toks, pos + lead) == Some(TokenView::OpenBrace) {
        let open = lead + 1 + newline_at(toks, pos + lead + 1);
        lemma_block_items(toks, pos + open, Seq::empty());
    }
}

proof fn lemma_block_items(toks: Seq<Spanned>, pos: int, parsed: Seq<StmtView>)
    requires
        all_nested_ok(parsed),
    ensures
        block_items(toks, pos, parsed) matches Ok((v, _)) ==> all_nested_ok(v),
    decreases tokens_left(toks, pos), 41nat,
{
    match token_at(toks, pos) {
        None => {},
        Some(TokenView::CloseBrace) => {},
        Some(TokenView::NewLine) => {
            lemma_block_items(toks, pos + 1, parsed);
        },
        Some(_) => {
            lemma_statement(toks, pos, false);
            match statement(toks, pos, false) {
                Err(_) => {},
                Ok((s, n)) => {
                    if n != 0 {
                        lemma_push_ok(parsed, s);
                        lemma_block_items(toks, pos + n, parsed.push(s));
                    }
                },
            }
        },
    }
}

proof fn lemma_annotations(toks: Seq<Spanned>, pos: int, parsed: Seq<AnnotationView>)
    requires
        forall|i: int| 0 <= i < parsed.len() ==> all_nested_ok((#[trigger] parsed[i]).args),
    ensures
        annotations(toks, pos, parsed) matches Ok((v, _)) ==> forall|i: int|
            0 <= i < v.len() ==> all_nested_ok((#[trigger] v[i]).args),
    decreases tokens_left(toks, pos), 23nat,
{
    match token_at(toks, pos) {
        Some(TokenView::Annotation(name)) => {
            let message = "Expected a comma or closing parenthesis in the annotation"@;
            lemma_arguments(toks, pos + 2, message);
            let listed: Result<(Seq<StmtView>, nat), Seq<char>> = if token_at(toks, pos + 1)
                == Some(TokenView::OpenParen) {
                shift(arguments(toks, pos + 2, message), 1)
            } else {
                Ok((Seq::empty(), 0))
            };
            match listed {
                Err(_) => {},
                Ok((args, n)) => {
                    let taken = 1 + n + newline_at(toks, pos + 1 + n);
                    let next = parsed.push(AnnotationView { name, args });
                    assert forall|i: int| 0 <= i < next.len() implies all_nested_ok(
                        (#[trigger] next[i]).args,
                    ) by {
                        if i < parsed.len() {
                            assert(next[i] == parsed[i]);
                        }
                    }
                    lemma_annotations(toks, pos + taken, next);
                },
            }
        },
        _ => {},
    }
}

proof fn lemma_parameters(toks: Seq<Spanned>, pos: int, parsed: Seq<ParamView>)
    requires
        forall|i: int| 0 <= i < parsed.len() ==> param_ok(#[trigger] parsed[i]),
    ensures
        parameters(toks, pos, parsed) matches Ok((v, _)) ==> forall|i: int|
            0 <= i < v.len() ==> param_ok(#[trigger] v[i]),
    decreases tokens_left(toks, pos), 23nat,
{
    match token_at(toks, pos) {
        Some(TokenView::NewLine) => {
            lemma_parameters(toks, pos + 1, parsed);
        },
        Some(TokenView::Word(name)) => {
            if token_at(toks, pos + 1) == Some(TokenView::Colon) {
                match type_at(toks, pos + 2) {
                    Err(_) => {},
                    Ok((data_type, _)) => {
                        lemma_expression(toks, pos + 4);
                        let default: Result<
                            (Option<Box<StmtView>>, nat),
                            Seq<char>,
                        > = if token_at(toks, pos + 3) == Some(TokenView::Equal) {
                            match expression(toks, pos + 4) {
                                Err(e) => Err(e),
                                Ok((value, n)) => Ok((Some(Box::new(value)), n + 1)),
                            }
                        } else {
                            Ok((None, 0))
                        };
                        match default {
                            Err(_) => {},
                            Ok((default_value, n)) => {
                                let taken = 3 + n + if token_at(toks, pos + 3 + n) == Some(
                                    TokenView::Comma,
                                ) {
                                    1nat
                                } else {
                                    0nat
                                };
                                let next = parsed.push(
                                    ParamView { name, data_type, default_value },
                                );
                                assert forall|i: int| 0 <= i < next.len() implies param_ok(
                                    #[trigger] next[i],
                                ) by {
                                    if i < parsed.len() {
                                        assert(next[i] == parsed[i]);
                                    }
                                }
                                lemma_parameters(toks, pos + taken, next);
                            },
                        }
                    },
                }
            }
        },
        _ => {},
    }
}

proof fn lemma_function_declaration(toks: Seq<Spanned>, pos: int)
    ensures
        function_declaration(toks, pos) matches Ok((v, _)) ==> function_ok(v),
    decreases tokens_left(toks, pos), 30nat,
{
    lemma_annotations(toks, pos, Seq::empty());
    match annotations(toks, pos, Seq::empty()) {
        Err(_) => {},
        Ok((notes, a)) => {
            let at = pos + a;
            if token_at(toks, at) == Some(TokenView::Func) {
                match token_at(toks, at + 1) {
                    Some(TokenView::Word(name)) => {
                        if token_at(toks, at + 2) == Some(TokenView::OpenParen) {
                            lemma_parameters(toks, at + 3, Seq::empty());
                            match parameters(toks, at + 3, Seq::empty()) {
                                Err(_) => {},
                                Ok((params, n)) => {
                                    let m: nat = match token_at(toks, at + 3 + n) {
                                        Some(TokenView::OpenBrace) => 0nat,
                                        Some(TokenView::Arrow) => match type_at(
                                            toks,
                                            at + 4 + n,
                                        ) {
                                            Ok((_, k)) => k + 1,
                                            Err(_) => 0nat,
                                        },
                                        _ => 0nat,
                                    };
                                    lemma_block(toks, at + 3 + n + m);
                                },
                            }
                        }
                    },
                    _ => {},
                }
            }
        },
    }
}

proof fn lemma_import_statement(toks: Seq<Spanned>, pos: int)
    ensures
        import_statement(toks, pos) matches Ok((v, _)) ==> is_import(v),
{
}

/// A statement of a block holds no import and no function declaration. A
/// statement of the top level is an import, a function declaration whose
/// body holds neither, or holds neither itself.
proof fn lemma_statement(toks: Seq<Spanned>, pos: int, top_level: bool)
    ensures
        statement(toks, pos, top_level) matches Ok((v, _)) ==> if top_level {
            is_import(v) || function_ok(v) || nested_ok(v)
        } else {
            nested_ok(v)
        },
    decreases tokens_left(toks, pos), 40nat,
{
    match token_at(toks, pos) {
        None => {},
        Some(first) => {
            match first {
                TokenView::Var | TokenView::Const => {
                    lemma_variable_declaration(toks, pos);
                },
                TokenView::If => {
                    lemma_if_statement(toks, pos);
                },
                TokenView::Annotation(_) | TokenView::Func => {
                    if top_level {
                        lemma_function_declaration(toks, pos);
                    }
                },
                TokenView::Import => {
                    if top_level {
                        lemma_import_statement(toks, pos);
                    }
                },
                TokenView::OpenBrace => {
                    lemma_block(toks, pos);
                },
                TokenView::Return => {
                    lemma_return_statement(toks, pos);
                },
                _ => {
                    if starts_expression(first) {
                        lemma_expression(toks, pos);
                    }
                },
            }
        },
    }
}

proof fn lemma_classify(p: ProgramView, s: StmtView)
    requires
        program_ok(p),
        is_import(s) || function_ok(s) || nested_ok(s),
    ensures
        program_ok(classify(p, s)),
{
    let q = classify(p, s);
    assert forall|i: int| 0 <= i < q.imports.len() implies is_import(#[trigger] q.imports[i]) by {
        if i < p.imports.len() {
            assert(q.imports[i] == p.imports[i]);
        }
    }
    assert forall|i: int| 0 <= i < q.functions.len() implies function_ok(
        #[trigger] q.functions[i],
    ) by {
        if i < p.functions.len() {
            assert(q.functions[i] == p.functions[i]);
        }
    }
    assert forall|i: int| 0 <= i < q.body.len() implies nested_ok(#[trigger] q.body[i]) by {
        if i < p.body.len() {
            assert(q.body[i] == p.body[i]);
        }
    }
}

/// The parser's output is laid out as the later stages expect. A program
/// that is parsed holds its imports in `imports`, its function
/// declarations in `functions` and everything else in `body`; no import
/// and no function declaration stands inside a block, a function or an
/// expression; and the body of every if statement and of every function
/// is a block.
pub proof fn lemma_program_is_laid_out(toks: Seq<Spanned>, pos: int, parsed: ProgramView)
    requires
        program_ok(parsed),
    ensures
        program_from(toks, pos, parsed) matches Ok(p) ==> program_ok(p),
    decreases tokens_left(toks, pos), 41nat,
{
    match token_at(toks, pos) {
        None => {},
        Some(TokenView::NewLine) => {
            lemma_program_is_laid_out(toks, pos + 1, parsed);
        },
        Some(_) => {
            lemma_statement(toks, pos, true);
            match statement(toks, pos, true) {
                Err(_) => {},
                Ok((s, n)) => {
                    if n != 0 {
                        lemma_classify(parsed, s);
                        lemma_program_is_laid_out(toks, pos + n, classify(parsed, s));
                    }
                },
            }
        },
    }
}

} // verus!
