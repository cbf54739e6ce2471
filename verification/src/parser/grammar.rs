//! The grammar of the language, as functions from a list of tokens and a
//! position in it to what is parsed there.
//!
//! Each function gives the syntax tree that starts at the position together
//! with the number of tokens that it spans, or the message of the first
//! error. The parsing functions of this crate are proved to compute exactly
//! these functions.
use vstd::prelude::*;
use crate::ast::{
    AnnotationView,
    BinaryOperator,
    ImportItem,
    ParamView,
    ProgramView,
    StmtView,
    UnaryOperator,
};
use crate::tokens::{Span, Spanned, TokenView};
use crate::types::{type_of_name, DataTypeView};

verus! {

/// What is parsed at a position: a value and the number of tokens that it
/// spans, or the message of the first error.
pub type Parsed<T> = Result<(T, nat), Seq<char>>;

/// The same result, spanning `by` more tokens.
pub open spec fn shift<T>(r: Parsed<T>, by: nat) -> Parsed<T> {
    match r {
        Ok((v, n)) => Ok((v, n + by)),
        Err(e) => Err(e),
    }
}

/// The token at a position; `None` outside the list.
pub open spec fn token_at(toks: Seq<Spanned>, pos: int) -> Option<TokenView> {
    if 0 <= pos < toks.len() {
        Some(toks[pos].0)
    } else {
        None
    }
}

/// The span of the token at a position.
pub open spec fn span_at(toks: Seq<Spanned>, pos: int) -> Span {
    toks[pos].1
}

/// The number of tokens from a position to the end of the list.
pub open spec fn tokens_left(toks: Seq<Spanned>, pos: int) -> nat {
    if pos < toks.len() {
        (toks.len() - pos) as nat
    } else {
        0
    }
}

/// One if the token at the position is a `NewLine`, zero otherwise: the
/// number of tokens that an optional statement end takes there.
pub open spec fn newline_at(toks: Seq<Spanned>, pos: int) -> nat {
    if token_at(toks, pos) == Some(TokenView::NewLine) {
        1
    } else {
        0
    }
}

/// Whether an expression can start with this token.
pub open spec fn starts_expression(t: TokenView) -> bool {
    match t {
        TokenView::Integer(_)
        | TokenView::Float(_)
        | TokenView::Boolean(_)
        | TokenView::String(_)
        | TokenView::OpenParen
        | TokenView::Word(_)
        | TokenView::Minus
        | TokenView::Not => true,
        _ => false,
    }
}

/// The operator of lowest precedence that a token stands for.
pub open spec fn or_operator(t: Option<TokenView>) -> Option<BinaryOperator> {
    match t {
        Some(TokenView::Or) => Some(BinaryOperator::Or),
        _ => None,
    }
}

/// The logical-and operator, if the token is one.
pub open spec fn and_operator(t: Option<TokenView>) -> Option<BinaryOperator> {
    match t {
        Some(TokenView::And) => Some(BinaryOperator::And),
        _ => None,
    }
}

/// The comparison operator that a token stands for.
pub open spec fn comparison_operator(t: Option<TokenView>) -> Option<BinaryOperator> {
    match t {
        Some(TokenView::GreaterThan) => Some(BinaryOperator::GreaterThan),
        Some(TokenView::GreaterThanEqual) => Some(BinaryOperator::GreaterThanEqual),
        Some(TokenView::EqualEqual) => Some(BinaryOperator::Equal),
        Some(TokenView::NotEqual) => Some(BinaryOperator::NotEqual),
        Some(TokenView::LessThanEqual) => Some(BinaryOperator::LessThanEqual),
        Some(TokenView::LessThan) => Some(BinaryOperator::LessThan),
        _ => None,
    }
}

/// The additive operator that a token stands for.
pub open spec fn additive_operator(t: Option<TokenView>) -> Option<BinaryOperator> {
    match t {
        Some(TokenView::Plus) => Some(BinaryOperator::Add),
        Some(TokenView::Minus) => Some(BinaryOperator::Subtract),
        _ => None,
    }
}

/// The multiplicative operator that a token stands for.
pub open spec fn multiplicative_operator(t: Option<TokenView>) -> Option<BinaryOperator> {
    match t {
        Some(TokenView::Multiply) => Some(BinaryOperator::Multiply),
        Some(TokenView::Divide) => Some(BinaryOperator::Divide),
        Some(TokenView::Modulus) => Some(BinaryOperator::Modulus),
        _ => None,
    }
}

/// The operator of a precedence level that a token stands for. The levels
/// are, from the loosest: 4 logical or, 3 logical and, 2 comparison,
/// 1 additive, 0 multiplicative.
pub open spec fn operator_at_level(level: nat, t: Option<TokenView>) -> Option<BinaryOperator> {
    if level == 4 {
        or_operator(t)
    } else if level == 3 {
        and_operator(t)
    } else if level == 2 {
        comparison_operator(t)
    } else if level == 1 {
        additive_operator(t)
    } else {
        multiplicative_operator(t)
    }
}

/// A binary expression.
pub open spec fn binary(left: StmtView, right: StmtView, operator: BinaryOperator) -> StmtView {
    StmtView::BinaryExpression { left: Box::new(left), right: Box::new(right), operator }
}

/// An expression: a chain of operands of the loosest precedence level.
pub open spec fn expression(toks: Seq<Spanned>, pos: int) -> Parsed<StmtView>
    decreases tokens_left(toks, pos), 20nat,
{
    operation(toks, pos, 4)
}

/// A chain of operands of one precedence level, joined by operators of
/// that level. The operators associate to the left. The operands of a
/// level are chains of the next tighter level; those of the tightest level
/// are terms.
pub open spec fn operation(toks: Seq<Spanned>, pos: int, level: nat) -> Parsed<StmtView>
    decreases tokens_left(toks, pos), 2 * level + 3,
{
    match operand(toks, pos, level) {
        Err(e) => Err(e),
        Ok((left, n)) => shift(operation_rest(toks, pos + n, level, left), n),
    }
}

/// An operand of a chain of the given level.
pub open spec fn operand(toks: Seq<Spanned>, pos: int, level: nat) -> Parsed<StmtView>
    decreases tokens_left(toks, pos), 2 * level + 2,
{
    if level == 0 {
        term(toks, pos)
    } else {
        operation(toks, pos, (level - 1) as nat)
    }
}

/// What follows the first operand of a chain: any number of operators of
/// the level, each with its right operand. `left` is what was parsed of the
/// chain so far.
pub open spec fn operation_rest(
    toks: Seq<Spanned>,
    pos: int,
    level: nat,
    left: StmtView,
) -> Parsed<StmtView>
    decreases tokens_left(toks, pos), 0nat,
{
    match operator_at_level(level, token_at(toks, pos)) {
        None => Ok((left, 0)),
        Some(operator) => match operand(toks, pos + 1, level) {
            Err(e) => Err(e),
            Ok((right, n)) => shift(
                operation_rest(toks, pos + 1 + n, level, binary(left, right, operator)),
                1 + n,
            ),
        },
    }
}

/// A term: a parenthesized expression, a negated or inverted term, a
/// literal, an identifier or a function call.
pub open spec fn term(toks: Seq<Spanned>, pos: int) -> Parsed<StmtView>
    decreases tokens_left(toks, pos), 1nat,
{
    match token_at(toks, pos) {
        None => Err("Unexpected end of tokens in expression"@),
        Some(TokenView::OpenParen) => match expression(toks, pos + 1) {
            Err(e) => Err(e),
            Ok((inner, n)) => if token_at(toks, pos + 1 + n) == Some(TokenView::CloseParen) {
                Ok((inner, n + 2))
            } else {
                Err("Expected a closing parenthesis"@)
            },
        },
        Some(TokenView::Minus) => match term(toks, pos + 1) {
            Err(e) => Err(e),
            Ok((value, n)) => Ok(
                (
                    StmtView::UnaryExpression {
                        value: Box::new(value),
                        operator: UnaryOperator::Negative,
                    },
                    n + 1,
                ),
            ),
        },
        Some(TokenView::Not) => match term(toks, pos + 1) {
            Err(e) => Err(e),
            Ok((value, n)) => Ok(
                (
                    StmtView::UnaryExpression {
                        value: Box::new(value),
                        operator: UnaryOperator::Not,
                    },
                    n + 1,
                ),
            ),
        },
        Some(TokenView::Integer(value)) => if value >= 0 {
            Ok((StmtView::Integer { value: value as u64, span: span_at(toks, pos) }, 1))
        } else {
            Err("Expected literal"@)
        },
        Some(TokenView::Float(value)) => Ok(
            (StmtView::Float { value, span: span_at(toks, pos) }, 1),
        ),
        Some(TokenView::Boolean(value)) => Ok(
            (StmtView::Boolean { value, span: span_at(toks, pos) }, 1),
        ),
        Some(TokenView::String(value)) => Ok(
            (StmtView::String { value, span: span_at(toks, pos) }, 1),
        ),
        Some(TokenView::Word(name)) => if token_at(toks, pos + 1) == Some(
            TokenView::OpenParen,
        ) {
            match arguments(
                toks,
                pos + 2,
                "Expected a comma or closing parenthesis in the function call"@,
            ) {
                Err(e) => Err(e),
                Ok((args, n)) => Ok(
                    (StmtView::FunctionCall { name, args, span: span_at(toks, pos) }, n + 2),
                ),
            }
        } else {
            Ok((StmtView::Identifier { name, span: span_at(toks, pos) }, 1))
        },
        Some(_) => Err("Unexpected token in expression"@),
    }
}

/// A list of arguments after its opening parenthesis, up to and with the
/// closing one: nothing, or expressions separated by commas. `message` is
/// the error for an argument that neither a comma nor the closing
/// parenthesis follows.
pub open spec fn arguments(toks: Seq<Spanned>, pos: int, message: Seq<char>) -> Parsed<
    Seq<StmtView>,
>
    decreases tokens_left(toks, pos), 22nat,
{
    if token_at(toks, pos) == Some(TokenView::CloseParen) {
        Ok((Seq::empty(), 1))
    } else {
        more_arguments(toks, pos, message, Seq::empty())
    }
}

/// The arguments of a list from a position at which an argument must
/// stand. `parsed` are the arguments before it.
pub open spec fn more_arguments(
    toks: Seq<Spanned>,
    pos: int,
    message: Seq<char>,
    parsed: Seq<StmtView>,
) -> Parsed<Seq<StmtView>>
    decreases tokens_left(toks, pos), 21nat,
{
    match expression(toks, pos) {
        Err(e) => Err(e),
        Ok((argument, n)) => match token_at(toks, pos + n) {
            Some(TokenView::Comma) => shift(
                more_arguments(toks, pos + n + 1, message, parsed.push(argument)),
                n + 1,
            ),
            Some(TokenView::CloseParen) => Ok((parsed.push(argument), n + 1)),
            _ => Err(message),
        },
    }
}

/// A type: a word, which names a built-in type or a custom one.
pub open spec fn type_at(toks: Seq<Spanned>, pos: int) -> Parsed<DataTypeView> {
    match token_at(toks, pos) {
        Some(TokenView::Word(name)) => Ok((type_of_name(name), 1)),
        _ => Err("Expected a type"@),
    }
}

/// A string literal.
pub open spec fn string_at(toks: Seq<Spanned>, pos: int) -> Parsed<StmtView> {
    match token_at(toks, pos) {
        Some(TokenView::String(value)) => Ok(
            (StmtView::String { value, span: span_at(toks, pos) }, 1),
        ),
        _ => Err("Expected string"@),
    }
}

/// A variable declaration: `var` or `const`, a name, then a type after a
/// colon, a value after an equals sign, or both.
pub open spec fn variable_declaration(toks: Seq<Spanned>, pos: int) -> Parsed<StmtView>
    decreases tokens_left(toks, pos), 30nat,
{
    match token_at(toks, pos) {
        Some(TokenView::Var) => variable_after_keyword(toks, pos, true),
        Some(TokenView::Const) => variable_after_keyword(toks, pos, false),
        _ => Err("Expected variable declaration"@),
    }
}

/// What follows the keyword at `pos` in a variable declaration.
pub open spec fn variable_after_keyword(toks: Seq<Spanned>, pos: int, mutable: bool) -> Parsed<
    StmtView,
>
    decreases tokens_left(toks, pos), 29nat,
{
    if token_at(toks, pos) is None {
        Err("Expected variable declaration"@)
    } else {
        match token_at(toks, pos + 1) {
            Some(TokenView::Word(name)) => {
                let typed: Parsed<Option<DataTypeView>> = if token_at(toks, pos + 2) == Some(
                    TokenView::Colon,
                ) {
                    match type_at(toks, pos + 3) {
                        Err(e) => Err(e),
                        Ok((t, n)) => Ok((Some(t), n + 1)),
                    }
                } else {
                    Ok((None, 0))
                };
                match typed {
                    Err(e) => Err(e),
                    Ok((data_type, n)) => if token_at(toks, pos + 2 + n) == Some(
                        TokenView::Equal,
                    ) {
                        match expression(toks, pos + 3 + n) {
                            Err(e) => Err(e),
                            Ok((value, m)) => Ok(
                                (
                                    StmtView::Declaration {
                                        mutable,
                                        name,
                                        data_type,
                                        value: Some(Box::new(value)),
                                    },
                                    3 + n + m,
                                ),
                            ),
                        }
                    } else if data_type is None {
                        Err("Expected a type or value for the variable"@)
                    } else {
                        Ok(
                            (
                                StmtView::Declaration { mutable, name, data_type, value: None },
                                2 + n,
                            ),
                        )
                    },
                }
            },
            _ => Err("Expected variable name"@),
        }
    }
}

/// A return statement: `return`, and a value where an expression starts
/// right after it.
pub open spec fn return_statement(toks: Seq<Spanned>, pos: int) -> Parsed<StmtView>
    decreases tokens_left(toks, pos), 30nat,
{
    match token_at(toks, pos) {
        Some(TokenView::Return) => match token_at(toks, pos + 1) {
            Some(t) => if starts_expression(t) {
                match expression(toks, pos + 1) {
                    Err(e) => Err(e),
                    Ok((value, n)) => Ok(
                        (StmtView::ReturnStatement { value: Some(Box::new(value)) }, n + 1),
                    ),
                }
            } else {
                Ok((StmtView::ReturnStatement { value: None }, 1))
            },
            None => Ok((StmtView::ReturnStatement { value: None }, 1)),
        },
        _ => Err("Expected return statement"@),
    }
}

/// An if statement: `if`, a condition, a block, and after `else` another if
/// statement or a block. An `else` that neither follows is dropped.
pub open spec fn if_statement(toks: Seq<Spanned>, pos: int) -> Parsed<StmtView>
    decreases tokens_left(toks, pos), 30nat,
{
    match token_at(toks, pos) {
        Some(TokenView::If) => match expression(toks, pos + 1) {
            Err(e) => Err(e),
            Ok((condition, n)) => match block(toks, pos + 1 + n) {
                Err(e) => Err(e),
                Ok((body, m)) => {
                    let after = pos + 1 + n + m;
                    if token_at(toks, after) == Some(TokenView::Else) {
                        let alternative: Parsed<Option<Box<StmtView>>> = match token_at(
                            toks,
                            after + 1,
                        ) {
                            Some(TokenView::If) => match if_statement(toks, after + 1) {
                                Err(e) => Err(e),
                                Ok((s, k)) => Ok((Some(Box::new(s)), k)),
                            },
                            Some(TokenView::OpenBrace) => match block(toks, after + 1) {
                                Err(e) => Err(e),
                                Ok((s, k)) => Ok((Some(Box::new(s)), k)),
                            },
                            _ => Ok((None, 0)),
                        };
                        match alternative {
                            Err(e) => Err(e),
                            Ok((else_block, k)) => Ok(
                                (
                                    StmtView::IfStatement {
                                        condition: Box::new(condition),
                                        block: Box::new(body),
                                        else_block,
                                    },
                                    2 + n + m + k,
                                ),
                            ),
                        }
                    } else {
                        Ok(
                            (
                                StmtView::IfStatement {
                                    condition: Box::new(condition),
                                    block: Box::new(body),
                                    else_block: None,
                                },
                                1 + n + m,
                            ),
                        )
                    }
                },
            },
        },
        _ => Err("Expected if statement"@),
    }
}

/// A block: statements between braces. A statement end may stand before
/// the opening brace and after it, and between and after the statements.
pub open spec fn block(toks: Seq<Spanned>, pos: int) -> Parsed<StmtView>
    decreases tokens_left(toks, pos), 28nat,
{
    let lead = newline_at(toks, pos);
    if token_at(toks, pos + lead) == Some(TokenView::OpenBrace) {
        let open = lead + 1 + newline_at(toks, pos + lead + 1);
        match block_items(toks, pos + open, Seq::empty()) {
            Err(e) => Err(e),
            Ok((body, n)) => Ok((StmtView::Block { body }, n + open)),
        }
    } else {
        Err("Expected opening brace"@)
    }
}

/// The statements of a block from a position inside it, up to and with the
/// closing brace. `parsed` are the statements before the position.
pub open spec fn block_items(toks: Seq<Spanned>, pos: int, parsed: Seq<StmtView>) -> Parsed<
    Seq<StmtView>,
>
    decreases tokens_left(toks, pos), 41nat,
{
    match token_at(toks, pos) {
        None => Err("Unexpected end of tokens in indented block"@),
        Some(TokenView::CloseBrace) => Ok((parsed, 1)),
        Some(TokenView::NewLine) => shift(block_items(toks, pos + 1, parsed), 1),
        Some(_) => match statement(toks, pos, false) {
            Err(e) => Err(e),
            Ok((s, n)) => if n == 0 {
                Err("Unexpected token"@)
            } else {
                shift(block_items(toks, pos + n, parsed.push(s)), n)
            },
        },
    }
}

/// The annotations in front of a function declaration, each with an
/// optional list of arguments and an optional statement end after it.
/// `parsed` are the annotations before the position.
pub open spec fn annotations(toks: Seq<Spanned>, pos: int, parsed: Seq<AnnotationView>) -> Parsed<
    Seq<AnnotationView>,
>
    decreases tokens_left(toks, pos), 23nat,
{
    match token_at(toks, pos) {
        Some(TokenView::Annotation(name)) => {
            let listed: Parsed<Seq<StmtView>> = if token_at(toks, pos + 1) == Some(
                TokenView::OpenParen,
            ) {
                shift(
                    arguments(
                        toks,
                        pos + 2,
                        "Expected a comma or closing parenthesis in the annotation"@,
                    ),
                    1,
                )
            } else {
                Ok((Seq::empty(), 0))
            };
            match listed {
                Err(e) => Err(e),
                Ok((args, n)) => {
                    let taken = 1 + n + newline_at(toks, pos + 1 + n);
                    shift(
                        annotations(
                            toks,
                            pos + taken,
                            parsed.push(AnnotationView { name, args }),
                        ),
                        taken,
                    )
                },
            }
        },
        _ => Ok((parsed, 0)),
    }
}

/// The parameters of a function declaration after the opening parenthesis,
/// up to and with the closing one. Each is a name, a colon, a type and an
/// optional default value after an equals sign; a comma may follow it.
/// Statement ends between parameters are skipped. `parsed` are the
/// parameters before the position.
pub open spec fn parameters(toks: Seq<Spanned>, pos: int, parsed: Seq<ParamView>) -> Parsed<
    Seq<ParamView>,
>
    decreases tokens_left(toks, pos), 23nat,
{
    match token_at(toks, pos) {
        Some(TokenView::NewLine) => shift(parameters(toks, pos + 1, parsed), 1),
        Some(TokenView::CloseParen) => Ok((parsed, 1)),
        Some(TokenView::Word(name)) => if token_at(toks, pos + 1) == Some(TokenView::Colon) {
            match type_at(toks, pos + 2) {
                Err(e) => Err(e),
                Ok((data_type, _)) => {
                    let default: Parsed<Option<Box<StmtView>>> = if token_at(toks, pos + 3)
                        == Some(TokenView::Equal) {
                        match expression(toks, pos + 4) {
                            Err(e) => Err(e),
                            Ok((value, n)) => Ok((Some(Box::new(value)), n + 1)),
                        }
                    } else {
                        Ok((None, 0))
                    };
                    match default {
                        Err(e) => Err(e),
                        Ok((default_value, n)) => {
                            let taken = 3 + n + if token_at(toks, pos + 3 + n) == Some(
                                TokenView::Comma,
                            ) {
                                1nat
                            } else {
                                0nat
                            };
                            shift(
                                parameters(
                                    toks,
                                    pos + taken,
                                    parsed.push(ParamView { name, data_type, default_value }),
                                ),
                                taken,
                            )
                        },
                    }
                },
            }
        } else {
            Err("Expected a colon after the parameter name"@)
        },
        _ => Err("Expected a parameter or a closing parenthesis"@),
    }
}

/// A function declaration: annotations, `func`, a name, the parameters in
/// parentheses, a return type after an arrow or none, which means `Void`,
/// and the body, which is a block.
pub open spec fn function_declaration(toks: Seq<Spanned>, pos: int) -> Parsed<StmtView>
    decreases tokens_left(toks, pos), 30nat,
{
    match annotations(toks, pos, Seq::empty()) {
        Err(e) => Err(e),
        Ok((notes, a)) => function_after_annotations(toks, pos + a, notes, a),
    }
}

/// A function declaration from its `func` keyword. `notes` are its
/// annotations, which span `a` tokens.
pub open spec fn function_after_annotations(
    toks: Seq<Spanned>,
    pos: int,
    notes: Seq<AnnotationView>,
    a: nat,
) -> Parsed<StmtView>
    decreases tokens_left(toks, pos), 29nat,
{
    if token_at(toks, pos) != Some(TokenView::Func) {
        Err("Expected the 'func' keyword"@)
    } else {
        match token_at(toks, pos + 1) {
            Some(TokenView::Word(name)) => if token_at(toks, pos + 2) != Some(
                TokenView::OpenParen,
            ) {
                Err("Expected an opening parenthesis"@)
            } else {
                match parameters(toks, pos + 3, Seq::empty()) {
                    Err(e) => Err(e),
                    Ok((params, n)) => {
                        let result_type: Parsed<DataTypeView> = match token_at(toks, pos + 3 + n) {
                            Some(TokenView::OpenBrace) => Ok((DataTypeView::Void, 0)),
                            Some(TokenView::Arrow) => shift(type_at(toks, pos + 4 + n), 1),
                            _ => Err(
                                "Missing a colon after the function name or a return type"@,
                            ),
                        };
                        match result_type {
                            Err(e) => Err(e),
                            Ok((return_type, m)) => match block(toks, pos + 3 + n + m) {
                                Err(e) => Err(e),
                                Ok((body, k)) => Ok(
                                    (
                                        StmtView::FunctionDeclaration {
                                            annotations: notes,
                                            name,
                                            params,
                                            return_type,
                                            block: Box::new(body),
                                        },
                                        a + 3 + n + m + k,
                                    ),
                                ),
                            },
                        }
                    },
                }
            },
            _ => Err("Expected the function name"@),
        }
    }
}

/// The items of an import: names separated by commas, each with an
/// optional alias after `as`. `parsed` are the items before the position.
pub open spec fn import_items(toks: Seq<Spanned>, pos: int, parsed: Seq<ImportItem>) -> Parsed<
    Seq<ImportItem>,
>
    decreases tokens_left(toks, pos),
{
    match token_at(toks, pos) {
        Some(TokenView::Word(name)) => {
            let aliased: Parsed<Option<Seq<char>>> = if token_at(toks, pos + 1) == Some(
                TokenView::As,
            ) {
                match token_at(toks, pos + 2) {
                    Some(TokenView::Word(alias)) => Ok((Some(alias), 2)),
                    _ => Err("Expected an alias for the imported item after the 'as' keyword"@),
                }
            } else {
                Ok((None, 0))
            };
            match aliased {
                Err(e) => Err(e),
                Ok((alias, n)) => if token_at(toks, pos + 1 + n) == Some(TokenView::Comma) {
                    shift(
                        import_items(toks, pos + 2 + n, parsed.push((name, alias))),
                        2 + n,
                    )
                } else {
                    Ok((parsed.push((name, alias)), 1 + n))
                },
            }
        },
        _ => Err("Expected import item name"@),
    }
}

/// An import statement, in one of its four forms: `import a, b as c`,
/// `import a, b from m`, `import * from m`, `import * as a from m`.
pub open spec fn import_statement(toks: Seq<Spanned>, pos: int) -> Parsed<StmtView> {
    if token_at(toks, pos) != Some(TokenView::Import) {
        Err("Expected import statement"@)
    } else if token_at(toks, pos + 1) == Some(TokenView::Multiply) {
        match token_at(toks, pos + 2) {
            Some(TokenView::From) => match token_at(toks, pos + 3) {
                Some(TokenView::Word(module)) => Ok((StmtView::ImportEverything { module }, 4)),
                _ => Err("Expected a module name after the 'from' keyword"@),
            },
            Some(TokenView::As) => match token_at(toks, pos + 3) {
                Some(TokenView::Word(alias)) => if token_at(toks, pos + 4) != Some(
                    TokenView::From,
                ) {
                    Err("Expected the 'from' keyword after module alias"@)
                } else {
                    match token_at(toks, pos + 5) {
                        Some(TokenView::Word(module)) => Ok(
                            (StmtView::ImportModules { modules: seq![(module, Some(alias))] }, 6),
                        ),
                        _ => Err("Expected a module name after the 'from' keyword"@),
                    }
                },
                _ => Err("Expected an alias name after the 'as' keyword"@),
            },
            _ => Err("Expected the 'from' or 'as' keyword after '*'"@),
        }
    } else {
        match import_items(toks, pos + 1, Seq::empty()) {
            Err(e) => Err(e),
            Ok((items, n)) => if token_at(toks, pos + 1 + n) == Some(TokenView::From) {
                match token_at(toks, pos + 2 + n) {
                    Some(TokenView::Word(module)) => Ok(
                        (StmtView::ImportCollection { module, items }, n + 3),
                    ),
                    _ => Err("Expected a module name after the 'from' keyword"@),
                }
            } else {
                Ok((StmtView::ImportModules { modules: items }, n + 1))
            },
        }
    }
}

/// A statement, chosen by its first token, with the statement end after it
/// if there is one. Imports and function declarations are statements only
/// at the top level of a program.
pub open spec fn statement(toks: Seq<Spanned>, pos: int, top_level: bool) -> Parsed<StmtView>
    decreases tokens_left(toks, pos), 40nat,
{
    match token_at(toks, pos) {
        None => Err("Unexpected end of tokens at beginning of line"@),
        Some(first) => {
            let parsed: Parsed<StmtView> = match first {
                TokenView::Var | TokenView::Const => variable_declaration(toks, pos),
                TokenView::If => if_statement(toks, pos),
                TokenView::Annotation(_) | TokenView::Func => if top_level {
                    function_declaration(toks, pos)
                } else {
                    Err("Functions can only be declared at the top level"@)
                },
                TokenView::Import => if top_level {
                    import_statement(toks, pos)
                } else {
                    Err("Imports can only stand at the top level"@)
                },
                TokenView::OpenBrace => block(toks, pos),
                TokenView::Return => return_statement(toks, pos),
                _ => if starts_expression(first) {
                    expression(toks, pos)
                } else {
                    Err("Unexpected token"@)
                },
            };
            match parsed {
                Err(e) => Err(e),
                Ok((s, n)) => Ok((s, n + newline_at(toks, pos + n))),
            }
        },
    }
}

/// The program with one more top-level statement, put where it belongs:
/// imports, function declarations, and everything else.
pub open spec fn classify(program: ProgramView, s: StmtView) -> ProgramView {
    match s {
        StmtView::ImportModule { .. }
        | StmtView::ImportModules { .. }
        | StmtView::ImportEverything { .. }
        | StmtView::ImportCollection { .. } => ProgramView {
            imports: program.imports.push(s),
            ..program
        },
        StmtView::FunctionDeclaration { .. } => ProgramView {
            functions: program.functions.push(s),
            ..program
        },
        _ => ProgramView { body: program.body.push(s), ..program },
    }
}

/// The program that the tokens from a position to the end make, added to
/// what `parsed` holds of the tokens before, or the first error.
pub open spec fn program_from(toks: Seq<Spanned>, pos: int, parsed: ProgramView) -> Result<
    ProgramView,
    Seq<char>,
>
    decreases tokens_left(toks, pos), 41nat,
{
    match token_at(toks, pos) {
        None => Ok(parsed),
        Some(TokenView::NewLine) => program_from(toks, pos + 1, parsed),
        Some(_) => match statement(toks, pos, true) {
            Err(e) => Err(e),
            Ok((s, n)) => if n == 0 {
                Err("Unexpected token"@)
            } else {
                program_from(toks, pos + n, classify(parsed, s))
            },
        },
    }
}

/// The program that a list of tokens makes, or the first error.
pub open spec fn program(toks: Seq<Spanned>) -> Result<ProgramView, Seq<char>> {
    program_from(
        toks,
        0,
        ProgramView { imports: Seq::empty(), functions: Seq::empty(), body: Seq::empty() },
    )
}

} // verus!

verus! {

/// Whether a parsing function gave what the grammar asks for: on success
/// the tree of the grammar, with the stream moved on by the tokens that
/// the tree spans, which is at least one; on failure the message of the
/// grammar's error.
pub open spec fn agrees<T: View>(
    r: Result<T, &'static str>,
    expected: Parsed<T::V>,
    before: int,
    after: int,
) -> bool {
    match expected {
        Ok((v, n)) => r is Ok && r->Ok_0@ == v && after == before + n && n >= 1,
        Err(e) => r is Err && r->Err_0@ == e,
    }
}

} // verus!
