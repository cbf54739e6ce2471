use gneurshk::ast::{Annotation, BinaryOperator, FunctionParam, Program, Stmt, UnaryOperator};
use gneurshk::lexer::lex;
use gneurshk::parser::block::parse_block;
use gneurshk::parser::expressions::parse_expression;
use gneurshk::parser::funcs::parse_func_declaration;
use gneurshk::parser::ifs::parse_if_statement;
use gneurshk::parser::imports::parse_import;
use gneurshk::parser::return_statements::parse_return_statement;
use gneurshk::parser::strings::parse_string;
use gneurshk::parser::variables::parse_variable_declaration;
use gneurshk::parser::{parse, parse_statement};
use gneurshk::tokens::{Scanner, Token};
use gneurshk::types::DataType;
use std::ops::Range;

/// Lexes and parses a source, and panics where either fails.
fn lex_then_parse(input: &'static str) -> Program {
    let mut tokens = lex(input).expect("Failed to lex");

    match parse(&mut tokens) {
        Ok(result) => result,
        Err(e) => panic!("Parsing error: {e}"),
    }
}

fn parse_error(input: &'static str) -> &'static str {
    let mut tokens = lex(input).expect("Failed to lex");
    parse(&mut tokens).expect_err("Parsing should fail")
}

fn integer(value: u64, span: Range<usize>) -> Stmt {
    Stmt::Integer { value, span }
}

fn float(value: &str, span: Range<usize>) -> Stmt {
    Stmt::Float { value: value.to_string(), span }
}

fn ident(name: &str, span: Range<usize>) -> Stmt {
    Stmt::Identifier { name: name.to_string(), span }
}

fn binary(left: Stmt, operator: BinaryOperator, right: Stmt) -> Stmt {
    Stmt::BinaryExpression { left: Box::new(left), right: Box::new(right), operator }
}

fn block(body: Vec<Stmt>) -> Stmt {
    Stmt::Block { body }
}

fn declaration(mutable: bool, name: &str, data_type: Option<DataType>, value: Option<Stmt>) -> Stmt {
    Stmt::Declaration { mutable, name: name.to_string(), data_type, value: value.map(Box::new) }
}

#[test]
fn empty_block() {
    let stmt = lex_then_parse("{}").body;

    assert_eq!(stmt, vec![Stmt::Block { body: vec![] }]);
}

#[test]
fn single_line_block() {
    let stmt = lex_then_parse("{ 1 }").body;

    assert_eq!(stmt, vec![Stmt::Block { body: vec![Stmt::Integer { value: 1, span: 2..3 }] }]);
}

#[test]
fn multiple_line_block() {
    let stmt = lex_then_parse("{ \n 1 \n }").body;

    assert_eq!(stmt, vec![Stmt::Block { body: vec![Stmt::Integer { value: 1, span: 4..5 }] }]);
}

#[test]
fn nested_blocks() {
    let stmt = lex_then_parse("{ { { 3 } } { 2 } }").body;

    assert_eq!(
        stmt,
        vec![Stmt::Block {
            body: vec![
                Stmt::Block {
                    body: vec![Stmt::Block { body: vec![Stmt::Integer { value: 3, span: 6..7 }] }]
                },
                Stmt::Block { body: vec![Stmt::Integer { value: 2, span: 14..15 }] }
            ]
        }]
    );
}

#[test]
fn expressions_repeated_identifiers() {
    let stmt =
        lex_then_parse("chicken chicken chicken chicken chicken chicken chicken chicken").body;

    assert_eq!(
        stmt,
        vec![
            ident("chicken", 0..7),
            ident("chicken", 8..15),
            ident("chicken", 16..23),
            ident("chicken", 24..31),
            ident("chicken", 32..39),
            ident("chicken", 40..47),
            ident("chicken", 48..55),
            ident("chicken", 56..63),
        ]
    );
}

#[test]
fn expressions_repeated_numbers() {
    let stmt = lex_then_parse("1 2 3 + 4 == 5 6 7 8 9 10").body;

    assert_eq!(
        stmt,
        vec![
            integer(1, 0..1),
            integer(2, 2..3),
            binary(
                binary(integer(3, 4..5), BinaryOperator::Add, integer(4, 8..9)),
                BinaryOperator::Equal,
                integer(5, 13..14)
            ),
            integer(6, 15..16),
            integer(7, 17..18),
            integer(8, 19..20),
            integer(9, 21..22),
            integer(10, 23..25),
        ]
    );
}

#[test]
fn expressions_single_identifier() {
    let stmt = lex_then_parse("chicken").body;

    assert_eq!(stmt, vec![Stmt::Identifier { name: "chicken".to_string(), span: 0..7 }]);
}

#[test]
fn single_integer() {
    let stmt = lex_then_parse("42").body;

    assert_eq!(stmt, vec![Stmt::Integer { value: 42, span: 0..2 }]);
}

#[test]
fn single_number() {
    let stmt = lex_then_parse("42").body;

    assert_eq!(stmt, vec![integer(42, 0..2)]);
}

#[test]
fn expressions_basic_expression() {
    let stmt = lex_then_parse("1 + 7 * (3 - 4) / 5").body;

    assert_eq!(
        stmt,
        vec![binary(
            integer(1, 0..1),
            BinaryOperator::Add,
            binary(
                binary(
                    integer(7, 4..5),
                    BinaryOperator::Multiply,
                    binary(integer(3, 9..10), BinaryOperator::Subtract, integer(4, 13..14))
                ),
                BinaryOperator::Divide,
                integer(5, 18..19)
            )
        )]
    )
}

#[test]
fn and_or_logical_expression() {
    let stmt = lex_then_parse("1 < 2 && 3 > 4 || 5 == 6").body;

    assert_eq!(
        stmt,
        vec![binary(
            binary(
                binary(integer(1, 0..1), BinaryOperator::LessThan, integer(2, 4..5)),
                BinaryOperator::And,
                binary(integer(3, 9..10), BinaryOperator::GreaterThan, integer(4, 13..14))
            ),
            BinaryOperator::Or,
            binary(integer(5, 18..19), BinaryOperator::Equal, integer(6, 23..24))
        )]
    );
}

#[test]
fn or_and_logical_expression() {
    let stmt = lex_then_parse("1 < 2 || 3 > 4 && 5 == 6").body;

    assert_eq!(
        stmt,
        vec![binary(
            binary(integer(1, 0..1), BinaryOperator::LessThan, integer(2, 4..5)),
            BinaryOperator::Or,
            binary(
                binary(integer(3, 9..10), BinaryOperator::GreaterThan, integer(4, 13..14)),
                BinaryOperator::And,
                binary(integer(5, 18..19), BinaryOperator::Equal, integer(6, 23..24))
            )
        )]
    );
}

#[test]
fn and_or_and_logical_expression() {
    let stmt = lex_then_parse("1 < 2 && 3 > 4 || 5 == 6 && 7 != 8").body;

    assert_eq!(
        stmt,
        vec![binary(
            binary(
                binary(integer(1, 0..1), BinaryOperator::LessThan, integer(2, 4..5)),
                BinaryOperator::And,
                binary(integer(3, 9..10), BinaryOperator::GreaterThan, integer(4, 13..14))
            ),
            BinaryOperator::Or,
            binary(
                binary(integer(5, 18..19), BinaryOperator::Equal, integer(6, 23..24)),
                BinaryOperator::And,
                binary(integer(7, 28..29), BinaryOperator::NotEqual, integer(8, 33..34))
            )
        )]
    );
}

#[test]
fn or_and_or_logical_expression() {
    let stmt = lex_then_parse("1 < 2 || 3 > 4 && 5 == 6 || 7 != 8").body;

    assert_eq!(
        stmt,
        vec![binary(
            binary(
                binary(integer(1, 0..1), BinaryOperator::LessThan, integer(2, 4..5)),
                BinaryOperator::Or,
                binary(
                    binary(integer(3, 9..10), BinaryOperator::GreaterThan, integer(4, 13..14)),
                    BinaryOperator::And,
                    binary(integer(5, 18..19), BinaryOperator::Equal, integer(6, 23..24))
                )
            ),
            BinaryOperator::Or,
            binary(integer(7, 28..29), BinaryOperator::NotEqual, integer(8, 33..34))
        )]
    );
}

#[test]
fn expressions_function_call_no_args() {
    let stmt = lex_then_parse("foo()").body;

    assert_eq!(
        stmt,
        vec![Stmt::FunctionCall { name: "foo".to_string(), args: vec![], span: 0..3 }]
    );
}

#[test]
fn expressions_function_call_single_arg() {
    let stmt = lex_then_parse("bar(42)").body;

    assert_eq!(
        stmt,
        vec![Stmt::FunctionCall {
            name: "bar".to_string(),
            args: vec![Stmt::Integer { value: 42, span: 4..6 }],
            span: 0..3,
        }]
    );
}

#[test]
fn expressions_function_call_multiple_args() {
    let stmt = lex_then_parse("baz(1, 2, 3)").body;

    assert_eq!(
        stmt,
        vec![Stmt::FunctionCall {
            name: "baz".to_string(),
            args: vec![integer(1, 4..5), integer(2, 7..8), integer(3, 10..11)],
            span: 0..3,
        }]
    );
}

#[test]
fn expressions_function_call_with_expression_args() {
    let stmt = lex_then_parse("calculate(1 + (2 + 5), 3 * 4)").body;

    assert_eq!(
        stmt,
        vec![Stmt::FunctionCall {
            name: "calculate".to_string(),
            args: vec![
                binary(
                    integer(1, 10..11),
                    BinaryOperator::Add,
                    binary(integer(2, 15..16), BinaryOperator::Add, integer(5, 19..20))
                ),
                binary(integer(3, 23..24), BinaryOperator::Multiply, integer(4, 27..28)),
            ],
            span: 0..9,
        }]
    );
}

#[test]
fn negative_number() {
    let stmt = lex_then_parse("-1").body;

    assert_eq!(
        stmt,
        vec![Stmt::UnaryExpression {
            value: Box::new(Stmt::Integer { value: 1, span: 1..2 }),
            operator: UnaryOperator::Negative,
        }]
    );
}

#[test]
fn negative_expression() {
    let stmt = lex_then_parse("-(1 + 2)").body;

    assert_eq!(
        stmt,
        vec![Stmt::UnaryExpression {
            value: Box::new(binary(integer(1, 2..3), BinaryOperator::Add, integer(2, 6..7))),
            operator: UnaryOperator::Negative,
        }]
    );
}

#[test]
fn not_expression() {
    let stmt = lex_then_parse("not (1 == 2)").body;

    assert_eq!(
        stmt,
        vec![Stmt::UnaryExpression {
            value: Box::new(binary(integer(1, 5..6), BinaryOperator::Equal, integer(2, 10..11))),
            operator: UnaryOperator::Not,
        }]
    );
}

#[test]
fn single_float() {
    let stmt = lex_then_parse("1.0").body;

    assert_eq!(stmt, vec![Stmt::Float { value: "1.0".to_string(), span: 0..3 }]);
    match &stmt[0] {
        Stmt::Float { value, .. } => assert_eq!(value.parse::<f64>().unwrap(), 1.0),
        _ => unreachable!(),
    }
}

#[test]
fn float_and_integer_expression() {
    let stmt = lex_then_parse("1 + 2.0").body;

    assert_eq!(stmt, vec![binary(integer(1, 0..1), BinaryOperator::Add, float("2.0", 4..7))]);
}

#[test]
fn float_and_float_expression() {
    let stmt = lex_then_parse("1.0 + 2.0").body;

    assert_eq!(
        stmt,
        vec![binary(float("1.0", 0..3), BinaryOperator::Add, float("2.0", 6..9))]
    );
}

#[test]
#[should_panic]
fn funcs_unfinished_func() {
    lex_then_parse("func");
}

#[test]
#[should_panic]
fn funcs_unfinished_func_name() {
    lex_then_parse("func apple");
}

#[test]
fn funcs_return_type_specified() {
    let stmt = lex_then_parse("func apple() -> Int32 { \n var peas = 2 \n }");

    assert_eq!(
        stmt,
        Program {
            imports: vec![],
            functions: vec![Stmt::FunctionDeclaration {
                annotations: vec![],
                name: "apple".to_string(),
                params: vec![],
                return_type: DataType::Int32,
                block: Box::new(Stmt::Block {
                    body: vec![Stmt::Declaration {
                        mutable: true,
                        name: "peas".to_string(),
                        data_type: None,
                        value: Some(Box::new(Stmt::Integer { value: 2, span: 37..38 })),
                    }]
                }),
            }],
            body: vec![],
        }
    );
}

#[test]
fn funcs_no_return_specified() {
    let stmt = lex_then_parse("func pear() { \n const cucumbers = 8 \n }");

    assert_eq!(
        stmt,
        Program {
            imports: vec![],
            functions: vec![Stmt::FunctionDeclaration {
                annotations: vec![],
                name: "pear".to_string(),
                params: vec![],
                return_type: DataType::default(),
                block: Box::new(Stmt::Block {
                    body: vec![Stmt::Declaration {
                        mutable: false,
                        name: "cucumbers".to_string(),
                        data_type: None,
                        value: Some(Box::new(Stmt::Integer { value: 8, span: 34..35 })),
                    }]
                }),
            }],
            body: vec![],
        }
    );
}

#[test]
fn func_with_params() {
    let stmt = lex_then_parse("func potato(a: Int32, b: Float32) { }");

    assert_eq!(
        stmt,
        Program {
            imports: vec![],
            functions: vec![Stmt::FunctionDeclaration {
                annotations: vec![],
                name: "potato".to_string(),
                params: vec![
                    FunctionParam {
                        name: "a".to_string(),
                        data_type: DataType::Int32,
                        default_value: None,
                    },
                    FunctionParam {
                        name: "b".to_string(),
                        data_type: DataType::Float32,
                        default_value: None,
                    },
                ],
                return_type: DataType::default(),
                block: Box::new(Stmt::Block { body: vec![] }),
            }],
            body: vec![],
        }
    );
}

#[test]
fn func_with_default_params() {
    let stmt = lex_then_parse("func vegetable(a: Int32 = 5, b: Float32 = 3.0) { }");

    assert_eq!(
        stmt,
        Program {
            imports: vec![],
            functions: vec![Stmt::FunctionDeclaration {
                annotations: vec![],
                name: "vegetable".to_string(),
                params: vec![
                    FunctionParam {
                        name: "a".to_string(),
                        data_type: DataType::Int32,
                        default_value: Some(Box::new(Stmt::Integer { value: 5, span: 26..27 })),
                    },
                    FunctionParam {
                        name: "b".to_string(),
                        data_type: DataType::Float32,
                        default_value: Some(Box::new(float("3.0", 42..45))),
                    },
                ],
                return_type: DataType::default(),
                block: Box::new(Stmt::Block { body: vec![] }),
            }],
            body: vec![],
        }
    );
}

#[test]
fn func_with_annotations() {
    let stmt = lex_then_parse("@test func egg() { }");
    let stmt_with_newline = lex_then_parse("@test \n func egg() { }");

    assert_eq!(stmt, stmt_with_newline);

    assert_eq!(
        stmt,
        Program {
            imports: vec![],
            functions: vec![Stmt::FunctionDeclaration {
                annotations: vec![Annotation { name: "test".to_string(), args: vec![] }],
                name: "egg".to_string(),
                params: vec![],
                return_type: DataType::default(),
                block: Box::new(Stmt::Block { body: vec![] }),
            }],
            body: vec![],
        }
    );
}

fn ham(first: usize) -> Program {
    Program {
        imports: vec![],
        functions: vec![Stmt::FunctionDeclaration {
            annotations: vec![
                Annotation { name: "test".to_string(), args: vec![] },
                Annotation {
                    name: "other".to_string(),
                    args: vec![
                        Stmt::Integer { value: 1, span: first..first + 1 },
                        Stmt::Integer { value: 2, span: first + 3..first + 4 },
                        Stmt::Integer { value: 3, span: first + 6..first + 7 },
                    ],
                },
            ],
            name: "ham".to_string(),
            params: vec![],
            return_type: DataType::default(),
            block: Box::new(Stmt::Block { body: vec![] }),
        }],
        body: vec![],
    }
}

#[test]
fn func_with_multiple_annotations() {
    let stmt = lex_then_parse("@test @other(1, 2, 3) func ham() { }");
    let stmt_with_newline = lex_then_parse("@test \n @other(1, 2, 3) \n func ham() { }");

    assert_eq!(stmt, ham(13));
    assert_eq!(stmt_with_newline, ham(15));
}

#[test]
fn large_indented_if_block() {
    let stmt = lex_then_parse(
        r"
if 10 + 10 {
    var apple = 1








    var green = 3
}
const borg = 5
",
    )
    .body;

    assert_eq!(
        stmt,
        vec![
            Stmt::IfStatement {
                condition: Box::new(binary(integer(10, 4..6), BinaryOperator::Add, integer(10, 9..11))),
                block: Box::new(Stmt::Block {
                    body: vec![
                        declaration(true, "apple", None, Some(integer(1, 30..31))),
                        declaration(true, "green", None, Some(integer(3, 56..57))),
                    ],
                }),
                else_block: None,
            },
            declaration(false, "borg", None, Some(integer(5, 73..74))),
        ]
    );
}

#[test]
fn nested_if_blocks() {
    let stmt = lex_then_parse(
        r"
if 10 + 10 {
    if 20 + 20 {
        var apple = 1
    }
    if 30 + 30 {
        var green = 3
    }
}
const borg = 5
",
    )
    .body;

    assert_eq!(
        stmt,
        vec![
            Stmt::IfStatement {
                condition: Box::new(binary(integer(10, 4..6), BinaryOperator::Add, integer(10, 9..11))),
                block: Box::new(Stmt::Block {
                    body: vec![
                        Stmt::IfStatement {
                            condition: Box::new(binary(
                                integer(20, 21..23),
                                BinaryOperator::Add,
                                integer(20, 26..28)
                            )),
                            block: Box::new(block(vec![declaration(
                                true,
                                "apple",
                                None,
                                Some(integer(1, 51..52))
                            )])),
                            else_block: None,
                        },
                        Stmt::IfStatement {
                            condition: Box::new(binary(
                                integer(30, 66..68),
                                BinaryOperator::Add,
                                integer(30, 71..73)
                            )),
                            block: Box::new(block(vec![declaration(
                                true,
                                "green",
                                None,
                                Some(integer(3, 96..97))
                            )])),
                            else_block: None,
                        }
                    ]
                }),
                else_block: None,
            },
            declaration(false, "borg", None, Some(integer(5, 119..120))),
        ]
    );
}

#[test]
fn else_block() {
    let stmt = lex_then_parse(
        r"
if 10 + 10 {
    1
} else {
    2
}
",
    )
    .body;

    assert_eq!(
        stmt,
        vec![Stmt::IfStatement {
            condition: Box::new(binary(integer(10, 4..6), BinaryOperator::Add, integer(10, 9..11))),
            block: Box::new(Stmt::Block { body: vec![Stmt::Integer { value: 1, span: 18..19 }] }),
            else_block: Some(Box::new(Stmt::Block {
                body: vec![Stmt::Integer { value: 2, span: 33..34 }]
            })),
        }]
    );
}

#[test]
fn else_if_block() {
    let stmt = lex_then_parse(
        r"
if 10 + 10 {
    1
} else if 20 + 20 {
    2
}
",
    )
    .body;

    assert_eq!(
        stmt,
        vec![Stmt::IfStatement {
            condition: Box::new(binary(integer(10, 4..6), BinaryOperator::Add, integer(10, 9..11))),
            block: Box::new(Stmt::Block { body: vec![Stmt::Integer { value: 1, span: 18..19 }] }),
            else_block: Some(Box::new(Stmt::IfStatement {
                condition: Box::new(binary(
                    integer(20, 30..32),
                    BinaryOperator::Add,
                    integer(20, 35..37)
                )),
                block: Box::new(Stmt::Block {
                    body: vec![Stmt::Integer { value: 2, span: 44..45 }]
                }),
                else_block: None,
            })),
        }]
    );
}

#[test]
fn else_if_else_block() {
    let stmt = lex_then_parse(
        r"
if 10 + 10 {
    1
} else if 20 + 20 {
    2
} else {
    3
}
",
    )
    .body;

    assert_eq!(
        stmt,
        vec![Stmt::IfStatement {
            condition: Box::new(binary(integer(10, 4..6), BinaryOperator::Add, integer(10, 9..11))),
            block: Box::new(Stmt::Block { body: vec![Stmt::Integer { value: 1, span: 18..19 }] }),
            else_block: Some(Box::new(Stmt::IfStatement {
                condition: Box::new(binary(
                    integer(20, 30..32),
                    BinaryOperator::Add,
                    integer(20, 35..37)
                )),
                block: Box::new(Stmt::Block {
                    body: vec![Stmt::Integer { value: 2, span: 44..45 }]
                }),
                else_block: Some(Box::new(Stmt::Block {
                    body: vec![Stmt::Integer { value: 3, span: 59..60 }]
                })),
            })),
        }]
    );
}

#[test]
fn return_nothing() {
    let stmt = lex_then_parse("return").body;

    assert_eq!(stmt, vec![Stmt::ReturnStatement { value: None }]);
}

#[test]
fn return_literal() {
    let stmt = lex_then_parse("return 1").body;

    assert_eq!(stmt, vec![Stmt::ReturnStatement { value: Some(Box::new(integer(1, 7..8))) }]);
}

#[test]
fn return_expression() {
    let stmt = lex_then_parse("return 1 + 2").body;

    assert_eq!(
        stmt,
        vec![Stmt::ReturnStatement {
            value: Some(Box::new(binary(integer(1, 7..8), BinaryOperator::Add, integer(2, 11..12))))
        }]
    );
}

#[test]
fn return_nothing_in_a_block() {
    let stmt = lex_then_parse("{ return }").body;

    assert_eq!(stmt, vec![Stmt::Block { body: vec![Stmt::ReturnStatement { value: None }] }]);
}

#[test]
fn return_literal_in_a_block() {
    let stmt = lex_then_parse("{ return 1 }").body;

    assert_eq!(
        stmt,
        vec![Stmt::Block {
            body: vec![Stmt::ReturnStatement { value: Some(Box::new(integer(1, 9..10))) }]
        }]
    );
}

#[test]
#[should_panic]
fn variables_invalid_variable_declaration() {
    lex_then_parse("var var extra_extra = 0");
}

#[test]
#[should_panic]
fn variables_unfinished_variable_declaration() {
    lex_then_parse("var");
}

#[test]
#[should_panic]
fn variables_unfinished_constant_declaration() {
    lex_then_parse("const");
}

#[test]
#[should_panic]
fn no_type_or_value() {
    let stmt = lex_then_parse("var apple").body;

    assert_eq!(
        stmt,
        vec![Stmt::Declaration {
            mutable: true,
            name: "apple".to_string(),
            data_type: None,
            value: None
        }]
    );
}

#[test]
fn has_type_no_value() {
    let stmt = lex_then_parse("var pepper: Int32").body;

    assert_eq!(
        stmt,
        vec![Stmt::Declaration {
            mutable: true,
            name: "pepper".to_string(),
            data_type: Some(DataType::Int32),
            value: None
        }]
    );
}

#[test]
fn has_type_and_value() {
    let stmt = lex_then_parse("var potatoes: Int32 = 5").body;

    assert_eq!(
        stmt,
        vec![Stmt::Declaration {
            mutable: true,
            name: "potatoes".to_string(),
            data_type: Some(DataType::Int32),
            value: Some(Box::new(Stmt::Integer { value: 5, span: 22..23 }))
        }]
    );
}

#[test]
fn has_value_no_type() {
    let stmt = lex_then_parse("var canned_corn = 2 + 5").body;

    assert_eq!(
        stmt,
        vec![Stmt::Declaration {
            mutable: true,
            name: "canned_corn".to_string(),
            data_type: None,
            value: Some(Box::new(Stmt::BinaryExpression {
                left: Box::new(Stmt::Integer { value: 2, span: 18..19 }),
                right: Box::new(Stmt::Integer { value: 5, span: 22..23 }),
                operator: BinaryOperator::Add
            }))
        }]
    );
}

#[test]
fn literal_variable_declaration() {
    let stmt = lex_then_parse("var green_beans = 2").body;

    assert_eq!(stmt, vec![declaration(true, "green_beans", None, Some(integer(2, 18..19)))]);
}

#[test]
fn expression_variable_declaration() {
    let stmt = lex_then_parse("var canned_corn = 2 + 5").body;

    assert_eq!(
        stmt,
        vec![declaration(
            true,
            "canned_corn",
            None,
            Some(binary(integer(2, 18..19), BinaryOperator::Add, integer(5, 22..23)))
        )]
    );
}

#[test]
fn import_specific_variables() {
    let stmt = lex_then_parse("import sin, cos, sqrt as square_root from math").imports;

    assert_eq!(
        stmt,
        vec![Stmt::ImportCollection {
            module: "math".to_string(),
            items: vec![
                ("sin".to_string(), None),
                ("cos".to_string(), None),
                ("sqrt".to_string(), Some("square_root".to_string())),
            ],
        }]
    );
}

#[test]
fn import_individual_modules() {
    let stmt = lex_then_parse("import os\nimport time as t\nimport * as rng from random").imports;

    assert_eq!(
        stmt,
        vec![
            Stmt::ImportModules { modules: vec![("os".to_string(), None)] },
            Stmt::ImportModules { modules: vec![("time".to_string(), Some("t".to_string()))] },
            Stmt::ImportModules { modules: vec![("random".to_string(), Some("rng".to_string()))] },
        ]
    );
}

#[test]
fn import_multiple_modules() {
    let stmt = lex_then_parse("import os, time as t, random as rng").imports;

    assert_eq!(
        stmt,
        vec![Stmt::ImportModules {
            modules: vec![
                ("os".to_string(), None),
                ("time".to_string(), Some("t".to_string())),
                ("random".to_string(), Some("rng".to_string())),
            ],
        },]
    );
}

#[test]
fn import_everything_from_module() {
    let stmt = lex_then_parse("import * from math").imports;

    assert_eq!(stmt, vec![Stmt::ImportEverything { module: "math".to_string() }]);
}

#[test]
fn statements_go_to_their_lists() {
    let program = lex_then_parse("import os\nfunc f() { }\nvar x = 1\nf()");

    assert_eq!(program.imports.len(), 1);
    assert_eq!(program.functions.len(), 1);
    assert_eq!(
        program.body,
        vec![
            declaration(true, "x", None, Some(integer(1, 31..32))),
            Stmt::FunctionCall { name: "f".to_string(), args: vec![], span: 33..34 },
        ]
    );
}

#[test]
fn semicolons_end_statements() {
    assert_eq!(lex_then_parse("1; 2").body, vec![integer(1, 0..1), integer(2, 3..4)]);
    assert_eq!(lex_then_parse("{ 1; 2 }").body, vec![block(vec![integer(1, 2..3), integer(2, 5..6)])]);
}

#[test]
fn booleans_and_strings_are_terms() {
    assert_eq!(
        lex_then_parse("true and \"a\"").body,
        vec![binary(
            Stmt::Boolean { value: true, span: 0..4 },
            BinaryOperator::And,
            Stmt::String { value: "a".to_string(), span: 9..12 }
        )]
    );
}

#[test]
fn binary_operators_associate_to_the_left() {
    assert_eq!(
        lex_then_parse("8 - 4 - 2").body,
        vec![binary(
            binary(integer(8, 0..1), BinaryOperator::Subtract, integer(4, 4..5)),
            BinaryOperator::Subtract,
            integer(2, 8..9)
        )]
    );
    assert_eq!(
        lex_then_parse("8 % 3").body,
        vec![binary(integer(8, 0..1), BinaryOperator::Modulus, integer(3, 4..5))]
    );
}

#[test]
fn comparisons_bind_tighter_than_logic_and_looser_than_arithmetic() {
    assert_eq!(
        lex_then_parse("1 + 2 >= 3 or not x").body,
        vec![binary(
            binary(
                binary(integer(1, 0..1), BinaryOperator::Add, integer(2, 4..5)),
                BinaryOperator::GreaterThanEqual,
                integer(3, 9..10)
            ),
            BinaryOperator::Or,
            Stmt::UnaryExpression {
                value: Box::new(ident("x", 18..19)),
                operator: UnaryOperator::Not
            }
        )]
    );
    assert_eq!(
        lex_then_parse("1 <= 2").body,
        vec![binary(integer(1, 0..1), BinaryOperator::LessThanEqual, integer(2, 5..6))]
    );
}

#[test]
fn return_takes_any_expression() {
    assert_eq!(
        lex_then_parse("return -1").body,
        vec![Stmt::ReturnStatement {
            value: Some(Box::new(Stmt::UnaryExpression {
                value: Box::new(integer(1, 8..9)),
                operator: UnaryOperator::Negative
            }))
        }]
    );
}

#[test]
fn custom_and_void_types() {
    assert_eq!(
        lex_then_parse("var a: Apple\nvar b: void\nvar c: String\nvar d: Boolean").body,
        vec![
            declaration(true, "a", Some(DataType::Custom("Apple".to_string())), None),
            declaration(true, "b", Some(DataType::Void), None),
            declaration(true, "c", Some(DataType::String), None),
            declaration(true, "d", Some(DataType::Boolean), None),
        ]
    );
    assert_eq!(DataType::default(), DataType::Void);
    assert_eq!(DataType::Custom("Apple".to_string()).name(), "Apple");
    assert_eq!(DataType::Void.name(), "void");
    assert_eq!(DataType::from_name("Float32".to_string()), DataType::Float32);
}

#[test]
fn first_error_is_returned() {
    assert_eq!(parse_error("var"), "Expected variable name");
    assert_eq!(parse_error("var x"), "Expected a type or value for the variable");
    assert_eq!(parse_error("var x: 1"), "Expected a type");
    assert_eq!(parse_error("(1"), "Expected a closing parenthesis");
    assert_eq!(parse_error("1 +"), "Unexpected end of tokens in expression");
    assert_eq!(parse_error("1 + )"), "Unexpected token in expression");
    assert_eq!(parse_error(")"), "Unexpected token");
    assert_eq!(
        parse_error("f(1 2)"),
        "Expected a comma or closing parenthesis in the function call"
    );
    assert_eq!(parse_error("if 1 2"), "Expected opening brace");
    assert_eq!(parse_error("{ 1"), "Unexpected end of tokens in indented block");
    assert_eq!(parse_error("func"), "Expected the function name");
    assert_eq!(parse_error("func f"), "Expected an opening parenthesis");
    assert_eq!(parse_error("func f("), "Expected a parameter or a closing parenthesis");
    assert_eq!(parse_error("func f(a)"), "Expected a colon after the parameter name");
    assert_eq!(
        parse_error("func f() 1"),
        "Missing a colon after the function name or a return type"
    );
    assert_eq!(parse_error("@a 1"), "Expected the 'func' keyword");
    assert_eq!(
        parse_error("@a(1 2) func f() { }"),
        "Expected a comma or closing parenthesis in the annotation"
    );
    assert_eq!(parse_error("import"), "Expected import item name");
    assert_eq!(parse_error("import a as"), "Expected an alias for the imported item after the 'as' keyword");
    assert_eq!(parse_error("import * a"), "Expected the 'from' or 'as' keyword after '*'");
    assert_eq!(parse_error("import * from"), "Expected a module name after the 'from' keyword");
    assert_eq!(parse_error("import * as"), "Expected an alias name after the 'as' keyword");
    assert_eq!(parse_error("import * as a b"), "Expected the 'from' keyword after module alias");
    assert_eq!(parse_error("1\n)\n("), "Unexpected token");
}

#[test]
fn functions_and_imports_stand_at_the_top_level_only() {
    assert_eq!(
        parse_error("{ func f() { } }"),
        "Functions can only be declared at the top level"
    );
    assert_eq!(parse_error("if 1 { import a }"), "Imports can only stand at the top level");
}

#[test]
fn an_else_without_a_branch_is_dropped() {
    let stmt = lex_then_parse("if 1 { } else\n2").body;
    assert_eq!(
        stmt,
        vec![
            Stmt::IfStatement {
                condition: Box::new(integer(1, 3..4)),
                block: Box::new(block(vec![])),
                else_block: None
            },
            integer(2, 14..15),
        ]
    );
}

#[test]
fn single_parsers_start_at_the_stream_position() {
    let mut tokens =
        lex("1 + 2 { 3 } if 4 { } return \"s\" var x = 5 import a func f() { } 6 \"t\"").unwrap();
    assert_eq!(
        parse_expression(&mut tokens),
        Ok(binary(integer(1, 0..1), BinaryOperator::Add, integer(2, 4..5)))
    );
    assert_eq!(parse_block(&mut tokens), Ok(block(vec![integer(3, 8..9)])));
    assert_eq!(
        parse_if_statement(&mut tokens),
        Ok(Stmt::IfStatement {
            condition: Box::new(integer(4, 15..16)),
            block: Box::new(block(vec![])),
            else_block: None
        })
    );
    assert_eq!(
        parse_return_statement(&mut tokens),
        Ok(Stmt::ReturnStatement {
            value: Some(Box::new(Stmt::String { value: "s".to_string(), span: 28..31 }))
        })
    );
    assert_eq!(
        parse_variable_declaration(&mut tokens),
        Ok(declaration(true, "x", None, Some(integer(5, 40..41))))
    );
    assert_eq!(
        parse_import(&mut tokens),
        Ok(Stmt::ImportModules { modules: vec![("a".to_string(), None)] })
    );
    assert!(parse_func_declaration(&mut tokens).is_ok());
    assert_eq!(parse_statement(&mut tokens, true), Ok(integer(6, 64..65)));
    assert_eq!(parse_string(&mut tokens), Ok(Stmt::String { value: "t".to_string(), span: 66..69 }));
    assert_eq!(tokens.next(), None);
    assert_eq!(parse_string(&mut tokens), Err("Expected string"));
    assert_eq!(
        parse_statement(&mut tokens, true),
        Err("Unexpected end of tokens at beginning of line")
    );
}

#[test]
fn parser_reads_streams_that_were_made_by_hand() {
    let mut tokens = Scanner::from_tokens(vec![
        (Token::Integer(-1), 0..2),
        (Token::NewLine, 2..3),
        (Token::Word("a".to_string()), 3..4),
    ]);
    assert_eq!(parse(&mut tokens), Err("Expected literal"));
    let mut tokens = Scanner::from_tokens(vec![(Token::Word("a".to_string()), 3..4)]);
    assert_eq!(
        parse(&mut tokens),
        Ok(Program { imports: vec![], functions: vec![], body: vec![ident("a", 3..4)] })
    );
}

#[test]
fn single_parsers_refuse_what_is_not_theirs() {
    let refused = |parser: fn(&mut Scanner) -> Result<Stmt, &'static str>, input: &'static str| {
        let mut tokens = lex(input).expect("Failed to lex");
        parser(&mut tokens).expect_err("Parsing should fail")
    };
    assert_eq!(refused(parse_variable_declaration, "1"), "Expected variable declaration");
    assert_eq!(refused(parse_if_statement, "1"), "Expected if statement");
    assert_eq!(refused(parse_return_statement, "1"), "Expected return statement");
    assert_eq!(refused(parse_import, "1"), "Expected import statement");
    assert_eq!(refused(parse_block, "1"), "Expected opening brace");
    assert_eq!(refused(parse_string, "1"), "Expected string");
    assert_eq!(refused(parse_func_declaration, "1"), "Expected the 'func' keyword");
    assert_eq!(refused(parse_func_declaration, "func f() -> 1"), "Expected a type");
    assert_eq!(
        refused(gneurshk::parser::expressions::parse_identifier_or_function_call, "1"),
        "Expected identifier"
    );
    assert_eq!(refused(gneurshk::parser::expressions::parse_literal, "a"), "Expected literal");
    assert_eq!(
        refused(gneurshk::parser::expressions::parse_term, ""),
        "Unexpected end of tokens in expression"
    );
    let mut tokens = lex("1").expect("Failed to lex");
    assert_eq!(gneurshk::parser::variables::parse_type(&mut tokens), Err("Expected a type"));
}

#[test]
fn each_precedence_level_stops_at_a_looser_operator() {
    let source = "1 * 2 + 3 < 4 and 5 or 6";
    let product = binary(integer(1, 0..1), BinaryOperator::Multiply, integer(2, 4..5));
    let sum = binary(product.clone(), BinaryOperator::Add, integer(3, 8..9));
    let comparison = binary(sum.clone(), BinaryOperator::LessThan, integer(4, 12..13));
    let conjunction = binary(comparison.clone(), BinaryOperator::And, integer(5, 18..19));
    let disjunction = binary(conjunction.clone(), BinaryOperator::Or, integer(6, 23..24));
    let parsed = |parser: fn(&mut Scanner) -> Result<Stmt, &'static str>| {
        let mut tokens = lex(source).expect("Failed to lex");
        let stmt = parser(&mut tokens).expect("Failed to parse");
        (stmt, tokens.tokens().len())
    };
    assert_eq!(
        parsed(gneurshk::parser::expressions::parse_multiplication_division),
        (product, 8)
    );
    assert_eq!(parsed(gneurshk::parser::expressions::parse_addition_subtraction), (sum, 6));
    assert_eq!(parsed(gneurshk::parser::expressions::parse_comparison), (comparison, 4));
    assert_eq!(parsed(gneurshk::parser::expressions::parse_logical_and), (conjunction, 2));
    assert_eq!(parsed(gneurshk::parser::expressions::parse_logical_or), (disjunction.clone(), 0));
    assert_eq!(parsed(parse_expression), (disjunction, 0));
}

#[test]
fn programs_can_be_copied() {
    let program = lex_then_parse(
        "import a, b as c from m\n@note(1) func f(a: Int32 = 1, b: String) -> Float32 { if a { return 1.5 } else { g(-a, \"s\", true) } }\nvar x: Boolean = not f(1, \"t\")",
    );
    assert_eq!(program.clone(), program);
    assert_eq!(program.functions[0].duplicate(), program.functions[0]);
    match &program.functions[0] {
        Stmt::FunctionDeclaration { annotations, params, .. } => {
            assert_eq!(annotations[0].clone(), annotations[0]);
            assert_eq!(params[0].clone(), params[0]);
        }
        _ => unreachable!(),
    }
}

#[test]
fn a_parsed_program_keeps_functions_and_imports_at_the_top() {
    fn nested_ok(s: &Stmt) -> bool {
        match s {
            Stmt::Declaration { value, .. } => value.as_deref().map_or(true, nested_ok),
            Stmt::Block { body } => body.iter().all(nested_ok),
            Stmt::IfStatement { condition, block, else_block } => {
                nested_ok(condition)
                    && matches!(**block, Stmt::Block { .. })
                    && nested_ok(block)
                    && else_block.as_deref().map_or(true, nested_ok)
            }
            Stmt::FunctionCall { args, .. } => args.iter().all(nested_ok),
            Stmt::BinaryExpression { left, right, .. } => nested_ok(left) && nested_ok(right),
            Stmt::UnaryExpression { value, .. } => nested_ok(value),
            Stmt::ReturnStatement { value } => value.as_deref().map_or(true, nested_ok),
            Stmt::Identifier { .. }
            | Stmt::Integer { .. }
            | Stmt::Float { .. }
            | Stmt::Boolean { .. }
            | Stmt::String { .. } => true,
            _ => false,
        }
    }
    let program = lex_then_parse(
        "import a\nfunc f(a: Int32) { if a { { var b = a } } else if a > 1 { return } }\nimport b\nvar x = f(1)\n{ f(x) }\nfunc g() { }",
    );
    assert_eq!(program.imports.len(), 2);
    assert!(program.imports.iter().all(|s| matches!(s, Stmt::ImportModules { .. })));
    assert_eq!(program.functions.len(), 2);
    for function in &program.functions {
        match function {
            Stmt::FunctionDeclaration { block, .. } => {
                assert!(matches!(**block, Stmt::Block { .. }));
                assert!(nested_ok(block));
            }
            _ => panic!("no function declaration"),
        }
    }
    assert_eq!(program.body.len(), 2);
    assert!(program.body.iter().all(nested_ok));
}
