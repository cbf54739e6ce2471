use gneurshk::ast::{BinaryOperator, Program, Stmt};
use gneurshk::compiler::ir::{
    BinaryOp, GlobalString, Instr, IrFunction, IrType, IrModule, Placed, Predicate, Value,
};
use gneurshk::compiler::scope::{Scope, Slot};
use gneurshk::compiler::{lower_type, zero_value, Codegen, TypedValue};
use gneurshk::lexer::lex;
use gneurshk::parser::parse;
use gneurshk::types::DataType;

fn compile(input: &str) -> IrModule {
    let mut tokens = lex(input).expect("Failed to lex");
    let program = parse(&mut tokens).expect("Failed to parse");
    let mut codegen = Codegen::new("main");
    codegen.compile(program);
    codegen.module
}

fn function<'a>(module: &'a IrModule, name: &str) -> &'a IrFunction {
    module.functions.iter().find(|f| f.name == name).expect("no such function")
}

fn instructions(f: &IrFunction) -> Vec<(usize, &Instr)> {
    f.body.iter().map(|p| (p.block, &p.instr)).collect()
}

fn integer(value: u64) -> Value {
    Value::ConstInt { ty: IrType::I32, value }
}

fn local(id: usize) -> Value {
    Value::Local { id }
}

fn global(name: &str, text: &str) -> GlobalString {
    GlobalString { name: name.to_string(), text: text.to_string() }
}

fn at(block: usize, instr: Instr) -> Placed {
    Placed { block, instr }
}

fn ret_zero() -> Instr {
    Instr::Ret { value: Some(integer(0)) }
}

fn printf() -> IrFunction {
    IrFunction {
        name: "printf".to_string(),
        params: vec![IrType::Ptr],
        return_type: IrType::I32,
        variadic: true,
        blocks: vec![],
        body: vec![],
    }
}

#[test]
fn a_new_emitter_declares_printf() {
    let codegen = Codegen::new("main");
    assert_eq!(
        codegen.get_module(),
        &IrModule { name: "main".to_string(), globals: vec![], functions: vec![printf()] }
    );
    assert_eq!(codegen.scope.get_function("printf"), Some(0));
    assert!(!codegen.is_open());
}

#[test]
fn hello_world_is_lowered() {
    let module = compile("println(\"Hello, World!\")");
    assert_eq!(
        module,
        IrModule {
            name: "main".to_string(),
            globals: vec![global("const_str", "Hello, World!"), global("format_str", "%s\n")],
            functions: vec![
                printf(),
                IrFunction {
                    name: "main".to_string(),
                    params: vec![],
                    return_type: IrType::I32,
                    variadic: false,
                    blocks: vec!["entry".to_string()],
                    body: vec![
                        at(
                            0,
                            Instr::Call {
                                function: 0,
                                args: vec![Value::Global { index: 1 }, Value::Global { index: 0 }]
                            }
                        ),
                        at(0, ret_zero()),
                    ],
                },
            ],
        }
    );
}

#[test]
fn arithmetic_is_lowered() {
    let module = compile("println(1 + 3 * 4)");
    assert_eq!(module.globals, vec![global("format_str", "%d\n")]);
    assert_eq!(
        function(&module, "main").body,
        vec![
            at(0, Instr::Binary { op: BinaryOp::Mul, left: integer(3), right: integer(4) }),
            at(0, Instr::Binary { op: BinaryOp::Add, left: integer(1), right: local(0) }),
            at(0, Instr::Call { function: 0, args: vec![Value::Global { index: 0 }, local(1)] }),
            at(0, ret_zero()),
        ]
    );
}

#[test]
fn print_multiple_values_is_lowered() {
    let module = compile("println(1, 2, 3)");
    assert_eq!(module.globals, vec![global("format_str", "%d %d %d\n")]);
    assert_eq!(
        function(&module, "main").body,
        vec![
            at(
                0,
                Instr::Call {
                    function: 0,
                    args: vec![Value::Global { index: 0 }, integer(1), integer(2), integer(3)]
                }
            ),
            at(0, ret_zero()),
        ]
    );
}

#[test]
fn multiple_println_statements_is_lowered() {
    let module = compile("println(1)\nprintln(2)\nprint(3)");
    assert_eq!(
        module.globals,
        vec![global("format_str", "%d\n"), global("format_str", "%d\n"), global("format_str", "%d")]
    );
    assert_eq!(function(&module, "main").body.len(), 4);
}

#[test]
fn values_are_promoted_for_printf() {
    let module = compile("println(1.5, true, \"s\", 2)\nprint()");
    assert_eq!(
        module.globals,
        vec![
            global("const_str", "s"),
            global("format_str", "%f %d %s %d\n"),
            global("format_str", "")
        ]
    );
    assert_eq!(
        function(&module, "main").body,
        vec![
            at(0, Instr::FpExt { value: Value::ConstFloat { text: "1.5".to_string() } }),
            at(
                0,
                Instr::ZExt { value: Value::ConstInt { ty: IrType::I1, value: 1 }, to: IrType::I32 }
            ),
            at(
                0,
                Instr::Call {
                    function: 0,
                    args: vec![
                        Value::Global { index: 1 },
                        local(0),
                        local(1),
                        Value::Global { index: 0 },
                        integer(2)
                    ]
                }
            ),
            at(0, Instr::Call { function: 0, args: vec![Value::Global { index: 2 }] }),
            at(0, ret_zero()),
        ]
    );
}

#[test]
fn add_two_numbers_with_function_is_lowered() {
    let module = compile("func add(a: Int32, b: Int32) -> Int32 { return a + b }\nprintln(add(2, 3))");
    assert_eq!(module.functions.len(), 3);
    assert_eq!(
        module.functions[1],
        IrFunction {
            name: "add".to_string(),
            params: vec![IrType::I32, IrType::I32],
            return_type: IrType::I32,
            variadic: false,
            blocks: vec!["entry".to_string()],
            body: vec![
                at(0, Instr::Alloca { ty: IrType::I32, name: "a".to_string() }),
                at(0, Instr::Store { slot: local(0), value: Value::Param { index: 0 } }),
                at(0, Instr::Alloca { ty: IrType::I32, name: "b".to_string() }),
                at(0, Instr::Store { slot: local(2), value: Value::Param { index: 1 } }),
                at(0, Instr::Load { ty: IrType::I32, slot: local(0) }),
                at(0, Instr::Load { ty: IrType::I32, slot: local(2) }),
                at(0, Instr::Binary { op: BinaryOp::Add, left: local(4), right: local(5) }),
                at(0, Instr::Ret { value: Some(local(6)) }),
            ],
        }
    );
    assert_eq!(
        function(&module, "main").body,
        vec![
            at(0, Instr::Call { function: 1, args: vec![integer(2), integer(3)] }),
            at(0, Instr::Call { function: 0, args: vec![Value::Global { index: 0 }, local(0)] }),
            at(0, ret_zero()),
        ]
    );
}

#[test]
fn if_statement_is_lowered() {
    let module = compile("if true { println(\"if\") }");
    let main = function(&module, "main");
    assert_eq!(main.blocks, vec!["entry", "--if-then", "--if-merge"]);
    assert_eq!(
        instructions(main),
        vec![
            (
                0,
                &Instr::ICmp {
                    predicate: Predicate::Ne,
                    left: Value::ConstInt { ty: IrType::I1, value: 1 },
                    right: Value::ConstInt { ty: IrType::I1, value: 0 }
                }
            ),
            (0, &Instr::CondBr { condition: local(0), then_block: 1, else_block: 2 }),
            (
                1,
                &Instr::Call {
                    function: 0,
                    args: vec![Value::Global { index: 1 }, Value::Global { index: 0 }]
                }
            ),
            (1, &Instr::Br { target: 2 }),
            (2, &ret_zero()),
        ]
    );
}

#[test]
fn if_else_statement_is_lowered() {
    let module = compile("if false { println(\"if\") } else { println(\"else\") }");
    let main = function(&module, "main");
    assert_eq!(main.blocks, vec!["entry", "--if-then", "--if-else", "--if-merge"]);
    let blocks: Vec<usize> = main.body.iter().map(|p| p.block).collect();
    assert_eq!(blocks, vec![0, 0, 1, 1, 2, 2, 3]);
    assert_eq!(
        main.body[1],
        at(0, Instr::CondBr { condition: local(0), then_block: 1, else_block: 2 })
    );
    assert_eq!(main.body[3], at(1, Instr::Br { target: 3 }));
    assert_eq!(main.body[5], at(2, Instr::Br { target: 3 }));
    assert_eq!(main.body[6], at(3, ret_zero()));
}

#[test]
fn if_finally_statement_is_lowered() {
    let module = compile("if true { println(\"if\") }\nprintln(\"finally\")");
    let main = function(&module, "main");
    let blocks: Vec<usize> = main.body.iter().map(|p| p.block).collect();
    assert_eq!(blocks, vec![0, 0, 1, 1, 2, 2]);
    assert_eq!(module.globals[2], global("const_str", "finally"));
}

#[test]
fn pass_if_finally_statement_is_lowered() {
    let module = compile("if false { println(\"if\") }\nprintln(\"finally\")");
    let main = function(&module, "main");
    assert_eq!(
        main.body[0],
        at(
            0,
            Instr::ICmp {
                predicate: Predicate::Ne,
                left: Value::ConstInt { ty: IrType::I1, value: 0 },
                right: Value::ConstInt { ty: IrType::I1, value: 0 }
            }
        )
    );
    assert_eq!(main.body.len(), 6);
}

#[test]
fn if_else_finally_statement_is_lowered() {
    let module =
        compile("if true { println(\"if\") } else { println(\"else\") }\nprintln(\"finally\")");
    let main = function(&module, "main");
    let blocks: Vec<usize> = main.body.iter().map(|p| p.block).collect();
    assert_eq!(blocks, vec![0, 0, 1, 1, 2, 2, 3, 3]);
    let texts: Vec<&str> = module.globals.iter().map(|g| g.text.as_str()).collect();
    assert_eq!(texts, vec!["if", "%s\n", "else", "%s\n", "finally", "%s\n"]);
}

#[test]
fn fibonacci_is_lowered() {
    let module = compile(
        "func fib(n: Int32) -> Int32 {\n  if n <= 1 { return n }\n  return fib(n - 1) + fib(n - 2)\n}\nprintln(fib(42))",
    );
    let fib = function(&module, "fib");
    assert_eq!(fib.blocks, vec!["entry", "--if-then", "--if-merge"]);
    assert_eq!(
        instructions(fib),
        vec![
            (0, &Instr::Alloca { ty: IrType::I32, name: "n".to_string() }),
            (0, &Instr::Store { slot: local(0), value: Value::Param { index: 0 } }),
            (0, &Instr::Load { ty: IrType::I32, slot: local(0) }),
            (0, &Instr::ICmp { predicate: Predicate::Sle, left: local(2), right: integer(1) }),
            (0, &Instr::ZExt { value: local(3), to: IrType::I32 }),
            (0, &Instr::ICmp { predicate: Predicate::Ne, left: local(4), right: integer(0) }),
            (0, &Instr::CondBr { condition: local(5), then_block: 1, else_block: 2 }),
            (1, &Instr::Load { ty: IrType::I32, slot: local(0) }),
            (1, &Instr::Ret { value: Some(local(7)) }),
            (2, &Instr::Load { ty: IrType::I32, slot: local(0) }),
            (2, &Instr::Binary { op: BinaryOp::Sub, left: local(9), right: integer(1) }),
            (2, &Instr::Call { function: 1, args: vec![local(10)] }),
            (2, &Instr::Load { ty: IrType::I32, slot: local(0) }),
            (2, &Instr::Binary { op: BinaryOp::Sub, left: local(12), right: integer(2) }),
            (2, &Instr::Call { function: 1, args: vec![local(13)] }),
            (2, &Instr::Binary { op: BinaryOp::Add, left: local(11), right: local(14) }),
            (2, &Instr::Ret { value: Some(local(15)) }),
        ]
    );
    assert_eq!(
        function(&module, "main").body[0],
        at(0, Instr::Call { function: 1, args: vec![integer(42)] })
    );
}

#[test]
fn factorial_is_lowered() {
    let module = compile(
        "func factorial(n: Int32) -> Int32 {\n  if n == 0 { return 1 }\n  return n * factorial(n - 1)\n}\nprintln(factorial(12))",
    );
    let factorial = function(&module, "factorial");
    assert_eq!(
        factorial.body[3],
        at(0, Instr::ICmp { predicate: Predicate::Eq, left: local(2), right: integer(0) })
    );
    assert_eq!(factorial.body[7], at(1, Instr::Ret { value: Some(integer(1)) }));
    assert_eq!(
        factorial.body[12],
        at(2, Instr::Binary { op: BinaryOp::Mul, left: local(8), right: local(11) })
    );
    assert_eq!(
        function(&module, "main").body[0],
        at(0, Instr::Call { function: 1, args: vec![integer(12)] })
    );
}

#[test]
fn what_follows_a_return_is_skipped() {
    let module = compile("return 1\nprintln(2)");
    assert_eq!(function(&module, "main").body, vec![at(0, Instr::Ret { value: Some(integer(1)) })]);
    assert_eq!(module.globals, vec![]);
}

#[test]
fn both_branches_may_return() {
    let module = compile("func f(a: Int32) -> Int32 { if a { return 1 } else { return 2 } }");
    let f = function(&module, "f");
    assert_eq!(f.blocks, vec!["entry", "--if-then", "--if-else", "--if-merge"]);
    let blocks: Vec<usize> = f.body.iter().map(|p| p.block).collect();
    assert_eq!(blocks, vec![0, 0, 0, 0, 0, 1, 2, 3]);
    assert_eq!(f.body[7], at(3, ret_zero()));
}

#[test]
fn every_block_ends_with_one_terminator() {
    let module = compile(
        "func f(a: Int32) { if a { if a > 1 { return } else { println(a) } } println(a) }\nif f(1) { } else { return 2 }\nf(3)",
    );
    for f in &module.functions {
        for block in 0..f.blocks.len() {
            let inside: Vec<&Instr> =
                f.body.iter().filter(|p| p.block == block).map(|p| &p.instr).collect();
            let ends = inside.iter().filter(|i| i.ends_block()).count();
            assert_eq!(ends, 1, "{} block {}", f.name, block);
            assert!(inside.last().unwrap().ends_block());
        }
    }
}

#[test]
fn declarations_get_typed_slots() {
    let module = compile("var a = 1\nvar b: Float32 = 2.5\nvar c: String\nvar d: Boolean = 1\nvar e = a\nvar f = missing");
    assert_eq!(
        function(&module, "main").body,
        vec![
            at(0, Instr::Alloca { ty: IrType::I32, name: "a".to_string() }),
            at(0, Instr::Store { slot: local(0), value: integer(1) }),
            at(0, Instr::Alloca { ty: IrType::F32, name: "b".to_string() }),
            at(
                0,
                Instr::Store { slot: local(2), value: Value::ConstFloat { text: "2.5".to_string() } }
            ),
            at(0, Instr::Alloca { ty: IrType::Ptr, name: "c".to_string() }),
            at(0, Instr::Store { slot: local(4), value: Value::Null }),
            at(0, Instr::ICmp { predicate: Predicate::Ne, left: integer(1), right: integer(0) }),
            at(0, Instr::Alloca { ty: IrType::I1, name: "d".to_string() }),
            at(0, Instr::Store { slot: local(7), value: local(6) }),
            at(0, Instr::Load { ty: IrType::I32, slot: local(0) }),
            at(0, Instr::Alloca { ty: IrType::I32, name: "e".to_string() }),
            at(0, Instr::Store { slot: local(10), value: local(9) }),
            at(0, Instr::Alloca { ty: IrType::I32, name: "f".to_string() }),
            at(0, Instr::Store { slot: local(12), value: integer(0) }),
            at(0, ret_zero()),
        ]
    );
}

#[test]
fn blocks_have_their_own_scope() {
    let module = compile("var a = 1\n{ var a = 2.5\n println(a) }\nprintln(a)\n{ var b = 1 }\nprintln(b)");
    let texts: Vec<&str> = module.globals.iter().map(|g| g.text.as_str()).collect();
    assert_eq!(texts, vec!["%f\n", "%d\n", "\n"]);
    let main = function(&module, "main");
    assert_eq!(main.body[4], at(0, Instr::Load { ty: IrType::F32, slot: local(2) }));
    assert_eq!(main.body[7], at(0, Instr::Load { ty: IrType::I32, slot: local(0) }));
}

#[test]
fn operators_choose_their_instructions() {
    let mut codegen = Codegen::new("m");
    codegen.begin(IrType::I32);
    let i = |v| TypedValue { value: integer(v), ty: IrType::I32 };
    let f = |t: &str| TypedValue { value: Value::ConstFloat { text: t.to_string() }, ty: IrType::F32 };
    let b = |v| TypedValue { value: Value::ConstInt { ty: IrType::I1, value: v }, ty: IrType::I1 };
    assert_eq!(codegen.apply_binary(BinaryOperator::Divide, i(6), i(3)), Some(TypedValue { value: local(0), ty: IrType::I32 }));
    assert_eq!(codegen.apply_binary(BinaryOperator::Modulus, f("1.0"), f("2.0")), Some(TypedValue { value: local(1), ty: IrType::F32 }));
    assert_eq!(codegen.apply_binary(BinaryOperator::Add, i(1), f("2.0")), None);
    assert_eq!(codegen.apply_binary(BinaryOperator::GreaterThan, f("1.0"), f("2.0")), Some(TypedValue { value: local(3), ty: IrType::I32 }));
    assert_eq!(codegen.apply_binary(BinaryOperator::And, b(1), i(2)), Some(TypedValue { value: local(5), ty: IrType::I32 }));
    assert_eq!(codegen.apply_binary(BinaryOperator::Or, b(1), b(0)), Some(TypedValue { value: local(6), ty: IrType::I1 }));
    assert_eq!(codegen.build_not_expression(i(0)), Some(TypedValue { value: local(8), ty: IrType::I32 }));
    assert_eq!(codegen.build_not_expression(f("0.0")), None);
    assert_eq!(codegen.build_negative_expression(i(1)), Some(TypedValue { value: local(9), ty: IrType::I32 }));
    assert_eq!(codegen.build_negative_expression(f("1.0")), Some(TypedValue { value: local(10), ty: IrType::F32 }));
    assert_eq!(codegen.build_negative_expression(b(1)), None);
    let body: Vec<Instr> = codegen.body.into_iter().map(|p| p.instr).collect();
    assert_eq!(
        body,
        vec![
            Instr::Binary { op: BinaryOp::SDiv, left: integer(6), right: integer(3) },
            Instr::Binary {
                op: BinaryOp::FRem,
                left: Value::ConstFloat { text: "1.0".to_string() },
                right: Value::ConstFloat { text: "2.0".to_string() }
            },
            Instr::FCmp {
                predicate: Predicate::Sgt,
                left: Value::ConstFloat { text: "1.0".to_string() },
                right: Value::ConstFloat { text: "2.0".to_string() }
            },
            Instr::ZExt { value: local(2), to: IrType::I32 },
            Instr::ZExt { value: Value::ConstInt { ty: IrType::I1, value: 1 }, to: IrType::I32 },
            Instr::Binary { op: BinaryOp::And, left: local(4), right: integer(2) },
            Instr::Binary {
                op: BinaryOp::Or,
                left: Value::ConstInt { ty: IrType::I1, value: 1 },
                right: Value::ConstInt { ty: IrType::I1, value: 0 }
            },
            Instr::ICmp { predicate: Predicate::Eq, left: integer(0), right: integer(0) },
            Instr::ZExt { value: local(7), to: IrType::I32 },
            Instr::Neg { value: integer(1) },
            Instr::FNeg { value: Value::ConstFloat { text: "1.0".to_string() } },
        ]
    );
}

#[test]
fn calls_must_fit_the_declaration() {
    let module = compile("func f(a: Int32) -> Float32 { }\nfunc g() { }\nf(1.5)\nf(1, 2)\nvar x = f(1)\nvar y = g()\nh()");
    assert_eq!(
        function(&module, "main").body,
        vec![
            at(0, Instr::Call { function: 1, args: vec![integer(1)] }),
            at(0, Instr::Alloca { ty: IrType::F32, name: "x".to_string() }),
            at(0, Instr::Store { slot: local(1), value: local(0) }),
            at(0, Instr::Call { function: 2, args: vec![] }),
            at(0, Instr::Alloca { ty: IrType::I32, name: "y".to_string() }),
            at(0, Instr::Store { slot: local(4), value: integer(0) }),
            at(0, ret_zero()),
        ]
    );
    assert_eq!(
        function(&module, "f").body,
        vec![
            at(0, Instr::Alloca { ty: IrType::I32, name: "a".to_string() }),
            at(0, Instr::Store { slot: local(0), value: Value::Param { index: 0 } }),
            at(0, Instr::Ret { value: Some(Value::ConstFloat { text: "0.0".to_string() }) }),
        ]
    );
    assert_eq!(function(&module, "g").body, vec![at(0, Instr::Ret { value: None })]);
}

#[test]
fn parameters_without_a_value_are_left_out() {
    let module = compile("func f(a: void, b: String, c: Boolean) -> String { }");
    let f = function(&module, "f");
    assert_eq!(f.params, vec![IrType::Ptr, IrType::I1]);
    assert_eq!(
        f.body,
        vec![
            at(0, Instr::Alloca { ty: IrType::Ptr, name: "b".to_string() }),
            at(0, Instr::Store { slot: local(0), value: Value::Param { index: 0 } }),
            at(0, Instr::Alloca { ty: IrType::I1, name: "c".to_string() }),
            at(0, Instr::Store { slot: local(2), value: Value::Param { index: 1 } }),
            at(0, Instr::Ret { value: Some(Value::Null) }),
        ]
    );
}

#[test]
fn lowering_is_deterministic() {
    let source = "func f(a: Int32) -> Int32 { if a { return f(a - 1) } return 0 }\nvar x = f(3)\nprintln(x, \"s\", 1.5)";
    assert_eq!(compile(source), compile(source));
}

#[test]
fn statements_that_are_no_functions_are_passed_over() {
    let mut codegen = Codegen::new("main");
    codegen.compile(Program {
        imports: vec![],
        functions: vec![Stmt::Integer { value: 1, span: 0..1 }],
        body: vec![],
    });
    assert_eq!(codegen.module.functions.len(), 2);
    assert_eq!(codegen.module.functions[1].body, vec![at(0, ret_zero())]);
}

#[test]
fn types_and_zeros() {
    assert_eq!(lower_type(&DataType::Int32), IrType::I32);
    assert_eq!(lower_type(&DataType::Float32), IrType::F32);
    assert_eq!(lower_type(&DataType::String), IrType::Ptr);
    assert_eq!(lower_type(&DataType::Boolean), IrType::I1);
    assert_eq!(lower_type(&DataType::Void), IrType::Void);
    assert_eq!(lower_type(&DataType::Custom("A".to_string())), IrType::I32);
    assert_eq!(zero_value(IrType::I32), integer(0));
    assert_eq!(zero_value(IrType::Ptr), Value::Null);
    assert_eq!(zero_value(IrType::F32), Value::ConstFloat { text: "0.0".to_string() });
    assert_eq!(zero_value(IrType::F32).clone(), zero_value(IrType::F64));
}

#[test]
fn emitter_scope_takes_the_last_binding() {
    let mut outer = Scope::new(None);
    outer.set_variable("a", Slot { id: 0, ty: IrType::I32 });
    outer.set_variable("a", Slot { id: 1, ty: IrType::F32 });
    outer.set_function("f", 3);
    let mut inner = outer.enter();
    assert_eq!(inner.get_variable("a"), Some(Slot { id: 1, ty: IrType::F32 }));
    inner.set_variable("a", Slot { id: 2, ty: IrType::Ptr });
    inner.set_function("g", 4);
    assert_eq!(inner.get_variable("a"), Some(Slot { id: 2, ty: IrType::Ptr }));
    assert_eq!(inner.get_function("f"), Some(3));
    assert_eq!(inner.get_function("g"), Some(4));
    assert_eq!(inner.get_variable("b"), None);
    let outer = inner.exit();
    assert_eq!(outer.get_variable("a"), Some(Slot { id: 1, ty: IrType::F32 }));
    assert_eq!(outer.get_function("g"), None);
    let root = outer.exit();
    assert_eq!(root.get_function("f"), Some(3));
}

#[test]
fn scopes_of_the_emitter_nest() {
    let mut codegen = Codegen::new("m");
    codegen.begin(IrType::I32);
    codegen.enter_new_scope();
    codegen.declare_variable(&"a".to_string(), &None, None);
    assert_eq!(codegen.scope.get_variable("a"), Some(Slot { id: 0, ty: IrType::I32 }));
    codegen.exit_scope();
    assert_eq!(codegen.scope.get_variable("a"), None);
    codegen.exit_scope();
    assert_eq!(codegen.scope.get_function("printf"), Some(0));
}

#[test]
fn integers_are_made_to_fit() {
    let module = compile(
        "func f(b: Boolean, n: Int32) -> Boolean { return n }\nfunc g() { return 1 }\nfunc h() -> Int32 { return }\nfunc k() -> Int32 { return 1.5 }\nvar x: Int32 = f(1 < 2, true)",
    );
    assert_eq!(
        function(&module, "main").body,
        vec![
            at(0, Instr::ICmp { predicate: Predicate::Slt, left: integer(1), right: integer(2) }),
            at(0, Instr::ZExt { value: local(0), to: IrType::I32 }),
            at(0, Instr::ICmp { predicate: Predicate::Ne, left: local(1), right: integer(0) }),
            at(
                0,
                Instr::ZExt { value: Value::ConstInt { ty: IrType::I1, value: 1 }, to: IrType::I32 }
            ),
            at(0, Instr::Call { function: 1, args: vec![local(2), local(3)] }),
            at(0, Instr::ZExt { value: local(4), to: IrType::I32 }),
            at(0, Instr::Alloca { ty: IrType::I32, name: "x".to_string() }),
            at(0, Instr::Store { slot: local(6), value: local(5) }),
            at(0, ret_zero()),
        ]
    );
    let f = function(&module, "f");
    assert_eq!(f.return_type, IrType::I1);
    assert_eq!(
        f.body[5..],
        [
            at(0, Instr::ICmp { predicate: Predicate::Ne, left: local(4), right: integer(0) }),
            at(0, Instr::Ret { value: Some(local(5)) }),
        ]
    );
    assert_eq!(function(&module, "g").body, vec![at(0, Instr::Ret { value: None })]);
    assert_eq!(function(&module, "h").body, vec![at(0, ret_zero())]);
    assert_eq!(function(&module, "k").body, vec![at(0, ret_zero())]);
}

#[test]
fn every_reference_exists() {
    let module = compile(
        "func f(a: Int32, s: String) -> Int32 { if a > 1 { println(s, a) } else { return f(a + 1, \"x\") } return -a }\nvar t = f(1, \"y\")\n{ var u = t * 2\n print(u, 1.5, not u) }",
    );
    for f in &module.functions {
        for (i, placed) in f.body.iter().enumerate() {
            assert!(placed.block < f.blocks.len());
            let mut operands: Vec<&Value> = Vec::new();
            match &placed.instr {
                Instr::Alloca { .. } => {}
                Instr::Store { slot, value } => operands.extend([slot, value]),
                Instr::Load { slot, .. } => operands.push(slot),
                Instr::Binary { left, right, .. }
                | Instr::ICmp { left, right, .. }
                | Instr::FCmp { left, right, .. } => operands.extend([left, right]),
                Instr::ZExt { value, .. }
                | Instr::FpExt { value }
                | Instr::Neg { value }
                | Instr::FNeg { value } => operands.push(value),
                Instr::Call { function, args } => {
                    assert!(*function < module.functions.len());
                    operands.extend(args.iter());
                }
                Instr::Br { target } => assert!(*target < f.blocks.len()),
                Instr::CondBr { condition, then_block, else_block } => {
                    assert!(*then_block < f.blocks.len() && *else_block < f.blocks.len());
                    operands.push(condition);
                }
                Instr::Ret { value } => operands.extend(value.iter()),
            }
            for operand in operands {
                match operand {
                    Value::Local { id } => assert!(*id < i, "{} instruction {}", f.name, i),
                    Value::Global { index } => assert!(*index < module.globals.len()),
                    Value::Param { index } => assert!(*index < f.params.len()),
                    _ => {}
                }
            }
        }
    }
}
