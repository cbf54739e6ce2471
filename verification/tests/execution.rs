use gneurshk::analyzer::errors::{SematicError, SematicWarning};
use gneurshk::analyzer::Analyzer;
use gneurshk::compiler::ir::{BinaryOp, Instr, IrModule, IrType, Predicate, Value};
use gneurshk::compiler::Codegen;
use gneurshk::lexer::lex;
use gneurshk::parser::parse;
use gneurshk::pipeline::{
    analyze_program, build, create_ast, executable_name, ir_file_name, object_file_name, tokenize,
    BuildError,
};
use std::collections::HashMap;

/// A value of a running program.
#[derive(Debug, Clone, PartialEq)]
enum Data {
    Int(i64),
    Float(f64),
    Text(usize),
    Slot(usize),
    Null,
}

/// Runs the modules that the emitter makes, one instruction at a time.
struct Machine<'a> {
    module: &'a IrModule,
    output: String,
    known: HashMap<(usize, Vec<i64>), Option<Data>>,
}

fn narrow(value: i64, ty: IrType) -> i64 {
    match ty {
        IrType::I1 => value & 1,
        _ => value as i32 as i64,
    }
}

impl<'a> Machine<'a> {
    fn new(module: &'a IrModule) -> Self {
        Machine { module, output: String::new(), known: HashMap::new() }
    }

    fn printf(&mut self, args: &[Data]) {
        let format = match &args[0] {
            Data::Text(index) => self.module.globals[*index].text.clone(),
            other => panic!("printf needs a format, not {other:?}"),
        };
        let mut rest = args[1..].iter();
        let mut chars = format.chars();
        while let Some(c) = chars.next() {
            if c != '%' {
                self.output.push(c);
                continue;
            }
            match (chars.next(), rest.next()) {
                (Some('d'), Some(Data::Int(v))) => self.output.push_str(&v.to_string()),
                (Some('f'), Some(Data::Float(v))) => self.output.push_str(&format!("{v:.6}")),
                (Some('s'), Some(Data::Text(index))) => {
                    self.output.push_str(&self.module.globals[*index].text)
                }
                other => panic!("directive and value do not fit: {other:?}"),
            }
        }
        assert_eq!(rest.next(), None);
    }

    fn pure(&self, function: usize) -> bool {
        self.module.functions[function].body.iter().all(|p| match &p.instr {
            Instr::Call { function: callee, .. } => *callee == function,
            _ => true,
        })
    }

    fn call(&mut self, function: usize, args: Vec<Data>) -> Option<Data> {
        if self.module.functions[function].name == "printf" {
            self.printf(&args);
            return Some(Data::Int(0));
        }
        let key: Option<Vec<i64>> = args
            .iter()
            .map(|a| match a {
                Data::Int(v) => Some(*v),
                _ => None,
            })
            .collect();
        let key = key.filter(|_| self.pure(function)).map(|k| (function, k));
        if let Some(result) = key.as_ref().and_then(|k| self.known.get(k)) {
            return result.clone();
        }
        let result = self.run(function, args);
        if let Some(k) = key {
            self.known.insert(k, result.clone());
        }
        result
    }

    fn run(&mut self, function: usize, args: Vec<Data>) -> Option<Data> {
        let module = self.module;
        let f = &module.functions[function];
        assert_eq!(args.len(), f.params.len());
        let mut values: HashMap<usize, Data> = HashMap::new();
        let mut memory: HashMap<usize, Data> = HashMap::new();
        let mut block = 0;
        loop {
            let mut next = None;
            for (id, placed) in f.body.iter().enumerate().filter(|(_, p)| p.block == block) {
                let read = |v: &Value| -> Data {
                    match v {
                        Value::ConstInt { ty, value } => Data::Int(narrow(*value as i64, *ty)),
                        Value::ConstFloat { text } => Data::Float(text.parse::<f32>().unwrap() as f64),
                        Value::Null => Data::Null,
                        Value::Global { index } => Data::Text(*index),
                        Value::Local { id } => values[id].clone(),
                        Value::Param { index } => args[*index].clone(),
                    }
                };
                let int = |v: &Value| match read(v) {
                    Data::Int(i) => i,
                    other => panic!("expected an integer, not {other:?}"),
                };
                let float = |v: &Value| match read(v) {
                    Data::Float(x) => x,
                    other => panic!("expected a float, not {other:?}"),
                };
                let holds = |p: Predicate, o: std::cmp::Ordering| match p {
                    Predicate::Eq => o.is_eq(),
                    Predicate::Ne => o.is_ne(),
                    Predicate::Sgt => o.is_gt(),
                    Predicate::Sge => o.is_ge(),
                    Predicate::Slt => o.is_lt(),
                    Predicate::Sle => o.is_le(),
                };
                let result = match &placed.instr {
                    Instr::Alloca { .. } => Some(Data::Slot(id)),
                    Instr::Store { slot, value } => {
                        match read(slot) {
                            Data::Slot(s) => memory.insert(s, read(value)),
                            other => panic!("expected a slot, not {other:?}"),
                        };
                        None
                    }
                    Instr::Load { slot, .. } => match read(slot) {
                        Data::Slot(s) => Some(memory[&s].clone()),
                        other => panic!("expected a slot, not {other:?}"),
                    },
                    Instr::Binary { op, left, right } => Some(match op {
                        BinaryOp::Add => Data::Int(narrow(int(left) + int(right), IrType::I32)),
                        BinaryOp::Sub => Data::Int(narrow(int(left) - int(right), IrType::I32)),
                        BinaryOp::Mul => Data::Int(narrow(int(left) * int(right), IrType::I32)),
                        BinaryOp::SDiv => Data::Int(narrow(int(left) / int(right), IrType::I32)),
                        BinaryOp::SRem => Data::Int(narrow(int(left) % int(right), IrType::I32)),
                        BinaryOp::And => Data::Int(int(left) & int(right)),
                        BinaryOp::Or => Data::Int(int(left) | int(right)),
                        BinaryOp::FAdd => Data::Float((float(left) as f32 + float(right) as f32) as f64),
                        BinaryOp::FSub => Data::Float((float(left) as f32 - float(right) as f32) as f64),
                        BinaryOp::FMul => Data::Float((float(left) as f32 * float(right) as f32) as f64),
                        BinaryOp::FDiv => Data::Float((float(left) as f32 / float(right) as f32) as f64),
                        BinaryOp::FRem => Data::Float((float(left) as f32 % float(right) as f32) as f64),
                    }),
                    Instr::ICmp { predicate, left, right } => {
                        Some(Data::Int(holds(*predicate, int(left).cmp(&int(right))) as i64))
                    }
                    Instr::FCmp { predicate, left, right } => Some(Data::Int(
                        float(left)
                            .partial_cmp(&float(right))
                            .map_or(false, |o| holds(*predicate, o)) as i64,
                    )),
                    Instr::ZExt { value, .. } => Some(Data::Int(int(value))),
                    Instr::FpExt { value } => Some(Data::Float(float(value))),
                    Instr::Neg { value } => Some(Data::Int(narrow(-int(value), IrType::I32))),
                    Instr::FNeg { value } => Some(Data::Float(-float(value))),
                    Instr::Call { function, args } => {
                        let args: Vec<Data> = args.iter().map(read).collect();
                        self.call(*function, args)
                    }
                    Instr::Br { target } => {
                        next = Some(*target);
                        None
                    }
                    Instr::CondBr { condition, then_block, else_block } => {
                        next = Some(if int(condition) != 0 { *then_block } else { *else_block });
                        None
                    }
                    Instr::Ret { value } => return value.as_ref().map(read),
                };
                if let Some(v) = result {
                    values.insert(id, v);
                }
                if next.is_some() {
                    break;
                }
            }
            block = next.expect("a block must end with a jump or a return");
        }
    }
}

/// Compiles a source and runs its `main`. The result is what the program
/// writes, or the error that stopped the compilation.
fn compile_and_run(source: &str, _output_name: &str) -> Result<String, String> {
    let mut tokens = lex(source)?;
    let program = parse(&mut tokens).map_err(|e| e.to_string())?;
    let mut analyzer = Analyzer::new();
    analyzer.analyze(program.clone())?;
    if !analyzer.errors.is_empty() {
        return Err(analyzer.errors.iter().map(|e| e.message()).collect::<Vec<_>>().join("\n"));
    }
    let mut codegen = Codegen::new("main");
    codegen.compile(program);
    let module = codegen.get_module();
    let main = module.functions.iter().position(|f| f.name == "main").expect("no main");
    let mut machine = Machine::new(module);
    match machine.run(main, vec![]) {
        Some(Data::Int(0)) => Ok(machine.output),
        other => Err(format!("Executable failed with status: {other:?}")),
    }
}

fn lines(expected: &str) -> String {
    expected.replace("\r\n", "\n")
}

#[test]
fn hello_world() {
    let source = r#"println("Hello, World!")"#;

    let output = compile_and_run(source, "hello_world").unwrap();

    assert_eq!(output.trim(), "Hello, World!");
}

#[test]
fn arithmetic() {
    let source = r#"println(1 + 3 * 4)"#;

    let output = compile_and_run(source, "arithmetic").unwrap();

    assert_eq!(output.trim(), "13");
}

#[test]
fn add_two_numbers_with_function() {
    let source = r#"
            func add(a: Int32, b: Int32) -> Int32 {
                return a + b
            }

            println(add(2, 3))
        "#;

    let output = compile_and_run(source, "add_two_numbers_with_function").unwrap();

    assert_eq!(output.trim(), "5");
}

#[test]
fn multiple_println_statements() {
    let source = r#"
            println(1)
            println(2)
            println(3)
        "#;

    let output = compile_and_run(source, "multiple_println_statements").unwrap();

    assert_eq!(output.trim(), lines("1\r\n2\r\n3"));
}

#[test]
fn print_multiple_values() {
    let source = r#"println(1, 2, 3)"#;

    let output = compile_and_run(source, "print_multiple_values").unwrap();

    assert_eq!(output.trim(), "1 2 3");
}

#[test]
fn if_statement() {
    let source = r#"
            if true {
                println("if")
            }
        "#;

    let output = compile_and_run(source, "if_statement").unwrap();

    assert_eq!(output.trim(), "if");
}

#[test]
fn if_else_statement() {
    let source = r#"
            if true {
                println("if")
            } else {
                println("else")
            }
        "#;

    let output = compile_and_run(source, "if_else_statement").unwrap();

    assert_eq!(output.trim(), "if");
}

#[test]
fn pass_if_finally_statement() {
    let source = r#"
            if false {
                println("if")
            }

            println("finally")
        "#;

    let output = compile_and_run(source, "pass_if_finally_statement").unwrap();

    assert_eq!(output.trim(), "finally");
}

#[test]
fn if_finally_statement() {
    let source = r#"
            if true {
                println("if")
            }

            println("finally")
        "#;

    let output = compile_and_run(source, "if_finally_statement").unwrap();

    assert_eq!(output.trim(), lines("if\r\nfinally"));
}

#[test]
fn if_else_finally_statement() {
    let source = r#"
            if false {
                println("if")
            } else {
                println("else")
            }

            println("finally")
        "#;

    let output = compile_and_run(source, "if_else_finally_statement").unwrap();

    assert_eq!(output.trim(), lines("else\r\nfinally"));
}

#[test]
fn fibonacci() {
    let source = r#"
            func fib(n: Int32) -> Int32 {
                if n <= 1 {
                    return n
                }

                return fib(n - 1) + fib(n - 2)
            }

            println(fib(42))
        "#;

    let output = compile_and_run(source, "fibonacci").unwrap();

    assert_eq!(output.trim(), "267914296");
}

#[test]
fn factorial() {
    let source = r#"
            func factorial(n: Int32) -> Int32 {
                if n == 0 {
                    return 1
                }

                return n * factorial(n - 1)
            }

            println(factorial(12))
        "#;

    let output = compile_and_run(source, "factorial").unwrap();

    assert_eq!(output.trim(), "479001600");
}

#[test]
fn values_of_every_type_are_written() {
    let source = "var a = 2.5\nvar b: Boolean = 1 < 2\nvar c = \"text\"\nprintln(a * a, b, c, not b, -3 % 2)\nprint(7 / 2)\nprint(\" \", 1.5 > 2.5)";
    let output = compile_and_run(source, "values").unwrap();
    assert_eq!(output, "6.250000 1 text 0 -1\n3  0");
}

#[test]
fn variables_live_in_their_blocks() {
    let source = "var a = 1\nif a == 1 { var a = 2\n println(a) } else { println(0) }\nprintln(a)";
    let output = compile_and_run(source, "blocks").unwrap();
    assert_eq!(output, "2\n1\n");
}

#[test]
fn functions_may_call_each_other_before_they_are_declared() {
    let source = "println(even(10), odd(7), even(3))\nfunc even(n: Int32) -> Int32 { if n == 0 { return 1 } return odd(n - 1) }\nfunc odd(n: Int32) -> Int32 { if n == 0 { return 0 } return even(n - 1) }";
    let output = compile_and_run(source, "mutual").unwrap();
    assert_eq!(output.trim(), "1 1 0");
}

#[test]
fn semantic_errors_stop_the_build() {
    assert_eq!(
        compile_and_run("println(x)", "errors"),
        Err("Variable 'x' not found".to_string())
    );
    assert_eq!(compile_and_run("var x = ", "errors"), Err("Unexpected end of tokens in expression".to_string()));
    assert!(compile_and_run("var x = `", "errors").unwrap_err().starts_with("Lexing error at line 1, column 9:"));
}

#[test]
fn truth_values_pass_through_variables_calls_and_returns() {
    let source = "func both(a: Boolean, b: Boolean) -> Boolean { return a and b }\nfunc count(b: Boolean) -> Int32 { if b { return 1 } return 0 }\nvar t: Boolean = 1 < 2\nvar n: Boolean = both(t, 3 > 2)\nprintln(t, n, count(both(t, 1 == 1)), count(both(t, 1 == 2)), both(true, false))";
    let output = compile_and_run(source, "truth").unwrap();
    assert_eq!(output.trim(), "1 1 1 0 0");
}

#[test]
fn the_pipeline_builds_a_module_or_says_why_not() {
    let (module, warnings) = build("var x = 1\nprintln(2)", "main").unwrap();
    assert_eq!(module.name, "main");
    assert_eq!(module.functions.len(), 2);
    assert_eq!(warnings, vec![SematicWarning::UnusedVariable("x".to_string())]);

    assert_eq!(
        build("println(x)\ny", "main"),
        Err(BuildError::Semantic(vec![
            SematicError::VariableNotFound("x".to_string()),
            SematicError::VariableNotFound("y".to_string()),
        ]))
    );
    assert_eq!(
        build("println(", "main"),
        Err(BuildError::Syntax("Unexpected end of tokens in expression".to_string()))
    );
    assert_eq!(
        build("`", "main"),
        Err(BuildError::Syntax(
            "Lexing error at line 1, column 1:\n`\n^\nUnexpected character: '`'".to_string()
        ))
    );

    assert_eq!(tokenize("a b").unwrap().tokens().len(), 2);
    assert!(tokenize("`").is_err());
    assert_eq!(create_ast("1\n2").unwrap().body.len(), 2);
    assert_eq!(create_ast("var"), Err("Expected variable name".to_string()));
    let (program, analyzer) = analyze_program("var x = y").unwrap();
    assert_eq!(program.body.len(), 1);
    assert_eq!(analyzer.errors, vec![SematicError::VariableNotFound("y".to_string())]);
    assert_eq!(analyze_program("(").unwrap_err(), "Unexpected end of tokens in expression");

    assert_eq!(ir_file_name("output"), "output.ll");
    assert_eq!(object_file_name("output"), "output.o");
    assert_eq!(executable_name("output", false), "output");
    assert_eq!(executable_name("output", true), "output.exe");
}

#[test]
fn functions_do_not_see_the_variables_of_the_top_level() {
    let source = "var x = 5\nfunc f() -> Int32 { var y = 2\n return x }\nprintln(f(), x)";
    let output = compile_and_run(source, "globals").unwrap();
    assert_eq!(output.trim(), "0 5");
}
