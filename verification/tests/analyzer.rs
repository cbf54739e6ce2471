use gneurshk::analyzer::errors::{SematicError, SematicWarning};
use gneurshk::analyzer::scope::{Function, Scope, Variable};
use gneurshk::analyzer::Analyzer;
use gneurshk::ast::{Program, Stmt};
use gneurshk::lexer::lex;
use gneurshk::parser::parse;
use gneurshk::types::DataType;

fn program(input: &str) -> Program {
    let mut tokens = lex(input).expect("Failed to lex");
    parse(&mut tokens).expect("Failed to parse")
}

fn analyze(input: &str) -> Analyzer {
    let mut analyzer = Analyzer::new();
    analyzer.analyze(program(input)).expect("Failed to analyze");
    analyzer
}

fn unused(name: &str) -> SematicWarning {
    SematicWarning::UnusedVariable(name.to_string())
}

fn not_found(name: &str) -> SematicError {
    SematicError::VariableNotFound(name.to_string())
}

#[test]
fn unused_variable_is_a_warning() {
    let analyzer = analyze("var x = 1");
    assert_eq!(analyzer.warnings, vec![unused("x")]);
    assert_eq!(analyzer.errors, vec![]);
}

#[test]
fn unknown_variable_is_an_error() {
    let analyzer = analyze("y + 1");
    assert_eq!(analyzer.errors, vec![not_found("y")]);
    assert_eq!(analyzer.warnings, vec![]);
}

#[test]
fn wrong_number_of_arguments() {
    let analyzer = analyze("func f(a: Int32) -> Int32 { return a } f(1, 2)");
    assert_eq!(
        analyzer.errors,
        vec![SematicError::FunctionCallArgumentCountMismatch("f".to_string(), 1, 2)]
    );
    assert_eq!(analyzer.warnings, vec![]);
}

#[test]
fn declared_type_and_value_must_agree() {
    let analyzer = analyze("var z: Boolean = 1");
    assert_eq!(
        analyzer.errors,
        vec![SematicError::TypeMismatch(DataType::Boolean, DataType::Int32)]
    );
    assert_eq!(analyzer.warnings, vec![unused("z")]);
}

#[test]
fn nothing_to_report() {
    let analyzer = analyze("var x = 1\nprintln(x, 2.5, \"s\", true)\nprint()");
    assert_eq!(analyzer.errors, vec![]);
    assert_eq!(analyzer.warnings, vec![]);
}

#[test]
fn an_error_does_not_hide_the_later_ones() {
    let analyzer = analyze("a\nvar x = b\n1 + 2.0\nmissing()\nc");
    assert_eq!(
        analyzer.errors,
        vec![
            not_found("a"),
            not_found("b"),
            SematicError::TypeMismatch(DataType::Int32, DataType::Float32),
            SematicError::FunctionNotFound("missing".to_string()),
            not_found("c"),
        ]
    );
    assert_eq!(analyzer.warnings, vec![]);
}

#[test]
fn one_statement_can_record_several_errors() {
    let analyzer = analyze("println(a, b)");
    assert_eq!(analyzer.errors, vec![not_found("a"), not_found("b")]);
}

#[test]
fn arguments_are_checked_by_position() {
    let analyzer =
        analyze("func f(a: Int32, b: String, c: Float32) { }\nf(1.5, \"s\", 2)\nf(1, \"s\", 2.5)");
    assert_eq!(
        analyzer.errors,
        vec![
            SematicError::FunctionCallArgumentMismatch(
                "f".to_string(),
                1,
                DataType::Int32,
                DataType::Float32
            ),
            SematicError::FunctionCallArgumentMismatch(
                "f".to_string(),
                3,
                DataType::Float32,
                DataType::Int32
            ),
        ]
    );
}

#[test]
fn a_call_may_stand_before_the_declaration() {
    let analyzer = analyze("var x = f()\nprintln(x + 1)\nfunc f() -> Int32 { return 1 }");
    assert_eq!(analyzer.errors, vec![]);
    assert_eq!(analyzer.warnings, vec![]);
}

#[test]
fn a_call_has_the_return_type_of_the_function() {
    let analyzer = analyze("func f() -> Float32 { return 1.0 }\nvar x: Int32 = f()\nx");
    assert_eq!(
        analyzer.errors,
        vec![SematicError::TypeMismatch(DataType::Int32, DataType::Float32)]
    );
}

#[test]
fn comparisons_and_logic_give_booleans() {
    let analyzer = analyze("var a: Boolean = 1 < 2\nvar b: Boolean = 1.5 == 1\nvar c: Boolean = a and b\nvar d: Boolean = not c\nd");
    assert_eq!(analyzer.errors, vec![]);
    assert_eq!(analyzer.warnings, vec![]);
}

#[test]
fn arithmetic_needs_two_numbers_of_one_type() {
    let analyzer = analyze("var a: Float32 = 1.5 * 2.5\nvar b: Int32 = 7 % 2\n\"s\" + 1\ntrue - true\n-a\n-b");
    assert_eq!(
        analyzer.errors,
        vec![
            SematicError::TypeMismatch(DataType::String, DataType::Int32),
            SematicError::TypeMismatch(DataType::Boolean, DataType::Boolean),
        ]
    );
}

#[test]
fn a_block_keeps_its_variables() {
    let analyzer = analyze("{ var a = 1\n a }\na");
    assert_eq!(analyzer.errors, vec![not_found("a")]);
    assert_eq!(analyzer.warnings, vec![]);
}

#[test]
fn an_inner_variable_shadows_an_outer_one() {
    let analyzer = analyze("var a = 1\n{ var a = 2.5\n a + 1.5 }\na + 1");
    assert_eq!(analyzer.errors, vec![]);
    assert_eq!(analyzer.warnings, vec![]);

    let analyzer = analyze("var a = 1\n{ var a = 2.5\n a + 1 }");
    assert_eq!(
        analyzer.errors,
        vec![SematicError::TypeMismatch(DataType::Float32, DataType::Int32)]
    );
    assert_eq!(analyzer.warnings, vec![unused("a")]);
}

#[test]
fn unused_variables_of_blocks_come_first() {
    let analyzer = analyze("var a = 1\nif a { var b = 2 } else { var c = 3\n var d = 4\n c }\nvar e = 5");
    assert_eq!(analyzer.errors, vec![]);
    assert_eq!(analyzer.warnings, vec![unused("b"), unused("d"), unused("e")]);
}

#[test]
fn a_variable_declared_again_replaces_the_first() {
    let analyzer = analyze("var a = 1\nvar a = 2.5\na + 1.5");
    assert_eq!(analyzer.errors, vec![]);
    assert_eq!(analyzer.warnings, vec![]);
}

#[test]
fn a_declaration_needs_a_type_or_a_value() {
    let mut analyzer = Analyzer::default();
    let declaration = Stmt::Declaration {
        mutable: true,
        name: "a".to_string(),
        data_type: None,
        value: None,
    };
    assert_eq!(analyzer.analyze_statement(&declaration), None);
    assert_eq!(analyzer.errors, vec![SematicError::NoTypeOrValueProvided]);
    analyzer.analyze_list(&vec![Stmt::Identifier { name: "a".to_string(), span: 0..1 }]);
    assert_eq!(analyzer.errors, vec![SematicError::NoTypeOrValueProvided, not_found("a")]);
}

#[test]
fn statements_have_types() {
    let mut analyzer = Analyzer::new();
    let body = program("var a = 1\na\n1.5\n\"s\"\ntrue\nprintln(a)\n{ 1 }\nreturn a").body;
    let types: Vec<Option<DataType>> =
        body.iter().map(|s| analyzer.analyze_statement(s)).collect();
    assert_eq!(
        types,
        vec![
            Some(DataType::Int32),
            Some(DataType::Int32),
            Some(DataType::Float32),
            Some(DataType::String),
            Some(DataType::Boolean),
            Some(DataType::Void),
            None,
            None,
        ]
    );
}

#[test]
fn only_function_declarations_are_functions() {
    let mut analyzer = Analyzer::new();
    let result = analyzer.analyze(Program {
        imports: vec![],
        functions: vec![Stmt::Integer { value: 1, span: 0..1 }],
        body: vec![Stmt::Identifier { name: "a".to_string(), span: 0..1 }],
    });
    assert_eq!(result, Err("Expected function declaration".to_string()));
    assert_eq!(analyzer.errors, vec![]);
}

#[test]
fn errors_and_warnings_have_messages() {
    assert_eq!(
        SematicError::FunctionNotFound("f".to_string()).message(),
        "Function 'f' not found"
    );
    assert_eq!(
        SematicError::FunctionCallArgumentCountMismatch("f".to_string(), 1, 12).message(),
        "Function 'f' takes 1 arguments but 12 were given"
    );
    assert_eq!(
        SematicError::FunctionCallArgumentMismatch(
            "f".to_string(),
            3,
            DataType::Int32,
            DataType::Custom("Apple".to_string())
        )
        .message(),
        "Function call for 'f' type mismatch. Expected 'Int32' for argument 3, but found 'Apple'"
    );
    assert_eq!(not_found("x").message(), "Variable 'x' not found");
    assert_eq!(
        SematicError::TypeMismatch(DataType::Boolean, DataType::Void).message(),
        "Type mismatch: 'Boolean' != 'void'"
    );
    assert_eq!(
        SematicError::NoTypeOrValueProvided.message(),
        "No type or value provided for variable declaration"
    );
    assert_eq!(unused("x").message(), "Variable 'x' is never used");
    assert_eq!(unused("x").clone(), unused("x"));
    assert_eq!(not_found("x").clone(), not_found("x"));
}

fn variable(name: &str, data_type: DataType, used: bool) -> Variable {
    Variable { name: name.to_string(), data_type, mutable: true, used, initialized: true }
}

#[test]
fn scope_resolves_names_from_the_inside_out() {
    let mut outer = Scope::new(None);
    outer.set_variable("a".to_string(), variable("a", DataType::Int32, false));
    outer.set_variable("b".to_string(), variable("b", DataType::Int32, true));
    let mut inner = Scope::new(Some(Box::new(outer)));
    inner.set_variable("a".to_string(), variable("a", DataType::Float32, false));
    inner.set_variable("c".to_string(), variable("c", DataType::String, false));

    assert_eq!(inner.get_variable(&"a".to_string()), Some(variable("a", DataType::Float32, false)));
    assert_eq!(inner.get_variable(&"b".to_string()), Some(variable("b", DataType::Int32, true)));
    assert_eq!(inner.get_variable(&"d".to_string()), None);
    assert_eq!(
        inner.get_unused_variables(),
        vec![
            variable("a", DataType::Float32, false),
            variable("c", DataType::String, false),
            variable("a", DataType::Int32, false),
        ]
    );

    assert_eq!(inner.mark_used(&"a".to_string()), Some(DataType::Float32));
    assert_eq!(inner.mark_used(&"d".to_string()), None);
    assert_eq!(inner.unused_in_innermost(), vec![variable("c", DataType::String, false)]);

    let outer = inner.exit();
    assert_eq!(outer.get_variable(&"a".to_string()), Some(variable("a", DataType::Int32, false)));
    assert_eq!(outer.get_variable(&"c".to_string()), None);
    let root = outer.exit();
    assert_eq!(root.get_variable(&"b".to_string()), Some(variable("b", DataType::Int32, true)));
    let inner = root.enter();
    assert_eq!(inner.unused_in_innermost(), vec![]);
}

#[test]
fn functions_are_copied_with_their_types() {
    let f = Function { return_type: DataType::Int32, params: vec![DataType::String] };
    assert_eq!(f.clone(), f);
}

#[test]
fn a_variable_can_be_changed_in_place() {
    let mut outer = Scope::new(None);
    outer.set_variable("a".to_string(), variable("a", DataType::Int32, false));
    let mut inner = Scope::new(Some(Box::new(outer)));
    inner.set_variable("b".to_string(), variable("b", DataType::String, false));

    assert_eq!(inner.get_mut_variable(&"c".to_string()), None);
    let a = inner.get_mut_variable(&"a".to_string()).expect("a is bound");
    assert_eq!(*a, variable("a", DataType::Int32, false));
    a.used = true;
    a.data_type = DataType::Float32;
    let b = inner.get_mut_variable(&"b".to_string()).expect("b is bound");
    b.initialized = false;

    assert_eq!(inner.get_variable(&"a".to_string()), Some(variable("a", DataType::Float32, true)));
    assert_eq!(
        inner.get_unused_variables(),
        vec![Variable {
            name: "b".to_string(),
            data_type: DataType::String,
            mutable: true,
            used: false,
            initialized: false
        }]
    );
}
