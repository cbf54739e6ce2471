//! The stages of the compiler, one after the other: source text to tokens,
//! tokens to a program, the program analyzed and lowered to a module.
//!
//! A failure of the lexer or of the parser ends the run with its message.
//! Semantic errors are collected; where there are any, nothing is lowered.
//! Warnings never stop a run.
use vstd::prelude::*;
use vstd::string::StringExecFns;
use vstd::utf8::encode_utf8;
use crate::analyzer::errors::{errors_view, warnings_view, SematicError, SematicWarning};
use crate::analyzer::errors::{SematicErrorView, SematicWarningView};
use crate::analyzer::scope::Binding;
use crate::analyzer::{analyze_program as analysis_of, Analyzer, AnalyzerView};
use crate::ast::{Program, ProgramView};
use crate::compiler::ir::{IrModule, IrModuleView};
use crate::compiler::laws::module_ok;
use crate::compiler::references::references_ok;
use crate::compiler::lowering::{fresh, lower_program};
use crate::compiler::Codegen;
use crate::lexer::{error_text, lex, lexemes_in, scan, Lexeme};
use crate::parser::grammar::program_from;
use crate::parser::laws::program_ok;
use crate::parser::parse;
use crate::tokens::{Scanner, Spanned};

verus! {

/// The tokens with their spans that a list of lexemes stands for.
pub open spec fn tokens_in(lexemes: Seq<Lexeme>) -> Seq<Spanned> {
    Seq::new(
        lexemes.len(),
        |i: int| (lexemes[i].token, (lexemes[i].start as usize)..(lexemes[i].end as usize)),
    )
}

/// The program that a source text is, or the message of the lexer's or the
/// parser's first error.
pub open spec fn ast_of(src: Seq<u8>) -> Result<ProgramView, Seq<char>> {
    match scan(src) {
        Err(at) => Err(error_text(src, at)),
        Ok(lexemes) => program_from(
            tokens_in(lexemes),
            0,
            ProgramView { imports: Seq::empty(), functions: Seq::empty(), body: Seq::empty() },
        ),
    }
}

/// The state of an analysis that has seen nothing.
pub open spec fn new_analysis() -> AnalyzerView {
    AnalyzerView {
        scope: seq![Seq::<Binding>::empty()],
        functions: Seq::empty(),
        errors: Seq::empty(),
        warnings: Seq::empty(),
    }
}

/// The program that a source text is with the state in which its analysis
/// ends, or the message of the first error of the lexer or the parser.
pub open spec fn analysis_of_source(src: Seq<u8>) -> Result<(ProgramView, AnalyzerView), Seq<char>> {
    match ast_of(src) {
        Err(e) => Err(e),
        Ok(p) => match analysis_of(new_analysis(), p) {
            Ok(st) => Ok((p, st)),
            Err(_) => Err("Expected function declaration"@),
        },
    }
}

/// Why a source text was not compiled.
#[derive(Debug, PartialEq, Eq)]
pub enum BuildError {
    /// The lexer or the parser failed, with this message.
    Syntax(String),
    /// Analysis found these errors.
    Semantic(Vec<SematicError>),
}

/// The mathematical value of a [`BuildError`].
pub ghost enum BuildErrorView {
    Syntax(Seq<char>),
    Semantic(Seq<SematicErrorView>),
}

impl View for BuildError {
    type V = BuildErrorView;

    open spec fn view(&self) -> BuildErrorView {
        match self {
            BuildError::Syntax(message) => BuildErrorView::Syntax(message@),
            BuildError::Semantic(errors) => BuildErrorView::Semantic(errors_view(errors@)),
        }
    }
}

/// What compiling a source text gives: the module of its program and the
/// warnings of its analysis, or the reason why there is no module. A
/// program with a semantic error is not lowered.
pub open spec fn build_of(src: Seq<u8>, name: Seq<char>) -> Result<
    (IrModuleView, Seq<SematicWarningView>),
    BuildErrorView,
> {
    match analysis_of_source(src) {
        Err(e) => Err(BuildErrorView::Syntax(e)),
        Ok((p, st)) => if st.errors.len() > 0 {
            Err(BuildErrorView::Semantic(st.errors))
        } else {
            Ok((lower_program(fresh(name), p).module, st.warnings))
        },
    }
}

/// Scans a source text into a stream of tokens.
pub fn tokenize(input: &str) -> (r: Result<Scanner, String>)
    ensures
        match scan(encode_utf8(input@)) {
            Ok(lexemes) => r is Ok && r->Ok_0.all() == tokens_in(lexemes) && r->Ok_0.position()
                == 0,
            Err(at) => r is Err && r->Err_0@ == error_text(encode_utf8(input@), at),
        },
{
    let r = lex(input);
    proof {
        if r is Ok {
            let lexemes = scan(encode_utf8(input@))->Ok_0;
            assert(lexemes_in(r->Ok_0.all()) == lexemes);
            assert(r->Ok_0.all() =~= tokens_in(lexemes)) by {
                assert forall|i: int| 0 <= i < lexemes.len() implies r->Ok_0.all()[i]
                    == tokens_in(lexemes)[i] by {
                    assert(lexemes_in(r->Ok_0.all())[i] == lexemes[i]);
                }
            }
        }
    }
    r
}

/// Scans and parses a source text.
pub fn create_ast(input: &str) -> (r: Result<Program, String>)
    ensures
        match ast_of(encode_utf8(input@)) {
            Ok(p) => r is Ok && r->Ok_0@ == p && program_ok(p),
            Err(e) => r is Err && r->Err_0@ == e,
        },
{
    let mut tokens = match tokenize(input) {
        Ok(t) => t,
        Err(e) => {
            return Err(e);
        },
    };
    match parse(&mut tokens) {
        Ok(program) => Ok(program),
        Err(e) => Err(e.to_owned()),
    }
}

/// Scans, parses and analyzes a source text. The diagnostics are found in
/// the analyzer that is returned.
pub fn analyze_program(input: &str) -> (r: Result<(Program, Analyzer), String>)
    ensures
        match analysis_of_source(encode_utf8(input@)) {
            Ok((p, st)) => r is Ok && r->Ok_0.0@ == p && r->Ok_0.1@ == st,
            Err(e) => r is Err && r->Err_0@ == e,
        },
{
    let ast = match create_ast(input) {
        Ok(p) => p,
        Err(e) => {
            return Err(e);
        },
    };
    let mut analyzer = Analyzer::new();
    match analyzer.analyze(ast.clone()) {
        Ok(()) => Ok((ast, analyzer)),
        Err(e) => Err(e),
    }
}

/// Compiles a source text to a module of the given name. The warnings of
/// the analysis come with the module. Where analysis records an error,
/// there is no module. In the module every block ends with exactly one jump
/// or return, and every instruction refers to what exists.
pub fn build(input: &str, module_name: &str) -> (r: Result<
    (IrModule, Vec<SematicWarning>),
    BuildError,
>)
    ensures
        match build_of(encode_utf8(input@), module_name@) {
            Ok((module, warnings)) => {
                &&& r is Ok
                &&& r->Ok_0.0@ == module
                &&& warnings_view(r->Ok_0.1@) == warnings
                &&& module_ok(module)
                &&& references_ok(module)
            },
            Err(e) => r is Err && r->Err_0@ == e,
        },
{
    let (ast, analyzer) = match analyze_program(input) {
        Ok(pair) => pair,
        Err(e) => {
            return Err(BuildError::Syntax(e));
        },
    };
    let Analyzer { scope: _, functions: _, errors, warnings } = analyzer;
    if errors.len() > 0 {
        return Err(BuildError::Semantic(errors));
    }
    let mut codegen = Codegen::new(module_name);
    codegen.compile(ast);
    let Codegen { module, scope: _, blocks: _, body: _, terminated: _, current: _, result_type: _ } =
        codegen;
    Ok((module, warnings))
}

/// The name of the file of textual IR for an output of the given stem.
pub fn ir_file_name(stem: &str) -> (r: String)
    ensures
        r@ == stem@ + ".ll"@,
{
    let mut r = stem.to_owned();
    r.append(".ll");
    r
}

/// The name of the object file for an output of the given stem.
pub fn object_file_name(stem: &str) -> (r: String)
    ensures
        r@ == stem@ + ".o"@,
{
    let mut r = stem.to_owned();
    r.append(".o");
    r
}

/// The name of the executable for an output of the given stem: the stem
/// itself, with `.exe` after it on Windows.
pub fn executable_name(stem: &str, windows: bool) -> (r: String)
    ensures
        r@ == if windows {
            stem@ + ".exe"@
        } else {
            stem@
        },
{
    let mut r = stem.to_owned();
    if windows {
        r.append(".exe");
    }
    r
}

} // verus!
