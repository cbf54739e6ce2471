//! Semantic analysis: scopes, type checks and unused-variable detection.
//!
//! Analysis never stops at a semantic error. It records the error, gives the
//! offending expression no type and goes on with the next statement.
use vstd::prelude::*;
use crate::analyzer::errors::{
    errors_view,
    warnings_view,
    SematicError,
    SematicErrorView,
    SematicWarning,
    SematicWarningView,
};
use crate::analyzer::scope::{
    lookup,
    mark_used,
    frame_set,
    types_view,
    unused,
    unused_in_frame,
    variables_view,
    Binding,
    Frame,
    Function,
    FunctionView,
    Scope,
    Variable,
    VariableView,
};
use crate::ast::{
    lemma_stmt_view,
    params_view,
    stmts_view,
    ParamView,
    Program,
    ProgramView,
    Stmt,
    StmtView,
    UnaryOperator,
};
use crate::analyzer::laws::{
    bindings,
    declarations_all,
    error_sites_all,
    lemma_program_accumulates,
};
use crate::text::str_eq;
use crate::types::{DataType, DataTypeView};

pub mod errors;
pub mod laws;
pub mod scope;

verus! {

/// The state of an analysis.
pub ghost struct AnalyzerView {
    /// The scope chain, innermost frame first. It is never empty.
    pub scope: Seq<Frame>,
    /// The declared functions, in the order of their registration.
    pub functions: Seq<(Seq<char>, FunctionView)>,
    /// The errors recorded so far, oldest first.
    pub errors: Seq<SematicErrorView>,
    /// The warnings recorded so far, oldest first.
    pub warnings: Seq<SematicWarningView>,
}

/// The function registered under `name`; the last registration counts.
pub open spec fn find_function(
    functions: Seq<(Seq<char>, FunctionView)>,
    name: Seq<char>,
) -> Option<FunctionView>
    decreases functions.len(),
{
    if functions.len() == 0 {
        None
    } else if functions.last().0 == name {
        Some(functions.last().1)
    } else {
        find_function(functions.drop_last(), name)
    }
}

/// The types of a list of parameters, in order.
pub open spec fn param_types(params: Seq<ParamView>) -> Seq<DataTypeView> {
    Seq::new(params.len(), |i: int| params[i].data_type)
}

/// One warning for each variable of the list, in order.
pub open spec fn unused_warnings(variables: Seq<VariableView>) -> Seq<SematicWarningView> {
    Seq::new(variables.len(), |i: int| SematicWarningView::UnusedVariable(variables[i].name))
}

/// The errors for the first `n` arguments of a call of `name` whose type
/// differs from the parameter's, by position.
pub open spec fn argument_mismatches(
    name: Seq<char>,
    expected: Seq<DataTypeView>,
    actual: Seq<DataTypeView>,
    n: int,
) -> Seq<SematicErrorView>
    decreases n,
{
    if n <= 0 {
        Seq::empty()
    } else if expected[n - 1] != actual[n - 1] {
        argument_mismatches(name, expected, actual, n - 1).push(
            SematicErrorView::FunctionCallArgumentMismatch(
                name,
                n as nat,
                expected[n - 1],
                actual[n - 1],
            ),
        )
    } else {
        argument_mismatches(name, expected, actual, n - 1)
    }
}

/// Whether a call of this name is a call of a built-in function. Built-ins
/// take any number of arguments of any type and give `Void`.
pub open spec fn is_builtin(name: Seq<char>) -> bool {
    name == "println"@ || name == "print"@
}

impl AnalyzerView {
    /// The state with one more error.
    pub open spec fn with_error(self, e: SematicErrorView) -> AnalyzerView {
        AnalyzerView { errors: self.errors.push(e), ..self }
    }

    /// The state with more errors.
    pub open spec fn with_errors(self, e: Seq<SematicErrorView>) -> AnalyzerView {
        AnalyzerView { errors: self.errors + e, ..self }
    }

    /// The state with more warnings.
    pub open spec fn with_warnings(self, w: Seq<SematicWarningView>) -> AnalyzerView {
        AnalyzerView { warnings: self.warnings + w, ..self }
    }

    /// The state with another scope chain.
    pub open spec fn with_scope(self, scope: Seq<Frame>) -> AnalyzerView {
        AnalyzerView { scope, ..self }
    }

    /// The state after a function is registered.
    pub open spec fn with_function(self, name: Seq<char>, f: FunctionView) -> AnalyzerView {
        AnalyzerView { functions: self.functions.push((name, f)), ..self }
    }

    /// The state after a variable is declared in the innermost frame.
    pub open spec fn declare(self, v: VariableView) -> AnalyzerView {
        self.with_scope(self.scope.update(0, frame_set(self.scope[0], v.name, v)))
    }

    /// The state on entry to a block: a new, empty innermost frame.
    pub open spec fn enter_block(self) -> AnalyzerView {
        self.with_scope(seq![Seq::<Binding>::empty()] + self.scope)
    }

    /// The state on exit from a block: the variables of the innermost frame
    /// that were never read are reported, and the frame is dropped. The
    /// root frame is never dropped.
    pub open spec fn leave_block(self) -> AnalyzerView {
        self.with_warnings(unused_warnings(unused_in_frame(self.scope[0]))).with_scope(
            if self.scope.len() > 1 {
                self.scope.drop_first()
            } else {
                self.scope
            },
        )
    }
}

/// The state after a statement is analyzed, and the statement's type.
///
/// An expression has no type where analysis recorded an error for it that
/// leaves the type unknown. Statements that are no expressions have none.
pub open spec fn analyze_stmt(st: AnalyzerView, s: StmtView) -> (AnalyzerView, Option<DataTypeView>)
    decreases s,
{
    match s {
        StmtView::BinaryExpression { left, right, operator } => {
            let (st1, left_type) = analyze_stmt(st, *left);
            match left_type {
                None => (st1, None),
                Some(lt) => {
                    let (st2, right_type) = analyze_stmt(st1, *right);
                    match right_type {
                        None => (st2, None),
                        Some(rt) => if !operator.is_arithmetic() {
                            (st2, Some(DataTypeView::Boolean))
                        } else if lt == DataTypeView::Int32 && rt == DataTypeView::Int32 {
                            (st2, Some(DataTypeView::Int32))
                        } else if lt == DataTypeView::Float32 && rt == DataTypeView::Float32 {
                            (st2, Some(DataTypeView::Float32))
                        } else {
                            (st2.with_error(SematicErrorView::TypeMismatch(lt, rt)), None)
                        },
                    }
                },
            }
        },
        StmtView::UnaryExpression { value, operator } => {
            let (st1, value_type) = analyze_stmt(st, *value);
            match value_type {
                None => (st1, None),
                Some(t) => match operator {
                    UnaryOperator::Not => (st1, Some(DataTypeView::Boolean)),
                    UnaryOperator::Negative => (st1, Some(t)),
                },
            }
        },
        StmtView::String { .. } => (st, Some(DataTypeView::String)),
        StmtView::Integer { .. } => (st, Some(DataTypeView::Int32)),
        StmtView::Float { .. } => (st, Some(DataTypeView::Float32)),
        StmtView::Boolean { .. } => (st, Some(DataTypeView::Boolean)),
        StmtView::FunctionCall { name, args, .. } => {
            if is_builtin(name) {
                (analyze_all(st, args), Some(DataTypeView::Void))
            } else {
                match find_function(st.functions, name) {
                    None => (st.with_error(SematicErrorView::FunctionNotFound(name)), None),
                    Some(f) => if args.len() != f.params.len() {
                        (
                            st.with_error(
                                SematicErrorView::FunctionCallArgumentCountMismatch(
                                    name,
                                    f.params.len(),
                                    args.len(),
                                ),
                            ),
                            Some(f.return_type),
                        )
                    } else {
                        let (st1, types) = analyze_args(st, args);
                        match types {
                            None => (st1, None),
                            Some(actual) => (
                                st1.with_errors(
                                    argument_mismatches(
                                        name,
                                        f.params,
                                        actual,
                                        actual.len() as int,
                                    ),
                                ),
                                Some(f.return_type),
                            ),
                        }
                    },
                }
            }
        },
        StmtView::Identifier { name, .. } => match lookup(st.scope, name) {
            Some(v) => (st.with_scope(mark_used(st.scope, name)), Some(v.data_type)),
            None => (st.with_error(SematicErrorView::VariableNotFound(name)), None),
        },
        StmtView::Declaration { mutable, name, data_type, value } => match data_type {
            Some(declared) => {
                let variable = VariableView {
                    name,
                    data_type: declared,
                    mutable,
                    used: false,
                    initialized: value is Some,
                };
                match value {
                    None => (st.declare(variable), Some(declared)),
                    Some(v) => {
                        let (st1, value_type) = analyze_stmt(st, *v);
                        match value_type {
                            Some(t) => if t != declared {
                                (
                                    st1.with_error(
                                        SematicErrorView::TypeMismatch(declared, t),
                                    ).declare(variable),
                                    Some(declared),
                                )
                            } else {
                                (st1.declare(variable), Some(declared))
                            },
                            None => (st1.declare(variable), Some(declared)),
                        }
                    },
                }
            },
            None => match value {
                None => (st.with_error(SematicErrorView::NoTypeOrValueProvided), None),
                Some(v) => {
                    let (st1, value_type) = analyze_stmt(st, *v);
                    match value_type {
                        None => (st1, None),
                        Some(t) => (
                            st1.declare(
                                VariableView {
                                    name,
                                    data_type: t,
                                    mutable,
                                    used: false,
                                    initialized: true,
                                },
                            ),
                            Some(t),
                        ),
                    }
                },
            },
        },
        StmtView::Block { body } => (analyze_all(st.enter_block(), body).leave_block(), None),
        StmtView::IfStatement { condition, block, else_block } => {
            let st1 = analyze_stmt(st, *condition).0;
            let st2 = analyze_stmt(st1, *block).0;
            match else_block {
                Some(e) => (analyze_stmt(st2, *e).0, None),
                None => (st2, None),
            }
        },
        StmtView::ReturnStatement { value } => match value {
            Some(v) => (analyze_stmt(st, *v).0, None),
            None => (st, None),
        },
        _ => (st, None),
    }
}

/// The state after each statement of a list is analyzed in order. No
/// statement is skipped, whatever the ones before it recorded.
pub open spec fn analyze_all(st: AnalyzerView, body: Seq<StmtView>) -> AnalyzerView
    decreases body,
{
    if body.len() == 0 {
        st
    } else {
        analyze_stmt(analyze_all(st, body.drop_last()), body.last()).0
    }
}

/// The state after the arguments of a call are analyzed in order, and their
/// types. Analysis of the arguments ends at the first one without a type,
/// and there are no types then.
pub open spec fn analyze_args(st: AnalyzerView, args: Seq<StmtView>) -> (
    AnalyzerView,
    Option<Seq<DataTypeView>>,
)
    decreases args,
{
    if args.len() == 0 {
        (st, Some(Seq::empty()))
    } else {
        let (st1, types) = analyze_args(st, args.drop_last());
        match types {
            None => (st1, None),
            Some(ts) => {
                let (st2, t) = analyze_stmt(st1, args.last());
                match t {
                    None => (st2, None),
                    Some(t) => (st2, Some(ts.push(t))),
                }
            },
        }
    }
}

/// The state after the function declarations of a list are registered in
/// order, and whether every entry was a function declaration. Registration
/// ends at the first entry that is none.
pub open spec fn register_all(st: AnalyzerView, functions: Seq<StmtView>) -> (AnalyzerView, bool)
    decreases functions.len(),
{
    if functions.len() == 0 {
        (st, true)
    } else {
        let (st1, ok) = register_all(st, functions.drop_last());
        if !ok {
            (st1, false)
        } else {
            match functions.last() {
                StmtView::FunctionDeclaration { name, params, return_type, .. } => (
                    st1.with_function(
                        name,
                        FunctionView { return_type, params: param_types(params) },
                    ),
                    true,
                ),
                _ => (st1, false),
            }
        }
    }
}

/// The state after a whole program is analyzed: its functions registered,
/// its top-level statements analyzed in order, and one warning recorded for
/// every variable still in scope that was never read. `Err` holds the state
/// at which analysis was given up because the list of functions holds
/// something else than a function declaration.
pub open spec fn analyze_program(st: AnalyzerView, p: ProgramView) -> Result<
    AnalyzerView,
    AnalyzerView,
> {
    let (st1, ok) = register_all(st, p.functions);
    if !ok {
        Err(st1)
    } else {
        let st2 = analyze_all(st1, p.body);
        Ok(st2.with_warnings(unused_warnings(unused(st2.scope))))
    }
}

/// The values of the registered functions, in order.
pub open spec fn functions_view(v: Seq<(String, Function)>) -> Seq<(Seq<char>, FunctionView)> {
    Seq::new(v.len(), |i: int| (v[i].0@, v[i].1@))
}

/// The value of an optional type.
pub open spec fn type_view(t: Option<DataType>) -> Option<DataTypeView> {
    match t {
        Some(d) => Some(d@),
        None => None,
    }
}

/// Semantic analysis of one program. The diagnostics are read from
/// `errors` and `warnings` when analysis is done.
#[derive(Debug)]
pub struct Analyzer {
    /// The scope chain at the point that analysis has reached.
    pub scope: Scope,
    /// The functions registered so far; the last entry of a name counts.
    pub functions: Vec<(String, Function)>,
    pub errors: Vec<SematicError>,
    pub warnings: Vec<SematicWarning>,
}

impl View for Analyzer {
    type V = AnalyzerView;

    open spec fn view(&self) -> AnalyzerView {
        AnalyzerView {
            scope: self.scope@,
            functions: functions_view(self.functions@),
            errors: errors_view(self.errors@),
            warnings: warnings_view(self.warnings@),
        }
    }
}

/// Once an argument has no type, the arguments after it are not analyzed.
proof fn lemma_args_stop(st: AnalyzerView, args: Seq<StmtView>, k: int)
    requires
        0 <= k <= args.len(),
        analyze_args(st, args.take(k)).1 is None,
    ensures
        analyze_args(st, args) == analyze_args(st, args.take(k)),
    decreases args.len(),
{
    if k == args.len() {
        assert(args.take(k) =~= args);
    } else {
        assert(args.drop_last().take(k) =~= args.take(k));
        lemma_args_stop(st, args.drop_last(), k);
    }
}

/// Once an entry is no function declaration, registration has failed.
proof fn lemma_register_stop(st: AnalyzerView, functions: Seq<StmtView>, k: int)
    requires
        0 <= k <= functions.len(),
        !register_all(st, functions.take(k)).1,
    ensures
        register_all(st, functions) == register_all(st, functions.take(k)),
    decreases functions.len(),
{
    if k == functions.len() {
        assert(functions.take(k) =~= functions);
    } else {
        assert(functions.drop_last().take(k) =~= functions.take(k));
        lemma_register_stop(st, functions.drop_last(), k);
    }
}

impl Analyzer {
    /// An analysis that has seen nothing yet: one empty root frame, no
    /// functions, no diagnostics.
    pub fn new() -> (r: Self)
        ensures
            r@ == (AnalyzerView {
                scope: seq![Seq::<Binding>::empty()],
                functions: Seq::empty(),
                errors: Seq::empty(),
                warnings: Seq::empty(),
            }),
    {
        let r = Analyzer {
            scope: Scope::new(None),
            functions: Vec::new(),
            errors: Vec::new(),
            warnings: Vec::new(),
        };
        assert(r@.scope =~= seq![Seq::<Binding>::empty()]);
        assert(r@.functions =~= Seq::empty());
        assert(r@.errors =~= Seq::empty());
        assert(r@.warnings =~= Seq::empty());
        r
    }

    fn record(&mut self, e: SematicError)
        ensures
            final(self)@ == old(self)@.with_error(e@),
    {
        self.errors.push(e);
        assert(self@.errors =~= old(self)@.errors.push(e@));
    }

    fn declare(&mut self, v: Variable)
        ensures
            final(self)@ == old(self)@.declare(v@),
    {
        let name = v.name.clone();
        self.scope.set_variable(name, v);
    }

    fn enter_block(&mut self)
        ensures
            final(self)@ == old(self)@.enter_block(),
    {
        let mut outer = Scope::new(None);
        core::mem::swap(&mut self.scope, &mut outer);
        self.scope = outer.enter();
    }

    fn warn_unused(&mut self, variables: &Vec<Variable>)
        ensures
            final(self)@ == old(self)@.with_warnings(unused_warnings(variables_view(variables@))),
    {
        let ghost w0 = self@.warnings;
        let ghost all = unused_warnings(variables_view(variables@));
        let mut i: usize = 0;
        while i < variables.len()
            invariant
                i <= variables.len(),
                all == unused_warnings(variables_view(variables@)),
                self@ == (AnalyzerView { warnings: w0 + all.take(i as int), ..old(self)@ }),
                w0 == old(self)@.warnings,
            decreases variables.len() - i,
        {
            let ghost before = self@.warnings;
            let w = SematicWarning::UnusedVariable(variables[i].name.clone());
            assert(w@ == all[i as int]);
            self.warnings.push(w);
            assert(self@.warnings =~= before.push(all[i as int]));
            assert(all.take(i as int + 1) =~= all.take(i as int).push(all[i as int]));
            assert(self@.warnings =~= w0 + all.take(i as int + 1));
            i = i + 1;
        }
        assert(all.take(i as int) =~= all);
    }

    fn leave_block(&mut self)
        ensures
            final(self)@ == old(self)@.leave_block(),
    {
        let unused = self.scope.unused_in_innermost();
        self.warn_unused(&unused);
        let mut inner = Scope::new(None);
        core::mem::swap(&mut self.scope, &mut inner);
        self.scope = inner.exit();
    }

    fn function_index(&self, name: &str) -> (r: Option<usize>)
        ensures
            match r {
                Some(i) => i < self.functions.len() && find_function(self@.functions, name@)
                    == Some(self.functions[i as int].1@),
                None => find_function(self@.functions, name@) is None,
            },
    {
        let ghost all = self@.functions;
        let mut i: usize = self.functions.len();
        assert(all.take(i as int) =~= all);
        while i > 0
            invariant
                i <= self.functions.len(),
                all == functions_view(self.functions@),
                find_function(all, name@) == find_function(all.take(i as int), name@),
            decreases i,
        {
            assert(all.take(i as int).drop_last() =~= all.take(i as int - 1));
            if str_eq(self.functions[i - 1].0.as_str(), name) {
                return Some(i - 1);
            }
            i = i - 1;
        }
        None
    }

    /// Analyzes one statement or expression and gives its type.
    ///
    /// Errors are appended to `errors`, warnings to `warnings`. Nothing that
    /// was recorded before is changed or dropped.
    pub fn analyze_statement(&mut self, statement: &Stmt) -> (r: Option<DataType>)
        ensures
            (final(self)@, type_view(r)) == analyze_stmt(old(self)@, statement@),
        decreases statement, 1nat,
    {
        match statement {
            Stmt::BinaryExpression { .. } => self.analyze_binary(statement),
            Stmt::UnaryExpression { .. } => self.analyze_unary(statement),
            Stmt::String { .. } => Some(DataType::String),
            Stmt::Integer { .. } => Some(DataType::Int32),
            Stmt::Float { .. } => Some(DataType::Float32),
            Stmt::Boolean { .. } => Some(DataType::Boolean),
            Stmt::FunctionCall { .. } => self.analyze_call(statement),
            Stmt::Identifier { name, .. } => {
                match self.scope.mark_used(name) {
                    Some(t) => Some(t),
                    None => {
                        self.record(SematicError::VariableNotFound(name.clone()));
                        None
                    },
                }
            },
            Stmt::Declaration { .. } => self.analyze_declaration(statement),
            Stmt::Block { body } => {
                broadcast use lemma_stmt_view;

                self.enter_block();
                self.analyze_list(body);
                self.leave_block();
                None
            },
            Stmt::IfStatement { .. } => self.analyze_if(statement),
            Stmt::ReturnStatement { value } => {
                match value {
                    Some(v) => {
                        self.analyze_statement(v);
                    },
                    None => {},
                }
                None
            },
            _ => None,
        }
    }

    fn analyze_binary(&mut self, statement: &Stmt) -> (r: Option<DataType>)
        requires
            statement is BinaryExpression,
        ensures
            (final(self)@, type_view(r)) == analyze_stmt(old(self)@, statement@),
        decreases statement, 0nat,
    {
        match statement {
            Stmt::BinaryExpression { left, right, operator } => {
                let left_type = match self.analyze_statement(left) {
                    Some(t) => t,
                    None => {
                        return None;
                    },
                };
                let right_type = match self.analyze_statement(right) {
                    Some(t) => t,
                    None => {
                        return None;
                    },
                };
                if !operator.arithmetic() {
                    return Some(DataType::Boolean);
                }
                match (&left_type, &right_type) {
                    (DataType::Int32, DataType::Int32) => Some(DataType::Int32),
                    (DataType::Float32, DataType::Float32) => Some(DataType::Float32),
                    _ => {
                        self.record(SematicError::TypeMismatch(left_type, right_type));
                        None
                    },
                }
            },
            _ => None,
        }
    }

    fn analyze_unary(&mut self, statement: &Stmt) -> (r: Option<DataType>)
        requires
            statement is UnaryExpression,
        ensures
            (final(self)@, type_view(r)) == analyze_stmt(old(self)@, statement@),
        decreases statement, 0nat,
    {
        match statement {
            Stmt::UnaryExpression { value, operator } => {
                match self.analyze_statement(value) {
                    None => None,
                    Some(t) => match operator {
                        UnaryOperator::Not => Some(DataType::Boolean),
                        UnaryOperator::Negative => Some(t),
                    },
                }
            },
            _ => None,
        }
    }

    fn analyze_if(&mut self, statement: &Stmt) -> (r: Option<DataType>)
        requires
            statement is IfStatement,
        ensures
            (final(self)@, type_view(r)) == analyze_stmt(old(self)@, statement@),
        decreases statement, 0nat,
    {
        match statement {
            Stmt::IfStatement { condition, block, else_block } => {
                self.analyze_statement(condition);
                self.analyze_statement(block);
                match else_block {
                    Some(e) => {
                        self.analyze_statement(e);
                    },
                    None => {},
                }
                None
            },
            _ => None,
        }
    }

    fn analyze_call(&mut self, statement: &Stmt) -> (r: Option<DataType>)
        requires
            statement is FunctionCall,
        ensures
            (final(self)@, type_view(r)) == analyze_stmt(old(self)@, statement@),
        decreases statement, 0nat,
    {
        broadcast use lemma_stmt_view;

        match statement {
            Stmt::FunctionCall { name, args, .. } => {
                if str_eq(name.as_str(), "println") || str_eq(name.as_str(), "print") {
                    self.analyze_list(args);
                    return Some(DataType::Void);
                }
                let index = match self.function_index(name.as_str()) {
                    Some(i) => i,
                    None => {
                        self.record(SematicError::FunctionNotFound(name.clone()));
                        return None;
                    },
                };
                let function = self.functions[index].1.clone();
                if args.len() != function.params.len() {
                    self.record(
                        SematicError::FunctionCallArgumentCountMismatch(
                            name.clone(),
                            function.params.len(),
                            args.len(),
                        ),
                    );
                    return Some(function.return_type);
                }
                let actual = match self.analyze_arguments(args) {
                    Some(a) => a,
                    None => {
                        return None;
                    },
                };
                self.check_arguments(name, &function.params, &actual);
                Some(function.return_type)
            },
            _ => None,
        }
    }

    fn analyze_declaration(&mut self, statement: &Stmt) -> (r: Option<DataType>)
        requires
            statement is Declaration,
        ensures
            (final(self)@, type_view(r)) == analyze_stmt(old(self)@, statement@),
        decreases statement, 0nat,
    {
        match statement {
            Stmt::Declaration { mutable, name, data_type, value } => {
                match data_type {
                    Some(declared) => {
                        match value {
                            None => {},
                            Some(v) => {
                                match self.analyze_statement(v) {
                                    Some(t) => {
                                        if !(t == *declared) {
                                            self.record(
                                                SematicError::TypeMismatch(declared.clone(), t),
                                            );
                                        }
                                    },
                                    None => {},
                                }
                            },
                        }
                        self.declare(
                            Variable {
                                name: name.clone(),
                                data_type: declared.clone(),
                                mutable: *mutable,
                                used: false,
                                initialized: value.is_some(),
                            },
                        );
                        Some(declared.clone())
                    },
                    None => {
                        match value {
                            None => {
                                self.record(SematicError::NoTypeOrValueProvided);
                                None
                            },
                            Some(v) => {
                                match self.analyze_statement(v) {
                                    None => None,
                                    Some(t) => {
                                        self.declare(
                                            Variable {
                                                name: name.clone(),
                                                data_type: t.clone(),
                                                mutable: *mutable,
                                                used: false,
                                                initialized: true,
                                            },
                                        );
                                        Some(t)
                                    },
                                }
                            },
                        }
                    },
                }
            },
            _ => None,
        }
    }

    /// Analyzes the statements of a list in order.
    pub fn analyze_list(&mut self, body: &Vec<Stmt>)
        ensures
            final(self)@ == analyze_all(old(self)@, stmts_view(body@)),
        decreases body, 0nat,
    {
        let ghost all = stmts_view(body@);
        let mut i: usize = 0;
        assert(all.take(0) =~= Seq::<StmtView>::empty());
        while i < body.len()
            invariant
                i <= body.len(),
                all == stmts_view(body@),
                self@ == analyze_all(old(self)@, all.take(i as int)),
            decreases body.len() - i,
        {
            assert(all.take(i as int + 1).drop_last() =~= all.take(i as int));
            self.analyze_statement(&body[i]);
            i = i + 1;
        }
        assert(all.take(i as int) =~= all);
    }

    fn analyze_arguments(&mut self, args: &Vec<Stmt>) -> (r: Option<Vec<DataType>>)
        ensures
            final(self)@ == analyze_args(old(self)@, stmts_view(args@)).0,
            match r {
                Some(types) => analyze_args(old(self)@, stmts_view(args@)).1 == Some(
                    types_view(types@),
                ) && types.len() == args.len(),
                None => analyze_args(old(self)@, stmts_view(args@)).1 is None,
            },
        decreases args, 0nat,
    {
        let ghost all = stmts_view(args@);
        let mut types: Vec<DataType> = Vec::new();
        let mut i: usize = 0;
        assert(all.take(0) =~= Seq::<StmtView>::empty());
        assert(types_view(types@) =~= Seq::<DataTypeView>::empty());
        while i < args.len()
            invariant
                i <= args.len(),
                all == stmts_view(args@),
                types.len() == i,
                analyze_args(old(self)@, all.take(i as int)) == (
                    self@,
                    Some(types_view(types@)),
                ),
            decreases args.len() - i,
        {
            assert(all.take(i as int + 1).drop_last() =~= all.take(i as int));
            let ghost before = types_view(types@);
            match self.analyze_statement(&args[i]) {
                Some(t) => {
                    types.push(t);
                    assert(types_view(types@) =~= before.push(t@));
                },
                None => {
                    proof {
                        lemma_args_stop(old(self)@, all, i as int + 1);
                    }
                    return None;
                },
            }
            i = i + 1;
        }
        assert(all.take(i as int) =~= all);
        Some(types)
    }

    fn check_arguments(&mut self, name: &String, expected: &Vec<DataType>, actual: &Vec<DataType>)
        requires
            expected.len() == actual.len(),
        ensures
            final(self)@ == old(self)@.with_errors(
                argument_mismatches(
                    name@,
                    types_view(expected@),
                    types_view(actual@),
                    actual.len() as int,
                ),
            ),
    {
        let ghost e0 = self@.errors;
        let ghost ex = types_view(expected@);
        let ghost ac = types_view(actual@);
        let mut i: usize = 0;
        assert(self@.errors =~= e0 + argument_mismatches(name@, ex, ac, 0));
        while i < actual.len()
            invariant
                i <= actual.len(),
                expected.len() == actual.len(),
                ex == types_view(expected@),
                ac == types_view(actual@),
                e0 == old(self)@.errors,
                self@ == (AnalyzerView {
                    errors: e0 + argument_mismatches(name@, ex, ac, i as int),
                    ..old(self)@
                }),
            decreases actual.len() - i,
        {
            let ghost before = self@.errors;
            assert(ex[i as int] == expected[i as int]@);
            assert(ac[i as int] == actual[i as int]@);
            if !(expected[i] == actual[i]) {
                let ghost e = SematicErrorView::FunctionCallArgumentMismatch(
                    name@,
                    (i + 1) as nat,
                    ex[i as int],
                    ac[i as int],
                );
                self.errors.push(
                    SematicError::FunctionCallArgumentMismatch(
                        name.clone(),
                        i + 1,
                        expected[i].clone(),
                        actual[i].clone(),
                    ),
                );
                assert(self@.errors =~= before.push(e));
            }
            assert(self@.errors =~= e0 + argument_mismatches(name@, ex, ac, i as int + 1));
            i = i + 1;
        }
    }
}

impl Analyzer {
    fn register(&mut self, function: &Stmt) -> (ok: bool)
        ensures
            ok == (function is FunctionDeclaration),
            ok ==> (function@ matches StmtView::FunctionDeclaration {
                name,
                params,
                return_type,
                ..
            } && final(self)@ == old(self)@.with_function(
                name,
                FunctionView { return_type, params: param_types(params) },
            )),
            !ok ==> final(self)@ == old(self)@,
    {
        broadcast use lemma_stmt_view;

        match function {
            Stmt::FunctionDeclaration { name, params, return_type, .. } => {
                let mut types: Vec<DataType> = Vec::new();
                let mut i: usize = 0;
                while i < params.len()
                    invariant
                        i <= params.len(),
                        types.len() == i,
                        forall|j: int| 0 <= j < i ==> types[j]@ == params[j].data_type@,
                    decreases params.len() - i,
                {
                    types.push(params[i].data_type.clone());
                    i = i + 1;
                }
                let f = Function { return_type: return_type.clone(), params: types };
                assert(f@.params =~= param_types(params_view(params@)));
                let ghost before = self@.functions;
                self.functions.push((name.clone(), f));
                assert(self@.functions =~= before.push((name@, f@)));
                true
            },
            _ => false,
        }
    }

    /// Analyzes a program.
    ///
    /// Every function of the program is registered first, so that a call may
    /// stand before the declaration. Then the top-level statements are
    /// analyzed in order, and at the end every variable that is still in
    /// scope and was never read gets a warning. Semantic errors do not make
    /// the result `Err`: they are found in `errors`. The result is `Err`
    /// only where the program's list of functions holds a statement that is
    /// no function declaration; nothing is analyzed then. What was recorded
    /// before stays; at most one error is added for each error site of the
    /// top-level statements, and at most one warning for each declaration
    /// in them and each variable that was bound before.
    pub fn analyze(&mut self, program: Program) -> (r: Result<(), String>)
        ensures
            match analyze_program(old(self)@, program@) {
                Ok(st) => r is Ok && final(self)@ == st,
                Err(st) => r is Err && final(self)@ == st && r.unwrap_err()@
                    == "Expected function declaration"@,
            },
            r is Ok ==> {
                &&& old(self)@.errors.is_prefix_of(final(self)@.errors)
                &&& old(self)@.warnings.is_prefix_of(final(self)@.warnings)
                &&& final(self)@.errors.len() <= old(self)@.errors.len() + error_sites_all(
                    program@.body,
                )
                &&& final(self)@.warnings.len() <= old(self)@.warnings.len() + declarations_all(
                    program@.body,
                ) + bindings(old(self)@.scope)
            },
    {
        proof {
            crate::analyzer::scope::lemma_scope_has_frame(&self.scope);
            if analyze_program(self@, program@) is Ok {
                lemma_program_accumulates(self@, program@);
            }
        }
        let ghost functions = stmts_view(program.functions@);
        let mut i: usize = 0;
        assert(functions.take(0) =~= Seq::<StmtView>::empty());
        while i < program.functions.len()
            invariant
                i <= program.functions.len(),
                functions == stmts_view(program.functions@),
                register_all(old(self)@, functions.take(i as int)) == (self@, true),
            decreases program.functions.len() - i,
        {
            assert(functions.take(i as int + 1).drop_last() =~= functions.take(i as int));
            if !self.register(&program.functions[i]) {
                proof {
                    lemma_register_stop(old(self)@, functions, i as int + 1);
                }
                return Err("Expected function declaration".to_owned());
            }
            i = i + 1;
        }
        assert(functions.take(i as int) =~= functions);
        self.analyze_list(&program.body);
        let unused = self.scope.get_unused_variables();
        self.warn_unused(&unused);
        Ok(())
    }
}

impl Default for Analyzer {
    fn default() -> (r: Self)
        ensures
            r@ == (AnalyzerView {
                scope: seq![Seq::<Binding>::empty()],
                functions: Seq::empty(),
                errors: Seq::empty(),
                warnings: Seq::empty(),
            }),
    {
        Analyzer::new()
    }
}

} // verus!
