//! What holds of every analysis: diagnostics only accumulate, their number
//! is bounded by the size of what was analyzed, and blocks keep their
//! variables to themselves.
use vstd::prelude::*;
use crate::analyzer::{
    analyze_all,
    analyze_args,
    analyze_program,
    analyze_stmt,
    argument_mismatches,
    is_builtin,
    find_function,
    register_all,
    AnalyzerView,
};
use crate::analyzer::errors::{SematicErrorView, SematicWarningView};
use crate::analyzer::scope::{
    find_from,
    frame_find,
    frame_set,
    lookup,
    mark_used,
    unused,
    unused_in_frame,
    Binding,
    Frame,
    VariableView,
};
use crate::ast::{ProgramView, StmtView};
use crate::types::{DataTypeView};

verus! {

/// The same variable, except that it may have been read in between.
pub open spec fn same_variable(a: VariableView, b: VariableView) -> bool {
    &&& a.name == b.name
    &&& a.data_type == b.data_type
    &&& a.mutable == b.mutable
    &&& a.initialized == b.initialized
    &&& a.used ==> b.used
}

/// The same bindings in the same order, except that variables may have been
/// read in between.
pub open spec fn same_frame(a: Frame, b: Frame) -> bool {
    &&& a.len() == b.len()
    &&& forall|i: int|
        0 <= i < a.len() ==> (#[trigger] a[i]).0 == b[i].0 && same_variable(a[i].1, b[i].1)
}

/// Two chains of the same depth whose frames from position `from` outwards
/// hold the same bindings.
pub open spec fn same_frames_from(a: Seq<Frame>, b: Seq<Frame>, from: int) -> bool {
    &&& a.len() == b.len()
    &&& forall|i: int| from <= i < a.len() ==> same_frame(#[trigger] a[i], b[i])
}

/// What analysis may do to a state: add diagnostics at the end, bind
/// variables in the innermost frame, and mark variables as read. It never
/// drops a diagnostic, never touches the functions, and never changes what
/// an enclosing frame binds.
pub open spec fn evolves(a: AnalyzerView, b: AnalyzerView) -> bool {
    &&& a.errors.is_prefix_of(b.errors)
    &&& a.warnings.is_prefix_of(b.warnings)
    &&& a.functions == b.functions
    &&& same_frames_from(a.scope, b.scope, 1)
}

/// The number of places in a statement at which analysis can record an
/// error.
pub open spec fn error_sites(s: StmtView) -> nat
    decreases s,
{
    match s {
        StmtView::BinaryExpression { left, right, .. } => error_sites(*left) + error_sites(*right)
            + 1,
        StmtView::UnaryExpression { value, .. } => error_sites(*value),
        StmtView::FunctionCall { args, .. } => error_sites_all(args) + args.len() + 1,
        StmtView::Identifier { .. } => 1,
        StmtView::Declaration { value, .. } => 1 + match value {
            Some(v) => error_sites(*v),
            None => 0,
        },
        StmtView::Block { body } => error_sites_all(body),
        StmtView::IfStatement { condition, block, else_block } => error_sites(*condition)
            + error_sites(*block) + match else_block {
            Some(e) => error_sites(*e),
            None => 0,
        },
        StmtView::ReturnStatement { value } => match value {
            Some(v) => error_sites(*v),
            None => 0,
        },
        _ => 0,
    }
}

/// The error sites of the statements of a list, together.
pub open spec fn error_sites_all(body: Seq<StmtView>) -> nat
    decreases body,
{
    if body.len() == 0 {
        0
    } else {
        error_sites_all(body.drop_last()) + error_sites(body.last())
    }
}

/// The number of declarations in a statement, at any depth that analysis
/// reaches.
pub open spec fn declarations(s: StmtView) -> nat
    decreases s,
{
    match s {
        StmtView::BinaryExpression { left, right, .. } => declarations(*left) + declarations(
            *right,
        ),
        StmtView::UnaryExpression { value, .. } => declarations(*value),
        StmtView::FunctionCall { args, .. } => declarations_all(args),
        StmtView::Declaration { value, .. } => 1 + match value {
            Some(v) => declarations(*v),
            None => 0,
        },
        StmtView::Block { body } => declarations_all(body),
        StmtView::IfStatement { condition, block, else_block } => declarations(*condition)
            + declarations(*block) + match else_block {
            Some(e) => declarations(*e),
            None => 0,
        },
        StmtView::ReturnStatement { value } => match value {
            Some(v) => declarations(*v),
            None => 0,
        },
        _ => 0,
    }
}

/// The declarations of the statements of a list, together.
pub open spec fn declarations_all(body: Seq<StmtView>) -> nat
    decreases body,
{
    if body.len() == 0 {
        0
    } else {
        declarations_all(body.drop_last()) + declarations(body.last())
    }
}

/// The number of declarations in a statement that are not inside a block
/// of it: those that bind in the frame in which the statement stands.
pub open spec fn open_declarations(s: StmtView) -> nat
    decreases s,
{
    match s {
        StmtView::BinaryExpression { left, right, .. } => open_declarations(*left)
            + open_declarations(*right),
        StmtView::UnaryExpression { value, .. } => open_declarations(*value),
        StmtView::FunctionCall { args, .. } => open_declarations_all(args),
        StmtView::Declaration { value, .. } => 1 + match value {
            Some(v) => open_declarations(*v),
            None => 0,
        },
        StmtView::IfStatement { condition, block, else_block } => open_declarations(*condition)
            + open_declarations(*block) + match else_block {
            Some(e) => open_declarations(*e),
            None => 0,
        },
        StmtView::ReturnStatement { value } => match value {
            Some(v) => open_declarations(*v),
            None => 0,
        },
        _ => 0,
    }
}

/// The open declarations of the statements of a list, together.
pub open spec fn open_declarations_all(body: Seq<StmtView>) -> nat
    decreases body,
{
    if body.len() == 0 {
        0
    } else {
        open_declarations_all(body.drop_last()) + open_declarations(body.last())
    }
}

/// The number of bindings in a chain of frames.
pub open spec fn bindings(frames: Seq<Frame>) -> nat
    decreases frames.len(),
{
    if frames.len() == 0 {
        0
    } else {
        frames[0].len() + bindings(frames.drop_first())
    }
}

proof fn lemma_prefix_trans<A>(a: Seq<A>, b: Seq<A>, c: Seq<A>)
    requires
        a.is_prefix_of(b),
        b.is_prefix_of(c),
    ensures
        a.is_prefix_of(c),
{
    assert(a =~= c.subrange(0, a.len() as int)) by {
        assert(a =~= b.subrange(0, a.len() as int));
        assert(b =~= c.subrange(0, b.len() as int));
    }
}

proof fn lemma_same_frames_trans(a: Seq<Frame>, b: Seq<Frame>, c: Seq<Frame>, from: int)
    requires
        same_frames_from(a, b, from),
        same_frames_from(b, c, from),
    ensures
        same_frames_from(a, c, from),
{
    assert forall|i: int| from <= i < a.len() implies same_frame(#[trigger] a[i], c[i]) by {
        assert(same_frame(a[i], b[i]));
        assert(same_frame(b[i], c[i]));
        assert forall|j: int| 0 <= j < a[i].len() implies (#[trigger] a[i][j]).0 == c[i][j].0
            && same_variable(a[i][j].1, c[i][j].1) by {
            assert(a[i][j].0 == b[i][j].0);
            assert(b[i][j].0 == c[i][j].0);
        }
    }
}

proof fn lemma_evolves_trans(a: AnalyzerView, b: AnalyzerView, c: AnalyzerView)
    requires
        evolves(a, b),
        evolves(b, c),
    ensures
        evolves(a, c),
{
    lemma_prefix_trans(a.errors, b.errors, c.errors);
    lemma_prefix_trans(a.warnings, b.warnings, c.warnings);
    lemma_same_frames_trans(a.scope, b.scope, c.scope, 1);
}

proof fn lemma_find_in_range(frame: Frame, name: Seq<char>, from: int)
    requires
        0 <= from,
    ensures
        find_from(frame, name, from) matches Some(i) ==> from <= i < frame.len(),
    decreases frame.len() - from,
{
    if from < frame.len() && frame[from].0 != name {
        lemma_find_in_range(frame, name, from + 1);
    }
}

/// Marking a variable as read changes no binding of any frame otherwise.
proof fn lemma_mark_used_same(frames: Seq<Frame>, name: Seq<char>)
    ensures
        same_frames_from(frames, mark_used(frames, name), 0),
    decreases frames.len(),
{
    if frames.len() > 0 {
        match frame_find(frames[0], name) {
            Some(i) => {
                lemma_find_in_range(frames[0], name, 0);
                let after = mark_used(frames, name);
                assert forall|k: int| 0 <= k < frames.len() implies same_frame(
                    #[trigger] frames[k],
                    after[k],
                ) by {
                    if k == 0 {
                        assert forall|j: int| 0 <= j < frames[0].len() implies (
                        #[trigger] frames[0][j]).0 == after[0][j].0 && same_variable(
                            frames[0][j].1,
                            after[0][j].1,
                        ) by {}
                    }
                }
            },
            None => {
                lemma_mark_used_same(frames.drop_first(), name);
                let rest = mark_used(frames.drop_first(), name);
                let after = mark_used(frames, name);
                assert(after =~= seq![frames[0]] + rest);
                assert forall|k: int| 0 <= k < frames.len() implies same_frame(
                    #[trigger] frames[k],
                    after[k],
                ) by {
                    if k > 0 {
                        assert(frames[k] == frames.drop_first()[k - 1]);
                        assert(after[k] == rest[k - 1]);
                        assert(same_frame(frames.drop_first()[k - 1], rest[k - 1]));
                    }
                }
            },
        }
    }
}

proof fn lemma_frame_set_len(frame: Frame, name: Seq<char>, v: VariableView)
    ensures
        frame_set(frame, name, v).len() <= frame.len() + 1,
{
    lemma_find_in_range(frame, name, 0);
}

proof fn lemma_unused_in_frame_len(frame: Frame)
    ensures
        unused_in_frame(frame).len() <= frame.len(),
    decreases frame.len(),
{
    if frame.len() > 0 {
        lemma_unused_in_frame_len(frame.drop_last());
    }
}

proof fn lemma_unused_len(frames: Seq<Frame>)
    ensures
        unused(frames).len() <= bindings(frames),
    decreases frames.len(),
{
    if frames.len() > 0 {
        lemma_unused_in_frame_len(frames[0]);
        lemma_unused_len(frames.drop_first());
    }
}

proof fn lemma_mismatches_len(
    name: Seq<char>,
    expected: Seq<DataTypeView>,
    actual: Seq<DataTypeView>,
    n: int,
)
    requires
        0 <= n,
    ensures
        argument_mismatches(name, expected, actual, n).len() <= n,
    decreases n,
{
    if n > 0 {
        lemma_mismatches_len(name, expected, actual, n - 1);
    }
}

/// Analysis of a statement only adds to the state, and a block leaves the
/// whole scope chain as it found it, but for the variables marked as read.
pub proof fn lemma_stmt_evolves(st: AnalyzerView, s: StmtView)
    requires
        st.scope.len() >= 1,
    ensures
        evolves(st, analyze_stmt(st, s).0),
        s is Block ==> same_frames_from(st.scope, analyze_stmt(st, s).0.scope, 0),
    decreases s,
{
    let after = analyze_stmt(st, s).0;
    match s {
        StmtView::BinaryExpression { left, right, operator } => {
            lemma_stmt_evolves(st, *left);
            let (st1, left_type) = analyze_stmt(st, *left);
            if left_type is Some {
                lemma_stmt_evolves(st1, *right);
                let (st2, right_type) = analyze_stmt(st1, *right);
                lemma_evolves_trans(st, st1, st2);
                assert(evolves(st2, after));
                lemma_evolves_trans(st, st2, after);
            }
        },
        StmtView::UnaryExpression { value, .. } => {
            lemma_stmt_evolves(st, *value);
        },
        StmtView::FunctionCall { name, args, .. } => {
            if is_builtin(name) {
                lemma_all_evolves(st, args);
            } else {
                match find_function(st.functions, name) {
                    None => {},
                    Some(f) => {
                        if args.len() == f.params.len() {
                            lemma_args_evolves(st, args);
                            let (st1, types) = analyze_args(st, args);
                            assert(evolves(st1, after));
                            lemma_evolves_trans(st, st1, after);
                        }
                    },
                }
            }
        },
        StmtView::Identifier { name, .. } => {
            lemma_mark_used_same(st.scope, name);
        },
        StmtView::Declaration { value, .. } => {
            match value {
                Some(v) => {
                    lemma_stmt_evolves(st, *v);
                    let st1 = analyze_stmt(st, *v).0;
                    assert(evolves(st1, after));
                    lemma_evolves_trans(st, st1, after);
                },
                None => {},
            }
        },
        StmtView::Block { body } => {
            let st1 = st.enter_block();
            lemma_all_evolves(st1, body);
            let st2 = analyze_all(st1, body);
            assert(after == st2.leave_block());
            assert(after.scope =~= st2.scope.drop_first());
            assert forall|i: int| 0 <= i < st.scope.len() implies same_frame(
                #[trigger] st.scope[i],
                after.scope[i],
            ) by {
                assert(st.scope[i] == st1.scope[i + 1]);
                assert(after.scope[i] == st2.scope[i + 1]);
                assert(same_frame(st1.scope[i + 1], st2.scope[i + 1]));
            }
        },
        StmtView::IfStatement { condition, block, else_block } => {
            lemma_stmt_evolves(st, *condition);
            let st1 = analyze_stmt(st, *condition).0;
            lemma_stmt_evolves(st1, *block);
            let st2 = analyze_stmt(st1, *block).0;
            lemma_evolves_trans(st, st1, st2);
            match else_block {
                Some(e) => {
                    lemma_stmt_evolves(st2, *e);
                    lemma_evolves_trans(st, st2, after);
                },
                None => {},
            }
        },
        StmtView::ReturnStatement { value } => {
            match value {
                Some(v) => {
                    lemma_stmt_evolves(st, *v);
                },
                None => {},
            }
        },
        _ => {},
    }
}

/// Analysis of a list of statements only adds to the state.
pub proof fn lemma_all_evolves(st: AnalyzerView, body: Seq<StmtView>)
    requires
        st.scope.len() >= 1,
    ensures
        evolves(st, analyze_all(st, body)),
    decreases body,
{
    if body.len() > 0 {
        lemma_all_evolves(st, body.drop_last());
        let st1 = analyze_all(st, body.drop_last());
        lemma_stmt_evolves(st1, body.last());
        lemma_evolves_trans(st, st1, analyze_all(st, body));
    }
}

/// Analysis of the arguments of a call only adds to the state.
pub proof fn lemma_args_evolves(st: AnalyzerView, args: Seq<StmtView>)
    requires
        st.scope.len() >= 1,
    ensures
        evolves(st, analyze_args(st, args).0),
        analyze_args(st, args).1 matches Some(types) ==> types.len() == args.len(),
    decreases args,
{
    if args.len() > 0 {
        lemma_args_evolves(st, args.drop_last());
        let (st1, types) = analyze_args(st, args.drop_last());
        if types is Some {
            lemma_stmt_evolves(st1, args.last());
            lemma_evolves_trans(st, st1, analyze_args(st, args).0);
        }
    }
}

proof fn lemma_open_declarations_le(s: StmtView)
    ensures
        open_declarations(s) <= declarations(s),
    decreases s,
{
    match s {
        StmtView::BinaryExpression { left, right, .. } => {
            lemma_open_declarations_le(*left);
            lemma_open_declarations_le(*right);
        },
        StmtView::UnaryExpression { value, .. } => {
            lemma_open_declarations_le(*value);
        },
        StmtView::FunctionCall { args, .. } => {
            lemma_open_declarations_all_le(args);
        },
        StmtView::Declaration { value, .. } => {
            match value {
                Some(v) => lemma_open_declarations_le(*v),
                None => {},
            }
        },
        StmtView::IfStatement { condition, block, else_block } => {
            lemma_open_declarations_le(*condition);
            lemma_open_declarations_le(*block);
            match else_block {
                Some(e) => lemma_open_declarations_le(*e),
                None => {},
            }
        },
        StmtView::ReturnStatement { value } => {
            match value {
                Some(v) => lemma_open_declarations_le(*v),
                None => {},
            }
        },
        _ => {},
    }
}

proof fn lemma_open_declarations_all_le(body: Seq<StmtView>)
    ensures
        open_declarations_all(body) <= declarations_all(body),
    decreases body,
{
    if body.len() > 0 {
        lemma_open_declarations_all_le(body.drop_last());
        lemma_open_declarations_le(body.last());
    }
}

/// How much a state may have grown: by so many errors, so many warnings,
/// and so many bindings of the innermost frame.
pub open spec fn grown_by(
    a: AnalyzerView,
    b: AnalyzerView,
    errors: nat,
    warnings: nat,
    bound: nat,
) -> bool {
    &&& b.errors.len() <= a.errors.len() + errors
    &&& b.warnings.len() <= a.warnings.len() + warnings
    &&& b.scope[0].len() <= a.scope[0].len() + bound
}

/// Analysis of a statement records at most one error for each error site
/// of the statement and at most one warning for each declaration inside a
/// block of it, and binds at most one variable for each open declaration.
pub proof fn lemma_stmt_bounded(st: AnalyzerView, s: StmtView)
    requires
        st.scope.len() >= 1,
    ensures
        grown_by(
            st,
            analyze_stmt(st, s).0,
            error_sites(s),
            (declarations(s) - open_declarations(s)) as nat,
            open_declarations(s),
        ),
    decreases s,
{
    let after = analyze_stmt(st, s).0;
    lemma_open_declarations_le(s);
    lemma_stmt_evolves(st, s);
    match s {
        StmtView::BinaryExpression { left, right, operator } => {
            lemma_stmt_bounded(st, *left);
            lemma_stmt_evolves(st, *left);
            lemma_open_declarations_le(*left);
            lemma_open_declarations_le(*right);
            let (st1, left_type) = analyze_stmt(st, *left);
            if left_type is Some {
                lemma_stmt_bounded(st1, *right);
            }
        },
        StmtView::UnaryExpression { value, .. } => {
            lemma_stmt_bounded(st, *value);
        },
        StmtView::FunctionCall { name, args, .. } => {
            lemma_open_declarations_all_le(args);
            if is_builtin(name) {
                lemma_all_bounded(st, args);
            } else {
                match find_function(st.functions, name) {
                    None => {},
                    Some(f) => {
                        if args.len() == f.params.len() {
                            lemma_args_bounded(st, args);
                            lemma_args_evolves(st, args);
                            let (st1, types) = analyze_args(st, args);
                            match types {
                                Some(actual) => {
                                    lemma_mismatches_len(
                                        name,
                                        f.params,
                                        actual,
                                        actual.len() as int,
                                    );
                                },
                                None => {},
                            }
                        }
                    },
                }
            }
        },
        StmtView::Identifier { name, .. } => {
            lemma_mark_used_same(st.scope, name);
            assert(same_frame(st.scope[0], after.scope[0]));
        },
        StmtView::Declaration { mutable, name, data_type, value } => {
            match value {
                Some(v) => {
                    lemma_stmt_bounded(st, *v);
                    lemma_stmt_evolves(st, *v);
                    lemma_open_declarations_le(*v);
                    let st1 = analyze_stmt(st, *v).0;
                    assert forall|x: VariableView|
                        (#[trigger] frame_set(st1.scope[0], name, x)).len() <= st1.scope[0].len()
                            + 1 by {
                        lemma_frame_set_len(st1.scope[0], name, x);
                    }
                },
                None => {
                    assert forall|x: VariableView|
                        (#[trigger] frame_set(st.scope[0], name, x)).len() <= st.scope[0].len()
                            + 1 by {
                        lemma_frame_set_len(st.scope[0], name, x);
                    }
                },
            }
        },
        StmtView::Block { body } => {
            let st1 = st.enter_block();
            lemma_all_bounded(st1, body);
            lemma_all_evolves(st1, body);
            lemma_open_declarations_all_le(body);
            let st2 = analyze_all(st1, body);
            lemma_unused_in_frame_len(st2.scope[0]);
            assert(same_frame(st.scope[0], after.scope[0]));
        },
        StmtView::IfStatement { condition, block, else_block } => {
            lemma_stmt_bounded(st, *condition);
            lemma_stmt_evolves(st, *condition);
            lemma_open_declarations_le(*condition);
            lemma_open_declarations_le(*block);
            let st1 = analyze_stmt(st, *condition).0;
            lemma_stmt_bounded(st1, *block);
            lemma_stmt_evolves(st1, *block);
            let st2 = analyze_stmt(st1, *block).0;
            match else_block {
                Some(e) => {
                    lemma_open_declarations_le(*e);
                    lemma_stmt_bounded(st2, *e);
                },
                None => {},
            }
        },
        StmtView::ReturnStatement { value } => {
            match value {
                Some(v) => {
                    lemma_stmt_bounded(st, *v);
                },
                None => {},
            }
        },
        _ => {},
    }
}

/// The bounds of [`lemma_stmt_bounded`], for a list of statements.
pub proof fn lemma_all_bounded(st: AnalyzerView, body: Seq<StmtView>)
    requires
        st.scope.len() >= 1,
    ensures
        grown_by(
            st,
            analyze_all(st, body),
            error_sites_all(body),
            (declarations_all(body) - open_declarations_all(body)) as nat,
            open_declarations_all(body),
        ),
    decreases body,
{
    lemma_open_declarations_all_le(body);
    if body.len() > 0 {
        lemma_all_bounded(st, body.drop_last());
        lemma_all_evolves(st, body.drop_last());
        lemma_open_declarations_all_le(body.drop_last());
        lemma_open_declarations_le(body.last());
        let st1 = analyze_all(st, body.drop_last());
        lemma_stmt_bounded(st1, body.last());
    }
}

/// The bounds of [`lemma_stmt_bounded`], for the arguments of a call.
pub proof fn lemma_args_bounded(st: AnalyzerView, args: Seq<StmtView>)
    requires
        st.scope.len() >= 1,
    ensures
        grown_by(
            st,
            analyze_args(st, args).0,
            error_sites_all(args),
            (declarations_all(args) - open_declarations_all(args)) as nat,
            open_declarations_all(args),
        ),
    decreases args,
{
    lemma_open_declarations_all_le(args);
    if args.len() > 0 {
        lemma_args_bounded(st, args.drop_last());
        lemma_args_evolves(st, args.drop_last());
        lemma_open_declarations_all_le(args.drop_last());
        lemma_open_declarations_le(args.last());
        let (st1, types) = analyze_args(st, args.drop_last());
        if types is Some {
            lemma_stmt_bounded(st1, args.last());
        }
    }
}

proof fn lemma_bindings_same(a: Seq<Frame>, b: Seq<Frame>)
    requires
        same_frames_from(a, b, 1),
        a.len() >= 1,
    ensures
        bindings(b) - b[0].len() == bindings(a) - a[0].len(),
{
    lemma_bindings_equal(a.drop_first(), b.drop_first());
}

proof fn lemma_bindings_equal(a: Seq<Frame>, b: Seq<Frame>)
    requires
        same_frames_from(a, b, 0),
    ensures
        bindings(a) == bindings(b),
    decreases a.len(),
{
    if a.len() > 0 {
        assert(same_frame(a[0], b[0]));
        assert forall|i: int| 0 <= i < a.drop_first().len() implies same_frame(
            #[trigger] a.drop_first()[i],
            b.drop_first()[i],
        ) by {
            assert(same_frame(a[i + 1], b[i + 1]));
        }
        lemma_bindings_equal(a.drop_first(), b.drop_first());
    }
}

/// Analysis accumulates. Whatever a program's statements hold, its analysis
/// keeps every diagnostic that was there before, records at most one error
/// for each error site of the top-level statements, and at most one warning
/// for each declaration in them and each variable that was already bound.
pub proof fn lemma_program_accumulates(st: AnalyzerView, p: ProgramView)
    requires
        st.scope.len() >= 1,
        analyze_program(st, p) is Ok,
    ensures
        ({
            let after = analyze_program(st, p)->Ok_0;
            &&& st.errors.is_prefix_of(after.errors)
            &&& st.warnings.is_prefix_of(after.warnings)
            &&& after.errors.len() <= st.errors.len() + error_sites_all(p.body)
            &&& after.warnings.len() <= st.warnings.len() + declarations_all(p.body) + bindings(
                st.scope,
            )
        }),
{
    let (st1, ok) = register_all(st, p.functions);
    lemma_register_keeps(st, p.functions);
    let st2 = analyze_all(st1, p.body);
    lemma_all_evolves(st1, p.body);
    lemma_all_bounded(st1, p.body);
    lemma_open_declarations_all_le(p.body);
    lemma_unused_len(st2.scope);
    lemma_bindings_same(st1.scope, st2.scope);
    let after = analyze_program(st, p)->Ok_0;
    lemma_prefix_trans(st.warnings, st2.warnings, after.warnings);
}

proof fn lemma_register_keeps(st: AnalyzerView, functions: Seq<StmtView>)
    ensures
        register_all(st, functions).0.errors == st.errors,
        register_all(st, functions).0.warnings == st.warnings,
        register_all(st, functions).0.scope == st.scope,
    decreases functions.len(),
{
    if functions.len() > 0 {
        lemma_register_keeps(st, functions.drop_last());
    }
}

/// Where no statement of a body has more than one error site, analysis of
/// the body records at most as many errors as the body has statements.
pub proof fn lemma_one_error_per_statement(st: AnalyzerView, body: Seq<StmtView>)
    requires
        st.scope.len() >= 1,
        forall|i: int| 0 <= i < body.len() ==> error_sites(#[trigger] body[i]) <= 1,
    ensures
        analyze_all(st, body).errors.len() <= st.errors.len() + body.len(),
{
    lemma_all_bounded(st, body);
    lemma_sites_at_most_len(body);
}

proof fn lemma_sites_at_most_len(body: Seq<StmtView>)
    requires
        forall|i: int| 0 <= i < body.len() ==> error_sites(#[trigger] body[i]) <= 1,
    ensures
        error_sites_all(body) <= body.len(),
    decreases body.len(),
{
    if body.len() > 0 {
        assert forall|i: int| 0 <= i < body.drop_last().len() implies error_sites(
            #[trigger] body.drop_last()[i],
        ) <= 1 by {
            assert(body.drop_last()[i] == body[i]);
        }
        lemma_sites_at_most_len(body.drop_last());
        assert(body.last() == body[body.len() - 1]);
    }
}

proof fn lemma_find_same(a: Frame, b: Frame, name: Seq<char>, from: int)
    requires
        same_frame(a, b),
        0 <= from,
    ensures
        find_from(a, name, from) == find_from(b, name, from),
    decreases a.len() - from,
{
    if from < a.len() {
        assert(a[from].0 == b[from].0);
        if a[from].0 != name {
            lemma_find_same(a, b, name, from + 1);
        }
    }
}

/// Chains with the same bindings resolve every name alike.
pub proof fn lemma_lookup_same(a: Seq<Frame>, b: Seq<Frame>, name: Seq<char>)
    requires
        same_frames_from(a, b, 0),
    ensures
        lookup(a, name) is Some <==> lookup(b, name) is Some,
        lookup(a, name) is Some ==> same_variable(
            lookup(a, name).unwrap(),
            lookup(b, name).unwrap(),
        ),
    decreases a.len(),
{
    if a.len() > 0 {
        assert(same_frame(a[0], b[0]));
        lemma_find_same(a[0], b[0], name, 0);
        lemma_find_in_range(a[0], name, 0);
        match frame_find(a[0], name) {
            Some(i) => {
                assert(a[0][i].0 == b[0][i].0);
            },
            None => {
                assert forall|i: int| 0 <= i < a.drop_first().len() implies same_frame(
                    #[trigger] a.drop_first()[i],
                    b.drop_first()[i],
                ) by {
                    assert(same_frame(a[i + 1], b[i + 1]));
                }
                lemma_lookup_same(a.drop_first(), b.drop_first(), name);
            },
        }
    }
}

/// Scope discipline, first half: what a block declares is not visible after
/// the block. Every name resolves after the block to the variable to which
/// it resolved before the block, and a name that was not bound before is
/// not bound after.
pub proof fn lemma_block_keeps_its_variables(st: AnalyzerView, body: Seq<StmtView>, name: Seq<char>)
    requires
        st.scope.len() >= 1,
    ensures
        ({
            let after = analyze_stmt(st, StmtView::Block { body }).0;
            &&& lookup(after.scope, name) is Some <==> lookup(st.scope, name) is Some
            &&& lookup(st.scope, name) is Some ==> same_variable(
                lookup(st.scope, name).unwrap(),
                lookup(after.scope, name).unwrap(),
            )
        }),
{
    let after = analyze_stmt(st, StmtView::Block { body }).0;
    lemma_stmt_evolves(st, StmtView::Block { body });
    lemma_lookup_same(st.scope, after.scope, name);
}

/// Scope discipline, second half: inside a block, a declaration shadows a
/// variable of the same name of an enclosing frame, and leaves that
/// variable as it is.
pub proof fn lemma_inner_declaration_shadows(st: AnalyzerView, v: VariableView)
    requires
        st.scope.len() >= 1,
    ensures
        lookup(st.enter_block().declare(v).scope, v.name) == Some(v),
        st.enter_block().declare(v).scope.drop_first() == st.scope,
{
    let inner = st.enter_block().declare(v).scope;
    assert(st.enter_block().scope[0] =~= Seq::<Binding>::empty());
    assert(inner[0] =~= seq![(v.name, v)]);
    assert(inner.drop_first() =~= st.scope);
}

/// A state with other diagnostics.
pub open spec fn with_diagnostics(
    st: AnalyzerView,
    errors: Seq<SematicErrorView>,
    warnings: Seq<SematicWarningView>,
) -> AnalyzerView {
    AnalyzerView { errors, warnings, ..st }
}

/// A state without diagnostics.
pub open spec fn silent(st: AnalyzerView) -> AnalyzerView {
    with_diagnostics(st, Seq::empty(), Seq::empty())
}

/// The state that analysis reaches from diagnostics `errors` and
/// `warnings`, given the state `quiet` that it reaches from none: the same,
/// with the diagnostics of `quiet` after those that were there.
pub open spec fn after_diagnostics(
    quiet: AnalyzerView,
    errors: Seq<SematicErrorView>,
    warnings: Seq<SematicWarningView>,
) -> AnalyzerView {
    with_diagnostics(quiet, errors + quiet.errors, warnings + quiet.warnings)
}

proof fn lemma_after_nothing(st: AnalyzerView)
    ensures
        after_diagnostics(silent(st), st.errors, st.warnings) == st,
{
    assert(st.errors + Seq::<SematicErrorView>::empty() =~= st.errors);
    assert(st.warnings + Seq::<SematicWarningView>::empty() =~= st.warnings);
}

proof fn lemma_after_again(
    quiet: AnalyzerView,
    next: AnalyzerView,
    errors: Seq<SematicErrorView>,
    warnings: Seq<SematicWarningView>,
)
    ensures
        after_diagnostics(next, errors + quiet.errors, warnings + quiet.warnings)
            == after_diagnostics(
            after_diagnostics(next, quiet.errors, quiet.warnings),
            errors,
            warnings,
        ),
{
    assert((errors + quiet.errors) + next.errors =~= errors + (quiet.errors + next.errors));
    assert((warnings + quiet.warnings) + next.warnings =~= warnings + (quiet.warnings
        + next.warnings));
}

/// What was recorded before has no part in what analysis does. From a
/// state with diagnostics, analysis of a statement gives the type, the
/// scope and the functions that it gives from the same state without
/// diagnostics, and records the same diagnostics, after those that were
/// there: an error does not hide, change or add one for a later
/// statement.
pub proof fn lemma_errors_do_not_interfere(st: AnalyzerView, s: StmtView)
    ensures
        analyze_stmt(st, s).1 == analyze_stmt(silent(st), s).1,
        analyze_stmt(st, s).0 == after_diagnostics(
            analyze_stmt(silent(st), s).0,
            st.errors,
            st.warnings,
        ),
    decreases s,
{
    let e = st.errors;
    let w = st.warnings;
    let q = silent(st);
    lemma_after_nothing(st);
    match s {
        StmtView::BinaryExpression { left, right, operator } => {
            lemma_errors_do_not_interfere(st, *left);
            let (st1, lt) = analyze_stmt(st, *left);
            let (q1, _) = analyze_stmt(q, *left);
            if lt is Some {
                lemma_errors_do_not_interfere(st1, *right);
                lemma_errors_do_not_interfere(q1, *right);
                let (st2, rt) = analyze_stmt(st1, *right);
                let (q2, _) = analyze_stmt(q1, *right);
                let c = analyze_stmt(silent(q1), *right).0;
                assert(silent(st1) == silent(q1));
                lemma_after_again(q1, c, e, w);
                assert(st2 == after_diagnostics(q2, e, w));
                if rt is Some {
                    assert(analyze_stmt(st, s).0.errors =~= e + analyze_stmt(q, s).0.errors);
                }
            }
        },
        StmtView::UnaryExpression { value, .. } => {
            lemma_errors_do_not_interfere(st, *value);
        },
        StmtView::FunctionCall { name, args, .. } => {
            if is_builtin(name) {
                lemma_all_do_not_interfere(st, args);
            } else {
                match find_function(st.functions, name) {
                    None => {
                        assert(analyze_stmt(st, s).0.errors =~= e + analyze_stmt(q, s).0.errors);
                        assert(analyze_stmt(st, s).0.warnings =~= w + analyze_stmt(
                            q,
                            s,
                        ).0.warnings);
                    },
                    Some(f) => {
                        if args.len() != f.params.len() {
                            assert(analyze_stmt(st, s).0.errors =~= e + analyze_stmt(
                                q,
                                s,
                            ).0.errors);
                            assert(analyze_stmt(st, s).0.warnings =~= w + analyze_stmt(
                                q,
                                s,
                            ).0.warnings);
                        } else {
                            lemma_args_do_not_interfere(st, args);
                            let (st1, types) = analyze_args(st, args);
                            if types is Some {
                                assert(analyze_stmt(st, s).0.errors =~= e + analyze_stmt(
                                    q,
                                    s,
                                ).0.errors);
                            }
                        }
                    },
                }
            }
        },
        StmtView::Identifier { name, .. } => {
            assert(analyze_stmt(st, s).0.errors =~= e + analyze_stmt(q, s).0.errors);
            assert(analyze_stmt(st, s).0.warnings =~= w + analyze_stmt(q, s).0.warnings);
        },
        StmtView::Declaration { value, .. } => {
            match value {
                Some(v) => {
                    lemma_errors_do_not_interfere(st, *v);
                },
                None => {},
            }
            assert(analyze_stmt(st, s).0.errors =~= e + analyze_stmt(q, s).0.errors);
            assert(analyze_stmt(st, s).0.warnings =~= w + analyze_stmt(q, s).0.warnings);
        },
        StmtView::Block { body } => {
            lemma_all_do_not_interfere(st.enter_block(), body);
            assert(silent(st.enter_block()) == q.enter_block());
            lemma_after_nothing(q.enter_block());
            assert(analyze_stmt(st, s).0.errors =~= e + analyze_stmt(q, s).0.errors);
            assert(analyze_stmt(st, s).0.warnings =~= w + analyze_stmt(q, s).0.warnings);
        },
        StmtView::IfStatement { condition, block, else_block } => {
            lemma_errors_do_not_interfere(st, *condition);
            let st1 = analyze_stmt(st, *condition).0;
            let q1 = analyze_stmt(q, *condition).0;
            lemma_errors_do_not_interfere(st1, *block);
            lemma_errors_do_not_interfere(q1, *block);
            assert(silent(st1) == silent(q1));
            let c1 = analyze_stmt(silent(q1), *block).0;
            lemma_after_again(q1, c1, e, w);
            let st2 = analyze_stmt(st1, *block).0;
            let q2 = analyze_stmt(q1, *block).0;
            assert(st2 == after_diagnostics(q2, e, w));
            match else_block {
                Some(x) => {
                    lemma_errors_do_not_interfere(st2, *x);
                    lemma_errors_do_not_interfere(q2, *x);
                    assert(silent(st2) == silent(q2));
                    let c2 = analyze_stmt(silent(q2), *x).0;
                    lemma_after_again(q2, c2, e, w);
                },
                None => {},
            }
        },
        StmtView::ReturnStatement { value } => {
            match value {
                Some(v) => {
                    lemma_errors_do_not_interfere(st, *v);
                },
                None => {},
            }
        },
        _ => {},
    }
}

/// What was recorded before has no part in the analysis of a list of
/// statements.
pub proof fn lemma_all_do_not_interfere(st: AnalyzerView, body: Seq<StmtView>)
    ensures
        analyze_all(st, body) == after_diagnostics(
            analyze_all(silent(st), body),
            st.errors,
            st.warnings,
        ),
    decreases body,
{
    lemma_after_nothing(st);
    if body.len() > 0 {
        lemma_all_do_not_interfere(st, body.drop_last());
        let st1 = analyze_all(st, body.drop_last());
        let q1 = analyze_all(silent(st), body.drop_last());
        lemma_errors_do_not_interfere(st1, body.last());
        lemma_errors_do_not_interfere(q1, body.last());
        assert(silent(st1) == silent(q1));
        let c = analyze_stmt(silent(q1), body.last()).0;
        lemma_after_again(q1, c, st.errors, st.warnings);
    }
}

/// What was recorded before has no part in the analysis of the arguments
/// of a call.
pub proof fn lemma_args_do_not_interfere(st: AnalyzerView, args: Seq<StmtView>)
    ensures
        analyze_args(st, args).1 == analyze_args(silent(st), args).1,
        analyze_args(st, args).0 == after_diagnostics(
            analyze_args(silent(st), args).0,
            st.errors,
            st.warnings,
        ),
    decreases args,
{
    lemma_after_nothing(st);
    if args.len() > 0 {
        lemma_args_do_not_interfere(st, args.drop_last());
        let (st1, types) = analyze_args(st, args.drop_last());
        let (q1, _) = analyze_args(silent(st), args.drop_last());
        if types is Some {
            lemma_errors_do_not_interfere(st1, args.last());
            lemma_errors_do_not_interfere(q1, args.last());
            assert(silent(st1) == silent(q1));
            let c = analyze_stmt(silent(q1), args.last()).0;
            lemma_after_again(q1, c, st.errors, st.warnings);
        }
    }
}

} // verus!
