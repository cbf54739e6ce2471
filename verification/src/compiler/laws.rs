//! What holds of every module that the emitter makes: the discipline of
//! basic blocks.
//!
//! A block of a function is open from the moment it is added until a jump
//! or a return is emitted into it, and closed from then on. Nothing is
//! emitted into a closed block, so a closed block holds exactly one
//! instruction that ends it, and that instruction is its last. When the
//! emission of a function is finished, all of its blocks are closed.
use vstd::prelude::*;
use crate::ast::{BinaryOperator, ParamView, ProgramView, StmtView, UnaryOperator};
use crate::compiler::ir::{is_int, is_terminator, InstrView, IrFunctionView, IrModuleView, IrType, PlacedView, Predicate, ValueView};
use crate::compiler::lowering::{coerce, coerce_all, lower_return, accepts, after, bodies_from, declare_from, declared, float_op, format_of, fresh, int_op, ir_type, is_logical, is_print, lower_all, lower_binary, lower_body, lower_call, lower_declaration, lower_main, lower_print, lower_program, lower_stmt, lower_unary, lower_values, main_function, predicate_of, promote_all, slot_type, store_params, types_of, unify, values_of, zero_of, CodegenView, TypedView};
use crate::compiler::scope::{find_function, find_slot, Slot};

verus! {

/// The number of instructions of a body that end the block `b`.
pub open spec fn ends_in(body: Seq<PlacedView>, b: usize) -> nat
    decreases body.len(),
{
    if body.len() == 0 {
        0
    } else if body.last().block == b && is_terminator(body.last().instr) {
        ends_in(body.drop_last(), b) + 1
    } else {
        ends_in(body.drop_last(), b)
    }
}

/// The instruction of a body that was emitted last into the block `b`.
pub open spec fn last_of(body: Seq<PlacedView>, b: usize) -> Option<InstrView>
    decreases body.len(),
{
    if body.len() == 0 {
        None
    } else if body.last().block == b {
        Some(body.last().instr)
    } else {
        last_of(body.drop_last(), b)
    }
}

/// Whether the block `b` of a body is closed: exactly one of its
/// instructions ends it, and that one is its last.
pub open spec fn closed(body: Seq<PlacedView>, b: usize) -> bool {
    ends_in(body, b) == 1 && last_of(body, b) is Some && is_terminator(last_of(body, b)->Some_0)
}

/// Whether the emitter's record of the block `b` agrees with the
/// instructions: a block that it holds to have ended is closed, and any
/// other holds no instruction that ends it.
pub open spec fn block_ok(st: CodegenView, b: usize) -> bool {
    if b < st.terminated.len() && st.terminated[b as int] {
        closed(st.body, b)
    } else {
        ends_in(st.body, b) == 0
    }
}

/// Whether the emitter's record of its blocks agrees with the instructions
/// of the function in emission.
pub open spec fn sound(st: CodegenView) -> bool {
    &&& st.terminated.len() == st.blocks.len()
    &&& forall|b: usize| #[trigger] block_ok(st, b)
}

/// Whether every block of the function in emission has ended, but for the
/// current one and those of `pending`.
pub open spec fn tidy(st: CodegenView, pending: Set<usize>) -> bool {
    forall|b: usize|
        b < st.terminated.len() && b != st.current && !pending.contains(b)
            ==> #[trigger] st.terminated[b as int]
}

/// Whether every block of a function is closed. A function that is only
/// declared has no blocks.
pub open spec fn function_ok(f: IrFunctionView) -> bool {
    forall|b: usize| b < f.blocks.len() ==> #[trigger] closed(f.body, b)
}

/// Whether every block of every function of a module is closed.
pub open spec fn module_ok(m: IrModuleView) -> bool {
    forall|i: int| 0 <= i < m.functions.len() ==> #[trigger] function_ok(m.functions[i])
}

/// What lowering that adds no block does to the state: it emits into the
/// current block alone, and leaves the functions of the module as they
/// are.
pub open spec fn stays(st: CodegenView, after: CodegenView) -> bool {
    &&& sound(after)
    &&& after.blocks == st.blocks
    &&& after.current == st.current
    &&& after.module.functions == st.module.functions
    &&& forall|b: usize|
        b < st.terminated.len() && b != st.current ==> #[trigger] after.terminated[b as int]
            == st.terminated[b as int]
}

/// What lowering does to the state in general: it may add blocks and move
/// on to one of them, and ends every block that it leaves.
pub open spec fn moves(st: CodegenView, after: CodegenView, pending: Set<usize>) -> bool {
    &&& sound(after)
    &&& tidy(after, pending)
    &&& after.current < after.blocks.len()
    &&& after.blocks.len() >= st.blocks.len()
    &&& after.module.functions == st.module.functions
}

proof fn lemma_stays_refl(st: CodegenView)
    requires
        sound(st),
    ensures
        stays(st, st),
{
}

proof fn lemma_stays_trans(a: CodegenView, b: CodegenView, c: CodegenView)
    requires
        sound(a),
        stays(a, b),
        stays(b, c),
    ensures
        stays(a, c),
{
    assert forall|k: usize| k < a.terminated.len() && k != a.current implies #[trigger] c.terminated[k as int]
        == a.terminated[k as int] by {
        assert(b.terminated[k as int] == a.terminated[k as int]);
    }
}

proof fn lemma_stays_moves(st: CodegenView, after: CodegenView, pending: Set<usize>)
    requires
        sound(st),
        tidy(st, pending),
        st.current < st.blocks.len(),
        stays(st, after),
    ensures
        moves(st, after, pending),
{
    assert forall|b: usize|
        b < after.terminated.len() && b != after.current && !pending.contains(b) implies #[trigger] after.terminated[b as int] by {
        assert(st.terminated[b as int]);
        assert(after.terminated[b as int] == st.terminated[b as int]);
    }
}

proof fn lemma_moves_trans(
    a: CodegenView,
    b: CodegenView,
    c: CodegenView,
    pending: Set<usize>,
)
    requires
        moves(a, b, pending),
        moves(b, c, pending),
    ensures
        moves(a, c, pending),
{
}

/// Emitting into an open block keeps the record sound.
proof fn lemma_emit(st: CodegenView, instr: InstrView)
    requires
        sound(st),
        st.is_open(),
    ensures
        sound(st.emit(instr)),
        stays(st, st.emit(instr)),
        is_terminator(instr) ==> st.emit(instr).terminated[st.current as int],
        !is_terminator(instr) ==> st.emit(instr).is_open(),
{
    let after = st.emit(instr);
    assert(after.body.drop_last() =~= st.body);
    assert forall|b: usize| #[trigger] block_ok(after, b) by {
        assert(block_ok(st, b));
    }
}

proof fn lemma_branch_if_open(st: CodegenView, target: usize)
    requires
        sound(st),
        st.current < st.blocks.len(),
    ensures
        stays(st, st.branch_if_open(target)),
        st.branch_if_open(target).terminated[st.current as int],
{
    if st.is_open() {
        lemma_emit(st, InstrView::Br { target });
    }
}

proof fn lemma_end_with(st: CodegenView, value: Option<ValueView>)
    requires
        sound(st),
        st.current < st.blocks.len(),
    ensures
        stays(st, st.end_with(value)),
        st.end_with(value).terminated[st.current as int],
{
    if st.is_open() {
        lemma_emit(st, InstrView::Ret { value });
    }
}

/// A block that holds no instruction that ends it stays so when a block is
/// added.
proof fn lemma_add_block(st: CodegenView, label: Seq<char>)
    requires
        sound(st),
    ensures
        sound(st.add_block(label)),
        st.add_block(label).blocks.len() == st.blocks.len() + 1,
        st.add_block(label).current == st.current,
        st.add_block(label).body == st.body,
        st.add_block(label).module == st.module,
        st.add_block(label).terminated == st.terminated.push(false),
{
    let after = st.add_block(label);
    assert forall|b: usize| #[trigger] block_ok(after, b) by {
        assert(block_ok(st, b));
    }
}

proof fn lemma_at(st: CodegenView, block: usize)
    requires
        sound(st),
    ensures
        sound(st.at(block)),
{
    assert forall|b: usize| #[trigger] block_ok(st.at(block), b) by {
        assert(block_ok(st, b));
    }
}

proof fn lemma_same_blocks(st: CodegenView, after: CodegenView)
    requires
        sound(st),
        after.blocks == st.blocks,
        after.body == st.body,
        after.terminated == st.terminated,
        after.current == st.current,
        after.module.functions == st.module.functions,
    ensures
        stays(st, after),
{
    assert forall|b: usize| #[trigger] block_ok(after, b) by {
        assert(block_ok(st, b));
    }
}

proof fn lemma_unify(st: CodegenView, l: TypedView, r: TypedView)
    requires
        sound(st),
        st.is_open(),
    ensures
        stays(st, unify(st, l, r).0),
        unify(st, l, r).0.is_open(),
{
    if l.ty == r.ty {
    } else if l.ty == IrType::I1 {
        lemma_emit(st, InstrView::ZExt { value: l.value, to: IrType::I32 });
    } else {
        lemma_emit(st, InstrView::ZExt { value: r.value, to: IrType::I32 });
    }
}

proof fn lemma_lower_binary(st: CodegenView, operator: BinaryOperator, l: TypedView, r: TypedView)
    requires
        sound(st),
    ensures
        stays(st, lower_binary(st, operator, l, r).0),
{
    let after = lower_binary(st, operator, l, r).0;
    if !st.is_open() {
    } else if operator.is_arithmetic() {
        if l.ty == IrType::I32 && r.ty == IrType::I32 {
            lemma_emit(
                st,
                InstrView::Binary {
                    op: int_op(operator),
                    left: l.value,
                    right: r.value,
                },
            );
        } else if l.ty == IrType::F32 && r.ty == IrType::F32 {
            lemma_emit(
                st,
                InstrView::Binary {
                    op: float_op(operator),
                    left: l.value,
                    right: r.value,
                },
            );
        }
    } else if is_int(l.ty) && is_int(r.ty) {
        lemma_unify(st, l, r);
        let (st1, left, right, ty) = unify(st, l, r);
        if is_logical(operator) {
            lemma_emit(
                st1,
                InstrView::Binary { op: int_op(operator), left, right },
            );
            lemma_stays_trans(st, st1, after);
        } else {
            let i = InstrView::ICmp {
                predicate: predicate_of(operator),
                left,
                right,
            };
            lemma_emit(st1, i);
            let st2 = st1.emit(i);
            lemma_emit(st2, InstrView::ZExt { value: st1.local(), to: IrType::I32 });
            lemma_stays_trans(st, st1, st2);
            lemma_stays_trans(st, st2, after);
        }
    } else if l.ty == IrType::F32 && r.ty == IrType::F32 && !is_logical(
        operator,
    ) {
        let i = InstrView::FCmp {
            predicate: predicate_of(operator),
            left: l.value,
            right: r.value,
        };
        lemma_emit(st, i);
        let st1 = st.emit(i);
        lemma_emit(st1, InstrView::ZExt { value: st.local(), to: IrType::I32 });
        lemma_stays_trans(st, st1, after);
    }
}

proof fn lemma_lower_unary(st: CodegenView, operator: UnaryOperator, v: TypedView)
    requires
        sound(st),
    ensures
        stays(st, lower_unary(st, operator, v).0),
{
    let after = lower_unary(st, operator, v).0;
    if st.is_open() {
        match operator {
            UnaryOperator::Negative => {
                if v.ty == IrType::I32 {
                    lemma_emit(st, InstrView::Neg { value: v.value });
                } else if v.ty == IrType::F32 {
                    lemma_emit(st, InstrView::FNeg { value: v.value });
                }
            },
            UnaryOperator::Not => {
                if is_int(v.ty) {
                    let i = InstrView::ICmp {
                        predicate: Predicate::Eq,
                        left: v.value,
                        right: ValueView::ConstInt { ty: v.ty, value: 0 },
                    };
                    lemma_emit(st, i);
                    let st1 = st.emit(i);
                    lemma_emit(st1, InstrView::ZExt { value: st.local(), to: IrType::I32 });
                    lemma_stays_trans(st, st1, after);
                }
            },
        }
    }
}

proof fn lemma_coerce(st: CodegenView, v: TypedView, to: IrType)
    requires
        sound(st),
        st.is_open(),
    ensures
        stays(st, coerce(st, v, to).0),
        coerce(st, v, to).0.is_open(),
        coerce(st, v, to).0.result_type == st.result_type,
{
    if v.ty == to {
    } else if v.ty == IrType::I1 && to == IrType::I32 {
        lemma_emit(st, InstrView::ZExt { value: v.value, to: IrType::I32 });
    } else if v.ty == IrType::I32 && to == IrType::I1 {
        lemma_emit(
            st,
            InstrView::ICmp {
                predicate: Predicate::Ne,
                left: v.value,
                right: ValueView::ConstInt { ty: IrType::I32, value: 0 },
            },
        );
    }
}

proof fn lemma_coerce_all(st: CodegenView, values: Seq<TypedView>, params: Seq<IrType>)
    requires
        sound(st),
        st.is_open(),
    ensures
        stays(st, coerce_all(st, values, params).0),
        coerce_all(st, values, params).0.is_open(),
    decreases values.len(),
{
    if values.len() > 0 {
        lemma_coerce_all(st, values.drop_last(), params);
        let st1 = coerce_all(st, values.drop_last(), params).0;
        if values.len() <= params.len() {
            lemma_coerce(st1, values.last(), params[values.len() - 1]);
        }
        lemma_stays_trans(st, st1, coerce_all(st, values, params).0);
    }
}

proof fn lemma_lower_return(st: CodegenView, value: Option<TypedView>)
    requires
        sound(st),
        st.current < st.blocks.len(),
    ensures
        stays(st, lower_return(st, value)),
        lower_return(st, value).terminated[st.current as int],
{
    let after = lower_return(st, value);
    if !st.is_open() {
    } else if st.result_type == IrType::Void {
        lemma_emit(st, InstrView::Ret { value: None });
    } else {
        match value {
            Some(t) => {
                lemma_coerce(st, t, st.result_type);
                let (st1, fitted) = coerce(st, t, st.result_type);
                let r = InstrView::Ret {
                    value: Some(
                        match fitted {
                            Some(x) => x,
                            None => zero_of(st.result_type),
                        },
                    ),
                };
                lemma_emit(st1, r);
                lemma_stays_trans(st, st1, after);
            },
            None => {
                lemma_emit(st, InstrView::Ret { value: Some(zero_of(st.result_type)) });
            },
        }
    }
}

proof fn lemma_lower_declaration(
    st: CodegenView,
    name: Seq<char>,
    data_type: Option<crate::types::DataTypeView>,
    value: Option<TypedView>,
)
    requires
        sound(st),
    ensures
        stays(st, lower_declaration(st, name, data_type, value)),
{
    let after = lower_declaration(st, name, data_type, value);
    if st.is_open() {
        let ty = match data_type {
            Some(t) => slot_type(ir_type(t)),
            None => match value {
                Some(v) => slot_type(v.ty),
                None => IrType::I32,
            },
        };
        match value {
            Some(v) => {
                lemma_coerce(st, v, ty);
            },
            None => {},
        }
        let (st1, fitted) = match value {
            Some(v) => coerce(st, v, ty),
            None => (st, None),
        };
        let initial = match fitted {
            Some(x) => x,
            None => zero_of(ty),
        };
        let a = InstrView::Alloca { ty, name };
        lemma_emit(st1, a);
        let st2 = st1.emit(a);
        let w = InstrView::Store { slot: st1.local(), value: initial };
        lemma_emit(st2, w);
        let st3 = st2.emit(w);
        lemma_stays_trans(st, st1, st2);
        lemma_stays_trans(st, st2, st3);
        lemma_same_blocks(st3, after);
        lemma_stays_trans(st, st3, after);
    }
}

proof fn lemma_promote_all(st: CodegenView, values: Seq<TypedView>)
    requires
        sound(st),
        st.is_open(),
    ensures
        stays(st, promote_all(st, values).0),
        promote_all(st, values).0.is_open(),
        promote_all(st, values).0.module == st.module,
        promote_all(st, values).0.scope == st.scope,
    decreases values.len(),
{
    if values.len() > 0 {
        lemma_promote_all(st, values.drop_last());
        let (st1, before) = promote_all(st, values.drop_last());
        let v = values.last();
        if v.ty == IrType::I1 {
            lemma_emit(st1, InstrView::ZExt { value: v.value, to: IrType::I32 });
        } else if v.ty == IrType::F32 {
            lemma_emit(st1, InstrView::FpExt { value: v.value });
        }
        lemma_stays_trans(st, st1, promote_all(st, values).0);
    }
}

proof fn lemma_lower_print(st: CodegenView, values: Seq<TypedView>, newline: bool)
    requires
        sound(st),
    ensures
        stays(st, lower_print(st, values, newline)),
{
    let after = lower_print(st, values, newline);
    if st.is_open() {
        match find_function(st.scope, "printf"@) {
            None => {},
            Some(f) => {
                lemma_promote_all(st, values);
                let (st1, args) = promote_all(st, values);
                let text = format_of(
                    types_of(values),
                ) + if newline {
                    "\n"@
                } else {
                    Seq::empty()
                };
                let st2 = st1.add_global("format_str"@, text);
                lemma_same_blocks(st1, st2);
                lemma_stays_trans(st, st1, st2);
                lemma_emit(
                    st2,
                    InstrView::Call {
                        function: f,
                        args: seq![ValueView::Global { index: st1.next_global() }] + args,
                    },
                );
                lemma_stays_trans(st, st2, after);
            },
        }
    }
}

proof fn lemma_lower_call(st: CodegenView, function: usize, values: Seq<TypedView>)
    requires
        sound(st),
    ensures
        stays(st, lower_call(st, function, values).0),
{
    if st.is_open() && function < st.module.functions.len() {
        let f = st.module.functions[function as int];
        if accepts(f, types_of(values)) {
            lemma_coerce_all(st, values, f.params);
            let (st1, args) = coerce_all(st, values, f.params);
            lemma_emit(st1, InstrView::Call { function, args });
            lemma_stays_trans(st, st1, lower_call(st, function, values).0);
        }
    }
}

/// Lowering a statement keeps the record of the blocks sound, and leaves
/// no block open behind it.
pub proof fn lemma_lower_stmt(st: CodegenView, s: StmtView, pending: Set<usize>)
    requires
        sound(st),
        tidy(st, pending),
        st.current < st.blocks.len(),
    ensures
        moves(st, lower_stmt(st, s).0, pending),
    decreases s,
{
    let after = lower_stmt(st, s).0;
    lemma_stays_refl(st);
    if !st.is_open() {
        lemma_stays_moves(st, after, pending);
    } else {
        match s {
            StmtView::String { value, .. } => {
                lemma_same_blocks(st, after);
                lemma_stays_moves(st, after, pending);
            },
            StmtView::Identifier { name, .. } => {
                match find_slot(st.scope, name) {
                    Some(slot) => {
                        lemma_emit(
                            st,
                            InstrView::Load { ty: slot.ty, slot: ValueView::Local { id: slot.id } },
                        );
                    },
                    None => {},
                }
                lemma_stays_moves(st, after, pending);
            },
            StmtView::UnaryExpression { value, operator } => {
                lemma_lower_stmt(st, *value, pending);
                let (st1, v) = lower_stmt(st, *value);
                match v {
                    None => {},
                    Some(v) => {
                        lemma_lower_unary(st1, operator, v);
                        lemma_stays_moves(st1, after, pending);
                        lemma_moves_trans(st, st1, after, pending);
                    },
                }
            },
            StmtView::BinaryExpression { left, right, operator } => {
                lemma_lower_stmt(st, *left, pending);
                let (st1, l) = lower_stmt(st, *left);
                match l {
                    None => {},
                    Some(l) => {
                        lemma_lower_stmt(st1, *right, pending);
                        let (st2, r) = lower_stmt(st1, *right);
                        lemma_moves_trans(st, st1, st2, pending);
                        match r {
                            None => {},
                            Some(r) => {
                                lemma_lower_binary(st2, operator, l, r);
                                lemma_stays_moves(st2, after, pending);
                                lemma_moves_trans(st, st2, after, pending);
                            },
                        }
                    },
                }
            },
            StmtView::FunctionCall { name, args, .. } => {
                if is_print(name) {
                    lemma_lower_values(st, args, pending);
                    let (st1, values) = lower_values(st, args);
                    lemma_lower_print(st1, values, name == "println"@);
                    lemma_stays_moves(st1, after, pending);
                    lemma_moves_trans(st, st1, after, pending);
                } else {
                    match find_function(st.scope, name) {
                        None => {
                            lemma_stays_moves(st, after, pending);
                        },
                        Some(f) => {
                            lemma_lower_values(st, args, pending);
                            let (st1, values) = lower_values(st, args);
                            lemma_lower_call(st1, f, values);
                            lemma_stays_moves(st1, after, pending);
                            lemma_moves_trans(st, st1, after, pending);
                        },
                    }
                }
            },
            StmtView::Declaration { name, data_type, value, .. } => {
                match value {
                    Some(v) => {
                        lemma_lower_stmt(st, *v, pending);
                        let (st1, initial) = lower_stmt(st, *v);
                        lemma_lower_declaration(st1, name, data_type, initial);
                        lemma_stays_moves(st1, after, pending);
                        lemma_moves_trans(st, st1, after, pending);
                    },
                    None => {
                        lemma_lower_declaration(st, name, data_type, None);
                        lemma_stays_moves(st, after, pending);
                    },
                }
            },
            StmtView::Block { body } => {
                lemma_same_blocks(st, st.enter());
                lemma_stays_moves(st, st.enter(), pending);
                lemma_lower_all(st.enter(), body, pending);
                let st1 = lower_all(st.enter(), body);
                lemma_same_blocks(st1, st1.leave());
                lemma_stays_moves(st1, st1.leave(), pending);
                lemma_moves_trans(st, st.enter(), st1, pending);
                lemma_moves_trans(st, st1, after, pending);
            },
            StmtView::IfStatement { condition, block, else_block } => {
                lemma_lower_if(st, s, pending);
            },
            StmtView::ReturnStatement { value } => {
                match value {
                    Some(v) => {
                        lemma_lower_stmt(st, *v, pending);
                        let (st1, r) = lower_stmt(st, *v);
                        match r {
                            Some(t) => {
                                lemma_lower_return(st1, Some(t));
                                lemma_stays_moves(st1, after, pending);
                                lemma_moves_trans(st, st1, after, pending);
                            },
                            None => {},
                        }
                    },
                    None => {
                        lemma_lower_return(st, None);
                        lemma_stays_moves(st, after, pending);
                    },
                }
            },
            _ => {
                lemma_stays_moves(st, after, pending);
            },
        }
    }
}

proof fn lemma_lower_if(st: CodegenView, s: StmtView, pending: Set<usize>)
    requires
        s is IfStatement,
        sound(st),
        tidy(st, pending),
        st.current < st.blocks.len(),
        st.is_open(),
    ensures
        moves(st, lower_stmt(st, s).0, pending),
    decreases s, 0nat,
{
    let after = lower_stmt(st, s).0;
    match s {
        StmtView::IfStatement { condition, block, else_block } => {
            lemma_lower_stmt(st, *condition, pending);
            let (st1, c) = lower_stmt(st, *condition);
            match c {
                None => {},
                Some(c) => {
                    if !st1.is_open() || !is_int(c.ty) {
                    } else {
                        let compare = InstrView::ICmp {
                            predicate: Predicate::Ne,
                            left: c.value,
                            right: ValueView::ConstInt { ty: c.ty, value: 0 },
                        };
                        lemma_emit(st1, compare);
                        let st2 = st1.emit(compare);
                        let then_block = st2.next_block();
                        lemma_add_block(st2, "--if-then"@);
                        let st3 = st2.add_block("--if-then"@);
                        match else_block {
                            None => {
                                let merge = st3.next_block();
                                lemma_add_block(st3, "--if-merge"@);
                                let st3b = st3.add_block("--if-merge"@);
                                let jump = InstrView::CondBr {
                                    condition: st1.local(),
                                    then_block,
                                    else_block: merge,
                                };
                                lemma_emit(st3b, jump);
                                let st4 = st3b.emit(jump);
                                lemma_at(st4, then_block);
                                let inner = pending.insert(merge);
                                let st4a = st4.at(then_block);
                                assert(tidy(st4a, inner)) by {
                                    assert forall|b: usize|
                                        b < st4a.terminated.len() && b != st4a.current
                                            && !inner.contains(b) implies #[trigger] st4a.terminated[b as int] by {
                                        if b < st1.terminated.len() && b != st1.current {
                                            assert(st1.terminated[b as int]);
                                            assert(st2.terminated[b as int]);
                                        }
                                    }
                                }
                                lemma_lower_stmt(st4a, *block, inner);
                                let st5a = lower_stmt(st4a, *block).0;
                                lemma_branch_if_open(st5a, merge);
                                let st5 = st5a.branch_if_open(merge);
                                lemma_at(st5, merge);
                                assert(tidy(after, pending)) by {
                                    assert forall|b: usize|
                                        b < after.terminated.len() && b != after.current
                                            && !pending.contains(b) implies #[trigger] after.terminated[b as int] by {
                                        if b != st5a.current {
                                            assert(st5a.terminated[b as int]);
                                            assert(st5.terminated[b as int]
                                                == st5a.terminated[b as int]);
                                        }
                                    }
                                }
                            },
                            Some(e) => {
                                let otherwise = st3.next_block();
                                lemma_add_block(st3, "--if-else"@);
                                let st4 = st3.add_block("--if-else"@);
                                let merge = st4.next_block();
                                lemma_add_block(st4, "--if-merge"@);
                                let st4b = st4.add_block("--if-merge"@);
                                let jump = InstrView::CondBr {
                                    condition: st1.local(),
                                    then_block,
                                    else_block: otherwise,
                                };
                                lemma_emit(st4b, jump);
                                let st5 = st4b.emit(jump);
                                lemma_at(st5, then_block);
                                let inner = pending.insert(merge).insert(otherwise);
                                let st5a = st5.at(then_block);
                                assert(tidy(st5a, inner)) by {
                                    assert forall|b: usize|
                                        b < st5a.terminated.len() && b != st5a.current
                                            && !inner.contains(b) implies #[trigger] st5a.terminated[b as int] by {
                                        if b < st1.terminated.len() && b != st1.current {
                                            assert(st1.terminated[b as int]);
                                            assert(st2.terminated[b as int]);
                                        }
                                    }
                                }
                                lemma_lower_stmt(st5a, *block, inner);
                                let st6a = lower_stmt(st5a, *block).0;
                                lemma_branch_if_open(st6a, merge);
                                let st6 = st6a.branch_if_open(merge);
                                lemma_at(st6, otherwise);
                                let st6b = st6.at(otherwise);
                                let rest = pending.insert(merge);
                                assert(tidy(st6b, rest)) by {
                                    assert forall|b: usize|
                                        b < st6b.terminated.len() && b != st6b.current
                                            && !rest.contains(b) implies #[trigger] st6b.terminated[b as int] by {
                                        if b != st6a.current {
                                            assert(st6a.terminated[b as int]);
                                            assert(st6.terminated[b as int]
                                                == st6a.terminated[b as int]);
                                        }
                                    }
                                }
                                lemma_lower_stmt(st6b, *e, rest);
                                let st7a = lower_stmt(st6b, *e).0;
                                lemma_branch_if_open(st7a, merge);
                                let st7 = st7a.branch_if_open(merge);
                                lemma_at(st7, merge);
                                assert(tidy(after, pending)) by {
                                    assert forall|b: usize|
                                        b < after.terminated.len() && b != after.current
                                            && !pending.contains(b) implies #[trigger] after.terminated[b as int] by {
                                        if b != st7a.current {
                                            assert(st7a.terminated[b as int]);
                                            assert(st7.terminated[b as int]
                                                == st7a.terminated[b as int]);
                                        }
                                    }
                                }
                            },
                        }
                    }
                },
            }
        },
        _ => {},
    }
}

/// Lowering a list of statements keeps the record of the blocks sound.
pub proof fn lemma_lower_all(st: CodegenView, body: Seq<StmtView>, pending: Set<usize>)
    requires
        sound(st),
        tidy(st, pending),
        st.current < st.blocks.len(),
    ensures
        moves(st, lower_all(st, body), pending),
    decreases body,
{
    if body.len() > 0 {
        lemma_lower_all(st, body.drop_last(), pending);
        let st1 = lower_all(st, body.drop_last());
        lemma_lower_stmt(st1, body.last(), pending);
        lemma_moves_trans(st, st1, lower_all(st, body), pending);
    } else {
        lemma_stays_refl(st);
        lemma_stays_moves(st, st, pending);
    }
}

/// Lowering the arguments of a call keeps the record of the blocks sound.
pub proof fn lemma_lower_values(st: CodegenView, args: Seq<StmtView>, pending: Set<usize>)
    requires
        sound(st),
        tidy(st, pending),
        st.current < st.blocks.len(),
    ensures
        moves(st, lower_values(st, args).0, pending),
    decreases args,
{
    if args.len() > 0 {
        lemma_lower_values(st, args.drop_last(), pending);
        let st1 = lower_values(st, args.drop_last()).0;
        lemma_lower_stmt(st1, args.last(), pending);
        lemma_moves_trans(st, st1, lower_values(st, args).0, pending);
    } else {
        lemma_stays_refl(st);
        lemma_stays_moves(st, st, pending);
    }
}

proof fn lemma_ends_in_empty(b: usize)
    ensures
        ends_in(Seq::<PlacedView>::empty(), b) == 0,
{
}

/// At the start of a function the record of the blocks is sound, and no
/// block but the current one is open.
proof fn lemma_begin(st: CodegenView, result_type: IrType)
    ensures
        sound(st.begin(result_type)),
        tidy(st.begin(result_type), Set::empty()),
        st.begin(result_type).is_open(),
        st.begin(result_type).current < st.begin(result_type).blocks.len(),
        st.begin(result_type).module == st.module,
{
    let after = st.begin(result_type);
    assert forall|b: usize| #[trigger] block_ok(after, b) by {
        lemma_ends_in_empty(b);
    }
}

proof fn lemma_store_params(st: CodegenView, params: Seq<ParamView>, i: int, k: usize)
    requires
        sound(st),
        st.is_open(),
        0 <= i,
    ensures
        stays(st, store_params(st, params, i, k)),
        store_params(st, params, i, k).is_open(),
    decreases params.len() - i,
{
    if i < params.len() {
        let ty = ir_type(params[i].data_type);
        if ty == IrType::Void {
            lemma_store_params(st, params, i + 1, k);
        } else {
            let a = InstrView::Alloca { ty, name: params[i].name };
            lemma_emit(st, a);
            let st1 = st.emit(a);
            let w = InstrView::Store { slot: st.local(), value: ValueView::Param { index: k } };
            lemma_emit(st1, w);
            let st2 = st1.emit(w);
            lemma_stays_trans(st, st1, st2);
            let st3 = st2.bind(
                params[i].name,
                Slot { id: st.next_id(), ty },
            );
            lemma_same_blocks(st2, st3);
            lemma_stays_trans(st, st2, st3);
            lemma_store_params(st3, params, i + 1, after(k));
            lemma_stays_trans(
                st,
                st3,
                store_params(st3, params, i + 1, after(k)),
            );
        }
    } else {
        lemma_stays_refl(st);
    }
}

/// Finishing a function whose blocks have all ended gives the module a
/// function whose blocks are all closed.
proof fn lemma_finish(st: CodegenView, index: usize)
    requires
        sound(st),
        forall|b: usize| b < st.terminated.len() ==> #[trigger] st.terminated[b as int],
        module_ok(st.module),
    ensures
        module_ok(st.finish(index).module),
        st.finish(index).module.functions.len() == st.module.functions.len(),
{
    let after = st.finish(index);
    if index < st.module.functions.len() {
        let f = after.module.functions[index as int];
        assert forall|b: usize| b < f.blocks.len() implies #[trigger] closed(f.body, b) by {
            assert(block_ok(st, b));
            assert(st.terminated[b as int]);
        }
        assert forall|i: int| 0 <= i < after.module.functions.len() implies #[trigger] function_ok(
            after.module.functions[i],
        ) by {
            if i != index {
                assert(function_ok(st.module.functions[i]));
            }
        }
    }
}

proof fn lemma_all_ended(st: CodegenView, after: CodegenView)
    requires
        tidy(st, Set::empty()),
        st.current < st.terminated.len(),
        stays(st, after),
        sound(st),
        after.terminated[st.current as int],
    ensures
        forall|b: usize| b < after.terminated.len() ==> #[trigger] after.terminated[b as int],
{
    assert forall|b: usize| b < after.terminated.len() implies #[trigger] after.terminated[b as int] by {
        if b != st.current {
            assert(st.terminated[b as int]);
            assert(after.terminated[b as int] == st.terminated[b as int]);
        }
    }
}

proof fn lemma_add_function(st: CodegenView, f: IrFunctionView)
    requires
        module_ok(st.module),
        f.blocks.len() == 0,
    ensures
        module_ok(st.add_function(f).module),
{
    let after = st.add_function(f);
    assert forall|i: int| 0 <= i < after.module.functions.len() implies #[trigger] function_ok(
        after.module.functions[i],
    ) by {
        if i < st.module.functions.len() {
            assert(function_ok(st.module.functions[i]));
        }
    }
}

proof fn lemma_lower_main(st: CodegenView, body: Seq<StmtView>)
    requires
        module_ok(st.module),
    ensures
        module_ok(lower_main(st, body).module),
{
    lemma_add_function(st, main_function());
    let st0 = st.add_function(main_function());
    lemma_begin(st0, IrType::I32);
    let st0b = st0.begin(IrType::I32);
    lemma_same_blocks(st0b, st0b.enter());
    let st1 = st0b.enter();
    lemma_stays_moves(st0b, st1, Set::empty());
    lemma_lower_all(st1, body, Set::empty());
    let st2 = lower_all(st1, body);
    let zero = Some(ValueView::ConstInt { ty: IrType::I32, value: 0 });
    lemma_end_with(st2, zero);
    let st3 = st2.end_with(zero);
    lemma_all_ended(st2, st3);
    lemma_same_blocks(st3, st3.leave());
    lemma_finish(st3.leave(), st.next_function());
}

proof fn lemma_lower_body(st: CodegenView, index: usize, s: StmtView)
    requires
        module_ok(st.module),
    ensures
        module_ok(lower_body(st, index, s).module),
{
    match s {
        StmtView::FunctionDeclaration { params, return_type, block, .. } => {
            lemma_begin(st, ir_type(return_type));
            let st0 = st.begin(ir_type(return_type));
            lemma_same_blocks(st0, st0.enter());
            let st0e = st0.enter();
            lemma_store_params(st0e, params, 0, 0);
            let st1 = store_params(st0e, params, 0, 0);
            lemma_stays_trans(st0, st0e, st1);
            lemma_stays_moves(st0, st1, Set::empty());
            lemma_lower_stmt(st1, *block, Set::empty());
            let st2 = lower_stmt(st1, *block).0;
            let result_type = ir_type(return_type);
            let value = if result_type == IrType::Void {
                None
            } else {
                Some(zero_of(result_type))
            };
            lemma_end_with(st2, value);
            let st3 = st2.end_with(value);
            lemma_all_ended(st2, st3);
            lemma_same_blocks(st3, st3.leave());
            let st4 = st3.leave();
            lemma_finish(st4, index);
        },
        _ => {},
    }
}

proof fn lemma_declare_from(st: CodegenView, functions: Seq<StmtView>, i: int)
    requires
        module_ok(st.module),
        0 <= i,
    ensures
        module_ok(declare_from(st, functions, i).module),
    decreases functions.len() - i,
{
    if i < functions.len() {
        if functions[i] is FunctionDeclaration {
            lemma_add_function(st, declared(functions[i]));
            lemma_declare_from(
                st.add_function(declared(functions[i])).bind_function(
                    functions[i]->FunctionDeclaration_name,
                    st.next_function(),
                ),
                functions,
                i + 1,
            );
        } else {
            lemma_declare_from(st, functions, i + 1);
        }
    }
}

proof fn lemma_bodies_from(st: CodegenView, functions: Seq<StmtView>, i: int, next: usize)
    requires
        module_ok(st.module),
        0 <= i,
    ensures
        module_ok(bodies_from(st, functions, i, next).module),
    decreases functions.len() - i,
{
    if i < functions.len() {
        if functions[i] is FunctionDeclaration {
            lemma_lower_body(st, next, functions[i]);
            lemma_bodies_from(
                lower_body(st, next, functions[i]),
                functions,
                i + 1,
                after(next),
            );
        } else {
            lemma_bodies_from(st, functions, i + 1, next);
        }
    }
}

/// The discipline of basic blocks. In the module that lowering a program
/// gives, every block of every function holds exactly one jump or return,
/// as its last instruction, provided that this held of the module before.
pub proof fn lemma_blocks_are_closed(st: CodegenView, p: ProgramView)
    requires
        module_ok(st.module),
    ensures
        module_ok(lower_program(st, p).module),
{
    lemma_declare_from(st, p.functions, 0);
    let st1 = declare_from(st, p.functions, 0);
    lemma_lower_main(st1, p.body);
    lemma_bodies_from(lower_main(st1, p.body), p.functions, 0, st.next_function());
}

/// The module of an emitter that has lowered nothing has no blocks, so all
/// of them are closed.
pub proof fn lemma_fresh_is_closed(name: Seq<char>)
    ensures
        module_ok(fresh(name).module),
{
    let m = fresh(name).module;
    assert forall|i: int| 0 <= i < m.functions.len() implies #[trigger] function_ok(
        m.functions[i],
    ) by {}
}

/// Emitter determinism. The module that lowering gives depends on nothing
/// but the program and the state of the emitter: from equal states, equal
/// programs are lowered to equal modules, names included.
pub proof fn lemma_lowering_is_deterministic(
    a: CodegenView,
    b: CodegenView,
    p: ProgramView,
    q: ProgramView,
)
    requires
        a == b,
        p == q,
    ensures
        lower_program(a, p) == lower_program(b, q),
        lower_program(a, p).module == lower_program(b, q).module,
{
}

} // verus!
