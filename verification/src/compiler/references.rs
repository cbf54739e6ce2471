//! What holds of every module that the emitter makes: what an instruction
//! refers to exists.
//!
//! An operand that names the value of an instruction names one that was
//! emitted earlier into the same function. A global string, a function and
//! a block that an instruction names are found in the module and in the
//! function under the position that it gives.
use vstd::prelude::*;
use crate::ast::{BinaryOperator, ParamView, ProgramView, StmtView, UnaryOperator};
use crate::compiler::ir::{
    is_int,
    InstrView,
    IrFunctionView,
    IrModuleView,
    IrType,
    PlacedView,
    Predicate,
    ValueView,
};
use crate::compiler::lowering::{
    accepts,
    after,
    bodies_from,
    coerce,
    coerce_all,
    declare_from,
    declared,
    float_op,
    format_of,
    fresh,
    int_op,
    ir_type,
    is_logical,
    is_print,
    lower_all,
    lower_binary,
    lower_body,
    lower_call,
    lower_declaration,
    lower_main,
    lower_print,
    lower_program,
    lower_return,
    lower_stmt,
    lower_unary,
    lower_values,
    main_function,
    predicate_of,
    promote_all,
    slot_type,
    store_params,
    types_of,
    unify,
    values_of,
    zero_of,
    CodegenView,
    TypedView,
};
use crate::compiler::scope::{find_function, find_slot, last_entry, EmitFrame, Slot};
use crate::types::DataTypeView;

verus! {

/// Whether an operand refers to what exists, where `values` instructions
/// were emitted before it and the module has `globals` global strings.
pub open spec fn operand_ok(v: ValueView, values: nat, globals: nat) -> bool {
    match v {
        ValueView::Local { id } => id < values,
        ValueView::Global { index } => index < globals,
        _ => true,
    }
}

/// Whether every operand of a list refers to what exists.
pub open spec fn operands_ok(vs: Seq<ValueView>, values: nat, globals: nat) -> bool {
    forall|k: int| 0 <= k < vs.len() ==> operand_ok(#[trigger] vs[k], values, globals)
}

/// Whether an instruction at position `at` of a function with `blocks`
/// blocks, in a module with `globals` global strings and `functions`
/// functions, refers to what exists.
pub open spec fn instr_ok(i: InstrView, at: nat, blocks: nat, globals: nat, functions: nat) -> bool {
    match i {
        InstrView::Alloca { .. } => true,
        InstrView::Store { slot, value } => operand_ok(slot, at, globals) && operand_ok(
            value,
            at,
            globals,
        ),
        InstrView::Load { slot, .. } => operand_ok(slot, at, globals),
        InstrView::Binary { left, right, .. } => operand_ok(left, at, globals) && operand_ok(
            right,
            at,
            globals,
        ),
        InstrView::ICmp { left, right, .. } => operand_ok(left, at, globals) && operand_ok(
            right,
            at,
            globals,
        ),
        InstrView::FCmp { left, right, .. } => operand_ok(left, at, globals) && operand_ok(
            right,
            at,
            globals,
        ),
        InstrView::ZExt { value, .. } => operand_ok(value, at, globals),
        InstrView::FpExt { value } => operand_ok(value, at, globals),
        InstrView::Neg { value } => operand_ok(value, at, globals),
        InstrView::FNeg { value } => operand_ok(value, at, globals),
        InstrView::Call { function, args } => function < functions && operands_ok(
            args,
            at,
            globals,
        ),
        InstrView::Br { target } => target < blocks,
        InstrView::CondBr { condition, then_block, else_block } => operand_ok(
            condition,
            at,
            globals,
        ) && then_block < blocks && else_block < blocks,
        InstrView::Ret { value } => match value {
            Some(v) => operand_ok(v, at, globals),
            None => true,
        },
    }
}

/// Whether the instruction at position `i` of a body stands in a block
/// that exists and refers to what exists.
pub open spec fn placed_ok(
    body: Seq<PlacedView>,
    i: int,
    blocks: nat,
    globals: nat,
    functions: nat,
) -> bool {
    body[i].block < blocks && instr_ok(body[i].instr, i as nat, blocks, globals, functions)
}

/// Whether every instruction of a body refers to what exists.
pub open spec fn body_ok(body: Seq<PlacedView>, blocks: nat, globals: nat, functions: nat) -> bool {
    forall|i: int| 0 <= i < body.len() ==> #[trigger] placed_ok(body, i, blocks, globals, functions)
}

/// Whether every instruction of every function of a module refers to what
/// exists.
pub open spec fn references_ok(m: IrModuleView) -> bool {
    forall|i: int|
        0 <= i < m.functions.len() ==> body_ok(
            (#[trigger] m.functions[i]).body,
            m.functions[i].blocks.len(),
            m.globals.len(),
            m.functions.len(),
        )
}

/// Whether the variable at position `e` of frame `f` has a slot that an
/// instruction of the function in emission reserved.
pub open spec fn slot_ok(st: CodegenView, f: int, e: int) -> bool {
    st.scope[f].variables[e].1.id < st.body.len()
}

/// Whether the function at position `e` of frame `f` is one of the module.
pub open spec fn callee_ok(st: CodegenView, f: int, e: int) -> bool {
    st.scope[f].functions[e].1 < st.module.functions.len()
}

/// Whether the scope chain binds nothing but what exists.
pub open spec fn scope_ok(st: CodegenView) -> bool {
    &&& st.scope.len() >= 1
    &&& forall|f: int, e: int|
        0 <= f < st.scope.len() && 0 <= e < st.scope[f].variables.len() ==> #[trigger] slot_ok(
            st,
            f,
            e,
        )
    &&& forall|f: int, e: int|
        0 <= f < st.scope.len() && 0 <= e < st.scope[f].functions.len() ==> #[trigger] callee_ok(
            st,
            f,
            e,
        )
}

/// Whether the state of the emitter refers to nothing but what exists.
pub open spec fn state_ok(st: CodegenView) -> bool {
    &&& body_ok(
        st.body,
        st.blocks.len(),
        st.module.globals.len(),
        st.module.functions.len(),
    )
    &&& scope_ok(st)
    &&& st.current < st.blocks.len()
}

/// What lowering does to a state that refers to nothing but what exists:
/// it keeps it so, adds to the blocks, the instructions and the global
/// strings and takes none away, and leaves the functions as they are.
pub open spec fn grows(st: CodegenView, after: CodegenView) -> bool {
    &&& state_ok(after)
    &&& after.blocks.len() >= st.blocks.len()
    &&& after.body.len() >= st.body.len()
    &&& after.module.globals.len() >= st.module.globals.len()
    &&& after.module.functions == st.module.functions
    &&& after.module.name == st.module.name
    &&& after.result_type == st.result_type
}

/// Whether a value refers to what exists in a state.
pub open spec fn value_ok(v: ValueView, st: CodegenView) -> bool {
    operand_ok(v, st.body.len(), st.module.globals.len())
}

/// Whether every value of a list refers to what exists in a state.
pub open spec fn values_ok(vs: Seq<TypedView>, st: CodegenView) -> bool {
    forall|k: int| 0 <= k < vs.len() ==> value_ok((#[trigger] vs[k]).value, st)
}

proof fn lemma_instr_ok_more(
    i: InstrView,
    at: nat,
    blocks: nat,
    globals: nat,
    functions: nat,
    blocks2: nat,
    globals2: nat,
    functions2: nat,
)
    requires
        instr_ok(i, at, blocks, globals, functions),
        blocks <= blocks2,
        globals <= globals2,
        functions <= functions2,
    ensures
        instr_ok(i, at, blocks2, globals2, functions2),
{
    match i {
        InstrView::Call { function, args } => {
            assert forall|k: int| 0 <= k < args.len() implies operand_ok(
                #[trigger] args[k],
                at,
                globals2,
            ) by {
                assert(operand_ok(args[k], at, globals));
            }
        },
        _ => {},
    }
}

proof fn lemma_body_ok_more(
    body: Seq<PlacedView>,
    blocks: nat,
    globals: nat,
    functions: nat,
    blocks2: nat,
    globals2: nat,
    functions2: nat,
)
    requires
        body_ok(body, blocks, globals, functions),
        blocks <= blocks2,
        globals <= globals2,
        functions <= functions2,
    ensures
        body_ok(body, blocks2, globals2, functions2),
{
    assert forall|i: int| 0 <= i < body.len() implies #[trigger] placed_ok(
        body,
        i,
        blocks2,
        globals2,
        functions2,
    ) by {
        assert(placed_ok(body, i, blocks, globals, functions));
        lemma_instr_ok_more(
            body[i].instr,
            i as nat,
            blocks,
            globals,
            functions,
            blocks2,
            globals2,
            functions2,
        );
    }
}

proof fn lemma_grows_refl(st: CodegenView)
    requires
        state_ok(st),
    ensures
        grows(st, st),
{
}

proof fn lemma_grows_trans(a: CodegenView, b: CodegenView, c: CodegenView)
    requires
        grows(a, b),
        grows(b, c),
    ensures
        grows(a, c),
{
}

proof fn lemma_value_ok_later(v: ValueView, st: CodegenView, after: CodegenView)
    requires
        value_ok(v, st),
        after.body.len() >= st.body.len(),
        after.module.globals.len() >= st.module.globals.len(),
    ensures
        value_ok(v, after),
{
}

proof fn lemma_values_ok_later(vs: Seq<TypedView>, st: CodegenView, after: CodegenView)
    requires
        values_ok(vs, st),
        after.body.len() >= st.body.len(),
        after.module.globals.len() >= st.module.globals.len(),
    ensures
        values_ok(vs, after),
{
    assert forall|k: int| 0 <= k < vs.len() implies value_ok((#[trigger] vs[k]).value, after) by {
        assert(value_ok(vs[k].value, st));
    }
}

/// Emitting an instruction that refers to what exists keeps the state so.
proof fn lemma_emit(st: CodegenView, instr: InstrView)
    requires
        state_ok(st),
        instr_ok(
            instr,
            st.body.len(),
            st.blocks.len(),
            st.module.globals.len(),
            st.module.functions.len(),
        ),
    ensures
        grows(st, st.emit(instr)),
        value_ok(st.local(), st.emit(instr)),
        st.emit(instr).body.len() == st.body.len() + 1,
        st.emit(instr).module == st.module,
        st.emit(instr).blocks == st.blocks,
        st.emit(instr).scope == st.scope,
        st.emit(instr).current == st.current,
{
    let after = st.emit(instr);
    assert forall|i: int| 0 <= i < after.body.len() implies #[trigger] placed_ok(
        after.body,
        i,
        after.blocks.len(),
        after.module.globals.len(),
        after.module.functions.len(),
    ) by {
        if i < st.body.len() {
            assert(placed_ok(
                st.body,
                i,
                st.blocks.len(),
                st.module.globals.len(),
                st.module.functions.len(),
            ));
        }
    }
    assert forall|f: int, e: int|
        0 <= f < after.scope.len() && 0 <= e < after.scope[f].variables.len() implies #[trigger] slot_ok(
        after,
        f,
        e,
    ) by {
        assert(slot_ok(st, f, e));
    }
    assert forall|f: int, e: int|
        0 <= f < after.scope.len() && 0 <= e < after.scope[f].functions.len() implies #[trigger] callee_ok(
        after,
        f,
        e,
    ) by {
        assert(callee_ok(st, f, e));
    }
}

/// A change of the state that leaves the instructions and the scope as
/// they are, and takes nothing away, keeps the state without dangling
/// references.
proof fn lemma_same_body(st: CodegenView, after: CodegenView)
    requires
        state_ok(st),
        after.body == st.body,
        after.scope == st.scope,
        after.blocks.len() >= st.blocks.len(),
        after.module.globals.len() >= st.module.globals.len(),
        after.module.functions == st.module.functions,
        after.module.name == st.module.name,
        after.result_type == st.result_type,
        after.current < after.blocks.len(),
    ensures
        grows(st, after),
{
    lemma_body_ok_more(
        st.body,
        st.blocks.len(),
        st.module.globals.len(),
        st.module.functions.len(),
        after.blocks.len(),
        after.module.globals.len(),
        after.module.functions.len(),
    );
    assert forall|f: int, e: int|
        0 <= f < after.scope.len() && 0 <= e < after.scope[f].variables.len() implies #[trigger] slot_ok(
        after,
        f,
        e,
    ) by {
        assert(slot_ok(st, f, e));
    }
    assert forall|f: int, e: int|
        0 <= f < after.scope.len() && 0 <= e < after.scope[f].functions.len() implies #[trigger] callee_ok(
        after,
        f,
        e,
    ) by {
        assert(callee_ok(st, f, e));
    }
}

proof fn lemma_enter(st: CodegenView)
    requires
        state_ok(st),
    ensures
        grows(st, st.enter()),
        st.enter().body == st.body,
{
    let after = st.enter();
    lemma_body_ok_more(
        st.body,
        st.blocks.len(),
        st.module.globals.len(),
        st.module.functions.len(),
        after.blocks.len(),
        after.module.globals.len(),
        after.module.functions.len(),
    );
    assert forall|f: int, e: int|
        0 <= f < after.scope.len() && 0 <= e < after.scope[f].variables.len() implies #[trigger] slot_ok(
        after,
        f,
        e,
    ) by {
        if f > 0 {
            assert(after.scope[f] == st.scope[f - 1]);
            assert(slot_ok(st, f - 1, e));
        }
    }
    assert forall|f: int, e: int|
        0 <= f < after.scope.len() && 0 <= e < after.scope[f].functions.len() implies #[trigger] callee_ok(
        after,
        f,
        e,
    ) by {
        if f > 0 {
            assert(after.scope[f] == st.scope[f - 1]);
            assert(callee_ok(st, f - 1, e));
        }
    }
}

proof fn lemma_leave(st: CodegenView)
    requires
        state_ok(st),
    ensures
        grows(st, st.leave()),
        st.leave().body == st.body,
{
    let after = st.leave();
    lemma_body_ok_more(
        st.body,
        st.blocks.len(),
        st.module.globals.len(),
        st.module.functions.len(),
        after.blocks.len(),
        after.module.globals.len(),
        after.module.functions.len(),
    );
    assert forall|f: int, e: int|
        0 <= f < after.scope.len() && 0 <= e < after.scope[f].variables.len() implies #[trigger] slot_ok(
        after,
        f,
        e,
    ) by {
        if st.scope.len() > 1 {
            assert(after.scope[f] == st.scope[f + 1]);
            assert(slot_ok(st, f + 1, e));
        } else {
            assert(slot_ok(st, f, e));
        }
    }
    assert forall|f: int, e: int|
        0 <= f < after.scope.len() && 0 <= e < after.scope[f].functions.len() implies #[trigger] callee_ok(
        after,
        f,
        e,
    ) by {
        if st.scope.len() > 1 {
            assert(after.scope[f] == st.scope[f + 1]);
            assert(callee_ok(st, f + 1, e));
        } else {
            assert(callee_ok(st, f, e));
        }
    }
}

proof fn lemma_bind(st: CodegenView, name: Seq<char>, slot: Slot)
    requires
        state_ok(st),
        slot.id < st.body.len(),
    ensures
        grows(st, st.bind(name, slot)),
        st.bind(name, slot).body == st.body,
{
    let after = st.bind(name, slot);
    lemma_body_ok_more(
        st.body,
        st.blocks.len(),
        st.module.globals.len(),
        st.module.functions.len(),
        after.blocks.len(),
        after.module.globals.len(),
        after.module.functions.len(),
    );
    assert forall|f: int, e: int|
        0 <= f < after.scope.len() && 0 <= e < after.scope[f].variables.len() implies #[trigger] slot_ok(
        after,
        f,
        e,
    ) by {
        if f == 0 && e == st.scope[0].variables.len() {
        } else {
            assert(slot_ok(st, f, e));
        }
    }
    assert forall|f: int, e: int|
        0 <= f < after.scope.len() && 0 <= e < after.scope[f].functions.len() implies #[trigger] callee_ok(
        after,
        f,
        e,
    ) by {
        assert(callee_ok(st, f, e));
    }
}

proof fn lemma_last_entry<T>(entries: Seq<(Seq<char>, T)>, name: Seq<char>)
    ensures
        last_entry(entries, name) matches Some(x) ==> exists|e: int|
            0 <= e < entries.len() && (#[trigger] entries[e]).1 == x,
    decreases entries.len(),
{
    if entries.len() > 0 {
        if entries.last().0 == name {
            assert(entries[entries.len() - 1].1 == entries.last().1);
        } else {
            lemma_last_entry(entries.drop_last(), name);
            match last_entry(entries.drop_last(), name) {
                Some(x) => {
                    let e = choose|e: int|
                        0 <= e < entries.drop_last().len() && (#[trigger] entries.drop_last()[e]).1
                            == x;
                    assert(entries[e].1 == x);
                },
                None => {},
            }
        }
    }
}

proof fn lemma_find_slot(st: CodegenView, frames: Seq<EmitFrame>, from: int, name: Seq<char>)
    requires
        scope_ok(st),
        0 <= from <= st.scope.len(),
        frames == st.scope.skip(from),
    ensures
        find_slot(frames, name) matches Some(slot) ==> slot.id < st.body.len(),
    decreases frames.len(),
{
    if frames.len() > 0 {
        assert(frames[0] == st.scope[from]);
        lemma_last_entry(frames[0].variables, name);
        match last_entry(frames[0].variables, name) {
            Some(s) => {
                let e = choose|e: int|
                    0 <= e < frames[0].variables.len() && (#[trigger] frames[0].variables[e]).1
                        == s;
                assert(slot_ok(st, from, e));
            },
            None => {
                assert(frames.drop_first() =~= st.scope.skip(from + 1));
                lemma_find_slot(st, frames.drop_first(), from + 1, name);
            },
        }
    }
}

proof fn lemma_find_function(st: CodegenView, frames: Seq<EmitFrame>, from: int, name: Seq<char>)
    requires
        scope_ok(st),
        0 <= from <= st.scope.len(),
        frames == st.scope.skip(from),
    ensures
        find_function(frames, name) matches Some(f) ==> f < st.module.functions.len(),
    decreases frames.len(),
{
    if frames.len() > 0 {
        assert(frames[0] == st.scope[from]);
        lemma_last_entry(frames[0].functions, name);
        match last_entry(frames[0].functions, name) {
            Some(s) => {
                let e = choose|e: int|
                    0 <= e < frames[0].functions.len() && (#[trigger] frames[0].functions[e]).1
                        == s;
                assert(callee_ok(st, from, e));
            },
            None => {
                assert(frames.drop_first() =~= st.scope.skip(from + 1));
                lemma_find_function(st, frames.drop_first(), from + 1, name);
            },
        }
    }
}

proof fn lemma_resolves(st: CodegenView, name: Seq<char>)
    requires
        scope_ok(st),
    ensures
        find_slot(st.scope, name) matches Some(slot) ==> slot.id < st.body.len(),
        find_function(st.scope, name) matches Some(f) ==> f < st.module.functions.len(),
{
    assert(st.scope.skip(0) =~= st.scope);
    lemma_find_slot(st, st.scope, 0, name);
    lemma_find_function(st, st.scope, 0, name);
}

proof fn lemma_coerce(st: CodegenView, v: TypedView, to: IrType)
    requires
        state_ok(st),
        value_ok(v.value, st),
    ensures
        grows(st, coerce(st, v, to).0),
        coerce(st, v, to).0.scope == st.scope,
        coerce(st, v, to).1 matches Some(x) ==> value_ok(x, coerce(st, v, to).0),
{
    if v.ty == to {
    } else if v.ty == IrType::I1 && to == IrType::I32 {
        lemma_emit(st, InstrView::ZExt { value: v.value, to: IrType::I32 });
    } else if v.ty == IrType::I32 && to == IrType::I1 {
        lemma_emit(
            st,
            InstrView::ICmp {
                predicate: Predicate::Ne,
                left: v.value,
                right: ValueView::ConstInt { ty: IrType::I32, value: 0 },
            },
        );
    }
}

proof fn lemma_unify(st: CodegenView, l: TypedView, r: TypedView)
    requires
        state_ok(st),
        value_ok(l.value, st),
        value_ok(r.value, st),
    ensures
        grows(st, unify(st, l, r).0),
        unify(st, l, r).0.scope == st.scope,
        value_ok(unify(st, l, r).1, unify(st, l, r).0),
        value_ok(unify(st, l, r).2, unify(st, l, r).0),
{
    if l.ty == r.ty {
    } else if l.ty == IrType::I1 {
        lemma_emit(st, InstrView::ZExt { value: l.value, to: IrType::I32 });
    } else {
        lemma_emit(st, InstrView::ZExt { value: r.value, to: IrType::I32 });
    }
}

proof fn lemma_lower_binary(st: CodegenView, operator: BinaryOperator, l: TypedView, r: TypedView)
    requires
        state_ok(st),
        value_ok(l.value, st),
        value_ok(r.value, st),
    ensures
        grows(st, lower_binary(st, operator, l, r).0),
        lower_binary(st, operator, l, r).0.scope == st.scope,
        lower_binary(st, operator, l, r).1 matches Some(t) ==> value_ok(
            t.value,
            lower_binary(st, operator, l, r).0,
        ),
{
    let after = lower_binary(st, operator, l, r).0;
    if !st.is_open() {
    } else if operator.is_arithmetic() {
        if l.ty == IrType::I32 && r.ty == IrType::I32 {
            lemma_emit(
                st,
                InstrView::Binary { op: int_op(operator), left: l.value, right: r.value },
            );
        } else if l.ty == IrType::F32 && r.ty == IrType::F32 {
            lemma_emit(
                st,
                InstrView::Binary { op: float_op(operator), left: l.value, right: r.value },
            );
        }
    } else if is_int(l.ty) && is_int(r.ty) {
        lemma_unify(st, l, r);
        let (st1, left, right, ty) = unify(st, l, r);
        if is_logical(operator) {
            lemma_emit(st1, InstrView::Binary { op: int_op(operator), left, right });
        } else {
            let i = InstrView::ICmp { predicate: predicate_of(operator), left, right };
            lemma_emit(st1, i);
            let st2 = st1.emit(i);
            lemma_emit(st2, InstrView::ZExt { value: st1.local(), to: IrType::I32 });
        }
    } else if l.ty == IrType::F32 && r.ty == IrType::F32 && !is_logical(operator) {
        let i = InstrView::FCmp {
            predicate: predicate_of(operator),
            left: l.value,
            right: r.value,
        };
        lemma_emit(st, i);
        let st1 = st.emit(i);
        lemma_emit(st1, InstrView::ZExt { value: st.local(), to: IrType::I32 });
    }
}

proof fn lemma_lower_unary(st: CodegenView, operator: UnaryOperator, v: TypedView)
    requires
        state_ok(st),
        value_ok(v.value, st),
    ensures
        grows(st, lower_unary(st, operator, v).0),
        lower_unary(st, operator, v).0.scope == st.scope,
        lower_unary(st, operator, v).1 matches Some(t) ==> value_ok(
            t.value,
            lower_unary(st, operator, v).0,
        ),
{
    if st.is_open() {
        match operator {
            UnaryOperator::Negative => {
                if v.ty == IrType::I32 {
                    lemma_emit(st, InstrView::Neg { value: v.value });
                } else if v.ty == IrType::F32 {
                    lemma_emit(st, InstrView::FNeg { value: v.value });
                }
            },
            UnaryOperator::Not => {
                if is_int(v.ty) {
                    let i = InstrView::ICmp {
                        predicate: Predicate::Eq,
                        left: v.value,
                        right: ValueView::ConstInt { ty: v.ty, value: 0 },
                    };
                    lemma_emit(st, i);
                    let st1 = st.emit(i);
                    lemma_emit(st1, InstrView::ZExt { value: st.local(), to: IrType::I32 });
                }
            },
        }
    }
}

proof fn lemma_lower_declaration(
    st: CodegenView,
    name: Seq<char>,
    data_type: Option<DataTypeView>,
    value: Option<TypedView>,
)
    requires
        state_ok(st),
        value matches Some(v) ==> value_ok(v.value, st),
    ensures
        grows(st, lower_declaration(st, name, data_type, value)),
        lower_declaration(st, name, data_type, value).scope.len() == st.scope.len(),
        lower_declaration(st, name, data_type, value).scope.skip(1) == st.scope.skip(1),
{
    let after = lower_declaration(st, name, data_type, value);
    if st.is_open() {
        let ty = match data_type {
            Some(t) => slot_type(ir_type(t)),
            None => match value {
                Some(v) => slot_type(v.ty),
                None => IrType::I32,
            },
        };
        match value {
            Some(v) => {
                lemma_coerce(st, v, ty);
            },
            None => {},
        }
        let (st1, fitted) = match value {
            Some(v) => coerce(st, v, ty),
            None => (st, None),
        };
        let initial = match fitted {
            Some(x) => x,
            None => zero_of(ty),
        };
        let a = InstrView::Alloca { ty, name };
        lemma_emit(st1, a);
        let st2 = st1.emit(a);
        let w = InstrView::Store { slot: st1.local(), value: initial };
        lemma_emit(st2, w);
        let st3 = st2.emit(w);
        lemma_bind(st3, name, Slot { id: st1.next_id(), ty });
        assert(after.scope.skip(1) =~= st.scope.skip(1));
    }
}

proof fn lemma_promote_all(st: CodegenView, values: Seq<TypedView>)
    requires
        state_ok(st),
        values_ok(values, st),
    ensures
        grows(st, promote_all(st, values).0),
        promote_all(st, values).0.scope == st.scope,
        promote_all(st, values).0.module == st.module,
        operands_ok(
            promote_all(st, values).1,
            promote_all(st, values).0.body.len(),
            st.module.globals.len(),
        ),
    decreases values.len(),
{
    if values.len() > 0 {
        assert(values_ok(values.drop_last(), st)) by {
            assert forall|k: int| 0 <= k < values.drop_last().len() implies value_ok(
                (#[trigger] values.drop_last()[k]).value,
                st,
            ) by {
                assert(value_ok(values[k].value, st));
            }
        }
        lemma_promote_all(st, values.drop_last());
        let (st1, before) = promote_all(st, values.drop_last());
        let v = values.last();
        assert(value_ok(values[values.len() - 1].value, st));
        if v.ty == IrType::I1 {
            lemma_emit(st1, InstrView::ZExt { value: v.value, to: IrType::I32 });
        } else if v.ty == IrType::F32 {
            lemma_emit(st1, InstrView::FpExt { value: v.value });
        }
        let (st2, all) = promote_all(st, values);
        assert forall|k: int| 0 <= k < all.len() implies operand_ok(
            #[trigger] all[k],
            st2.body.len(),
            st.module.globals.len(),
        ) by {
            if k < before.len() {
                assert(operand_ok(before[k], st1.body.len(), st.module.globals.len()));
            }
        }
    }
}

proof fn lemma_coerce_all(st: CodegenView, values: Seq<TypedView>, params: Seq<IrType>)
    requires
        state_ok(st),
        values_ok(values, st),
    ensures
        grows(st, coerce_all(st, values, params).0),
        coerce_all(st, values, params).0.scope == st.scope,
        coerce_all(st, values, params).0.module == st.module,
        operands_ok(
            coerce_all(st, values, params).1,
            coerce_all(st, values, params).0.body.len(),
            st.module.globals.len(),
        ),
    decreases values.len(),
{
    if values.len() > 0 {
        assert(values_ok(values.drop_last(), st)) by {
            assert forall|k: int| 0 <= k < values.drop_last().len() implies value_ok(
                (#[trigger] values.drop_last()[k]).value,
                st,
            ) by {
                assert(value_ok(values[k].value, st));
            }
        }
        lemma_coerce_all(st, values.drop_last(), params);
        let (st1, before) = coerce_all(st, values.drop_last(), params);
        let v = values.last();
        assert(value_ok(values[values.len() - 1].value, st));
        if values.len() <= params.len() {
            lemma_coerce(st1, v, params[values.len() - 1]);
        }
        let (st2, all) = coerce_all(st, values, params);
        assert forall|k: int| 0 <= k < all.len() implies operand_ok(
            #[trigger] all[k],
            st2.body.len(),
            st.module.globals.len(),
        ) by {
            if k < before.len() {
                assert(operand_ok(before[k], st1.body.len(), st.module.globals.len()));
            }
        }
    }
}

proof fn lemma_lower_print(st: CodegenView, values: Seq<TypedView>, newline: bool)
    requires
        state_ok(st),
        values_ok(values, st),
    ensures
        grows(st, lower_print(st, values, newline)),
        lower_print(st, values, newline).scope == st.scope,
{
    if st.is_open() {
        lemma_resolves(st, "printf"@);
        match find_function(st.scope, "printf"@) {
            None => {},
            Some(f) => {
                lemma_promote_all(st, values);
                let (st1, args) = promote_all(st, values);
                let text = format_of(types_of(values)) + if newline {
                    "\n"@
                } else {
                    Seq::empty()
                };
                let st2 = st1.add_global("format_str"@, text);
                lemma_same_body(st1, st2);
                let all = seq![ValueView::Global { index: st1.next_global() }] + args;
                assert forall|k: int| 0 <= k < all.len() implies operand_ok(
                    #[trigger] all[k],
                    st2.body.len(),
                    st2.module.globals.len(),
                ) by {
                    if k > 0 {
                        assert(all[k] == args[k - 1]);
                        assert(operand_ok(args[k - 1], st1.body.len(), st.module.globals.len()));
                    }
                }
                lemma_emit(st2, InstrView::Call { function: f, args: all });
            },
        }
    }
}

proof fn lemma_lower_call(st: CodegenView, function: usize, values: Seq<TypedView>)
    requires
        state_ok(st),
        values_ok(values, st),
    ensures
        grows(st, lower_call(st, function, values).0),
        lower_call(st, function, values).0.scope == st.scope,
        lower_call(st, function, values).1 matches Some(t) ==> value_ok(
            t.value,
            lower_call(st, function, values).0,
        ),
{
    if st.is_open() && function < st.module.functions.len() {
        let f = st.module.functions[function as int];
        if accepts(f, types_of(values)) {
            lemma_coerce_all(st, values, f.params);
            let (st1, args) = coerce_all(st, values, f.params);
            lemma_emit(st1, InstrView::Call { function, args });
        }
    }
}

proof fn lemma_lower_return(st: CodegenView, value: Option<TypedView>)
    requires
        state_ok(st),
        value matches Some(v) ==> value_ok(v.value, st),
    ensures
        grows(st, lower_return(st, value)),
        lower_return(st, value).scope == st.scope,
{
    if !st.is_open() {
    } else if st.result_type == IrType::Void {
        lemma_emit(st, InstrView::Ret { value: None });
    } else {
        match value {
            Some(t) => {
                lemma_coerce(st, t, st.result_type);
                let (st1, fitted) = coerce(st, t, st.result_type);
                lemma_emit(
                    st1,
                    InstrView::Ret {
                        value: Some(
                            match fitted {
                                Some(x) => x,
                                None => zero_of(st.result_type),
                            },
                        ),
                    },
                );
            },
            None => {
                lemma_emit(st, InstrView::Ret { value: Some(zero_of(st.result_type)) });
            },
        }
    }
}

proof fn lemma_branch(st: CodegenView, target: usize)
    requires
        state_ok(st),
        target < st.blocks.len(),
    ensures
        grows(st, st.branch_if_open(target)),
        st.branch_if_open(target).scope == st.scope,
        st.branch_if_open(target).blocks == st.blocks,
{
    if st.is_open() {
        lemma_emit(st, InstrView::Br { target });
    }
}

/// Lowering a statement keeps the state without dangling references, and
/// the value of the statement refers to what exists.
pub proof fn lemma_lower_stmt(st: CodegenView, s: StmtView)
    requires
        state_ok(st),
    ensures
        grows(st, lower_stmt(st, s).0),
        lower_stmt(st, s).0.scope.len() == st.scope.len(),
        lower_stmt(st, s).0.scope.skip(1) == st.scope.skip(1),
        s is Block ==> lower_stmt(st, s).0.scope == st.scope,
        lower_stmt(st, s).1 matches Some(t) ==> value_ok(t.value, lower_stmt(st, s).0),
    decreases s, 1nat,
{
    let after = lower_stmt(st, s).0;
    if st.is_open() {
        match s {
            StmtView::String { value, .. } => {
                lemma_same_body(st, after);
            },
            StmtView::Identifier { name, .. } => {
                lemma_resolves(st, name);
                match find_slot(st.scope, name) {
                    Some(slot) => {
                        lemma_emit(
                            st,
                            InstrView::Load { ty: slot.ty, slot: ValueView::Local { id: slot.id } },
                        );
                    },
                    None => {},
                }
            },
            StmtView::UnaryExpression { value, operator } => {
                lemma_lower_stmt(st, *value);
                let (st1, v) = lower_stmt(st, *value);
                match v {
                    None => {},
                    Some(v) => {
                        lemma_lower_unary(st1, operator, v);
                        lemma_grows_trans(st, st1, after);
                    },
                }
            },
            StmtView::BinaryExpression { left, right, operator } => {
                lemma_lower_stmt(st, *left);
                let (st1, l) = lower_stmt(st, *left);
                match l {
                    None => {},
                    Some(l) => {
                        lemma_lower_stmt(st1, *right);
                        let (st2, r) = lower_stmt(st1, *right);
                        lemma_grows_trans(st, st1, st2);
                        match r {
                            None => {},
                            Some(r) => {
                                lemma_value_ok_later(l.value, st1, st2);
                                lemma_lower_binary(st2, operator, l, r);
                                lemma_grows_trans(st, st2, after);
                            },
                        }
                    },
                }
            },
            StmtView::FunctionCall { name, args, .. } => {
                if is_print(name) {
                    lemma_lower_values(st, args);
                    let (st1, values) = lower_values(st, args);
                    lemma_lower_print(st1, values, name == "println"@);
                    lemma_grows_trans(st, st1, after);
                } else {
                    lemma_resolves(st, name);
                    match find_function(st.scope, name) {
                        None => {},
                        Some(f) => {
                            lemma_lower_values(st, args);
                            let (st1, values) = lower_values(st, args);
                            lemma_lower_call(st1, f, values);
                            lemma_grows_trans(st, st1, after);
                        },
                    }
                }
            },
            StmtView::Declaration { name, data_type, value, .. } => {
                match value {
                    Some(v) => {
                        lemma_lower_stmt(st, *v);
                        let (st1, initial) = lower_stmt(st, *v);
                        lemma_lower_declaration(st1, name, data_type, initial);
                        lemma_grows_trans(st, st1, after);
                    },
                    None => {
                        lemma_lower_declaration(st, name, data_type, None);
                    },
                }
            },
            StmtView::Block { body } => {
                lemma_enter(st);
                lemma_lower_all(st.enter(), body);
                let st1 = lower_all(st.enter(), body);
                lemma_leave(st1);
                lemma_grows_trans(st, st.enter(), st1);
                lemma_grows_trans(st, st1, after);
                assert(st.enter().scope.skip(1) =~= st.scope);
                assert(st1.scope.drop_first() =~= st1.scope.skip(1));
            },
            StmtView::IfStatement { .. } => {
                lemma_lower_if(st, s);
            },
            StmtView::ReturnStatement { value } => {
                match value {
                    Some(v) => {
                        lemma_lower_stmt(st, *v);
                        let (st1, r) = lower_stmt(st, *v);
                        match r {
                            Some(t) => {
                                lemma_lower_return(st1, Some(t));
                                lemma_grows_trans(st, st1, after);
                            },
                            None => {},
                        }
                    },
                    None => {
                        lemma_lower_return(st, None);
                    },
                }
            },
            _ => {},
        }
    }
}

proof fn lemma_lower_if(st: CodegenView, s: StmtView)
    requires
        s is IfStatement,
        state_ok(st),
        st.is_open(),
    ensures
        grows(st, lower_stmt(st, s).0),
        lower_stmt(st, s).0.scope.len() == st.scope.len(),
        lower_stmt(st, s).0.scope.skip(1) == st.scope.skip(1),
        lower_stmt(st, s).1 is None,
    decreases s, 0nat,
{
    let after = lower_stmt(st, s).0;
    match s {
        StmtView::IfStatement { condition, block, else_block } => {
            lemma_lower_stmt(st, *condition);
            let (st1, c) = lower_stmt(st, *condition);
            match c {
                None => {},
                Some(c) => {
                    if !st1.is_open() || !is_int(c.ty) {
                    } else {
                        let compare = InstrView::ICmp {
                            predicate: Predicate::Ne,
                            left: c.value,
                            right: ValueView::ConstInt { ty: c.ty, value: 0 },
                        };
                        lemma_emit(st1, compare);
                        let st2 = st1.emit(compare);
                        let then_block = st2.next_block();
                        let st3 = st2.add_block("--if-then"@);
                        lemma_same_body(st2, st3);
                        match else_block {
                            None => {
                                let merge = st3.next_block();
                                let st3b = st3.add_block("--if-merge"@);
                                lemma_same_body(st3, st3b);
                                let jump = InstrView::CondBr {
                                    condition: st1.local(),
                                    then_block,
                                    else_block: merge,
                                };
                                lemma_emit(st3b, jump);
                                let st4 = st3b.emit(jump);
                                lemma_same_body(st4, st4.at(then_block));
                                lemma_lower_stmt(st4.at(then_block), *block);
                                let st5a = lower_stmt(st4.at(then_block), *block).0;
                                lemma_branch(st5a, merge);
                                let st5 = st5a.branch_if_open(merge);
                                lemma_same_body(st5, st5.at(merge));
                                lemma_grows_trans(st, st1, st2);
                                lemma_grows_trans(st, st2, st3);
                                lemma_grows_trans(st, st3, st3b);
                                lemma_grows_trans(st, st3b, st4);
                                lemma_grows_trans(st, st4, st4.at(then_block));
                                lemma_grows_trans(st, st4.at(then_block), st5a);
                                lemma_grows_trans(st, st5a, st5);
                                lemma_grows_trans(st, st5, after);
                            },
                            Some(e) => {
                                let otherwise = st3.next_block();
                                let st4 = st3.add_block("--if-else"@);
                                lemma_same_body(st3, st4);
                                let merge = st4.next_block();
                                let st4b = st4.add_block("--if-merge"@);
                                lemma_same_body(st4, st4b);
                                let jump = InstrView::CondBr {
                                    condition: st1.local(),
                                    then_block,
                                    else_block: otherwise,
                                };
                                lemma_emit(st4b, jump);
                                let st5 = st4b.emit(jump);
                                lemma_same_body(st5, st5.at(then_block));
                                lemma_lower_stmt(st5.at(then_block), *block);
                                let st6a = lower_stmt(st5.at(then_block), *block).0;
                                lemma_branch(st6a, merge);
                                let st6 = st6a.branch_if_open(merge);
                                lemma_same_body(st6, st6.at(otherwise));
                                lemma_lower_stmt(st6.at(otherwise), *e);
                                let st7a = lower_stmt(st6.at(otherwise), *e).0;
                                lemma_branch(st7a, merge);
                                let st7 = st7a.branch_if_open(merge);
                                lemma_same_body(st7, st7.at(merge));
                                lemma_grows_trans(st, st1, st2);
                                lemma_grows_trans(st, st2, st3);
                                lemma_grows_trans(st, st3, st4);
                                lemma_grows_trans(st, st4, st4b);
                                lemma_grows_trans(st, st4b, st5);
                                lemma_grows_trans(st, st5, st5.at(then_block));
                                lemma_grows_trans(st, st5.at(then_block), st6a);
                                lemma_grows_trans(st, st6a, st6);
                                lemma_grows_trans(st, st6, st6.at(otherwise));
                                lemma_grows_trans(st, st6.at(otherwise), st7a);
                                lemma_grows_trans(st, st7a, st7);
                                lemma_grows_trans(st, st7, after);
                            },
                        }
                    }
                },
            }
        },
        _ => {},
    }
}

/// Lowering a list of statements keeps the state without dangling
/// references.
pub proof fn lemma_lower_all(st: CodegenView, body: Seq<StmtView>)
    requires
        state_ok(st),
    ensures
        grows(st, lower_all(st, body)),
        lower_all(st, body).scope.len() == st.scope.len(),
        lower_all(st, body).scope.skip(1) == st.scope.skip(1),
    decreases body, 1nat,
{
    if body.len() > 0 {
        lemma_lower_all(st, body.drop_last());
        let st1 = lower_all(st, body.drop_last());
        lemma_lower_stmt(st1, body.last());
        lemma_grows_trans(st, st1, lower_all(st, body));
    }
}

/// Lowering the arguments of a call keeps the state without dangling
/// references, and their values refer to what exists.
pub proof fn lemma_lower_values(st: CodegenView, args: Seq<StmtView>)
    requires
        state_ok(st),
    ensures
        grows(st, lower_values(st, args).0),
        lower_values(st, args).0.scope.len() == st.scope.len(),
        lower_values(st, args).0.scope.skip(1) == st.scope.skip(1),
        values_ok(lower_values(st, args).1, lower_values(st, args).0),
    decreases args, 1nat,
{
    if args.len() > 0 {
        lemma_lower_values(st, args.drop_last());
        let (st1, values) = lower_values(st, args.drop_last());
        lemma_lower_stmt(st1, args.last());
        let (st2, v) = lower_stmt(st1, args.last());
        lemma_grows_trans(st, st1, st2);
        lemma_values_ok_later(values, st1, st2);
        let all = lower_values(st, args).1;
        assert forall|k: int| 0 <= k < all.len() implies value_ok((#[trigger] all[k]).value, st2) by {
            if k < values.len() {
                assert(value_ok(values[k].value, st2));
            }
        }
    } else {
    }
}

proof fn lemma_store_params(st: CodegenView, params: Seq<ParamView>, i: int, k: usize)
    requires
        state_ok(st),
        0 <= i,
    ensures
        grows(st, store_params(st, params, i, k)),
        store_params(st, params, i, k).scope.len() == st.scope.len(),
        store_params(st, params, i, k).scope.skip(1) == st.scope.skip(1),
    decreases params.len() - i,
{
    if i < params.len() {
        let ty = ir_type(params[i].data_type);
        if ty == IrType::Void {
            lemma_store_params(st, params, i + 1, k);
        } else {
            let a = InstrView::Alloca { ty, name: params[i].name };
            lemma_emit(st, a);
            let st1 = st.emit(a);
            let w = InstrView::Store { slot: st.local(), value: ValueView::Param { index: k } };
            lemma_emit(st1, w);
            let st2 = st1.emit(w);
            lemma_bind(st2, params[i].name, Slot { id: st.next_id(), ty });
            let st3 = st2.bind(params[i].name, Slot { id: st.next_id(), ty });
            assert(st3.scope.skip(1) =~= st.scope.skip(1));
            lemma_store_params(st3, params, i + 1, after(k));
            lemma_grows_trans(st, st3, store_params(st3, params, i + 1, after(k)));
        }
    }
}

/// Whether the emitter is between two functions with nothing dangling:
/// the instructions of the module refer to what exists, and the scope
/// binds no variable and no function but those of the module.
pub open spec fn ready(st: CodegenView) -> bool {
    &&& references_ok(st.module)
    &&& st.scope.len() >= 1
    &&& forall|f: int| 0 <= f < st.scope.len() ==> (#[trigger] st.scope[f]).variables.len() == 0
    &&& forall|f: int, e: int|
        0 <= f < st.scope.len() && 0 <= e < st.scope[f].functions.len() ==> #[trigger] callee_ok(
            st,
            f,
            e,
        )
}

proof fn lemma_module_more(m: IrModuleView, n: IrModuleView)
    requires
        references_ok(m),
        n.functions == m.functions,
        n.globals.len() >= m.globals.len(),
    ensures
        references_ok(n),
{
    assert forall|i: int| 0 <= i < n.functions.len() implies body_ok(
        (#[trigger] n.functions[i]).body,
        n.functions[i].blocks.len(),
        n.globals.len(),
        n.functions.len(),
    ) by {
        lemma_body_ok_more(
            m.functions[i].body,
            m.functions[i].blocks.len(),
            m.globals.len(),
            m.functions.len(),
            m.functions[i].blocks.len(),
            n.globals.len(),
            n.functions.len(),
        );
    }
}

proof fn lemma_add_function(st: CodegenView, f: IrFunctionView)
    requires
        ready(st),
        f.body.len() == 0,
    ensures
        ready(st.add_function(f)),
        st.add_function(f).scope == st.scope,
{
    let next = st.add_function(f);
    assert forall|i: int| 0 <= i < next.module.functions.len() implies body_ok(
        (#[trigger] next.module.functions[i]).body,
        next.module.functions[i].blocks.len(),
        next.module.globals.len(),
        next.module.functions.len(),
    ) by {
        if i < st.module.functions.len() {
            assert(next.module.functions[i] == st.module.functions[i]);
            lemma_body_ok_more(
                st.module.functions[i].body,
                st.module.functions[i].blocks.len(),
                st.module.globals.len(),
                st.module.functions.len(),
                st.module.functions[i].blocks.len(),
                next.module.globals.len(),
                next.module.functions.len(),
            );
        }
    }
    assert forall|g: int, e: int|
        0 <= g < next.scope.len() && 0 <= e < next.scope[g].functions.len() implies #[trigger] callee_ok(
        next,
        g,
        e,
    ) by {
        assert(callee_ok(st, g, e));
    }
}

proof fn lemma_bind_function(st: CodegenView, name: Seq<char>, function: usize)
    requires
        ready(st),
        function < st.module.functions.len(),
    ensures
        ready(st.bind_function(name, function)),
{
    let next = st.bind_function(name, function);
    assert forall|f: int| 0 <= f < next.scope.len() implies (#[trigger] next.scope[f]).variables.len()
        == 0 by {
        assert(st.scope[f].variables.len() == 0);
    }
    assert forall|g: int, e: int|
        0 <= g < next.scope.len() && 0 <= e < next.scope[g].functions.len() implies #[trigger] callee_ok(
        next,
        g,
        e,
    ) by {
        if g == 0 && e == st.scope[0].functions.len() {
        } else {
            assert(callee_ok(st, g, e));
        }
    }
}

/// At the start of a function nothing dangles.
proof fn lemma_begin(st: CodegenView, result_type: IrType)
    requires
        ready(st),
    ensures
        state_ok(st.begin(result_type).enter()),
        st.begin(result_type).enter().module == st.module,
        st.begin(result_type).enter().scope.skip(1) == st.scope,
{
    let next = st.begin(result_type).enter();
    assert(next.scope.skip(1) =~= st.scope);
    assert forall|f: int, e: int|
        0 <= f < next.scope.len() && 0 <= e < next.scope[f].variables.len() implies #[trigger] slot_ok(
        next,
        f,
        e,
    ) by {
        if f > 0 {
            assert(next.scope[f] == st.scope[f - 1]);
            assert(st.scope[f - 1].variables.len() == 0);
        }
    }
    assert forall|f: int, e: int|
        0 <= f < next.scope.len() && 0 <= e < next.scope[f].functions.len() implies #[trigger] callee_ok(
        next,
        f,
        e,
    ) by {
        if f > 0 {
            assert(next.scope[f] == st.scope[f - 1]);
            assert(callee_ok(st, f - 1, e));
        }
    }
}

/// Finishing a function in a state without dangling references leaves the
/// emitter ready for the next one.
proof fn lemma_finish(before: CodegenView, st: CodegenView, index: usize)
    requires
        ready(before),
        state_ok(st),
        st.module.functions == before.module.functions,
        st.module.globals.len() >= before.module.globals.len(),
        st.scope.len() >= 2,
        st.scope.skip(1) == before.scope,
    ensures
        ready(st.leave().finish(index)),
{
    let last = st.leave().finish(index);
    lemma_module_more(before.module, st.module);
    assert(last.scope =~= before.scope) by {
        assert(st.scope.drop_first() =~= st.scope.skip(1));
    }
    assert forall|i: int| 0 <= i < last.module.functions.len() implies body_ok(
        (#[trigger] last.module.functions[i]).body,
        last.module.functions[i].blocks.len(),
        last.module.globals.len(),
        last.module.functions.len(),
    ) by {
        if i != index {
            assert(last.module.functions[i] == st.module.functions[i]);
        }
    }
    assert forall|g: int, e: int|
        0 <= g < last.scope.len() && 0 <= e < last.scope[g].functions.len() implies #[trigger] callee_ok(
        last,
        g,
        e,
    ) by {
        assert(callee_ok(before, g, e));
    }
    assert forall|f: int| 0 <= f < last.scope.len() implies (#[trigger] last.scope[f]).variables.len()
        == 0 by {
        assert(before.scope[f].variables.len() == 0);
    }
}

proof fn lemma_end_with(st: CodegenView, value: Option<ValueView>)
    requires
        state_ok(st),
        value matches Some(v) ==> value_ok(v, st),
    ensures
        grows(st, st.end_with(value)),
        st.end_with(value).scope == st.scope,
{
    if st.is_open() {
        lemma_emit(st, InstrView::Ret { value });
    }
}

proof fn lemma_lower_main(st: CodegenView, body: Seq<StmtView>)
    requires
        ready(st),
    ensures
        ready(lower_main(st, body)),
{
    lemma_add_function(st, main_function());
    let st0 = st.add_function(main_function());
    lemma_begin(st0, IrType::I32);
    let st1 = st0.begin(IrType::I32).enter();
    lemma_lower_all(st1, body);
    let st2 = lower_all(st1, body);
    let zero = Some(ValueView::ConstInt { ty: IrType::I32, value: 0 });
    lemma_end_with(st2, zero);
    let st3 = st2.end_with(zero);
    lemma_finish(st0, st3, st.next_function());
}

proof fn lemma_lower_body(st: CodegenView, index: usize, s: StmtView)
    requires
        ready(st),
    ensures
        ready(lower_body(st, index, s)),
{
    match s {
        StmtView::FunctionDeclaration { params, return_type, block, .. } => {
            lemma_begin(st, ir_type(return_type));
            let st0 = st.begin(ir_type(return_type)).enter();
            lemma_store_params(st0, params, 0, 0);
            let st1 = store_params(st0, params, 0, 0);
            lemma_lower_stmt(st1, *block);
            let st2 = lower_stmt(st1, *block).0;
            lemma_grows_trans(st0, st1, st2);
            let result_type = ir_type(return_type);
            let value = if result_type == IrType::Void {
                None
            } else {
                Some(zero_of(result_type))
            };
            lemma_end_with(st2, value);
            let st3 = st2.end_with(value);
            lemma_finish(st, st3, index);
        },
        _ => {},
    }
}

proof fn lemma_declare_from(st: CodegenView, functions: Seq<StmtView>, i: int)
    requires
        ready(st),
        0 <= i,
    ensures
        ready(declare_from(st, functions, i)),
    decreases functions.len() - i,
{
    if i < functions.len() {
        if functions[i] is FunctionDeclaration {
            lemma_add_function(st, declared(functions[i]));
            let st1 = st.add_function(declared(functions[i]));
            lemma_bind_function(st1, functions[i]->FunctionDeclaration_name, st.next_function());
            lemma_declare_from(
                st1.bind_function(functions[i]->FunctionDeclaration_name, st.next_function()),
                functions,
                i + 1,
            );
        } else {
            lemma_declare_from(st, functions, i + 1);
        }
    }
}

proof fn lemma_bodies_from(st: CodegenView, functions: Seq<StmtView>, i: int, next: usize)
    requires
        ready(st),
        0 <= i,
    ensures
        ready(bodies_from(st, functions, i, next)),
    decreases functions.len() - i,
{
    if i < functions.len() {
        if functions[i] is FunctionDeclaration {
            lemma_lower_body(st, next, functions[i]);
            lemma_bodies_from(lower_body(st, next, functions[i]), functions, i + 1, after(next));
        } else {
            lemma_bodies_from(st, functions, i + 1, next);
        }
    }
}

/// What an instruction refers to exists. In the module that lowering a
/// program gives, every operand that names the value of an instruction
/// names an instruction that stands earlier in the same function, and
/// every global string, function and block that an instruction names is
/// one of the module or of the function, provided that this held before
/// and the scope bound no variable.
pub proof fn lemma_references_exist(st: CodegenView, p: ProgramView)
    requires
        ready(st),
    ensures
        ready(lower_program(st, p)),
        references_ok(lower_program(st, p).module),
{
    lemma_declare_from(st, p.functions, 0);
    let st1 = declare_from(st, p.functions, 0);
    lemma_lower_main(st1, p.body);
    lemma_bodies_from(lower_main(st1, p.body), p.functions, 0, st.next_function());
}

/// An emitter that has lowered nothing is ready.
pub proof fn lemma_fresh_is_ready(name: Seq<char>)
    ensures
        ready(fresh(name)),
{
    let st = fresh(name);
    assert forall|i: int| 0 <= i < st.module.functions.len() implies body_ok(
        (#[trigger] st.module.functions[i]).body,
        st.module.functions[i].blocks.len(),
        st.module.globals.len(),
        st.module.functions.len(),
    ) by {}
}

} // verus!
