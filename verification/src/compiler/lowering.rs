//! What the emitter produces, as functions from the state of the emitter
//! and a piece of the syntax tree to the state after the piece is lowered.
//!
//! The emitting functions of this crate are proved to compute exactly these
//! functions, so that lowering a program twice gives the same module twice.
use vstd::prelude::*;
use crate::ast::{BinaryOperator, ParamView, ProgramView, StmtView, UnaryOperator};
use crate::compiler::ir::{
    is_int,
    is_terminator,
    BinaryOp,
    GlobalView,
    InstrView,
    IrFunctionView,
    IrType,
    IrModuleView,
    PlacedView,
    Predicate,
    ValueView,
};
use crate::compiler::scope::{
    bind_function,
    bind_slot,
    empty_frame,
    find_function,
    find_slot,
    EmitFrame,
    Slot,
};
use crate::types::DataTypeView;

verus! {

/// The state of the emitter: the module so far, the scope chain, and the
/// function that is being emitted with the block that instructions go to.
pub ghost struct CodegenView {
    pub module: IrModuleView,
    pub scope: Seq<EmitFrame>,
    /// The labels of the blocks of the function that is being emitted.
    pub blocks: Seq<Seq<char>>,
    /// The instructions of that function, in the order of emission.
    pub body: Seq<PlacedView>,
    /// For each of its blocks, whether a jump or a return has ended it.
    pub terminated: Seq<bool>,
    /// The block that instructions are emitted into.
    pub current: usize,
    /// The type that the function in emission returns.
    pub result_type: IrType,
}

/// A value with its type.
pub ghost struct TypedView {
    pub value: ValueView,
    pub ty: IrType,
}

impl CodegenView {
    /// Whether instructions can be emitted: there is a current block and
    /// nothing has ended it.
    pub open spec fn is_open(self) -> bool {
        self.current < self.terminated.len() && !self.terminated[self.current as int]
    }

    /// The position that the next instruction gets.
    pub open spec fn next_id(self) -> usize {
        self.body.len() as usize
    }

    /// The value of the instruction that is emitted next.
    pub open spec fn local(self) -> ValueView {
        ValueView::Local { id: self.next_id() }
    }

    /// The state after an instruction is emitted into the current block.
    pub open spec fn emit(self, instr: InstrView) -> CodegenView {
        CodegenView {
            body: self.body.push(PlacedView { block: self.current, instr }),
            terminated: if is_terminator(instr) && self.current < self.terminated.len() {
                self.terminated.update(self.current as int, true)
            } else {
                self.terminated
            },
            ..self
        }
    }

    /// The position that the next block gets.
    pub open spec fn next_block(self) -> usize {
        self.blocks.len() as usize
    }

    /// The state after a block is added to the function.
    pub open spec fn add_block(self, label: Seq<char>) -> CodegenView {
        CodegenView {
            blocks: self.blocks.push(label),
            terminated: self.terminated.push(false),
            ..self
        }
    }

    /// The state with another current block.
    pub open spec fn at(self, block: usize) -> CodegenView {
        CodegenView { current: block, ..self }
    }

    /// The position that the next global string gets.
    pub open spec fn next_global(self) -> usize {
        self.module.globals.len() as usize
    }

    /// The state after a global string is added to the module.
    pub open spec fn add_global(self, name: Seq<char>, text: Seq<char>) -> CodegenView {
        CodegenView {
            module: IrModuleView {
                globals: self.module.globals.push(GlobalView { name, text }),
                ..self.module
            },
            ..self
        }
    }

    /// The position that the next function gets.
    pub open spec fn next_function(self) -> usize {
        self.module.functions.len() as usize
    }

    /// The state after a function is added to the module.
    pub open spec fn add_function(self, f: IrFunctionView) -> CodegenView {
        CodegenView {
            module: IrModuleView { functions: self.module.functions.push(f), ..self.module },
            ..self
        }
    }

    /// The state with a new, empty innermost scope frame.
    pub open spec fn enter(self) -> CodegenView {
        CodegenView { scope: seq![empty_frame()] + self.scope, ..self }
    }

    /// The state without its innermost scope frame; the root frame stays.
    pub open spec fn leave(self) -> CodegenView {
        CodegenView {
            scope: if self.scope.len() > 1 {
                self.scope.drop_first()
            } else {
                self.scope
            },
            ..self
        }
    }

    /// The state after a variable is bound to a slot.
    pub open spec fn bind(self, name: Seq<char>, slot: Slot) -> CodegenView {
        CodegenView { scope: bind_slot(self.scope, name, slot), ..self }
    }

    /// The state after a name is bound to a function of the module.
    pub open spec fn bind_function(self, name: Seq<char>, function: usize) -> CodegenView {
        CodegenView { scope: bind_function(self.scope, name, function), ..self }
    }

    /// The state at the start of a function that returns the given type:
    /// one block, `entry`, which is the current one.
    pub open spec fn begin(self, result_type: IrType) -> CodegenView {
        CodegenView {
            blocks: seq!["entry"@],
            body: Seq::empty(),
            terminated: seq![false],
            current: 0,
            result_type,
            ..self
        }
    }

    /// The state after the blocks and instructions that were emitted are
    /// given to the function of the module at `index`. No function is in
    /// emission afterwards.
    pub open spec fn finish(self, index: usize) -> CodegenView {
        CodegenView {
            module: if index < self.module.functions.len() {
                IrModuleView {
                    functions: self.module.functions.update(
                        index as int,
                        IrFunctionView {
                            blocks: self.blocks,
                            body: self.body,
                            ..self.module.functions[index as int]
                        },
                    ),
                    ..self.module
                }
            } else {
                self.module
            },
            blocks: Seq::empty(),
            body: Seq::empty(),
            terminated: Seq::empty(),
            current: 0,
            result_type: IrType::Void,
            ..self
        }
    }

    /// The state after a return is emitted, unless the current block has
    /// ended already.
    pub open spec fn end_with(self, value: Option<ValueView>) -> CodegenView {
        if self.is_open() {
            self.emit(InstrView::Ret { value })
        } else {
            self
        }
    }

    /// The state after a jump to `target` is emitted, unless the current
    /// block has ended already.
    pub open spec fn branch_if_open(self, target: usize) -> CodegenView {
        if self.is_open() {
            self.emit(InstrView::Br { target })
        } else {
            self
        }
    }
}

/// The type of the representation that a type of the language is lowered
/// to. Custom types are handled as the working integer type.
pub open spec fn ir_type(t: DataTypeView) -> IrType {
    match t {
        DataTypeView::Int32 => IrType::I32,
        DataTypeView::Float32 => IrType::F32,
        DataTypeView::String => IrType::Ptr,
        DataTypeView::Boolean => IrType::I1,
        DataTypeView::Void => IrType::Void,
        DataTypeView::Custom(_) => IrType::I32,
    }
}

/// The type of the slot for a value of the type: the type itself, and the
/// working integer type where there is no value.
pub open spec fn slot_type(t: IrType) -> IrType {
    if t == IrType::Void {
        IrType::I32
    } else {
        t
    }
}

/// The zero of a type.
pub open spec fn zero_of(t: IrType) -> ValueView {
    match t {
        IrType::I1 => ValueView::ConstInt { ty: IrType::I1, value: 0 },
        IrType::F32 | IrType::F64 => ValueView::ConstFloat { text: "0.0"@ },
        IrType::Ptr => ValueView::Null,
        _ => ValueView::ConstInt { ty: IrType::I32, value: 0 },
    }
}

/// The integer operation for an arithmetic or logical operator.
pub open spec fn int_op(operator: BinaryOperator) -> BinaryOp {
    match operator {
        BinaryOperator::Add => BinaryOp::Add,
        BinaryOperator::Subtract => BinaryOp::Sub,
        BinaryOperator::Multiply => BinaryOp::Mul,
        BinaryOperator::Divide => BinaryOp::SDiv,
        BinaryOperator::Modulus => BinaryOp::SRem,
        BinaryOperator::And => BinaryOp::And,
        _ => BinaryOp::Or,
    }
}

/// The float operation for an arithmetic operator.
pub open spec fn float_op(operator: BinaryOperator) -> BinaryOp {
    match operator {
        BinaryOperator::Add => BinaryOp::FAdd,
        BinaryOperator::Subtract => BinaryOp::FSub,
        BinaryOperator::Multiply => BinaryOp::FMul,
        BinaryOperator::Divide => BinaryOp::FDiv,
        _ => BinaryOp::FRem,
    }
}

/// The comparison for a comparison operator.
pub open spec fn predicate_of(operator: BinaryOperator) -> Predicate {
    match operator {
        BinaryOperator::Equal => Predicate::Eq,
        BinaryOperator::NotEqual => Predicate::Ne,
        BinaryOperator::GreaterThan => Predicate::Sgt,
        BinaryOperator::GreaterThanEqual => Predicate::Sge,
        BinaryOperator::LessThan => Predicate::Slt,
        _ => Predicate::Sle,
    }
}

/// Whether the operator is `and` or `or`.
pub open spec fn is_logical(operator: BinaryOperator) -> bool {
    operator == BinaryOperator::And || operator == BinaryOperator::Or
}

/// Two integers brought to one type: where one of them is one bit wide and
/// the other is not, the narrow one is widened with zeros. The result is
/// the state, the two values and their type.
pub open spec fn unify(st: CodegenView, l: TypedView, r: TypedView) -> (
    CodegenView,
    ValueView,
    ValueView,
    IrType,
) {
    if l.ty == r.ty {
        (st, l.value, r.value, l.ty)
    } else if l.ty == IrType::I1 {
        (
            st.emit(InstrView::ZExt { value: l.value, to: IrType::I32 }),
            st.local(),
            r.value,
            IrType::I32,
        )
    } else {
        (
            st.emit(InstrView::ZExt { value: r.value, to: IrType::I32 }),
            l.value,
            st.local(),
            IrType::I32,
        )
    }
}

/// A binary operator applied to two values.
///
/// Arithmetic takes two working integers or two floats. A comparison takes
/// two integers or two floats and gives a working integer, one or zero.
/// `and` and `or` take two integers and work bit by bit. Nothing is
/// emitted for operands of other types, and there is no value then.
pub open spec fn lower_binary(
    st: CodegenView,
    operator: BinaryOperator,
    l: TypedView,
    r: TypedView,
) -> (CodegenView, Option<TypedView>) {
    if !st.is_open() {
        (st, None)
    } else if operator.is_arithmetic() {
        if l.ty == IrType::I32 && r.ty == IrType::I32 {
            (
                st.emit(InstrView::Binary { op: int_op(operator), left: l.value, right: r.value }),
                Some(TypedView { value: st.local(), ty: IrType::I32 }),
            )
        } else if l.ty == IrType::F32 && r.ty == IrType::F32 {
            (
                st.emit(
                    InstrView::Binary { op: float_op(operator), left: l.value, right: r.value },
                ),
                Some(TypedView { value: st.local(), ty: IrType::F32 }),
            )
        } else {
            (st, None)
        }
    } else if is_int(l.ty) && is_int(r.ty) {
        let (st1, left, right, ty) = unify(st, l, r);
        if is_logical(operator) {
            (
                st1.emit(InstrView::Binary { op: int_op(operator), left, right }),
                Some(TypedView { value: st1.local(), ty }),
            )
        } else {
            let st2 = st1.emit(InstrView::ICmp { predicate: predicate_of(operator), left, right });
            (
                st2.emit(InstrView::ZExt { value: st1.local(), to: IrType::I32 }),
                Some(TypedView { value: st2.local(), ty: IrType::I32 }),
            )
        }
    } else if l.ty == IrType::F32 && r.ty == IrType::F32 && !is_logical(operator) {
        let st1 = st.emit(
            InstrView::FCmp { predicate: predicate_of(operator), left: l.value, right: r.value },
        );
        (
            st1.emit(InstrView::ZExt { value: st.local(), to: IrType::I32 }),
            Some(TypedView { value: st1.local(), ty: IrType::I32 }),
        )
    } else {
        (st, None)
    }
}

/// A unary operator applied to a value. The negative of a working integer
/// or of a float has the type of the operand. `not` of an integer is a
/// working integer: one where the operand is zero, else zero.
pub open spec fn lower_unary(st: CodegenView, operator: UnaryOperator, v: TypedView) -> (
    CodegenView,
    Option<TypedView>,
) {
    if !st.is_open() {
        (st, None)
    } else {
        match operator {
            UnaryOperator::Negative => if v.ty == IrType::I32 {
                (
                    st.emit(InstrView::Neg { value: v.value }),
                    Some(TypedView { value: st.local(), ty: IrType::I32 }),
                )
            } else if v.ty == IrType::F32 {
                (
                    st.emit(InstrView::FNeg { value: v.value }),
                    Some(TypedView { value: st.local(), ty: IrType::F32 }),
                )
            } else {
                (st, None)
            },
            UnaryOperator::Not => if is_int(v.ty) {
                let st1 = st.emit(
                    InstrView::ICmp {
                        predicate: Predicate::Eq,
                        left: v.value,
                        right: ValueView::ConstInt { ty: v.ty, value: 0 },
                    },
                );
                (
                    st1.emit(InstrView::ZExt { value: st.local(), to: IrType::I32 }),
                    Some(TypedView { value: st1.local(), ty: IrType::I32 }),
                )
            } else {
                (st, None)
            },
        }
    }
}

/// A value as a place of the type `to` takes it. A value of that type is
/// taken as it is. Of the two integer types each is made into the other: a
/// truth value is widened with zeros, and a working integer becomes the
/// truth value of its being other than zero. No other value fits.
pub open spec fn coerce(st: CodegenView, v: TypedView, to: IrType) -> (
    CodegenView,
    Option<ValueView>,
) {
    if v.ty == to {
        (st, Some(v.value))
    } else if v.ty == IrType::I1 && to == IrType::I32 {
        (st.emit(InstrView::ZExt { value: v.value, to: IrType::I32 }), Some(st.local()))
    } else if v.ty == IrType::I32 && to == IrType::I1 {
        (
            st.emit(
                InstrView::ICmp {
                    predicate: Predicate::Ne,
                    left: v.value,
                    right: ValueView::ConstInt { ty: IrType::I32, value: 0 },
                },
            ),
            Some(st.local()),
        )
    } else {
        (st, None)
    }
}

/// A declaration, once its initial value is lowered: the value is made to
/// fit a slot of the declared type, or of its own type where none is
/// declared, the slot is reserved, the value is stored in it, and the name
/// is bound to the slot. Zero is stored where there is no value or it does
/// not fit the slot.
pub open spec fn lower_declaration(
    st: CodegenView,
    name: Seq<char>,
    data_type: Option<DataTypeView>,
    value: Option<TypedView>,
) -> CodegenView {
    if !st.is_open() {
        st
    } else {
        let ty = match data_type {
            Some(t) => slot_type(ir_type(t)),
            None => match value {
                Some(v) => slot_type(v.ty),
                None => IrType::I32,
            },
        };
        let (st1, fitted) = match value {
            Some(v) => coerce(st, v, ty),
            None => (st, None),
        };
        let initial = match fitted {
            Some(x) => x,
            None => zero_of(ty),
        };
        st1.emit(InstrView::Alloca { ty, name }).emit(
            InstrView::Store { slot: st1.local(), value: initial },
        ).bind(name, Slot { id: st1.next_id(), ty })
    }
}

/// The directive with which `printf` writes a value of the type.
pub open spec fn format_piece(ty: IrType) -> Seq<char> {
    match ty {
        IrType::I1 | IrType::I32 => "%d"@,
        IrType::F32 | IrType::F64 => "%f"@,
        IrType::Ptr => "%s"@,
        IrType::Void => ""@,
    }
}

/// The directives for values of the given types, separated by single
/// spaces.
pub open spec fn format_of(types: Seq<IrType>) -> Seq<char>
    decreases types.len(),
{
    if types.len() == 0 {
        Seq::empty()
    } else if types.len() == 1 {
        format_piece(types[0])
    } else {
        format_of(types.drop_last()) + " "@ + format_piece(types.last())
    }
}

/// The types of a list of values.
pub open spec fn types_of(values: Seq<TypedView>) -> Seq<IrType> {
    Seq::new(values.len(), |i: int| values[i].ty)
}

/// The values of a list of typed values.
pub open spec fn values_of(values: Seq<TypedView>) -> Seq<ValueView> {
    Seq::new(values.len(), |i: int| values[i].value)
}

/// A value as `printf` takes it: an integer of one bit is widened to the
/// working integer type, a float of 32 bits to 64 bits.
pub open spec fn promote(st: CodegenView, v: TypedView) -> (CodegenView, ValueView) {
    if v.ty == IrType::I1 {
        (st.emit(InstrView::ZExt { value: v.value, to: IrType::I32 }), st.local())
    } else if v.ty == IrType::F32 {
        (st.emit(InstrView::FpExt { value: v.value }), st.local())
    } else {
        (st, v.value)
    }
}

/// The values of a list as `printf` takes them, widened in order.
pub open spec fn promote_all(st: CodegenView, values: Seq<TypedView>) -> (
    CodegenView,
    Seq<ValueView>,
)
    decreases values.len(),
{
    if values.len() == 0 {
        (st, Seq::empty())
    } else {
        let (st1, before) = promote_all(st, values.drop_last());
        let (st2, last) = promote(st1, values.last());
        (st2, before.push(last))
    }
}

/// A call of `print` or `println`, once its arguments are lowered: one
/// call of `printf` with a format made for the types of the arguments,
/// which ends with a line feed for `println`.
pub open spec fn lower_print(st: CodegenView, values: Seq<TypedView>, newline: bool) -> CodegenView {
    if !st.is_open() {
        st
    } else {
        match find_function(st.scope, "printf"@) {
            None => st,
            Some(f) => {
                let (st1, args) = promote_all(st, values);
                let text = format_of(types_of(values)) + if newline {
                    "\n"@
                } else {
                    Seq::empty()
                };
                st1.add_global("format_str"@, text).emit(
                    InstrView::Call {
                        function: f,
                        args: seq![ValueView::Global { index: st1.next_global() }] + args,
                    },
                )
            },
        }
    }
}

/// Whether a value of type `from` can be made to fit a place of type `to`:
/// the types are the same, or both are integer types.
pub open spec fn fits(from: IrType, to: IrType) -> bool {
    from == to || (is_int(from) && is_int(to))
}

/// Whether the argument at position `i` fits its parameter.
pub open spec fn argument_fits(f: IrFunctionView, types: Seq<IrType>, i: int) -> bool {
    fits(types[i], f.params[i])
}

/// Whether a function takes arguments of the given types: there is one
/// for each parameter, and more only for a function that takes any number,
/// and each fits its parameter.
pub open spec fn accepts(f: IrFunctionView, types: Seq<IrType>) -> bool {
    &&& if f.variadic {
        types.len() >= f.params.len()
    } else {
        types.len() == f.params.len()
    }
    &&& forall|i: int| 0 <= i < f.params.len() ==> #[trigger] argument_fits(f, types, i)
}

/// The arguments of a call as the parameters take them, each made to fit
/// its parameter, in order. Arguments beyond the parameters are taken as
/// they are.
pub open spec fn coerce_all(st: CodegenView, values: Seq<TypedView>, params: Seq<IrType>) -> (
    CodegenView,
    Seq<ValueView>,
)
    decreases values.len(),
{
    if values.len() == 0 {
        (st, Seq::empty())
    } else {
        let (st1, before) = coerce_all(st, values.drop_last(), params);
        let v = values.last();
        if values.len() <= params.len() {
            let (st2, fitted) = coerce(st1, v, params[values.len() - 1]);
            (
                st2,
                before.push(
                    match fitted {
                        Some(x) => x,
                        None => v.value,
                    },
                ),
            )
        } else {
            (st1, before.push(v.value))
        }
    }
}

/// A return, with the value that is returned if there is one. A function
/// that returns nothing returns nothing, whatever value is given. Any
/// other returns the value, made to fit the type that the function
/// returns, and zero where no value is given or it does not fit.
pub open spec fn lower_return(st: CodegenView, value: Option<TypedView>) -> CodegenView {
    if !st.is_open() {
        st
    } else if st.result_type == IrType::Void {
        st.emit(InstrView::Ret { value: None })
    } else {
        match value {
            Some(t) => {
                let (st1, fitted) = coerce(st, t, st.result_type);
                st1.emit(
                    InstrView::Ret {
                        value: Some(
                            match fitted {
                                Some(x) => x,
                                None => zero_of(st.result_type),
                            },
                        ),
                    },
                )
            },
            None => st.emit(InstrView::Ret { value: Some(zero_of(st.result_type)) }),
        }
    }
}

/// A call of a function of the module, once its arguments are lowered.
/// Nothing is emitted where the function does not take arguments of these
/// types. The call has a value where the function returns one.
pub open spec fn lower_call(st: CodegenView, function: usize, values: Seq<TypedView>) -> (
    CodegenView,
    Option<TypedView>,
) {
    if !st.is_open() || function >= st.module.functions.len() {
        (st, None)
    } else {
        let f = st.module.functions[function as int];
        if !accepts(f, types_of(values)) {
            (st, None)
        } else {
            let (st1, args) = coerce_all(st, values, f.params);
            (
                st1.emit(InstrView::Call { function, args }),
                if f.return_type == IrType::Void {
                    None
                } else {
                    Some(TypedView { value: st1.local(), ty: f.return_type })
                },
            )
        }
    }
}

/// Whether a call of this name is a call of a built-in function.
pub open spec fn is_print(name: Seq<char>) -> bool {
    name == "println"@ || name == "print"@
}

/// The state after a statement or expression is lowered, and its value.
///
/// Nothing is emitted into a block that a jump or a return has ended:
/// what stands after a `return` in its block is skipped.
pub open spec fn lower_stmt(st: CodegenView, s: StmtView) -> (CodegenView, Option<TypedView>)
    decreases s,
{
    if !st.is_open() {
        (st, None)
    } else {
        match s {
            StmtView::Integer { value, .. } => (
                st,
                Some(
                    TypedView { value: ValueView::ConstInt { ty: IrType::I32, value }, ty: IrType::I32 },
                ),
            ),
            StmtView::Float { value, .. } => (
                st,
                Some(TypedView { value: ValueView::ConstFloat { text: value }, ty: IrType::F32 }),
            ),
            StmtView::Boolean { value, .. } => (
                st,
                Some(
                    TypedView {
                        value: ValueView::ConstInt {
                            ty: IrType::I1,
                            value: if value {
                                1
                            } else {
                                0
                            },
                        },
                        ty: IrType::I1,
                    },
                ),
            ),
            StmtView::String { value, .. } => (
                st.add_global("const_str"@, value),
                Some(
                    TypedView {
                        value: ValueView::Global { index: st.next_global() },
                        ty: IrType::Ptr,
                    },
                ),
            ),
            StmtView::Identifier { name, .. } => match find_slot(st.scope, name) {
                Some(slot) => (
                    st.emit(
                        InstrView::Load { ty: slot.ty, slot: ValueView::Local { id: slot.id } },
                    ),
                    Some(TypedView { value: st.local(), ty: slot.ty }),
                ),
                None => (st, None),
            },
            StmtView::UnaryExpression { value, operator } => {
                let (st1, v) = lower_stmt(st, *value);
                match v {
                    None => (st1, None),
                    Some(v) => lower_unary(st1, operator, v),
                }
            },
            StmtView::BinaryExpression { left, right, operator } => {
                let (st1, l) = lower_stmt(st, *left);
                match l {
                    None => (st1, None),
                    Some(l) => {
                        let (st2, r) = lower_stmt(st1, *right);
                        match r {
                            None => (st2, None),
                            Some(r) => lower_binary(st2, operator, l, r),
                        }
                    },
                }
            },
            StmtView::FunctionCall { name, args, .. } => if is_print(name) {
                let (st1, values) = lower_values(st, args);
                (lower_print(st1, values, name == "println"@), None)
            } else {
                match find_function(st.scope, name) {
                    None => (st, None),
                    Some(f) => {
                        let (st1, values) = lower_values(st, args);
                        lower_call(st1, f, values)
                    },
                }
            },
            StmtView::Declaration { name, data_type, value, .. } => match value {
                Some(v) => {
                    let (st1, initial) = lower_stmt(st, *v);
                    (lower_declaration(st1, name, data_type, initial), None)
                },
                None => (lower_declaration(st, name, data_type, None), None),
            },
            StmtView::Block { body } => (lower_all(st.enter(), body).leave(), None),
            StmtView::IfStatement { condition, block, else_block } => {
                let (st1, c) = lower_stmt(st, *condition);
                match c {
                    None => (st1, None),
                    Some(c) => if !st1.is_open() || !is_int(c.ty) {
                        (st1, None)
                    } else {
                        let st2 = st1.emit(
                            InstrView::ICmp {
                                predicate: Predicate::Ne,
                                left: c.value,
                                right: ValueView::ConstInt { ty: c.ty, value: 0 },
                            },
                        );
                        let then_block = st2.next_block();
                        let st3 = st2.add_block("--if-then"@);
                        match else_block {
                            None => {
                                let merge = st3.next_block();
                                let st4 = st3.add_block("--if-merge"@).emit(
                                    InstrView::CondBr {
                                        condition: st1.local(),
                                        then_block,
                                        else_block: merge,
                                    },
                                );
                                let st5 = lower_stmt(st4.at(then_block), *block).0.branch_if_open(
                                    merge,
                                );
                                (st5.at(merge), None)
                            },
                            Some(e) => {
                                let otherwise = st3.next_block();
                                let st4 = st3.add_block("--if-else"@);
                                let merge = st4.next_block();
                                let st5 = st4.add_block("--if-merge"@).emit(
                                    InstrView::CondBr {
                                        condition: st1.local(),
                                        then_block,
                                        else_block: otherwise,
                                    },
                                );
                                let st6 = lower_stmt(st5.at(then_block), *block).0.branch_if_open(
                                    merge,
                                );
                                let st7 = lower_stmt(st6.at(otherwise), *e).0.branch_if_open(
                                    merge,
                                );
                                (st7.at(merge), None)
                            },
                        }
                    },
                }
            },
            StmtView::ReturnStatement { value } => match value {
                Some(v) => {
                    let (st1, r) = lower_stmt(st, *v);
                    match r {
                        Some(t) => (lower_return(st1, Some(t)), None),
                        None => (st1, None),
                    }
                },
                None => (lower_return(st, None), None),
            },
            _ => (st, None),
        }
    }
}

/// The state after the statements of a list are lowered in order.
pub open spec fn lower_all(st: CodegenView, body: Seq<StmtView>) -> CodegenView
    decreases body,
{
    if body.len() == 0 {
        st
    } else {
        lower_stmt(lower_all(st, body.drop_last()), body.last()).0
    }
}

/// The state after the arguments of a call are lowered from left to
/// right, and the values of those that have one.
pub open spec fn lower_values(st: CodegenView, args: Seq<StmtView>) -> (
    CodegenView,
    Seq<TypedView>,
)
    decreases args,
{
    if args.len() == 0 {
        (st, Seq::empty())
    } else {
        let (st1, values) = lower_values(st, args.drop_last());
        let (st2, v) = lower_stmt(st1, args.last());
        (
            st2,
            match v {
                Some(t) => values.push(t),
                None => values,
            },
        )
    }
}

/// The types of the parameters of a function as the module declares them:
/// those of the declaration in order, without the ones of type `Void`.
pub open spec fn param_types(params: Seq<ParamView>) -> Seq<IrType>
    decreases params.len(),
{
    if params.len() == 0 {
        Seq::empty()
    } else if ir_type(params.last().data_type) == IrType::Void {
        param_types(params.drop_last())
    } else {
        param_types(params.drop_last()).push(ir_type(params.last().data_type))
    }
}

/// The function that a declaration declares, without blocks.
pub open spec fn declared(s: StmtView) -> IrFunctionView {
    IrFunctionView {
        name: s->FunctionDeclaration_name,
        params: param_types(s->FunctionDeclaration_params),
        return_type: ir_type(s->FunctionDeclaration_return_type),
        variadic: false,
        blocks: Seq::empty(),
        body: Seq::empty(),
    }
}

/// The state after the function declarations of a list from position `i`
/// are declared in the module and bound in the scope, in order. What is no
/// function declaration is passed over.
pub open spec fn declare_from(st: CodegenView, functions: Seq<StmtView>, i: int) -> CodegenView
    decreases functions.len() - i,
{
    if i < 0 || i >= functions.len() {
        st
    } else if functions[i] is FunctionDeclaration {
        declare_from(
            st.add_function(declared(functions[i])).bind_function(
                functions[i]->FunctionDeclaration_name,
                st.next_function(),
            ),
            functions,
            i + 1,
        )
    } else {
        declare_from(st, functions, i + 1)
    }
}

/// The function `main`, which takes nothing and returns a working integer.
pub open spec fn main_function() -> IrFunctionView {
    IrFunctionView {
        name: "main"@,
        params: Seq::empty(),
        return_type: IrType::I32,
        variadic: false,
        blocks: Seq::empty(),
        body: Seq::empty(),
    }
}

/// The state after `main` is emitted: the top-level statements in order,
/// in a scope frame of their own, and a return of zero unless the last
/// block has ended. The variables of the top level are the variables of
/// `main`: no other function sees them.
pub open spec fn lower_main(st: CodegenView, body: Seq<StmtView>) -> CodegenView {
    lower_all(st.add_function(main_function()).begin(IrType::I32).enter(), body).end_with(
        Some(ValueView::ConstInt { ty: IrType::I32, value: 0 }),
    ).leave().finish(st.next_function())
}

/// The position after `k`, as long as there is one.
pub open spec fn after(k: usize) -> usize {
    if k < usize::MAX {
        (k + 1) as usize
    } else {
        k
    }
}

/// The state after a slot is reserved for each parameter from position
/// `i` that has a value, the argument is stored in it and the name of the
/// parameter is bound to it. `k` is the position of the next argument.
pub open spec fn store_params(st: CodegenView, params: Seq<ParamView>, i: int, k: usize) -> CodegenView
    decreases params.len() - i,
{
    if i < 0 || i >= params.len() {
        st
    } else {
        let ty = ir_type(params[i].data_type);
        if ty == IrType::Void {
            store_params(st, params, i + 1, k)
        } else {
            store_params(
                st.emit(InstrView::Alloca { ty, name: params[i].name }).emit(
                    InstrView::Store { slot: st.local(), value: ValueView::Param { index: k } },
                ).bind(params[i].name, Slot { id: st.next_id(), ty }),
                params,
                i + 1,
                after(k),
            )
        }
    }
}

/// The state after the body of a function declaration is emitted into the
/// function of the module at `index`: the parameters are stored in slots
/// of a new scope frame, the block is lowered, and unless the last block
/// has ended a return follows, of zero where the function returns a
/// value.
pub open spec fn lower_body(st: CodegenView, index: usize, s: StmtView) -> CodegenView {
    match s {
        StmtView::FunctionDeclaration { params, return_type, block, .. } => {
            let st1 = store_params(st.begin(ir_type(return_type)).enter(), params, 0, 0);
            let st2 = lower_stmt(st1, *block).0;
            let result_type = ir_type(return_type);
            st2.end_with(
                if result_type == IrType::Void {
                    None
                } else {
                    Some(zero_of(result_type))
                },
            ).leave().finish(index)
        },
        _ => st,
    }
}

/// The state after the bodies of the function declarations of a list from
/// position `i` are emitted, in order. `next` is the position in the
/// module of the function of the next declaration.
pub open spec fn bodies_from(
    st: CodegenView,
    functions: Seq<StmtView>,
    i: int,
    next: usize,
) -> CodegenView
    decreases functions.len() - i,
{
    if i < 0 || i >= functions.len() {
        st
    } else if functions[i] is FunctionDeclaration {
        bodies_from(lower_body(st, next, functions[i]), functions, i + 1, after(next))
    } else {
        bodies_from(st, functions, i + 1, next)
    }
}

/// The state after a program is lowered. All functions are declared
/// first, so that a call may stand before the declaration and functions
/// may call each other. Then `main` is emitted from the top-level
/// statements, then the body of each function.
pub open spec fn lower_program(st: CodegenView, p: ProgramView) -> CodegenView {
    bodies_from(
        lower_main(declare_from(st, p.functions, 0), p.body),
        p.functions,
        0,
        st.next_function(),
    )
}

/// The function `printf` of the C library: it takes a pointer to a format
/// and any number of values, and returns a working integer.
pub open spec fn printf_function() -> IrFunctionView {
    IrFunctionView {
        name: "printf"@,
        params: seq![IrType::Ptr],
        return_type: IrType::I32,
        variadic: true,
        blocks: Seq::empty(),
        body: Seq::empty(),
    }
}

/// The state of an emitter that has lowered nothing: a module of the given
/// name that declares `printf`, and a root scope frame that binds it.
pub open spec fn fresh(name: Seq<char>) -> CodegenView {
    CodegenView {
        module: IrModuleView { name, globals: Seq::empty(), functions: seq![printf_function()] },
        scope: seq![
            EmitFrame { variables: Seq::empty(), functions: seq![("printf"@, 0usize)] },
        ],
        blocks: Seq::empty(),
        body: Seq::empty(),
        terminated: Seq::empty(),
        current: 0,
        result_type: IrType::Void,
    }
}

} // verus!
