//! The intermediate representation that the emitter produces: a module of
//! functions made of basic blocks of instructions in static single
//! assignment form.
//!
//! A function keeps its instructions in the order in which they were
//! emitted, each with the block that it was emitted into. The value of an
//! instruction is named by the position of the instruction in that order.
use vstd::prelude::*;

verus! {

/// A type of the representation.
#[derive(Debug, Clone, Copy, PartialEq, Eq, Hash, Structural)]
pub enum IrType {
    /// A truth value, one bit wide.
    I1,
    /// The working integer type, 32 bits wide.
    I32,
    /// A 32-bit float.
    F32,
    /// A 64-bit float. Only arguments of `printf` have this type.
    F64,
    /// A pointer.
    Ptr,
    /// No value.
    Void,
}

/// An operation on two values of one type.
#[derive(Debug, Clone, Copy, PartialEq, Eq, Hash, Structural)]
pub enum BinaryOp {
    Add,
    Sub,
    Mul,
    SDiv,
    SRem,
    FAdd,
    FSub,
    FMul,
    FDiv,
    FRem,
    And,
    Or,
}

/// A comparison. On integers it is signed, on floats ordered.
#[derive(Debug, Clone, Copy, PartialEq, Eq, Hash, Structural)]
pub enum Predicate {
    Eq,
    Ne,
    Sgt,
    Sge,
    Slt,
    Sle,
}

/// An operand of an instruction.
#[derive(Debug, PartialEq, Eq, Hash)]
pub enum Value {
    /// An integer constant of the given type.
    ConstInt { ty: IrType, value: u64 },
    /// A 32-bit float constant, as the digits that the source wrote.
    ConstFloat { text: String },
    /// The null pointer.
    Null,
    /// A pointer to the first byte of a global string of the module.
    Global { index: usize },
    /// The value of an instruction of the same function, by its position
    /// in the order of emission.
    Local { id: usize },
    /// An argument of the function, by its position.
    Param { index: usize },
}

/// An instruction.
#[derive(Debug, PartialEq, Eq, Hash)]
#[allow(inconsistent_fields)]
pub enum Instr {
    /// Reserves a slot for a value of the type; the value is a pointer to
    /// the slot. `name` is the name of the variable that the slot is for.
    Alloca { ty: IrType, name: String },
    Store { slot: Value, value: Value },
    Load { ty: IrType, slot: Value },
    Binary { op: BinaryOp, left: Value, right: Value },
    /// An integer comparison; the value is one bit wide.
    ICmp { predicate: Predicate, left: Value, right: Value },
    /// A float comparison; the value is one bit wide.
    FCmp { predicate: Predicate, left: Value, right: Value },
    /// Widens an integer with zeros.
    ZExt { value: Value, to: IrType },
    /// Widens a 32-bit float to 64 bits.
    FpExt { value: Value },
    /// Negates an integer.
    Neg { value: Value },
    /// Negates a float.
    FNeg { value: Value },
    /// Calls a function of the module, by its position in the module.
    Call { function: usize, args: Vec<Value> },
    /// Jumps to a block of the function, by its position in the function.
    Br { target: usize },
    /// Jumps to one of two blocks: to the first where the condition is
    /// one.
    CondBr { condition: Value, then_block: usize, else_block: usize },
    Ret { value: Option<Value> },
}

/// An instruction and the block that it was emitted into.
#[derive(Debug, PartialEq, Eq, Hash)]
pub struct Placed {
    pub block: usize,
    pub instr: Instr,
}

/// A function of a module. One without blocks is only declared.
#[derive(Debug, PartialEq, Eq, Hash)]
pub struct IrFunction {
    pub name: String,
    pub params: Vec<IrType>,
    pub return_type: IrType,
    /// Whether the function takes more arguments than `params` lists.
    pub variadic: bool,
    /// The labels of the blocks, in the order in which they were added.
    pub blocks: Vec<String>,
    /// The instructions, in the order in which they were emitted.
    pub body: Vec<Placed>,
}

/// A string of the module. It can be written to, and a zero byte follows
/// its text.
#[derive(Debug, PartialEq, Eq, Hash)]
pub struct GlobalString {
    pub name: String,
    pub text: String,
}

/// A module: the result of lowering one program.
#[derive(Debug, PartialEq, Eq, Hash)]
pub struct IrModule {
    pub name: String,
    pub globals: Vec<GlobalString>,
    pub functions: Vec<IrFunction>,
}

/// The mathematical value of a [`Value`].
pub ghost enum ValueView {
    ConstInt { ty: IrType, value: u64 },
    ConstFloat { text: Seq<char> },
    Null,
    Global { index: usize },
    Local { id: usize },
    Param { index: usize },
}

/// The mathematical value of an [`Instr`].
#[allow(inconsistent_fields)]
pub ghost enum InstrView {
    Alloca { ty: IrType, name: Seq<char> },
    Store { slot: ValueView, value: ValueView },
    Load { ty: IrType, slot: ValueView },
    Binary { op: BinaryOp, left: ValueView, right: ValueView },
    ICmp { predicate: Predicate, left: ValueView, right: ValueView },
    FCmp { predicate: Predicate, left: ValueView, right: ValueView },
    ZExt { value: ValueView, to: IrType },
    FpExt { value: ValueView },
    Neg { value: ValueView },
    FNeg { value: ValueView },
    Call { function: usize, args: Seq<ValueView> },
    Br { target: usize },
    CondBr { condition: ValueView, then_block: usize, else_block: usize },
    Ret { value: Option<ValueView> },
}

/// The mathematical value of a [`Placed`].
pub ghost struct PlacedView {
    pub block: usize,
    pub instr: InstrView,
}

/// The mathematical value of an [`IrFunction`].
pub ghost struct IrFunctionView {
    pub name: Seq<char>,
    pub params: Seq<IrType>,
    pub return_type: IrType,
    pub variadic: bool,
    pub blocks: Seq<Seq<char>>,
    pub body: Seq<PlacedView>,
}

/// The mathematical value of a [`GlobalString`].
pub ghost struct GlobalView {
    pub name: Seq<char>,
    pub text: Seq<char>,
}

/// The mathematical value of a [`IrModule`].
pub ghost struct IrModuleView {
    pub name: Seq<char>,
    pub globals: Seq<GlobalView>,
    pub functions: Seq<IrFunctionView>,
}

impl View for Value {
    type V = ValueView;

    open spec fn view(&self) -> ValueView {
        match self {
            Value::ConstInt { ty, value } => ValueView::ConstInt { ty: *ty, value: *value },
            Value::ConstFloat { text } => ValueView::ConstFloat { text: text@ },
            Value::Null => ValueView::Null,
            Value::Global { index } => ValueView::Global { index: *index },
            Value::Local { id } => ValueView::Local { id: *id },
            Value::Param { index } => ValueView::Param { index: *index },
        }
    }
}

/// The values of a list of operands, in order.
pub open spec fn values_view(v: Seq<Value>) -> Seq<ValueView> {
    Seq::new(v.len(), |i: int| v[i]@)
}

/// The value of an optional operand.
pub open spec fn opt_value_view(v: Option<Value>) -> Option<ValueView> {
    match v {
        Some(x) => Some(x@),
        None => None,
    }
}

impl View for Instr {
    type V = InstrView;

    open spec fn view(&self) -> InstrView {
        match self {
            Instr::Alloca { ty, name } => InstrView::Alloca { ty: *ty, name: name@ },
            Instr::Store { slot, value } => InstrView::Store { slot: slot@, value: value@ },
            Instr::Load { ty, slot } => InstrView::Load { ty: *ty, slot: slot@ },
            Instr::Binary { op, left, right } => InstrView::Binary {
                op: *op,
                left: left@,
                right: right@,
            },
            Instr::ICmp { predicate, left, right } => InstrView::ICmp {
                predicate: *predicate,
                left: left@,
                right: right@,
            },
            Instr::FCmp { predicate, left, right } => InstrView::FCmp {
                predicate: *predicate,
                left: left@,
                right: right@,
            },
            Instr::ZExt { value, to } => InstrView::ZExt { value: value@, to: *to },
            Instr::FpExt { value } => InstrView::FpExt { value: value@ },
            Instr::Neg { value } => InstrView::Neg { value: value@ },
            Instr::FNeg { value } => InstrView::FNeg { value: value@ },
            Instr::Call { function, args } => InstrView::Call {
                function: *function,
                args: values_view(args@),
            },
            Instr::Br { target } => InstrView::Br { target: *target },
            Instr::CondBr { condition, then_block, else_block } => InstrView::CondBr {
                condition: condition@,
                then_block: *then_block,
                else_block: *else_block,
            },
            Instr::Ret { value } => InstrView::Ret { value: opt_value_view(*value) },
        }
    }
}

impl View for Placed {
    type V = PlacedView;

    open spec fn view(&self) -> PlacedView {
        PlacedView { block: self.block, instr: self.instr@ }
    }
}

/// The values of a list of placed instructions, in order.
pub open spec fn body_view(v: Seq<Placed>) -> Seq<PlacedView> {
    Seq::new(v.len(), |i: int| v[i]@)
}

/// The values of a list of labels, in order.
pub open spec fn labels_view(v: Seq<String>) -> Seq<Seq<char>> {
    Seq::new(v.len(), |i: int| v[i]@)
}

impl View for IrFunction {
    type V = IrFunctionView;

    open spec fn view(&self) -> IrFunctionView {
        IrFunctionView {
            name: self.name@,
            params: self.params@,
            return_type: self.return_type,
            variadic: self.variadic,
            blocks: labels_view(self.blocks@),
            body: body_view(self.body@),
        }
    }
}

impl View for GlobalString {
    type V = GlobalView;

    open spec fn view(&self) -> GlobalView {
        GlobalView { name: self.name@, text: self.text@ }
    }
}

/// The values of a list of global strings, in order.
pub open spec fn globals_view(v: Seq<GlobalString>) -> Seq<GlobalView> {
    Seq::new(v.len(), |i: int| v[i]@)
}

/// The values of a list of functions, in order.
pub open spec fn functions_view(v: Seq<IrFunction>) -> Seq<IrFunctionView> {
    Seq::new(v.len(), |i: int| v[i]@)
}

impl View for IrModule {
    type V = IrModuleView;

    open spec fn view(&self) -> IrModuleView {
        IrModuleView {
            name: self.name@,
            globals: globals_view(self.globals@),
            functions: functions_view(self.functions@),
        }
    }
}

impl Clone for Value {
    fn clone(&self) -> (r: Self)
        ensures
            r == *self,
    {
        match self {
            Value::ConstInt { ty, value } => Value::ConstInt { ty: *ty, value: *value },
            Value::ConstFloat { text } => Value::ConstFloat { text: text.clone() },
            Value::Null => Value::Null,
            Value::Global { index } => Value::Global { index: *index },
            Value::Local { id } => Value::Local { id: *id },
            Value::Param { index } => Value::Param { index: *index },
        }
    }
}

/// Whether an instruction ends its block: a jump or a return.
pub open spec fn is_terminator(i: InstrView) -> bool {
    i is Br || i is CondBr || i is Ret
}

impl Instr {
    /// Whether the instruction ends its block.
    pub fn ends_block(&self) -> (r: bool)
        ensures
            r == is_terminator(self@),
    {
        match self {
            Instr::Br { .. } | Instr::CondBr { .. } | Instr::Ret { .. } => true,
            _ => false,
        }
    }
}

/// Whether values of the type are integers.
pub open spec fn is_int(ty: IrType) -> bool {
    ty == IrType::I1 || ty == IrType::I32
}

impl IrType {
    /// Whether values of the type are integers.
    pub fn integer(self) -> (r: bool)
        ensures
            r == is_int(self),
    {
        match self {
            IrType::I1 | IrType::I32 => true,
            _ => false,
        }
    }
}

} // verus!
