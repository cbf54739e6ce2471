//! The emitter: a program to a module of the intermediate representation.
//!
//! The emitter keeps one function in emission at a time. Instructions go
//! to the current block of that function until a jump or a return ends the
//! block; what is lowered after that, in the same block, emits nothing.
use vstd::prelude::*;
use vstd::string::StringExecFns;
use crate::ast::{BinaryOperator, UnaryOperator};
use crate::compiler::ir::{body_view, is_int, labels_view, opt_value_view, values_view, BinaryOp, GlobalString, Instr, IrFunction, IrModule, IrType, Placed, Predicate, Value, ValueView};
use crate::compiler::lowering::{
    argument_fits,
    coerce,
    coerce_all,
    lower_return,accepts, float_op, format_of, format_piece, fresh, int_op, ir_type, is_logical, lower_binary, lower_call, lower_declaration, lower_print, lower_unary, predicate_of, printf_function, promote, promote_all, slot_type, types_of, unify, values_of, zero_of, CodegenView, TypedView};
use crate::compiler::scope::{Scope, Slot};
use crate::types::DataType;

use crate::compiler::references::{lemma_fresh_is_ready, ready};

pub mod ir;
pub mod laws;
pub mod lowering;
pub mod references;
pub mod scope;
pub mod statements;
use crate::compiler::laws::{lemma_fresh_is_closed, module_ok};

verus! {

/// A value with its type.
#[derive(Debug, PartialEq, Eq)]
pub struct TypedValue {
    pub value: Value,
    pub ty: IrType,
}

impl View for TypedValue {
    type V = TypedView;

    open spec fn view(&self) -> TypedView {
        TypedView { value: self.value@, ty: self.ty }
    }
}

/// The value of an optional typed value.
pub open spec fn typed_view(v: Option<TypedValue>) -> Option<TypedView> {
    match v {
        Some(t) => Some(t@),
        None => None,
    }
}

/// The values of a list of typed values, in order.
pub open spec fn typed_values_view(v: Seq<TypedValue>) -> Seq<TypedView> {
    Seq::new(v.len(), |i: int| v[i]@)
}

/// The emitter.
#[derive(Debug)]
pub struct Codegen {
    /// The module that is being made.
    pub module: IrModule,
    /// The scope chain at the point that lowering has reached.
    pub scope: Scope,
    /// The labels of the blocks of the function in emission.
    pub blocks: Vec<String>,
    /// The instructions of the function in emission.
    pub body: Vec<Placed>,
    /// For each block of the function in emission, whether it has ended.
    pub terminated: Vec<bool>,
    /// The block that instructions are emitted into.
    pub current: usize,
    /// The type that the function in emission returns.
    pub result_type: IrType,
}

impl View for Codegen {
    type V = CodegenView;

    open spec fn view(&self) -> CodegenView {
        CodegenView {
            module: self.module@,
            scope: self.scope@,
            blocks: labels_view(self.blocks@),
            body: body_view(self.body@),
            terminated: self.terminated@,
            current: self.current,
            result_type: self.result_type,
        }
    }
}

/// The type of the representation that a type of the language is lowered
/// to.
pub fn lower_type(t: &DataType) -> (r: IrType)
    ensures
        r == ir_type(t@),
{
    match t {
        DataType::Int32 => IrType::I32,
        DataType::Float32 => IrType::F32,
        DataType::String => IrType::Ptr,
        DataType::Boolean => IrType::I1,
        DataType::Void => IrType::Void,
        DataType::Custom(_) => IrType::I32,
    }
}

/// The type of the slot for a value of the type.
pub fn slot_type_of(t: IrType) -> (r: IrType)
    ensures
        r == slot_type(t),
{
    match t {
        IrType::Void => IrType::I32,
        _ => t,
    }
}

/// The zero of a type.
pub fn zero_value(t: IrType) -> (r: Value)
    ensures
        r@ == zero_of(t),
{
    match t {
        IrType::I1 => Value::ConstInt { ty: IrType::I1, value: 0 },
        IrType::F32 | IrType::F64 => Value::ConstFloat { text: "0.0".to_owned() },
        IrType::Ptr => Value::Null,
        _ => Value::ConstInt { ty: IrType::I32, value: 0 },
    }
}

fn integer_operation(operator: BinaryOperator) -> (r: BinaryOp)
    ensures
        r == int_op(operator),
{
    match operator {
        BinaryOperator::Add => BinaryOp::Add,
        BinaryOperator::Subtract => BinaryOp::Sub,
        BinaryOperator::Multiply => BinaryOp::Mul,
        BinaryOperator::Divide => BinaryOp::SDiv,
        BinaryOperator::Modulus => BinaryOp::SRem,
        BinaryOperator::And => BinaryOp::And,
        _ => BinaryOp::Or,
    }
}

fn float_operation(operator: BinaryOperator) -> (r: BinaryOp)
    ensures
        r == float_op(operator),
{
    match operator {
        BinaryOperator::Add => BinaryOp::FAdd,
        BinaryOperator::Subtract => BinaryOp::FSub,
        BinaryOperator::Multiply => BinaryOp::FMul,
        BinaryOperator::Divide => BinaryOp::FDiv,
        _ => BinaryOp::FRem,
    }
}

fn comparison(operator: BinaryOperator) -> (r: Predicate)
    ensures
        r == predicate_of(operator),
{
    match operator {
        BinaryOperator::Equal => Predicate::Eq,
        BinaryOperator::NotEqual => Predicate::Ne,
        BinaryOperator::GreaterThan => Predicate::Sgt,
        BinaryOperator::GreaterThanEqual => Predicate::Sge,
        BinaryOperator::LessThan => Predicate::Slt,
        _ => Predicate::Sle,
    }
}

fn logical(operator: BinaryOperator) -> (r: bool)
    ensures
        r == is_logical(operator),
{
    match operator {
        BinaryOperator::And | BinaryOperator::Or => true,
        _ => false,
    }
}

fn directive(ty: IrType) -> (r: &'static str)
    ensures
        r@ == format_piece(ty),
{
    match ty {
        IrType::I1 | IrType::I32 => "%d",
        IrType::F32 | IrType::F64 => "%f",
        IrType::Ptr => "%s",
        IrType::Void => "",
    }
}

fn takes(f: &IrFunction, values: &Vec<TypedValue>) -> (r: bool)
    ensures
        r == accepts(f@, types_of(typed_values_view(values@))),
{
    let ghost types = types_of(typed_values_view(values@));
    if f.variadic {
        if values.len() < f.params.len() {
            return false;
        }
    } else if values.len() != f.params.len() {
        return false;
    }
    let mut i: usize = 0;
    while i < f.params.len()
        invariant
            i <= f.params.len() <= values.len(),
            types == types_of(typed_values_view(values@)),
            forall|j: int| 0 <= j < i ==> #[trigger] argument_fits(f@, types, j),
        decreases f.params.len() - i,
    {
        let from = values[i].ty;
        let to = f.params[i];
        if !(from == to || (from.integer() && to.integer())) {
            assert(!argument_fits(f@, types, i as int));
            return false;
        }
        assert(argument_fits(f@, types, i as int));
        i = i + 1;
    }
    true
}

impl Codegen {
    /// An emitter for a module of the given name. The module declares
    /// `printf`, and the root scope frame binds it.
    pub fn new(module_name: &str) -> (r: Self)
        ensures
            r@ == fresh(module_name@),
            module_ok(r@.module),
            ready(r@),
    {
        proof {
            lemma_fresh_is_closed(module_name@);
            lemma_fresh_is_ready(module_name@);
        }
        let mut r = Codegen {
            module: IrModule {
                name: module_name.to_owned(),
                globals: Vec::new(),
                functions: Vec::new(),
            },
            scope: Scope::new(None),
            blocks: Vec::new(),
            body: Vec::new(),
            terminated: Vec::new(),
            current: 0,
            result_type: IrType::Void,
        };
        r.add_builtin_functions();
        proof {
            let f = fresh(module_name@);
            assert(r@.module.globals =~= f.module.globals);
            assert(r@.module.functions =~= f.module.functions);
            assert(r@.scope[0].variables =~= f.scope[0].variables);
            assert(r@.scope[0].functions =~= f.scope[0].functions);
            assert(r@.scope =~= f.scope);
            assert(r@.blocks =~= f.blocks);
            assert(r@.body =~= f.body);
            assert(r@.terminated =~= f.terminated);
        }
        r
    }

    /// Declares the functions that every module can call: `printf`, which
    /// `print` and `println` are lowered to.
    pub fn add_builtin_functions(&mut self)
        ensures
            final(self)@ == old(self)@.add_function(
                printf_function(),
            ).bind_function("printf"@, old(self)@.next_function()),
    {
        let mut params: Vec<IrType> = Vec::new();
        params.push(IrType::Ptr);
        let f = IrFunction {
            name: "printf".to_owned(),
            params,
            return_type: IrType::I32,
            variadic: true,
            blocks: Vec::new(),
            body: Vec::new(),
        };
        proof {
            let p = printf_function();
            assert(f@.params =~= p.params);
            assert(f@.blocks =~= p.blocks);
            assert(f@.body =~= p.body);
        }
        let index = self.add_function(f);
        self.scope.set_function("printf", index);
    }

    /// The module as far as it is made.
    pub fn get_module(&self) -> (r: &IrModule)
        ensures
            r == self.module,
    {
        &self.module
    }

    /// Whether instructions can be emitted.
    pub fn is_open(&self) -> (r: bool)
        ensures
            r == self@.is_open(),
    {
        self.current < self.terminated.len() && !self.terminated[self.current]
    }

    /// Emits an instruction into the current block. The result names the
    /// value of the instruction.
    pub fn emit(&mut self, instr: Instr) -> (id: usize)
        ensures
            final(self)@ == old(self)@.emit(instr@),
            id == old(self)@.next_id(),
    {
        let id = self.body.len();
        let ends = instr.ends_block();
        let ghost before = self@.body;
        let placed = Placed { block: self.current, instr };
        self.body.push(placed);
        assert(self@.body =~= before.push(placed@));
        if ends && self.current < self.terminated.len() {
            self.terminated.set(self.current, true);
        }
        id
    }

    /// Adds a block to the function in emission and gives its position.
    pub fn add_block(&mut self, label: &str) -> (index: usize)
        ensures
            final(self)@ == old(self)@.add_block(label@),
            index == old(self)@.next_block(),
    {
        let index = self.blocks.len();
        let ghost before = self@.blocks;
        self.blocks.push(label.to_owned());
        assert(self@.blocks =~= before.push(label@));
        self.terminated.push(false);
        index
    }

    /// Makes another block the current one.
    pub fn position_at(&mut self, block: usize)
        ensures
            final(self)@ == old(self)@.at(block),
    {
        self.current = block;
    }

    /// Adds a global string to the module and gives its position.
    pub fn add_global(&mut self, name: &str, text: String) -> (index: usize)
        ensures
            final(self)@ == old(self)@.add_global(name@, text@),
            index == old(self)@.next_global(),
    {
        let index = self.module.globals.len();
        let ghost before = self@.module.globals;
        let global = GlobalString { name: name.to_owned(), text };
        self.module.globals.push(global);
        assert(self@.module.globals =~= before.push(global@));
        index
    }

    /// Adds a function to the module and gives its position.
    pub fn add_function(&mut self, f: IrFunction) -> (index: usize)
        ensures
            final(self)@ == old(self)@.add_function(f@),
            index == old(self)@.next_function(),
    {
        let index = self.module.functions.len();
        let ghost before = self@.module.functions;
        self.module.functions.push(f);
        assert(self@.module.functions =~= before.push(f@));
        index
    }

    /// Opens a new innermost scope frame.
    pub fn enter_new_scope(&mut self)
        ensures
            final(self)@ == old(self)@.enter(),
    {
        let mut outer = Scope::new(None);
        core::mem::swap(&mut self.scope, &mut outer);
        self.scope = outer.enter();
    }

    /// Closes the innermost scope frame. The root frame stays.
    pub fn exit_scope(&mut self)
        ensures
            final(self)@ == old(self)@.leave(),
    {
        let mut inner = Scope::new(None);
        core::mem::swap(&mut self.scope, &mut inner);
        self.scope = inner.exit();
    }

    /// Starts the emission of a function that returns the given type, at
    /// its block `entry`.
    pub fn begin(&mut self, result_type: IrType)
        ensures
            final(self)@ == old(self)@.begin(result_type),
    {
        let mut blocks: Vec<String> = Vec::new();
        blocks.push("entry".to_owned());
        let mut terminated: Vec<bool> = Vec::new();
        terminated.push(false);
        self.blocks = blocks;
        self.body = Vec::new();
        self.terminated = terminated;
        self.current = 0;
        self.result_type = result_type;
        assert(self@.blocks =~= seq!["entry"@]);
        assert(self@.body =~= Seq::empty());
        assert(self@.terminated =~= seq![false]);
    }

    /// Gives what was emitted to the function of the module at `index`.
    pub fn finish(&mut self, index: usize)
        ensures
            final(self)@ == old(self)@.finish(index),
    {
        let mut blocks: Vec<String> = Vec::new();
        let mut body: Vec<Placed> = Vec::new();
        core::mem::swap(&mut self.blocks, &mut blocks);
        core::mem::swap(&mut self.body, &mut body);
        self.terminated = Vec::new();
        self.current = 0;
        self.result_type = IrType::Void;
        if index < self.module.functions.len() {
            let ghost before = self@.module.functions;
            let declared = self.module.functions.remove(index);
            let f = IrFunction {
                name: declared.name,
                params: declared.params,
                return_type: declared.return_type,
                variadic: declared.variadic,
                blocks,
                body,
            };
            self.module.functions.insert(index, f);
            assert(self@.module.functions =~= before.update(index as int, f@));
        }
        assert(self@.blocks =~= Seq::empty());
        assert(self@.body =~= Seq::empty());
        assert(self@.terminated =~= Seq::empty());
    }

    /// Emits a return, unless the current block has ended already.
    pub fn end_with(&mut self, value: Option<Value>)
        ensures
            final(self)@ == old(self)@.end_with(opt_value_view(value)),
    {
        if self.is_open() {
            self.emit(Instr::Ret { value });
        }
    }

    /// Emits a jump, unless the current block has ended already.
    pub fn branch_if_open(&mut self, target: usize)
        ensures
            final(self)@ == old(self)@.branch_if_open(target),
    {
        if self.is_open() {
            self.emit(Instr::Br { target });
        }
    }

    fn unify(&mut self, l: TypedValue, r: TypedValue) -> (out: (Value, Value, IrType))
        requires
            is_int(l.ty),
            is_int(r.ty),
        ensures
            (final(self)@, out.0@, out.1@, out.2) == unify(old(self)@, l@, r@),
    {
        if l.ty == r.ty {
            (l.value, r.value, l.ty)
        } else if l.ty == IrType::I1 {
            let id = self.emit(Instr::ZExt { value: l.value, to: IrType::I32 });
            (Value::Local { id }, r.value, IrType::I32)
        } else {
            let id = self.emit(Instr::ZExt { value: r.value, to: IrType::I32 });
            (l.value, Value::Local { id }, IrType::I32)
        }
    }

    /// Applies a binary operator to two values.
    pub fn apply_binary(&mut self, operator: BinaryOperator, l: TypedValue, r: TypedValue) -> (out:
        Option<TypedValue>)
        ensures
            (final(self)@, typed_view(out)) == lower_binary(old(self)@, operator, l@, r@),
    {
        if !self.is_open() {
            return None;
        }
        if operator.arithmetic() {
            if l.ty == IrType::I32 && r.ty == IrType::I32 {
                let id = self.emit(
                    Instr::Binary {
                        op: integer_operation(operator),
                        left: l.value,
                        right: r.value,
                    },
                );
                Some(TypedValue { value: Value::Local { id }, ty: IrType::I32 })
            } else if l.ty == IrType::F32 && r.ty == IrType::F32 {
                let id = self.emit(
                    Instr::Binary { op: float_operation(operator), left: l.value, right: r.value },
                );
                Some(TypedValue { value: Value::Local { id }, ty: IrType::F32 })
            } else {
                None
            }
        } else if l.ty.integer() && r.ty.integer() {
            let (left, right, ty) = self.unify(l, r);
            if logical(operator) {
                let id = self.emit(
                    Instr::Binary { op: integer_operation(operator), left, right },
                );
                Some(TypedValue { value: Value::Local { id }, ty })
            } else {
                let flag = self.emit(Instr::ICmp { predicate: comparison(operator), left, right });
                let id = self.emit(
                    Instr::ZExt { value: Value::Local { id: flag }, to: IrType::I32 },
                );
                Some(TypedValue { value: Value::Local { id }, ty: IrType::I32 })
            }
        } else if l.ty == IrType::F32 && r.ty == IrType::F32 && !logical(operator) {
            let flag = self.emit(
                Instr::FCmp { predicate: comparison(operator), left: l.value, right: r.value },
            );
            let id = self.emit(Instr::ZExt { value: Value::Local { id: flag }, to: IrType::I32 });
            Some(TypedValue { value: Value::Local { id }, ty: IrType::I32 })
        } else {
            None
        }
    }

    /// Inverts a truth value: one for an integer that is zero, else zero.
    pub fn build_not_expression(&mut self, v: TypedValue) -> (out: Option<TypedValue>)
        ensures
            (final(self)@, typed_view(out)) == lower_unary(old(self)@, UnaryOperator::Not, v@),
    {
        if !self.is_open() || !v.ty.integer() {
            return None;
        }
        let flag = self.emit(
            Instr::ICmp {
                predicate: Predicate::Eq,
                left: v.value,
                right: Value::ConstInt { ty: v.ty, value: 0 },
            },
        );
        let id = self.emit(Instr::ZExt { value: Value::Local { id: flag }, to: IrType::I32 });
        Some(TypedValue { value: Value::Local { id }, ty: IrType::I32 })
    }

    /// Negates a working integer or a float.
    pub fn build_negative_expression(&mut self, v: TypedValue) -> (out: Option<TypedValue>)
        ensures
            (final(self)@, typed_view(out)) == lower_unary(
                old(self)@,
                UnaryOperator::Negative,
                v@,
            ),
    {
        if !self.is_open() {
            return None;
        }
        if v.ty == IrType::I32 {
            let id = self.emit(Instr::Neg { value: v.value });
            Some(TypedValue { value: Value::Local { id }, ty: IrType::I32 })
        } else if v.ty == IrType::F32 {
            let id = self.emit(Instr::FNeg { value: v.value });
            Some(TypedValue { value: Value::Local { id }, ty: IrType::F32 })
        } else {
            None
        }
    }

    /// Reserves a slot for a variable, stores its initial value and binds
    /// its name.
    pub fn declare_variable(
        &mut self,
        name: &String,
        data_type: &Option<DataType>,
        value: Option<TypedValue>,
    )
        ensures
            final(self)@ == lower_declaration(
                old(self)@,
                name@,
                crate::ast::opt_type_view(*data_type),
                typed_view(value),
            ),
    {
        if !self.is_open() {
            return ;
        }
        let ty = match data_type {
            Some(t) => slot_type_of(lower_type(t)),
            None => match &value {
                Some(v) => slot_type_of(v.ty),
                None => IrType::I32,
            },
        };
        let fitted = match value {
            Some(v) => self.coerce(v, ty),
            None => None,
        };
        let initial = match fitted {
            Some(x) => x,
            None => zero_value(ty),
        };
        let id = self.emit(Instr::Alloca { ty, name: name.clone() });
        self.emit(Instr::Store { slot: Value::Local { id }, value: initial });
        self.scope.set_variable(name.as_str(), Slot { id, ty });
    }

    /// Makes a value fit a place of the type `to`, if it can be made to.
    pub fn coerce(&mut self, v: TypedValue, to: IrType) -> (out: Option<Value>)
        ensures
            (final(self)@, opt_value_view(out)) == coerce(old(self)@, v@, to),
    {
        if v.ty == to {
            Some(v.value)
        } else if v.ty == IrType::I1 && to == IrType::I32 {
            let id = self.emit(Instr::ZExt { value: v.value, to: IrType::I32 });
            Some(Value::Local { id })
        } else if v.ty == IrType::I32 && to == IrType::I1 {
            let id = self.emit(
                Instr::ICmp {
                    predicate: Predicate::Ne,
                    left: v.value,
                    right: Value::ConstInt { ty: IrType::I32, value: 0 },
                },
            );
            Some(Value::Local { id })
        } else {
            None
        }
    }

    /// Emits a return of a value, if there is one, as the function in
    /// emission returns it.
    pub fn return_value(&mut self, value: Option<TypedValue>)
        ensures
            final(self)@ == lower_return(old(self)@, typed_view(value)),
    {
        if !self.is_open() {
            return ;
        }
        let result_type = self.result_type;
        match result_type {
            IrType::Void => {
                self.emit(Instr::Ret { value: None });
            },
            _ => {
                let fitted = match value {
                    Some(t) => self.coerce(t, result_type),
                    None => None,
                };
                let result = match fitted {
                    Some(x) => x,
                    None => zero_value(result_type),
                };
                self.emit(Instr::Ret { value: Some(result) });
            },
        }
    }

    fn promote(&mut self, v: TypedValue) -> (out: Value)
        ensures
            (final(self)@, out@) == promote(old(self)@, v@),
    {
        if v.ty == IrType::I1 {
            let id = self.emit(Instr::ZExt { value: v.value, to: IrType::I32 });
            Value::Local { id }
        } else if v.ty == IrType::F32 {
            let id = self.emit(Instr::FpExt { value: v.value });
            Value::Local { id }
        } else {
            v.value
        }
    }

    /// Lowers `print` or `println` of values to one call of `printf`.
    pub fn build_println(&mut self, values: Vec<TypedValue>, newline: bool)
        ensures
            final(self)@ == lower_print(old(self)@, typed_values_view(values@), newline),
    {
        if !self.is_open() {
            return ;
        }
        let printf = match self.scope.get_function("printf") {
            Some(f) => f,
            None => {
                return ;
            },
        };
        let ghost all = typed_values_view(values@);
        let ghost types = types_of(all);
        let mut text = String::new();
        let mut i: usize = 0;
        proof {
            reveal_strlit(" ");
            reveal_strlit("\n");
        }
        assert(types.take(0) =~= Seq::<IrType>::empty());
        while i < values.len()
            invariant
                i <= values.len(),
                all == typed_values_view(values@),
                types == types_of(all),
                text@ == format_of(types.take(i as int)),
            decreases values.len() - i,
        {
            assert(types.take(i as int + 1).drop_last() =~= types.take(i as int));
            assert(types.take(i as int + 1).last() == values[i as int].ty);
            if i > 0 {
                text.append(" ");
            }
            text.append(directive(values[i].ty));
            assert(text@ =~= format_of(types.take(i as int + 1)));
            i = i + 1;
        }
        assert(types.take(i as int) =~= types);
        if newline {
            text.append("\n");
        }
        assert(text@ =~= format_of(types) + if newline {
            "\n"@
        } else {
            Seq::empty()
        });
        let mut args: Vec<Value> = Vec::new();
        let mut k: usize = 0;
        let ghost start = self@;
        assert(all.take(0) =~= Seq::<TypedView>::empty());
        assert(values_view(args@) =~= Seq::<ValueView>::empty());
        while k < values.len()
            invariant
                k <= values.len(),
                all == typed_values_view(values@),
                (self@, values_view(args@)) == promote_all(start, all.take(k as int)),
            decreases values.len() - k,
        {
            assert(all.take(k as int + 1).drop_last() =~= all.take(k as int));
            let ghost before = values_view(args@);
            let v = TypedValue { value: values[k].value.clone(), ty: values[k].ty };
            let p = self.promote(v);
            args.push(p);
            assert(values_view(args@) =~= before.push(p@));
            k = k + 1;
        }
        assert(all.take(k as int) =~= all);
        let ghost promoted = values_view(args@);
        let format = self.add_global("format_str", text);
        args.insert(0, Value::Global { index: format });
        assert(values_view(args@) =~= seq![ValueView::Global { index: format }] + promoted);
        self.emit(Instr::Call { function: printf, args });
    }

    /// Calls a function of the module with values.
    pub fn call_function(&mut self, function: usize, values: Vec<TypedValue>) -> (out: Option<
        TypedValue,
    >)
        ensures
            (final(self)@, typed_view(out)) == lower_call(
                old(self)@,
                function,
                typed_values_view(values@),
            ),
    {
        if !self.is_open() || function >= self.module.functions.len() {
            return None;
        }
        if !takes(&self.module.functions[function], &values) {
            return None;
        }
        let return_type = self.module.functions[function].return_type;
        let ghost all = typed_values_view(values@);
        let ghost start = self@;
        let ghost params = self@.module.functions[function as int].params;
        let mut args: Vec<Value> = Vec::new();
        let mut k: usize = 0;
        assert(all.take(0) =~= Seq::<TypedView>::empty());
        assert(values_view(args@) =~= Seq::<ValueView>::empty());
        while k < values.len()
            invariant
                k <= values.len(),
                function < self.module.functions.len(),
                all == typed_values_view(values@),
                params == start.module.functions[function as int].params,
                self@.module.functions == start.module.functions,
                (self@, values_view(args@)) == coerce_all(start, all.take(k as int), params),
            decreases values.len() - k,
        {
            assert(all.take(k as int + 1).drop_last() =~= all.take(k as int));
            let ghost before = values_view(args@);
            let v = TypedValue { value: values[k].value.clone(), ty: values[k].ty };
            let plain = values[k].value.clone();
            let ghost here = self@;
            let fitted = if k < self.module.functions[function].params.len() {
                let to = self.module.functions[function].params[k];
                self.coerce(v, to)
            } else {
                None
            };
            assert(self@.module == here.module);
            assert(self@.module.functions.len() == self.module.functions.len());
            let argument = match fitted {
                Some(x) => x,
                None => plain,
            };
            args.push(argument);
            assert(values_view(args@) =~= before.push(argument@));
            k = k + 1;
        }
        assert(all.take(k as int) =~= all);
        let id = self.emit(Instr::Call { function, args });
        match return_type {
            IrType::Void => None,
            _ => Some(TypedValue { value: Value::Local { id }, ty: return_type }),
        }
    }
}

} // verus!
