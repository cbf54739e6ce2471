//! Lowering of statements, expressions, functions and whole programs.
use vstd::prelude::*;
use crate::ast::{
    lemma_stmt_view,
    params_view,
    stmts_view,
    ParamView,
    Program,
    Stmt,
    StmtView,
    UnaryOperator,
};
use crate::compiler::ir::{Instr, IrFunction, IrType, Predicate, Value, ValueView};
use crate::compiler::laws::{lemma_blocks_are_closed, module_ok};
use crate::compiler::references::{lemma_references_exist, ready};
use crate::compiler::lowering::{
    after,
    bodies_from,
    declare_from,
    declared,
    lower_all,
    lower_body,
    lower_main,
    lower_program,
    lower_stmt,
    lower_values,
    main_function,
    param_types,
    store_params,
    TypedView,
};
use crate::compiler::scope::Slot;
use crate::compiler::{lower_type, typed_values_view, typed_view, zero_value, Codegen, TypedValue};
use crate::text::str_eq;

verus! {

fn next_after(k: usize) -> (r: usize)
    ensures
        r == after(k),
{
    if k < usize::MAX {
        k + 1
    } else {
        k
    }
}

impl Codegen {
    /// Lowers a statement or an expression and gives its value, if it has
    /// one. Nothing is emitted where the current block has ended.
    pub fn build_stmt(&mut self, stmt: &Stmt) -> (r: Option<TypedValue>)
        ensures
            (final(self)@, typed_view(r)) == lower_stmt(old(self)@, stmt@),
        decreases stmt, 1nat,
    {
        if !self.is_open() {
            return None;
        }
        match stmt {
            Stmt::Integer { value, .. } => Some(self.build_integer(*value)),
            Stmt::Float { value, .. } => Some(self.build_float(value)),
            Stmt::Boolean { value, .. } => Some(self.build_boolean(*value)),
            Stmt::String { value, .. } => Some(self.build_global_string(value)),
            Stmt::Identifier { name, .. } => self.build_identifier(name),
            Stmt::UnaryExpression { .. } => self.build_unary_expression(stmt),
            Stmt::BinaryExpression { .. } => self.build_binary_expression(stmt),
            Stmt::FunctionCall { .. } => self.build_function_call(stmt),
            Stmt::Declaration { .. } => {
                self.build_declaration(stmt);
                None
            },
            Stmt::Block { .. } => {
                self.build_block(stmt);
                None
            },
            Stmt::IfStatement { .. } => {
                self.build_if_statement(stmt);
                None
            },
            Stmt::ReturnStatement { .. } => {
                self.build_return_statement(stmt);
                None
            },
            _ => None,
        }
    }

    /// An integer literal: a constant of the working integer type.
    pub fn build_integer(&self, value: u64) -> (r: TypedValue)
        ensures
            r@ == (TypedView {
                value: ValueView::ConstInt { ty: IrType::I32, value },
                ty: IrType::I32,
            }),
    {
        TypedValue { value: Value::ConstInt { ty: IrType::I32, value }, ty: IrType::I32 }
    }

    /// A float literal: a constant of 32 bits.
    pub fn build_float(&self, value: &String) -> (r: TypedValue)
        ensures
            r@ == (TypedView { value: ValueView::ConstFloat { text: value@ }, ty: IrType::F32 }),
    {
        TypedValue { value: Value::ConstFloat { text: value.clone() }, ty: IrType::F32 }
    }

    /// A truth value: a constant of one bit.
    pub fn build_boolean(&self, value: bool) -> (r: TypedValue)
        ensures
            r@ == (TypedView {
                value: ValueView::ConstInt {
                    ty: IrType::I1,
                    value: if value {
                        1
                    } else {
                        0
                    },
                },
                ty: IrType::I1,
            }),
    {
        TypedValue {
            value: Value::ConstInt {
                ty: IrType::I1,
                value: if value {
                    1
                } else {
                    0
                },
            },
            ty: IrType::I1,
        }
    }

    /// A string literal: a global string of the module. The value is a
    /// pointer to its first byte.
    pub fn build_global_string(&mut self, value: &String) -> (r: TypedValue)
        ensures
            final(self)@ == old(self)@.add_global("const_str"@, value@),
            r@ == (TypedView {
                value: ValueView::Global { index: old(self)@.next_global() },
                ty: IrType::Ptr,
            }),
    {
        let index = self.add_global("const_str", value.clone());
        TypedValue { value: Value::Global { index }, ty: IrType::Ptr }
    }

    /// An identifier: the value that the slot of the variable holds.
    /// Nothing is emitted for a name that no scope binds.
    pub(crate) fn build_identifier(&mut self, name: &String) -> (r: Option<TypedValue>)
        requires
            old(self)@.is_open(),
        ensures
            (final(self)@, typed_view(r)) == lower_stmt(
                old(self)@,
                StmtView::Identifier { name: name@, span: arbitrary() },
            ),
    {
        match self.scope.get_variable(name.as_str()) {
            Some(slot) => {
                let id = self.emit(Instr::Load { ty: slot.ty, slot: Value::Local { id: slot.id } });
                Some(TypedValue { value: Value::Local { id }, ty: slot.ty })
            },
            None => None,
        }
    }

    /// A unary expression.
    pub(crate) fn build_unary_expression(&mut self, stmt: &Stmt) -> (r: Option<TypedValue>)
        requires
            stmt is UnaryExpression,
            old(self)@.is_open(),
        ensures
            (final(self)@, typed_view(r)) == lower_stmt(old(self)@, stmt@),
        decreases stmt, 0nat,
    {
        match stmt {
            Stmt::UnaryExpression { value, operator } => {
                match self.build_stmt(value) {
                    None => None,
                    Some(v) => match operator {
                        UnaryOperator::Not => self.build_not_expression(v),
                        UnaryOperator::Negative => self.build_negative_expression(v),
                    },
                }
            },
            _ => None,
        }
    }

    /// A binary expression: the left operand, the right operand, then the
    /// operation.
    pub(crate) fn build_binary_expression(&mut self, stmt: &Stmt) -> (r: Option<TypedValue>)
        requires
            stmt is BinaryExpression,
            old(self)@.is_open(),
        ensures
            (final(self)@, typed_view(r)) == lower_stmt(old(self)@, stmt@),
        decreases stmt, 0nat,
    {
        match stmt {
            Stmt::BinaryExpression { left, right, operator } => {
                let l = match self.build_stmt(left) {
                    Some(v) => v,
                    None => {
                        return None;
                    },
                };
                let r = match self.build_stmt(right) {
                    Some(v) => v,
                    None => {
                        return None;
                    },
                };
                self.apply_binary(*operator, l, r)
            },
            _ => None,
        }
    }

    /// A function call. `print` and `println` become a call of `printf`.
    /// Nothing is emitted for a call of a function that is not declared.
    pub(crate) fn build_function_call(&mut self, stmt: &Stmt) -> (r: Option<TypedValue>)
        requires
            stmt is FunctionCall,
            old(self)@.is_open(),
        ensures
            (final(self)@, typed_view(r)) == lower_stmt(old(self)@, stmt@),
        decreases stmt, 0nat,
    {
        proof {
            lemma_stmt_view(stmt);
        }
        match stmt {
            Stmt::FunctionCall { name, args, .. } => {
                let newline = str_eq(name.as_str(), "println");
                if newline || str_eq(name.as_str(), "print") {
                    let values = self.build_values(args);
                    self.build_println(values, newline);
                    return None;
                }
                match self.scope.get_function(name.as_str()) {
                    None => None,
                    Some(f) => {
                        let values = self.build_values(args);
                        self.call_function(f, values)
                    },
                }
            },
            _ => None,
        }
    }

    /// A declaration: the initial value first, then the slot.
    pub(crate) fn build_declaration(&mut self, stmt: &Stmt)
        requires
            stmt is Declaration,
            old(self)@.is_open(),
        ensures
            (final(self)@, None::<TypedView>) == lower_stmt(old(self)@, stmt@),
        decreases stmt, 0nat,
    {
        match stmt {
            Stmt::Declaration { name, data_type, value, .. } => {
                let initial = match value {
                    Some(v) => self.build_stmt(v),
                    None => None,
                };
                self.declare_variable(name, data_type, initial);
            },
            _ => {},
        }
    }

    /// A block: its statements in order, in a scope frame of their own.
    pub(crate) fn build_block(&mut self, stmt: &Stmt)
        requires
            stmt is Block,
            old(self)@.is_open(),
        ensures
            (final(self)@, None::<TypedView>) == lower_stmt(old(self)@, stmt@),
        decreases stmt, 0nat,
    {
        proof {
            lemma_stmt_view(stmt);
        }
        match stmt {
            Stmt::Block { body } => {
                self.enter_new_scope();
                self.build_list(body);
                self.exit_scope();
            },
            _ => {},
        }
    }

    /// An if statement. The condition is compared with zero; a block for
    /// the then branch, one for the else branch if there is one, and a
    /// block at which the branches meet are added to the function; each
    /// branch is lowered into its block and jumps to the meeting block
    /// unless it has ended; and the meeting block becomes the current one.
    /// Nothing more is emitted where the condition has no value or is no
    /// integer.
    pub(crate) fn build_if_statement(&mut self, stmt: &Stmt)
        requires
            stmt is IfStatement,
            old(self)@.is_open(),
        ensures
            (final(self)@, None::<TypedView>) == lower_stmt(old(self)@, stmt@),
        decreases stmt, 0nat,
    {
        match stmt {
            Stmt::IfStatement { condition, block, else_block } => {
                let c = match self.build_stmt(condition) {
                    Some(c) => c,
                    None => {
                        return ;
                    },
                };
                if !self.is_open() || !c.ty.integer() {
                    return ;
                }
                let flag = self.emit(
                    Instr::ICmp {
                        predicate: Predicate::Ne,
                        left: c.value,
                        right: Value::ConstInt { ty: c.ty, value: 0 },
                    },
                );
                let then_block = self.add_block("--if-then");
                match else_block {
                    None => {
                        let merge = self.add_block("--if-merge");
                        self.emit(
                            Instr::CondBr {
                                condition: Value::Local { id: flag },
                                then_block,
                                else_block: merge,
                            },
                        );
                        self.position_at(then_block);
                        self.build_stmt(block);
                        self.branch_if_open(merge);
                        self.position_at(merge);
                    },
                    Some(e) => {
                        let otherwise = self.add_block("--if-else");
                        let merge = self.add_block("--if-merge");
                        self.emit(
                            Instr::CondBr {
                                condition: Value::Local { id: flag },
                                then_block,
                                else_block: otherwise,
                            },
                        );
                        self.position_at(then_block);
                        self.build_stmt(block);
                        self.branch_if_open(merge);
                        self.position_at(otherwise);
                        self.build_stmt(e);
                        self.branch_if_open(merge);
                        self.position_at(merge);
                    },
                }
            },
            _ => {},
        }
    }

    /// A return statement, with its value if it gives one, made to fit
    /// the type that the function returns. Nothing is emitted where the
    /// expression that it gives has no value.
    pub(crate) fn build_return_statement(&mut self, stmt: &Stmt)
        requires
            stmt is ReturnStatement,
            old(self)@.is_open(),
        ensures
            (final(self)@, None::<TypedView>) == lower_stmt(old(self)@, stmt@),
        decreases stmt, 0nat,
    {
        match stmt {
            Stmt::ReturnStatement { value } => {
                match value {
                    Some(v) => {
                        match self.build_stmt(v) {
                            Some(t) => {
                                self.return_value(Some(t));
                            },
                            None => {},
                        }
                    },
                    None => {
                        self.return_value(None);
                    },
                }
            },
            _ => {},
        }
    }

    /// Lowers the statements of a list in order.
    pub fn build_list(&mut self, body: &Vec<Stmt>)
        ensures
            final(self)@ == lower_all(old(self)@, stmts_view(body@)),
        decreases body, 0nat,
    {
        let ghost all = stmts_view(body@);
        let mut i: usize = 0;
        assert(all.take(0) =~= Seq::<StmtView>::empty());
        while i < body.len()
            invariant
                i <= body.len(),
                all == stmts_view(body@),
                self@ == lower_all(old(self)@, all.take(i as int)),
            decreases body.len() - i,
        {
            assert(all.take(i as int + 1).drop_last() =~= all.take(i as int));
            self.build_stmt(&body[i]);
            i = i + 1;
        }
        assert(all.take(i as int) =~= all);
    }

    /// Lowers the arguments of a call from left to right and gives the
    /// values of those that have one.
    pub fn build_values(&mut self, args: &Vec<Stmt>) -> (r: Vec<TypedValue>)
        ensures
            (final(self)@, typed_values_view(r@)) == lower_values(old(self)@, stmts_view(args@)),
        decreases args, 0nat,
    {
        let ghost all = stmts_view(args@);
        let mut values: Vec<TypedValue> = Vec::new();
        let mut i: usize = 0;
        assert(all.take(0) =~= Seq::<StmtView>::empty());
        assert(typed_values_view(values@) =~= Seq::<TypedView>::empty());
        while i < args.len()
            invariant
                i <= args.len(),
                all == stmts_view(args@),
                (self@, typed_values_view(values@)) == lower_values(
                    old(self)@,
                    all.take(i as int),
                ),
            decreases args.len() - i,
        {
            assert(all.take(i as int + 1).drop_last() =~= all.take(i as int));
            let ghost before = typed_values_view(values@);
            match self.build_stmt(&args[i]) {
                Some(v) => {
                    values.push(v);
                    assert(typed_values_view(values@) =~= before.push(v@));
                },
                None => {},
            }
            i = i + 1;
        }
        assert(all.take(i as int) =~= all);
        values
    }

    /// Declares a function in the module, without blocks, and binds its
    /// name, so that calls can be lowered before the body is.
    pub fn build_function_declaration(&mut self, function: &Stmt)
        requires
            function is FunctionDeclaration,
        ensures
            final(self)@ == old(self)@.add_function(declared(function@)).bind_function(
                function@->FunctionDeclaration_name,
                old(self)@.next_function(),
            ),
    {
        proof {
            lemma_stmt_view(function);
        }
        match function {
            Stmt::FunctionDeclaration { name, params, return_type, .. } => {
                let ghost all = params_view(params@);
                let mut types: Vec<IrType> = Vec::new();
                let mut i: usize = 0;
                assert(all.take(0) =~= Seq::<ParamView>::empty());
                while i < params.len()
                    invariant
                        i <= params.len(),
                        all == params_view(params@),
                        types@ == param_types(all.take(i as int)),
                    decreases params.len() - i,
                {
                    assert(all.take(i as int + 1).drop_last() =~= all.take(i as int));
                    let ty = lower_type(&params[i].data_type);
                    if ty != IrType::Void {
                        types.push(ty);
                    }
                    i = i + 1;
                }
                assert(all.take(i as int) =~= all);
                let f = IrFunction {
                    name: name.clone(),
                    params: types,
                    return_type: lower_type(return_type),
                    variadic: false,
                    blocks: Vec::new(),
                    body: Vec::new(),
                };
                proof {
                    let d = declared(function@);
                    assert(f@.blocks =~= d.blocks);
                    assert(f@.body =~= d.body);
                }
                let index = self.add_function(f);
                self.scope.set_function(name.as_str(), index);
            },
            _ => {},
        }
    }

    /// Emits `main` from the top-level statements of a program.
    pub fn build_main_function(&mut self, body: &Vec<Stmt>)
        ensures
            final(self)@ == lower_main(old(self)@, stmts_view(body@)),
    {
        let f = IrFunction {
            name: "main".to_owned(),
            params: Vec::new(),
            return_type: IrType::I32,
            variadic: false,
            blocks: Vec::new(),
            body: Vec::new(),
        };
        proof {
            let m = main_function();
            assert(f@.params =~= m.params);
            assert(f@.blocks =~= m.blocks);
            assert(f@.body =~= m.body);
        }
        let index = self.add_function(f);
        self.begin(IrType::I32);
        self.enter_new_scope();
        self.build_list(body);
        self.end_with(Some(Value::ConstInt { ty: IrType::I32, value: 0 }));
        self.exit_scope();
        self.finish(index);
    }

    /// Emits the body of a function declaration into the function of the
    /// module at `index`.
    pub fn build_function_body(&mut self, index: usize, function: &Stmt)
        ensures
            final(self)@ == lower_body(old(self)@, index, function@),
    {
        proof {
            lemma_stmt_view(function);
        }
        match function {
            Stmt::FunctionDeclaration { params, return_type, block, .. } => {
                self.begin(lower_type(return_type));
                self.enter_new_scope();
                let ghost all = params_view(params@);
                let ghost start = self@;
                let mut i: usize = 0;
                let mut k: usize = 0;
                while i < params.len()
                    invariant
                        i <= params.len(),
                        all == params_view(params@),
                        store_params(start, all, 0, 0) == store_params(self@, all, i as int, k),
                    decreases params.len() - i,
                {
                    let ty = lower_type(&params[i].data_type);
                    if ty != IrType::Void {
                        let id = self.emit(Instr::Alloca { ty, name: params[i].name.clone() });
                        self.emit(
                            Instr::Store {
                                slot: Value::Local { id },
                                value: Value::Param { index: k },
                            },
                        );
                        self.scope.set_variable(params[i].name.as_str(), Slot { id, ty });
                        k = next_after(k);
                    }
                    i = i + 1;
                }
                self.build_stmt(block);
                let result_type = lower_type(return_type);
                match result_type {
                    IrType::Void => {
                        self.end_with(None);
                    },
                    _ => {
                        self.end_with(Some(zero_value(result_type)));
                    },
                }
                self.exit_scope();
                self.finish(index);
            },
            _ => {},
        }
    }

    /// Lowers a program into the module.
    ///
    /// Every function of the program is declared before anything is
    /// emitted, so that a call may stand before the declaration, and
    /// functions may call themselves and each other. Then `main` is
    /// emitted from the top-level statements, then the body of each
    /// function, in the order of the declarations. The result is a
    /// function of the program and the state of the emitter alone:
    /// lowering the same program from the same state gives the same
    /// module. Every block of every function that is emitted ends with
    /// exactly one jump or return, and every instruction refers to values,
    /// blocks, functions and global strings that exist.
    pub fn compile(&mut self, program: Program)
        ensures
            final(self)@ == lower_program(old(self)@, program@),
            module_ok(old(self)@.module) ==> module_ok(final(self)@.module),
            ready(old(self)@) ==> ready(final(self)@),
    {
        proof {
            if module_ok(self@.module) {
                lemma_blocks_are_closed(self@, program@);
            }
            if ready(self@) {
                lemma_references_exist(self@, program@);
            }
        }
        let ghost functions = stmts_view(program.functions@);
        let base = self.module.functions.len();
        let mut i: usize = 0;
        while i < program.functions.len()
            invariant
                i <= program.functions.len(),
                functions == stmts_view(program.functions@),
                declare_from(old(self)@, functions, 0) == declare_from(self@, functions, i as int),
            decreases program.functions.len() - i,
        {
            match &program.functions[i] {
                Stmt::FunctionDeclaration { .. } => {
                    self.build_function_declaration(&program.functions[i]);
                },
                _ => {},
            }
            i = i + 1;
        }
        self.build_main_function(&program.body);
        let ghost start = self@;
        let mut next: usize = base;
        let mut j: usize = 0;
        while j < program.functions.len()
            invariant
                j <= program.functions.len(),
                functions == stmts_view(program.functions@),
                bodies_from(start, functions, 0, base) == bodies_from(
                    self@,
                    functions,
                    j as int,
                    next,
                ),
            decreases program.functions.len() - j,
        {
            match &program.functions[j] {
                Stmt::FunctionDeclaration { .. } => {
                    self.build_function_body(next, &program.functions[j]);
                    next = next_after(next);
                },
                _ => {},
            }
            j = j + 1;
        }
    }
}

} // verus!
