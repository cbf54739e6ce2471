//! The syntax tree that the parser produces and the later stages consume.
use vstd::prelude::*;
use crate::tokens::Span;
use crate::types::{DataType, DataTypeView};

verus! {

/// A binary operator, which takes two operands.
#[derive(Debug, Clone, Copy, PartialEq, Eq, Hash, Structural)]
pub enum BinaryOperator {
    Add,
    Subtract,
    Multiply,
    Divide,
    Modulus,
    GreaterThan,
    GreaterThanEqual,
    Equal,
    NotEqual,
    LessThanEqual,
    LessThan,
    And,
    Or,
}

/// A shorter name for [`BinaryOperator`].
pub type Operator = BinaryOperator;

/// A unary operator, which takes one operand.
#[derive(Debug, Clone, Copy, PartialEq, Eq, Hash, Structural)]
pub enum UnaryOperator {
    Not,
    Negative,
}

impl BinaryOperator {
    /// Whether the operator is one of `+ - * / %`. The others compare or
    /// combine truth values and always give a `Boolean`.
    pub open spec fn is_arithmetic(self) -> bool {
        self == BinaryOperator::Add || self == BinaryOperator::Subtract || self
            == BinaryOperator::Multiply || self == BinaryOperator::Divide || self
            == BinaryOperator::Modulus
    }

    /// Executable form of [`BinaryOperator::is_arithmetic`].
    pub fn arithmetic(self) -> (r: bool)
        ensures
            r == self.is_arithmetic(),
    {
        match self {
            BinaryOperator::Add
            | BinaryOperator::Subtract
            | BinaryOperator::Multiply
            | BinaryOperator::Divide
            | BinaryOperator::Modulus => true,
            _ => false,
        }
    }
}

/// One parameter of a function declaration.
#[derive(Debug, PartialEq)]
pub struct FunctionParam {
    pub name: String,
    pub data_type: DataType,
    pub default_value: Option<Box<Stmt>>,
}

/// An annotation in front of a function declaration: `@name(args)`.
#[derive(Debug, PartialEq)]
pub struct Annotation {
    pub name: String,
    pub args: Vec<Stmt>,
}

/// A node of the syntax tree. Expressions and statements share the type.
#[derive(Debug, PartialEq)]
#[allow(inconsistent_fields)]
pub enum Stmt {
    Declaration { mutable: bool, name: String, data_type: Option<DataType>, value: Option<Box<Stmt>> },
    Block { body: Vec<Stmt> },
    IfStatement { condition: Box<Stmt>, block: Box<Stmt>, else_block: Option<Box<Stmt>> },
    FunctionDeclaration {
        annotations: Vec<Annotation>,
        name: String,
        params: Vec<FunctionParam>,
        return_type: DataType,
        block: Box<Stmt>,
    },
    FunctionCall { name: String, args: Vec<Stmt>, span: Span },
    BinaryExpression { left: Box<Stmt>, right: Box<Stmt>, operator: BinaryOperator },
    UnaryExpression { value: Box<Stmt>, operator: UnaryOperator },
    Identifier { name: String, span: Span },
    Integer { value: u64, span: Span },
    /// A floating literal, kept as the digits that were written: `1.5`.
    Float { value: String, span: Span },
    Boolean { value: bool, span: Span },
    String { value: String, span: Span },
    ReturnStatement { value: Option<Box<Stmt>> },
    ImportModule { module: String, alias: Option<String> },
    ImportModules { modules: Vec<(String, Option<String>)> },
    ImportEverything { module: String },
    ImportCollection { module: String, items: Vec<(String, Option<String>)> },
}

/// A whole source file: its imports, its function declarations and the
/// statements that run at top level, each in source order.
#[derive(Debug, PartialEq)]
pub struct Program {
    pub imports: Vec<Stmt>,
    pub functions: Vec<Stmt>,
    pub body: Vec<Stmt>,
}

/// The mathematical value of a [`FunctionParam`].
pub ghost struct ParamView {
    pub name: Seq<char>,
    pub data_type: DataTypeView,
    pub default_value: Option<Box<StmtView>>,
}

/// The mathematical value of an [`Annotation`].
pub ghost struct AnnotationView {
    pub name: Seq<char>,
    pub args: Seq<StmtView>,
}

/// A name with an optional alias, as import statements list them.
pub type ImportItem = (Seq<char>, Option<Seq<char>>);

/// The mathematical value of a [`Stmt`].
#[allow(inconsistent_fields)]
pub ghost enum StmtView {
    Declaration {
        mutable: bool,
        name: Seq<char>,
        data_type: Option<DataTypeView>,
        value: Option<Box<StmtView>>,
    },
    Block { body: Seq<StmtView> },
    IfStatement { condition: Box<StmtView>, block: Box<StmtView>, else_block: Option<Box<StmtView>> },
    FunctionDeclaration {
        annotations: Seq<AnnotationView>,
        name: Seq<char>,
        params: Seq<ParamView>,
        return_type: DataTypeView,
        block: Box<StmtView>,
    },
    FunctionCall { name: Seq<char>, args: Seq<StmtView>, span: Span },
    BinaryExpression { left: Box<StmtView>, right: Box<StmtView>, operator: BinaryOperator },
    UnaryExpression { value: Box<StmtView>, operator: UnaryOperator },
    Identifier { name: Seq<char>, span: Span },
    Integer { value: u64, span: Span },
    Float { value: Seq<char>, span: Span },
    Boolean { value: bool, span: Span },
    String { value: Seq<char>, span: Span },
    ReturnStatement { value: Option<Box<StmtView>> },
    ImportModule { module: Seq<char>, alias: Option<Seq<char>> },
    ImportModules { modules: Seq<ImportItem> },
    ImportEverything { module: Seq<char> },
    ImportCollection { module: Seq<char>, items: Seq<ImportItem> },
}

/// The mathematical value of a [`Program`].
pub ghost struct ProgramView {
    pub imports: Seq<StmtView>,
    pub functions: Seq<StmtView>,
    pub body: Seq<StmtView>,
}

/// The value of an optional name.
pub open spec fn opt_name_view(name: Option<String>) -> Option<Seq<char>> {
    match name {
        Some(n) => Some(n@),
        None => None,
    }
}

/// The value of a list of import items.
pub open spec fn items_view(items: Seq<(String, Option<String>)>) -> Seq<ImportItem> {
    Seq::new(items.len(), |i: int| (items[i].0@, opt_name_view(items[i].1)))
}

/// The value of an optional type.
pub open spec fn opt_type_view(t: Option<DataType>) -> Option<DataTypeView> {
    match t {
        Some(d) => Some(d@),
        None => None,
    }
}

impl Stmt {
    /// The value of the node, by recursion over the tree.
    pub open spec fn model(&self) -> StmtView
        decreases self,
    {
        match self {
            Stmt::Declaration { mutable, name, data_type, value } => StmtView::Declaration {
                mutable: *mutable,
                name: name@,
                data_type: opt_type_view(*data_type),
                value: match value {
                    Some(v) => Some(Box::new(v.model())),
                    None => None,
                },
            },
            Stmt::Block { body } => StmtView::Block {
                body: Seq::new(
                    body.len() as nat,
                    |i: int|
                        if 0 <= i < body.len() {
                            body[i].model()
                        } else {
                            arbitrary()
                        },
                ),
            },
            Stmt::IfStatement { condition, block, else_block } => StmtView::IfStatement {
                condition: Box::new(condition.model()),
                block: Box::new(block.model()),
                else_block: match else_block {
                    Some(e) => Some(Box::new(e.model())),
                    None => None,
                },
            },
            Stmt::FunctionDeclaration {
                annotations,
                name,
                params,
                return_type,
                block,
            } => StmtView::FunctionDeclaration {
                annotations: Seq::new(
                    annotations.len() as nat,
                    |i: int|
                        if 0 <= i < annotations.len() {
                            annotations[i].model()
                        } else {
                            arbitrary()
                        },
                ),
                name: name@,
                params: Seq::new(
                    params.len() as nat,
                    |i: int|
                        if 0 <= i < params.len() {
                            params[i].model()
                        } else {
                            arbitrary()
                        },
                ),
                return_type: return_type@,
                block: Box::new(block.model()),
            },
            Stmt::FunctionCall { name, args, span } => StmtView::FunctionCall {
                name: name@,
                span: *span,
                args: Seq::new(
                    args.len() as nat,
                    |i: int|
                        if 0 <= i < args.len() {
                            args[i].model()
                        } else {
                            arbitrary()
                        },
                ),
            },
            Stmt::BinaryExpression { left, right, operator } => StmtView::BinaryExpression {
                left: Box::new(left.model()),
                right: Box::new(right.model()),
                operator: *operator,
            },
            Stmt::UnaryExpression { value, operator } => StmtView::UnaryExpression {
                value: Box::new(value.model()),
                operator: *operator,
            },
            Stmt::Identifier { name, span } => StmtView::Identifier { name: name@, span: *span },
            Stmt::Integer { value, span } => StmtView::Integer { value: *value, span: *span },
            Stmt::Float { value, span } => StmtView::Float { value: value@, span: *span },
            Stmt::Boolean { value, span } => StmtView::Boolean { value: *value, span: *span },
            Stmt::String { value, span } => StmtView::String { value: value@, span: *span },
            Stmt::ReturnStatement { value } => StmtView::ReturnStatement {
                value: match value {
                    Some(v) => Some(Box::new(v.model())),
                    None => None,
                },
            },
            Stmt::ImportModule { module, alias } => StmtView::ImportModule {
                module: module@,
                alias: opt_name_view(*alias),
            },
            Stmt::ImportModules { modules } => StmtView::ImportModules {
                modules: items_view(modules@),
            },
            Stmt::ImportEverything { module } => StmtView::ImportEverything { module: module@ },
            Stmt::ImportCollection { module, items } => StmtView::ImportCollection {
                module: module@,
                items: items_view(items@),
            },
        }
    }
}

impl FunctionParam {
    /// The value of the parameter.
    pub open spec fn model(&self) -> ParamView
        decreases self,
    {
        ParamView {
            name: self.name@,
            data_type: self.data_type@,
            default_value: match self.default_value {
                Some(v) => Some(Box::new(v.model())),
                None => None,
            },
        }
    }
}

impl Annotation {
    /// The value of the annotation.
    pub open spec fn model(&self) -> AnnotationView
        decreases self,
    {
        AnnotationView {
            name: self.name@,
            args: Seq::new(
                self.args.len() as nat,
                |i: int|
                    if 0 <= i < self.args.len() {
                        self.args[i].model()
                    } else {
                        arbitrary()
                    },
            ),
        }
    }
}

impl View for Stmt {
    type V = StmtView;

    open spec fn view(&self) -> StmtView {
        self.model()
    }
}

impl View for FunctionParam {
    type V = ParamView;

    open spec fn view(&self) -> ParamView {
        self.model()
    }
}

impl View for Annotation {
    type V = AnnotationView;

    open spec fn view(&self) -> AnnotationView {
        self.model()
    }
}

/// The values of a list of nodes, in order.
pub open spec fn stmts_view(v: Seq<Stmt>) -> Seq<StmtView> {
    Seq::new(v.len(), |i: int| v[i]@)
}

/// The values of a list of parameters, in order.
pub open spec fn params_view(v: Seq<FunctionParam>) -> Seq<ParamView> {
    Seq::new(v.len(), |i: int| v[i]@)
}

/// The values of a list of annotations, in order.
pub open spec fn annotations_view(v: Seq<Annotation>) -> Seq<AnnotationView> {
    Seq::new(v.len(), |i: int| v[i]@)
}

impl View for Program {
    type V = ProgramView;

    open spec fn view(&self) -> ProgramView {
        ProgramView {
            imports: stmts_view(self.imports@),
            functions: stmts_view(self.functions@),
            body: stmts_view(self.body@),
        }
    }
}

/// The value of a node, variant by variant, over the values of its parts.
pub broadcast proof fn lemma_stmt_view(s: &Stmt)
    ensures
        #![trigger s.model()]
        match s {
            Stmt::Block { body } => s@ == (StmtView::Block { body: stmts_view(body@) }),
            Stmt::FunctionCall { name, args, span } => s@ == (StmtView::FunctionCall {
                name: name@,
                args: stmts_view(args@),
                span: *span,
            }),
            Stmt::FunctionDeclaration { annotations, name, params, return_type, block } => s@ == (
            StmtView::FunctionDeclaration {
                annotations: annotations_view(annotations@),
                name: name@,
                params: params_view(params@),
                return_type: return_type@,
                block: Box::new(block@),
            }),
            _ => true,
        },
{
    match s {
        Stmt::Block { body } => {
            assert(s@->Block_body =~= stmts_view(body@));
        },
        Stmt::FunctionCall { name, args, .. } => {
            assert(s@->FunctionCall_args =~= stmts_view(args@));
        },
        Stmt::FunctionDeclaration { annotations, name, params, return_type, block } => {
            assert(s@->FunctionDeclaration_annotations =~= annotations_view(annotations@));
            assert(s@->FunctionDeclaration_params =~= params_view(params@));
        },
        _ => {},
    }
}

/// The value of an annotation over the values of its arguments.
pub broadcast proof fn lemma_annotation_view(a: &Annotation)
    ensures
        #![trigger a.model()]
        a@ == (AnnotationView { name: a.name@, args: stmts_view(a.args@) }),
{
    assert(a@.args =~= stmts_view(a.args@));
}

/// The value of a parameter over the values of its parts.
pub broadcast proof fn lemma_param_view(p: &FunctionParam)
    ensures
        #![trigger p.model()]
        p@ == (ParamView {
            name: p.name@,
            data_type: p.data_type@,
            default_value: match p.default_value {
                Some(v) => Some(Box::new(v@)),
                None => None,
            },
        }),
{
}

fn copy_items(items: &Vec<(String, Option<String>)>) -> (r: Vec<(String, Option<String>)>)
    ensures
        items_view(r@) == items_view(items@),
{
    let mut out: Vec<(String, Option<String>)> = Vec::new();
    let mut i: usize = 0;
    while i < items.len()
        invariant
            i <= items.len(),
            out.len() == i,
            forall|j: int| 0 <= j < i ==> out[j].0@ == items[j].0@ && opt_name_view(out[j].1)
                == opt_name_view(items[j].1),
        decreases items.len() - i,
    {
        let alias = match &items[i].1 {
            Some(a) => Some(a.clone()),
            None => None,
        };
        out.push((items[i].0.clone(), alias));
        i = i + 1;
    }
    assert(items_view(out@) =~= items_view(items@));
    out
}

fn copy_stmts(v: &Vec<Stmt>) -> (r: Vec<Stmt>)
    ensures
        stmts_view(r@) == stmts_view(v@),
    decreases v, 0nat,
{
    let mut out: Vec<Stmt> = Vec::new();
    let mut i: usize = 0;
    while i < v.len()
        invariant
            i <= v.len(),
            out.len() == i,
            forall|j: int| 0 <= j < i ==> out[j]@ == v[j]@,
        decreases v.len() - i,
    {
        out.push(v[i].duplicate());
        i = i + 1;
    }
    assert(stmts_view(out@) =~= stmts_view(v@));
    out
}

fn copy_boxed(v: &Option<Box<Stmt>>) -> (r: Option<Box<Stmt>>)
    ensures
        match (r, *v) {
            (Some(a), Some(b)) => a@ == b@,
            (None, None) => true,
            _ => false,
        },
    decreases v, 0nat,
{
    match v {
        Some(b) => Some(Box::new(b.duplicate())),
        None => None,
    }
}

impl Stmt {
    /// A copy of the node with everything below it.
    pub fn duplicate(&self) -> (r: Stmt)
        ensures
            r@ == self@,
        decreases self, 1nat,
    {
        let r = match self {
            Stmt::Declaration { mutable, name, data_type, value } => Stmt::Declaration {
                mutable: *mutable,
                name: name.clone(),
                data_type: match data_type {
                    Some(t) => Some(t.clone()),
                    None => None,
                },
                value: copy_boxed(value),
            },
            Stmt::Block { body } => Stmt::Block { body: copy_stmts(body) },
            Stmt::IfStatement { condition, block, else_block } => Stmt::IfStatement {
                condition: Box::new(condition.duplicate()),
                block: Box::new(block.duplicate()),
                else_block: copy_boxed(else_block),
            },
            Stmt::FunctionDeclaration { annotations, name, params, return_type, block } => {
                let mut notes: Vec<Annotation> = Vec::new();
                let mut i: usize = 0;
                while i < annotations.len()
                    invariant
                        i <= annotations.len(),
                        notes.len() == i,
                        forall|j: int| 0 <= j < i ==> notes[j]@ == annotations[j]@,
                        forall|j: int|
                            0 <= j < annotations.len() ==> decreases_to!(self => annotations[j]),
                    decreases annotations.len() - i,
                {
                    let note = Annotation {
                        name: annotations[i].name.clone(),
                        args: copy_stmts(&annotations[i].args),
                    };
                    proof {
                        lemma_annotation_view(&note);
                        lemma_annotation_view(&annotations[i as int]);
                    }
                    notes.push(note);
                    i = i + 1;
                }
                let mut copies: Vec<FunctionParam> = Vec::new();
                let mut k: usize = 0;
                while k < params.len()
                    invariant
                        k <= params.len(),
                        copies.len() == k,
                        forall|j: int| 0 <= j < k ==> copies[j]@ == params[j]@,
                        forall|j: int| 0 <= j < params.len() ==> decreases_to!(self => params[j]),
                    decreases params.len() - k,
                {
                    let param = FunctionParam {
                        name: params[k].name.clone(),
                        data_type: params[k].data_type.clone(),
                        default_value: copy_boxed(&params[k].default_value),
                    };
                    proof {
                        lemma_param_view(&param);
                        lemma_param_view(&params[k as int]);
                    }
                    copies.push(param);
                    k = k + 1;
                }
                assert(annotations_view(notes@) =~= annotations_view(annotations@));
                assert(params_view(copies@) =~= params_view(params@));
                Stmt::FunctionDeclaration {
                    annotations: notes,
                    name: name.clone(),
                    params: copies,
                    return_type: return_type.clone(),
                    block: Box::new(block.duplicate()),
                }
            },
            Stmt::FunctionCall { name, args, span } => Stmt::FunctionCall {
                name: name.clone(),
                args: copy_stmts(args),
                span: span.start..span.end,
            },
            Stmt::BinaryExpression { left, right, operator } => Stmt::BinaryExpression {
                left: Box::new(left.duplicate()),
                right: Box::new(right.duplicate()),
                operator: *operator,
            },
            Stmt::UnaryExpression { value, operator } => Stmt::UnaryExpression {
                value: Box::new(value.duplicate()),
                operator: *operator,
            },
            Stmt::Identifier { name, span } => Stmt::Identifier {
                name: name.clone(),
                span: span.start..span.end,
            },
            Stmt::Integer { value, span } => Stmt::Integer {
                value: *value,
                span: span.start..span.end,
            },
            Stmt::Float { value, span } => Stmt::Float {
                value: value.clone(),
                span: span.start..span.end,
            },
            Stmt::Boolean { value, span } => Stmt::Boolean {
                value: *value,
                span: span.start..span.end,
            },
            Stmt::String { value, span } => Stmt::String {
                value: value.clone(),
                span: span.start..span.end,
            },
            Stmt::ReturnStatement { value } => Stmt::ReturnStatement { value: copy_boxed(value) },
            Stmt::ImportModule { module, alias } => Stmt::ImportModule {
                module: module.clone(),
                alias: match alias {
                    Some(a) => Some(a.clone()),
                    None => None,
                },
            },
            Stmt::ImportModules { modules } => Stmt::ImportModules { modules: copy_items(modules) },
            Stmt::ImportEverything { module } => Stmt::ImportEverything { module: module.clone() },
            Stmt::ImportCollection { module, items } => Stmt::ImportCollection {
                module: module.clone(),
                items: copy_items(items),
            },
        };
        proof {
            lemma_stmt_view(&r);
            lemma_stmt_view(self);
        }
        r
    }
}

impl Clone for Stmt {
    fn clone(&self) -> (r: Self)
        ensures
            r@ == self@,
    {
        self.duplicate()
    }
}

impl Clone for FunctionParam {
    fn clone(&self) -> (r: Self)
        ensures
            r@ == self@,
    {
        let r = FunctionParam {
            name: self.name.clone(),
            data_type: self.data_type.clone(),
            default_value: copy_boxed(&self.default_value),
        };
        proof {
            lemma_param_view(&r);
            lemma_param_view(self);
        }
        r
    }
}

impl Clone for Annotation {
    fn clone(&self) -> (r: Self)
        ensures
            r@ == self@,
    {
        let r = Annotation { name: self.name.clone(), args: copy_stmts(&self.args) };
        proof {
            lemma_annotation_view(&r);
            lemma_annotation_view(self);
        }
        r
    }
}

impl Clone for Program {
    fn clone(&self) -> (r: Self)
        ensures
            r@ == self@,
    {
        Program {
            imports: copy_stmts(&self.imports),
            functions: copy_stmts(&self.functions),
            body: copy_stmts(&self.body),
        }
    }
}

} // verus!
