//! The diagnostics of semantic analysis.
use vstd::prelude::*;
use vstd::string::StringExecFns;
use crate::text::{concat3, decimal, decimal_string};
use crate::types::{name_of_type, DataType, DataTypeView};

verus! {

/// A semantic error. Analysis records it and goes on.
#[derive(Debug, PartialEq, Eq, Hash)]
pub enum SematicError {
    /// A call names a function that is not declared.
    FunctionNotFound(String),
    /// A call passes another number of arguments than the function takes:
    /// the function, the number it takes, the number given.
    FunctionCallArgumentCountMismatch(String, usize, usize),
    /// An argument of a call has another type than its parameter: the
    /// function, the argument's position counted from one, the parameter's
    /// type, the argument's type.
    FunctionCallArgumentMismatch(String, usize, DataType, DataType),
    /// A name is used that no enclosing scope binds.
    VariableNotFound(String),
    /// Two types that must agree differ.
    TypeMismatch(DataType, DataType),
    /// A declaration gives neither a type nor a value.
    NoTypeOrValueProvided,
}

/// A semantic warning. It never blocks compilation.
#[derive(Debug, PartialEq, Eq, Hash)]
pub enum SematicWarning {
    /// A variable is declared and never read.
    UnusedVariable(String),
}

/// The mathematical value of a [`SematicError`].
pub ghost enum SematicErrorView {
    FunctionNotFound(Seq<char>),
    FunctionCallArgumentCountMismatch(Seq<char>, nat, nat),
    FunctionCallArgumentMismatch(Seq<char>, nat, DataTypeView, DataTypeView),
    VariableNotFound(Seq<char>),
    TypeMismatch(DataTypeView, DataTypeView),
    NoTypeOrValueProvided,
}

/// The mathematical value of a [`SematicWarning`].
pub ghost enum SematicWarningView {
    UnusedVariable(Seq<char>),
}

impl View for SematicError {
    type V = SematicErrorView;

    open spec fn view(&self) -> SematicErrorView {
        match self {
            SematicError::FunctionNotFound(name) => SematicErrorView::FunctionNotFound(name@),
            SematicError::FunctionCallArgumentCountMismatch(name, takes, given) =>
                SematicErrorView::FunctionCallArgumentCountMismatch(
                name@,
                *takes as nat,
                *given as nat,
            ),
            SematicError::FunctionCallArgumentMismatch(name, position, expected, found) =>
                SematicErrorView::FunctionCallArgumentMismatch(
                name@,
                *position as nat,
                expected@,
                found@,
            ),
            SematicError::VariableNotFound(name) => SematicErrorView::VariableNotFound(name@),
            SematicError::TypeMismatch(left, right) => SematicErrorView::TypeMismatch(
                left@,
                right@,
            ),
            SematicError::NoTypeOrValueProvided => SematicErrorView::NoTypeOrValueProvided,
        }
    }
}

impl View for SematicWarning {
    type V = SematicWarningView;

    open spec fn view(&self) -> SematicWarningView {
        match self {
            SematicWarning::UnusedVariable(name) => SematicWarningView::UnusedVariable(name@),
        }
    }
}

impl Clone for SematicError {
    fn clone(&self) -> (r: Self)
        ensures
            r == *self,
    {
        match self {
            SematicError::FunctionNotFound(name) => SematicError::FunctionNotFound(name.clone()),
            SematicError::FunctionCallArgumentCountMismatch(name, takes, given) =>
                SematicError::FunctionCallArgumentCountMismatch(name.clone(), *takes, *given),
            SematicError::FunctionCallArgumentMismatch(name, position, expected, found) =>
                SematicError::FunctionCallArgumentMismatch(
                name.clone(),
                *position,
                expected.clone(),
                found.clone(),
            ),
            SematicError::VariableNotFound(name) => SematicError::VariableNotFound(name.clone()),
            SematicError::TypeMismatch(left, right) => SematicError::TypeMismatch(
                left.clone(),
                right.clone(),
            ),
            SematicError::NoTypeOrValueProvided => SematicError::NoTypeOrValueProvided,
        }
    }
}

impl Clone for SematicWarning {
    fn clone(&self) -> (r: Self)
        ensures
            r == *self,
    {
        match self {
            SematicWarning::UnusedVariable(name) => SematicWarning::UnusedVariable(name.clone()),
        }
    }
}

/// The text of an error.
pub open spec fn error_message(e: SematicErrorView) -> Seq<char> {
    match e {
        SematicErrorView::FunctionNotFound(name) => "Function '"@ + name + "' not found"@,
        SematicErrorView::FunctionCallArgumentCountMismatch(name, takes, given) => "Function '"@
            + name + "' takes "@ + decimal(takes) + " arguments but "@ + decimal(given)
            + " were given"@,
        SematicErrorView::FunctionCallArgumentMismatch(name, position, expected, found) =>
            "Function call for '"@ + name + "' type mismatch. Expected '"@ + name_of_type(expected)
            + "' for argument "@ + decimal(position) + ", but found '"@ + name_of_type(found)
            + "'"@,
        SematicErrorView::VariableNotFound(name) => "Variable '"@ + name + "' not found"@,
        SematicErrorView::TypeMismatch(left, right) => "Type mismatch: '"@ + name_of_type(left)
            + "' != '"@ + name_of_type(right) + "'"@,
        SematicErrorView::NoTypeOrValueProvided =>
            "No type or value provided for variable declaration"@,
    }
}

/// The text of a warning.
pub open spec fn warning_message(w: SematicWarningView) -> Seq<char> {
    match w {
        SematicWarningView::UnusedVariable(name) => "Variable '"@ + name + "' is never used"@,
    }
}

impl SematicError {
    /// The error as a sentence for the user.
    pub fn message(&self) -> (r: String)
        ensures
            r@ == error_message(self@),
    {
        match self {
            SematicError::FunctionNotFound(name) => concat3(
                "Function '",
                name.as_str(),
                "' not found",
            ),
            SematicError::FunctionCallArgumentCountMismatch(name, takes, given) => {
                let mut s = concat3("Function '", name.as_str(), "' takes ");
                s.append(decimal_string(*takes).as_str());
                s.append(" arguments but ");
                s.append(decimal_string(*given).as_str());
                s.append(" were given");
                s
            },
            SematicError::FunctionCallArgumentMismatch(name, position, expected, found) => {
                let mut s = concat3(
                    "Function call for '",
                    name.as_str(),
                    "' type mismatch. Expected '",
                );
                s.append(expected.name().as_str());
                s.append("' for argument ");
                s.append(decimal_string(*position).as_str());
                s.append(", but found '");
                s.append(found.name().as_str());
                s.append("'");
                s
            },
            SematicError::VariableNotFound(name) => concat3(
                "Variable '",
                name.as_str(),
                "' not found",
            ),
            SematicError::TypeMismatch(left, right) => {
                let mut s = concat3("Type mismatch: '", left.name().as_str(), "' != '");
                s.append(right.name().as_str());
                s.append("'");
                s
            },
            SematicError::NoTypeOrValueProvided =>
                "No type or value provided for variable declaration".to_owned(),
        }
    }
}

impl SematicWarning {
    /// The warning as a sentence for the user.
    pub fn message(&self) -> (r: String)
        ensures
            r@ == warning_message(self@),
    {
        match self {
            SematicWarning::UnusedVariable(name) => concat3(
                "Variable '",
                name.as_str(),
                "' is never used",
            ),
        }
    }
}

/// The values of a list of errors, in order.
pub open spec fn errors_view(v: Seq<SematicError>) -> Seq<SematicErrorView> {
    Seq::new(v.len(), |i: int| v[i]@)
}

/// The values of a list of warnings, in order.
pub open spec fn warnings_view(v: Seq<SematicWarning>) -> Seq<SematicWarningView> {
    Seq::new(v.len(), |i: int| v[i]@)
}

} // verus!
