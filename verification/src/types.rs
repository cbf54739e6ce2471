//! The type model of the language.
use vstd::prelude::*;
use vstd::std_specs::cmp::PartialEqSpecImpl;
use crate::text::str_eq;

verus! {

/// A data type of the language. `Void` is the default.
#[derive(Debug, Eq, Hash)]
pub enum DataType {
    Int32,
    Float32,
    String,
    Boolean,
    Void,
    Custom(String),
}

/// The mathematical value of a [`DataType`].
pub ghost enum DataTypeView {
    Int32,
    Float32,
    String,
    Boolean,
    Void,
    Custom(Seq<char>),
}

impl View for DataType {
    type V = DataTypeView;

    open spec fn view(&self) -> DataTypeView {
        match self {
            DataType::Int32 => DataTypeView::Int32,
            DataType::Float32 => DataTypeView::Float32,
            DataType::String => DataTypeView::String,
            DataType::Boolean => DataTypeView::Boolean,
            DataType::Void => DataTypeView::Void,
            DataType::Custom(name) => DataTypeView::Custom(name@),
        }
    }
}

impl Default for DataType {
    fn default() -> (r: Self)
        ensures
            r == DataType::Void,
    {
        DataType::Void
    }
}

impl Clone for DataType {
    fn clone(&self) -> (r: Self)
        ensures
            r == *self,
    {
        match self {
            DataType::Int32 => DataType::Int32,
            DataType::Float32 => DataType::Float32,
            DataType::String => DataType::String,
            DataType::Boolean => DataType::Boolean,
            DataType::Void => DataType::Void,
            DataType::Custom(name) => DataType::Custom(name.clone()),
        }
    }
}

impl PartialEq for DataType {
    fn eq(&self, other: &Self) -> (r: bool) {
        match (self, other) {
            (DataType::Int32, DataType::Int32) => true,
            (DataType::Float32, DataType::Float32) => true,
            (DataType::String, DataType::String) => true,
            (DataType::Boolean, DataType::Boolean) => true,
            (DataType::Void, DataType::Void) => true,
            (DataType::Custom(a), DataType::Custom(b)) => str_eq(a.as_str(), b.as_str()),
            _ => false,
        }
    }
}

impl PartialEqSpecImpl for DataType {
    open spec fn obeys_eq_spec() -> bool {
        true
    }

    open spec fn eq_spec(&self, other: &Self) -> bool {
        self@ == other@
    }
}

/// The name under which a type is written in source text and in diagnostics.
pub open spec fn name_of_type(t: DataTypeView) -> Seq<char> {
    match t {
        DataTypeView::Int32 => "Int32"@,
        DataTypeView::Float32 => "Float32"@,
        DataTypeView::String => "String"@,
        DataTypeView::Boolean => "Boolean"@,
        DataTypeView::Void => "void"@,
        DataTypeView::Custom(name) => name,
    }
}

/// The type that a type name stands for: one of the built-in names, or a
/// custom type of that name.
pub open spec fn type_of_name(name: Seq<char>) -> DataTypeView {
    if name == "Int32"@ {
        DataTypeView::Int32
    } else if name == "Float32"@ {
        DataTypeView::Float32
    } else if name == "String"@ {
        DataTypeView::String
    } else if name == "Boolean"@ {
        DataTypeView::Boolean
    } else if name == "void"@ {
        DataTypeView::Void
    } else {
        DataTypeView::Custom(name)
    }
}

impl DataType {
    /// The name of the type as text.
    pub fn name(&self) -> (r: String)
        ensures
            r@ == name_of_type(self@),
    {
        match self {
            DataType::Int32 => "Int32".to_owned(),
            DataType::Float32 => "Float32".to_owned(),
            DataType::String => "String".to_owned(),
            DataType::Boolean => "Boolean".to_owned(),
            DataType::Void => "void".to_owned(),
            DataType::Custom(name) => name.clone(),
        }
    }

    /// Resolves a type name.
    pub fn from_name(name: String) -> (r: DataType)
        ensures
            r@ == type_of_name(name@),
    {
        if str_eq(name.as_str(), "Int32") {
            DataType::Int32
        } else if str_eq(name.as_str(), "Float32") {
            DataType::Float32
        } else if str_eq(name.as_str(), "String") {
            DataType::String
        } else if str_eq(name.as_str(), "Boolean") {
            DataType::Boolean
        } else if str_eq(name.as_str(), "void") {
            DataType::Void
        } else {
            DataType::Custom(name)
        }
    }
}

} // verus!
