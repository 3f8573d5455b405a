use vstd::prelude::*;
use crate::text::{decimal_text, decimal_text_exec};

verus! {

/// Field and parameter types of the language.
///
/// The bounds of a bounded float are kept as the decimal text they were
/// written with (digits, optionally followed by `.` and more digits).
#[derive(Debug, PartialEq)]
pub enum Type {
    String,
    Int,
    Float,
    BoundedFloat { min: std::string::String, max: std::string::String },
    Bool,
    Timestamp,
    Optional(Box<Type>),
    Array(Box<Type>),
    Named(std::string::String),
}

/// Mathematical model of a [`Type`]: names and bounds become character sequences.
pub enum TypeV {
    String,
    Int,
    Float,
    BoundedFloat { min: Seq<char>, max: Seq<char> },
    Bool,
    Timestamp,
    Optional(Box<TypeV>),
    Array(Box<TypeV>),
    Named(Seq<char>),
}

pub open spec fn type_view(t: Type) -> TypeV
    decreases t,
{
    match t {
        Type::String => TypeV::String,
        Type::Int => TypeV::Int,
        Type::Float => TypeV::Float,
        Type::BoundedFloat { min, max } => TypeV::BoundedFloat { min: min@, max: max@ },
        Type::Bool => TypeV::Bool,
        Type::Timestamp => TypeV::Timestamp,
        Type::Optional(inner) => TypeV::Optional(Box::new(type_view(*inner))),
        Type::Array(inner) => TypeV::Array(Box::new(type_view(*inner))),
        Type::Named(n) => TypeV::Named(n@),
    }
}

impl View for Type {
    type V = TypeV;

    open spec fn view(&self) -> TypeV {
        type_view(*self)
    }
}

/// A copy of `t` with the same model.
pub fn clone_type(t: &Type) -> (r: Type)
    ensures
        r@ == t@,
    decreases t,
{
    match t {
        Type::String => Type::String,
        Type::Int => Type::Int,
        Type::Float => Type::Float,
        Type::BoundedFloat { min, max } => Type::BoundedFloat { min: min.clone(), max: max.clone() },
        Type::Bool => Type::Bool,
        Type::Timestamp => Type::Timestamp,
        Type::Optional(inner) => Type::Optional(Box::new(clone_type(&**inner))),
        Type::Array(inner) => Type::Array(Box::new(clone_type(&**inner))),
        Type::Named(n) => Type::Named(n.clone()),
    }
}

impl Clone for Type {
    fn clone(&self) -> (r: Self)
        ensures
            r@ == self@,
    {
        clone_type(self)
    }
}

impl Type {
    /// True for `int`, `float` and bounded floats.
    pub fn is_numeric(&self) -> (r: bool)
        ensures
            r <==> (self is Int || self is Float || self is BoundedFloat),
    {
        match self {
            Type::Int | Type::Float | Type::BoundedFloat { .. } => true,
            _ => false,
        }
    }

    /// True for `T?`.
    pub fn is_optional(&self) -> (r: bool)
        ensures
            r <==> self is Optional,
    {
        match self {
            Type::Optional(_) => true,
            _ => false,
        }
    }

    /// The element type of `T?` and `T[]`; any other type is its own inner type.
    pub fn inner_type(&self) -> (r: &Type)
        ensures
            match self {
                Type::Optional(inner) => *r == **inner,
                Type::Array(inner) => *r == **inner,
                _ => *r == *self,
            },
    {
        match self {
            Type::Optional(inner) => &**inner,
            Type::Array(inner) => &**inner,
            _ => self,
        }
    }
}


/// The text of a type as it is written in source, with the bounds of a bounded
/// float in their shortest decimal spelling.
pub open spec fn type_text(t: TypeV) -> Seq<char>
    decreases t,
{
    match t {
        TypeV::String => "string"@,
        TypeV::Int => "int"@,
        TypeV::Float => "float"@,
        TypeV::BoundedFloat { min, max } => "float["@ + decimal_text(min) + ","@ + decimal_text(max)
            + "]"@,
        TypeV::Bool => "bool"@,
        TypeV::Timestamp => "timestamp"@,
        TypeV::Optional(inner) => type_text(*inner) + "?"@,
        TypeV::Array(inner) => type_text(*inner) + "[]"@,
        TypeV::Named(n) => n,
    }
}

/// Whether two types are the same (bounds compared as written).
pub fn type_eq(a: &Type, b: &Type) -> (r: bool)
    ensures
        r == (a@ == b@),
    decreases a,
{
    match (a, b) {
        (Type::String, Type::String) => true,
        (Type::Int, Type::Int) => true,
        (Type::Float, Type::Float) => true,
        (Type::BoundedFloat { min: a1, max: a2 }, Type::BoundedFloat { min: b1, max: b2 }) => {
            *a1 == *b1 && *a2 == *b2
        },
        (Type::Bool, Type::Bool) => true,
        (Type::Timestamp, Type::Timestamp) => true,
        (Type::Optional(x), Type::Optional(y)) => type_eq(&**x, &**y),
        (Type::Array(x), Type::Array(y)) => type_eq(&**x, &**y),
        (Type::Named(x), Type::Named(y)) => *x == *y,
        _ => false,
    }
}

impl Type {
    /// The type as it is written in source (see [`type_text`]).
    pub fn to_string(&self) -> (r: std::string::String)
        ensures
            r@ == type_text(self@),
        decreases self,
    {
        match self {
            Type::String => std::string::String::from_str("string"),
            Type::Int => std::string::String::from_str("int"),
            Type::Float => std::string::String::from_str("float"),
            Type::BoundedFloat { min, max } => {
                let mut s = std::string::String::from_str("float[");
                let a = decimal_text_exec(min);
                let b = decimal_text_exec(max);
                s.append(a.as_str());
                s.append(",");
                s.append(b.as_str());
                s.append("]");
                s
            },
            Type::Bool => std::string::String::from_str("bool"),
            Type::Timestamp => std::string::String::from_str("timestamp"),
            Type::Optional(inner) => {
                let mut s = inner.to_string();
                s.append("?");
                s
            },
            Type::Array(inner) => {
                let mut s = inner.to_string();
                s.append("[]");
                s
            },
            Type::Named(n) => n.clone(),
        }
    }
}

} // verus!
