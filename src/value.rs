use vstd::prelude::*;

use crate::counter::IndexedCounter;

verus! {

/// A value of the language.
///
/// Arrays, dictionaries and objects are shared mutable containers: the value
/// holds a handle into the machine's heap, so copying the value copies the
/// reference and every copy sees the same storage. A class is named; its
/// template lives in the program. A float is carried as its decimal text:
/// arithmetic on floats is done by the embedder.
#[derive(Clone, Debug, PartialEq)]
pub enum Value {
    Null,
    Integer(i32),
    Float(String),
    Bool(bool),
    String(String),
    Array(usize),
    Dictionary(usize),
    Object(usize),
    Class(String),
    FunctionPointer(usize),
    FunctionRef(String),
    Counter(IndexedCounter),
}

/// Whether two values are the same: strings by their text, containers by the
/// storage they refer to, everything else by its payload.
pub open spec fn same(a: Value, b: Value) -> bool {
    match a {
        Value::Null => b is Null,
        Value::Integer(x) => b is Integer && b->Integer_0 == x,
        Value::Float(x) => b is Float && b->Float_0@ == x@,
        Value::Bool(x) => b is Bool && b->Bool_0 == x,
        Value::String(x) => b is String && b->String_0@ == x@,
        Value::Array(x) => b is Array && b->Array_0 == x,
        Value::Dictionary(x) => b is Dictionary && b->Dictionary_0 == x,
        Value::Object(x) => b is Object && b->Object_0 == x,
        Value::Class(x) => b is Class && b->Class_0@ == x@,
        Value::FunctionPointer(x) => b is FunctionPointer && b->FunctionPointer_0 == x,
        Value::FunctionRef(x) => b is FunctionRef && b->FunctionRef_0@ == x@,
        Value::Counter(x) => b is Counter && b->Counter_0 == x,
    }
}

impl Value {
    /// A copy of the value; a container's copy refers to the same storage.
    pub fn duplicate(&self) -> (r: Value)
        ensures
            r == *self,
    {
        match self {
            Value::Null => Value::Null,
            Value::Integer(i) => Value::Integer(*i),
            Value::Float(s) => Value::Float(s.clone()),
            Value::Bool(b) => Value::Bool(*b),
            Value::String(s) => Value::String(s.clone()),
            Value::Array(h) => Value::Array(*h),
            Value::Dictionary(h) => Value::Dictionary(*h),
            Value::Object(h) => Value::Object(*h),
            Value::Class(s) => Value::Class(s.clone()),
            Value::FunctionPointer(p) => Value::FunctionPointer(*p),
            Value::FunctionRef(s) => Value::FunctionRef(s.clone()),
            Value::Counter(c) => Value::Counter(*c),
        }
    }

    pub fn is_float(&self) -> (r: bool)
        ensures
            r == (*self is Float),
    {
        matches!(self, Value::Float(_))
    }

    /// Equality of the language: structural for scalars, identity for
    /// containers.
    pub fn same_as(&self, other: &Value) -> (r: bool)
        ensures
            r == same(*self, *other),
    {
        match self {
            Value::Null => if let Value::Null = other { true } else { false },
            Value::Integer(x) => if let Value::Integer(y) = other { *x == *y } else { false },
            Value::Float(x) => if let Value::Float(y) = other { *x == *y } else { false },
            Value::Bool(x) => if let Value::Bool(y) = other { *x == *y } else { false },
            Value::String(x) => if let Value::String(y) = other { *x == *y } else { false },
            Value::Array(x) => if let Value::Array(y) = other { *x == *y } else { false },
            Value::Dictionary(x) => if let Value::Dictionary(y) = other { *x == *y } else { false },
            Value::Object(x) => if let Value::Object(y) = other { *x == *y } else { false },
            Value::Class(x) => if let Value::Class(y) = other { *x == *y } else { false },
            Value::FunctionPointer(x) => if let Value::FunctionPointer(y) = other { *x == *y } else { false },
            Value::FunctionRef(x) => if let Value::FunctionRef(y) = other { *x == *y } else { false },
            Value::Counter(x) => if let Value::Counter(y) = other { *x == *y } else { false },
        }
    }
}

} // verus!
