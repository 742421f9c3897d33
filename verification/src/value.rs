//! Runtime field values and their type tags.

use vstd::prelude::*;

use crate::chain::Instance;

verus! {

/// The value type a slot is declared with. The tag determines the zero
/// value a standard-default field resolves to when it is left unsupplied.
#[derive(Clone, Copy, Debug, PartialEq, Eq, Structural)]
pub enum TypeTag {
    Unit,
    Bool,
    Int,
    Str,
    Pair,
}

/// A field value. Every slot of a bag eventually holds one of these.
/// `Obj` carries a nested chain-built instance, which lets a field of one
/// instance hold another constructed value; dotted property paths descend
/// through it.
#[derive(Debug, PartialEq, Eq)]
pub enum Value {
    Unit,
    Bool(bool),
    Int(i64),
    Str(String),
    Pair(i64, i64),
    Obj(Box<Instance>),
}

/// A named value: one resolved field of an instance.
#[derive(Debug, PartialEq, Eq)]
pub struct Entry {
    pub name: String,
    pub value: Value,
}

/// Whether `v` is the zero value of the type `t` names.
pub open spec fn is_zero_of(t: TypeTag, v: Value) -> bool {
    match t {
        TypeTag::Unit => v == Value::Unit,
        TypeTag::Bool => v == Value::Bool(false),
        TypeTag::Int => v == Value::Int(0i64),
        TypeTag::Str => v matches Value::Str(s) && s@ == Seq::<char>::empty(),
        TypeTag::Pair => v == Value::Pair(0i64, 0i64),
    }
}

/// The zero value of a type: what a standard-default field resolves to.
pub fn zero_value(t: TypeTag) -> (r: Value)
    ensures
        is_zero_of(t, r),
{
    match t {
        TypeTag::Unit => Value::Unit,
        TypeTag::Bool => Value::Bool(false),
        TypeTag::Int => Value::Int(0i64),
        TypeTag::Str => Value::Str(String::new()),
        TypeTag::Pair => Value::Pair(0i64, 0i64),
    }
}

/// Conversion of a plain host value into the engine's value type, used
/// when a caller supplies a field.
pub trait New<T>: Sized {
    /// The value the conversion yields.
    spec fn new_spec(from: T) -> Self;

    /// Wraps `from` as an engine value.
    fn new(from: T) -> (r: Self)
        ensures
            r == Self::new_spec(from),
    ;
}

impl New<i64> for Value {
    open spec fn new_spec(from: i64) -> Value {
        Value::Int(from)
    }

    fn new(from: i64) -> Value {
        Value::Int(from)
    }
}

impl New<bool> for Value {
    open spec fn new_spec(from: bool) -> Value {
        Value::Bool(from)
    }

    fn new(from: bool) -> Value {
        Value::Bool(from)
    }
}

impl New<String> for Value {
    open spec fn new_spec(from: String) -> Value {
        Value::Str(from)
    }

    fn new(from: String) -> Value {
        Value::Str(from)
    }
}

impl New<(i64, i64)> for Value {
    open spec fn new_spec(from: (i64, i64)) -> Value {
        Value::Pair(from.0, from.1)
    }

    fn new(from: (i64, i64)) -> Value {
        Value::Pair(from.0, from.1)
    }
}

} // verus!
