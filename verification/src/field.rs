//! Field identities: name, value type, and resolution policy.

use vstd::prelude::*;

use crate::value::{is_zero_of, zero_value, TypeTag, Value};

verus! {

/// How a field resolves when the caller does not supply it.
#[derive(Debug, PartialEq, Eq)]
pub enum Policy {
    /// The field must be supplied; resolution fails otherwise.
    Required,
    /// The field falls back to its type's zero value.
    StandardDefault,
    /// The field falls back to a fixed value given at declaration.
    FixedDefault(Value),
    /// The field is never externally assignable; its value is injected
    /// directly during construction, invisible to callers.
    Skip(Value),
}

/// One field of a level: its name, its value type, and its policy.
#[derive(Debug, PartialEq, Eq)]
pub struct Field {
    pub name: String,
    pub tag: TypeTag,
    pub policy: Policy,
}

impl Field {
    /// Declares a field.
    pub fn new(name: String, tag: TypeTag, policy: Policy) -> (r: Field)
        ensures
            r == (Field { name, tag, policy }),
    {
        Field { name, tag, policy }
    }

    /// Whether this field is injected during construction rather than
    /// placed in the externally assignable bag.
    pub open spec fn is_skip(&self) -> bool {
        self.policy matches Policy::Skip(_)
    }

    /// Whether this field must be supplied by the caller.
    pub open spec fn is_required(&self) -> bool {
        self.policy matches Policy::Required
    }

    /// Runtime test of `is_skip`.
    pub fn skipped(&self) -> (r: bool)
        ensures
            r == self.is_skip(),
    {
        match self.policy {
            Policy::Skip(_) => true,
            _ => false,
        }
    }

    /// Runtime test of `is_required`.
    pub fn required(&self) -> (r: bool)
        ensures
            r == self.is_required(),
    {
        match self.policy {
            Policy::Required => true,
            _ => false,
        }
    }

    /// The value this field falls back to when it is left unsupplied:
    /// its type's zero value, its fixed expression, or its injected skip
    /// value. A required field falls back to nothing.
    pub fn default_value(self) -> (r: Option<Value>)
        ensures
            match r {
                None => self.is_required(),
                Some(v) => !self.is_required() && resolves_default(self, v),
            },
    {
        match self.policy {
            Policy::Required => None,
            Policy::StandardDefault => Some(zero_value(self.tag)),
            Policy::FixedDefault(e) => Some(e),
            Policy::Skip(e) => Some(e),
        }
    }
}

/// Whether `v` is a value the field may take when it is left unsupplied:
/// its fixed default, its type's zero value, or its injected skip value.
/// A required field has no such value.
pub open spec fn resolves_default(f: Field, v: Value) -> bool {
    match f.policy {
        Policy::Required => false,
        Policy::StandardDefault => is_zero_of(f.tag, v),
        Policy::FixedDefault(e) => v == e,
        Policy::Skip(e) => v == e,
    }
}

} // verus!
