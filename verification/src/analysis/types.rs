//! Classification of value types.

use vstd::prelude::*;
use crate::syntax::ast::{type_eq, Type};

verus! {

impl Type {
    /// Whether this is one of the numeric types (integers and floats).
    pub fn is_numeric(&self) -> (b: bool)
        ensures
            b == (*self is I32 || *self is I64 || *self is U32 || *self is U64 || *self is F32
                || *self is F64),
    {
        match self {
            Type::I32 | Type::I64 | Type::U32 | Type::U64 | Type::F32 | Type::F64 => true,
            _ => false,
        }
    }

    /// Whether this is one of the integer types.
    pub fn is_integer(&self) -> (b: bool)
        ensures
            b == (*self is I32 || *self is I64 || *self is U32 || *self is U64),
    {
        match self {
            Type::I32 | Type::I64 | Type::U32 | Type::U64 => true,
            _ => false,
        }
    }

    /// Whether a value of `other` may stand where `self` is expected: only the same type.
    pub fn is_compatible_with(&self, other: &Type) -> (b: bool)
        ensures
            b == type_eq(*self, *other),
    {
        if self == other {
            return true;
        }
        false
    }
}

} // verus!
