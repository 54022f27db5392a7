//! The values of the scratch store.
//!
//! A registry keeps, beside its handlers, a small store of primitive values
//! that the application stashes under a key and reads back later.

use vstd::prelude::*;
use vstd::std_specs::cmp::PartialEqSpecImpl;

verus! {

/// A value of the scratch store: one of a closed set of primitive kinds.
///
/// The two floating-point kinds hold the IEEE 754 bit pattern of the number.
#[derive(Debug)]
pub enum UiValue {
    Bool(bool),
    I32(i32),
    I64(i64),
    U32(u32),
    U64(u64),
    F32Bits(u32),
    F64Bits(u64),
    Text(String),
}

impl Clone for UiValue {
    fn clone(&self) -> (copy: Self)
        ensures
            copy == *self,
    {
        match self {
            UiValue::Bool(v) => UiValue::Bool(*v),
            UiValue::I32(v) => UiValue::I32(*v),
            UiValue::I64(v) => UiValue::I64(*v),
            UiValue::U32(v) => UiValue::U32(*v),
            UiValue::U64(v) => UiValue::U64(*v),
            UiValue::F32Bits(v) => UiValue::F32Bits(*v),
            UiValue::F64Bits(v) => UiValue::F64Bits(*v),
            UiValue::Text(v) => UiValue::Text(v.clone()),
        }
    }
}

impl PartialEq for UiValue {
    /// Two values are equal when they are of the same kind and hold the
    /// same content.
    fn eq(&self, other: &Self) -> (equal: bool) {
        match (self, other) {
            (UiValue::Bool(a), UiValue::Bool(b)) => *a == *b,
            (UiValue::I32(a), UiValue::I32(b)) => *a == *b,
            (UiValue::I64(a), UiValue::I64(b)) => *a == *b,
            (UiValue::U32(a), UiValue::U32(b)) => *a == *b,
            (UiValue::U64(a), UiValue::U64(b)) => *a == *b,
            (UiValue::F32Bits(a), UiValue::F32Bits(b)) => *a == *b,
            (UiValue::F64Bits(a), UiValue::F64Bits(b)) => *a == *b,
            (UiValue::Text(a), UiValue::Text(b)) => *a == *b,
            _ => false,
        }
    }
}

impl PartialEqSpecImpl for UiValue {
    open spec fn obeys_eq_spec() -> bool {
        true
    }

    open spec fn eq_spec(&self, other: &Self) -> bool {
        match (self, other) {
            (UiValue::Bool(a), UiValue::Bool(b)) => a == b,
            (UiValue::I32(a), UiValue::I32(b)) => a == b,
            (UiValue::I64(a), UiValue::I64(b)) => a == b,
            (UiValue::U32(a), UiValue::U32(b)) => a == b,
            (UiValue::U64(a), UiValue::U64(b)) => a == b,
            (UiValue::F32Bits(a), UiValue::F32Bits(b)) => a == b,
            (UiValue::F64Bits(a), UiValue::F64Bits(b)) => a == b,
            (UiValue::Text(a), UiValue::Text(b)) => a@ == b@,
            _ => false,
        }
    }
}

} // verus!
