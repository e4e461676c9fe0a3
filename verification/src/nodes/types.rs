//! The types an expression can have.

use vstd::prelude::*;

verus! {

/// A primitive type, with the literal value it was read from. The two
/// floating-point variants hold the value as its IEEE 754 bit pattern.
#[derive(Debug, PartialEq)]
pub enum Type {
    Int16(i16),
    Int32(i32),
    Int64(i64),
    Int128(i128),
    Float32(u32),
    Float64(u64),
    String(String),
}

impl Clone for Type {
    fn clone(&self) -> (copy: Type)
        ensures
            copy == *self,
    {
        match self {
            Type::Int16(v) => Type::Int16(*v),
            Type::Int32(v) => Type::Int32(*v),
            Type::Int64(v) => Type::Int64(*v),
            Type::Int128(v) => Type::Int128(*v),
            Type::Float32(bits) => Type::Float32(*bits),
            Type::Float64(bits) => Type::Float64(*bits),
            Type::String(s) => Type::String(s.clone()),
        }
    }
}

} // verus!
