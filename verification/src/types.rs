//! Value types of the intermediate representation and of the machine.

use vstd::prelude::*;

verus! {

/// Type of a value of the intermediate representation.
#[allow(non_camel_case_types)]
#[derive(Clone, Copy, Debug, PartialEq, Eq, Hash, Structural)]
pub enum Type {
    Void,
    i1,
    i8,
    i32,
    i64,
    F64,
    Pointer,
}

/// Machine value type: what a value is to the target.
#[allow(non_camel_case_types)]
#[derive(Clone, Copy, Debug, PartialEq, Eq, Hash, Structural)]
pub enum MVType {
    Void,
    i1,
    i8,
    i32,
    i64,
    F64,
}

impl Type {
    /// The machine value type of this type; a pointer is a 64-bit integer.
    pub open spec fn mvty(self) -> MVType {
        match self {
            Type::Void => MVType::Void,
            Type::i1 => MVType::i1,
            Type::i8 => MVType::i8,
            Type::i32 => MVType::i32,
            Type::i64 => MVType::i64,
            Type::F64 => MVType::F64,
            Type::Pointer => MVType::i64,
        }
    }

    pub fn to_mvty(&self) -> (r: MVType)
        ensures
            r == self.mvty(),
    {
        match self {
            Type::Void => MVType::Void,
            Type::i1 => MVType::i1,
            Type::i8 => MVType::i8,
            Type::i32 => MVType::i32,
            Type::i64 => MVType::i64,
            Type::F64 => MVType::F64,
            Type::Pointer => MVType::i64,
        }
    }
}

} // verus!
