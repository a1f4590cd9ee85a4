//! Run-time and compile-time data representation.
//!
//! Values are split into copyable values that live on the stack and
//! non-copy values that live on the heap or in the data section. A stack
//! entry is a `Data`: either a copy value or a reference. At compile time
//! references cannot exist, so the reference type is the uninhabited-in-use
//! `ComptimeRef`; at run time a `RuntimeRef` is an index into the heap or
//! the data section.

use vstd::prelude::*;

verus! {

/// Values that fit on the stack by value. A float is carried as the raw
/// bits of its IEEE-754 representation: the core never does float
/// arithmetic, it only stores and moves floats.
#[derive(Debug, Clone, Copy, PartialEq, Eq, Structural)]
pub enum CopyValue {
    Int(i64),
    Float(u64),
    Bool(bool),
    Unit,
}

/// A stack entry: either a copy value or a reference to a non-copy value.
#[derive(Debug, Clone, Copy, PartialEq, Eq, Structural)]
pub enum Data<RefT> {
    CopyVal(CopyValue),
    Ref(RefT),
}

/// References do not exist at compile time; this stands in for them.
#[derive(Debug, Clone, Copy, PartialEq, Eq, Structural)]
pub struct ComptimeRef;

/// A run-time reference: an index into the heap arena, or an index into
/// the immutable data section of the bytecode.
#[derive(Debug, Clone, Copy, PartialEq, Eq, Structural)]
pub enum RuntimeRef {
    HeapRef(usize),
    DataSecRef(usize),
}

/// A non-copy value. `RefT` is the reference representation used inside
/// aggregate values.
#[derive(Debug)]
pub enum Value<RefT> {
    Str(String),
    Keyword(String),
    Vec(Vec<Data<RefT>>),
    Dict(Vec<(Data<RefT>, Data<RefT>)>),
    SetOf(Vec<Data<RefT>>),
}

/// Model of a `Value`.
pub enum ValueV<RefT> {
    Str(Seq<char>),
    Keyword(Seq<char>),
    Vec(Seq<Data<RefT>>),
    Dict(Seq<(Data<RefT>, Data<RefT>)>),
    SetOf(Seq<Data<RefT>>),
}

impl<RefT> View for Value<RefT> {
    type V = ValueV<RefT>;

    open spec fn view(&self) -> ValueV<RefT> {
        match self {
            Value::Str(s) => ValueV::Str(s@),
            Value::Keyword(s) => ValueV::Keyword(s@),
            Value::Vec(v) => ValueV::Vec(v@),
            Value::Dict(v) => ValueV::Dict(v@),
            Value::SetOf(v) => ValueV::SetOf(v@),
        }
    }
}

/// A non-copy value as the compiler holds it.
pub type ComptimeValue = Value<ComptimeRef>;

/// A non-copy value as the virtual machine holds it.
pub type RuntimeValue = Value<RuntimeRef>;

/// A stack entry as the compiler models it.
pub type ComptimeData = Data<ComptimeRef>;

/// A stack entry as the virtual machine holds it.
pub type RuntimeData = Data<RuntimeRef>;

impl CopyValue {
    /// The stack type a copy value inhabits.
    pub open spec fn spec_stack_type(self) -> crate::types::StackType {
        match self {
            CopyValue::Int(_) => crate::types::StackType::Int,
            CopyValue::Float(_) => crate::types::StackType::Float,
            CopyValue::Bool(_) => crate::types::StackType::Bool,
            CopyValue::Unit => crate::types::StackType::Unit,
        }
    }

    /// The stack type a copy value inhabits.
    pub fn stack_type(self) -> (r: crate::types::StackType)
        ensures
            r == self.spec_stack_type(),
    {
        match self {
            CopyValue::Int(_) => crate::types::StackType::Int,
            CopyValue::Float(_) => crate::types::StackType::Float,
            CopyValue::Bool(_) => crate::types::StackType::Bool,
            CopyValue::Unit => crate::types::StackType::Unit,
        }
    }
}

impl<RefT> Value<RefT> {
    /// A string value.
    pub fn str_value(s: String) -> (r: Self)
        ensures
            r@ == ValueV::<RefT>::Str(s@),
    {
        Value::Str(s)
    }
}

} // verus!
