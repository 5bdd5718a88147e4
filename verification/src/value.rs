//! Values.

use vstd::prelude::*;
use vstd::string::*;

use crate::program::{HostTypeId, ValueType};

verus! {

/// A decimal number: `mantissa / 10^scale`.
#[derive(Copy, Clone, Debug, PartialEq, Eq, Hash, Structural)]
pub struct Decimal {
    /// Integer mantissa.
    pub mantissa: i64,
    /// Number of fractional decimal digits.
    pub scale: u8,
}

/// A function of a program, by its index.
#[derive(Copy, Clone, Debug, PartialEq, Eq, Hash, Structural)]
pub struct FuncId(pub u32);

/// A handle that a host gives to one of its objects.
#[derive(Copy, Clone, Debug, PartialEq, Eq, Hash, Structural)]
pub struct ObjHandle(pub u64);

/// A host object.
#[derive(Copy, Clone, Debug, PartialEq, Eq, Hash, Structural)]
pub struct Obj {
    /// Type of the object.
    pub host_type: HostTypeId,
    /// Handle of the object.
    pub handle: ObjHandle,
}

/// A handle of an aggregate (tuple, struct or array).
#[derive(Copy, Clone, Debug, PartialEq, Eq, Hash, Structural)]
pub struct AggHandle(pub u32);

/// A value.
#[derive(Clone, Debug, PartialEq, Eq)]
pub enum Value {
    /// `()`.
    Unit,
    /// Boolean.
    Bool(bool),
    /// Signed 64-bit integer.
    I64(i64),
    /// Unsigned 64-bit integer.
    U64(u64),
    /// 64-bit float, by its IEEE 754 bits.
    F64(u64),
    /// Decimal.
    Decimal(Decimal),
    /// Byte string.
    Bytes(Vec<u8>),
    /// UTF-8 string.
    Str(String),
    /// Host object.
    Obj(Obj),
    /// Aggregate handle.
    Agg(AggHandle),
    /// Function reference.
    Func(FuncId),
}

/// What a value is.
#[verifier::ext_equal]
pub enum ValueModel {
    Unit,
    Bool(bool),
    I64(i64),
    U64(u64),
    F64(u64),
    Decimal(Decimal),
    Bytes(Seq<u8>),
    Str(Seq<char>),
    Obj(Obj),
    Agg(AggHandle),
    Func(FuncId),
}

impl ValueModel {
    /// The type of a value.
    pub open spec fn ty(self) -> ValueType {
        match self {
            ValueModel::Unit => ValueType::Unit,
            ValueModel::Bool(_) => ValueType::Bool,
            ValueModel::I64(_) => ValueType::I64,
            ValueModel::U64(_) => ValueType::U64,
            ValueModel::F64(_) => ValueType::F64,
            ValueModel::Decimal(_) => ValueType::Decimal,
            ValueModel::Bytes(_) => ValueType::Bytes,
            ValueModel::Str(_) => ValueType::Str,
            ValueModel::Obj(o) => ValueType::Obj(o.host_type),
            ValueModel::Agg(_) => ValueType::Agg,
            ValueModel::Func(_) => ValueType::Func,
        }
    }
}

impl View for Value {
    type V = ValueModel;

    open spec fn view(&self) -> ValueModel {
        match self {
            Value::Unit => ValueModel::Unit,
            Value::Bool(b) => ValueModel::Bool(*b),
            Value::I64(i) => ValueModel::I64(*i),
            Value::U64(u) => ValueModel::U64(*u),
            Value::F64(f) => ValueModel::F64(*f),
            Value::Decimal(d) => ValueModel::Decimal(*d),
            Value::Bytes(b) => ValueModel::Bytes(b@),
            Value::Str(s) => ValueModel::Str(s@),
            Value::Obj(o) => ValueModel::Obj(*o),
            Value::Agg(h) => ValueModel::Agg(*h),
            Value::Func(f) => ValueModel::Func(*f),
        }
    }
}

/// What values are.
pub open spec fn value_models(v: Seq<Value>) -> Seq<ValueModel> {
    v.map_values(|x: Value| x@)
}

/// The types of values.
pub open spec fn types_of(v: Seq<ValueModel>) -> Seq<ValueType> {
    v.map_values(|x: ValueModel| x.ty())
}

impl Value {
    /// The type of this value.
    pub fn value_type(&self) -> (t: ValueType)
        ensures
            t == self@.ty(),
    {
        match self {
            Value::Unit => ValueType::Unit,
            Value::Bool(_) => ValueType::Bool,
            Value::I64(_) => ValueType::I64,
            Value::U64(_) => ValueType::U64,
            Value::F64(_) => ValueType::F64,
            Value::Decimal(_) => ValueType::Decimal,
            Value::Bytes(_) => ValueType::Bytes,
            Value::Str(_) => ValueType::Str,
            Value::Obj(o) => ValueType::Obj(o.host_type),
            Value::Agg(_) => ValueType::Agg,
            Value::Func(_) => ValueType::Func,
        }
    }

    /// A copy of this value.
    pub fn duplicate(&self) -> (v: Value)
        ensures
            v@ == self@,
    {
        match self {
            Value::Unit => Value::Unit,
            Value::Bool(b) => Value::Bool(*b),
            Value::I64(i) => Value::I64(*i),
            Value::U64(u) => Value::U64(*u),
            Value::F64(f) => Value::F64(*f),
            Value::Decimal(d) => Value::Decimal(*d),
            Value::Bytes(b) => Value::Bytes(vstd::slice::slice_to_vec(b.as_slice())),
            Value::Str(s) => Value::Str(s.clone()),
            Value::Obj(o) => Value::Obj(*o),
            Value::Agg(h) => Value::Agg(*h),
            Value::Func(f) => Value::Func(*f),
        }
    }
}

} // verus!
