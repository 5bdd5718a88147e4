//! Types of registers, and what each instruction asks of and does to them.

use vstd::prelude::*;

use crate::bytecode::InstrModel;
use crate::opcode;
use crate::opcode::{Opcode, Shape};
use crate::program;
use crate::program::{ConstEntry, ElemTypeId, ProgramView, TypeId, ValueType};

verus! {

/// What is known of the value of a register.
#[derive(Clone, Debug, PartialEq, Eq)]
pub enum RegType {
    /// A value of a type.
    Plain(ValueType),
    /// A tuple of elements of the given types.
    Tuple(Vec<ValueType>),
    /// A struct of a struct type.
    Struct(TypeId),
    /// An array of an element type.
    Array(ElemTypeId),
}

/// What a [`RegType`] says.
#[verifier::ext_equal]
pub enum RegTypeModel {
    Plain(ValueType),
    Tuple(Seq<ValueType>),
    Struct(TypeId),
    Array(ElemTypeId),
}

impl View for RegType {
    type V = RegTypeModel;

    open spec fn view(&self) -> RegTypeModel {
        match self {
            RegType::Plain(t) => RegTypeModel::Plain(*t),
            RegType::Tuple(v) => RegTypeModel::Tuple(v@),
            RegType::Struct(t) => RegTypeModel::Struct(*t),
            RegType::Array(t) => RegTypeModel::Array(*t),
        }
    }
}

impl RegTypeModel {
    /// The type of the value.
    pub open spec fn ty(self) -> ValueType {
        match self {
            RegTypeModel::Plain(t) => t,
            _ => ValueType::Agg,
        }
    }
}

/// What is known of a register, if it has a value.
pub type Known = Option<RegTypeModel>;

/// What is known of the registers of a function.
pub type Regs = Seq<Known>;

/// What an `Option<RegType>` says.
pub open spec fn known(r: Option<RegType>) -> Known {
    match r {
        Some(t) => Some(t@),
        None => None,
    }
}

/// What a register state says.
pub open spec fn known_all(v: Seq<Option<RegType>>) -> Regs {
    v.map_values(|r: Option<RegType>| known(r))
}

/// `b` says no more than `a`.
pub open spec fn weaker(a: Known, b: Known) -> bool {
    ||| b is None
    ||| a is Some && a == b
    ||| a is Some && a->0.ty() is Agg && b == Some(RegTypeModel::Plain(ValueType::Agg))
}

/// `b` says no more than `a` of every register.
pub open spec fn weaker_all(a: Regs, b: Regs) -> bool {
    &&& a.len() == b.len()
    &&& forall|r: int| 0 <= r < a.len() ==> weaker(#[trigger] a[r], b[r])
}

/// What is known where either of two things is known.
pub open spec fn join(a: Known, b: Known) -> Known {
    match (a, b) {
        (Some(x), Some(y)) => if x == y {
            Some(x)
        } else if x.ty() is Agg && y.ty() is Agg {
            Some(RegTypeModel::Plain(ValueType::Agg))
        } else {
            None
        },
        _ => None,
    }
}

/// What is known of registers where either of two things is known.
pub open spec fn join_all(a: Regs, b: Regs) -> Regs {
    Seq::new(a.len(), |r: int| join(a[r], b[r]))
}

/// What is known in both cases is the most that can be said.
pub proof fn lemma_join(a: Known, b: Known, c: Known)
    ensures
        weaker(a, join(a, b)),
        weaker(b, join(a, b)),
        weaker(a, c) && weaker(b, c) ==> weaker(join(a, b), c),
{
}

/// Saying no more than is a preorder.
pub proof fn lemma_weaker_all_trans(a: Regs, b: Regs, c: Regs)
    requires
        weaker_all(a, b),
        weaker_all(b, c),
    ensures
        weaker_all(a, c),
{
    assert forall|r: int| 0 <= r < a.len() implies weaker(#[trigger] a[r], c[r]) by {
        assert(weaker(a[r], b[r]));
        assert(weaker(b[r], c[r]));
    }
}

// ---------------------------------------------------------------------------------------------
// Signatures.
// ---------------------------------------------------------------------------------------------

/// The argument types of an opcode that takes and gives values of fixed types, and the type of its
/// result.
pub open spec fn fixed_sig(op: Opcode) -> Option<(Seq<ValueType>, ValueType)> {
    match op {
        Opcode::DecAdd | Opcode::DecSub | Opcode::DecMul => Some((seq![ValueType::Decimal, ValueType::Decimal], ValueType::Decimal)),
        Opcode::DecToI64 => Some((seq![ValueType::Decimal], ValueType::I64)),
        Opcode::DecToU64 => Some((seq![ValueType::Decimal], ValueType::U64)),
        Opcode::I64ToDec => Some((seq![ValueType::I64], ValueType::Decimal)),
        Opcode::U64ToDec => Some((seq![ValueType::U64], ValueType::Decimal)),
        Opcode::I64Add | Opcode::I64Sub | Opcode::I64Mul | Opcode::I64Div | Opcode::I64Rem | Opcode::I64And | Opcode::I64Or | Opcode::I64Xor | Opcode::I64Shl | Opcode::I64Shr => Some((seq![ValueType::I64, ValueType::I64], ValueType::I64)),
        Opcode::I64Eq | Opcode::I64Lt | Opcode::I64Gt | Opcode::I64Le | Opcode::I64Ge => Some((seq![ValueType::I64, ValueType::I64], ValueType::Bool)),
        Opcode::U64Add | Opcode::U64Sub | Opcode::U64Mul | Opcode::U64Div | Opcode::U64Rem | Opcode::U64And | Opcode::U64Or | Opcode::U64Xor | Opcode::U64Shl | Opcode::U64Shr => Some((seq![ValueType::U64, ValueType::U64], ValueType::U64)),
        Opcode::U64Eq | Opcode::U64Lt | Opcode::U64Gt | Opcode::U64Le | Opcode::U64Ge => Some((seq![ValueType::U64, ValueType::U64], ValueType::Bool)),
        Opcode::I64ToU64 => Some((seq![ValueType::I64], ValueType::U64)),
        Opcode::U64ToI64 => Some((seq![ValueType::U64], ValueType::I64)),
        Opcode::BoolNot => Some((seq![ValueType::Bool], ValueType::Bool)),
        Opcode::BoolAnd | Opcode::BoolOr | Opcode::BoolXor => Some((seq![ValueType::Bool, ValueType::Bool], ValueType::Bool)),
        Opcode::F64Add | Opcode::F64Sub | Opcode::F64Mul | Opcode::F64Div | Opcode::F64Rem | Opcode::F64Min | Opcode::F64Max | Opcode::F64MinNum | Opcode::F64MaxNum => Some((seq![ValueType::F64, ValueType::F64], ValueType::F64)),
        Opcode::F64Eq | Opcode::F64Lt | Opcode::F64Gt | Opcode::F64Le | Opcode::F64Ge => Some((seq![ValueType::F64, ValueType::F64], ValueType::Bool)),
        Opcode::F64Neg | Opcode::F64Abs => Some((seq![ValueType::F64], ValueType::F64)),
        Opcode::F64ToBits | Opcode::F64ToU64 => Some((seq![ValueType::F64], ValueType::U64)),
        Opcode::F64FromBits | Opcode::U64ToF64 => Some((seq![ValueType::U64], ValueType::F64)),
        Opcode::F64ToI64 => Some((seq![ValueType::F64], ValueType::I64)),
        Opcode::I64ToF64 => Some((seq![ValueType::I64], ValueType::F64)),
        Opcode::TupleLen | Opcode::StructFieldCount | Opcode::ArrayLen => Some((seq![ValueType::Agg], ValueType::U64)),
        Opcode::BytesLen | Opcode::BytesGetImm => Some((seq![ValueType::Bytes], ValueType::U64)),
        Opcode::BytesEq => Some((seq![ValueType::Bytes, ValueType::Bytes], ValueType::Bool)),
        Opcode::BytesConcat => Some((seq![ValueType::Bytes, ValueType::Bytes], ValueType::Bytes)),
        Opcode::BytesGet => Some((seq![ValueType::Bytes, ValueType::U64], ValueType::U64)),
        Opcode::BytesSlice => Some((seq![ValueType::Bytes, ValueType::U64, ValueType::U64], ValueType::Bytes)),
        Opcode::BytesToStr => Some((seq![ValueType::Bytes], ValueType::Str)),
        Opcode::StrLen => Some((seq![ValueType::Str], ValueType::U64)),
        Opcode::StrEq => Some((seq![ValueType::Str, ValueType::Str], ValueType::Bool)),
        Opcode::StrConcat => Some((seq![ValueType::Str, ValueType::Str], ValueType::Str)),
        Opcode::StrSlice => Some((seq![ValueType::Str, ValueType::U64, ValueType::U64], ValueType::Str)),
        Opcode::StrToBytes => Some((seq![ValueType::Str], ValueType::Bytes)),
        _ => None,
    }
}

/// The argument types of an opcode that takes and gives values of fixed types, and the type of its
/// result.
pub fn fixed_signature(op: Opcode) -> (r: Option<(Vec<ValueType>, ValueType)>)
    ensures
        match fixed_sig(op) {
            Some((args, ret)) => r is Some && (r->0).0@ == args && (r->0).1 == ret,
            None => r is None,
        },
{
    let r: Option<(Vec<ValueType>, ValueType)> = match op {
        Opcode::DecAdd | Opcode::DecSub | Opcode::DecMul => Some((vec![ValueType::Decimal, ValueType::Decimal], ValueType::Decimal)),
        Opcode::DecToI64 => Some((vec![ValueType::Decimal], ValueType::I64)),
        Opcode::DecToU64 => Some((vec![ValueType::Decimal], ValueType::U64)),
        Opcode::I64ToDec => Some((vec![ValueType::I64], ValueType::Decimal)),
        Opcode::U64ToDec => Some((vec![ValueType::U64], ValueType::Decimal)),
        Opcode::I64Add | Opcode::I64Sub | Opcode::I64Mul | Opcode::I64Div | Opcode::I64Rem | Opcode::I64And | Opcode::I64Or | Opcode::I64Xor | Opcode::I64Shl | Opcode::I64Shr => Some((vec![ValueType::I64, ValueType::I64], ValueType::I64)),
        Opcode::I64Eq | Opcode::I64Lt | Opcode::I64Gt | Opcode::I64Le | Opcode::I64Ge => Some((vec![ValueType::I64, ValueType::I64], ValueType::Bool)),
        Opcode::U64Add | Opcode::U64Sub | Opcode::U64Mul | Opcode::U64Div | Opcode::U64Rem | Opcode::U64And | Opcode::U64Or | Opcode::U64Xor | Opcode::U64Shl | Opcode::U64Shr => Some((vec![ValueType::U64, ValueType::U64], ValueType::U64)),
        Opcode::U64Eq | Opcode::U64Lt | Opcode::U64Gt | Opcode::U64Le | Opcode::U64Ge => Some((vec![ValueType::U64, ValueType::U64], ValueType::Bool)),
        Opcode::I64ToU64 => Some((vec![ValueType::I64], ValueType::U64)),
        Opcode::U64ToI64 => Some((vec![ValueType::U64], ValueType::I64)),
        Opcode::BoolNot => Some((vec![ValueType::Bool], ValueType::Bool)),
        Opcode::BoolAnd | Opcode::BoolOr | Opcode::BoolXor => Some((vec![ValueType::Bool, ValueType::Bool], ValueType::Bool)),
        Opcode::F64Add | Opcode::F64Sub | Opcode::F64Mul | Opcode::F64Div | Opcode::F64Rem | Opcode::F64Min | Opcode::F64Max | Opcode::F64MinNum | Opcode::F64MaxNum => Some((vec![ValueType::F64, ValueType::F64], ValueType::F64)),
        Opcode::F64Eq | Opcode::F64Lt | Opcode::F64Gt | Opcode::F64Le | Opcode::F64Ge => Some((vec![ValueType::F64, ValueType::F64], ValueType::Bool)),
        Opcode::F64Neg | Opcode::F64Abs => Some((vec![ValueType::F64], ValueType::F64)),
        Opcode::F64ToBits | Opcode::F64ToU64 => Some((vec![ValueType::F64], ValueType::U64)),
        Opcode::F64FromBits | Opcode::U64ToF64 => Some((vec![ValueType::U64], ValueType::F64)),
        Opcode::F64ToI64 => Some((vec![ValueType::F64], ValueType::I64)),
        Opcode::I64ToF64 => Some((vec![ValueType::I64], ValueType::F64)),
        Opcode::TupleLen | Opcode::StructFieldCount | Opcode::ArrayLen => Some((vec![ValueType::Agg], ValueType::U64)),
        Opcode::BytesLen | Opcode::BytesGetImm => Some((vec![ValueType::Bytes], ValueType::U64)),
        Opcode::BytesEq => Some((vec![ValueType::Bytes, ValueType::Bytes], ValueType::Bool)),
        Opcode::BytesConcat => Some((vec![ValueType::Bytes, ValueType::Bytes], ValueType::Bytes)),
        Opcode::BytesGet => Some((vec![ValueType::Bytes, ValueType::U64], ValueType::U64)),
        Opcode::BytesSlice => Some((vec![ValueType::Bytes, ValueType::U64, ValueType::U64], ValueType::Bytes)),
        Opcode::BytesToStr => Some((vec![ValueType::Bytes], ValueType::Str)),
        Opcode::StrLen => Some((vec![ValueType::Str], ValueType::U64)),
        Opcode::StrEq => Some((vec![ValueType::Str, ValueType::Str], ValueType::Bool)),
        Opcode::StrConcat => Some((vec![ValueType::Str, ValueType::Str], ValueType::Str)),
        Opcode::StrSlice => Some((vec![ValueType::Str, ValueType::U64, ValueType::U64], ValueType::Str)),
        Opcode::StrToBytes => Some((vec![ValueType::Str], ValueType::Bytes)),
        _ => None,
    };
    assert(match fixed_sig(op) {
        Some((args, ret)) => r is Some && (r->0).0@ =~= args && (r->0).1 == ret,
        None => r is None,
    });
    r
}

// ---------------------------------------------------------------------------------------------
// Programs, as the verifier looks at them.
// ---------------------------------------------------------------------------------------------

/// The type of a constant of the pool.
pub open spec fn const_type(p: ProgramView, idx: u32) -> Option<ValueType> {
    if idx >= p.const_pool.len() {
        None
    } else {
        Some(
            match p.const_pool[idx as int] {
                ConstEntry::Unit => ValueType::Unit,
                ConstEntry::Bool(_) => ValueType::Bool,
                ConstEntry::I64(_) => ValueType::I64,
                ConstEntry::U64(_) => ValueType::U64,
                ConstEntry::F64(_) => ValueType::F64,
                ConstEntry::Decimal { .. } => ValueType::Decimal,
                ConstEntry::Bytes(_) => ValueType::Bytes,
                ConstEntry::Str(_) => ValueType::Str,
            },
        )
    }
}

/// The argument and return types of a function.
pub open spec fn function_sig(p: ProgramView, f: u32) -> Option<(Seq<ValueType>, Seq<ValueType>)> {
    if f >= p.functions.len() {
        None
    } else {
        let args = program::slice_of(p.value_types, p.functions[f as int].arg_types);
        let rets = program::slice_of(p.value_types, p.functions[f as int].ret_types);
        match (args, rets) {
            (Some(a), Some(r)) => Some((a, r)),
            _ => None,
        }
    }
}

/// The argument and return types of a host signature.
pub open spec fn host_call_sig(p: ProgramView, h: u32) -> Option<
    (Seq<ValueType>, Seq<ValueType>),
> {
    if h >= p.host_sigs.len() {
        None
    } else {
        let args = program::slice_of(p.value_types, p.host_sigs[h as int].args);
        let rets = program::slice_of(p.value_types, p.host_sigs[h as int].rets);
        match (args, rets) {
            (Some(a), Some(r)) => Some((a, r)),
            _ => None,
        }
    }
}

/// The field types of a struct type.
pub open spec fn struct_sig(p: ProgramView, t: u32) -> Option<Seq<ValueType>> {
    if t >= p.types.structs.len() {
        None
    } else {
        program::slice_of(p.types.field_types, p.types.structs[t as int].field_types)
    }
}

/// An array element type.
pub open spec fn elem_sig(p: ProgramView, t: u32) -> Option<ValueType> {
    if t < p.types.array_elems.len() {
        Some(p.types.array_elems[t as int])
    } else {
        None
    }
}

// ---------------------------------------------------------------------------------------------
// Effects.
// ---------------------------------------------------------------------------------------------

/// What an instruction writes: registers, in order, with what is known of their new values.
pub type Writes = Seq<(u32, RegTypeModel)>;

/// A register operand or index.
pub open spec fn word(x: InstrModel, k: int) -> u32 {
    x.operands[k]->Word_0
}

/// A list operand.
pub open spec fn list(x: InstrModel, k: int) -> Seq<u32> {
    x.operands[k]->List_0
}

/// What is known of a register, where it has a value.
pub open spec fn reg_type(st: Regs, r: u32) -> Known {
    if r < st.len() {
        st[r as int]
    } else {
        None
    }
}

/// Whether a register has a value of the given type.
pub open spec fn has(st: Regs, r: u32, ty: ValueType) -> bool {
    reg_type(st, r) matches Some(t) && t.ty() == ty
}

/// Whether registers have values of the given types.
pub open spec fn has_all(st: Regs, rs: Seq<u32>, tys: Seq<ValueType>) -> bool {
    &&& rs.len() == tys.len()
    &&& forall|k: int| 0 <= k < rs.len() ==> has(st, #[trigger] rs[k], tys[k])
}

/// The types of the values of registers, where all have one.
pub open spec fn types_in(st: Regs, rs: Seq<u32>) -> Option<Seq<ValueType>> {
    if forall|k: int| 0 <= k < rs.len() ==> reg_type(st, #[trigger] rs[k]) is Some {
        Some(Seq::new(rs.len(), |k: int| reg_type(st, rs[k])->0.ty()))
    } else {
        None
    }
}

/// Writes of values of the given types.
pub open spec fn plain_writes(rs: Seq<u32>, tys: Seq<ValueType>) -> Writes {
    Seq::new(rs.len(), |k: int| (rs[k], RegTypeModel::Plain(tys[k])))
}

/// One write of a value of the given type.
pub open spec fn one(dst: u32, ty: ValueType) -> Option<Writes> {
    Some(seq![(dst, RegTypeModel::Plain(ty))])
}

/// The effect of a call of something with the given signature.
pub open spec fn call_effect(
    sig: Option<(Seq<ValueType>, Seq<ValueType>)>,
    x: InstrModel,
    st: Regs,
) -> Option<Writes> {
    match sig {
        None => None,
        Some((args, rets)) => if has(st, word(x, 2), ValueType::Unit) && has_all(st, list(x, 3), args)
            && list(x, 4).len() == rets.len() {
            Some(
                seq![(word(x, 0), RegTypeModel::Plain(ValueType::Unit))] + plain_writes(
                    list(x, 4),
                    rets,
                ),
            )
        } else {
            None
        },
    }
}

/// The type of an element of an aggregate.
pub open spec fn element_type(p: ProgramView, op: Opcode, t: Known, index: u32) -> Option<ValueType> {
    match (op, t) {
        (Opcode::TupleGet, Some(RegTypeModel::Tuple(ts))) => if index < ts.len() {
            Some(ts[index as int])
        } else {
            None
        },
        (Opcode::StructGet, Some(RegTypeModel::Struct(id))) => match struct_sig(p, id.0) {
            Some(fields) => if index < fields.len() {
                Some(fields[index as int])
            } else {
                None
            },
            None => None,
        },
        (Opcode::ArrayGet, Some(RegTypeModel::Array(id))) => elem_sig(p, id.0),
        (Opcode::ArrayGetImm, Some(RegTypeModel::Array(id))) => elem_sig(p, id.0),
        _ => None,
    }
}

/// What an instruction writes to registers that are as `st` says, in a function with the given
/// return types; none where the instruction is not allowed there.
pub open spec fn effect(p: ProgramView, rets: Seq<ValueType>, x: InstrModel, st: Regs) -> Option<
    Writes,
> {
    match opcode::opcode_shape(x.op) {
        Shape::Nullary => Some(seq![]),
        Shape::Trap => Some(seq![]),
        Shape::ConstUnit => one(word(x, 0), ValueType::Unit),
        Shape::ConstBool => one(word(x, 0), ValueType::Bool),
        Shape::ConstI64 => one(word(x, 0), ValueType::I64),
        Shape::ConstU64 => one(word(x, 0), ValueType::U64),
        Shape::ConstF64 => one(word(x, 0), ValueType::F64),
        Shape::ConstDecimal => one(word(x, 0), ValueType::Decimal),
        Shape::ConstPool => match const_type(p, word(x, 1)) {
            Some(t) => one(word(x, 0), t),
            None => None,
        },
        Shape::Unary => if x.op is Mov {
            match reg_type(st, word(x, 1)) {
                Some(t) => Some(seq![(word(x, 0), t)]),
                None => None,
            }
        } else {
            fixed_effect(x, st, seq![word(x, 1)])
        },
        Shape::Binary => if x.op is ArrayGet {
            match element_type(p, x.op, reg_type(st, word(x, 1)), 0) {
                Some(t) => if has(st, word(x, 2), ValueType::U64) {
                    one(word(x, 0), t)
                } else {
                    None
                },
                None => None,
            }
        } else {
            fixed_effect(x, st, seq![word(x, 1), word(x, 2)])
        },
        Shape::ToDec => fixed_effect(x, st, seq![word(x, 1)]),
        Shape::Slice => fixed_effect(x, st, seq![word(x, 1), word(x, 2), word(x, 3)]),
        Shape::Select => match (reg_type(st, word(x, 2)), reg_type(st, word(x, 3))) {
            (Some(a), Some(b)) => if has(st, word(x, 1), ValueType::Bool) && a.ty() == b.ty() {
                Some(seq![(word(x, 0), join(Some(a), Some(b))->0)])
            } else {
                None
            },
            _ => None,
        },
        Shape::IndexGet => if x.op is BytesGetImm {
            fixed_effect(x, st, seq![word(x, 1)])
        } else {
            match element_type(p, x.op, reg_type(st, word(x, 1)), word(x, 2)) {
                Some(t) => one(word(x, 0), t),
                None => None,
            }
        },
        Shape::FieldGet => match element_type(p, x.op, reg_type(st, word(x, 1)), word(x, 2)) {
            Some(t) => one(word(x, 0), t),
            None => None,
        },
        Shape::Br => if has(st, word(x, 0), ValueType::Bool) {
            Some(seq![])
        } else {
            None
        },
        Shape::Jmp => Some(seq![]),
        Shape::Call => call_effect(function_sig(p, word(x, 1)), x, st),
        Shape::HostCall => call_effect(host_call_sig(p, word(x, 1)), x, st),
        Shape::Ret => if has(st, word(x, 0), ValueType::Unit) && has_all(st, list(x, 1), rets) {
            Some(seq![])
        } else {
            None
        },
        Shape::TupleNew => match types_in(st, list(x, 1)) {
            Some(ts) => Some(seq![(word(x, 0), RegTypeModel::Tuple(ts))]),
            None => None,
        },
        Shape::StructNew => match struct_sig(p, word(x, 1)) {
            Some(fields) => if has_all(st, list(x, 2), fields) {
                Some(seq![(word(x, 0), RegTypeModel::Struct(TypeId(word(x, 1))))])
            } else {
                None
            },
            None => None,
        },
        Shape::ArrayNew => match elem_sig(p, word(x, 1)) {
            Some(t) => if has_all(st, list(x, 2), Seq::new(list(x, 2).len(), |k: int| t)) {
                Some(seq![(word(x, 0), RegTypeModel::Array(ElemTypeId(word(x, 1))))])
            } else {
                None
            },
            None => None,
        },
    }
}

/// The effect of an instruction that takes and gives values of fixed types.
pub open spec fn fixed_effect(x: InstrModel, st: Regs, srcs: Seq<u32>) -> Option<Writes> {
    match fixed_sig(x.op) {
        None => None,
        Some((args, ret)) => if has_all(st, srcs, args) {
            one(word(x, 0), ret)
        } else {
            None
        },
    }
}

/// Whether writes go to registers that there are.
pub open spec fn in_bounds(w: Writes, n: nat) -> bool {
    forall|k: int| 0 <= k < w.len() ==> (#[trigger] w[k]).0 < n
}

/// What is known of registers after writes.
pub open spec fn after(st: Regs, w: Writes) -> Regs
    decreases w.len(),
{
    if w.len() == 0 {
        st
    } else {
        after(st, w.drop_last()).update(w.last().0 as int, Some(w.last().1))
    }
}

/// The writes of an instruction say no more than others of the same registers.
pub open spec fn weaker_writes(a: Writes, b: Writes) -> bool {
    &&& a.len() == b.len()
    &&& forall|k: int|
        0 <= k < a.len() ==> (#[trigger] a[k]).0 == b[k].0 && weaker(Some(a[k].1), Some(b[k].1))
}

proof fn lemma_has(a: Regs, b: Regs, r: u32, ty: ValueType)
    requires
        weaker_all(a, b),
        has(b, r, ty),
    ensures
        has(a, r, ty),
{
    assert(weaker(a[r as int], b[r as int]));
}

proof fn lemma_has_all(a: Regs, b: Regs, rs: Seq<u32>, tys: Seq<ValueType>)
    requires
        weaker_all(a, b),
        has_all(b, rs, tys),
    ensures
        has_all(a, rs, tys),
{
    assert forall|k: int| 0 <= k < rs.len() implies has(a, #[trigger] rs[k], tys[k]) by {
        lemma_has(a, b, rs[k], tys[k]);
    }
}

proof fn lemma_reg_type(a: Regs, b: Regs, r: u32)
    requires
        weaker_all(a, b),
    ensures
        weaker(reg_type(a, r), reg_type(b, r)),
{
    if r < a.len() {
        assert(weaker(a[r as int], b[r as int]));
    }
}

/// An instruction that is allowed where less is known is allowed where more is known, and no less
/// is known afterwards.
pub proof fn lemma_effect_monotone(
    p: ProgramView,
    rets: Seq<ValueType>,
    x: InstrModel,
    a: Regs,
    b: Regs,
)
    requires
        weaker_all(a, b),
        effect(p, rets, x, b) is Some,
    ensures
        effect(p, rets, x, a) is Some,
        weaker_writes(effect(p, rets, x, a)->0, effect(p, rets, x, b)->0),
{
    let wb = effect(p, rets, x, b)->0;
    match opcode::opcode_shape(x.op) {
        Shape::Unary | Shape::ToDec => {
            lemma_reg_type(a, b, word(x, 1));
            if !(x.op is Mov) {
                lemma_has_all(a, b, seq![word(x, 1)], (fixed_sig(x.op)->0).0);
            }
        },
        Shape::Binary => {
            if x.op is ArrayGet {
                lemma_reg_type(a, b, word(x, 1));
                lemma_has(a, b, word(x, 2), ValueType::U64);
            } else {
                lemma_has_all(a, b, seq![word(x, 1), word(x, 2)], (fixed_sig(x.op)->0).0);
            }
        },
        Shape::Slice => {
            lemma_has_all(a, b, seq![word(x, 1), word(x, 2), word(x, 3)], (fixed_sig(x.op)->0).0);
        },
        Shape::Select => {
            lemma_has(a, b, word(x, 1), ValueType::Bool);
            lemma_reg_type(a, b, word(x, 2));
            lemma_reg_type(a, b, word(x, 3));
        },
        Shape::IndexGet => {
            lemma_reg_type(a, b, word(x, 1));
            if x.op is BytesGetImm {
                lemma_has_all(a, b, seq![word(x, 1)], (fixed_sig(x.op)->0).0);
            }
        },
        Shape::FieldGet => {
            lemma_reg_type(a, b, word(x, 1));
        },
        Shape::Br => {
            lemma_has(a, b, word(x, 0), ValueType::Bool);
        },
        Shape::Call => {
            lemma_has(a, b, word(x, 2), ValueType::Unit);
            lemma_has_all(a, b, list(x, 3), (function_sig(p, word(x, 1))->0).0);
        },
        Shape::HostCall => {
            lemma_has(a, b, word(x, 2), ValueType::Unit);
            lemma_has_all(a, b, list(x, 3), (host_call_sig(p, word(x, 1))->0).0);
        },
        Shape::Ret => {
            lemma_has(a, b, word(x, 0), ValueType::Unit);
            lemma_has_all(a, b, list(x, 1), rets);
        },
        Shape::TupleNew => {
            let rs = list(x, 1);
            assert forall|k: int| 0 <= k < rs.len() implies reg_type(a, #[trigger] rs[k]) is Some
                && reg_type(a, rs[k])->0.ty() == reg_type(b, rs[k])->0.ty() by {
                assert(reg_type(b, rs[k]) is Some);
                lemma_reg_type(a, b, rs[k]);
            }
            assert(types_in(a, rs)->0 =~= types_in(b, rs)->0);
        },
        Shape::StructNew => {
            lemma_has_all(a, b, list(x, 2), struct_sig(p, word(x, 1))->0);
        },
        Shape::ArrayNew => {
            let t = elem_sig(p, word(x, 1))->0;
            lemma_has_all(a, b, list(x, 2), Seq::new(list(x, 2).len(), |k: int| t));
        },
        _ => {},
    }
}

/// Writes keep the order of what is known.
pub proof fn lemma_after_monotone(a: Regs, b: Regs, wa: Writes, wb: Writes)
    requires
        weaker_all(a, b),
        weaker_writes(wa, wb),
        in_bounds(wa, a.len()),
    ensures
        weaker_all(after(a, wa), after(b, wb)),
    decreases wa.len(),
{
    if wa.len() > 0 {
        let fa = wa.drop_last();
        let fb = wb.drop_last();
        assert(forall|k: int| 0 <= k < fa.len() ==> fa[k] == wa[k] && fb[k] == wb[k]);
        lemma_after_monotone(a, b, fa, fb);
        assert(wa[wa.len() - 1].0 == wb[wb.len() - 1].0);
        lemma_after_len(a, fa);
        lemma_after_len(b, fb);
        assert forall|r: int| 0 <= r < a.len() implies weaker(
            #[trigger] after(a, wa)[r],
            after(b, wb)[r],
        ) by {
            if r != wa.last().0 {
                assert(weaker(after(a, fa)[r], after(b, fb)[r]));
            }
        }
    }
}

/// Writes do not change how many registers there are.
pub proof fn lemma_after_len(st: Regs, w: Writes)
    requires
        in_bounds(w, st.len()),
    ensures
        after(st, w).len() == st.len(),
    decreases w.len(),
{
    if w.len() > 0 {
        let front = w.drop_last();
        assert(forall|k: int| 0 <= k < front.len() ==> front[k] == w[k]);
        lemma_after_len(st, front);
        assert(w[w.len() - 1].0 < st.len());
    }
}

} // verus!
