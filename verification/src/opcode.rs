//! Opcodes and the operands that each of them takes.

use vstd::prelude::*;
use vstd::string::*;

verus! {

/// What an operand is.
#[derive(Copy, Clone, Debug, PartialEq, Eq, Structural)]
pub enum OperandRole {
    /// Register that is written.
    Dst,
    /// Register that is read.
    Src,
    /// List of registers that are read.
    SrcList,
    /// List of registers that are written.
    DstList,
    /// Boolean immediate.
    ImmBool,
    /// Signed integer immediate.
    ImmI64,
    /// Unsigned integer immediate.
    ImmU64,
    /// Float immediate.
    ImmF64,
    /// Decimal scale.
    Scale,
    /// Trap code.
    TrapCode,
    /// Constant pool index.
    Const,
    /// Host signature index.
    HostSig,
    /// Function index.
    Func,
    /// Struct type index.
    Type,
    /// Array element type index.
    ElemType,
    /// Element index.
    Index,
    /// Field index.
    FieldIndex,
    /// Code position.
    Pc,
}

/// Opcodes that take the same operands.
#[derive(Copy, Clone, Debug, PartialEq, Eq, Structural)]
pub enum Shape {
    /// No operand.
    Nullary,
    /// `code`.
    Trap,
    /// `dst`.
    ConstUnit,
    /// `dst, bool`.
    ConstBool,
    /// `dst, i64`.
    ConstI64,
    /// `dst, u64`.
    ConstU64,
    /// `dst, f64 bits`.
    ConstF64,
    /// `dst, mantissa, scale`.
    ConstDecimal,
    /// `dst, constant`.
    ConstPool,
    /// `dst, a`.
    Unary,
    /// `dst, a, b`.
    Binary,
    /// `dst, a, scale`.
    ToDec,
    /// `dst, cond, a, b`.
    Select,
    /// `dst, a, start, end`.
    Slice,
    /// `dst, a, index`.
    IndexGet,
    /// `dst, a, field`.
    FieldGet,
    /// `cond, pc, pc`.
    Br,
    /// `pc`.
    Jmp,
    /// `eff_out, func, eff_in, args, rets`.
    Call,
    /// `eff_out, host_sig, eff_in, args, rets`.
    HostCall,
    /// `eff_in, rets`.
    Ret,
    /// `dst, values`.
    TupleNew,
    /// `dst, type, values`.
    StructNew,
    /// `dst, elem_type, values`.
    ArrayNew,
}

/// An opcode.
#[derive(Copy, Clone, Debug, PartialEq, Eq, Structural)]
pub enum Opcode {
    /// `nop`.
    Nop,
    /// `mov`.
    Mov,
    /// `trap`.
    Trap,
    /// `const_unit`.
    ConstUnit,
    /// `const_bool`.
    ConstBool,
    /// `const_i64`.
    ConstI64,
    /// `const_u64`.
    ConstU64,
    /// `const_f64`.
    ConstF64,
    /// `const_decimal`.
    ConstDecimal,
    /// `const_pool`.
    ConstPool,
    /// `dec_add`.
    DecAdd,
    /// `dec_sub`.
    DecSub,
    /// `dec_mul`.
    DecMul,
    /// `dec_to_i64`.
    DecToI64,
    /// `dec_to_u64`.
    DecToU64,
    /// `i64_to_dec`.
    I64ToDec,
    /// `u64_to_dec`.
    U64ToDec,
    /// `i64_add`.
    I64Add,
    /// `i64_sub`.
    I64Sub,
    /// `i64_mul`.
    I64Mul,
    /// `i64_div`.
    I64Div,
    /// `i64_rem`.
    I64Rem,
    /// `i64_and`.
    I64And,
    /// `i64_or`.
    I64Or,
    /// `i64_xor`.
    I64Xor,
    /// `i64_shl`.
    I64Shl,
    /// `i64_shr`.
    I64Shr,
    /// `i64_eq`.
    I64Eq,
    /// `i64_lt`.
    I64Lt,
    /// `i64_gt`.
    I64Gt,
    /// `i64_le`.
    I64Le,
    /// `i64_ge`.
    I64Ge,
    /// `i64_to_u64`.
    I64ToU64,
    /// `u64_add`.
    U64Add,
    /// `u64_sub`.
    U64Sub,
    /// `u64_mul`.
    U64Mul,
    /// `u64_div`.
    U64Div,
    /// `u64_rem`.
    U64Rem,
    /// `u64_and`.
    U64And,
    /// `u64_or`.
    U64Or,
    /// `u64_xor`.
    U64Xor,
    /// `u64_shl`.
    U64Shl,
    /// `u64_shr`.
    U64Shr,
    /// `u64_eq`.
    U64Eq,
    /// `u64_lt`.
    U64Lt,
    /// `u64_gt`.
    U64Gt,
    /// `u64_le`.
    U64Le,
    /// `u64_ge`.
    U64Ge,
    /// `u64_to_i64`.
    U64ToI64,
    /// `br`.
    Br,
    /// `jmp`.
    Jmp,
    /// `bool_not`.
    BoolNot,
    /// `bool_and`.
    BoolAnd,
    /// `bool_or`.
    BoolOr,
    /// `bool_xor`.
    BoolXor,
    /// `select`.
    Select,
    /// `call`.
    Call,
    /// `ret`.
    Ret,
    /// `host_call`.
    HostCall,
    /// `f64_add`.
    F64Add,
    /// `f64_sub`.
    F64Sub,
    /// `f64_mul`.
    F64Mul,
    /// `f64_div`.
    F64Div,
    /// `f64_rem`.
    F64Rem,
    /// `f64_min`.
    F64Min,
    /// `f64_max`.
    F64Max,
    /// `f64_min_num`.
    F64MinNum,
    /// `f64_max_num`.
    F64MaxNum,
    /// `f64_eq`.
    F64Eq,
    /// `f64_lt`.
    F64Lt,
    /// `f64_gt`.
    F64Gt,
    /// `f64_le`.
    F64Le,
    /// `f64_ge`.
    F64Ge,
    /// `f64_neg`.
    F64Neg,
    /// `f64_abs`.
    F64Abs,
    /// `f64_to_bits`.
    F64ToBits,
    /// `f64_from_bits`.
    F64FromBits,
    /// `f64_to_i64`.
    F64ToI64,
    /// `f64_to_u64`.
    F64ToU64,
    /// `i64_to_f64`.
    I64ToF64,
    /// `u64_to_f64`.
    U64ToF64,
    /// `tuple_new`.
    TupleNew,
    /// `tuple_get`.
    TupleGet,
    /// `tuple_len`.
    TupleLen,
    /// `struct_new`.
    StructNew,
    /// `struct_get`.
    StructGet,
    /// `struct_field_count`.
    StructFieldCount,
    /// `array_new`.
    ArrayNew,
    /// `array_len`.
    ArrayLen,
    /// `array_get`.
    ArrayGet,
    /// `array_get_imm`.
    ArrayGetImm,
    /// `bytes_len`.
    BytesLen,
    /// `bytes_eq`.
    BytesEq,
    /// `bytes_concat`.
    BytesConcat,
    /// `bytes_get`.
    BytesGet,
    /// `bytes_get_imm`.
    BytesGetImm,
    /// `bytes_slice`.
    BytesSlice,
    /// `bytes_to_str`.
    BytesToStr,
    /// `str_len`.
    StrLen,
    /// `str_eq`.
    StrEq,
    /// `str_concat`.
    StrConcat,
    /// `str_slice`.
    StrSlice,
    /// `str_to_bytes`.
    StrToBytes,
}

/// The operands of a shape, in order.
pub open spec fn shape_roles(shape: Shape) -> Seq<OperandRole> {
    match shape {
        Shape::Nullary => seq![],
        Shape::Trap => seq![OperandRole::TrapCode],
        Shape::ConstUnit => seq![OperandRole::Dst],
        Shape::ConstBool => seq![OperandRole::Dst, OperandRole::ImmBool],
        Shape::ConstI64 => seq![OperandRole::Dst, OperandRole::ImmI64],
        Shape::ConstU64 => seq![OperandRole::Dst, OperandRole::ImmU64],
        Shape::ConstF64 => seq![OperandRole::Dst, OperandRole::ImmF64],
        Shape::ConstDecimal => seq![OperandRole::Dst, OperandRole::ImmI64, OperandRole::Scale],
        Shape::ConstPool => seq![OperandRole::Dst, OperandRole::Const],
        Shape::Unary => seq![OperandRole::Dst, OperandRole::Src],
        Shape::Binary => seq![OperandRole::Dst, OperandRole::Src, OperandRole::Src],
        Shape::ToDec => seq![OperandRole::Dst, OperandRole::Src, OperandRole::Scale],
        Shape::Select => seq![OperandRole::Dst, OperandRole::Src, OperandRole::Src, OperandRole::Src],
        Shape::Slice => seq![OperandRole::Dst, OperandRole::Src, OperandRole::Src, OperandRole::Src],
        Shape::IndexGet => seq![OperandRole::Dst, OperandRole::Src, OperandRole::Index],
        Shape::FieldGet => seq![OperandRole::Dst, OperandRole::Src, OperandRole::FieldIndex],
        Shape::Br => seq![OperandRole::Src, OperandRole::Pc, OperandRole::Pc],
        Shape::Jmp => seq![OperandRole::Pc],
        Shape::Call => seq![OperandRole::Dst, OperandRole::Func, OperandRole::Src, OperandRole::SrcList, OperandRole::DstList],
        Shape::HostCall => seq![OperandRole::Dst, OperandRole::HostSig, OperandRole::Src, OperandRole::SrcList, OperandRole::DstList],
        Shape::Ret => seq![OperandRole::Src, OperandRole::SrcList],
        Shape::TupleNew => seq![OperandRole::Dst, OperandRole::SrcList],
        Shape::StructNew => seq![OperandRole::Dst, OperandRole::Type, OperandRole::SrcList],
        Shape::ArrayNew => seq![OperandRole::Dst, OperandRole::ElemType, OperandRole::SrcList],
    }
}

/// The byte of an opcode.
pub open spec fn opcode_byte(op: Opcode) -> u8 {
    match op {
        Opcode::Nop => 0x00,
        Opcode::Mov => 0x01,
        Opcode::Trap => 0x02,
        Opcode::ConstUnit => 0x10,
        Opcode::ConstBool => 0x11,
        Opcode::ConstI64 => 0x12,
        Opcode::ConstU64 => 0x13,
        Opcode::ConstF64 => 0x14,
        Opcode::ConstDecimal => 0x15,
        Opcode::ConstPool => 0x16,
        Opcode::DecAdd => 0x18,
        Opcode::DecSub => 0x19,
        Opcode::DecMul => 0x1a,
        Opcode::DecToI64 => 0x1b,
        Opcode::DecToU64 => 0x1c,
        Opcode::I64ToDec => 0x1d,
        Opcode::U64ToDec => 0x1e,
        Opcode::I64Add => 0x20,
        Opcode::I64Sub => 0x21,
        Opcode::I64Mul => 0x22,
        Opcode::I64Div => 0x23,
        Opcode::I64Rem => 0x24,
        Opcode::I64And => 0x25,
        Opcode::I64Or => 0x26,
        Opcode::I64Xor => 0x27,
        Opcode::I64Shl => 0x28,
        Opcode::I64Shr => 0x29,
        Opcode::I64Eq => 0x2a,
        Opcode::I64Lt => 0x2b,
        Opcode::I64Gt => 0x2c,
        Opcode::I64Le => 0x2d,
        Opcode::I64Ge => 0x2e,
        Opcode::I64ToU64 => 0x2f,
        Opcode::U64Add => 0x30,
        Opcode::U64Sub => 0x31,
        Opcode::U64Mul => 0x32,
        Opcode::U64Div => 0x33,
        Opcode::U64Rem => 0x34,
        Opcode::U64And => 0x35,
        Opcode::U64Or => 0x36,
        Opcode::U64Xor => 0x37,
        Opcode::U64Shl => 0x38,
        Opcode::U64Shr => 0x39,
        Opcode::U64Eq => 0x3a,
        Opcode::U64Lt => 0x3b,
        Opcode::U64Gt => 0x3c,
        Opcode::U64Le => 0x3d,
        Opcode::U64Ge => 0x3e,
        Opcode::U64ToI64 => 0x3f,
        Opcode::Br => 0x40,
        Opcode::Jmp => 0x41,
        Opcode::BoolNot => 0x42,
        Opcode::BoolAnd => 0x43,
        Opcode::BoolOr => 0x44,
        Opcode::BoolXor => 0x45,
        Opcode::Select => 0x46,
        Opcode::Call => 0x50,
        Opcode::Ret => 0x51,
        Opcode::HostCall => 0x52,
        Opcode::F64Add => 0x60,
        Opcode::F64Sub => 0x61,
        Opcode::F64Mul => 0x62,
        Opcode::F64Div => 0x63,
        Opcode::F64Rem => 0x64,
        Opcode::F64Min => 0x65,
        Opcode::F64Max => 0x66,
        Opcode::F64MinNum => 0x67,
        Opcode::F64MaxNum => 0x68,
        Opcode::F64Eq => 0x69,
        Opcode::F64Lt => 0x6a,
        Opcode::F64Gt => 0x6b,
        Opcode::F64Le => 0x6c,
        Opcode::F64Ge => 0x6d,
        Opcode::F64Neg => 0x6e,
        Opcode::F64Abs => 0x6f,
        Opcode::F64ToBits => 0x70,
        Opcode::F64FromBits => 0x71,
        Opcode::F64ToI64 => 0x72,
        Opcode::F64ToU64 => 0x73,
        Opcode::I64ToF64 => 0x74,
        Opcode::U64ToF64 => 0x75,
        Opcode::TupleNew => 0x80,
        Opcode::TupleGet => 0x81,
        Opcode::TupleLen => 0x82,
        Opcode::StructNew => 0x83,
        Opcode::StructGet => 0x84,
        Opcode::StructFieldCount => 0x85,
        Opcode::ArrayNew => 0x86,
        Opcode::ArrayLen => 0x87,
        Opcode::ArrayGet => 0x88,
        Opcode::ArrayGetImm => 0x89,
        Opcode::BytesLen => 0x90,
        Opcode::BytesEq => 0x91,
        Opcode::BytesConcat => 0x92,
        Opcode::BytesGet => 0x93,
        Opcode::BytesGetImm => 0x94,
        Opcode::BytesSlice => 0x95,
        Opcode::BytesToStr => 0x96,
        Opcode::StrLen => 0x98,
        Opcode::StrEq => 0x99,
        Opcode::StrConcat => 0x9a,
        Opcode::StrSlice => 0x9b,
        Opcode::StrToBytes => 0x9c,
    }
}

/// The opcode of a byte.
pub open spec fn opcode_of(v: u8) -> Option<Opcode> {
    if v == 0x00 {
        Some(Opcode::Nop)
    } else if v == 0x01 {
        Some(Opcode::Mov)
    } else if v == 0x02 {
        Some(Opcode::Trap)
    } else if v == 0x10 {
        Some(Opcode::ConstUnit)
    } else if v == 0x11 {
        Some(Opcode::ConstBool)
    } else if v == 0x12 {
        Some(Opcode::ConstI64)
    } else if v == 0x13 {
        Some(Opcode::ConstU64)
    } else if v == 0x14 {
        Some(Opcode::ConstF64)
    } else if v == 0x15 {
        Some(Opcode::ConstDecimal)
    } else if v == 0x16 {
        Some(Opcode::ConstPool)
    } else if v == 0x18 {
        Some(Opcode::DecAdd)
    } else if v == 0x19 {
        Some(Opcode::DecSub)
    } else if v == 0x1a {
        Some(Opcode::DecMul)
    } else if v == 0x1b {
        Some(Opcode::DecToI64)
    } else if v == 0x1c {
        Some(Opcode::DecToU64)
    } else if v == 0x1d {
        Some(Opcode::I64ToDec)
    } else if v == 0x1e {
        Some(Opcode::U64ToDec)
    } else if v == 0x20 {
        Some(Opcode::I64Add)
    } else if v == 0x21 {
        Some(Opcode::I64Sub)
    } else if v == 0x22 {
        Some(Opcode::I64Mul)
    } else if v == 0x23 {
        Some(Opcode::I64Div)
    } else if v == 0x24 {
        Some(Opcode::I64Rem)
    } else if v == 0x25 {
        Some(Opcode::I64And)
    } else if v == 0x26 {
        Some(Opcode::I64Or)
    } else if v == 0x27 {
        Some(Opcode::I64Xor)
    } else if v == 0x28 {
        Some(Opcode::I64Shl)
    } else if v == 0x29 {
        Some(Opcode::I64Shr)
    } else if v == 0x2a {
        Some(Opcode::I64Eq)
    } else if v == 0x2b {
        Some(Opcode::I64Lt)
    } else if v == 0x2c {
        Some(Opcode::I64Gt)
    } else if v == 0x2d {
        Some(Opcode::I64Le)
    } else if v == 0x2e {
        Some(Opcode::I64Ge)
    } else if v == 0x2f {
        Some(Opcode::I64ToU64)
    } else if v == 0x30 {
        Some(Opcode::U64Add)
    } else if v == 0x31 {
        Some(Opcode::U64Sub)
    } else if v == 0x32 {
        Some(Opcode::U64Mul)
    } else if v == 0x33 {
        Some(Opcode::U64Div)
    } else if v == 0x34 {
        Some(Opcode::U64Rem)
    } else if v == 0x35 {
        Some(Opcode::U64And)
    } else if v == 0x36 {
        Some(Opcode::U64Or)
    } else if v == 0x37 {
        Some(Opcode::U64Xor)
    } else if v == 0x38 {
        Some(Opcode::U64Shl)
    } else if v == 0x39 {
        Some(Opcode::U64Shr)
    } else if v == 0x3a {
        Some(Opcode::U64Eq)
    } else if v == 0x3b {
        Some(Opcode::U64Lt)
    } else if v == 0x3c {
        Some(Opcode::U64Gt)
    } else if v == 0x3d {
        Some(Opcode::U64Le)
    } else if v == 0x3e {
        Some(Opcode::U64Ge)
    } else if v == 0x3f {
        Some(Opcode::U64ToI64)
    } else if v == 0x40 {
        Some(Opcode::Br)
    } else if v == 0x41 {
        Some(Opcode::Jmp)
    } else if v == 0x42 {
        Some(Opcode::BoolNot)
    } else if v == 0x43 {
        Some(Opcode::BoolAnd)
    } else if v == 0x44 {
        Some(Opcode::BoolOr)
    } else if v == 0x45 {
        Some(Opcode::BoolXor)
    } else if v == 0x46 {
        Some(Opcode::Select)
    } else if v == 0x50 {
        Some(Opcode::Call)
    } else if v == 0x51 {
        Some(Opcode::Ret)
    } else if v == 0x52 {
        Some(Opcode::HostCall)
    } else if v == 0x60 {
        Some(Opcode::F64Add)
    } else if v == 0x61 {
        Some(Opcode::F64Sub)
    } else if v == 0x62 {
        Some(Opcode::F64Mul)
    } else if v == 0x63 {
        Some(Opcode::F64Div)
    } else if v == 0x64 {
        Some(Opcode::F64Rem)
    } else if v == 0x65 {
        Some(Opcode::F64Min)
    } else if v == 0x66 {
        Some(Opcode::F64Max)
    } else if v == 0x67 {
        Some(Opcode::F64MinNum)
    } else if v == 0x68 {
        Some(Opcode::F64MaxNum)
    } else if v == 0x69 {
        Some(Opcode::F64Eq)
    } else if v == 0x6a {
        Some(Opcode::F64Lt)
    } else if v == 0x6b {
        Some(Opcode::F64Gt)
    } else if v == 0x6c {
        Some(Opcode::F64Le)
    } else if v == 0x6d {
        Some(Opcode::F64Ge)
    } else if v == 0x6e {
        Some(Opcode::F64Neg)
    } else if v == 0x6f {
        Some(Opcode::F64Abs)
    } else if v == 0x70 {
        Some(Opcode::F64ToBits)
    } else if v == 0x71 {
        Some(Opcode::F64FromBits)
    } else if v == 0x72 {
        Some(Opcode::F64ToI64)
    } else if v == 0x73 {
        Some(Opcode::F64ToU64)
    } else if v == 0x74 {
        Some(Opcode::I64ToF64)
    } else if v == 0x75 {
        Some(Opcode::U64ToF64)
    } else if v == 0x80 {
        Some(Opcode::TupleNew)
    } else if v == 0x81 {
        Some(Opcode::TupleGet)
    } else if v == 0x82 {
        Some(Opcode::TupleLen)
    } else if v == 0x83 {
        Some(Opcode::StructNew)
    } else if v == 0x84 {
        Some(Opcode::StructGet)
    } else if v == 0x85 {
        Some(Opcode::StructFieldCount)
    } else if v == 0x86 {
        Some(Opcode::ArrayNew)
    } else if v == 0x87 {
        Some(Opcode::ArrayLen)
    } else if v == 0x88 {
        Some(Opcode::ArrayGet)
    } else if v == 0x89 {
        Some(Opcode::ArrayGetImm)
    } else if v == 0x90 {
        Some(Opcode::BytesLen)
    } else if v == 0x91 {
        Some(Opcode::BytesEq)
    } else if v == 0x92 {
        Some(Opcode::BytesConcat)
    } else if v == 0x93 {
        Some(Opcode::BytesGet)
    } else if v == 0x94 {
        Some(Opcode::BytesGetImm)
    } else if v == 0x95 {
        Some(Opcode::BytesSlice)
    } else if v == 0x96 {
        Some(Opcode::BytesToStr)
    } else if v == 0x98 {
        Some(Opcode::StrLen)
    } else if v == 0x99 {
        Some(Opcode::StrEq)
    } else if v == 0x9a {
        Some(Opcode::StrConcat)
    } else if v == 0x9b {
        Some(Opcode::StrSlice)
    } else if v == 0x9c {
        Some(Opcode::StrToBytes)
    } else {
        None
    }
}

/// The shape of an opcode.
pub open spec fn opcode_shape(op: Opcode) -> Shape {
    match op {
        Opcode::Nop => Shape::Nullary,
        Opcode::Mov => Shape::Unary,
        Opcode::Trap => Shape::Trap,
        Opcode::ConstUnit => Shape::ConstUnit,
        Opcode::ConstBool => Shape::ConstBool,
        Opcode::ConstI64 => Shape::ConstI64,
        Opcode::ConstU64 => Shape::ConstU64,
        Opcode::ConstF64 => Shape::ConstF64,
        Opcode::ConstDecimal => Shape::ConstDecimal,
        Opcode::ConstPool => Shape::ConstPool,
        Opcode::DecAdd => Shape::Binary,
        Opcode::DecSub => Shape::Binary,
        Opcode::DecMul => Shape::Binary,
        Opcode::DecToI64 => Shape::Unary,
        Opcode::DecToU64 => Shape::Unary,
        Opcode::I64ToDec => Shape::ToDec,
        Opcode::U64ToDec => Shape::ToDec,
        Opcode::I64Add => Shape::Binary,
        Opcode::I64Sub => Shape::Binary,
        Opcode::I64Mul => Shape::Binary,
        Opcode::I64Div => Shape::Binary,
        Opcode::I64Rem => Shape::Binary,
        Opcode::I64And => Shape::Binary,
        Opcode::I64Or => Shape::Binary,
        Opcode::I64Xor => Shape::Binary,
        Opcode::I64Shl => Shape::Binary,
        Opcode::I64Shr => Shape::Binary,
        Opcode::I64Eq => Shape::Binary,
        Opcode::I64Lt => Shape::Binary,
        Opcode::I64Gt => Shape::Binary,
        Opcode::I64Le => Shape::Binary,
        Opcode::I64Ge => Shape::Binary,
        Opcode::I64ToU64 => Shape::Unary,
        Opcode::U64Add => Shape::Binary,
        Opcode::U64Sub => Shape::Binary,
        Opcode::U64Mul => Shape::Binary,
        Opcode::U64Div => Shape::Binary,
        Opcode::U64Rem => Shape::Binary,
        Opcode::U64And => Shape::Binary,
        Opcode::U64Or => Shape::Binary,
        Opcode::U64Xor => Shape::Binary,
        Opcode::U64Shl => Shape::Binary,
        Opcode::U64Shr => Shape::Binary,
        Opcode::U64Eq => Shape::Binary,
        Opcode::U64Lt => Shape::Binary,
        Opcode::U64Gt => Shape::Binary,
        Opcode::U64Le => Shape::Binary,
        Opcode::U64Ge => Shape::Binary,
        Opcode::U64ToI64 => Shape::Unary,
        Opcode::Br => Shape::Br,
        Opcode::Jmp => Shape::Jmp,
        Opcode::BoolNot => Shape::Unary,
        Opcode::BoolAnd => Shape::Binary,
        Opcode::BoolOr => Shape::Binary,
        Opcode::BoolXor => Shape::Binary,
        Opcode::Select => Shape::Select,
        Opcode::Call => Shape::Call,
        Opcode::Ret => Shape::Ret,
        Opcode::HostCall => Shape::HostCall,
        Opcode::F64Add => Shape::Binary,
        Opcode::F64Sub => Shape::Binary,
        Opcode::F64Mul => Shape::Binary,
        Opcode::F64Div => Shape::Binary,
        Opcode::F64Rem => Shape::Binary,
        Opcode::F64Min => Shape::Binary,
        Opcode::F64Max => Shape::Binary,
        Opcode::F64MinNum => Shape::Binary,
        Opcode::F64MaxNum => Shape::Binary,
        Opcode::F64Eq => Shape::Binary,
        Opcode::F64Lt => Shape::Binary,
        Opcode::F64Gt => Shape::Binary,
        Opcode::F64Le => Shape::Binary,
        Opcode::F64Ge => Shape::Binary,
        Opcode::F64Neg => Shape::Unary,
        Opcode::F64Abs => Shape::Unary,
        Opcode::F64ToBits => Shape::Unary,
        Opcode::F64FromBits => Shape::Unary,
        Opcode::F64ToI64 => Shape::Unary,
        Opcode::F64ToU64 => Shape::Unary,
        Opcode::I64ToF64 => Shape::Unary,
        Opcode::U64ToF64 => Shape::Unary,
        Opcode::TupleNew => Shape::TupleNew,
        Opcode::TupleGet => Shape::IndexGet,
        Opcode::TupleLen => Shape::Unary,
        Opcode::StructNew => Shape::StructNew,
        Opcode::StructGet => Shape::FieldGet,
        Opcode::StructFieldCount => Shape::Unary,
        Opcode::ArrayNew => Shape::ArrayNew,
        Opcode::ArrayLen => Shape::Unary,
        Opcode::ArrayGet => Shape::Binary,
        Opcode::ArrayGetImm => Shape::IndexGet,
        Opcode::BytesLen => Shape::Unary,
        Opcode::BytesEq => Shape::Binary,
        Opcode::BytesConcat => Shape::Binary,
        Opcode::BytesGet => Shape::Binary,
        Opcode::BytesGetImm => Shape::IndexGet,
        Opcode::BytesSlice => Shape::Slice,
        Opcode::BytesToStr => Shape::Unary,
        Opcode::StrLen => Shape::Unary,
        Opcode::StrEq => Shape::Binary,
        Opcode::StrConcat => Shape::Binary,
        Opcode::StrSlice => Shape::Slice,
        Opcode::StrToBytes => Shape::Unary,
    }
}

/// The operands of an opcode, in order.
pub open spec fn opcode_roles(op: Opcode) -> Seq<OperandRole> {
    shape_roles(opcode_shape(op))
}

/// The name of an opcode.
pub open spec fn opcode_name(op: Opcode) -> Seq<char> {
    match op {
        Opcode::Nop => "nop"@,
        Opcode::Mov => "mov"@,
        Opcode::Trap => "trap"@,
        Opcode::ConstUnit => "const_unit"@,
        Opcode::ConstBool => "const_bool"@,
        Opcode::ConstI64 => "const_i64"@,
        Opcode::ConstU64 => "const_u64"@,
        Opcode::ConstF64 => "const_f64"@,
        Opcode::ConstDecimal => "const_decimal"@,
        Opcode::ConstPool => "const_pool"@,
        Opcode::DecAdd => "dec_add"@,
        Opcode::DecSub => "dec_sub"@,
        Opcode::DecMul => "dec_mul"@,
        Opcode::DecToI64 => "dec_to_i64"@,
        Opcode::DecToU64 => "dec_to_u64"@,
        Opcode::I64ToDec => "i64_to_dec"@,
        Opcode::U64ToDec => "u64_to_dec"@,
        Opcode::I64Add => "i64_add"@,
        Opcode::I64Sub => "i64_sub"@,
        Opcode::I64Mul => "i64_mul"@,
        Opcode::I64Div => "i64_div"@,
        Opcode::I64Rem => "i64_rem"@,
        Opcode::I64And => "i64_and"@,
        Opcode::I64Or => "i64_or"@,
        Opcode::I64Xor => "i64_xor"@,
        Opcode::I64Shl => "i64_shl"@,
        Opcode::I64Shr => "i64_shr"@,
        Opcode::I64Eq => "i64_eq"@,
        Opcode::I64Lt => "i64_lt"@,
        Opcode::I64Gt => "i64_gt"@,
        Opcode::I64Le => "i64_le"@,
        Opcode::I64Ge => "i64_ge"@,
        Opcode::I64ToU64 => "i64_to_u64"@,
        Opcode::U64Add => "u64_add"@,
        Opcode::U64Sub => "u64_sub"@,
        Opcode::U64Mul => "u64_mul"@,
        Opcode::U64Div => "u64_div"@,
        Opcode::U64Rem => "u64_rem"@,
        Opcode::U64And => "u64_and"@,
        Opcode::U64Or => "u64_or"@,
        Opcode::U64Xor => "u64_xor"@,
        Opcode::U64Shl => "u64_shl"@,
        Opcode::U64Shr => "u64_shr"@,
        Opcode::U64Eq => "u64_eq"@,
        Opcode::U64Lt => "u64_lt"@,
        Opcode::U64Gt => "u64_gt"@,
        Opcode::U64Le => "u64_le"@,
        Opcode::U64Ge => "u64_ge"@,
        Opcode::U64ToI64 => "u64_to_i64"@,
        Opcode::Br => "br"@,
        Opcode::Jmp => "jmp"@,
        Opcode::BoolNot => "bool_not"@,
        Opcode::BoolAnd => "bool_and"@,
        Opcode::BoolOr => "bool_or"@,
        Opcode::BoolXor => "bool_xor"@,
        Opcode::Select => "select"@,
        Opcode::Call => "call"@,
        Opcode::Ret => "ret"@,
        Opcode::HostCall => "host_call"@,
        Opcode::F64Add => "f64_add"@,
        Opcode::F64Sub => "f64_sub"@,
        Opcode::F64Mul => "f64_mul"@,
        Opcode::F64Div => "f64_div"@,
        Opcode::F64Rem => "f64_rem"@,
        Opcode::F64Min => "f64_min"@,
        Opcode::F64Max => "f64_max"@,
        Opcode::F64MinNum => "f64_min_num"@,
        Opcode::F64MaxNum => "f64_max_num"@,
        Opcode::F64Eq => "f64_eq"@,
        Opcode::F64Lt => "f64_lt"@,
        Opcode::F64Gt => "f64_gt"@,
        Opcode::F64Le => "f64_le"@,
        Opcode::F64Ge => "f64_ge"@,
        Opcode::F64Neg => "f64_neg"@,
        Opcode::F64Abs => "f64_abs"@,
        Opcode::F64ToBits => "f64_to_bits"@,
        Opcode::F64FromBits => "f64_from_bits"@,
        Opcode::F64ToI64 => "f64_to_i64"@,
        Opcode::F64ToU64 => "f64_to_u64"@,
        Opcode::I64ToF64 => "i64_to_f64"@,
        Opcode::U64ToF64 => "u64_to_f64"@,
        Opcode::TupleNew => "tuple_new"@,
        Opcode::TupleGet => "tuple_get"@,
        Opcode::TupleLen => "tuple_len"@,
        Opcode::StructNew => "struct_new"@,
        Opcode::StructGet => "struct_get"@,
        Opcode::StructFieldCount => "struct_field_count"@,
        Opcode::ArrayNew => "array_new"@,
        Opcode::ArrayLen => "array_len"@,
        Opcode::ArrayGet => "array_get"@,
        Opcode::ArrayGetImm => "array_get_imm"@,
        Opcode::BytesLen => "bytes_len"@,
        Opcode::BytesEq => "bytes_eq"@,
        Opcode::BytesConcat => "bytes_concat"@,
        Opcode::BytesGet => "bytes_get"@,
        Opcode::BytesGetImm => "bytes_get_imm"@,
        Opcode::BytesSlice => "bytes_slice"@,
        Opcode::BytesToStr => "bytes_to_str"@,
        Opcode::StrLen => "str_len"@,
        Opcode::StrEq => "str_eq"@,
        Opcode::StrConcat => "str_concat"@,
        Opcode::StrSlice => "str_slice"@,
        Opcode::StrToBytes => "str_to_bytes"@,
    }
}

/// Whether control does not go on to the next instruction.
pub open spec fn ends_block(op: Opcode) -> bool {
    op is Br || op is Jmp || op is Ret || op is Trap
}

/// Whether an opcode passes control and the effect token to or from a function.
pub open spec fn calls(op: Opcode) -> bool {
    op is Call || op is HostCall || op is Ret
}

/// Every opcode is the opcode of its byte, and of no other.
pub proof fn law_opcode_bytes(op: Opcode, v: u8)
    ensures
        opcode_of(opcode_byte(op)) == Some(op),
        opcode_of(v) == Some(op) <==> opcode_byte(op) == v,
{
}

impl Opcode {
    /// The byte of this opcode.
    pub fn to_u8(self) -> (b: u8)
        ensures
            b == opcode_byte(self),
    {
        match self {
            Opcode::Nop => 0x00,
            Opcode::Mov => 0x01,
            Opcode::Trap => 0x02,
            Opcode::ConstUnit => 0x10,
            Opcode::ConstBool => 0x11,
            Opcode::ConstI64 => 0x12,
            Opcode::ConstU64 => 0x13,
            Opcode::ConstF64 => 0x14,
            Opcode::ConstDecimal => 0x15,
            Opcode::ConstPool => 0x16,
            Opcode::DecAdd => 0x18,
            Opcode::DecSub => 0x19,
            Opcode::DecMul => 0x1a,
            Opcode::DecToI64 => 0x1b,
            Opcode::DecToU64 => 0x1c,
            Opcode::I64ToDec => 0x1d,
            Opcode::U64ToDec => 0x1e,
            Opcode::I64Add => 0x20,
            Opcode::I64Sub => 0x21,
            Opcode::I64Mul => 0x22,
            Opcode::I64Div => 0x23,
            Opcode::I64Rem => 0x24,
            Opcode::I64And => 0x25,
            Opcode::I64Or => 0x26,
            Opcode::I64Xor => 0x27,
            Opcode::I64Shl => 0x28,
            Opcode::I64Shr => 0x29,
            Opcode::I64Eq => 0x2a,
            Opcode::I64Lt => 0x2b,
            Opcode::I64Gt => 0x2c,
            Opcode::I64Le => 0x2d,
            Opcode::I64Ge => 0x2e,
            Opcode::I64ToU64 => 0x2f,
            Opcode::U64Add => 0x30,
            Opcode::U64Sub => 0x31,
            Opcode::U64Mul => 0x32,
            Opcode::U64Div => 0x33,
            Opcode::U64Rem => 0x34,
            Opcode::U64And => 0x35,
            Opcode::U64Or => 0x36,
            Opcode::U64Xor => 0x37,
            Opcode::U64Shl => 0x38,
            Opcode::U64Shr => 0x39,
            Opcode::U64Eq => 0x3a,
            Opcode::U64Lt => 0x3b,
            Opcode::U64Gt => 0x3c,
            Opcode::U64Le => 0x3d,
            Opcode::U64Ge => 0x3e,
            Opcode::U64ToI64 => 0x3f,
            Opcode::Br => 0x40,
            Opcode::Jmp => 0x41,
            Opcode::BoolNot => 0x42,
            Opcode::BoolAnd => 0x43,
            Opcode::BoolOr => 0x44,
            Opcode::BoolXor => 0x45,
            Opcode::Select => 0x46,
            Opcode::Call => 0x50,
            Opcode::Ret => 0x51,
            Opcode::HostCall => 0x52,
            Opcode::F64Add => 0x60,
            Opcode::F64Sub => 0x61,
            Opcode::F64Mul => 0x62,
            Opcode::F64Div => 0x63,
            Opcode::F64Rem => 0x64,
            Opcode::F64Min => 0x65,
            Opcode::F64Max => 0x66,
            Opcode::F64MinNum => 0x67,
            Opcode::F64MaxNum => 0x68,
            Opcode::F64Eq => 0x69,
            Opcode::F64Lt => 0x6a,
            Opcode::F64Gt => 0x6b,
            Opcode::F64Le => 0x6c,
            Opcode::F64Ge => 0x6d,
            Opcode::F64Neg => 0x6e,
            Opcode::F64Abs => 0x6f,
            Opcode::F64ToBits => 0x70,
            Opcode::F64FromBits => 0x71,
            Opcode::F64ToI64 => 0x72,
            Opcode::F64ToU64 => 0x73,
            Opcode::I64ToF64 => 0x74,
            Opcode::U64ToF64 => 0x75,
            Opcode::TupleNew => 0x80,
            Opcode::TupleGet => 0x81,
            Opcode::TupleLen => 0x82,
            Opcode::StructNew => 0x83,
            Opcode::StructGet => 0x84,
            Opcode::StructFieldCount => 0x85,
            Opcode::ArrayNew => 0x86,
            Opcode::ArrayLen => 0x87,
            Opcode::ArrayGet => 0x88,
            Opcode::ArrayGetImm => 0x89,
            Opcode::BytesLen => 0x90,
            Opcode::BytesEq => 0x91,
            Opcode::BytesConcat => 0x92,
            Opcode::BytesGet => 0x93,
            Opcode::BytesGetImm => 0x94,
            Opcode::BytesSlice => 0x95,
            Opcode::BytesToStr => 0x96,
            Opcode::StrLen => 0x98,
            Opcode::StrEq => 0x99,
            Opcode::StrConcat => 0x9a,
            Opcode::StrSlice => 0x9b,
            Opcode::StrToBytes => 0x9c,
        }
    }

    /// The opcode of a byte.
    pub fn from_u8(v: u8) -> (res: Option<Opcode>)
        ensures
            res == opcode_of(v),
    {
        match v {
            0x00 => Some(Opcode::Nop),
            0x01 => Some(Opcode::Mov),
            0x02 => Some(Opcode::Trap),
            0x10 => Some(Opcode::ConstUnit),
            0x11 => Some(Opcode::ConstBool),
            0x12 => Some(Opcode::ConstI64),
            0x13 => Some(Opcode::ConstU64),
            0x14 => Some(Opcode::ConstF64),
            0x15 => Some(Opcode::ConstDecimal),
            0x16 => Some(Opcode::ConstPool),
            0x18 => Some(Opcode::DecAdd),
            0x19 => Some(Opcode::DecSub),
            0x1a => Some(Opcode::DecMul),
            0x1b => Some(Opcode::DecToI64),
            0x1c => Some(Opcode::DecToU64),
            0x1d => Some(Opcode::I64ToDec),
            0x1e => Some(Opcode::U64ToDec),
            0x20 => Some(Opcode::I64Add),
            0x21 => Some(Opcode::I64Sub),
            0x22 => Some(Opcode::I64Mul),
            0x23 => Some(Opcode::I64Div),
            0x24 => Some(Opcode::I64Rem),
            0x25 => Some(Opcode::I64And),
            0x26 => Some(Opcode::I64Or),
            0x27 => Some(Opcode::I64Xor),
            0x28 => Some(Opcode::I64Shl),
            0x29 => Some(Opcode::I64Shr),
            0x2a => Some(Opcode::I64Eq),
            0x2b => Some(Opcode::I64Lt),
            0x2c => Some(Opcode::I64Gt),
            0x2d => Some(Opcode::I64Le),
            0x2e => Some(Opcode::I64Ge),
            0x2f => Some(Opcode::I64ToU64),
            0x30 => Some(Opcode::U64Add),
            0x31 => Some(Opcode::U64Sub),
            0x32 => Some(Opcode::U64Mul),
            0x33 => Some(Opcode::U64Div),
            0x34 => Some(Opcode::U64Rem),
            0x35 => Some(Opcode::U64And),
            0x36 => Some(Opcode::U64Or),
            0x37 => Some(Opcode::U64Xor),
            0x38 => Some(Opcode::U64Shl),
            0x39 => Some(Opcode::U64Shr),
            0x3a => Some(Opcode::U64Eq),
            0x3b => Some(Opcode::U64Lt),
            0x3c => Some(Opcode::U64Gt),
            0x3d => Some(Opcode::U64Le),
            0x3e => Some(Opcode::U64Ge),
            0x3f => Some(Opcode::U64ToI64),
            0x40 => Some(Opcode::Br),
            0x41 => Some(Opcode::Jmp),
            0x42 => Some(Opcode::BoolNot),
            0x43 => Some(Opcode::BoolAnd),
            0x44 => Some(Opcode::BoolOr),
            0x45 => Some(Opcode::BoolXor),
            0x46 => Some(Opcode::Select),
            0x50 => Some(Opcode::Call),
            0x51 => Some(Opcode::Ret),
            0x52 => Some(Opcode::HostCall),
            0x60 => Some(Opcode::F64Add),
            0x61 => Some(Opcode::F64Sub),
            0x62 => Some(Opcode::F64Mul),
            0x63 => Some(Opcode::F64Div),
            0x64 => Some(Opcode::F64Rem),
            0x65 => Some(Opcode::F64Min),
            0x66 => Some(Opcode::F64Max),
            0x67 => Some(Opcode::F64MinNum),
            0x68 => Some(Opcode::F64MaxNum),
            0x69 => Some(Opcode::F64Eq),
            0x6a => Some(Opcode::F64Lt),
            0x6b => Some(Opcode::F64Gt),
            0x6c => Some(Opcode::F64Le),
            0x6d => Some(Opcode::F64Ge),
            0x6e => Some(Opcode::F64Neg),
            0x6f => Some(Opcode::F64Abs),
            0x70 => Some(Opcode::F64ToBits),
            0x71 => Some(Opcode::F64FromBits),
            0x72 => Some(Opcode::F64ToI64),
            0x73 => Some(Opcode::F64ToU64),
            0x74 => Some(Opcode::I64ToF64),
            0x75 => Some(Opcode::U64ToF64),
            0x80 => Some(Opcode::TupleNew),
            0x81 => Some(Opcode::TupleGet),
            0x82 => Some(Opcode::TupleLen),
            0x83 => Some(Opcode::StructNew),
            0x84 => Some(Opcode::StructGet),
            0x85 => Some(Opcode::StructFieldCount),
            0x86 => Some(Opcode::ArrayNew),
            0x87 => Some(Opcode::ArrayLen),
            0x88 => Some(Opcode::ArrayGet),
            0x89 => Some(Opcode::ArrayGetImm),
            0x90 => Some(Opcode::BytesLen),
            0x91 => Some(Opcode::BytesEq),
            0x92 => Some(Opcode::BytesConcat),
            0x93 => Some(Opcode::BytesGet),
            0x94 => Some(Opcode::BytesGetImm),
            0x95 => Some(Opcode::BytesSlice),
            0x96 => Some(Opcode::BytesToStr),
            0x98 => Some(Opcode::StrLen),
            0x99 => Some(Opcode::StrEq),
            0x9a => Some(Opcode::StrConcat),
            0x9b => Some(Opcode::StrSlice),
            0x9c => Some(Opcode::StrToBytes),
            _ => None,
        }
    }

    /// The shape of this opcode.
    pub fn shape(self) -> (s: Shape)
        ensures
            s == opcode_shape(self),
    {
        match self {
            Opcode::Nop => Shape::Nullary,
            Opcode::Mov => Shape::Unary,
            Opcode::Trap => Shape::Trap,
            Opcode::ConstUnit => Shape::ConstUnit,
            Opcode::ConstBool => Shape::ConstBool,
            Opcode::ConstI64 => Shape::ConstI64,
            Opcode::ConstU64 => Shape::ConstU64,
            Opcode::ConstF64 => Shape::ConstF64,
            Opcode::ConstDecimal => Shape::ConstDecimal,
            Opcode::ConstPool => Shape::ConstPool,
            Opcode::DecAdd => Shape::Binary,
            Opcode::DecSub => Shape::Binary,
            Opcode::DecMul => Shape::Binary,
            Opcode::DecToI64 => Shape::Unary,
            Opcode::DecToU64 => Shape::Unary,
            Opcode::I64ToDec => Shape::ToDec,
            Opcode::U64ToDec => Shape::ToDec,
            Opcode::I64Add => Shape::Binary,
            Opcode::I64Sub => Shape::Binary,
            Opcode::I64Mul => Shape::Binary,
            Opcode::I64Div => Shape::Binary,
            Opcode::I64Rem => Shape::Binary,
            Opcode::I64And => Shape::Binary,
            Opcode::I64Or => Shape::Binary,
            Opcode::I64Xor => Shape::Binary,
            Opcode::I64Shl => Shape::Binary,
            Opcode::I64Shr => Shape::Binary,
            Opcode::I64Eq => Shape::Binary,
            Opcode::I64Lt => Shape::Binary,
            Opcode::I64Gt => Shape::Binary,
            Opcode::I64Le => Shape::Binary,
            Opcode::I64Ge => Shape::Binary,
            Opcode::I64ToU64 => Shape::Unary,
            Opcode::U64Add => Shape::Binary,
            Opcode::U64Sub => Shape::Binary,
            Opcode::U64Mul => Shape::Binary,
            Opcode::U64Div => Shape::Binary,
            Opcode::U64Rem => Shape::Binary,
            Opcode::U64And => Shape::Binary,
            Opcode::U64Or => Shape::Binary,
            Opcode::U64Xor => Shape::Binary,
            Opcode::U64Shl => Shape::Binary,
            Opcode::U64Shr => Shape::Binary,
            Opcode::U64Eq => Shape::Binary,
            Opcode::U64Lt => Shape::Binary,
            Opcode::U64Gt => Shape::Binary,
            Opcode::U64Le => Shape::Binary,
            Opcode::U64Ge => Shape::Binary,
            Opcode::U64ToI64 => Shape::Unary,
            Opcode::Br => Shape::Br,
            Opcode::Jmp => Shape::Jmp,
            Opcode::BoolNot => Shape::Unary,
            Opcode::BoolAnd => Shape::Binary,
            Opcode::BoolOr => Shape::Binary,
            Opcode::BoolXor => Shape::Binary,
            Opcode::Select => Shape::Select,
            Opcode::Call => Shape::Call,
            Opcode::Ret => Shape::Ret,
            Opcode::HostCall => Shape::HostCall,
            Opcode::F64Add => Shape::Binary,
            Opcode::F64Sub => Shape::Binary,
            Opcode::F64Mul => Shape::Binary,
            Opcode::F64Div => Shape::Binary,
            Opcode::F64Rem => Shape::Binary,
            Opcode::F64Min => Shape::Binary,
            Opcode::F64Max => Shape::Binary,
            Opcode::F64MinNum => Shape::Binary,
            Opcode::F64MaxNum => Shape::Binary,
            Opcode::F64Eq => Shape::Binary,
            Opcode::F64Lt => Shape::Binary,
            Opcode::F64Gt => Shape::Binary,
            Opcode::F64Le => Shape::Binary,
            Opcode::F64Ge => Shape::Binary,
            Opcode::F64Neg => Shape::Unary,
            Opcode::F64Abs => Shape::Unary,
            Opcode::F64ToBits => Shape::Unary,
            Opcode::F64FromBits => Shape::Unary,
            Opcode::F64ToI64 => Shape::Unary,
            Opcode::F64ToU64 => Shape::Unary,
            Opcode::I64ToF64 => Shape::Unary,
            Opcode::U64ToF64 => Shape::Unary,
            Opcode::TupleNew => Shape::TupleNew,
            Opcode::TupleGet => Shape::IndexGet,
            Opcode::TupleLen => Shape::Unary,
            Opcode::StructNew => Shape::StructNew,
            Opcode::StructGet => Shape::FieldGet,
            Opcode::StructFieldCount => Shape::Unary,
            Opcode::ArrayNew => Shape::ArrayNew,
            Opcode::ArrayLen => Shape::Unary,
            Opcode::ArrayGet => Shape::Binary,
            Opcode::ArrayGetImm => Shape::IndexGet,
            Opcode::BytesLen => Shape::Unary,
            Opcode::BytesEq => Shape::Binary,
            Opcode::BytesConcat => Shape::Binary,
            Opcode::BytesGet => Shape::Binary,
            Opcode::BytesGetImm => Shape::IndexGet,
            Opcode::BytesSlice => Shape::Slice,
            Opcode::BytesToStr => Shape::Unary,
            Opcode::StrLen => Shape::Unary,
            Opcode::StrEq => Shape::Binary,
            Opcode::StrConcat => Shape::Binary,
            Opcode::StrSlice => Shape::Slice,
            Opcode::StrToBytes => Shape::Unary,
        }
    }

    /// The operands of this opcode, in order.
    pub fn operands(self) -> (r: Vec<OperandRole>)
        ensures
            r@ == opcode_roles(self),
    {
        let r: Vec<OperandRole> = match self.shape() {
            Shape::Nullary => Vec::new(),
            Shape::Trap => vec![OperandRole::TrapCode],
            Shape::ConstUnit => vec![OperandRole::Dst],
            Shape::ConstBool => vec![OperandRole::Dst, OperandRole::ImmBool],
            Shape::ConstI64 => vec![OperandRole::Dst, OperandRole::ImmI64],
            Shape::ConstU64 => vec![OperandRole::Dst, OperandRole::ImmU64],
            Shape::ConstF64 => vec![OperandRole::Dst, OperandRole::ImmF64],
            Shape::ConstDecimal => vec![OperandRole::Dst, OperandRole::ImmI64, OperandRole::Scale],
            Shape::ConstPool => vec![OperandRole::Dst, OperandRole::Const],
            Shape::Unary => vec![OperandRole::Dst, OperandRole::Src],
            Shape::Binary => vec![OperandRole::Dst, OperandRole::Src, OperandRole::Src],
            Shape::ToDec => vec![OperandRole::Dst, OperandRole::Src, OperandRole::Scale],
            Shape::Select => vec![OperandRole::Dst, OperandRole::Src, OperandRole::Src, OperandRole::Src],
            Shape::Slice => vec![OperandRole::Dst, OperandRole::Src, OperandRole::Src, OperandRole::Src],
            Shape::IndexGet => vec![OperandRole::Dst, OperandRole::Src, OperandRole::Index],
            Shape::FieldGet => vec![OperandRole::Dst, OperandRole::Src, OperandRole::FieldIndex],
            Shape::Br => vec![OperandRole::Src, OperandRole::Pc, OperandRole::Pc],
            Shape::Jmp => vec![OperandRole::Pc],
            Shape::Call => vec![OperandRole::Dst, OperandRole::Func, OperandRole::Src, OperandRole::SrcList, OperandRole::DstList],
            Shape::HostCall => vec![OperandRole::Dst, OperandRole::HostSig, OperandRole::Src, OperandRole::SrcList, OperandRole::DstList],
            Shape::Ret => vec![OperandRole::Src, OperandRole::SrcList],
            Shape::TupleNew => vec![OperandRole::Dst, OperandRole::SrcList],
            Shape::StructNew => vec![OperandRole::Dst, OperandRole::Type, OperandRole::SrcList],
            Shape::ArrayNew => vec![OperandRole::Dst, OperandRole::ElemType, OperandRole::SrcList],
        };
        assert(r@ =~= opcode_roles(self));
        r
    }

    /// The name of this opcode.
    pub fn mnemonic(self) -> (s: &'static str)
        ensures
            s@ == opcode_name(self),
    {
        match self {
            Opcode::Nop => "nop",
            Opcode::Mov => "mov",
            Opcode::Trap => "trap",
            Opcode::ConstUnit => "const_unit",
            Opcode::ConstBool => "const_bool",
            Opcode::ConstI64 => "const_i64",
            Opcode::ConstU64 => "const_u64",
            Opcode::ConstF64 => "const_f64",
            Opcode::ConstDecimal => "const_decimal",
            Opcode::ConstPool => "const_pool",
            Opcode::DecAdd => "dec_add",
            Opcode::DecSub => "dec_sub",
            Opcode::DecMul => "dec_mul",
            Opcode::DecToI64 => "dec_to_i64",
            Opcode::DecToU64 => "dec_to_u64",
            Opcode::I64ToDec => "i64_to_dec",
            Opcode::U64ToDec => "u64_to_dec",
            Opcode::I64Add => "i64_add",
            Opcode::I64Sub => "i64_sub",
            Opcode::I64Mul => "i64_mul",
            Opcode::I64Div => "i64_div",
            Opcode::I64Rem => "i64_rem",
            Opcode::I64And => "i64_and",
            Opcode::I64Or => "i64_or",
            Opcode::I64Xor => "i64_xor",
            Opcode::I64Shl => "i64_shl",
            Opcode::I64Shr => "i64_shr",
            Opcode::I64Eq => "i64_eq",
            Opcode::I64Lt => "i64_lt",
            Opcode::I64Gt => "i64_gt",
            Opcode::I64Le => "i64_le",
            Opcode::I64Ge => "i64_ge",
            Opcode::I64ToU64 => "i64_to_u64",
            Opcode::U64Add => "u64_add",
            Opcode::U64Sub => "u64_sub",
            Opcode::U64Mul => "u64_mul",
            Opcode::U64Div => "u64_div",
            Opcode::U64Rem => "u64_rem",
            Opcode::U64And => "u64_and",
            Opcode::U64Or => "u64_or",
            Opcode::U64Xor => "u64_xor",
            Opcode::U64Shl => "u64_shl",
            Opcode::U64Shr => "u64_shr",
            Opcode::U64Eq => "u64_eq",
            Opcode::U64Lt => "u64_lt",
            Opcode::U64Gt => "u64_gt",
            Opcode::U64Le => "u64_le",
            Opcode::U64Ge => "u64_ge",
            Opcode::U64ToI64 => "u64_to_i64",
            Opcode::Br => "br",
            Opcode::Jmp => "jmp",
            Opcode::BoolNot => "bool_not",
            Opcode::BoolAnd => "bool_and",
            Opcode::BoolOr => "bool_or",
            Opcode::BoolXor => "bool_xor",
            Opcode::Select => "select",
            Opcode::Call => "call",
            Opcode::Ret => "ret",
            Opcode::HostCall => "host_call",
            Opcode::F64Add => "f64_add",
            Opcode::F64Sub => "f64_sub",
            Opcode::F64Mul => "f64_mul",
            Opcode::F64Div => "f64_div",
            Opcode::F64Rem => "f64_rem",
            Opcode::F64Min => "f64_min",
            Opcode::F64Max => "f64_max",
            Opcode::F64MinNum => "f64_min_num",
            Opcode::F64MaxNum => "f64_max_num",
            Opcode::F64Eq => "f64_eq",
            Opcode::F64Lt => "f64_lt",
            Opcode::F64Gt => "f64_gt",
            Opcode::F64Le => "f64_le",
            Opcode::F64Ge => "f64_ge",
            Opcode::F64Neg => "f64_neg",
            Opcode::F64Abs => "f64_abs",
            Opcode::F64ToBits => "f64_to_bits",
            Opcode::F64FromBits => "f64_from_bits",
            Opcode::F64ToI64 => "f64_to_i64",
            Opcode::F64ToU64 => "f64_to_u64",
            Opcode::I64ToF64 => "i64_to_f64",
            Opcode::U64ToF64 => "u64_to_f64",
            Opcode::TupleNew => "tuple_new",
            Opcode::TupleGet => "tuple_get",
            Opcode::TupleLen => "tuple_len",
            Opcode::StructNew => "struct_new",
            Opcode::StructGet => "struct_get",
            Opcode::StructFieldCount => "struct_field_count",
            Opcode::ArrayNew => "array_new",
            Opcode::ArrayLen => "array_len",
            Opcode::ArrayGet => "array_get",
            Opcode::ArrayGetImm => "array_get_imm",
            Opcode::BytesLen => "bytes_len",
            Opcode::BytesEq => "bytes_eq",
            Opcode::BytesConcat => "bytes_concat",
            Opcode::BytesGet => "bytes_get",
            Opcode::BytesGetImm => "bytes_get_imm",
            Opcode::BytesSlice => "bytes_slice",
            Opcode::BytesToStr => "bytes_to_str",
            Opcode::StrLen => "str_len",
            Opcode::StrEq => "str_eq",
            Opcode::StrConcat => "str_concat",
            Opcode::StrSlice => "str_slice",
            Opcode::StrToBytes => "str_to_bytes",
        }
    }

    /// Whether control does not go on to the next instruction.
    pub fn is_terminator(self) -> (b: bool)
        ensures
            b == ends_block(self),
    {
        match self {
            Opcode::Br | Opcode::Jmp | Opcode::Ret | Opcode::Trap => true,
            _ => false,
        }
    }

    /// Whether this opcode passes control and the effect token to or from a function.
    pub fn is_call_like(self) -> (b: bool)
        ensures
            b == calls(self),
    {
        match self {
            Opcode::Call | Opcode::HostCall | Opcode::Ret => true,
            _ => false,
        }
    }
}

} // verus!
