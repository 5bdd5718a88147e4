//! What each method of the assembler encodes.
//!
//! A method appends one instruction with the operands that it was given, in their order, and leaves
//! what came before it, the labels and the spans as they are.

use vstd::prelude::*;

use crate::assembler::{Asm, AsmInstr, Label};
use crate::bytecode::OperandModel;
use crate::opcode::Opcode;
use crate::program::{ConstId, ElemTypeId, HostSigId, TypeId};
use crate::value::{Decimal, FuncId};

verus! {

/// One more instruction, and nothing else.
pub open spec fn appends(
    before: Asm,
    after: Asm,
    op: Opcode,
    operands: Seq<OperandModel>,
    targets: Seq<Label>,
) -> bool {
    &&& after@.instrs == before@.instrs.push(AsmInstr { op, operands, targets })
    &&& after@.labels == before@.labels
    &&& after@.marks == before@.marks
}

/// The operand of a register or an index.
pub open spec fn word(v: u32) -> OperandModel {
    OperandModel::Word(v)
}

/// `nop` takes no operand.
pub proof fn law_encodes_nothing()
    ensures
        forall|m: &mut Asm, r: &mut Asm| #[trigger] call_ensures(Asm::nop, (m,), r)
            ==> appends(*m, *r, Opcode::Nop, seq![], seq![]),
{
}

/// An instruction that makes a value of another names the register of the result first.
pub proof fn law_encodes_one(dst: u32, a: u32)
    ensures
        forall|m: &mut Asm, r: &mut Asm| #[trigger] call_ensures(Asm::mov, (m, dst, a), r)
            ==> appends(*m, *r, Opcode::Mov, seq![word(dst), word(a)], seq![]),
        forall|m: &mut Asm, r: &mut Asm| #[trigger] call_ensures(Asm::dec_to_i64, (m, dst, a),
            r) ==> appends(*m, *r, Opcode::DecToI64, seq![word(dst), word(a)], seq![]),
        forall|m: &mut Asm, r: &mut Asm| #[trigger] call_ensures(Asm::dec_to_u64, (m, dst, a),
            r) ==> appends(*m, *r, Opcode::DecToU64, seq![word(dst), word(a)], seq![]),
        forall|m: &mut Asm, r: &mut Asm| #[trigger] call_ensures(Asm::i64_to_u64, (m, dst, a),
            r) ==> appends(*m, *r, Opcode::I64ToU64, seq![word(dst), word(a)], seq![]),
        forall|m: &mut Asm, r: &mut Asm| #[trigger] call_ensures(Asm::u64_to_i64, (m, dst, a),
            r) ==> appends(*m, *r, Opcode::U64ToI64, seq![word(dst), word(a)], seq![]),
        forall|m: &mut Asm, r: &mut Asm| #[trigger] call_ensures(Asm::bool_not, (m, dst, a),
            r) ==> appends(*m, *r, Opcode::BoolNot, seq![word(dst), word(a)], seq![]),
        forall|m: &mut Asm, r: &mut Asm| #[trigger] call_ensures(Asm::f64_neg, (m, dst, a), r)
            ==> appends(*m, *r, Opcode::F64Neg, seq![word(dst), word(a)], seq![]),
        forall|m: &mut Asm, r: &mut Asm| #[trigger] call_ensures(Asm::f64_abs, (m, dst, a), r)
            ==> appends(*m, *r, Opcode::F64Abs, seq![word(dst), word(a)], seq![]),
        forall|m: &mut Asm, r: &mut Asm| #[trigger] call_ensures(Asm::f64_to_bits, (m, dst, a),
            r) ==> appends(*m, *r, Opcode::F64ToBits, seq![word(dst), word(a)], seq![]),
        forall|m: &mut Asm, r: &mut Asm| #[trigger] call_ensures(Asm::f64_from_bits, (m, dst, a),
            r) ==> appends(*m, *r, Opcode::F64FromBits, seq![word(dst), word(a)], seq![]),
        forall|m: &mut Asm, r: &mut Asm| #[trigger] call_ensures(Asm::f64_to_i64, (m, dst, a),
            r) ==> appends(*m, *r, Opcode::F64ToI64, seq![word(dst), word(a)], seq![]),
        forall|m: &mut Asm, r: &mut Asm| #[trigger] call_ensures(Asm::f64_to_u64, (m, dst, a),
            r) ==> appends(*m, *r, Opcode::F64ToU64, seq![word(dst), word(a)], seq![]),
        forall|m: &mut Asm, r: &mut Asm| #[trigger] call_ensures(Asm::i64_to_f64, (m, dst, a),
            r) ==> appends(*m, *r, Opcode::I64ToF64, seq![word(dst), word(a)], seq![]),
        forall|m: &mut Asm, r: &mut Asm| #[trigger] call_ensures(Asm::u64_to_f64, (m, dst, a),
            r) ==> appends(*m, *r, Opcode::U64ToF64, seq![word(dst), word(a)], seq![]),
        forall|m: &mut Asm, r: &mut Asm| #[trigger] call_ensures(Asm::tuple_len, (m, dst, a),
            r) ==> appends(*m, *r, Opcode::TupleLen, seq![word(dst), word(a)], seq![]),
        forall|m: &mut Asm, r: &mut Asm| #[trigger] call_ensures(Asm::struct_field_count, (m, dst,
            a), r) ==> appends(*m, *r, Opcode::StructFieldCount, seq![word(dst), word(a)], seq![]),
        forall|m: &mut Asm, r: &mut Asm| #[trigger] call_ensures(Asm::array_len, (m, dst, a),
            r) ==> appends(*m, *r, Opcode::ArrayLen, seq![word(dst), word(a)], seq![]),
        forall|m: &mut Asm, r: &mut Asm| #[trigger] call_ensures(Asm::bytes_len, (m, dst, a),
            r) ==> appends(*m, *r, Opcode::BytesLen, seq![word(dst), word(a)], seq![]),
        forall|m: &mut Asm, r: &mut Asm| #[trigger] call_ensures(Asm::bytes_to_str, (m, dst, a),
            r) ==> appends(*m, *r, Opcode::BytesToStr, seq![word(dst), word(a)], seq![]),
        forall|m: &mut Asm, r: &mut Asm| #[trigger] call_ensures(Asm::str_len, (m, dst, a), r)
            ==> appends(*m, *r, Opcode::StrLen, seq![word(dst), word(a)], seq![]),
        forall|m: &mut Asm, r: &mut Asm| #[trigger] call_ensures(Asm::str_to_bytes, (m, dst, a),
            r) ==> appends(*m, *r, Opcode::StrToBytes, seq![word(dst), word(a)], seq![]),
{
    assert forall|m: &mut Asm, r: &mut Asm| #[trigger] call_ensures(Asm::mov, (m, dst, a),
        r) implies appends(*m, *r, Opcode::Mov, seq![word(dst), word(a)], seq![]) by {
        assert((*r)@.instrs.last().operands =~= seq![word(dst), word(a)]);
    }
    assert forall|m: &mut Asm, r: &mut Asm| #[trigger] call_ensures(Asm::dec_to_i64, (m, dst, a),
        r) implies appends(*m, *r, Opcode::DecToI64, seq![word(dst), word(a)], seq![]) by {
        assert((*r)@.instrs.last().operands =~= seq![word(dst), word(a)]);
    }
    assert forall|m: &mut Asm, r: &mut Asm| #[trigger] call_ensures(Asm::dec_to_u64, (m, dst, a),
        r) implies appends(*m, *r, Opcode::DecToU64, seq![word(dst), word(a)], seq![]) by {
        assert((*r)@.instrs.last().operands =~= seq![word(dst), word(a)]);
    }
    assert forall|m: &mut Asm, r: &mut Asm| #[trigger] call_ensures(Asm::i64_to_u64, (m, dst, a),
        r) implies appends(*m, *r, Opcode::I64ToU64, seq![word(dst), word(a)], seq![]) by {
        assert((*r)@.instrs.last().operands =~= seq![word(dst), word(a)]);
    }
    assert forall|m: &mut Asm, r: &mut Asm| #[trigger] call_ensures(Asm::u64_to_i64, (m, dst, a),
        r) implies appends(*m, *r, Opcode::U64ToI64, seq![word(dst), word(a)], seq![]) by {
        assert((*r)@.instrs.last().operands =~= seq![word(dst), word(a)]);
    }
    assert forall|m: &mut Asm, r: &mut Asm| #[trigger] call_ensures(Asm::bool_not, (m, dst, a),
        r) implies appends(*m, *r, Opcode::BoolNot, seq![word(dst), word(a)], seq![]) by {
        assert((*r)@.instrs.last().operands =~= seq![word(dst), word(a)]);
    }
    assert forall|m: &mut Asm, r: &mut Asm| #[trigger] call_ensures(Asm::f64_neg, (m, dst, a),
        r) implies appends(*m, *r, Opcode::F64Neg, seq![word(dst), word(a)], seq![]) by {
        assert((*r)@.instrs.last().operands =~= seq![word(dst), word(a)]);
    }
    assert forall|m: &mut Asm, r: &mut Asm| #[trigger] call_ensures(Asm::f64_abs, (m, dst, a),
        r) implies appends(*m, *r, Opcode::F64Abs, seq![word(dst), word(a)], seq![]) by {
        assert((*r)@.instrs.last().operands =~= seq![word(dst), word(a)]);
    }
    assert forall|m: &mut Asm, r: &mut Asm| #[trigger] call_ensures(Asm::f64_to_bits, (m, dst, a),
        r) implies appends(*m, *r, Opcode::F64ToBits, seq![word(dst), word(a)], seq![]) by {
        assert((*r)@.instrs.last().operands =~= seq![word(dst), word(a)]);
    }
    assert forall|m: &mut Asm, r: &mut Asm| #[trigger] call_ensures(Asm::f64_from_bits, (m, dst,
        a), r) implies appends(*m, *r, Opcode::F64FromBits, seq![word(dst), word(a)], seq![]) by {
        assert((*r)@.instrs.last().operands =~= seq![word(dst), word(a)]);
    }
    assert forall|m: &mut Asm, r: &mut Asm| #[trigger] call_ensures(Asm::f64_to_i64, (m, dst, a),
        r) implies appends(*m, *r, Opcode::F64ToI64, seq![word(dst), word(a)], seq![]) by {
        assert((*r)@.instrs.last().operands =~= seq![word(dst), word(a)]);
    }
    assert forall|m: &mut Asm, r: &mut Asm| #[trigger] call_ensures(Asm::f64_to_u64, (m, dst, a),
        r) implies appends(*m, *r, Opcode::F64ToU64, seq![word(dst), word(a)], seq![]) by {
        assert((*r)@.instrs.last().operands =~= seq![word(dst), word(a)]);
    }
    assert forall|m: &mut Asm, r: &mut Asm| #[trigger] call_ensures(Asm::i64_to_f64, (m, dst, a),
        r) implies appends(*m, *r, Opcode::I64ToF64, seq![word(dst), word(a)], seq![]) by {
        assert((*r)@.instrs.last().operands =~= seq![word(dst), word(a)]);
    }
    assert forall|m: &mut Asm, r: &mut Asm| #[trigger] call_ensures(Asm::u64_to_f64, (m, dst, a),
        r) implies appends(*m, *r, Opcode::U64ToF64, seq![word(dst), word(a)], seq![]) by {
        assert((*r)@.instrs.last().operands =~= seq![word(dst), word(a)]);
    }
    assert forall|m: &mut Asm, r: &mut Asm| #[trigger] call_ensures(Asm::tuple_len, (m, dst, a),
        r) implies appends(*m, *r, Opcode::TupleLen, seq![word(dst), word(a)], seq![]) by {
        assert((*r)@.instrs.last().operands =~= seq![word(dst), word(a)]);
    }
    assert forall|m: &mut Asm, r: &mut Asm| #[trigger] call_ensures(Asm::struct_field_count, (m,
        dst, a), r) implies appends(*m, *r, Opcode::StructFieldCount, seq![word(dst), word(a)],
        seq![]) by {
        assert((*r)@.instrs.last().operands =~= seq![word(dst), word(a)]);
    }
    assert forall|m: &mut Asm, r: &mut Asm| #[trigger] call_ensures(Asm::array_len, (m, dst, a),
        r) implies appends(*m, *r, Opcode::ArrayLen, seq![word(dst), word(a)], seq![]) by {
        assert((*r)@.instrs.last().operands =~= seq![word(dst), word(a)]);
    }
    assert forall|m: &mut Asm, r: &mut Asm| #[trigger] call_ensures(Asm::bytes_len, (m, dst, a),
        r) implies appends(*m, *r, Opcode::BytesLen, seq![word(dst), word(a)], seq![]) by {
        assert((*r)@.instrs.last().operands =~= seq![word(dst), word(a)]);
    }
    assert forall|m: &mut Asm, r: &mut Asm| #[trigger] call_ensures(Asm::bytes_to_str, (m, dst,
        a), r) implies appends(*m, *r, Opcode::BytesToStr, seq![word(dst), word(a)], seq![]) by {
        assert((*r)@.instrs.last().operands =~= seq![word(dst), word(a)]);
    }
    assert forall|m: &mut Asm, r: &mut Asm| #[trigger] call_ensures(Asm::str_len, (m, dst, a),
        r) implies appends(*m, *r, Opcode::StrLen, seq![word(dst), word(a)], seq![]) by {
        assert((*r)@.instrs.last().operands =~= seq![word(dst), word(a)]);
    }
    assert forall|m: &mut Asm, r: &mut Asm| #[trigger] call_ensures(Asm::str_to_bytes, (m, dst,
        a), r) implies appends(*m, *r, Opcode::StrToBytes, seq![word(dst), word(a)], seq![]) by {
        assert((*r)@.instrs.last().operands =~= seq![word(dst), word(a)]);
    }
}

/// An instruction with one operand names it.
pub proof fn law_encodes_register(dst: u32)
    ensures
        forall|m: &mut Asm, r: &mut Asm| #[trigger] call_ensures(Asm::trap, (m, dst), r)
            ==> appends(*m, *r, Opcode::Trap, seq![word(dst)], seq![]),
        forall|m: &mut Asm, r: &mut Asm| #[trigger] call_ensures(Asm::const_unit, (m, dst), r)
            ==> appends(*m, *r, Opcode::ConstUnit, seq![word(dst)], seq![]),
{
    assert forall|m: &mut Asm, r: &mut Asm| #[trigger] call_ensures(Asm::trap, (m, dst),
        r) implies appends(*m, *r, Opcode::Trap, seq![word(dst)], seq![]) by {
        assert((*r)@.instrs.last().operands =~= seq![word(dst)]);
    }
    assert forall|m: &mut Asm, r: &mut Asm| #[trigger] call_ensures(Asm::const_unit, (m, dst),
        r) implies appends(*m, *r, Opcode::ConstUnit, seq![word(dst)], seq![]) by {
        assert((*r)@.instrs.last().operands =~= seq![word(dst)]);
    }
}

/// `const_bool` encodes its operands in their order.
pub proof fn law_encodes_const_bool(dst: u32, imm: bool)
    ensures
        forall|m: &mut Asm, r: &mut Asm| #[trigger] call_ensures(Asm::const_bool, (m, dst, imm),
            r) ==> appends(*m, *r, Opcode::ConstBool, seq![word(dst), OperandModel::Bool(imm)],
            seq![]),
{
    assert forall|m: &mut Asm, r: &mut Asm| #[trigger] call_ensures(Asm::const_bool, (m, dst,
        imm), r) implies appends(*m, *r, Opcode::ConstBool, seq![word(dst),
        OperandModel::Bool(imm)], seq![]) by {
        assert((*r)@.instrs.last().operands =~= seq![word(dst), OperandModel::Bool(imm)]);
    }
}

/// `const_i64` encodes its operands in their order.
pub proof fn law_encodes_const_i64(dst: u32, imm: i64)
    ensures
        forall|m: &mut Asm, r: &mut Asm| #[trigger] call_ensures(Asm::const_i64, (m, dst, imm),
            r) ==> appends(*m, *r, Opcode::ConstI64, seq![word(dst), OperandModel::I64(imm)],
            seq![]),
{
    assert forall|m: &mut Asm, r: &mut Asm| #[trigger] call_ensures(Asm::const_i64, (m, dst, imm),
        r) implies appends(*m, *r, Opcode::ConstI64, seq![word(dst), OperandModel::I64(imm)],
        seq![]) by {
        assert((*r)@.instrs.last().operands =~= seq![word(dst), OperandModel::I64(imm)]);
    }
}

/// `const_u64` encodes its operands in their order.
pub proof fn law_encodes_const_u64(dst: u32, imm: u64)
    ensures
        forall|m: &mut Asm, r: &mut Asm| #[trigger] call_ensures(Asm::const_u64, (m, dst, imm),
            r) ==> appends(*m, *r, Opcode::ConstU64, seq![word(dst), OperandModel::U64(imm)],
            seq![]),
{
    assert forall|m: &mut Asm, r: &mut Asm| #[trigger] call_ensures(Asm::const_u64, (m, dst, imm),
        r) implies appends(*m, *r, Opcode::ConstU64, seq![word(dst), OperandModel::U64(imm)],
        seq![]) by {
        assert((*r)@.instrs.last().operands =~= seq![word(dst), OperandModel::U64(imm)]);
    }
}

/// `const_f64_bits` encodes its operands in their order.
pub proof fn law_encodes_const_f64_bits(dst: u32, bits: u64)
    ensures
        forall|m: &mut Asm, r: &mut Asm| #[trigger] call_ensures(Asm::const_f64_bits, (m, dst,
            bits), r) ==> appends(*m, *r, Opcode::ConstF64, seq![word(dst),
            OperandModel::Bits(bits)], seq![]),
{
    assert forall|m: &mut Asm, r: &mut Asm| #[trigger] call_ensures(Asm::const_f64_bits, (m, dst,
        bits), r) implies appends(*m, *r, Opcode::ConstF64, seq![word(dst),
        OperandModel::Bits(bits)], seq![]) by {
        assert((*r)@.instrs.last().operands =~= seq![word(dst), OperandModel::Bits(bits)]);
    }
}

/// `const_decimal` encodes its operands in their order.
pub proof fn law_encodes_const_decimal(dst: u32, mantissa: i64, scale: u8)
    ensures
        forall|m: &mut Asm, r: &mut Asm| #[trigger] call_ensures(Asm::const_decimal, (m, dst,
            mantissa, scale), r) ==> appends(*m, *r, Opcode::ConstDecimal, seq![word(dst),
            OperandModel::I64(mantissa), OperandModel::Byte(scale)], seq![]),
{
    assert forall|m: &mut Asm, r: &mut Asm| #[trigger] call_ensures(Asm::const_decimal, (m, dst,
        mantissa, scale), r) implies appends(*m, *r, Opcode::ConstDecimal, seq![word(dst),
        OperandModel::I64(mantissa), OperandModel::Byte(scale)], seq![]) by {
        assert((*r)@.instrs.last().operands =~= seq![word(dst), OperandModel::I64(mantissa),
            OperandModel::Byte(scale)]);
    }
}

/// `const_decimal_value` encodes its operands in their order.
pub proof fn law_encodes_const_decimal_value(dst: u32, v: Decimal)
    ensures
        forall|m: &mut Asm, r: &mut Asm| #[trigger] call_ensures(Asm::const_decimal_value, (m,
            dst, v), r) ==> appends(*m, *r, Opcode::ConstDecimal, seq![word(dst),
            OperandModel::I64(v.mantissa), OperandModel::Byte(v.scale)], seq![]),
{
    assert forall|m: &mut Asm, r: &mut Asm| #[trigger] call_ensures(Asm::const_decimal_value, (m,
        dst, v), r) implies appends(*m, *r, Opcode::ConstDecimal, seq![word(dst),
        OperandModel::I64(v.mantissa), OperandModel::Byte(v.scale)], seq![]) by {
        assert((*r)@.instrs.last().operands =~= seq![word(dst), OperandModel::I64(v.mantissa),
            OperandModel::Byte(v.scale)]);
    }
}

/// `const_pool` encodes its operands in their order.
pub proof fn law_encodes_const_pool(dst: u32, idx: ConstId)
    ensures
        forall|m: &mut Asm, r: &mut Asm| #[trigger] call_ensures(Asm::const_pool, (m, dst, idx),
            r) ==> appends(*m, *r, Opcode::ConstPool, seq![word(dst), word(idx.0)], seq![]),
{
    assert forall|m: &mut Asm, r: &mut Asm| #[trigger] call_ensures(Asm::const_pool, (m, dst,
        idx), r) implies appends(*m, *r, Opcode::ConstPool, seq![word(dst), word(idx.0)],
        seq![]) by {
        assert((*r)@.instrs.last().operands =~= seq![word(dst), word(idx.0)]);
    }
}

/// An instruction that makes a value of two others names the register of the result first, and the
/// two in their order. One that takes an element names the index last.
pub proof fn law_encodes_two(dst: u32, a: u32, b: u32)
    ensures
        forall|m: &mut Asm, r: &mut Asm| #[trigger] call_ensures(Asm::dec_add, (m, dst, a, b),
            r) ==> appends(*m, *r, Opcode::DecAdd, seq![word(dst), word(a), word(b)], seq![]),
        forall|m: &mut Asm, r: &mut Asm| #[trigger] call_ensures(Asm::dec_sub, (m, dst, a, b),
            r) ==> appends(*m, *r, Opcode::DecSub, seq![word(dst), word(a), word(b)], seq![]),
        forall|m: &mut Asm, r: &mut Asm| #[trigger] call_ensures(Asm::dec_mul, (m, dst, a, b),
            r) ==> appends(*m, *r, Opcode::DecMul, seq![word(dst), word(a), word(b)], seq![]),
        forall|m: &mut Asm, r: &mut Asm| #[trigger] call_ensures(Asm::i64_add, (m, dst, a, b),
            r) ==> appends(*m, *r, Opcode::I64Add, seq![word(dst), word(a), word(b)], seq![]),
        forall|m: &mut Asm, r: &mut Asm| #[trigger] call_ensures(Asm::i64_sub, (m, dst, a, b),
            r) ==> appends(*m, *r, Opcode::I64Sub, seq![word(dst), word(a), word(b)], seq![]),
        forall|m: &mut Asm, r: &mut Asm| #[trigger] call_ensures(Asm::i64_mul, (m, dst, a, b),
            r) ==> appends(*m, *r, Opcode::I64Mul, seq![word(dst), word(a), word(b)], seq![]),
        forall|m: &mut Asm, r: &mut Asm| #[trigger] call_ensures(Asm::i64_div, (m, dst, a, b),
            r) ==> appends(*m, *r, Opcode::I64Div, seq![word(dst), word(a), word(b)], seq![]),
        forall|m: &mut Asm, r: &mut Asm| #[trigger] call_ensures(Asm::i64_rem, (m, dst, a, b),
            r) ==> appends(*m, *r, Opcode::I64Rem, seq![word(dst), word(a), word(b)], seq![]),
        forall|m: &mut Asm, r: &mut Asm| #[trigger] call_ensures(Asm::i64_and, (m, dst, a, b),
            r) ==> appends(*m, *r, Opcode::I64And, seq![word(dst), word(a), word(b)], seq![]),
        forall|m: &mut Asm, r: &mut Asm| #[trigger] call_ensures(Asm::i64_or, (m, dst, a, b),
            r) ==> appends(*m, *r, Opcode::I64Or, seq![word(dst), word(a), word(b)], seq![]),
        forall|m: &mut Asm, r: &mut Asm| #[trigger] call_ensures(Asm::i64_xor, (m, dst, a, b),
            r) ==> appends(*m, *r, Opcode::I64Xor, seq![word(dst), word(a), word(b)], seq![]),
        forall|m: &mut Asm, r: &mut Asm| #[trigger] call_ensures(Asm::i64_shl, (m, dst, a, b),
            r) ==> appends(*m, *r, Opcode::I64Shl, seq![word(dst), word(a), word(b)], seq![]),
        forall|m: &mut Asm, r: &mut Asm| #[trigger] call_ensures(Asm::i64_shr, (m, dst, a, b),
            r) ==> appends(*m, *r, Opcode::I64Shr, seq![word(dst), word(a), word(b)], seq![]),
        forall|m: &mut Asm, r: &mut Asm| #[trigger] call_ensures(Asm::i64_eq, (m, dst, a, b),
            r) ==> appends(*m, *r, Opcode::I64Eq, seq![word(dst), word(a), word(b)], seq![]),
        forall|m: &mut Asm, r: &mut Asm| #[trigger] call_ensures(Asm::i64_lt, (m, dst, a, b),
            r) ==> appends(*m, *r, Opcode::I64Lt, seq![word(dst), word(a), word(b)], seq![]),
        forall|m: &mut Asm, r: &mut Asm| #[trigger] call_ensures(Asm::i64_gt, (m, dst, a, b),
            r) ==> appends(*m, *r, Opcode::I64Gt, seq![word(dst), word(a), word(b)], seq![]),
        forall|m: &mut Asm, r: &mut Asm| #[trigger] call_ensures(Asm::i64_le, (m, dst, a, b),
            r) ==> appends(*m, *r, Opcode::I64Le, seq![word(dst), word(a), word(b)], seq![]),
        forall|m: &mut Asm, r: &mut Asm| #[trigger] call_ensures(Asm::i64_ge, (m, dst, a, b),
            r) ==> appends(*m, *r, Opcode::I64Ge, seq![word(dst), word(a), word(b)], seq![]),
        forall|m: &mut Asm, r: &mut Asm| #[trigger] call_ensures(Asm::u64_add, (m, dst, a, b),
            r) ==> appends(*m, *r, Opcode::U64Add, seq![word(dst), word(a), word(b)], seq![]),
        forall|m: &mut Asm, r: &mut Asm| #[trigger] call_ensures(Asm::u64_sub, (m, dst, a, b),
            r) ==> appends(*m, *r, Opcode::U64Sub, seq![word(dst), word(a), word(b)], seq![]),
        forall|m: &mut Asm, r: &mut Asm| #[trigger] call_ensures(Asm::u64_mul, (m, dst, a, b),
            r) ==> appends(*m, *r, Opcode::U64Mul, seq![word(dst), word(a), word(b)], seq![]),
        forall|m: &mut Asm, r: &mut Asm| #[trigger] call_ensures(Asm::u64_div, (m, dst, a, b),
            r) ==> appends(*m, *r, Opcode::U64Div, seq![word(dst), word(a), word(b)], seq![]),
        forall|m: &mut Asm, r: &mut Asm| #[trigger] call_ensures(Asm::u64_rem, (m, dst, a, b),
            r) ==> appends(*m, *r, Opcode::U64Rem, seq![word(dst), word(a), word(b)], seq![]),
        forall|m: &mut Asm, r: &mut Asm| #[trigger] call_ensures(Asm::u64_and, (m, dst, a, b),
            r) ==> appends(*m, *r, Opcode::U64And, seq![word(dst), word(a), word(b)], seq![]),
        forall|m: &mut Asm, r: &mut Asm| #[trigger] call_ensures(Asm::u64_or, (m, dst, a, b),
            r) ==> appends(*m, *r, Opcode::U64Or, seq![word(dst), word(a), word(b)], seq![]),
        forall|m: &mut Asm, r: &mut Asm| #[trigger] call_ensures(Asm::u64_xor, (m, dst, a, b),
            r) ==> appends(*m, *r, Opcode::U64Xor, seq![word(dst), word(a), word(b)], seq![]),
        forall|m: &mut Asm, r: &mut Asm| #[trigger] call_ensures(Asm::u64_shl, (m, dst, a, b),
            r) ==> appends(*m, *r, Opcode::U64Shl, seq![word(dst), word(a), word(b)], seq![]),
        forall|m: &mut Asm, r: &mut Asm| #[trigger] call_ensures(Asm::u64_shr, (m, dst, a, b),
            r) ==> appends(*m, *r, Opcode::U64Shr, seq![word(dst), word(a), word(b)], seq![]),
        forall|m: &mut Asm, r: &mut Asm| #[trigger] call_ensures(Asm::u64_eq, (m, dst, a, b),
            r) ==> appends(*m, *r, Opcode::U64Eq, seq![word(dst), word(a), word(b)], seq![]),
        forall|m: &mut Asm, r: &mut Asm| #[trigger] call_ensures(Asm::u64_lt, (m, dst, a, b),
            r) ==> appends(*m, *r, Opcode::U64Lt, seq![word(dst), word(a), word(b)], seq![]),
        forall|m: &mut Asm, r: &mut Asm| #[trigger] call_ensures(Asm::u64_gt, (m, dst, a, b),
            r) ==> appends(*m, *r, Opcode::U64Gt, seq![word(dst), word(a), word(b)], seq![]),
        forall|m: &mut Asm, r: &mut Asm| #[trigger] call_ensures(Asm::u64_le, (m, dst, a, b),
            r) ==> appends(*m, *r, Opcode::U64Le, seq![word(dst), word(a), word(b)], seq![]),
        forall|m: &mut Asm, r: &mut Asm| #[trigger] call_ensures(Asm::u64_ge, (m, dst, a, b),
            r) ==> appends(*m, *r, Opcode::U64Ge, seq![word(dst), word(a), word(b)], seq![]),
        forall|m: &mut Asm, r: &mut Asm| #[trigger] call_ensures(Asm::bool_and, (m, dst, a, b),
            r) ==> appends(*m, *r, Opcode::BoolAnd, seq![word(dst), word(a), word(b)], seq![]),
        forall|m: &mut Asm, r: &mut Asm| #[trigger] call_ensures(Asm::bool_or, (m, dst, a, b),
            r) ==> appends(*m, *r, Opcode::BoolOr, seq![word(dst), word(a), word(b)], seq![]),
        forall|m: &mut Asm, r: &mut Asm| #[trigger] call_ensures(Asm::bool_xor, (m, dst, a, b),
            r) ==> appends(*m, *r, Opcode::BoolXor, seq![word(dst), word(a), word(b)], seq![]),
        forall|m: &mut Asm, r: &mut Asm| #[trigger] call_ensures(Asm::f64_add, (m, dst, a, b),
            r) ==> appends(*m, *r, Opcode::F64Add, seq![word(dst), word(a), word(b)], seq![]),
        forall|m: &mut Asm, r: &mut Asm| #[trigger] call_ensures(Asm::f64_sub, (m, dst, a, b),
            r) ==> appends(*m, *r, Opcode::F64Sub, seq![word(dst), word(a), word(b)], seq![]),
        forall|m: &mut Asm, r: &mut Asm| #[trigger] call_ensures(Asm::f64_mul, (m, dst, a, b),
            r) ==> appends(*m, *r, Opcode::F64Mul, seq![word(dst), word(a), word(b)], seq![]),
        forall|m: &mut Asm, r: &mut Asm| #[trigger] call_ensures(Asm::f64_div, (m, dst, a, b),
            r) ==> appends(*m, *r, Opcode::F64Div, seq![word(dst), word(a), word(b)], seq![]),
        forall|m: &mut Asm, r: &mut Asm| #[trigger] call_ensures(Asm::f64_rem, (m, dst, a, b),
            r) ==> appends(*m, *r, Opcode::F64Rem, seq![word(dst), word(a), word(b)], seq![]),
        forall|m: &mut Asm, r: &mut Asm| #[trigger] call_ensures(Asm::f64_min, (m, dst, a, b),
            r) ==> appends(*m, *r, Opcode::F64Min, seq![word(dst), word(a), word(b)], seq![]),
        forall|m: &mut Asm, r: &mut Asm| #[trigger] call_ensures(Asm::f64_max, (m, dst, a, b),
            r) ==> appends(*m, *r, Opcode::F64Max, seq![word(dst), word(a), word(b)], seq![]),
        forall|m: &mut Asm, r: &mut Asm| #[trigger] call_ensures(Asm::f64_min_num, (m, dst, a, b),
            r) ==> appends(*m, *r, Opcode::F64MinNum, seq![word(dst), word(a), word(b)], seq![]),
        forall|m: &mut Asm, r: &mut Asm| #[trigger] call_ensures(Asm::f64_max_num, (m, dst, a, b),
            r) ==> appends(*m, *r, Opcode::F64MaxNum, seq![word(dst), word(a), word(b)], seq![]),
        forall|m: &mut Asm, r: &mut Asm| #[trigger] call_ensures(Asm::f64_eq, (m, dst, a, b),
            r) ==> appends(*m, *r, Opcode::F64Eq, seq![word(dst), word(a), word(b)], seq![]),
        forall|m: &mut Asm, r: &mut Asm| #[trigger] call_ensures(Asm::f64_lt, (m, dst, a, b),
            r) ==> appends(*m, *r, Opcode::F64Lt, seq![word(dst), word(a), word(b)], seq![]),
        forall|m: &mut Asm, r: &mut Asm| #[trigger] call_ensures(Asm::f64_gt, (m, dst, a, b),
            r) ==> appends(*m, *r, Opcode::F64Gt, seq![word(dst), word(a), word(b)], seq![]),
        forall|m: &mut Asm, r: &mut Asm| #[trigger] call_ensures(Asm::f64_le, (m, dst, a, b),
            r) ==> appends(*m, *r, Opcode::F64Le, seq![word(dst), word(a), word(b)], seq![]),
        forall|m: &mut Asm, r: &mut Asm| #[trigger] call_ensures(Asm::f64_ge, (m, dst, a, b),
            r) ==> appends(*m, *r, Opcode::F64Ge, seq![word(dst), word(a), word(b)], seq![]),
        forall|m: &mut Asm, r: &mut Asm| #[trigger] call_ensures(Asm::tuple_get, (m, dst, a, b),
            r) ==> appends(*m, *r, Opcode::TupleGet, seq![word(dst), word(a), word(b)], seq![]),
        forall|m: &mut Asm, r: &mut Asm| #[trigger] call_ensures(Asm::struct_get, (m, dst, a, b),
            r) ==> appends(*m, *r, Opcode::StructGet, seq![word(dst), word(a), word(b)], seq![]),
        forall|m: &mut Asm, r: &mut Asm| #[trigger] call_ensures(Asm::array_get, (m, dst, a, b),
            r) ==> appends(*m, *r, Opcode::ArrayGet, seq![word(dst), word(a), word(b)], seq![]),
        forall|m: &mut Asm, r: &mut Asm| #[trigger] call_ensures(Asm::array_get_imm, (m, dst, a,
            b), r) ==> appends(*m, *r, Opcode::ArrayGetImm, seq![word(dst), word(a), word(b)],
            seq![]),
        forall|m: &mut Asm, r: &mut Asm| #[trigger] call_ensures(Asm::bytes_eq, (m, dst, a, b),
            r) ==> appends(*m, *r, Opcode::BytesEq, seq![word(dst), word(a), word(b)], seq![]),
        forall|m: &mut Asm, r: &mut Asm| #[trigger] call_ensures(Asm::bytes_concat, (m, dst, a,
            b), r) ==> appends(*m, *r, Opcode::BytesConcat, seq![word(dst), word(a), word(b)],
            seq![]),
        forall|m: &mut Asm, r: &mut Asm| #[trigger] call_ensures(Asm::bytes_get, (m, dst, a, b),
            r) ==> appends(*m, *r, Opcode::BytesGet, seq![word(dst), word(a), word(b)], seq![]),
        forall|m: &mut Asm, r: &mut Asm| #[trigger] call_ensures(Asm::bytes_get_imm, (m, dst, a,
            b), r) ==> appends(*m, *r, Opcode::BytesGetImm, seq![word(dst), word(a), word(b)],
            seq![]),
        forall|m: &mut Asm, r: &mut Asm| #[trigger] call_ensures(Asm::str_eq, (m, dst, a, b),
            r) ==> appends(*m, *r, Opcode::StrEq, seq![word(dst), word(a), word(b)], seq![]),
        forall|m: &mut Asm, r: &mut Asm| #[trigger] call_ensures(Asm::str_concat, (m, dst, a, b),
            r) ==> appends(*m, *r, Opcode::StrConcat, seq![word(dst), word(a), word(b)], seq![]),
{
    assert forall|m: &mut Asm, r: &mut Asm| #[trigger] call_ensures(Asm::dec_add, (m, dst, a, b),
        r) implies appends(*m, *r, Opcode::DecAdd, seq![word(dst), word(a), word(b)], seq![]) by {
        assert((*r)@.instrs.last().operands =~= seq![word(dst), word(a), word(b)]);
    }
    assert forall|m: &mut Asm, r: &mut Asm| #[trigger] call_ensures(Asm::dec_sub, (m, dst, a, b),
        r) implies appends(*m, *r, Opcode::DecSub, seq![word(dst), word(a), word(b)], seq![]) by {
        assert((*r)@.instrs.last().operands =~= seq![word(dst), word(a), word(b)]);
    }
    assert forall|m: &mut Asm, r: &mut Asm| #[trigger] call_ensures(Asm::dec_mul, (m, dst, a, b),
        r) implies appends(*m, *r, Opcode::DecMul, seq![word(dst), word(a), word(b)], seq![]) by {
        assert((*r)@.instrs.last().operands =~= seq![word(dst), word(a), word(b)]);
    }
    assert forall|m: &mut Asm, r: &mut Asm| #[trigger] call_ensures(Asm::i64_add, (m, dst, a, b),
        r) implies appends(*m, *r, Opcode::I64Add, seq![word(dst), word(a), word(b)], seq![]) by {
        assert((*r)@.instrs.last().operands =~= seq![word(dst), word(a), word(b)]);
    }
    assert forall|m: &mut Asm, r: &mut Asm| #[trigger] call_ensures(Asm::i64_sub, (m, dst, a, b),
        r) implies appends(*m, *r, Opcode::I64Sub, seq![word(dst), word(a), word(b)], seq![]) by {
        assert((*r)@.instrs.last().operands =~= seq![word(dst), word(a), word(b)]);
    }
    assert forall|m: &mut Asm, r: &mut Asm| #[trigger] call_ensures(Asm::i64_mul, (m, dst, a, b),
        r) implies appends(*m, *r, Opcode::I64Mul, seq![word(dst), word(a), word(b)], seq![]) by {
        assert((*r)@.instrs.last().operands =~= seq![word(dst), word(a), word(b)]);
    }
    assert forall|m: &mut Asm, r: &mut Asm| #[trigger] call_ensures(Asm::i64_div, (m, dst, a, b),
        r) implies appends(*m, *r, Opcode::I64Div, seq![word(dst), word(a), word(b)], seq![]) by {
        assert((*r)@.instrs.last().operands =~= seq![word(dst), word(a), word(b)]);
    }
    assert forall|m: &mut Asm, r: &mut Asm| #[trigger] call_ensures(Asm::i64_rem, (m, dst, a, b),
        r) implies appends(*m, *r, Opcode::I64Rem, seq![word(dst), word(a), word(b)], seq![]) by {
        assert((*r)@.instrs.last().operands =~= seq![word(dst), word(a), word(b)]);
    }
    assert forall|m: &mut Asm, r: &mut Asm| #[trigger] call_ensures(Asm::i64_and, (m, dst, a, b),
        r) implies appends(*m, *r, Opcode::I64And, seq![word(dst), word(a), word(b)], seq![]) by {
        assert((*r)@.instrs.last().operands =~= seq![word(dst), word(a), word(b)]);
    }
    assert forall|m: &mut Asm, r: &mut Asm| #[trigger] call_ensures(Asm::i64_or, (m, dst, a, b),
        r) implies appends(*m, *r, Opcode::I64Or, seq![word(dst), word(a), word(b)], seq![]) by {
        assert((*r)@.instrs.last().operands =~= seq![word(dst), word(a), word(b)]);
    }
    assert forall|m: &mut Asm, r: &mut Asm| #[trigger] call_ensures(Asm::i64_xor, (m, dst, a, b),
        r) implies appends(*m, *r, Opcode::I64Xor, seq![word(dst), word(a), word(b)], seq![]) by {
        assert((*r)@.instrs.last().operands =~= seq![word(dst), word(a), word(b)]);
    }
    assert forall|m: &mut Asm, r: &mut Asm| #[trigger] call_ensures(Asm::i64_shl, (m, dst, a, b),
        r) implies appends(*m, *r, Opcode::I64Shl, seq![word(dst), word(a), word(b)], seq![]) by {
        assert((*r)@.instrs.last().operands =~= seq![word(dst), word(a), word(b)]);
    }
    assert forall|m: &mut Asm, r: &mut Asm| #[trigger] call_ensures(Asm::i64_shr, (m, dst, a, b),
        r) implies appends(*m, *r, Opcode::I64Shr, seq![word(dst), word(a), word(b)], seq![]) by {
        assert((*r)@.instrs.last().operands =~= seq![word(dst), word(a), word(b)]);
    }
    assert forall|m: &mut Asm, r: &mut Asm| #[trigger] call_ensures(Asm::i64_eq, (m, dst, a, b),
        r) implies appends(*m, *r, Opcode::I64Eq, seq![word(dst), word(a), word(b)], seq![]) by {
        assert((*r)@.instrs.last().operands =~= seq![word(dst), word(a), word(b)]);
    }
    assert forall|m: &mut Asm, r: &mut Asm| #[trigger] call_ensures(Asm::i64_lt, (m, dst, a, b),
        r) implies appends(*m, *r, Opcode::I64Lt, seq![word(dst), word(a), word(b)], seq![]) by {
        assert((*r)@.instrs.last().operands =~= seq![word(dst), word(a), word(b)]);
    }
    assert forall|m: &mut Asm, r: &mut Asm| #[trigger] call_ensures(Asm::i64_gt, (m, dst, a, b),
        r) implies appends(*m, *r, Opcode::I64Gt, seq![word(dst), word(a), word(b)], seq![]) by {
        assert((*r)@.instrs.last().operands =~= seq![word(dst), word(a), word(b)]);
    }
    assert forall|m: &mut Asm, r: &mut Asm| #[trigger] call_ensures(Asm::i64_le, (m, dst, a, b),
        r) implies appends(*m, *r, Opcode::I64Le, seq![word(dst), word(a), word(b)], seq![]) by {
        assert((*r)@.instrs.last().operands =~= seq![word(dst), word(a), word(b)]);
    }
    assert forall|m: &mut Asm, r: &mut Asm| #[trigger] call_ensures(Asm::i64_ge, (m, dst, a, b),
        r) implies appends(*m, *r, Opcode::I64Ge, seq![word(dst), word(a), word(b)], seq![]) by {
        assert((*r)@.instrs.last().operands =~= seq![word(dst), word(a), word(b)]);
    }
    assert forall|m: &mut Asm, r: &mut Asm| #[trigger] call_ensures(Asm::u64_add, (m, dst, a, b),
        r) implies appends(*m, *r, Opcode::U64Add, seq![word(dst), word(a), word(b)], seq![]) by {
        assert((*r)@.instrs.last().operands =~= seq![word(dst), word(a), word(b)]);
    }
    assert forall|m: &mut Asm, r: &mut Asm| #[trigger] call_ensures(Asm::u64_sub, (m, dst, a, b),
        r) implies appends(*m, *r, Opcode::U64Sub, seq![word(dst), word(a), word(b)], seq![]) by {
        assert((*r)@.instrs.last().operands =~= seq![word(dst), word(a), word(b)]);
    }
    assert forall|m: &mut Asm, r: &mut Asm| #[trigger] call_ensures(Asm::u64_mul, (m, dst, a, b),
        r) implies appends(*m, *r, Opcode::U64Mul, seq![word(dst), word(a), word(b)], seq![]) by {
        assert((*r)@.instrs.last().operands =~= seq![word(dst), word(a), word(b)]);
    }
    assert forall|m: &mut Asm, r: &mut Asm| #[trigger] call_ensures(Asm::u64_div, (m, dst, a, b),
        r) implies appends(*m, *r, Opcode::U64Div, seq![word(dst), word(a), word(b)], seq![]) by {
        assert((*r)@.instrs.last().operands =~= seq![word(dst), word(a), word(b)]);
    }
    assert forall|m: &mut Asm, r: &mut Asm| #[trigger] call_ensures(Asm::u64_rem, (m, dst, a, b),
        r) implies appends(*m, *r, Opcode::U64Rem, seq![word(dst), word(a), word(b)], seq![]) by {
        assert((*r)@.instrs.last().operands =~= seq![word(dst), word(a), word(b)]);
    }
    assert forall|m: &mut Asm, r: &mut Asm| #[trigger] call_ensures(Asm::u64_and, (m, dst, a, b),
        r) implies appends(*m, *r, Opcode::U64And, seq![word(dst), word(a), word(b)], seq![]) by {
        assert((*r)@.instrs.last().operands =~= seq![word(dst), word(a), word(b)]);
    }
    assert forall|m: &mut Asm, r: &mut Asm| #[trigger] call_ensures(Asm::u64_or, (m, dst, a, b),
        r) implies appends(*m, *r, Opcode::U64Or, seq![word(dst), word(a), word(b)], seq![]) by {
        assert((*r)@.instrs.last().operands =~= seq![word(dst), word(a), word(b)]);
    }
    assert forall|m: &mut Asm, r: &mut Asm| #[trigger] call_ensures(Asm::u64_xor, (m, dst, a, b),
        r) implies appends(*m, *r, Opcode::U64Xor, seq![word(dst), word(a), word(b)], seq![]) by {
        assert((*r)@.instrs.last().operands =~= seq![word(dst), word(a), word(b)]);
    }
    assert forall|m: &mut Asm, r: &mut Asm| #[trigger] call_ensures(Asm::u64_shl, (m, dst, a, b),
        r) implies appends(*m, *r, Opcode::U64Shl, seq![word(dst), word(a), word(b)], seq![]) by {
        assert((*r)@.instrs.last().operands =~= seq![word(dst), word(a), word(b)]);
    }
    assert forall|m: &mut Asm, r: &mut Asm| #[trigger] call_ensures(Asm::u64_shr, (m, dst, a, b),
        r) implies appends(*m, *r, Opcode::U64Shr, seq![word(dst), word(a), word(b)], seq![]) by {
        assert((*r)@.instrs.last().operands =~= seq![word(dst), word(a), word(b)]);
    }
    assert forall|m: &mut Asm, r: &mut Asm| #[trigger] call_ensures(Asm::u64_eq, (m, dst, a, b),
        r) implies appends(*m, *r, Opcode::U64Eq, seq![word(dst), word(a), word(b)], seq![]) by {
        assert((*r)@.instrs.last().operands =~= seq![word(dst), word(a), word(b)]);
    }
    assert forall|m: &mut Asm, r: &mut Asm| #[trigger] call_ensures(Asm::u64_lt, (m, dst, a, b),
        r) implies appends(*m, *r, Opcode::U64Lt, seq![word(dst), word(a), word(b)], seq![]) by {
        assert((*r)@.instrs.last().operands =~= seq![word(dst), word(a), word(b)]);
    }
    assert forall|m: &mut Asm, r: &mut Asm| #[trigger] call_ensures(Asm::u64_gt, (m, dst, a, b),
        r) implies appends(*m, *r, Opcode::U64Gt, seq![word(dst), word(a), word(b)], seq![]) by {
        assert((*r)@.instrs.last().operands =~= seq![word(dst), word(a), word(b)]);
    }
    assert forall|m: &mut Asm, r: &mut Asm| #[trigger] call_ensures(Asm::u64_le, (m, dst, a, b),
        r) implies appends(*m, *r, Opcode::U64Le, seq![word(dst), word(a), word(b)], seq![]) by {
        assert((*r)@.instrs.last().operands =~= seq![word(dst), word(a), word(b)]);
    }
    assert forall|m: &mut Asm, r: &mut Asm| #[trigger] call_ensures(Asm::u64_ge, (m, dst, a, b),
        r) implies appends(*m, *r, Opcode::U64Ge, seq![word(dst), word(a), word(b)], seq![]) by {
        assert((*r)@.instrs.last().operands =~= seq![word(dst), word(a), word(b)]);
    }
    assert forall|m: &mut Asm, r: &mut Asm| #[trigger] call_ensures(Asm::bool_and, (m, dst, a, b),
        r) implies appends(*m, *r, Opcode::BoolAnd, seq![word(dst), word(a), word(b)], seq![]) by {
        assert((*r)@.instrs.last().operands =~= seq![word(dst), word(a), word(b)]);
    }
    assert forall|m: &mut Asm, r: &mut Asm| #[trigger] call_ensures(Asm::bool_or, (m, dst, a, b),
        r) implies appends(*m, *r, Opcode::BoolOr, seq![word(dst), word(a), word(b)], seq![]) by {
        assert((*r)@.instrs.last().operands =~= seq![word(dst), word(a), word(b)]);
    }
    assert forall|m: &mut Asm, r: &mut Asm| #[trigger] call_ensures(Asm::bool_xor, (m, dst, a, b),
        r) implies appends(*m, *r, Opcode::BoolXor, seq![word(dst), word(a), word(b)], seq![]) by {
        assert((*r)@.instrs.last().operands =~= seq![word(dst), word(a), word(b)]);
    }
    assert forall|m: &mut Asm, r: &mut Asm| #[trigger] call_ensures(Asm::f64_add, (m, dst, a, b),
        r) implies appends(*m, *r, Opcode::F64Add, seq![word(dst), word(a), word(b)], seq![]) by {
        assert((*r)@.instrs.last().operands =~= seq![word(dst), word(a), word(b)]);
    }
    assert forall|m: &mut Asm, r: &mut Asm| #[trigger] call_ensures(Asm::f64_sub, (m, dst, a, b),
        r) implies appends(*m, *r, Opcode::F64Sub, seq![word(dst), word(a), word(b)], seq![]) by {
        assert((*r)@.instrs.last().operands =~= seq![word(dst), word(a), word(b)]);
    }
    assert forall|m: &mut Asm, r: &mut Asm| #[trigger] call_ensures(Asm::f64_mul, (m, dst, a, b),
        r) implies appends(*m, *r, Opcode::F64Mul, seq![word(dst), word(a), word(b)], seq![]) by {
        assert((*r)@.instrs.last().operands =~= seq![word(dst), word(a), word(b)]);
    }
    assert forall|m: &mut Asm, r: &mut Asm| #[trigger] call_ensures(Asm::f64_div, (m, dst, a, b),
        r) implies appends(*m, *r, Opcode::F64Div, seq![word(dst), word(a), word(b)], seq![]) by {
        assert((*r)@.instrs.last().operands =~= seq![word(dst), word(a), word(b)]);
    }
    assert forall|m: &mut Asm, r: &mut Asm| #[trigger] call_ensures(Asm::f64_rem, (m, dst, a, b),
        r) implies appends(*m, *r, Opcode::F64Rem, seq![word(dst), word(a), word(b)], seq![]) by {
        assert((*r)@.instrs.last().operands =~= seq![word(dst), word(a), word(b)]);
    }
    assert forall|m: &mut Asm, r: &mut Asm| #[trigger] call_ensures(Asm::f64_min, (m, dst, a, b),
        r) implies appends(*m, *r, Opcode::F64Min, seq![word(dst), word(a), word(b)], seq![]) by {
        assert((*r)@.instrs.last().operands =~= seq![word(dst), word(a), word(b)]);
    }
    assert forall|m: &mut Asm, r: &mut Asm| #[trigger] call_ensures(Asm::f64_max, (m, dst, a, b),
        r) implies appends(*m, *r, Opcode::F64Max, seq![word(dst), word(a), word(b)], seq![]) by {
        assert((*r)@.instrs.last().operands =~= seq![word(dst), word(a), word(b)]);
    }
    assert forall|m: &mut Asm, r: &mut Asm| #[trigger] call_ensures(Asm::f64_min_num, (m, dst, a,
        b), r) implies appends(*m, *r, Opcode::F64MinNum, seq![word(dst), word(a), word(b)],
        seq![]) by {
        assert((*r)@.instrs.last().operands =~= seq![word(dst), word(a), word(b)]);
    }
    assert forall|m: &mut Asm, r: &mut Asm| #[trigger] call_ensures(Asm::f64_max_num, (m, dst, a,
        b), r) implies appends(*m, *r, Opcode::F64MaxNum, seq![word(dst), word(a), word(b)],
        seq![]) by {
        assert((*r)@.instrs.last().operands =~= seq![word(dst), word(a), word(b)]);
    }
    assert forall|m: &mut Asm, r: &mut Asm| #[trigger] call_ensures(Asm::f64_eq, (m, dst, a, b),
        r) implies appends(*m, *r, Opcode::F64Eq, seq![word(dst), word(a), word(b)], seq![]) by {
        assert((*r)@.instrs.last().operands =~= seq![word(dst), word(a), word(b)]);
    }
    assert forall|m: &mut Asm, r: &mut Asm| #[trigger] call_ensures(Asm::f64_lt, (m, dst, a, b),
        r) implies appends(*m, *r, Opcode::F64Lt, seq![word(dst), word(a), word(b)], seq![]) by {
        assert((*r)@.instrs.last().operands =~= seq![word(dst), word(a), word(b)]);
    }
    assert forall|m: &mut Asm, r: &mut Asm| #[trigger] call_ensures(Asm::f64_gt, (m, dst, a, b),
        r) implies appends(*m, *r, Opcode::F64Gt, seq![word(dst), word(a), word(b)], seq![]) by {
        assert((*r)@.instrs.last().operands =~= seq![word(dst), word(a), word(b)]);
    }
    assert forall|m: &mut Asm, r: &mut Asm| #[trigger] call_ensures(Asm::f64_le, (m, dst, a, b),
        r) implies appends(*m, *r, Opcode::F64Le, seq![word(dst), word(a), word(b)], seq![]) by {
        assert((*r)@.instrs.last().operands =~= seq![word(dst), word(a), word(b)]);
    }
    assert forall|m: &mut Asm, r: &mut Asm| #[trigger] call_ensures(Asm::f64_ge, (m, dst, a, b),
        r) implies appends(*m, *r, Opcode::F64Ge, seq![word(dst), word(a), word(b)], seq![]) by {
        assert((*r)@.instrs.last().operands =~= seq![word(dst), word(a), word(b)]);
    }
    assert forall|m: &mut Asm, r: &mut Asm| #[trigger] call_ensures(Asm::tuple_get, (m, dst, a,
        b), r) implies appends(*m, *r, Opcode::TupleGet, seq![word(dst), word(a), word(b)],
        seq![]) by {
        assert((*r)@.instrs.last().operands =~= seq![word(dst), word(a), word(b)]);
    }
    assert forall|m: &mut Asm, r: &mut Asm| #[trigger] call_ensures(Asm::struct_get, (m, dst, a,
        b), r) implies appends(*m, *r, Opcode::StructGet, seq![word(dst), word(a), word(b)],
        seq![]) by {
        assert((*r)@.instrs.last().operands =~= seq![word(dst), word(a), word(b)]);
    }
    assert forall|m: &mut Asm, r: &mut Asm| #[trigger] call_ensures(Asm::array_get, (m, dst, a,
        b), r) implies appends(*m, *r, Opcode::ArrayGet, seq![word(dst), word(a), word(b)],
        seq![]) by {
        assert((*r)@.instrs.last().operands =~= seq![word(dst), word(a), word(b)]);
    }
    assert forall|m: &mut Asm, r: &mut Asm| #[trigger] call_ensures(Asm::array_get_imm, (m, dst,
        a, b), r) implies appends(*m, *r, Opcode::ArrayGetImm, seq![word(dst), word(a), word(b)],
        seq![]) by {
        assert((*r)@.instrs.last().operands =~= seq![word(dst), word(a), word(b)]);
    }
    assert forall|m: &mut Asm, r: &mut Asm| #[trigger] call_ensures(Asm::bytes_eq, (m, dst, a, b),
        r) implies appends(*m, *r, Opcode::BytesEq, seq![word(dst), word(a), word(b)], seq![]) by {
        assert((*r)@.instrs.last().operands =~= seq![word(dst), word(a), word(b)]);
    }
    assert forall|m: &mut Asm, r: &mut Asm| #[trigger] call_ensures(Asm::bytes_concat, (m, dst, a,
        b), r) implies appends(*m, *r, Opcode::BytesConcat, seq![word(dst), word(a), word(b)],
        seq![]) by {
        assert((*r)@.instrs.last().operands =~= seq![word(dst), word(a), word(b)]);
    }
    assert forall|m: &mut Asm, r: &mut Asm| #[trigger] call_ensures(Asm::bytes_get, (m, dst, a,
        b), r) implies appends(*m, *r, Opcode::BytesGet, seq![word(dst), word(a), word(b)],
        seq![]) by {
        assert((*r)@.instrs.last().operands =~= seq![word(dst), word(a), word(b)]);
    }
    assert forall|m: &mut Asm, r: &mut Asm| #[trigger] call_ensures(Asm::bytes_get_imm, (m, dst,
        a, b), r) implies appends(*m, *r, Opcode::BytesGetImm, seq![word(dst), word(a), word(b)],
        seq![]) by {
        assert((*r)@.instrs.last().operands =~= seq![word(dst), word(a), word(b)]);
    }
    assert forall|m: &mut Asm, r: &mut Asm| #[trigger] call_ensures(Asm::str_eq, (m, dst, a, b),
        r) implies appends(*m, *r, Opcode::StrEq, seq![word(dst), word(a), word(b)], seq![]) by {
        assert((*r)@.instrs.last().operands =~= seq![word(dst), word(a), word(b)]);
    }
    assert forall|m: &mut Asm, r: &mut Asm| #[trigger] call_ensures(Asm::str_concat, (m, dst, a,
        b), r) implies appends(*m, *r, Opcode::StrConcat, seq![word(dst), word(a), word(b)],
        seq![]) by {
        assert((*r)@.instrs.last().operands =~= seq![word(dst), word(a), word(b)]);
    }
}

/// `i64_to_dec` encodes its operands in their order.
pub proof fn law_encodes_i64_to_dec(dst: u32, a: u32, scale: u8)
    ensures
        forall|m: &mut Asm, r: &mut Asm| #[trigger] call_ensures(Asm::i64_to_dec, (m, dst, a,
            scale), r) ==> appends(*m, *r, Opcode::I64ToDec, seq![word(dst), word(a),
            OperandModel::Byte(scale)], seq![]),
{
    assert forall|m: &mut Asm, r: &mut Asm| #[trigger] call_ensures(Asm::i64_to_dec, (m, dst, a,
        scale), r) implies appends(*m, *r, Opcode::I64ToDec, seq![word(dst), word(a),
        OperandModel::Byte(scale)], seq![]) by {
        assert((*r)@.instrs.last().operands =~= seq![word(dst), word(a),
            OperandModel::Byte(scale)]);
    }
}

/// `u64_to_dec` encodes its operands in their order.
pub proof fn law_encodes_u64_to_dec(dst: u32, a: u32, scale: u8)
    ensures
        forall|m: &mut Asm, r: &mut Asm| #[trigger] call_ensures(Asm::u64_to_dec, (m, dst, a,
            scale), r) ==> appends(*m, *r, Opcode::U64ToDec, seq![word(dst), word(a),
            OperandModel::Byte(scale)], seq![]),
{
    assert forall|m: &mut Asm, r: &mut Asm| #[trigger] call_ensures(Asm::u64_to_dec, (m, dst, a,
        scale), r) implies appends(*m, *r, Opcode::U64ToDec, seq![word(dst), word(a),
        OperandModel::Byte(scale)], seq![]) by {
        assert((*r)@.instrs.last().operands =~= seq![word(dst), word(a),
            OperandModel::Byte(scale)]);
    }
}

/// An instruction that makes a value of three others names the register of the result first, and the
/// three in their order.
pub proof fn law_encodes_three(dst: u32, a: u32, b: u32, c: u32)
    ensures
        forall|m: &mut Asm, r: &mut Asm| #[trigger] call_ensures(Asm::select, (m, dst, a, b, c),
            r) ==> appends(*m, *r, Opcode::Select, seq![word(dst), word(a), word(b), word(c)],
            seq![]),
        forall|m: &mut Asm, r: &mut Asm| #[trigger] call_ensures(Asm::bytes_slice, (m, dst, a, b,
            c), r) ==> appends(*m, *r, Opcode::BytesSlice, seq![word(dst), word(a), word(b),
            word(c)], seq![]),
        forall|m: &mut Asm, r: &mut Asm| #[trigger] call_ensures(Asm::str_slice, (m, dst, a, b,
            c), r) ==> appends(*m, *r, Opcode::StrSlice, seq![word(dst), word(a), word(b),
            word(c)], seq![]),
{
    assert forall|m: &mut Asm, r: &mut Asm| #[trigger] call_ensures(Asm::select, (m, dst, a, b,
        c), r) implies appends(*m, *r, Opcode::Select, seq![word(dst), word(a), word(b), word(c)],
        seq![]) by {
        assert((*r)@.instrs.last().operands =~= seq![word(dst), word(a), word(b), word(c)]);
    }
    assert forall|m: &mut Asm, r: &mut Asm| #[trigger] call_ensures(Asm::bytes_slice, (m, dst, a,
        b, c), r) implies appends(*m, *r, Opcode::BytesSlice, seq![word(dst), word(a), word(b),
        word(c)], seq![]) by {
        assert((*r)@.instrs.last().operands =~= seq![word(dst), word(a), word(b), word(c)]);
    }
    assert forall|m: &mut Asm, r: &mut Asm| #[trigger] call_ensures(Asm::str_slice, (m, dst, a, b,
        c), r) implies appends(*m, *r, Opcode::StrSlice, seq![word(dst), word(a), word(b),
        word(c)], seq![]) by {
        assert((*r)@.instrs.last().operands =~= seq![word(dst), word(a), word(b), word(c)]);
    }
}

/// `call` encodes its operands in their order.
pub proof fn law_encodes_call(eff_out: u32, func_id: FuncId, eff_in: u32, args: &[u32],
    rets: &[u32])
    ensures
        forall|m: &mut Asm, r: &mut Asm| #[trigger] call_ensures(Asm::call, (m, eff_out, func_id,
            eff_in, args, rets), r) ==> appends(*m, *r, Opcode::Call, seq![word(eff_out),
            word(func_id.0), word(eff_in), OperandModel::List(args@), OperandModel::List(rets@)],
            seq![]),
{
    assert forall|m: &mut Asm, r: &mut Asm| #[trigger] call_ensures(Asm::call, (m, eff_out,
        func_id, eff_in, args, rets), r)
        implies appends(*m, *r, Opcode::Call, seq![word(eff_out), word(func_id.0), word(eff_in),
        OperandModel::List(args@), OperandModel::List(rets@)], seq![]) by {
        assert((*r)@.instrs.last().operands =~= seq![word(eff_out), word(func_id.0), word(eff_in),
            OperandModel::List(args@), OperandModel::List(rets@)]);
    }
}

/// `ret` encodes its operands in their order.
pub proof fn law_encodes_ret(eff_in: u32, rets: &[u32])
    ensures
        forall|m: &mut Asm, r: &mut Asm| #[trigger] call_ensures(Asm::ret, (m, eff_in, rets),
            r) ==> appends(*m, *r, Opcode::Ret, seq![word(eff_in), OperandModel::List(rets@)],
            seq![]),
{
    assert forall|m: &mut Asm, r: &mut Asm| #[trigger] call_ensures(Asm::ret, (m, eff_in, rets),
        r) implies appends(*m, *r, Opcode::Ret, seq![word(eff_in), OperandModel::List(rets@)],
        seq![]) by {
        assert((*r)@.instrs.last().operands =~= seq![word(eff_in), OperandModel::List(rets@)]);
    }
}

/// `tuple_new` encodes its operands in their order.
pub proof fn law_encodes_tuple_new(dst: u32, values: &[u32])
    ensures
        forall|m: &mut Asm, r: &mut Asm| #[trigger] call_ensures(Asm::tuple_new, (m, dst, values),
            r) ==> appends(*m, *r, Opcode::TupleNew, seq![word(dst), OperandModel::List(values@)],
            seq![]),
{
    assert forall|m: &mut Asm, r: &mut Asm| #[trigger] call_ensures(Asm::tuple_new, (m, dst,
        values), r) implies appends(*m, *r, Opcode::TupleNew, seq![word(dst),
        OperandModel::List(values@)], seq![]) by {
        assert((*r)@.instrs.last().operands =~= seq![word(dst), OperandModel::List(values@)]);
    }
}

/// `host_call` encodes its operands in their order.
pub proof fn law_encodes_host_call(eff_out: u32, host_sig: HostSigId, eff_in: u32, args: &[u32],
    rets: &[u32])
    ensures
        forall|m: &mut Asm, r: &mut Asm| #[trigger] call_ensures(Asm::host_call, (m, eff_out,
            host_sig, eff_in, args, rets), r)
            ==> appends(*m, *r, Opcode::HostCall, seq![word(eff_out), word(host_sig.0),
            word(eff_in), OperandModel::List(args@), OperandModel::List(rets@)], seq![]),
{
    assert forall|m: &mut Asm, r: &mut Asm| #[trigger] call_ensures(Asm::host_call, (m, eff_out,
        host_sig, eff_in, args, rets), r)
        implies appends(*m, *r, Opcode::HostCall, seq![word(eff_out), word(host_sig.0),
        word(eff_in), OperandModel::List(args@), OperandModel::List(rets@)], seq![]) by {
        assert((*r)@.instrs.last().operands =~= seq![word(eff_out), word(host_sig.0),
            word(eff_in), OperandModel::List(args@), OperandModel::List(rets@)]);
    }
}

/// `host_call_sig_id` encodes its operands in their order.
pub proof fn law_encodes_host_call_sig_id(eff_out: u32, host_sig: HostSigId, eff_in: u32,
    args: &[u32], rets: &[u32])
    ensures
        forall|m: &mut Asm, r: &mut Asm| #[trigger] call_ensures(Asm::host_call_sig_id, (m,
            eff_out, host_sig, eff_in, args, rets), r)
            ==> appends(*m, *r, Opcode::HostCall, seq![word(eff_out), word(host_sig.0),
            word(eff_in), OperandModel::List(args@), OperandModel::List(rets@)], seq![]),
{
    assert forall|m: &mut Asm, r: &mut Asm| #[trigger] call_ensures(Asm::host_call_sig_id, (m,
        eff_out, host_sig, eff_in, args, rets), r)
        implies appends(*m, *r, Opcode::HostCall, seq![word(eff_out), word(host_sig.0),
        word(eff_in), OperandModel::List(args@), OperandModel::List(rets@)], seq![]) by {
        assert((*r)@.instrs.last().operands =~= seq![word(eff_out), word(host_sig.0),
            word(eff_in), OperandModel::List(args@), OperandModel::List(rets@)]);
    }
}

/// `struct_new` encodes its operands in their order.
pub proof fn law_encodes_struct_new(dst: u32, type_id: TypeId, values: &[u32])
    ensures
        forall|m: &mut Asm, r: &mut Asm| #[trigger] call_ensures(Asm::struct_new, (m, dst,
            type_id, values), r) ==> appends(*m, *r, Opcode::StructNew, seq![word(dst),
            word(type_id.0), OperandModel::List(values@)], seq![]),
{
    assert forall|m: &mut Asm, r: &mut Asm| #[trigger] call_ensures(Asm::struct_new, (m, dst,
        type_id, values), r) implies appends(*m, *r, Opcode::StructNew, seq![word(dst),
        word(type_id.0), OperandModel::List(values@)], seq![]) by {
        assert((*r)@.instrs.last().operands =~= seq![word(dst), word(type_id.0),
            OperandModel::List(values@)]);
    }
}

/// `array_new` encodes its operands in their order.
pub proof fn law_encodes_array_new(dst: u32, elem_type_id: ElemTypeId, values: &[u32])
    ensures
        forall|m: &mut Asm, r: &mut Asm| #[trigger] call_ensures(Asm::array_new, (m, dst,
            elem_type_id, values), r) ==> appends(*m, *r, Opcode::ArrayNew, seq![word(dst),
            word(elem_type_id.0), OperandModel::List(values@)], seq![]),
{
    assert forall|m: &mut Asm, r: &mut Asm| #[trigger] call_ensures(Asm::array_new, (m, dst,
        elem_type_id, values), r) implies appends(*m, *r, Opcode::ArrayNew, seq![word(dst),
        word(elem_type_id.0), OperandModel::List(values@)], seq![]) by {
        assert((*r)@.instrs.last().operands =~= seq![word(dst), word(elem_type_id.0),
            OperandModel::List(values@)]);
    }
}

/// A branch names the register of its condition, and the label for true before that for false. A
/// jump names its label.
pub proof fn law_encodes_jumps(cond: u32, pc_true: Label, pc_false: Label)
    ensures
        forall|m: &mut Asm, r: &mut Asm| #[trigger] call_ensures(Asm::br, (m, cond, pc_true,
            pc_false), r)
            ==> appends(*m, *r, Opcode::Br, seq![word(cond)], seq![pc_true, pc_false]),
        forall|m: &mut Asm, r: &mut Asm| #[trigger] call_ensures(Asm::jmp, (m, pc_true), r)
            ==> appends(*m, *r, Opcode::Jmp, seq![], seq![pc_true]),
{
    assert forall|m: &mut Asm, r: &mut Asm| #[trigger] call_ensures(
        Asm::br,
        (m, cond, pc_true, pc_false),
        r,
    ) implies appends(*m, *r, Opcode::Br, seq![word(cond)], seq![pc_true, pc_false]) by {
        assert((*r)@.instrs.last().operands =~= seq![word(cond)]);
    }
}

} // verus!
