//! What instructions that only compute do to values.

use vstd::prelude::*;
use vstd::string::*;
use vstd::utf8::*;

use crate::ieee;
use crate::ieee::{
    f64_abs, f64_eq, f64_lt, f64_max, f64_max_num, f64_min, f64_min_num, f64_neg,
    f64_truncate_i64, f64_truncate_u64, FloatOp,
};
use crate::opcode::Opcode;
use crate::program::ValueType;
use crate::text::{bytes_eq, str_eq, str_from_utf8, str_get};
use crate::trap::Trap;
use crate::typing;
use crate::typing::fixed_signature;
use crate::value::{Decimal, Value, ValueModel};

verus! {

// ---------------------------------------------------------------------------------------------
// Arithmetic.
// ---------------------------------------------------------------------------------------------

/// The absolute value.
pub open spec fn magnitude(a: int) -> int {
    if a < 0 {
        -a
    } else {
        a
    }
}

/// The quotient, cut off towards zero.
pub open spec fn quotient(a: int, b: int) -> int {
    if (a < 0) == (b < 0) {
        magnitude(a) / magnitude(b)
    } else {
        -(magnitude(a) / magnitude(b))
    }
}

/// The remainder, which has the sign of the dividend.
pub open spec fn remainder(a: int, b: int) -> int {
    a - b * quotient(a, b)
}

/// `10^k`.
pub open spec fn power_of_ten(k: nat) -> nat
    decreases k,
{
    if k == 0 {
        1
    } else {
        10 * power_of_ten((k - 1) as nat)
    }
}

/// An integer as a decimal of a scale: both the power of ten and the mantissa must fit.
pub open spec fn to_decimal(a: int, scale: u8) -> Result<ValueModel, Trap> {
    let f = power_of_ten(scale as nat);
    if f > i64::MAX || a * f > i64::MAX || a * f < i64::MIN {
        Err(Trap::DecimalOverflow)
    } else {
        Ok(ValueModel::Decimal(Decimal { mantissa: (a * f) as i64, scale }))
    }
}

/// A decimal of an exact mantissa.
pub open spec fn decimal_of(mantissa: int, scale: u8) -> Result<ValueModel, Trap> {
    if i64::MIN <= mantissa <= i64::MAX {
        Ok(ValueModel::Decimal(Decimal { mantissa: mantissa as i64, scale }))
    } else {
        Err(Trap::DecimalOverflow)
    }
}

/// The sum or difference of decimals of the same scale.
pub open spec fn decimal_sum(a: Decimal, b: Decimal, mantissa: int) -> Result<ValueModel, Trap> {
    if a.scale != b.scale {
        Err(Trap::DecimalScaleMismatch)
    } else {
        decimal_of(mantissa, a.scale)
    }
}

/// The product of decimals, whose scales add up.
pub open spec fn decimal_product(a: Decimal, b: Decimal) -> Result<ValueModel, Trap> {
    let m = a.mantissa * b.mantissa;
    if m > i64::MAX || m < i64::MIN || a.scale + b.scale > u8::MAX {
        Err(Trap::DecimalOverflow)
    } else {
        Ok(ValueModel::Decimal(Decimal { mantissa: m as i64, scale: (a.scale + b.scale) as u8 }))
    }
}

/// A float as a signed integer: its fraction is cut off. One that is too large traps, and so does
/// one that is no number.
pub open spec fn float_to_i64(a: u64) -> Result<ValueModel, Trap> {
    if !ieee::is_finite(a) {
        Err(Trap::FloatToIntInvalid)
    } else if ieee::less(a, ieee::MINUS_TWO_TO_63_BITS) || !ieee::less(a, ieee::TWO_TO_63_BITS) {
        Err(Trap::IntCastOverflow)
    } else {
        Ok(ValueModel::I64(ieee::truncated_i64(a)))
    }
}

/// A float as an unsigned integer: its fraction is cut off. One that is too large or negative
/// traps, and so does one that is no number.
pub open spec fn float_to_u64(a: u64) -> Result<ValueModel, Trap> {
    if !ieee::is_finite(a) {
        Err(Trap::FloatToIntInvalid)
    } else if ieee::less(a, 0) || !ieee::less(a, ieee::TWO_TO_64_BITS) {
        Err(Trap::IntCastOverflow)
    } else {
        Ok(ValueModel::U64(ieee::truncated_u64(a)))
    }
}

/// A part of a byte string.
pub open spec fn bytes_part(b: Seq<u8>, start: u64, end: u64) -> Result<ValueModel, Trap> {
    if start <= end <= b.len() {
        Ok(ValueModel::Bytes(b.subrange(start as int, end as int)))
    } else {
        Err(Trap::IndexOutOfBounds)
    }
}

/// A part of a string, by byte positions, which must not lie inside a character.
pub open spec fn text_part(s: Seq<char>, start: u64, end: u64) -> Result<ValueModel, Trap> {
    let b = encode_utf8(s);
    if start > end || end > b.len() {
        Err(Trap::IndexOutOfBounds)
    } else if !is_char_boundary(b, start as int) || !is_char_boundary(b, end as int) {
        Err(Trap::StrNotCharBoundary)
    } else {
        Ok(ValueModel::Str(decode_utf8(b.subrange(start as int, end as int))))
    }
}

// ---------------------------------------------------------------------------------------------
// Instructions.
// ---------------------------------------------------------------------------------------------

/// The trap of an instruction whose arguments are not of the types that it takes.
pub open spec fn mismatch(op: Opcode, args: Seq<ValueModel>, k: int) -> Trap
    decreases args.len() - k,
{
    match typing::fixed_sig(op) {
        None => Trap::InvalidPc,
        Some((tys, _)) => if k < 0 || k >= args.len() || k >= tys.len() {
            Trap::InvalidPc
        } else if args[k].ty() != tys[k] {
            Trap::TypeMismatch { expected: tys[k], actual: args[k].ty() }
        } else {
            mismatch(op, args, k + 1)
        },
    }
}

/// The result of an instruction on one value.
pub open spec fn unary(op: Opcode, a: ValueModel) -> Result<ValueModel, Trap> {
    match (op, a) {
        (Opcode::Mov, _) => Ok(a),
        (Opcode::DecToI64, ValueModel::Decimal(d)) => if d.scale != 0 {
            Err(Trap::DecimalScaleMismatch)
        } else {
            Ok(ValueModel::I64(d.mantissa))
        },
        (Opcode::DecToU64, ValueModel::Decimal(d)) => if d.scale != 0 {
            Err(Trap::DecimalScaleMismatch)
        } else if d.mantissa < 0 {
            Err(Trap::IntCastOverflow)
        } else {
            Ok(ValueModel::U64(d.mantissa as u64))
        },
        (Opcode::I64ToU64, ValueModel::I64(i)) => if i < 0 {
            Err(Trap::IntCastOverflow)
        } else {
            Ok(ValueModel::U64(i as u64))
        },
        (Opcode::U64ToI64, ValueModel::U64(u)) => if u > i64::MAX {
            Err(Trap::IntCastOverflow)
        } else {
            Ok(ValueModel::I64(u as i64))
        },
        (Opcode::BoolNot, ValueModel::Bool(b)) => Ok(ValueModel::Bool(!b)),
        (Opcode::F64Neg, ValueModel::F64(f)) => Ok(ValueModel::F64(ieee::negated(f))),
        (Opcode::F64Abs, ValueModel::F64(f)) => Ok(ValueModel::F64(ieee::magnitude(f))),
        (Opcode::F64ToBits, ValueModel::F64(f)) => Ok(ValueModel::U64(f)),
        (Opcode::F64FromBits, ValueModel::U64(u)) => Ok(ValueModel::F64(u)),
        (Opcode::F64ToI64, ValueModel::F64(f)) => float_to_i64(f),
        (Opcode::F64ToU64, ValueModel::F64(f)) => float_to_u64(f),
        (Opcode::BytesLen, ValueModel::Bytes(b)) => Ok(ValueModel::U64(b.len() as u64)),
        (Opcode::StrLen, ValueModel::Str(s)) => Ok(ValueModel::U64(encode_utf8(s).len() as u64)),
        (Opcode::StrToBytes, ValueModel::Str(s)) => Ok(ValueModel::Bytes(encode_utf8(s))),
        (Opcode::BytesToStr, ValueModel::Bytes(b)) => if valid_utf8(b) {
            Ok(ValueModel::Str(decode_utf8(b)))
        } else {
            Err(Trap::InvalidUtf8)
        },
        _ => Err(mismatch(op, seq![a], 0)),
    }
}

/// The result of an instruction on two values.
pub open spec fn binary(op: Opcode, a: ValueModel, b: ValueModel) -> Result<ValueModel, Trap> {
    match (a, b) {
        (ValueModel::Decimal(x), ValueModel::Decimal(y)) => match op {
            Opcode::DecAdd => decimal_sum(x, y, x.mantissa + y.mantissa),
            Opcode::DecSub => decimal_sum(x, y, x.mantissa - y.mantissa),
            Opcode::DecMul => decimal_product(x, y),
            _ => Err(mismatch(op, seq![a, b], 0)),
        },
        (ValueModel::I64(x), ValueModel::I64(y)) => i64_binary(op, x, y),
        (ValueModel::U64(x), ValueModel::U64(y)) => u64_binary(op, x, y),
        (ValueModel::Bool(x), ValueModel::Bool(y)) => match op {
            Opcode::BoolAnd => Ok(ValueModel::Bool(x && y)),
            Opcode::BoolOr => Ok(ValueModel::Bool(x || y)),
            Opcode::BoolXor => Ok(ValueModel::Bool(x != y)),
            _ => Err(mismatch(op, seq![a, b], 0)),
        },
        (ValueModel::F64(x), ValueModel::F64(y)) => match op {
            Opcode::F64Min => Ok(ValueModel::F64(ieee::min(x, y))),
            Opcode::F64Max => Ok(ValueModel::F64(ieee::max(x, y))),
            Opcode::F64MinNum => Ok(ValueModel::F64(ieee::min_num(x, y))),
            Opcode::F64MaxNum => Ok(ValueModel::F64(ieee::max_num(x, y))),
            Opcode::F64Eq => Ok(ValueModel::Bool(ieee::equal(x, y))),
            Opcode::F64Lt => Ok(ValueModel::Bool(ieee::less(x, y))),
            Opcode::F64Gt => Ok(ValueModel::Bool(ieee::less(y, x))),
            Opcode::F64Le => Ok(ValueModel::Bool(ieee::less(x, y) || ieee::equal(x, y))),
            Opcode::F64Ge => Ok(ValueModel::Bool(ieee::less(y, x) || ieee::equal(x, y))),
            _ => Err(mismatch(op, seq![a, b], 0)),
        },
        (ValueModel::Bytes(x), ValueModel::Bytes(y)) => match op {
            Opcode::BytesEq => Ok(ValueModel::Bool(x == y)),
            Opcode::BytesConcat => Ok(ValueModel::Bytes(x + y)),
            _ => Err(mismatch(op, seq![a, b], 0)),
        },
        (ValueModel::Str(x), ValueModel::Str(y)) => match op {
            Opcode::StrEq => Ok(ValueModel::Bool(x == y)),
            Opcode::StrConcat => Ok(ValueModel::Str(x + y)),
            _ => Err(mismatch(op, seq![a, b], 0)),
        },
        (ValueModel::Bytes(x), ValueModel::U64(i)) => match op {
            Opcode::BytesGet => byte_of(x, i),
            _ => Err(mismatch(op, seq![a, b], 0)),
        },
        _ => Err(mismatch(op, seq![a, b], 0)),
    }
}

/// A byte of a byte string.
pub open spec fn byte_of(b: Seq<u8>, i: u64) -> Result<ValueModel, Trap> {
    if i < b.len() {
        Ok(ValueModel::U64(b[i as int] as u64))
    } else {
        Err(Trap::IndexOutOfBounds)
    }
}

/// The result of an instruction on two signed integers.
pub open spec fn i64_binary(op: Opcode, x: i64, y: i64) -> Result<ValueModel, Trap> {
    match op {
        Opcode::I64Add => Ok(ValueModel::I64(x.wrapping_add(y))),
        Opcode::I64Sub => Ok(ValueModel::I64(x.wrapping_sub(y))),
        Opcode::I64Mul => Ok(ValueModel::I64(x.wrapping_mul(y))),
        Opcode::I64Div => if y == 0 {
            Err(Trap::DivByZero)
        } else if x == i64::MIN && y == -1 {
            Err(Trap::IntDivOverflow)
        } else {
            Ok(ValueModel::I64(quotient(x as int, y as int) as i64))
        },
        Opcode::I64Rem => if y == 0 {
            Err(Trap::DivByZero)
        } else if x == i64::MIN && y == -1 {
            Err(Trap::IntDivOverflow)
        } else {
            Ok(ValueModel::I64(remainder(x as int, y as int) as i64))
        },
        Opcode::I64And => Ok(ValueModel::I64(x & y)),
        Opcode::I64Or => Ok(ValueModel::I64(x | y)),
        Opcode::I64Xor => Ok(ValueModel::I64(x ^ y)),
        Opcode::I64Shl => Ok(ValueModel::I64(x << ((y % 64) as u32))),
        Opcode::I64Shr => Ok(ValueModel::I64(x >> ((y % 64) as u32))),
        Opcode::I64Eq => Ok(ValueModel::Bool(x == y)),
        Opcode::I64Lt => Ok(ValueModel::Bool(x < y)),
        Opcode::I64Gt => Ok(ValueModel::Bool(x > y)),
        Opcode::I64Le => Ok(ValueModel::Bool(x <= y)),
        Opcode::I64Ge => Ok(ValueModel::Bool(x >= y)),
        _ => Err(mismatch(op, seq![ValueModel::I64(x), ValueModel::I64(y)], 0)),
    }
}

/// The result of an instruction on two unsigned integers.
pub open spec fn u64_binary(op: Opcode, x: u64, y: u64) -> Result<ValueModel, Trap> {
    match op {
        Opcode::U64Add => Ok(ValueModel::U64(x.wrapping_add(y))),
        Opcode::U64Sub => Ok(ValueModel::U64(x.wrapping_sub(y))),
        Opcode::U64Mul => Ok(ValueModel::U64(x.wrapping_mul(y))),
        Opcode::U64Div => if y == 0 {
            Err(Trap::DivByZero)
        } else {
            Ok(ValueModel::U64(x / y))
        },
        Opcode::U64Rem => if y == 0 {
            Err(Trap::DivByZero)
        } else {
            Ok(ValueModel::U64(x % y))
        },
        Opcode::U64And => Ok(ValueModel::U64(x & y)),
        Opcode::U64Or => Ok(ValueModel::U64(x | y)),
        Opcode::U64Xor => Ok(ValueModel::U64(x ^ y)),
        Opcode::U64Shl => Ok(ValueModel::U64(x << ((y % 64) as u32))),
        Opcode::U64Shr => Ok(ValueModel::U64(x >> ((y % 64) as u32))),
        Opcode::U64Eq => Ok(ValueModel::Bool(x == y)),
        Opcode::U64Lt => Ok(ValueModel::Bool(x < y)),
        Opcode::U64Gt => Ok(ValueModel::Bool(x > y)),
        Opcode::U64Le => Ok(ValueModel::Bool(x <= y)),
        Opcode::U64Ge => Ok(ValueModel::Bool(x >= y)),
        _ => Err(mismatch(op, seq![ValueModel::U64(x), ValueModel::U64(y)], 0)),
    }
}

/// The result of a conversion to a decimal of a scale.
pub open spec fn scaled(op: Opcode, a: ValueModel, scale: u8) -> Result<ValueModel, Trap> {
    match (op, a) {
        (Opcode::I64ToDec, ValueModel::I64(i)) => to_decimal(i as int, scale),
        (Opcode::U64ToDec, ValueModel::U64(u)) => to_decimal(u as int, scale),
        _ => Err(mismatch(op, seq![a], 0)),
    }
}

/// The result of taking a part of a byte string or string.
pub open spec fn sliced(op: Opcode, a: ValueModel, s: ValueModel, e: ValueModel) -> Result<
    ValueModel,
    Trap,
> {
    match (a, s, e) {
        (ValueModel::Bytes(b), ValueModel::U64(start), ValueModel::U64(end)) => if op is BytesSlice {
            bytes_part(b, start, end)
        } else {
            Err(mismatch(op, seq![a, s, e], 0))
        },
        (ValueModel::Str(t), ValueModel::U64(start), ValueModel::U64(end)) => if op is StrSlice {
            text_part(t, start, end)
        } else {
            Err(mismatch(op, seq![a, s, e], 0))
        },
        _ => Err(mismatch(op, seq![a, s, e], 0)),
    }
}

/// The rounding arithmetic that an instruction asks for, with its operands.
pub open spec fn float_request(op: Opcode, args: Seq<ValueModel>) -> Option<(FloatOp, u64, u64)> {
    if args.len() == 2 {
        match (op, args[0], args[1]) {
            (Opcode::F64Add, ValueModel::F64(a), ValueModel::F64(b)) => Some((FloatOp::Sum, a, b)),
            (Opcode::F64Sub, ValueModel::F64(a), ValueModel::F64(b)) => Some(
                (FloatOp::Difference, a, b),
            ),
            (Opcode::F64Mul, ValueModel::F64(a), ValueModel::F64(b)) => Some((FloatOp::Product, a, b)),
            (Opcode::F64Div, ValueModel::F64(a), ValueModel::F64(b)) => Some(
                (FloatOp::Quotient, a, b),
            ),
            (Opcode::F64Rem, ValueModel::F64(a), ValueModel::F64(b)) => Some(
                (FloatOp::Remainder, a, b),
            ),
            _ => None,
        }
    } else if args.len() == 1 {
        match (op, args[0]) {
            (Opcode::I64ToF64, ValueModel::I64(i)) => Some((FloatOp::FromI64, i as u64, 0)),
            (Opcode::U64ToF64, ValueModel::U64(u)) => Some((FloatOp::FromU64, u, 0)),
            _ => None,
        }
    } else {
        None
    }
}

// ---------------------------------------------------------------------------------------------
// Executable.
// ---------------------------------------------------------------------------------------------

/// `a` and `res` agree.
pub open spec fn gives(res: Result<Value, Trap>, expected: Result<ValueModel, Trap>) -> bool {
    match expected {
        Ok(v) => res is Ok && res->Ok_0@ == v,
        Err(t) => res == Err::<Value, Trap>(t),
    }
}

/// The trap of an instruction whose arguments are not of the types that it takes.
fn type_error(op: Opcode, args: Vec<ValueType>, Ghost(ms): Ghost<Seq<ValueModel>>) -> (t: Trap)
    requires
        args@ == ms.map_values(|m: ValueModel| m.ty()),
    ensures
        t == mismatch(op, ms, 0),
{
    match fixed_signature(op) {
        None => Trap::InvalidPc,
        Some((tys, _)) => {
            let mut k: usize = 0;
            while k < args.len() && k < tys.len()
                invariant
                    k <= args@.len(),
                    args@ == ms.map_values(|m: ValueModel| m.ty()),
                    typing::fixed_sig(op) is Some,
                    (typing::fixed_sig(op)->0).0 == tys@,
                    mismatch(op, ms, k as int) == mismatch(op, ms, 0),
                decreases args.len() - k,
            {
                assert(args@[k as int] == ms[k as int].ty());
                if args[k] != tys[k] {
                    return Trap::TypeMismatch { expected: tys[k], actual: args[k] };
                }
                k = k + 1;
            }
            Trap::InvalidPc
        },
    }
}

fn unary_error(op: Opcode, a: &Value) -> (t: Trap)
    ensures
        t == mismatch(op, seq![a@], 0),
{
    let tys: Vec<ValueType> = vec![a.value_type()];
    let ghost ms = seq![a@];
    assert(tys@ =~= ms.map_values(|m: ValueModel| m.ty()));
    type_error(op, tys, Ghost(ms))
}

fn binary_error(op: Opcode, a: &Value, b: &Value) -> (t: Trap)
    ensures
        t == mismatch(op, seq![a@, b@], 0),
{
    let tys: Vec<ValueType> = vec![a.value_type(), b.value_type()];
    let ghost ms = seq![a@, b@];
    assert(tys@ =~= ms.map_values(|m: ValueModel| m.ty()));
    type_error(op, tys, Ghost(ms))
}

fn sliced_error(op: Opcode, a: &Value, b: &Value, c: &Value) -> (t: Trap)
    ensures
        t == mismatch(op, seq![a@, b@, c@], 0),
{
    let tys: Vec<ValueType> = vec![a.value_type(), b.value_type(), c.value_type()];
    let ghost ms = seq![a@, b@, c@];
    assert(tys@ =~= ms.map_values(|m: ValueModel| m.ty()));
    type_error(op, tys, Ghost(ms))
}

/// The result of an instruction on one value.
pub fn eval_unary(op: Opcode, a: &Value) -> (res: Result<Value, Trap>)
    ensures
        gives(res, unary(op, a@)),
{
    match (op, a) {
        (Opcode::Mov, _) => Ok(a.duplicate()),
        (Opcode::DecToI64, Value::Decimal(d)) => if d.scale != 0 {
            Err(Trap::DecimalScaleMismatch)
        } else {
            Ok(Value::I64(d.mantissa))
        },
        (Opcode::DecToU64, Value::Decimal(d)) => if d.scale != 0 {
            Err(Trap::DecimalScaleMismatch)
        } else if d.mantissa < 0 {
            Err(Trap::IntCastOverflow)
        } else {
            Ok(Value::U64(d.mantissa as u64))
        },
        (Opcode::I64ToU64, Value::I64(i)) => if *i < 0 {
            Err(Trap::IntCastOverflow)
        } else {
            Ok(Value::U64(*i as u64))
        },
        (Opcode::U64ToI64, Value::U64(u)) => if *u > i64::MAX as u64 {
            Err(Trap::IntCastOverflow)
        } else {
            Ok(Value::I64(*u as i64))
        },
        (Opcode::BoolNot, Value::Bool(b)) => Ok(Value::Bool(!*b)),
        (Opcode::F64Neg, Value::F64(f)) => Ok(Value::F64(f64_neg(*f))),
        (Opcode::F64Abs, Value::F64(f)) => Ok(Value::F64(f64_abs(*f))),
        (Opcode::F64ToBits, Value::F64(f)) => Ok(Value::U64(*f)),
        (Opcode::F64FromBits, Value::U64(u)) => Ok(Value::F64(*u)),
        (Opcode::F64ToI64, Value::F64(f)) => if f64_abs(*f) >= ieee::INFINITY_BITS {
            Err(Trap::FloatToIntInvalid)
        } else if f64_lt(*f, ieee::MINUS_TWO_TO_63_BITS) || !f64_lt(*f, ieee::TWO_TO_63_BITS) {
            Err(Trap::IntCastOverflow)
        } else {
            Ok(Value::I64(f64_truncate_i64(*f)))
        },
        (Opcode::F64ToU64, Value::F64(f)) => if f64_abs(*f) >= ieee::INFINITY_BITS {
            Err(Trap::FloatToIntInvalid)
        } else if f64_lt(*f, 0) || !f64_lt(*f, ieee::TWO_TO_64_BITS) {
            Err(Trap::IntCastOverflow)
        } else {
            Ok(Value::U64(f64_truncate_u64(*f)))
        },
        (Opcode::BytesLen, Value::Bytes(b)) => Ok(Value::U64(b.len() as u64)),
        (Opcode::StrLen, Value::Str(s)) => Ok(Value::U64(s.as_str().as_bytes().len() as u64)),
        (Opcode::StrToBytes, Value::Str(s)) => Ok(
            Value::Bytes(vstd::slice::slice_to_vec(s.as_str().as_bytes())),
        ),
        (Opcode::BytesToStr, Value::Bytes(b)) => match str_from_utf8(b.as_slice()) {
            Some(s) => {
                proof {
                    encode_utf8_decode_utf8(s@);
                    encode_utf8_valid_utf8(s@);
                }
                Ok(Value::Str(s.to_owned()))
            },
            None => Err(Trap::InvalidUtf8),
        },
        _ => Err(unary_error(op, a)),
    }
}

/// The low six bits of a shift count.
fn shift_count(y: i64) -> (s: u32)
    ensures
        s == (y % 64) as u32,
        s < 64,
{
    let r: i64 = y % 64;
    if r < 0 {
        (r + 64) as u32
    } else {
        r as u32
    }
}

/// The result of an instruction on two signed integers.
fn eval_i64(op: Opcode, x: i64, y: i64) -> (res: Result<Value, Trap>)
    ensures
        gives(res, i64_binary(op, x, y)),
{
    match op {
        Opcode::I64Add => Ok(Value::I64(x.wrapping_add(y))),
        Opcode::I64Sub => Ok(Value::I64(x.wrapping_sub(y))),
        Opcode::I64Mul => Ok(Value::I64(x.wrapping_mul(y))),
        Opcode::I64Div => if y == 0 {
            Err(Trap::DivByZero)
        } else if x == i64::MIN && y == -1 {
            Err(Trap::IntDivOverflow)
        } else {
            Ok(Value::I64(div_i64(x, y)))
        },
        Opcode::I64Rem => if y == 0 {
            Err(Trap::DivByZero)
        } else if x == i64::MIN && y == -1 {
            Err(Trap::IntDivOverflow)
        } else {
            Ok(Value::I64(rem_i64(x, y)))
        },
        Opcode::I64And => Ok(Value::I64(x & y)),
        Opcode::I64Or => Ok(Value::I64(x | y)),
        Opcode::I64Xor => Ok(Value::I64(x ^ y)),
        Opcode::I64Shl => Ok(Value::I64(x << shift_count(y))),
        Opcode::I64Shr => Ok(Value::I64(x >> shift_count(y))),
        Opcode::I64Eq => Ok(Value::Bool(x == y)),
        Opcode::I64Lt => Ok(Value::Bool(x < y)),
        Opcode::I64Gt => Ok(Value::Bool(x > y)),
        Opcode::I64Le => Ok(Value::Bool(x <= y)),
        Opcode::I64Ge => Ok(Value::Bool(x >= y)),
        _ => Err(binary_error(op, &Value::I64(x), &Value::I64(y))),
    }
}

/// Dividing by a negative number is dividing by its absolute value and negating.
proof fn lemma_negative_divisor(x: int, y: int)
    requires
        x >= 0,
        y < 0,
    ensures
        x / y == -(x / (-y)),
        x % y == x % (-y),
{
    let q = x / y;
    let r = x % y;
    assert(x == y * q + r && 0 <= r < -y) by (nonlinear_arith)
        requires
            y < 0,
            q == x / y,
            r == x % y,
    ;
    assert(x == (-q) * (-y) + r) by (nonlinear_arith)
        requires
            x == y * q + r,
    ;
    vstd::arithmetic::div_mod::lemma_fundamental_div_mod_converse(x, -y, -q, r);
}

/// A remainder by its quotient.
proof fn lemma_remainder(x: int, y: int)
    requires
        y > 0,
    ensures
        x % y == x - y * (x / y),
{
    vstd::arithmetic::div_mod::lemma_fundamental_div_mod(x, y);
}

/// The quotient of signed integers.
fn div_i64(x: i64, y: i64) -> (q: i64)
    requires
        y != 0,
        !(x == i64::MIN && y == -1),
    ensures
        q == quotient(x as int, y as int),
{
    let q: i64 = x / y;
    proof {
        let a = magnitude(x as int);
        let b = magnitude(y as int);
        if y < 0 {
            lemma_negative_divisor(a, y as int);
        }
        assert(0 <= a / b <= a) by (nonlinear_arith)
            requires
                a >= 0,
                b > 0,
        ;
        assert(b >= 2 && a >= 1 ==> a / b < a) by (nonlinear_arith);
        assert(q == quotient(x as int, y as int));
    }
    q
}

/// The remainder of signed integers.
fn rem_i64(x: i64, y: i64) -> (r: i64)
    requires
        y != 0,
        !(x == i64::MIN && y == -1),
    ensures
        r == remainder(x as int, y as int),
{
    let r: i64 = x % y;
    proof {
        let a = magnitude(x as int);
        let b = magnitude(y as int);
        if y < 0 {
            lemma_negative_divisor(a, y as int);
        }
        lemma_remainder(a, b);
        let q = a / b;
        assert(r == (if x < 0 { -(a - b * q) } else { a - b * q }));
        assert(b * q == (if y < 0 { -(y * q) } else { y * q })) by (nonlinear_arith)
            requires
                b == (if y < 0 { -y } else { y as int }),
        ;
        assert(y * (-q) == -(y * q)) by (nonlinear_arith);
    }
    r
}

/// The result of an instruction on two unsigned integers.
fn eval_u64(op: Opcode, x: u64, y: u64) -> (res: Result<Value, Trap>)
    ensures
        gives(res, u64_binary(op, x, y)),
{
    match op {
        Opcode::U64Add => Ok(Value::U64(x.wrapping_add(y))),
        Opcode::U64Sub => Ok(Value::U64(x.wrapping_sub(y))),
        Opcode::U64Mul => Ok(Value::U64(x.wrapping_mul(y))),
        Opcode::U64Div => if y == 0 {
            Err(Trap::DivByZero)
        } else {
            Ok(Value::U64(x / y))
        },
        Opcode::U64Rem => if y == 0 {
            Err(Trap::DivByZero)
        } else {
            Ok(Value::U64(x % y))
        },
        Opcode::U64And => Ok(Value::U64(x & y)),
        Opcode::U64Or => Ok(Value::U64(x | y)),
        Opcode::U64Xor => Ok(Value::U64(x ^ y)),
        Opcode::U64Shl => Ok(Value::U64(x << ((y % 64) as u32))),
        Opcode::U64Shr => Ok(Value::U64(x >> ((y % 64) as u32))),
        Opcode::U64Eq => Ok(Value::Bool(x == y)),
        Opcode::U64Lt => Ok(Value::Bool(x < y)),
        Opcode::U64Gt => Ok(Value::Bool(x > y)),
        Opcode::U64Le => Ok(Value::Bool(x <= y)),
        Opcode::U64Ge => Ok(Value::Bool(x >= y)),
        _ => Err(binary_error(op, &Value::U64(x), &Value::U64(y))),
    }
}

/// The result of an instruction on two decimals.
fn eval_decimal(op: Opcode, x: Decimal, y: Decimal) -> (res: Result<Value, Trap>)
    ensures
        gives(res, binary(op, ValueModel::Decimal(x), ValueModel::Decimal(y))),
{
    match op {
        Opcode::DecAdd => if x.scale != y.scale {
            Err(Trap::DecimalScaleMismatch)
        } else {
            match x.mantissa.checked_add(y.mantissa) {
                Some(mantissa) => Ok(Value::Decimal(Decimal { mantissa, scale: x.scale })),
                None => Err(Trap::DecimalOverflow),
            }
        },
        Opcode::DecSub => if x.scale != y.scale {
            Err(Trap::DecimalScaleMismatch)
        } else {
            match x.mantissa.checked_sub(y.mantissa) {
                Some(mantissa) => Ok(Value::Decimal(Decimal { mantissa, scale: x.scale })),
                None => Err(Trap::DecimalOverflow),
            }
        },
        Opcode::DecMul => match x.mantissa.checked_mul(y.mantissa) {
            Some(mantissa) => match x.scale.checked_add(y.scale) {
                Some(scale) => Ok(Value::Decimal(Decimal { mantissa, scale })),
                None => Err(Trap::DecimalOverflow),
            },
            None => Err(Trap::DecimalOverflow),
        },
        _ => Err(binary_error(op, &Value::Decimal(x), &Value::Decimal(y))),
    }
}

/// The result of an instruction on two floats.
fn eval_f64(op: Opcode, x: u64, y: u64) -> (res: Result<Value, Trap>)
    ensures
        gives(res, binary(op, ValueModel::F64(x), ValueModel::F64(y))),
{
    match op {
        Opcode::F64Min => Ok(Value::F64(f64_min(x, y))),
        Opcode::F64Max => Ok(Value::F64(f64_max(x, y))),
        Opcode::F64MinNum => Ok(Value::F64(f64_min_num(x, y))),
        Opcode::F64MaxNum => Ok(Value::F64(f64_max_num(x, y))),
        Opcode::F64Eq => Ok(Value::Bool(f64_eq(x, y))),
        Opcode::F64Lt => Ok(Value::Bool(f64_lt(x, y))),
        Opcode::F64Gt => Ok(Value::Bool(f64_lt(y, x))),
        Opcode::F64Le => Ok(Value::Bool(f64_lt(x, y) || f64_eq(x, y))),
        Opcode::F64Ge => Ok(Value::Bool(f64_lt(y, x) || f64_eq(x, y))),
        _ => Err(binary_error(op, &Value::F64(x), &Value::F64(y))),
    }
}

/// A byte of a byte string.
pub fn eval_byte(b: &Vec<u8>, i: u64) -> (res: Result<Value, Trap>)
    ensures
        gives(res, byte_of(b@, i)),
{
    if i < b.len() as u64 {
        Ok(Value::U64(b[i as usize] as u64))
    } else {
        Err(Trap::IndexOutOfBounds)
    }
}

/// The result of an instruction on two values.
pub fn eval_binary(op: Opcode, a: &Value, b: &Value) -> (res: Result<Value, Trap>)
    ensures
        gives(res, binary(op, a@, b@)),
{
    match (a, b) {
        (Value::Decimal(x), Value::Decimal(y)) => eval_decimal(op, *x, *y),
        (Value::I64(x), Value::I64(y)) => eval_i64(op, *x, *y),
        (Value::U64(x), Value::U64(y)) => eval_u64(op, *x, *y),
        (Value::Bool(x), Value::Bool(y)) => match op {
            Opcode::BoolAnd => Ok(Value::Bool(*x && *y)),
            Opcode::BoolOr => Ok(Value::Bool(*x || *y)),
            Opcode::BoolXor => Ok(Value::Bool(*x != *y)),
            _ => Err(binary_error(op, a, b)),
        },
        (Value::F64(x), Value::F64(y)) => eval_f64(op, *x, *y),
        (Value::Bytes(x), Value::Bytes(y)) => match op {
            Opcode::BytesEq => Ok(Value::Bool(bytes_eq(x.as_slice(), y.as_slice()))),
            Opcode::BytesConcat => {
                let mut out: Vec<u8> = vstd::slice::slice_to_vec(x.as_slice());
                let mut tail: Vec<u8> = vstd::slice::slice_to_vec(y.as_slice());
                out.append(&mut tail);
                Ok(Value::Bytes(out))
            },
            _ => Err(binary_error(op, a, b)),
        },
        (Value::Str(x), Value::Str(y)) => match op {
            Opcode::StrEq => Ok(Value::Bool(str_eq(x.as_str(), y.as_str()))),
            Opcode::StrConcat => {
                let mut out: String = x.clone();
                out.append(y.as_str());
                Ok(Value::Str(out))
            },
            _ => Err(binary_error(op, a, b)),
        },
        (Value::Bytes(x), Value::U64(i)) => match op {
            Opcode::BytesGet => eval_byte(x, *i),
            _ => Err(binary_error(op, a, b)),
        },
        _ => Err(binary_error(op, a, b)),
    }
}

proof fn lemma_power_of_ten(k: nat)
    ensures
        power_of_ten(k) >= 1,
        power_of_ten(k + 1) == 10 * power_of_ten(k),
    decreases k,
{
    if k > 0 {
        lemma_power_of_ten((k - 1) as nat);
    }
}

proof fn lemma_power_of_ten_monotone(a: nat, b: nat)
    requires
        a <= b,
    ensures
        power_of_ten(a) <= power_of_ten(b),
    decreases b,
{
    if a < b {
        lemma_power_of_ten_monotone(a, (b - 1) as nat);
        lemma_power_of_ten((b - 1) as nat);
    }
}

/// A power of ten, where it fits.
fn ten_to(scale: u8) -> (r: Option<i64>)
    ensures
        match r {
            Some(f) => f == power_of_ten(scale as nat),
            None => power_of_ten(scale as nat) > i64::MAX,
        },
{
    let mut f: i64 = 1;
    let mut k: u8 = 0;
    while k < scale
        invariant
            k <= scale,
            f == power_of_ten(k as nat),
        decreases scale - k,
    {
        proof {
            lemma_power_of_ten(k as nat);
            lemma_power_of_ten_monotone((k + 1) as nat, scale as nat);
        }
        match f.checked_mul(10) {
            Some(g) => {
                f = g;
            },
            None => {
                return None;
            },
        }
        k = k + 1;
    }
    Some(f)
}

/// The result of a conversion to a decimal of a scale.
pub fn eval_scaled(op: Opcode, a: &Value, scale: u8) -> (res: Result<Value, Trap>)
    ensures
        gives(res, scaled(op, a@, scale)),
{
    let v: i128 = match (op, a) {
        (Opcode::I64ToDec, Value::I64(i)) => *i as i128,
        (Opcode::U64ToDec, Value::U64(u)) => *u as i128,
        _ => {
            return Err(unary_error(op, a));
        },
    };
    match ten_to(scale) {
        None => Err(Trap::DecimalOverflow),
        Some(f) => {
            proof {
                lemma_power_of_ten(scale as nat);
                assert(-0x1_0000_0000_0000_0000_0000_0000_0000_0000 < v * f < 0x1_0000_0000_0000_0000_0000_0000_0000_0000
                    && -0x8000_0000_0000_0000_0000_0000_0000_0000 <= v * f
                    <= 0x7fff_ffff_ffff_ffff_ffff_ffff_ffff_ffff) by (nonlinear_arith)
                    requires
                        -0x8000_0000_0000_0000 <= v <= 0xffff_ffff_ffff_ffff,
                        1 <= f <= 0x7fff_ffff_ffff_ffff,
                ;
            }
            let m: i128 = v * (f as i128);
            if m > i64::MAX as i128 || m < i64::MIN as i128 {
                Err(Trap::DecimalOverflow)
            } else {
                Ok(Value::Decimal(Decimal { mantissa: m as i64, scale }))
            }
        },
    }
}

/// A part of a byte string.
fn eval_bytes_part(b: &Vec<u8>, start: u64, end: u64) -> (res: Result<Value, Trap>)
    ensures
        gives(res, bytes_part(b@, start, end)),
{
    if start <= end && end <= b.len() as u64 {
        let part = vstd::slice::slice_subrange(b.as_slice(), start as usize, end as usize);
        Ok(Value::Bytes(vstd::slice::slice_to_vec(part)))
    } else {
        Err(Trap::IndexOutOfBounds)
    }
}

/// A part of a string.
fn eval_text_part(s: &String, start: u64, end: u64) -> (res: Result<Value, Trap>)
    ensures
        gives(res, text_part(s@, start, end)),
{
    let t: &str = s.as_str();
    let n: usize = t.as_bytes().len();
    if start > end || end > n as u64 {
        return Err(Trap::IndexOutOfBounds);
    }
    match str_get(t, start as usize, end as usize) {
        Some(part) => {
            proof {
                encode_utf8_decode_utf8(part@);
            }
            Ok(Value::Str(part.to_owned()))
        },
        None => Err(Trap::StrNotCharBoundary),
    }
}

/// The result of taking a part of a byte string or string.
pub fn eval_sliced(op: Opcode, a: &Value, s: &Value, e: &Value) -> (res: Result<Value, Trap>)
    ensures
        gives(res, sliced(op, a@, s@, e@)),
{
    match (a, s, e) {
        (Value::Bytes(b), Value::U64(start), Value::U64(end)) => match op {
            Opcode::BytesSlice => eval_bytes_part(b, *start, *end),
            _ => Err(sliced_error(op, a, s, e)),
        },
        (Value::Str(t), Value::U64(start), Value::U64(end)) => match op {
            Opcode::StrSlice => eval_text_part(t, *start, *end),
            _ => Err(sliced_error(op, a, s, e)),
        },
        _ => Err(sliced_error(op, a, s, e)),
    }
}

/// The rounding arithmetic that an instruction on one value asks for.
pub fn float_unary(op: Opcode, a: &Value) -> (r: Option<(FloatOp, u64, u64)>)
    ensures
        r == float_request(op, seq![a@]),
{
    match (op, a) {
        (Opcode::I64ToF64, Value::I64(i)) => Some((FloatOp::FromI64, *i as u64, 0)),
        (Opcode::U64ToF64, Value::U64(u)) => Some((FloatOp::FromU64, *u, 0)),
        _ => None,
    }
}

/// The rounding arithmetic that an instruction on two values asks for.
pub fn float_binary(op: Opcode, a: &Value, b: &Value) -> (r: Option<(FloatOp, u64, u64)>)
    ensures
        r == float_request(op, seq![a@, b@]),
{
    match (a, b) {
        (Value::F64(x), Value::F64(y)) => match op {
            Opcode::F64Add => Some((FloatOp::Sum, *x, *y)),
            Opcode::F64Sub => Some((FloatOp::Difference, *x, *y)),
            Opcode::F64Mul => Some((FloatOp::Product, *x, *y)),
            Opcode::F64Div => Some((FloatOp::Quotient, *x, *y)),
            Opcode::F64Rem => Some((FloatOp::Remainder, *x, *y)),
            _ => None,
        },
        _ => None,
    }
}

} // verus!
