//! What single instructions compute, and how they trap.

use execution_tape::assembler::Asm;
use execution_tape::builder::{FunctionSig, ProgramBuilder};
use execution_tape::host::{Host, HostError, SigHash, ValueRef};
use execution_tape::ieee::{FloatOp, FloatUnit};
use execution_tape::machine::Limits;
use execution_tape::program::{Const, StructTypeDef, ValueType};
use execution_tape::trace::{NoTrace, TraceMask, Traced};
use execution_tape::trap::Trap;
use execution_tape::value::{Decimal, FuncId, Value};
use execution_tape::vm::Vm;

struct NoHost;

impl Host for NoHost {
    fn call(
        &mut self,
        _symbol: &str,
        _sig_hash: SigHash,
        _args: &[ValueRef<'_>],
    ) -> Result<(Vec<Value>, u64), HostError> {
        Err(HostError::UnknownSymbol)
    }
}

/// The floating-point arithmetic of the machine.
struct NativeFloats;

impl FloatUnit for NativeFloats {
    fn compute(&mut self, op: FloatOp, a: u64, b: u64) -> u64 {
        let x = f64::from_bits(a);
        let y = f64::from_bits(b);
        let r: f64 = match op {
            FloatOp::Sum => x + y,
            FloatOp::Difference => x - y,
            FloatOp::Product => x * y,
            FloatOp::Quotient => x / y,
            FloatOp::Remainder => x % y,
            FloatOp::FromI64 => (a as i64) as f64,
            FloatOp::FromU64 => a as f64,
        };
        r.to_bits()
    }
}

/// Runs a function that takes `args` and returns what its code leaves in register 9.
fn compute(args: &[Value], ret: ValueType, code: impl FnOnce(&mut Asm)) -> Result<Value, Trap> {
    let mut pb = ProgramBuilder::new();
    compute_with(&mut pb, args, ret, code)
}

fn compute_with(
    pb: &mut ProgramBuilder,
    args: &[Value],
    ret: ValueType,
    code: impl FnOnce(&mut Asm),
) -> Result<Value, Trap> {
    let mut a = Asm::new();
    code(&mut a);
    a.ret(0, &[9]);
    let mut whole = ProgramBuilder::new();
    std::mem::swap(pb, &mut whole);
    let f = whole
        .push_function_checked(
            a,
            FunctionSig {
                arg_types: args.iter().map(Value::value_type).collect(),
                ret_types: vec![ret],
                reg_count: 10,
            },
        )
        .unwrap();
    let p = whole.build_verified().unwrap();
    let mut vm = Vm::new(NoHost, NativeFloats, Limits::default());
    match vm.run(&p, f, args, TraceMask::none(), &mut Traced::new(NoTrace)) {
        Ok(values) => {
            assert_eq!(values.len(), 1);
            Ok(values.into_iter().next().unwrap())
        }
        Err(info) => {
            assert_eq!(info.func, FuncId(0));
            Err(info.trap)
        }
    }
}

fn i(v: i64) -> Value {
    Value::I64(v)
}

fn u(v: u64) -> Value {
    Value::U64(v)
}

fn f(v: f64) -> Value {
    Value::F64(v.to_bits())
}

fn d(mantissa: i64, scale: u8) -> Value {
    Value::Decimal(Decimal { mantissa, scale })
}

fn s(v: &str) -> Value {
    Value::Str(v.to_string())
}

fn by(v: &[u8]) -> Value {
    Value::Bytes(v.to_vec())
}

#[test]
fn signed_arithmetic_wraps() {
    let t = ValueType::I64;
    assert_eq!(compute(&[i(i64::MAX), i(1)], t, |a| { a.i64_add(9, 1, 2); }), Ok(i(i64::MIN)));
    assert_eq!(compute(&[i(i64::MIN), i(1)], t, |a| { a.i64_sub(9, 1, 2); }), Ok(i(i64::MAX)));
    assert_eq!(compute(&[i(i64::MAX), i(2)], t, |a| { a.i64_mul(9, 1, 2); }), Ok(i(-2)));
}

#[test]
fn signed_division_cuts_off_towards_zero() {
    let t = ValueType::I64;
    for (x, y, q, r) in [(7, 2, 3, 1), (-7, 2, -3, -1), (7, -2, -3, 1), (-7, -2, 3, -1)] {
        assert_eq!(compute(&[i(x), i(y)], t, |a| { a.i64_div(9, 1, 2); }), Ok(i(q)));
        assert_eq!(compute(&[i(x), i(y)], t, |a| { a.i64_rem(9, 1, 2); }), Ok(i(r)));
    }
    assert_eq!(compute(&[i(1), i(0)], t, |a| { a.i64_div(9, 1, 2); }), Err(Trap::DivByZero));
    assert_eq!(compute(&[i(1), i(0)], t, |a| { a.i64_rem(9, 1, 2); }), Err(Trap::DivByZero));
    assert_eq!(
        compute(&[i(i64::MIN), i(-1)], t, |a| { a.i64_div(9, 1, 2); }),
        Err(Trap::IntDivOverflow)
    );
    assert_eq!(
        compute(&[i(i64::MIN), i(-1)], t, |a| { a.i64_rem(9, 1, 2); }),
        Err(Trap::IntDivOverflow)
    );
}

#[test]
fn shifts_take_their_count_modulo_the_width() {
    assert_eq!(compute(&[i(1), i(65)], ValueType::I64, |a| { a.i64_shl(9, 1, 2); }), Ok(i(2)));
    assert_eq!(compute(&[i(-8), i(-63)], ValueType::I64, |a| { a.i64_shr(9, 1, 2); }), Ok(i(-4)));
    assert_eq!(compute(&[u(1), u(64)], ValueType::U64, |a| { a.u64_shl(9, 1, 2); }), Ok(u(1)));
    assert_eq!(
        compute(&[u(1 << 63), u(63)], ValueType::U64, |a| { a.u64_shr(9, 1, 2); }),
        Ok(u(1))
    );
}

#[test]
fn bitwise_operations() {
    let t = ValueType::I64;
    assert_eq!(compute(&[i(12), i(10)], t, |a| { a.i64_and(9, 1, 2); }), Ok(i(8)));
    assert_eq!(compute(&[i(12), i(10)], t, |a| { a.i64_or(9, 1, 2); }), Ok(i(14)));
    assert_eq!(compute(&[i(12), i(10)], t, |a| { a.i64_xor(9, 1, 2); }), Ok(i(6)));
    let t = ValueType::U64;
    assert_eq!(compute(&[u(12), u(10)], t, |a| { a.u64_and(9, 1, 2); }), Ok(u(8)));
    assert_eq!(compute(&[u(12), u(10)], t, |a| { a.u64_or(9, 1, 2); }), Ok(u(14)));
    assert_eq!(compute(&[u(12), u(10)], t, |a| { a.u64_xor(9, 1, 2); }), Ok(u(6)));
}

#[test]
fn unsigned_arithmetic_wraps() {
    let t = ValueType::U64;
    assert_eq!(compute(&[u(u64::MAX), u(2)], t, |a| { a.u64_add(9, 1, 2); }), Ok(u(1)));
    assert_eq!(compute(&[u(1), u(2)], t, |a| { a.u64_sub(9, 1, 2); }), Ok(u(u64::MAX)));
    assert_eq!(compute(&[u(1 << 63), u(2)], t, |a| { a.u64_mul(9, 1, 2); }), Ok(u(0)));
    assert_eq!(compute(&[u(17), u(5)], t, |a| { a.u64_div(9, 1, 2); }), Ok(u(3)));
    assert_eq!(compute(&[u(17), u(5)], t, |a| { a.u64_rem(9, 1, 2); }), Ok(u(2)));
    assert_eq!(compute(&[u(17), u(0)], t, |a| { a.u64_div(9, 1, 2); }), Err(Trap::DivByZero));
    assert_eq!(compute(&[u(17), u(0)], t, |a| { a.u64_rem(9, 1, 2); }), Err(Trap::DivByZero));
}

#[test]
fn integer_comparisons() {
    let t = ValueType::Bool;
    for (x, y) in [(-1, 1), (1, 1), (2, 1)] {
        let v = [i(x), i(y)];
        assert_eq!(compute(&v, t, |a| { a.i64_eq(9, 1, 2); }), Ok(Value::Bool(x == y)));
        assert_eq!(compute(&v, t, |a| { a.i64_lt(9, 1, 2); }), Ok(Value::Bool(x < y)));
        assert_eq!(compute(&v, t, |a| { a.i64_gt(9, 1, 2); }), Ok(Value::Bool(x > y)));
        assert_eq!(compute(&v, t, |a| { a.i64_le(9, 1, 2); }), Ok(Value::Bool(x <= y)));
        assert_eq!(compute(&v, t, |a| { a.i64_ge(9, 1, 2); }), Ok(Value::Bool(x >= y)));
    }
    for (x, y) in [(0, u64::MAX), (1, 1), (2, 1)] {
        let v = [u(x), u(y)];
        assert_eq!(compute(&v, t, |a| { a.u64_eq(9, 1, 2); }), Ok(Value::Bool(x == y)));
        assert_eq!(compute(&v, t, |a| { a.u64_lt(9, 1, 2); }), Ok(Value::Bool(x < y)));
        assert_eq!(compute(&v, t, |a| { a.u64_gt(9, 1, 2); }), Ok(Value::Bool(x > y)));
        assert_eq!(compute(&v, t, |a| { a.u64_le(9, 1, 2); }), Ok(Value::Bool(x <= y)));
        assert_eq!(compute(&v, t, |a| { a.u64_ge(9, 1, 2); }), Ok(Value::Bool(x >= y)));
    }
}

#[test]
fn integer_conversions_trap_out_of_range() {
    assert_eq!(compute(&[i(5)], ValueType::U64, |a| { a.i64_to_u64(9, 1); }), Ok(u(5)));
    assert_eq!(
        compute(&[i(-1)], ValueType::U64, |a| { a.i64_to_u64(9, 1); }),
        Err(Trap::IntCastOverflow)
    );
    assert_eq!(compute(&[u(5)], ValueType::I64, |a| { a.u64_to_i64(9, 1); }), Ok(i(5)));
    assert_eq!(
        compute(&[u(1 << 63)], ValueType::I64, |a| { a.u64_to_i64(9, 1); }),
        Err(Trap::IntCastOverflow)
    );
}

#[test]
fn booleans() {
    let t = ValueType::Bool;
    for x in [false, true] {
        assert_eq!(compute(&[Value::Bool(x)], t, |a| { a.bool_not(9, 1); }), Ok(Value::Bool(!x)));
        for y in [false, true] {
            let v = [Value::Bool(x), Value::Bool(y)];
            assert_eq!(compute(&v, t, |a| { a.bool_and(9, 1, 2); }), Ok(Value::Bool(x & y)));
            assert_eq!(compute(&v, t, |a| { a.bool_or(9, 1, 2); }), Ok(Value::Bool(x | y)));
            assert_eq!(compute(&v, t, |a| { a.bool_xor(9, 1, 2); }), Ok(Value::Bool(x ^ y)));
        }
    }
}

#[test]
fn select_and_mov() {
    let v = [Value::Bool(false), i(1), i(2)];
    assert_eq!(compute(&v, ValueType::I64, |a| { a.select(9, 1, 2, 3); }), Ok(i(2)));
    let v = [Value::Bool(true), i(1), i(2)];
    assert_eq!(compute(&v, ValueType::I64, |a| { a.select(9, 1, 2, 3); }), Ok(i(1)));
    assert_eq!(compute(&[s("x")], ValueType::Str, |a| { a.mov(9, 1); }), Ok(s("x")));
}

#[test]
fn decimals() {
    let t = ValueType::Decimal;
    assert_eq!(compute(&[d(125, 2), d(75, 2)], t, |a| { a.dec_add(9, 1, 2); }), Ok(d(200, 2)));
    assert_eq!(compute(&[d(125, 2), d(75, 2)], t, |a| { a.dec_sub(9, 1, 2); }), Ok(d(50, 2)));
    assert_eq!(compute(&[d(125, 2), d(3, 1)], t, |a| { a.dec_mul(9, 1, 2); }), Ok(d(375, 3)));
    assert_eq!(
        compute(&[d(1, 2), d(1, 1)], t, |a| { a.dec_add(9, 1, 2); }),
        Err(Trap::DecimalScaleMismatch)
    );
    assert_eq!(
        compute(&[d(i64::MAX, 0), d(1, 0)], t, |a| { a.dec_add(9, 1, 2); }),
        Err(Trap::DecimalOverflow)
    );
    assert_eq!(
        compute(&[d(1, 200), d(1, 100)], t, |a| { a.dec_mul(9, 1, 2); }),
        Err(Trap::DecimalOverflow)
    );
    assert_eq!(compute(&[d(-4, 0)], ValueType::I64, |a| { a.dec_to_i64(9, 1); }), Ok(i(-4)));
    assert_eq!(
        compute(&[d(4, 1)], ValueType::I64, |a| { a.dec_to_i64(9, 1); }),
        Err(Trap::DecimalScaleMismatch)
    );
    assert_eq!(compute(&[d(4, 0)], ValueType::U64, |a| { a.dec_to_u64(9, 1); }), Ok(u(4)));
    assert_eq!(
        compute(&[d(-4, 0)], ValueType::U64, |a| { a.dec_to_u64(9, 1); }),
        Err(Trap::IntCastOverflow)
    );
    assert_eq!(compute(&[i(-3)], t, |a| { a.i64_to_dec(9, 1, 4); }), Ok(d(-30000, 4)));
    assert_eq!(compute(&[u(3)], t, |a| { a.u64_to_dec(9, 1, 18); }), Ok(d(3 * 10i64.pow(18), 18)));
    assert_eq!(
        compute(&[u(0)], t, |a| { a.u64_to_dec(9, 1, 19); }),
        Err(Trap::DecimalOverflow)
    );
    assert_eq!(
        compute(&[i(i64::MAX)], t, |a| { a.i64_to_dec(9, 1, 1); }),
        Err(Trap::DecimalOverflow)
    );
}

#[test]
fn float_arithmetic_is_what_the_unit_computes() {
    let t = ValueType::F64;
    let v = [f(7.5), f(2.0)];
    assert_eq!(compute(&v, t, |a| { a.f64_add(9, 1, 2); }), Ok(f(9.5)));
    assert_eq!(compute(&v, t, |a| { a.f64_sub(9, 1, 2); }), Ok(f(5.5)));
    assert_eq!(compute(&v, t, |a| { a.f64_mul(9, 1, 2); }), Ok(f(15.0)));
    assert_eq!(compute(&v, t, |a| { a.f64_div(9, 1, 2); }), Ok(f(3.75)));
    assert_eq!(compute(&v, t, |a| { a.f64_rem(9, 1, 2); }), Ok(f(1.5)));
    assert_eq!(compute(&[i(-3)], t, |a| { a.i64_to_f64(9, 1); }), Ok(f(-3.0)));
    assert_eq!(compute(&[u(u64::MAX)], t, |a| { a.u64_to_f64(9, 1); }), Ok(f(u64::MAX as f64)));
}

#[test]
fn float_signs_and_bits() {
    assert_eq!(compute(&[f(0.0)], ValueType::F64, |a| { a.f64_neg(9, 1); }), Ok(f(-0.0)));
    assert_eq!(compute(&[f(-2.5)], ValueType::F64, |a| { a.f64_abs(9, 1); }), Ok(f(2.5)));
    assert_eq!(
        compute(&[f(1.0)], ValueType::U64, |a| { a.f64_to_bits(9, 1); }),
        Ok(u(0x3ff0_0000_0000_0000))
    );
    assert_eq!(
        compute(&[u(0x4000_0000_0000_0000)], ValueType::F64, |a| { a.f64_from_bits(9, 1); }),
        Ok(f(2.0))
    );
}

#[test]
fn float_extremes() {
    let t = ValueType::F64;
    let nan = f(f64::NAN);
    for (x, y) in [(1.0, 2.0), (2.0, 1.0), (-1.0, 1.0), (3.0, 3.0)] {
        let v = [f(x), f(y)];
        assert_eq!(compute(&v, t, |a| { a.f64_min(9, 1, 2); }), Ok(f(x.min(y))));
        assert_eq!(compute(&v, t, |a| { a.f64_max(9, 1, 2); }), Ok(f(x.max(y))));
    }
    let zeros = [f(0.0), f(-0.0)];
    assert_eq!(compute(&zeros, t, |a| { a.f64_min(9, 1, 2); }), Ok(f(-0.0)));
    assert_eq!(compute(&zeros, t, |a| { a.f64_max(9, 1, 2); }), Ok(f(0.0)));
    let one_nan = [nan.clone(), f(1.0)];
    assert_eq!(compute(&one_nan, t, |a| { a.f64_min(9, 1, 2); }), Ok(nan.clone()));
    assert_eq!(compute(&one_nan, t, |a| { a.f64_max(9, 1, 2); }), Ok(nan.clone()));
    assert_eq!(compute(&one_nan, t, |a| { a.f64_min_num(9, 1, 2); }), Ok(f(1.0)));
    assert_eq!(compute(&one_nan, t, |a| { a.f64_max_num(9, 1, 2); }), Ok(f(1.0)));
    let two_nans = [nan.clone(), nan.clone()];
    assert_eq!(compute(&two_nans, t, |a| { a.f64_min_num(9, 1, 2); }), Ok(nan.clone()));
    assert_eq!(compute(&two_nans, t, |a| { a.f64_max_num(9, 1, 2); }), Ok(nan));
}

#[test]
fn float_comparisons() {
    let t = ValueType::Bool;
    let all = [0.0, -0.0, 1.5, -1.5, f64::INFINITY, f64::NEG_INFINITY, f64::NAN, 5e-324];
    for x in all {
        for y in all {
            let v = [f(x), f(y)];
            assert_eq!(compute(&v, t, |a| { a.f64_eq(9, 1, 2); }), Ok(Value::Bool(x == y)));
            assert_eq!(compute(&v, t, |a| { a.f64_lt(9, 1, 2); }), Ok(Value::Bool(x < y)));
            assert_eq!(compute(&v, t, |a| { a.f64_gt(9, 1, 2); }), Ok(Value::Bool(x > y)));
            assert_eq!(compute(&v, t, |a| { a.f64_le(9, 1, 2); }), Ok(Value::Bool(x <= y)));
            assert_eq!(compute(&v, t, |a| { a.f64_ge(9, 1, 2); }), Ok(Value::Bool(x >= y)));
        }
    }
}

#[test]
fn floats_to_integers() {
    for x in [0.0, -0.9, 0.9, 1.0, -1.5, 1e15 + 0.5, -4.6e18, 9.2e18, 9223372036854774784.0, -9223372036854775808.0] {
        assert_eq!(
            compute(&[f(x)], ValueType::I64, |a| { a.f64_to_i64(9, 1); }),
            Ok(i(x as i64))
        );
    }
    for x in [0.0, -0.0, 0.9, 255.99, 1.8e19, 18446744073709549568.0] {
        assert_eq!(
            compute(&[f(x)], ValueType::U64, |a| { a.f64_to_u64(9, 1); }),
            Ok(u(x as u64))
        );
    }
    for x in [f64::NAN, f64::INFINITY, f64::NEG_INFINITY] {
        assert_eq!(
            compute(&[f(x)], ValueType::I64, |a| { a.f64_to_i64(9, 1); }),
            Err(Trap::FloatToIntInvalid)
        );
        assert_eq!(
            compute(&[f(x)], ValueType::U64, |a| { a.f64_to_u64(9, 1); }),
            Err(Trap::FloatToIntInvalid)
        );
    }
    for x in [1e19, 9223372036854775808.0, -9223372036854777856.0] {
        assert_eq!(
            compute(&[f(x)], ValueType::I64, |a| { a.f64_to_i64(9, 1); }),
            Err(Trap::IntCastOverflow)
        );
    }
    assert_eq!(
        compute(&[f(18446744073709551616.0)], ValueType::U64, |a| { a.f64_to_u64(9, 1); }),
        Err(Trap::IntCastOverflow)
    );
    assert_eq!(
        compute(&[f(-0.5)], ValueType::U64, |a| { a.f64_to_u64(9, 1); }),
        Err(Trap::IntCastOverflow)
    );
    assert_eq!(
        compute(&[f(2e19)], ValueType::U64, |a| { a.f64_to_u64(9, 1); }),
        Err(Trap::IntCastOverflow)
    );
}

#[test]
fn byte_strings() {
    let x = by(&[1, 2, 255]);
    let y = by(&[4]);
    assert_eq!(compute(&[x.clone()], ValueType::U64, |a| { a.bytes_len(9, 1); }), Ok(u(3)));
    assert_eq!(
        compute(&[x.clone(), y.clone()], ValueType::Bytes, |a| { a.bytes_concat(9, 1, 2); }),
        Ok(by(&[1, 2, 255, 4]))
    );
    assert_eq!(
        compute(&[x.clone(), y.clone()], ValueType::Bool, |a| { a.bytes_eq(9, 1, 2); }),
        Ok(Value::Bool(false))
    );
    assert_eq!(
        compute(&[x.clone(), u(2)], ValueType::U64, |a| { a.bytes_get(9, 1, 2); }),
        Ok(u(255))
    );
    assert_eq!(
        compute(&[x.clone(), u(3)], ValueType::U64, |a| { a.bytes_get(9, 1, 2); }),
        Err(Trap::IndexOutOfBounds)
    );
    assert_eq!(
        compute(&[x.clone()], ValueType::U64, |a| { a.bytes_get_imm(9, 1, 1); }),
        Ok(u(2))
    );
    assert_eq!(
        compute(&[x.clone()], ValueType::U64, |a| { a.bytes_get_imm(9, 1, 7); }),
        Err(Trap::IndexOutOfBounds)
    );
    assert_eq!(
        compute(&[x.clone(), u(1), u(3)], ValueType::Bytes, |a| { a.bytes_slice(9, 1, 2, 3); }),
        Ok(by(&[2, 255]))
    );
    assert_eq!(
        compute(&[x, u(2), u(1)], ValueType::Bytes, |a| { a.bytes_slice(9, 1, 2, 3); }),
        Err(Trap::IndexOutOfBounds)
    );
}

#[test]
fn strings() {
    let x = s("aé");
    assert_eq!(compute(&[x.clone()], ValueType::U64, |a| { a.str_len(9, 1); }), Ok(u(3)));
    assert_eq!(
        compute(&[x.clone(), s("z")], ValueType::Str, |a| { a.str_concat(9, 1, 2); }),
        Ok(s("aéz"))
    );
    assert_eq!(
        compute(&[x.clone(), s("aé")], ValueType::Bool, |a| { a.str_eq(9, 1, 2); }),
        Ok(Value::Bool(true))
    );
    assert_eq!(
        compute(&[x.clone(), u(1), u(3)], ValueType::Str, |a| { a.str_slice(9, 1, 2, 3); }),
        Ok(s("é"))
    );
    assert_eq!(
        compute(&[x.clone(), u(0), u(2)], ValueType::Str, |a| { a.str_slice(9, 1, 2, 3); }),
        Err(Trap::StrNotCharBoundary)
    );
    assert_eq!(
        compute(&[x.clone(), u(0), u(4)], ValueType::Str, |a| { a.str_slice(9, 1, 2, 3); }),
        Err(Trap::IndexOutOfBounds)
    );
    assert_eq!(
        compute(&[x], ValueType::Bytes, |a| { a.str_to_bytes(9, 1); }),
        Ok(by("aé".as_bytes()))
    );
    assert_eq!(
        compute(&[by(&[0x68, 0xc3, 0xa9])], ValueType::Str, |a| { a.bytes_to_str(9, 1); }),
        Ok(s("hé"))
    );
    assert_eq!(
        compute(&[by(&[0xff])], ValueType::Str, |a| { a.bytes_to_str(9, 1); }),
        Err(Trap::InvalidUtf8)
    );
}

#[test]
fn constants() {
    assert_eq!(compute(&[], ValueType::Unit, |a| { a.const_unit(9); }), Ok(Value::Unit));
    assert_eq!(compute(&[], ValueType::Bool, |a| { a.const_bool(9, true); }), Ok(Value::Bool(true)));
    assert_eq!(compute(&[], ValueType::I64, |a| { a.const_i64(9, i64::MIN); }), Ok(i(i64::MIN)));
    assert_eq!(compute(&[], ValueType::U64, |a| { a.const_u64(9, u64::MAX); }), Ok(u(u64::MAX)));
    assert_eq!(
        compute(&[], ValueType::F64, |a| { a.const_f64_bits(9, 0.1f64.to_bits()); }),
        Ok(f(0.1))
    );
    assert_eq!(
        compute(&[], ValueType::Decimal, |a| { a.const_decimal(9, -7, 3); }),
        Ok(d(-7, 3))
    );
    assert_eq!(
        compute(&[], ValueType::Decimal, |a| {
            a.const_decimal_value(9, Decimal { mantissa: 8, scale: 1 });
        }),
        Ok(d(8, 1))
    );
    let pool = [
        (Const::Unit, Value::Unit),
        (Const::Bool(true), Value::Bool(true)),
        (Const::I64(-9), i(-9)),
        (Const::U64(9), u(9)),
        (Const::F64(2.5f64.to_bits()), f(2.5)),
        (Const::Decimal { mantissa: 12, scale: 1 }, d(12, 1)),
        (Const::Bytes(vec![1, 2]), by(&[1, 2])),
        (Const::Str("héllo".to_string()), s("héllo")),
    ];
    for (c, v) in pool {
        let mut pb = ProgramBuilder::new();
        pb.constant(Const::Str("other".to_string()));
        let id = pb.constant(c);
        let ty = v.value_type();
        assert_eq!(compute_with(&mut pb, &[], ty, |a| { a.const_pool(9, id); }), Ok(v));
    }
}

#[test]
fn tuples() {
    let v = [i(1), s("two")];
    assert_eq!(
        compute(&v, ValueType::Str, |a| {
            a.tuple_new(3, &[1, 2]);
            a.tuple_get(9, 3, 1);
        }),
        Ok(s("two"))
    );
    assert_eq!(
        compute(&v, ValueType::U64, |a| {
            a.tuple_new(3, &[1, 2]);
            a.tuple_len(9, 3);
        }),
        Ok(u(2))
    );
}

#[test]
fn structs() {
    let mut pb = ProgramBuilder::new();
    let t = pb.struct_type(StructTypeDef {
        field_names: vec!["x".to_string(), "y".to_string()],
        field_types: vec![ValueType::I64, ValueType::Bool],
    });
    let v = [i(5), Value::Bool(true)];
    assert_eq!(
        compute_with(&mut pb, &v, ValueType::Bool, |a| {
            a.struct_new(3, t, &[1, 2]);
            a.struct_get(9, 3, 1);
        }),
        Ok(Value::Bool(true))
    );
    let mut pb = ProgramBuilder::new();
    let t = pb.struct_type(StructTypeDef {
        field_names: vec!["x".to_string(), "y".to_string()],
        field_types: vec![ValueType::I64, ValueType::Bool],
    });
    assert_eq!(
        compute_with(&mut pb, &v, ValueType::U64, |a| {
            a.struct_new(3, t, &[1, 2]);
            a.struct_field_count(9, 3);
        }),
        Ok(u(2))
    );
}

#[test]
fn arrays() {
    let v = [i(5), i(6), u(1), u(2)];
    for (index, expected) in [(3, Ok(i(6))), (4, Err(()))] {
        let mut pb = ProgramBuilder::new();
        let t = pb.array_elem(ValueType::I64);
        let got = compute_with(&mut pb, &v, ValueType::I64, |a| {
            a.array_new(5, t, &[1, 2]);
            a.array_get(9, 5, index);
        });
        match expected {
            Ok(x) => assert_eq!(got, Ok(x)),
            Err(()) => assert!(matches!(got, Err(Trap::AggError(_)))),
        }
    }
    let mut pb = ProgramBuilder::new();
    let t = pb.array_elem(ValueType::I64);
    assert_eq!(
        compute_with(&mut pb, &v, ValueType::I64, |a| {
            a.array_new(5, t, &[1, 2]);
            a.array_get_imm(9, 5, 0);
        }),
        Ok(i(5))
    );
    let mut pb = ProgramBuilder::new();
    let t = pb.array_elem(ValueType::I64);
    assert_eq!(
        compute_with(&mut pb, &v, ValueType::U64, |a| {
            a.array_new(5, t, &[1, 2, 1]);
            a.array_len(9, 5);
        }),
        Ok(u(3))
    );
}

#[test]
fn trap_codes() {
    let got = compute(&[], ValueType::I64, |a| {
        let over = a.label();
        let on = a.label();
        a.const_bool(1, true);
        a.br(1, over, on);
        a.place(over).unwrap();
        a.trap(42);
        a.place(on).unwrap();
        a.const_i64(9, 0);
    });
    assert_eq!(got, Err(Trap::TrapCode(42)));
}

#[test]
fn loops_count() {
    // Counts down from 10 and sums up what it passes.
    let got = compute(&[i(10)], ValueType::I64, |a| {
        let head = a.label();
        let body = a.label();
        let end = a.label();
        a.const_i64(2, 0);
        a.const_i64(9, 0);
        a.const_i64(3, 1);
        a.place(head).unwrap();
        a.i64_gt(4, 1, 2);
        a.br(4, body, end);
        a.place(body).unwrap();
        a.i64_add(9, 9, 1);
        a.i64_sub(1, 1, 3);
        a.jmp(head);
        a.place(end).unwrap();
        a.nop();
    });
    assert_eq!(got, Ok(i(55)));
}
