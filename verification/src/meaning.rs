//! What each instruction means, said of a step of the machine.
//!
//! The laws here speak of the instruction that the running frame stands at, of the values of its
//! registers before the step and of the whole state after it.

use vstd::prelude::*;
use vstd::arithmetic::power2::{lemma2_to64, lemma_pow2_pos, lemma_pow2_unfold, pow2};

use crate::bytecode::OperandModel;
use crate::machine;
use crate::machine::{FrameModel, Limits, Next, Reply, State};
use crate::opcode::Opcode;
use crate::trap::{Trap, TrapInfo};
use crate::value::{Decimal, ValueModel};
use crate::verify::VerifiedView;

verus! {

// ---------------------------------------------------------------------------------------------
// Before and after a step.
// ---------------------------------------------------------------------------------------------

/// The running frame stands at the given instruction, and there is fuel for it.
pub open spec fn stands_at(
    vp: VerifiedView,
    st: State,
    op: Opcode,
    operands: Seq<OperandModel>,
) -> bool {
    let top = st.frames.last();
    &&& st.fuel > 0
    &&& top.func.0 < vp.functions.len()
    &&& 0 <= top.ix < vp.functions[top.func.0 as int].xs.len()
    &&& vp.functions[top.func.0 as int].xs[top.ix].op == op
    &&& vp.functions[top.func.0 as int].xs[top.ix].operands == operands
}

/// The running frame stands at an instruction that makes a value of another.
pub open spec fn at_one(vp: VerifiedView, st: State, op: Opcode, dst: u32, a: u32) -> bool {
    stands_at(vp, st, op, seq![OperandModel::Word(dst), OperandModel::Word(a)])
}

/// The running frame stands at an instruction that makes a value of two others.
pub open spec fn at_two(vp: VerifiedView, st: State, op: Opcode, dst: u32, a: u32, b: u32) -> bool {
    stands_at(
        vp,
        st,
        op,
        seq![OperandModel::Word(dst), OperandModel::Word(a), OperandModel::Word(b)],
    )
}

/// The running frame stands at an instruction that makes a value of three others.
pub open spec fn at_three(
    vp: VerifiedView,
    st: State,
    op: Opcode,
    dst: u32,
    a: u32,
    b: u32,
    c: u32,
) -> bool {
    stands_at(
        vp,
        st,
        op,
        seq![
            OperandModel::Word(dst),
            OperandModel::Word(a),
            OperandModel::Word(b),
            OperandModel::Word(c),
        ],
    )
}

/// A register of the running frame holds a value.
pub open spec fn holds(st: State, r: u32, v: ValueModel) -> bool {
    r < st.frames.last().regs.len() && st.frames.last().regs[r as int] == v
}

/// The running frame has a register.
pub open spec fn exists_reg(st: State, r: u32) -> bool {
    r < st.frames.last().regs.len()
}

/// The state after a value went to a register: the running frame goes on at its next instruction,
/// one unit of fuel is used up, and nothing else changes.
pub open spec fn wrote(st: State, dst: u32, v: ValueModel) -> Next {
    let top = st.frames.last();
    Next::Running(
        State {
            frames: st.frames.drop_last().push(
                FrameModel {
                    func: top.func,
                    ix: top.ix + 1,
                    regs: top.regs.update(dst as int, v),
                },
            ),
            heap: st.heap,
            fuel: (st.fuel - 1) as u64,
            host_calls: st.host_calls,
        },
    )
}

/// The end of the run by a trap of the instruction that the running frame stands at.
pub open spec fn trapped(vp: VerifiedView, st: State, trap: Trap) -> Next {
    let top = st.frames.last();
    let v = vp.functions[top.func.0 as int];
    Next::Done(
        Err(
            TrapInfo {
                func: top.func,
                pc: v.xs[top.ix].offset as u32,
                span_id: v.spans[top.ix],
                trap,
            },
        ),
        st.heap,
    )
}

/// The signed integer of 64 bits that an integer is modulo `2^64`.
pub open spec fn signed_64(n: int) -> i64 {
    ((n + 0x8000_0000_0000_0000) % 0x1_0000_0000_0000_0000 - 0x8000_0000_0000_0000) as i64
}

/// The unsigned integer of 64 bits that an integer is modulo `2^64`.
pub open spec fn unsigned_64(n: int) -> u64 {
    (n % 0x1_0000_0000_0000_0000) as u64
}

// ---------------------------------------------------------------------------------------------
// Integers.
// ---------------------------------------------------------------------------------------------

/// Sums, differences and products of signed integers are taken modulo `2^64`.
pub proof fn law_i64_arithmetic(
    vp: VerifiedView,
    lim: Limits,
    st: State,
    reply: Reply,
    dst: u32,
    a: u32,
    b: u32,
    x: i64,
    y: i64,
)
    requires
        holds(st, a, ValueModel::I64(x)),
        holds(st, b, ValueModel::I64(y)),
        exists_reg(st, dst),
    ensures
        at_two(vp, st, Opcode::I64Add, dst, a, b)
            ==> machine::step(vp, lim, st, reply) == wrote(st, dst,
            ValueModel::I64(signed_64(x + y))),
        at_two(vp, st, Opcode::I64Sub, dst, a, b)
            ==> machine::step(vp, lim, st, reply) == wrote(st, dst,
            ValueModel::I64(signed_64(x - y))),
        at_two(vp, st, Opcode::I64Mul, dst, a, b)
            ==> machine::step(vp, lim, st, reply) == wrote(st, dst,
            ValueModel::I64(signed_64(x * y))),
{
    assert(x.wrapping_add(y) == signed_64(x + y));
    assert(x.wrapping_sub(y) == signed_64(x - y));
    assert(x.wrapping_mul(y) == signed_64(x * y));
}

/// Sums, differences and products of unsigned integers are taken modulo `2^64`.
pub proof fn law_u64_arithmetic(
    vp: VerifiedView,
    lim: Limits,
    st: State,
    reply: Reply,
    dst: u32,
    a: u32,
    b: u32,
    x: u64,
    y: u64,
)
    requires
        holds(st, a, ValueModel::U64(x)),
        holds(st, b, ValueModel::U64(y)),
        exists_reg(st, dst),
    ensures
        at_two(vp, st, Opcode::U64Add, dst, a, b)
            ==> machine::step(vp, lim, st, reply) == wrote(st, dst,
            ValueModel::U64(unsigned_64(x + y))),
        at_two(vp, st, Opcode::U64Sub, dst, a, b)
            ==> machine::step(vp, lim, st, reply) == wrote(st, dst,
            ValueModel::U64(unsigned_64(x - y))),
        at_two(vp, st, Opcode::U64Mul, dst, a, b)
            ==> machine::step(vp, lim, st, reply) == wrote(st, dst,
            ValueModel::U64(unsigned_64(x * y))),
{
    assert(x.wrapping_add(y) == unsigned_64(x + y));
    assert(x.wrapping_sub(y) == unsigned_64(x - y));
    assert(0 <= x * y) by (nonlinear_arith)
        requires
            0 <= x,
            0 <= y,
    ;
    assert(x.wrapping_mul(y) == unsigned_64(x * y));
}

/// Signed integers are compared by their values.
pub proof fn law_i64_comparison(
    vp: VerifiedView,
    lim: Limits,
    st: State,
    reply: Reply,
    dst: u32,
    a: u32,
    b: u32,
    x: i64,
    y: i64,
)
    requires
        holds(st, a, ValueModel::I64(x)),
        holds(st, b, ValueModel::I64(y)),
        exists_reg(st, dst),
    ensures
        at_two(vp, st, Opcode::I64Eq, dst, a, b)
            ==> machine::step(vp, lim, st, reply) == wrote(st, dst, ValueModel::Bool(x == y)),
        at_two(vp, st, Opcode::I64Lt, dst, a, b)
            ==> machine::step(vp, lim, st, reply) == wrote(st, dst, ValueModel::Bool(x < y)),
        at_two(vp, st, Opcode::I64Gt, dst, a, b)
            ==> machine::step(vp, lim, st, reply) == wrote(st, dst, ValueModel::Bool(x > y)),
        at_two(vp, st, Opcode::I64Le, dst, a, b)
            ==> machine::step(vp, lim, st, reply) == wrote(st, dst, ValueModel::Bool(x <= y)),
        at_two(vp, st, Opcode::I64Ge, dst, a, b)
            ==> machine::step(vp, lim, st, reply) == wrote(st, dst, ValueModel::Bool(x >= y)),
{
}

/// Unsigned integers are compared by their values.
pub proof fn law_u64_comparison(
    vp: VerifiedView,
    lim: Limits,
    st: State,
    reply: Reply,
    dst: u32,
    a: u32,
    b: u32,
    x: u64,
    y: u64,
)
    requires
        holds(st, a, ValueModel::U64(x)),
        holds(st, b, ValueModel::U64(y)),
        exists_reg(st, dst),
    ensures
        at_two(vp, st, Opcode::U64Eq, dst, a, b)
            ==> machine::step(vp, lim, st, reply) == wrote(st, dst, ValueModel::Bool(x == y)),
        at_two(vp, st, Opcode::U64Lt, dst, a, b)
            ==> machine::step(vp, lim, st, reply) == wrote(st, dst, ValueModel::Bool(x < y)),
        at_two(vp, st, Opcode::U64Gt, dst, a, b)
            ==> machine::step(vp, lim, st, reply) == wrote(st, dst, ValueModel::Bool(x > y)),
        at_two(vp, st, Opcode::U64Le, dst, a, b)
            ==> machine::step(vp, lim, st, reply) == wrote(st, dst, ValueModel::Bool(x <= y)),
        at_two(vp, st, Opcode::U64Ge, dst, a, b)
            ==> machine::step(vp, lim, st, reply) == wrote(st, dst, ValueModel::Bool(x >= y)),
{
}

/// Signed division gives the quotient and the remainder of the division with remainder: the
/// remainder is nearer to zero than the divisor is, and has the sign of the dividend.
pub proof fn law_i64_division(
    vp: VerifiedView,
    lim: Limits,
    st: State,
    reply: Reply,
    dst: u32,
    a: u32,
    b: u32,
    x: i64,
    y: i64,
    q: int,
    r: int,
)
    requires
        holds(st, a, ValueModel::I64(x)),
        holds(st, b, ValueModel::I64(y)),
        exists_reg(st, dst),
        y != 0,
        !(x == i64::MIN && y == -1),
        x == q * y + r,
        -y < r < y || y < r < -y,
        r != 0 ==> (r < 0) == (x < 0),
    ensures
        at_two(vp, st, Opcode::I64Div, dst, a, b)
            ==> machine::step(vp, lim, st, reply) == wrote(st, dst, ValueModel::I64(q as i64)),
        at_two(vp, st, Opcode::I64Rem, dst, a, b)
            ==> machine::step(vp, lim, st, reply) == wrote(st, dst, ValueModel::I64(r as i64)),
        i64::MIN <= q <= i64::MAX,
        i64::MIN <= r <= i64::MAX,
{
    lemma_quotient(x as int, y as int, q, r);
}

/// Division of a signed integer by zero traps, and so does that of the least one by minus one.
pub proof fn law_i64_division_traps(
    vp: VerifiedView,
    lim: Limits,
    st: State,
    reply: Reply,
    dst: u32,
    a: u32,
    b: u32,
    x: i64,
    y: i64,
)
    requires
        holds(st, a, ValueModel::I64(x)),
        holds(st, b, ValueModel::I64(y)),
        exists_reg(st, dst),
    ensures
        y == 0 ==> (at_two(vp, st, Opcode::I64Div, dst, a, b)
            ==> machine::step(vp, lim, st, reply) == trapped(vp, st, Trap::DivByZero)),
        y == 0 ==> (at_two(vp, st, Opcode::I64Rem, dst, a, b)
            ==> machine::step(vp, lim, st, reply) == trapped(vp, st, Trap::DivByZero)),
        x == i64::MIN && y == -1 ==> (at_two(vp, st, Opcode::I64Div, dst, a, b)
            ==> machine::step(vp, lim, st, reply) == trapped(vp, st, Trap::IntDivOverflow)),
        x == i64::MIN && y == -1 ==> (at_two(vp, st, Opcode::I64Rem, dst, a, b)
            ==> machine::step(vp, lim, st, reply) == trapped(vp, st, Trap::IntDivOverflow)),
{
}

/// Unsigned division gives the quotient and the remainder of the division with remainder, and
/// traps where the divisor is zero.
pub proof fn law_u64_division(
    vp: VerifiedView,
    lim: Limits,
    st: State,
    reply: Reply,
    dst: u32,
    a: u32,
    b: u32,
    x: u64,
    y: u64,
    q: int,
    r: int,
)
    requires
        holds(st, a, ValueModel::U64(x)),
        holds(st, b, ValueModel::U64(y)),
        exists_reg(st, dst),
        y != 0 ==> x == q * y + r && 0 <= r < y,
    ensures
        y != 0 ==> 0 <= q <= u64::MAX && 0 <= r <= u64::MAX,
        y != 0 ==> (at_two(vp, st, Opcode::U64Div, dst, a, b)
            ==> machine::step(vp, lim, st, reply) == wrote(st, dst, ValueModel::U64(q as u64))),
        y != 0 ==> (at_two(vp, st, Opcode::U64Rem, dst, a, b)
            ==> machine::step(vp, lim, st, reply) == wrote(st, dst, ValueModel::U64(r as u64))),
        y == 0 ==> (at_two(vp, st, Opcode::U64Div, dst, a, b)
            ==> machine::step(vp, lim, st, reply) == trapped(vp, st, Trap::DivByZero)),
        y == 0 ==> (at_two(vp, st, Opcode::U64Rem, dst, a, b)
            ==> machine::step(vp, lim, st, reply) == trapped(vp, st, Trap::DivByZero)),
{
    if y != 0 {
        vstd::arithmetic::div_mod::lemma_fundamental_div_mod_converse(x as int, y as int, q, r);
        assert(0 <= q <= x) by (nonlinear_arith)
            requires
                x == q * y + r,
                0 <= r < y,
                x >= 0,
        ;
    }
}

/// Signed integers are conjoined and disjoined bit by bit.
pub proof fn law_i64_bits(
    vp: VerifiedView,
    lim: Limits,
    st: State,
    reply: Reply,
    dst: u32,
    a: u32,
    b: u32,
    x: i64,
    y: i64,
)
    requires
        holds(st, a, ValueModel::I64(x)),
        holds(st, b, ValueModel::I64(y)),
        exists_reg(st, dst),
    ensures
        at_two(vp, st, Opcode::I64And, dst, a, b)
            ==> machine::step(vp, lim, st, reply) == wrote(st, dst, ValueModel::I64(x & y)),
        at_two(vp, st, Opcode::I64Or, dst, a, b)
            ==> machine::step(vp, lim, st, reply) == wrote(st, dst, ValueModel::I64(x | y)),
        at_two(vp, st, Opcode::I64Xor, dst, a, b)
            ==> machine::step(vp, lim, st, reply) == wrote(st, dst, ValueModel::I64(x ^ y)),
{
}

/// Unsigned integers are conjoined and disjoined bit by bit.
pub proof fn law_u64_bits(
    vp: VerifiedView,
    lim: Limits,
    st: State,
    reply: Reply,
    dst: u32,
    a: u32,
    b: u32,
    x: u64,
    y: u64,
)
    requires
        holds(st, a, ValueModel::U64(x)),
        holds(st, b, ValueModel::U64(y)),
        exists_reg(st, dst),
    ensures
        at_two(vp, st, Opcode::U64And, dst, a, b)
            ==> machine::step(vp, lim, st, reply) == wrote(st, dst, ValueModel::U64(x & y)),
        at_two(vp, st, Opcode::U64Or, dst, a, b)
            ==> machine::step(vp, lim, st, reply) == wrote(st, dst, ValueModel::U64(x | y)),
        at_two(vp, st, Opcode::U64Xor, dst, a, b)
            ==> machine::step(vp, lim, st, reply) == wrote(st, dst, ValueModel::U64(x ^ y)),
{
}

/// A signed integer is shifted by a number of bits that is taken modulo 64. A shift to the left by
/// `k` multiplies by `2^k` modulo `2^64`, and one to the right divides and rounds down.
pub proof fn law_i64_shift(
    vp: VerifiedView,
    lim: Limits,
    st: State,
    reply: Reply,
    dst: u32,
    a: u32,
    b: u32,
    x: i64,
    y: i64,
    k: nat,
)
    requires
        holds(st, a, ValueModel::I64(x)),
        holds(st, b, ValueModel::I64(y)),
        exists_reg(st, dst),
        k < 64,
        (y - k) % 64 == 0,
    ensures
        at_two(vp, st, Opcode::I64Shl, dst, a, b)
            ==> machine::step(vp, lim, st, reply) == wrote(st, dst,
            ValueModel::I64(signed_64(x * pow2(k)))),
        at_two(vp, st, Opcode::I64Shr, dst, a, b)
            ==> machine::step(vp, lim, st, reply) == wrote(st, dst,
            ValueModel::I64((x as int / pow2(k) as int) as i64)),
{
    lemma_shift_i64(x, k);
    assert(y % 64 == k);
}

/// An unsigned integer is shifted by a number of bits that is taken modulo 64. A shift to the left
/// by `k` multiplies by `2^k` modulo `2^64`, and one to the right divides and rounds down.
pub proof fn law_u64_shift(
    vp: VerifiedView,
    lim: Limits,
    st: State,
    reply: Reply,
    dst: u32,
    a: u32,
    b: u32,
    x: u64,
    y: u64,
    k: nat,
)
    requires
        holds(st, a, ValueModel::U64(x)),
        holds(st, b, ValueModel::U64(y)),
        exists_reg(st, dst),
        k < 64,
        (y - k) % 64 == 0,
    ensures
        at_two(vp, st, Opcode::U64Shl, dst, a, b)
            ==> machine::step(vp, lim, st, reply) == wrote(st, dst,
            ValueModel::U64(unsigned_64(x * pow2(k)))),
        at_two(vp, st, Opcode::U64Shr, dst, a, b)
            ==> machine::step(vp, lim, st, reply) == wrote(st, dst,
            ValueModel::U64((x as int / pow2(k) as int) as u64)),
{
    lemma_shift_u64(x, k);
    assert(y % 64 == k);
}

/// An integer keeps its value when it is converted, and traps where the other type does not have
/// it.
pub proof fn law_integer_conversion(
    vp: VerifiedView,
    lim: Limits,
    st: State,
    reply: Reply,
    dst: u32,
    a: u32,
    n: int,
)
    requires
        exists_reg(st, dst),
    ensures
        i64::MIN <= n <= i64::MAX && holds(st, a, ValueModel::I64(n as i64))
            ==> (at_one(vp, st, Opcode::I64ToU64, dst, a)
            ==> machine::step(vp, lim, st, reply)
            == if n >= 0 { wrote(st, dst, ValueModel::U64(n as u64)) } else { trapped(vp, st,
            Trap::IntCastOverflow) }),
        0 <= n <= u64::MAX && holds(st, a, ValueModel::U64(n as u64))
            ==> (at_one(vp, st, Opcode::U64ToI64, dst, a)
            ==> machine::step(vp, lim, st, reply)
            == if n <= i64::MAX { wrote(st, dst, ValueModel::I64(n as i64)) } else { trapped(vp,
            st, Trap::IntCastOverflow) }),
{
}

/// A value is copied.
pub proof fn law_mov(
    vp: VerifiedView,
    lim: Limits,
    st: State,
    reply: Reply,
    dst: u32,
    a: u32,
    x: ValueModel,
)
    requires
        holds(st, a, x),
        exists_reg(st, dst),
    ensures
        at_one(vp, st, Opcode::Mov, dst, a)
            ==> machine::step(vp, lim, st, reply) == wrote(st, dst, x),
{
}

/// Conditions are negated, conjoined and disjoined.
pub proof fn law_bool(
    vp: VerifiedView,
    lim: Limits,
    st: State,
    reply: Reply,
    dst: u32,
    a: u32,
    b: u32,
    x: bool,
    y: bool,
)
    requires
        holds(st, a, ValueModel::Bool(x)),
        holds(st, b, ValueModel::Bool(y)),
        exists_reg(st, dst),
    ensures
        at_one(vp, st, Opcode::BoolNot, dst, a)
            ==> machine::step(vp, lim, st, reply) == wrote(st, dst, ValueModel::Bool(!x)),
        at_two(vp, st, Opcode::BoolAnd, dst, a, b)
            ==> machine::step(vp, lim, st, reply) == wrote(st, dst, ValueModel::Bool(x && y)),
        at_two(vp, st, Opcode::BoolOr, dst, a, b)
            ==> machine::step(vp, lim, st, reply) == wrote(st, dst, ValueModel::Bool(x || y)),
        at_two(vp, st, Opcode::BoolXor, dst, a, b)
            ==> machine::step(vp, lim, st, reply) == wrote(st, dst, ValueModel::Bool(x != y)),
{
}

/// The first value is selected where the condition holds, and the second where it does not.
pub proof fn law_select(
    vp: VerifiedView,
    lim: Limits,
    st: State,
    reply: Reply,
    dst: u32,
    c: u32,
    a: u32,
    b: u32,
    cond: bool,
    x: ValueModel,
    y: ValueModel,
)
    requires
        holds(st, c, ValueModel::Bool(cond)),
        holds(st, a, x),
        holds(st, b, y),
        exists_reg(st, dst),
    ensures
        at_three(vp, st, Opcode::Select, dst, c, a, b)
            ==> machine::step(vp, lim, st, reply) == wrote(st, dst, if cond { x } else { y }),
{
}

// ---------------------------------------------------------------------------------------------
// Decimals.
// ---------------------------------------------------------------------------------------------

/// The decimal with a mantissa and a scale, or a trap where the mantissa does not fit.
pub open spec fn decimal_or_trap(vp: VerifiedView, st: State, dst: u32, mantissa: int,
    scale: int) -> Next {
    if i64::MIN <= mantissa <= i64::MAX && scale <= u8::MAX {
        wrote(
            st,
            dst,
            ValueModel::Decimal(Decimal { mantissa: mantissa as i64, scale: scale as u8 }),
        )
    } else {
        trapped(vp, st, Trap::DecimalOverflow)
    }
}

/// Decimals of one scale are added and subtracted by their mantissas. Of two scales they are not.
/// In a product the mantissas are multiplied and the scales added. A result that does not fit traps.
pub proof fn law_decimal_arithmetic(
    vp: VerifiedView,
    lim: Limits,
    st: State,
    reply: Reply,
    dst: u32,
    a: u32,
    b: u32,
    x: Decimal,
    y: Decimal,
)
    requires
        holds(st, a, ValueModel::Decimal(x)),
        holds(st, b, ValueModel::Decimal(y)),
        exists_reg(st, dst),
    ensures
        at_two(vp, st, Opcode::DecAdd, dst, a, b)
            ==> machine::step(vp, lim, st, reply)
            == if x.scale == y.scale { decimal_or_trap(vp, st, dst, x.mantissa + y.mantissa,
            x.scale as int) } else { trapped(vp, st, Trap::DecimalScaleMismatch) },
        at_two(vp, st, Opcode::DecSub, dst, a, b)
            ==> machine::step(vp, lim, st, reply)
            == if x.scale == y.scale { decimal_or_trap(vp, st, dst, x.mantissa - y.mantissa,
            x.scale as int) } else { trapped(vp, st, Trap::DecimalScaleMismatch) },
        at_two(vp, st, Opcode::DecMul, dst, a, b)
            ==> machine::step(vp, lim, st, reply) == decimal_or_trap(vp, st, dst,
            x.mantissa * y.mantissa, x.scale + y.scale),
{
}

/// A decimal without fraction digits is an integer.
pub proof fn law_decimal_to_integer(
    vp: VerifiedView,
    lim: Limits,
    st: State,
    reply: Reply,
    dst: u32,
    a: u32,
    x: Decimal,
)
    requires
        holds(st, a, ValueModel::Decimal(x)),
        exists_reg(st, dst),
    ensures
        at_one(vp, st, Opcode::DecToI64, dst, a)
            ==> machine::step(vp, lim, st, reply)
            == if x.scale == 0 { wrote(st, dst, ValueModel::I64(x.mantissa)) } else { trapped(vp,
            st, Trap::DecimalScaleMismatch) },
        at_one(vp, st, Opcode::DecToU64, dst, a)
            ==> machine::step(vp, lim, st, reply)
            == if x.scale != 0 { trapped(vp, st,
            Trap::DecimalScaleMismatch) } else if x.mantissa >= 0 { wrote(st, dst,
            ValueModel::U64(x.mantissa as u64)) } else { trapped(vp, st, Trap::IntCastOverflow) },
{
}

/// An integer as a decimal of a scale has the integer times a power of ten as its mantissa. It
/// traps where the mantissa does not fit, or the power alone does not.
pub proof fn law_integer_to_decimal(
    vp: VerifiedView,
    lim: Limits,
    st: State,
    reply: Reply,
    dst: u32,
    a: u32,
    n: int,
    scale: u8,
)
    requires
        exists_reg(st, dst),
    ensures
        i64::MIN <= n <= i64::MAX && holds(st, a, ValueModel::I64(n as i64))
            && stands_at(vp, st, Opcode::I64ToDec, seq![OperandModel::Word(dst),
            OperandModel::Word(a), OperandModel::Byte(scale)])
            ==> machine::step(vp, lim, st, reply) == scaled_or_trap(vp, st, dst, n, scale),
        0 <= n <= u64::MAX && holds(st, a, ValueModel::U64(n as u64))
            && stands_at(vp, st, Opcode::U64ToDec, seq![OperandModel::Word(dst),
            OperandModel::Word(a), OperandModel::Byte(scale)])
            ==> machine::step(vp, lim, st, reply) == scaled_or_trap(vp, st, dst, n, scale),
{
    lemma_power_of_ten(scale as nat);
}

/// The decimal of a scale that an integer is, or a trap where it does not fit.
pub open spec fn scaled_or_trap(vp: VerifiedView, st: State, dst: u32, n: int, scale: u8) -> Next {
    let f = vstd::arithmetic::power::pow(10, scale as nat);
    if f <= i64::MAX {
        decimal_or_trap(vp, st, dst, n * f, scale as int)
    } else {
        trapped(vp, st, Trap::DecimalOverflow)
    }
}

proof fn lemma_power_of_ten(k: nat)
    ensures
        crate::eval::power_of_ten(k) == vstd::arithmetic::power::pow(10, k),
    decreases k,
{
    reveal(vstd::arithmetic::power::pow);
    if k > 0 {
        lemma_power_of_ten((k - 1) as nat);
    }
}

proof fn lemma_quotient(x: int, y: int, q: int, r: int)
    requires
        y != 0,
        x == q * y + r,
        -y < r < y || y < r < -y,
        r != 0 ==> (r < 0) == (x < 0),
    ensures
        crate::eval::quotient(x, y) == q,
        crate::eval::remainder(x, y) == r,
        crate::eval::magnitude(q) <= crate::eval::magnitude(x),
        y != -1 || x > -0x8000_0000_0000_0000
            ==> -0x8000_0000_0000_0000 <= x <= 0x7fff_ffff_ffff_ffff
            ==> -0x8000_0000_0000_0000 <= q <= 0x7fff_ffff_ffff_ffff,
{
    let mx = crate::eval::magnitude(x);
    let my = crate::eval::magnitude(y);
    let mr = crate::eval::magnitude(r);
    let same = (x < 0) == (y < 0);
    let mq = if same {
        q
    } else {
        -q
    };
    assert(mx == mq * my + mr) by (nonlinear_arith)
        requires
            x == q * y + r,
            r != 0 ==> (r < 0) == (x < 0),
            mx == (if x < 0 { -x } else { x }),
            my == (if y < 0 { -y } else { y }),
            mr == (if r < 0 { -r } else { r }),
            same == ((x < 0) == (y < 0)),
            mq == (if same { q } else { -q }),
    ;
    vstd::arithmetic::div_mod::lemma_fundamental_div_mod_converse(mx, my, mq, mr);
    assert(0 <= mq <= mx) by (nonlinear_arith)
        requires
            mx == mq * my + mr,
            0 <= mr < my,
            mx >= 0,
    ;
    assert(y * q == q * y) by (nonlinear_arith);
    assert(mq == mx ==> mx == 0 || my == 1) by (nonlinear_arith)
        requires
            mx == mq * my + mr,
            0 <= mr < my,
            mx >= 0,
    ;
}

proof fn lemma_signed_twice(n: int)
    ensures
        signed_64(2 * signed_64(n)) == signed_64(2 * n),
{
    let m: int = 0x1_0000_0000_0000_0000;
    let h: int = 0x8000_0000_0000_0000;
    let t = (n + h) / m;
    assert(signed_64(n) == n - m * t) by {
        vstd::arithmetic::div_mod::lemma_fundamental_div_mod(n + h, m);
    }
    assert((2 * n + h) % m == (2 * (n - m * t) + h) % m) by {
        vstd::arithmetic::div_mod::lemma_mod_multiples_vanish(-(2 * t), 2 * n + h, m);
        assert(m * (-(2 * t)) + (2 * n + h) == 2 * (n - m * t) + h) by (nonlinear_arith);
    }
}

proof fn lemma_halves(x: int, p: int)
    requires
        p > 0,
    ensures
        (x / p) / 2 == x / (2 * p),
{
    let q = x / p;
    let r = x % p;
    vstd::arithmetic::div_mod::lemma_fundamental_div_mod(x, p);
    let q2 = q / 2;
    let r2 = q % 2;
    assert(x == q2 * (2 * p) + (r2 * p + r)) by (nonlinear_arith)
        requires
            x == p * q + r,
            q == 2 * q2 + r2,
    ;
    assert(0 <= r2 * p + r < 2 * p) by (nonlinear_arith)
        requires
            0 <= r < p,
            r2 == 0 || r2 == 1,
    ;
    vstd::arithmetic::div_mod::lemma_fundamental_div_mod_converse(x, 2 * p, q2, r2 * p + r);
}

proof fn lemma_shift_i64(x: i64, k: nat)
    requires
        k < 64,
    ensures
        x << (k as u32) == signed_64(x * pow2(k)),
        x >> (k as u32) == (x as int / pow2(k) as int) as i64,
        i64::MIN <= x as int / pow2(k) as int <= i64::MAX,
    decreases k,
{
    if k == 0 {
        assert(x << 0u32 == x && x >> 0u32 == x) by (bit_vector);
        lemma2_to64();
        assert(x * pow2(k) == x) by (nonlinear_arith)
            requires
                pow2(k) == 1,
        ;
    } else {
        let j = (k - 1) as u32;
        let i = k as u32;
        let p = pow2((k - 1) as nat);
        lemma_shift_i64(x, (k - 1) as nat);
        lemma_pow2_pos((k - 1) as nat);
        lemma_pow2_unfold(k);
        let l = x << j;
        let r = x >> j;
        assert(x << i == (x << j) << 1u32 && x >> i == (x >> j) >> 1u32) by (bit_vector)
            requires
                i < 64,
                i == j + 1,
        ;
        assert(l << 1u32 == (if l >= 0x4000_0000_0000_0000 {
            2 * l - 0x1_0000_0000_0000_0000
        } else if l < -0x4000_0000_0000_0000 {
            2 * l + 0x1_0000_0000_0000_0000
        } else {
            2 * l
        }) && r >> 1u32 == (if r >= 0 {
            r / 2
        } else {
            -((1 - r) / 2)
        })) by (bit_vector);
        lemma_signed_twice(x * p);
        assert(2 * (x * p) == x * (2 * p)) by (nonlinear_arith);
        lemma_halves(x as int, p as int);
    }
}

proof fn lemma_shift_u64(x: u64, k: nat)
    requires
        k < 64,
    ensures
        x << (k as u32) == unsigned_64(x * pow2(k)),
        x >> (k as u32) == (x as int / pow2(k) as int) as u64,
        0 <= x as int / pow2(k) as int <= u64::MAX,
    decreases k,
{
    if k == 0 {
        assert(x << 0u32 == x && x >> 0u32 == x) by (bit_vector);
        lemma2_to64();
        assert(x * pow2(k) == x) by (nonlinear_arith)
            requires
                pow2(k) == 1,
        ;
    } else {
        let j = (k - 1) as u32;
        let i = k as u32;
        let p = pow2((k - 1) as nat);
        lemma_shift_u64(x, (k - 1) as nat);
        lemma_pow2_pos((k - 1) as nat);
        lemma_pow2_unfold(k);
        let l = x << j;
        let r = x >> j;
        assert(x << i == (x << j) << 1u32 && x >> i == (x >> j) >> 1u32) by (bit_vector)
            requires
                i < 64,
                i == j + 1,
        ;
        assert(l << 1u32 == (if l >= 0x8000_0000_0000_0000 {
            2 * l - 0x1_0000_0000_0000_0000
        } else {
            2 * l
        }) && r >> 1u32 == r / 2) by (bit_vector);
        vstd::arithmetic::div_mod::lemma_mul_mod_noop_right(
            2,
            x * p,
            0x1_0000_0000_0000_0000,
        );
        assert(2 * (x * p) == x * (2 * p)) by (nonlinear_arith);
        lemma_halves(x as int, p as int);
    }
}

} // verus!
