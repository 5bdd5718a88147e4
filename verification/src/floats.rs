//! What the bits of a float are worth, and what the instructions on floats make of that.

use vstd::arithmetic::div_mod::{
    lemma_div_denominator, lemma_div_by_multiple, lemma_fundamental_div_mod_converse,
};
use vstd::arithmetic::mul::lemma_mul_is_associative;
use vstd::arithmetic::power2::{
    lemma2_to64, lemma2_to64_rest, lemma_pow2_adds, lemma_pow2_pos, lemma_pow2_strictly_increases,
    lemma_pow2_unfold, pow2,
};
use vstd::prelude::*;

use crate::ieee;
use crate::ieee::FloatOp;
use crate::machine;
use crate::machine::{Limits, Outcome, Reply, State};
use crate::meaning::{at_one, at_two, exists_reg, holds, trapped, wrote};
use crate::opcode::Opcode;
use crate::trap::Trap;
use crate::value::ValueModel;
use crate::verify::VerifiedView;

verus! {

/// `2^52`.
pub const FRACTIONS: u64 = 0x10_0000_0000_0000;

/// `2^63`.
pub const SIGN: u64 = 0x8000_0000_0000_0000;

/// The bits are those of no number: all of the exponent is set, and some of the fraction.
pub open spec fn no_number(a: u64) -> bool {
    (a % SIGN) / FRACTIONS == 2047 && a % FRACTIONS != 0
}

/// The bits are those of infinity or minus infinity.
pub open spec fn infinite(a: u64) -> bool {
    (a % SIGN) / FRACTIONS == 2047 && a % FRACTIONS == 0
}

/// How many times `2^-1074` the absolute value of a float is. Infinity counts as `2^1024`.
pub open spec fn size(a: u64) -> nat {
    let e = (a % SIGN) / FRACTIONS;
    let f = a % FRACTIONS;
    if e == 0 {
        f as nat
    } else {
        (FRACTIONS + f) as nat * pow2((e - 1) as nat)
    }
}

/// How many times `2^-1074` a float is. Infinity counts as `2^1024`.
pub open spec fn worth(a: u64) -> int {
    if a >= SIGN {
        -(size(a) as int)
    } else {
        size(a) as int
    }
}

/// `2^1074`, which is what 1 is worth.
pub open spec fn one() -> nat {
    pow2(1074)
}

proof fn lemma_fields(a: u64)
    ensures
        ieee::magnitude(a) == a % SIGN,
        a % FRACTIONS == (a % SIGN) % FRACTIONS,
        (a % SIGN) / FRACTIONS <= 2047,
        a % SIGN == ((a % SIGN) / FRACTIONS) * FRACTIONS + a % FRACTIONS,
        ieee::is_nan(a) <==> no_number(a),
        ieee::is_finite(a) <==> !no_number(a) && !infinite(a),
        a % SIGN == 0 <==> size(a) == 0,
{
    let e = (a % SIGN) / FRACTIONS;
    if e > 0 {
        lemma_pow2_pos((e - 1) as nat);
        assert((FRACTIONS + a % FRACTIONS) as nat * pow2((e - 1) as nat) > 0) by (nonlinear_arith)
            requires
                FRACTIONS + a % FRACTIONS > 0,
                pow2((e - 1) as nat) > 0,
        ;
    }
}

proof fn lemma_size_order(a: u64, b: u64)
    requires
        a % SIGN < b % SIGN,
    ensures
        size(a) < size(b),
{
    lemma_fields(a);
    lemma_fields(b);
    let ea = (a % SIGN) / FRACTIONS;
    let eb = (b % SIGN) / FRACTIONS;
    let fa = a % FRACTIONS;
    let fb = b % FRACTIONS;
    if ea == eb {
        if ea > 0 {
            let p = pow2((ea - 1) as nat);
            lemma_pow2_pos((ea - 1) as nat);
            assert((FRACTIONS + fa) * p < (FRACTIONS + fb) * p) by (nonlinear_arith)
                requires
                    fa < fb,
                    p > 0,
            ;
        }
    } else {
        assert(ea < eb);
        let q = pow2((eb - 1) as nat);
        lemma_pow2_pos((eb - 1) as nat);
        assert((FRACTIONS + fb) * q >= FRACTIONS * q) by (nonlinear_arith)
            requires
                fb >= 0,
                q > 0,
        ;
        if ea == 0 {
            assert(FRACTIONS * q >= FRACTIONS) by (nonlinear_arith)
                requires
                    q >= 1,
            ;
        } else {
            let p = pow2((ea - 1) as nat);
            lemma_pow2_unfold(ea as nat);
            lemma_pow2_pos((ea - 1) as nat);
            assert(pow2(ea as nat) <= q) by {
                if ea < eb - 1 {
                    lemma_pow2_strictly_increases(ea as nat, (eb - 1) as nat);
                }
            }
            assert((FRACTIONS + fa) * p < FRACTIONS * q) by (nonlinear_arith)
                requires
                    fa < FRACTIONS,
                    p > 0,
                    2 * p <= q,
            ;
        }
    }
}

/// Two floats that are numbers are in the order of what they are worth, and the bits of two that
/// are worth the same differ only where both are zero.
pub proof fn law_worth_order(a: u64, b: u64)
    requires
        !no_number(a),
        !no_number(b),
    ensures
        ieee::less(a, b) <==> worth(a) < worth(b),
        ieee::equal(a, b) <==> worth(a) == worth(b),
        worth(a) == worth(b) ==> a == b || (a % SIGN == 0 && b % SIGN == 0),
{
    lemma_fields(a);
    lemma_fields(b);
    let ma = a % SIGN;
    let mb = b % SIGN;
    if ma < mb {
        lemma_size_order(a, b);
    } else if mb < ma {
        lemma_size_order(b, a);
    } else {
        assert(size(a) == size(b));
    }
}

/// Floats are compared by what they are worth. No comparison holds of one that is no number.
pub proof fn law_float_comparison(
    vp: VerifiedView,
    lim: Limits,
    st: State,
    reply: Reply,
    dst: u32,
    a: u32,
    b: u32,
    x: u64,
    y: u64,
)
    requires
        holds(st, a, ValueModel::F64(x)),
        holds(st, b, ValueModel::F64(y)),
        exists_reg(st, dst),
    ensures
        ({
            let numbers = !no_number(x) && !no_number(y);
            let next = machine::step(vp, lim, st, reply);
            &&& at_two(vp, st, Opcode::F64Eq, dst, a, b) ==> next == wrote(
                st,
                dst,
                ValueModel::Bool(numbers && worth(x) == worth(y)),
            )
            &&& at_two(vp, st, Opcode::F64Lt, dst, a, b) ==> next == wrote(
                st,
                dst,
                ValueModel::Bool(numbers && worth(x) < worth(y)),
            )
            &&& at_two(vp, st, Opcode::F64Gt, dst, a, b) ==> next == wrote(
                st,
                dst,
                ValueModel::Bool(numbers && worth(x) > worth(y)),
            )
            &&& at_two(vp, st, Opcode::F64Le, dst, a, b) ==> next == wrote(
                st,
                dst,
                ValueModel::Bool(numbers && worth(x) <= worth(y)),
            )
            &&& at_two(vp, st, Opcode::F64Ge, dst, a, b) ==> next == wrote(
                st,
                dst,
                ValueModel::Bool(numbers && worth(x) >= worth(y)),
            )
        }),
{
    lemma_fields(x);
    lemma_fields(y);
    if !no_number(x) && !no_number(y) {
        law_worth_order(x, y);
        law_worth_order(y, x);
    }
}

/// The number that is worth less. Minus zero is less than zero.
pub open spec fn lesser_of(x: u64, y: u64) -> u64 {
    if worth(x) < worth(y) {
        x
    } else if worth(y) < worth(x) {
        y
    } else if x >= y {
        x
    } else {
        y
    }
}

/// The number that is worth more. Zero is greater than minus zero.
pub open spec fn greater_of(x: u64, y: u64) -> u64 {
    if worth(x) < worth(y) {
        y
    } else if worth(y) < worth(x) {
        x
    } else if x <= y {
        x
    } else {
        y
    }
}

proof fn lemma_extremes(x: u64, y: u64)
    requires
        !no_number(x),
        !no_number(y),
    ensures
        ieee::lesser(x, y) == lesser_of(x, y),
        ieee::greater(x, y) == greater_of(x, y),
{
    lemma_fields(x);
    lemma_fields(y);
    law_worth_order(x, y);
    law_worth_order(y, x);
}

/// The minimum of two numbers is the one that is worth less, and the maximum is the one that is
/// worth more; of two zeros the negative one is the lesser. Where one of the two is no number,
/// `f64_min` and `f64_max` give a quiet NaN, and `f64_min_num` and `f64_max_num` give the other.
pub proof fn law_float_extremes(
    vp: VerifiedView,
    lim: Limits,
    st: State,
    reply: Reply,
    dst: u32,
    a: u32,
    b: u32,
    x: u64,
    y: u64,
)
    requires
        holds(st, a, ValueModel::F64(x)),
        holds(st, b, ValueModel::F64(y)),
        exists_reg(st, dst),
    ensures
        ({
            let next = machine::step(vp, lim, st, reply);
            let quiet = 0x7ff8_0000_0000_0000u64;
            let either = no_number(x) || no_number(y);
            let least = if either {
                quiet
            } else {
                lesser_of(x, y)
            };
            let most = if either {
                quiet
            } else {
                greater_of(x, y)
            };
            let other = if !no_number(y) {
                y
            } else if !no_number(x) {
                x
            } else {
                quiet
            };
            let least_num = if either {
                other
            } else {
                lesser_of(x, y)
            };
            let most_num = if either {
                other
            } else {
                greater_of(x, y)
            };
            &&& at_two(vp, st, Opcode::F64Min, dst, a, b) ==> next == wrote(
                st,
                dst,
                ValueModel::F64(least),
            )
            &&& at_two(vp, st, Opcode::F64Max, dst, a, b) ==> next == wrote(
                st,
                dst,
                ValueModel::F64(most),
            )
            &&& at_two(vp, st, Opcode::F64MinNum, dst, a, b) ==> next == wrote(
                st,
                dst,
                ValueModel::F64(least_num),
            )
            &&& at_two(vp, st, Opcode::F64MaxNum, dst, a, b) ==> next == wrote(
                st,
                dst,
                ValueModel::F64(most_num),
            )
        }),
{
    lemma_fields(x);
    lemma_fields(y);
    if !no_number(x) && !no_number(y) {
        lemma_extremes(x, y);
    }
}

/// Negation changes the sign bit and nothing else, and the absolute value has none. A float and
/// its bits are made of each other without change.
pub proof fn law_float_bits(
    vp: VerifiedView,
    lim: Limits,
    st: State,
    reply: Reply,
    dst: u32,
    a: u32,
    x: u64,
)
    requires
        exists_reg(st, dst),
    ensures
        ({
            let next = machine::step(vp, lim, st, reply);
            &&& holds(st, a, ValueModel::F64(x)) && at_one(vp, st, Opcode::F64Neg, dst, a)
                ==> next == wrote(
                st,
                dst,
                ValueModel::F64(
                    if x >= SIGN {
                        (x - SIGN) as u64
                    } else {
                        (x + SIGN) as u64
                    },
                ),
            )
            &&& holds(st, a, ValueModel::F64(x)) && at_one(vp, st, Opcode::F64Abs, dst, a)
                ==> next == wrote(st, dst, ValueModel::F64(x % SIGN))
            &&& holds(st, a, ValueModel::F64(x)) && at_one(vp, st, Opcode::F64ToBits, dst, a)
                ==> next == wrote(st, dst, ValueModel::U64(x))
            &&& holds(st, a, ValueModel::U64(x)) && at_one(vp, st, Opcode::F64FromBits, dst, a)
                ==> next == wrote(st, dst, ValueModel::F64(x))
        }),
{
    lemma_fields(x);
}

proof fn lemma_power(k: nat)
    ensures
        ieee::power_of_two(k) == pow2(k),
    decreases k,
{
    if k == 0 {
        lemma2_to64();
    } else {
        lemma_power((k - 1) as nat);
        lemma_pow2_unfold(k);
    }
}

/// The integer part of a finite float is what it is worth over what 1 is worth.
proof fn lemma_whole(a: u64)
    requires
        ieee::is_finite(a),
    ensures
        ieee::whole(a) == size(a) as int / one() as int,
{
    lemma_fields(a);
    lemma2_to64();
    lemma2_to64_rest();
    let e = ieee::exponent(a);
    let s = ieee::significand(a);
    assert(e == (a % SIGN) / FRACTIONS);
    lemma_pow2_pos(1074);
    if e == 0 {
        lemma_pow2_strictly_increases(52, 1074);
        lemma_fundamental_div_mod_converse(size(a) as int, one() as int, 0, size(a) as int);
    } else {
        let c = pow2((e - 1) as nat);
        lemma_pow2_pos((e - 1) as nat);
        assert(s == FRACTIONS + a % FRACTIONS);
        assert(size(a) == s * c);
        if e >= 1075 {
            let d = pow2((e - 1075) as nat);
            lemma_power((e - 1075) as nat);
            lemma_pow2_adds((e - 1075) as nat, 1074);
            lemma_mul_is_associative(s as int, d as int, one() as int);
            lemma_div_by_multiple((s * d) as int, one() as int);
        } else if e >= 1022 {
            let d = pow2((1075 - e) as nat);
            lemma_power((1075 - e) as nat);
            lemma_pow2_adds((e - 1) as nat, (1075 - e) as nat);
            lemma_pow2_pos((1075 - e) as nat);
            lemma_div_denominator((s * c) as int, c as int, d as int);
            lemma_div_by_multiple(s as int, c as int);
        } else {
            lemma_pow2_adds(53, (e - 1) as nat);
            lemma_pow2_strictly_increases((53 + (e - 1)) as nat, 1074);
            assert(s * c < pow2(53) * c) by (nonlinear_arith)
                requires
                    s < pow2(53),
                    c > 0,
            ;
            lemma_fundamental_div_mod_converse(size(a) as int, one() as int, 0, size(a) as int);
        }
    }
}

/// What a power of two is worth.
proof fn lemma_bound(bits: u64, k: nat)
    requires
        k >= 1,
        k <= 900,
        bits == (k + 1023) * FRACTIONS,
    ensures
        worth(bits) == pow2(k) * one(),
        !no_number(bits),
        !infinite(bits),
        bits % SIGN == bits,
{
    lemma2_to64();
    lemma2_to64_rest();
    assert(bits / FRACTIONS == k + 1023 && bits % FRACTIONS == 0);
    lemma_pow2_adds(52, (k + 1022) as nat);
    lemma_pow2_adds(k, 1074);
    assert(52 + (k + 1022) == k + 1074);
}

/// A float is converted to an integer by cutting off its fraction. One that is infinite or no
/// number traps, and so does one whose integer part is out of range. A negative one has no
/// unsigned integer.
pub proof fn law_float_to_integer(
    vp: VerifiedView,
    lim: Limits,
    st: State,
    reply: Reply,
    dst: u32,
    a: u32,
    x: u64,
)
    requires
        holds(st, a, ValueModel::F64(x)),
        exists_reg(st, dst),
    ensures
        ({
            let next = machine::step(vp, lim, st, reply);
            let n = size(x) as int / one() as int;
            let strange = no_number(x) || infinite(x);
            &&& at_one(vp, st, Opcode::F64ToI64, dst, a) ==> next == if strange {
                trapped(vp, st, Trap::FloatToIntInvalid)
            } else if worth(x) < -0x8000_0000_0000_0000 * one() || worth(x) >= 0x8000_0000_0000_0000
                * one() {
                trapped(vp, st, Trap::IntCastOverflow)
            } else if x >= SIGN {
                wrote(st, dst, ValueModel::I64((-n) as i64))
            } else {
                wrote(st, dst, ValueModel::I64(n as i64))
            }
            &&& at_one(vp, st, Opcode::F64ToU64, dst, a) ==> next == if strange {
                trapped(vp, st, Trap::FloatToIntInvalid)
            } else if worth(x) < 0 || worth(x) >= 0x1_0000_0000_0000_0000 * one() {
                trapped(vp, st, Trap::IntCastOverflow)
            } else {
                wrote(st, dst, ValueModel::U64(n as u64))
            }
        }),
{
    lemma_fields(x);
    if ieee::is_finite(x) {
        lemma_whole(x);
        lemma2_to64();
        lemma2_to64_rest();
        lemma_bound(ieee::TWO_TO_63_BITS, 63);
        lemma_bound(ieee::TWO_TO_64_BITS, 64);
        assert(ieee::MINUS_TWO_TO_63_BITS == SIGN + ieee::TWO_TO_63_BITS);
        assert(worth(ieee::MINUS_TWO_TO_63_BITS) == -worth(ieee::TWO_TO_63_BITS));
        law_worth_order(x, ieee::TWO_TO_63_BITS);
        law_worth_order(x, ieee::TWO_TO_64_BITS);
        law_worth_order(x, ieee::MINUS_TWO_TO_63_BITS);
        law_worth_order(x, 0);
        lemma_pow2_pos(1074);
        let o = one() as int;
        let n = size(x) as int / o;
        vstd::arithmetic::div_mod::lemma_fundamental_div_mod(size(x) as int, o);
        let r = size(x) as int % o;
        assert(size(x) < 0x8000_0000_0000_0000 * o ==> n < 0x8000_0000_0000_0000) by (nonlinear_arith)
            requires
                size(x) == o * n + r,
                0 <= r < o,
        ;
        assert(size(x) <= 0x8000_0000_0000_0000 * o ==> n <= 0x8000_0000_0000_0000) by (
        nonlinear_arith)
            requires
                size(x) == o * n + r,
                0 <= r < o,
        ;
        assert(size(x) < 0x1_0000_0000_0000_0000 * o ==> n < 0x1_0000_0000_0000_0000) by (
        nonlinear_arith)
            requires
                size(x) == o * n + r,
                0 <= r < o,
        ;
        assert(n >= 0) by (nonlinear_arith)
            requires
                size(x) == o * n + r,
                0 <= r < o,
                size(x) >= 0,
        ;
    }
}

/// What is asked of the unit that rounds: the operation of the instruction on its operands, in
/// their order. What comes back goes to the register.
pub proof fn law_float_arithmetic(
    vp: VerifiedView,
    lim: Limits,
    st: State,
    reply: Reply,
    dst: u32,
    a: u32,
    b: u32,
    x: u64,
    y: u64,
    op: Opcode,
)
    requires
        holds(st, a, ValueModel::F64(x)),
        holds(st, b, ValueModel::F64(y)),
        exists_reg(st, dst),
        at_two(vp, st, op, dst, a, b),
    ensures
        op is F64Add ==> asks(vp, lim, st, dst, FloatOp::Sum, x, y),
        op is F64Sub ==> asks(vp, lim, st, dst, FloatOp::Difference, x, y),
        op is F64Mul ==> asks(vp, lim, st, dst, FloatOp::Product, x, y),
        op is F64Div ==> asks(vp, lim, st, dst, FloatOp::Quotient, x, y),
        op is F64Rem ==> asks(vp, lim, st, dst, FloatOp::Remainder, x, y),
        op is F64Add || op is F64Sub || op is F64Mul || op is F64Div || op is F64Rem
            ==> machine::step(vp, lim, st, reply) == wrote(st, dst, ValueModel::F64(reply.float)),
{
}

/// The instruction that the running frame stands at asks for rounding arithmetic.
pub open spec fn asks(
    vp: VerifiedView,
    lim: Limits,
    st: State,
    dst: u32,
    op: FloatOp,
    x: u64,
    y: u64,
) -> bool {
    let top = st.frames.last();
    machine::decide(
        vp,
        lim,
        vp.functions[top.func.0 as int],
        top.ix,
        top.regs,
        st.heap,
        st.frames.len(),
        st.host_calls,
    ) == (Outcome::Float { dst, op, a: x, b: y })
}

/// An integer is made a float by the unit that rounds, which gets all of its 64 bits.
pub proof fn law_float_of_integer(
    vp: VerifiedView,
    lim: Limits,
    st: State,
    reply: Reply,
    dst: u32,
    a: u32,
    n: int,
)
    requires
        exists_reg(st, dst),
    ensures
        ({
            let next = machine::step(vp, lim, st, reply);
            &&& i64::MIN <= n <= i64::MAX && holds(st, a, ValueModel::I64(n as i64)) && at_one(
                vp,
                st,
                Opcode::I64ToF64,
                dst,
                a,
            ) ==> next == wrote(st, dst, ValueModel::F64(reply.float)) && asks(
                vp,
                lim,
                st,
                dst,
                FloatOp::FromI64,
                (n % 0x1_0000_0000_0000_0000) as u64,
                0,
            )
            &&& 0 <= n <= u64::MAX && holds(st, a, ValueModel::U64(n as u64)) && at_one(
                vp,
                st,
                Opcode::U64ToF64,
                dst,
                a,
            ) ==> next == wrote(st, dst, ValueModel::F64(reply.float)) && asks(
                vp,
                lim,
                st,
                dst,
                FloatOp::FromU64,
                n as u64,
                0,
            )
        }),
{
    if i64::MIN <= n <= i64::MAX {
        let i = n as i64;
        assert(i as u64 == (if i >= 0 {
            i as int
        } else {
            i + 0x1_0000_0000_0000_0000
        })) by (bit_vector);
    }
}

/// Two values are the same where they are of one type and hold the same; two floats are where both
/// are numbers that are worth the same.
pub proof fn law_same_value(a: ValueModel, b: ValueModel, x: u64, y: u64)
    ensures
        a == ValueModel::F64(x) && b == ValueModel::F64(y) ==> (crate::host::same_value(a, b)
            <==> !no_number(x) && !no_number(y) && worth(x) == worth(y)),
        !(a is F64 && b is F64) ==> (crate::host::same_value(a, b) <==> a == b),
{
    lemma_fields(x);
    lemma_fields(y);
    if !no_number(x) && !no_number(y) {
        law_worth_order(x, y);
    }
}

} // verus!
