//! 64-bit floats by their IEEE 754 bits.
//!
//! What can be told from the bits alone is here. Arithmetic that rounds is asked of a
//! [`FloatUnit`].

use vstd::prelude::*;

verus! {

/// The bits of a quiet NaN.
pub const NAN_BITS: u64 = 0x7ff8_0000_0000_0000;

/// The bits of infinity.
pub const INFINITY_BITS: u64 = 0x7ff0_0000_0000_0000;

/// The sign bit, which alone is negative zero.
pub const SIGN_BIT: u64 = 0x8000_0000_0000_0000;

/// Arithmetic that rounds.
#[derive(Copy, Clone, Debug, PartialEq, Eq, Structural)]
pub enum FloatOp {
    /// Sum.
    Sum,
    /// Difference.
    Difference,
    /// Product.
    Product,
    /// Quotient.
    Quotient,
    /// Remainder.
    Remainder,
    /// Conversion of a signed integer, given by its two's complement bits.
    FromI64,
    /// Conversion of an unsigned integer.
    FromU64,
}

/// A unit that performs arithmetic that rounds, on the bits of floats.
pub trait FloatUnit {
    /// The bits of the result of `op` on `a` and `b`. Conversions do not read `b`.
    fn compute(&mut self, op: FloatOp, a: u64, b: u64) -> u64;
}

/// Arithmetic that a unit performed.
#[verifier::ext_equal]
pub struct FloatCall {
    /// The operation.
    pub op: FloatOp,
    /// The first operand.
    pub a: u64,
    /// The second operand.
    pub b: u64,
    /// What came back.
    pub bits: u64,
}

/// Has a unit perform an operation. The state of the unit comes back, too.
pub fn perform<F: FloatUnit>(unit: &mut F, op: FloatOp, a: u64, b: u64) -> (r: (u64, Ghost<F>))
    ensures
        r.1@ == *final(unit),
        exists|m: &mut F|
            *m == *old(unit) && *final(m) == *final(unit) && #[trigger] call_ensures(
                F::compute,
                (m, op, a, b),
                r.0,
            ),
{
    let bits = unit.compute(op, a, b);
    let ghost after = *unit;
    assert(exists|m: &mut F|
        *m == *old(unit) && *final(m) == after && #[trigger] call_ensures(
            F::compute,
            (m, op, a, b),
            bits,
        ));
    let r = (bits, Ghost(after));
    assert(r.0 == bits);
    r
}

/// A unit performed something, and went from one state to another.
pub open spec fn performed<F: FloatUnit>(before: F, c: FloatCall, after: F) -> bool {
    exists|m: &mut F, r: (u64, Ghost<F>)|
        *m == before && r.0 == c.bits && r.1@ == after && #[trigger] call_ensures(
            perform::<F>,
            (m, c.op, c.a, c.b),
            r,
        )
}

/// How the states of a unit follow on each other.
pub open spec fn performs<F: FloatUnit>() -> spec_fn(F, FloatCall, F) -> bool {
    |before: F, c: FloatCall, after: F| performed(before, c, after)
}

/// A unit, with a history of what it performed.
pub struct Rounding<F: FloatUnit> {
    unit: F,
    done: Ghost<Seq<FloatCall>>,
}

impl<F: FloatUnit> Rounding<F> {
    /// What the unit performed, in order.
    pub closed spec fn done(&self) -> Seq<FloatCall> {
        self.done@
    }

    /// The unit.
    pub closed spec fn inner(&self) -> F {
        self.unit
    }

    /// A unit that has performed nothing.
    pub fn new(unit: F) -> (r: Self)
        ensures
            r.done() == Seq::<FloatCall>::empty(),
            r.inner() == unit,
    {
        Rounding { unit, done: Ghost(Seq::empty()) }
    }

    /// Has the unit perform an operation.
    pub fn compute(&mut self, op: FloatOp, a: u64, b: u64) -> (bits: u64)
        ensures
            final(self).done() == old(self).done().push((FloatCall { op, a, b, bits })),
            performed(old(self).inner(), (FloatCall { op, a, b, bits }), final(self).inner()),
            exists|m: &mut F|
                *m == old(self).inner() && *final(m) == final(self).inner()
                    && #[trigger] call_ensures(F::compute, (m, op, a, b), bits),
    {
        let r = perform(&mut self.unit, op, a, b);
        proof {
            assert(r.1@ == self.unit);
            self.done@ = self.done@.push(FloatCall { op, a, b, bits: r.0 });
        }
        r.0
    }
}

/// The bits without the sign.
pub open spec fn magnitude(a: u64) -> u64 {
    if a >= SIGN_BIT {
        (a - SIGN_BIT) as u64
    } else {
        a
    }
}

/// Whether the sign bit is set.
pub open spec fn negative(a: u64) -> bool {
    a >= SIGN_BIT
}

/// Whether the float is not a number.
pub open spec fn is_nan(a: u64) -> bool {
    magnitude(a) > INFINITY_BITS
}

/// Whether the float is a number and not infinite.
pub open spec fn is_finite(a: u64) -> bool {
    magnitude(a) < INFINITY_BITS
}

/// A number that orders floats that are numbers: both zeros have the same.
pub open spec fn rank(a: u64) -> int {
    if negative(a) {
        -(magnitude(a) as int)
    } else {
        magnitude(a) as int
    }
}

/// Whether floats are equal.
pub open spec fn equal(a: u64, b: u64) -> bool {
    !is_nan(a) && !is_nan(b) && rank(a) == rank(b)
}

/// Whether one float is less than another.
pub open spec fn less(a: u64, b: u64) -> bool {
    !is_nan(a) && !is_nan(b) && rank(a) < rank(b)
}

/// The negated float.
pub open spec fn negated(a: u64) -> u64 {
    if negative(a) {
        magnitude(a)
    } else {
        (a + SIGN_BIT) as u64
    }
}

/// The lesser of two numbers. Negative zero is less than zero.
pub open spec fn lesser(a: u64, b: u64) -> u64 {
    if less(a, b) {
        a
    } else if less(b, a) {
        b
    } else if magnitude(a) == 0 && (negative(a) || negative(b)) {
        SIGN_BIT
    } else {
        a
    }
}

/// The greater of two numbers. Zero is greater than negative zero.
pub open spec fn greater(a: u64, b: u64) -> u64 {
    if less(b, a) {
        a
    } else if less(a, b) {
        b
    } else if magnitude(a) == 0 && (!negative(a) || !negative(b)) {
        0
    } else {
        a
    }
}

/// The lesser of two floats, where NaN comes through.
pub open spec fn min(a: u64, b: u64) -> u64 {
    if is_nan(a) || is_nan(b) {
        NAN_BITS
    } else {
        lesser(a, b)
    }
}

/// The greater of two floats, where NaN comes through.
pub open spec fn max(a: u64, b: u64) -> u64 {
    if is_nan(a) || is_nan(b) {
        NAN_BITS
    } else {
        greater(a, b)
    }
}

/// The lesser of two floats, where a number is taken before NaN.
pub open spec fn min_num(a: u64, b: u64) -> u64 {
    if is_nan(a) && is_nan(b) {
        NAN_BITS
    } else if is_nan(a) {
        b
    } else if is_nan(b) {
        a
    } else {
        lesser(a, b)
    }
}

/// The greater of two floats, where a number is taken before NaN.
pub open spec fn max_num(a: u64, b: u64) -> u64 {
    if is_nan(a) && is_nan(b) {
        NAN_BITS
    } else if is_nan(a) {
        b
    } else if is_nan(b) {
        a
    } else {
        greater(a, b)
    }
}

/// `2^k`.
pub open spec fn power_of_two(k: nat) -> nat
    decreases k,
{
    if k == 0 {
        1
    } else {
        2 * power_of_two((k - 1) as nat)
    }
}

/// The exponent field.
pub open spec fn exponent(a: u64) -> nat {
    (magnitude(a) / 0x10_0000_0000_0000) as nat
}

/// The significand of a finite float, with the hidden bit.
pub open spec fn significand(a: u64) -> nat {
    if exponent(a) == 0 {
        magnitude(a) as nat
    } else {
        (magnitude(a) % 0x10_0000_0000_0000 + 0x10_0000_0000_0000) as nat
    }
}

/// The integer part of the absolute value of a finite float: its value is the significand times
/// two to the power of the exponent field less 1075, and fractions are cut off.
pub open spec fn whole(a: u64) -> nat {
    if exponent(a) >= 1075 {
        significand(a) * power_of_two((exponent(a) - 1075) as nat)
    } else if exponent(a) >= 1022 {
        significand(a) / power_of_two((1075 - exponent(a)) as nat)
    } else {
        0
    }
}

/// The bits of `2^63`.
pub const TWO_TO_63_BITS: u64 = 0x43e0_0000_0000_0000;

/// The bits of `-2^63`.
pub const MINUS_TWO_TO_63_BITS: u64 = 0xc3e0_0000_0000_0000;

/// The bits of `2^64`.
pub const TWO_TO_64_BITS: u64 = 0x43f0_0000_0000_0000;

/// A finite float with its fraction cut off, as a signed integer: the nearest where it is out of
/// range.
pub open spec fn truncated_i64(a: u64) -> i64 {
    if negative(a) {
        if whole(a) > 0x8000_0000_0000_0000 {
            i64::MIN
        } else {
            (-(whole(a) as int)) as i64
        }
    } else if whole(a) > i64::MAX {
        i64::MAX
    } else {
        whole(a) as i64
    }
}

/// A finite float that is not negative with its fraction cut off, as an unsigned integer: the
/// nearest where it is out of range.
pub open spec fn truncated_u64(a: u64) -> u64 {
    if whole(a) > u64::MAX {
        u64::MAX
    } else {
        whole(a) as u64
    }
}

/// The bits without the sign.
pub fn f64_abs(a: u64) -> (r: u64)
    ensures
        r == magnitude(a),
{
    if a >= SIGN_BIT {
        a - SIGN_BIT
    } else {
        a
    }
}

/// Whether the float is not a number.
pub fn f64_is_nan(a: u64) -> (r: bool)
    ensures
        r == is_nan(a),
{
    f64_abs(a) > INFINITY_BITS
}

/// The negated float.
pub fn f64_neg(a: u64) -> (r: u64)
    ensures
        r == negated(a),
{
    if a >= SIGN_BIT {
        a - SIGN_BIT
    } else {
        a + SIGN_BIT
    }
}

/// A number that orders floats that are numbers.
fn f64_rank(a: u64) -> (r: i64)
    ensures
        r == rank(a),
{
    let m: u64 = f64_abs(a);
    if a >= SIGN_BIT {
        -(m as i64)
    } else {
        m as i64
    }
}

/// Whether floats are equal.
pub fn f64_eq(a: u64, b: u64) -> (r: bool)
    ensures
        r == equal(a, b),
{
    !f64_is_nan(a) && !f64_is_nan(b) && f64_rank(a) == f64_rank(b)
}

/// Whether one float is less than another.
pub fn f64_lt(a: u64, b: u64) -> (r: bool)
    ensures
        r == less(a, b),
{
    !f64_is_nan(a) && !f64_is_nan(b) && f64_rank(a) < f64_rank(b)
}

fn f64_min_basic(a: u64, b: u64) -> (r: u64)
    ensures
        r == lesser(a, b),
{
    if f64_lt(a, b) {
        a
    } else if f64_lt(b, a) {
        b
    } else if f64_abs(a) == 0 && (a >= SIGN_BIT || b >= SIGN_BIT) {
        SIGN_BIT
    } else {
        a
    }
}

fn f64_max_basic(a: u64, b: u64) -> (r: u64)
    ensures
        r == greater(a, b),
{
    if f64_lt(b, a) {
        a
    } else if f64_lt(a, b) {
        b
    } else if f64_abs(a) == 0 && (a < SIGN_BIT || b < SIGN_BIT) {
        0
    } else {
        a
    }
}

/// The lesser of two floats, where NaN comes through.
pub fn f64_min(a: u64, b: u64) -> (r: u64)
    ensures
        r == min(a, b),
{
    if f64_is_nan(a) || f64_is_nan(b) {
        NAN_BITS
    } else {
        f64_min_basic(a, b)
    }
}

/// The greater of two floats, where NaN comes through.
pub fn f64_max(a: u64, b: u64) -> (r: u64)
    ensures
        r == max(a, b),
{
    if f64_is_nan(a) || f64_is_nan(b) {
        NAN_BITS
    } else {
        f64_max_basic(a, b)
    }
}

/// The lesser of two floats, where a number is taken before NaN.
pub fn f64_min_num(a: u64, b: u64) -> (r: u64)
    ensures
        r == min_num(a, b),
{
    match (f64_is_nan(a), f64_is_nan(b)) {
        (true, true) => NAN_BITS,
        (true, false) => b,
        (false, true) => a,
        (false, false) => f64_min_basic(a, b),
    }
}

/// The greater of two floats, where a number is taken before NaN.
pub fn f64_max_num(a: u64, b: u64) -> (r: u64)
    ensures
        r == max_num(a, b),
{
    match (f64_is_nan(a), f64_is_nan(b)) {
        (true, true) => NAN_BITS,
        (true, false) => b,
        (false, true) => a,
        (false, false) => f64_max_basic(a, b),
    }
}

/// A power of two that fits.
fn f64_power(k: u64) -> (r: u64)
    requires
        k <= 63,
    ensures
        r == power_of_two(k as nat),
    decreases k,
{
    if k == 0 {
        1
    } else {
        proof {
            lemma_power_bound((k - 1) as nat);
        }
        2 * f64_power(k - 1)
    }
}

proof fn lemma_power_bound(k: nat)
    requires
        k <= 62,
    ensures
        1 <= power_of_two(k) <= 0x4000_0000_0000_0000,
    decreases 62 - k,
{
    if k < 62 {
        lemma_power_bound(k + 1);
        if k == 0 {
            assert(power_of_two(0) == 1);
        } else {
            lemma_power_positive(k);
        }
    } else {
        reveal_with_fuel(power_of_two, 63);
        assert(power_of_two(62) == 0x4000_0000_0000_0000);
    }
}

proof fn lemma_power_positive(k: nat)
    ensures
        power_of_two(k) >= 1,
    decreases k,
{
    if k > 0 {
        lemma_power_positive((k - 1) as nat);
    }
}

/// The integer part of the absolute value of a finite float below `2^64`, or none where it is not
/// below.
pub fn f64_whole(a: u64) -> (r: Option<u64>)
    ensures
        match r {
            Some(v) => whole(a) == v,
            None => whole(a) > u64::MAX,
        },
{
    let m: u64 = f64_abs(a);
    let e: u64 = m / 0x10_0000_0000_0000;
    let frac: u64 = m % 0x10_0000_0000_0000;
    let s: u64 = if e == 0 {
        m
    } else {
        frac + 0x10_0000_0000_0000
    };
    if e >= 1075 {
        if e - 1075 <= 11 {
            let p: u64 = f64_power(e - 1075);
            proof {
                reveal_with_fuel(power_of_two, 12);
                assert(power_of_two(11) == 2048);
                lemma_power_monotone((e - 1075) as nat, 11);
                assert(s * p <= 0x20_0000_0000_0000 * 2048) by (nonlinear_arith)
                    requires
                        0 <= s <= 0x20_0000_0000_0000,
                        0 <= p <= 2048,
                ;
            }
            let w: u128 = s as u128 * p as u128;
            if w <= u64::MAX as u128 {
                Some(w as u64)
            } else {
                None
            }
        } else {
            proof {
                reveal_with_fuel(power_of_two, 13);
                assert(power_of_two(12) == 4096);
                lemma_power_monotone(12, (e - 1075) as nat);
                let p = power_of_two((e - 1075) as nat);
                assert(s * p >= 0x10_0000_0000_0000 * 4096) by (nonlinear_arith)
                    requires
                        s >= 0x10_0000_0000_0000,
                        p >= 4096,
                ;
            }
            None
        }
    } else if e >= 1022 {
        let p: u64 = f64_power(1075 - e);
        proof {
            lemma_power_positive((1075 - e) as nat);
        }
        Some(s / p)
    } else {
        Some(0)
    }
}

proof fn lemma_power_monotone(a: nat, b: nat)
    requires
        a <= b,
    ensures
        power_of_two(a) <= power_of_two(b),
    decreases b,
{
    if a < b {
        lemma_power_monotone(a, (b - 1) as nat);
    }
}

/// A finite float with its fraction cut off, as a signed integer.
pub fn f64_truncate_i64(a: u64) -> (r: i64)
    ensures
        r == truncated_i64(a),
{
    let w: u64 = match f64_whole(a) {
        Some(w) => w,
        None => u64::MAX,
    };
    if a >= SIGN_BIT {
        if w >= 0x8000_0000_0000_0000 {
            i64::MIN
        } else {
            -(w as i64)
        }
    } else if w > i64::MAX as u64 {
        i64::MAX
    } else {
        w as i64
    }
}

/// A finite float that is not negative with its fraction cut off, as an unsigned integer.
pub fn f64_truncate_u64(a: u64) -> (r: u64)
    ensures
        r == truncated_u64(a),
{
    match f64_whole(a) {
        Some(w) => w,
        None => u64::MAX,
    }
}

} // verus!
