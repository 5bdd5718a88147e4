//! What the verifier allows, said of the instructions and of the tables of the program.
//!
//! The laws here say for each instruction exactly where it is allowed, given what is known of the
//! registers before it and behind it.

use vstd::prelude::*;

use crate::bytecode::OperandModel;
use crate::flow::{
    call_operands, in_range, law_index_at, nothing_at, part, starts_at,
};
use crate::opcode::Opcode;
use crate::program::{ConstEntry, ElemTypeId, Function, ProgramView, TypeId, ValueType};
use crate::typing;
use crate::typing::{Known, RegTypeModel, Regs, Writes};
use crate::verify;
use crate::verify::{Body, FunctionView, Typing};

verus! {

// ---------------------------------------------------------------------------------------------
// What is known.
// ---------------------------------------------------------------------------------------------

/// The type of a value of which something is known.
pub open spec fn kind_of(k: RegTypeModel) -> ValueType {
    match k {
        RegTypeModel::Plain(t) => t,
        RegTypeModel::Tuple(_) => ValueType::Agg,
        RegTypeModel::Struct(_) => ValueType::Agg,
        RegTypeModel::Array(_) => ValueType::Agg,
    }
}

/// A register has a value of a type.
pub open spec fn typed(st: Regs, r: u32, ty: ValueType) -> bool {
    r < st.len() && st[r as int] is Some && kind_of(st[r as int]->0) == ty
}

/// Registers have values of types, in order.
pub open spec fn typed_all(st: Regs, rs: Seq<u32>, tys: Seq<ValueType>) -> bool {
    &&& rs.len() == tys.len()
    &&& forall|k: int| 0 <= k < rs.len() ==> typed(st, #[trigger] rs[k], tys[k])
}

/// What the one says holds where the other holds.
pub open spec fn follows_from(less: Known, more: Known) -> bool {
    match (less, more) {
        (None, _) => true,
        (Some(_), None) => false,
        (Some(l), Some(m)) => l == m || (l == RegTypeModel::Plain(ValueType::Agg) && kind_of(m)
            == ValueType::Agg),
    }
}

/// What the typing says of instruction `j` holds where registers are as `st` says.
pub open spec fn covered(t: Typing, j: int, st: Regs) -> bool {
    &&& 0 <= j < t.len()
    &&& t[j] is Some
    &&& (t[j]->0).len() == st.len()
    &&& forall|r: int| 0 <= r < st.len() ==> follows_from((t[j]->0)[r], #[trigger] st[r])
}

/// Instruction `i` has the given operands, the typing says of the registers before it what `st`
/// says, and it has as many instructions as the function.
pub open spec fn has_before(
    b: Body,
    t: Typing,
    i: int,
    st: Regs,
    op: Opcode,
    operands: Seq<OperandModel>,
) -> bool {
    &&& 0 <= i < b.xs.len()
    &&& t.len() == b.xs.len()
    &&& t[i] == Some(st)
    &&& b.xs[i].op == op
    &&& b.xs[i].operands == operands
}

/// Behind instruction `i` comes another, of which the typing says no more than that a value of
/// which `k` is known went to a register of the function.
pub open spec fn goes_on_with(b: Body, t: Typing, i: int, st: Regs, dst: u32,
    k: RegTypeModel) -> bool {
    dst < b.reg_count && covered(t, i + 1, st.update(dst as int, Some(k)))
}

proof fn lemma_reaches(t: Typing, j: int, st: Regs)
    ensures
        verify::reaches(t, j, st) <==> covered(t, j, st),
{
    if 0 <= j < t.len() && t[j] is Some && (t[j]->0).len() == st.len() {
        let n = t[j]->0;
        if verify::reaches(t, j, st) {
            assert forall|r: int| 0 <= r < st.len()
                implies follows_from(n[r], #[trigger] st[r]) by {
                assert(typing::weaker(st[r], n[r]));
            }
        }
        if covered(t, j, st) {
            assert forall|r: int| 0 <= r < st.len() implies typing::weaker(
                #[trigger] st[r],
                n[r],
            ) by {
                assert(follows_from(n[r], st[r]));
            }
        }
    }
}

proof fn lemma_step(
    p: ProgramView,
    b: Body,
    t: Typing,
    i: int,
    st: Regs,
    w: Writes,
    next: Seq<int>,
)
    requires
        0 <= i < b.xs.len(),
        t.len() == b.xs.len(),
        t[i] == Some(st),
        verify::successors(b.xs, i) == Some(next),
        typing::effect(p, b.rets, b.xs[i], st) == Some(w),
    ensures
        verify::step_ok(p, b, t, i) <==> typing::in_bounds(w, b.reg_count) && forall|k: int|
            0 <= k < next.len() ==> covered(t, #[trigger] next[k], typing::after(st, w)),
{
    let a = typing::after(st, w);
    let ww = typing::effect(p, b.rets, b.xs[i], st)->0;
    let nn = verify::successors(b.xs, i)->0;
    if verify::step_ok(p, b, t, i) {
        assert forall|k: int| 0 <= k < next.len() implies verify::reaches(
            t,
            #[trigger] next[k],
            a,
        ) by {
            assert(verify::reaches(t, nn[k], typing::after(st, ww)));
        }
    }
    assert forall|k: int| 0 <= k < next.len() implies (verify::reaches(t, #[trigger] next[k], a)
        <==> covered(t, next[k], a)) by {
        lemma_reaches(t, next[k], a);
    }
}

proof fn lemma_one_write(p: ProgramView, b: Body, t: Typing, i: int, st: Regs, dst: u32,
    k: RegTypeModel)
    requires
        0 <= i < b.xs.len(),
        t.len() == b.xs.len(),
        t[i] == Some(st),
        verify::successors(b.xs, i) == (if i + 1 < b.xs.len() {
            Some(seq![i + 1])
        } else {
            None
        }),
        typing::effect(p, b.rets, b.xs[i], st) == Some(seq![(dst, k)]),
    ensures
        verify::step_ok(p, b, t, i) <==> goes_on_with(b, t, i, st, dst, k),
{
    let w: Writes = seq![(dst, k)];
    reveal_with_fuel(typing::after, 3);
    assert(w.drop_last() =~= Seq::empty());
    assert(typing::after(st, w) == st.update(dst as int, Some(k)));
    assert(typing::in_bounds(w, b.reg_count) <==> dst < b.reg_count) by {
        assert(w[0].0 == dst);
    }
    if i + 1 < b.xs.len() {
        let next = seq![i + 1];
        assert(next[0] == i + 1);
        lemma_step(p, b, t, i, st, w, next);
    }
}

proof fn lemma_no_write(p: ProgramView, b: Body, t: Typing, i: int, st: Regs, next: Seq<int>)
    requires
        0 <= i < b.xs.len(),
        t.len() == b.xs.len(),
        t[i] == Some(st),
        verify::successors(b.xs, i) == Some(next),
        typing::effect(p, b.rets, b.xs[i], st) == Some(Seq::<(u32, RegTypeModel)>::empty()),
    ensures
        verify::step_ok(p, b, t, i) <==> forall|k: int|
            0 <= k < next.len() ==> covered(t, #[trigger] next[k], st),
{
    let w: Writes = Seq::empty();
    assert(typing::after(st, w) == st);
    lemma_step(p, b, t, i, st, w, next);
}

// ---------------------------------------------------------------------------------------------
// Instructions that compute.
// ---------------------------------------------------------------------------------------------

/// An instruction that computes a value of two others is allowed exactly where both registers have
/// values of the types that it takes, and gives a value of its type.
pub proof fn law_allowed_on_two(
    p: ProgramView,
    b: Body,
    t: Typing,
    i: int,
    st: Regs,
    op: Opcode,
    dst: u32,
    x: u32,
    y: u32,
)
    requires
        has_before(
            b,
            t,
            i,
            st,
            op,
            seq![OperandModel::Word(dst), OperandModel::Word(x), OperandModel::Word(y)],
        ),
    ensures
        op is DecAdd || op is DecSub || op is DecMul ==> (verify::step_ok(p, b, t, i)
            <==> typed(st, x, ValueType::Decimal) && typed(st, y, ValueType::Decimal)
            && goes_on_with(b, t, i, st, dst, RegTypeModel::Plain(ValueType::Decimal))),
        op is I64Add || op is I64Sub || op is I64Mul || op is I64Div || op is I64Rem
            || op is I64And || op is I64Or || op is I64Xor || op is I64Shl || op is I64Shr
            ==> (verify::step_ok(p, b, t, i)
            <==> typed(st, x, ValueType::I64) && typed(st, y, ValueType::I64)
            && goes_on_with(b, t, i, st, dst, RegTypeModel::Plain(ValueType::I64))),
        op is I64Eq || op is I64Lt || op is I64Gt || op is I64Le || op is I64Ge
            ==> (verify::step_ok(p, b, t, i)
            <==> typed(st, x, ValueType::I64) && typed(st, y, ValueType::I64)
            && goes_on_with(b, t, i, st, dst, RegTypeModel::Plain(ValueType::Bool))),
        op is U64Add || op is U64Sub || op is U64Mul || op is U64Div || op is U64Rem
            || op is U64And || op is U64Or || op is U64Xor || op is U64Shl || op is U64Shr
            ==> (verify::step_ok(p, b, t, i)
            <==> typed(st, x, ValueType::U64) && typed(st, y, ValueType::U64)
            && goes_on_with(b, t, i, st, dst, RegTypeModel::Plain(ValueType::U64))),
        op is U64Eq || op is U64Lt || op is U64Gt || op is U64Le || op is U64Ge
            ==> (verify::step_ok(p, b, t, i)
            <==> typed(st, x, ValueType::U64) && typed(st, y, ValueType::U64)
            && goes_on_with(b, t, i, st, dst, RegTypeModel::Plain(ValueType::Bool))),
        op is BoolAnd || op is BoolOr || op is BoolXor ==> (verify::step_ok(p, b, t, i)
            <==> typed(st, x, ValueType::Bool) && typed(st, y, ValueType::Bool)
            && goes_on_with(b, t, i, st, dst, RegTypeModel::Plain(ValueType::Bool))),
        op is F64Add || op is F64Sub || op is F64Mul || op is F64Div || op is F64Rem
            || op is F64Min || op is F64Max || op is F64MinNum || op is F64MaxNum
            ==> (verify::step_ok(p, b, t, i)
            <==> typed(st, x, ValueType::F64) && typed(st, y, ValueType::F64)
            && goes_on_with(b, t, i, st, dst, RegTypeModel::Plain(ValueType::F64))),
        op is F64Eq || op is F64Lt || op is F64Gt || op is F64Le || op is F64Ge
            ==> (verify::step_ok(p, b, t, i)
            <==> typed(st, x, ValueType::F64) && typed(st, y, ValueType::F64)
            && goes_on_with(b, t, i, st, dst, RegTypeModel::Plain(ValueType::Bool))),
        op is BytesEq ==> (verify::step_ok(p, b, t, i)
            <==> typed(st, x, ValueType::Bytes) && typed(st, y, ValueType::Bytes)
            && goes_on_with(b, t, i, st, dst, RegTypeModel::Plain(ValueType::Bool))),
        op is BytesConcat ==> (verify::step_ok(p, b, t, i)
            <==> typed(st, x, ValueType::Bytes) && typed(st, y, ValueType::Bytes)
            && goes_on_with(b, t, i, st, dst, RegTypeModel::Plain(ValueType::Bytes))),
        op is BytesGet ==> (verify::step_ok(p, b, t, i)
            <==> typed(st, x, ValueType::Bytes) && typed(st, y, ValueType::U64)
            && goes_on_with(b, t, i, st, dst, RegTypeModel::Plain(ValueType::U64))),
        op is StrEq ==> (verify::step_ok(p, b, t, i)
            <==> typed(st, x, ValueType::Str) && typed(st, y, ValueType::Str)
            && goes_on_with(b, t, i, st, dst, RegTypeModel::Plain(ValueType::Bool))),
        op is StrConcat ==> (verify::step_ok(p, b, t, i)
            <==> typed(st, x, ValueType::Str) && typed(st, y, ValueType::Str)
            && goes_on_with(b, t, i, st, dst, RegTypeModel::Plain(ValueType::Str))),
{
    if let Some((tys, ret)) = typing::fixed_sig(op) {
        if tys.len() == 2 {
            assert(typing::has_all(st, seq![x, y], tys) <==> typed(st, x, tys[0]) && typed(
                st,
                y,
                tys[1],
            )) by {
                let rs = seq![x, y];
                assert(rs[0] == x && rs[1] == y);
            }
            if typing::effect(p, b.rets, b.xs[i], st) is Some {
                lemma_one_write(p, b, t, i, st, dst, RegTypeModel::Plain(ret));
            }
        }
    }
}

/// An instruction that computes a value of another is allowed exactly where the register has a
/// value of the type that it takes, and gives a value of its type.
pub proof fn law_allowed_on_one(
    p: ProgramView,
    b: Body,
    t: Typing,
    i: int,
    st: Regs,
    op: Opcode,
    dst: u32,
    x: u32,
)
    requires
        has_before(b, t, i, st, op, seq![OperandModel::Word(dst), OperandModel::Word(x)]),
    ensures
        op is DecToI64 ==> (verify::step_ok(p, b, t, i)
            <==> typed(st, x, ValueType::Decimal)
            && goes_on_with(b, t, i, st, dst, RegTypeModel::Plain(ValueType::I64))),
        op is DecToU64 ==> (verify::step_ok(p, b, t, i)
            <==> typed(st, x, ValueType::Decimal)
            && goes_on_with(b, t, i, st, dst, RegTypeModel::Plain(ValueType::U64))),
        op is I64ToU64 ==> (verify::step_ok(p, b, t, i)
            <==> typed(st, x, ValueType::I64)
            && goes_on_with(b, t, i, st, dst, RegTypeModel::Plain(ValueType::U64))),
        op is U64ToI64 ==> (verify::step_ok(p, b, t, i)
            <==> typed(st, x, ValueType::U64)
            && goes_on_with(b, t, i, st, dst, RegTypeModel::Plain(ValueType::I64))),
        op is BoolNot ==> (verify::step_ok(p, b, t, i)
            <==> typed(st, x, ValueType::Bool)
            && goes_on_with(b, t, i, st, dst, RegTypeModel::Plain(ValueType::Bool))),
        op is F64Neg || op is F64Abs ==> (verify::step_ok(p, b, t, i)
            <==> typed(st, x, ValueType::F64)
            && goes_on_with(b, t, i, st, dst, RegTypeModel::Plain(ValueType::F64))),
        op is F64ToBits || op is F64ToU64 ==> (verify::step_ok(p, b, t, i)
            <==> typed(st, x, ValueType::F64)
            && goes_on_with(b, t, i, st, dst, RegTypeModel::Plain(ValueType::U64))),
        op is F64ToI64 ==> (verify::step_ok(p, b, t, i)
            <==> typed(st, x, ValueType::F64)
            && goes_on_with(b, t, i, st, dst, RegTypeModel::Plain(ValueType::I64))),
        op is F64FromBits || op is U64ToF64 ==> (verify::step_ok(p, b, t, i)
            <==> typed(st, x, ValueType::U64)
            && goes_on_with(b, t, i, st, dst, RegTypeModel::Plain(ValueType::F64))),
        op is I64ToF64 ==> (verify::step_ok(p, b, t, i)
            <==> typed(st, x, ValueType::I64)
            && goes_on_with(b, t, i, st, dst, RegTypeModel::Plain(ValueType::F64))),
        op is TupleLen || op is StructFieldCount || op is ArrayLen
            ==> (verify::step_ok(p, b, t, i)
            <==> typed(st, x, ValueType::Agg)
            && goes_on_with(b, t, i, st, dst, RegTypeModel::Plain(ValueType::U64))),
        op is BytesLen ==> (verify::step_ok(p, b, t, i)
            <==> typed(st, x, ValueType::Bytes)
            && goes_on_with(b, t, i, st, dst, RegTypeModel::Plain(ValueType::U64))),
        op is BytesToStr ==> (verify::step_ok(p, b, t, i)
            <==> typed(st, x, ValueType::Bytes)
            && goes_on_with(b, t, i, st, dst, RegTypeModel::Plain(ValueType::Str))),
        op is StrLen ==> (verify::step_ok(p, b, t, i)
            <==> typed(st, x, ValueType::Str)
            && goes_on_with(b, t, i, st, dst, RegTypeModel::Plain(ValueType::U64))),
        op is StrToBytes ==> (verify::step_ok(p, b, t, i)
            <==> typed(st, x, ValueType::Str)
            && goes_on_with(b, t, i, st, dst, RegTypeModel::Plain(ValueType::Bytes))),
        op is Mov ==> (verify::step_ok(p, b, t, i) <==> x < st.len() && st[x as int] is Some
            && goes_on_with(b, t, i, st, dst, st[x as int]->0)),
{
    if op is Mov {
        if x < st.len() && st[x as int] is Some {
            lemma_one_write(p, b, t, i, st, dst, st[x as int]->0);
        }
    } else if let Some((tys, ret)) = typing::fixed_sig(op) {
        if tys.len() == 1 {
            assert(typing::has_all(st, seq![x], tys) <==> typed(st, x, tys[0])) by {
                let rs = seq![x];
                assert(rs[0] == x);
            }
            if typing::effect(p, b.rets, b.xs[i], st) is Some {
                lemma_one_write(p, b, t, i, st, dst, RegTypeModel::Plain(ret));
            }
        }
    }
}

/// An integer is made a decimal of any scale, a byte is taken by any index, and a part of a string
/// or byte string is taken between two unsigned positions.
pub proof fn law_allowed_parts(
    p: ProgramView,
    b: Body,
    t: Typing,
    i: int,
    st: Regs,
    dst: u32,
    x: u32,
    y: u32,
    z: u32,
    scale: u8,
)
    ensures
        ({
            let ok = verify::step_ok(p, b, t, i);
            let d = OperandModel::Word(dst);
            let a = OperandModel::Word(x);
            let s = OperandModel::Word(y);
            let e = OperandModel::Word(z);
            let by = OperandModel::Byte(scale);
            &&& has_before(b, t, i, st, Opcode::I64ToDec, seq![d, a, by]) ==> (ok <==> typed(
                st,
                x,
                ValueType::I64,
            ) && goes_on_with(b, t, i, st, dst, RegTypeModel::Plain(ValueType::Decimal)))
            &&& has_before(b, t, i, st, Opcode::U64ToDec, seq![d, a, by]) ==> (ok <==> typed(
                st,
                x,
                ValueType::U64,
            ) && goes_on_with(b, t, i, st, dst, RegTypeModel::Plain(ValueType::Decimal)))
            &&& has_before(b, t, i, st, Opcode::BytesGetImm, seq![d, a, s]) ==> (ok <==> typed(
                st,
                x,
                ValueType::Bytes,
            ) && goes_on_with(b, t, i, st, dst, RegTypeModel::Plain(ValueType::U64)))
            &&& has_before(b, t, i, st, Opcode::BytesSlice, seq![d, a, s, e]) ==> (ok <==> typed(
                st,
                x,
                ValueType::Bytes,
            ) && typed(st, y, ValueType::U64) && typed(st, z, ValueType::U64) && goes_on_with(
                b,
                t,
                i,
                st,
                dst,
                RegTypeModel::Plain(ValueType::Bytes),
            ))
            &&& has_before(b, t, i, st, Opcode::StrSlice, seq![d, a, s, e]) ==> (ok <==> typed(
                st,
                x,
                ValueType::Str,
            ) && typed(st, y, ValueType::U64) && typed(st, z, ValueType::U64) && goes_on_with(
                b,
                t,
                i,
                st,
                dst,
                RegTypeModel::Plain(ValueType::Str),
            ))
        }),
{
    if 0 <= i < b.xs.len() && t.len() == b.xs.len() && t[i] == Some(st) {
        if let Some((tys, ret)) = typing::fixed_sig(b.xs[i].op) {
            if tys.len() == 1 {
                assert(typing::has_all(st, seq![x], tys) <==> typed(st, x, tys[0])) by {
                    let rs = seq![x];
                    assert(rs[0] == x);
                }
            }
            if tys.len() == 3 {
                assert(typing::has_all(st, seq![x, y, z], tys) <==> typed(st, x, tys[0]) && typed(
                    st,
                    y,
                    tys[1],
                ) && typed(st, z, tys[2])) by {
                    let rs = seq![x, y, z];
                    assert(rs[0] == x && rs[1] == y && rs[2] == z);
                }
            }
            let op = b.xs[i].op;
            if (op is I64ToDec || op is U64ToDec || op is BytesGetImm || op is BytesSlice
                || op is StrSlice) && typing::effect(p, b.rets, b.xs[i], st) is Some {
                lemma_one_write(p, b, t, i, st, typing::word(b.xs[i], 0), RegTypeModel::Plain(ret));
            }
        }
    }
}

/// A selection is allowed exactly where the condition is one and both values are of one type. Of
/// two aggregates that differ, all that is known afterwards is that there is one.
pub proof fn law_allowed_select(
    p: ProgramView,
    b: Body,
    t: Typing,
    i: int,
    st: Regs,
    dst: u32,
    c: u32,
    x: u32,
    y: u32,
)
    requires
        has_before(
            b,
            t,
            i,
            st,
            Opcode::Select,
            seq![
                OperandModel::Word(dst),
                OperandModel::Word(c),
                OperandModel::Word(x),
                OperandModel::Word(y),
            ],
        ),
    ensures
        verify::step_ok(p, b, t, i) <==> {
            &&& typed(st, c, ValueType::Bool)
            &&& x < st.len() && st[x as int] is Some
            &&& typed(st, y, kind_of(st[x as int]->0))
            &&& goes_on_with(
                b,
                t,
                i,
                st,
                dst,
                if st[x as int] == st[y as int] {
                    st[x as int]->0
                } else {
                    RegTypeModel::Plain(kind_of(st[x as int]->0))
                },
            )
        },
{
    if typing::effect(p, b.rets, b.xs[i], st) is Some {
        let k = if st[x as int] == st[y as int] {
            st[x as int]->0
        } else {
            RegTypeModel::Plain(kind_of(st[x as int]->0))
        };
        lemma_one_write(p, b, t, i, st, dst, k);
    }
}

/// A constant is allowed everywhere, and gives a value of its type; one of the pool is where the
/// pool has it.
pub proof fn law_allowed_constants(
    p: ProgramView,
    b: Body,
    t: Typing,
    i: int,
    st: Regs,
    dst: u32,
    k: u32,
    m: OperandModel,
    scale: u8,
)
    ensures
        ({
            let ok = verify::step_ok(p, b, t, i);
            let d = OperandModel::Word(dst);
            &&& has_before(b, t, i, st, Opcode::ConstUnit, seq![d]) ==> (ok
                <==> goes_on_with(b, t, i, st, dst, RegTypeModel::Plain(ValueType::Unit)))
            &&& has_before(b, t, i, st, Opcode::ConstBool, seq![d, m]) ==> (ok
                <==> goes_on_with(b, t, i, st, dst, RegTypeModel::Plain(ValueType::Bool)))
            &&& has_before(b, t, i, st, Opcode::ConstI64, seq![d, m]) ==> (ok
                <==> goes_on_with(b, t, i, st, dst, RegTypeModel::Plain(ValueType::I64)))
            &&& has_before(b, t, i, st, Opcode::ConstU64, seq![d, m]) ==> (ok
                <==> goes_on_with(b, t, i, st, dst, RegTypeModel::Plain(ValueType::U64)))
            &&& has_before(b, t, i, st, Opcode::ConstF64, seq![d, m]) ==> (ok
                <==> goes_on_with(b, t, i, st, dst, RegTypeModel::Plain(ValueType::F64)))
            &&& has_before(b, t, i, st, Opcode::ConstDecimal, seq![d, m,
                OperandModel::Byte(scale)]) ==> (ok
                <==> goes_on_with(b, t, i, st, dst, RegTypeModel::Plain(ValueType::Decimal)))
            &&& has_before(b, t, i, st, Opcode::ConstPool, seq![d, OperandModel::Word(k)])
                && k < p.const_pool.len() ==> (ok <==> goes_on_with(
                b,
                t,
                i,
                st,
                dst,
                RegTypeModel::Plain(
                    match p.const_pool[k as int] {
                        ConstEntry::Unit => ValueType::Unit,
                        ConstEntry::Bool(_) => ValueType::Bool,
                        ConstEntry::I64(_) => ValueType::I64,
                        ConstEntry::U64(_) => ValueType::U64,
                        ConstEntry::F64(_) => ValueType::F64,
                        ConstEntry::Decimal { .. } => ValueType::Decimal,
                        ConstEntry::Bytes(_) => ValueType::Bytes,
                        ConstEntry::Str(_) => ValueType::Str,
                    },
                ),
            ))
            &&& has_before(b, t, i, st, Opcode::ConstPool, seq![d, OperandModel::Word(k)])
                && k >= p.const_pool.len() ==> !ok
        }),
{
    if 0 <= i < b.xs.len() && t.len() == b.xs.len() && t[i] == Some(st) {
        let op = b.xs[i].op;
        let e = typing::effect(p, b.rets, b.xs[i], st);
        if (op is ConstUnit || op is ConstBool || op is ConstI64 || op is ConstU64 || op is ConstF64
            || op is ConstDecimal || op is ConstPool) && e is Some {
            let w = e->0;
            assert(w =~= seq![w[0]]);
            lemma_one_write(p, b, t, i, st, w[0].0, w[0].1);
        }
    }
}

// ---------------------------------------------------------------------------------------------
// Aggregates.
// ---------------------------------------------------------------------------------------------

/// The types of the values of registers.
pub open spec fn kinds_in(st: Regs, rs: Seq<u32>) -> Seq<ValueType> {
    Seq::new(rs.len(), |k: int| kind_of(st[rs[k] as int]->0))
}

/// All of the registers have values.
pub open spec fn all_have(st: Regs, rs: Seq<u32>) -> bool {
    forall|k: int| 0 <= k < rs.len() ==> (#[trigger] rs[k]) < st.len() && st[rs[k] as int] is Some
}

proof fn lemma_typed_all(st: Regs, rs: Seq<u32>, tys: Seq<ValueType>)
    ensures
        typing::has_all(st, rs, tys) <==> typed_all(st, rs, tys),
{
    if rs.len() == tys.len() {
        if typing::has_all(st, rs, tys) {
            assert forall|k: int| 0 <= k < rs.len() implies typed(st, #[trigger] rs[k], tys[k]) by {
                assert(typing::has(st, rs[k], tys[k]));
            }
        }
        if typed_all(st, rs, tys) {
            assert forall|k: int| 0 <= k < rs.len() implies typing::has(
                st,
                #[trigger] rs[k],
                tys[k],
            ) by {
                assert(typed(st, rs[k], tys[k]));
            }
        }
    }
}

/// A tuple is made of any values, a struct of values of the types of its fields in order, and an
/// array of values of its element type.
pub proof fn law_allowed_new_aggregate(
    p: ProgramView,
    b: Body,
    t: Typing,
    i: int,
    st: Regs,
    dst: u32,
    id: u32,
    rs: Seq<u32>,
)
    ensures
        ({
            let ok = verify::step_ok(p, b, t, i);
            let d = OperandModel::Word(dst);
            let ty = OperandModel::Word(id);
            let l = OperandModel::List(rs);
            &&& has_before(b, t, i, st, Opcode::TupleNew, seq![d, l]) ==> (ok <==> all_have(st, rs)
                && goes_on_with(b, t, i, st, dst, RegTypeModel::Tuple(kinds_in(st, rs))))
            &&& has_before(b, t, i, st, Opcode::StructNew, seq![d, ty, l]) ==> (ok <==> {
                &&& id < p.types.structs.len()
                &&& in_range(p.types.field_types, p.types.structs[id as int].field_types)
                &&& typed_all(
                    st,
                    rs,
                    part(p.types.field_types, p.types.structs[id as int].field_types),
                )
                &&& goes_on_with(b, t, i, st, dst, RegTypeModel::Struct(TypeId(id)))
            })
            &&& has_before(b, t, i, st, Opcode::ArrayNew, seq![d, ty, l]) ==> (ok <==> {
                &&& id < p.types.array_elems.len()
                &&& forall|k: int|
                    0 <= k < rs.len() ==> typed(
                        st,
                        #[trigger] rs[k],
                        p.types.array_elems[id as int],
                    )
                &&& goes_on_with(b, t, i, st, dst, RegTypeModel::Array(ElemTypeId(id)))
            })
        }),
{
    if has_before(
        b,
        t,
        i,
        st,
        Opcode::TupleNew,
        seq![OperandModel::Word(dst), OperandModel::List(rs)],
    ) {
        if all_have(st, rs) {
            assert forall|k: int| 0 <= k < rs.len() implies typing::reg_type(
                st,
                #[trigger] rs[k],
            ) is Some by {
                assert(rs[k] < st.len());
            }
            assert(typing::types_in(st, rs)->0 =~= kinds_in(st, rs));
            lemma_one_write(p, b, t, i, st, dst, RegTypeModel::Tuple(kinds_in(st, rs)));
        } else {
            let k = choose|k: int|
                0 <= k < rs.len() && !((#[trigger] rs[k]) < st.len() && st[rs[k] as int] is Some);
            assert(typing::reg_type(st, rs[k]) is None);
        }
    }
    if has_before(
        b,
        t,
        i,
        st,
        Opcode::StructNew,
        seq![OperandModel::Word(dst), OperandModel::Word(id), OperandModel::List(rs)],
    ) {
        lemma_typed_all(
            st,
            rs,
            part(p.types.field_types, p.types.structs[id as int].field_types),
        );
        if typing::effect(p, b.rets, b.xs[i], st) is Some {
            lemma_one_write(p, b, t, i, st, dst, RegTypeModel::Struct(TypeId(id)));
        }
    }
    if has_before(
        b,
        t,
        i,
        st,
        Opcode::ArrayNew,
        seq![OperandModel::Word(dst), OperandModel::Word(id), OperandModel::List(rs)],
    ) {
        let e = p.types.array_elems[id as int];
        let tys = Seq::new(rs.len(), |k: int| e);
        lemma_typed_all(st, rs, tys);
        if id < p.types.array_elems.len() {
            assert(typed_all(st, rs, tys) <==> forall|k: int|
                0 <= k < rs.len() ==> typed(st, #[trigger] rs[k], e)) by {
                if typed_all(st, rs, tys) {
                    assert forall|k: int| 0 <= k < rs.len() implies typed(
                        st,
                        #[trigger] rs[k],
                        e,
                    ) by {
                        assert(typed(st, rs[k], tys[k]));
                    }
                }
            }
        }
        if typing::effect(p, b.rets, b.xs[i], st) is Some {
            lemma_one_write(p, b, t, i, st, dst, RegTypeModel::Array(ElemTypeId(id)));
        }
    }
}

/// An element is taken of a tuple, struct or array that is known to be one, and is of the type that
/// the tuple, the struct type or the array type has in its place.
pub proof fn law_allowed_take_element(
    p: ProgramView,
    b: Body,
    t: Typing,
    i: int,
    st: Regs,
    dst: u32,
    x: u32,
    k: u32,
)
    requires
        0 <= i < b.xs.len(),
        b.xs[i].op is TupleGet || b.xs[i].op is StructGet || b.xs[i].op is ArrayGet
            || b.xs[i].op is ArrayGetImm,
        has_before(
            b,
            t,
            i,
            st,
            b.xs[i].op,
            seq![OperandModel::Word(dst), OperandModel::Word(x), OperandModel::Word(k)],
        ),
    ensures
        verify::step_ok(p, b, t, i) <==> x < st.len() && match (b.xs[i].op, st[x as int]) {
            (Opcode::TupleGet, Some(RegTypeModel::Tuple(tys))) => k < tys.len() && goes_on_with(
                b,
                t,
                i,
                st,
                dst,
                RegTypeModel::Plain(tys[k as int]),
            ),
            (Opcode::StructGet, Some(RegTypeModel::Struct(id))) => {
                &&& id.0 < p.types.structs.len()
                &&& in_range(p.types.field_types, p.types.structs[id.0 as int].field_types)
                &&& k < p.types.structs[id.0 as int].field_types.len
                &&& goes_on_with(
                    b,
                    t,
                    i,
                    st,
                    dst,
                    RegTypeModel::Plain(
                        p.types.field_types[p.types.structs[id.0 as int].field_types.offset + k],
                    ),
                )
            },
            (Opcode::ArrayGet, Some(RegTypeModel::Array(id))) => typed(st, k, ValueType::U64)
                && id.0 < p.types.array_elems.len() && goes_on_with(
                b,
                t,
                i,
                st,
                dst,
                RegTypeModel::Plain(p.types.array_elems[id.0 as int]),
            ),
            (Opcode::ArrayGetImm, Some(RegTypeModel::Array(id))) => id.0 < p.types.array_elems.len()
                && goes_on_with(
                b,
                t,
                i,
                st,
                dst,
                RegTypeModel::Plain(p.types.array_elems[id.0 as int]),
            ),
            _ => false,
        },
{
    let e = typing::effect(p, b.rets, b.xs[i], st);
    if e is Some {
        let w = e->0;
        assert(w =~= seq![w[0]]);
        lemma_one_write(p, b, t, i, st, w[0].0, w[0].1);
    }
}

// ---------------------------------------------------------------------------------------------
// Control.
// ---------------------------------------------------------------------------------------------

/// `nop` goes on with what is known. `trap` is allowed everywhere. A return is where the effect
/// token and values of the return types of the function are at hand.
pub proof fn law_allowed_ends(
    p: ProgramView,
    b: Body,
    t: Typing,
    i: int,
    st: Regs,
    code: u32,
    rs: Seq<u32>,
)
    ensures
        has_before(b, t, i, st, Opcode::Nop, seq![]) ==> (verify::step_ok(p, b, t, i) <==> covered(
            t,
            i + 1,
            st,
        )),
        has_before(b, t, i, st, Opcode::Trap, seq![OperandModel::Word(code)]) ==> verify::step_ok(
            p,
            b,
            t,
            i,
        ),
        has_before(
            b,
            t,
            i,
            st,
            Opcode::Ret,
            seq![OperandModel::Word(code), OperandModel::List(rs)],
        ) ==> (verify::step_ok(p, b, t, i) <==> typed(st, code, ValueType::Unit) && typed_all(
            st,
            rs,
            b.rets,
        )),
{
    lemma_typed_all(st, rs, b.rets);
    if 0 <= i < b.xs.len() && t.len() == b.xs.len() && t[i] == Some(st) {
        let op = b.xs[i].op;
        if op is Nop && i + 1 < b.xs.len() {
            let next = seq![i + 1];
            assert(next[0] == i + 1);
            lemma_no_write(p, b, t, i, st, next);
        }
        if (op is Trap || op is Ret) && typing::effect(p, b.rets, b.xs[i], st) is Some {
            lemma_no_write(p, b, t, i, st, seq![]);
        }
    }
}

/// A branch is allowed exactly where its register has a condition and both of its positions are
/// those of instructions that go on with what is known. A jump has one such position.
pub proof fn law_allowed_jumps(
    p: ProgramView,
    b: Body,
    t: Typing,
    i: int,
    st: Regs,
    c: u32,
    pc_true: u32,
    pc_false: u32,
    j: int,
    k: int,
)
    ensures
        ({
            let ok = verify::step_ok(p, b, t, i);
            let at_br = has_before(
                b,
                t,
                i,
                st,
                Opcode::Br,
                seq![
                    OperandModel::Word(c),
                    OperandModel::Word(pc_true),
                    OperandModel::Word(pc_false),
                ],
            );
            let at_jmp = has_before(b, t, i, st, Opcode::Jmp, seq![OperandModel::Word(pc_true)]);
            &&& at_br && starts_at(b.xs, pc_true, j) && starts_at(b.xs, pc_false, k) ==> (ok
                <==> typed(st, c, ValueType::Bool) && covered(t, j, st) && covered(t, k, st))
            &&& at_br && (nothing_at(b.xs, pc_true) || nothing_at(b.xs, pc_false)) ==> !ok
            &&& at_jmp && starts_at(b.xs, pc_true, j) ==> (ok <==> covered(t, j, st))
            &&& at_jmp && nothing_at(b.xs, pc_true) ==> !ok
        }),
{
    law_index_at(b.xs, pc_true, j);
    law_index_at(b.xs, pc_false, k);
    if 0 <= i < b.xs.len() && t.len() == b.xs.len() && t[i] == Some(st) {
        let op = b.xs[i].op;
        if (op is Br || op is Jmp) && typing::effect(p, b.rets, b.xs[i], st) is Some {
            if let Some(next) = verify::successors(b.xs, i) {
                lemma_no_write(p, b, t, i, st, next);
                if op is Br {
                    assert(next[0] == verify::index_at(b.xs, typing::word(b.xs[i], 1))->0);
                    assert(next[1] == verify::index_at(b.xs, typing::word(b.xs[i], 2))->0);
                } else {
                    assert(next[0] == verify::index_at(b.xs, typing::word(b.xs[i], 0))->0);
                }
            }
        }
    }
}

// ---------------------------------------------------------------------------------------------
// Calls.
// ---------------------------------------------------------------------------------------------

/// What is known of registers after values of types went to some of them, one after the other:
/// where a register is named twice, the last type stays.
pub open spec fn retyped(before: Regs, rs: Seq<u32>, tys: Seq<ValueType>, after: Regs) -> bool {
    &&& after.len() == before.len()
    &&& forall|k: int|
        #![trigger rs[k]]
        0 <= k < rs.len() && (forall|j: int| k < j < rs.len() ==> (#[trigger] rs[j]) != rs[k])
            ==> after[rs[k] as int] == Some(RegTypeModel::Plain(tys[k]))
    &&& forall|r: int|
        0 <= r < before.len() && (forall|j: int| 0 <= j < rs.len() ==> (#[trigger] rs[j]) != r)
            ==> #[trigger] after[r] == before[r]
}

proof fn lemma_last_place(rs: Seq<u32>, r: int, k: int)
    requires
        0 <= k < rs.len(),
        rs[k] == r,
    ensures
        exists|l: int|
            #![trigger rs[l]]
            0 <= l < rs.len() && rs[l] == r && forall|j: int|
                l < j < rs.len() ==> (#[trigger] rs[j]) != r,
    decreases rs.len() - k,
{
    if !(forall|j: int| k < j < rs.len() ==> (#[trigger] rs[j]) != r) {
        let j = choose|j: int| k < j < rs.len() && (#[trigger] rs[j]) == r;
        lemma_last_place(rs, r, j);
    }
}

proof fn lemma_retyped_once(
    before: Regs,
    rs: Seq<u32>,
    tys: Seq<ValueType>,
    x: Regs,
    y: Regs,
)
    requires
        retyped(before, rs, tys, x),
        retyped(before, rs, tys, y),
    ensures
        x == y,
{
    assert forall|r: int| 0 <= r < x.len() implies x[r] == y[r] by {
        if forall|j: int| 0 <= j < rs.len() ==> (#[trigger] rs[j]) != r {
            assert(x[r] == before[r] && y[r] == before[r]);
        } else {
            let k = choose|k: int| 0 <= k < rs.len() && (#[trigger] rs[k]) == r;
            lemma_last_place(rs, r, k);
            let l = choose|l: int|
                #![trigger rs[l]]
                0 <= l < rs.len() && rs[l] == r && forall|j: int|
                    l < j < rs.len() ==> (#[trigger] rs[j]) != r;
            assert(x[rs[l] as int] == Some(RegTypeModel::Plain(tys[l])));
            assert(y[rs[l] as int] == Some(RegTypeModel::Plain(tys[l])));
        }
    }
    assert(x =~= y);
}

#[verifier::spinoff_prover]
#[verifier::rlimit(60)]
proof fn lemma_retyped(st: Regs, eff: u32, rs: Seq<u32>, tys: Seq<ValueType>)
    requires
        eff < st.len(),
        rs.len() == tys.len(),
        forall|k: int| 0 <= k < rs.len() ==> (#[trigger] rs[k]) < st.len(),
    ensures
        retyped(
            st.update(eff as int, Some(RegTypeModel::Plain(ValueType::Unit))),
            rs,
            tys,
            typing::after(
                st,
                seq![(eff, RegTypeModel::Plain(ValueType::Unit))] + typing::plain_writes(rs, tys),
            ),
        ),
    decreases rs.len(),
{
    let first: Writes = seq![(eff, RegTypeModel::Plain(ValueType::Unit))];
    let w = first + typing::plain_writes(rs, tys);
    let before = st.update(eff as int, Some(RegTypeModel::Plain(ValueType::Unit)));
    if rs.len() == 0 {
        assert(w =~= first);
        assert(w.drop_last() =~= Seq::empty());
        reveal_with_fuel(typing::after, 3);
    } else {
        let n = rs.len() - 1;
        let fr = rs.drop_last();
        let ft = tys.drop_last();
        assert forall|k: int| 0 <= k < fr.len() implies (#[trigger] fr[k]) < st.len() by {
            assert(rs[k] < st.len());
        }
        lemma_retyped(st, eff, fr, ft);
        assert(w.drop_last() =~= first + typing::plain_writes(fr, ft));
        let mid = typing::after(st, w.drop_last());
        let after = typing::after(st, w);
        assert(w.last() == (rs[n], RegTypeModel::Plain(tys[n])));
        assert(rs[n] < st.len());
        assert(after == mid.update(rs[n] as int, Some(RegTypeModel::Plain(tys[n]))));
        assert forall|k: int|
            #![trigger rs[k]]
            0 <= k < rs.len() && (forall|j: int|
                k < j < rs.len() ==> (#[trigger] rs[j]) != rs[k]) implies after[rs[k] as int]
            == Some(RegTypeModel::Plain(tys[k])) by {
            if k < n {
                assert(fr[k] == rs[k]);
                assert(rs[n] != rs[k]);
                assert forall|j: int| k < j < fr.len() implies (#[trigger] fr[j]) != fr[k] by {
                    assert(rs[j] != rs[k]);
                }
                assert(mid[fr[k] as int] == Some(RegTypeModel::Plain(ft[k])));
            }
        }
        assert forall|r: int|
            0 <= r < before.len() && (forall|j: int|
                0 <= j < rs.len() ==> (#[trigger] rs[j]) != r) implies #[trigger] after[r]
            == before[r] by {
            assert(rs[n] != r);
            assert forall|j: int| 0 <= j < fr.len() implies (#[trigger] fr[j]) != r by {
                assert(rs[j] != r);
            }
            assert(mid[r] == before[r]);
        }
    }
}

/// A call of something with the given argument and return types is allowed where registers are as
/// `st` says: the effect token is at hand, the argument registers have values of the argument
/// types in order, and there is one register of the function for each value that comes back. What
/// is known afterwards is what `after` says.
pub open spec fn call_allowed(
    b: Body,
    t: Typing,
    i: int,
    st: Regs,
    eff_out: u32,
    eff_in: u32,
    args: Seq<u32>,
    rets: Seq<u32>,
    arg_types: Seq<ValueType>,
    ret_types: Seq<ValueType>,
    after: Regs,
) -> bool {
    &&& typed(st, eff_in, ValueType::Unit)
    &&& typed_all(st, args, arg_types)
    &&& rets.len() == ret_types.len()
    &&& eff_out < b.reg_count
    &&& forall|k: int| 0 <= k < rets.len() ==> (#[trigger] rets[k]) < b.reg_count
    &&& covered(t, i + 1, after)
}

proof fn lemma_call(
    p: ProgramView,
    b: Body,
    t: Typing,
    i: int,
    st: Regs,
    eff_out: u32,
    callee: u32,
    eff_in: u32,
    args: Seq<u32>,
    rets: Seq<u32>,
    arg_types: Seq<ValueType>,
    ret_types: Seq<ValueType>,
    after: Regs,
)
    requires
        0 <= i < b.xs.len(),
        t.len() == b.xs.len(),
        t[i] == Some(st),
        st.len() == b.reg_count,
        b.xs[i].operands == call_operands(eff_out, callee, eff_in, args, rets),
        b.xs[i].op is Call || b.xs[i].op is HostCall,
        typing::effect(p, b.rets, b.xs[i], st) == typing::call_effect(
            Some((arg_types, ret_types)),
            b.xs[i],
            st,
        ),
        retyped(
            st.update(eff_out as int, Some(RegTypeModel::Plain(ValueType::Unit))),
            rets,
            ret_types,
            after,
        ),
    ensures
        verify::step_ok(p, b, t, i) <==> call_allowed(
            b,
            t,
            i,
            st,
            eff_out,
            eff_in,
            args,
            rets,
            arg_types,
            ret_types,
            after,
        ),
{
    lemma_typed_all(st, args, arg_types);
    if typing::effect(p, b.rets, b.xs[i], st) is Some {
        let w = seq![(eff_out, RegTypeModel::Plain(ValueType::Unit))] + typing::plain_writes(
            rets,
            ret_types,
        );
        assert(typing::effect(p, b.rets, b.xs[i], st) == Some(w));
        assert(typing::in_bounds(w, b.reg_count) <==> eff_out < b.reg_count && (forall|k: int|
            0 <= k < rets.len() ==> (#[trigger] rets[k]) < b.reg_count)) by {
            if typing::in_bounds(w, b.reg_count) {
                assert(w[0].0 < b.reg_count);
                assert forall|k: int| 0 <= k < rets.len() implies (#[trigger] rets[k])
                    < b.reg_count by {
                    assert(w[k + 1].0 < b.reg_count);
                }
            }
            if eff_out < b.reg_count && (forall|k: int|
                0 <= k < rets.len() ==> (#[trigger] rets[k]) < b.reg_count) {
                assert forall|k: int| 0 <= k < w.len()
                    implies (#[trigger] w[k]).0 < b.reg_count by {
                    if k > 0 {
                        assert(rets[k - 1] < b.reg_count);
                    }
                }
            }
        }
        if i + 1 < b.xs.len() {
            let next = seq![i + 1];
            assert(next[0] == i + 1);
            lemma_step(p, b, t, i, st, w, next);
        }
        if typing::in_bounds(w, b.reg_count) {
            lemma_retyped(st, eff_out, rets, ret_types);
            lemma_retyped_once(
                st.update(eff_out as int, Some(RegTypeModel::Plain(ValueType::Unit))),
                rets,
                ret_types,
                after,
                typing::after(st, w),
            );
        }
    }
}

/// A host call is allowed exactly where the program has its signature with both of its lists of
/// types, the effect token is at hand, the argument registers have values of the argument types of
/// the signature in order, however many there are, and there is a register for each value that
/// comes back. Afterwards the effect register has the effect token, and the return registers have
/// values of the return types.
pub proof fn law_allowed_host_call(
    p: ProgramView,
    b: Body,
    t: Typing,
    i: int,
    st: Regs,
    eff_out: u32,
    sig: u32,
    eff_in: u32,
    args: Seq<u32>,
    rets: Seq<u32>,
    after: Regs,
)
    requires
        has_before(
            b,
            t,
            i,
            st,
            Opcode::HostCall,
            call_operands(eff_out, sig, eff_in, args, rets),
        ),
        st.len() == b.reg_count,
        sig < p.host_sigs.len() ==> retyped(
            st.update(eff_out as int, Some(RegTypeModel::Plain(ValueType::Unit))),
            rets,
            part(p.value_types, p.host_sigs[sig as int].rets),
            after,
        ),
    ensures
        verify::step_ok(p, b, t, i) <==> {
            &&& sig < p.host_sigs.len()
            &&& in_range(p.value_types, p.host_sigs[sig as int].args)
            &&& in_range(p.value_types, p.host_sigs[sig as int].rets)
            &&& call_allowed(
                b,
                t,
                i,
                st,
                eff_out,
                eff_in,
                args,
                rets,
                part(p.value_types, p.host_sigs[sig as int].args),
                part(p.value_types, p.host_sigs[sig as int].rets),
                after,
            )
        },
{
    if sig < p.host_sigs.len() {
        let s = p.host_sigs[sig as int];
        if in_range(p.value_types, s.args) && in_range(p.value_types, s.rets) {
            lemma_call(
                p,
                b,
                t,
                i,
                st,
                eff_out,
                sig,
                eff_in,
                args,
                rets,
                part(p.value_types, s.args),
                part(p.value_types, s.rets),
                after,
            );
        }
    }
}

/// A call is allowed exactly where the program has the function with both of its lists of types,
/// the effect token is at hand, the argument registers have values of the argument types of the
/// function in order, however many there are, and there is a register for each value that comes
/// back. Afterwards the effect register has the effect token, and the return registers have values
/// of the return types.
pub proof fn law_allowed_call(
    p: ProgramView,
    b: Body,
    t: Typing,
    i: int,
    st: Regs,
    eff_out: u32,
    func: u32,
    eff_in: u32,
    args: Seq<u32>,
    rets: Seq<u32>,
    after: Regs,
)
    requires
        has_before(b, t, i, st, Opcode::Call, call_operands(eff_out, func, eff_in, args, rets)),
        st.len() == b.reg_count,
        func < p.functions.len() ==> retyped(
            st.update(eff_out as int, Some(RegTypeModel::Plain(ValueType::Unit))),
            rets,
            part(p.value_types, p.functions[func as int].ret_types),
            after,
        ),
    ensures
        verify::step_ok(p, b, t, i) <==> {
            &&& func < p.functions.len()
            &&& in_range(p.value_types, p.functions[func as int].arg_types)
            &&& in_range(p.value_types, p.functions[func as int].ret_types)
            &&& call_allowed(
                b,
                t,
                i,
                st,
                eff_out,
                eff_in,
                args,
                rets,
                part(p.value_types, p.functions[func as int].arg_types),
                part(p.value_types, p.functions[func as int].ret_types),
                after,
            )
        },
{
    if func < p.functions.len() {
        let f = p.functions[func as int];
        if in_range(p.value_types, f.arg_types) && in_range(p.value_types, f.ret_types) {
            lemma_call(
                p,
                b,
                t,
                i,
                st,
                eff_out,
                func,
                eff_in,
                args,
                rets,
                part(p.value_types, f.arg_types),
                part(p.value_types, f.ret_types),
                after,
            );
        }
    }
}

// ---------------------------------------------------------------------------------------------
// Functions.
// ---------------------------------------------------------------------------------------------

/// What is known of the registers of a function at first: register 0 has the effect token, and the
/// arguments come behind it.
pub open spec fn first_known(args: Seq<ValueType>, n: nat) -> Regs {
    Seq::new(
        n,
        |r: int|
            if r == 0 {
                Some(RegTypeModel::Plain(ValueType::Unit))
            } else if r <= args.len() {
                Some(RegTypeModel::Plain(args[r - 1]))
            } else {
                None
            },
    )
}

/// The typing says something of the first instruction that holds at first, and every instruction of
/// which it says something is allowed.
pub open spec fn types_all(p: ProgramView, b: Body, t: Typing) -> bool {
    &&& t.len() == b.xs.len()
    &&& forall|i: int|
        0 <= i < t.len() && (#[trigger] t[i]) is Some ==> t[i]->0.len() == b.reg_count
    &&& covered(t, 0, first_known(b.args, b.reg_count))
    &&& forall|i: int| 0 <= i < t.len() && t[i] is Some ==> #[trigger] verify::step_ok(p, b, t, i)
}

/// A function can be typed exactly where something can be said of its registers at each instruction
/// that can be reached, such that what is said of the first one holds of the effect token and the
/// arguments, and every instruction of which something is said is allowed.
pub proof fn law_typable(p: ProgramView, b: Body)
    ensures
        verify::typable(p, b) <==> exists|t: Typing| types_all(p, b, t),
{
    let start = first_known(b.args, b.reg_count);
    assert(verify::entry_regs(b.args, b.reg_count) =~= start);
    if verify::typable(p, b) {
        let t = choose|t: Typing| verify::valid_typing(p, b, t);
        lemma_reaches(t, 0, start);
        assert(types_all(p, b, t));
    }
    assert forall|t: Typing| #[trigger] types_all(p, b, t) implies verify::typable(p, b) by {
        lemma_reaches(t, 0, start);
        assert forall|i: int| 0 <= i < t.len() implies #[trigger] verify::step_ok(p, b, t, i) by {
            if t[i] is None {
            }
        }
        assert(verify::valid_typing(p, b, t));
    }
}

/// The type that is known of an element that an instruction takes is that of its place in the tuple,
/// in the struct type or in the array type, and the span of an instruction is that at its position.
pub proof fn law_known_of_instruction(
    p: ProgramView,
    f: Function,
    v: FunctionView,
    t: Typing,
    i: int,
    st: Regs,
    dst: u32,
    x: u32,
    k: u32,
)
    requires
        verify::function_under(p, f, v, t),
        0 <= i < v.xs.len(),
        t[i] == Some(st),
        v.xs[i].operands == seq![
            OperandModel::Word(dst),
            OperandModel::Word(x),
            OperandModel::Word(k),
        ],
        x < st.len(),
    ensures
        v.element_types.len() == v.xs.len(),
        v.spans.len() == v.xs.len(),
        v.spans[i] == verify::span_in(part(p.spans, f.spans), v.xs[i].offset as u32),
        v.reg_count == f.reg_count,
        v.xs[i].op is TupleGet ==> (st[x as int] matches Some(RegTypeModel::Tuple(tys)) && k
            < tys.len() && v.element_types[i] == Some(tys[k as int])),
        v.xs[i].op is StructGet ==> (st[x as int] matches Some(RegTypeModel::Struct(id))
            && v.element_types[i] == Some(
            p.types.field_types[p.types.structs[id.0 as int].field_types.offset + k],
        )),
        v.xs[i].op is ArrayGet || v.xs[i].op is ArrayGetImm ==> (st[x as int] matches Some(
            RegTypeModel::Array(id),
        ) && v.element_types[i] == Some(p.types.array_elems[id.0 as int])),
        !(v.xs[i].op is TupleGet || v.xs[i].op is StructGet || v.xs[i].op is ArrayGet
            || v.xs[i].op is ArrayGetImm) ==> v.element_types[i] is None,
{
    let b = verify::body_of(p, f)->0;
    assert(verify::step_ok(p, b, t, i));
}

} // verus!
