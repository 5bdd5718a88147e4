//! What verification is good for: the machine does not run into what the verifier rules out.

use vstd::prelude::*;

use crate::aggregates;
use crate::aggregates::AggModel;
use crate::bytecode::InstrModel;
use crate::eval;
use crate::limits;
use crate::machine;
use crate::machine::{FrameModel, Limits, Next, Outcome, Reply, State};
use crate::opcode;
use crate::opcode::{Opcode, Shape};
use crate::program;
use crate::program::{Function, ProgramView, ValueType};
use crate::trap::Trap;
use crate::typing;
use crate::typing::{Known, RegTypeModel, Regs, Writes};
use crate::value::{FuncId, ValueModel};
use crate::verify;
use crate::verify::{Body, FunctionView, Typing, VerifiedView};

verus! {

/// Traps that verification rules out: a register, struct type or array element type that is not
/// there, a value of another type than the instruction takes, and a struct with the wrong number of
/// fields.
pub open spec fn ruled_out(t: Trap) -> bool {
    ||| t is RegOutOfBounds
    ||| t is TypeMismatch
    ||| t is TypeIdOutOfBounds
    ||| t is ElemTypeIdOutOfBounds
    ||| t is ArityMismatch
}

/// A value is of the type that is known of its register. Host objects of all types count as one.
pub open spec fn agrees(k: Known, v: ValueModel) -> bool {
    k matches Some(t) ==> machine::same_class(t.ty(), v.ty())
}

/// Registers hold values of the types that are known of them.
pub open spec fn agree_all(st: Regs, regs: Seq<ValueModel>) -> bool {
    &&& st.len() == regs.len()
    &&& forall|r: int| 0 <= r < st.len() ==> agrees(#[trigger] st[r], regs[r])
}

/// Values are of the given types.
pub open spec fn of_types(vs: Seq<ValueModel>, tys: Seq<ValueType>) -> bool {
    &&& vs.len() == tys.len()
    &&& forall|k: int| 0 <= k < vs.len() ==> machine::same_class(tys[k], (#[trigger] vs[k]).ty())
}

proof fn lemma_weaker(a: Regs, b: Regs, regs: Seq<ValueModel>)
    requires
        typing::weaker_all(a, b),
        agree_all(a, regs),
    ensures
        agree_all(b, regs),
{
    assert forall|r: int| 0 <= r < b.len() implies agrees(#[trigger] b[r], regs[r]) by {
        assert(typing::weaker(a[r], b[r]));
        assert(agrees(a[r], regs[r]));
    }
}

proof fn lemma_has(st: Regs, regs: Seq<ValueModel>, r: u32, ty: ValueType)
    requires
        agree_all(st, regs),
        typing::has(st, r, ty),
    ensures
        r < regs.len(),
        machine::same_class(ty, regs[r as int].ty()),
        machine::reg(regs, r) == Ok::<ValueModel, Trap>(regs[r as int]),
{
    assert(agrees(st[r as int], regs[r as int]));
}

proof fn lemma_known(st: Regs, regs: Seq<ValueModel>, r: u32)
    requires
        agree_all(st, regs),
        typing::reg_type(st, r) is Some,
    ensures
        r < regs.len(),
        agrees(typing::reg_type(st, r), regs[r as int]),
        machine::reg(regs, r) == Ok::<ValueModel, Trap>(regs[r as int]),
{
    assert(agrees(st[r as int], regs[r as int]));
}

proof fn lemma_has_all(st: Regs, regs: Seq<ValueModel>, rs: Seq<u32>, tys: Seq<ValueType>)
    requires
        agree_all(st, regs),
        typing::has_all(st, rs, tys),
    ensures
        machine::read_all(regs, rs) is Ok,
        of_types(machine::read_all(regs, rs)->Ok_0, tys),
{
    assert forall|k: int| 0 <= k < rs.len() implies #[trigger] rs[k] < regs.len()
        && machine::same_class(tys[k], regs[rs[k] as int].ty()) by {
        lemma_has(st, regs, rs[k], tys[k]);
    }
}

/// One write.
proof fn lemma_write(st: Regs, regs: Seq<ValueModel>, dst: u32, t: RegTypeModel, v: ValueModel)
    requires
        agree_all(st, regs),
        dst < regs.len(),
        agrees(Some(t), v),
    ensures
        agree_all(typing::after(st, seq![(dst, t)]), regs.update(dst as int, v)),
{
    let w = seq![(dst, t)];
    assert(w.drop_last() =~= Seq::<(u32, RegTypeModel)>::empty());
    reveal_with_fuel(typing::after, 2);
    let now = typing::after(st, w);
    assert(now == st.update(dst as int, Some(t)));
    assert forall|r: int| 0 <= r < now.len() implies agrees(
        #[trigger] now[r],
        regs.update(dst as int, v)[r],
    ) by {
        if r != dst {
            assert(agrees(st[r], regs[r]));
        }
    }
}

/// Writes in a row.
proof fn lemma_write_all(
    st: Regs,
    regs: Seq<ValueModel>,
    rs: Seq<u32>,
    tys: Seq<ValueType>,
    vs: Seq<ValueModel>,
)
    requires
        agree_all(st, regs),
        rs.len() == tys.len(),
        of_types(vs, tys),
        machine::all_regs(regs, rs),
    ensures
        agree_all(
            typing::after(st, typing::plain_writes(rs, tys)),
            machine::write_all(regs, rs, vs),
        ),
    decreases rs.len(),
{
    let w = typing::plain_writes(rs, tys);
    if rs.len() > 0 {
        let rs0 = rs.drop_last();
        let tys0 = tys.drop_last();
        let vs0 = vs.drop_last();
        assert(w.drop_last() =~= typing::plain_writes(rs0, tys0));
        assert(machine::all_regs(regs, rs0)) by {
            assert forall|k: int| 0 <= k < rs0.len() implies #[trigger] rs0[k] < regs.len() by {
                assert(rs[k] < regs.len());
            }
        }
        assert(of_types(vs0, tys0)) by {
            assert forall|k: int| 0 <= k < vs0.len() implies machine::same_class(
                tys0[k],
                (#[trigger] vs0[k]).ty(),
            ) by {
                assert(machine::same_class(tys[k], vs[k].ty()));
            }
        }
        lemma_write_all(st, regs, rs0, tys0, vs0);
        let a = typing::after(st, w.drop_last());
        let b = machine::write_all(regs, rs0, vs0);
        let n = rs.len() - 1;
        assert(rs[n] < regs.len());
        assert(machine::same_class(tys[n], vs[n].ty()));
        let now = typing::after(st, w);
        let regs1 = machine::write_all(regs, rs, vs);
        assert(now == a.update(rs[n] as int, Some(RegTypeModel::Plain(tys[n]))));
        assert(regs1 == b.update(rs[n] as int, vs[n]));
        lemma_write_all_len(regs, rs0, vs0);
        assert forall|r: int| 0 <= r < now.len() implies agrees(#[trigger] now[r], regs1[r]) by {
            if r != rs[n] {
                assert(agrees(a[r], b[r]));
            }
        }
    } else {
        assert(w =~= Seq::<(u32, RegTypeModel)>::empty());
    }
}

proof fn lemma_write_all_len(regs: Seq<ValueModel>, rs: Seq<u32>, vs: Seq<ValueModel>)
    requires
        machine::all_regs(regs, rs),
    ensures
        machine::write_all(regs, rs, vs).len() == regs.len(),
    decreases rs.len(),
{
    if rs.len() > 0 && vs.len() > 0 {
        let rs0 = rs.drop_last();
        assert forall|k: int| 0 <= k < rs0.len() implies #[trigger] rs0[k] < regs.len() by {
            assert(rs[k] < regs.len());
        }
        lemma_write_all_len(regs, rs0, vs.drop_last());
        assert(rs[rs.len() - 1] < regs.len());
    }
}

/// Writes in two parts.
proof fn lemma_after_concat(st: Regs, a: Writes, b: Writes)
    ensures
        typing::after(st, a + b) == typing::after(typing::after(st, a), b),
    decreases b.len(),
{
    if b.len() == 0 {
        assert(a + b =~= a);
    } else {
        assert((a + b).drop_last() =~= a + b.drop_last());
        assert((a + b).last() == b.last());
        lemma_after_concat(st, a, b.drop_last());
    }
}

// ---------------------------------------------------------------------------------------------
// Values.
// ---------------------------------------------------------------------------------------------

/// Opcodes of fixed types take no host objects, so a value that counts as of the type is of it.
proof fn lemma_fixed_exact(op: Opcode, vs: Seq<ValueModel>)
    requires
        typing::fixed_sig(op) is Some,
        of_types(vs, (typing::fixed_sig(op)->0).0),
    ensures
        forall|k: int| 0 <= k < vs.len() ==> (#[trigger] vs[k]).ty() == (typing::fixed_sig(op)->0).0[k],
{
    let tys = (typing::fixed_sig(op)->0).0;
    assert forall|k: int| 0 <= k < vs.len() implies (#[trigger] vs[k]).ty() == tys[k] by {
        assert(machine::same_class(tys[k], vs[k].ty()));
        assert(!(tys[k] is Obj));
    }
}

/// Where the arguments are of the types that an opcode takes, the trap for others is not that of a
/// type.
proof fn lemma_mismatch(op: Opcode, vs: Seq<ValueModel>, k: int)
    requires
        typing::fixed_sig(op) is Some,
        vs.len() == (typing::fixed_sig(op)->0).0.len(),
        forall|k: int| 0 <= k < vs.len() ==> (#[trigger] vs[k]).ty() == (typing::fixed_sig(op)->0).0[k],
        0 <= k <= vs.len(),
    ensures
        !ruled_out(eval::mismatch(op, vs, k)),
    decreases vs.len() - k,
{
    if k < vs.len() {
        lemma_mismatch(op, vs, k + 1);
        assert(vs[k].ty() == (typing::fixed_sig(op)->0).0[k]);
    }
}

/// What is computed is of the type that the opcode gives, and what fails does so for another reason
/// than a type.
spec fn fine(op: Opcode, res: Result<ValueModel, Trap>) -> bool {
    match res {
        Ok(v) => v.ty() == (typing::fixed_sig(op)->0).1,
        Err(t) => !ruled_out(t),
    }
}

proof fn lemma_unary(op: Opcode, a: ValueModel)
    requires
        opcode::opcode_shape(op) is Unary,
        typing::fixed_sig(op) is Some,
        of_types(seq![a], (typing::fixed_sig(op)->0).0),
        eval::float_request(op, seq![a]) is None,
        !(op is TupleLen),
        !(op is StructFieldCount),
        !(op is ArrayLen),
    ensures
        fine(op, eval::unary(op, a)),
{
    let vs = seq![a];
    lemma_fixed_exact(op, vs);
    lemma_mismatch(op, vs, 0);
    assert(vs[0].ty() == (typing::fixed_sig(op)->0).0[0]);
}

proof fn lemma_binary(op: Opcode, a: ValueModel, b: ValueModel)
    requires
        opcode::opcode_shape(op) is Binary,
        typing::fixed_sig(op) is Some,
        of_types(seq![a, b], (typing::fixed_sig(op)->0).0),
        eval::float_request(op, seq![a, b]) is None,
    ensures
        fine(op, eval::binary(op, a, b)),
{
    let vs = seq![a, b];
    lemma_fixed_exact(op, vs);
    lemma_mismatch(op, vs, 0);
    assert(vs[0].ty() == (typing::fixed_sig(op)->0).0[0]);
    assert(vs[1].ty() == (typing::fixed_sig(op)->0).0[1]);
}

proof fn lemma_scaled(op: Opcode, a: ValueModel, scale: u8)
    requires
        opcode::opcode_shape(op) is ToDec,
        typing::fixed_sig(op) is Some,
        of_types(seq![a], (typing::fixed_sig(op)->0).0),
    ensures
        fine(op, eval::scaled(op, a, scale)),
{
    let vs = seq![a];
    lemma_fixed_exact(op, vs);
    lemma_mismatch(op, vs, 0);
    assert(vs[0].ty() == (typing::fixed_sig(op)->0).0[0]);
}

proof fn lemma_sliced(op: Opcode, a: ValueModel, s: ValueModel, e: ValueModel)
    requires
        opcode::opcode_shape(op) is Slice,
        typing::fixed_sig(op) is Some,
        of_types(seq![a, s, e], (typing::fixed_sig(op)->0).0),
    ensures
        fine(op, eval::sliced(op, a, s, e)),
{
    let vs = seq![a, s, e];
    lemma_fixed_exact(op, vs);
    lemma_mismatch(op, vs, 0);
    assert(vs[0].ty() == (typing::fixed_sig(op)->0).0[0]);
    assert(vs[1].ty() == (typing::fixed_sig(op)->0).0[1]);
    assert(vs[2].ty() == (typing::fixed_sig(op)->0).0[2]);
}

// ---------------------------------------------------------------------------------------------
// Instructions.
// ---------------------------------------------------------------------------------------------

/// What an instruction does fits what the verifier says of it.
spec fn fits(p: ProgramView, b: Body, i: int, st: Regs, o: Outcome) -> bool {
    let x = b.xs[i];
    let w = typing::effect(p, b.rets, x, st)->0;
    let next = verify::successors(b.xs, i)->0;
    match o {
        Outcome::Skip => w.len() == 0 && next == seq![i + 1],
        Outcome::Write { dst, value } => w.len() == 1 && w[0].0 == dst && agrees(Some(w[0].1), value)
            && next == seq![i + 1],
        Outcome::Float { dst, .. } => w.len() == 1 && w[0].0 == dst && w[0].1.ty() is F64 && next
            == seq![i + 1],
        Outcome::Build { dst, .. } => w.len() == 1 && w[0].0 == dst && w[0].1.ty() is Agg && next
            == seq![i + 1],
        Outcome::Goto { ix } => w.len() == 0 && next.contains(ix),
        Outcome::Call { func, eff, args } => {
            &&& x.op is Call
            &&& func.0 == typing::word(x, 1)
            &&& eff == typing::word(x, 0)
            &&& typing::function_sig(p, func.0) is Some
            &&& of_types(args, (typing::function_sig(p, func.0)->0).0)
            &&& next == seq![i + 1]
        },
        Outcome::Return { values } => of_types(values, b.rets),
        Outcome::Host { eff, rets, request } => {
            &&& x.op is HostCall
            &&& eff == typing::word(x, 0)
            &&& rets == typing::list(x, 4)
            &&& typing::host_call_sig(p, typing::word(x, 1)) is Some
            &&& request.ret_types == (typing::host_call_sig(p, typing::word(x, 1))->0).1
            &&& next == seq![i + 1]
        },
        Outcome::Fail { trap } => !ruled_out(trap),
    }
}

/// Control goes on at the next instruction, unless the instruction branches, jumps, returns or
/// traps.
proof fn lemma_next(xs: Seq<InstrModel>, i: int)
    requires
        verify::successors(xs, i) is Some,
        !(opcode::opcode_shape(xs[i].op) is Br),
        !(opcode::opcode_shape(xs[i].op) is Jmp),
        !(opcode::opcode_shape(xs[i].op) is Ret),
        !(opcode::opcode_shape(xs[i].op) is Trap),
    ensures
        verify::successors(xs, i)->0 == seq![i + 1],
{
}

/// An instruction of fixed types reads values of those types.
proof fn lemma_sources(st: Regs, regs: Seq<ValueModel>, srcs: Seq<u32>, tys: Seq<ValueType>)
    requires
        agree_all(st, regs),
        typing::has_all(st, srcs, tys),
    ensures
        forall|k: int|
            0 <= k < srcs.len() ==> machine::reg(regs, #[trigger] srcs[k]) == Ok::<ValueModel, Trap>(
                regs[srcs[k] as int],
            ),
        of_types(Seq::new(srcs.len(), |k: int| regs[srcs[k] as int]), tys),
{
    let vs = Seq::new(srcs.len(), |k: int| regs[srcs[k] as int]);
    assert forall|k: int| 0 <= k < srcs.len() implies machine::reg(regs, #[trigger] srcs[k])
        == Ok::<ValueModel, Trap>(regs[srcs[k] as int]) && machine::same_class(tys[k], vs[k].ty()) by {
        lemma_has(st, regs, srcs[k], tys[k]);
    }
    assert forall|k: int| 0 <= k < vs.len() implies machine::same_class(
        tys[k],
        (#[trigger] vs[k]).ty(),
    ) by {
        assert(machine::reg(regs, srcs[k]) is Ok);
    }
}

proof fn lemma_decide_unary(
    p: ProgramView,
    b: Body,
    i: int,
    st: Regs,
    regs: Seq<ValueModel>,
    heap: Seq<AggModel>,
)
    requires
        opcode::opcode_shape(b.xs[i].op) is Unary,
        agree_all(st, regs),
        typing::effect(p, b.rets, b.xs[i], st) is Some,
        verify::successors(b.xs, i) is Some,
    ensures
        machine::reg(regs, typing::word(b.xs[i], 1)) is Ok,
        fits(
            p,
            b,
            i,
            st,
            machine::decide_unary(
                heap,
                b.xs[i].op,
                typing::word(b.xs[i], 0),
                machine::reg(regs, typing::word(b.xs[i], 1))->Ok_0,
            ),
        ),
{
    let x = b.xs[i];
    lemma_next(b.xs, i);
    if x.op is Mov {
        lemma_known(st, regs, typing::word(x, 1));
    } else {
        let srcs = seq![typing::word(x, 1)];
        let tys = (typing::fixed_sig(x.op)->0).0;
        lemma_sources(st, regs, srcs, tys);
        let vs = Seq::new(srcs.len(), |k: int| regs[srcs[k] as int]);
        let a = regs[typing::word(x, 1) as int];
        assert(machine::reg(regs, srcs[0]) is Ok);
        assert(vs =~= seq![a]);
        lemma_fixed_exact(x.op, seq![a]);
        assert(seq![a][0].ty() == tys[0]);
        if !(x.op is TupleLen) && !(x.op is StructFieldCount) && !(x.op is ArrayLen)
            && eval::float_request(x.op, seq![a]) is None {
            lemma_unary(x.op, a);
        }
    }
}

proof fn lemma_decide_binary(
    p: ProgramView,
    b: Body,
    i: int,
    st: Regs,
    regs: Seq<ValueModel>,
    heap: Seq<AggModel>,
    known: Option<ValueType>,
)
    requires
        opcode::opcode_shape(b.xs[i].op) is Binary,
        agree_all(st, regs),
        typing::effect(p, b.rets, b.xs[i], st) is Some,
        verify::successors(b.xs, i) is Some,
        b.xs[i].op is ArrayGet ==> known == Some(typing::effect(p, b.rets, b.xs[i], st)->0[0].1.ty()),
    ensures
        machine::reg(regs, typing::word(b.xs[i], 1)) is Ok,
        machine::reg(regs, typing::word(b.xs[i], 2)) is Ok,
        fits(
            p,
            b,
            i,
            st,
            machine::decide_binary(
                heap,
                known,
                b.xs[i].op,
                typing::word(b.xs[i], 0),
                machine::reg(regs, typing::word(b.xs[i], 1))->Ok_0,
                machine::reg(regs, typing::word(b.xs[i], 2))->Ok_0,
            ),
        ),
{
    let x = b.xs[i];
    lemma_next(b.xs, i);
    if x.op is ArrayGet {
        lemma_known(st, regs, typing::word(x, 1));
        lemma_has(st, regs, typing::word(x, 2), ValueType::U64);
    } else {
        let srcs = seq![typing::word(x, 1), typing::word(x, 2)];
        let tys = (typing::fixed_sig(x.op)->0).0;
        lemma_sources(st, regs, srcs, tys);
        let vs = Seq::new(srcs.len(), |k: int| regs[srcs[k] as int]);
        let a = regs[typing::word(x, 1) as int];
        let c = regs[typing::word(x, 2) as int];
        assert(machine::reg(regs, srcs[0]) is Ok);
        assert(machine::reg(regs, srcs[1]) is Ok);
        assert(vs =~= seq![a, c]);
        if eval::float_request(x.op, seq![a, c]) is None {
            lemma_binary(x.op, a, c);
        }
    }
}

proof fn lemma_decide_index(
    p: ProgramView,
    b: Body,
    i: int,
    st: Regs,
    regs: Seq<ValueModel>,
    heap: Seq<AggModel>,
    known: Option<ValueType>,
)
    requires
        opcode::opcode_shape(b.xs[i].op) is IndexGet || opcode::opcode_shape(b.xs[i].op) is FieldGet,
        agree_all(st, regs),
        typing::effect(p, b.rets, b.xs[i], st) is Some,
        verify::successors(b.xs, i) is Some,
        verify::takes_element(b.xs[i].op) ==> known == Some(
            typing::effect(p, b.rets, b.xs[i], st)->0[0].1.ty(),
        ),
    ensures
        machine::reg(regs, typing::word(b.xs[i], 1)) is Ok,
        fits(
            p,
            b,
            i,
            st,
            machine::decide_index(
                heap,
                known,
                b.xs[i].op,
                typing::word(b.xs[i], 0),
                machine::reg(regs, typing::word(b.xs[i], 1))->Ok_0,
                typing::word(b.xs[i], 2),
            ),
        ),
{
    let x = b.xs[i];
    lemma_next(b.xs, i);
    if x.op is BytesGetImm {
        let srcs = seq![typing::word(x, 1)];
        let tys = (typing::fixed_sig(x.op)->0).0;
        lemma_sources(st, regs, srcs, tys);
        let vs = Seq::new(srcs.len(), |k: int| regs[srcs[k] as int]);
        let a = regs[typing::word(x, 1) as int];
        assert(machine::reg(regs, srcs[0]) is Ok);
        assert(vs =~= seq![a]);
        lemma_fixed_exact(x.op, seq![a]);
        assert(seq![a][0].ty() == tys[0]);
    } else {
        lemma_known(st, regs, typing::word(x, 1));
    }
}

/// What an instruction of a verified function does fits what the verifier says of it.
proof fn lemma_decide(
    vp: VerifiedView,
    lim: Limits,
    f: Function,
    v: FunctionView,
    t: Typing,
    i: int,
    regs: Seq<ValueModel>,
    heap: Seq<AggModel>,
    depth: nat,
    calls: u64,
)
    requires
        vp.wf(),
        verify::function_under(vp.program, f, v, t),
        0 <= i < v.xs.len(),
        t[i] is Some,
        agree_all(t[i]->0, regs),
    ensures
        fits(
            vp.program,
            verify::body_of(vp.program, f)->0,
            i,
            t[i]->0,
            machine::decide(vp, lim, v, i, regs, heap, depth, calls),
        ),
{
    let p = vp.program;
    let b = verify::body_of(p, f)->0;
    let st = t[i]->0;
    let x = b.xs[i];
    assert(verify::step_ok(p, b, t, i));
    assert(v.element_types[i] == verify::element_dst(p, b, t, i));
    match opcode::opcode_shape(x.op) {
        Shape::Unary => {
            lemma_decide_unary(p, b, i, st, regs, heap);
        },
        Shape::Binary => {
            lemma_decide_binary(p, b, i, st, regs, heap, v.element_types[i]);
        },
        Shape::IndexGet | Shape::FieldGet => {
            lemma_decide_index(p, b, i, st, regs, heap, v.element_types[i]);
        },
        Shape::ToDec => {
            lemma_next(b.xs, i);
            let srcs = seq![typing::word(x, 1)];
            lemma_sources(st, regs, srcs, (typing::fixed_sig(x.op)->0).0);
            let a = regs[typing::word(x, 1) as int];
            assert(machine::reg(regs, srcs[0]) is Ok);
            assert(Seq::new(srcs.len(), |k: int| regs[srcs[k] as int]) =~= seq![a]);
            lemma_scaled(x.op, a, x.operands[2]->Byte_0);
        },
        Shape::Slice => {
            lemma_next(b.xs, i);
            let srcs = seq![typing::word(x, 1), typing::word(x, 2), typing::word(x, 3)];
            lemma_sources(st, regs, srcs, (typing::fixed_sig(x.op)->0).0);
            let a = regs[typing::word(x, 1) as int];
            let s = regs[typing::word(x, 2) as int];
            let e = regs[typing::word(x, 3) as int];
            assert(machine::reg(regs, srcs[0]) is Ok);
            assert(machine::reg(regs, srcs[1]) is Ok);
            assert(machine::reg(regs, srcs[2]) is Ok);
            assert(Seq::new(srcs.len(), |k: int| regs[srcs[k] as int]) =~= seq![a, s, e]);
            lemma_sliced(x.op, a, s, e);
        },
        Shape::Select => {
            lemma_next(b.xs, i);
            lemma_has(st, regs, typing::word(x, 1), ValueType::Bool);
            lemma_known(st, regs, typing::word(x, 2));
            lemma_known(st, regs, typing::word(x, 3));
        },
        Shape::Br => {
            lemma_has(st, regs, typing::word(x, 0), ValueType::Bool);
            let next = verify::successors(b.xs, i)->0;
            assert(next[0] == verify::index_at(b.xs, typing::word(x, 1))->0);
            assert(next[1] == verify::index_at(b.xs, typing::word(x, 2))->0);
        },
        Shape::Jmp => {
            let next = verify::successors(b.xs, i)->0;
            assert(next[0] == verify::index_at(b.xs, typing::word(x, 0))->0);
        },
        Shape::Call => {
            lemma_next(b.xs, i);
            let func = typing::word(x, 1);
            let sig = typing::function_sig(p, func)->0;
            lemma_has_all(st, regs, typing::list(x, 3), sig.0);
            let callee = vp.functions[func as int];
            assert(verify::function_ok(p, p.functions[func as int], callee));
            let u = choose|u: Typing|
                verify::function_under(p, p.functions[func as int], callee, u);
            assert(verify::body_of(p, p.functions[func as int])->0.args == sig.0);
        },
        Shape::HostCall => {
            lemma_next(b.xs, i);
            let sig = typing::host_call_sig(p, typing::word(x, 1))->0;
            lemma_has_all(st, regs, typing::list(x, 3), sig.0);
        },
        Shape::Ret => {
            lemma_has_all(st, regs, typing::list(x, 1), b.rets);
        },
        Shape::TupleNew => {
            lemma_next(b.xs, i);
            let rs = typing::list(x, 1);
            assert forall|k: int| 0 <= k < rs.len() implies #[trigger] rs[k] < regs.len() by {
                assert(typing::reg_type(st, rs[k]) is Some);
                lemma_known(st, regs, rs[k]);
            }
        },
        Shape::StructNew => {
            lemma_next(b.xs, i);
            lemma_has_all(
                st,
                regs,
                typing::list(x, 2),
                typing::struct_sig(p, typing::word(x, 1))->0,
            );
        },
        Shape::ArrayNew => {
            lemma_next(b.xs, i);
            let ty = typing::elem_sig(p, typing::word(x, 1))->0;
            lemma_has_all(
                st,
                regs,
                typing::list(x, 2),
                Seq::new(typing::list(x, 2).len(), |k: int| ty),
            );
        },
        Shape::Trap => {},
        _ => {
            lemma_next(b.xs, i);
        },
    }
}

// ---------------------------------------------------------------------------------------------
// Frames.
// ---------------------------------------------------------------------------------------------

/// A frame belongs to a function that is typed by `t`.
pub open spec fn typed_by(vp: VerifiedView, f: FrameModel, t: Typing) -> bool {
    f.func.0 < vp.functions.len() && verify::function_under(
        vp.program,
        vp.program.functions[f.func.0 as int],
        vp.functions[f.func.0 as int],
        t,
    )
}

/// The running frame stands at an instruction, with registers as the typing `t` says.
pub open spec fn runs_under(vp: VerifiedView, f: FrameModel, t: Typing) -> bool {
    &&& typed_by(vp, f, t)
    &&& 0 <= f.ix < t.len()
    &&& t[f.ix] is Some
    &&& agree_all(t[f.ix]->0, f.regs)
}

/// The running frame is as the verifier says.
pub open spec fn runs(vp: VerifiedView, f: FrameModel) -> bool {
    exists|t: Typing| runs_under(vp, f, t)
}

/// A frame waits for the function `callee` behind a call of it, with registers as the typing `t` says
/// of the call, and the effect token written.
pub open spec fn waits_under(vp: VerifiedView, f: FrameModel, callee: FuncId, t: Typing) -> bool {
    let v = vp.functions[f.func.0 as int];
    let x = v.xs[f.ix - 1];
    &&& typed_by(vp, f, t)
    &&& 1 <= f.ix <= t.len()
    &&& x.op is Call
    &&& typing::word(x, 1) == callee.0
    &&& t[f.ix - 1] is Some
    &&& agree_all(
        typing::after(
            t[f.ix - 1]->0,
            seq![(typing::word(x, 0), RegTypeModel::Plain(ValueType::Unit))],
        ),
        f.regs,
    )
}

/// A waiting frame is as the verifier says.
pub open spec fn waits(vp: VerifiedView, f: FrameModel, callee: FuncId) -> bool {
    exists|t: Typing| waits_under(vp, f, callee, t)
}

/// Every frame is as the verifier says.
pub open spec fn sound(vp: VerifiedView, frames: Seq<FrameModel>) -> bool {
    &&& frames.len() > 0
    &&& runs(vp, frames.last())
    &&& forall|k: int|
        0 <= k < frames.len() - 1 ==> waits(vp, #[trigger] frames[k], frames[k + 1].func)
}

/// Frames stay sound where the running one is replaced by another of the same function.
proof fn lemma_replace(vp: VerifiedView, frames: Seq<FrameModel>, f: FrameModel)
    requires
        sound(vp, frames),
        f.func == frames.last().func,
        runs(vp, f),
    ensures
        sound(vp, frames.drop_last().push(f)),
{
    let now = frames.drop_last().push(f);
    assert forall|k: int| 0 <= k < now.len() - 1 implies waits(
        vp,
        #[trigger] now[k],
        now[k + 1].func,
    ) by {
        assert(waits(vp, frames[k], frames[k + 1].func));
    }
}

/// Where an instruction may be followed by another, registers that are as it leaves them are as the
/// typing says of the other.
proof fn lemma_go(vp: VerifiedView, f: FrameModel, t: Typing, i: int, g: FrameModel)
    requires
        typed_by(vp, f, t),
        g.func == f.func,
        0 <= i < t.len(),
        t[i] is Some,
        ({
            let b = verify::body_of(vp.program, vp.program.functions[f.func.0 as int])->0;
            &&& verify::successors(b.xs, i)->0.contains(g.ix)
            &&& agree_all(
                typing::after(t[i]->0, typing::effect(vp.program, b.rets, b.xs[i], t[i]->0)->0),
                g.regs,
            )
        }),
    ensures
        runs(vp, g),
{
    let p = vp.program;
    let b = verify::body_of(p, p.functions[f.func.0 as int])->0;
    assert(verify::step_ok(p, b, t, i));
    let st = t[i]->0;
    let w = typing::effect(p, b.rets, b.xs[i], st)->0;
    let next = verify::successors(b.xs, i)->0;
    let k = choose|k: int| 0 <= k < next.len() && next[k] == g.ix;
    assert(verify::reaches(t, next[k], typing::after(st, w)));
    lemma_weaker(typing::after(st, w), t[g.ix]->0, g.regs);
    assert(runs_under(vp, g, t));
}

/// A value of the right type goes to a register.
proof fn lemma_stored(vp: VerifiedView, st: State, t: Typing, dst: u32, value: ValueModel)
    requires
        sound(vp, st.frames),
        runs_under(vp, st.top(), t),
        ({
            let p = vp.program;
            let top = st.top();
            let b = verify::body_of(p, p.functions[top.func.0 as int])->0;
            let w = typing::effect(p, b.rets, b.xs[top.ix], t[top.ix]->0)->0;
            &&& w.len() == 1
            &&& w[0].0 == dst
            &&& agrees(Some(w[0].1), value)
            &&& verify::successors(b.xs, top.ix)->0 == seq![top.ix + 1]
        }),
    ensures
        dst < st.top().regs.len(),
        sound(vp, st.with_top(st.top().wrote(dst, value)).frames),
{
    let p = vp.program;
    let top = st.top();
    let b = verify::body_of(p, p.functions[top.func.0 as int])->0;
    assert(verify::step_ok(p, b, t, top.ix));
    let w = typing::effect(p, b.rets, b.xs[top.ix], t[top.ix]->0)->0;
    assert(w[0].0 < b.reg_count);
    assert(w =~= seq![(dst, w[0].1)]);
    lemma_write(t[top.ix]->0, top.regs, dst, w[0].1, value);
    let g = top.wrote(dst, value);
    assert(seq![top.ix + 1][0] == g.ix);
    lemma_go(vp, top, t, top.ix, g);
    lemma_replace(vp, st.frames, g);
}

/// A function is entered with arguments of its types.
proof fn lemma_entered(vp: VerifiedView, func: FuncId, args: Seq<ValueModel>)
    requires
        vp.wf(),
        func.0 < vp.functions.len(),
        typing::function_sig(vp.program, func.0) is Some,
        of_types(args, (typing::function_sig(vp.program, func.0)->0).0),
    ensures
        runs(
            vp,
            (FrameModel {
                func,
                ix: 0,
                regs: machine::fresh_regs(vp.functions[func.0 as int].reg_count, args),
            }),
        ),
{
    let p = vp.program;
    let v = vp.functions[func.0 as int];
    let f = p.functions[func.0 as int];
    assert(verify::function_ok(p, f, v));
    let t = choose|t: Typing| verify::function_under(p, f, v, t);
    let b = verify::body_of(p, f)->0;
    let regs = machine::fresh_regs(v.reg_count, args);
    let entry = verify::entry_regs(b.args, b.reg_count);
    assert(agree_all(entry, regs)) by {
        assert forall|r: int| 0 <= r < entry.len() implies agrees(#[trigger] entry[r], regs[r]) by {
            if 0 < r <= args.len() {
                assert(machine::same_class(b.args[r - 1], args[r - 1].ty()));
            }
        }
    }
    lemma_weaker(entry, t[0]->0, regs);
    assert(runs_under(vp, FrameModel { func, ix: 0, regs }, t));
}

/// A call of a function leaves every frame as the verifier says.
proof fn lemma_called(
    vp: VerifiedView,
    st: State,
    t: Typing,
    func: FuncId,
    eff: u32,
    args: Seq<ValueModel>,
)
    requires
        vp.wf(),
        sound(vp, st.frames),
        runs_under(vp, st.top(), t),
        ({
            let b = verify::body_of(
                vp.program,
                vp.program.functions[st.top().func.0 as int],
            )->0;
            fits(
                vp.program,
                b,
                st.top().ix,
                t[st.top().ix]->0,
                Outcome::Call { func, eff, args },
            )
        }),
    ensures
        machine::enter(
            vp,
            vp.functions[st.top().func.0 as int],
            st,
            func,
            eff,
            args,
        ) matches Next::Running(s) && sound(vp, s.frames),
{
    let p = vp.program;
    let top = st.top();
    let b = verify::body_of(p, p.functions[top.func.0 as int])->0;
    let x = b.xs[top.ix];
    assert(verify::step_ok(p, b, t, top.ix));
    let w = typing::effect(p, b.rets, x, t[top.ix]->0)->0;
    assert(w[0].0 == eff);
    assert(eff < b.reg_count);
    let unit = RegTypeModel::Plain(ValueType::Unit);
    lemma_write(t[top.ix]->0, top.regs, eff, unit, ValueModel::Unit);
    let caller = top.wrote(eff, ValueModel::Unit);
    assert(waits_under(vp, caller, func, t));
    let callee = FrameModel {
        func,
        ix: 0,
        regs: machine::fresh_regs(vp.functions[func.0 as int].reg_count, args),
    };
    lemma_entered(vp, func, args);
    let now = st.frames.drop_last().push(caller).push(callee);
    assert forall|k: int| 0 <= k < now.len() - 1 implies waits(
        vp,
        #[trigger] now[k],
        now[k + 1].func,
    ) by {
        if k < st.frames.len() - 1 {
            assert(waits(vp, st.frames[k], st.frames[k + 1].func));
        }
    }
}

/// A return of values of the right types leaves every frame as the verifier says.
proof fn lemma_left(vp: VerifiedView, st: State, t: Typing, values: Seq<ValueModel>)
    requires
        vp.wf(),
        sound(vp, st.frames),
        runs_under(vp, st.top(), t),
        of_types(
            values,
            verify::body_of(vp.program, vp.program.functions[st.top().func.0 as int])->0.rets,
        ),
    ensures
        match machine::leave(vp, vp.functions[st.top().func.0 as int], st, values) {
            Next::Running(s) => sound(vp, s.frames) && s.frames[0].func == st.frames[0].func,
            Next::Done(res, _) => st.frames.len() == 1 && res is Ok && res->Ok_0 == values,
        },
{
    let p = vp.program;
    if st.frames.len() > 1 {
        let below = st.frames.drop_last();
        let caller = below.last();
        let callee = st.top().func;
        assert(below.last() == st.frames[st.frames.len() - 2]);
        assert(waits(vp, st.frames[st.frames.len() - 2], callee));
        let u = choose|u: Typing| waits_under(vp, caller, callee, u);
        let b = verify::body_of(p, p.functions[caller.func.0 as int])->0;
        let i = caller.ix - 1;
        let x = b.xs[i];
        assert(verify::step_ok(p, b, u, i));
        let w = typing::effect(p, b.rets, x, u[i]->0)->0;
        let sig = typing::function_sig(p, typing::word(x, 1))->0;
        let rs = typing::list(x, 4);
        let head = seq![(typing::word(x, 0), RegTypeModel::Plain(ValueType::Unit))];
        let tail = typing::plain_writes(rs, sig.1);
        assert(opcode::opcode_shape(x.op) is Call);
        assert(w == head + tail);
        assert(verify::body_of(p, p.functions[callee.0 as int])->0.rets == sig.1);
        let mid = typing::after(u[i]->0, head);
        assert(mid.len() == caller.regs.len());
        assert(u[i]->0.len() == b.reg_count);
        assert(w[0] == head[0]);
        assert(w[0].0 < b.reg_count);
        typing::lemma_after_len(u[i]->0, head);
        assert(machine::all_regs(caller.regs, rs)) by {
            assert forall|k: int| 0 <= k < rs.len() implies #[trigger] rs[k] < caller.regs.len() by {
                assert(w[k + 1] == tail[k]);
                assert(w[k + 1].0 < b.reg_count);
            }
        }
        lemma_write_all(mid, caller.regs, rs, sig.1, values);
        lemma_after_concat(u[i]->0, head, tail);
        let g = FrameModel { regs: machine::write_all(caller.regs, rs, values), ..caller };
        lemma_next(b.xs, i);
        assert(seq![i + 1][0] == g.ix);
        lemma_go(vp, caller, u, i, g);
        let now = below.drop_last().push(g);
        assert forall|k: int| 0 <= k < now.len() - 1 implies waits(
            vp,
            #[trigger] now[k],
            now[k + 1].func,
        ) by {
            assert(waits(vp, st.frames[k], st.frames[k + 1].func));
        }
        assert(machine::return_regs(vp, caller) == Some(rs));
    }
}

/// Values that pass the check of types are of the types.
proof fn lemma_right_types(vs: Seq<ValueModel>, tys: Seq<ValueType>, k: int)
    requires
        vs.len() == tys.len(),
        0 <= k <= vs.len(),
        machine::wrong_type(vs, tys, k) is None,
    ensures
        forall|j: int| k <= j < vs.len() ==> (#[trigger] vs[j]).ty() == tys[j],
    decreases vs.len() - k,
{
    if k < vs.len() {
        lemma_right_types(vs, tys, k + 1);
    }
}

/// A value that fails the check of types is of another type.
proof fn lemma_wrong_type(vs: Seq<ValueModel>, tys: Seq<ValueType>, k: int)
    ensures
        machine::wrong_type(vs, tys, k) matches Some(t) ==> t is TypeMismatch,
    decreases vs.len() - k,
{
    if 0 <= k < vs.len() && k < tys.len() {
        lemma_wrong_type(vs, tys, k + 1);
    }
}

/// A reply of the host leaves every frame as the verifier says, or the run ends: for a reason that
/// is not ruled out, or because a value of the reply is of another type.
proof fn lemma_replied(
    vp: VerifiedView,
    st: State,
    t: Typing,
    eff: u32,
    rets: Seq<u32>,
    request: machine::HostRequest,
    reply: Reply,
)
    requires
        vp.wf(),
        sound(vp, st.frames),
        runs_under(vp, st.top(), t),
        ({
            let b = verify::body_of(
                vp.program,
                vp.program.functions[st.top().func.0 as int],
            )->0;
            fits(
                vp.program,
                b,
                st.top().ix,
                t[st.top().ix]->0,
                Outcome::Host { eff, rets, request },
            )
        }),
    ensures
        match machine::replied(
            vp.functions[st.top().func.0 as int],
            st,
            eff,
            rets,
            request.ret_types,
            reply.host,
        ) {
            Next::Running(s) => sound(vp, s.frames) && s.frames[0].func == st.frames[0].func,
            Next::Done(res, _) => res is Err && (!ruled_out(res->Err_0.trap)
                || res->Err_0.trap is TypeMismatch),
        },
{
    let p = vp.program;
    let top = st.top();
    let b = verify::body_of(p, p.functions[top.func.0 as int])->0;
    let x = b.xs[top.ix];
    assert(verify::step_ok(p, b, t, top.ix));
    let w = typing::effect(p, b.rets, x, t[top.ix]->0)->0;
    let sig = typing::host_call_sig(p, typing::word(x, 1))->0;
    let head = seq![(eff, RegTypeModel::Plain(ValueType::Unit))];
    let tail = typing::plain_writes(rets, sig.1);
    assert(opcode::opcode_shape(x.op) is HostCall);
    assert(w == head + tail);
    assert(w[0] == head[0]);
    assert(w[0].0 < b.reg_count);
    assert(machine::all_regs(top.regs, rets)) by {
        assert forall|k: int| 0 <= k < rets.len() implies #[trigger] rets[k] < top.regs.len() by {
            assert(w[k + 1] == tail[k]);
            assert(w[k + 1].0 < b.reg_count);
        }
    }
    match reply.host {
        Ok((vals, extra)) => {
            lemma_wrong_type(vals, request.ret_types, 0);
            if vals.len() == request.ret_types.len() && vals.len() == rets.len()
                && machine::wrong_type(vals, request.ret_types, 0) is None {
                lemma_right_types(vals, sig.1, 0);
                assert(of_types(vals, sig.1));
                lemma_write(
                    t[top.ix]->0,
                    top.regs,
                    eff,
                    RegTypeModel::Plain(ValueType::Unit),
                    ValueModel::Unit,
                );
                let f = top.wrote(eff, ValueModel::Unit);
                let mid = typing::after(t[top.ix]->0, head);
                lemma_write_all(mid, f.regs, rets, sig.1, vals);
                lemma_after_concat(t[top.ix]->0, head, tail);
                let g = FrameModel { regs: machine::write_all(f.regs, rets, vals), ..f };
                assert(seq![top.ix + 1][0] == g.ix);
                lemma_go(vp, top, t, top.ix, g);
                lemma_replace(vp, st.frames, g);
            }
        },
        Err(_) => {},
    }
}

// ---------------------------------------------------------------------------------------------
// Laws.
// ---------------------------------------------------------------------------------------------

/// A step of a verified program leaves every frame as the verifier says. Where it ends the run, it
/// does so with values of the types that the entry function returns, or with a trap that is not
/// ruled out; only what a host gives back may be of another type.
pub proof fn law_step_is_sound(vp: VerifiedView, lim: Limits, st: State, reply: Reply)
    requires
        vp.wf(),
        sound(vp, st.frames),
    ensures
        match machine::step(vp, lim, st, reply) {
            Next::Running(s) => sound(vp, s.frames) && s.frames[0].func == st.frames[0].func,
            Next::Done(Ok(values), _) => typing::function_sig(
                vp.program,
                st.frames[0].func.0,
            ) matches Some(sig) && of_types(values, sig.1),
            Next::Done(Err(info), _) => !ruled_out(info.trap) || (info.trap is TypeMismatch
                && limits::pending(vp, lim, st) is Host),
        },
{
    let top = st.top();
    let t = choose|t: Typing| runs_under(vp, top, t);
    let p = vp.program;
    let f = p.functions[top.func.0 as int];
    let v = vp.functions[top.func.0 as int];
    let b = verify::body_of(p, f)->0;
    if st.fuel > 0 {
        lemma_decide(
            vp,
            lim,
            f,
            v,
            t,
            top.ix,
            top.regs,
            st.heap,
            st.frames.len(),
            st.host_calls,
        );
        let o = limits::pending(vp, lim, st);
        assert(verify::step_ok(p, b, t, top.ix));
        let w = typing::effect(p, b.rets, b.xs[top.ix], t[top.ix]->0)->0;
        match o {
            Outcome::Skip => {
                let g = FrameModel { ix: top.ix + 1, ..top };
                assert(w =~= Seq::<(u32, RegTypeModel)>::empty());
                assert(seq![top.ix + 1][0] == g.ix);
                lemma_go(vp, top, t, top.ix, g);
                lemma_replace(vp, st.frames, g);
            },
            Outcome::Write { dst, value } => {
                lemma_stored(vp, st, t, dst, value);
            },
            Outcome::Float { dst, .. } => {
                lemma_stored(vp, st, t, dst, ValueModel::F64(reply.float));
            },
            Outcome::Build { dst, .. } => {
                lemma_stored(vp, st, t, dst, ValueModel::Agg(aggregates::next_handle(st.heap)));
            },
            Outcome::Goto { ix } => {
                let g = FrameModel { ix, ..top };
                assert(w =~= Seq::<(u32, RegTypeModel)>::empty());
                lemma_go(vp, top, t, top.ix, g);
                lemma_replace(vp, st.frames, g);
            },
            Outcome::Call { func, eff, args } => {
                lemma_called(vp, st, t, func, eff, args);
            },
            Outcome::Return { values } => {
                lemma_left(vp, st, t, values);
            },
            Outcome::Host { eff, rets, request } => {
                lemma_replied(vp, st, t, eff, rets, request, reply);
            },
            Outcome::Fail { .. } => {},
        }
    }
}

/// A run is about to call the host.
pub open spec fn asks_host(vp: VerifiedView, lim: Limits, n: Next) -> bool {
    n matches Next::Running(s) && limits::pending(vp, lim, s) is Host
}

/// A verified program that starts to run never comes to a trap that verification rules out, whatever
/// the host does: it neither misses a register, a struct type or an array element type, nor makes a
/// struct of the wrong number of fields, nor takes a value for one of another type. Only the values
/// of a host may be found to be of another type, as they come back. What the run returns is of the
/// types that the entry function declares.
pub proof fn law_verified_programs_run_soundly(
    vp: VerifiedView,
    lim: Limits,
    heap: Seq<AggModel>,
    entry: FuncId,
    args: Seq<ValueModel>,
    replies: Seq<Reply>,
)
    requires
        vp.wf(),
        machine::start(vp, lim, heap, entry, args) is Running,
    ensures
        match machine::steps(vp, lim, machine::start(vp, lim, heap, entry, args), replies) {
            Next::Running(s) => sound(vp, s.frames) && s.frames[0].func == entry,
            Next::Done(Ok(values), _) => typing::function_sig(vp.program, entry.0) matches Some(sig)
                && of_types(values, sig.1),
            Next::Done(Err(info), _) => !ruled_out(info.trap) || (info.trap is TypeMismatch
                && exists|k: int|
                0 <= k < replies.len() && asks_host(
                    vp,
                    lim,
                    #[trigger] machine::steps(
                        vp,
                        lim,
                        machine::start(vp, lim, heap, entry, args),
                        replies.take(k),
                    ),
                )),
        },
    decreases replies.len(),
{
    let from = machine::start(vp, lim, heap, entry, args);
    if replies.len() == 0 {
        let p = vp.program;
        let tys = program::slice_of(p.value_types, p.functions[entry.0 as int].arg_types)->0;
        lemma_right_types(args, tys, 0);
        let v = vp.functions[entry.0 as int];
        assert(verify::function_ok(p, p.functions[entry.0 as int], v));
        let t = choose|t: Typing|
            verify::function_under(p, p.functions[entry.0 as int], v, t);
        lemma_entered(vp, entry, args);
    } else {
        let before = replies.drop_last();
        law_verified_programs_run_soundly(vp, lim, heap, entry, args, before);
        match machine::steps(vp, lim, from, before) {
            Next::Running(s) => {
                law_step_is_sound(vp, lim, s, replies.last());
                assert(replies.take(replies.len() - 1) =~= before);
                if limits::pending(vp, lim, s) is Host {
                    assert(asks_host(
                        vp,
                        lim,
                        machine::steps(vp, lim, from, replies.take(replies.len() - 1)),
                    ));
                }
            },
            Next::Done(Err(info), _) => {
                if ruled_out(info.trap) {
                    let k = choose|k: int|
                        0 <= k < before.len() && asks_host(
                            vp,
                            lim,
                            #[trigger] machine::steps(vp, lim, from, before.take(k)),
                        );
                    assert(replies.take(k) =~= before.take(k));
                    assert(asks_host(
                        vp,
                        lim,
                        machine::steps(vp, lim, from, replies.take(k)),
                    ));
                }
            },
            Next::Done(Ok(_), _) => {},
        }
    }
}

} // verus!
