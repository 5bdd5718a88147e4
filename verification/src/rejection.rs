//! Why the verifier rejects what it rejects.

use vstd::prelude::*;

use crate::admission::kind_of;
use crate::bytecode;
use crate::bytecode::{InstrModel, OperandModel};
use crate::faults;
use crate::flow::{call_operands, in_range, law_index_at, nothing_at, part};
use crate::host;
use crate::program::{Function, ProgramView, ValueType};
use crate::typing::Regs;
use crate::verify;
use crate::verify::{Body, VerifyConfig, VerifyError};

verus! {

/// What is wrong with a register that an instruction at a position reads as a value of a type: it
/// may have no value, or one of another type.
pub open spec fn wrong(func: u32, pc: u32, st: Regs, reg: u32, expected: ValueType) -> Option<
    VerifyError,
> {
    if reg >= st.len() || st[reg as int] is None {
        Some(VerifyError::UninitializedRead { func, pc, reg })
    } else if kind_of(st[reg as int]->0) != expected {
        Some(
            VerifyError::TypeMismatch {
                func,
                pc,
                reg,
                expected,
                actual: kind_of(st[reg as int]->0),
            },
        )
    } else {
        None
    }
}

/// The first of two faults.
pub open spec fn first(a: Option<VerifyError>, b: Option<VerifyError>) -> Option<VerifyError> {
    if a is Some {
        a
    } else {
        b
    }
}

proof fn lemma_two(at: faults::Place, st: Regs, x: u32, y: u32, a: ValueType, b: ValueType)
    ensures
        faults::regs_fault(at, st, seq![x, y], seq![a, b]) == first(
            wrong(at.func, at.pc, st, x, a),
            wrong(at.func, at.pc, st, y, b),
        ),
{
    reveal_with_fuel(faults::regs_fault_from, 3);
}

proof fn lemma_one(at: faults::Place, st: Regs, x: u32, a: ValueType)
    ensures
        faults::regs_fault(at, st, seq![x], seq![a]) == wrong(at.func, at.pc, st, x, a),
{
    reveal_with_fuel(faults::regs_fault_from, 2);
}

/// An instruction on two values is rejected for the first of its registers that does not have a
/// value of the type that it takes there, with that type and the one of the register.
pub proof fn law_rejected_two(
    p: ProgramView,
    rets: Seq<ValueType>,
    func: u32,
    x: InstrModel,
    st: Regs,
    dst: u32,
    a: u32,
    b: u32,
)
    requires
        x.operands == seq![OperandModel::Word(dst), OperandModel::Word(a), OperandModel::Word(b)],
    ensures
        ({
            let pc = x.offset as u32;
            let fault = faults::effect_fault(p, rets, func, x, st);
            &&& x.op is DecAdd || x.op is DecSub || x.op is DecMul
                ==> fault == first(wrong(func, pc, st, a, ValueType::Decimal), wrong(func, pc, st,
                b, ValueType::Decimal))
            &&& x.op is I64Add || x.op is I64Sub || x.op is I64Mul || x.op is I64Div
                || x.op is I64Rem || x.op is I64And || x.op is I64Or || x.op is I64Xor
                || x.op is I64Shl || x.op is I64Shr
                ==> fault == first(wrong(func, pc, st, a, ValueType::I64), wrong(func, pc, st, b,
                ValueType::I64))
            &&& x.op is I64Eq || x.op is I64Lt || x.op is I64Gt || x.op is I64Le
                || x.op is I64Ge ==> fault == first(wrong(func, pc, st, a, ValueType::I64),
                wrong(func, pc, st, b, ValueType::I64))
            &&& x.op is U64Add || x.op is U64Sub || x.op is U64Mul || x.op is U64Div
                || x.op is U64Rem || x.op is U64And || x.op is U64Or || x.op is U64Xor
                || x.op is U64Shl || x.op is U64Shr
                ==> fault == first(wrong(func, pc, st, a, ValueType::U64), wrong(func, pc, st, b,
                ValueType::U64))
            &&& x.op is U64Eq || x.op is U64Lt || x.op is U64Gt || x.op is U64Le
                || x.op is U64Ge ==> fault == first(wrong(func, pc, st, a, ValueType::U64),
                wrong(func, pc, st, b, ValueType::U64))
            &&& x.op is BoolAnd || x.op is BoolOr || x.op is BoolXor
                ==> fault == first(wrong(func, pc, st, a, ValueType::Bool), wrong(func, pc, st, b,
                ValueType::Bool))
            &&& x.op is F64Add || x.op is F64Sub || x.op is F64Mul || x.op is F64Div
                || x.op is F64Rem || x.op is F64Min || x.op is F64Max || x.op is F64MinNum
                || x.op is F64MaxNum ==> fault == first(wrong(func, pc, st, a, ValueType::F64),
                wrong(func, pc, st, b, ValueType::F64))
            &&& x.op is F64Eq || x.op is F64Lt || x.op is F64Gt || x.op is F64Le
                || x.op is F64Ge ==> fault == first(wrong(func, pc, st, a, ValueType::F64),
                wrong(func, pc, st, b, ValueType::F64))
            &&& x.op is BytesEq ==> fault == first(wrong(func, pc, st, a, ValueType::Bytes),
                wrong(func, pc, st, b, ValueType::Bytes))
            &&& x.op is BytesConcat ==> fault == first(wrong(func, pc, st, a, ValueType::Bytes),
                wrong(func, pc, st, b, ValueType::Bytes))
            &&& x.op is BytesGet ==> fault == first(wrong(func, pc, st, a, ValueType::Bytes),
                wrong(func, pc, st, b, ValueType::U64))
            &&& x.op is StrEq ==> fault == first(wrong(func, pc, st, a, ValueType::Str),
                wrong(func, pc, st, b, ValueType::Str))
            &&& x.op is StrConcat ==> fault == first(wrong(func, pc, st, a, ValueType::Str),
                wrong(func, pc, st, b, ValueType::Str))
        }),
{
    let at = faults::Place { func, pc: x.offset as u32 };
    lemma_two(at, st, a, b, ValueType::Decimal, ValueType::Decimal);
    lemma_two(at, st, a, b, ValueType::I64, ValueType::I64);
    lemma_two(at, st, a, b, ValueType::U64, ValueType::U64);
    lemma_two(at, st, a, b, ValueType::Bool, ValueType::Bool);
    lemma_two(at, st, a, b, ValueType::F64, ValueType::F64);
    lemma_two(at, st, a, b, ValueType::Bytes, ValueType::Bytes);
    lemma_two(at, st, a, b, ValueType::Bytes, ValueType::U64);
    lemma_two(at, st, a, b, ValueType::Str, ValueType::Str);
}

/// An instruction on one value is rejected for its register where that does not have a value of the
/// type that it takes.
pub proof fn law_rejected_one(
    p: ProgramView,
    rets: Seq<ValueType>,
    func: u32,
    x: InstrModel,
    st: Regs,
    dst: u32,
    a: u32,
)
    requires
        x.operands == seq![OperandModel::Word(dst), OperandModel::Word(a)],
    ensures
        ({
            let pc = x.offset as u32;
            let fault = faults::effect_fault(p, rets, func, x, st);
            &&& x.op is DecToI64 ==> fault == wrong(func, pc, st, a, ValueType::Decimal)
            &&& x.op is DecToU64 ==> fault == wrong(func, pc, st, a, ValueType::Decimal)
            &&& x.op is I64ToU64 ==> fault == wrong(func, pc, st, a, ValueType::I64)
            &&& x.op is U64ToI64 ==> fault == wrong(func, pc, st, a, ValueType::U64)
            &&& x.op is BoolNot ==> fault == wrong(func, pc, st, a, ValueType::Bool)
            &&& x.op is F64Neg || x.op is F64Abs ==> fault == wrong(func, pc, st, a, ValueType::F64)
            &&& x.op is F64ToBits || x.op is F64ToU64
                ==> fault == wrong(func, pc, st, a, ValueType::F64)
            &&& x.op is F64ToI64 ==> fault == wrong(func, pc, st, a, ValueType::F64)
            &&& x.op is F64FromBits || x.op is U64ToF64
                ==> fault == wrong(func, pc, st, a, ValueType::U64)
            &&& x.op is I64ToF64 ==> fault == wrong(func, pc, st, a, ValueType::I64)
            &&& x.op is TupleLen || x.op is StructFieldCount || x.op is ArrayLen
                ==> fault == wrong(func, pc, st, a, ValueType::Agg)
            &&& x.op is BytesLen ==> fault == wrong(func, pc, st, a, ValueType::Bytes)
            &&& x.op is BytesToStr ==> fault == wrong(func, pc, st, a, ValueType::Bytes)
            &&& x.op is StrLen ==> fault == wrong(func, pc, st, a, ValueType::Str)
            &&& x.op is StrToBytes ==> fault == wrong(func, pc, st, a, ValueType::Str)
            &&& x.op is Mov ==> fault == if a >= st.len() || st[a as int] is None {
                Some(VerifyError::UninitializedRead { func, pc, reg: a })
            } else {
                None
            }
        }),
{
    let at = faults::Place { func, pc: x.offset as u32 };
    lemma_one(at, st, a, ValueType::Decimal);
    lemma_one(at, st, a, ValueType::I64);
    lemma_one(at, st, a, ValueType::U64);
    lemma_one(at, st, a, ValueType::Bool);
    lemma_one(at, st, a, ValueType::F64);
    lemma_one(at, st, a, ValueType::Agg);
    lemma_one(at, st, a, ValueType::Bytes);
    lemma_one(at, st, a, ValueType::Str);
}

proof fn lemma_list(at: faults::Place, st: Regs, rs: Seq<u32>, tys: Seq<ValueType>, k: int, w: int)
    requires
        rs.len() == tys.len(),
        0 <= k <= w <= rs.len(),
        forall|j: int|
            0 <= j < w ==> wrong(at.func, at.pc, st, #[trigger] rs[j], tys[j]) is None,
        w < rs.len() ==> wrong(at.func, at.pc, st, rs[w], tys[w]) is Some,
    ensures
        faults::regs_fault_from(at, st, rs, tys, k) == if w < rs.len() {
            wrong(at.func, at.pc, st, rs[w], tys[w])
        } else {
            None
        },
    decreases w - k,
{
    if k < w {
        assert(wrong(at.func, at.pc, st, rs[k], tys[k]) is None);
        lemma_list(at, st, rs, tys, k + 1, w);
    }
}

/// Why a call of something with the given types is rejected. `w` is the first argument register that
/// does not have a value of its type, or the number of arguments.
pub open spec fn call_rejected(
    func: u32,
    pc: u32,
    st: Regs,
    eff_in: u32,
    args: Seq<u32>,
    rets: Seq<u32>,
    arg_types: Seq<ValueType>,
    ret_types: Seq<ValueType>,
    w: int,
    fault: Option<VerifyError>,
) -> bool {
    let bad = Some(VerifyError::BadOperand { func, pc });
    if wrong(func, pc, st, eff_in, ValueType::Unit) is Some {
        fault == wrong(func, pc, st, eff_in, ValueType::Unit)
    } else if args.len() != arg_types.len() {
        fault == bad
    } else if w < args.len() {
        fault == wrong(func, pc, st, args[w], arg_types[w])
    } else if rets.len() != ret_types.len() {
        fault == bad
    } else {
        fault is None
    }
}

/// Register `w` of a list is the first that does not have a value of its type; all have one where
/// `w` is their number.
pub open spec fn first_wrong(
    func: u32,
    pc: u32,
    st: Regs,
    rs: Seq<u32>,
    tys: Seq<ValueType>,
    w: int,
) -> bool {
    rs.len() == tys.len() ==> {
        &&& 0 <= w <= rs.len()
        &&& forall|j: int| 0 <= j < w ==> wrong(func, pc, st, #[trigger] rs[j], tys[j]) is None
        &&& w < rs.len() ==> wrong(func, pc, st, rs[w], tys[w]) is Some
    }
}

/// A call is rejected where the program does not have the function or the host signature, and else
/// for the effect token, for the number of arguments, for the first argument that is not of its
/// type, and for the number of values that come back, in this order; and for nothing else.
pub proof fn law_rejected_calls(
    p: ProgramView,
    rets_of: Seq<ValueType>,
    func: u32,
    x: InstrModel,
    st: Regs,
    eff_out: u32,
    callee: u32,
    eff_in: u32,
    args: Seq<u32>,
    rets: Seq<u32>,
    w: int,
)
    requires
        x.operands == call_operands(eff_out, callee, eff_in, args, rets),
    ensures
        ({
            let pc = x.offset as u32;
            let fault = faults::effect_fault(p, rets_of, func, x, st);
            let bad = Some(VerifyError::BadOperand { func, pc });
            &&& x.op is HostCall ==> {
                let s = p.host_sigs[callee as int];
                if callee >= p.host_sigs.len() || !in_range(p.value_types, s.args) || !in_range(
                    p.value_types,
                    s.rets,
                ) {
                    fault == bad
                } else {
                    first_wrong(func, pc, st, args, part(p.value_types, s.args), w)
                        ==> call_rejected(
                        func,
                        pc,
                        st,
                        eff_in,
                        args,
                        rets,
                        part(p.value_types, s.args),
                        part(p.value_types, s.rets),
                        w,
                        fault,
                    )
                }
            }
            &&& x.op is Call ==> {
                let f = p.functions[callee as int];
                if callee >= p.functions.len() || !in_range(p.value_types, f.arg_types)
                    || !in_range(p.value_types, f.ret_types) {
                    fault == bad
                } else {
                    first_wrong(func, pc, st, args, part(p.value_types, f.arg_types), w)
                        ==> call_rejected(
                        func,
                        pc,
                        st,
                        eff_in,
                        args,
                        rets,
                        part(p.value_types, f.arg_types),
                        part(p.value_types, f.ret_types),
                        w,
                        fault,
                    )
                }
            }
        }),
{
    let pc = x.offset as u32;
    let at = faults::Place { func, pc };
    if x.op is HostCall && callee < p.host_sigs.len() {
        let tys = part(p.value_types, p.host_sigs[callee as int].args);
        if args.len() == tys.len() && first_wrong(func, pc, st, args, tys, w) {
            lemma_list(at, st, args, tys, 0, w);
        }
    }
    if x.op is Call && callee < p.functions.len() {
        let tys = part(p.value_types, p.functions[callee as int].arg_types);
        if args.len() == tys.len() && first_wrong(func, pc, st, args, tys, w) {
            lemma_list(at, st, args, tys, 0, w);
        }
    }
}

/// A return is rejected for the effect token, for the number of values, and for the first value that
/// is not of the return type of the function.
pub proof fn law_rejected_return(
    p: ProgramView,
    rets_of: Seq<ValueType>,
    func: u32,
    x: InstrModel,
    st: Regs,
    eff: u32,
    rs: Seq<u32>,
    w: int,
)
    requires
        x.op is Ret,
        x.operands == seq![OperandModel::Word(eff), OperandModel::List(rs)],
        first_wrong(func, x.offset as u32, st, rs, rets_of, w),
    ensures
        call_rejected(
            func,
            x.offset as u32,
            st,
            eff,
            rs,
            seq![],
            rets_of,
            seq![],
            w,
            faults::effect_fault(p, rets_of, func, x, st),
        ),
{
    let at = faults::Place { func, pc: x.offset as u32 };
    if rs.len() == rets_of.len() {
        lemma_list(at, st, rs, rets_of, 0, w);
    }
}

/// A branch is rejected for its condition, and a selection for its condition, for a register
/// without a value, and for values of two types.
pub proof fn law_rejected_conditions(
    p: ProgramView,
    rets_of: Seq<ValueType>,
    func: u32,
    x: InstrModel,
    st: Regs,
    dst: u32,
    c: u32,
    a: u32,
    b: u32,
)
    ensures
        ({
            let pc = x.offset as u32;
            let fault = faults::effect_fault(p, rets_of, func, x, st);
            &&& x.op is Br && x.operands == seq![
                OperandModel::Word(c),
                OperandModel::Word(a),
                OperandModel::Word(b),
            ] ==> fault == wrong(func, pc, st, c, ValueType::Bool)
            &&& x.op is Select && x.operands == seq![
                OperandModel::Word(dst),
                OperandModel::Word(c),
                OperandModel::Word(a),
                OperandModel::Word(b),
            ] ==> fault == if wrong(func, pc, st, c, ValueType::Bool) is Some {
                wrong(func, pc, st, c, ValueType::Bool)
            } else if a >= st.len() || st[a as int] is None {
                Some(VerifyError::UninitializedRead { func, pc, reg: a })
            } else {
                wrong(func, pc, st, b, kind_of(st[a as int]->0))
            }
        }),
{
}

/// An instruction is rejected for what it reads before it is for where control goes on, and for that
/// before it is for what it writes. A branch or jump to a position without an instruction is
/// rejected for its target, and the last instruction for falling through where it goes on.
pub proof fn law_rejected_flow(
    p: ProgramView,
    b: Body,
    func: u32,
    i: int,
    st: Regs,
)
    requires
        0 <= i < b.xs.len(),
    ensures
        ({
            let x = b.xs[i];
            let pc = x.offset as u32;
            let fault = faults::step_fault(p, b, func, i, st);
            let reads = faults::effect_fault(p, b.rets, func, x, st);
            &&& reads is Some ==> fault == reads
            &&& reads is None && x.op is Jmp && x.operands.len() == 1 && (x.operands[0]
                matches OperandModel::Word(t) && nothing_at(b.xs, t)) ==> fault == Some(
                VerifyError::BadTarget { func, pc },
            )
            &&& reads is None && x.op is Br && x.operands.len() == 3 && ((x.operands[1]
                matches OperandModel::Word(t) && nothing_at(b.xs, t)) || (x.operands[2]
                matches OperandModel::Word(f) && nothing_at(b.xs, f))) ==> fault == Some(
                VerifyError::BadTarget { func, pc },
            )
            &&& reads is None && i + 1 == b.xs.len() && !(x.op is Br || x.op is Jmp || x.op is Ret
                || x.op is Trap) ==> fault == Some(VerifyError::FallsThrough { func, pc })
        }),
{
    let x = b.xs[i];
    if x.op is Jmp && x.operands.len() == 1 {
        if let OperandModel::Word(t) = x.operands[0] {
            law_index_at(b.xs, t, 0);
        }
    }
    if x.op is Br && x.operands.len() == 3 {
        if let OperandModel::Word(t) = x.operands[1] {
            law_index_at(b.xs, t, 0);
        }
        if let OperandModel::Word(f) = x.operands[2] {
            law_index_at(b.xs, f, 0);
        }
    }
}

// ---------------------------------------------------------------------------------------------
// Programs.
// ---------------------------------------------------------------------------------------------

/// The tables of a function lie in the arenas of the program, and there are as many types as the
/// function has arguments and returns.
pub open spec fn tables_fit(p: ProgramView, f: Function) -> bool {
    &&& in_range(p.value_types, f.arg_types)
    &&& in_range(p.value_types, f.ret_types)
    &&& in_range(p.bytecode_data, f.bytecode)
    &&& in_range(p.spans, f.spans)
    &&& f.arg_types.len == f.arg_count
    &&& f.ret_types.len == f.ret_count
}

/// A function is accepted exactly where its tables fit, it has registers for the effect token and
/// its arguments and no more than allowed, its instructions can be read and there are some, and its
/// registers can be typed.
pub proof fn law_accepted_function(p: ProgramView, f: Function, cfg: VerifyConfig)
    ensures
        verify::accepts_function(p, f, cfg) <==> {
            &&& tables_fit(p, f)
            &&& f.arg_count < f.reg_count <= cfg.max_regs
            &&& bytecode::instrs(part(p.bytecode_data, f.bytecode)) matches Ok(xs)
            &&& xs.len() > 0
            &&& verify::typable(
                p,
                Body {
                    xs,
                    args: part(p.value_types, f.arg_types),
                    rets: part(p.value_types, f.ret_types),
                    reg_count: f.reg_count as nat,
                },
            )
        },
{
}

/// Why a function is rejected before its instructions are looked at.
pub proof fn law_rejected_function(p: ProgramView, func: u32, f: Function, cfg: VerifyConfig)
    ensures
        ({
            let fault = faults::function_fault(p, func, f, cfg);
            let code = bytecode::instrs(part(p.bytecode_data, f.bytecode));
            if !tables_fit(p, f) {
                fault == Some(VerifyError::BadRange { func })
            } else if f.reg_count > cfg.max_regs || f.arg_count >= f.reg_count {
                fault == Some(VerifyError::BadRegCount { func })
            } else {
                match code {
                    Err(error) => fault == Some(VerifyError::Bytecode { func, error }),
                    Ok(xs) => xs.len() == 0 ==> fault == Some(VerifyError::EmptyBody { func }),
                }
            }
        }),
{
}

/// A program is accepted exactly where every host signature has lists of types that lie in the
/// program and the hash of them, and every function is accepted.
pub proof fn law_accepted_program(p: ProgramView, cfg: VerifyConfig)
    ensures
        verify::accepts(p, cfg) <==> {
            &&& forall|h: int|
                0 <= h < p.host_sigs.len() ==> {
                    let s = #[trigger] p.host_sigs[h];
                    in_range(p.value_types, s.args) && in_range(p.value_types, s.rets)
                        && s.sig_hash == host::spec_sig_hash(
                        part(p.value_types, s.args),
                        part(p.value_types, s.rets),
                    )
                }
            &&& forall|f: int|
                0 <= f < p.functions.len() ==> verify::accepts_function(
                    p,
                    #[trigger] p.functions[f],
                    cfg,
                )
        },
{
    if verify::accepts(p, cfg) {
        assert forall|h: int| 0 <= h < p.host_sigs.len() implies {
            let s = #[trigger] p.host_sigs[h];
            in_range(p.value_types, s.args) && in_range(p.value_types, s.rets) && s.sig_hash
                == host::spec_sig_hash(part(p.value_types, s.args), part(p.value_types, s.rets))
        } by {
            assert(faults::host_sig_ok(p, p.host_sigs[h]));
        }
    }
}

proof fn lemma_host_sigs_from(p: ProgramView, i: int, h: int)
    requires
        0 <= i <= h < p.host_sigs.len(),
        !faults::host_sig_ok(p, p.host_sigs[h]),
        forall|k: int| 0 <= k < h ==> faults::host_sig_ok(p, #[trigger] p.host_sigs[k]),
        h <= u32::MAX,
    ensures
        faults::host_sigs_fault_from(p, i) == Some(VerifyError::BadHostSig { host_sig: h as u32 }),
    decreases h - i,
{
    if i < h {
        assert(faults::host_sig_ok(p, p.host_sigs[i]));
        lemma_host_sigs_from(p, i + 1, h);
    }
}

proof fn lemma_host_sigs_fine(p: ProgramView, i: int)
    requires
        0 <= i,
        forall|k: int|
            0 <= k < p.host_sigs.len() ==> faults::host_sig_ok(p, #[trigger] p.host_sigs[k]),
    ensures
        faults::host_sigs_fault_from(p, i) is None,
    decreases p.host_sigs.len() - i,
{
    if i < p.host_sigs.len() {
        assert(faults::host_sig_ok(p, p.host_sigs[i]));
        lemma_host_sigs_fine(p, i + 1);
    }
}

proof fn lemma_functions_from(p: ProgramView, cfg: VerifyConfig, i: int, f: int)
    requires
        0 <= i <= f < p.functions.len(),
        p.functions.len() <= u32::MAX,
        faults::function_fault(p, f as u32, p.functions[f], cfg) is Some,
        forall|k: int|
            0 <= k < f ==> faults::function_fault(
                p,
                k as u32,
                #[trigger] p.functions[k],
                cfg,
            ) is None,
    ensures
        faults::functions_fault_from(p, cfg, i) == faults::function_fault(
            p,
            f as u32,
            p.functions[f],
            cfg,
        ),
    decreases f - i,
{
    if i < f {
        assert(faults::function_fault(p, i as u32, p.functions[i], cfg) is None);
        lemma_functions_from(p, cfg, i + 1, f);
    }
}

/// A program is rejected for its first host signature without types or with the wrong hash, and else
/// for its first function with a fault.
pub proof fn law_rejected_program(p: ProgramView, cfg: VerifyConfig, h: int, f: int)
    requires
        p.host_sigs.len() <= u32::MAX,
        p.functions.len() <= u32::MAX,
    ensures
        0 <= h < p.host_sigs.len() && !faults::host_sig_ok(p, p.host_sigs[h]) && (forall|k: int|
            0 <= k < h ==> faults::host_sig_ok(p, #[trigger] p.host_sigs[k]))
            ==> faults::first_error(p, cfg) == Some(
            VerifyError::BadHostSig { host_sig: h as u32 },
        ),
        (forall|k: int|
            0 <= k < p.host_sigs.len() ==> faults::host_sig_ok(p, #[trigger] p.host_sigs[k])) && 0
            <= f < p.functions.len() && faults::function_fault(
            p,
            f as u32,
            p.functions[f],
            cfg,
        ) is Some && (forall|k: int|
            0 <= k < f ==> faults::function_fault(
                p,
                k as u32,
                #[trigger] p.functions[k],
                cfg,
            ) is None) ==> faults::first_error(p, cfg) == faults::function_fault(
            p,
            f as u32,
            p.functions[f],
            cfg,
        ),
{
    if 0 <= h < p.host_sigs.len() && !faults::host_sig_ok(p, p.host_sigs[h]) && (forall|k: int|
        0 <= k < h ==> faults::host_sig_ok(p, #[trigger] p.host_sigs[k])) {
        lemma_host_sigs_from(p, 0, h);
    }
    if forall|k: int|
        0 <= k < p.host_sigs.len() ==> faults::host_sig_ok(p, #[trigger] p.host_sigs[k]) {
        lemma_host_sigs_fine(p, 0);
        if 0 <= f < p.functions.len() && faults::function_fault(
            p,
            f as u32,
            p.functions[f],
            cfg,
        ) is Some && (forall|k: int|
            0 <= k < f ==> faults::function_fault(
                p,
                k as u32,
                #[trigger] p.functions[k],
                cfg,
            ) is None) {
            lemma_functions_from(p, cfg, 0, f);
        }
    }
}

} // verus!
