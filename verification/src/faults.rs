//! Why a program is rejected: the first fault that the verifier comes upon.

use vstd::prelude::*;

use crate::bytecode;
use crate::bytecode::InstrModel;
use crate::host;
use crate::opcode;
use crate::opcode::{Opcode, Shape};
use crate::program;
use crate::program::{Function, HostSigEntry, ProgramView, ValueType};
use crate::typing;
use crate::typing::{Regs, Writes};
use crate::verify;
use crate::verify::{Body, Typing, VerifyConfig, VerifyError};

verus! {

/// Where a fault is: the function, and the position of the instruction.
#[verifier::ext_equal]
pub struct Place {
    pub func: u32,
    pub pc: u32,
}

/// What is wrong with a register that must hold a value of a type.
pub open spec fn reg_fault(at: Place, st: Regs, reg: u32, expected: ValueType) -> Option<VerifyError> {
    match typing::reg_type(st, reg) {
        None => Some(VerifyError::UninitializedRead { func: at.func, pc: at.pc, reg }),
        Some(t) => if t.ty() == expected {
            None
        } else {
            Some(
                VerifyError::TypeMismatch {
                    func: at.func,
                    pc: at.pc,
                    reg,
                    expected,
                    actual: t.ty(),
                },
            )
        },
    }
}

/// What is wrong with the first register, from number `k` on, that does not hold a value of its
/// type.
pub open spec fn regs_fault_from(
    at: Place,
    st: Regs,
    regs: Seq<u32>,
    tys: Seq<ValueType>,
    k: int,
) -> Option<VerifyError>
    decreases regs.len() - k,
{
    if k < 0 || k >= regs.len() {
        None
    } else {
        match reg_fault(at, st, regs[k], tys[k]) {
            Some(e) => Some(e),
            None => regs_fault_from(at, st, regs, tys, k + 1),
        }
    }
}

/// What is wrong with registers that must hold values of given types.
pub open spec fn regs_fault(at: Place, st: Regs, regs: Seq<u32>, tys: Seq<ValueType>) -> Option<
    VerifyError,
> {
    if regs.len() != tys.len() {
        Some(VerifyError::BadOperand { func: at.func, pc: at.pc })
    } else {
        regs_fault_from(at, st, regs, tys, 0)
    }
}

/// What is wrong with a register that must hold a value.
pub open spec fn unset(at: Place, st: Regs, reg: u32) -> Option<VerifyError> {
    if typing::reg_type(st, reg) is None {
        Some(VerifyError::UninitializedRead { func: at.func, pc: at.pc, reg })
    } else {
        None
    }
}

/// The first register, from number `k` on, that holds no value.
pub open spec fn unset_from(at: Place, st: Regs, regs: Seq<u32>, k: int) -> Option<VerifyError>
    decreases regs.len() - k,
{
    if k < 0 || k >= regs.len() {
        None
    } else {
        either(unset(at, st, regs[k]), unset_from(at, st, regs, k + 1))
    }
}

/// What is wrong with an element that is taken of an aggregate.
pub open spec fn element_fault(
    p: ProgramView,
    at: Place,
    st: Regs,
    op: Opcode,
    reg: u32,
    index: u32,
) -> Option<VerifyError> {
    match typing::reg_type(st, reg) {
        None => Some(VerifyError::UninitializedRead { func: at.func, pc: at.pc, reg }),
        Some(t) => match typing::element_type(p, op, Some(t), index) {
            Some(_) => None,
            None => Some(VerifyError::UnknownElement { func: at.func, pc: at.pc, reg }),
        },
    }
}

/// What is wrong with an instruction that takes and gives values of fixed types.
pub open spec fn fixed_fault(at: Place, x: InstrModel, st: Regs, srcs: Seq<u32>) -> Option<VerifyError> {
    match typing::fixed_sig(x.op) {
        None => Some(VerifyError::BadOperand { func: at.func, pc: at.pc }),
        Some((args, _)) => regs_fault(at, st, srcs, args),
    }
}

/// The first of two faults.
pub open spec fn either(a: Option<VerifyError>, b: Option<VerifyError>) -> Option<VerifyError> {
    match a {
        Some(e) => Some(e),
        None => b,
    }
}

/// What is wrong with a call of something with the given signature.
pub open spec fn call_fault(
    sig: Option<(Seq<ValueType>, Seq<ValueType>)>,
    at: Place,
    x: InstrModel,
    st: Regs,
) -> Option<VerifyError> {
    match sig {
        None => Some(VerifyError::BadOperand { func: at.func, pc: at.pc }),
        Some((args, rets)) => either(
            reg_fault(at, st, typing::word(x, 2), ValueType::Unit),
            either(
                regs_fault(at, st, typing::list(x, 3), args),
                if typing::list(x, 4).len() != rets.len() {
                    Some(VerifyError::BadOperand { func: at.func, pc: at.pc })
                } else {
                    None
                },
            ),
        ),
    }
}

/// What is wrong with a selection: its condition, one of the two registers, or their types.
pub open spec fn select_fault(at: Place, x: InstrModel, st: Regs) -> Option<VerifyError> {
    let (ra, rb) = (typing::word(x, 2), typing::word(x, 3));
    either(
        reg_fault(at, st, typing::word(x, 1), ValueType::Bool),
        match (typing::reg_type(st, ra), typing::reg_type(st, rb)) {
            (Some(a), Some(b)) => if a.ty() == b.ty() {
                None
            } else {
                Some(
                    VerifyError::TypeMismatch {
                        func: at.func,
                        pc: at.pc,
                        reg: rb,
                        expected: a.ty(),
                        actual: b.ty(),
                    },
                )
            },
            (None, _) => Some(VerifyError::UninitializedRead { func: at.func, pc: at.pc, reg: ra }),
            (_, None) => Some(VerifyError::UninitializedRead { func: at.func, pc: at.pc, reg: rb }),
        },
    )
}

/// What is wrong with an instruction on registers that are as `st` says, in a function with the
/// given return types.
pub open spec fn effect_fault(
    p: ProgramView,
    rets: Seq<ValueType>,
    func: u32,
    x: InstrModel,
    st: Regs,
) -> Option<VerifyError> {
    let at = Place { func, pc: x.offset as u32 };
    let bad = Some(VerifyError::BadOperand { func: at.func, pc: at.pc });
    match opcode::opcode_shape(x.op) {
        Shape::ConstPool => if typing::const_type(p, typing::word(x, 1)) is Some {
            None
        } else {
            bad
        },
        Shape::Unary => if x.op is Mov {
            unset(at, st, typing::word(x, 1))
        } else {
            fixed_fault(at, x, st, seq![typing::word(x, 1)])
        },
        Shape::ToDec => fixed_fault(at, x, st, seq![typing::word(x, 1)]),
        Shape::Binary => if x.op is ArrayGet {
            either(
                element_fault(p, at, st, x.op, typing::word(x, 1), 0),
                reg_fault(at, st, typing::word(x, 2), ValueType::U64),
            )
        } else {
            fixed_fault(at, x, st, seq![typing::word(x, 1), typing::word(x, 2)])
        },
        Shape::Slice => fixed_fault(
            at,
            x,
            st,
            seq![typing::word(x, 1), typing::word(x, 2), typing::word(x, 3)],
        ),
        Shape::Select => select_fault(at, x, st),
        Shape::IndexGet => if x.op is BytesGetImm {
            fixed_fault(at, x, st, seq![typing::word(x, 1)])
        } else {
            element_fault(p, at, st, x.op, typing::word(x, 1), typing::word(x, 2))
        },
        Shape::FieldGet => element_fault(p, at, st, x.op, typing::word(x, 1), typing::word(x, 2)),
        Shape::Br => reg_fault(at, st, typing::word(x, 0), ValueType::Bool),
        Shape::Call => call_fault(typing::function_sig(p, typing::word(x, 1)), at, x, st),
        Shape::HostCall => call_fault(typing::host_call_sig(p, typing::word(x, 1)), at, x, st),
        Shape::Ret => either(
            reg_fault(at, st, typing::word(x, 0), ValueType::Unit),
            regs_fault(at, st, typing::list(x, 1), rets),
        ),
        Shape::TupleNew => unset_from(at, st, typing::list(x, 1), 0),
        Shape::StructNew => match typing::struct_sig(p, typing::word(x, 1)) {
            Some(fields) => regs_fault(at, st, typing::list(x, 2), fields),
            None => bad,
        },
        Shape::ArrayNew => match typing::elem_sig(p, typing::word(x, 1)) {
            Some(t) => regs_fault(
                at,
                st,
                typing::list(x, 2),
                Seq::new(typing::list(x, 2).len(), |k: int| t),
            ),
            None => bad,
        },
        _ => None,
    }
}

/// What is wrong with the instructions that may follow instruction `i`.
pub open spec fn next_fault(func: u32, xs: Seq<InstrModel>, i: int) -> Option<VerifyError> {
    if verify::successors(xs, i) is Some {
        None
    } else if xs[i].op is Br || xs[i].op is Jmp {
        Some(VerifyError::BadTarget { func, pc: xs[i].offset as u32 })
    } else {
        Some(VerifyError::FallsThrough { func, pc: xs[i].offset as u32 })
    }
}

/// The first write, from number `k` on, to a register that the function does not have.
pub open spec fn write_fault_from(at: Place, w: Writes, n: nat, k: int) -> Option<VerifyError>
    decreases w.len() - k,
{
    if k < 0 || k >= w.len() {
        None
    } else if w[k].0 >= n {
        Some(VerifyError::RegOutOfBounds { func: at.func, pc: at.pc, reg: w[k].0 })
    } else {
        write_fault_from(at, w, n, k + 1)
    }
}

/// What is wrong with instruction `i` of a function: what it reads, where control goes on, or what
/// it writes.
pub open spec fn step_fault(p: ProgramView, b: Body, func: u32, i: int, st: Regs) -> Option<VerifyError> {
    either(
        effect_fault(p, b.rets, func, b.xs[i], st),
        either(
            next_fault(func, b.xs, i),
            write_fault_from(
                Place { func, pc: b.xs[i].offset as u32 },
                typing::effect(p, b.rets, b.xs[i], st)->0,
                b.reg_count,
                0,
            ),
        ),
    )
}

/// A typing with no more known at instruction `j` than `o` says.
pub open spec fn merged(t: Typing, j: int, o: Regs) -> Typing {
    t.update(
        j,
        Some(
            match t[j] {
                None => o,
                Some(s) => typing::join_all(s, o),
            },
        ),
    )
}

/// A typing with no more known at the first `k` instructions of `next` than `o` says.
pub open spec fn flowed(t: Typing, next: Seq<int>, o: Regs, k: nat) -> Typing
    decreases k,
{
    if k == 0 {
        t
    } else {
        merged(flowed(t, next, o, (k - 1) as nat), next[k - 1], o)
    }
}

/// A typing after what is known behind instruction `i` was handed on to those that may follow it.
pub open spec fn relaxed(p: ProgramView, b: Body, t: Typing, i: int) -> Typing {
    match t[i] {
        None => t,
        Some(st) => {
            let next = verify::successors(b.xs, i)->0;
            let w = typing::effect(p, b.rets, b.xs[i], st)->0;
            flowed(t, next, typing::after(st, w), next.len())
        },
    }
}

/// A typing after one pass over the instructions from `i` on, or the first fault on the way.
pub open spec fn passed(p: ProgramView, b: Body, func: u32, t: Typing, i: int) -> Result<
    Typing,
    VerifyError,
>
    decreases b.xs.len() - i,
{
    if i < 0 || i >= b.xs.len() {
        Ok(t)
    } else {
        match t[i] {
            Some(st) => match step_fault(p, b, func, i, st) {
                Some(e) => Err(e),
                None => passed(p, b, func, relaxed(p, b, t, i), i + 1),
            },
            None => passed(p, b, func, t, i + 1),
        }
    }
}

/// The first fault of up to `n` passes, which end where one changes nothing.
pub open spec fn searched(p: ProgramView, b: Body, func: u32, t: Typing, n: nat) -> Option<VerifyError>
    decreases n,
{
    if n == 0 {
        None
    } else {
        match passed(p, b, func, t, 0) {
            Err(e) => Some(e),
            Ok(u) => if u == t {
                None
            } else {
                searched(p, b, func, u, (n - 1) as nat)
            },
        }
    }
}

/// What is known before the first pass: the registers at entry.
pub open spec fn entry_typing(b: Body) -> Typing {
    Seq::new(
        b.xs.len(),
        |i: int|
            if i == 0 {
                Some(verify::entry_regs(b.args, b.reg_count))
            } else {
                None
            },
    )
}

/// The first fault of the instructions of a function. Every pass but the last makes less known, so
/// there are no more than can be forgotten.
pub open spec fn body_fault(p: ProgramView, b: Body, func: u32) -> Option<VerifyError> {
    let t = entry_typing(b);
    searched(p, b, func, t, verify::total_weight(t, b.reg_count) + 1)
}

/// The first fault of a function.
pub open spec fn function_fault(p: ProgramView, func: u32, f: Function, cfg: VerifyConfig) -> Option<
    VerifyError,
> {
    match (
        program::slice_of(p.value_types, f.arg_types),
        program::slice_of(p.value_types, f.ret_types),
        program::slice_of(p.bytecode_data, f.bytecode),
        program::slice_of(p.spans, f.spans),
    ) {
        (Some(args), Some(rets), Some(code), Some(_)) => if args.len() != f.arg_count || rets.len()
            != f.ret_count {
            Some(VerifyError::BadRange { func })
        } else if f.reg_count > cfg.max_regs || args.len() >= f.reg_count {
            Some(VerifyError::BadRegCount { func })
        } else {
            match bytecode::instrs(code) {
                Err(error) => Some(VerifyError::Bytecode { func, error }),
                Ok(xs) => if xs.len() == 0 {
                    Some(VerifyError::EmptyBody { func })
                } else {
                    body_fault(p, Body { xs, args, rets, reg_count: f.reg_count as nat }, func)
                },
            }
        },
        _ => Some(VerifyError::BadRange { func }),
    }
}

/// The first fault of the functions of a program, from number `i` on.
pub open spec fn functions_fault_from(p: ProgramView, cfg: VerifyConfig, i: int) -> Option<VerifyError>
    decreases p.functions.len() - i,
{
    if i < 0 || i >= p.functions.len() {
        None
    } else {
        match function_fault(p, program::clamp32(i as nat), p.functions[i], cfg) {
            Some(e) => Some(e),
            None => functions_fault_from(p, cfg, i + 1),
        }
    }
}

/// Whether a host signature has types, and the hash of them.
pub open spec fn host_sig_ok(p: ProgramView, h: HostSigEntry) -> bool {
    match (
        program::slice_of(p.value_types, h.args),
        program::slice_of(p.value_types, h.rets),
    ) {
        (Some(args), Some(rets)) => h.sig_hash == host::spec_sig_hash(args, rets),
        _ => false,
    }
}

/// The first host signature, from number `i` on, that is not as it should be.
pub open spec fn host_sigs_fault_from(p: ProgramView, i: int) -> Option<VerifyError>
    decreases p.host_sigs.len() - i,
{
    if i < 0 || i >= p.host_sigs.len() {
        None
    } else if !host_sig_ok(p, p.host_sigs[i]) {
        Some(VerifyError::BadHostSig { host_sig: program::clamp32(i as nat) })
    } else {
        host_sigs_fault_from(p, i + 1)
    }
}

/// The first fault of a program: of its host signatures, and then of its functions.
pub open spec fn first_error(p: ProgramView, cfg: VerifyConfig) -> Option<VerifyError> {
    either(host_sigs_fault_from(p, 0), functions_fault_from(p, cfg, 0))
}

} // verus!
