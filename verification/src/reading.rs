//! What the disassembler says of an instruction is what the machine does with it.

use vstd::prelude::*;
use vstd::utf8::*;

use crate::bytecode::{InstrModel, OperandModel};
use crate::disasm;
use crate::disasm::{ConstValueModel, InputIndex, OperandsModel};
use crate::flow::{
    all_exist, call_operands, first_regs, law_index_at, lemma_names, names, running, starts_at,
    values_in, went,
};
use crate::machine;
use crate::machine::{FrameModel, Limits, Next, Outcome, Reply, State};
use crate::meaning::{exists_reg, holds, trapped, wrote};
use crate::opcode;
use crate::opcode::OperandRole;
use crate::program::{ConstId, ElemTypeId, HostSigId, ProgramView, TypeId};
use crate::trap::Trap;
use crate::value::{Decimal, FuncId, ValueModel};
use crate::verify::VerifiedView;

verus! {

/// The instruction that the running frame stands at, where there is fuel for it.
pub open spec fn standing(vp: VerifiedView, st: State, x: InstrModel) -> bool {
    let top = st.frames.last();
    &&& st.fuel > 0
    &&& top.func.0 < vp.functions.len()
    &&& 0 <= top.ix < running(vp, st).len()
    &&& running(vp, st)[top.ix] == x
}

// ---------------------------------------------------------------------------------------------
// Operands.
// ---------------------------------------------------------------------------------------------

/// Where the operands of an instruction are said to be those of a branch, the machine goes on at
/// the position for true where the condition register holds true, and at the position for false
/// where it holds false. Where they are said to be those of a jump, it goes on at the position.
pub proof fn law_disassembled_jumps(
    vp: VerifiedView,
    lim: Limits,
    st: State,
    reply: Reply,
    x: InstrModel,
    j: int,
)
    requires
        standing(vp, st, x),
    ensures
        disasm::operands_of(vp.program, x) matches OperandsModel::Br { cond, pc_true, pc_false }
            ==> {
            &&& holds(st, cond, ValueModel::Bool(true)) && starts_at(running(vp, st), pc_true, j)
                ==> machine::step(vp, lim, st, reply) == went(st, j)
            &&& holds(st, cond, ValueModel::Bool(false)) && starts_at(running(vp, st), pc_false, j)
                ==> machine::step(vp, lim, st, reply) == went(st, j)
        },
        disasm::operands_of(vp.program, x) matches OperandsModel::Jmp { pc_target } ==> (starts_at(
            running(vp, st),
            pc_target,
            j,
        ) ==> machine::step(vp, lim, st, reply) == went(st, j)),
{
    let xs = running(vp, st);
    match disasm::operands_of(vp.program, x) {
        OperandsModel::Br { cond, pc_true, pc_false } => {
            law_index_at(xs, pc_true, j);
            law_index_at(xs, pc_false, j);
        },
        OperandsModel::Jmp { pc_target } => {
            law_index_at(xs, pc_target, j);
        },
        _ => {},
    }
}

/// Where the operands of an instruction are said to be those of a call of a function, the machine
/// calls that function with the values of the registers that are said to be the arguments. Where
/// they are said to be those of a return, the run of an entry function ends with the values of the
/// registers that are said to be returned.
pub proof fn law_disassembled_calls(
    vp: VerifiedView,
    lim: Limits,
    st: State,
    reply: Reply,
    x: InstrModel,
)
    requires
        standing(vp, st, x),
    ensures
        disasm::operands_of(vp.program, x) matches OperandsModel::Func {
            eff_out,
            func,
            eff_in,
            args,
            rets,
        } ==> ({
            &&& exists_reg(st, eff_out)
            &&& all_exist(st.frames.last().regs, args)
            &&& func.0 < vp.functions.len()
            &&& func.0 < vp.program.functions.len()
            &&& args.len() == vp.program.functions[func.0 as int].arg_count
            &&& st.frames.len() < lim.max_call_depth
        } ==> {
            &&& machine::step(vp, lim, st, reply) matches Next::Running(s)
            &&& s.frames.last() == (FrameModel {
                func,
                ix: 0,
                regs: first_regs(
                    vp.functions[func.0 as int].reg_count,
                    values_in(st.frames.last().regs, args),
                ),
            })
            &&& s.frames[s.frames.len() - 2].regs == st.frames.last().regs.update(
                eff_out as int,
                ValueModel::Unit,
            )
            &&& machine::return_regs(vp, s.frames[s.frames.len() - 2]) == Some(rets)
        }),
        disasm::operands_of(vp.program, x) matches OperandsModel::Ret { eff, rets } ==> (all_exist(
            st.frames.last().regs,
            rets,
        ) && st.frames.len() == 1 ==> machine::step(vp, lim, st, reply) == Next::Done(
            Ok(values_in(st.frames.last().regs, rets)),
            st.heap,
        )),
        disasm::operands_of(vp.program, x) matches OperandsModel::Host {
            eff_out,
            sig,
            symbol,
            eff_in,
            args,
            rets,
        } ==> (machine::decide(
            vp,
            lim,
            vp.functions[st.frames.last().func.0 as int],
            st.frames.last().ix,
            st.frames.last().regs,
            st.heap,
            st.frames.len(),
            st.host_calls,
        ) matches Outcome::Host { eff, rets: back, request } ==> {
            &&& eff == eff_out
            &&& back == rets
            &&& request.sig == sig
            &&& request.args == values_in(st.frames.last().regs, args)
            &&& symbol == Some(decode_utf8(request.text))
        }),
{
    let top = st.frames.last();
    match disasm::operands_of(vp.program, x) {
        OperandsModel::Func { eff_out, func, eff_in, args, rets } => {
            if all_exist(top.regs, args) {
                let vs = values_in(top.regs, args);
                assert(machine::read_all(top.regs, args)->Ok_0 =~= vs);
                assert(machine::fresh_regs(vp.functions[func.0 as int].reg_count, vs)
                    =~= first_regs(vp.functions[func.0 as int].reg_count, vs));
            }
        },
        OperandsModel::Ret { eff, rets } => {
            if all_exist(top.regs, rets) {
                assert(machine::read_all(top.regs, rets)->Ok_0 =~= values_in(top.regs, rets));
            }
        },
        OperandsModel::Host { eff_out, sig, symbol, eff_in, args, rets } => {
            if machine::all_regs(top.regs, args) {
                assert(machine::read_all(top.regs, args)->Ok_0 =~= values_in(top.regs, args));
            }
        },
        _ => {},
    }
}

/// The operands that an instruction was encoded with are those that are said to be its.
pub proof fn law_operands(
    p: ProgramView,
    x: InstrModel,
    a: u32,
    b: u32,
    c: u32,
    l: Seq<u32>,
    m: Seq<u32>,
)
    ensures
        ({
            let o = disasm::operands_of(p, x);
            &&& x.op is Br && x.operands == seq![
                OperandModel::Word(a),
                OperandModel::Word(b),
                OperandModel::Word(c),
            ] ==> o == (OperandsModel::Br { cond: a, pc_true: b, pc_false: c })
            &&& x.op is Jmp && x.operands == seq![OperandModel::Word(a)] ==> o == (
            OperandsModel::Jmp { pc_target: a })
            &&& x.op is Call && x.operands == call_operands(a, b, c, l, m) ==> o == (
            OperandsModel::Func { eff_out: a, func: FuncId(b), eff_in: c, args: l, rets: m })
            &&& x.op is HostCall && x.operands == call_operands(a, b, c, l, m) ==> (o
                matches OperandsModel::Host { eff_out, sig, symbol, eff_in, args, rets } && eff_out
                == a && sig == HostSigId(b) && eff_in == c && args == l && rets == m)
            &&& x.op is Ret && x.operands == seq![OperandModel::Word(a), OperandModel::List(l)]
                ==> o == (OperandsModel::Ret { eff: a, rets: l })
            &&& !(x.op is Br || x.op is Jmp || x.op is Call || x.op is HostCall || x.op is Ret)
                ==> o is Simple
        }),
{
}

/// The symbol of a host call is the text that the program has for the symbol of the signature.
pub proof fn law_host_symbol(
    p: ProgramView,
    sig: u32,
    before: Seq<char>,
    name: Seq<char>,
    behind: Seq<char>,
)
    requires
        sig < p.host_sigs.len(),
        p.host_sigs[sig as int].symbol.0 < p.symbols.len(),
        names(
            p.symbol_data,
            p.symbols[p.host_sigs[sig as int].symbol.0 as int].bytes,
            before,
            name,
            behind,
        ),
    ensures
        disasm::sig_symbol(p, sig) == Some(name),
{
    lemma_names(
        p.symbol_data,
        p.symbols[p.host_sigs[sig as int].symbol.0 as int].bytes,
        before,
        name,
        behind,
    );
    encode_utf8_decode_utf8(name);
}

// ---------------------------------------------------------------------------------------------
// Registers.
// ---------------------------------------------------------------------------------------------

/// The registers of the first `n` operands whose role is one of two, in order.
pub open spec fn registers(
    roles: Seq<OperandRole>,
    ms: Seq<OperandModel>,
    one: OperandRole,
    many: OperandRole,
    n: nat,
) -> Seq<u32>
    decreases n,
{
    if n == 0 {
        seq![]
    } else {
        registers(roles, ms, one, many, (n - 1) as nat) + if roles[n - 1] == one {
            seq![ms[n - 1]->Word_0]
        } else if roles[n - 1] == many {
            ms[n - 1]->List_0
        } else {
            seq![]
        }
    }
}

/// The registers that an instruction is said to read are its operands that are read, and those that
/// it is said to write its operands that are written, in their order.
#[verifier::spinoff_prover]
#[verifier::rlimit(60)]
pub proof fn law_registers(x: InstrModel)
    ensures
        disasm::reads_of(x) == registers(
            opcode::opcode_roles(x.op),
            x.operands,
            OperandRole::Src,
            OperandRole::SrcList,
            opcode::opcode_roles(x.op).len(),
        ),
        disasm::writes_of(x) == registers(
            opcode::opcode_roles(x.op),
            x.operands,
            OperandRole::Dst,
            OperandRole::DstList,
            opcode::opcode_roles(x.op).len(),
        ),
{
    reveal_with_fuel(registers, 6);
    let roles = opcode::opcode_roles(x.op);
    let n = roles.len();
    assert(disasm::reads_of(x) =~= registers(
        roles,
        x.operands,
        OperandRole::Src,
        OperandRole::SrcList,
        n,
    ));
    assert(disasm::writes_of(x) =~= registers(
        roles,
        x.operands,
        OperandRole::Dst,
        OperandRole::DstList,
        n,
    ));
}

/// What an instruction does depends on no register but those that it is said to read.
pub proof fn law_reads_decide(
    vp: VerifiedView,
    lim: Limits,
    func: int,
    ix: int,
    a: Seq<ValueModel>,
    b: Seq<ValueModel>,
    heap: Seq<crate::aggregates::AggModel>,
    depth: nat,
    calls: u64,
)
    requires
        a.len() == b.len(),
        ({
            let x = vp.functions[func].xs[ix];
            forall|k: int|
                0 <= k < disasm::reads_of(x).len() ==> (#[trigger] disasm::reads_of(x)[k])
                    < a.len() && a[disasm::reads_of(x)[k] as int] == b[disasm::reads_of(
                    x,
                )[k] as int]
        }),
    ensures
        machine::decide(vp, lim, vp.functions[func], ix, a, heap, depth, calls) == machine::decide(
            vp,
            lim,
            vp.functions[func],
            ix,
            b,
            heap,
            depth,
            calls,
        ),
{
    let x = vp.functions[func].xs[ix];
    let rs = disasm::reads_of(x);
    if rs.len() > 0 {
        assert(rs[0] < a.len() && a[rs[0] as int] == b[rs[0] as int]);
    }
    if rs.len() > 1 {
        assert(rs[1] < a.len() && a[rs[1] as int] == b[rs[1] as int]);
    }
    if rs.len() > 2 {
        assert(rs[2] < a.len() && a[rs[2] as int] == b[rs[2] as int]);
    }
    let l = if x.op is TupleNew || x.op is Ret {
        crate::typing::list(x, 1)
    } else if x.op is StructNew || x.op is ArrayNew {
        crate::typing::list(x, 2)
    } else {
        crate::typing::list(x, 3)
    };
    if x.op is TupleNew || x.op is StructNew || x.op is ArrayNew || x.op is Ret || x.op is Call
        || x.op is HostCall {
        let skip: int = if x.op is Ret || x.op is Call || x.op is HostCall {
            1
        } else {
            0
        };
        assert forall|k: int| 0 <= k < l.len() implies (#[trigger] l[k]) < a.len() && a[l[k] as int]
            == b[l[k] as int] by {
            assert(rs[k + skip] == l[k]);
        }
        assert(machine::read_all(a, l) == machine::read_all(b, l)) by {
            assert(machine::read_all(a, l)->Ok_0 =~= machine::read_all(b, l)->Ok_0);
        }
    }
}

/// A step of an instruction that is no call and no return changes no register of the running frame
/// but those that the instruction is said to write.
pub proof fn law_writes_bound(
    vp: VerifiedView,
    lim: Limits,
    st: State,
    reply: Reply,
    x: InstrModel,
    r: int,
)
    requires
        st.frames.len() > 0,
        standing(vp, st, x),
        !(x.op is Call || x.op is HostCall || x.op is Ret),
        0 <= r < st.frames.last().regs.len(),
        forall|k: int|
            0 <= k < disasm::writes_of(x).len() ==> (#[trigger] disasm::writes_of(x)[k]) != r,
    ensures
        machine::step(vp, lim, st, reply) matches Next::Running(s) ==> s.frames.last().regs[r]
            == st.frames.last().regs[r],
{
    let ws = disasm::writes_of(x);
    if ws.len() > 0 {
        assert(ws[0] != r);
    }
}

// ---------------------------------------------------------------------------------------------
// Immediates.
// ---------------------------------------------------------------------------------------------

/// The value of a constant.
pub open spec fn value_of(c: ConstValueModel) -> ValueModel {
    match c {
        ConstValueModel::Unit => ValueModel::Unit,
        ConstValueModel::Bool(b) => ValueModel::Bool(b),
        ConstValueModel::I64(i) => ValueModel::I64(i),
        ConstValueModel::U64(u) => ValueModel::U64(u),
        ConstValueModel::F64Bits(f) => ValueModel::F64(f),
        ConstValueModel::Decimal { mantissa, scale } => ValueModel::Decimal(
            Decimal { mantissa, scale },
        ),
        ConstValueModel::Bytes(b) => ValueModel::Bytes(b),
        ConstValueModel::Str(s) => ValueModel::Str(s),
    }
}

/// The constant that an instruction is said to give is the value that the machine writes, to the
/// register that it is said to write. Only instructions that give a constant are said to, and all of
/// them but those of the pool.
pub proof fn law_disassembled_constants(
    vp: VerifiedView,
    lim: Limits,
    st: State,
    reply: Reply,
    x: InstrModel,
)
    requires
        standing(vp, st, x),
    ensures
        disasm::const_of(vp.program, x) matches Some(c) ==> disasm::writes_of(x).len() == 1 && (
        exists_reg(st, disasm::writes_of(x)[0]) ==> machine::step(vp, lim, st, reply) == wrote(
            st,
            disasm::writes_of(x)[0],
            value_of(c),
        )),
        x.op is ConstUnit || x.op is ConstBool || x.op is ConstI64 || x.op is ConstU64
            || x.op is ConstF64 || x.op is ConstDecimal ==> disasm::const_of(vp.program, x) is Some,
        disasm::const_of(vp.program, x) is Some ==> x.op is ConstUnit || x.op is ConstBool
            || x.op is ConstI64 || x.op is ConstU64 || x.op is ConstF64 || x.op is ConstDecimal
            || x.op is ConstPool,
{
}

/// The index that an instruction is said to have is the one that it was encoded with.
pub proof fn law_index(x: InstrModel, a: u32, b: u32, c: u32, l: Seq<u32>, m: Seq<u32>, scale: u8)
    ensures
        ({
            let i = disasm::index_of(x);
            let wa = OperandModel::Word(a);
            let wb = OperandModel::Word(b);
            let wc = OperandModel::Word(c);
            &&& x.op is Trap && x.operands == seq![wa] ==> i == Some(InputIndex::TrapCode(a))
            &&& x.op is ConstPool && x.operands == seq![wa, wb] ==> i == Some(
                InputIndex::Const(ConstId(b)),
            )
            &&& x.op is Call && x.operands == call_operands(a, b, c, l, m) ==> i == Some(
                InputIndex::Func(FuncId(b)),
            )
            &&& x.op is HostCall && x.operands == call_operands(a, b, c, l, m) ==> i == Some(
                InputIndex::HostSig(HostSigId(b)),
            )
            &&& x.op is StructNew && x.operands == seq![wa, wb, OperandModel::List(l)] ==> i
                == Some(InputIndex::Type(TypeId(b)))
            &&& x.op is ArrayNew && x.operands == seq![wa, wb, OperandModel::List(l)] ==> i == Some(
                InputIndex::ElemType(ElemTypeId(b)),
            )
            &&& (x.op is TupleGet || x.op is StructGet || x.op is ArrayGetImm
                || x.op is BytesGetImm) && x.operands == seq![wa, wb, wc] ==> i == Some(
                InputIndex::Index(c),
            )
            &&& (x.op is I64ToDec || x.op is U64ToDec) && x.operands == seq![
                wa,
                wb,
                OperandModel::Byte(scale),
            ] ==> i == Some(InputIndex::Index(scale as u32))
            &&& (x.op is Br || x.op is Jmp || x.op is Ret || x.op is Mov || x.op is Select
                || x.op is TupleNew || x.op is ConstI64 || x.op is ArrayGet) ==> i is None
        }),
{
}

/// The index that an instruction is said to take of an aggregate or byte string is the one that the
/// machine takes: taking the element by that index gives the same value.
pub proof fn law_disassembled_byte(
    vp: VerifiedView,
    lim: Limits,
    st: State,
    reply: Reply,
    x: InstrModel,
    bytes: Seq<u8>,
)
    requires
        standing(vp, st, x),
        x.op is BytesGetImm,
        disasm::reads_of(x).len() == 1,
        holds(st, disasm::reads_of(x)[0], ValueModel::Bytes(bytes)),
        exists_reg(st, disasm::writes_of(x)[0]),
    ensures
        disasm::index_of(x) matches Some(InputIndex::Index(k)) && machine::step(vp, lim, st, reply)
            == if k < bytes.len() {
            wrote(st, disasm::writes_of(x)[0], ValueModel::U64(bytes[k as int] as u64))
        } else {
            trapped(vp, st, Trap::IndexOutOfBounds)
        },
{
}

// ---------------------------------------------------------------------------------------------
// Labels.
// ---------------------------------------------------------------------------------------------

/// Where the machine goes on anywhere but at the next instruction of a function, the function has a
/// label there.
pub proof fn law_jumps_go_to_labels(
    vp: VerifiedView,
    lim: Limits,
    st: State,
    reply: Reply,
    x: InstrModel,
    labels: Seq<u32>,
)
    requires
        st.frames.len() > 0,
        standing(vp, st, x),
        !(x.op is Call || x.op is Ret),
        disasm::is_labels(labels, running(vp, st)),
        forall|i: int| 0 <= i < running(vp, st).len() ==> (#[trigger] running(vp, st)[i]).offset
            <= u32::MAX,
    ensures
        machine::step(vp, lim, st, reply) matches Next::Running(s) ==> s.frames.last().ix
            == st.frames.last().ix + 1 || (0 <= s.frames.last().ix < running(vp, st).len()
            && labels.contains(running(vp, st)[s.frames.last().ix].offset as u32)),
{
    let xs = running(vp, st);
    let top = st.frames.last();
    if x.op is Br {
        let t = crate::typing::word(x, 1);
        let f = crate::typing::word(x, 2);
        assert(disasm::targets(xs[top.ix], t) && disasm::targets(xs[top.ix], f));
        assert(disasm::is_target(xs, t) && disasm::is_target(xs, f));
        if let Some(j) = crate::verify::index_at(xs, t) {
            law_index_at(xs, t, j);
        }
        if let Some(j) = crate::verify::index_at(xs, f) {
            law_index_at(xs, f, j);
        }
    }
    if x.op is Jmp {
        let t = crate::typing::word(x, 0);
        assert(disasm::targets(xs[top.ix], t));
        assert(disasm::is_target(xs, t));
        if let Some(j) = crate::verify::index_at(xs, t) {
            law_index_at(xs, t, j);
        }
    }
}

/// A position that is not the start has a label only where a branch or a jump names it.
pub proof fn law_labels_are_named(xs: Seq<InstrModel>, labels: Seq<u32>, pc: u32)
    requires
        disasm::is_labels(labels, xs),
        pc != 0,
        forall|i: int|
            0 <= i < xs.len() ==> {
                &&& (#[trigger] xs[i]).op is Br ==> xs[i].operands.len() == 3
                    && xs[i].operands[1] != OperandModel::Word(pc) && xs[i].operands[2]
                    != OperandModel::Word(pc) && xs[i].operands[1] is Word
                    && xs[i].operands[2] is Word
                &&& xs[i].op is Jmp ==> xs[i].operands.len() == 1 && xs[i].operands[0]
                    != OperandModel::Word(pc) && xs[i].operands[0] is Word
            },
    ensures
        !labels.contains(pc),
{
    if disasm::is_target(xs, pc) {
        let k = choose|k: int| 0 <= k < xs.len() && disasm::targets(#[trigger] xs[k], pc);
        assert(xs[k].op is Br || xs[k].op is Jmp);
    }
}

} // verus!
