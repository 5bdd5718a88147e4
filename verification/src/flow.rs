//! What jumps, calls, returns, host calls and aggregates mean.

use vstd::prelude::*;

use crate::aggregates::{AggError, AggKind, AggModel};
use crate::bytecode::{InstrModel, OperandModel};
use crate::machine;
use crate::machine::{FrameModel, HostRequest, Limits, Next, Outcome, Reply, State};
use crate::meaning::{at_one, at_two, exists_reg, holds, stands_at, trapped, wrote};
use crate::opcode::Opcode;
use crate::program::{ByteRange, ElemTypeId, HostSigId, TypeId, ValueType};
use crate::text;
use crate::trap::{Trap, TrapInfo};
use crate::value::{AggHandle, FuncId, ValueModel};
use crate::verify;
use crate::verify::VerifiedView;

verus! {

// ---------------------------------------------------------------------------------------------
// Jumps.
// ---------------------------------------------------------------------------------------------

/// The first instruction at a position.
pub open spec fn starts_at(xs: Seq<InstrModel>, pc: u32, j: int) -> bool {
    &&& 0 <= j < xs.len()
    &&& xs[j].offset == pc
    &&& forall|i: int| 0 <= i < j ==> (#[trigger] xs[i]).offset != pc
}

/// No instruction is at a position.
pub open spec fn nothing_at(xs: Seq<InstrModel>, pc: u32) -> bool {
    forall|i: int| 0 <= i < xs.len() ==> (#[trigger] xs[i]).offset != pc
}

proof fn lemma_index_from(xs: Seq<InstrModel>, pc: u32, k: int, j: int)
    requires
        0 <= k <= j,
        starts_at(xs, pc, j),
    ensures
        verify::index_from(xs, pc, k) == Some(j),
    decreases j - k,
{
    if k < j {
        assert(xs[k].offset != pc);
        lemma_index_from(xs, pc, k + 1, j);
    }
}

proof fn lemma_index_none(xs: Seq<InstrModel>, pc: u32, k: int)
    requires
        0 <= k,
        nothing_at(xs, pc),
    ensures
        verify::index_from(xs, pc, k) is None,
    decreases xs.len() - k,
{
    if k < xs.len() {
        assert(xs[k].offset != pc);
        lemma_index_none(xs, pc, k + 1);
    }
}

/// The index of a position is that of the first instruction there.
pub proof fn law_index_at(xs: Seq<InstrModel>, pc: u32, j: int)
    ensures
        starts_at(xs, pc, j) <==> verify::index_at(xs, pc) == Some(j),
        nothing_at(xs, pc) <==> verify::index_at(xs, pc) is None,
{
    if nothing_at(xs, pc) {
        lemma_index_none(xs, pc, 0);
    } else {
        let i = choose|i: int| 0 <= i < xs.len() && (#[trigger] xs[i]).offset == pc;
        lemma_first(xs, pc, i);
        let f = choose|f: int| starts_at(xs, pc, f);
        lemma_index_from(xs, pc, 0, f);
        if starts_at(xs, pc, j) {
            lemma_index_from(xs, pc, 0, j);
        }
    }
}

proof fn lemma_first(xs: Seq<InstrModel>, pc: u32, i: int)
    requires
        0 <= i < xs.len(),
        xs[i].offset == pc,
    ensures
        exists|f: int| starts_at(xs, pc, f),
    decreases i,
{
    if forall|k: int| 0 <= k < i ==> (#[trigger] xs[k]).offset != pc {
        assert(starts_at(xs, pc, i));
    } else {
        let k = choose|k: int| 0 <= k < i && (#[trigger] xs[k]).offset == pc;
        lemma_first(xs, pc, k);
    }
}

/// The state after a jump: the running frame goes on at another instruction, one unit of fuel is
/// used up, and nothing else changes.
pub open spec fn went(st: State, j: int) -> Next {
    let top = st.frames.last();
    Next::Running(
        State {
            frames: st.frames.drop_last().push(
                FrameModel { func: top.func, ix: j, regs: top.regs },
            ),
            heap: st.heap,
            fuel: (st.fuel - 1) as u64,
            host_calls: st.host_calls,
        },
    )
}

/// The instructions of the running function.
pub open spec fn running(vp: VerifiedView, st: State) -> Seq<InstrModel> {
    vp.functions[st.frames.last().func.0 as int].xs
}

/// A branch goes to its first position where the condition holds, and to its second where it does
/// not. A jump goes to its position.
pub proof fn law_jumps(
    vp: VerifiedView,
    lim: Limits,
    st: State,
    reply: Reply,
    c: u32,
    cond: bool,
    pc_true: u32,
    pc_false: u32,
    j: int,
)
    ensures
        ({
            let next = machine::step(vp, lim, st, reply);
            let xs = running(vp, st);
            let at_br = stands_at(
                vp,
                st,
                Opcode::Br,
                seq![
                    OperandModel::Word(c),
                    OperandModel::Word(pc_true),
                    OperandModel::Word(pc_false),
                ],
            );
            let at_jmp = stands_at(vp, st, Opcode::Jmp, seq![OperandModel::Word(pc_true)]);
            &&& at_br && holds(st, c, ValueModel::Bool(true)) && starts_at(xs, pc_true, j)
                ==> next == went(st, j)
            &&& at_br && holds(st, c, ValueModel::Bool(false)) && starts_at(xs, pc_false, j)
                ==> next == went(st, j)
            &&& at_br && holds(st, c, ValueModel::Bool(true)) && nothing_at(xs, pc_true)
                ==> next == trapped(vp, st, Trap::InvalidPc)
            &&& at_br && holds(st, c, ValueModel::Bool(false)) && nothing_at(xs, pc_false)
                ==> next == trapped(vp, st, Trap::InvalidPc)
            &&& at_jmp && starts_at(xs, pc_true, j) ==> next == went(st, j)
            &&& at_jmp && nothing_at(xs, pc_true) ==> next == trapped(vp, st, Trap::InvalidPc)
        }),
{
    let xs = running(vp, st);
    law_index_at(xs, pc_true, j);
    law_index_at(xs, pc_false, j);
}

/// Without fuel the run ends where it stands.
pub proof fn law_out_of_fuel(vp: VerifiedView, lim: Limits, st: State, reply: Reply)
    requires
        st.fuel == 0,
    ensures
        machine::step(vp, lim, st, reply) matches Next::Done(Err(info), heap) && info.trap
            is FuelExceeded && info.func == st.frames.last().func && heap == st.heap,
        st.frames.last().func.0 < vp.functions.len() && 0 <= st.frames.last().ix < running(
            vp,
            st,
        ).len() ==> (machine::step(vp, lim, st, reply) matches Next::Done(Err(info), heap)
            && info.pc == running(vp, st)[st.frames.last().ix].offset as u32),
{
}

// ---------------------------------------------------------------------------------------------
// Calls.
// ---------------------------------------------------------------------------------------------

/// The function has all of the registers.
pub open spec fn all_exist(regs: Seq<ValueModel>, rs: Seq<u32>) -> bool {
    forall|k: int| 0 <= k < rs.len() ==> (#[trigger] rs[k]) < regs.len()
}

/// The values of registers, in order.
pub open spec fn values_in(regs: Seq<ValueModel>, rs: Seq<u32>) -> Seq<ValueModel> {
    Seq::new(rs.len(), |k: int| regs[rs[k] as int])
}

/// Registers after values went to some of them, one after the other: where a register is named
/// twice, the last value stays.
pub open spec fn assigned(
    before: Seq<ValueModel>,
    rs: Seq<u32>,
    vs: Seq<ValueModel>,
    after: Seq<ValueModel>,
) -> bool {
    &&& after.len() == before.len()
    &&& forall|k: int|
        #![trigger rs[k]]
        0 <= k < rs.len() && (forall|j: int| k < j < rs.len() ==> (#[trigger] rs[j]) != rs[k])
            ==> after[rs[k] as int] == vs[k]
    &&& forall|r: int|
        0 <= r < before.len() && (forall|j: int| 0 <= j < rs.len() ==> (#[trigger] rs[j]) != r)
            ==> #[trigger] after[r] == before[r]
}

proof fn lemma_assigned(before: Seq<ValueModel>, rs: Seq<u32>, vs: Seq<ValueModel>)
    requires
        rs.len() == vs.len(),
        all_exist(before, rs),
    ensures
        assigned(before, rs, vs, machine::write_all(before, rs, vs)),
    decreases rs.len(),
{
    if rs.len() > 0 {
        let fr = rs.drop_last();
        let fv = vs.drop_last();
        let n = rs.len() - 1;
        assert(all_exist(before, fr)) by {
            assert forall|k: int| 0 <= k < fr.len() implies (#[trigger] fr[k]) < before.len() by {
                assert(rs[k] < before.len());
            }
        }
        lemma_assigned(before, fr, fv);
        let mid = machine::write_all(before, fr, fv);
        let after = machine::write_all(before, rs, vs);
        assert(rs[n] < before.len());
        assert(after == mid.update(rs[n] as int, vs[n]));
        assert forall|k: int|
            #![trigger rs[k]]
            0 <= k < rs.len() && (forall|j: int|
                k < j < rs.len() ==> (#[trigger] rs[j]) != rs[k]) implies after[rs[k] as int]
            == vs[k] by {
            if k < n {
                assert(fr[k] == rs[k]);
                assert(rs[n] != rs[k]);
                assert forall|j: int| k < j < fr.len() implies (#[trigger] fr[j]) != fr[k] by {
                    assert(rs[j] != rs[k]);
                }
                assert(mid[fr[k] as int] == fv[k]);
            }
        }
        assert forall|r: int|
            0 <= r < before.len() && (forall|j: int|
                0 <= j < rs.len() ==> (#[trigger] rs[j]) != r) implies #[trigger] after[r]
            == before[r] by {
            assert(rs[n] != r);
            assert forall|j: int| 0 <= j < fr.len() implies (#[trigger] fr[j]) != r by {
                assert(rs[j] != r);
            }
            assert(mid[r] == before[r]);
        }
    }
}

/// The registers that a function starts with: register 0 is the effect token, the arguments come
/// behind it, and the others have nothing.
pub open spec fn first_regs(n: u32, args: Seq<ValueModel>) -> Seq<ValueModel> {
    Seq::new(
        n as nat,
        |r: int|
            if 1 <= r <= args.len() {
                args[r - 1]
            } else {
                ValueModel::Unit
            },
    )
}

/// The operands of a call.
pub open spec fn call_operands(
    eff_out: u32,
    callee: u32,
    eff_in: u32,
    args: Seq<u32>,
    rets: Seq<u32>,
) -> Seq<OperandModel> {
    seq![
        OperandModel::Word(eff_out),
        OperandModel::Word(callee),
        OperandModel::Word(eff_in),
        OperandModel::List(args),
        OperandModel::List(rets),
    ]
}

/// A call puts a frame of the callee on top, with the values of the argument registers in order.
/// The caller gets the effect token back and waits at its next instruction. One call more than the
/// depth allows traps.
pub proof fn law_call(
    vp: VerifiedView,
    lim: Limits,
    st: State,
    reply: Reply,
    eff_out: u32,
    func: u32,
    eff_in: u32,
    args: Seq<u32>,
    rets: Seq<u32>,
)
    requires
        stands_at(vp, st, Opcode::Call, call_operands(eff_out, func, eff_in, args, rets)),
        exists_reg(st, eff_out),
        all_exist(st.frames.last().regs, args),
        func < vp.functions.len(),
        func < vp.program.functions.len(),
        args.len() == vp.program.functions[func as int].arg_count,
    ensures
        ({
            let next = machine::step(vp, lim, st, reply);
            let top = st.frames.last();
            let caller = FrameModel {
                func: top.func,
                ix: top.ix + 1,
                regs: top.regs.update(eff_out as int, ValueModel::Unit),
            };
            let callee = FrameModel {
                func: FuncId(func),
                ix: 0,
                regs: first_regs(
                    vp.functions[func as int].reg_count,
                    values_in(top.regs, args),
                ),
            };
            &&& st.frames.len() < lim.max_call_depth ==> next == Next::Running(
                State {
                    frames: st.frames.drop_last().push(caller).push(callee),
                    heap: st.heap,
                    fuel: (st.fuel - 1) as u64,
                    host_calls: st.host_calls,
                },
            )
            &&& st.frames.len() >= lim.max_call_depth ==> next == trapped(
                vp,
                st,
                Trap::CallDepthExceeded,
            )
        }),
{
    let top = st.frames.last();
    let vs = values_in(top.regs, args);
    assert(machine::read_all(top.regs, args)->Ok_0 =~= vs);
    assert(machine::fresh_regs(vp.functions[func as int].reg_count, vs) =~= first_regs(
        vp.functions[func as int].reg_count,
        vs,
    ));
}

/// A return of the entry function ends the run with the values of the return registers in order.
pub proof fn law_return_from_entry(
    vp: VerifiedView,
    lim: Limits,
    st: State,
    reply: Reply,
    eff: u32,
    rs: Seq<u32>,
)
    requires
        stands_at(vp, st, Opcode::Ret, seq![OperandModel::Word(eff), OperandModel::List(rs)]),
        all_exist(st.frames.last().regs, rs),
        st.frames.len() == 1,
    ensures
        machine::step(vp, lim, st, reply) == Next::Done(
            Ok(values_in(st.frames.last().regs, rs)),
            st.heap,
        ),
{
    let top = st.frames.last();
    assert(machine::read_all(top.regs, rs)->Ok_0 =~= values_in(top.regs, rs));
}

/// A return to a caller takes the running frame away and writes the values of the return registers,
/// in order, to the registers that the call names for them. The caller goes on behind its call.
pub proof fn law_return_to_caller(
    vp: VerifiedView,
    lim: Limits,
    st: State,
    reply: Reply,
    eff: u32,
    rs: Seq<u32>,
    eff_out: u32,
    func: u32,
    eff_in: u32,
    args: Seq<u32>,
    rets: Seq<u32>,
)
    requires
        stands_at(vp, st, Opcode::Ret, seq![OperandModel::Word(eff), OperandModel::List(rs)]),
        all_exist(st.frames.last().regs, rs),
        st.frames.len() >= 2,
        ({
            let caller = st.frames[st.frames.len() - 2];
            &&& caller.func.0 < vp.functions.len()
            &&& 1 <= caller.ix <= vp.functions[caller.func.0 as int].xs.len()
            &&& vp.functions[caller.func.0 as int].xs[caller.ix - 1].op is Call
            &&& vp.functions[caller.func.0 as int].xs[caller.ix - 1].operands == call_operands(
                eff_out,
                func,
                eff_in,
                args,
                rets,
            )
            &&& all_exist(caller.regs, rets)
            &&& rets.len() == rs.len()
        }),
    ensures
        machine::step(vp, lim, st, reply) matches Next::Running(s) && {
            let caller = st.frames[st.frames.len() - 2];
            &&& s.frames.len() == st.frames.len() - 1
            &&& s.frames.drop_last() == st.frames.drop_last().drop_last()
            &&& s.frames.last().func == caller.func
            &&& s.frames.last().ix == caller.ix
            &&& assigned(
                caller.regs,
                rets,
                values_in(st.frames.last().regs, rs),
                s.frames.last().regs,
            )
            &&& s.heap == st.heap
            &&& s.fuel == st.fuel - 1
            &&& s.host_calls == st.host_calls
        },
{
    let top = st.frames.last();
    let vs = values_in(top.regs, rs);
    assert(machine::read_all(top.regs, rs)->Ok_0 =~= vs);
    let caller = st.frames[st.frames.len() - 2];
    assert(st.frames.drop_last().last() == caller);
    lemma_assigned(caller.regs, rets, vs);
    let next = machine::step(vp, lim, st, reply);
    assert(next is Running);
    assert((next->Running_0).frames.drop_last() =~= st.frames.drop_last().drop_last());
}

// ---------------------------------------------------------------------------------------------
// Host calls.
// ---------------------------------------------------------------------------------------------

/// The elements of a range that lies in a table.
pub open spec fn in_range<T>(data: Seq<T>, r: ByteRange) -> bool {
    r.offset + r.len <= data.len() && r.offset + r.len <= u32::MAX
}

/// The elements of a range.
pub open spec fn part<T>(data: Seq<T>, r: ByteRange) -> Seq<T> {
    data.subrange(r.offset as int, r.offset + r.len)
}

/// The values have the given types.
pub open spec fn of_types(vs: Seq<ValueModel>, tys: Seq<ValueType>) -> bool {
    &&& vs.len() == tys.len()
    &&& forall|k: int| 0 <= k < vs.len() ==> (#[trigger] vs[k]).ty() == tys[k]
}

proof fn lemma_right_types(vs: Seq<ValueModel>, tys: Seq<ValueType>, k: int)
    requires
        0 <= k,
        of_types(vs, tys),
    ensures
        machine::wrong_type(vs, tys, k) is None,
    decreases vs.len() - k,
{
    if k < vs.len() {
        assert(vs[k].ty() == tys[k]);
        lemma_right_types(vs, tys, k + 1);
    }
}

proof fn lemma_wrong_type(vs: Seq<ValueModel>, tys: Seq<ValueType>, k: int, w: int)
    requires
        0 <= k <= w < vs.len(),
        vs.len() == tys.len(),
        vs[w].ty() != tys[w],
        forall|j: int| 0 <= j < w ==> (#[trigger] vs[j]).ty() == tys[j],
    ensures
        machine::wrong_type(vs, tys, k) == Some(
            Trap::TypeMismatch { expected: tys[w], actual: vs[w].ty() },
        ),
    decreases w - k,
{
    if k < w {
        assert(vs[k].ty() == tys[k]);
        lemma_wrong_type(vs, tys, k + 1, w);
    }
}

/// The running frame stands at a host call that can be made.
pub open spec fn at_host_call(
    vp: VerifiedView,
    lim: Limits,
    st: State,
    eff_out: u32,
    sig: u32,
    eff_in: u32,
    args: Seq<u32>,
    rets: Seq<u32>,
    before: Seq<char>,
    name: Seq<char>,
    behind: Seq<char>,
) -> bool {
    let p = vp.program;
    let hs = p.host_sigs[sig as int];
    &&& stands_at(vp, st, Opcode::HostCall, call_operands(eff_out, sig, eff_in, args, rets))
    &&& exists_reg(st, eff_out)
    &&& all_exist(st.frames.last().regs, args)
    &&& all_exist(st.frames.last().regs, rets)
    &&& sig < p.host_sigs.len()
    &&& hs.symbol.0 < p.symbols.len()
    &&& names(p.symbol_data, p.symbols[hs.symbol.0 as int].bytes, before, name, behind)
    &&& in_range(p.value_types, hs.rets)
}

/// A range of text, with what stands before it and behind it.
pub open spec fn names(
    data: Seq<u8>,
    r: ByteRange,
    before: Seq<char>,
    name: Seq<char>,
    behind: Seq<char>,
) -> bool {
    &&& data == vstd::utf8::encode_utf8(before + name + behind)
    &&& r.offset == vstd::utf8::encode_utf8(before).len()
    &&& r.len == vstd::utf8::encode_utf8(name).len()
    &&& r.offset + r.len <= u32::MAX
}

/// The text of a range that holds a name is that name.
pub proof fn lemma_names(
    data: Seq<u8>,
    r: ByteRange,
    before: Seq<char>,
    name: Seq<char>,
    behind: Seq<char>,
)
    requires
        names(data, r, before, name, behind),
    ensures
        crate::program::text_of(data, r) == Ok::<Seq<u8>, crate::wire::DecodeError>(
            vstd::utf8::encode_utf8(name),
        ),
{
    text::lemma_utf8_concat(before, name);
    text::lemma_utf8_concat(before + name, behind);
    crate::strings::lemma_boundary(before, name + behind);
    assert(before + (name + behind) =~= before + name + behind);
    crate::strings::lemma_boundary(before + name, behind);
    let i = vstd::utf8::encode_utf8(before).len() as int;
    assert(data.subrange(i, i + vstd::utf8::encode_utf8(name).len()) =~= vstd::utf8::encode_utf8(
        name,
    ));
}

/// What a host is asked: the symbol and the hash of the signature, and the values of the argument
/// registers in order.
pub proof fn law_host_request(
    vp: VerifiedView,
    lim: Limits,
    st: State,
    eff_out: u32,
    sig: u32,
    eff_in: u32,
    args: Seq<u32>,
    rets: Seq<u32>,
    before: Seq<char>,
    name: Seq<char>,
    behind: Seq<char>,
)
    requires
        at_host_call(vp, lim, st, eff_out, sig, eff_in, args, rets, before, name, behind),
        st.host_calls < lim.max_host_calls,
    ensures
        ({
            let top = st.frames.last();
            let hs = vp.program.host_sigs[sig as int];
            machine::decide(
                vp,
                lim,
                vp.functions[top.func.0 as int],
                top.ix,
                top.regs,
                st.heap,
                st.frames.len(),
                st.host_calls,
            ) == (Outcome::Host {
                eff: eff_out,
                rets,
                request: HostRequest {
                    sig: HostSigId(sig),
                    symbol: hs.symbol,
                    text: vstd::utf8::encode_utf8(name),
                    sig_hash: hs.sig_hash,
                    args: values_in(top.regs, args),
                    ret_types: part(vp.program.value_types, hs.rets),
                },
            })
        }),
{
    let p = vp.program;
    let hs = p.host_sigs[sig as int];
    lemma_names(p.symbol_data, p.symbols[hs.symbol.0 as int].bytes, before, name, behind);
    let top = st.frames.last();
    assert(machine::read_all(top.regs, args)->Ok_0 =~= values_in(top.regs, args));
}

/// What follows from the reply of a host: values of the return types of the signature go to the
/// return registers in order, and the fuel that the host asks for is used up besides that of the
/// instruction, as far as there is any. Values of another number or of another type trap, and so
/// does a failure of the host.
pub proof fn law_host_reply(
    vp: VerifiedView,
    lim: Limits,
    st: State,
    reply: Reply,
    eff_out: u32,
    sig: u32,
    eff_in: u32,
    args: Seq<u32>,
    rets: Seq<u32>,
    before: Seq<char>,
    name: Seq<char>,
    behind: Seq<char>,
)
    requires
        st.frames.len() > 0,
        at_host_call(vp, lim, st, eff_out, sig, eff_in, args, rets, before, name, behind),
    ensures
        ({
            let next = machine::step(vp, lim, st, reply);
            let top = st.frames.last();
            let tys = part(vp.program.value_types, vp.program.host_sigs[sig as int].rets);
            if st.host_calls >= lim.max_host_calls {
                next == trapped(vp, st, Trap::HostCallLimitExceeded)
            } else {
                match reply.host {
                    Err(e) => next == trapped(vp, st, Trap::HostCallFailed(e)),
                    Ok((vs, extra)) => {
                        &&& of_types(vs, tys) && vs.len() == rets.len() ==> {
                            &&& next matches Next::Running(s)
                            &&& s.frames.drop_last() == st.frames.drop_last()
                            &&& s.frames.len() == st.frames.len()
                            &&& s.frames.last().func == top.func
                            &&& s.frames.last().ix == top.ix + 1
                            &&& assigned(
                                top.regs.update(eff_out as int, ValueModel::Unit),
                                rets,
                                vs,
                                s.frames.last().regs,
                            )
                            &&& s.heap == st.heap
                            &&& s.fuel == if st.fuel - 1 >= extra {
                                st.fuel - 1 - extra
                            } else {
                                0
                            }
                            &&& s.host_calls == st.host_calls + 1
                        }
                        &&& vs.len() != tys.len() && vs.len() <= u32::MAX ==> next == trapped(
                            vp,
                            st,
                            Trap::HostReturnArityMismatch {
                                expected: tys.len() as u32,
                                actual: vs.len() as u32,
                            },
                        )
                        &&& forall|k: int|
                            vs.len() == tys.len() && vs.len() == rets.len() && 0 <= k < vs.len()
                                && (#[trigger] vs[k]).ty() != tys[k] && (forall|j: int|
                                0 <= j < k ==> (#[trigger] vs[j]).ty() == tys[j]) ==> next
                                == trapped(
                                vp,
                                st,
                                Trap::TypeMismatch { expected: tys[k], actual: vs[k].ty() },
                            )
                    },
                }
            }
        }),
{
    let p = vp.program;
    let hs = p.host_sigs[sig as int];
    lemma_names(p.symbol_data, p.symbols[hs.symbol.0 as int].bytes, before, name, behind);
    let top = st.frames.last();
    assert(machine::read_all(top.regs, args)->Ok_0 =~= values_in(top.regs, args));
    let next = machine::step(vp, lim, st, reply);
    let tys = part(p.value_types, hs.rets);
    if st.host_calls < lim.max_host_calls {
        if let Ok((vs, extra)) = reply.host {
            if of_types(vs, tys) && vs.len() == rets.len() {
                lemma_right_types(vs, tys, 0);
                let regs = top.regs.update(eff_out as int, ValueModel::Unit);
                lemma_assigned(regs, rets, vs);
                assert((next->Running_0).frames.drop_last() =~= st.frames.drop_last());
            }
            assert forall|k: int|
                vs.len() == tys.len() && vs.len() == rets.len() && 0 <= k < vs.len()
                    && (#[trigger] vs[k]).ty() != tys[k] && (forall|j: int|
                    0 <= j < k ==> (#[trigger] vs[j]).ty() == tys[j]) implies next == trapped(
                vp,
                st,
                Trap::TypeMismatch { expected: tys[k], actual: vs[k].ty() },
            ) by {
                lemma_wrong_type(vs, tys, 0, k);
            }
        }
    }
}

// ---------------------------------------------------------------------------------------------
// Aggregates.
// ---------------------------------------------------------------------------------------------

/// The state after an aggregate was made: it is the last of the heap, and the register has its
/// handle.
pub open spec fn made(st: State, dst: u32, kind: AggKind, values: Seq<ValueModel>) -> Next {
    let top = st.frames.last();
    Next::Running(
        State {
            frames: st.frames.drop_last().push(
                FrameModel {
                    func: top.func,
                    ix: top.ix + 1,
                    regs: top.regs.update(
                        dst as int,
                        ValueModel::Agg(AggHandle(st.heap.len() as u32)),
                    ),
                },
            ),
            heap: st.heap.push(AggModel { kind, values }),
            fuel: (st.fuel - 1) as u64,
            host_calls: st.host_calls,
        },
    )
}

/// A new aggregate has the values of the given registers, in order.
pub proof fn law_new_aggregate(
    vp: VerifiedView,
    lim: Limits,
    st: State,
    reply: Reply,
    dst: u32,
    t: u32,
    rs: Seq<u32>,
)
    requires
        exists_reg(st, dst),
        all_exist(st.frames.last().regs, rs),
        st.heap.len() <= u32::MAX,
    ensures
        ({
            let next = machine::step(vp, lim, st, reply);
            let values = values_in(st.frames.last().regs, rs);
            let d = OperandModel::Word(dst);
            let id = OperandModel::Word(t);
            let list = OperandModel::List(rs);
            let types = vp.program.types;
            &&& stands_at(vp, st, Opcode::TupleNew, seq![d, list]) ==> next == made(
                st,
                dst,
                AggKind::Tuple,
                values,
            )
            &&& stands_at(vp, st, Opcode::StructNew, seq![d, id, list]) && t < types.structs.len()
                && in_range(types.field_types, types.structs[t as int].field_types)
                && types.structs[t as int].field_types.len == rs.len() ==> next == made(
                st,
                dst,
                AggKind::Struct(TypeId(t)),
                values,
            )
            &&& stands_at(vp, st, Opcode::StructNew, seq![d, id, list]) && t < types.structs.len()
                && in_range(types.field_types, types.structs[t as int].field_types)
                && types.structs[t as int].field_types.len != rs.len() ==> next == trapped(
                vp,
                st,
                Trap::ArityMismatch,
            )
            &&& stands_at(vp, st, Opcode::ArrayNew, seq![d, id, list])
                && t < types.array_elems.len() ==> next == made(
                st,
                dst,
                AggKind::Array(ElemTypeId(t)),
                values,
            )
        }),
{
    let top = st.frames.last();
    assert(machine::read_all(top.regs, rs)->Ok_0 =~= values_in(top.regs, rs));
}

/// The running frame stands at an instruction that takes element `i` of an aggregate of a kind.
pub open spec fn takes(
    vp: VerifiedView,
    st: State,
    dst: u32,
    a: u32,
    i: u64,
    kind: AggKind,
) -> bool {
    match kind {
        AggKind::Tuple => i <= u32::MAX && at_two(vp, st, Opcode::TupleGet, dst, a, i as u32),
        AggKind::Struct(_) => i <= u32::MAX && at_two(vp, st, Opcode::StructGet, dst, a, i as u32),
        AggKind::Array(_) => {
            ||| i <= u32::MAX && at_two(vp, st, Opcode::ArrayGetImm, dst, a, i as u32)
            ||| exists|b: u32|
                #[trigger] holds(st, b, ValueModel::U64(i)) && at_two(
                    vp,
                    st,
                    Opcode::ArrayGet,
                    dst,
                    a,
                    b,
                )
        },
    }
}

/// Element `i` of an aggregate is the value that it was made with in place `i`. An element that it
/// does not have traps.
pub proof fn law_take_element(
    vp: VerifiedView,
    lim: Limits,
    st: State,
    reply: Reply,
    dst: u32,
    a: u32,
    i: u64,
    h: u32,
)
    requires
        exists_reg(st, dst),
        h < st.heap.len(),
        holds(st, a, ValueModel::Agg(AggHandle(h))),
        takes(vp, st, dst, a, i, st.heap[h as int].kind),
    ensures
        ({
            let next = machine::step(vp, lim, st, reply);
            let values = st.heap[h as int].values;
            let top = st.frames.last();
            let known = vp.functions[top.func.0 as int].element_types[top.ix];
            &&& i < values.len() && known == Some(values[i as int].ty()) ==> next == wrote(
                st,
                dst,
                values[i as int],
            )
            &&& i >= values.len() ==> next == trapped(
                vp,
                st,
                Trap::AggError(AggError::OutOfBounds),
            )
        }),
{
    if st.heap[h as int].kind is Array {
        if !(i <= u32::MAX && at_two(vp, st, Opcode::ArrayGetImm, dst, a, i as u32)) {
            let b = choose|b: u32|
                #[trigger] holds(st, b, ValueModel::U64(i)) && at_two(
                    vp,
                    st,
                    Opcode::ArrayGet,
                    dst,
                    a,
                    b,
                );
            assert(holds(st, b, ValueModel::U64(i)));
        }
    }
}

/// The number of elements of a tuple, of fields of a struct and of elements of an array is that of
/// the values that it was made with. An aggregate of another kind traps, and so does a handle of
/// none.
pub proof fn law_count_elements(
    vp: VerifiedView,
    lim: Limits,
    st: State,
    reply: Reply,
    dst: u32,
    a: u32,
    h: u32,
)
    requires
        exists_reg(st, dst),
        holds(st, a, ValueModel::Agg(AggHandle(h))),
    ensures
        ({
            let next = machine::step(vp, lim, st, reply);
            let tuple = at_one(vp, st, Opcode::TupleLen, dst, a);
            let structure = at_one(vp, st, Opcode::StructFieldCount, dst, a);
            let array = at_one(vp, st, Opcode::ArrayLen, dst, a);
            &&& h < st.heap.len() && (tuple || structure || array) ==> next == if match st.heap[h as int].kind {
                AggKind::Tuple => tuple,
                AggKind::Struct(_) => structure,
                AggKind::Array(_) => array,
            } {
                wrote(st, dst, ValueModel::U64(st.heap[h as int].values.len() as u64))
            } else {
                trapped(vp, st, Trap::AggError(AggError::WrongKind))
            }
            &&& h >= st.heap.len() && (tuple || structure || array) ==> next == trapped(
                vp,
                st,
                Trap::AggError(AggError::InvalidHandle),
            )
        }),
{
}

// ---------------------------------------------------------------------------------------------
// The start of a run.
// ---------------------------------------------------------------------------------------------

/// A run starts with one frame of the entry function, which has the arguments in order, with all
/// of the fuel and without host calls. It is refused where the program does not have the function,
/// where the number of arguments is another, or where one is of another type.
pub proof fn law_start(
    vp: VerifiedView,
    lim: Limits,
    heap: Seq<AggModel>,
    entry: FuncId,
    args: Seq<ValueModel>,
)
    requires
        entry.0 < vp.functions.len(),
        entry.0 < vp.program.functions.len(),
        in_range(
            vp.program.value_types,
            vp.program.functions[entry.0 as int].arg_types,
        ),
        vp.program.functions[entry.0 as int].arg_types.len
            == vp.program.functions[entry.0 as int].arg_count,
    ensures
        ({
            let next = machine::start(vp, lim, heap, entry, args);
            let f = vp.program.functions[entry.0 as int];
            let tys = part(vp.program.value_types, f.arg_types);
            &&& of_types(args, tys) ==> next == Next::Running(
                State {
                    frames: seq![
                        FrameModel {
                            func: entry,
                            ix: 0,
                            regs: first_regs(vp.functions[entry.0 as int].reg_count, args),
                        },
                    ],
                    heap,
                    fuel: lim.fuel,
                    host_calls: 0,
                },
            )
            &&& args.len() != f.arg_count ==> next == Next::Done(
                Err(TrapInfo { func: entry, pc: 0, span_id: None, trap: Trap::InvalidPc }),
                heap,
            )
            &&& forall|k: int|
                args.len() == tys.len() && 0 <= k < args.len() && (#[trigger] args[k]).ty() != tys[k]
                    && (forall|j: int| 0 <= j < k ==> (#[trigger] args[j]).ty() == tys[j]) ==> next
                    == Next::Done(
                    Err(
                        TrapInfo {
                            func: entry,
                            pc: 0,
                            span_id: None,
                            trap: Trap::TypeMismatch { expected: tys[k], actual: args[k].ty() },
                        },
                    ),
                    heap,
                )
        }),
{
    let f = vp.program.functions[entry.0 as int];
    let tys = part(vp.program.value_types, f.arg_types);
    let n = vp.functions[entry.0 as int].reg_count;
    assert(machine::fresh_regs(n, args) =~= first_regs(n, args));
    if of_types(args, tys) {
        lemma_right_types(args, tys, 0);
    }
    assert forall|k: int|
        args.len() == tys.len() && 0 <= k < args.len() && (#[trigger] args[k]).ty() != tys[k] && (
        forall|j: int|
            0 <= j < k ==> (#[trigger] args[j]).ty() == tys[j]) implies machine::wrong_type(
        args,
        tys,
        0,
    ) == Some(Trap::TypeMismatch { expected: tys[k], actual: args[k].ty() }) by {
        lemma_wrong_type(args, tys, 0, k);
    }
}

} // verus!
