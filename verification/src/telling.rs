//! What a run tells a trace sink, and what it asks of outside.

use vstd::prelude::*;

use crate::access::AccessModel;
use crate::flow::{
    all_exist, at_host_call, call_operands, law_host_request, running, values_in,
};
use crate::host::SigHash;
use crate::ieee::{FloatCall, FloatOp};
use crate::machine;
use crate::machine::{HostAnswer, Limits, Next, Reply, State};
use crate::meaning::{at_one, at_two, exists_reg, holds, stands_at};
use crate::opcode;
use crate::opcode::Opcode;
use crate::program::HostSigId;
use crate::bytecode::OperandModel;
use crate::strict;
use crate::strict::HostCall;
use crate::trace::{ScopeKind, TraceEvent, TraceMask};
use crate::trap::TrapInfo;
use crate::value::{FuncId, ValueModel};
use crate::verify::VerifiedView;

verus! {

// ---------------------------------------------------------------------------------------------
// Events.
// ---------------------------------------------------------------------------------------------

/// Where instructions are asked for, the first that is told of a step is the instruction with its
/// position, the position behind it, its span and its opcode. Otherwise no instruction is told.
pub proof fn law_instruction_told(
    vp: VerifiedView,
    lim: Limits,
    mask: TraceMask,
    st: State,
    reply: Reply,
)
    requires
        st.fuel > 0,
        st.frames.last().func.0 < vp.functions.len(),
        0 <= st.frames.last().ix < running(vp, st).len(),
    ensures
        ({
            let top = st.frames.last();
            let v = vp.functions[top.func.0 as int];
            let events = machine::step_events(vp, lim, mask, st, reply);
            &&& mask.instr ==> events.len() > 0 && events[0] == (TraceEvent::Instr {
                program: vp.program,
                func: top.func,
                pc: v.xs[top.ix].offset as u32,
                next_pc: if top.ix + 1 < v.xs.len() {
                    v.xs[top.ix + 1].offset as u32
                } else {
                    v.byte_len
                },
                span_id: v.spans[top.ix],
                opcode: opcode::opcode_byte(v.xs[top.ix].op),
            })
            &&& forall|k: int|
                0 <= k < events.len() && (k > 0 || !mask.instr) ==> !((#[trigger] events[k])
                    is Instr)
        }),
{
}

/// Nothing is told of a step for which there is no fuel.
pub proof fn law_nothing_told_without_fuel(
    vp: VerifiedView,
    lim: Limits,
    mask: TraceMask,
    st: State,
    reply: Reply,
)
    requires
        st.fuel == 0,
    ensures
        machine::step_events(vp, lim, mask, st, reply).len() == 0,
{
}

/// Where calls are asked for, a call tells of the frame that is entered, one deeper than the caller,
/// and a return of the frame that is left.
pub proof fn law_calls_told(
    vp: VerifiedView,
    lim: Limits,
    mask: TraceMask,
    st: State,
    reply: Reply,
    eff_out: u32,
    func: u32,
    eff_in: u32,
    args: Seq<u32>,
    rets: Seq<u32>,
)
    requires
        !mask.instr,
        st.frames.len() < usize::MAX,
        exists_reg(st, eff_out),
        all_exist(st.frames.last().regs, args),
        all_exist(st.frames.last().regs, rets),
        func < vp.functions.len(),
        func < vp.program.functions.len(),
        args.len() == vp.program.functions[func as int].arg_count,
        st.frames.len() < lim.max_call_depth,
    ensures
        ({
            let top = st.frames.last();
            let v = vp.functions[top.func.0 as int];
            let events = machine::step_events(vp, lim, mask, st, reply);
            let callee = vp.functions[func as int];
            let at_call = stands_at(
                vp,
                st,
                Opcode::Call,
                call_operands(eff_out, func, eff_in, args, rets),
            );
            let at_ret = stands_at(
                vp,
                st,
                Opcode::Ret,
                seq![OperandModel::Word(eff_in), OperandModel::List(rets)],
            );
            &&& at_call && mask.call ==> events == seq![
                TraceEvent::Enter {
                    program: vp.program,
                    kind: ScopeKind::CallFrame { func: FuncId(func) },
                    depth: (st.frames.len() + 1) as usize,
                    func: FuncId(func),
                    pc: 0,
                    span_id: if callee.spans.len() > 0 {
                        callee.spans[0]
                    } else {
                        None
                    },
                },
            ]
            &&& at_ret && mask.call ==> events == seq![
                TraceEvent::Exit {
                    program: vp.program,
                    kind: ScopeKind::CallFrame { func: top.func },
                    depth: st.frames.len() as usize,
                    func: top.func,
                    pc: v.xs[top.ix].offset as u32,
                    span_id: v.spans[top.ix],
                },
            ]
            &&& (at_call || at_ret) && !mask.call ==> events.len() == 0
        }),
{
}

/// Where host calls are asked for, a host call tells that it is entered, and that it is left where
/// the host did not fail. What was asked of the host is the symbol, the hash and the values of the
/// argument registers.
pub proof fn law_host_call_told(
    vp: VerifiedView,
    lim: Limits,
    mask: TraceMask,
    st: State,
    reply: Reply,
    eff_out: u32,
    sig: u32,
    eff_in: u32,
    args: Seq<u32>,
    rets: Seq<u32>,
    before: Seq<char>,
    name: Seq<char>,
    behind: Seq<char>,
)
    requires
        !mask.instr,
        at_host_call(vp, lim, st, eff_out, sig, eff_in, args, rets, before, name, behind),
        st.host_calls < lim.max_host_calls,
    ensures
        ({
            let top = st.frames.last();
            let v = vp.functions[top.func.0 as int];
            let events = machine::step_events(vp, lim, mask, st, reply);
            let s = vp.program.host_sigs[sig as int];
            let kind = ScopeKind::HostCall {
                host_sig: HostSigId(sig),
                symbol: s.symbol,
                sig_hash: s.sig_hash,
            };
            let enter = TraceEvent::Enter {
                program: vp.program,
                kind,
                depth: st.frames.len() as usize,
                func: top.func,
                pc: v.xs[top.ix].offset as u32,
                span_id: v.spans[top.ix],
            };
            let exit = TraceEvent::Exit {
                program: vp.program,
                kind,
                depth: st.frames.len() as usize,
                func: top.func,
                pc: v.xs[top.ix].offset as u32,
                span_id: v.spans[top.ix],
            };
            &&& mask.host && reply.host is Ok ==> events == seq![enter, exit]
            &&& mask.host && reply.host is Err ==> events == seq![enter]
            &&& !mask.host ==> events.len() == 0
            &&& machine::step_hosts(vp, lim, st, reply) == seq![
                HostAnswer {
                    text: vstd::utf8::encode_utf8(name),
                    sig_hash: s.sig_hash,
                    args: values_in(top.regs, args),
                    reply: reply.host,
                },
            ]
        }),
{
    law_host_request(
        vp,
        lim,
        st,
        eff_out,
        sig,
        eff_in,
        args,
        rets,
        before,
        name,
        behind,
    );
}

/// Where runs are asked for, a run tells of its start first and of its end last, with the trap that
/// ended it if one did. What happens in between stands between them.
pub proof fn law_run_told(
    vp: VerifiedView,
    mask: TraceMask,
    entry: FuncId,
    arg_count: nat,
    inner: Seq<TraceEvent>,
    res: Result<Seq<ValueModel>, TrapInfo>,
)
    ensures
        ({
            let events = machine::run_events(vp, mask, entry, arg_count, inner, res);
            &&& mask.run ==> {
                &&& events.len() == inner.len() + 2
                &&& events[0] == (TraceEvent::Start {
                    program: vp.program,
                    entry,
                    arg_count: arg_count as usize,
                })
                &&& events.subrange(1, events.len() - 1) == inner
                &&& events[events.len() - 1] matches TraceEvent::End { program, trap }
                &&& program == vp.program
                &&& res is Ok ==> trap is None
                &&& res matches Err(t) ==> trap == Some(t)
            }
            &&& !mask.run ==> events == inner
        }),
{
    let events = machine::run_events(vp, mask, entry, arg_count, inner, res);
    if mask.run {
        assert(events.subrange(1, events.len() - 1) =~= inner);
    }
}

// ---------------------------------------------------------------------------------------------
// Rounding.
// ---------------------------------------------------------------------------------------------

/// Rounding arithmetic asks one thing of the unit, with the operands in their order. Comparisons and
/// extremes ask nothing.
pub proof fn law_rounding_asked(
    vp: VerifiedView,
    lim: Limits,
    st: State,
    reply: Reply,
    dst: u32,
    a: u32,
    b: u32,
    x: u64,
    y: u64,
    op: Opcode,
)
    requires
        holds(st, a, ValueModel::F64(x)),
        holds(st, b, ValueModel::F64(y)),
        at_two(vp, st, op, dst, a, b),
    ensures
        ({
            let asked = machine::step_floats(vp, lim, st, reply);
            let bits = reply.float;
            &&& op is F64Add ==> asked == seq![FloatCall { op: FloatOp::Sum, a: x, b: y, bits }]
            &&& op is F64Sub ==> asked == seq![
                FloatCall { op: FloatOp::Difference, a: x, b: y, bits },
            ]
            &&& op is F64Mul ==> asked == seq![FloatCall { op: FloatOp::Product, a: x, b: y, bits }]
            &&& op is F64Div ==> asked == seq![FloatCall { op: FloatOp::Quotient, a: x, b: y, bits }]
            &&& op is F64Rem ==> asked == seq![
                FloatCall { op: FloatOp::Remainder, a: x, b: y, bits },
            ]
            &&& op is F64Eq || op is F64Lt || op is F64Gt || op is F64Le || op is F64Ge
                || op is F64Min || op is F64Max || op is F64MinNum || op is F64MaxNum ==> asked.len()
                == 0
        }),
{
}

/// Conversions of integers to floats ask one thing of the unit.
pub proof fn law_conversion_asked(
    vp: VerifiedView,
    lim: Limits,
    st: State,
    reply: Reply,
    dst: u32,
    a: u32,
    u: u64,
    i: i64,
)
    ensures
        holds(st, a, ValueModel::U64(u)) && at_one(vp, st, Opcode::U64ToF64, dst, a)
            ==> machine::step_floats(vp, lim, st, reply) == seq![
            FloatCall { op: FloatOp::FromU64, a: u, b: 0, bits: reply.float },
        ],
        holds(st, a, ValueModel::I64(i)) && at_one(vp, st, Opcode::I64ToF64, dst, a)
            ==> machine::step_floats(vp, lim, st, reply) == seq![
            FloatCall { op: FloatOp::FromI64, a: i as u64, b: 0, bits: reply.float },
        ],
{
}

// ---------------------------------------------------------------------------------------------
// Accesses.
// ---------------------------------------------------------------------------------------------

/// A call in which the host had a sink and recorded nothing.
pub open spec fn is_silent(c: HostCall) -> bool {
    c.accesses is Some && (c.accesses->0).len() == 0
}

/// The call that is noted is the first silent one, unless one was noted before.
pub proof fn law_first_silent_call(
    earlier: Option<(Seq<char>, SigHash)>,
    calls: Seq<HostCall>,
    j: int,
)
    ensures
        earlier is Some ==> strict::noted_after(earlier, calls) == earlier,
        earlier is None && 0 <= j < calls.len() && is_silent(calls[j]) && (forall|k: int|
            0 <= k < j ==> !is_silent(#[trigger] calls[k])) ==> strict::noted_after(earlier, calls)
            == Some((calls[j].symbol, calls[j].sig_hash)),
        earlier is None && (forall|k: int|
            0 <= k < calls.len() ==> !is_silent(#[trigger] calls[k])) ==> strict::noted_after(
            earlier,
            calls,
        ) is None,
    decreases calls.len(),
{
    if calls.len() > 0 {
        let front = calls.drop_last();
        assert(forall|k: int| 0 <= k < front.len() ==> front[k] == calls[k]);
        law_first_silent_call(earlier, front, j);
        if earlier is None && 0 <= j < calls.len() && is_silent(calls[j]) && (forall|k: int|
            0 <= k < j ==> !is_silent(#[trigger] calls[k])) {
            if j < front.len() {
                assert(is_silent(front[j]));
                assert forall|k: int| 0 <= k < j implies !is_silent(#[trigger] front[k]) by {
                    assert(!is_silent(calls[k]));
                }
            } else {
                assert forall|k: int| 0 <= k < front.len() implies !is_silent(
                    #[trigger] front[k],
                ) by {
                    assert(!is_silent(calls[k]));
                }
            }
        }
        if earlier is None && (forall|k: int|
            0 <= k < calls.len() ==> !is_silent(#[trigger] calls[k])) {
            assert forall|k: int| 0 <= k < front.len() implies !is_silent(#[trigger] front[k]) by {
                assert(!is_silent(calls[k]));
            }
            assert(!is_silent(calls[calls.len() - 1]));
        }
    }
}

/// The accesses of two rows of calls are those of the first and then those of the second.
pub proof fn law_told_in_order(a: Seq<HostCall>, b: Seq<HostCall>)
    ensures
        strict::told(a + b) == strict::told(a) + strict::told(b),
    decreases b.len(),
{
    if b.len() == 0 {
        assert(a + b =~= a);
        assert(strict::told(a) + strict::told(b) =~= strict::told(a));
    } else {
        law_told_in_order(a, b.drop_last());
        assert((a + b).drop_last() =~= a + b.drop_last());
        assert((a + b).last() == b.last());
        assert(strict::told(a + b) =~= strict::told(a) + strict::told(b));
    }
}

/// What a host recorded in a call is passed on in order, reads as reads and writes as writes, where
/// it names no output of a node.
pub proof fn law_accesses_passed_on(accesses: Seq<AccessModel>)
    requires
        forall|k: int|
            0 <= k < accesses.len() ==> match #[trigger] accesses[k] {
                AccessModel::Read(key) => !(key is NodeOutput),
                AccessModel::Write(key) => !(key is NodeOutput),
            },
    ensures
        strict::relayed(accesses) == accesses,
    decreases accesses.len(),
{
    if accesses.len() > 0 {
        let front = accesses.drop_last();
        assert forall|k: int| 0 <= k < front.len() implies match #[trigger] front[k] {
            AccessModel::Read(key) => !(key is NodeOutput),
            AccessModel::Write(key) => !(key is NodeOutput),
        } by {
            assert(front[k] == accesses[k]);
        }
        law_accesses_passed_on(front);
        let last = accesses[accesses.len() - 1];
        assert(accesses =~= front.push(last));
    }
}

// ---------------------------------------------------------------------------------------------
// Steps in a row.
// ---------------------------------------------------------------------------------------------

/// One step is what the machine does next, and more steps go on where those before them ended. What
/// they ask and tell is what the first asked and told, and then what the others did. Nothing is
/// done, asked or told after the end.
pub proof fn law_steps_in_a_row(
    vp: VerifiedView,
    lim: Limits,
    mask: TraceMask,
    n: Next,
    a: Seq<Reply>,
    b: Seq<Reply>,
    st: State,
    r: Reply,
)
    ensures
        machine::steps(vp, lim, n, Seq::<Reply>::empty()) == n,
        machine::steps(vp, lim, Next::Running(st), seq![r]) == machine::step(vp, lim, st, r),
        machine::steps(vp, lim, n, a + b) == machine::steps(
            vp,
            lim,
            machine::steps(vp, lim, n, a),
            b,
        ),
        machine::hosts(vp, lim, Next::Running(st), seq![r]) == machine::step_hosts(vp, lim, st, r),
        machine::hosts(vp, lim, n, a + b) == machine::hosts(vp, lim, n, a) + machine::hosts(
            vp,
            lim,
            machine::steps(vp, lim, n, a),
            b,
        ),
        machine::floats(vp, lim, Next::Running(st), seq![r]) == machine::step_floats(
            vp,
            lim,
            st,
            r,
        ),
        machine::floats(vp, lim, n, a + b) == machine::floats(vp, lim, n, a) + machine::floats(
            vp,
            lim,
            machine::steps(vp, lim, n, a),
            b,
        ),
        machine::events(vp, lim, mask, Next::Running(st), seq![r]) == machine::step_events(
            vp,
            lim,
            mask,
            st,
            r,
        ),
        machine::events(vp, lim, mask, n, a + b) == machine::events(vp, lim, mask, n, a)
            + machine::events(vp, lim, mask, machine::steps(vp, lim, n, a), b),
        n is Done ==> machine::steps(vp, lim, n, a) == n && machine::hosts(vp, lim, n, a).len() == 0
            && machine::events(vp, lim, mask, n, a).len() == 0,
    decreases b.len(), a.len(),
{
    let one = seq![r];
    assert(one.drop_last() =~= Seq::empty());
    reveal_with_fuel(machine::steps, 2);
    reveal_with_fuel(machine::hosts, 2);
    reveal_with_fuel(machine::floats, 2);
    reveal_with_fuel(machine::events, 2);
    assert(machine::hosts(vp, lim, Next::Running(st), one) =~= machine::step_hosts(vp, lim, st, r));
    assert(machine::floats(vp, lim, Next::Running(st), one) =~= machine::step_floats(
        vp,
        lim,
        st,
        r,
    ));
    assert(machine::events(vp, lim, mask, Next::Running(st), one) =~= machine::step_events(
        vp,
        lim,
        mask,
        st,
        r,
    ));
    lemma_done(vp, lim, mask, n, a);
    let mid = machine::steps(vp, lim, n, a);
    if b.len() == 0 {
        assert(a + b =~= a);
        assert(machine::hosts(vp, lim, n, a) + machine::hosts(vp, lim, mid, b) =~= machine::hosts(
            vp,
            lim,
            n,
            a,
        ));
        assert(machine::floats(vp, lim, n, a) + machine::floats(vp, lim, mid, b)
            =~= machine::floats(vp, lim, n, a));
        assert(machine::events(vp, lim, mask, n, a) + machine::events(vp, lim, mask, mid, b)
            =~= machine::events(vp, lim, mask, n, a));
    } else {
        law_steps_in_a_row(vp, lim, mask, n, a, b.drop_last(), st, r);
        assert((a + b).drop_last() =~= a + b.drop_last());
        assert((a + b).last() == b.last());
        assert(machine::hosts(vp, lim, n, a + b) =~= machine::hosts(vp, lim, n, a)
            + machine::hosts(vp, lim, mid, b));
        assert(machine::floats(vp, lim, n, a + b) =~= machine::floats(vp, lim, n, a)
            + machine::floats(vp, lim, mid, b));
        assert(machine::events(vp, lim, mask, n, a + b) =~= machine::events(vp, lim, mask, n, a)
            + machine::events(vp, lim, mask, mid, b));
    }
}

proof fn lemma_done(vp: VerifiedView, lim: Limits, mask: TraceMask, n: Next, a: Seq<Reply>)
    ensures
        n is Done ==> machine::steps(vp, lim, n, a) == n && machine::hosts(vp, lim, n, a).len() == 0
            && machine::events(vp, lim, mask, n, a).len() == 0,
    decreases a.len(),
{
    if a.len() > 0 {
        lemma_done(vp, lim, mask, n, a.drop_last());
    }
}

} // verus!
