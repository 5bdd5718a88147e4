//! The abstract machine: what one instruction does.

use vstd::prelude::*;
use vstd::string::*;
use vstd::utf8::*;

use crate::aggregates;
use crate::aggregates::{AggError, AggKind, AggModel};
use crate::bytecode::InstrModel;
use crate::eval;
use crate::host::{HostError, SigHash};
use crate::ieee::{FloatCall, FloatOp};
use crate::opcode;
use crate::opcode::{Opcode, Shape};
use crate::program;
use crate::program::{ConstEntry, ElemTypeId, HostSigId, ProgramView, SymbolId, TypeId, ValueType};
use crate::trace::{ScopeKind, TraceEvent, TraceMask};
use crate::trap::{Trap, TrapInfo};
use crate::typing;
use crate::value;
use crate::value::{Decimal, FuncId, ValueModel};
use crate::verify;
use crate::verify::{FunctionView, VerifiedView};

verus! {

/// Limits of a run.
#[derive(Copy, Clone, Debug, PartialEq, Eq, Structural)]
pub struct Limits {
    /// Instruction budget. An instruction costs one; host calls may cost more.
    pub fuel: u64,
    /// The greatest number of call frames.
    pub max_call_depth: usize,
    /// The greatest number of host calls.
    pub max_host_calls: u64,
}

impl Default for Limits {
    fn default() -> (l: Self)
        ensures
            l == (Limits { fuel: 1_000_000, max_call_depth: 256, max_host_calls: 1_000_000 }),
    {
        Limits { fuel: 1_000_000, max_call_depth: 256, max_host_calls: 1_000_000 }
    }
}

/// A call frame: the function, the index of its next instruction, and its registers.
#[verifier::ext_equal]
pub struct FrameModel {
    pub func: FuncId,
    pub ix: int,
    pub regs: Seq<ValueModel>,
}

/// The state of a run.
#[verifier::ext_equal]
pub struct State {
    /// The call frames; the last one runs.
    pub frames: Seq<FrameModel>,
    /// The aggregates.
    pub heap: Seq<AggModel>,
    /// The fuel that is left.
    pub fuel: u64,
    /// The number of host calls so far.
    pub host_calls: u64,
}

/// What comes back from outside: the reply of the host, or the bits of a float.
pub struct Reply {
    pub host: Result<(Seq<ValueModel>, u64), HostError>,
    pub float: u64,
}

/// What a host was asked and what it replied.
#[verifier::ext_equal]
pub struct HostAnswer {
    /// The text of the symbol, as UTF-8.
    pub text: Seq<u8>,
    /// Signature hash.
    pub sig_hash: SigHash,
    /// The arguments.
    pub args: Seq<ValueModel>,
    /// The reply.
    pub reply: Result<(Seq<ValueModel>, u64), HostError>,
}

/// A host call.
#[verifier::ext_equal]
pub struct HostRequest {
    /// Host signature.
    pub sig: HostSigId,
    /// Host symbol.
    pub symbol: SymbolId,
    /// The text of the symbol, as UTF-8.
    pub text: Seq<u8>,
    /// Signature hash.
    pub sig_hash: SigHash,
    /// The arguments.
    pub args: Seq<ValueModel>,
    /// The types of the values that must come back.
    pub ret_types: Seq<ValueType>,
}

/// What an instruction does.
pub enum Outcome {
    /// Nothing.
    Skip,
    /// Writes a value to a register.
    Write { dst: u32, value: ValueModel },
    /// Writes the result of rounding arithmetic to a register.
    Float { dst: u32, op: FloatOp, a: u64, b: u64 },
    /// Makes an aggregate and writes its handle to a register.
    Build { dst: u32, node: AggModel },
    /// Goes on at another instruction.
    Goto { ix: int },
    /// Calls a function.
    Call { func: FuncId, eff: u32, args: Seq<ValueModel> },
    /// Returns values.
    Return { values: Seq<ValueModel> },
    /// Calls the host.
    Host { eff: u32, rets: Seq<u32>, request: HostRequest },
    /// Traps.
    Fail { trap: Trap },
}

/// A register.
pub open spec fn reg(regs: Seq<ValueModel>, r: u32) -> Result<ValueModel, Trap> {
    if r < regs.len() {
        Ok(regs[r as int])
    } else {
        Err(Trap::RegOutOfBounds)
    }
}

/// Whether the function has all of the registers.
pub open spec fn all_regs(regs: Seq<ValueModel>, rs: Seq<u32>) -> bool {
    forall|k: int| 0 <= k < rs.len() ==> #[trigger] rs[k] < regs.len()
}

/// Registers in a row.
pub open spec fn read_all(regs: Seq<ValueModel>, rs: Seq<u32>) -> Result<Seq<ValueModel>, Trap> {
    if all_regs(regs, rs) {
        Ok(Seq::new(rs.len(), |k: int| regs[rs[k] as int]))
    } else {
        Err(Trap::RegOutOfBounds)
    }
}

/// A computed value goes to a register.
pub open spec fn put(dst: u32, res: Result<ValueModel, Trap>) -> Outcome {
    match res {
        Ok(value) => Outcome::Write { dst, value },
        Err(trap) => Outcome::Fail { trap },
    }
}

/// The value of a constant.
pub open spec fn const_value(p: ProgramView, idx: u32) -> Result<ValueModel, Trap> {
    if idx >= p.const_pool.len() {
        Err(Trap::ConstOutOfBounds)
    } else {
        match p.const_pool[idx as int] {
            ConstEntry::Unit => Ok(ValueModel::Unit),
            ConstEntry::Bool(b) => Ok(ValueModel::Bool(b)),
            ConstEntry::I64(i) => Ok(ValueModel::I64(i)),
            ConstEntry::U64(u) => Ok(ValueModel::U64(u)),
            ConstEntry::F64(f) => Ok(ValueModel::F64(f)),
            ConstEntry::Decimal { mantissa, scale } => Ok(
                ValueModel::Decimal(Decimal { mantissa, scale }),
            ),
            ConstEntry::Bytes(r) => match program::slice_of(p.const_bytes_data, r) {
                Some(b) => Ok(ValueModel::Bytes(b)),
                None => Err(Trap::InvalidPc),
            },
            ConstEntry::Str(r) => match program::text_of(p.const_str_data, r) {
                Ok(t) => Ok(ValueModel::Str(decode_utf8(t))),
                Err(_) => Err(Trap::InvalidPc),
            },
        }
    }
}

/// Values of one type, where host objects of all types count as one.
pub open spec fn same_class(a: ValueType, b: ValueType) -> bool {
    a == b || (a is Obj && b is Obj)
}

/// An element of an aggregate, which must be of the type that it is known to have.
pub open spec fn take_element(
    heap: Seq<AggModel>,
    a: ValueModel,
    kind: AggKind,
    index: nat,
    known: Option<ValueType>,
) -> Result<ValueModel, Trap> {
    match a {
        ValueModel::Agg(h) => match aggregates::element(heap, h, kind, index) {
            Err(e) => Err(Trap::AggError(e)),
            Ok(v) => if known matches Some(t) && same_class(t, v.ty()) {
                Ok(v)
            } else {
                Err(Trap::InvalidPc)
            },
        },
        _ => Err(Trap::TypeMismatch { expected: ValueType::Agg, actual: a.ty() }),
    }
}

/// The number of elements of an aggregate.
pub open spec fn count_elements(heap: Seq<AggModel>, a: ValueModel, kind: AggKind) -> Result<
    ValueModel,
    Trap,
> {
    match a {
        ValueModel::Agg(h) => match aggregates::elements(heap, h, kind) {
            Err(e) => Err(Trap::AggError(e)),
            Ok(v) => Ok(ValueModel::U64(v.len() as u64)),
        },
        _ => Err(Trap::TypeMismatch { expected: ValueType::Agg, actual: a.ty() }),
    }
}

/// A condition.
pub open spec fn condition(a: ValueModel) -> Result<bool, Trap> {
    match a {
        ValueModel::Bool(b) => Ok(b),
        _ => Err(Trap::TypeMismatch { expected: ValueType::Bool, actual: a.ty() }),
    }
}

/// Going on at a position.
pub open spec fn jump(v: FunctionView, pc: u32) -> Outcome {
    match verify::index_at(v.xs, pc) {
        Some(ix) => Outcome::Goto { ix },
        None => Outcome::Fail { trap: Trap::InvalidPc },
    }
}

/// A host call.
pub open spec fn host_request(p: ProgramView, sig: u32, args: Seq<ValueModel>) -> Option<HostRequest> {
    if sig >= p.host_sigs.len() {
        None
    } else {
        let hs = p.host_sigs[sig as int];
        match (p.symbol(hs.symbol), program::slice_of(p.value_types, hs.rets)) {
            (Ok(text), Some(ret_types)) => Some(
                HostRequest {
                    sig: HostSigId(sig),
                    symbol: hs.symbol,
                    text,
                    sig_hash: hs.sig_hash,
                    args,
                    ret_types,
                },
            ),
            _ => None,
        }
    }
}

/// What an instruction on one value does.
pub open spec fn decide_unary(heap: Seq<AggModel>, op: Opcode, dst: u32, a: ValueModel) -> Outcome {
    match op {
        Opcode::TupleLen => put(dst, count_elements(heap, a, AggKind::Tuple)),
        Opcode::StructFieldCount => put(dst, count_elements(heap, a, AggKind::Struct(TypeId(0)))),
        Opcode::ArrayLen => put(dst, count_elements(heap, a, AggKind::Array(ElemTypeId(0)))),
        _ => match eval::float_request(op, seq![a]) {
            Some((f, x, y)) => Outcome::Float { dst, op: f, a: x, b: y },
            None => put(dst, eval::unary(op, a)),
        },
    }
}

/// What an instruction on two values does. `known` is the type that an element is known to have.
pub open spec fn decide_binary(
    heap: Seq<AggModel>,
    known: Option<ValueType>,
    op: Opcode,
    dst: u32,
    a: ValueModel,
    b: ValueModel,
) -> Outcome {
    if op is ArrayGet {
        match b {
            ValueModel::U64(i) => put(
                dst,
                take_element(heap, a, AggKind::Array(ElemTypeId(0)), i as nat, known),
            ),
            _ => Outcome::Fail {
                trap: Trap::TypeMismatch { expected: ValueType::U64, actual: b.ty() },
            },
        }
    } else {
        match eval::float_request(op, seq![a, b]) {
            Some((f, x, y)) => Outcome::Float { dst, op: f, a: x, b: y },
            None => put(dst, eval::binary(op, a, b)),
        }
    }
}

/// What taking an element by a fixed index does.
pub open spec fn decide_index(
    heap: Seq<AggModel>,
    known: Option<ValueType>,
    op: Opcode,
    dst: u32,
    a: ValueModel,
    index: u32,
) -> Outcome {
    match op {
        Opcode::BytesGetImm => match a {
            ValueModel::Bytes(b) => put(dst, eval::byte_of(b, index as u64)),
            _ => Outcome::Fail {
                trap: Trap::TypeMismatch { expected: ValueType::Bytes, actual: a.ty() },
            },
        },
        Opcode::TupleGet => put(dst, take_element(heap, a, AggKind::Tuple, index as nat, known)),
        Opcode::StructGet => put(
            dst,
            take_element(heap, a, AggKind::Struct(TypeId(0)), index as nat, known),
        ),
        Opcode::ArrayGetImm => put(
            dst,
            take_element(heap, a, AggKind::Array(ElemTypeId(0)), index as nat, known),
        ),
        _ => Outcome::Fail { trap: Trap::InvalidPc },
    }
}

/// What making an aggregate does.
pub open spec fn decide_build(
    dst: u32,
    kind: AggKind,
    values: Result<Seq<ValueModel>, Trap>,
) -> Outcome {
    match values {
        Ok(values) => Outcome::Build { dst, node: AggModel { kind, values } },
        Err(trap) => Outcome::Fail { trap },
    }
}

/// What a call does. `depth` is the number of frames.
pub open spec fn decide_call(
    vp: VerifiedView,
    lim: Limits,
    depth: nat,
    regs: Seq<ValueModel>,
    x: InstrModel,
) -> Outcome {
    let func = typing::word(x, 1);
    if depth >= lim.max_call_depth {
        Outcome::Fail { trap: Trap::CallDepthExceeded }
    } else if func >= vp.functions.len() || func >= vp.program.functions.len() {
        Outcome::Fail { trap: Trap::InvalidPc }
    } else if typing::list(x, 3).len() != vp.program.functions[func as int].arg_count {
        Outcome::Fail { trap: Trap::InvalidPc }
    } else {
        match read_all(regs, typing::list(x, 3)) {
            Ok(args) => Outcome::Call { func: FuncId(func), eff: typing::word(x, 0), args },
            Err(trap) => Outcome::Fail { trap },
        }
    }
}

/// What a host call does. `calls` is the number of host calls so far.
pub open spec fn decide_host(
    p: ProgramView,
    lim: Limits,
    calls: u64,
    regs: Seq<ValueModel>,
    x: InstrModel,
) -> Outcome {
    if calls >= lim.max_host_calls {
        Outcome::Fail { trap: Trap::HostCallLimitExceeded }
    } else {
        match host_request(p, typing::word(x, 1), seq![]) {
            None => Outcome::Fail { trap: Trap::ConstOutOfBounds },
            Some(request) => match read_all(regs, typing::list(x, 3)) {
                Err(trap) => Outcome::Fail { trap },
                Ok(args) => Outcome::Host {
                    eff: typing::word(x, 0),
                    rets: typing::list(x, 4),
                    request: HostRequest { args, ..request },
                },
            },
        }
    }
}

/// What instruction `ix` of a function does to the given registers.
pub open spec fn decide(
    vp: VerifiedView,
    lim: Limits,
    v: FunctionView,
    ix: int,
    regs: Seq<ValueModel>,
    heap: Seq<AggModel>,
    depth: nat,
    calls: u64,
) -> Outcome {
    let x = v.xs[ix];
    let dst = typing::word(x, 0);
    let known = v.element_types[ix];
    match opcode::opcode_shape(x.op) {
        Shape::Nullary => Outcome::Skip,
        Shape::Trap => Outcome::Fail { trap: Trap::TrapCode(typing::word(x, 0)) },
        Shape::ConstUnit => Outcome::Write { dst, value: ValueModel::Unit },
        Shape::ConstBool => Outcome::Write { dst, value: ValueModel::Bool(x.operands[1]->Bool_0) },
        Shape::ConstI64 => Outcome::Write { dst, value: ValueModel::I64(x.operands[1]->I64_0) },
        Shape::ConstU64 => Outcome::Write { dst, value: ValueModel::U64(x.operands[1]->U64_0) },
        Shape::ConstF64 => Outcome::Write { dst, value: ValueModel::F64(x.operands[1]->Bits_0) },
        Shape::ConstDecimal => Outcome::Write {
            dst,
            value: ValueModel::Decimal(
                Decimal { mantissa: x.operands[1]->I64_0, scale: x.operands[2]->Byte_0 },
            ),
        },
        Shape::ConstPool => put(dst, const_value(vp.program, typing::word(x, 1))),
        Shape::Unary => match reg(regs, typing::word(x, 1)) {
            Ok(a) => decide_unary(heap, x.op, dst, a),
            Err(trap) => Outcome::Fail { trap },
        },
        Shape::Binary => match (reg(regs, typing::word(x, 1)), reg(regs, typing::word(x, 2))) {
            (Ok(a), Ok(b)) => decide_binary(heap, known, x.op, dst, a, b),
            _ => Outcome::Fail { trap: Trap::RegOutOfBounds },
        },
        Shape::ToDec => match reg(regs, typing::word(x, 1)) {
            Ok(a) => put(dst, eval::scaled(x.op, a, x.operands[2]->Byte_0)),
            Err(trap) => Outcome::Fail { trap },
        },
        Shape::Slice => match (
            reg(regs, typing::word(x, 1)),
            reg(regs, typing::word(x, 2)),
            reg(regs, typing::word(x, 3)),
        ) {
            (Ok(a), Ok(s), Ok(e)) => put(dst, eval::sliced(x.op, a, s, e)),
            _ => Outcome::Fail { trap: Trap::RegOutOfBounds },
        },
        Shape::Select => match (
            reg(regs, typing::word(x, 1)),
            reg(regs, typing::word(x, 2)),
            reg(regs, typing::word(x, 3)),
        ) {
            (Ok(c), Ok(a), Ok(b)) => match condition(c) {
                Ok(c) => Outcome::Write { dst, value: if c { a } else { b } },
                Err(trap) => Outcome::Fail { trap },
            },
            _ => Outcome::Fail { trap: Trap::RegOutOfBounds },
        },
        Shape::IndexGet | Shape::FieldGet => match reg(regs, typing::word(x, 1)) {
            Ok(a) => decide_index(heap, known, x.op, dst, a, typing::word(x, 2)),
            Err(trap) => Outcome::Fail { trap },
        },
        Shape::Br => match reg(regs, typing::word(x, 0)) {
            Ok(a) => match condition(a) {
                Ok(c) => jump(v, if c { typing::word(x, 1) } else { typing::word(x, 2) }),
                Err(trap) => Outcome::Fail { trap },
            },
            Err(trap) => Outcome::Fail { trap },
        },
        Shape::Jmp => jump(v, typing::word(x, 0)),
        Shape::Call => decide_call(vp, lim, depth, regs, x),
        Shape::HostCall => decide_host(vp.program, lim, calls, regs, x),
        Shape::Ret => match read_all(regs, typing::list(x, 1)) {
            Ok(values) => Outcome::Return { values },
            Err(trap) => Outcome::Fail { trap },
        },
        Shape::TupleNew => decide_build(dst, AggKind::Tuple, read_all(regs, typing::list(x, 1))),
        Shape::StructNew => match typing::struct_sig(vp.program, typing::word(x, 1)) {
            None => Outcome::Fail { trap: Trap::TypeIdOutOfBounds },
            Some(fields) => if fields.len() != typing::list(x, 2).len() {
                Outcome::Fail { trap: Trap::ArityMismatch }
            } else {
                decide_build(
                    dst,
                    AggKind::Struct(TypeId(typing::word(x, 1))),
                    read_all(regs, typing::list(x, 2)),
                )
            },
        },
        Shape::ArrayNew => match typing::elem_sig(vp.program, typing::word(x, 1)) {
            None => Outcome::Fail { trap: Trap::ElemTypeIdOutOfBounds },
            Some(_) => decide_build(
                dst,
                AggKind::Array(ElemTypeId(typing::word(x, 1))),
                read_all(regs, typing::list(x, 2)),
            ),
        },
    }
}

// ---------------------------------------------------------------------------------------------
// Steps.
// ---------------------------------------------------------------------------------------------

/// What a step leads to.
pub enum Next {
    /// Another state.
    Running(State),
    /// The end of the run: the values that the entry function returned, or a trap.
    Done(Result<Seq<ValueModel>, TrapInfo>, Seq<AggModel>),
}

/// The registers of a new frame: the effect token, the arguments, and nothing in the others.
pub open spec fn fresh_regs(n: u32, args: Seq<ValueModel>) -> Seq<ValueModel> {
    Seq::new(
        n as nat,
        |r: int|
            if 0 < r <= args.len() {
                args[r - 1]
            } else {
                ValueModel::Unit
            },
    )
}

/// Registers after values were written to some of them, in order.
pub open spec fn write_all(regs: Seq<ValueModel>, rs: Seq<u32>, vs: Seq<ValueModel>) -> Seq<ValueModel>
    decreases rs.len(),
{
    if rs.len() == 0 || vs.len() == 0 {
        regs
    } else {
        write_all(regs, rs.drop_last(), vs.drop_last()).update(rs.last() as int, vs.last())
    }
}

impl FrameModel {
    /// With a register written, at the next instruction.
    pub open spec fn wrote(self, dst: u32, value: ValueModel) -> Self {
        FrameModel { ix: self.ix + 1, regs: self.regs.update(dst as int, value), ..self }
    }
}

impl State {
    /// The running frame.
    pub open spec fn top(self) -> FrameModel {
        self.frames.last()
    }

    /// With another running frame in its place, and less fuel by one.
    pub open spec fn with_top(self, f: FrameModel) -> Self {
        State {
            frames: self.frames.drop_last().push(f),
            fuel: (self.fuel - 1) as u64,
            ..self
        }
    }
}

/// The trap of an instruction.
pub open spec fn trapped(v: FunctionView, st: State, trap: Trap) -> Next {
    let top = st.top();
    Next::Done(
        Err(
            TrapInfo {
                func: top.func,
                pc: verify::pc_of(v, top.ix),
                span_id: v.spans[top.ix],
                trap,
            },
        ),
        st.heap,
    )
}

/// A value goes to a register of the running frame.
pub open spec fn store(v: FunctionView, st: State, dst: u32, value: ValueModel) -> Next {
    if dst < st.top().regs.len() {
        Next::Running(st.with_top(st.top().wrote(dst, value)))
    } else {
        trapped(v, st, Trap::RegOutOfBounds)
    }
}

/// A function is called.
pub open spec fn enter(vp: VerifiedView, v: FunctionView, st: State, func: FuncId, eff: u32, args: Seq<ValueModel>) -> Next {
    if eff < st.top().regs.len() {
        let caller = st.with_top(st.top().wrote(eff, ValueModel::Unit));
        let callee = FrameModel {
            func,
            ix: 0,
            regs: fresh_regs(vp.functions[func.0 as int].reg_count, args),
        };
        Next::Running(State { frames: caller.frames.push(callee), ..caller })
    } else {
        trapped(v, st, Trap::RegOutOfBounds)
    }
}

/// The registers in which a caller wants the values that come back: those of the call before its
/// next instruction.
pub open spec fn return_regs(vp: VerifiedView, caller: FrameModel) -> Option<Seq<u32>> {
    if caller.func.0 >= vp.functions.len() {
        None
    } else {
        let xs = vp.functions[caller.func.0 as int].xs;
        if 1 <= caller.ix <= xs.len() && xs[caller.ix - 1].op is Call {
            Some(typing::list(xs[caller.ix - 1], 4))
        } else {
            None
        }
    }
}

/// A function returns.
pub open spec fn leave(vp: VerifiedView, v: FunctionView, st: State, values: Seq<ValueModel>) -> Next {
    if st.frames.len() == 1 {
        Next::Done(Ok(values), st.heap)
    } else {
        let below = st.frames.drop_last();
        let caller = below.last();
        match return_regs(vp, caller) {
            None => trapped(v, st, Trap::InvalidPc),
            Some(rs) => if rs.len() != values.len() {
                trapped(v, st, Trap::InvalidPc)
            } else if !all_regs(caller.regs, rs) {
                trapped(v, st, Trap::RegOutOfBounds)
            } else {
                Next::Running(
                    State {
                        frames: below.drop_last().push(
                            FrameModel { regs: write_all(caller.regs, rs, values), ..caller },
                        ),
                        fuel: (st.fuel - 1) as u64,
                        ..st
                    },
                )
            },
        }
    }
}

/// The first value that is not of the type that it must have, from number `k` on.
pub open spec fn wrong_type(vs: Seq<ValueModel>, tys: Seq<ValueType>, k: int) -> Option<Trap>
    decreases vs.len() - k,
{
    if k < 0 || k >= vs.len() || k >= tys.len() {
        None
    } else if vs[k].ty() != tys[k] {
        Some(Trap::TypeMismatch { expected: tys[k], actual: vs[k].ty() })
    } else {
        wrong_type(vs, tys, k + 1)
    }
}

/// The host has replied.
pub open spec fn replied(
    v: FunctionView,
    st: State,
    eff: u32,
    rets: Seq<u32>,
    ret_types: Seq<ValueType>,
    reply: Result<(Seq<ValueModel>, u64), HostError>,
) -> Next {
    match reply {
        Err(e) => trapped(v, st, Trap::HostCallFailed(e)),
        Ok((vals, extra)) => if vals.len() != ret_types.len() || vals.len() != rets.len() {
            trapped(
                v,
                st,
                Trap::HostReturnArityMismatch {
                    expected: program::clamp32(ret_types.len()),
                    actual: program::clamp32(vals.len()),
                },
            )
        } else {
            match wrong_type(vals, ret_types, 0) {
                Some(trap) => trapped(v, st, trap),
                None => if eff >= st.top().regs.len() || !all_regs(st.top().regs, rets) {
                    trapped(v, st, Trap::RegOutOfBounds)
                } else {
                    let f = st.top().wrote(eff, ValueModel::Unit);
                    let s = st.with_top(FrameModel { regs: write_all(f.regs, rets, vals), ..f });
                    Next::Running(
                        State {
                            fuel: if s.fuel >= extra {
                                (s.fuel - extra) as u64
                            } else {
                                0
                            },
                            host_calls: (st.host_calls + 1) as u64,
                            ..s
                        },
                    )
                },
            }
        },
    }
}

/// What follows from what an instruction does.
pub open spec fn apply(vp: VerifiedView, v: FunctionView, st: State, o: Outcome, reply: Reply) -> Next {
    let top = st.top();
    match o {
        Outcome::Skip => Next::Running(st.with_top(FrameModel { ix: top.ix + 1, ..top })),
        Outcome::Write { dst, value } => store(v, st, dst, value),
        Outcome::Float { dst, .. } => store(v, st, dst, ValueModel::F64(reply.float)),
        Outcome::Build { dst, node } => match store(
            v,
            st,
            dst,
            ValueModel::Agg(aggregates::next_handle(st.heap)),
        ) {
            Next::Running(s) => Next::Running(State { heap: st.heap.push(node), ..s }),
            done => done,
        },
        Outcome::Goto { ix } => Next::Running(st.with_top(FrameModel { ix, ..top })),
        Outcome::Call { func, eff, args } => enter(vp, v, st, func, eff, args),
        Outcome::Return { values } => leave(vp, v, st, values),
        Outcome::Host { eff, rets, request } => replied(v, st, eff, rets, request.ret_types, reply.host),
        Outcome::Fail { trap } => trapped(v, st, trap),
    }
}

/// Where the machine stands, for a trap that no instruction raised.
pub open spec fn stopped(vp: VerifiedView, st: State, trap: Trap) -> Next {
    let top = st.top();
    let pc = if top.func.0 < vp.functions.len() {
        verify::pc_of(vp.functions[top.func.0 as int], top.ix)
    } else {
        0
    };
    Next::Done(
        Err(
            TrapInfo {
                func: top.func,
                pc,
                span_id: verify::span_of(vp.program, top.func.0, pc),
                trap,
            },
        ),
        st.heap,
    )
}

/// One step: what the next instruction does, given what comes back from outside if it asks for
/// anything.
pub open spec fn step(vp: VerifiedView, lim: Limits, st: State, reply: Reply) -> Next {
    let top = st.top();
    if st.fuel == 0 {
        stopped(vp, st, Trap::FuelExceeded)
    } else if top.func.0 >= vp.functions.len() {
        stopped(vp, st, Trap::InvalidPc)
    } else {
        let v = vp.functions[top.func.0 as int];
        if top.ix < 0 || top.ix >= v.xs.len() {
            stopped(vp, st, Trap::InvalidPc)
        } else {
            let o = decide(
                vp,
                lim,
                v,
                top.ix,
                top.regs,
                st.heap,
                st.frames.len(),
                st.host_calls,
            );
            apply(vp, v, st, o, reply)
        }
    }
}

/// Steps in a row, each with what comes back from outside.
pub open spec fn steps(vp: VerifiedView, lim: Limits, n: Next, replies: Seq<Reply>) -> Next
    decreases replies.len(),
{
    if replies.len() == 0 {
        n
    } else {
        match steps(vp, lim, n, replies.drop_last()) {
            Next::Running(st) => step(vp, lim, st, replies.last()),
            done => done,
        }
    }
}

/// What an instruction asks of the host, with the reply.
pub open spec fn host_asked(o: Outcome, reply: Reply) -> Seq<HostAnswer> {
    match o {
        Outcome::Host { request, .. } => seq![
            HostAnswer {
                text: request.text,
                sig_hash: request.sig_hash,
                args: request.args,
                reply: reply.host,
            },
        ],
        _ => seq![],
    }
}

/// What an instruction asks of the unit for arithmetic that rounds, with the result.
pub open spec fn float_asked(o: Outcome, reply: Reply) -> Seq<FloatCall> {
    match o {
        Outcome::Float { op, a, b, .. } => seq![FloatCall { op, a, b, bits: reply.float }],
        _ => seq![],
    }
}

/// What the next instruction does, where there is one and fuel for it.
pub open spec fn next_outcome(vp: VerifiedView, lim: Limits, st: State) -> Option<Outcome> {
    let top = st.top();
    if st.fuel == 0 || top.func.0 >= vp.functions.len() {
        None
    } else {
        let v = vp.functions[top.func.0 as int];
        if top.ix < 0 || top.ix >= v.xs.len() {
            None
        } else {
            Some(
                decide(vp, lim, v, top.ix, top.regs, st.heap, st.frames.len(), st.host_calls),
            )
        }
    }
}

/// What a step asks of the host, with the reply.
pub open spec fn step_hosts(vp: VerifiedView, lim: Limits, st: State, reply: Reply) -> Seq<HostAnswer> {
    match next_outcome(vp, lim, st) {
        Some(o) => host_asked(o, reply),
        None => seq![],
    }
}

/// What a step asks of the unit for arithmetic that rounds, with the result.
pub open spec fn step_floats(vp: VerifiedView, lim: Limits, st: State, reply: Reply) -> Seq<FloatCall> {
    match next_outcome(vp, lim, st) {
        Some(o) => float_asked(o, reply),
        None => seq![],
    }
}

/// What steps in a row ask of the host, with the replies: one for each instruction that calls it.
pub open spec fn hosts(vp: VerifiedView, lim: Limits, n: Next, replies: Seq<Reply>) -> Seq<HostAnswer>
    decreases replies.len(),
{
    if replies.len() == 0 {
        seq![]
    } else {
        hosts(vp, lim, n, replies.drop_last()) + (match steps(vp, lim, n, replies.drop_last()) {
            Next::Running(st) => step_hosts(vp, lim, st, replies.last()),
            _ => seq![],
        })
    }
}

/// What steps in a row ask of the unit for arithmetic that rounds, with the results: one for each
/// instruction that needs it.
pub open spec fn floats(vp: VerifiedView, lim: Limits, n: Next, replies: Seq<Reply>) -> Seq<FloatCall>
    decreases replies.len(),
{
    if replies.len() == 0 {
        seq![]
    } else {
        floats(vp, lim, n, replies.drop_last()) + (match steps(vp, lim, n, replies.drop_last()) {
            Next::Running(st) => step_floats(vp, lim, st, replies.last()),
            _ => seq![],
        })
    }
}

/// The span of the first instruction of a function.
pub open spec fn entry_span(vp: VerifiedView, func: FuncId) -> Option<u64> {
    let v = vp.functions[func.0 as int];
    if v.spans.len() > 0 {
        v.spans[0]
    } else {
        None
    }
}

/// What a sink is told where a function is entered.
pub open spec fn entered(vp: VerifiedView, mask: TraceMask, func: FuncId, depth: nat) -> Seq<TraceEvent> {
    if mask.call {
        seq![
            TraceEvent::Enter {
                program: vp.program,
                kind: ScopeKind::CallFrame { func },
                depth: depth as usize,
                func,
                pc: 0,
                span_id: entry_span(vp, func),
            },
        ]
    } else {
        seq![]
    }
}

/// What a sink is told of what an instruction does: a function that is entered or left, and a host
/// call, which is left only where the host does not fail.
pub open spec fn outcome_events(
    vp: VerifiedView,
    mask: TraceMask,
    v: FunctionView,
    st: State,
    o: Outcome,
    reply: Reply,
) -> Seq<TraceEvent> {
    let top = st.top();
    let pc = verify::pc_of(v, top.ix);
    let span_id = v.spans[top.ix];
    let depth = st.frames.len() as usize;
    match o {
        Outcome::Call { func, eff, .. } => if eff < top.regs.len() {
            entered(vp, mask, func, st.frames.len() + 1)
        } else {
            seq![]
        },
        Outcome::Return { .. } => if mask.call {
            let kind = ScopeKind::CallFrame { func: top.func };
            seq![
                TraceEvent::Exit { program: vp.program, kind, depth, func: top.func, pc, span_id },
            ]
        } else {
            seq![]
        },
        Outcome::Host { request, .. } => if mask.host {
            let kind = ScopeKind::HostCall {
                host_sig: request.sig,
                symbol: request.symbol,
                sig_hash: request.sig_hash,
            };
            let enter = TraceEvent::Enter {
                program: vp.program,
                kind,
                depth,
                func: top.func,
                pc,
                span_id,
            };
            let exit = TraceEvent::Exit {
                program: vp.program,
                kind,
                depth,
                func: top.func,
                pc,
                span_id,
            };
            if reply.host is Ok {
                seq![enter, exit]
            } else {
                seq![enter]
            }
        } else {
            seq![]
        },
        _ => seq![],
    }
}

/// What a sink is told of a step.
pub open spec fn step_events(
    vp: VerifiedView,
    lim: Limits,
    mask: TraceMask,
    st: State,
    reply: Reply,
) -> Seq<TraceEvent> {
    let top = st.top();
    let v = vp.functions[top.func.0 as int];
    match next_outcome(vp, lim, st) {
        None => seq![],
        Some(o) => (if mask.instr {
            seq![
                TraceEvent::Instr {
                    program: vp.program,
                    func: top.func,
                    pc: verify::pc_of(v, top.ix),
                    next_pc: verify::pc_of(v, top.ix + 1),
                    span_id: v.spans[top.ix],
                    opcode: opcode::opcode_byte(v.xs[top.ix].op),
                },
            ]
        } else {
            seq![]
        }) + outcome_events(vp, mask, v, st, o, reply),
    }
}

/// What a sink is told of steps in a row.
pub open spec fn events(
    vp: VerifiedView,
    lim: Limits,
    mask: TraceMask,
    n: Next,
    replies: Seq<Reply>,
) -> Seq<TraceEvent>
    decreases replies.len(),
{
    if replies.len() == 0 {
        seq![]
    } else {
        events(vp, lim, mask, n, replies.drop_last()) + (match steps(
            vp,
            lim,
            n,
            replies.drop_last(),
        ) {
            Next::Running(st) => step_events(vp, lim, mask, st, replies.last()),
            _ => seq![],
        })
    }
}

/// What a sink is told from within a run: the entry function is entered, unless the run is refused,
/// and what follows.
pub open spec fn inner_events(
    vp: VerifiedView,
    lim: Limits,
    mask: TraceMask,
    from: Next,
    entry: FuncId,
    replies: Seq<Reply>,
) -> Seq<TraceEvent> {
    (if from is Running {
        entered(vp, mask, entry, 1)
    } else {
        seq![]
    }) + events(vp, lim, mask, from, replies)
}

/// What a sink is told of a run: its start first and its end last, where the mask wants them.
pub open spec fn run_events(
    vp: VerifiedView,
    mask: TraceMask,
    entry: FuncId,
    arg_count: nat,
    inner: Seq<TraceEvent>,
    res: Result<Seq<ValueModel>, TrapInfo>,
) -> Seq<TraceEvent> {
    if mask.run {
        seq![
            TraceEvent::Start { program: vp.program, entry, arg_count: arg_count as usize },
        ] + inner + seq![
            TraceEvent::End {
                program: vp.program,
                trap: match res {
                    Ok(_) => None,
                    Err(t) => Some(t),
                },
            },
        ]
    } else {
        inner
    }
}

/// Where a run starts: the entry function with its arguments, or a trap where it does not take
/// them.
pub open spec fn start(
    vp: VerifiedView,
    lim: Limits,
    heap: Seq<AggModel>,
    entry: FuncId,
    args: Seq<ValueModel>,
) -> Next {
    let p = vp.program;
    let refused = |trap: Trap|
        Next::Done(Err(TrapInfo { func: entry, pc: 0, span_id: None, trap }), heap);
    if entry.0 >= p.functions.len() {
        refused(Trap::InvalidPc)
    } else if args.len() != p.functions[entry.0 as int].arg_count {
        refused(Trap::InvalidPc)
    } else {
        match program::slice_of(p.value_types, p.functions[entry.0 as int].arg_types) {
            None => refused(Trap::InvalidPc),
            Some(tys) => if tys.len() != args.len() {
                refused(Trap::InvalidPc)
            } else {
                match wrong_type(args, tys, 0) {
                    Some(trap) => refused(trap),
                    None => if entry.0 >= vp.functions.len() {
                        refused(Trap::InvalidPc)
                    } else {
                        Next::Running(
                            State {
                                frames: seq![
                                    FrameModel {
                                        func: entry,
                                        ix: 0,
                                        regs: fresh_regs(
                                            vp.functions[entry.0 as int].reg_count,
                                            args,
                                        ),
                                    },
                                ],
                                heap,
                                fuel: lim.fuel,
                                host_calls: 0,
                            },
                        )
                    },
                }
            },
        }
    }
}

} // verus!
