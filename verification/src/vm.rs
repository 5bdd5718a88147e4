//! Interpreter.
//!
//! Runs verified programs within limits on fuel, call depth and host calls.

use vstd::prelude::*;
use vstd::string::*;
use vstd::utf8::*;

use crate::aggregates;
use crate::aggregates::{AggHeap, AggKind, AggModel};
use crate::bytecode::{DecodedInstr, Operand};
use crate::effects::{list_of, word_of};
use crate::eval;
use crate::eval::{
    eval_binary, eval_byte, eval_scaled, eval_sliced, eval_unary, float_binary, float_unary,
};
use crate::access::AccessModel;
use crate::host::{AccessSink, Host, HostError, SigHash, ValueRef};
use crate::history;
use crate::history::chain;
use crate::ieee;
use crate::ieee::{FloatCall, FloatOp, FloatUnit, Rounding};
use crate::machine;
use crate::machine::{FrameModel, HostAnswer, HostRequest, Limits, Next, Outcome, Reply, State};
use crate::opcode;
use crate::opcode::{Opcode, Shape};
use crate::program;
use crate::program::{
    clamp_u32, ConstEntry, ConstId, ElemTypeId, HostSigId, Program, SymbolId, TypeId, ValueType,
};
use crate::strict;
use crate::strict::{HostCall, Recorded, SilentCall, Watched};
use crate::trace;
use crate::trace::{ScopeKind, TraceEvent, TraceMask, TraceOutcome, TraceSink, Traced};
use crate::trap::{Trap, TrapInfo};
use crate::typing;
use crate::value;
use crate::value::{AggHandle, Decimal, FuncId, Value, ValueModel};
use crate::verify;
use crate::verify::{find_pc, find_span, VerifiedFunction, VerifiedProgram};

verus! {

// ---------------------------------------------------------------------------------------------
// Actions.
// ---------------------------------------------------------------------------------------------

/// What an instruction does.
pub enum Action<'a> {
    /// Nothing.
    Skip,
    /// Writes a value to a register.
    Write {
        /// The register.
        dst: u32,
        /// The value.
        value: Value,
    },
    /// Writes the result of rounding arithmetic to a register.
    Float {
        /// The register.
        dst: u32,
        /// The operation.
        op: FloatOp,
        /// First operand.
        a: u64,
        /// Second operand.
        b: u64,
    },
    /// Makes an aggregate and writes its handle to a register.
    Build {
        /// The register.
        dst: u32,
        /// What the aggregate is.
        kind: AggKind,
        /// Its elements.
        values: Vec<Value>,
    },
    /// Goes on at another instruction.
    Goto {
        /// Index of the instruction.
        ix: usize,
    },
    /// Calls a function.
    Call {
        /// The function.
        func: FuncId,
        /// Register of the effect token.
        eff: u32,
        /// The arguments.
        args: Vec<Value>,
    },
    /// Returns values.
    Return {
        /// The values.
        values: Vec<Value>,
    },
    /// Calls the host.
    Host {
        /// Register of the effect token.
        eff: u32,
        /// Registers of the values that come back.
        rets: &'a Vec<u32>,
        /// Host signature.
        sig: HostSigId,
        /// Host symbol.
        symbol: SymbolId,
        /// The text of the symbol.
        text: &'a str,
        /// Signature hash.
        sig_hash: SigHash,
        /// The arguments.
        args: Vec<Value>,
        /// The types of the values that must come back.
        ret_types: &'a [ValueType],
    },
    /// Traps.
    Fail {
        /// The trap.
        trap: Trap,
    },
}

impl<'a> View for Action<'a> {
    type V = Outcome;

    open spec fn view(&self) -> Outcome {
        match self {
            Action::Skip => Outcome::Skip,
            Action::Write { dst, value } => Outcome::Write { dst: *dst, value: value@ },
            Action::Float { dst, op, a, b } => Outcome::Float { dst: *dst, op: *op, a: *a, b: *b },
            Action::Build { dst, kind, values } => Outcome::Build {
                dst: *dst,
                node: AggModel { kind: *kind, values: value::value_models(values@) },
            },
            Action::Goto { ix } => Outcome::Goto { ix: *ix as int },
            Action::Call { func, eff, args } => Outcome::Call {
                func: *func,
                eff: *eff,
                args: value::value_models(args@),
            },
            Action::Return { values } => Outcome::Return { values: value::value_models(values@) },
            Action::Host { eff, rets, sig, symbol, text, sig_hash, args, ret_types } => Outcome::Host {
                eff: *eff,
                rets: rets@,
                request: HostRequest {
                    sig: *sig,
                    symbol: *symbol,
                    text: encode_utf8(text@),
                    sig_hash: *sig_hash,
                    args: value::value_models(args@),
                    ret_types: ret_types@,
                },
            },
            Action::Fail { trap } => Outcome::Fail { trap: *trap },
        }
    }
}

/// A register.
fn reg<'a>(regs: &'a Vec<Value>, r: u32) -> (res: Result<&'a Value, Trap>)
    ensures
        match machine::reg(value::value_models(regs@), r) {
            Ok(v) => res is Ok && res->Ok_0@ == v,
            Err(t) => res == Err::<&Value, Trap>(t),
        },
{
    let i: usize = r as usize;
    if i < regs.len() {
        assert(value::value_models(regs@)[i as int] == regs@[i as int]@);
        Ok(&regs[i])
    } else {
        Err(Trap::RegOutOfBounds)
    }
}

/// Copies of registers in a row.
fn read_all(regs: &Vec<Value>, rs: &Vec<u32>) -> (res: Result<Vec<Value>, Trap>)
    ensures
        match machine::read_all(value::value_models(regs@), rs@) {
            Ok(v) => res is Ok && value::value_models(res->Ok_0@) == v,
            Err(t) => res == Err::<Vec<Value>, Trap>(t),
        },
{
    let ghost m = value::value_models(regs@);
    let mut out: Vec<Value> = Vec::new();
    let mut k: usize = 0;
    while k < rs.len()
        invariant
            k <= rs.len(),
            m == value::value_models(regs@),
            out@.len() == k,
            forall|q: int| 0 <= q < k ==> #[trigger] rs@[q] < m.len(),
            forall|q: int| 0 <= q < k ==> (#[trigger] out@[q])@ == m[rs@[q] as int],
        decreases rs.len() - k,
    {
        let i: usize = rs[k] as usize;
        if i >= regs.len() {
            assert(!(rs@[k as int] < m.len()));
            return Err(Trap::RegOutOfBounds);
        }
        assert(m[i as int] == regs@[i as int]@);
        out.push(regs[i].duplicate());
        k = k + 1;
    }
    assert(value::value_models(out@) =~= Seq::new(rs@.len(), |q: int| m[rs@[q] as int]));
    Ok(out)
}

/// A computed value goes to a register.
fn put<'a>(dst: u32, res: Result<Value, Trap>, Ghost(m): Ghost<Result<ValueModel, Trap>>) -> (a: Action<'a>)
    requires
        eval::gives(res, m),
    ensures
        a@ == machine::put(dst, m),
{
    match res {
        Ok(value) => Action::Write { dst, value },
        Err(trap) => Action::Fail { trap },
    }
}

/// The value of a constant.
fn const_value(p: &Program, idx: u32) -> (res: Result<Value, Trap>)
    ensures
        eval::gives(res, machine::const_value(p@, idx)),
{
    let i: usize = idx as usize;
    if i >= p.const_pool.len() {
        return Err(Trap::ConstOutOfBounds);
    }
    match p.const_pool[i] {
        ConstEntry::Unit => Ok(Value::Unit),
        ConstEntry::Bool(b) => Ok(Value::Bool(b)),
        ConstEntry::I64(v) => Ok(Value::I64(v)),
        ConstEntry::U64(v) => Ok(Value::U64(v)),
        ConstEntry::F64(v) => Ok(Value::F64(v)),
        ConstEntry::Decimal { mantissa, scale } => Ok(Value::Decimal(Decimal { mantissa, scale })),
        ConstEntry::Bytes(_) => match p.const_bytes(ConstId(idx)) {
            Ok(b) => Ok(Value::Bytes(vstd::slice::slice_to_vec(b))),
            Err(_) => Err(Trap::InvalidPc),
        },
        ConstEntry::Str(_) => match p.const_str(ConstId(idx)) {
            Ok(s) => {
                proof {
                    encode_utf8_decode_utf8(s@);
                }
                Ok(Value::Str(s.to_owned()))
            },
            Err(_) => Err(Trap::InvalidPc),
        },
    }
}

/// An element of an aggregate, which must be of the type that it is known to have.
fn take_element(heap: &AggHeap, a: &Value, kind: AggKind, index: u64, known: Option<ValueType>) -> (res:
    Result<Value, Trap>)
    ensures
        eval::gives(res, machine::take_element(heap@, a@, kind, index as nat, known)),
{
    match a {
        Value::Agg(h) => {
            let n: usize = match heap.count(*h, kind) {
                Ok(n) => n,
                Err(e) => {
                    return Err(Trap::AggError(e));
                },
            };
            if index >= n as u64 {
                return Err(Trap::AggError(aggregates::AggError::OutOfBounds));
            }
            match heap.get_element(*h, kind, index as usize) {
                Err(e) => Err(Trap::AggError(e)),
                Ok(v) => match known {
                    Some(t) => if same_class(t, v.value_type()) {
                        Ok(v)
                    } else {
                        Err(Trap::InvalidPc)
                    },
                    None => Err(Trap::InvalidPc),
                },
            }
        },
        _ => Err(Trap::TypeMismatch { expected: ValueType::Agg, actual: a.value_type() }),
    }
}

/// Values of one type, where host objects of all types count as one.
fn same_class(a: ValueType, b: ValueType) -> (r: bool)
    ensures
        r == machine::same_class(a, b),
{
    match (a, b) {
        (ValueType::Obj(_), ValueType::Obj(_)) => true,
        _ => a == b,
    }
}

/// The number of elements of an aggregate.
fn count_elements(heap: &AggHeap, a: &Value, kind: AggKind) -> (res: Result<Value, Trap>)
    ensures
        eval::gives(res, machine::count_elements(heap@, a@, kind)),
{
    match a {
        Value::Agg(h) => match heap.count(*h, kind) {
            Ok(n) => Ok(Value::U64(n as u64)),
            Err(e) => Err(Trap::AggError(e)),
        },
        _ => Err(Trap::TypeMismatch { expected: ValueType::Agg, actual: a.value_type() }),
    }
}

/// A condition.
fn condition(a: &Value) -> (res: Result<bool, Trap>)
    ensures
        res == machine::condition(a@),
{
    match a {
        Value::Bool(b) => Ok(*b),
        _ => Err(Trap::TypeMismatch { expected: ValueType::Bool, actual: a.value_type() }),
    }
}

/// Going on at a position.
fn jump<'a>(vf: &VerifiedFunction, pc: u32) -> (a: Action<'a>)
    ensures
        a@ == machine::jump(vf@, pc),
{
    match find_pc(&vf.instrs, pc) {
        Some(ix) => Action::Goto { ix },
        None => Action::Fail { trap: Trap::InvalidPc },
    }
}

/// What an instruction on one value does.
fn decide_unary<'a>(heap: &AggHeap, op: Opcode, dst: u32, a: &Value) -> (r: Action<'a>)
    ensures
        r@ == machine::decide_unary(heap@, op, dst, a@),
{
    match op {
        Opcode::TupleLen => put(
            dst,
            count_elements(heap, a, AggKind::Tuple),
            Ghost(machine::count_elements(heap@, a@, AggKind::Tuple)),
        ),
        Opcode::StructFieldCount => put(
            dst,
            count_elements(heap, a, AggKind::Struct(TypeId(0))),
            Ghost(machine::count_elements(heap@, a@, AggKind::Struct(TypeId(0)))),
        ),
        Opcode::ArrayLen => put(
            dst,
            count_elements(heap, a, AggKind::Array(ElemTypeId(0))),
            Ghost(machine::count_elements(heap@, a@, AggKind::Array(ElemTypeId(0)))),
        ),
        _ => match float_unary(op, a) {
            Some((f, x, y)) => Action::Float { dst, op: f, a: x, b: y },
            None => put(dst, eval_unary(op, a), Ghost(eval::unary(op, a@))),
        },
    }
}

/// What an instruction on two values does.
fn decide_binary<'a>(
    heap: &AggHeap,
    known: Option<ValueType>,
    op: Opcode,
    dst: u32,
    a: &Value,
    b: &Value,
) -> (r: Action<'a>)
    ensures
        r@ == machine::decide_binary(heap@, known, op, dst, a@, b@),
{
    match op {
        Opcode::ArrayGet => match b {
            Value::U64(i) => put(
                dst,
                take_element(heap, a, AggKind::Array(ElemTypeId(0)), *i, known),
                Ghost(
                    machine::take_element(
                        heap@,
                        a@,
                        AggKind::Array(ElemTypeId(0)),
                        *i as nat,
                        known,
                    ),
                ),
            ),
            _ => Action::Fail {
                trap: Trap::TypeMismatch { expected: ValueType::U64, actual: b.value_type() },
            },
        },
        _ => match float_binary(op, a, b) {
            Some((f, x, y)) => Action::Float { dst, op: f, a: x, b: y },
            None => put(dst, eval_binary(op, a, b), Ghost(eval::binary(op, a@, b@))),
        },
    }
}

/// What taking an element by a fixed index does.
fn decide_index<'a>(
    heap: &AggHeap,
    known: Option<ValueType>,
    op: Opcode,
    dst: u32,
    a: &Value,
    index: u32,
) -> (r: Action<'a>)
    ensures
        r@ == machine::decide_index(heap@, known, op, dst, a@, index),
{
    let kind: AggKind = match op {
        Opcode::BytesGetImm => {
            return match a {
                Value::Bytes(b) => put(
                    dst,
                    eval_byte(b, index as u64),
                    Ghost(eval::byte_of(b@, index as u64)),
                ),
                _ => Action::Fail {
                    trap: Trap::TypeMismatch { expected: ValueType::Bytes, actual: a.value_type() },
                },
            };
        },
        Opcode::TupleGet => AggKind::Tuple,
        Opcode::StructGet => AggKind::Struct(TypeId(0)),
        Opcode::ArrayGetImm => AggKind::Array(ElemTypeId(0)),
        _ => {
            return Action::Fail { trap: Trap::InvalidPc };
        },
    };
    put(
        dst,
        take_element(heap, a, kind, index as u64, known),
        Ghost(machine::take_element(heap@, a@, kind, index as nat, known)),
    )
}

/// What making an aggregate does.
fn decide_build<'a>(dst: u32, kind: AggKind, regs: &Vec<Value>, rs: &Vec<u32>) -> (r: Action<'a>)
    ensures
        r@ == machine::decide_build(
            dst,
            kind,
            machine::read_all(value::value_models(regs@), rs@),
        ),
{
    match read_all(regs, rs) {
        Ok(values) => Action::Build { dst, kind, values },
        Err(trap) => Action::Fail { trap },
    }
}

/// What a call does.
fn decide_call<'a>(
    program: &VerifiedProgram,
    lim: &Limits,
    depth: usize,
    regs: &Vec<Value>,
    x: &DecodedInstr,
) -> (r: Action<'a>)
    requires
        program.wf(),
        x.instr.wf(),
        opcode::opcode_shape(x.instr.op) is Call,
    ensures
        r@ == machine::decide_call(
            program@,
            *lim,
            depth as nat,
            value::value_models(regs@),
            x@,
        ),
{
    let func: u32 = word_of(x, 1);
    if depth >= lim.max_call_depth {
        return Action::Fail { trap: Trap::CallDepthExceeded };
    }
    let p: &Program = program.program();
    let i: usize = func as usize;
    if i >= p.functions.len() {
        return Action::Fail { trap: Trap::InvalidPc };
    }
    match program.verified(FuncId(func)) {
        None => {
            return Action::Fail { trap: Trap::InvalidPc };
        },
        Some(_) => {},
    }
    let args: &Vec<u32> = list_of(x, 3);
    if args.len() != p.functions[i].arg_count as usize {
        return Action::Fail { trap: Trap::InvalidPc };
    }
    match read_all(regs, args) {
        Ok(args) => Action::Call { func: FuncId(func), eff: word_of(x, 0), args },
        Err(trap) => Action::Fail { trap },
    }
}

/// What a host call does.
fn decide_host<'a>(
    p: &'a Program,
    lim: &Limits,
    calls: u64,
    regs: &Vec<Value>,
    x: &'a DecodedInstr,
) -> (r: Action<'a>)
    requires
        x.instr.wf(),
        opcode::opcode_shape(x.instr.op) is HostCall,
    ensures
        r@ == machine::decide_host(p@, *lim, calls, value::value_models(regs@), x@),
{
    if calls >= lim.max_host_calls {
        return Action::Fail { trap: Trap::HostCallLimitExceeded };
    }
    let sig: u32 = word_of(x, 1);
    let hs = match p.host_sig(HostSigId(sig)) {
        Some(hs) => hs,
        None => {
            return Action::Fail { trap: Trap::ConstOutOfBounds };
        },
    };
    let text: &str = match p.symbol_str(hs.symbol) {
        Ok(text) => text,
        Err(_) => {
            return Action::Fail { trap: Trap::ConstOutOfBounds };
        },
    };
    let ret_types: &[ValueType] = match p.host_sig_rets(hs) {
        Ok(v) => v,
        Err(_) => {
            return Action::Fail { trap: Trap::ConstOutOfBounds };
        },
    };
    match read_all(regs, list_of(x, 3)) {
        Ok(args) => Action::Host {
            eff: word_of(x, 0),
            rets: list_of(x, 4),
            sig: HostSigId(sig),
            symbol: hs.symbol,
            text,
            sig_hash: hs.sig_hash,
            args,
            ret_types,
        },
        Err(trap) => Action::Fail { trap },
    }
}

/// The field types of a struct type.
fn field_count(p: &Program, t: u32) -> (res: Option<usize>)
    ensures
        match typing::struct_sig(p@, t) {
            Some(fields) => res is Some && res->0 == fields.len(),
            None => res is None,
        },
{
    let i: usize = t as usize;
    if i >= p.types.structs.len() {
        return None;
    }
    match p.types.struct_field_types(&p.types.structs[i]) {
        Ok(fields) => Some(fields.len()),
        Err(_) => None,
    }
}

/// What instruction `ix` of a function does to the given registers.
pub fn decide<'a>(
    program: &'a VerifiedProgram,
    lim: &Limits,
    vf: &'a VerifiedFunction,
    ix: usize,
    regs: &Vec<Value>,
    heap: &AggHeap,
    depth: usize,
    calls: u64,
) -> (r: Action<'a>)
    requires
        program.wf(),
        vf.wf(),
        ix < vf.instrs@.len(),
    ensures
        r@ == machine::decide(
            program@,
            *lim,
            vf@,
            ix as int,
            value::value_models(regs@),
            heap@,
            depth as nat,
            calls,
        ),
{
    let x: &'a DecodedInstr = &vf.instrs[ix];
    let ghost ms = value::value_models(regs@);
    assert(vf@.xs[ix as int] == x@);
    let known: Option<ValueType> = vf.element_types[ix];
    let op: Opcode = x.instr.op;
    match op.shape() {
        Shape::Nullary => Action::Skip,
        Shape::Trap => Action::Fail { trap: Trap::TrapCode(word_of(x, 0)) },
        Shape::ConstUnit => Action::Write { dst: word_of(x, 0), value: Value::Unit },
        Shape::ConstBool => Action::Write { dst: word_of(x, 0), value: Value::Bool(bool_of(x, 1)) },
        Shape::ConstI64 => Action::Write { dst: word_of(x, 0), value: Value::I64(i64_of(x, 1)) },
        Shape::ConstU64 => Action::Write { dst: word_of(x, 0), value: Value::U64(u64_of(x, 1)) },
        Shape::ConstF64 => Action::Write { dst: word_of(x, 0), value: Value::F64(bits_of(x, 1)) },
        Shape::ConstDecimal => Action::Write {
            dst: word_of(x, 0),
            value: Value::Decimal(Decimal { mantissa: i64_of(x, 1), scale: byte_of(x, 2) }),
        },
        Shape::ConstPool => {
            let p: &Program = program.program();
            put(
                word_of(x, 0),
                const_value(p, word_of(x, 1)),
                Ghost(machine::const_value(p@, typing::word(x@, 1))),
            )
        },
        Shape::Unary => match reg(regs, word_of(x, 1)) {
            Ok(a) => decide_unary(heap, op, word_of(x, 0), a),
            Err(trap) => Action::Fail { trap },
        },
        Shape::Binary => match (reg(regs, word_of(x, 1)), reg(regs, word_of(x, 2))) {
            (Ok(a), Ok(b)) => decide_binary(heap, known, op, word_of(x, 0), a, b),
            _ => Action::Fail { trap: Trap::RegOutOfBounds },
        },
        Shape::ToDec => match reg(regs, word_of(x, 1)) {
            Ok(a) => {
                let scale: u8 = byte_of(x, 2);
                put(word_of(x, 0), eval_scaled(op, a, scale), Ghost(eval::scaled(op, a@, scale)))
            },
            Err(trap) => Action::Fail { trap },
        },
        Shape::Slice => match (
            reg(regs, word_of(x, 1)),
            reg(regs, word_of(x, 2)),
            reg(regs, word_of(x, 3)),
        ) {
            (Ok(a), Ok(s), Ok(e)) => put(
                word_of(x, 0),
                eval_sliced(op, a, s, e),
                Ghost(eval::sliced(op, a@, s@, e@)),
            ),
            _ => Action::Fail { trap: Trap::RegOutOfBounds },
        },
        Shape::Select => match (
            reg(regs, word_of(x, 1)),
            reg(regs, word_of(x, 2)),
            reg(regs, word_of(x, 3)),
        ) {
            (Ok(c), Ok(a), Ok(b)) => match condition(c) {
                Ok(c) => Action::Write {
                    dst: word_of(x, 0),
                    value: if c {
                        a.duplicate()
                    } else {
                        b.duplicate()
                    },
                },
                Err(trap) => Action::Fail { trap },
            },
            _ => Action::Fail { trap: Trap::RegOutOfBounds },
        },
        Shape::IndexGet | Shape::FieldGet => match reg(regs, word_of(x, 1)) {
            Ok(a) => decide_index(heap, known, op, word_of(x, 0), a, word_of(x, 2)),
            Err(trap) => Action::Fail { trap },
        },
        Shape::Br => match reg(regs, word_of(x, 0)) {
            Ok(a) => match condition(a) {
                Ok(c) => if c {
                    jump(vf, word_of(x, 1))
                } else {
                    jump(vf, word_of(x, 2))
                },
                Err(trap) => Action::Fail { trap },
            },
            Err(trap) => Action::Fail { trap },
        },
        Shape::Jmp => jump(vf, word_of(x, 0)),
        Shape::Call => decide_call(program, lim, depth, regs, x),
        Shape::HostCall => decide_host(program.program(), lim, calls, regs, x),
        Shape::Ret => match read_all(regs, list_of(x, 1)) {
            Ok(values) => Action::Return { values },
            Err(trap) => Action::Fail { trap },
        },
        Shape::TupleNew => decide_build(word_of(x, 0), AggKind::Tuple, regs, list_of(x, 1)),
        Shape::StructNew => match field_count(program.program(), word_of(x, 1)) {
            None => Action::Fail { trap: Trap::TypeIdOutOfBounds },
            Some(n) => if n != list_of(x, 2).len() {
                Action::Fail { trap: Trap::ArityMismatch }
            } else {
                decide_build(
                    word_of(x, 0),
                    AggKind::Struct(TypeId(word_of(x, 1))),
                    regs,
                    list_of(x, 2),
                )
            },
        },
        Shape::ArrayNew => {
            let p: &Program = program.program();
            let t: u32 = word_of(x, 1);
            if t as usize >= p.types.array_elems.len() {
                Action::Fail { trap: Trap::ElemTypeIdOutOfBounds }
            } else {
                decide_build(
                    word_of(x, 0),
                    AggKind::Array(ElemTypeId(t)),
                    regs,
                    list_of(x, 2),
                )
            }
        },
    }
}

fn bool_of(x: &DecodedInstr, k: usize) -> (v: bool)
    requires
        k < x@.operands.len(),
        x@.operands[k as int] is Bool,
    ensures
        v == x@.operands[k as int]->Bool_0,
{
    match &x.instr.operands[k] {
        Operand::Bool(v) => *v,
        _ => false,
    }
}

fn i64_of(x: &DecodedInstr, k: usize) -> (v: i64)
    requires
        k < x@.operands.len(),
        x@.operands[k as int] is I64,
    ensures
        v == x@.operands[k as int]->I64_0,
{
    match &x.instr.operands[k] {
        Operand::I64(v) => *v,
        _ => 0,
    }
}

fn u64_of(x: &DecodedInstr, k: usize) -> (v: u64)
    requires
        k < x@.operands.len(),
        x@.operands[k as int] is U64,
    ensures
        v == x@.operands[k as int]->U64_0,
{
    match &x.instr.operands[k] {
        Operand::U64(v) => *v,
        _ => 0,
    }
}

fn bits_of(x: &DecodedInstr, k: usize) -> (v: u64)
    requires
        k < x@.operands.len(),
        x@.operands[k as int] is Bits,
    ensures
        v == x@.operands[k as int]->Bits_0,
{
    match &x.instr.operands[k] {
        Operand::Bits(v) => *v,
        _ => 0,
    }
}

fn byte_of(x: &DecodedInstr, k: usize) -> (v: u8)
    requires
        k < x@.operands.len(),
        x@.operands[k as int] is Byte,
    ensures
        v == x@.operands[k as int]->Byte_0,
{
    match &x.instr.operands[k] {
        Operand::Byte(v) => *v,
        _ => 0,
    }
}

// ---------------------------------------------------------------------------------------------
// Frames.
// ---------------------------------------------------------------------------------------------

/// A call frame.
#[derive(Clone, Debug)]
pub struct Frame {
    func: FuncId,
    ix: usize,
    regs: Vec<Value>,
}

impl View for Frame {
    type V = FrameModel;

    closed spec fn view(&self) -> FrameModel {
        FrameModel { func: self.func, ix: self.ix as int, regs: value::value_models(self.regs@) }
    }
}

impl Frame {
    /// Writes a register, where the function has it.
    fn write(&mut self, dst: u32, value: Value) -> (ok: bool)
        ensures
            ok == (dst < old(self)@.regs.len()),
            ok ==> final(self)@ == (FrameModel {
                regs: old(self)@.regs.update(dst as int, value@),
                ..old(self)@
            }),
            !ok ==> *final(self) == *old(self),
            final(self).func == old(self).func,
            final(self).ix == old(self).ix,
    {
        let i: usize = dst as usize;
        if i < self.regs.len() {
            let ghost before = value::value_models(self.regs@);
            self.regs.set(i, value);
            assert(value::value_models(self.regs@) =~= before.update(i as int, value@));
            true
        } else {
            false
        }
    }

    /// Whether the function has all of the registers.
    fn has_all(&self, rs: &Vec<u32>) -> (ok: bool)
        ensures
            ok == machine::all_regs(self@.regs, rs@),
    {
        let mut k: usize = 0;
        while k < rs.len()
            invariant
                k <= rs.len(),
                forall|q: int| 0 <= q < k ==> #[trigger] rs@[q] < self@.regs.len(),
            decreases rs.len() - k,
        {
            if rs[k] as usize >= self.regs.len() {
                assert(!(rs@[k as int] < self@.regs.len()));
                return false;
            }
            k = k + 1;
        }
        true
    }

    /// Writes values to registers, in order.
    fn write_all(&mut self, rs: &Vec<u32>, vs: Vec<Value>)
        requires
            rs@.len() == vs@.len(),
            machine::all_regs(old(self)@.regs, rs@),
        ensures
            final(self)@ == (FrameModel {
                regs: machine::write_all(old(self)@.regs, rs@, value::value_models(vs@)),
                ..old(self)@
            }),
            final(self)@.regs.len() == old(self)@.regs.len(),
            final(self).func == old(self).func,
            final(self).ix == old(self).ix,
    {
        let ghost ms = value::value_models(vs@);
        let ghost regs0 = self@.regs;
        let mut k: usize = 0;
        assert(rs@.take(0) =~= seq![]);
        while k < rs.len()
            invariant
                k <= rs.len(),
                rs@.len() == vs@.len(),
                ms == value::value_models(vs@),
                machine::all_regs(regs0, rs@),
                self@.regs.len() == regs0.len(),
                self@ == (FrameModel {
                    regs: machine::write_all(regs0, rs@.take(k as int), ms.take(k as int)),
                    ..old(self)@
                }),
                self.func == old(self).func,
                self.ix == old(self).ix,
                regs0 == old(self)@.regs,
            decreases rs.len() - k,
        {
            let ghost before = self@.regs;
            assert(rs@[k as int] < regs0.len());
            let _ok = self.write(rs[k], vs[k].duplicate());
            assert(ms[k as int] == vs@[k as int]@);
            assert(rs@.take(k + 1).drop_last() =~= rs@.take(k as int));
            assert(ms.take(k + 1).drop_last() =~= ms.take(k as int));
            assert(self@.regs == before.update(rs@[k as int] as int, ms[k as int]));
            k = k + 1;
        }
        assert(rs@.take(k as int) =~= rs@);
        assert(ms.take(k as int) =~= ms);
    }

    /// A frame at the start of a function.
    fn enter(func: FuncId, reg_count: u32, args: Vec<Value>) -> (f: Self)
        ensures
            f@ == (FrameModel {
                func,
                ix: 0,
                regs: machine::fresh_regs(reg_count, value::value_models(args@)),
            }),
    {
        let ghost ms = value::value_models(args@);
        let ghost all = machine::fresh_regs(reg_count, ms);
        let mut regs: Vec<Value> = Vec::new();
        let mut r: u32 = 0;
        assert(value::value_models(regs@) =~= all.take(0));
        while r < reg_count
            invariant
                r <= reg_count,
                ms == value::value_models(args@),
                all == machine::fresh_regs(reg_count, ms),
                value::value_models(regs@) == all.take(r as int),
            decreases reg_count - r,
        {
            let ghost before = value::value_models(regs@);
            let v: Value = if 0 < r && r as usize <= args.len() {
                assert(ms[r - 1] == args@[r - 1]@);
                args[r as usize - 1].duplicate()
            } else {
                Value::Unit
            };
            regs.push(v);
            assert(value::value_models(regs@) =~= before.push(v@));
            assert(all.take(r + 1) =~= all.take(r as int).push(all[r as int]));
            r = r + 1;
        }
        assert(all.take(r as int) =~= all);
        Frame { func, ix: 0, regs }
    }
}

/// What is kept during a run: the call frames, and what is left of the limits. It can be used again
/// for another run.
#[derive(Clone, Debug)]
pub struct ExecutionContext {
    fuel: u64,
    host_calls: u64,
    frames: Vec<Frame>,
}

impl ExecutionContext {
    /// Creates an empty context.
    #[must_use]
    pub fn new() -> (c: Self)
        ensures
            !c.running(),
    {
        ExecutionContext { fuel: 0, host_calls: 0, frames: Vec::new() }
    }

    /// The state of a run, with the aggregates of the interpreter.
    pub closed spec fn state(&self, heap: Seq<AggModel>) -> State {
        State {
            frames: self.frames@.map_values(|f: Frame| f@),
            heap,
            fuel: self.fuel,
            host_calls: self.host_calls,
        }
    }

    /// Whether a function runs.
    pub closed spec fn running(&self) -> bool {
        self.frames@.len() > 0
    }

    /// The fuel that is left.
    pub closed spec fn fuel_left(&self) -> u64 {
        self.fuel
    }

    /// How many host calls were made.
    pub closed spec fn calls_made(&self) -> u64 {
        self.host_calls
    }

    /// Empties the context for a run with the given fuel.
    fn reset(&mut self, fuel: u64)
        ensures
            final(self).fuel == fuel,
            final(self).host_calls == 0,
            final(self).frames@.len() == 0,
    {
        self.frames = Vec::new();
        self.fuel = fuel;
        self.host_calls = 0;
    }
}

impl Default for ExecutionContext {
    fn default() -> (c: Self)
        ensures
            !c.running(),
    {
        ExecutionContext::new()
    }
}

// ---------------------------------------------------------------------------------------------
// The interpreter.
// ---------------------------------------------------------------------------------------------

/// A register machine.
pub struct Vm<H: Host, F: FloatUnit> {
    host: Watched<H>,
    floats: Rounding<F>,
    limits: Limits,
    agg: AggHeap,
}

/// How far a step got.
pub enum Progress {
    /// The run goes on.
    Running,
    /// The run has ended.
    Done(Result<Vec<Value>, TrapInfo>),
}

/// The result of a run.
pub open spec fn result_of(res: Result<Vec<Value>, TrapInfo>) -> Result<Seq<ValueModel>, TrapInfo> {
    match res {
        Ok(v) => Ok(value::value_models(v@)),
        Err(t) => Err(t),
    }
}

/// A step got as far as the machine says.
pub open spec fn stepped(n: Next, p: Progress, st: State) -> bool {
    match (n, p) {
        (Next::Running(s), Progress::Running) => s == st,
        (Next::Done(r, h), Progress::Done(res)) => result_of(res) == r && h == st.heap,
        _ => false,
    }
}

/// What a host was asked in a call, and what it replied.
pub open spec fn answer(c: HostCall) -> HostAnswer {
    HostAnswer {
        text: encode_utf8(c.symbol),
        sig_hash: c.sig_hash,
        args: c.args,
        reply: c.reply,
    }
}

/// What a host was asked in calls, and what it replied.
pub open spec fn answers(calls: Seq<HostCall>) -> Seq<HostAnswer> {
    calls.map_values(|c: HostCall| answer(c))
}

/// The machine ends in the given result and aggregates, and what it asks of outside meanwhile is
/// what was asked of the host in `calls` and of the float unit in `sums`, with what came back.
pub open spec fn ends_in(
    vp: verify::VerifiedView,
    lim: Limits,
    from: Next,
    res: Result<Seq<ValueModel>, TrapInfo>,
    heap: Seq<AggModel>,
    calls: Seq<HostCall>,
    sums: Seq<FloatCall>,
) -> bool {
    exists|replies: Seq<Reply>| #[trigger]
        machine::steps(vp, lim, from, replies) == Next::Done(res, heap) && machine::hosts(
            vp,
            lim,
            from,
            replies,
        ) == answers(calls) && machine::floats(vp, lim, from, replies) == sums
}

/// A run ends in the given result and aggregates, with what it asked of outside.
pub open spec fn ends(
    vp: verify::VerifiedView,
    lim: Limits,
    from: Next,
    res: Result<Vec<Value>, TrapInfo>,
    heap: Seq<AggModel>,
    calls: Seq<HostCall>,
    sums: Seq<FloatCall>,
) -> bool {
    ends_in(vp, lim, from, result_of(res), heap, calls, sums)
}

/// A run ends as `ends_in` says, and a sink that wants what `mask` says is told `inner` from within
/// it.
pub open spec fn ended(
    vp: verify::VerifiedView,
    lim: Limits,
    from: Next,
    res: Result<Seq<ValueModel>, TrapInfo>,
    heap: Seq<AggModel>,
    calls: Seq<HostCall>,
    sums: Seq<FloatCall>,
    mask: TraceMask,
    entry: FuncId,
    inner: Seq<TraceEvent>,
) -> bool {
    exists|replies: Seq<Reply>| #[trigger]
        machine::steps(vp, lim, from, replies) == Next::Done(res, heap) && machine::hosts(
            vp,
            lim,
            from,
            replies,
        ) == answers(calls) && machine::floats(vp, lim, from, replies) == sums && inner
            == machine::inner_events(vp, lim, mask, from, entry, replies)
}

/// A run ends as `ends_in` says, and a sink that wants what `mask` says is told `told` of it.
pub open spec fn told_of(
    vp: verify::VerifiedView,
    lim: Limits,
    from: Next,
    res: Result<Seq<ValueModel>, TrapInfo>,
    heap: Seq<AggModel>,
    calls: Seq<HostCall>,
    sums: Seq<FloatCall>,
    mask: TraceMask,
    entry: FuncId,
    arg_count: nat,
    told: Seq<TraceEvent>,
) -> bool {
    exists|inner: Seq<TraceEvent>| #[trigger]
        ended(vp, lim, from, res, heap, calls, sums, mask, entry, inner) && told
            == machine::run_events(vp, mask, entry, arg_count, inner, res)
}

/// What a history holds that goes on from another one.
pub open spec fn since<T>(before: Seq<T>, after: Seq<T>) -> Seq<T> {
    after.skip(before.len() as int)
}

/// A history goes on from another one.
pub open spec fn grew<T>(before: Seq<T>, after: Seq<T>) -> bool {
    before.len() <= after.len() && after.take(before.len() as int) == before
}

/// The state in which an instruction of `frame` is performed: the frame and a unit of fuel have
/// been taken out of the context.
pub closed spec fn at_call(ctx: ExecutionContext, frame: Frame, heap: Seq<AggModel>) -> State {
    State {
        frames: ctx.frames@.map_values(|f: Frame| f@).push(frame@),
        heap,
        fuel: (ctx.fuel + 1) as u64,
        host_calls: ctx.host_calls,
    }
}

/// The reply of a host.
pub open spec fn host_reply(got: Result<(Vec<Value>, u64), HostError>) -> Result<
    (Seq<ValueModel>, u64),
    HostError,
> {
    match got {
        Ok((vals, extra)) => Ok((value::value_models(vals@), extra)),
        Err(e) => Err(e),
    }
}

/// A reply that no instruction asks for.
spec fn no_reply() -> Reply {
    Reply { host: Err(HostError::Failed), float: 0 }
}

/// Borrowed arguments.
fn value_refs<'a>(args: &'a Vec<Value>) -> (r: Vec<ValueRef<'a>>)
    ensures
        r@.map_values(|v: ValueRef<'a>| v@) == value::value_models(args@),
{
    let ghost ms = value::value_models(args@);
    let mut r: Vec<ValueRef<'a>> = Vec::new();
    let mut k: usize = 0;
    while k < args.len()
        invariant
            k <= args.len(),
            ms == value::value_models(args@),
            r@.len() == k,
            forall|q: int| 0 <= q < k ==> (#[trigger] r@[q])@ == ms[q],
        decreases args.len() - k,
    {
        assert(ms[k as int] == args@[k as int]@);
        let v: ValueRef<'a> = match &args[k] {
            Value::Unit => ValueRef::Unit,
            Value::Bool(b) => ValueRef::Bool(*b),
            Value::I64(i) => ValueRef::I64(*i),
            Value::U64(u) => ValueRef::U64(*u),
            Value::F64(f) => ValueRef::F64(*f),
            Value::Decimal(d) => ValueRef::Decimal(*d),
            Value::Bytes(b) => ValueRef::Bytes(b.as_slice()),
            Value::Str(s) => ValueRef::Str(s.as_str()),
            Value::Obj(o) => ValueRef::Obj(*o),
            Value::Agg(h) => ValueRef::Agg(*h),
            Value::Func(f) => ValueRef::Func(*f),
        };
        r.push(v);
        k = k + 1;
    }
    assert(r@.map_values(|v: ValueRef<'a>| v@) =~= ms);
    r
}

/// Copies of values.
pub fn copy_values(v: &[Value]) -> (r: Vec<Value>)
    ensures
        value::value_models(r@) == value::value_models(v@),
{
    let mut r: Vec<Value> = Vec::new();
    let mut k: usize = 0;
    while k < v.len()
        invariant
            k <= v.len(),
            r@.len() == k,
            forall|q: int| 0 <= q < k ==> (#[trigger] r@[q])@ == v@[q]@,
        decreases v.len() - k,
    {
        r.push(v[k].duplicate());
        k = k + 1;
    }
    assert(value::value_models(r@) =~= value::value_models(v@));
    r
}

/// The first value that is not of the type that it must have.
fn wrong_type(vs: &[Value], tys: &[ValueType]) -> (r: Option<Trap>)
    ensures
        r == machine::wrong_type(value::value_models(vs@), tys@, 0),
{
    let ghost ms = value::value_models(vs@);
    let mut k: usize = 0;
    while k < vs.len() && k < tys.len()
        invariant
            k <= vs@.len(),
            ms == value::value_models(vs@),
            machine::wrong_type(ms, tys@, k as int) == machine::wrong_type(ms, tys@, 0),
        decreases vs.len() - k,
    {
        assert(ms[k as int] == vs@[k as int]@);
        let actual: ValueType = vs[k].value_type();
        if actual != tys[k] {
            return Some(Trap::TypeMismatch { expected: tys[k], actual });
        }
        k = k + 1;
    }
    None
}

/// The span at a position of a function of a program.
fn span_at(p: &Program, func: u32, pc: u32) -> (r: Option<u64>)
    ensures
        r == verify::span_of(p@, func, pc),
{
    let i: usize = func as usize;
    if i >= p.functions.len() {
        return None;
    }
    match p.functions[i].spans(p) {
        Ok(spans) => find_span(spans, pc),
        Err(_) => None,
    }
}

/// The position of instruction `ix`.
fn pc_at(vf: &VerifiedFunction, ix: usize) -> (pc: u32)
    ensures
        pc == verify::pc_of(vf@, ix as int),
{
    if ix < vf.instrs.len() {
        assert(vf@.xs[ix as int] == vf.instrs@[ix as int]@);
        vf.instrs[ix].offset
    } else {
        vf.byte_len
    }
}

/// Where the machine stands, for a trap that no instruction raised.
fn stopped(program: &VerifiedProgram, frame: &Frame, trap: Trap) -> (t: TrapInfo)
    requires
        program.wf(),
    ensures
        forall|st: State|
            st.frames.len() > 0 && st.top() == frame@ ==> #[trigger] machine::stopped(
                program@,
                st,
                trap,
            ) == Next::Done(Err(t), st.heap),
{
    let pc: u32 = match program.verified(frame.func) {
        Some(vf) => pc_at(vf, frame.ix),
        None => 0,
    };
    TrapInfo { func: frame.func, pc, span_id: span_at(program.program(), frame.func.0, pc), trap }
}

/// The registers in which a caller wants the values that come back.
fn return_regs<'a>(program: &'a VerifiedProgram, caller: &Frame) -> (r: Option<&'a Vec<u32>>)
    requires
        program.wf(),
    ensures
        match machine::return_regs(program@, caller@) {
            Some(rs) => r is Some && r->0@ == rs,
            None => r is None,
        },
{
    match program.verified(caller.func) {
        None => None,
        Some(vf) => {
            if caller.ix == 0 || caller.ix > vf.instrs.len() {
                return None;
            }
            let x: &DecodedInstr = &vf.instrs[caller.ix - 1];
            assert(vf@.xs[caller.ix - 1] == x@);
            match x.instr.op {
                Opcode::Call => Some(list_of(x, 4)),
                _ => None,
            }
        },
    }
}

/// Hands what a host replied to the frame that called it: what comes back is checked, and the
/// values go to the registers of the call.
pub fn take_reply(
    ctx: &mut ExecutionContext,
    vf: &VerifiedFunction,
    start: Frame,
    eff: u32,
    rets: &Vec<u32>,
    ret_types: &[ValueType],
    got: Result<(Vec<Value>, u64), HostError>,
) -> (p: Progress)
    requires
        vf.wf(),
        start@.ix < vf@.xs.len(),
        old(ctx).fuel_left() < u64::MAX,
        old(ctx).calls_made() < u64::MAX,
    ensures
        p is Running ==> final(ctx).running(),
        final(ctx).fuel_left() <= old(ctx).fuel_left(),
        forall|heap: Seq<AggModel>|
            stepped(
                machine::replied(
                    vf@,
                    #[trigger] at_call(*old(ctx), start, heap),
                    eff,
                    rets@,
                    ret_types@,
                    host_reply(got),
                ),
                p,
                final(ctx).state(heap),
            ),
{
    let ghost low = ctx.frames@.map_values(|f: Frame| f@);
    assert forall|heap: Seq<AggModel>| (#[trigger] at_call(*old(ctx), start, heap)).frames.drop_last()
        == low by {
        assert(at_call(*old(ctx), start, heap).frames.drop_last() =~= low);
    }
    let next_ix: usize = if start.ix < vf.instrs.len() {
        start.ix + 1
    } else {
        0
    };
    let mut frame = start;
    let func = frame.func;
    let pc: u32 = pc_at(vf, frame.ix);
    let span_id: Option<u64> = vf.spans[frame.ix];
    let (vals, extra): (Vec<Value>, u64) = match got {
        Ok(r) => r,
        Err(e) => {
            return Progress::Done(
                Err(TrapInfo { func, pc, span_id, trap: Trap::HostCallFailed(e) }),
            );
        },
    };
    if vals.len() != ret_types.len() || vals.len() != rets.len() {
        let trap = Trap::HostReturnArityMismatch {
            expected: clamp_u32(ret_types.len()),
            actual: clamp_u32(vals.len()),
        };
        return Progress::Done(Err(TrapInfo { func, pc, span_id, trap }));
    }
    match wrong_type(vals.as_slice(), ret_types) {
        Some(trap) => {
            return Progress::Done(Err(TrapInfo { func, pc, span_id, trap }));
        },
        None => {},
    }
    if eff as usize >= frame.regs.len() || !frame.has_all(rets) {
        return Progress::Done(
            Err(TrapInfo { func, pc, span_id, trap: Trap::RegOutOfBounds }),
        );
    }
    let _ok = frame.write(eff, Value::Unit);
    frame.write_all(rets, vals);
    frame.ix = next_ix;
    ctx.fuel = if ctx.fuel >= extra {
        ctx.fuel - extra
    } else {
        0
    };
    ctx.host_calls = ctx.host_calls + 1;
    ctx.frames.push(frame);
    assert(ctx.frames@.map_values(|f: Frame| f@) =~= low.push(frame@));
    Progress::Running
}

/// What is decided keeps to the program and the limits.
proof fn lemma_decided(
    vp: verify::VerifiedView,
    lim: Limits,
    v: verify::FunctionView,
    ix: int,
    st: State,
    o: Outcome,
)
    requires
        o == machine::decide(
            vp,
            lim,
            v,
            ix,
            st.top().regs,
            st.heap,
            st.frames.len(),
            st.host_calls,
        ),
    ensures
        o matches Outcome::Call { func, .. } ==> func.0 < vp.functions.len() && st.frames.len()
            < lim.max_call_depth,
        o is Host ==> st.host_calls < lim.max_host_calls,
{
}

/// What a step asked of the host and of the float unit is what their histories gained, and how they
/// came to be as they are. The host was handed a sink where there is one, and the sink was told of
/// the accesses.
spec fn consulted<H: Host, F: FloatUnit, A: AccessSink>(
    before: Vm<H, F>,
    after: Vm<H, F>,
    sink: Recorded<A>,
    sink_after: Recorded<A>,
    hosts: Seq<HostAnswer>,
    floats: Seq<FloatCall>,
) -> bool {
    &&& after.sums() == before.sums() + floats
    &&& chain(ieee::performs::<F>(), before.unit(), floats, after.unit())
    &&& if hosts.len() == 0 {
        &&& after.calls() == before.calls()
        &&& after.noted() == before.noted()
        &&& after.outside() == before.outside()
        &&& strict::noted(sink, sink_after, Seq::<AccessModel>::empty())
    } else {
        let c = after.calls().last();
        &&& hosts == seq![answer(c)]
        &&& after.calls() == before.calls().push(c)
        &&& c.accesses is Some == sink.present()
        &&& after.noted() == strict::noted_after(before.noted(), seq![c])
        &&& strict::answered(before.outside(), c, after.outside())
        &&& strict::noted(sink, sink_after, strict::relayed(strict::recorded(c)))
    }
}

/// Nothing was asked.
proof fn lemma_idle<H: Host, F: FloatUnit, A: AccessSink>(
    before: Vm<H, F>,
    after: Vm<H, F>,
    sink: Recorded<A>,
)
    requires
        after.host == before.host,
        after.floats == before.floats,
    ensures
        consulted(before, after, sink, sink, Seq::<HostAnswer>::empty(), Seq::<FloatCall>::empty()),
{
    strict::lemma_noted_none(sink);
    history::lemma_none::<F, FloatCall>(ieee::performs::<F>(), before.unit());
    assert(before.sums() + Seq::<FloatCall>::empty() =~= before.sums());
}

/// What one more call adds.
proof fn lemma_one_more_call(
    earlier: Option<(Seq<char>, SigHash)>,
    calls: Seq<HostCall>,
    c: HostCall,
)
    ensures
        strict::told(calls.push(c)) == strict::told(calls) + strict::relayed(strict::recorded(c)),
        strict::noted_after(earlier, calls.push(c)) == strict::noted_after(
            strict::noted_after(earlier, calls),
            seq![c],
        ),
        answers(calls.push(c)) == answers(calls).push(answer(c)),
{
    assert(calls.push(c).drop_last() =~= calls);
    assert(seq![c].drop_last() =~= Seq::<HostCall>::empty());
    reveal_with_fuel(strict::noted_after, 2);
    assert(answers(calls.push(c)) =~= answers(calls).push(answer(c)));
}

/// What a history holds since an earlier time.
proof fn lemma_since<T>(before: Seq<T>, after: Seq<T>, more: Seq<T>)
    requires
        after == before + more,
    ensures
        grew(before, after),
        since(before, after) == more,
{
    assert(after.take(before.len() as int) =~= before);
    assert(since(before, after) =~= more);
}

/// What a step adds to what a run has asked.
proof fn lemma_grew<H: Host, F: FloatUnit, A: AccessSink>(
    start: Vm<H, F>,
    before: Vm<H, F>,
    after: Vm<H, F>,
    base: Recorded<A>,
    sink: Recorded<A>,
    sink_after: Recorded<A>,
    hosts: Seq<HostAnswer>,
    floats: Seq<FloatCall>,
)
    requires
        consulted(before, after, sink, sink_after, hosts, floats),
        consulted_since(start, before, base, sink),
    ensures
        consulted_since(start, after, base, sink_after),
        answers(since(start.calls(), after.calls())) == answers(since(start.calls(), before.calls()))
            + hosts,
        since(start.sums(), after.sums()) == since(start.sums(), before.sums()) + floats,
{
    let (calls, sums) = (start.calls(), start.sums());
    let done = since(sums, before.sums());
    assert(since(sums, after.sums()) =~= done + floats);
    assert(after.sums().take(sums.len() as int) =~= sums);
    history::lemma_concat(
        ieee::performs::<F>(),
        start.unit(),
        done,
        before.unit(),
        floats,
        after.unit(),
    );
    let new = since(calls, before.calls());
    if hosts.len() == 0 {
        assert(answers(new) + hosts =~= answers(new));
        strict::lemma_noted_both(base, sink, sink_after, strict::told(new), Seq::empty());
        assert(strict::told(new) + Seq::<AccessModel>::empty() =~= strict::told(new));
    } else {
        let c = after.calls().last();
        assert(since(calls, after.calls()) =~= new.push(c));
        assert(after.calls().take(calls.len() as int) =~= calls);
        lemma_one_more_call(start.noted(), new, c);
        assert(answers(new) + hosts =~= answers(new).push(answer(c)));
        history::lemma_push(
            strict::answers_calls::<H>(),
            start.outside(),
            new,
            before.outside(),
            c,
            after.outside(),
        );
        strict::lemma_noted_both(
            base,
            sink,
            sink_after,
            strict::told(new),
            strict::relayed(strict::recorded(c)),
        );
    }
}

/// What was asked of the host and of the float unit since an earlier time is what their histories
/// gained, and how they came to be as they are. The host was handed a sink in all calls where there
/// is one, the sink was told of the accesses, and the first silent call was noted.
pub open spec fn consulted_since<H: Host, F: FloatUnit, A: AccessSink>(
    start: Vm<H, F>,
    now: Vm<H, F>,
    base: Recorded<A>,
    sink: Recorded<A>,
) -> bool {
    let new = since(start.calls(), now.calls());
    &&& outside_since(start, now)
    &&& now.noted() == strict::noted_after(start.noted(), new)
    &&& strict::all_handed(new, base.present())
    &&& strict::noted(base, sink, strict::told(new))
}

/// The host and the float unit came to be as they are by what their histories gained since an earlier
/// time.
pub open spec fn outside_since<H: Host, F: FloatUnit>(start: Vm<H, F>, now: Vm<H, F>) -> bool {
    &&& grew(start.calls(), now.calls())
    &&& grew(start.sums(), now.sums())
    &&& chain(
        strict::answers_calls::<H>(),
        start.outside(),
        since(start.calls(), now.calls()),
        now.outside(),
    )
    &&& chain(
        ieee::performs::<F>(),
        start.unit(),
        since(start.sums(), now.sums()),
        now.unit(),
    )
}

/// A host and a float unit that came to be by what was asked of them still do when more was asked.
pub proof fn lemma_outside<H: Host, F: FloatUnit>(start: Vm<H, F>, now: Vm<H, F>)
    requires
        start.wf(),
        outside_since(start, now),
    ensures
        now.wf(),
{
    let h = choose|first: H| #[trigger]
        chain(strict::answers_calls::<H>(), first, start.calls(), start.outside());
    let calls = since(start.calls(), now.calls());
    history::lemma_concat(
        strict::answers_calls::<H>(),
        h,
        start.calls(),
        start.outside(),
        calls,
        now.outside(),
    );
    assert(start.calls() + calls =~= now.calls());
    let f = choose|first: F| #[trigger]
        chain(ieee::performs::<F>(), first, start.sums(), start.unit());
    let sums = since(start.sums(), now.sums());
    history::lemma_concat(
        ieee::performs::<F>(),
        f,
        start.sums(),
        start.unit(),
        sums,
        now.unit(),
    );
    assert(start.sums() + sums =~= now.sums());
}

impl<H: Host, F: FloatUnit> Vm<H, F> {
    /// The calls that the host performed, in order.
    pub closed spec fn calls(&self) -> Seq<HostCall> {
        self.host.calls()
    }

    /// What the float unit performed, in order.
    pub closed spec fn sums(&self) -> Seq<FloatCall> {
        self.floats.done()
    }

    /// The host.
    pub closed spec fn outside(&self) -> H {
        self.host.inner()
    }

    /// The float unit.
    pub closed spec fn unit(&self) -> F {
        self.floats.inner()
    }

    /// The first host call that recorded no access, since the last one was taken.
    pub closed spec fn noted(&self) -> Option<(Seq<char>, SigHash)> {
        self.host.noted()
    }

    /// The host and the float unit came to be as they are by what was asked of them.
    pub open spec fn wf(&self) -> bool {
        &&& exists|first: H| #[trigger]
            chain(strict::answers_calls::<H>(), first, self.calls(), self.outside())
        &&& exists|first: F| #[trigger]
            chain(ieee::performs::<F>(), first, self.sums(), self.unit())
    }

    /// The limits.
    pub closed spec fn lim(&self) -> Limits {
        self.limits
    }

    /// The aggregates.
    pub closed spec fn heap(&self) -> Seq<AggModel> {
        self.agg@
    }

    /// Creates an interpreter with a host, a unit for arithmetic that rounds, and limits.
    #[must_use]
    pub fn new(host: H, floats: F, limits: Limits) -> (vm: Self)
        ensures
            vm.lim() == limits,
            vm.heap() == Seq::<AggModel>::empty(),
            vm.calls() == Seq::<HostCall>::empty(),
            vm.sums() == Seq::<FloatCall>::empty(),
            vm.noted() is None,
            vm.outside() == host,
            vm.unit() == floats,
            vm.wf(),
    {
        let vm = Vm {
            host: Watched::new(host),
            floats: Rounding::new(floats),
            limits,
            agg: AggHeap::new(),
        };
        proof {
            history::lemma_none::<H, HostCall>(strict::answers_calls::<H>(), vm.outside());
            history::lemma_none::<F, FloatCall>(ieee::performs::<F>(), vm.unit());
            assert(chain(
                strict::answers_calls::<H>(),
                vm.outside(),
                vm.calls(),
                vm.outside(),
            ));
            assert(chain(ieee::performs::<F>(), vm.unit(), vm.sums(), vm.unit()));
        }
        vm
    }

    /// Performs a host call and hands its reply to the running frame.
    fn call_host<T: TraceSink, A: AccessSink>(
        &mut self,
        ctx: &mut ExecutionContext,
        program: &VerifiedProgram,
        mask: TraceMask,
        trace: &mut Traced<T>,
        access: &mut Recorded<A>,
        vf: &VerifiedFunction,
        start: Frame,
        call: Action<'_>,
    ) -> (p: Progress)
        requires
            program.wf(),
            vf.wf(),
            start.ix < vf.instrs@.len(),
            old(ctx).host_calls < old(self).limits.max_host_calls,
            old(ctx).fuel < u64::MAX,
            call@ is Host,
            old(ctx).frames@.len() < usize::MAX,
        ensures
            final(self).limits == old(self).limits,
            final(access).present() == old(access).present(),
            p is Running ==> final(ctx).frames@.len() > 0,
            final(ctx).fuel <= old(ctx).fuel,
            exists|reply: Reply|
                stepped(
                    #[trigger] machine::apply(
                        program@,
                        vf@,
                        at_call(*old(ctx), start, old(self).agg@),
                        call@,
                        reply,
                    ),
                    p,
                    final(ctx).state(final(self).agg@),
                ) && consulted(
                    *old(self),
                    *final(self),
                    *old(access),
                    *final(access),
                    machine::host_asked(call@, reply),
                    machine::float_asked(call@, reply),
                ) && trace::told(*old(trace), *final(trace), machine::outcome_events(
                    program@,
                    mask,
                    vf@,
                    at_call(*old(ctx), start, old(self).agg@),
                    call@,
                    reply,
                )),
    {
        let ghost before = at_call(*ctx, start, self.agg@);
        let ghost o = call@;
        let func = start.func;
        let pc: u32 = pc_at(vf, start.ix);
        let span_id: Option<u64> = vf.spans[start.ix];
        let depth: usize = ctx.frames.len();
        match call {
            Action::Host { eff, rets, sig, symbol, text, sig_hash, args, ret_types } => {
                let p: &Program = program.program();
                let kind = ScopeKind::HostCall { host_sig: sig, symbol, sig_hash };
                proof {
                    trace::lemma_told_none(*trace);
                }
                if mask.host {
                    trace.scope_enter(p, kind, depth + 1, func, pc, span_id);
                }
                let ghost entered = *trace;
                let refs = value_refs(&args);
                let (got, log) = self.host.perform(
                    text,
                    sig_hash,
                    refs.as_slice(),
                    access.is_present(),
                );
                access.tell(&log);
                if mask.host && got.is_ok() {
                    trace.scope_exit(p, kind, depth + 1, func, pc, span_id);
                    proof {
                        let depth = (depth + 1) as usize;
                        let enter = TraceEvent::Enter {
                            program: p@,
                            kind,
                            depth,
                            func,
                            pc,
                            span_id,
                        };
                        let exit = TraceEvent::Exit { program: p@, kind, depth, func, pc, span_id };
                        trace::lemma_told_both(
                            *old(trace),
                            entered,
                            *trace,
                            seq![enter],
                            seq![exit],
                        );
                        assert(seq![enter] + seq![exit] =~= seq![enter, exit]);
                    }
                }
                let ghost reply = Reply { host: host_reply(got), float: 0 };
                let ghost n = machine::apply(program@, vf@, before, o, reply);
                assert(self.host.calls().last().args == value::value_models(args@));
                assert(machine::host_asked(o, reply) =~= seq![answer(self.host.calls().last())]);
                proof {
                    history::lemma_none::<F, FloatCall>(ieee::performs::<F>(), self.unit());
                    assert(self.sums() =~= old(self).sums() + machine::float_asked(o, reply));
                    if access.present() {
                        assert(strict::recorded(self.calls().last()) == log@);
                    } else {
                        assert(strict::recorded(self.calls().last()) =~= log@);
                    }
                }
                assert(trace::told(*old(trace), *trace, machine::outcome_events(
                    program@,
                    mask,
                    vf@,
                    before,
                    o,
                    reply,
                )));
                let done = take_reply(ctx, vf, start, eff, rets, ret_types, got);
                assert(at_call(*old(ctx), start, self.agg@) == before);
                assert(stepped(n, done, ctx.state(self.agg@)));
                done
            },
            _ => Progress::Running,
        }
    }

    /// Enters a function.
    fn perform_call<T: TraceSink>(
        &mut self,
        ctx: &mut ExecutionContext,
        program: &VerifiedProgram,
        mask: TraceMask,
        trace: &mut Traced<T>,
        vf: &VerifiedFunction,
        start: Frame,
        callee: FuncId,
        eff: u32,
        args: Vec<Value>,
    ) -> (p: Progress)
        requires
            program.wf(),
            vf.wf(),
            start.ix < vf.instrs@.len(),
            old(ctx).fuel < u64::MAX,
            callee.0 < program@.functions.len(),
        ensures
            final(self).limits == old(self).limits,
            final(self).host == old(self).host,
            final(self).floats == old(self).floats,
            p is Running ==> final(ctx).frames@.len() > 0,
            final(ctx).fuel <= old(ctx).fuel,
            exists|reply: Reply|
                stepped(
                    #[trigger] machine::apply(
                        program@,
                        vf@,
                        at_call(*old(ctx), start, old(self).agg@),
                        (Outcome::Call {
                            func: callee,
                            eff,
                            args: value::value_models(args@),
                        }),
                        reply,
                    ),
                    p,
                    final(ctx).state(final(self).agg@),
                ) && trace::told(*old(trace), *final(trace), machine::outcome_events(
                    program@,
                    mask,
                    vf@,
                    at_call(*old(ctx), start, old(self).agg@),
                    (Outcome::Call {
                        func: callee,
                        eff,
                        args: value::value_models(args@),
                    }),
                    reply,
                )),
    {
        let ghost before = at_call(*ctx, start, self.agg@);
        let ghost o = Outcome::Call { func: callee, eff, args: value::value_models(args@) };
        let ghost n = machine::apply(program@, vf@, before, o, no_reply());
        let ghost low = ctx.frames@.map_values(|f: Frame| f@);
        assert(before.frames.drop_last() =~= low);
        assert(before.top() == start@);
        proof {
            trace::lemma_told_none(*trace);
        }
        let next_ix: usize = if start.ix < vf.instrs.len() {
            start.ix + 1
        } else {
            0
        };
        let pc: u32 = pc_at(vf, start.ix);
        let span_id: Option<u64> = vf.spans[start.ix];
        let mut frame = start;
        if !frame.write(eff, Value::Unit) {
            let done = Progress::Done(
                Err(TrapInfo { func: frame.func, pc, span_id, trap: Trap::RegOutOfBounds }),
            );
            assert(stepped(n, done, ctx.state(self.agg@)));
            return done;
        }
        frame.ix = next_ix;
        match program.verified(callee) {
            Some(cvf) => {
                let next = Frame::enter(callee, cvf.reg_count, args);
                ctx.frames.push(frame);
                assert(ctx.frames@.map_values(|f: Frame| f@) =~= low.push(frame@));
                ctx.frames.push(next);
                assert(ctx.frames@.map_values(|f: Frame| f@) =~= low.push(frame@).push(next@));
                if mask.call {
                    let entry_span: Option<u64> = if cvf.spans.len() > 0 {
                        cvf.spans[0]
                    } else {
                        None
                    };
                    trace.scope_enter(
                        program.program(),
                        ScopeKind::CallFrame { func: callee },
                        ctx.frames.len(),
                        callee,
                        0,
                        entry_span,
                    );
                }
                assert(trace::told(*old(trace), *trace, machine::outcome_events(
                    program@,
                    mask,
                    vf@,
                    before,
                    o,
                    no_reply(),
                )));
                assert(stepped(n, Progress::Running, ctx.state(self.agg@)));
                Progress::Running
            },
            None => {
                assert(false);
                Progress::Running
            },
        }
    }

    /// Leaves a function.
    fn perform_return<T: TraceSink>(
        &mut self,
        ctx: &mut ExecutionContext,
        program: &VerifiedProgram,
        mask: TraceMask,
        trace: &mut Traced<T>,
        vf: &VerifiedFunction,
        start: Frame,
        values: Vec<Value>,
    ) -> (p: Progress)
        requires
            program.wf(),
            vf.wf(),
            start.ix < vf.instrs@.len(),
            old(ctx).fuel < u64::MAX,
            old(ctx).frames@.len() < usize::MAX,
        ensures
            final(self).limits == old(self).limits,
            final(self).host == old(self).host,
            final(self).floats == old(self).floats,
            p is Running ==> final(ctx).frames@.len() > 0,
            final(ctx).fuel <= old(ctx).fuel,
            exists|reply: Reply|
                stepped(
                    #[trigger] machine::apply(
                        program@,
                        vf@,
                        at_call(*old(ctx), start, old(self).agg@),
                        (Outcome::Return { values: value::value_models(values@) }),
                        reply,
                    ),
                    p,
                    final(ctx).state(final(self).agg@),
                ) && trace::told(*old(trace), *final(trace), machine::outcome_events(
                    program@,
                    mask,
                    vf@,
                    at_call(*old(ctx), start, old(self).agg@),
                    (Outcome::Return { values: value::value_models(values@) }),
                    reply,
                )),
    {
        let ghost before = at_call(*ctx, start, self.agg@);
        let ghost o = Outcome::Return { values: value::value_models(values@) };
        let ghost n = machine::apply(program@, vf@, before, o, no_reply());
        let ghost low = ctx.frames@.map_values(|f: Frame| f@);
        assert(before.frames.drop_last() =~= low);
        assert(before.top() == start@);
        let func = start.func;
        let pc: u32 = pc_at(vf, start.ix);
        let span_id: Option<u64> = vf.spans[start.ix];
        proof {
            trace::lemma_told_none(*trace);
        }
        if mask.call {
            trace.scope_exit(
                program.program(),
                ScopeKind::CallFrame { func },
                ctx.frames.len() + 1,
                func,
                pc,
                span_id,
            );
        }
        assert(trace::told(*old(trace), *trace, machine::outcome_events(
            program@,
            mask,
            vf@,
            before,
            o,
            no_reply(),
        )));
        let mut caller: Frame = match ctx.frames.pop() {
            None => {
                let done = Progress::Done(Ok(values));
                assert(stepped(n, done, ctx.state(self.agg@)));
                return done;
            },
            Some(c) => c,
        };
        assert(low.last() == caller@);
        assert(ctx.frames@.map_values(|f: Frame| f@) =~= low.drop_last());
        let rs: &Vec<u32> = match return_regs(program, &caller) {
            Some(rs) => rs,
            None => {
                let done = Progress::Done(Err(TrapInfo { func, pc, span_id, trap: Trap::InvalidPc }));
                assert(stepped(n, done, ctx.state(self.agg@)));
                return done;
            },
        };
        if rs.len() != values.len() {
            let done = Progress::Done(Err(TrapInfo { func, pc, span_id, trap: Trap::InvalidPc }));
            assert(stepped(n, done, ctx.state(self.agg@)));
            return done;
        }
        if !caller.has_all(rs) {
            let done = Progress::Done(
                Err(TrapInfo { func, pc, span_id, trap: Trap::RegOutOfBounds }),
            );
            assert(stepped(n, done, ctx.state(self.agg@)));
            return done;
        }
        caller.write_all(rs, values);
        ctx.frames.push(caller);
        assert(ctx.frames@.map_values(|f: Frame| f@) =~= low.drop_last().push(caller@));
        assert(stepped(n, Progress::Running, ctx.state(self.agg@)));
        Progress::Running
    }

    /// Writes a value that was computed to a register, and goes on.
    fn perform_write(
        &mut self,
        ctx: &mut ExecutionContext,
        program: &VerifiedProgram,
        vf: &VerifiedFunction,
        start: Frame,
        dst: u32,
        value: Value,
    ) -> (p: Progress)
        requires
            program.wf(),
            vf.wf(),
            start.ix < vf.instrs@.len(),
            old(ctx).fuel < u64::MAX,
        ensures
            final(self).limits == old(self).limits,
            final(self).host == old(self).host,
            final(self).floats == old(self).floats,
            final(self).agg == old(self).agg,
            p is Running ==> final(ctx).frames@.len() > 0,
            final(ctx).fuel <= old(ctx).fuel,
            stepped(
                machine::store(vf@, at_call(*old(ctx), start, old(self).agg@), dst, value@),
                p,
                final(ctx).state(final(self).agg@),
            ),
    {
        let ghost before = at_call(*ctx, start, self.agg@);
        let ghost low = ctx.frames@.map_values(|f: Frame| f@);
        assert(before.frames.drop_last() =~= low);
        assert(before.top() == start@);
        let next_ix: usize = if start.ix < vf.instrs.len() {
            start.ix + 1
        } else {
            0
        };
        let pc: u32 = pc_at(vf, start.ix);
        let span_id: Option<u64> = vf.spans[start.ix];
        let mut frame = start;
        if !frame.write(dst, value) {
            return Progress::Done(
                Err(TrapInfo { func: frame.func, pc, span_id, trap: Trap::RegOutOfBounds }),
            );
        }
        frame.ix = next_ix;
        ctx.frames.push(frame);
        assert(ctx.frames@.map_values(|f: Frame| f@) =~= low.push(frame@));
        Progress::Running
    }

    /// Performs what an instruction does.
    fn perform<T: TraceSink, A: AccessSink>(
        &mut self,
        ctx: &mut ExecutionContext,
        program: &VerifiedProgram,
        mask: TraceMask,
        trace: &mut Traced<T>,
        access: &mut Recorded<A>,
        vf: &VerifiedFunction,
        start: Frame,
        action: Action<'_>,
    ) -> (p: Progress)
        requires
            program.wf(),
            vf.wf(),
            start.ix < vf.instrs@.len(),
            old(ctx).fuel < u64::MAX,
            old(ctx).frames@.len() < usize::MAX,
            action@ matches Outcome::Call { func, .. } ==> func.0 < program@.functions.len(),
            action@ is Host ==> old(ctx).host_calls < old(self).limits.max_host_calls,
        ensures
            final(self).limits == old(self).limits,
            final(access).present() == old(access).present(),
            p is Running ==> final(ctx).frames@.len() > 0,
            final(ctx).fuel <= old(ctx).fuel,
            exists|reply: Reply|
                stepped(
                    #[trigger] machine::apply(
                        program@,
                        vf@,
                        at_call(*old(ctx), start, old(self).agg@),
                        action@,
                        reply,
                    ),
                    p,
                    final(ctx).state(final(self).agg@),
                ) && consulted(
                    *old(self),
                    *final(self),
                    *old(access),
                    *final(access),
                    machine::host_asked(action@, reply),
                    machine::float_asked(action@, reply),
                ) && trace::told(*old(trace), *final(trace), machine::outcome_events(
                    program@,
                    mask,
                    vf@,
                    at_call(*old(ctx), start, old(self).agg@),
                    action@,
                    reply,
                )),
    {
        let ghost before = at_call(*ctx, start, self.agg@);
        let ghost o = action@;
        let ghost n = machine::apply(program@, vf@, before, o, no_reply());
        let ghost low = ctx.frames@.map_values(|f: Frame| f@);
        assert(before.frames.drop_last() =~= low);
        assert(before.top() == start@);
        proof {
            trace::lemma_told_none(*trace);
            strict::lemma_noted_none(*access);
            history::lemma_none::<F, FloatCall>(ieee::performs::<F>(), self.unit());
            assert(self.sums() + Seq::<FloatCall>::empty() =~= self.sums());
        }
        match action {
            Action::Skip => {
                let next_ix: usize = if start.ix < vf.instrs.len() {
                    start.ix + 1
                } else {
                    0
                };
                let frame = Frame { func: start.func, ix: next_ix, regs: start.regs };
                ctx.frames.push(frame);
                assert(ctx.frames@.map_values(|f: Frame| f@) =~= low.push(frame@));
                assert(stepped(n, Progress::Running, ctx.state(self.agg@)));
                Progress::Running
            },
            Action::Write { dst, value } => {
                let p = self.perform_write(ctx, program, vf, start, dst, value);
                assert(stepped(n, p, ctx.state(self.agg@)));
                p
            },
            Action::Float { dst, op, a, b } => {
                let bits: u64 = self.floats.compute(op, a, b);
                let ghost reply = Reply { host: Err(HostError::Failed), float: bits };
                proof {
                    let c = FloatCall { op, a, b, bits };
                    history::lemma_one(ieee::performs::<F>(), old(self).unit(), c, self.unit());
                    assert(self.sums() =~= old(self).sums() + machine::float_asked(o, reply));
                }
                let ghost m = machine::apply(program@, vf@, before, o, reply);
                let p = self.perform_write(ctx, program, vf, start, dst, Value::F64(bits));
                assert(stepped(m, p, ctx.state(self.agg@)));
                p
            },
            Action::Build { dst, kind, values } => {
                if dst as usize >= start.regs.len() {
                    let pc: u32 = pc_at(vf, start.ix);
                    let span_id: Option<u64> = vf.spans[start.ix];
                    let done = Progress::Done(
                        Err(TrapInfo { func: start.func, pc, span_id, trap: Trap::RegOutOfBounds }),
                    );
                    assert(stepped(n, done, ctx.state(self.agg@)));
                    return done;
                }
                let h: AggHandle = AggHandle(clamp_u32(self.agg.len()));
                let p = self.perform_write(ctx, program, vf, start, dst, Value::Agg(h));
                let _h = self.agg.push_node(kind, values);
                assert(stepped(n, p, ctx.state(self.agg@)));
                p
            },
            Action::Goto { ix } => {
                let frame = Frame { func: start.func, ix, regs: start.regs };
                ctx.frames.push(frame);
                assert(ctx.frames@.map_values(|f: Frame| f@) =~= low.push(frame@));
                assert(stepped(n, Progress::Running, ctx.state(self.agg@)));
                Progress::Running
            },
            Action::Call { func, eff, args } => self.perform_call(
                ctx,
                program,
                mask,
                trace,
                vf,
                start,
                func,
                eff,
                args,
            ),
            Action::Return { values } => self.perform_return(
                ctx,
                program,
                mask,
                trace,
                vf,
                start,
                values,
            ),
            Action::Host { .. } => self.call_host(
                ctx,
                program,
                mask,
                trace,
                access,
                vf,
                start,
                action,
            ),
            Action::Fail { trap } => {
                let pc: u32 = pc_at(vf, start.ix);
                let span_id: Option<u64> = vf.spans[start.ix];
                let done = Progress::Done(Err(TrapInfo { func: start.func, pc, span_id, trap }));
                assert(stepped(n, done, ctx.state(self.agg@)));
                done
            },
        }
    }

    /// Performs the next instruction.
    fn step<T: TraceSink, A: AccessSink>(
        &mut self,
        ctx: &mut ExecutionContext,
        program: &VerifiedProgram,
        mask: TraceMask,
        trace: &mut Traced<T>,
        access: &mut Recorded<A>,
    ) -> (p: Progress)
        requires
            program.wf(),
            old(ctx).frames@.len() > 0,
        ensures
            final(self).limits == old(self).limits,
            final(access).present() == old(access).present(),
            p is Running ==> final(ctx).frames@.len() > 0 && final(ctx).fuel < old(ctx).fuel,
            exists|reply: Reply|
                stepped(
                    #[trigger] machine::step(
                        program@,
                        old(self).limits,
                        old(ctx).state(old(self).agg@),
                        reply,
                    ),
                    p,
                    final(ctx).state(final(self).agg@),
                ) && consulted(
                    *old(self),
                    *final(self),
                    *old(access),
                    *final(access),
                    machine::step_hosts(
                        program@,
                        old(self).limits,
                        old(ctx).state(old(self).agg@),
                        reply,
                    ),
                    machine::step_floats(
                        program@,
                        old(self).limits,
                        old(ctx).state(old(self).agg@),
                        reply,
                    ),
                ) && trace::told(*old(trace), *final(trace), machine::step_events(
                    program@,
                    old(self).limits,
                    mask,
                    old(ctx).state(old(self).agg@),
                    reply,
                )),
    {
        let ghost st = ctx.state(self.agg@);
        let ghost lim = self.limits;
        proof {
            trace::lemma_told_none(*trace);
            lemma_idle(*self, *self, *access);
        }
        let depth: usize = ctx.frames.len();
        let frame: Frame = match ctx.frames.pop() {
            Some(f) => f,
            None => {
                assert(false);
                return Progress::Running;
            },
        };
        let ghost low = ctx.frames@.map_values(|f: Frame| f@);
        assert(st.frames =~= low.push(frame@));
        assert(st.top() == frame@);
        if ctx.fuel == 0 {
            let done = Progress::Done(Err(stopped(program, &frame, Trap::FuelExceeded)));
            assert(stepped(machine::step(program@, lim, st, no_reply()), done, ctx.state(self.agg@)));
            return done;
        }
        ctx.fuel = ctx.fuel - 1;
        let vf: &VerifiedFunction = match program.verified(frame.func) {
            Some(vf) => vf,
            None => {
                let done = Progress::Done(Err(stopped(program, &frame, Trap::InvalidPc)));
                assert(stepped(
                    machine::step(program@, lim, st, no_reply()),
                    done,
                    ctx.state(self.agg@),
                ));
                return done;
            },
        };
        if frame.ix >= vf.instrs.len() {
            let done = Progress::Done(Err(stopped(program, &frame, Trap::InvalidPc)));
            assert(stepped(machine::step(program@, lim, st, no_reply()), done, ctx.state(self.agg@)));
            return done;
        }
        if mask.instr {
            let pc: u32 = pc_at(vf, frame.ix);
            let next_pc: u32 = pc_at(vf, frame.ix + 1);
            trace.instr(
                program.program(),
                frame.func,
                pc,
                next_pc,
                vf.spans[frame.ix],
                vf.instrs[frame.ix].opcode,
            );
        }
        let action = decide(
            program,
            &self.limits,
            vf,
            frame.ix,
            &frame.regs,
            &self.agg,
            depth,
            ctx.host_calls,
        );
        let ghost o = action@;
        assert(at_call(*ctx, frame, self.agg@) =~= st);
        assert(forall|reply: Reply| #[trigger]
            machine::step(program@, lim, st, reply) == machine::apply(program@, vf@, st, o, reply));
        proof {
            lemma_decided(program@, lim, vf@, frame.ix as int, st, o);
        }
        let ghost heard = *trace;
        let ghost first: Seq<TraceEvent> = if mask.instr {
            seq![
                TraceEvent::Instr {
                    program: program@.program,
                    func: frame.func,
                    pc: verify::pc_of(vf@, frame.ix as int),
                    next_pc: verify::pc_of(vf@, frame.ix + 1),
                    span_id: vf@.spans[frame.ix as int],
                    opcode: opcode::opcode_byte(vf@.xs[frame.ix as int].op),
                },
            ]
        } else {
            Seq::empty()
        };
        assert(trace::told(*old(trace), heard, first));
        let p = self.perform(ctx, program, mask, trace, access, vf, frame, action);
        proof {
            let reply = choose|reply: Reply|
                stepped(
                    #[trigger] machine::apply(program@, vf@, st, o, reply),
                    p,
                    ctx.state(self.agg@),
                ) && consulted(
                    *old(self),
                    *self,
                    *old(access),
                    *access,
                    machine::host_asked(o, reply),
                    machine::float_asked(o, reply),
                ) && trace::told(heard, *trace, machine::outcome_events(
                    program@,
                    mask,
                    vf@,
                    st,
                    o,
                    reply,
                ));
            assert(machine::next_outcome(program@, lim, st) == Some(o));
            let more = machine::outcome_events(program@, mask, vf@, st, o, reply);
            trace::lemma_told_both(*old(trace), heard, *trace, first, more);
            assert(machine::step_events(program@, lim, mask, st, reply) =~= first + more);
            assert(machine::step(program@, lim, st, reply) == machine::apply(
                program@,
                vf@,
                st,
                o,
                reply,
            ));
        }
        p
    }

    /// Sets a run up, or says why it cannot start.
    fn begin<T: TraceSink>(
        &mut self,
        ctx: &mut ExecutionContext,
        program: &VerifiedProgram,
        entry: FuncId,
        args: &[Value],
        mask: TraceMask,
        trace: &mut Traced<T>,
    ) -> (res: Result<(), TrapInfo>)
        requires
            program.wf(),
        ensures
            final(self).limits == old(self).limits,
            final(self).agg == old(self).agg,
            final(self).host == old(self).host,
            final(self).floats == old(self).floats,
            trace::told(*old(trace), *final(trace), if res is Ok {
                machine::entered(program@, mask, entry, 1)
            } else {
                Seq::empty()
            }),
            match machine::start(
                program@,
                old(self).limits,
                old(self).agg@,
                entry,
                value::value_models(args@),
            ) {
                Next::Running(st) => {
                    &&& res is Ok
                    &&& final(ctx).state(final(self).agg@) == st
                    &&& final(ctx).frames@.len() > 0
                },
                Next::Done(Err(t), h) => res == Err::<(), TrapInfo>(t) && h == old(self).agg@,
                Next::Done(Ok(_), _) => false,
            },
    {
        ctx.reset(self.limits.fuel);
        proof {
            trace::lemma_told_none(*trace);
        }
        let p: &Program = program.program();
        let i: usize = entry.0 as usize;
        if i >= p.functions.len() {
            return Err(TrapInfo { func: entry, pc: 0, span_id: None, trap: Trap::InvalidPc });
        }
        if args.len() != p.functions[i].arg_count as usize {
            return Err(TrapInfo { func: entry, pc: 0, span_id: None, trap: Trap::InvalidPc });
        }
        let tys: &[ValueType] = match p.functions[i].arg_types(p) {
            Ok(tys) => tys,
            Err(_) => {
                return Err(TrapInfo { func: entry, pc: 0, span_id: None, trap: Trap::InvalidPc });
            },
        };
        if tys.len() != args.len() {
            return Err(TrapInfo { func: entry, pc: 0, span_id: None, trap: Trap::InvalidPc });
        }
        match wrong_type(args, tys) {
            Some(trap) => {
                return Err(TrapInfo { func: entry, pc: 0, span_id: None, trap });
            },
            None => {},
        }
        let vf: &VerifiedFunction = match program.verified(entry) {
            Some(vf) => vf,
            None => {
                return Err(TrapInfo { func: entry, pc: 0, span_id: None, trap: Trap::InvalidPc });
            },
        };
        let frame = Frame::enter(entry, vf.reg_count, copy_values(args));
        ctx.frames.push(frame);
        assert(ctx.frames@.map_values(|f: Frame| f@) =~= seq![frame@]);
        if mask.call {
            let entry_span: Option<u64> = if vf.spans.len() > 0 {
                vf.spans[0]
            } else {
                None
            };
            trace.scope_enter(
                p,
                ScopeKind::CallFrame { func: entry },
                ctx.frames.len(),
                entry,
                0,
                entry_span,
            );
        }
        Ok(())
    }

    /// Runs a function to its end.
    fn run_body<T: TraceSink, A: AccessSink>(
        &mut self,
        ctx: &mut ExecutionContext,
        program: &VerifiedProgram,
        entry: FuncId,
        args: &[Value],
        mask: TraceMask,
        trace: &mut Traced<T>,
        access: &mut Recorded<A>,
    ) -> (res: Result<Vec<Value>, TrapInfo>)
        requires
            program.wf(),
        ensures
            final(self).limits == old(self).limits,
            ends(
                program@,
                old(self).limits,
                machine::start(
                    program@,
                    old(self).limits,
                    old(self).agg@,
                    entry,
                    value::value_models(args@),
                ),
                res,
                final(self).agg@,
                since(old(self).calls(), final(self).calls()),
                since(old(self).sums(), final(self).sums()),
            ),
            ended(
                program@,
                old(self).limits,
                machine::start(
                    program@,
                    old(self).limits,
                    old(self).agg@,
                    entry,
                    value::value_models(args@),
                ),
                result_of(res),
                final(self).agg@,
                since(old(self).calls(), final(self).calls()),
                since(old(self).sums(), final(self).sums()),
                mask,
                entry,
                since(old(trace).events(), final(trace).events()),
            ),
            trace::told(
                *old(trace),
                *final(trace),
                since(old(trace).events(), final(trace).events()),
            ),
            consulted_since(*old(self), *final(self), *old(access), *final(access)),
    {
        let ghost vp = program@;
        let ghost lim = self.limits;
        let ghost from = machine::start(vp, lim, self.agg@, entry, value::value_models(args@));
        let ghost mut replies: Seq<Reply> = Seq::empty();
        let ghost calls = self.calls();
        let ghost sums = self.sums();
        assert(since(calls, calls) =~= Seq::<HostCall>::empty());
        assert(since(sums, sums) =~= Seq::<FloatCall>::empty());
        assert(answers(since(calls, calls)) =~= Seq::<HostAnswer>::empty());
        assert(calls.take(calls.len() as int) =~= calls);
        assert(sums.take(sums.len() as int) =~= sums);
        proof {
            strict::lemma_noted_none(*access);
            history::lemma_none::<F, FloatCall>(ieee::performs::<F>(), self.unit());
            history::lemma_none::<H, HostCall>(strict::answers_calls::<H>(), self.outside());
            assert(consulted_since(*self, *self, *access, *access));
        }
        match self.begin(ctx, program, entry, args, mask, trace) {
            Ok(()) => {},
            Err(t) => {
                let res: Result<Vec<Value>, TrapInfo> = Err(t);
                assert(machine::steps(vp, lim, from, replies) == Next::Done(result_of(res), self.agg@));
                proof {
                    let inner = machine::inner_events(vp, lim, mask, from, entry, replies);
                    assert(inner =~= Seq::<TraceEvent>::empty());
                    lemma_since(old(trace).events(), trace.events(), inner);
                }
                return res;
            },
        }
        proof {
            let inner = machine::inner_events(vp, lim, mask, from, entry, replies);
            assert(inner =~= machine::entered(vp, mask, entry, 1));
        }
        loop
            invariant
                program.wf(),
                vp == program@,
                self.limits == lim,
                lim == old(self).limits,
                from == machine::start(
                    vp,
                    lim,
                    old(self).agg@,
                    entry,
                    value::value_models(args@),
                ),
                ctx.frames@.len() > 0,
                machine::steps(vp, lim, from, replies) == Next::Running(ctx.state(self.agg@)),
                calls == old(self).calls(),
                sums == old(self).sums(),
                consulted_since(*old(self), *self, *old(access), *access),
                machine::hosts(vp, lim, from, replies) == answers(since(calls, self.calls())),
                machine::floats(vp, lim, from, replies) == since(sums, self.sums()),
                from is Running,
                trace::told(*old(trace), *trace, machine::inner_events(
                    vp,
                    lim,
                    mask,
                    from,
                    entry,
                    replies,
                )),
            decreases ctx.fuel,
        {
            let ghost st = ctx.state(self.agg@);
            let ghost vm = *self;
            let ghost sink = *access;
            let ghost heard = *trace;
            let p = self.step(ctx, program, mask, trace, access);
            proof {
                let reply = choose|reply: Reply|
                    stepped(
                        #[trigger] machine::step(vp, lim, st, reply),
                        p,
                        ctx.state(self.agg@),
                    ) && consulted(
                        vm,
                        *self,
                        sink,
                        *access,
                        machine::step_hosts(vp, lim, st, reply),
                        machine::step_floats(vp, lim, st, reply),
                    ) && trace::told(
                        heard,
                        *trace,
                        machine::step_events(vp, lim, mask, st, reply),
                    );
                let more = replies.push(reply);
                assert(more.drop_last() =~= replies);
                assert(machine::steps(vp, lim, from, more) == machine::step(vp, lim, st, reply));
                let inner = machine::inner_events(vp, lim, mask, from, entry, replies);
                let events = machine::step_events(vp, lim, mask, st, reply);
                trace::lemma_told_both(*old(trace), heard, *trace, inner, events);
                assert(machine::inner_events(vp, lim, mask, from, entry, more) =~= inner + events);
                lemma_grew(
                    *old(self),
                    vm,
                    *self,
                    *old(access),
                    sink,
                    *access,
                    machine::step_hosts(vp, lim, st, reply),
                    machine::step_floats(vp, lim, st, reply),
                );
                replies = more;
            }
            match p {
                Progress::Running => {},
                Progress::Done(res) => {
                    proof {
                        lemma_since(old(trace).events(), trace.events(), machine::inner_events(
                            vp,
                            lim,
                            mask,
                            from,
                            entry,
                            replies,
                        ));
                    }
                    return res;
                },
            }
        }
    }

    /// Runs a function with the given arguments. Register 0 holds the effect token at entry, and the
    /// arguments stand in the registers behind it.
    ///
    /// What the host gives back is checked: the number of values and their types.
    pub fn run<T: TraceSink>(
        &mut self,
        program: &VerifiedProgram,
        entry: FuncId,
        args: &[Value],
        trace_mask: TraceMask,
        trace: &mut Traced<T>,
    ) -> (res: Result<Vec<Value>, TrapInfo>)
        requires
            program.wf(),
        ensures
            final(self).lim() == old(self).lim(),
            ends(
                program@,
                old(self).lim(),
                machine::start(
                    program@,
                    old(self).lim(),
                    old(self).heap(),
                    entry,
                    value::value_models(args@),
                ),
                res,
                final(self).heap(),
                since(old(self).calls(), final(self).calls()),
                since(old(self).sums(), final(self).sums()),
            ),
            outside_since(*old(self), *final(self)),
            final(self).noted() == strict::noted_after(
                old(self).noted(),
                since(old(self).calls(), final(self).calls()),
            ),
            strict::all_handed(since(old(self).calls(), final(self).calls()), false),
            trace::told(
                *old(trace),
                *final(trace),
                since(old(trace).events(), final(trace).events()),
            ),
            told_of(
                program@,
                old(self).lim(),
                machine::start(
                    program@,
                    old(self).lim(),
                    old(self).heap(),
                    entry,
                    value::value_models(args@),
                ),
                result_of(res),
                final(self).heap(),
                since(old(self).calls(), final(self).calls()),
                since(old(self).sums(), final(self).sums()),
                trace_mask,
                entry,
                args@.len(),
                since(old(trace).events(), final(trace).events()),
            ),
    {
        let mut ctx = ExecutionContext::new();
        self.run_with_ctx(&mut ctx, program, entry, args, trace_mask, trace)
    }

    /// Runs a function in a context that can be used again.
    pub fn run_with_ctx<T: TraceSink>(
        &mut self,
        ctx: &mut ExecutionContext,
        program: &VerifiedProgram,
        entry: FuncId,
        args: &[Value],
        trace_mask: TraceMask,
        trace: &mut Traced<T>,
    ) -> (res: Result<Vec<Value>, TrapInfo>)
        requires
            program.wf(),
        ensures
            final(self).lim() == old(self).lim(),
            ends(
                program@,
                old(self).lim(),
                machine::start(
                    program@,
                    old(self).lim(),
                    old(self).heap(),
                    entry,
                    value::value_models(args@),
                ),
                res,
                final(self).heap(),
                since(old(self).calls(), final(self).calls()),
                since(old(self).sums(), final(self).sums()),
            ),
            outside_since(*old(self), *final(self)),
            final(self).noted() == strict::noted_after(
                old(self).noted(),
                since(old(self).calls(), final(self).calls()),
            ),
            strict::all_handed(since(old(self).calls(), final(self).calls()), false),
            trace::told(
                *old(trace),
                *final(trace),
                since(old(trace).events(), final(trace).events()),
            ),
            told_of(
                program@,
                old(self).lim(),
                machine::start(
                    program@,
                    old(self).lim(),
                    old(self).heap(),
                    entry,
                    value::value_models(args@),
                ),
                result_of(res),
                final(self).heap(),
                since(old(self).calls(), final(self).calls()),
                since(old(self).sums(), final(self).sums()),
                trace_mask,
                entry,
                args@.len(),
                since(old(trace).events(), final(trace).events()),
            ),
    {
        let mut access = Recorded::none();
        self.run_with_ctx_and_access_sink(
            ctx,
            program,
            entry,
            args,
            trace_mask,
            trace,
            &mut access,
        )
    }

    /// Runs a function, and hands a sink for resource accesses to the host, where there is one.
    pub fn run_with_ctx_and_access_sink<T: TraceSink, A: AccessSink>(
        &mut self,
        ctx: &mut ExecutionContext,
        program: &VerifiedProgram,
        entry: FuncId,
        args: &[Value],
        trace_mask: TraceMask,
        trace: &mut Traced<T>,
        access: &mut Recorded<A>,
    ) -> (res: Result<Vec<Value>, TrapInfo>)
        requires
            program.wf(),
        ensures
            final(self).lim() == old(self).lim(),
            ends(
                program@,
                old(self).lim(),
                machine::start(
                    program@,
                    old(self).lim(),
                    old(self).heap(),
                    entry,
                    value::value_models(args@),
                ),
                res,
                final(self).heap(),
                since(old(self).calls(), final(self).calls()),
                since(old(self).sums(), final(self).sums()),
            ),
            consulted_since(*old(self), *final(self), *old(access), *final(access)),
            trace::told(
                *old(trace),
                *final(trace),
                since(old(trace).events(), final(trace).events()),
            ),
            told_of(
                program@,
                old(self).lim(),
                machine::start(
                    program@,
                    old(self).lim(),
                    old(self).heap(),
                    entry,
                    value::value_models(args@),
                ),
                result_of(res),
                final(self).heap(),
                since(old(self).calls(), final(self).calls()),
                since(old(self).sums(), final(self).sums()),
                trace_mask,
                entry,
                args@.len(),
                since(old(trace).events(), final(trace).events()),
            ),
    {
        let p: &Program = program.program();
        proof {
            trace::lemma_told_none(*trace);
        }
        if trace_mask.run {
            trace.run_start(p, entry, args.len());
        }
        let ghost begun = *trace;
        let res = self.run_body(ctx, program, entry, args, trace_mask, trace, access);
        let ghost ran = *trace;
        let ghost inner = since(begun.events(), ran.events());
        proof {
            trace::lemma_told_none(ran);
        }
        if trace_mask.run {
            let outcome = match &res {
                Ok(_) => TraceOutcome::Returned,
                Err(t) => TraceOutcome::Trap(t),
            };
            trace.run_end(p, outcome);
        }
        proof {
            let told = machine::run_events(
                program@,
                trace_mask,
                entry,
                args@.len(),
                inner,
                result_of(res),
            );
            let (head, tail): (Seq<TraceEvent>, Seq<TraceEvent>) = if trace_mask.run {
                (
                    seq![TraceEvent::Start { program: p@, entry, arg_count: args@.len() as usize }],
                    seq![
                        TraceEvent::End {
                            program: p@,
                            trap: match result_of(res) {
                                Ok(_) => None,
                                Err(t) => Some(t),
                            },
                        },
                    ],
                )
            } else {
                (Seq::empty(), Seq::empty())
            };
            trace::lemma_told_both(*old(trace), begun, ran, head, inner);
            trace::lemma_told_both(*old(trace), ran, *trace, head + inner, tail);
            assert(told =~= head + inner + tail);
            lemma_since(old(trace).events(), trace.events(), told);
        }
        res
    }

    /// Takes the first host call that recorded no access.
    pub(crate) fn take_silent(&mut self) -> (call: Option<SilentCall>)
        ensures
            strict::silent_model(call) == old(self).noted(),
            final(self).noted() is None,
            final(self).heap() == old(self).heap(),
            final(self).lim() == old(self).lim(),
            final(self).calls() == old(self).calls(),
            final(self).sums() == old(self).sums(),
            final(self).outside() == old(self).outside(),
            final(self).unit() == old(self).unit(),
    {
        self.host.take_silent()
    }

    /// The heap of aggregates.
    pub fn aggregates(&self) -> (h: &AggHeap)
        ensures
            h@ == self.heap(),
    {
        &self.agg
    }

    /// The heap of aggregates.
    pub fn aggregates_mut(&mut self) -> (h: &mut AggHeap)
        ensures
            (*h)@ == old(self).heap(),
            final(self).heap() == (*final(h))@,
            final(self).lim() == old(self).lim(),
            final(self).calls() == old(self).calls(),
            final(self).sums() == old(self).sums(),
            final(self).noted() == old(self).noted(),
            final(self).outside() == old(self).outside(),
            final(self).unit() == old(self).unit(),
    {
        &mut self.agg
    }
}

} // verus!
