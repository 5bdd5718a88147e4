//! Disassembler.
//!
//! A program is taken apart into functions and these into instructions, for tools to look at.
//! [`crate::listing`] writes the same as text.

use vstd::prelude::*;
use vstd::string::*;
use vstd::utf8::*;

use crate::bytecode;
use crate::bytecode::{decode_instructions, BytecodeError, DecodedInstr, InstrModel, Operand};
use crate::effects::{list_of, word_of};
use crate::opcode;
use crate::opcode::{Opcode, Shape};
use crate::pack;
use crate::program;
use crate::program::{ConstEntry, ConstId, ElemTypeId, HostSigId, Program, ProgramView, TypeId};
use crate::typing;
use crate::value::FuncId;
use crate::verify::VerifiedProgram;
use crate::wire::DecodeError;

verus! {

// ---------------------------------------------------------------------------------------------
// Errors.
// ---------------------------------------------------------------------------------------------

/// Why a function could not be disassembled.
#[derive(Copy, Clone, Debug, PartialEq, Eq, Structural)]
pub enum DisasmError {
    /// The data failed to decode.
    Decode(DecodeError),
    /// No opcode has this byte.
    UnknownOpcode {
        /// The byte.
        opcode: u8,
    },
}

/// The failure of a disassembly, by that of the instruction stream.
pub open spec fn disasm_error(e: BytecodeError) -> DisasmError {
    match e {
        BytecodeError::Decode(e) => DisasmError::Decode(e),
        BytecodeError::UnknownOpcode { opcode } => DisasmError::UnknownOpcode { opcode },
    }
}

impl DisasmError {
    fn from_bytecode(e: BytecodeError) -> (r: Self)
        ensures
            r == disasm_error(e),
    {
        match e {
            BytecodeError::Decode(e) => DisasmError::Decode(e),
            BytecodeError::UnknownOpcode { opcode } => DisasmError::UnknownOpcode { opcode },
        }
    }
}

/// The instructions of a function of a program.
pub open spec fn function_code(p: ProgramView, func: u32) -> Result<Seq<InstrModel>, DisasmError> {
    if func >= p.functions.len() {
        Err(DisasmError::Decode(DecodeError::OutOfBounds))
    } else {
        match program::slice_of(p.bytecode_data, p.functions[func as int].bytecode) {
            None => Err(DisasmError::Decode(DecodeError::OutOfBounds)),
            Some(code) => match bytecode::instrs(code) {
                Ok(xs) => Ok(xs),
                Err(e) => Err(disasm_error(e)),
            },
        }
    }
}

// ---------------------------------------------------------------------------------------------
// Registers.
// ---------------------------------------------------------------------------------------------

/// The registers that an instruction reads, in order.
pub open spec fn reads_of(x: InstrModel) -> Seq<u32> {
    match opcode::opcode_shape(x.op) {
        Shape::Unary | Shape::ToDec | Shape::IndexGet | Shape::FieldGet => seq![typing::word(x, 1)],
        Shape::Binary => seq![typing::word(x, 1), typing::word(x, 2)],
        Shape::Select | Shape::Slice => seq![
            typing::word(x, 1),
            typing::word(x, 2),
            typing::word(x, 3),
        ],
        Shape::Br => seq![typing::word(x, 0)],
        Shape::Call | Shape::HostCall => seq![typing::word(x, 2)] + typing::list(x, 3),
        Shape::Ret => seq![typing::word(x, 0)] + typing::list(x, 1),
        Shape::TupleNew => typing::list(x, 1),
        Shape::StructNew | Shape::ArrayNew => typing::list(x, 2),
        _ => seq![],
    }
}

/// The registers that an instruction writes, in order.
pub open spec fn writes_of(x: InstrModel) -> Seq<u32> {
    match opcode::opcode_shape(x.op) {
        Shape::Nullary | Shape::Trap | Shape::Br | Shape::Jmp | Shape::Ret => seq![],
        Shape::Call | Shape::HostCall => seq![typing::word(x, 0)] + typing::list(x, 4),
        _ => seq![typing::word(x, 0)],
    }
}

/// Registers, one after the other: up to three, and then those of a slice.
#[derive(Copy, Clone, Debug)]
pub struct RegIter<'a> {
    prefix: [u32; 3],
    prefix_len: u8,
    prefix_idx: u8,
    tail: &'a [u32],
    tail_idx: usize,
}

impl<'a> View for RegIter<'a> {
    type V = Seq<u32>;

    /// The registers that are still to come.
    closed spec fn view(&self) -> Seq<u32> {
        self.prefix@.subrange(self.prefix_idx as int, self.prefix_len as int) + self.tail@.skip(
            self.tail_idx as int,
        )
    }
}

impl<'a> RegIter<'a> {
    /// The positions are inside of what they point into.
    pub closed spec fn wf(&self) -> bool {
        self.prefix_idx <= self.prefix_len <= 3 && self.tail_idx <= self.tail@.len()
    }

    /// Registers of a prefix and a slice.
    fn make(prefix: [u32; 3], prefix_len: u8, tail: &'a [u32]) -> (r: Self)
        requires
            prefix_len <= 3,
        ensures
            r.wf(),
            r@ == prefix@.take(prefix_len as int) + tail@,
    {
        let r = RegIter { prefix, prefix_len, prefix_idx: 0, tail, tail_idx: 0 };
        assert(r@ =~= prefix@.take(prefix_len as int) + tail@);
        r
    }

    /// No register.
    #[must_use]
    pub fn empty() -> (r: Self)
        ensures
            r.wf(),
            r@ == Seq::<u32>::empty(),
    {
        let r = RegIter::make([0, 0, 0], 0, &[]);
        assert(r@ =~= Seq::<u32>::empty());
        r
    }

    /// One register.
    #[must_use]
    pub fn one(a: u32) -> (r: Self)
        ensures
            r.wf(),
            r@ == seq![a],
    {
        let r = RegIter::make([a, 0, 0], 1, &[]);
        assert(r@ =~= seq![a]);
        r
    }

    /// Two registers.
    #[must_use]
    pub fn two(a: u32, b: u32) -> (r: Self)
        ensures
            r.wf(),
            r@ == seq![a, b],
    {
        let r = RegIter::make([a, b, 0], 2, &[]);
        assert(r@ =~= seq![a, b]);
        r
    }

    /// Three registers.
    #[must_use]
    pub fn three(a: u32, b: u32, c: u32) -> (r: Self)
        ensures
            r.wf(),
            r@ == seq![a, b, c],
    {
        let r = RegIter::make([a, b, c], 3, &[]);
        assert(r@ =~= seq![a, b, c]);
        r
    }

    /// The registers of a slice.
    #[must_use]
    pub fn slice(tail: &'a [u32]) -> (r: Self)
        ensures
            r.wf(),
            r@ == tail@,
    {
        let r = RegIter::make([0, 0, 0], 0, tail);
        assert(r@ =~= tail@);
        r
    }

    /// A register, and then those of a slice.
    #[must_use]
    pub fn one_plus_slice(first: u32, tail: &'a [u32]) -> (r: Self)
        ensures
            r.wf(),
            r@ == seq![first] + tail@,
    {
        let r = RegIter::make([first, 0, 0], 1, tail);
        assert(r@ =~= seq![first] + tail@);
        r
    }

    /// The next register, if there is one.
    pub fn next(&mut self) -> (r: Option<u32>)
        requires
            old(self).wf(),
        ensures
            final(self).wf(),
            match r {
                Some(v) => old(self)@.len() > 0 && v == old(self)@[0] && final(self)@
                    == old(self)@.drop_first(),
                None => old(self)@.len() == 0 && final(self)@ == old(self)@,
            },
    {
        if self.prefix_idx < self.prefix_len {
            let out: u32 = self.prefix[self.prefix_idx as usize];
            self.prefix_idx = self.prefix_idx + 1;
            assert(self@ =~= old(self)@.drop_first());
            return Some(out);
        }
        if self.tail_idx < self.tail.len() {
            let out: u32 = self.tail[self.tail_idx];
            self.tail_idx = self.tail_idx + 1;
            assert(self@ =~= old(self)@.drop_first());
            return Some(out);
        }
        None
    }
}

// ---------------------------------------------------------------------------------------------
// Operands.
// ---------------------------------------------------------------------------------------------

/// What a call calls.
#[derive(Copy, Clone, Debug, PartialEq, Eq)]
pub enum CallTarget<'a> {
    /// A function of the program.
    Func(FuncId),
    /// A host signature, with its symbol where it can be read.
    HostSig(HostSigId, Option<&'a str>),
}

/// The operands of a call.
#[derive(Copy, Clone, Debug, PartialEq, Eq)]
pub struct CallOperands<'a> {
    /// Register of the effect token afterwards.
    pub eff_out: u32,
    /// What is called.
    pub callee: CallTarget<'a>,
    /// Register of the effect token before.
    pub eff_in: u32,
    /// Argument registers.
    pub args: &'a [u32],
    /// Return registers.
    pub rets: &'a [u32],
}

/// The operands of an instruction.
#[derive(Clone, Debug, PartialEq, Eq)]
pub enum Operands<'a> {
    /// Most instructions: a register that is written, registers that are read, and an immediate.
    Simple,
    /// `br cond, pc_true, pc_false`.
    Br {
        /// Condition register.
        cond: u32,
        /// Where control goes if it holds.
        pc_true: u32,
        /// Where control goes if it does not hold.
        pc_false: u32,
    },
    /// `jmp pc_target`.
    Jmp {
        /// Where control goes.
        pc_target: u32,
    },
    /// `call` or `host_call`.
    Call(CallOperands<'a>),
    /// `ret eff_in, rets`.
    Ret {
        /// Register of the effect token.
        eff: u32,
        /// Return registers.
        rets: &'a [u32],
    },
}

/// What the operands of an instruction are.
#[verifier::ext_equal]
pub enum OperandsModel {
    Simple,
    Br { cond: u32, pc_true: u32, pc_false: u32 },
    Jmp { pc_target: u32 },
    Func { eff_out: u32, func: FuncId, eff_in: u32, args: Seq<u32>, rets: Seq<u32> },
    Host { eff_out: u32, sig: HostSigId, symbol: Option<Seq<char>>, eff_in: u32, args: Seq<u32>, rets: Seq<u32> },
    Ret { eff: u32, rets: Seq<u32> },
}

/// An optional text, by its characters.
pub open spec fn opt_text(s: Option<&str>) -> Option<Seq<char>> {
    match s {
        Some(s) => Some(s@),
        None => None,
    }
}

impl<'a> View for Operands<'a> {
    type V = OperandsModel;

    open spec fn view(&self) -> OperandsModel {
        match self {
            Operands::Simple => OperandsModel::Simple,
            Operands::Br { cond, pc_true, pc_false } => OperandsModel::Br {
                cond: *cond,
                pc_true: *pc_true,
                pc_false: *pc_false,
            },
            Operands::Jmp { pc_target } => OperandsModel::Jmp { pc_target: *pc_target },
            Operands::Call(c) => match c.callee {
                CallTarget::Func(func) => OperandsModel::Func {
                    eff_out: c.eff_out,
                    func,
                    eff_in: c.eff_in,
                    args: c.args@,
                    rets: c.rets@,
                },
                CallTarget::HostSig(sig, symbol) => OperandsModel::Host {
                    eff_out: c.eff_out,
                    sig,
                    symbol: opt_text(symbol),
                    eff_in: c.eff_in,
                    args: c.args@,
                    rets: c.rets@,
                },
            },
            Operands::Ret { eff, rets } => OperandsModel::Ret { eff: *eff, rets: rets@ },
        }
    }
}

/// Text, by its UTF-8 bytes.
pub open spec fn chars_of(b: Option<Seq<u8>>) -> Option<Seq<char>> {
    match b {
        Some(b) => Some(decode_utf8(b)),
        None => None,
    }
}

/// The symbol of a host signature, where it can be read.
pub open spec fn sig_symbol(p: ProgramView, sig: u32) -> Option<Seq<char>> {
    if sig >= p.host_sigs.len() {
        None
    } else {
        chars_of(p.symbol_opt(Some(p.host_sigs[sig as int].symbol)))
    }
}

/// What the operands of an instruction are.
pub open spec fn operands_of(p: ProgramView, x: InstrModel) -> OperandsModel {
    match x.op {
        Opcode::Call => OperandsModel::Func {
            eff_out: typing::word(x, 0),
            func: FuncId(typing::word(x, 1)),
            eff_in: typing::word(x, 2),
            args: typing::list(x, 3),
            rets: typing::list(x, 4),
        },
        Opcode::HostCall => OperandsModel::Host {
            eff_out: typing::word(x, 0),
            sig: HostSigId(typing::word(x, 1)),
            symbol: sig_symbol(p, typing::word(x, 1)),
            eff_in: typing::word(x, 2),
            args: typing::list(x, 3),
            rets: typing::list(x, 4),
        },
        Opcode::Ret => OperandsModel::Ret { eff: typing::word(x, 0), rets: typing::list(x, 1) },
        Opcode::Br => OperandsModel::Br {
            cond: typing::word(x, 0),
            pc_true: typing::word(x, 1),
            pc_false: typing::word(x, 2),
        },
        Opcode::Jmp => OperandsModel::Jmp { pc_target: typing::word(x, 0) },
        _ => OperandsModel::Simple,
    }
}

/// An immediate that is an index.
#[derive(Copy, Clone, Debug, PartialEq, Eq, Structural)]
pub enum InputIndex {
    /// Trap code.
    TrapCode(u32),
    /// Constant of the pool.
    Const(ConstId),
    /// Host signature.
    HostSig(HostSigId),
    /// Function.
    Func(FuncId),
    /// Struct type.
    Type(TypeId),
    /// Array element type.
    ElemType(ElemTypeId),
    /// Element, field or scale.
    Index(u32),
}

/// The immediate of an instruction that is an index.
pub open spec fn index_of(x: InstrModel) -> Option<InputIndex> {
    match opcode::opcode_shape(x.op) {
        Shape::Trap => Some(InputIndex::TrapCode(typing::word(x, 0))),
        Shape::ConstPool => Some(InputIndex::Const(ConstId(typing::word(x, 1)))),
        Shape::HostCall => Some(InputIndex::HostSig(HostSigId(typing::word(x, 1)))),
        Shape::Call => Some(InputIndex::Func(FuncId(typing::word(x, 1)))),
        Shape::StructNew => Some(InputIndex::Type(TypeId(typing::word(x, 1)))),
        Shape::ArrayNew => Some(InputIndex::ElemType(ElemTypeId(typing::word(x, 1)))),
        Shape::IndexGet | Shape::FieldGet => Some(InputIndex::Index(typing::word(x, 2))),
        Shape::ToDec => Some(InputIndex::Index(x.operands[2]->Byte_0 as u32)),
        _ => None,
    }
}

/// A constant.
#[derive(Copy, Clone, Debug, PartialEq, Eq)]
pub enum ConstValue<'a> {
    /// `()`.
    Unit,
    /// Boolean literal.
    Bool(bool),
    /// Signed integer literal.
    I64(i64),
    /// Unsigned integer literal.
    U64(u64),
    /// Float literal, by its IEEE 754 bits.
    F64Bits(u64),
    /// Decimal literal.
    Decimal {
        /// Integer mantissa.
        mantissa: i64,
        /// Number of fractional decimal digits.
        scale: u8,
    },
    /// Byte string.
    Bytes(&'a [u8]),
    /// UTF-8 string.
    Str(&'a str),
}

/// What a constant is.
#[verifier::ext_equal]
pub enum ConstValueModel {
    Unit,
    Bool(bool),
    I64(i64),
    U64(u64),
    F64Bits(u64),
    Decimal { mantissa: i64, scale: u8 },
    Bytes(Seq<u8>),
    Str(Seq<char>),
}

impl<'a> View for ConstValue<'a> {
    type V = ConstValueModel;

    open spec fn view(&self) -> ConstValueModel {
        match self {
            ConstValue::Unit => ConstValueModel::Unit,
            ConstValue::Bool(b) => ConstValueModel::Bool(*b),
            ConstValue::I64(i) => ConstValueModel::I64(*i),
            ConstValue::U64(u) => ConstValueModel::U64(*u),
            ConstValue::F64Bits(f) => ConstValueModel::F64Bits(*f),
            ConstValue::Decimal { mantissa, scale } => ConstValueModel::Decimal {
                mantissa: *mantissa,
                scale: *scale,
            },
            ConstValue::Bytes(b) => ConstValueModel::Bytes(b@),
            ConstValue::Str(s) => ConstValueModel::Str(s@),
        }
    }
}

/// A constant of the pool, where it can be read.
pub open spec fn pool_value(p: ProgramView, idx: u32) -> Option<ConstValueModel> {
    if idx >= p.const_pool.len() {
        None
    } else {
        match p.const_pool[idx as int] {
            ConstEntry::Unit => Some(ConstValueModel::Unit),
            ConstEntry::Bool(b) => Some(ConstValueModel::Bool(b)),
            ConstEntry::I64(i) => Some(ConstValueModel::I64(i)),
            ConstEntry::U64(u) => Some(ConstValueModel::U64(u)),
            ConstEntry::F64(f) => Some(ConstValueModel::F64Bits(f)),
            ConstEntry::Decimal { mantissa, scale } => Some(
                ConstValueModel::Decimal { mantissa, scale },
            ),
            ConstEntry::Bytes(r) => match program::slice_of(p.const_bytes_data, r) {
                Some(b) => Some(ConstValueModel::Bytes(b)),
                None => None,
            },
            ConstEntry::Str(r) => match program::text_of(p.const_str_data, r) {
                Ok(t) => Some(ConstValueModel::Str(decode_utf8(t))),
                Err(_) => None,
            },
        }
    }
}

/// The constant that an instruction gives.
pub open spec fn const_of(p: ProgramView, x: InstrModel) -> Option<ConstValueModel> {
    match opcode::opcode_shape(x.op) {
        Shape::ConstUnit => Some(ConstValueModel::Unit),
        Shape::ConstBool => Some(ConstValueModel::Bool(x.operands[1]->Bool_0)),
        Shape::ConstI64 => Some(ConstValueModel::I64(x.operands[1]->I64_0)),
        Shape::ConstU64 => Some(ConstValueModel::U64(x.operands[1]->U64_0)),
        Shape::ConstF64 => Some(ConstValueModel::F64Bits(x.operands[1]->Bits_0)),
        Shape::ConstDecimal => Some(
            ConstValueModel::Decimal {
                mantissa: x.operands[1]->I64_0,
                scale: x.operands[2]->Byte_0,
            },
        ),
        Shape::ConstPool => pool_value(p, typing::word(x, 1)),
        _ => None,
    }
}

/// An optional constant, by what it is.
pub open spec fn opt_const(v: Option<ConstValue<'_>>) -> Option<ConstValueModel> {
    match v {
        Some(v) => Some(v@),
        None => None,
    }
}

/// The symbol of a host signature.
fn host_sig_symbol(program: &Program, id: HostSigId) -> (s: Option<&str>)
    ensures
        opt_text(s) == sig_symbol(program@, id.0),
{
    let i: usize = id.0 as usize;
    if i >= program.host_sigs.len() {
        return None;
    }
    match program.symbol_str(program.host_sigs[i].symbol) {
        Ok(s) => {
            proof {
                encode_utf8_decode_utf8(s@);
            }
            Some(s)
        },
        Err(_) => None,
    }
}

/// A constant of the pool.
fn const_pool_value(program: &Program, id: ConstId) -> (v: Option<ConstValue<'_>>)
    ensures
        opt_const(v) == pool_value(program@, id.0),
{
    let i: usize = id.0 as usize;
    if i >= program.const_pool.len() {
        return None;
    }
    match program.const_pool[i] {
        ConstEntry::Unit => Some(ConstValue::Unit),
        ConstEntry::Bool(b) => Some(ConstValue::Bool(b)),
        ConstEntry::I64(v) => Some(ConstValue::I64(v)),
        ConstEntry::U64(v) => Some(ConstValue::U64(v)),
        ConstEntry::F64(v) => Some(ConstValue::F64Bits(v)),
        ConstEntry::Decimal { mantissa, scale } => Some(ConstValue::Decimal { mantissa, scale }),
        ConstEntry::Bytes(_) => match program.const_bytes(id) {
            Ok(b) => Some(ConstValue::Bytes(b)),
            Err(_) => None,
        },
        ConstEntry::Str(_) => match program.const_str(id) {
            Ok(s) => {
                proof {
                    encode_utf8_decode_utf8(s@);
                }
                Some(ConstValue::Str(s))
            },
            Err(_) => None,
        },
    }
}

// ---------------------------------------------------------------------------------------------
// Instructions.
// ---------------------------------------------------------------------------------------------

/// An instruction of a function of a program.
#[derive(Copy, Clone, Debug)]
pub struct InstrView<'a> {
    program: &'a Program,
    func: FuncId,
    decoded: &'a DecodedInstr,
}

impl<'a> InstrView<'a> {
    /// The operands are as the opcode asks for, and the opcode byte is that of the opcode.
    pub closed spec fn wf(&self) -> bool {
        &&& self.decoded.instr.wf()
        &&& self.decoded.opcode == opcode::opcode_byte(self.decoded.instr.op)
    }

    /// The program.
    pub closed spec fn prog(&self) -> ProgramView {
        self.program@
    }

    /// The instruction.
    pub closed spec fn model(&self) -> InstrModel {
        self.decoded@
    }

    /// The function.
    pub closed spec fn id(&self) -> FuncId {
        self.func
    }

    /// The program of this instruction.
    pub fn program(&self) -> (p: &'a Program)
        ensures
            p@ == self.prog(),
    {
        self.program
    }

    /// The function of this instruction.
    #[must_use]
    pub fn func(&self) -> (f: FuncId)
        ensures
            f == self.id(),
    {
        self.func
    }

    /// Position of this instruction in its function.
    #[must_use]
    pub fn pc(&self) -> (pc: u32)
        ensures
            pc == self.model().offset,
    {
        self.decoded.offset
    }

    /// The opcode.
    #[must_use]
    pub fn opcode(&self) -> (op: Opcode)
        requires
            self.wf(),
        ensures
            op == self.model().op,
    {
        proof {
            opcode::law_opcode_bytes(self.decoded.instr.op, self.decoded.opcode);
        }
        match Opcode::from_u8(self.decoded.opcode) {
            Some(op) => op,
            None => self.decoded.instr.op,
        }
    }

    /// Whether control does not go on to the next instruction.
    #[must_use]
    pub fn is_terminator(&self) -> (b: bool)
        requires
            self.wf(),
        ensures
            b == opcode::ends_block(self.model().op),
    {
        self.opcode().is_terminator()
    }

    /// The first register that this instruction writes.
    #[must_use]
    pub fn dst(&self) -> (r: Option<u32>)
        requires
            self.wf(),
        ensures
            r == (if writes_of(self.model()).len() > 0 {
                Some(writes_of(self.model())[0])
            } else {
                None
            }),
    {
        let mut it = self.writes();
        it.next()
    }

    /// The immediate that is an index.
    #[must_use]
    pub fn input_index(&self) -> (r: Option<InputIndex>)
        requires
            self.wf(),
        ensures
            r == index_of(self.model()),
    {
        let x: &DecodedInstr = self.decoded;
        match self.opcode().shape() {
            Shape::Trap => Some(InputIndex::TrapCode(word_of(x, 0))),
            Shape::ConstPool => Some(InputIndex::Const(ConstId(word_of(x, 1)))),
            Shape::HostCall => Some(InputIndex::HostSig(HostSigId(word_of(x, 1)))),
            Shape::Call => Some(InputIndex::Func(FuncId(word_of(x, 1)))),
            Shape::StructNew => Some(InputIndex::Type(TypeId(word_of(x, 1)))),
            Shape::ArrayNew => Some(InputIndex::ElemType(ElemTypeId(word_of(x, 1)))),
            Shape::IndexGet | Shape::FieldGet => Some(InputIndex::Index(word_of(x, 2))),
            Shape::ToDec => match &x.instr.operands[2] {
                Operand::Byte(scale) => {
                    assert(x@.operands[2] == x.instr.operands@[2]@);
                    Some(InputIndex::Index(*scale as u32))
                },
                _ => {
                    assert(x@.operands[2] == x.instr.operands@[2]@);
                    None
                },
            },
            _ => None,
        }
    }

    /// The symbol of a host call, where it can be read.
    #[must_use]
    pub fn host_op_symbol(&self) -> (s: Option<&'a str>)
        requires
            self.wf(),
        ensures
            opt_text(s) == (if self.model().op is HostCall {
                sig_symbol(self.prog(), typing::word(self.model(), 1))
            } else {
                None
            }),
    {
        match self.decoded.instr.op {
            Opcode::HostCall => host_sig_symbol(self.program, HostSigId(word_of(self.decoded, 1))),
            _ => None,
        }
    }

    /// The constant that this instruction gives.
    #[must_use]
    pub fn const_value(&self) -> (v: Option<ConstValue<'a>>)
        requires
            self.wf(),
        ensures
            opt_const(v) == const_of(self.prog(), self.model()),
    {
        let x: &'a DecodedInstr = self.decoded;
        match self.opcode().shape() {
            Shape::ConstUnit => Some(ConstValue::Unit),
            Shape::ConstBool | Shape::ConstI64 | Shape::ConstU64 | Shape::ConstF64 => {
                assert(x@.operands[1] == x.instr.operands@[1]@);
                match &x.instr.operands[1] {
                    Operand::Bool(v) => Some(ConstValue::Bool(*v)),
                    Operand::I64(v) => Some(ConstValue::I64(*v)),
                    Operand::U64(v) => Some(ConstValue::U64(*v)),
                    Operand::Bits(v) => Some(ConstValue::F64Bits(*v)),
                    _ => None,
                }
            },
            Shape::ConstDecimal => {
                assert(x@.operands[1] == x.instr.operands@[1]@);
                assert(x@.operands[2] == x.instr.operands@[2]@);
                match (&x.instr.operands[1], &x.instr.operands[2]) {
                    (Operand::I64(mantissa), Operand::Byte(scale)) => Some(
                        ConstValue::Decimal { mantissa: *mantissa, scale: *scale },
                    ),
                    _ => None,
                }
            },
            Shape::ConstPool => const_pool_value(self.program, ConstId(word_of(x, 1))),
            _ => None,
        }
    }

    /// The operands of instructions that have more than registers and an immediate.
    #[must_use]
    pub fn operands(&self) -> (o: Operands<'a>)
        requires
            self.wf(),
        ensures
            o@ == operands_of(self.prog(), self.model()),
    {
        let x: &'a DecodedInstr = self.decoded;
        match self.opcode() {
            Opcode::Call => Operands::Call(
                CallOperands {
                    eff_out: word_of(x, 0),
                    callee: CallTarget::Func(FuncId(word_of(x, 1))),
                    eff_in: word_of(x, 2),
                    args: list_of(x, 3).as_slice(),
                    rets: list_of(x, 4).as_slice(),
                },
            ),
            Opcode::HostCall => Operands::Call(
                CallOperands {
                    eff_out: word_of(x, 0),
                    callee: CallTarget::HostSig(HostSigId(word_of(x, 1)), self.host_op_symbol()),
                    eff_in: word_of(x, 2),
                    args: list_of(x, 3).as_slice(),
                    rets: list_of(x, 4).as_slice(),
                },
            ),
            Opcode::Ret => Operands::Ret { eff: word_of(x, 0), rets: list_of(x, 1).as_slice() },
            Opcode::Br => Operands::Br {
                cond: word_of(x, 0),
                pc_true: word_of(x, 1),
                pc_false: word_of(x, 2),
            },
            Opcode::Jmp => Operands::Jmp { pc_target: word_of(x, 0) },
            _ => Operands::Simple,
        }
    }

    /// The registers that this instruction reads.
    #[must_use]
    pub fn reads(&self) -> (r: RegIter<'a>)
        requires
            self.wf(),
        ensures
            r.wf(),
            r@ == reads_of(self.model()),
    {
        let x: &'a DecodedInstr = self.decoded;
        match self.opcode().shape() {
            Shape::Unary | Shape::ToDec | Shape::IndexGet | Shape::FieldGet => RegIter::one(
                word_of(x, 1),
            ),
            Shape::Binary => RegIter::two(word_of(x, 1), word_of(x, 2)),
            Shape::Select | Shape::Slice => RegIter::three(
                word_of(x, 1),
                word_of(x, 2),
                word_of(x, 3),
            ),
            Shape::Br => RegIter::one(word_of(x, 0)),
            Shape::Call | Shape::HostCall => RegIter::one_plus_slice(
                word_of(x, 2),
                list_of(x, 3).as_slice(),
            ),
            Shape::Ret => RegIter::one_plus_slice(word_of(x, 0), list_of(x, 1).as_slice()),
            Shape::TupleNew => RegIter::slice(list_of(x, 1).as_slice()),
            Shape::StructNew | Shape::ArrayNew => RegIter::slice(list_of(x, 2).as_slice()),
            _ => RegIter::empty(),
        }
    }

    /// The registers that this instruction writes.
    #[must_use]
    pub fn writes(&self) -> (r: RegIter<'a>)
        requires
            self.wf(),
        ensures
            r.wf(),
            r@ == writes_of(self.model()),
    {
        let x: &'a DecodedInstr = self.decoded;
        match self.opcode().shape() {
            Shape::Nullary | Shape::Trap | Shape::Br | Shape::Jmp | Shape::Ret => RegIter::empty(),
            Shape::Call | Shape::HostCall => RegIter::one_plus_slice(
                word_of(x, 0),
                list_of(x, 4).as_slice(),
            ),
            _ => RegIter::one(word_of(x, 0)),
        }
    }
}

// ---------------------------------------------------------------------------------------------
// Functions.
// ---------------------------------------------------------------------------------------------

/// A position at which control arrives from elsewhere.
pub open spec fn is_target(xs: Seq<InstrModel>, pc: u32) -> bool {
    exists|k: int| 0 <= k < xs.len() && targets(#[trigger] xs[k], pc)
}

/// Whether an instruction may go to a position.
pub open spec fn targets(x: InstrModel, pc: u32) -> bool {
    ||| x.op is Br && (typing::word(x, 1) == pc || typing::word(x, 2) == pc)
    ||| x.op is Jmp && typing::word(x, 0) == pc
}

/// Each is greater than those before it.
pub open spec fn increasing(v: Seq<u32>) -> bool {
    forall|i: int, j: int| 0 <= i < j < v.len() ==> (#[trigger] v[i]) < (#[trigger] v[j])
}

/// The labels of a function: its start and every position at which control arrives from elsewhere,
/// in order and each once.
pub open spec fn is_labels(v: Seq<u32>, xs: Seq<InstrModel>) -> bool {
    &&& increasing(v)
    &&& forall|pc: u32| v.contains(pc) <==> pc == 0 || is_target(xs, pc)
}

/// The labels of a function.
#[derive(Clone, Debug, PartialEq, Eq)]
pub struct Labels {
    pcs: Vec<u32>,
}

impl View for Labels {
    type V = Seq<u32>;

    closed spec fn view(&self) -> Seq<u32> {
        self.pcs@
    }
}

impl Labels {
    /// The positions, in order.
    #[must_use]
    pub fn pcs(&self) -> (v: &[u32])
        ensures
            v@ == self@,
    {
        self.pcs.as_slice()
    }

    /// The number of the label at a position, if there is one.
    #[must_use]
    pub fn label_index(&self, pc: u32) -> (r: Option<usize>)
        requires
            increasing(self@),
        ensures
            match r {
                Some(i) => i < self@.len() && self@[i as int] == pc,
                None => !self@.contains(pc),
            },
            match r {
                Some(i) => pack::position(self@, pc) == i,
                None => pack::position(self@, pc) == self@.len(),
            },
    {
        let mut lo: usize = 0;
        let mut hi: usize = self.pcs.len();
        while lo < hi
            invariant
                lo <= hi <= self.pcs@.len(),
                increasing(self.pcs@),
                forall|k: int| 0 <= k < lo ==> self.pcs@[k] < pc,
                forall|k: int| hi <= k < self.pcs@.len() ==> self.pcs@[k] > pc,
            decreases hi - lo,
        {
            let mid: usize = lo + (hi - lo) / 2;
            let v: u32 = self.pcs[mid];
            if v == pc {
                proof {
                    assert forall|k: int| 0 <= k < mid implies self.pcs@[k] != pc by {}
                    pack::lemma_position(self@, pc, mid as nat);
                }
                return Some(mid);
            } else if v < pc {
                lo = mid + 1;
            } else {
                hi = mid;
            }
        }
        proof {
            assert forall|k: int| 0 <= k < self.pcs@.len() implies self.pcs@[k] != pc by {}
            pack::lemma_position(self@, pc, self.pcs@.len());
        }
        None
    }

    /// Adds a position.
    fn insert(&mut self, pc: u32)
        requires
            increasing(old(self)@),
        ensures
            increasing(final(self)@),
            forall|q: u32| final(self)@.contains(q) <==> old(self)@.contains(q) || q == pc,
    {
        let ghost v0 = self.pcs@;
        let mut i: usize = 0;
        while i < self.pcs.len() && self.pcs[i] < pc
            invariant
                i <= self.pcs@.len(),
                self.pcs@ == v0,
                increasing(v0),
                forall|k: int| 0 <= k < i ==> v0[k] < pc,
            decreases self.pcs.len() - i,
        {
            i = i + 1;
        }
        if i < self.pcs.len() && self.pcs[i] == pc {
            assert(v0[i as int] == pc);
            return;
        }
        self.pcs.insert(i, pc);
        let ghost v1 = self.pcs@;
        assert forall|a: int, b: int| 0 <= a < b < v1.len() implies (#[trigger] v1[a]) < (#[trigger] v1[b]) by {
            let pa = if a < i { v0[a] } else if a == i { pc } else { v0[a - 1] };
            let pb = if b < i { v0[b] } else if b == i { pc } else { v0[b - 1] };
            assert(v1[a] == pa && v1[b] == pb);
            if i < v0.len() {
                assert(v0[i as int] > pc);
            }
        }
        assert forall|q: u32| v1.contains(q) <==> v0.contains(q) || q == pc by {
            if v0.contains(q) {
                let k = choose|k: int| 0 <= k < v0.len() && v0[k] == q;
                if k < i {
                    assert(v1[k] == q);
                } else {
                    assert(v1[k + 1] == q);
                }
            }
            if q == pc {
                assert(v1[i as int] == pc);
            }
            if v1.contains(q) && q != pc {
                let k = choose|k: int| 0 <= k < v1.len() && v1[k] == q;
                if k < i {
                    assert(v0[k] == q);
                } else {
                    assert(v0[k - 1] == q);
                }
            }
        }
    }
}

/// A function, taken apart.
#[derive(Clone, Debug, PartialEq, Eq)]
pub struct FunctionDisassembly<'a> {
    program: &'a Program,
    func: FuncId,
    decoded: Vec<DecodedInstr>,
    failure: Option<DisasmError>,
}

impl<'a> FunctionDisassembly<'a> {
    /// The instructions are those of the function, or the failure is that of the function.
    pub closed spec fn wf(&self) -> bool {
        &&& match self.failure {
            None => function_code(self.program@, self.func.0) == Ok::<Seq<InstrModel>, DisasmError>(
                bytecode::instr_models(self.decoded@),
            ),
            Some(e) => {
                &&& self.decoded@.len() == 0
                &&& function_code(self.program@, self.func.0) == Err::<Seq<InstrModel>, DisasmError>(e)
            },
        }
        &&& forall|k: int|
            0 <= k < self.decoded@.len() ==> (#[trigger] self.decoded@[k]).instr.wf()
                && self.decoded@[k].opcode == opcode::opcode_byte(self.decoded@[k].instr.op)
    }

    /// The program.
    pub closed spec fn prog(&self) -> ProgramView {
        self.program@
    }

    /// The function.
    pub closed spec fn id(&self) -> FuncId {
        self.func
    }

    /// The instructions, or the failure.
    pub open spec fn code(&self) -> Result<Seq<InstrModel>, DisasmError> {
        function_code(self.prog(), self.id().0)
    }

    /// The failure of a function that cannot be taken apart.
    fn from_error(program: &'a Program, func: FuncId, err: DisasmError) -> (f: Self)
        requires
            function_code(program@, func.0) == Err::<Seq<InstrModel>, DisasmError>(err),
        ensures
            f.wf(),
            f.prog() == program@,
            f.id() == func,
    {
        FunctionDisassembly { program, func, decoded: Vec::new(), failure: Some(err) }
    }

    /// The program.
    #[must_use]
    pub fn program(&self) -> (p: &Program)
        ensures
            p@ == self.prog(),
    {
        self.program
    }

    /// The function.
    #[must_use]
    pub fn func(&self) -> (f: FuncId)
        ensures
            f == self.id(),
    {
        self.func
    }

    /// Why the function could not be disassembled.
    #[must_use]
    pub fn error(&self) -> (e: Option<&DisasmError>)
        requires
            self.wf(),
        ensures
            match self.code() {
                Ok(_) => e is None,
                Err(err) => e is Some && *e->0 == err,
            },
    {
        match &self.failure {
            None => None,
            Some(e) => Some(e),
        }
    }

    /// The instructions, in order; none where the function could not be disassembled.
    pub fn instrs<'b>(&'b self) -> (v: Vec<InstrView<'b>>)
        requires
            self.wf(),
        ensures
            forall|k: int|
                0 <= k < v@.len() ==> {
                    &&& (#[trigger] v@[k]).wf()
                    &&& v@[k].prog() == self.prog()
                    &&& v@[k].id() == self.id()
                },
            match self.code() {
                Ok(xs) => v@.map_values(|i: InstrView<'b>| i.model()) == xs,
                Err(_) => v@.len() == 0,
            },
    {
        let mut v: Vec<InstrView<'b>> = Vec::new();
        let mut i: usize = 0;
        while i < self.decoded.len()
            invariant
                i <= self.decoded@.len(),
                self.wf(),
                v@.len() == i,
                forall|k: int|
                    0 <= k < i ==> {
                        &&& (#[trigger] v@[k]).wf()
                        &&& v@[k].prog() == self.prog()
                        &&& v@[k].id() == self.id()
                        &&& v@[k].model() == self.decoded@[k]@
                    },
            decreases self.decoded.len() - i,
        {
            v.push(instr_view(self.program, self.func, &self.decoded[i]));
            i = i + 1;
        }
        assert(v@.map_values(|i: InstrView<'b>| i.model()) =~= bytecode::instr_models(self.decoded@));
        v
    }

    /// The labels of the function: its start and the positions at which control arrives from
    /// elsewhere. There are none where the function could not be disassembled.
    #[must_use]
    pub fn labels(&self) -> (l: Labels)
        requires
            self.wf(),
        ensures
            increasing(l@),
            match self.code() {
                Ok(xs) => is_labels(l@, xs),
                Err(_) => l@.len() == 0,
            },
    {
        if self.failure.is_some() {
            return Labels { pcs: Vec::new() };
        }
        let ghost xs = bytecode::instr_models(self.decoded@);
        let mut l = Labels { pcs: Vec::new() };
        l.insert(0);
        let instrs = self.instrs();
        let mut i: usize = 0;
        while i < instrs.len()
            invariant
                i <= instrs@.len(),
                instrs@.len() == xs.len(),
                forall|k: int| 0 <= k < xs.len() ==> (#[trigger] instrs@[k]).wf(),
                instrs@.map_values(|i: InstrView<'_>| i.model()) == xs,
                increasing(l@),
                forall|pc: u32| #[trigger]
                    l@.contains(pc) <==> pc == 0 || is_target(xs.take(i as int), pc),
            decreases instrs.len() - i,
        {
            let ghost before = l@;
            let ghost x = xs[i as int];
            assert(instrs@.map_values(|i: InstrView<'_>| i.model())[i as int] == instrs@[i as int].model());
            match instrs[i].operands() {
                Operands::Br { cond, pc_true, pc_false } => {
                    l.insert(pc_true);
                    l.insert(pc_false);
                },
                Operands::Jmp { pc_target } => {
                    l.insert(pc_target);
                },
                _ => {},
            }
            assert forall|pc: u32| #[trigger]
                l@.contains(pc) <==> pc == 0 || is_target(xs.take(i + 1), pc) by {
                lemma_targets_step(xs, i as int, pc);
                assert(before.contains(pc) <==> pc == 0 || is_target(xs.take(i as int), pc));
            }
            i = i + 1;
        }
        assert(xs.take(i as int) =~= xs);
        l
    }
}

/// The targets of one more instruction.
proof fn lemma_targets_step(xs: Seq<InstrModel>, i: int, pc: u32)
    requires
        0 <= i < xs.len(),
    ensures
        is_target(xs.take(i + 1), pc) <==> is_target(xs.take(i), pc) || targets(xs[i], pc),
{
    let a = xs.take(i);
    let b = xs.take(i + 1);
    if is_target(a, pc) {
        let k = choose|k: int| 0 <= k < a.len() && targets(#[trigger] a[k], pc);
        assert(targets(b[k], pc));
    }
    if targets(xs[i], pc) {
        assert(targets(b[i], pc));
    }
    if is_target(b, pc) {
        let k = choose|k: int| 0 <= k < b.len() && targets(#[trigger] b[k], pc);
        if k < i {
            assert(targets(a[k], pc));
        }
    }
}

/// An instruction of a function of a program.
fn instr_view<'a>(program: &'a Program, func: FuncId, di: &'a DecodedInstr) -> (v: InstrView<'a>)
    requires
        di.instr.wf(),
        di.opcode == opcode::opcode_byte(di.instr.op),
    ensures
        v.wf(),
        v.prog() == program@,
        v.id() == func,
        v.model() == di@,
{
    InstrView { program, func, decoded: di }
}

/// There is only one sequence of labels of a function.
pub proof fn law_labels_unique(a: Seq<u32>, b: Seq<u32>, xs: Seq<InstrModel>)
    requires
        is_labels(a, xs),
        is_labels(b, xs),
    ensures
        a == b,
{
    lemma_increasing_unique(a, b);
}

proof fn lemma_increasing_unique(a: Seq<u32>, b: Seq<u32>)
    requires
        increasing(a),
        increasing(b),
        forall|pc: u32| a.contains(pc) <==> b.contains(pc),
    ensures
        a == b,
    decreases a.len(),
{
    if a.len() == 0 {
        if b.len() > 0 {
            assert(b.contains(b[0]));
            assert(a.contains(b[0]));
        }
        assert(a =~= b);
    } else {
        let x = a.last();
        assert(a.contains(a[a.len() - 1]));
        assert(b.contains(x));
        let k = choose|k: int| 0 <= k < b.len() && b[k] == x;
        let y = b.last();
        assert(b.contains(b[b.len() - 1]));
        assert(a.contains(y));
        let m = choose|m: int| 0 <= m < a.len() && a[m] == y;
        assert(x == y);
        let fa = a.drop_last();
        let fb = b.drop_last();
        assert forall|pc: u32| fa.contains(pc) <==> fb.contains(pc) by {
            if fa.contains(pc) {
                let i = choose|i: int| 0 <= i < fa.len() && fa[i] == pc;
                assert(a[i] == pc && a[i] < x);
                assert(a.contains(pc));
                let j = choose|j: int| 0 <= j < b.len() && b[j] == pc;
                assert(fb[j] == pc);
            }
            if fb.contains(pc) {
                let i = choose|i: int| 0 <= i < fb.len() && fb[i] == pc;
                assert(b[i] == pc && b[i] < y);
                assert(b.contains(pc));
                let j = choose|j: int| 0 <= j < a.len() && a[j] == pc;
                assert(fa[j] == pc);
            }
        }
        lemma_increasing_unique(fa, fb);
        assert(a =~= fa.push(x));
        assert(b =~= fb.push(y));
    }
}

/// A program, taken apart.
#[derive(Clone, Debug, PartialEq, Eq)]
pub struct Disassembly<'a> {
    /// The program.
    pub program: &'a Program,
    /// Its functions, in order.
    pub functions: Vec<FunctionDisassembly<'a>>,
}

impl<'a> Disassembly<'a> {
    /// The functions are those of the program.
    pub open spec fn wf(&self) -> bool {
        &&& self.functions@.len() == self.program@.functions.len()
        &&& forall|k: int|
            0 <= k < self.functions@.len() ==> {
                &&& (#[trigger] self.functions@[k]).wf()
                &&& self.functions@[k].prog() == self.program@
                &&& self.functions@[k].id() == FuncId(program::clamp32(k as nat))
            }
    }
}

/// Takes a program apart. A function that cannot be disassembled keeps its failure.
#[must_use]
pub fn disassemble(program: &Program) -> (d: Disassembly<'_>)
    ensures
        d.wf(),
        d.program@ == program@,
{
    let mut functions: Vec<FunctionDisassembly<'_>> = Vec::new();
    let mut ix: usize = 0;
    while ix < program.functions.len()
        invariant
            ix <= program.functions@.len(),
            functions@.len() == ix,
            forall|k: int|
                0 <= k < ix ==> {
                    &&& (#[trigger] functions@[k]).wf()
                    &&& functions@[k].prog() == program@
                    &&& functions@[k].id() == FuncId(program::clamp32(k as nat))
                },
        decreases program.functions.len() - ix,
    {
        let func = FuncId(program::clamp_u32(ix));
        let fd = match disassemble_function(program, func) {
            Ok(fd) => fd,
            Err(e) => FunctionDisassembly::from_error(program, func, e),
        };
        functions.push(fd);
        ix = ix + 1;
    }
    Disassembly { program, functions }
}

/// Takes a verified program apart.
#[must_use]
pub fn disassemble_verified(program: &VerifiedProgram) -> (d: Disassembly<'_>)
    ensures
        d.wf(),
        d.program@ == program@.program,
{
    disassemble(program.program())
}

/// Takes a function of a program apart.
pub fn disassemble_function(program: &Program, func: FuncId) -> (res: Result<
    FunctionDisassembly<'_>,
    DisasmError,
>)
    ensures
        match function_code(program@, func.0) {
            Ok(_) => res is Ok && res->Ok_0.wf() && res->Ok_0.prog() == program@ && res->Ok_0.id()
                == func,
            Err(e) => res is Err && res->Err_0 == e,
        },
{
    let i: usize = func.0 as usize;
    if i >= program.functions.len() {
        return Err(DisasmError::Decode(DecodeError::OutOfBounds));
    }
    let code: &[u8] = match program.functions[i].bytecode(program) {
        Ok(code) => code,
        Err(e) => {
            return Err(DisasmError::Decode(e));
        },
    };
    match decode_instructions(code) {
        Ok(decoded) => Ok(FunctionDisassembly { program, func, decoded, failure: None }),
        Err(e) => Err(DisasmError::from_bytecode(e)),
    }
}

} // verus!
