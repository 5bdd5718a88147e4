//! Instructions and their byte encoding.
//!
//! An instruction is one opcode byte and then its operands in the order that
//! [`crate::opcode::Shape`] gives. Registers and indices are unsigned LEB128 integers. Code
//! positions are unsigned LEB128 integers of exactly five bytes, so that their place in the
//! stream is known before their value is.

use vstd::prelude::*;

use crate::decode;
use crate::opcode;
use crate::opcode::{Opcode, OperandRole};
use crate::program;
use crate::wire;
use crate::wire::{read_usize, write_uleb128_u64, DecodeError, Item, Parsed, Reader};

verus! {

/// An operand of an instruction.
#[derive(Clone, Debug, PartialEq, Eq)]
pub enum Operand {
    /// A register, an index or a code position.
    Word(u32),
    /// A list of registers.
    List(Vec<u32>),
    /// A boolean immediate.
    Bool(bool),
    /// A signed integer immediate.
    I64(i64),
    /// An unsigned integer immediate.
    U64(u64),
    /// A float immediate, by its IEEE 754 bits.
    Bits(u64),
    /// A one-byte immediate.
    Byte(u8),
}

/// What an [`Operand`] holds.
#[verifier::ext_equal]
pub enum OperandModel {
    Word(u32),
    List(Seq<u32>),
    Bool(bool),
    I64(i64),
    U64(u64),
    Bits(u64),
    Byte(u8),
}

impl View for Operand {
    type V = OperandModel;

    open spec fn view(&self) -> OperandModel {
        match self {
            Operand::Word(v) => OperandModel::Word(*v),
            Operand::List(v) => OperandModel::List(v@),
            Operand::Bool(v) => OperandModel::Bool(*v),
            Operand::I64(v) => OperandModel::I64(*v),
            Operand::U64(v) => OperandModel::U64(*v),
            Operand::Bits(v) => OperandModel::Bits(*v),
            Operand::Byte(v) => OperandModel::Byte(*v),
        }
    }
}

/// What the operands of an instruction hold.
pub open spec fn operand_models(v: Seq<Operand>) -> Seq<OperandModel> {
    v.map_values(|o: Operand| o@)
}

/// Whether an operand has the form that its role asks for.
pub open spec fn fits_role(role: OperandRole, m: OperandModel) -> bool {
    match role {
        OperandRole::SrcList | OperandRole::DstList => m is List,
        OperandRole::ImmBool => m is Bool,
        OperandRole::ImmI64 => m is I64,
        OperandRole::ImmU64 => m is U64,
        OperandRole::ImmF64 => m is Bits,
        OperandRole::Scale => m is Byte,
        _ => m is Word,
    }
}

/// Whether operands are as their roles ask for.
pub open spec fn fit_roles(roles: Seq<OperandRole>, ms: Seq<OperandModel>) -> bool {
    &&& ms.len() == roles.len()
    &&& forall|k: int| 0 <= k < roles.len() ==> fits_role(roles[k], #[trigger] ms[k])
}

// ---------------------------------------------------------------------------------------------
// Encoding.
// ---------------------------------------------------------------------------------------------

/// A code position as five bytes.
pub open spec fn wide(v: u32) -> Seq<u8> {
    seq![
        (v % 128 + 128) as u8,
        (v / 128 % 128 + 128) as u8,
        (v / 16384 % 128 + 128) as u8,
        (v / 2097152 % 128 + 128) as u8,
        (v / 268435456) as u8,
    ]
}

/// The registers of a list, one by one.
pub open spec fn reg_enc(regs: Seq<u32>) -> spec_fn(int) -> Seq<u8> {
    |i: int| wire::uleb(regs[i] as nat)
}

/// A list of registers with its length before it.
pub open spec fn list_bytes(regs: Seq<u32>) -> Seq<u8> {
    wire::uleb(program::clamp32(regs.len()) as nat) + wire::cat(regs.len(), reg_enc(regs))
}

/// The bytes of an operand.
pub open spec fn operand_bytes(role: OperandRole, m: OperandModel) -> Seq<u8> {
    match m {
        OperandModel::Word(v) => if role is Pc {
            wide(v)
        } else {
            wire::uleb(v as nat)
        },
        OperandModel::List(v) => list_bytes(v),
        OperandModel::Bool(v) => seq![if v { 1u8 } else { 0u8 }],
        OperandModel::I64(v) => wire::sleb(v as int),
        OperandModel::U64(v) => wire::uleb(v as nat),
        OperandModel::Bits(v) => wire::le(v as nat, 8),
        OperandModel::Byte(v) => seq![v],
    }
}

/// The bytes of the operands of an instruction.
pub open spec fn operands_bytes(roles: Seq<OperandRole>, ms: Seq<OperandModel>) -> Seq<u8>
    decreases ms.len(),
{
    if ms.len() == 0 {
        seq![]
    } else {
        operands_bytes(roles, ms.drop_last()) + operand_bytes(roles[ms.len() - 1], ms.last())
    }
}

/// The bytes of an instruction.
pub open spec fn instr_bytes(op: Opcode, ms: Seq<OperandModel>) -> Seq<u8> {
    seq![opcode::opcode_byte(op)] + operands_bytes(opcode::opcode_roles(op), ms)
}

/// Appends the five bytes of a code position.
pub fn write_wide(out: &mut Vec<u8>, v: u32)
    ensures
        final(out)@ == old(out)@ + wide(v),
{
    out.push((v % 128 + 128) as u8);
    out.push((v / 128 % 128 + 128) as u8);
    out.push((v / 16384 % 128 + 128) as u8);
    out.push((v / 2097152 % 128 + 128) as u8);
    out.push((v / 268435456) as u8);
    assert(out@ =~= old(out)@ + wide(v));
}

/// Appends a list of registers with its length before it.
pub fn write_list(out: &mut Vec<u8>, regs: &[u32])
    ensures
        final(out)@ == old(out)@ + list_bytes(regs@),
{
    let n: u32 = program::clamp_u32(regs.len());
    write_uleb128_u64(out, n as u64);
    let ghost start = out@;
    let mut i: usize = 0;
    while i < regs.len()
        invariant
            i <= regs.len(),
            out@ == start + wire::cat(i as nat, reg_enc(regs@)),
        decreases regs.len() - i,
    {
        let ghost before = out@;
        write_uleb128_u64(out, regs[i] as u64);
        i = i + 1;
        assert(wire::cat(i as nat, reg_enc(regs@)) == wire::cat((i - 1) as nat, reg_enc(regs@))
            + wire::uleb(regs@[i - 1] as nat));
        assert(out@ =~= start + wire::cat(i as nat, reg_enc(regs@)));
    }
    assert(out@ =~= old(out)@ + list_bytes(regs@));
}

// ---------------------------------------------------------------------------------------------
// Decoding.
// ---------------------------------------------------------------------------------------------

/// A register of a list.
pub struct RegItem;

impl Item for RegItem {
    type State = Seq<u32>;

    open spec fn item_at(s: Seq<u8>, i: int, st: Seq<u32>) -> Parsed<Seq<u32>> {
        match wire::u32_at(s, i) {
            Ok((v, j)) => Ok((st.push(v), j)),
            Err(e) => Err(e),
        }
    }
}

/// The operand of a role at position `i` of `s`.
pub open spec fn operand_at(s: Seq<u8>, i: int, role: OperandRole) -> Parsed<OperandModel> {
    match role {
        OperandRole::SrcList | OperandRole::DstList => match wire::list_at::<RegItem>(s, i, seq![]) {
            Ok((v, j)) => Ok((OperandModel::List(v), j)),
            Err(e) => Err(e),
        },
        OperandRole::ImmBool => match decode::byte_at(s, i) {
            Ok((v, j)) => Ok((OperandModel::Bool(v != 0), j)),
            Err(e) => Err(e),
        },
        OperandRole::ImmI64 => match wire::sleb_at(s, i) {
            Ok((v, j)) => Ok((OperandModel::I64(v as i64), j)),
            Err(e) => Err(e),
        },
        OperandRole::ImmU64 => match wire::uleb_at(s, i) {
            Ok((v, j)) => Ok((OperandModel::U64(v as u64), j)),
            Err(e) => Err(e),
        },
        OperandRole::ImmF64 => match wire::le_at(s, i, 8) {
            Ok((v, j)) => Ok((OperandModel::Bits(v as u64), j)),
            Err(e) => Err(e),
        },
        OperandRole::Scale => match decode::byte_at(s, i) {
            Ok((v, j)) => Ok((OperandModel::Byte(v), j)),
            Err(e) => Err(e),
        },
        _ => match wire::u32_at(s, i) {
            Ok((v, j)) => Ok((OperandModel::Word(v), j)),
            Err(e) => Err(e),
        },
    }
}

/// The operands of the roles from number `k` on, at position `i` of `s`, behind those in `st`.
pub open spec fn operands_at(
    s: Seq<u8>,
    i: int,
    roles: Seq<OperandRole>,
    k: int,
    st: Seq<OperandModel>,
) -> Parsed<Seq<OperandModel>>
    decreases roles.len() - k,
{
    if k >= roles.len() {
        Ok((st, i))
    } else {
        match operand_at(s, i, roles[k]) {
            Ok((m, j)) => operands_at(s, j, roles, k + 1, st.push(m)),
            Err(e) => Err(e),
        }
    }
}

/// A failure to decode an instruction stream.
#[derive(Copy, Clone, Debug, PartialEq, Eq, Structural)]
pub enum BytecodeError {
    /// The stream ends inside an instruction, or an operand is malformed.
    Decode(DecodeError),
    /// No opcode has this byte.
    UnknownOpcode {
        /// The byte.
        opcode: u8,
    },
}

/// An instruction at a position of a stream, as its opcode and operands.
#[verifier::ext_equal]
pub struct InstrModel {
    pub offset: int,
    pub op: Opcode,
    pub operands: Seq<OperandModel>,
}

/// The instruction at position `i` of `s`, and the position behind it.
pub open spec fn instr_at(s: Seq<u8>, i: int) -> Result<(InstrModel, int), BytecodeError> {
    match decode::byte_at(s, i) {
        Err(e) => Err(BytecodeError::Decode(e)),
        Ok((b, j)) => match opcode::opcode_of(b) {
            None => Err(BytecodeError::UnknownOpcode { opcode: b }),
            Some(op) => match operands_at(s, j, opcode::opcode_roles(op), 0, seq![]) {
                Err(e) => Err(BytecodeError::Decode(e)),
                Ok((operands, n)) => Ok((InstrModel { offset: i, op, operands }, n)),
            },
        },
    }
}

/// Reading registers moves forward.
proof fn lemma_regs_bounds(s: Seq<u8>, i: int, n: nat, st: Seq<u32>)
    requires
        0 <= i <= s.len(),
    ensures
        wire::items_at::<RegItem>(s, i, n, st) matches Ok((_, j)) ==> i <= j <= s.len(),
    decreases n,
{
    if n > 0 {
        wire::lemma_uleb_at_bounds(s, i);
        match RegItem::item_at(s, i, st) {
            Ok((st1, j)) => {
                lemma_regs_bounds(s, j, (n - 1) as nat, st1);
            },
            Err(_) => {},
        }
    }
}

/// Reading an operand moves forward.
proof fn lemma_operand_bounds(s: Seq<u8>, i: int, role: OperandRole)
    requires
        0 <= i <= s.len(),
    ensures
        operand_at(s, i, role) matches Ok((m, j)) ==> i <= j <= s.len() && fits_role(role, m),
{
    wire::lemma_uleb_at_bounds(s, i);
    wire::lemma_sleb_at_bounds(s, i);
    match wire::usize_at(s, i) {
        Ok((n, j)) => {
            lemma_regs_bounds(s, j, n, seq![]);
        },
        Err(_) => {},
    }
}

/// Reading operands moves forward, and gives what the roles ask for.
proof fn lemma_operands_bounds(
    s: Seq<u8>,
    i: int,
    roles: Seq<OperandRole>,
    k: int,
    st: Seq<OperandModel>,
)
    requires
        0 <= i <= s.len(),
        0 <= k <= roles.len(),
        fit_roles(roles.take(k), st),
    ensures
        operands_at(s, i, roles, k, st) matches Ok((ms, j)) ==> i <= j <= s.len() && fit_roles(
            roles,
            ms,
        ),
    decreases roles.len() - k,
{
    if k < roles.len() {
        lemma_operand_bounds(s, i, roles[k]);
        match operand_at(s, i, roles[k]) {
            Ok((m, j)) => {
                assert forall|q: int| 0 <= q < k + 1 implies fits_role(
                    roles.take(k + 1)[q],
                    #[trigger] st.push(m)[q],
                ) by {
                    if q < k {
                        assert(fits_role(roles.take(k)[q], st[q]));
                    }
                }
                lemma_operands_bounds(s, j, roles, k + 1, st.push(m));
            },
            Err(_) => {},
        }
    } else {
        assert(roles.take(k) =~= roles);
    }
}

/// An instruction takes at least one byte, and its operands are as its opcode asks for.
pub proof fn lemma_instr_bounds(s: Seq<u8>, i: int)
    requires
        0 <= i <= s.len(),
    ensures
        instr_at(s, i) matches Ok((x, j)) ==> {
            &&& i < j <= s.len()
            &&& x.offset == i
            &&& fit_roles(opcode::opcode_roles(x.op), x.operands)
            &&& opcode::opcode_byte(x.op) == s[i]
        },
{
    if i < s.len() {
        match opcode::opcode_of(s[i]) {
            Some(op) => {
                let roles = opcode::opcode_roles(op);
                assert(roles.take(0) =~= seq![]);
                lemma_operands_bounds(s, i + 1, roles, 0, seq![]);
                opcode::law_opcode_bytes(op, s[i]);
            },
            None => {},
        }
    }
}

/// The instructions from position `i` of `s` on, behind those in `st`.
pub open spec fn instrs_from(s: Seq<u8>, i: int, st: Seq<InstrModel>) -> Result<
    Seq<InstrModel>,
    BytecodeError,
>
    decreases s.len() - i,
{
    if i < 0 || i >= s.len() {
        Ok(st)
    } else if i > u32::MAX {
        Err(BytecodeError::Decode(DecodeError::OutOfBounds))
    } else {
        match instr_at(s, i) {
            Err(e) => Err(e),
            Ok((x, j)) => {
                proof {
                    lemma_instr_bounds(s, i);
                }
                instrs_from(s, j, st.push(x))
            },
        }
    }
}

/// The instructions of a stream. An instruction's position must fit in a `u32`.
pub open spec fn instrs(s: Seq<u8>) -> Result<Seq<InstrModel>, BytecodeError> {
    instrs_from(s, 0, seq![])
}

/// An instruction.
#[derive(Clone, Debug, PartialEq, Eq)]
pub struct Instr {
    /// The opcode.
    pub op: Opcode,
    /// The operands, in the order of [`Opcode::operands`].
    pub operands: Vec<Operand>,
}

/// An instruction with its place in the stream.
#[derive(Clone, Debug, PartialEq, Eq)]
pub struct DecodedInstr {
    /// Position of the opcode byte.
    pub offset: u32,
    /// The opcode byte.
    pub opcode: u8,
    /// The instruction.
    pub instr: Instr,
}

impl Instr {
    /// The operands are as the opcode asks for.
    pub open spec fn wf(&self) -> bool {
        fit_roles(opcode::opcode_roles(self.op), operand_models(self.operands@))
    }
}

impl View for DecodedInstr {
    type V = InstrModel;

    open spec fn view(&self) -> InstrModel {
        InstrModel {
            offset: self.offset as int,
            op: self.instr.op,
            operands: operand_models(self.instr.operands@),
        }
    }
}

/// What decoded instructions hold.
pub open spec fn instr_models(v: Seq<DecodedInstr>) -> Seq<InstrModel> {
    v.map_values(|d: DecodedInstr| d@)
}

/// Reads a list of registers.
fn read_list(r: &mut Reader<'_>) -> (res: Result<Vec<u32>, DecodeError>)
    requires
        old(r).wf(),
    ensures
        final(r).wf(),
        final(r).data() == old(r).data(),
        match wire::list_at::<RegItem>(old(r).data(), old(r).pos(), seq![]) {
            Ok((v, n)) => res is Ok && res->Ok_0@ == v && final(r).pos() == n,
            Err(e) => res == Err::<Vec<u32>, DecodeError>(e),
        },
{
    let ghost all = wire::list_at::<RegItem>(r.data(), r.pos(), seq![]);
    let n = read_usize(r)?;
    let mut out: Vec<u32> = Vec::new();
    let mut k: usize = 0;
    let ghost data = r.data();
    assert(out@ =~= seq![]);
    while k < n
        invariant
            k <= n,
            r.wf(),
            r.data() == data,
            data == old(r).data(),
            all == wire::list_at::<RegItem>(old(r).data(), old(r).pos(), seq![]),
            wire::items_at::<RegItem>(data, r.pos(), (n - k) as nat, out@) == all,
        decreases n - k,
    {
        let v = r.read_u32()?;
        out.push(v);
        k = k + 1;
    }
    Ok(out)
}

/// Reads an operand.
fn read_operand(r: &mut Reader<'_>, role: OperandRole) -> (res: Result<Operand, DecodeError>)
    requires
        old(r).wf(),
    ensures
        final(r).wf(),
        final(r).data() == old(r).data(),
        match operand_at(old(r).data(), old(r).pos(), role) {
            Ok((m, n)) => res is Ok && res->Ok_0@ == m && final(r).pos() == n,
            Err(e) => res == Err::<Operand, DecodeError>(e),
        },
{
    match role {
        OperandRole::SrcList | OperandRole::DstList => {
            let v = read_list(r)?;
            Ok(Operand::List(v))
        },
        OperandRole::ImmBool => {
            let v = r.read_u8()?;
            Ok(Operand::Bool(v != 0))
        },
        OperandRole::ImmI64 => {
            let v = r.read_sleb128_i64()?;
            Ok(Operand::I64(v))
        },
        OperandRole::ImmU64 => {
            let v = r.read_uleb128_u64()?;
            Ok(Operand::U64(v))
        },
        OperandRole::ImmF64 => {
            let v = r.read_u64_le()?;
            Ok(Operand::Bits(v))
        },
        OperandRole::Scale => {
            let v = r.read_u8()?;
            Ok(Operand::Byte(v))
        },
        _ => {
            let v = r.read_u32()?;
            Ok(Operand::Word(v))
        },
    }
}

/// Reads the instruction at the reader's position.
fn read_instr(r: &mut Reader<'_>) -> (res: Result<Instr, BytecodeError>)
    requires
        old(r).wf(),
    ensures
        final(r).wf(),
        final(r).data() == old(r).data(),
        match instr_at(old(r).data(), old(r).pos()) {
            Ok((x, n)) => {
                &&& res is Ok
                &&& res->Ok_0.op == x.op
                &&& operand_models(res->Ok_0.operands@) == x.operands
                &&& res->Ok_0.wf()
                &&& final(r).pos() == n
            },
            Err(e) => res == Err::<Instr, BytecodeError>(e),
        },
{
    let ghost data = r.data();
    let ghost start = r.pos();
    proof {
        lemma_instr_bounds(data, start);
    }
    let b: u8 = match r.read_u8() {
        Ok(b) => b,
        Err(e) => {
            return Err(BytecodeError::Decode(e));
        },
    };
    let op: Opcode = match Opcode::from_u8(b) {
        Some(op) => op,
        None => {
            return Err(BytecodeError::UnknownOpcode { opcode: b });
        },
    };
    let roles = op.operands();
    let ghost all = operands_at(data, start + 1, roles@, 0, seq![]);
    let mut operands: Vec<Operand> = Vec::new();
    let mut k: usize = 0;
    assert(operand_models(operands@) =~= seq![]);
    while k < roles.len()
        invariant
            k <= roles.len(),
            r.wf(),
            r.data() == data,
            data == old(r).data(),
            start == old(r).pos(),
            all == operands_at(data, start + 1, roles@, 0, seq![]),
            operands_at(data, r.pos(), roles@, k as int, operand_models(operands@)) == all,
            0 <= start < data.len(),
            b == data[start],
            opcode::opcode_of(b) == Some(op),
            roles@ == opcode::opcode_roles(op),
        decreases roles.len() - k,
    {
        let ghost before = operand_models(operands@);
        match read_operand(r, roles[k]) {
            Ok(o) => {
                operands.push(o);
                assert(operand_models(operands@) =~= before.push(o@));
            },
            Err(e) => {
                return Err(BytecodeError::Decode(e));
            },
        }
        k = k + 1;
    }
    Ok(Instr { op, operands })
}

/// Decodes an instruction stream.
pub fn decode_instructions(bytes: &[u8]) -> (res: Result<Vec<DecodedInstr>, BytecodeError>)
    ensures
        match instrs(bytes@) {
            Ok(v) => res is Ok && instr_models(res->Ok_0@) == v && forall|k: int|
                0 <= k < v.len() ==> {
                    &&& (#[trigger] res->Ok_0@[k]).instr.wf()
                    &&& res->Ok_0@[k].opcode == opcode::opcode_byte(v[k].op)
                },
            Err(e) => res == Err::<Vec<DecodedInstr>, BytecodeError>(e),
        },
{
    let mut r = Reader::new(bytes);
    let mut out: Vec<DecodedInstr> = Vec::new();
    assert(instr_models(out@) =~= seq![]);
    while r.offset() < r.len()
        invariant
            r.wf(),
            r.data() == bytes@,
            instrs_from(bytes@, r.pos(), instr_models(out@)) == instrs(bytes@),
            forall|k: int|
                0 <= k < out@.len() ==> {
                    &&& (#[trigger] out@[k]).instr.wf()
                    &&& out@[k].opcode == opcode::opcode_byte(out@[k].instr.op)
                },
        decreases bytes@.len() - r.pos(),
    {
        let offset = r.offset();
        if offset > u32::MAX as usize {
            return Err(BytecodeError::Decode(DecodeError::OutOfBounds));
        }
        let ghost before = instr_models(out@);
        proof {
            lemma_instr_bounds(bytes@, r.pos());
        }
        match read_instr(&mut r) {
            Ok(instr) => {
                let opcode: u8 = instr.op.to_u8();
                out.push(DecodedInstr { offset: offset as u32, opcode, instr });
                assert(instr_models(out@) =~= before.push(out@.last()@));
            },
            Err(e) => {
                return Err(e);
            },
        }
    }
    Ok(out)
}

// ---------------------------------------------------------------------------------------------
// Laws.
// ---------------------------------------------------------------------------------------------

/// The five bytes of a code position read back as the position.
pub proof fn law_wide_reads_back(s: Seq<u8>, i: int, v: u32)
    requires
        wire::at(s, i, wide(v)),
    ensures
        wire::u32_at(s, i) == Ok::<(u32, int), DecodeError>((v, i + 5)),
{
    let w = wide(v);
    assert forall|k: int| 0 <= k < 5 implies s[i + k] == w[k] by {
        assert(s.subrange(i, i + w.len())[k] == w[k]);
    }
    assert(s[i] == v % 128 + 128);
    assert(s[i + 1] == v / 128 % 128 + 128);
    assert(s[i + 2] == v / 16384 % 128 + 128);
    assert(s[i + 3] == v / 2097152 % 128 + 128);
    assert(s[i + 4] == v / 268435456);
    let ok = |n: nat| Ok::<(nat, int), DecodeError>((n, i + 5));
    assert(wire::uleb_from(s, i + 4, 4) == ok((v / 268435456) as nat));
    assert(wire::uleb_from(s, i + 3, 3) == ok((v / 2097152) as nat));
    assert(wire::uleb_from(s, i + 2, 2) == ok((v / 16384) as nat));
    assert(wire::uleb_from(s, i + 1, 1) == ok((v / 128) as nat));
    assert(wire::uleb_from(s, i, 0) == ok(v as nat));
}

/// Whether an instruction's operands can be encoded: they are as the opcode asks for, and no list
/// is longer than its count can say.
pub open spec fn encodable(op: Opcode, ms: Seq<OperandModel>) -> bool {
    &&& fit_roles(opcode::opcode_roles(op), ms)
    &&& forall|k: int|
        0 <= k < ms.len() && (#[trigger] ms[k]) is List ==> ms[k]->List_0.len() <= u32::MAX
}

proof fn lemma_operand_roundtrip(s: Seq<u8>, i: int, role: OperandRole, m: OperandModel)
    requires
        fits_role(role, m),
        m is List ==> m->List_0.len() <= u32::MAX,
        wire::at(s, i, operand_bytes(role, m)),
    ensures
        operand_at(s, i, role) == Ok::<(OperandModel, int), DecodeError>(
            (m, i + operand_bytes(role, m).len()),
        ),
{
    match m {
        OperandModel::Word(v) => {
            if role is Pc {
                law_wide_reads_back(s, i, v);
            } else {
                wire::lemma_u32_roundtrip(s, i, v);
            }
        },
        OperandModel::List(v) => {
            let st = |k: int| v.take(k);
            assert forall|k: int, j: int|
                0 <= k < v.len() && #[trigger] wire::at(s, j, reg_enc(v)(k)) implies RegItem::item_at(
                s,
                j,
                st(k),
            ) == Ok::<(Seq<u32>, int), DecodeError>((st(k + 1), j + reg_enc(v)(k).len())) by {
                wire::lemma_u32_roundtrip(s, j, v[k]);
                assert(v.take(k).push(v[k]) =~= v.take(k + 1));
            }
            wire::lemma_list_roundtrip::<RegItem>(s, i, v.len(), reg_enc(v), st);
            assert(v.take(0) =~= seq![]);
            assert(v.take(v.len() as int) =~= v);
        },
        OperandModel::Bool(v) => {
            assert(s.subrange(i, i + 1)[0] == s[i]);
        },
        OperandModel::I64(v) => {
            wire::lemma_sleb_roundtrip(s, i, v);
        },
        OperandModel::U64(v) => {
            wire::lemma_uleb_roundtrip(s, i, v);
        },
        OperandModel::Bits(v) => {
            wire::lemma_le64_roundtrip(s, i, v);
        },
        OperandModel::Byte(v) => {
            assert(s.subrange(i, i + 1)[0] == s[i]);
        },
    }
}

proof fn lemma_operands_roundtrip(
    s: Seq<u8>,
    i: int,
    roles: Seq<OperandRole>,
    ms: Seq<OperandModel>,
)
    requires
        ms.len() <= roles.len(),
        forall|k: int| 0 <= k < ms.len() ==> fits_role(roles[k], #[trigger] ms[k]),
        forall|k: int|
            0 <= k < ms.len() && (#[trigger] ms[k]) is List ==> ms[k]->List_0.len() <= u32::MAX,
        wire::at(s, i, operands_bytes(roles, ms)),
    ensures
        operands_at(s, i, roles, 0, seq![]) == operands_at(
            s,
            i + operands_bytes(roles, ms).len(),
            roles,
            ms.len() as int,
            ms,
        ),
    decreases ms.len(),
{
    if ms.len() == 0 {
        assert(ms =~= seq![]);
    } else {
        let front = ms.drop_last();
        let a = operands_bytes(roles, front);
        let b = operand_bytes(roles[ms.len() - 1], ms.last());
        wire::lemma_at_concat(s, i, a, b);
        assert forall|k: int| 0 <= k < front.len() implies fits_role(roles[k], #[trigger] front[k]) by {
            assert(front[k] == ms[k]);
        }
        assert forall|k: int| 0 <= k < front.len() && (#[trigger] front[k]) is List implies front[k]->List_0.len()
            <= u32::MAX by {
            assert(front[k] == ms[k]);
        }
        lemma_operands_roundtrip(s, i, roles, front);
        lemma_operand_roundtrip(s, i + a.len(), roles[ms.len() - 1], ms.last());
        assert(front.push(ms.last()) =~= ms);
    }
}

/// An instruction reads back as it was written, wherever it stands in a stream.
pub proof fn law_instr_reads_back(s: Seq<u8>, i: int, op: Opcode, ms: Seq<OperandModel>)
    requires
        encodable(op, ms),
        wire::at(s, i, instr_bytes(op, ms)),
    ensures
        instr_at(s, i) == Ok::<(InstrModel, int), BytecodeError>(
            (InstrModel { offset: i, op, operands: ms }, i + instr_bytes(op, ms).len()),
        ),
{
    let roles = opcode::opcode_roles(op);
    wire::lemma_at_concat(s, i, seq![opcode::opcode_byte(op)], operands_bytes(roles, ms));
    assert(s.subrange(i, i + 1)[0] == s[i]);
    opcode::law_opcode_bytes(op, s[i]);
    lemma_operands_roundtrip(s, i + 1, roles, ms);
}

/// The bytes of instructions in a row.
pub open spec fn code_bytes(xs: Seq<(Opcode, Seq<OperandModel>)>) -> Seq<u8>
    decreases xs.len(),
{
    if xs.len() == 0 {
        seq![]
    } else {
        code_bytes(xs.drop_last()) + instr_bytes(xs.last().0, xs.last().1)
    }
}

/// Instructions in a row, each with the position that its bytes have.
pub open spec fn code_model(xs: Seq<(Opcode, Seq<OperandModel>)>) -> Seq<InstrModel>
    decreases xs.len(),
{
    if xs.len() == 0 {
        seq![]
    } else {
        code_model(xs.drop_last()).push(
            InstrModel {
                offset: code_bytes(xs.drop_last()).len() as int,
                op: xs.last().0,
                operands: xs.last().1,
            },
        )
    }
}

proof fn lemma_code_prefix(s: Seq<u8>, xs: Seq<(Opcode, Seq<OperandModel>)>)
    requires
        s.len() <= u32::MAX,
        forall|k: int| 0 <= k < xs.len() ==> encodable((#[trigger] xs[k]).0, xs[k].1),
        wire::at(s, 0, code_bytes(xs)),
    ensures
        instrs(s) == instrs_from(s, code_bytes(xs).len() as int, code_model(xs)),
    decreases xs.len(),
{
    if xs.len() > 0 {
        let front = xs.drop_last();
        let b = instr_bytes(xs.last().0, xs.last().1);
        wire::lemma_at_concat(s, 0, code_bytes(front), b);
        assert forall|k: int| 0 <= k < front.len() implies encodable((#[trigger] front[k]).0, front[k].1) by {
            assert(front[k] == xs[k]);
        }
        lemma_code_prefix(s, front);
        let i = code_bytes(front).len() as int;
        law_instr_reads_back(s, i, xs.last().0, xs.last().1);
    }
}

/// A stream of instructions decodes to the instructions that it was made of, each at the position
/// of its bytes.
pub proof fn law_code_reads_back(xs: Seq<(Opcode, Seq<OperandModel>)>)
    requires
        forall|k: int| 0 <= k < xs.len() ==> encodable((#[trigger] xs[k]).0, xs[k].1),
        code_bytes(xs).len() <= u32::MAX,
    ensures
        instrs(code_bytes(xs)) == Ok::<Seq<InstrModel>, BytecodeError>(code_model(xs)),
{
    let s = code_bytes(xs);
    assert(s.subrange(0, s.len() as int) =~= s);
    lemma_code_prefix(s, xs);
}

} // verus!
