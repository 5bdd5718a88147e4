//! Disassembly as text: one instruction a line, with labels for the targets of branches.

use vstd::prelude::*;
use vstd::string::*;
use vstd::utf8::*;

use crate::bytecode::InstrModel;
use crate::digits;
use crate::digits::{push_decimal, push_hex, push_hex_wide, push_padded, push_signed};
use crate::disasm;
use crate::disasm::{
    CallOperands, CallTarget, ConstValue, ConstValueModel, DisasmError, Disassembly,
    FunctionDisassembly, InputIndex, InstrView, Labels, Operands, OperandsModel,
};
use crate::history;
use crate::history::chain;
use crate::opcode;
use crate::opcode::Opcode;
use crate::pack;
use crate::program;
use crate::program::{Program, ProgramView};
use crate::value::FuncId;
use crate::vm;
use crate::wire::DecodeError;

verus! {

/// What a list of floats and their texts says: the last text of each.
pub open spec fn table_of(entries: Seq<(u64, Seq<char>)>) -> Map<u64, Seq<char>>
    decreases entries.len(),
{
    if entries.len() == 0 {
        Map::empty()
    } else {
        table_of(entries.drop_last()).insert(entries.last().0, entries.last().1)
    }
}

/// The contents of a list of floats and their texts.
pub open spec fn entry_models(entries: Seq<(u64, String)>) -> Seq<(u64, Seq<char>)> {
    entries.map_values(|e: (u64, String)| (e.0, e.1@))
}

/// Writes floats.
pub trait FloatWriter {
    /// The text of the float with the given bits.
    fn write(&mut self, bits: u64) -> String;
}

/// The texts of floats, by their bits.
struct FloatTable {
    entries: Vec<(u64, String)>,
}

impl View for FloatTable {
    type V = Map<u64, Seq<char>>;

    closed spec fn view(&self) -> Map<u64, Seq<char>> {
        table_of(entry_models(self.entries@))
    }
}

impl FloatTable {
    /// The text of the float with the given bits.
    fn find(&self, bits: u64) -> (text: Option<&str>)
        ensures
            text is Some == self@.contains_key(bits),
            text matches Some(t) ==> t@ == self@[bits],
    {
        let ghost all = entry_models(self.entries@);
        let mut n: usize = self.entries.len();
        assert(all.take(n as int) =~= all);
        while n > 0
            invariant
                n <= self.entries.len(),
                all == entry_models(self.entries@),
                self@.contains_key(bits) == table_of(all.take(n as int)).contains_key(bits),
                self@[bits] == table_of(all.take(n as int))[bits],
            decreases n,
        {
            assert(all.take(n as int).drop_last() =~= all.take(n - 1));
            assert(all[n - 1] == (self.entries@[n - 1].0, self.entries@[n - 1].1@));
            let entry = &self.entries[n - 1];
            if entry.0 == bits {
                return Some(entry.1.as_str());
            }
            n -= 1;
        }
        None
    }

    /// Appends the text of the float with the given bits.
    fn show(&self, out: &mut String, bits: u64)
        requires
            self@.contains_key(bits),
        ensures
            final(out)@ == old(out)@ + self@[bits],
    {
        match self.find(bits) {
            Some(t) => out.append(t),
            None => {},
        }
    }
}

/// A writer of floats, with the texts that it gave so far.
pub struct FloatTexts<W: FloatWriter> {
    writer: W,
    table: FloatTable,
}

impl<W: FloatWriter> View for FloatTexts<W> {
    type V = Map<u64, Seq<char>>;

    open spec fn view(&self) -> Map<u64, Seq<char>> {
        table_of(self.given())
    }
}

impl<W: FloatWriter> FloatTexts<W> {
    /// The writer.
    pub closed spec fn inner(&self) -> W {
        self.writer
    }

    /// The texts that the writer gave, in order, each with the bits of its float.
    pub closed spec fn given(&self) -> Seq<(u64, Seq<char>)> {
        entry_models(self.table.entries@)
    }

    /// A writer that gave no text yet.
    pub fn new(writer: W) -> (t: Self)
        ensures
            t.given() == Seq::<(u64, Seq<char>)>::empty(),
            t@ == Map::<u64, Seq<char>>::empty(),
            t.inner() == writer,
    {
        let t = FloatTexts { writer, table: FloatTable { entries: Vec::new() } };
        assert(t.given() =~= Seq::<(u64, Seq<char>)>::empty());
        t
    }

    /// Has the writer give the text of the float with the given bits, unless it did before.
    pub fn learn(&mut self, bits: u64)
        ensures
            final(self)@.contains_key(bits),
            learned(*old(self), *final(self)),
            old(self)@.contains_key(bits) ==> *final(self) == *old(self),
            !old(self)@.contains_key(bits) ==> exists|m: &mut W, t: String|
                *m == old(self).inner() && *final(m) == final(self).inner() && final(self).given()
                    == old(self).given().push((bits, t@)) && #[trigger] call_ensures(
                    W::write,
                    (m, bits),
                    t,
                ),
    {
        proof {
            lemma_learned_none(*self);
        }
        if self.table.find(bits).is_some() {
            return;
        }
        let (t, after) = write_with(&mut self.writer, bits);
        let ghost e = (bits, t@);
        proof {
            assert(after@ == self.writer);
            assert(wrote(old(self).inner(), bits, t@, after@));
        }
        self.table.entries.push((bits, t));
        proof {
            assert(self.given() =~= old(self).given().push(e));
            assert(self.given().drop_last() =~= old(self).given());
            history::lemma_one(writes::<W>(), old(self).inner(), e, self.inner());
            assert(self.given() =~= old(self).given() + seq![e]);
            lemma_learned(*old(self), *self, seq![e]);
        }
    }
}

/// Has a writer give the text of a float. The state of the writer comes back, too.
pub fn write_with<W: FloatWriter>(writer: &mut W, bits: u64) -> (r: (String, Ghost<W>))
    ensures
        r.1@ == *final(writer),
        exists|m: &mut W|
            *m == *old(writer) && *final(m) == *final(writer) && #[trigger] call_ensures(
                W::write,
                (m, bits),
                r.0,
            ),
{
    let t = writer.write(bits);
    let ghost after = *writer;
    assert(exists|m: &mut W|
        *m == *old(writer) && *final(m) == after && #[trigger] call_ensures(W::write, (m, bits), t));
    let r = (t, Ghost(after));
    assert(r.0 == t);
    r
}

/// A writer gave the text of a float, and went from one state to another.
pub open spec fn wrote<W: FloatWriter>(before: W, bits: u64, text: Seq<char>, after: W) -> bool {
    exists|m: &mut W, r: (String, Ghost<W>)|
        *m == before && r.0@ == text && r.1@ == after && #[trigger] call_ensures(
            write_with::<W>,
            (m, bits),
            r,
        )
}

/// How the states of a writer follow on each other.
pub open spec fn writes<W: FloatWriter>() -> spec_fn(W, (u64, Seq<char>), W) -> bool {
    |before: W, e: (u64, Seq<char>), after: W| wrote(before, e.0, e.1, after)
}

/// The writer gave more texts, and nothing else was entered.
pub open spec fn learned<W: FloatWriter>(before: FloatTexts<W>, after: FloatTexts<W>) -> bool {
    &&& vm::grew(before.given(), after.given())
    &&& chain(
        writes::<W>(),
        before.inner(),
        vm::since(before.given(), after.given()),
        after.inner(),
    )
}

proof fn lemma_learned<W: FloatWriter>(
    before: FloatTexts<W>,
    after: FloatTexts<W>,
    more: Seq<(u64, Seq<char>)>,
)
    requires
        after.given() == before.given() + more,
        chain(writes::<W>(), before.inner(), more, after.inner()),
    ensures
        learned(before, after),
{
    assert(after.given().take(before.given().len() as int) =~= before.given());
    assert(vm::since(before.given(), after.given()) =~= more);
}

proof fn lemma_learned_none<W: FloatWriter>(t: FloatTexts<W>)
    ensures
        learned(t, t),
{
    let none = Seq::<(u64, Seq<char>)>::empty();
    history::lemma_none::<W, (u64, Seq<char>)>(writes::<W>(), t.inner());
    assert(t.given() + none =~= t.given());
    lemma_learned(t, t, none);
}

proof fn lemma_learned_both<W: FloatWriter>(a: FloatTexts<W>, b: FloatTexts<W>, c: FloatTexts<W>)
    requires
        learned(a, b),
        learned(b, c),
    ensures
        learned(a, c),
{
    let first = vm::since(a.given(), b.given());
    let second = vm::since(b.given(), c.given());
    history::lemma_concat(writes::<W>(), a.inner(), first, b.inner(), second, c.inner());
    assert(b.given() =~= a.given() + first);
    assert(c.given() =~= a.given() + (first + second));
    lemma_learned(a, c, first + second);
}

/// Whether an instruction loads the float with the given bits.
pub open spec fn loads(p: ProgramView, x: InstrModel, bits: u64) -> bool {
    disasm::const_of(p, x) == Some(ConstValueModel::F64Bits(bits))
}

/// Whether one of the instructions of a function loads the float with the given bits.
pub open spec fn loads_in(p: ProgramView, func: u32, bits: u64) -> bool {
    match disasm::function_code(p, func) {
        Ok(xs) => exists|k: int| 0 <= k < xs.len() && #[trigger] loads(p, xs[k], bits),
        Err(_) => false,
    }
}

/// There is a text for every float that the instruction loads.
pub open spec fn written(floats: Map<u64, Seq<char>>, p: ProgramView, x: InstrModel) -> bool {
    forall|bits: u64| #[trigger] loads(p, x, bits) ==> floats.contains_key(bits)
}

/// There is a text for every float that the function loads.
pub open spec fn written_in(floats: Map<u64, Seq<char>>, p: ProgramView, func: u32) -> bool {
    forall|bits: u64| #[trigger] loads_in(p, func, bits) ==> floats.contains_key(bits)
}

// ---------------------------------------------------------------------------------------------
// Pieces.
// ---------------------------------------------------------------------------------------------

/// Items in a row with commas between them.
pub open spec fn joined(n: nat, item: spec_fn(int) -> Seq<char>) -> Seq<char>
    decreases n,
{
    if n == 0 {
        seq![]
    } else if n == 1 {
        item(0)
    } else {
        joined((n - 1) as nat, item) + ", "@ + item(n - 1)
    }
}

/// A register.
pub open spec fn reg_text(r: u32) -> Seq<char> {
    "r"@ + digits::decimal(r as nat)
}

/// Registers.
pub open spec fn reg_item(regs: Seq<u32>) -> spec_fn(int) -> Seq<char> {
    |i: int| reg_text(regs[i])
}

/// A list of registers.
pub open spec fn list_text(regs: Seq<u32>) -> Seq<char> {
    "["@ + joined(regs.len(), reg_item(regs)) + "]"@
}

/// The name of an output of a function.
pub open spec fn output_name(p: ProgramView, func: u32, ret: u32) -> Option<Seq<char>> {
    disasm::chars_of(
        p.symbol_opt(program::output_name_in(p.function_output_names, func, ret)),
    )
}

/// Registers, with the names of the outputs that they hold.
pub open spec fn named_item(p: ProgramView, func: u32, regs: Seq<u32>) -> spec_fn(int) -> Seq<char> {
    |i: int|
        match output_name(p, func, program::clamp32(i as nat)) {
            Some(name) => name + "="@ + reg_text(regs[i]),
            None => reg_text(regs[i]),
        }
}

/// A list of registers, with the names of the outputs that they hold.
pub open spec fn named_text(p: ProgramView, func: u32, regs: Seq<u32>) -> Seq<char> {
    "["@ + joined(regs.len(), named_item(p, func, regs)) + "]"@
}

/// The target of a branch: a label where there is one, or a position.
pub open spec fn target_text(pc: u32, labels: Option<Seq<u32>>) -> Seq<char> {
    match labels {
        Some(v) => if pack::position(v, pc) < v.len() {
            "@L"@ + digits::decimal(pack::position(v, pc))
        } else {
            "@"@ + digits::padded(pc as nat, 6)
        },
        None => "@"@ + digits::padded(pc as nat, 6),
    }
}

/// An index.
pub open spec fn index_text(ix: InputIndex) -> Seq<char> {
    match ix {
        InputIndex::TrapCode(code) => "trap_code="@ + digits::decimal(code as nat),
        InputIndex::Const(id) => "const#"@ + digits::decimal(id.0 as nat),
        InputIndex::HostSig(id) => "host_sig#"@ + digits::decimal(id.0 as nat),
        InputIndex::Func(id) => "func#"@ + digits::decimal(id.0 as nat),
        InputIndex::Type(id) => "type#"@ + digits::decimal(id.0 as nat),
        InputIndex::ElemType(id) => "elem_type#"@ + digits::decimal(id.0 as nat),
        InputIndex::Index(ix) => "index="@ + digits::decimal(ix as nat),
    }
}

/// A character as it stands in a string literal.
pub open spec fn escaped(c: char) -> Seq<char> {
    if c == '\t' {
        "\\t"@
    } else if c == '\r' {
        "\\r"@
    } else if c == '\n' {
        "\\n"@
    } else if c == '\'' {
        "\\'"@
    } else if c == '"' {
        "\\\""@
    } else if c == '\\' {
        "\\\\"@
    } else if 0x20 <= c as u32 <= 0x7e {
        seq![c]
    } else {
        "\\u{"@ + digits::hex(c as u32 as nat) + "}"@
    }
}

/// Characters as they stand in a string literal.
pub open spec fn escaped_all(s: Seq<char>) -> Seq<char>
    decreases s.len(),
{
    if s.len() == 0 {
        seq![]
    } else {
        escaped_all(s.drop_last()) + escaped(s.last())
    }
}

/// Bytes in hexadecimal.
pub open spec fn bytes_text(b: Seq<u8>) -> Seq<char>
    decreases b.len(),
{
    if b.len() == 0 {
        seq![]
    } else {
        bytes_text(b.drop_last()) + digits::hex_wide(b.last() as nat, 2)
    }
}

/// A constant. Of a long byte string or string only the start is shown.
pub open spec fn const_text(floats: Map<u64, Seq<char>>, v: ConstValueModel) -> Seq<char> {
    match v {
        ConstValueModel::Unit => "()"@,
        ConstValueModel::Bool(b) => if b {
            "true"@
        } else {
            "false"@
        },
        ConstValueModel::I64(i) => digits::signed(i as int),
        ConstValueModel::U64(u) => digits::decimal(u as nat),
        ConstValueModel::F64Bits(bits) => floats[bits] + " (bits=0x"@ + digits::hex_wide(
            bits as nat,
            16,
        ) + ")"@,
        ConstValueModel::Decimal { mantissa, scale } => "dec(mantissa="@ + digits::signed(
            mantissa as int,
        ) + ", scale="@ + digits::decimal(scale as nat) + ")"@,
        ConstValueModel::Bytes(b) => "bytes[len="@ + digits::decimal(b.len()) + "] 0x"@ + (if b.len()
            > 32 {
            bytes_text(b.take(32)) + "…"@
        } else {
            bytes_text(b)
        }),
        ConstValueModel::Str(s) => "str[len="@ + digits::decimal(encode_utf8(s).len()) + "] \""@ + (
        if s.len() > 64 {
            escaped_all(s.take(64)) + "…"@
        } else {
            escaped_all(s)
        }) + "\""@,
    }
}

/// The operands of a call.
pub open spec fn call_text(p: ProgramView, o: OperandsModel) -> Seq<char> {
    match o {
        OperandsModel::Func { eff_out, func: callee, eff_in, args, rets } => " eff_out="@ + reg_text(
            eff_out,
        ) + ", "@ + "f"@ + digits::decimal(callee.0 as nat) + ", eff_in="@ + reg_text(eff_in)
            + ", args="@ + list_text(args) + ", rets="@ + named_text(p, callee.0, rets),
        OperandsModel::Host { eff_out, sig, symbol, eff_in, args, rets } => " eff_out="@ + reg_text(
            eff_out,
        ) + ", "@ + "host_sig#"@ + digits::decimal(sig.0 as nat) + symbol_text(symbol)
            + ", eff_in="@ + reg_text(eff_in) + ", args="@ + list_text(args) + ", rets="@
            + list_text(rets),
        _ => seq![],
    }
}

/// The operands of an instruction.
pub open spec fn operands_text(
    floats: Map<u64, Seq<char>>,
    p: ProgramView,
    func: FuncId,
    x: InstrModel,
    labels: Option<Seq<u32>>,
) -> Seq<char> {
    match disasm::operands_of(p, x) {
        OperandsModel::Simple => simple_text(floats, p, x),
        OperandsModel::Br { cond, pc_true, pc_false } => " "@ + reg_text(cond) + ", "@ + target_text(
            pc_true,
            labels,
        ) + ", "@ + target_text(pc_false, labels),
        OperandsModel::Jmp { pc_target } => " "@ + target_text(pc_target, labels),
        OperandsModel::Func { .. } => call_text(p, disasm::operands_of(p, x)),
        OperandsModel::Host { .. } => call_text(p, disasm::operands_of(p, x)),
        OperandsModel::Ret { eff, rets } => " eff="@ + reg_text(eff) + ", rets="@ + named_text(
            p,
            func.0,
            rets,
        ),
    }
}

/// The symbol of a host signature behind its number.
pub open spec fn symbol_text(symbol: Option<Seq<char>>) -> Seq<char> {
    match symbol {
        Some(s) => "(\""@ + s + "\")"@,
        None => seq![],
    }
}

/// The register that an instruction writes.
pub open spec fn dst_part(x: InstrModel) -> Seq<char> {
    if disasm::writes_of(x).len() > 0 {
        " "@ + reg_text(disasm::writes_of(x)[0])
    } else {
        seq![]
    }
}

/// The registers that an instruction reads.
pub open spec fn reads_part(x: InstrModel) -> Seq<char> {
    if disasm::reads_of(x).len() > 0 {
        ", "@ + list_text(disasm::reads_of(x))
    } else {
        seq![]
    }
}

/// The index that an instruction holds.
pub open spec fn index_part(x: InstrModel) -> Seq<char> {
    match disasm::index_of(x) {
        Some(ix) => (if x.op is ConstPool {
            ", "@
        } else {
            " ; "@
        }) + index_text(ix),
        None => seq![],
    }
}

/// The constant that an instruction loads.
pub open spec fn const_part(floats: Map<u64, Seq<char>>, p: ProgramView, x: InstrModel) -> Seq<char> {
    match disasm::const_of(p, x) {
        Some(v) => " ; "@ + const_text(floats, v),
        None => seq![],
    }
}

/// The registers and the immediate of an instruction.
pub open spec fn simple_text(floats: Map<u64, Seq<char>>, p: ProgramView, x: InstrModel) -> Seq<char> {
    dst_part(x) + reads_part(x) + index_part(x) + const_part(floats, p, x)
}

/// An instruction, with labels for the targets of branches where there are any.
pub open spec fn instr_text(
    floats: Map<u64, Seq<char>>,
    p: ProgramView,
    func: FuncId,
    x: InstrModel,
    labels: Option<Seq<u32>>,
) -> Seq<char> {
    digits::padded(x.offset as nat, 6) + ": "@ + opcode::opcode_name(x.op) + operands_text(
        floats,
        p,
        func,
        x,
        labels,
    )
}

/// A name behind what it names.
pub open spec fn name_text(name: Option<Seq<char>>) -> Seq<char> {
    match name {
        Some(name) => " ; name=\""@ + name + "\""@,
        None => seq![],
    }
}

/// A line of a function: the label at the instruction, if there is one, and the instruction.
pub open spec fn line_text(
    floats: Map<u64, Seq<char>>,
    p: ProgramView,
    func: FuncId,
    x: InstrModel,
    labels: Seq<u32>,
) -> Seq<char> {
    (if pack::position(labels, x.offset as u32) < labels.len() {
        "  @L"@ + digits::decimal(pack::position(labels, x.offset as u32)) + ":"@ + name_text(
            disasm::chars_of(
                p.symbol_opt(program::label_name_in(p.labels, func.0, x.offset as u32)),
            ),
        ) + "\n"@
    } else {
        Seq::empty()
    }) + "  "@ + instr_text(floats, p, func, x, Some(labels)) + "\n"@
}

/// The first `n` lines of a function.
pub open spec fn lines_text(
    floats: Map<u64, Seq<char>>,
    p: ProgramView,
    func: FuncId,
    xs: Seq<InstrModel>,
    labels: Seq<u32>,
    n: nat,
) -> Seq<char>
    decreases n,
{
    if n == 0 {
        seq![]
    } else {
        lines_text(floats, p, func, xs, labels, (n - 1) as nat) + line_text(
            floats,
            p,
            func,
            xs[n - 1],
            labels,
        )
    }
}

/// A failure to decode.
pub open spec fn decode_error_text(e: DecodeError) -> Seq<char> {
    match e {
        DecodeError::UnexpectedEof => "UnexpectedEof"@,
        DecodeError::InvalidVarint => "InvalidVarint"@,
        DecodeError::OutOfBounds => "OutOfBounds"@,
        DecodeError::InvalidUtf8 => "InvalidUtf8"@,
        DecodeError::BadMagic => "BadMagic"@,
        DecodeError::UnsupportedVersion { major, minor } => "UnsupportedVersion { major: "@
            + digits::decimal(major as nat) + ", minor: "@ + digits::decimal(minor as nat) + " }"@,
        DecodeError::DuplicateSection => "DuplicateSection"@,
        DecodeError::MissingSection { tag } => "MissingSection { tag: "@ + digits::decimal(tag as nat)
            + " }"@,
    }
}

/// A failure to disassemble.
pub open spec fn disasm_error_text(e: DisasmError) -> Seq<char> {
    match e {
        DisasmError::Decode(e) => "Decode("@ + decode_error_text(e) + ")"@,
        DisasmError::UnknownOpcode { opcode } => "UnknownOpcode { opcode: "@ + digits::decimal(
            opcode as nat,
        ) + " }"@,
    }
}

/// The labels of instructions.
pub open spec fn labels_of(xs: Seq<InstrModel>) -> Seq<u32> {
    choose|v: Seq<u32>| disasm::is_labels(v, xs)
}

/// The head of a function.
pub open spec fn head_text(p: ProgramView, func: FuncId) -> Seq<char> {
    "func f"@ + digits::decimal(func.0 as nat) + ":"@ + name_text(
        disasm::chars_of(p.symbol_opt(program::function_name_in(p.function_names, func.0))),
    ) + "\n"@
}

/// The lines of a function, or why it could not be disassembled.
pub open spec fn body_text(floats: Map<u64, Seq<char>>, p: ProgramView, func: FuncId) -> Seq<char> {
    match disasm::function_code(p, func.0) {
        Err(e) => "  <decode error: "@ + disasm_error_text(e) + ">\n"@,
        Ok(xs) => lines_text(floats, p, func, xs, labels_of(xs), xs.len()),
    }
}

/// A function: its head and its lines.
#[verifier::opaque]
pub open spec fn function_text(floats: Map<u64, Seq<char>>, p: ProgramView, func: FuncId) -> Seq<char> {
    head_text(p, func) + body_text(floats, p, func)
}

/// The first `n` functions, with empty lines between them.
pub open spec fn functions_text(floats: Map<u64, Seq<char>>, p: ProgramView, n: nat) -> Seq<char>
    decreases n,
{
    if n == 0 {
        seq![]
    } else {
        functions_text(floats, p, (n - 1) as nat) + (if n == 1 {
            Seq::empty()
        } else {
            "\n"@
        }) + function_text(floats, p, FuncId(program::clamp32((n - 1) as nat)))
    }
}

/// A program.
pub open spec fn program_text(floats: Map<u64, Seq<char>>, p: ProgramView) -> Seq<char> {
    (match disasm::chars_of(p.symbol_opt(p.program_name)) {
        Some(name) => "; program=\""@ + name + "\"\n\n"@,
        None => Seq::empty(),
    }) + functions_text(floats, p, p.functions.len())
}

// ---------------------------------------------------------------------------------------------
// Writing.
// ---------------------------------------------------------------------------------------------

fn fmt_reg(out: &mut String, r: u32)
    ensures
        final(out)@ == old(out)@ + reg_text(r),
{
    out.append("r");
    push_decimal(out, r as u64);
    assert(out@ =~= old(out)@ + reg_text(r));
}

fn fmt_reg_list(out: &mut String, regs: &[u32])
    ensures
        final(out)@ == old(out)@ + list_text(regs@),
{
    out.append("[");
    let ghost start = out@;
    let mut i: usize = 0;
    assert(out@ =~= start + joined(0, reg_item(regs@)));
    while i < regs.len()
        invariant
            i <= regs.len(),
            out@ == start + joined(i as nat, reg_item(regs@)),
        decreases regs.len() - i,
    {
        if i != 0 {
            out.append(", ");
        }
        fmt_reg(out, regs[i]);
        i = i + 1;
        assert(out@ =~= start + joined(i as nat, reg_item(regs@)));
    }
    out.append("]");
    assert(out@ =~= old(out)@ + list_text(regs@));
}

fn fmt_named_ret_list(out: &mut String, program: &Program, func: FuncId, regs: &[u32])
    ensures
        final(out)@ == old(out)@ + named_text(program@, func.0, regs@),
{
    out.append("[");
    let ghost start = out@;
    let ghost item = named_item(program@, func.0, regs@);
    let mut i: usize = 0;
    assert(out@ =~= start + joined(0, item));
    while i < regs.len()
        invariant
            i <= regs.len(),
            item == named_item(program@, func.0, regs@),
            out@ == start + joined(i as nat, item),
        decreases regs.len() - i,
    {
        let ghost before = out@;
        if i != 0 {
            out.append(", ");
        }
        let ret: u32 = program::clamp_u32(i);
        match program.function_output_name(func.0, ret) {
            Some(name) => {
                proof {
                    encode_utf8_decode_utf8(name@);
                }
                out.append(name);
                out.append("=");
            },
            None => {},
        }
        fmt_reg(out, regs[i]);
        assert(out@ =~= before + (if i == 0 {
            Seq::empty()
        } else {
            ", "@
        }) + item(i as int));
        i = i + 1;
        assert(out@ =~= start + joined(i as nat, item));
    }
    out.append("]");
    assert(out@ =~= old(out)@ + named_text(program@, func.0, regs@));
}

/// Labels, where there are any.
pub open spec fn opt_labels(labels: Option<&Labels>) -> Option<Seq<u32>> {
    match labels {
        Some(l) => Some(l@),
        None => None,
    }
}

fn fmt_label_ref(out: &mut String, pc: u32, labels: Option<&Labels>)
    requires
        labels matches Some(l) ==> disasm::increasing(l@),
    ensures
        final(out)@ == old(out)@ + target_text(pc, opt_labels(labels)),
{
    match labels {
        Some(l) => match l.label_index(pc) {
            Some(ix) => {
                out.append("@L");
                push_decimal(out, ix as u64);
            },
            None => {
                out.append("@");
                push_padded(out, pc as u64, 6);
            },
        },
        None => {
            out.append("@");
            push_padded(out, pc as u64, 6);
        },
    }
    assert(out@ =~= old(out)@ + target_text(pc, opt_labels(labels)));
}

impl InputIndex {
    /// Appends the text of this index.
    pub fn write_to(self, out: &mut String)
        ensures
            final(out)@ == old(out)@ + index_text(self),
    {
        match self {
            InputIndex::TrapCode(code) => {
                out.append("trap_code=");
                push_decimal(out, code as u64);
            },
            InputIndex::Const(id) => {
                out.append("const#");
                push_decimal(out, id.0 as u64);
            },
            InputIndex::HostSig(id) => {
                out.append("host_sig#");
                push_decimal(out, id.0 as u64);
            },
            InputIndex::Func(id) => {
                out.append("func#");
                push_decimal(out, id.0 as u64);
            },
            InputIndex::Type(id) => {
                out.append("type#");
                push_decimal(out, id.0 as u64);
            },
            InputIndex::ElemType(id) => {
                out.append("elem_type#");
                push_decimal(out, id.0 as u64);
            },
            InputIndex::Index(ix) => {
                out.append("index=");
                push_decimal(out, ix as u64);
            },
        }
        assert(out@ =~= old(out)@ + index_text(self));
    }
}

/// Appends character `i` of a string as it stands in a string literal.
fn push_escaped(out: &mut String, s: &str, i: usize)
    requires
        i < s@.len(),
        i < usize::MAX,
    ensures
        final(out)@ == old(out)@ + escaped(s@[i as int]),
{
    let c: char = s.get_char(i);
    if c == '\t' {
        out.append("\\t");
    } else if c == '\r' {
        out.append("\\r");
    } else if c == '\n' {
        out.append("\\n");
    } else if c == '\'' {
        out.append("\\'");
    } else if c == '"' {
        out.append("\\\"");
    } else if c == '\\' {
        out.append("\\\\");
    } else if 0x20 <= c as u32 && c as u32 <= 0x7e {
        out.append(s.substring_char(i, i + 1));
        assert(out@ =~= old(out)@ + seq![c]);
    } else {
        out.append("\\u{");
        push_hex(out, c as u32 as u64);
        out.append("}");
        assert(out@ =~= old(out)@ + escaped(c));
    }
}

/// Appends the first `n` characters of a string as they stand in a string literal.
fn push_escaped_prefix(out: &mut String, s: &str, n: usize)
    requires
        n <= s@.len(),
    ensures
        final(out)@ == old(out)@ + escaped_all(s@.take(n as int)),
{
    let mut i: usize = 0;
    assert(out@ =~= old(out)@ + escaped_all(s@.take(0)));
    while i < n
        invariant
            i <= n <= s@.len(),
            out@ == old(out)@ + escaped_all(s@.take(i as int)),
        decreases n - i,
    {
        push_escaped(out, s, i);
        assert(s@.take(i + 1).drop_last() =~= s@.take(i as int));
        i = i + 1;
        assert(out@ =~= old(out)@ + escaped_all(s@.take(i as int)));
    }
}

/// Appends the first `n` bytes of a byte string in hexadecimal.
fn push_bytes(out: &mut String, b: &[u8], n: usize)
    requires
        n <= b@.len(),
    ensures
        final(out)@ == old(out)@ + bytes_text(b@.take(n as int)),
{
    let mut i: usize = 0;
    assert(out@ =~= old(out)@ + bytes_text(b@.take(0)));
    while i < n
        invariant
            i <= n <= b@.len(),
            out@ == old(out)@ + bytes_text(b@.take(i as int)),
        decreases n - i,
    {
        push_hex_wide(out, b[i] as u64, 2);
        assert(b@.take(i + 1).drop_last() =~= b@.take(i as int));
        i = i + 1;
        assert(out@ =~= old(out)@ + bytes_text(b@.take(i as int)));
    }
}

fn fmt_const_value(out: &mut String, floats: &FloatTable, v: ConstValue<'_>)
    requires
        v@ matches ConstValueModel::F64Bits(bits) ==> floats@.contains_key(bits),
    ensures
        final(out)@ == old(out)@ + const_text(floats@, v@),
{
    match v {
        ConstValue::Unit => out.append("()"),
        ConstValue::Bool(b) => if b {
            out.append("true")
        } else {
            out.append("false")
        },
        ConstValue::I64(i) => push_signed(out, i),
        ConstValue::U64(u) => push_decimal(out, u),
        ConstValue::F64Bits(bits) => {
            floats.show(out, bits);
            out.append(" (bits=0x");
            push_hex_wide(out, bits, 16);
            out.append(")");
        },
        ConstValue::Decimal { mantissa, scale } => {
            out.append("dec(mantissa=");
            push_signed(out, mantissa);
            out.append(", scale=");
            push_decimal(out, scale as u64);
            out.append(")");
        },
        ConstValue::Bytes(b) => {
            out.append("bytes[len=");
            push_decimal(out, b.len() as u64);
            out.append("] 0x");
            if b.len() > 32 {
                push_bytes(out, b, 32);
                out.append("…");
            } else {
                push_bytes(out, b, b.len());
                assert(b@.take(b@.len() as int) =~= b@);
            }
        },
        ConstValue::Str(s) => {
            out.append("str[len=");
            push_decimal(out, s.as_bytes().len() as u64);
            out.append("] \"");
            let n: usize = s.unicode_len();
            if n > 64 {
                push_escaped_prefix(out, s, 64);
                out.append("…");
            } else {
                push_escaped_prefix(out, s, n);
                assert(s@.take(s@.len() as int) =~= s@);
            }
            out.append("\"");
        },
    }
    assert(out@ =~= old(out)@ + const_text(floats@, v@));
}

/// The remaining registers.
fn collect_regs(regs: disasm::RegIter<'_>) -> (v: Vec<u32>)
    requires
        regs.wf(),
    ensures
        v@ == regs@,
{
    let ghost all = regs@;
    let mut it = regs;
    let mut v: Vec<u32> = Vec::new();
    loop
        invariant
            it.wf(),
            v@ + it@ == all,
            all == regs@,
        decreases it@.len(),
    {
        let ghost before = it@;
        match it.next() {
            Some(r) => {
                let ghost old_v = v@;
                v.push(r);
                assert(v@ + it@ =~= old_v + before);
            },
            None => {
                assert(v@ =~= all);
                return v;
            },
        }
    }
}

fn fmt_dst(out: &mut String, iv: &InstrView<'_>)
    requires
        iv.wf(),
    ensures
        final(out)@ == old(out)@ + dst_part(iv.model()),
{
    match iv.dst() {
        Some(dst) => {
            out.append(" ");
            fmt_reg(out, dst);
        },
        None => {},
    }
    assert(out@ =~= old(out)@ + dst_part(iv.model()));
}

fn fmt_reads(out: &mut String, iv: &InstrView<'_>)
    requires
        iv.wf(),
    ensures
        final(out)@ == old(out)@ + reads_part(iv.model()),
{
    let reads = collect_regs(iv.reads());
    if reads.len() > 0 {
        out.append(", ");
        fmt_reg_list(out, reads.as_slice());
    }
    assert(out@ =~= old(out)@ + reads_part(iv.model()));
}

fn fmt_index(out: &mut String, iv: &InstrView<'_>)
    requires
        iv.wf(),
    ensures
        final(out)@ == old(out)@ + index_part(iv.model()),
{
    match iv.input_index() {
        Some(ix) => {
            match iv.opcode() {
                Opcode::ConstPool => out.append(", "),
                _ => out.append(" ; "),
            }
            ix.write_to(out);
        },
        None => {},
    }
    assert(out@ =~= old(out)@ + index_part(iv.model()));
}

fn fmt_const(out: &mut String, floats: &FloatTable, iv: &InstrView<'_>)
    requires
        iv.wf(),
        written(floats@, iv.prog(), iv.model()),
    ensures
        final(out)@ == old(out)@ + const_part(floats@, iv.prog(), iv.model()),
{
    match iv.const_value() {
        Some(v) => {
            out.append(" ; ");
            assert(v@ matches ConstValueModel::F64Bits(bits) ==> loads(
                iv.prog(),
                iv.model(),
                bits,
            ));
            fmt_const_value(out, floats, v);
        },
        None => {},
    }
    assert(out@ =~= old(out)@ + const_part(floats@, iv.prog(), iv.model()));
}

/// The registers and the immediate of an instruction as text.
fn simple_string(floats: &FloatTable, iv: &InstrView<'_>) -> (s: String)
    requires
        iv.wf(),
        written(floats@, iv.prog(), iv.model()),
    ensures
        s@ == simple_text(floats@, iv.prog(), iv.model()),
{
    let mut s = String::new();
    fmt_dst(&mut s, iv);
    assert(s@ =~= dst_part(iv.model()));
    fmt_reads(&mut s, iv);
    fmt_index(&mut s, iv);
    fmt_const(&mut s, floats, iv);
    s
}

/// Appends the symbol of a host signature behind its number.
fn fmt_symbol(out: &mut String, sym: Option<&str>)
    ensures
        final(out)@ == old(out)@ + symbol_text(disasm::opt_text(sym)),
{
    match sym {
        Some(s) => {
            out.append("(\"");
            out.append(s);
            out.append("\")");
        },
        None => {},
    }
    assert(out@ =~= old(out)@ + symbol_text(disasm::opt_text(sym)));
}

/// The operands of a call as text.
fn call_string(program: &Program, call: CallOperands<'_>) -> (s: String)
    ensures
        s@ == call_text(program@, Operands::Call(call)@),
{
    let mut s = String::new();
    s.append(" eff_out=");
    assert(s@ =~= " eff_out="@);
    fmt_reg(&mut s, call.eff_out);
    s.append(", ");
    match call.callee {
        CallTarget::Func(id) => {
            s.append("f");
            push_decimal(&mut s, id.0 as u64);
        },
        CallTarget::HostSig(id, sym) => {
            s.append("host_sig#");
            push_decimal(&mut s, id.0 as u64);
            fmt_symbol(&mut s, sym);
        },
    }
    s.append(", eff_in=");
    fmt_reg(&mut s, call.eff_in);
    s.append(", args=");
    fmt_reg_list(&mut s, call.args);
    s.append(", rets=");
    match call.callee {
        CallTarget::Func(id) => fmt_named_ret_list(&mut s, program, id, call.rets),
        CallTarget::HostSig(_, _) => fmt_reg_list(&mut s, call.rets),
    }
    s
}

/// The operands of an instruction as text.
fn operands_string(floats: &FloatTable, iv: &InstrView<'_>, labels: Option<&Labels>) -> (s:
    String)
    requires
        iv.wf(),
        written(floats@, iv.prog(), iv.model()),
        labels matches Some(l) ==> disasm::increasing(l@),
    ensures
        s@ == operands_text(floats@, iv.prog(), iv.id(), iv.model(), opt_labels(labels)),
{
    let mut s = String::new();
    match iv.operands() {
        Operands::Simple => {
            s = simple_string(floats, iv);
        },
        Operands::Br { cond, pc_true, pc_false } => {
            s.append(" ");
            assert(s@ =~= " "@);
            fmt_reg(&mut s, cond);
            s.append(", ");
            fmt_label_ref(&mut s, pc_true, labels);
            s.append(", ");
            fmt_label_ref(&mut s, pc_false, labels);
        },
        Operands::Jmp { pc_target } => {
            s.append(" ");
            assert(s@ =~= " "@);
            fmt_label_ref(&mut s, pc_target, labels);
        },
        Operands::Call(call) => {
            s = call_string(iv.program(), call);
        },
        Operands::Ret { eff, rets } => {
            s.append(" eff=");
            assert(s@ =~= " eff="@);
            fmt_reg(&mut s, eff);
            s.append(", rets=");
            fmt_named_ret_list(&mut s, iv.program(), iv.func(), rets);
        },
    }
    s
}

/// Appends an instruction, with labels for the targets of branches where there are any.
fn fmt_instr_with_labels(
    out: &mut String,
    floats: &FloatTable,
    iv: &InstrView<'_>,
    labels: Option<&Labels>,
)
    requires
        iv.wf(),
        written(floats@, iv.prog(), iv.model()),
        labels matches Some(l) ==> disasm::increasing(l@),
    ensures
        final(out)@ == old(out)@ + instr_text(
            floats@,
            iv.prog(),
            iv.id(),
            iv.model(),
            opt_labels(labels),
        ),
{
    let rest = operands_string(floats, iv, labels);
    push_padded(out, iv.pc() as u64, 6);
    out.append(": ");
    out.append(iv.opcode().mnemonic());
    out.append(rest.as_str());
    assert(out@ =~= old(out)@ + (digits::padded(iv.model().offset as nat, 6) + ": "@
        + opcode::opcode_name(iv.model().op) + rest@));
}

impl<'a> InstrView<'a> {
    /// This instruction as text.
    pub fn text<W: FloatWriter>(&self, floats: &mut FloatTexts<W>) -> (s: String)
        requires
            self.wf(),
        ensures
            learned(*old(floats), *final(floats)),
            old(floats)@.submap_of(final(floats)@),
            written(final(floats)@, self.prog(), self.model()),
            forall|bits: u64| #[trigger]
                final(floats)@.contains_key(bits) ==> old(floats)@.contains_key(bits) || loads(
                    self.prog(),
                    self.model(),
                    bits,
                ),
            s@ == instr_text(final(floats)@, self.prog(), self.id(), self.model(), None),
    {
        learn_instr(floats, self);
        let mut s = String::new();
        fmt_instr_with_labels(&mut s, &floats.table, self, None);
        assert(s@ =~= instr_text(floats@, self.prog(), self.id(), self.model(), None));
        s
    }
}

proof fn lemma_submap(a: Map<u64, Seq<char>>, b: Map<u64, Seq<char>>, c: Map<u64, Seq<char>>)
    requires
        a.submap_of(b),
        b.submap_of(c),
    ensures
        a.submap_of(c),
{
    assert forall|k: u64| #[trigger] a.dom().contains(k) implies c.dom().contains(k) && a[k]
        == c[k] by {
        assert(a.submap_of(b));
        assert(b.dom().contains(k));
        assert(a[k] == b[k]);
        assert(c.dom().contains(k));
    }
}

/// Has the writer give the text of the float that an instruction loads, if it loads one.
fn learn_instr<W: FloatWriter>(floats: &mut FloatTexts<W>, iv: &InstrView<'_>)
    requires
        iv.wf(),
    ensures
        learned(*old(floats), *final(floats)),
        old(floats)@.submap_of(final(floats)@),
        written(final(floats)@, iv.prog(), iv.model()),
        forall|bits: u64| #[trigger]
            final(floats)@.contains_key(bits) ==> old(floats)@.contains_key(bits) || loads(
                iv.prog(),
                iv.model(),
                bits,
            ),
{
    proof {
        lemma_learned_none(*floats);
    }
    match iv.const_value() {
        Some(ConstValue::F64Bits(bits)) => {
            assert(loads(iv.prog(), iv.model(), bits));
            floats.learn(bits);
        },
        _ => {},
    }
}

/// Has the writer give the texts of the floats that a function loads.
fn learn_function<W: FloatWriter>(floats: &mut FloatTexts<W>, fd: &FunctionDisassembly<'_>)
    requires
        fd.wf(),
        disasm::function_code(fd.prog(), fd.id().0) is Ok,
    ensures
        learned(*old(floats), *final(floats)),
        old(floats)@.submap_of(final(floats)@),
        written_in(final(floats)@, fd.prog(), fd.id().0),
        forall|bits: u64| #[trigger]
            final(floats)@.contains_key(bits) ==> old(floats)@.contains_key(bits) || loads_in(
                fd.prog(),
                fd.id().0,
                bits,
            ),
{
    let ghost p = fd.prog();
    let ghost func = fd.id().0;
    let ghost xs = disasm::function_code(p, func)->Ok_0;
    let instrs = fd.instrs();
    let mut i: usize = 0;
    proof {
        lemma_learned_none(*floats);
    }
    while i < instrs.len()
        invariant
            i <= instrs@.len(),
            disasm::function_code(p, func) == Ok::<Seq<InstrModel>, DisasmError>(xs),
            instrs@.map_values(|v: InstrView<'_>| v.model()) == xs,
            forall|k: int|
                0 <= k < instrs@.len() ==> {
                    &&& (#[trigger] instrs@[k]).wf()
                    &&& instrs@[k].prog() == p
                },
            learned(*old(floats), *floats),
            old(floats)@.submap_of(floats@),
            forall|k: int| 0 <= k < i ==> written(floats@, p, #[trigger] xs[k]),
            forall|bits: u64| #[trigger]
                floats@.contains_key(bits) ==> old(floats)@.contains_key(bits) || loads_in(
                    p,
                    func,
                    bits,
                ),
        decreases instrs.len() - i,
    {
        let ghost before = floats@;
        let ghost earlier = *floats;
        assert(xs[i as int] == instrs@[i as int].model());
        learn_instr(floats, &instrs[i]);
        assert forall|k: int| 0 <= k < i implies written(floats@, p, #[trigger] xs[k]) by {
            assert(written(before, p, xs[k]));
        }
        proof {
            lemma_submap(old(floats)@, before, floats@);
            lemma_learned_both(*old(floats), earlier, *floats);
        }
        assert forall|bits: u64| #[trigger]
            floats@.contains_key(bits) implies old(floats)@.contains_key(bits) || loads_in(
            p,
            func,
            bits,
        ) by {
            if !before.contains_key(bits) {
                let ys = disasm::function_code(p, func)->Ok_0;
                assert(loads(p, ys[i as int], bits));
            }
        }
        i = i + 1;
    }
}

/// Appends a name behind what it names.
fn fmt_name(out: &mut String, name: Option<&str>, Ghost(b): Ghost<Option<Seq<u8>>>)
    requires
        program::is_opt_text(name, b),
    ensures
        final(out)@ == old(out)@ + name_text(disasm::chars_of(b)),
{
    match name {
        Some(name) => {
            proof {
                encode_utf8_decode_utf8(name@);
            }
            out.append(" ; name=\"");
            out.append(name);
            out.append("\"");
        },
        None => {},
    }
    assert(out@ =~= old(out)@ + name_text(disasm::chars_of(b)));
}

/// Appends a line of a function.
fn fmt_line(out: &mut String, floats: &FloatTable, iv: &InstrView<'_>, labels: &Labels)
    requires
        iv.wf(),
        written(floats@, iv.prog(), iv.model()),
        disasm::increasing(labels@),
    ensures
        final(out)@ == old(out)@ + line_text(floats@, iv.prog(), iv.id(), iv.model(), labels@),
{
    let ghost x = iv.model();
    let pc: u32 = iv.pc();
    match labels.label_index(pc) {
        Some(ix) => {
            out.append("  @L");
            push_decimal(out, ix as u64);
            out.append(":");
            let p: &Program = iv.program();
            fmt_name(
                out,
                p.label_name(iv.func().0, pc),
                Ghost(p@.symbol_opt(program::label_name_in(p@.labels, iv.id().0, pc))),
            );
            out.append("\n");
        },
        None => {},
    }
    out.append("  ");
    fmt_instr_with_labels(out, floats, iv, Some(labels));
    out.append("\n");
    assert(out@ =~= old(out)@ + line_text(floats@, iv.prog(), iv.id(), x, labels@));
}

pub(crate) fn push_decode_error(out: &mut String, e: DecodeError)
    ensures
        final(out)@ == old(out)@ + decode_error_text(e),
{
    match e {
        DecodeError::UnexpectedEof => out.append("UnexpectedEof"),
        DecodeError::InvalidVarint => out.append("InvalidVarint"),
        DecodeError::OutOfBounds => out.append("OutOfBounds"),
        DecodeError::InvalidUtf8 => out.append("InvalidUtf8"),
        DecodeError::BadMagic => out.append("BadMagic"),
        DecodeError::UnsupportedVersion { major, minor } => {
            out.append("UnsupportedVersion { major: ");
            push_decimal(out, major as u64);
            out.append(", minor: ");
            push_decimal(out, minor as u64);
            out.append(" }");
        },
        DecodeError::DuplicateSection => out.append("DuplicateSection"),
        DecodeError::MissingSection { tag } => {
            out.append("MissingSection { tag: ");
            push_decimal(out, tag as u64);
            out.append(" }");
        },
    }
    assert(out@ =~= old(out)@ + decode_error_text(e));
}

fn fmt_disasm_error(out: &mut String, e: &DisasmError)
    ensures
        final(out)@ == old(out)@ + disasm_error_text(*e),
{
    match e {
        DisasmError::Decode(e) => {
            out.append("Decode(");
            push_decode_error(out, *e);
            out.append(")");
        },
        DisasmError::UnknownOpcode { opcode } => {
            out.append("UnknownOpcode { opcode: ");
            push_decimal(out, *opcode as u64);
            out.append(" }");
        },
    }
    assert(out@ =~= old(out)@ + disasm_error_text(*e));
}

/// The head of a function as text.
fn head_string(fd: &FunctionDisassembly<'_>) -> (s: String)
    requires
        fd.wf(),
    ensures
        s@ == head_text(fd.prog(), fd.id()),
{
    let ghost p = fd.prog();
    let mut s = String::new();
    s.append("func f");
    assert(s@ =~= "func f"@);
    push_decimal(&mut s, fd.func().0 as u64);
    s.append(":");
    fmt_name(
        &mut s,
        fd.program().function_name(fd.func().0),
        Ghost(p.symbol_opt(program::function_name_in(p.function_names, fd.id().0))),
    );
    s.append("\n");
    s
}

/// The instructions of a function that is disassembled.
pub open spec fn view_models(v: Seq<InstrView<'_>>) -> Seq<InstrModel> {
    v.map_values(|v: InstrView<'_>| v.model())
}

/// What is written in a function is written in each of its instructions.
proof fn lemma_written(
    floats: Map<u64, Seq<char>>,
    p: ProgramView,
    func: u32,
    xs: Seq<InstrModel>,
    k: int,
)
    requires
        disasm::function_code(p, func) == Ok::<Seq<InstrModel>, DisasmError>(xs),
        written_in(floats, p, func),
        0 <= k < xs.len(),
    ensures
        written(floats, p, xs[k]),
{
    assert forall|bits: u64| #[trigger] loads(p, xs[k], bits) implies floats.contains_key(bits) by {
        let ys = disasm::function_code(p, func)->Ok_0;
        assert(loads(p, ys[k], bits));
        assert(loads_in(p, func, bits));
    }
}

/// Lines of instructions as text.
#[verifier::spinoff_prover]
fn instrs_string(
    floats: &FloatTable,
    fd: &FunctionDisassembly<'_>,
    instrs: &Vec<InstrView<'_>>,
    labels: &Labels,
) -> (s: String)
    requires
        forall|k: int|
            0 <= k < instrs@.len() ==> {
                &&& (#[trigger] instrs@[k]).wf()
                &&& instrs@[k].prog() == fd.prog()
                &&& instrs@[k].id() == fd.id()
                &&& written(floats@, fd.prog(), instrs@[k].model())
            },
        disasm::increasing(labels@),
    ensures
        s@ == lines_text(
            floats@,
            fd.prog(),
            fd.id(),
            view_models(instrs@),
            labels@,
            instrs@.len(),
        ),
{
    let ghost p = fd.prog();
    let ghost func = fd.id();
    let ghost xs = view_models(instrs@);
    let mut s = String::new();
    let mut i: usize = 0;
    assert(s@ =~= lines_text(floats@, p, func, xs, labels@, 0));
    while i < instrs.len()
        invariant
            i <= instrs@.len(),
            xs == view_models(instrs@),
            p == fd.prog(),
            func == fd.id(),
            forall|k: int|
                0 <= k < instrs@.len() ==> {
                    &&& (#[trigger] instrs@[k]).wf()
                    &&& instrs@[k].prog() == p
                    &&& instrs@[k].id() == func
                    &&& written(floats@, p, instrs@[k].model())
                },
            disasm::increasing(labels@),
            s@ == lines_text(floats@, p, func, xs, labels@, i as nat),
        decreases instrs.len() - i,
    {
        assert(xs[i as int] == instrs@[i as int].model());
        fmt_line(&mut s, floats, &instrs[i], labels);
        i = i + 1;
    }
    s
}

/// The lines of a function as text.
#[verifier::spinoff_prover]
fn lines_string(floats: &FloatTable, fd: &FunctionDisassembly<'_>) -> (s: String)
    requires
        fd.wf(),
        disasm::function_code(fd.prog(), fd.id().0) is Ok,
        written_in(floats@, fd.prog(), fd.id().0),
    ensures
        s@ == body_text(floats@, fd.prog(), fd.id()),
{
    let labels = fd.labels();
    let instrs = fd.instrs();
    proof {
        let xs = disasm::function_code(fd.prog(), fd.id().0)->Ok_0;
        assert(disasm::is_labels(labels@, xs));
        disasm::law_labels_unique(labels@, labels_of(xs), xs);
        assert(view_models(instrs@) == xs);
        assert forall|k: int| 0 <= k < instrs@.len() implies written(
            floats@,
            fd.prog(),
            (#[trigger] instrs@[k]).model(),
        ) by {
            assert(xs[k] == instrs@[k].model());
            lemma_written(floats@, fd.prog(), fd.id().0, xs, k);
        }
    }
    instrs_string(floats, fd, &instrs, &labels)
}

fn fmt_function(out: &mut String, floats: &FloatTable, fd: &FunctionDisassembly<'_>)
    requires
        fd.wf(),
        written_in(floats@, fd.prog(), fd.id().0),
    ensures
        final(out)@ == old(out)@ + function_text(floats@, fd.prog(), fd.id()),
{
    let head = head_string(fd);
    let body = match fd.error() {
        Some(e) => {
            let mut s = String::new();
            s.append("  <decode error: ");
            assert(s@ =~= "  <decode error: "@);
            fmt_disasm_error(&mut s, e);
            s.append(">\n");
            s
        },
        None => lines_string(floats, fd),
    };
    out.append(head.as_str());
    out.append(body.as_str());
    proof {
        reveal(function_text);
        assert(out@ =~= old(out)@ + (head@ + body@));
    }
}

impl<'a> Disassembly<'a> {
    /// The program as text. The writer of floats is asked for those that the program loads, unless it
    /// gave their texts before.
    pub fn text<W: FloatWriter>(&self, floats: &mut FloatTexts<W>) -> (s: String)
        requires
            self.wf(),
        ensures
            learned(*old(floats), *final(floats)),
            old(floats)@.submap_of(final(floats)@),
            forall|f: int|
                0 <= f < self.program@.functions.len() ==> written_in(
                    final(floats)@,
                    self.program@,
                    #[trigger] program::clamp32(f as nat),
                ),
            forall|bits: u64| #[trigger]
                final(floats)@.contains_key(bits) ==> old(floats)@.contains_key(bits)
                    || loaded_among(self.program@, self.program@.functions.len(), bits),
            s@ == program_text(final(floats)@, self.program@),
    {
        let ghost p = self.program@;
        learn_functions(floats, self);
        let mut s = String::new();
        match self.program.name() {
            Some(name) => {
                proof {
                    encode_utf8_decode_utf8(name@);
                }
                s.append("; program=\"");
                s.append(name);
                s.append("\"\n\n");
            },
            None => {},
        }
        let rest = functions_string(&floats.table, self);
        s.append(rest.as_str());
        assert(s@ =~= program_text(floats@, p));
        s
    }
}

/// Whether one of the first `n` functions loads the float with the given bits.
pub open spec fn loaded_among(p: ProgramView, n: nat, bits: u64) -> bool {
    exists|f: int| 0 <= f < n && loads_in(p, #[trigger] program::clamp32(f as nat), bits)
}

/// Has the writer give the texts of the floats that the functions of a disassembly load.
fn learn_functions<W: FloatWriter>(floats: &mut FloatTexts<W>, d: &Disassembly<'_>)
    requires
        d.wf(),
    ensures
        learned(*old(floats), *final(floats)),
        old(floats)@.submap_of(final(floats)@),
        forall|f: int|
            0 <= f < d.program@.functions.len() ==> written_in(
                final(floats)@,
                d.program@,
                #[trigger] program::clamp32(f as nat),
            ),
        forall|bits: u64| #[trigger]
            final(floats)@.contains_key(bits) ==> old(floats)@.contains_key(bits) || loaded_among(
                d.program@,
                d.program@.functions.len(),
                bits,
            ),
{
    let ghost p = d.program@;
    let mut i: usize = 0;
    proof {
        lemma_learned_none(*floats);
    }
    while i < d.functions.len()
        invariant
            i <= d.functions@.len(),
            d.wf(),
            p == d.program@,
            learned(*old(floats), *floats),
            old(floats)@.submap_of(floats@),
            forall|f: int|
                0 <= f < i ==> written_in(floats@, p, #[trigger] program::clamp32(f as nat)),
            forall|bits: u64| #[trigger]
                floats@.contains_key(bits) ==> old(floats)@.contains_key(bits) || loaded_among(
                    p,
                    p.functions.len(),
                    bits,
                ),
        decreases d.functions.len() - i,
    {
        let ghost before = floats@;
        let ghost earlier = *floats;
        let fd = &d.functions[i];
        let ghost func = program::clamp32(i as nat);
        assert(fd.id() == FuncId(func));
        proof {
            lemma_learned_none(*floats);
        }
        if fd.error().is_none() {
            learn_function(floats, fd);
        }
        assert forall|f: int| 0 <= f <= i implies written_in(
            floats@,
            p,
            #[trigger] program::clamp32(f as nat),
        ) by {
            if f < i {
                assert(written_in(before, p, program::clamp32(f as nat)));
            }
        }
        proof {
            lemma_submap(old(floats)@, before, floats@);
            lemma_learned_both(*old(floats), earlier, *floats);
        }
        assert forall|bits: u64| #[trigger]
            floats@.contains_key(bits) implies old(floats)@.contains_key(bits) || loaded_among(
            p,
            p.functions.len(),
            bits,
        ) by {
            if !before.contains_key(bits) {
                assert(loads_in(p, program::clamp32(i as nat), bits));
            }
        }
        i = i + 1;
    }
}

/// The functions of a disassembly as text.
fn functions_string(floats: &FloatTable, d: &Disassembly<'_>) -> (s: String)
    requires
        d.wf(),
        forall|f: int|
            0 <= f < d.program@.functions.len() ==> written_in(
                floats@,
                d.program@,
                #[trigger] program::clamp32(f as nat),
            ),
    ensures
        s@ == functions_text(floats@, d.program@, d.program@.functions.len()),
{
    let mut s = String::new();
    let mut i: usize = 0;
    while i < d.functions.len()
        invariant
            i <= d.functions@.len(),
            forall|f: int|
                0 <= f < d.program@.functions.len() ==> written_in(
                    floats@,
                    d.program@,
                    #[trigger] program::clamp32(f as nat),
                ),
            d.wf(),
            s@ == functions_text(floats@, d.program@, i as nat),
        decreases d.functions.len() - i,
    {
        let ghost before = s@;
        if i != 0 {
            s.append("\n");
        }
        assert(s@ =~= before + (if i == 0 {
            Seq::empty()
        } else {
            "\n"@
        }));
        assert(d.functions@[i as int].id() == FuncId(program::clamp32(i as nat)));
        fmt_function(&mut s, floats, &d.functions[i]);
        i = i + 1;
    }
    s
}

} // verus!
