//! Bytecode builder.
//!
//! [`Asm`] builds the instruction stream of a function: labels stand for code positions until the
//! stream is finished. [`crate::builder::ProgramBuilder`] puts functions together to a program.

use vstd::prelude::*;
use vstd::string::*;

use crate::bytecode;
use crate::bytecode::{write_list, write_wide, OperandModel};
use crate::opcode;
use crate::opcode::Opcode;
use crate::program;
use crate::program::{clamp_u32, ConstId, ElemTypeId, HostSigId, SpanEntry, TypeId};
use crate::value::{Decimal, FuncId};
use crate::wire;
use crate::wire::{write_sleb128_i64, write_uleb128_u64, Writer};

verus! {

/// A label: a code position that is fixed when the label is placed.
#[derive(Copy, Clone, Debug, PartialEq, Eq, Hash, Structural)]
pub struct Label(u32);

impl Label {
    /// The number of the label in its assembler.
    pub closed spec fn index(self) -> int {
        self.0 as int
    }
}

/// A label that has not been placed.
#[derive(Copy, Clone, Debug, PartialEq, Eq, Structural)]
pub struct UnresolvedLabel;

impl UnresolvedLabel {
    /// What is said of this failure.
    pub fn message(self) -> (s: &'static str)
        ensures
            s@ == "label was referenced but never placed"@,
    {
        "label was referenced but never placed"
    }
}

/// A finished function body.
#[derive(Clone, Debug, PartialEq, Eq)]
pub struct AsmParts {
    /// The instruction stream.
    pub bytecode: Vec<u8>,
    /// The span table, as `(pc_delta, span_id)` entries.
    pub spans: Vec<SpanEntry>,
    /// The named labels of the function.
    pub labels: Vec<NamedLabel>,
}

/// A named label of a function.
#[derive(Clone, Debug, PartialEq, Eq)]
pub struct NamedLabel {
    /// Code position (byte offset within the function).
    pub pc: u32,
    /// Name of the label.
    pub name: String,
}

/// An instruction whose code positions are still labels: they follow the other operands.
#[verifier::ext_equal]
pub struct AsmInstr {
    pub op: Opcode,
    pub operands: Seq<OperandModel>,
    pub targets: Seq<Label>,
}

/// A label with its position and its name, as far as it has them.
pub struct LabelModel {
    pub pc: Option<u32>,
    pub name: Option<Seq<char>>,
}

/// What an assembler holds.
#[verifier::ext_equal]
pub struct AsmView {
    /// The instructions.
    pub instrs: Seq<AsmInstr>,
    /// The labels.
    pub labels: Seq<LabelModel>,
    /// The span marks, as `(pc, span_id)`.
    pub marks: Seq<(u32, u64)>,
}

/// An instruction, with the positions of its labels given by `place`.
pub open spec fn resolve(x: AsmInstr, place: spec_fn(Label) -> u32) -> (Opcode, Seq<OperandModel>) {
    (x.op, x.operands + Seq::new(x.targets.len(), |i: int| OperandModel::Word(place(x.targets[i]))))
}

/// Instructions, with the positions of their labels given by `place`.
pub open spec fn resolve_all(xs: Seq<AsmInstr>, place: spec_fn(Label) -> u32) -> Seq<
    (Opcode, Seq<OperandModel>),
> {
    Seq::new(xs.len(), |i: int| resolve(xs[i], place))
}

/// The bytes of instructions, with the positions of their labels given by `place`.
pub open spec fn code(xs: Seq<AsmInstr>, place: spec_fn(Label) -> u32) -> Seq<u8> {
    bytecode::code_bytes(resolve_all(xs, place))
}

/// Whether the operands of an instruction are as its opcode asks for.
pub open spec fn well_typed(x: AsmInstr) -> bool {
    bytecode::fit_roles(opcode::opcode_roles(x.op), resolve(x, |l: Label| 0u32).1)
}

/// The labels that instructions refer to, in order.
pub open spec fn all_targets(xs: Seq<AsmInstr>) -> Seq<Label>
    decreases xs.len(),
{
    if xs.len() == 0 {
        seq![]
    } else {
        all_targets(xs.drop_last()) + xs.last().targets
    }
}

/// The first `n` labels that have a name, with their positions.
pub open spec fn named(labels: Seq<LabelModel>, n: nat) -> Seq<(u32, Seq<char>)>
    decreases n,
{
    if n == 0 {
        seq![]
    } else {
        let before = named(labels, (n - 1) as nat);
        match labels[n - 1].name {
            Some(name) => before.push((labels[n - 1].pc.unwrap(), name)),
            None => before,
        }
    }
}

/// Named labels, as positions and names.
pub open spec fn label_models(v: Seq<NamedLabel>) -> Seq<(u32, Seq<char>)> {
    v.map_values(|l: NamedLabel| (l.pc, l.name@))
}

impl AsmView {
    /// An assembler with nothing in it.
    pub open spec fn empty() -> Self {
        AsmView { instrs: seq![], labels: seq![], marks: seq![] }
    }

    /// Whether a label has been placed.
    pub open spec fn placed(self, l: Label) -> bool {
        0 <= l.index() < self.labels.len() && self.labels[l.index()].pc is Some
    }

    /// The position of a label that has been placed.
    pub open spec fn position(self, l: Label) -> u32 {
        if self.placed(l) {
            self.labels[l.index()].pc.unwrap()
        } else {
            0
        }
    }

    /// The number of bytes so far. It is the same wherever the labels are placed.
    pub open spec fn len(self) -> nat {
        code(self.instrs, |l: Label| 0u32).len()
    }

    /// The current code position.
    pub open spec fn pc(self) -> u32 {
        program::clamp32(self.len())
    }

    /// With one more instruction.
    pub open spec fn emit_to(self, op: Opcode, operands: Seq<OperandModel>, targets: Seq<Label>) -> Self {
        AsmView { instrs: self.instrs.push(AsmInstr { op, operands, targets }), ..self }
    }

    /// With one more instruction, which refers to no label.
    pub open spec fn emit(self, op: Opcode, operands: Seq<OperandModel>) -> Self {
        self.emit_to(op, operands, seq![])
    }

    /// With one more label.
    pub open spec fn with_label(self) -> Self {
        AsmView { labels: self.labels.push(LabelModel { pc: None, name: None }), ..self }
    }

    /// With a label named.
    pub open spec fn with_name(self, l: Label, name: Seq<char>) -> Self {
        AsmView {
            labels: self.labels.update(
                l.index(),
                LabelModel { name: Some(name), ..self.labels[l.index()] },
            ),
            ..self
        }
    }

    /// With a label placed at the current position.
    pub open spec fn with_place(self, l: Label) -> Self {
        AsmView {
            labels: self.labels.update(
                l.index(),
                LabelModel { pc: Some(self.pc()), ..self.labels[l.index()] },
            ),
            ..self
        }
    }

    /// With a span mark at the current position, which replaces one at the same position.
    pub open spec fn with_span(self, span_id: u64) -> Self {
        if self.marks.len() > 0 && self.marks.last().0 == self.pc() {
            AsmView { marks: self.marks.drop_last().push((self.pc(), span_id)), ..self }
        } else {
            AsmView { marks: self.marks.push((self.pc(), span_id)), ..self }
        }
    }

    /// Every label that an instruction refers to, or that has a name, has been placed.
    pub open spec fn complete(self) -> bool {
        &&& forall|k: int|
            0 <= k < all_targets(self.instrs).len() ==> self.placed(
                #[trigger] all_targets(self.instrs)[k],
            )
        &&& forall|k: int|
            0 <= k < self.labels.len() && (#[trigger] self.labels[k]).name is Some
                ==> self.labels[k].pc is Some
    }

    /// The finished instruction stream: each label stands for its position.
    pub open spec fn assembled(self) -> Seq<u8> {
        code(self.instrs, |l: Label| self.position(l))
    }

    /// The finished span table: each entry says how far its mark is behind the one before it.
    pub open spec fn span_table(self) -> Seq<SpanEntry> {
        Seq::new(
            self.marks.len(),
            |i: int|
                SpanEntry {
                    pc_delta: (if i == 0 {
                        self.marks[0].0 as int
                    } else {
                        self.marks[i].0 - self.marks[i - 1].0
                    }) as u64,
                    span_id: self.marks[i].1,
                },
        )
    }

    /// The named labels with their positions.
    pub open spec fn named_labels(self) -> Seq<(u32, Seq<char>)> {
        named(self.labels, self.labels.len())
    }
}

/// A place in the stream that gets the position of a label.
#[derive(Copy, Clone, Debug)]
struct Fixup {
    at: usize,
    label: Label,
}

#[derive(Clone, Debug)]
struct LabelSlot {
    pc: Option<u32>,
    name: Option<String>,
}

spec fn label_model(l: LabelSlot) -> LabelModel {
    LabelModel {
        pc: l.pc,
        name: match l.name {
            Some(s) => Some(s@),
            None => None,
        },
    }
}

/// Bytecode builder.
#[derive(Clone)]
pub struct Asm {
    bytes: Vec<u8>,
    labels: Vec<LabelSlot>,
    fixups: Vec<Fixup>,
    span_marks: Vec<(u32, u64)>,
    instrs: Ghost<Seq<AsmInstr>>,
}

impl View for Asm {
    type V = AsmView;

    closed spec fn view(&self) -> AsmView {
        AsmView {
            instrs: self.instrs@,
            labels: self.labels@.map_values(|l: LabelSlot| label_model(l)),
            marks: self.span_marks@,
        }
    }
}

/// Whether position `p` gets a part of a label's position.
spec fn covered(fixups: Seq<Fixup>, p: int) -> bool {
    exists|j: int| 0 <= j < fixups.len() && (#[trigger] fixups[j]).at <= p < fixups[j].at + 5
}

/// `c` is `bytes` but for the places of the labels, where the positions given by `place` stand.
spec fn agrees(bytes: Seq<u8>, fixups: Seq<Fixup>, c: Seq<u8>, place: spec_fn(Label) -> u32) -> bool {
    &&& c.len() == bytes.len()
    &&& forall|p: int| 0 <= p < bytes.len() && !covered(fixups, p) ==> c[p] == bytes[p]
    &&& forall|j: int|
        0 <= j < fixups.len() ==> wire::at(
            c,
            (#[trigger] fixups[j]).at as int,
            bytecode::wide(place(fixups[j].label)),
        )
}

/// The bytes and fixups stand for the instructions.
spec fn stands_for(bytes: Seq<u8>, fixups: Seq<Fixup>, xs: Seq<AsmInstr>) -> bool {
    &&& forall|place: spec_fn(Label) -> u32| agrees(bytes, fixups, #[trigger] code(xs, place), place)
    &&& fixups.map_values(|f: Fixup| f.label) == all_targets(xs)
    &&& forall|k: int| 0 <= k < xs.len() ==> well_typed(#[trigger] xs[k])
}

/// Resolving one more instruction.
proof fn lemma_code_push(xs: Seq<AsmInstr>, x: AsmInstr, place: spec_fn(Label) -> u32)
    ensures
        code(xs.push(x), place) == code(xs, place) + bytecode::instr_bytes(
            x.op,
            resolve(x, place).1,
        ),
        all_targets(xs.push(x)) == all_targets(xs) + x.targets,
{
    assert(resolve_all(xs.push(x), place).drop_last() =~= resolve_all(xs, place));
    assert(xs.push(x).drop_last() =~= xs);
}

/// Appending the bytes of an instruction with its fixups.
proof fn lemma_stands_for_push(
    bytes: Seq<u8>,
    fixups: Seq<Fixup>,
    xs: Seq<AsmInstr>,
    x: AsmInstr,
    piece: Seq<u8>,
    more: Seq<Fixup>,
)
    requires
        stands_for(bytes, fixups, xs),
        well_typed(x),
        more.map_values(|f: Fixup| f.label) == x.targets,
        forall|j: int| 0 <= j < more.len() ==> bytes.len() <= (#[trigger] more[j]).at,
        forall|place: spec_fn(Label) -> u32|
            {
                let c = #[trigger] resolve(x, place);
                let b = bytecode::instr_bytes(c.0, c.1);
                &&& b.len() == piece.len()
                &&& forall|p: int| 0 <= p < b.len() && !covered(more, p + bytes.len()) ==> b[p] == piece[p]
                &&& forall|j: int|
                    0 <= j < more.len() ==> wire::at(
                        b,
                        (#[trigger] more[j]).at - bytes.len(),
                        bytecode::wide(place(more[j].label)),
                    )
            },
    ensures
        stands_for(bytes + piece, fixups + more, xs.push(x)),
{
    let all = fixups + more;
    assert forall|place: spec_fn(Label) -> u32| agrees(
        bytes + piece,
        all,
        #[trigger] code(xs.push(x), place),
        place,
    ) by {
        lemma_code_push(xs, x, place);
        let a = code(xs, place);
        let r = resolve(x, place);
        let b = bytecode::instr_bytes(r.0, r.1);
        assert(agrees(bytes, fixups, a, place));
        let c = a + b;
        assert forall|p: int| 0 <= p < c.len() && !covered(all, p) implies c[p] == (bytes + piece)[p] by {
            if p < bytes.len() {
                if covered(fixups, p) {
                    let j = choose|j: int|
                        0 <= j < fixups.len() && (#[trigger] fixups[j]).at <= p < fixups[j].at + 5;
                    assert(all[j] == fixups[j]);
                }
            } else {
                let q = p - bytes.len();
                if covered(more, q + bytes.len()) {
                    let j = choose|j: int|
                        0 <= j < more.len() && (#[trigger] more[j]).at <= p < more[j].at + 5;
                    assert(all[fixups.len() + j] == more[j]);
                }
                assert(b[q] == piece[q]);
            }
        }
        assert forall|j: int| 0 <= j < all.len() implies wire::at(
            c,
            (#[trigger] all[j]).at as int,
            bytecode::wide(place(all[j].label)),
        ) by {
            let w = bytecode::wide(place(all[j].label));
            if j < fixups.len() {
                assert(all[j] == fixups[j]);
                assert(wire::at(a, fixups[j].at as int, w));
                assert(c.subrange(all[j].at as int, all[j].at + w.len()) =~= a.subrange(
                    all[j].at as int,
                    all[j].at + w.len(),
                ));
            } else {
                let k = j - fixups.len();
                assert(all[j] == more[k]);
                assert(wire::at(b, more[k].at - bytes.len(), w));
                assert(c.subrange(all[j].at as int, all[j].at + w.len()) =~= b.subrange(
                    all[j].at - bytes.len(),
                    all[j].at - bytes.len() + w.len(),
                ));
            }
        }
    }
    lemma_code_push(xs, x, |l: Label| 0u32);
    assert(all.map_values(|f: Fixup| f.label) =~= fixups.map_values(|f: Fixup| f.label)
        + more.map_values(|f: Fixup| f.label));
}

/// The bytes of an instruction with one more operand.
proof fn lemma_instr_push(op: Opcode, ms: Seq<OperandModel>, m: OperandModel)
    ensures
        bytecode::instr_bytes(op, ms.push(m)) == bytecode::instr_bytes(op, ms)
            + bytecode::operand_bytes(opcode::opcode_roles(op)[ms.len() as int], m),
{
    assert(ms.push(m).drop_last() =~= ms);
    assert(bytecode::instr_bytes(op, ms.push(m)) =~= bytecode::instr_bytes(op, ms)
        + bytecode::operand_bytes(opcode::opcode_roles(op)[ms.len() as int], m));
}

/// Begins an instruction.
fn put_op(bytes: &mut Vec<u8>, op: Opcode)
    ensures
        final(bytes)@ == old(bytes)@ + bytecode::instr_bytes(op, seq![]),
{
    bytes.push(op.to_u8());
    assert(bytes@ =~= old(bytes)@ + bytecode::instr_bytes(op, seq![]));
}

/// Appends a register or an index to an instruction begun behind `start`.
fn put_word(
    bytes: &mut Vec<u8>,
    v: u32,
    Ghost(start): Ghost<Seq<u8>>,
    Ghost(op): Ghost<Opcode>,
    Ghost(ms): Ghost<Seq<OperandModel>>,
)
    requires
        old(bytes)@ == start + bytecode::instr_bytes(op, ms),
        !(opcode::opcode_roles(op)[ms.len() as int] is Pc),
    ensures
        final(bytes)@ == start + bytecode::instr_bytes(op, ms.push(OperandModel::Word(v))),
{
    write_uleb128_u64(bytes, v as u64);
    proof {
        lemma_instr_push(op, ms, OperandModel::Word(v));
    }
    assert(bytes@ =~= start + bytecode::instr_bytes(op, ms.push(OperandModel::Word(v))));
}

/// Appends a list of registers to an instruction begun behind `start`.
fn put_list(
    bytes: &mut Vec<u8>,
    regs: &[u32],
    Ghost(start): Ghost<Seq<u8>>,
    Ghost(op): Ghost<Opcode>,
    Ghost(ms): Ghost<Seq<OperandModel>>,
)
    requires
        old(bytes)@ == start + bytecode::instr_bytes(op, ms),
    ensures
        final(bytes)@ == start + bytecode::instr_bytes(op, ms.push(OperandModel::List(regs@))),
{
    write_list(bytes, regs);
    proof {
        lemma_instr_push(op, ms, OperandModel::List(regs@));
    }
    assert(bytes@ =~= start + bytecode::instr_bytes(op, ms.push(OperandModel::List(regs@))));
}

/// Whether an operand of this role is a register or an index.
pub open spec fn takes_word(role: opcode::OperandRole) -> bool {
    !(role is Pc) && bytecode::fits_role(role, OperandModel::Word(0))
}

/// Register and index operands.
pub open spec fn words(v: Seq<u32>) -> Seq<OperandModel> {
    v.map_values(|x: u32| OperandModel::Word(x))
}

/// The place of `n` code positions.
spec fn blank(n: nat) -> Seq<u8>
    decreases n,
{
    if n == 0 {
        seq![]
    } else {
        blank((n - 1) as nat) + bytecode::wide(0)
    }
}

/// The code positions of labels.
spec fn wides(targets: Seq<Label>, place: spec_fn(Label) -> u32) -> Seq<u8>
    decreases targets.len(),
{
    if targets.len() == 0 {
        seq![]
    } else {
        wides(targets.drop_last(), place) + bytecode::wide(place(targets.last()))
    }
}

/// The fixups of the targets of a branch whose first code position stands at `at`.
spec fn branch_fixups(at: nat, targets: Seq<Label>) -> Seq<Fixup> {
    Seq::new(targets.len(), |j: int| Fixup { at: (at + 5 * j) as usize, label: targets[j] })
}

proof fn lemma_wides(targets: Seq<Label>, place: spec_fn(Label) -> u32)
    ensures
        wides(targets, place).len() == 5 * targets.len(),
        blank(targets.len()).len() == 5 * targets.len(),
        forall|j: int|
            0 <= j < targets.len() ==> #[trigger] wides(targets, place).subrange(5 * j, 5 * j + 5)
                == bytecode::wide(place(targets[j])),
    decreases targets.len(),
{
    if targets.len() > 0 {
        let front = targets.drop_last();
        lemma_wides(front, place);
        let w = wides(targets, place);
        assert forall|j: int| 0 <= j < targets.len() implies #[trigger] w.subrange(5 * j, 5 * j + 5)
            == bytecode::wide(place(targets[j])) by {
            if j < front.len() {
                assert(w.subrange(5 * j, 5 * j + 5) =~= wides(front, place).subrange(5 * j, 5 * j + 5));
                assert(front[j] == targets[j]);
            } else {
                assert(w.subrange(5 * j, 5 * j + 5) =~= bytecode::wide(place(targets[j])));
            }
        }
    }
}

/// The bytes of a branch end with its code positions.
proof fn lemma_branch_bytes(
    op: Opcode,
    operands: Seq<OperandModel>,
    targets: Seq<Label>,
    place: spec_fn(Label) -> u32,
)
    requires
        forall|k: int|
            0 <= k < targets.len() ==> #[trigger] opcode::opcode_roles(op)[operands.len() + k] is Pc,
    ensures
        bytecode::instr_bytes(op, resolve(AsmInstr { op, operands, targets }, place).1)
            == bytecode::instr_bytes(op, operands) + wides(targets, place),
    decreases targets.len(),
{
    let all = resolve(AsmInstr { op, operands, targets }, place).1;
    if targets.len() == 0 {
        assert(all =~= operands);
        assert(bytecode::instr_bytes(op, all) =~= bytecode::instr_bytes(op, operands) + wides(targets, place));
    } else {
        let front = targets.drop_last();
        let init = resolve(AsmInstr { op, operands, targets: front }, place).1;
        lemma_branch_bytes(op, operands, front, place);
        let last = OperandModel::Word(place(targets.last()));
        assert(all =~= init.push(last));
        lemma_instr_push(op, init, last);
        assert(opcode::opcode_roles(op)[operands.len() + (targets.len() - 1)] is Pc);
        assert(bytecode::instr_bytes(op, all) =~= bytecode::instr_bytes(op, operands) + wides(targets, place));
    }
}

/// Appends the eight bytes of an integer, the lowest first.
fn write_u64_le(out: &mut Vec<u8>, v: u64)
    ensures
        final(out)@ == old(out)@ + wire::le(v as nat, 8),
{
    let mut w = Writer::new();
    w.write_u64_le(v);
    let mut bytes = w.into_vec();
    out.append(&mut bytes);
}

/// Writes a code position over the five bytes at `at`.
fn patch_uleb128_u32(bytes: &mut Vec<u8>, at: usize, value: u32)
    requires
        at + 5 <= old(bytes)@.len(),
    ensures
        final(bytes)@.len() == old(bytes)@.len(),
        final(bytes)@.subrange(at as int, at + 5) == bytecode::wide(value),
        forall|p: int| 0 <= p < old(bytes)@.len() && !(at <= p < at + 5) ==> final(bytes)@[p] == old(bytes)@[p],
{
    let _n: usize = bytes.len();
    bytes.set(at, (value % 128 + 128) as u8);
    bytes.set(at + 1, (value / 128 % 128 + 128) as u8);
    bytes.set(at + 2, (value / 16384 % 128 + 128) as u8);
    bytes.set(at + 3, (value / 2097152 % 128 + 128) as u8);
    bytes.set(at + 4, (value / 268435456) as u8);
    assert(bytes@.subrange(at as int, at + 5) =~= bytecode::wide(value));
}

/// The span table of span marks.
fn span_entries(marks: &Vec<(u32, u64)>) -> (spans: Vec<SpanEntry>)
    requires
        forall|i: int, j: int|
            0 <= i <= j < marks@.len() ==> (#[trigger] marks@[i]).0 <= (#[trigger] marks@[j]).0,
    ensures
        spans@ == (AsmView { marks: marks@, ..AsmView::empty() }).span_table(),
{
    let ghost all = (AsmView { marks: marks@, ..AsmView::empty() }).span_table();
    let mut spans: Vec<SpanEntry> = Vec::new();
    let mut prev: u32 = 0;
    let mut i: usize = 0;
    while i < marks.len()
        invariant
            i <= marks.len(),
            all == (AsmView { marks: marks@, ..AsmView::empty() }).span_table(),
            forall|i: int, j: int|
                0 <= i <= j < marks@.len() ==> (#[trigger] marks@[i]).0 <= (#[trigger] marks@[j]).0,
            prev == (if i == 0 { 0 } else { marks@[i - 1].0 }),
            spans@ == all.take(i as int),
        decreases marks.len() - i,
    {
        let (pc, span_id) = marks[i];
        spans.push(SpanEntry { pc_delta: (pc - prev) as u64, span_id });
        prev = pc;
        i = i + 1;
        assert(spans@ =~= all.take(i as int));
    }
    assert(all.take(i as int) =~= all);
    spans
}

impl Asm {
    /// The bytes stand for the instructions, and the span marks go forward.
    pub closed spec fn wf(&self) -> bool {
        &&& stands_for(self.bytes@, self.fixups@, self.instrs@)
        &&& forall|i: int, j: int|
            0 <= i <= j < self.span_marks@.len() ==> (#[trigger] self.span_marks@[i]).0 <= (
            #[trigger] self.span_marks@[j]).0
        &&& self.span_marks@.len() > 0 ==> self.span_marks@.last().0 <= program::clamp32(
            self.bytes@.len(),
        )
    }

    /// `self` is `before` with one more instruction, which refers to no label.
    pub open spec fn follows(self, before: Asm, op: Opcode, operands: Seq<OperandModel>) -> bool {
        &&& self@ == before@.emit(op, operands)
        &&& before.wf() ==> self.wf()
    }

    /// The number of bytes so far.
    proof fn lemma_len(&self)
        requires
            self.wf(),
        ensures
            self@.len() == self.bytes@.len(),
    {
        assert(agrees(
            self.bytes@,
            self.fixups@,
            code(self.instrs@, |l: Label| 0u32),
            |l: Label| 0u32,
        ));
    }

    /// Creates an empty assembler.
    #[must_use]
    pub fn new() -> (a: Self)
        ensures
            a.wf(),
            a@ == AsmView::empty(),
    {
        let a = Asm {
            bytes: Vec::new(),
            labels: Vec::new(),
            fixups: Vec::new(),
            span_marks: Vec::new(),
            instrs: Ghost(Seq::empty()),
        };
        assert(a@ =~= AsmView::empty());
        assert forall|place: spec_fn(Label) -> u32| agrees(
            a.bytes@,
            a.fixups@,
            #[trigger] code(a.instrs@, place),
            place,
        ) by {
            assert(resolve_all(a.instrs@, place).len() == 0);
        }
        assert(a.fixups@.map_values(|f: Fixup| f.label) =~= all_targets(a.instrs@));
        a
    }

    /// The current code position.
    #[must_use]
    pub fn pc(&self) -> (pc: u32)
        requires
            self.wf(),
        ensures
            pc == self@.pc(),
    {
        proof {
            self.lemma_len();
        }
        clamp_u32(self.bytes.len())
    }

    /// Allocates a label.
    #[must_use]
    pub fn label(&mut self) -> (l: Label)
        ensures
            l.index() == old(self)@.labels.len() as int % 0x1_0000_0000,
            final(self)@ == old(self)@.with_label(),
            old(self).wf() ==> final(self).wf(),
    {
        let id: u64 = self.labels.len() as u64 % 0x1_0000_0000;
        self.labels.push(LabelSlot { pc: None, name: None });
        assert(self@ =~= old(self)@.with_label());
        Label(id as u32)
    }

    /// Allocates a label and names it.
    #[must_use]
    pub fn label_named(&mut self, name: &str) -> (l: Label)
        ensures
            l.index() == old(self)@.labels.len() as int % 0x1_0000_0000,
            final(self)@ == old(self)@.with_label().with_name(l, name@),
            old(self).wf() ==> final(self).wf(),
    {
        let l = self.label();
        let _ = self.name_label(l, name);
        l
    }

    /// Names a label.
    pub fn name_label(&mut self, label: Label, name: &str) -> (res: Result<(), UnresolvedLabel>)
        ensures
            res is Ok <==> label.index() < old(self)@.labels.len(),
            res is Ok ==> final(self)@ == old(self)@.with_name(label, name@),
            res is Err ==> *final(self) == *old(self),
            old(self).wf() ==> final(self).wf(),
    {
        let i: usize = label.0 as usize;
        if i >= self.labels.len() {
            return Err(UnresolvedLabel);
        }
        let pc = self.labels[i].pc;
        self.labels.set(i, LabelSlot { pc, name: Some(name.to_owned()) });
        assert(self@ =~= old(self)@.with_name(label, name@));
        Ok(())
    }

    /// Places a label at the current position.
    pub fn place(&mut self, label: Label) -> (res: Result<(), UnresolvedLabel>)
        requires
            old(self).wf(),
        ensures
            res is Ok <==> label.index() < old(self)@.labels.len(),
            res is Ok ==> final(self)@ == old(self)@.with_place(label),
            res is Err ==> *final(self) == *old(self),
            final(self).wf(),
    {
        let pc: u32 = self.pc();
        let i: usize = label.0 as usize;
        if i >= self.labels.len() {
            return Err(UnresolvedLabel);
        }
        let name: Option<String> = match &self.labels[i].name {
            Some(s) => Some(s.clone()),
            None => None,
        };
        self.labels.set(i, LabelSlot { pc: Some(pc), name });
        assert(self@ =~= old(self)@.with_place(label));
        Ok(())
    }

    /// Names a label and places it at the current position.
    pub fn place_named(&mut self, label: Label, name: &str) -> (res: Result<(), UnresolvedLabel>)
        requires
            old(self).wf(),
        ensures
            res is Ok <==> label.index() < old(self)@.labels.len(),
            res is Ok ==> final(self)@ == old(self)@.with_name(label, name@).with_place(label),
            res is Err ==> *final(self) == *old(self),
            final(self).wf(),
    {
        match self.name_label(label, name) {
            Ok(()) => self.place(label),
            Err(e) => Err(e),
        }
    }

    /// Says that what follows maps to `span_id`, until the next span. A span at the same position
    /// as the one before replaces it.
    pub fn span(&mut self, span_id: u64) -> (r: &mut Self)
        requires
            old(self).wf(),
        ensures
            (*r)@ == old(self)@.with_span(span_id),
            (*r).wf(),
            *final(self) == *final(r),
    {
        let pc: u32 = self.pc();
        let n: usize = self.span_marks.len();
        if n > 0 && self.span_marks[n - 1].0 == pc {
            self.span_marks.set(n - 1, (pc, span_id));
            assert(self.span_marks@ =~= old(self).span_marks@.drop_last().push((pc, span_id)));
        } else {
            self.span_marks.push((pc, span_id));
        }
        assert(self@ =~= old(self)@.with_span(span_id));
        proof {
            old(self).lemma_len();
        }
        self
    }

    /// Notes an instruction whose bytes have been appended.
    fn record(
        &mut self,
        Ghost(before): Ghost<Asm>,
        Ghost(op): Ghost<Opcode>,
        Ghost(operands): Ghost<Seq<OperandModel>>,
    )
        requires
            bytecode::fit_roles(opcode::opcode_roles(op), operands),
            old(self).bytes@ == before.bytes@ + bytecode::instr_bytes(op, operands),
            old(self).labels == before.labels,
            old(self).fixups == before.fixups,
            old(self).span_marks == before.span_marks,
            old(self).instrs == before.instrs,
        ensures
            final(self).follows(before, op, operands),
    {
        let ghost x = AsmInstr { op, operands, targets: seq![] };
        let ghost xs = self.instrs@;
        self.instrs = Ghost(xs.push(x));
        assert(self@ =~= before@.emit(op, operands));
        proof {
            if before.wf() {
                assert forall|place: spec_fn(Label) -> u32|
                    (#[trigger] resolve(x, place)).1 == operands by {
                    assert(resolve(x, place).1 =~= operands);
                }
                let more = Seq::<Fixup>::empty();
                assert(more.map_values(|f: Fixup| f.label) =~= x.targets);
                lemma_stands_for_push(
                    before.bytes@,
                    before.fixups@,
                    xs,
                    x,
                    bytecode::instr_bytes(op, operands),
                    more,
                );
                assert(before.fixups@ + more =~= self.fixups@);
            }
        }
    }

    /// Appends an instruction without operands.
    fn emit0(&mut self, op: Opcode)
        requires
            opcode::opcode_roles(op).len() == 0,
        ensures
            final(self).follows(*old(self), op, seq![]),
    {
        let ghost before = *self;
        put_op(&mut self.bytes, op);
        self.record(Ghost(before), Ghost(op), Ghost(Seq::empty()));
    }

    /// Appends an instruction whose operands are a register or index.
    fn emit1(&mut self, op: Opcode, a: u32)
        requires
            opcode::opcode_roles(op).len() == 1,
            takes_word(opcode::opcode_roles(op)[0]),
        ensures
            final(self).follows(*old(self), op, words(seq![a])),
    {
        let ghost before = *self;
        let ghost ms: Seq<OperandModel> = Seq::empty().push(OperandModel::Word(a));
        put_op(&mut self.bytes, op);
        put_word(&mut self.bytes, a, Ghost(before.bytes@), Ghost(op), Ghost(Seq::empty()));
        assert(words(seq![a]) =~= ms);
        self.record(Ghost(before), Ghost(op), Ghost(ms));
    }

    /// Appends an instruction whose operands are two registers or indices.
    fn emit2(&mut self, op: Opcode, a: u32, b: u32)
        requires
            opcode::opcode_roles(op).len() == 2,
            takes_word(opcode::opcode_roles(op)[0]),
            takes_word(opcode::opcode_roles(op)[1]),
        ensures
            final(self).follows(*old(self), op, words(seq![a, b])),
    {
        let ghost before = *self;
        let ghost ms: Seq<OperandModel> = Seq::empty().push(OperandModel::Word(a)).push(OperandModel::Word(b));
        put_op(&mut self.bytes, op);
        put_word(&mut self.bytes, a, Ghost(before.bytes@), Ghost(op), Ghost(Seq::empty()));
        put_word(&mut self.bytes, b, Ghost(before.bytes@), Ghost(op), Ghost(Seq::empty().push(OperandModel::Word(a))));
        assert(words(seq![a, b]) =~= ms);
        self.record(Ghost(before), Ghost(op), Ghost(ms));
    }

    /// Appends an instruction whose operands are three registers or indices.
    fn emit3(&mut self, op: Opcode, a: u32, b: u32, c: u32)
        requires
            opcode::opcode_roles(op).len() == 3,
            takes_word(opcode::opcode_roles(op)[0]),
            takes_word(opcode::opcode_roles(op)[1]),
            takes_word(opcode::opcode_roles(op)[2]),
        ensures
            final(self).follows(*old(self), op, words(seq![a, b, c])),
    {
        let ghost before = *self;
        let ghost ms: Seq<OperandModel> = Seq::empty().push(OperandModel::Word(a)).push(OperandModel::Word(b)).push(OperandModel::Word(c));
        put_op(&mut self.bytes, op);
        put_word(&mut self.bytes, a, Ghost(before.bytes@), Ghost(op), Ghost(Seq::empty()));
        put_word(&mut self.bytes, b, Ghost(before.bytes@), Ghost(op), Ghost(Seq::empty().push(OperandModel::Word(a))));
        put_word(&mut self.bytes, c, Ghost(before.bytes@), Ghost(op), Ghost(Seq::empty().push(OperandModel::Word(a)).push(OperandModel::Word(b))));
        assert(words(seq![a, b, c]) =~= ms);
        self.record(Ghost(before), Ghost(op), Ghost(ms));
    }

    /// Appends an instruction whose operands are four registers or indices.
    fn emit4(&mut self, op: Opcode, a: u32, b: u32, c: u32, d: u32)
        requires
            opcode::opcode_roles(op).len() == 4,
            takes_word(opcode::opcode_roles(op)[0]),
            takes_word(opcode::opcode_roles(op)[1]),
            takes_word(opcode::opcode_roles(op)[2]),
            takes_word(opcode::opcode_roles(op)[3]),
        ensures
            final(self).follows(*old(self), op, words(seq![a, b, c, d])),
    {
        let ghost before = *self;
        let ghost ms: Seq<OperandModel> = Seq::empty().push(OperandModel::Word(a)).push(OperandModel::Word(b)).push(OperandModel::Word(c)).push(OperandModel::Word(d));
        put_op(&mut self.bytes, op);
        put_word(&mut self.bytes, a, Ghost(before.bytes@), Ghost(op), Ghost(Seq::empty()));
        put_word(&mut self.bytes, b, Ghost(before.bytes@), Ghost(op), Ghost(Seq::empty().push(OperandModel::Word(a))));
        put_word(&mut self.bytes, c, Ghost(before.bytes@), Ghost(op), Ghost(Seq::empty().push(OperandModel::Word(a)).push(OperandModel::Word(b))));
        put_word(&mut self.bytes, d, Ghost(before.bytes@), Ghost(op), Ghost(Seq::empty().push(OperandModel::Word(a)).push(OperandModel::Word(b)).push(OperandModel::Word(c))));
        assert(words(seq![a, b, c, d]) =~= ms);
        self.record(Ghost(before), Ghost(op), Ghost(ms));
    }

    /// Appends an instruction whose operands are registers or indices and then a list of registers.
    fn emit_list(&mut self, op: Opcode, head: Vec<u32>, list: &[u32])
        requires
            opcode::opcode_roles(op).len() == head@.len() + 1,
            forall|k: int| 0 <= k < head@.len() ==> takes_word(#[trigger] opcode::opcode_roles(op)[k]),
            bytecode::fits_role(opcode::opcode_roles(op)[head@.len() as int], OperandModel::List(list@)),
        ensures
            final(self).follows(*old(self), op, words(head@).push(OperandModel::List(list@))),
    {
        let ghost before = *self;
        self.put_words(op, &head);
        put_list(&mut self.bytes, list, Ghost(before.bytes@), Ghost(op), Ghost(words(head@)));
        self.record(Ghost(before), Ghost(op), Ghost(words(head@).push(OperandModel::List(list@))));
    }

    /// Appends a call with its argument and return registers.
    fn emit_call(&mut self, op: Opcode, head: Vec<u32>, args: &[u32], rets: &[u32])
        requires
            opcode::opcode_roles(op).len() == head@.len() + 2,
            forall|k: int| 0 <= k < head@.len() ==> takes_word(#[trigger] opcode::opcode_roles(op)[k]),
            bytecode::fits_role(opcode::opcode_roles(op)[head@.len() as int], OperandModel::List(args@)),
            bytecode::fits_role(opcode::opcode_roles(op)[head@.len() + 1int], OperandModel::List(rets@)),
        ensures
            final(self).follows(
                *old(self),
                op,
                words(head@).push(OperandModel::List(args@)).push(OperandModel::List(rets@)),
            ),
    {
        let ghost before = *self;
        let ghost ms = words(head@).push(OperandModel::List(args@));
        self.put_words(op, &head);
        put_list(&mut self.bytes, args, Ghost(before.bytes@), Ghost(op), Ghost(words(head@)));
        put_list(&mut self.bytes, rets, Ghost(before.bytes@), Ghost(op), Ghost(ms));
        self.record(Ghost(before), Ghost(op), Ghost(ms.push(OperandModel::List(rets@))));
    }

    /// Begins an instruction with registers or indices.
    fn put_words(&mut self, op: Opcode, head: &Vec<u32>)
        requires
            forall|k: int| 0 <= k < head@.len() ==> takes_word(#[trigger] opcode::opcode_roles(op)[k]),
        ensures
            final(self).bytes@ == old(self).bytes@ + bytecode::instr_bytes(op, words(head@)),
            final(self).labels == old(self).labels,
            final(self).fixups == old(self).fixups,
            final(self).span_marks == old(self).span_marks,
            final(self).instrs == old(self).instrs,
    {
        let ghost start = self.bytes@;
        put_op(&mut self.bytes, op);
        let mut i: usize = 0;
        assert(words(head@.take(0)) =~= seq![]);
        while i < head.len()
            invariant
                i <= head.len(),
                forall|k: int| 0 <= k < head@.len() ==> takes_word(#[trigger] opcode::opcode_roles(op)[k]),
                self.bytes@ == start + bytecode::instr_bytes(op, words(head@.take(i as int))),
                start == old(self).bytes@,
                self.labels == old(self).labels,
                self.fixups == old(self).fixups,
                self.span_marks == old(self).span_marks,
                self.instrs == old(self).instrs,
            decreases head.len() - i,
        {
            let ghost ms = words(head@.take(i as int));
            assert(takes_word(opcode::opcode_roles(op)[i as int]));
            put_word(&mut self.bytes, head[i], Ghost(start), Ghost(op), Ghost(ms));
            assert(words(head@.take(i + 1)) =~= ms.push(OperandModel::Word(head@[i as int])));
            i = i + 1;
        }
        assert(head@.take(i as int) =~= head@);
    }

    /// Appends the place of a label's position.
    fn pc_label(&mut self, label: Label)
        ensures
            final(self).bytes@ == old(self).bytes@ + bytecode::wide(0),
            final(self).fixups@ == old(self).fixups@.push(
                Fixup { at: old(self).bytes@.len() as usize, label },
            ),
            final(self).bytes@.len() <= usize::MAX,
            final(self).labels == old(self).labels,
            final(self).span_marks == old(self).span_marks,
            final(self).instrs == old(self).instrs,
    {
        let at: usize = self.bytes.len();
        write_wide(&mut self.bytes, 0);
        let _n: usize = self.bytes.len();
        self.fixups.push(Fixup { at, label });
    }

    /// Encodes `nop`.
    pub fn nop(&mut self) -> (r: &mut Self)
        ensures
            (*r).follows(*old(self), Opcode::Nop, seq![]),
            *final(self) == *final(r),
    {
        self.emit0(Opcode::Nop);
        self
    }

    /// Encodes `mov dst, src`.
    pub fn mov(&mut self, dst: u32, src: u32) -> (r: &mut Self)
        ensures
            (*r).follows(*old(self), Opcode::Mov, words(seq![dst, src])),
            *final(self) == *final(r),
    {
        self.emit2(Opcode::Mov, dst, src);
        self
    }

    /// Encodes `trap code`.
    pub fn trap(&mut self, code: u32) -> (r: &mut Self)
        ensures
            (*r).follows(*old(self), Opcode::Trap, words(seq![code])),
            *final(self) == *final(r),
    {
        self.emit1(Opcode::Trap, code);
        self
    }

    /// Encodes `const_unit dst`.
    pub fn const_unit(&mut self, dst: u32) -> (r: &mut Self)
        ensures
            (*r).follows(*old(self), Opcode::ConstUnit, words(seq![dst])),
            *final(self) == *final(r),
    {
        self.emit1(Opcode::ConstUnit, dst);
        self
    }

    /// Encodes `const_bool dst, imm`.
    pub fn const_bool(&mut self, dst: u32, imm: bool) -> (r: &mut Self)
        ensures
            (*r).follows(*old(self), Opcode::ConstBool, seq![OperandModel::Word(dst), OperandModel::Bool(imm)]),
            *final(self) == *final(r),
    {
        let ghost before = *self;
        let ghost ms: Seq<OperandModel> = Seq::empty().push(OperandModel::Word(dst));
        put_op(&mut self.bytes, Opcode::ConstBool);
        put_word(&mut self.bytes, dst, Ghost(before.bytes@), Ghost(Opcode::ConstBool), Ghost(Seq::empty()));
        self.bytes.push(if imm { 1u8 } else { 0u8 });
        proof {
            lemma_instr_push(Opcode::ConstBool, ms, OperandModel::Bool(imm));
        }
        assert(self.bytes@ =~= before.bytes@ + bytecode::instr_bytes(Opcode::ConstBool, ms.push(OperandModel::Bool(imm))));
        assert(ms.push(OperandModel::Bool(imm)) =~= seq![OperandModel::Word(dst), OperandModel::Bool(imm)]);
        self.record(Ghost(before), Ghost(Opcode::ConstBool), Ghost(ms.push(OperandModel::Bool(imm))));
        self
    }

    /// Encodes `const_i64 dst, imm`.
    pub fn const_i64(&mut self, dst: u32, imm: i64) -> (r: &mut Self)
        ensures
            (*r).follows(*old(self), Opcode::ConstI64, seq![OperandModel::Word(dst), OperandModel::I64(imm)]),
            *final(self) == *final(r),
    {
        let ghost before = *self;
        let ghost ms: Seq<OperandModel> = Seq::empty().push(OperandModel::Word(dst));
        put_op(&mut self.bytes, Opcode::ConstI64);
        put_word(&mut self.bytes, dst, Ghost(before.bytes@), Ghost(Opcode::ConstI64), Ghost(Seq::empty()));
        write_sleb128_i64(&mut self.bytes, imm);
        proof {
            lemma_instr_push(Opcode::ConstI64, ms, OperandModel::I64(imm));
        }
        assert(self.bytes@ =~= before.bytes@ + bytecode::instr_bytes(Opcode::ConstI64, ms.push(OperandModel::I64(imm))));
        assert(ms.push(OperandModel::I64(imm)) =~= seq![OperandModel::Word(dst), OperandModel::I64(imm)]);
        self.record(Ghost(before), Ghost(Opcode::ConstI64), Ghost(ms.push(OperandModel::I64(imm))));
        self
    }

    /// Encodes `const_u64 dst, imm`.
    pub fn const_u64(&mut self, dst: u32, imm: u64) -> (r: &mut Self)
        ensures
            (*r).follows(*old(self), Opcode::ConstU64, seq![OperandModel::Word(dst), OperandModel::U64(imm)]),
            *final(self) == *final(r),
    {
        let ghost before = *self;
        let ghost ms: Seq<OperandModel> = Seq::empty().push(OperandModel::Word(dst));
        put_op(&mut self.bytes, Opcode::ConstU64);
        put_word(&mut self.bytes, dst, Ghost(before.bytes@), Ghost(Opcode::ConstU64), Ghost(Seq::empty()));
        write_uleb128_u64(&mut self.bytes, imm);
        proof {
            lemma_instr_push(Opcode::ConstU64, ms, OperandModel::U64(imm));
        }
        assert(self.bytes@ =~= before.bytes@ + bytecode::instr_bytes(Opcode::ConstU64, ms.push(OperandModel::U64(imm))));
        assert(ms.push(OperandModel::U64(imm)) =~= seq![OperandModel::Word(dst), OperandModel::U64(imm)]);
        self.record(Ghost(before), Ghost(Opcode::ConstU64), Ghost(ms.push(OperandModel::U64(imm))));
        self
    }

    /// Encodes `const_f64 dst, bits`, the float given by its IEEE 754 bits.
    pub fn const_f64_bits(&mut self, dst: u32, bits: u64) -> (r: &mut Self)
        ensures
            (*r).follows(*old(self), Opcode::ConstF64, seq![OperandModel::Word(dst), OperandModel::Bits(bits)]),
            *final(self) == *final(r),
    {
        let ghost before = *self;
        let ghost ms: Seq<OperandModel> = Seq::empty().push(OperandModel::Word(dst));
        put_op(&mut self.bytes, Opcode::ConstF64);
        put_word(&mut self.bytes, dst, Ghost(before.bytes@), Ghost(Opcode::ConstF64), Ghost(Seq::empty()));
        write_u64_le(&mut self.bytes, bits);
        proof {
            lemma_instr_push(Opcode::ConstF64, ms, OperandModel::Bits(bits));
        }
        assert(self.bytes@ =~= before.bytes@ + bytecode::instr_bytes(Opcode::ConstF64, ms.push(OperandModel::Bits(bits))));
        assert(ms.push(OperandModel::Bits(bits)) =~= seq![OperandModel::Word(dst), OperandModel::Bits(bits)]);
        self.record(Ghost(before), Ghost(Opcode::ConstF64), Ghost(ms.push(OperandModel::Bits(bits))));
        self
    }

    /// Encodes `const_decimal dst, mantissa, scale`.
    pub fn const_decimal(&mut self, dst: u32, mantissa: i64, scale: u8) -> (r: &mut Self)
        ensures
            (*r).follows(*old(self), Opcode::ConstDecimal, seq![OperandModel::Word(dst), OperandModel::I64(mantissa), OperandModel::Byte(scale)]),
            *final(self) == *final(r),
    {
        let ghost before = *self;
        let ghost op = Opcode::ConstDecimal;
        let ghost m1: Seq<OperandModel> = Seq::empty().push(OperandModel::Word(dst));
        let ghost m2 = m1.push(OperandModel::I64(mantissa));
        put_op(&mut self.bytes, Opcode::ConstDecimal);
        put_word(&mut self.bytes, dst, Ghost(before.bytes@), Ghost(op), Ghost(Seq::empty()));
        write_sleb128_i64(&mut self.bytes, mantissa);
        self.bytes.push(scale);
        proof {
            lemma_instr_push(op, m1, OperandModel::I64(mantissa));
            lemma_instr_push(op, m2, OperandModel::Byte(scale));
        }
        assert(m2.push(OperandModel::Byte(scale)) =~= seq![OperandModel::Word(dst), OperandModel::I64(mantissa), OperandModel::Byte(scale)]);
        assert(self.bytes@ =~= before.bytes@ + bytecode::instr_bytes(op, m2.push(OperandModel::Byte(scale))));
        self.record(Ghost(before), Ghost(op), Ghost(m2.push(OperandModel::Byte(scale))));
        self
    }

    /// Encodes `const_decimal` of a [`Decimal`].
    pub fn const_decimal_value(&mut self, dst: u32, v: Decimal) -> (r: &mut Self)
        ensures
            (*r).follows(*old(self), Opcode::ConstDecimal, seq![OperandModel::Word(dst), OperandModel::I64(v.mantissa), OperandModel::Byte(v.scale)]),
            *final(self) == *final(r),
    {
        self.const_decimal(dst, v.mantissa, v.scale);
        self
    }

    /// Encodes `const_pool dst, idx`.
    pub fn const_pool(&mut self, dst: u32, idx: ConstId) -> (r: &mut Self)
        ensures
            (*r).follows(*old(self), Opcode::ConstPool, words(seq![dst, idx.0])),
            *final(self) == *final(r),
    {
        self.emit2(Opcode::ConstPool, dst, idx.0);
        self
    }

    /// Encodes `dec_add dst, a, b`.
    pub fn dec_add(&mut self, dst: u32, a: u32, b: u32) -> (r: &mut Self)
        ensures
            (*r).follows(*old(self), Opcode::DecAdd, words(seq![dst, a, b])),
            *final(self) == *final(r),
    {
        self.emit3(Opcode::DecAdd, dst, a, b);
        self
    }

    /// Encodes `dec_sub dst, a, b`.
    pub fn dec_sub(&mut self, dst: u32, a: u32, b: u32) -> (r: &mut Self)
        ensures
            (*r).follows(*old(self), Opcode::DecSub, words(seq![dst, a, b])),
            *final(self) == *final(r),
    {
        self.emit3(Opcode::DecSub, dst, a, b);
        self
    }

    /// Encodes `dec_mul dst, a, b`.
    pub fn dec_mul(&mut self, dst: u32, a: u32, b: u32) -> (r: &mut Self)
        ensures
            (*r).follows(*old(self), Opcode::DecMul, words(seq![dst, a, b])),
            *final(self) == *final(r),
    {
        self.emit3(Opcode::DecMul, dst, a, b);
        self
    }

    /// Encodes `dec_to_i64 dst, a`.
    pub fn dec_to_i64(&mut self, dst: u32, a: u32) -> (r: &mut Self)
        ensures
            (*r).follows(*old(self), Opcode::DecToI64, words(seq![dst, a])),
            *final(self) == *final(r),
    {
        self.emit2(Opcode::DecToI64, dst, a);
        self
    }

    /// Encodes `dec_to_u64 dst, a`.
    pub fn dec_to_u64(&mut self, dst: u32, a: u32) -> (r: &mut Self)
        ensures
            (*r).follows(*old(self), Opcode::DecToU64, words(seq![dst, a])),
            *final(self) == *final(r),
    {
        self.emit2(Opcode::DecToU64, dst, a);
        self
    }

    /// Encodes `i64_to_dec dst, a, scale`.
    pub fn i64_to_dec(&mut self, dst: u32, a: u32, scale: u8) -> (r: &mut Self)
        ensures
            (*r).follows(*old(self), Opcode::I64ToDec, seq![OperandModel::Word(dst), OperandModel::Word(a), OperandModel::Byte(scale)]),
            *final(self) == *final(r),
    {
        let ghost before = *self;
        let ghost op = Opcode::I64ToDec;
        let ghost m1: Seq<OperandModel> = Seq::empty().push(OperandModel::Word(dst));
        let ghost m2 = m1.push(OperandModel::Word(a));
        put_op(&mut self.bytes, Opcode::I64ToDec);
        put_word(&mut self.bytes, dst, Ghost(before.bytes@), Ghost(op), Ghost(Seq::empty()));
        put_word(&mut self.bytes, a, Ghost(before.bytes@), Ghost(op), Ghost(m1));
        self.bytes.push(scale);
        proof {
            lemma_instr_push(op, m2, OperandModel::Byte(scale));
        }
        assert(m2.push(OperandModel::Byte(scale)) =~= seq![OperandModel::Word(dst), OperandModel::Word(a), OperandModel::Byte(scale)]);
        assert(self.bytes@ =~= before.bytes@ + bytecode::instr_bytes(op, m2.push(OperandModel::Byte(scale))));
        self.record(Ghost(before), Ghost(op), Ghost(m2.push(OperandModel::Byte(scale))));
        self
    }

    /// Encodes `u64_to_dec dst, a, scale`.
    pub fn u64_to_dec(&mut self, dst: u32, a: u32, scale: u8) -> (r: &mut Self)
        ensures
            (*r).follows(*old(self), Opcode::U64ToDec, seq![OperandModel::Word(dst), OperandModel::Word(a), OperandModel::Byte(scale)]),
            *final(self) == *final(r),
    {
        let ghost before = *self;
        let ghost op = Opcode::U64ToDec;
        let ghost m1: Seq<OperandModel> = Seq::empty().push(OperandModel::Word(dst));
        let ghost m2 = m1.push(OperandModel::Word(a));
        put_op(&mut self.bytes, Opcode::U64ToDec);
        put_word(&mut self.bytes, dst, Ghost(before.bytes@), Ghost(op), Ghost(Seq::empty()));
        put_word(&mut self.bytes, a, Ghost(before.bytes@), Ghost(op), Ghost(m1));
        self.bytes.push(scale);
        proof {
            lemma_instr_push(op, m2, OperandModel::Byte(scale));
        }
        assert(m2.push(OperandModel::Byte(scale)) =~= seq![OperandModel::Word(dst), OperandModel::Word(a), OperandModel::Byte(scale)]);
        assert(self.bytes@ =~= before.bytes@ + bytecode::instr_bytes(op, m2.push(OperandModel::Byte(scale))));
        self.record(Ghost(before), Ghost(op), Ghost(m2.push(OperandModel::Byte(scale))));
        self
    }

    /// Encodes `i64_add dst, a, b`.
    pub fn i64_add(&mut self, dst: u32, a: u32, b: u32) -> (r: &mut Self)
        ensures
            (*r).follows(*old(self), Opcode::I64Add, words(seq![dst, a, b])),
            *final(self) == *final(r),
    {
        self.emit3(Opcode::I64Add, dst, a, b);
        self
    }

    /// Encodes `i64_sub dst, a, b`.
    pub fn i64_sub(&mut self, dst: u32, a: u32, b: u32) -> (r: &mut Self)
        ensures
            (*r).follows(*old(self), Opcode::I64Sub, words(seq![dst, a, b])),
            *final(self) == *final(r),
    {
        self.emit3(Opcode::I64Sub, dst, a, b);
        self
    }

    /// Encodes `i64_mul dst, a, b`.
    pub fn i64_mul(&mut self, dst: u32, a: u32, b: u32) -> (r: &mut Self)
        ensures
            (*r).follows(*old(self), Opcode::I64Mul, words(seq![dst, a, b])),
            *final(self) == *final(r),
    {
        self.emit3(Opcode::I64Mul, dst, a, b);
        self
    }

    /// Encodes `i64_div dst, a, b`.
    pub fn i64_div(&mut self, dst: u32, a: u32, b: u32) -> (r: &mut Self)
        ensures
            (*r).follows(*old(self), Opcode::I64Div, words(seq![dst, a, b])),
            *final(self) == *final(r),
    {
        self.emit3(Opcode::I64Div, dst, a, b);
        self
    }

    /// Encodes `i64_rem dst, a, b`.
    pub fn i64_rem(&mut self, dst: u32, a: u32, b: u32) -> (r: &mut Self)
        ensures
            (*r).follows(*old(self), Opcode::I64Rem, words(seq![dst, a, b])),
            *final(self) == *final(r),
    {
        self.emit3(Opcode::I64Rem, dst, a, b);
        self
    }

    /// Encodes `i64_and dst, a, b`.
    pub fn i64_and(&mut self, dst: u32, a: u32, b: u32) -> (r: &mut Self)
        ensures
            (*r).follows(*old(self), Opcode::I64And, words(seq![dst, a, b])),
            *final(self) == *final(r),
    {
        self.emit3(Opcode::I64And, dst, a, b);
        self
    }

    /// Encodes `i64_or dst, a, b`.
    pub fn i64_or(&mut self, dst: u32, a: u32, b: u32) -> (r: &mut Self)
        ensures
            (*r).follows(*old(self), Opcode::I64Or, words(seq![dst, a, b])),
            *final(self) == *final(r),
    {
        self.emit3(Opcode::I64Or, dst, a, b);
        self
    }

    /// Encodes `i64_xor dst, a, b`.
    pub fn i64_xor(&mut self, dst: u32, a: u32, b: u32) -> (r: &mut Self)
        ensures
            (*r).follows(*old(self), Opcode::I64Xor, words(seq![dst, a, b])),
            *final(self) == *final(r),
    {
        self.emit3(Opcode::I64Xor, dst, a, b);
        self
    }

    /// Encodes `i64_shl dst, a, b`.
    pub fn i64_shl(&mut self, dst: u32, a: u32, b: u32) -> (r: &mut Self)
        ensures
            (*r).follows(*old(self), Opcode::I64Shl, words(seq![dst, a, b])),
            *final(self) == *final(r),
    {
        self.emit3(Opcode::I64Shl, dst, a, b);
        self
    }

    /// Encodes `i64_shr dst, a, b`.
    pub fn i64_shr(&mut self, dst: u32, a: u32, b: u32) -> (r: &mut Self)
        ensures
            (*r).follows(*old(self), Opcode::I64Shr, words(seq![dst, a, b])),
            *final(self) == *final(r),
    {
        self.emit3(Opcode::I64Shr, dst, a, b);
        self
    }

    /// Encodes `i64_eq dst, a, b`.
    pub fn i64_eq(&mut self, dst: u32, a: u32, b: u32) -> (r: &mut Self)
        ensures
            (*r).follows(*old(self), Opcode::I64Eq, words(seq![dst, a, b])),
            *final(self) == *final(r),
    {
        self.emit3(Opcode::I64Eq, dst, a, b);
        self
    }

    /// Encodes `i64_lt dst, a, b`.
    pub fn i64_lt(&mut self, dst: u32, a: u32, b: u32) -> (r: &mut Self)
        ensures
            (*r).follows(*old(self), Opcode::I64Lt, words(seq![dst, a, b])),
            *final(self) == *final(r),
    {
        self.emit3(Opcode::I64Lt, dst, a, b);
        self
    }

    /// Encodes `i64_gt dst, a, b`.
    pub fn i64_gt(&mut self, dst: u32, a: u32, b: u32) -> (r: &mut Self)
        ensures
            (*r).follows(*old(self), Opcode::I64Gt, words(seq![dst, a, b])),
            *final(self) == *final(r),
    {
        self.emit3(Opcode::I64Gt, dst, a, b);
        self
    }

    /// Encodes `i64_le dst, a, b`.
    pub fn i64_le(&mut self, dst: u32, a: u32, b: u32) -> (r: &mut Self)
        ensures
            (*r).follows(*old(self), Opcode::I64Le, words(seq![dst, a, b])),
            *final(self) == *final(r),
    {
        self.emit3(Opcode::I64Le, dst, a, b);
        self
    }

    /// Encodes `i64_ge dst, a, b`.
    pub fn i64_ge(&mut self, dst: u32, a: u32, b: u32) -> (r: &mut Self)
        ensures
            (*r).follows(*old(self), Opcode::I64Ge, words(seq![dst, a, b])),
            *final(self) == *final(r),
    {
        self.emit3(Opcode::I64Ge, dst, a, b);
        self
    }

    /// Encodes `i64_to_u64 dst, a`.
    pub fn i64_to_u64(&mut self, dst: u32, a: u32) -> (r: &mut Self)
        ensures
            (*r).follows(*old(self), Opcode::I64ToU64, words(seq![dst, a])),
            *final(self) == *final(r),
    {
        self.emit2(Opcode::I64ToU64, dst, a);
        self
    }

    /// Encodes `u64_add dst, a, b`.
    pub fn u64_add(&mut self, dst: u32, a: u32, b: u32) -> (r: &mut Self)
        ensures
            (*r).follows(*old(self), Opcode::U64Add, words(seq![dst, a, b])),
            *final(self) == *final(r),
    {
        self.emit3(Opcode::U64Add, dst, a, b);
        self
    }

    /// Encodes `u64_sub dst, a, b`.
    pub fn u64_sub(&mut self, dst: u32, a: u32, b: u32) -> (r: &mut Self)
        ensures
            (*r).follows(*old(self), Opcode::U64Sub, words(seq![dst, a, b])),
            *final(self) == *final(r),
    {
        self.emit3(Opcode::U64Sub, dst, a, b);
        self
    }

    /// Encodes `u64_mul dst, a, b`.
    pub fn u64_mul(&mut self, dst: u32, a: u32, b: u32) -> (r: &mut Self)
        ensures
            (*r).follows(*old(self), Opcode::U64Mul, words(seq![dst, a, b])),
            *final(self) == *final(r),
    {
        self.emit3(Opcode::U64Mul, dst, a, b);
        self
    }

    /// Encodes `u64_div dst, a, b`.
    pub fn u64_div(&mut self, dst: u32, a: u32, b: u32) -> (r: &mut Self)
        ensures
            (*r).follows(*old(self), Opcode::U64Div, words(seq![dst, a, b])),
            *final(self) == *final(r),
    {
        self.emit3(Opcode::U64Div, dst, a, b);
        self
    }

    /// Encodes `u64_rem dst, a, b`.
    pub fn u64_rem(&mut self, dst: u32, a: u32, b: u32) -> (r: &mut Self)
        ensures
            (*r).follows(*old(self), Opcode::U64Rem, words(seq![dst, a, b])),
            *final(self) == *final(r),
    {
        self.emit3(Opcode::U64Rem, dst, a, b);
        self
    }

    /// Encodes `u64_and dst, a, b`.
    pub fn u64_and(&mut self, dst: u32, a: u32, b: u32) -> (r: &mut Self)
        ensures
            (*r).follows(*old(self), Opcode::U64And, words(seq![dst, a, b])),
            *final(self) == *final(r),
    {
        self.emit3(Opcode::U64And, dst, a, b);
        self
    }

    /// Encodes `u64_or dst, a, b`.
    pub fn u64_or(&mut self, dst: u32, a: u32, b: u32) -> (r: &mut Self)
        ensures
            (*r).follows(*old(self), Opcode::U64Or, words(seq![dst, a, b])),
            *final(self) == *final(r),
    {
        self.emit3(Opcode::U64Or, dst, a, b);
        self
    }

    /// Encodes `u64_xor dst, a, b`.
    pub fn u64_xor(&mut self, dst: u32, a: u32, b: u32) -> (r: &mut Self)
        ensures
            (*r).follows(*old(self), Opcode::U64Xor, words(seq![dst, a, b])),
            *final(self) == *final(r),
    {
        self.emit3(Opcode::U64Xor, dst, a, b);
        self
    }

    /// Encodes `u64_shl dst, a, b`.
    pub fn u64_shl(&mut self, dst: u32, a: u32, b: u32) -> (r: &mut Self)
        ensures
            (*r).follows(*old(self), Opcode::U64Shl, words(seq![dst, a, b])),
            *final(self) == *final(r),
    {
        self.emit3(Opcode::U64Shl, dst, a, b);
        self
    }

    /// Encodes `u64_shr dst, a, b`.
    pub fn u64_shr(&mut self, dst: u32, a: u32, b: u32) -> (r: &mut Self)
        ensures
            (*r).follows(*old(self), Opcode::U64Shr, words(seq![dst, a, b])),
            *final(self) == *final(r),
    {
        self.emit3(Opcode::U64Shr, dst, a, b);
        self
    }

    /// Encodes `u64_eq dst, a, b`.
    pub fn u64_eq(&mut self, dst: u32, a: u32, b: u32) -> (r: &mut Self)
        ensures
            (*r).follows(*old(self), Opcode::U64Eq, words(seq![dst, a, b])),
            *final(self) == *final(r),
    {
        self.emit3(Opcode::U64Eq, dst, a, b);
        self
    }

    /// Encodes `u64_lt dst, a, b`.
    pub fn u64_lt(&mut self, dst: u32, a: u32, b: u32) -> (r: &mut Self)
        ensures
            (*r).follows(*old(self), Opcode::U64Lt, words(seq![dst, a, b])),
            *final(self) == *final(r),
    {
        self.emit3(Opcode::U64Lt, dst, a, b);
        self
    }

    /// Encodes `u64_gt dst, a, b`.
    pub fn u64_gt(&mut self, dst: u32, a: u32, b: u32) -> (r: &mut Self)
        ensures
            (*r).follows(*old(self), Opcode::U64Gt, words(seq![dst, a, b])),
            *final(self) == *final(r),
    {
        self.emit3(Opcode::U64Gt, dst, a, b);
        self
    }

    /// Encodes `u64_le dst, a, b`.
    pub fn u64_le(&mut self, dst: u32, a: u32, b: u32) -> (r: &mut Self)
        ensures
            (*r).follows(*old(self), Opcode::U64Le, words(seq![dst, a, b])),
            *final(self) == *final(r),
    {
        self.emit3(Opcode::U64Le, dst, a, b);
        self
    }

    /// Encodes `u64_ge dst, a, b`.
    pub fn u64_ge(&mut self, dst: u32, a: u32, b: u32) -> (r: &mut Self)
        ensures
            (*r).follows(*old(self), Opcode::U64Ge, words(seq![dst, a, b])),
            *final(self) == *final(r),
    {
        self.emit3(Opcode::U64Ge, dst, a, b);
        self
    }

    /// Encodes `u64_to_i64 dst, a`.
    pub fn u64_to_i64(&mut self, dst: u32, a: u32) -> (r: &mut Self)
        ensures
            (*r).follows(*old(self), Opcode::U64ToI64, words(seq![dst, a])),
            *final(self) == *final(r),
    {
        self.emit2(Opcode::U64ToI64, dst, a);
        self
    }

    /// Encodes `br cond, pc_true, pc_false`.
    pub fn br(&mut self, cond: u32, pc_true: Label, pc_false: Label) -> (r: &mut Self)
        ensures
            (*r)@ == old(self)@.emit_to(Opcode::Br, words(seq![cond]), seq![pc_true, pc_false]),
            old(self).wf() ==> (*r).wf(),
            *final(self) == *final(r),
    {
        let ghost before = *self;
        let ghost op = Opcode::Br;
        let ghost m1: Seq<OperandModel> = Seq::empty().push(OperandModel::Word(cond));
        put_op(&mut self.bytes, Opcode::Br);
        put_word(&mut self.bytes, cond, Ghost(before.bytes@), Ghost(op), Ghost(Seq::empty()));
        self.pc_label(pc_true);
        self.pc_label(pc_false);
        let ghost targets = seq![pc_true, pc_false];
        proof {
            reveal_with_fuel(blank, 3);
        }
        assert(self.bytes@ =~= before.bytes@ + bytecode::instr_bytes(op, m1) + blank(2));
        assert(self.fixups@ =~= before.fixups@ + branch_fixups(
            before.bytes@.len() + bytecode::instr_bytes(op, m1).len(),
            targets,
        ));
        self.record_branch(Ghost(before), Ghost(op), Ghost(m1), Ghost(targets));
        assert(words(seq![cond]) =~= m1);
        self
    }

    /// Encodes `jmp pc_target`.
    pub fn jmp(&mut self, pc_target: Label) -> (r: &mut Self)
        ensures
            (*r)@ == old(self)@.emit_to(Opcode::Jmp, seq![], seq![pc_target]),
            old(self).wf() ==> (*r).wf(),
            *final(self) == *final(r),
    {
        let ghost before = *self;
        let ghost op = Opcode::Jmp;
        put_op(&mut self.bytes, Opcode::Jmp);
        self.pc_label(pc_target);
        let ghost targets = seq![pc_target];
        proof {
            reveal_with_fuel(blank, 2);
        }
        assert(self.bytes@ =~= before.bytes@ + bytecode::instr_bytes(op, seq![]) + blank(1));
        assert(self.fixups@ =~= before.fixups@ + branch_fixups(
            before.bytes@.len() + bytecode::instr_bytes(op, seq![]).len(),
            targets,
        ));
        self.record_branch(Ghost(before), Ghost(op), Ghost(Seq::empty()), Ghost(targets));
        self
    }

    /// Encodes `bool_not dst, a`.
    pub fn bool_not(&mut self, dst: u32, a: u32) -> (r: &mut Self)
        ensures
            (*r).follows(*old(self), Opcode::BoolNot, words(seq![dst, a])),
            *final(self) == *final(r),
    {
        self.emit2(Opcode::BoolNot, dst, a);
        self
    }

    /// Encodes `bool_and dst, a, b`.
    pub fn bool_and(&mut self, dst: u32, a: u32, b: u32) -> (r: &mut Self)
        ensures
            (*r).follows(*old(self), Opcode::BoolAnd, words(seq![dst, a, b])),
            *final(self) == *final(r),
    {
        self.emit3(Opcode::BoolAnd, dst, a, b);
        self
    }

    /// Encodes `bool_or dst, a, b`.
    pub fn bool_or(&mut self, dst: u32, a: u32, b: u32) -> (r: &mut Self)
        ensures
            (*r).follows(*old(self), Opcode::BoolOr, words(seq![dst, a, b])),
            *final(self) == *final(r),
    {
        self.emit3(Opcode::BoolOr, dst, a, b);
        self
    }

    /// Encodes `bool_xor dst, a, b`.
    pub fn bool_xor(&mut self, dst: u32, a: u32, b: u32) -> (r: &mut Self)
        ensures
            (*r).follows(*old(self), Opcode::BoolXor, words(seq![dst, a, b])),
            *final(self) == *final(r),
    {
        self.emit3(Opcode::BoolXor, dst, a, b);
        self
    }

    /// Encodes `select dst, cond, a, b`.
    pub fn select(&mut self, dst: u32, cond: u32, a: u32, b: u32) -> (r: &mut Self)
        ensures
            (*r).follows(*old(self), Opcode::Select, words(seq![dst, cond, a, b])),
            *final(self) == *final(r),
    {
        self.emit4(Opcode::Select, dst, cond, a, b);
        self
    }

    /// Encodes `call eff_out, func_id, eff_in, args, rets`.
    pub fn call(&mut self, eff_out: u32, func_id: FuncId, eff_in: u32, args: &[u32], rets: &[u32]) -> (r: &mut Self)
        ensures
            (*r).follows(*old(self), Opcode::Call, words(seq![eff_out, func_id.0, eff_in]).push(OperandModel::List(args@)).push(OperandModel::List(rets@))),
            *final(self) == *final(r),
    {
        let head: Vec<u32> = vec![eff_out, func_id.0, eff_in];
        assert(head@ =~= seq![eff_out, func_id.0, eff_in]);
        self.emit_call(Opcode::Call, head, args, rets);
        self
    }

    /// Encodes `ret eff_in, rets`.
    pub fn ret(&mut self, eff_in: u32, rets: &[u32]) -> (r: &mut Self)
        ensures
            (*r).follows(*old(self), Opcode::Ret, words(seq![eff_in]).push(OperandModel::List(rets@))),
            *final(self) == *final(r),
    {
        let head: Vec<u32> = vec![eff_in];
        assert(head@ =~= seq![eff_in]);
        self.emit_list(Opcode::Ret, head, rets);
        self
    }

    /// Encodes `host_call eff_out, host_sig, eff_in, args, rets`.
    pub fn host_call(&mut self, eff_out: u32, host_sig: HostSigId, eff_in: u32, args: &[u32], rets: &[u32]) -> (r: &mut Self)
        ensures
            (*r).follows(*old(self), Opcode::HostCall, words(seq![eff_out, host_sig.0, eff_in]).push(OperandModel::List(args@)).push(OperandModel::List(rets@))),
            *final(self) == *final(r),
    {
        let head: Vec<u32> = vec![eff_out, host_sig.0, eff_in];
        assert(head@ =~= seq![eff_out, host_sig.0, eff_in]);
        self.emit_call(Opcode::HostCall, head, args, rets);
        self
    }

    /// Encodes `host_call`.
    pub fn host_call_sig_id(&mut self, eff_out: u32, host_sig: HostSigId, eff_in: u32, args: &[u32], rets: &[u32]) -> (r: &mut Self)
        ensures
            (*r).follows(*old(self), Opcode::HostCall, words(seq![eff_out, host_sig.0, eff_in]).push(OperandModel::List(args@)).push(OperandModel::List(rets@))),
            *final(self) == *final(r),
    {
        self.host_call(eff_out, host_sig, eff_in, args, rets);
        self
    }

    /// Encodes `f64_add dst, a, b`.
    pub fn f64_add(&mut self, dst: u32, a: u32, b: u32) -> (r: &mut Self)
        ensures
            (*r).follows(*old(self), Opcode::F64Add, words(seq![dst, a, b])),
            *final(self) == *final(r),
    {
        self.emit3(Opcode::F64Add, dst, a, b);
        self
    }

    /// Encodes `f64_sub dst, a, b`.
    pub fn f64_sub(&mut self, dst: u32, a: u32, b: u32) -> (r: &mut Self)
        ensures
            (*r).follows(*old(self), Opcode::F64Sub, words(seq![dst, a, b])),
            *final(self) == *final(r),
    {
        self.emit3(Opcode::F64Sub, dst, a, b);
        self
    }

    /// Encodes `f64_mul dst, a, b`.
    pub fn f64_mul(&mut self, dst: u32, a: u32, b: u32) -> (r: &mut Self)
        ensures
            (*r).follows(*old(self), Opcode::F64Mul, words(seq![dst, a, b])),
            *final(self) == *final(r),
    {
        self.emit3(Opcode::F64Mul, dst, a, b);
        self
    }

    /// Encodes `f64_div dst, a, b`.
    pub fn f64_div(&mut self, dst: u32, a: u32, b: u32) -> (r: &mut Self)
        ensures
            (*r).follows(*old(self), Opcode::F64Div, words(seq![dst, a, b])),
            *final(self) == *final(r),
    {
        self.emit3(Opcode::F64Div, dst, a, b);
        self
    }

    /// Encodes `f64_rem dst, a, b`.
    pub fn f64_rem(&mut self, dst: u32, a: u32, b: u32) -> (r: &mut Self)
        ensures
            (*r).follows(*old(self), Opcode::F64Rem, words(seq![dst, a, b])),
            *final(self) == *final(r),
    {
        self.emit3(Opcode::F64Rem, dst, a, b);
        self
    }

    /// Encodes `f64_min dst, a, b`.
    pub fn f64_min(&mut self, dst: u32, a: u32, b: u32) -> (r: &mut Self)
        ensures
            (*r).follows(*old(self), Opcode::F64Min, words(seq![dst, a, b])),
            *final(self) == *final(r),
    {
        self.emit3(Opcode::F64Min, dst, a, b);
        self
    }

    /// Encodes `f64_max dst, a, b`.
    pub fn f64_max(&mut self, dst: u32, a: u32, b: u32) -> (r: &mut Self)
        ensures
            (*r).follows(*old(self), Opcode::F64Max, words(seq![dst, a, b])),
            *final(self) == *final(r),
    {
        self.emit3(Opcode::F64Max, dst, a, b);
        self
    }

    /// Encodes `f64_min_num dst, a, b`.
    pub fn f64_min_num(&mut self, dst: u32, a: u32, b: u32) -> (r: &mut Self)
        ensures
            (*r).follows(*old(self), Opcode::F64MinNum, words(seq![dst, a, b])),
            *final(self) == *final(r),
    {
        self.emit3(Opcode::F64MinNum, dst, a, b);
        self
    }

    /// Encodes `f64_max_num dst, a, b`.
    pub fn f64_max_num(&mut self, dst: u32, a: u32, b: u32) -> (r: &mut Self)
        ensures
            (*r).follows(*old(self), Opcode::F64MaxNum, words(seq![dst, a, b])),
            *final(self) == *final(r),
    {
        self.emit3(Opcode::F64MaxNum, dst, a, b);
        self
    }

    /// Encodes `f64_eq dst, a, b`.
    pub fn f64_eq(&mut self, dst: u32, a: u32, b: u32) -> (r: &mut Self)
        ensures
            (*r).follows(*old(self), Opcode::F64Eq, words(seq![dst, a, b])),
            *final(self) == *final(r),
    {
        self.emit3(Opcode::F64Eq, dst, a, b);
        self
    }

    /// Encodes `f64_lt dst, a, b`.
    pub fn f64_lt(&mut self, dst: u32, a: u32, b: u32) -> (r: &mut Self)
        ensures
            (*r).follows(*old(self), Opcode::F64Lt, words(seq![dst, a, b])),
            *final(self) == *final(r),
    {
        self.emit3(Opcode::F64Lt, dst, a, b);
        self
    }

    /// Encodes `f64_gt dst, a, b`.
    pub fn f64_gt(&mut self, dst: u32, a: u32, b: u32) -> (r: &mut Self)
        ensures
            (*r).follows(*old(self), Opcode::F64Gt, words(seq![dst, a, b])),
            *final(self) == *final(r),
    {
        self.emit3(Opcode::F64Gt, dst, a, b);
        self
    }

    /// Encodes `f64_le dst, a, b`.
    pub fn f64_le(&mut self, dst: u32, a: u32, b: u32) -> (r: &mut Self)
        ensures
            (*r).follows(*old(self), Opcode::F64Le, words(seq![dst, a, b])),
            *final(self) == *final(r),
    {
        self.emit3(Opcode::F64Le, dst, a, b);
        self
    }

    /// Encodes `f64_ge dst, a, b`.
    pub fn f64_ge(&mut self, dst: u32, a: u32, b: u32) -> (r: &mut Self)
        ensures
            (*r).follows(*old(self), Opcode::F64Ge, words(seq![dst, a, b])),
            *final(self) == *final(r),
    {
        self.emit3(Opcode::F64Ge, dst, a, b);
        self
    }

    /// Encodes `f64_neg dst, a`.
    pub fn f64_neg(&mut self, dst: u32, a: u32) -> (r: &mut Self)
        ensures
            (*r).follows(*old(self), Opcode::F64Neg, words(seq![dst, a])),
            *final(self) == *final(r),
    {
        self.emit2(Opcode::F64Neg, dst, a);
        self
    }

    /// Encodes `f64_abs dst, a`.
    pub fn f64_abs(&mut self, dst: u32, a: u32) -> (r: &mut Self)
        ensures
            (*r).follows(*old(self), Opcode::F64Abs, words(seq![dst, a])),
            *final(self) == *final(r),
    {
        self.emit2(Opcode::F64Abs, dst, a);
        self
    }

    /// Encodes `f64_to_bits dst, a`.
    pub fn f64_to_bits(&mut self, dst: u32, a: u32) -> (r: &mut Self)
        ensures
            (*r).follows(*old(self), Opcode::F64ToBits, words(seq![dst, a])),
            *final(self) == *final(r),
    {
        self.emit2(Opcode::F64ToBits, dst, a);
        self
    }

    /// Encodes `f64_from_bits dst, a`.
    pub fn f64_from_bits(&mut self, dst: u32, a: u32) -> (r: &mut Self)
        ensures
            (*r).follows(*old(self), Opcode::F64FromBits, words(seq![dst, a])),
            *final(self) == *final(r),
    {
        self.emit2(Opcode::F64FromBits, dst, a);
        self
    }

    /// Encodes `f64_to_i64 dst, a`.
    pub fn f64_to_i64(&mut self, dst: u32, a: u32) -> (r: &mut Self)
        ensures
            (*r).follows(*old(self), Opcode::F64ToI64, words(seq![dst, a])),
            *final(self) == *final(r),
    {
        self.emit2(Opcode::F64ToI64, dst, a);
        self
    }

    /// Encodes `f64_to_u64 dst, a`.
    pub fn f64_to_u64(&mut self, dst: u32, a: u32) -> (r: &mut Self)
        ensures
            (*r).follows(*old(self), Opcode::F64ToU64, words(seq![dst, a])),
            *final(self) == *final(r),
    {
        self.emit2(Opcode::F64ToU64, dst, a);
        self
    }

    /// Encodes `i64_to_f64 dst, a`.
    pub fn i64_to_f64(&mut self, dst: u32, a: u32) -> (r: &mut Self)
        ensures
            (*r).follows(*old(self), Opcode::I64ToF64, words(seq![dst, a])),
            *final(self) == *final(r),
    {
        self.emit2(Opcode::I64ToF64, dst, a);
        self
    }

    /// Encodes `u64_to_f64 dst, a`.
    pub fn u64_to_f64(&mut self, dst: u32, a: u32) -> (r: &mut Self)
        ensures
            (*r).follows(*old(self), Opcode::U64ToF64, words(seq![dst, a])),
            *final(self) == *final(r),
    {
        self.emit2(Opcode::U64ToF64, dst, a);
        self
    }

    /// Encodes `tuple_new dst, values`.
    pub fn tuple_new(&mut self, dst: u32, values: &[u32]) -> (r: &mut Self)
        ensures
            (*r).follows(*old(self), Opcode::TupleNew, words(seq![dst]).push(OperandModel::List(values@))),
            *final(self) == *final(r),
    {
        let head: Vec<u32> = vec![dst];
        assert(head@ =~= seq![dst]);
        self.emit_list(Opcode::TupleNew, head, values);
        self
    }

    /// Encodes `tuple_get dst, tuple, index`.
    pub fn tuple_get(&mut self, dst: u32, tuple: u32, index: u32) -> (r: &mut Self)
        ensures
            (*r).follows(*old(self), Opcode::TupleGet, words(seq![dst, tuple, index])),
            *final(self) == *final(r),
    {
        self.emit3(Opcode::TupleGet, dst, tuple, index);
        self
    }

    /// Encodes `tuple_len dst, tuple`.
    pub fn tuple_len(&mut self, dst: u32, tuple: u32) -> (r: &mut Self)
        ensures
            (*r).follows(*old(self), Opcode::TupleLen, words(seq![dst, tuple])),
            *final(self) == *final(r),
    {
        self.emit2(Opcode::TupleLen, dst, tuple);
        self
    }

    /// Encodes `struct_new dst, type_id, values`.
    pub fn struct_new(&mut self, dst: u32, type_id: TypeId, values: &[u32]) -> (r: &mut Self)
        ensures
            (*r).follows(*old(self), Opcode::StructNew, words(seq![dst, type_id.0]).push(OperandModel::List(values@))),
            *final(self) == *final(r),
    {
        let head: Vec<u32> = vec![dst, type_id.0];
        assert(head@ =~= seq![dst, type_id.0]);
        self.emit_list(Opcode::StructNew, head, values);
        self
    }

    /// Encodes `struct_get dst, st, field_index`.
    pub fn struct_get(&mut self, dst: u32, st: u32, field_index: u32) -> (r: &mut Self)
        ensures
            (*r).follows(*old(self), Opcode::StructGet, words(seq![dst, st, field_index])),
            *final(self) == *final(r),
    {
        self.emit3(Opcode::StructGet, dst, st, field_index);
        self
    }

    /// Encodes `struct_field_count dst, st`.
    pub fn struct_field_count(&mut self, dst: u32, st: u32) -> (r: &mut Self)
        ensures
            (*r).follows(*old(self), Opcode::StructFieldCount, words(seq![dst, st])),
            *final(self) == *final(r),
    {
        self.emit2(Opcode::StructFieldCount, dst, st);
        self
    }

    /// Encodes `array_new dst, elem_type_id, values`.
    pub fn array_new(&mut self, dst: u32, elem_type_id: ElemTypeId, values: &[u32]) -> (r: &mut Self)
        ensures
            (*r).follows(*old(self), Opcode::ArrayNew, words(seq![dst, elem_type_id.0]).push(OperandModel::List(values@))),
            *final(self) == *final(r),
    {
        let head: Vec<u32> = vec![dst, elem_type_id.0];
        assert(head@ =~= seq![dst, elem_type_id.0]);
        self.emit_list(Opcode::ArrayNew, head, values);
        self
    }

    /// Encodes `array_len dst, arr`.
    pub fn array_len(&mut self, dst: u32, arr: u32) -> (r: &mut Self)
        ensures
            (*r).follows(*old(self), Opcode::ArrayLen, words(seq![dst, arr])),
            *final(self) == *final(r),
    {
        self.emit2(Opcode::ArrayLen, dst, arr);
        self
    }

    /// Encodes `array_get dst, arr, index_reg`.
    pub fn array_get(&mut self, dst: u32, arr: u32, index_reg: u32) -> (r: &mut Self)
        ensures
            (*r).follows(*old(self), Opcode::ArrayGet, words(seq![dst, arr, index_reg])),
            *final(self) == *final(r),
    {
        self.emit3(Opcode::ArrayGet, dst, arr, index_reg);
        self
    }

    /// Encodes `array_get_imm dst, arr, index`.
    pub fn array_get_imm(&mut self, dst: u32, arr: u32, index: u32) -> (r: &mut Self)
        ensures
            (*r).follows(*old(self), Opcode::ArrayGetImm, words(seq![dst, arr, index])),
            *final(self) == *final(r),
    {
        self.emit3(Opcode::ArrayGetImm, dst, arr, index);
        self
    }

    /// Encodes `bytes_len dst, bytes`.
    pub fn bytes_len(&mut self, dst: u32, bytes: u32) -> (r: &mut Self)
        ensures
            (*r).follows(*old(self), Opcode::BytesLen, words(seq![dst, bytes])),
            *final(self) == *final(r),
    {
        self.emit2(Opcode::BytesLen, dst, bytes);
        self
    }

    /// Encodes `bytes_eq dst, a, b`.
    pub fn bytes_eq(&mut self, dst: u32, a: u32, b: u32) -> (r: &mut Self)
        ensures
            (*r).follows(*old(self), Opcode::BytesEq, words(seq![dst, a, b])),
            *final(self) == *final(r),
    {
        self.emit3(Opcode::BytesEq, dst, a, b);
        self
    }

    /// Encodes `bytes_concat dst, a, b`.
    pub fn bytes_concat(&mut self, dst: u32, a: u32, b: u32) -> (r: &mut Self)
        ensures
            (*r).follows(*old(self), Opcode::BytesConcat, words(seq![dst, a, b])),
            *final(self) == *final(r),
    {
        self.emit3(Opcode::BytesConcat, dst, a, b);
        self
    }

    /// Encodes `bytes_get dst, bytes, index_reg`.
    pub fn bytes_get(&mut self, dst: u32, bytes: u32, index_reg: u32) -> (r: &mut Self)
        ensures
            (*r).follows(*old(self), Opcode::BytesGet, words(seq![dst, bytes, index_reg])),
            *final(self) == *final(r),
    {
        self.emit3(Opcode::BytesGet, dst, bytes, index_reg);
        self
    }

    /// Encodes `bytes_get_imm dst, bytes, index`.
    pub fn bytes_get_imm(&mut self, dst: u32, bytes: u32, index: u32) -> (r: &mut Self)
        ensures
            (*r).follows(*old(self), Opcode::BytesGetImm, words(seq![dst, bytes, index])),
            *final(self) == *final(r),
    {
        self.emit3(Opcode::BytesGetImm, dst, bytes, index);
        self
    }

    /// Encodes `bytes_slice dst, bytes, start, end`.
    pub fn bytes_slice(&mut self, dst: u32, bytes: u32, start: u32, end: u32) -> (r: &mut Self)
        ensures
            (*r).follows(*old(self), Opcode::BytesSlice, words(seq![dst, bytes, start, end])),
            *final(self) == *final(r),
    {
        self.emit4(Opcode::BytesSlice, dst, bytes, start, end);
        self
    }

    /// Encodes `bytes_to_str dst, bytes`.
    pub fn bytes_to_str(&mut self, dst: u32, bytes: u32) -> (r: &mut Self)
        ensures
            (*r).follows(*old(self), Opcode::BytesToStr, words(seq![dst, bytes])),
            *final(self) == *final(r),
    {
        self.emit2(Opcode::BytesToStr, dst, bytes);
        self
    }

    /// Encodes `str_len dst, s`.
    pub fn str_len(&mut self, dst: u32, s: u32) -> (r: &mut Self)
        ensures
            (*r).follows(*old(self), Opcode::StrLen, words(seq![dst, s])),
            *final(self) == *final(r),
    {
        self.emit2(Opcode::StrLen, dst, s);
        self
    }

    /// Encodes `str_eq dst, a, b`.
    pub fn str_eq(&mut self, dst: u32, a: u32, b: u32) -> (r: &mut Self)
        ensures
            (*r).follows(*old(self), Opcode::StrEq, words(seq![dst, a, b])),
            *final(self) == *final(r),
    {
        self.emit3(Opcode::StrEq, dst, a, b);
        self
    }

    /// Encodes `str_concat dst, a, b`.
    pub fn str_concat(&mut self, dst: u32, a: u32, b: u32) -> (r: &mut Self)
        ensures
            (*r).follows(*old(self), Opcode::StrConcat, words(seq![dst, a, b])),
            *final(self) == *final(r),
    {
        self.emit3(Opcode::StrConcat, dst, a, b);
        self
    }

    /// Encodes `str_slice dst, s, start, end`.
    pub fn str_slice(&mut self, dst: u32, s: u32, start: u32, end: u32) -> (r: &mut Self)
        ensures
            (*r).follows(*old(self), Opcode::StrSlice, words(seq![dst, s, start, end])),
            *final(self) == *final(r),
    {
        self.emit4(Opcode::StrSlice, dst, s, start, end);
        self
    }

    /// Encodes `str_to_bytes dst, s`.
    pub fn str_to_bytes(&mut self, dst: u32, s: u32) -> (r: &mut Self)
        ensures
            (*r).follows(*old(self), Opcode::StrToBytes, words(seq![dst, s])),
            *final(self) == *final(r),
    {
        self.emit2(Opcode::StrToBytes, dst, s);
        self
    }

    /// Notes a branch whose bytes, with a place for each target, have been appended.
    fn record_branch(
        &mut self,
        Ghost(before): Ghost<Asm>,
        Ghost(op): Ghost<Opcode>,
        Ghost(operands): Ghost<Seq<OperandModel>>,
        Ghost(targets): Ghost<Seq<Label>>,
    )
        requires
            before.bytes@.len() + bytecode::instr_bytes(op, operands).len() + 5 * targets.len() <= usize::MAX,
            old(self).bytes@ == before.bytes@ + bytecode::instr_bytes(op, operands) + blank(targets.len()),
            old(self).labels == before.labels,
            old(self).fixups@ == before.fixups@ + branch_fixups(
                before.bytes@.len() + bytecode::instr_bytes(op, operands).len(),
                targets,
            ),
            old(self).span_marks == before.span_marks,
            old(self).instrs == before.instrs,
            forall|k: int| 0 <= k < targets.len() ==> #[trigger] opcode::opcode_roles(op)[operands.len() + k] is Pc,
            well_typed(AsmInstr { op, operands, targets }),
        ensures
            final(self)@ == before@.emit_to(op, operands, targets),
            before.wf() ==> final(self).wf(),
    {
        let ghost x = AsmInstr { op, operands, targets };
        let ghost xs = self.instrs@;
        self.instrs = Ghost(xs.push(x));
        assert(self@ =~= before@.emit_to(op, operands, targets));
        proof {
            if before.wf() {
                let head = bytecode::instr_bytes(op, operands);
                let more = branch_fixups(before.bytes@.len() + head.len(), targets);
                let piece = head + blank(targets.len());
                assert(more.map_values(|f: Fixup| f.label) =~= x.targets);
                assert forall|place: spec_fn(Label) -> u32| {
                    let c = #[trigger] resolve(x, place);
                    let b = bytecode::instr_bytes(c.0, c.1);
                    &&& b.len() == piece.len()
                    &&& forall|p: int| 0 <= p < b.len() && !covered(more, p + before.bytes@.len()) ==> b[p] == piece[p]
                    &&& forall|j: int|
                        0 <= j < more.len() ==> wire::at(
                            b,
                            (#[trigger] more[j]).at - before.bytes@.len(),
                            bytecode::wide(place(more[j].label)),
                        )
                } by {
                    lemma_branch_bytes(op, operands, targets, place);
                    let c = resolve(x, place);
                    let b = bytecode::instr_bytes(c.0, c.1);
                    let pcs = wides(targets, place);
                    lemma_wides(targets, place);
                    assert(b == head + pcs);
                    assert forall|p: int| 0 <= p < b.len() && !covered(more, p + before.bytes@.len()) implies b[p] == piece[p] by {
                        if p >= head.len() {
                            let j = (p - head.len()) / 5;
                            assert(more[j].at <= p + before.bytes@.len() < more[j].at + 5);
                        }
                    }
                    assert forall|j: int| 0 <= j < more.len() implies wire::at(
                        b,
                        (#[trigger] more[j]).at - before.bytes@.len(),
                        bytecode::wide(place(more[j].label)),
                    ) by {
                        let w = bytecode::wide(place(targets[j]));
                        let i = head.len() + 5 * j;
                        assert(b.subrange(i, i + 5) =~= pcs.subrange(5 * j, 5 * j + 5));
                    }
                }
                lemma_stands_for_push(before.bytes@, before.fixups@, xs, x, piece, more);
                assert(before.bytes@ + piece =~= self.bytes@);
            }
        }
    }

    /// Finishes the instruction stream.
    pub fn finish(self) -> (res: Result<Vec<u8>, UnresolvedLabel>)
        requires
            self.wf(),
        ensures
            res is Ok <==> self@.complete(),
            res is Ok ==> res->Ok_0@ == self@.assembled(),
    {
        match self.finish_parts() {
            Ok(parts) => Ok(parts.bytecode),
            Err(e) => Err(e),
        }
    }

    /// Finishes the function body.
    pub fn finish_parts(self) -> (res: Result<AsmParts, UnresolvedLabel>)
        requires
            self.wf(),
        ensures
            res is Ok <==> self@.complete(),
            res is Ok ==> {
                &&& res->Ok_0.bytecode@ == self@.assembled()
                &&& res->Ok_0.spans@ == self@.span_table()
                &&& label_models(res->Ok_0.labels@) == self@.named_labels()
            },
    {
        let ghost v = self@;
        let Asm { bytes: start, labels, fixups, span_marks, instrs } = self;
        let ghost xs = instrs@;
        let ghost place = |l: Label| v.position(l);
        let ghost target = code(xs, place);
        proof {
            assert(agrees(start@, fixups@, target, place));
        }
        let mut bytes = start;
        let mut i: usize = 0;
        assert(forall|p: int| 0 <= p < bytes@.len() && !covered(fixups@, p) ==> bytes@[p] == target[p]);
        while i < fixups.len()
            invariant
                i <= fixups.len(),
                v == self@,
                v.labels == labels@.map_values(|l: LabelSlot| label_model(l)),
                v.instrs == xs,
                place == (|l: Label| v.position(l)),
                stands_for(start@, fixups@, xs),
                agrees(start@, fixups@, target, place),
                bytes@.len() == target.len(),
                forall|p: int| 0 <= p < bytes@.len() && !covered(fixups@, p) ==> bytes@[p] == target[p],
                forall|j: int, p: int|
                    0 <= j < i && (#[trigger] fixups@[j]).at <= p < fixups@[j].at + 5 ==> #[trigger] bytes@[p]
                        == target[p],
                forall|j: int| 0 <= j < i ==> v.placed((#[trigger] fixups@[j]).label),
            decreases fixups.len() - i,
        {
            let f = fixups[i];
            let k: usize = f.label.0 as usize;
            proof {
                assert(all_targets(xs)[i as int] == f.label) by {
                    assert(fixups@.map_values(|f: Fixup| f.label)[i as int] == f.label);
                }
            }
            if k >= labels.len() {
                return Err(UnresolvedLabel);
            }
            let pc: u32 = match labels[k].pc {
                Some(pc) => pc,
                None => {
                    assert(v.labels[k as int] == label_model(labels@[k as int]));
                    return Err(UnresolvedLabel);
                },
            };
            assert(v.labels[k as int] == label_model(labels@[k as int]));
            assert(place(f.label) == pc);
            proof {
                assert(wire::at(target, fixups@[i as int].at as int, bytecode::wide(place(f.label))));
            }
            let ghost before = bytes@;
            patch_uleb128_u32(&mut bytes, f.at, pc);
            assert forall|p: int| 0 <= p < bytes@.len() && (bytes@[p] != before[p] || f.at <= p < f.at + 5) implies bytes@[p] == target[p] by {
                assert(target.subrange(f.at as int, f.at + 5)[p - f.at] == target[p]);
            }
            i = i + 1;
        }
        assert(bytes@ =~= target) by {
            assert forall|p: int| 0 <= p < bytes@.len() implies bytes@[p] == target[p] by {
                if covered(fixups@, p) {
                    let j = choose|j: int| 0 <= j < fixups@.len() && (#[trigger] fixups@[j]).at <= p < fixups@[j].at + 5;
                    assert(fixups@[j].at <= p);
                }
            }
        }
        assert forall|k: int| 0 <= k < all_targets(v.instrs).len() implies v.placed(#[trigger] all_targets(v.instrs)[k]) by {
            assert(fixups@.map_values(|f: Fixup| f.label)[k] == fixups@[k].label);
        }
        let spans = span_entries(&span_marks);
        let mut labels_out: Vec<NamedLabel> = Vec::new();
        let mut n: usize = 0;
        assert(label_models(labels_out@) =~= named(v.labels, 0));
        while n < labels.len()
            invariant
                n <= labels.len(),
                v == self@,
                v.labels == labels@.map_values(|l: LabelSlot| label_model(l)),
                label_models(labels_out@) == named(v.labels, n as nat),
                forall|k: int| 0 <= k < n && (#[trigger] v.labels[k]).name is Some ==> v.labels[k].pc is Some,
            decreases labels.len() - n,
        {
            assert(v.labels[n as int] == label_model(labels@[n as int]));
            let ghost before = label_models(labels_out@);
            match &labels[n].name {
                Some(name) => match labels[n].pc {
                    Some(pc) => {
                        labels_out.push(NamedLabel { pc, name: name.clone() });
                        assert(label_models(labels_out@) =~= before.push((pc, name@)));
                    },
                    None => {
                        return Err(UnresolvedLabel);
                    },
                },
                None => {},
            }
            n = n + 1;
        }
        assert(spans@ =~= v.span_table());
        Ok(AsmParts { bytecode: bytes, spans, labels: labels_out })
    }
}

impl Default for Asm {
    fn default() -> (a: Self)
        ensures
            a.wf(),
            a@ == AsmView::empty(),
    {
        Asm::new()
    }
}

// ---------------------------------------------------------------------------------------------
// Laws.
// ---------------------------------------------------------------------------------------------

/// Whether no list of registers is longer than its count can say.
pub open spec fn lists_fit(x: AsmInstr) -> bool {
    forall|k: int|
        0 <= k < x.operands.len() && (#[trigger] x.operands[k]) is List
            ==> x.operands[k]->List_0.len() <= u32::MAX
}

proof fn lemma_encodable(x: AsmInstr, place: spec_fn(Label) -> u32)
    requires
        well_typed(x),
        lists_fit(x),
    ensures
        bytecode::encodable(x.op, resolve(x, place).1),
{
    let a = resolve(x, |l: Label| 0u32).1;
    let b = resolve(x, place).1;
    let roles = opcode::opcode_roles(x.op);
    assert forall|k: int| 0 <= k < roles.len() implies bytecode::fits_role(roles[k], #[trigger] b[k]) by {
        assert(bytecode::fits_role(roles[k], a[k]));
        if k < x.operands.len() {
            assert(a[k] == b[k]);
        }
    }
    assert forall|k: int| 0 <= k < b.len() && (#[trigger] b[k]) is List implies b[k]->List_0.len()
        <= u32::MAX by {
        if k < x.operands.len() {
            assert(b[k] == x.operands[k]);
        }
    }
}

/// What was assembled decodes to the instructions that were emitted, in order, with each label
/// replaced by the position at which it was placed.
pub proof fn law_assembled_decodes(a: Asm)
    requires
        a.wf(),
        forall|k: int| 0 <= k < a@.instrs.len() ==> lists_fit(#[trigger] a@.instrs[k]),
        a@.assembled().len() <= u32::MAX,
    ensures
        bytecode::instrs(a@.assembled()) == Ok::<Seq<bytecode::InstrModel>, bytecode::BytecodeError>(
            bytecode::code_model(resolve_all(a@.instrs, |l: Label| a@.position(l))),
        ),
{
    let place = |l: Label| a@.position(l);
    let xs = resolve_all(a@.instrs, place);
    assert forall|k: int| 0 <= k < xs.len() implies bytecode::encodable((#[trigger] xs[k]).0, xs[k].1) by {
        lemma_encodable(a@.instrs[k], place);
    }
    bytecode::law_code_reads_back(xs);
}

/// The bytes of the first `n` instructions are the first bytes of the stream.
proof fn lemma_code_offset(xs: Seq<(Opcode, Seq<OperandModel>)>, n: int)
    requires
        0 <= n < xs.len(),
    ensures
        bytecode::code_model(xs).len() == xs.len(),
        bytecode::code_model(xs)[n].offset == bytecode::code_bytes(xs.take(n)).len(),
    decreases xs.len(),
{
    let front = xs.drop_last();
    if n < front.len() {
        lemma_code_offset(front, n);
        assert(front.take(n) =~= xs.take(n));
    } else {
        if front.len() > 0 {
            lemma_code_offset(front, 0);
        }
        assert(xs.take(n) =~= front);
    }
}

/// The number of bytes does not depend on where the labels are placed.
pub proof fn law_len_without_labels(a: Asm, place: spec_fn(Label) -> u32)
    requires
        a.wf(),
    ensures
        code(a@.instrs, place).len() == a@.len(),
{
    a.lemma_len();
    assert(agrees(a.bytes@, a.fixups@, code(a.instrs@, place), place));
}

/// A label placed when an assembler stood at `v` is the position of the first instruction that was
/// emitted afterwards.
pub proof fn law_label_starts_instruction(v: Asm, w: Asm)
    requires
        v.wf(),
        v@.instrs.len() < w@.instrs.len(),
        v@.instrs == w@.instrs.take(v@.instrs.len() as int),
        v@.len() <= u32::MAX,
    ensures
        bytecode::code_model(resolve_all(w@.instrs, |l: Label| w@.position(l)))[v@.instrs.len() as int].offset
            == v@.pc(),
{
    let place = |l: Label| w@.position(l);
    let n = v@.instrs.len() as int;
    let xs = resolve_all(w@.instrs, place);
    lemma_code_offset(xs, n);
    assert(xs.take(n) =~= resolve_all(v@.instrs, place));
    law_len_without_labels(v, place);
}

/// The sum of the first `n` steps of a span table.
pub open spec fn span_pc(spans: Seq<SpanEntry>, n: nat) -> int
    decreases n,
{
    if n == 0 {
        0
    } else {
        span_pc(spans, (n - 1) as nat) + spans[n - 1].pc_delta
    }
}

/// Adding up the steps of the span table gives back the position of each mark.
pub proof fn law_span_positions(a: Asm, n: nat)
    requires
        a.wf(),
        0 < n <= a@.marks.len(),
    ensures
        span_pc(a@.span_table(), n) == a@.marks[n - 1].0,
    decreases n,
{
    if n > 1 {
        law_span_positions(a, (n - 1) as nat);
        assert(a.span_marks@[n - 2].0 <= a.span_marks@[n - 1].0);
    } else {
        assert(span_pc(a@.span_table(), 0) == 0);
    }
}

} // verus!
