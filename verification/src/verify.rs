//! Verification of programs.
//!
//! A function is verified when its registers can be typed: at every instruction that can be
//! reached, each register that is read holds a value of the type that the instruction asks for,
//! whichever way the instruction was reached.

use vstd::prelude::*;

use crate::bytecode;
use crate::bytecode::{decode_instructions, BytecodeError, DecodedInstr, InstrModel};
use crate::effects;
use crate::effects::{effect_of, word_of, RegState};
use crate::faults;
use crate::faults::Place;
use crate::host::sig_hash_slices;
use crate::opcode;
use crate::opcode::Opcode;
use crate::program;
use crate::program::{Function, HostSigEntry, Program, ProgramView, SpanEntry, ValueType};
use crate::typing;
use crate::typing::{Known, RegType, RegTypeModel, Regs, Writes};
use crate::value::FuncId;

verus! {

/// Limits of verification.
#[derive(Copy, Clone, Debug, PartialEq, Eq, Structural)]
pub struct VerifyConfig {
    /// The greatest number of registers that a function may have.
    pub max_regs: u32,
}

impl Default for VerifyConfig {
    fn default() -> (c: Self)
        ensures
            c == (VerifyConfig { max_regs: 65536 }),
    {
        VerifyConfig { max_regs: 65536 }
    }
}

/// Why a program was rejected.
#[derive(Copy, Clone, Debug, PartialEq, Eq, Structural)]
pub enum VerifyError {
    /// A host signature has no types, or not the hash of them.
    BadHostSig {
        /// The host signature.
        host_sig: u32,
    },
    /// A range of a function lies outside of its arena.
    BadRange {
        /// The function.
        func: u32,
    },
    /// A function has too few registers for its arguments, or more than is allowed.
    BadRegCount {
        /// The function.
        func: u32,
    },
    /// The instruction stream of a function cannot be decoded.
    Bytecode {
        /// The function.
        func: u32,
        /// Why it cannot be decoded.
        error: BytecodeError,
    },
    /// A function has no instruction.
    EmptyBody {
        /// The function.
        func: u32,
    },
    /// A register is read that may not have a value.
    UninitializedRead {
        /// The function.
        func: u32,
        /// Position of the instruction.
        pc: u32,
        /// The register.
        reg: u32,
    },
    /// A register is read that holds a value of another type.
    TypeMismatch {
        /// The function.
        func: u32,
        /// Position of the instruction.
        pc: u32,
        /// The register.
        reg: u32,
        /// The type that the instruction asks for.
        expected: ValueType,
        /// The type of the register.
        actual: ValueType,
    },
    /// A register is written that the function does not have.
    RegOutOfBounds {
        /// The function.
        func: u32,
        /// Position of the instruction.
        pc: u32,
        /// The register.
        reg: u32,
    },
    /// An operand names something that the program does not have, or a list has the wrong length.
    BadOperand {
        /// The function.
        func: u32,
        /// Position of the instruction.
        pc: u32,
    },
    /// An element is taken of an aggregate whose elements are not known.
    UnknownElement {
        /// The function.
        func: u32,
        /// Position of the instruction.
        pc: u32,
        /// The register of the aggregate.
        reg: u32,
    },
    /// A branch goes to a position where no instruction starts.
    BadTarget {
        /// The function.
        func: u32,
        /// Position of the instruction.
        pc: u32,
    },
    /// Control goes on behind the last instruction.
    FallsThrough {
        /// The function.
        func: u32,
        /// Position of the instruction.
        pc: u32,
    },
}

// ---------------------------------------------------------------------------------------------
// What a verified function is.
// ---------------------------------------------------------------------------------------------

/// A function, as the verifier looks at it.
pub struct Body {
    pub xs: Seq<InstrModel>,
    pub args: Seq<ValueType>,
    pub rets: Seq<ValueType>,
    pub reg_count: nat,
}

/// The index of the instruction at a position, from instruction `k` on.
pub open spec fn index_from(xs: Seq<InstrModel>, pc: u32, k: int) -> Option<int>
    decreases xs.len() - k,
{
    if k < 0 || k >= xs.len() {
        None
    } else if xs[k].offset == pc {
        Some(k)
    } else {
        index_from(xs, pc, k + 1)
    }
}

/// The index of the instruction at a position.
pub open spec fn index_at(xs: Seq<InstrModel>, pc: u32) -> Option<int> {
    index_from(xs, pc, 0)
}

/// The instructions that may follow instruction `i`; none where one of them does not exist.
pub open spec fn successors(xs: Seq<InstrModel>, i: int) -> Option<Seq<int>> {
    match xs[i].op {
        Opcode::Br => match (
            index_at(xs, typing::word(xs[i], 1)),
            index_at(xs, typing::word(xs[i], 2)),
        ) {
            (Some(a), Some(b)) => Some(seq![a, b]),
            _ => None,
        },
        Opcode::Jmp => match index_at(xs, typing::word(xs[i], 0)) {
            Some(a) => Some(seq![a]),
            None => None,
        },
        Opcode::Ret | Opcode::Trap => Some(seq![]),
        _ => if i + 1 < xs.len() {
            Some(seq![i + 1])
        } else {
            None
        },
    }
}

/// What is known of registers at entry: the effect token in register 0, and the arguments behind
/// it.
pub open spec fn entry_regs(args: Seq<ValueType>, n: nat) -> Regs {
    Seq::new(
        n,
        |r: int|
            if r == 0 {
                Some(RegTypeModel::Plain(ValueType::Unit))
            } else if r <= args.len() {
                Some(RegTypeModel::Plain(args[r - 1]))
            } else {
                None
            },
    )
}

/// What is known of the registers at each instruction, where it can be reached.
pub type Typing = Seq<Option<Regs>>;

/// Instruction `i` is allowed where the typing says it can be reached, and what is known after it
/// is no less than the typing says of those that follow.
pub open spec fn step_ok(p: ProgramView, b: Body, t: Typing, i: int) -> bool {
    match t[i] {
        None => true,
        Some(st) => match (typing::effect(p, b.rets, b.xs[i], st), successors(b.xs, i)) {
            (Some(w), Some(next)) => {
                &&& typing::in_bounds(w, b.reg_count)
                &&& forall|k: int|
                    0 <= k < next.len() ==> reaches(t, #[trigger] next[k], typing::after(st, w))
            },
            _ => false,
        },
    }
}

/// The typing of instruction `j` says that it can be reached, and no more than `st`.
pub open spec fn reaches(t: Typing, j: int, st: Regs) -> bool {
    0 <= j < t.len() && t[j] is Some && typing::weaker_all(st, t[j]->0)
}

/// A typing of a function under which every instruction that can be reached is allowed.
pub open spec fn valid_typing(p: ProgramView, b: Body, t: Typing) -> bool {
    &&& t.len() == b.xs.len()
    &&& forall|i: int| 0 <= i < t.len() && (#[trigger] t[i]) is Some ==> t[i]->0.len() == b.reg_count
    &&& reaches(t, 0, entry_regs(b.args, b.reg_count))
    &&& forall|i: int| 0 <= i < t.len() ==> #[trigger] step_ok(p, b, t, i)
}

/// Whether the registers of a function can be typed.
pub open spec fn typable(p: ProgramView, b: Body) -> bool {
    exists|t: Typing| valid_typing(p, b, t)
}

/// A function, as the verifier looks at it; none where its tables or its instructions are
/// malformed.
pub open spec fn body_of(p: ProgramView, f: Function) -> Option<Body> {
    match (
        program::slice_of(p.value_types, f.arg_types),
        program::slice_of(p.value_types, f.ret_types),
        program::slice_of(p.bytecode_data, f.bytecode),
        program::slice_of(p.spans, f.spans),
    ) {
        (Some(args), Some(rets), Some(code), Some(_)) => match bytecode::instrs(code) {
            Ok(xs) => Some(Body { xs, args, rets, reg_count: f.reg_count as nat }),
            Err(_) => None,
        },
        _ => None,
    }
}

/// Whether a function is accepted.
pub open spec fn accepts_function(p: ProgramView, f: Function, cfg: VerifyConfig) -> bool {
    body_of(p, f) matches Some(b) && {
        &&& b.args.len() < f.reg_count <= cfg.max_regs
        &&& b.args.len() == f.arg_count
        &&& b.rets.len() == f.ret_count
        &&& b.xs.len() > 0
        &&& typable(p, b)
    }
}

/// Whether a program is accepted.
pub open spec fn accepts(p: ProgramView, cfg: VerifyConfig) -> bool {
    &&& forall|i: int|
        0 <= i < p.host_sigs.len() ==> faults::host_sig_ok(p, #[trigger] p.host_sigs[i])
    &&& forall|i: int| 0 <= i < p.functions.len() ==> accepts_function(p, #[trigger] p.functions[i], cfg)
}

// ---------------------------------------------------------------------------------------------
// Register states.
// ---------------------------------------------------------------------------------------------

/// What register states say.
pub open spec fn states_of(v: Seq<Option<RegState>>) -> Typing {
    v.map_values(
        |s: Option<RegState>|
            match s {
                Some(r) => Some(typing::known_all(r@)),
                None => None,
            },
    )
}

/// How much is known of a register.
pub open spec fn weight(k: Known) -> nat {
    match k {
        None => 0,
        Some(RegTypeModel::Plain(ValueType::Agg)) => 1,
        Some(_) => 2,
    }
}

/// How much is known of registers.
pub open spec fn regs_weight(r: Regs) -> nat
    decreases r.len(),
{
    if r.len() == 0 {
        0
    } else {
        regs_weight(r.drop_last()) + weight(r.last())
    }
}

/// How much can still be forgotten of the registers at an instruction.
pub open spec fn slot_weight(o: Option<Regs>, n: nat) -> nat {
    match o {
        None => 2 * n + 1,
        Some(r) => regs_weight(r),
    }
}

/// How much can still be forgotten in all.
pub open spec fn total_weight(t: Typing, n: nat) -> nat
    decreases t.len(),
{
    if t.len() == 0 {
        0
    } else {
        total_weight(t.drop_last(), n) + slot_weight(t.last(), n)
    }
}

proof fn lemma_regs_weight_bound(r: Regs)
    ensures
        regs_weight(r) <= 2 * r.len(),
    decreases r.len(),
{
    if r.len() > 0 {
        lemma_regs_weight_bound(r.drop_last());
    }
}

proof fn lemma_join_weight(a: Regs, b: Regs)
    requires
        a.len() == b.len(),
    ensures
        regs_weight(typing::join_all(a, b)) <= regs_weight(a),
        typing::join_all(a, b) != a ==> regs_weight(typing::join_all(a, b)) < regs_weight(a),
    decreases a.len(),
{
    let j = typing::join_all(a, b);
    if a.len() > 0 {
        lemma_join_weight(a.drop_last(), b.drop_last());
        assert(j.drop_last() =~= typing::join_all(a.drop_last(), b.drop_last()));
        assert(weight(j.last()) <= weight(a.last()));
        if j != a {
            if j.drop_last() == a.drop_last() && j.last() == a.last() {
                assert forall|r: int| 0 <= r < a.len() implies j[r] == a[r] by {
                    if r < a.len() - 1 {
                        assert(j.drop_last()[r] == a.drop_last()[r]);
                    }
                }
                assert(j =~= a);
            }
        }
    } else {
        assert(j =~= a);
    }
}

proof fn lemma_total_update(t: Typing, j: int, o: Option<Regs>, n: nat)
    requires
        0 <= j < t.len(),
    ensures
        total_weight(t.update(j, o), n) + slot_weight(t[j], n) == total_weight(t, n) + slot_weight(
            o,
            n,
        ),
    decreases t.len(),
{
    let u = t.update(j, o);
    if j == t.len() - 1 {
        assert(u.drop_last() =~= t.drop_last());
    } else {
        lemma_total_update(t.drop_last(), j, o, n);
        assert(u.drop_last() =~= t.drop_last().update(j, o));
    }
}

/// Whether what is known of a register is the same.
fn same_known(a: &Option<RegType>, b: &Option<RegType>) -> (r: bool)
    ensures
        r == (typing::known(*a) == typing::known(*b)),
{
    match (a, b) {
        (Some(x), Some(y)) => x.same(y),
        (None, None) => true,
        _ => false,
    }
}

/// What is known of a register where either of two things is known.
fn join_known(a: &Option<RegType>, b: &Option<RegType>) -> (r: Option<RegType>)
    ensures
        typing::known(r) == typing::join(typing::known(*a), typing::known(*b)),
{
    match (a, b) {
        (Some(x), Some(y)) => if x.same(y) {
            Some(x.duplicate())
        } else {
            match (x.ty(), y.ty()) {
                (ValueType::Agg, ValueType::Agg) => Some(RegType::Plain(ValueType::Agg)),
                _ => None,
            }
        },
        _ => None,
    }
}

/// What is known of registers where either of two things is known, and whether that is less than
/// the first.
fn join_states(a: &RegState, b: &RegState) -> (r: (RegState, bool))
    requires
        a@.len() == b@.len(),
    ensures
        typing::known_all(r.0@) == typing::join_all(typing::known_all(a@), typing::known_all(b@)),
        r.1 == (typing::known_all(r.0@) != typing::known_all(a@)),
{
    let ghost ka = typing::known_all(a@);
    let ghost kb = typing::known_all(b@);
    let mut out: RegState = Vec::new();
    let mut changed: bool = false;
    let mut i: usize = 0;
    while i < a.len()
        invariant
            i <= a.len(),
            a@.len() == b@.len(),
            ka == typing::known_all(a@),
            kb == typing::known_all(b@),
            out@.len() == i,
            forall|k: int| 0 <= k < i ==> typing::known(#[trigger] out@[k]) == typing::join(ka[k], kb[k]),
            changed ==> exists|k: int| 0 <= k < i && typing::known(#[trigger] out@[k]) != ka[k],
            !changed ==> forall|k: int| 0 <= k < i ==> typing::known(#[trigger] out@[k]) == ka[k],
        decreases a.len() - i,
    {
        let k = join_known(&a[i], &b[i]);
        assert(ka[i as int] == typing::known(a@[i as int]));
        assert(kb[i as int] == typing::known(b@[i as int]));
        let same: bool = same_known(&k, &a[i]);
        let ghost before = out@;
        out.push(k);
        assert(forall|q: int| 0 <= q < i ==> #[trigger] out@[q] == before[q]);
        proof {
            if changed {
                let q = choose|q: int| 0 <= q < i && typing::known(#[trigger] before[q]) != ka[q];
                assert(typing::known(out@[q]) != ka[q]);
            }
        }
        if !same {
            changed = true;
            assert(typing::known(out@[i as int]) != ka[i as int]);
        }
        i = i + 1;
    }
    assert(typing::known_all(out@) =~= typing::join_all(ka, kb));
    proof {
        if changed {
            let k = choose|k: int| 0 <= k < i && typing::known(#[trigger] out@[k]) != ka[k];
            assert(typing::known_all(out@)[k] == typing::known(out@[k]));
        } else {
            assert forall|k: int| 0 <= k < ka.len() implies typing::known_all(out@)[k] == ka[k] by {
                assert(typing::known(out@[k]) == ka[k]);
            }
            assert(typing::known_all(out@) =~= ka);
        }
    }
    (out, changed)
}

/// A copy of a register state.
fn copy_state(a: &RegState) -> (r: RegState)
    ensures
        typing::known_all(r@) == typing::known_all(a@),
{
    let mut out: RegState = Vec::new();
    let mut i: usize = 0;
    while i < a.len()
        invariant
            i <= a.len(),
            out@.len() == i,
            forall|k: int| 0 <= k < i ==> typing::known(#[trigger] out@[k]) == typing::known(a@[k]),
        decreases a.len() - i,
    {
        let k: Option<RegType> = match &a[i] {
            Some(t) => Some(t.duplicate()),
            None => None,
        };
        out.push(k);
        i = i + 1;
    }
    assert(typing::known_all(out@) =~= typing::known_all(a@));
    out
}

/// A register state after writes.
fn state_after(st: &RegState, w: Vec<(u32, RegType)>) -> (r: RegState)
    requires
        typing::in_bounds(effects::write_models(w@), st@.len()),
    ensures
        typing::known_all(r@) == typing::after(typing::known_all(st@), effects::write_models(w@)),
        r@.len() == st@.len(),
{
    let ghost all = effects::write_models(w@);
    let mut out = copy_state(st);
    let ghost k0 = typing::known_all(st@);
    assert(typing::known_all(out@).len() == k0.len());
    let mut i: usize = 0;
    assert(all.take(0) =~= Writes::empty());
    while i < w.len()
        invariant
            i <= w.len(),
            all == effects::write_models(w@),
            k0 == typing::known_all(st@),
            typing::in_bounds(all, st@.len()),
            out@.len() == st@.len(),
            typing::known_all(out@) == typing::after(k0, all.take(i as int)),
        decreases w.len() - i,
    {
        let ghost before = typing::known_all(out@);
        let t = w[i].1.duplicate();
        let r: usize = w[i].0 as usize;
        assert(all[i as int] == (w@[i as int].0, w@[i as int].1@));
        out.set(r, Some(t));
        assert(all.take(i + 1).drop_last() =~= all.take(i as int));
        assert(typing::known_all(out@) =~= before.update(r as int, Some(all[i as int].1)));
        i = i + 1;
    }
    assert(all.take(i as int) =~= all);
    out
}

/// Makes what is known at instruction `j` no more than what is known by `out`, and says whether
/// that is less than before.
fn merge_into(states: &mut Vec<Option<RegState>>, j: usize, out: &RegState) -> (changed: bool)
    requires
        j < old(states)@.len(),
        states_of(old(states)@)[j as int] matches Some(s) ==> s.len() == out@.len(),
    ensures
        final(states)@.len() == old(states)@.len(),
        ({
            let t = states_of(old(states)@);
            let o = typing::known_all(out@);
            let merged = match t[j as int] {
                None => o,
                Some(s) => typing::join_all(s, o),
            };
            &&& states_of(final(states)@) == t.update(j as int, Some(merged))
            &&& changed == (t[j as int] != Some(merged))
        }),
        changed ==> total_weight(states_of(final(states)@), out@.len()) < total_weight(
            states_of(old(states)@),
            out@.len(),
        ),
        !changed ==> states_of(final(states)@) == states_of(old(states)@),
{
    let ghost t = states_of(states@);
    let ghost o = typing::known_all(out@);
    let ghost n = out@.len();
    let (merged, changed): (RegState, bool) = match &states[j] {
        None => (copy_state(out), true),
        Some(s) => {
            assert(t[j as int] == Some(typing::known_all(s@)));
            join_states(s, out)
        },
    };
    let ghost m = typing::known_all(merged@);
    states.set(j, Some(merged));
    assert(states_of(states@) =~= t.update(j as int, Some(m)));
    proof {
        lemma_total_update(t, j as int, Some(m), n);
        lemma_regs_weight_bound(m);
        match t[j as int] {
            Some(s) => {
                lemma_join_weight(s, o);
            },
            None => {},
        }
        if !changed {
            assert(t.update(j as int, Some(m)) =~= t);
        }
    }
    changed
}

// ---------------------------------------------------------------------------------------------
// Finding a typing.
// ---------------------------------------------------------------------------------------------

/// The index of the instruction at a position.
pub fn find_pc(xs: &Vec<DecodedInstr>, pc: u32) -> (r: Option<usize>)
    ensures
        match index_at(bytecode::instr_models(xs@), pc) {
            Some(j) => r is Some && r->0 == j,
            None => r is None,
        },
        r is Some ==> r->0 < xs@.len(),
{
    let ghost ms = bytecode::instr_models(xs@);
    let mut i: usize = 0;
    while i < xs.len()
        invariant
            i <= xs.len(),
            ms == bytecode::instr_models(xs@),
            index_from(ms, pc, i as int) == index_at(ms, pc),
        decreases xs.len() - i,
    {
        assert(ms[i as int] == xs@[i as int]@);
        if xs[i].offset == pc {
            return Some(i);
        }
        i = i + 1;
    }
    None
}

/// The instructions that may follow instruction `i`.
fn next_of(xs: &Vec<DecodedInstr>, i: usize, func: u32) -> (res: Result<Vec<usize>, VerifyError>)
    requires
        i < xs@.len(),
        xs@[i as int].instr.wf(),
    ensures
        match successors(bytecode::instr_models(xs@), i as int) {
            Some(v) => res is Ok && res->Ok_0@.map_values(|j: usize| j as int) == v && forall|k: int|
                0 <= k < res->Ok_0@.len() ==> #[trigger] res->Ok_0@[k] < xs@.len(),
            None => res is Err,
        },
        effects::fault_of(res) == faults::next_fault(
            func,
            bytecode::instr_models(xs@),
            i as int,
        ),
{
    let ghost ms = bytecode::instr_models(xs@);
    let x = &xs[i];
    assert(ms[i as int] == x@);
    let pc: u32 = x.offset;
    let mut out: Vec<usize> = Vec::new();
    match x.instr.op {
        Opcode::Br => {
            let a = find_pc(xs, word_of(x, 1));
            let b = find_pc(xs, word_of(x, 2));
            match (a, b) {
                (Some(a), Some(b)) => {
                    out.push(a);
                    out.push(b);
                    assert(out@.map_values(|j: usize| j as int) =~= seq![a as int, b as int]);
                    Ok(out)
                },
                _ => Err(VerifyError::BadTarget { func, pc }),
            }
        },
        Opcode::Jmp => match find_pc(xs, word_of(x, 0)) {
            Some(a) => {
                out.push(a);
                assert(out@.map_values(|j: usize| j as int) =~= seq![a as int]);
                Ok(out)
            },
            None => Err(VerifyError::BadTarget { func, pc }),
        },
        Opcode::Ret | Opcode::Trap => {
            assert(out@.map_values(|j: usize| j as int) =~= seq![]);
            Ok(out)
        },
        _ => {
            if i < xs.len() - 1 {
                out.push(i + 1);
                assert(out@.map_values(|j: usize| j as int) =~= seq![i + 1]);
                Ok(out)
            } else {
                Err(VerifyError::FallsThrough { func, pc })
            }
        },
    }
}

/// `big` says no more than `t` of every instruction that `t` says can be reached.
spec fn below(t: Typing, big: Typing) -> bool {
    &&& t.len() == big.len()
    &&& forall|i: int|
        0 <= i < t.len() && (#[trigger] t[i]) is Some ==> big[i] is Some && typing::weaker_all(
            t[i]->0,
            big[i]->0,
        )
}

/// What holds while a typing is being found: it is no weaker than any valid one.
spec fn candidate(p: ProgramView, b: Body, t: Typing) -> bool {
    &&& t.len() == b.xs.len()
    &&& forall|i: int| 0 <= i < t.len() && (#[trigger] t[i]) is Some ==> t[i]->0.len() == b.reg_count
    &&& reaches(t, 0, entry_regs(b.args, b.reg_count))
    &&& forall|big: Typing| #[trigger] valid_typing(p, b, big) ==> below(t, big)
}

/// What any valid typing says of an instruction that follows one that can be reached.
proof fn lemma_flows(p: ProgramView, b: Body, t: Typing, i: int, big: Typing, w: Writes)
    requires
        0 <= i < t.len(),
        t[i] is Some,
        t[i]->0.len() == b.reg_count,
        below(t, big),
        valid_typing(p, b, big),
        typing::effect(p, b.rets, b.xs[i], t[i]->0) == Some(w),
        typing::in_bounds(w, b.reg_count),
    ensures
        successors(b.xs, i) is Some,
        forall|k: int|
            0 <= k < successors(b.xs, i)->0.len() ==> reaches(
                big,
                #[trigger] successors(b.xs, i)->0[k],
                typing::after(t[i]->0, w),
            ),
{
    let st = t[i]->0;
    let sb = big[i]->0;
    assert(step_ok(p, b, big, i));
    let wb = typing::effect(p, b.rets, b.xs[i], sb)->0;
    typing::lemma_effect_monotone(p, b.rets, b.xs[i], st, sb);
    typing::lemma_after_monotone(st, sb, w, wb);
    let next = successors(b.xs, i)->0;
    assert forall|k: int| 0 <= k < next.len() implies reaches(big, #[trigger] next[k], typing::after(st, w)) by {
        assert(reaches(big, next[k], typing::after(sb, wb)));
        typing::lemma_weaker_all_trans(typing::after(st, w), typing::after(sb, wb), big[next[k]]->0);
    }
}

/// Where no valid typing allows an instruction that can be reached, there is none.
proof fn lemma_stuck(p: ProgramView, b: Body, t: Typing, i: int)
    requires
        0 <= i < t.len(),
        t[i] is Some,
        candidate(p, b, t),
        match (typing::effect(p, b.rets, b.xs[i], t[i]->0), successors(b.xs, i)) {
            (Some(w), Some(_)) => !typing::in_bounds(w, b.reg_count),
            _ => true,
        },
    ensures
        !typable(p, b),
{
    if typable(p, b) {
        let big = choose|big: Typing| valid_typing(p, b, big);
        assert(below(t, big));
        assert(step_ok(p, b, big, i));
        typing::lemma_effect_monotone(p, b.rets, b.xs[i], t[i]->0, big[i]->0);
        let w = typing::effect(p, b.rets, b.xs[i], t[i]->0)->0;
        let wb = typing::effect(p, b.rets, b.xs[i], big[i]->0)->0;
        assert forall|k: int| 0 <= k < w.len() implies (#[trigger] w[k]).0 < b.reg_count by {
            assert(wb[k].0 < b.reg_count);
        }
    }
}

/// Making less known at an instruction keeps a candidate.
proof fn lemma_candidate_merge(p: ProgramView, b: Body, t: Typing, j: int, o: Regs)
    requires
        candidate(p, b, t),
        0 <= j < t.len(),
        o.len() == b.reg_count,
        forall|big: Typing| #[trigger] valid_typing(p, b, big) ==> reaches(big, j, o),
    ensures
        ({
            let merged = match t[j] {
                None => o,
                Some(s) => typing::join_all(s, o),
            };
            candidate(p, b, t.update(j, Some(merged)))
        }),
{
    let merged = match t[j] {
        None => o,
        Some(s) => typing::join_all(s, o),
    };
    let u = t.update(j, Some(merged));
    let entry = entry_regs(b.args, b.reg_count);
    if j == 0 {
        let s = t[0]->0;
        assert forall|r: int| 0 <= r < s.len() implies typing::weaker(#[trigger] s[r], merged[r]) by {
            typing::lemma_join(s[r], o[r], None);
        }
        typing::lemma_weaker_all_trans(entry, s, merged);
    }
    assert forall|big: Typing| #[trigger] valid_typing(p, b, big) implies below(u, big) by {
        assert(below(t, big));
        assert(reaches(big, j, o));
        assert forall|i: int| 0 <= i < u.len() && (#[trigger] u[i]) is Some implies big[i] is Some
            && typing::weaker_all(u[i]->0, big[i]->0) by {
            if i == j {
                match t[j] {
                    Some(s) => {
                        assert(typing::weaker_all(s, big[j]->0));
                        assert forall|r: int| 0 <= r < merged.len() implies typing::weaker(
                            #[trigger] merged[r],
                            big[j]->0[r],
                        ) by {
                            typing::lemma_join(s[r], o[r], big[j]->0[r]);
                            assert(typing::weaker(s[r], big[j]->0[r]));
                            assert(typing::weaker(o[r], big[j]->0[r]));
                        }
                    },
                    None => {},
                }
            } else {
                assert(u[i] == t[i]);
            }
        }
    }
}

/// The function under verification.
pub open spec fn body_model(
    xs: Seq<DecodedInstr>,
    args: Seq<ValueType>,
    rets: Seq<ValueType>,
    reg_count: u32,
) -> Body {
    Body { xs: bytecode::instr_models(xs), args, rets, reg_count: reg_count as nat }
}

/// Hands what is known after instruction `i` on to those that may follow it, and says whether less
/// is known of one of them than before.
fn relax(
    p: &Program,
    func: u32,
    xs: &Vec<DecodedInstr>,
    args: &[ValueType],
    rets: &[ValueType],
    reg_count: u32,
    states: &mut Vec<Option<RegState>>,
    i: usize,
) -> (res: Result<bool, VerifyError>)
    requires
        i < xs@.len(),
        forall|k: int| 0 <= k < xs@.len() ==> (#[trigger] xs@[k]).instr.wf(),
        candidate(p@, body_model(xs@, args@, rets@, reg_count), states_of(old(states)@)),
    ensures
        match res {
            Ok(changed) => {
                let b = body_model(xs@, args@, rets@, reg_count);
                let t0 = states_of(old(states)@);
                let t1 = states_of(final(states)@);
                &&& candidate(p@, b, t1)
                &&& changed ==> total_weight(t1, reg_count as nat) < total_weight(
                    t0,
                    reg_count as nat,
                )
                &&& !changed ==> t1 == t0 && step_ok(p@, b, t1, i as int)
                &&& changed == (t1 != t0)
                &&& t1 == faults::relaxed(p@, b, t0, i as int)
                &&& t0[i as int] matches Some(st) ==> faults::step_fault(
                    p@,
                    b,
                    func,
                    i as int,
                    st,
                ) is None
            },
            Err(e) => {
                let b = body_model(xs@, args@, rets@, reg_count);
                let t0 = states_of(old(states)@);
                &&& !typable(p@, b)
                &&& t0[i as int] matches Some(st) && faults::step_fault(
                    p@,
                    b,
                    func,
                    i as int,
                    st,
                ) == Some(e)
            },
        },
{
    let ghost b = body_model(xs@, args@, rets@, reg_count);
    let ghost t0 = states_of(states@);
    assert(b.xs[i as int] == xs@[i as int]@);
    let (next, out): (Vec<usize>, RegState) = match &states[i] {
        None => {
            assert(t0[i as int] is None);
            return Ok(false);
        },
        Some(st) => {
            assert(t0[i as int] == Some(typing::known_all(st@)));
            let w: Vec<(u32, RegType)> = match effect_of(p, rets, func, &xs[i], st) {
                Ok(w) => w,
                Err(e) => {
                    proof {
                        lemma_stuck(p@, b, t0, i as int);
                    }
                    return Err(e);
                },
            };
            let next: Vec<usize> = match next_of(xs, i, func) {
                Ok(next) => next,
                Err(e) => {
                    proof {
                        lemma_stuck(p@, b, t0, i as int);
                    }
                    return Err(e);
                },
            };
            let ghost wm = effects::write_models(w@);
            let mut k: usize = 0;
            while k < w.len()
                invariant
                    k <= w.len(),
                    wm == effects::write_models(w@),
                    b == body_model(xs@, args@, rets@, reg_count),
                    forall|q: int| 0 <= q < k ==> (#[trigger] wm[q]).0 < reg_count,
                    0 <= i < t0.len(),
                    t0[i as int] is Some,
                    candidate(p@, b, t0),
                    typing::effect(p@, b.rets, b.xs[i as int], t0[i as int]->0) == Some(wm),
                    b.xs[i as int] == xs@[i as int]@,
                    i < xs@.len(),
                    t0 == states_of(old(states)@),
                    faults::effect_fault(p@, b.rets, func, b.xs[i as int], t0[i as int]->0) is None,
                    faults::next_fault(func, b.xs, i as int) is None,
                    faults::write_fault_from(
                        Place { func, pc: b.xs[i as int].offset as u32 },
                        wm,
                        b.reg_count,
                        k as int,
                    ) == faults::write_fault_from(
                        Place { func, pc: b.xs[i as int].offset as u32 },
                        wm,
                        b.reg_count,
                        0,
                    ),
                decreases w.len() - k,
            {
                assert(wm[k as int].0 == w@[k as int].0);
                if w[k].0 >= reg_count {
                    proof {
                        assert(!typing::in_bounds(wm, b.reg_count));
                        lemma_stuck(p@, b, t0, i as int);
                    }
                    return Err(VerifyError::RegOutOfBounds { func, pc: xs[i].offset, reg: w[k].0 });
                }
                k = k + 1;
            }
            (next, state_after(st, w))
        },
    };
    let ghost st = t0[i as int]->0;
    let ghost wm = typing::effect(p@, b.rets, b.xs[i as int], st)->0;
    let ghost o = typing::known_all(out@);
    assert(o == typing::after(st, wm));
    let ghost js = successors(b.xs, i as int)->0;
    assert forall|big: Typing, k: int|
        #![trigger valid_typing(p@, b, big), js[k]]
        valid_typing(p@, b, big) && 0 <= k < js.len() implies reaches(big, js[k], o) by {
        assert(below(t0, big));
        lemma_flows(p@, b, t0, i as int, big, wm);
        assert(successors(b.xs, i as int)->0[k] == js[k]);
    }
    let mut changed: bool = false;
    let mut k: usize = 0;
    while k < next.len()
        invariant
            k <= next.len(),
            b == body_model(xs@, args@, rets@, reg_count),
            js == next@.map_values(|j: usize| j as int),
            forall|q: int| 0 <= q < next@.len() ==> #[trigger] next@[q] < xs@.len(),
            o == typing::known_all(out@),
            o.len() == reg_count,
            forall|big: Typing, q: int|
                #![trigger valid_typing(p@, b, big), js[q]]
                valid_typing(p@, b, big) && 0 <= q < js.len() ==> reaches(big, js[q], o),
            candidate(p@, b, states_of(states@)),
            states_of(states@) == faults::flowed(t0, js, o, k as nat),
            changed ==> total_weight(states_of(states@), reg_count as nat) < total_weight(
                t0,
                reg_count as nat,
            ),
            !changed ==> states_of(states@) == t0,
            !changed ==> forall|q: int| 0 <= q < k ==> reaches(t0, #[trigger] js[q], o),
        decreases next.len() - k,
    {
        let j: usize = next[k];
        assert(js[k as int] == j);
        let ghost before = states_of(states@);
        proof {
            assert forall|big: Typing| #[trigger] valid_typing(p@, b, big) implies reaches(big, j as int, o) by {
                assert(reaches(big, js[k as int], o));
            }
            lemma_candidate_merge(p@, b, before, j as int, o);
        }
        let moved: bool = merge_into(states, j, &out);
        if moved {
            changed = true;
        }
        proof {
            if !changed {
                let s = t0[j as int]->0;
                assert(typing::join_all(s, o) == s);
                assert forall|r: int| 0 <= r < o.len() implies typing::weaker(#[trigger] o[r], s[r]) by {
                    typing::lemma_join(s[r], o[r], None);
                    assert(typing::join_all(s, o)[r] == typing::join(s[r], o[r]));
                }
                assert(reaches(t0, j as int, o));
            }
        }
        k = k + 1;
    }
    Ok(changed)
}

/// Finds a typing of a function.
fn analyse(
    p: &Program,
    func: u32,
    xs: &Vec<DecodedInstr>,
    args: &[ValueType],
    rets: &[ValueType],
    reg_count: u32,
) -> (res: Result<Vec<Option<RegState>>, VerifyError>)
    requires
        xs@.len() > 0,
        forall|k: int| 0 <= k < xs@.len() ==> (#[trigger] xs@[k]).instr.wf(),
    ensures
        match res {
            Ok(s) => valid_typing(
                p@,
                body_model(xs@, args@, rets@, reg_count),
                states_of(s@),
            ),
            Err(_) => !typable(p@, body_model(xs@, args@, rets@, reg_count)),
        },
        effects::fault_of(res) == faults::body_fault(
            p@,
            body_model(xs@, args@, rets@, reg_count),
            func,
        ),
{
    let ghost b = body_model(xs@, args@, rets@, reg_count);
    let ghost n = reg_count as nat;
    let entry = entry_state(args, reg_count);
    let ghost e = typing::known_all(entry@);
    let mut states: Vec<Option<RegState>> = Vec::new();
    states.push(Some(entry));
    while states.len() < xs.len()
        invariant
            1 <= states@.len() <= xs@.len(),
            states_of(states@)[0] == Some(e),
            forall|k: int| 1 <= k < states@.len() ==> (#[trigger] states_of(states@)[k]) is None,
        decreases xs.len() - states.len(),
    {
        let ghost before = states_of(states@);
        states.push(None);
        assert(states_of(states@) =~= before.push(None));
    }
    proof {
        let t = states_of(states@);
        assert forall|r: int| 0 <= r < e.len() implies typing::weaker(#[trigger] e[r], e[r]) by {}
        assert(reaches(t, 0, e));
        assert forall|big: Typing| #[trigger] valid_typing(p@, b, big) implies below(t, big) by {
            assert(reaches(big, 0, e));
        }
        assert(candidate(p@, b, t));
        assert(t =~= faults::entry_typing(b));
    }
    let ghost mut left: nat = total_weight(states_of(states@), n) + 1;
    let mut changed: bool = true;
    while changed
        invariant
            b == body_model(xs@, args@, rets@, reg_count),
            n == reg_count,
            forall|k: int| 0 <= k < xs@.len() ==> (#[trigger] xs@[k]).instr.wf(),
            candidate(p@, b, states_of(states@)),
            changed ==> left > total_weight(states_of(states@), n),
            changed ==> faults::searched(p@, b, func, states_of(states@), left)
                == faults::body_fault(p@, b, func),
            !changed ==> faults::body_fault(p@, b, func) is None,
            !changed ==> forall|k: int|
                0 <= k < xs@.len() ==> #[trigger] step_ok(p@, b, states_of(states@), k),
        decreases total_weight(states_of(states@), n), (if changed { 1int } else { 0int }),
    {
        let ghost t0 = states_of(states@);
        changed = false;
        let mut i: usize = 0;
        while i < xs.len()
            invariant
                i <= xs.len(),
                b == body_model(xs@, args@, rets@, reg_count),
                n == reg_count,
                forall|k: int| 0 <= k < xs@.len() ==> (#[trigger] xs@[k]).instr.wf(),
                candidate(p@, b, states_of(states@)),
                faults::passed(p@, b, func, states_of(states@), i as int) == faults::passed(
                    p@,
                    b,
                    func,
                    t0,
                    0,
                ),
                left > 0,
                faults::searched(p@, b, func, t0, left) == faults::body_fault(p@, b, func),
                changed ==> total_weight(states_of(states@), n) < total_weight(t0, n),
                !changed ==> states_of(states@) == t0 && forall|k: int|
                    0 <= k < i ==> #[trigger] step_ok(p@, b, t0, k),
            decreases xs.len() - i,
        {
            match relax(p, func, xs, args, rets, reg_count, &mut states, i) {
                Ok(moved) => {
                    if moved {
                        changed = true;
                    }
                },
                Err(e) => {
                    return Err(e);
                },
            }
            i = i + 1;
        }
        proof {
            if changed {
                left = (left - 1) as nat;
            }
        }
    }
    Ok(states)
}

/// What is known of registers at entry.
fn entry_state(args: &[ValueType], reg_count: u32) -> (st: RegState)
    ensures
        typing::known_all(st@) == entry_regs(args@, reg_count as nat),
{
    let mut st: RegState = Vec::new();
    let mut r: u32 = 0;
    let ghost all = entry_regs(args@, reg_count as nat);
    assert(typing::known_all(st@) =~= all.take(0));
    while r < reg_count
        invariant
            r <= reg_count,
            all == entry_regs(args@, reg_count as nat),
            typing::known_all(st@) == all.take(r as int),
        decreases reg_count - r,
    {
        let ghost before = typing::known_all(st@);
        let k: Option<RegType> = if r == 0 {
            Some(RegType::Plain(ValueType::Unit))
        } else if r as usize <= args.len() {
            Some(RegType::Plain(args[r as usize - 1]))
        } else {
            None
        };
        st.push(k);
        assert(typing::known_all(st@) =~= before.push(all[r as int]));
        assert(all.take(r + 1) =~= all.take(r as int).push(all[r as int]));
        r = r + 1;
    }
    assert(all.take(r as int) =~= all);
    st
}

// ---------------------------------------------------------------------------------------------
// Verified programs.
// ---------------------------------------------------------------------------------------------

/// The span at a position: that of the last entry, from number `k` on, that is not behind it. `cur`
/// is the position that the entries before have led to, and `out` the span found by them.
pub open spec fn span_from(spans: Seq<SpanEntry>, k: int, cur: int, out: Option<u64>, pc: u32) -> Option<
    u64,
>
    decreases spans.len() - k,
{
    if k < 0 || k >= spans.len() {
        out
    } else {
        let next = if cur + spans[k].pc_delta > u64::MAX {
            u64::MAX as int
        } else {
            cur + spans[k].pc_delta
        };
        if next > pc {
            out
        } else {
            span_from(spans, k + 1, next, Some(spans[k].span_id), pc)
        }
    }
}

/// The span at a position of a function.
pub open spec fn span_in(spans: Seq<SpanEntry>, pc: u32) -> Option<u64> {
    span_from(spans, 0, 0, None, pc)
}

/// The span at a position of a function of a program.
pub open spec fn span_of(p: ProgramView, func: u32, pc: u32) -> Option<u64> {
    if func >= p.functions.len() {
        None
    } else {
        match program::slice_of(p.spans, p.functions[func as int].spans) {
            Some(spans) => span_in(spans, pc),
            None => None,
        }
    }
}

/// The span at a position of a function.
pub fn find_span(spans: &[SpanEntry], pc: u32) -> (r: Option<u64>)
    ensures
        r == span_in(spans@, pc),
{
    let mut cur: u64 = 0;
    let mut out: Option<u64> = None;
    let mut i: usize = 0;
    while i < spans.len()
        invariant
            i <= spans.len(),
            span_from(spans@, i as int, cur as int, out, pc) == span_in(spans@, pc),
        decreases spans.len() - i,
    {
        let d: u64 = spans[i].pc_delta;
        let next: u64 = if d > u64::MAX - cur {
            u64::MAX
        } else {
            cur + d
        };
        if next > pc as u64 {
            return out;
        }
        out = Some(spans[i].span_id);
        cur = next;
        i = i + 1;
    }
    out
}

/// Whether an instruction takes an element of an aggregate.
pub open spec fn takes_element(op: Opcode) -> bool {
    op is TupleGet || op is StructGet || op is ArrayGet || op is ArrayGetImm
}

/// The type that an instruction that takes an element of an aggregate is known to give.
pub open spec fn element_dst(p: ProgramView, b: Body, t: Typing, i: int) -> Option<ValueType> {
    if takes_element(b.xs[i].op) && t[i] is Some {
        match typing::effect(p, b.rets, b.xs[i], t[i]->0) {
            Some(w) => Some(w[0].1.ty()),
            None => None,
        }
    } else {
        None
    }
}

/// What a [`VerifiedFunction`] holds.
#[verifier::ext_equal]
pub struct FunctionView {
    /// The instructions.
    pub xs: Seq<InstrModel>,
    /// The length of the instruction stream.
    pub byte_len: u32,
    /// The number of registers.
    pub reg_count: u32,
    /// The span of each instruction.
    pub spans: Seq<Option<u64>>,
    /// The type that each instruction that takes an element is known to give.
    pub element_types: Seq<Option<ValueType>>,
}

/// A function that was verified: its instructions with what the interpreter needs of each.
#[derive(Clone, Debug)]
pub struct VerifiedFunction {
    /// The instructions.
    pub instrs: Vec<DecodedInstr>,
    /// The length of the instruction stream.
    pub byte_len: u32,
    /// The number of registers.
    pub reg_count: u32,
    /// The span of each instruction.
    pub spans: Vec<Option<u64>>,
    /// The type that each instruction that takes an element is known to give.
    pub element_types: Vec<Option<ValueType>>,
}

impl View for VerifiedFunction {
    type V = FunctionView;

    open spec fn view(&self) -> FunctionView {
        FunctionView {
            xs: bytecode::instr_models(self.instrs@),
            byte_len: self.byte_len,
            reg_count: self.reg_count,
            spans: self.spans@,
            element_types: self.element_types@,
        }
    }
}

impl VerifiedFunction {
    /// The tables have an entry for each instruction, and operands are as opcodes ask for.
    pub open spec fn wf(&self) -> bool {
        &&& self.spans@.len() == self.instrs@.len()
        &&& self.element_types@.len() == self.instrs@.len()
        &&& forall|k: int| 0 <= k < self.instrs@.len() ==> (#[trigger] self.instrs@[k]).instr.wf()
        &&& forall|k: int|
            0 <= k < self.instrs@.len() ==> (#[trigger] self.instrs@[k]).opcode == opcode::opcode_byte(
                self.instrs@[k].instr.op,
            )
    }
}

/// The position of instruction `i`, or the end of the stream behind the last one.
pub open spec fn pc_of(v: FunctionView, i: int) -> u32 {
    if 0 <= i < v.xs.len() {
        v.xs[i].offset as u32
    } else {
        v.byte_len
    }
}

/// `v` is what the verifier makes of a function, under the typing `t`.
pub open spec fn function_under(p: ProgramView, f: Function, v: FunctionView, t: Typing) -> bool {
    body_of(p, f) matches Some(b) && {
        &&& b.args.len() < f.reg_count
        &&& b.args.len() == f.arg_count
        &&& b.rets.len() == f.ret_count
        &&& b.xs.len() > 0
        &&& valid_typing(p, b, t)
        &&& v.xs == b.xs
        &&& v.byte_len == f.bytecode.len
        &&& v.reg_count == f.reg_count
        &&& v.spans == Seq::new(
            b.xs.len(),
            |i: int| span_in(program::slice_of(p.spans, f.spans)->0, b.xs[i].offset as u32),
        )
        &&& v.element_types == Seq::new(b.xs.len(), |i: int| element_dst(p, b, t, i))
    }
}

/// `v` is what the verifier makes of a function.
pub open spec fn function_ok(p: ProgramView, f: Function, v: FunctionView) -> bool {
    exists|t: Typing| function_under(p, f, v, t)
}

/// What a [`VerifiedProgram`] holds.
#[verifier::ext_equal]
pub struct VerifiedView {
    /// The program.
    pub program: ProgramView,
    /// Its functions.
    pub functions: Seq<FunctionView>,
}

impl VerifiedView {
    /// Every function is what the verifier makes of the program's.
    pub open spec fn wf(self) -> bool {
        &&& self.functions.len() == self.program.functions.len()
        &&& forall|i: int|
            0 <= i < self.functions.len() ==> function_ok(
                self.program,
                self.program.functions[i],
                #[trigger] self.functions[i],
            )
    }
}

/// A program that was verified.
#[derive(Clone, Debug)]
pub struct VerifiedProgram {
    program: Program,
    functions: Vec<VerifiedFunction>,
}

impl View for VerifiedProgram {
    type V = VerifiedView;

    closed spec fn view(&self) -> VerifiedView {
        VerifiedView {
            program: self.program@,
            functions: self.functions@.map_values(|f: VerifiedFunction| f@),
        }
    }
}

impl VerifiedProgram {
    /// The functions are what the verifier makes of the program's.
    pub closed spec fn wf(&self) -> bool {
        &&& self@.wf()
        &&& forall|i: int| 0 <= i < self.functions@.len() ==> (#[trigger] self.functions@[i]).wf()
    }

    /// A verified program holds a program that passes verification.
    pub proof fn law_verified_is_well_formed(&self)
        requires
            self.wf(),
        ensures
            self@.wf(),
    {
    }

    /// The program.
    #[must_use]
    pub fn program(&self) -> (p: &Program)
        ensures
            p@ == self@.program,
    {
        &self.program
    }

    /// A function, as it was verified.
    #[must_use]
    pub fn verified(&self, func: FuncId) -> (f: Option<&VerifiedFunction>)
        requires
            self.wf(),
        ensures
            match f {
                Some(f) => func.0 < self@.functions.len() && f@ == self@.functions[func.0 as int]
                    && f.wf(),
                None => func.0 >= self@.functions.len(),
            },
    {
        let i: usize = func.0 as usize;
        if i < self.functions.len() {
            assert(self@.functions[i as int] == self.functions@[i as int]@);
            Some(&self.functions[i])
        } else {
            None
        }
    }
}

/// The type that each instruction that takes an element is known to give.
fn element_types_of(
    p: &Program,
    func: u32,
    xs: &Vec<DecodedInstr>,
    args: &[ValueType],
    rets: &[ValueType],
    reg_count: u32,
    states: &Vec<Option<RegState>>,
) -> (r: Vec<Option<ValueType>>)
    requires
        forall|k: int| 0 <= k < xs@.len() ==> (#[trigger] xs@[k]).instr.wf(),
        valid_typing(p@, body_model(xs@, args@, rets@, reg_count), states_of(states@)),
    ensures
        r@ == Seq::new(
            xs@.len(),
            |i: int|
                element_dst(
                    p@,
                    body_model(xs@, args@, rets@, reg_count),
                    states_of(states@),
                    i,
                ),
        ),
{
    let ghost b = body_model(xs@, args@, rets@, reg_count);
    let ghost t = states_of(states@);
    let mut r: Vec<Option<ValueType>> = Vec::new();
    let mut i: usize = 0;
    while i < xs.len()
        invariant
            i <= xs.len(),
            b == body_model(xs@, args@, rets@, reg_count),
            t == states_of(states@),
            forall|k: int| 0 <= k < xs@.len() ==> (#[trigger] xs@[k]).instr.wf(),
            valid_typing(p@, b, t),
            r@.len() == i,
            forall|k: int| 0 <= k < i ==> r@[k] == #[trigger] element_dst(p@, b, t, k),
        decreases xs.len() - i,
    {
        assert(b.xs[i as int] == xs@[i as int]@);
        let takes: bool = match xs[i].instr.op {
            Opcode::TupleGet | Opcode::StructGet | Opcode::ArrayGet | Opcode::ArrayGetImm => true,
            _ => false,
        };
        let ty: Option<ValueType> = if takes {
            match &states[i] {
                Some(st) => {
                    assert(t[i as int] == Some(typing::known_all(st@)));
                    match effect_of(p, rets, func, &xs[i], st) {
                        Ok(w) => {
                            let ghost wm = effects::write_models(w@);
                            assert(takes_element(b.xs[i as int].op));
                            assert(typing::effect(p@, b.rets, b.xs[i as int], t[i as int]->0) == Some(wm));
                            assert(wm.len() == 1);
                            if w.len() > 0 {
                                assert(wm[0] == (w@[0].0, w@[0].1@));
                                Some(w[0].1.ty())
                            } else {
                                assert(false);
                                None
                            }
                        },
                        Err(_) => None,
                    }
                },
                None => {
                    assert(t[i as int] is None);
                    None
                },
            }
        } else {
            None
        };
        r.push(ty);
        i = i + 1;
    }
    assert(r@ =~= Seq::new(xs@.len(), |i: int| element_dst(p@, b, t, i)));
    r
}

/// The span of each instruction.
fn spans_of(spans: &[SpanEntry], xs: &Vec<DecodedInstr>) -> (r: Vec<Option<u64>>)
    ensures
        r@ == Seq::new(
            xs@.len(),
            |i: int| span_in(spans@, bytecode::instr_models(xs@)[i].offset as u32),
        ),
{
    let ghost ms = bytecode::instr_models(xs@);
    let mut r: Vec<Option<u64>> = Vec::new();
    let mut i: usize = 0;
    while i < xs.len()
        invariant
            i <= xs.len(),
            ms == bytecode::instr_models(xs@),
            r@.len() == i,
            forall|k: int| 0 <= k < i ==> r@[k] == span_in(spans@, (#[trigger] ms[k]).offset as u32),
        decreases xs.len() - i,
    {
        assert(ms[i as int] == xs@[i as int]@);
        r.push(find_span(spans, xs[i].offset));
        i = i + 1;
    }
    assert(r@ =~= Seq::new(xs@.len(), |i: int| span_in(spans@, ms[i].offset as u32)));
    r
}

/// Verifies a function.
fn verify_function(p: &Program, func: u32, f: &Function, cfg: &VerifyConfig) -> (res: Result<
    VerifiedFunction,
    VerifyError,
>)
    ensures
        match res {
            Ok(v) => accepts_function(p@, *f, *cfg) && v.wf() && function_ok(p@, *f, v@),
            Err(_) => !accepts_function(p@, *f, *cfg),
        },
        effects::fault_of(res) == faults::function_fault(p@, func, *f, *cfg),
{
    let bad: VerifyError = VerifyError::BadRange { func };
    let args: &[ValueType] = match f.arg_types(p) {
        Ok(args) => args,
        Err(_) => {
            return Err(bad);
        },
    };
    let rets: &[ValueType] = match f.ret_types(p) {
        Ok(rets) => rets,
        Err(_) => {
            return Err(bad);
        },
    };
    let spans: &[SpanEntry] = match f.spans(p) {
        Ok(spans) => spans,
        Err(_) => {
            return Err(bad);
        },
    };
    let code: &[u8] = match f.bytecode(p) {
        Ok(code) => code,
        Err(_) => {
            return Err(bad);
        },
    };
    if args.len() != f.arg_count as usize || rets.len() != f.ret_count as usize {
        return Err(bad);
    }
    if f.reg_count > cfg.max_regs || args.len() >= f.reg_count as usize {
        return Err(VerifyError::BadRegCount { func });
    }
    let instrs: Vec<DecodedInstr> = match decode_instructions(code) {
        Ok(v) => v,
        Err(error) => {
            return Err(VerifyError::Bytecode { func, error });
        },
    };
    if instrs.len() == 0 {
        return Err(VerifyError::EmptyBody { func });
    }
    let ghost b = body_model(instrs@, args@, rets@, f.reg_count);
    assert(body_of(p@, *f) == Some(b));
    let states: Vec<Option<RegState>> = match analyse(p, func, &instrs, args, rets, f.reg_count) {
        Ok(s) => s,
        Err(e) => {
            return Err(e);
        },
    };
    let element_types = element_types_of(p, func, &instrs, args, rets, f.reg_count, &states);
    let table = spans_of(spans, &instrs);
    let v = VerifiedFunction {
        instrs,
        byte_len: f.bytecode.len,
        reg_count: f.reg_count,
        spans: table,
        element_types,
    };
    assert(function_under(p@, *f, v@, states_of(states@)));
    Ok(v)
}

/// Checks that a host signature has types, and the hash of them.
fn check_host_sig(p: &Program, h: &HostSigEntry) -> (ok: bool)
    ensures
        ok == faults::host_sig_ok(p@, *h),
{
    match (p.host_sig_args(h), p.host_sig_rets(h)) {
        (Ok(args), Ok(rets)) => h.sig_hash.0 == sig_hash_slices(args, rets).0,
        _ => false,
    }
}

/// Verifies the host signatures and every function of a program.
fn verify_functions(p: &Program, cfg: &VerifyConfig) -> (res: Result<
    Vec<VerifiedFunction>,
    VerifyError,
>)
    ensures
        match res {
            Ok(v) => {
                &&& accepts(p@, *cfg)
                &&& v@.len() == p@.functions.len()
                &&& forall|i: int|
                    0 <= i < v@.len() ==> (#[trigger] v@[i]).wf() && function_ok(
                        p@,
                        p@.functions[i],
                        v@[i]@,
                    )
            },
            Err(_) => !accepts(p@, *cfg),
        },
        effects::fault_of(res) == faults::first_error(p@, *cfg),
{
    let mut i: usize = 0;
    while i < p.host_sigs.len()
        invariant
            i <= p.host_sigs@.len(),
            forall|k: int|
                0 <= k < i ==> faults::host_sig_ok(p@, #[trigger] p@.host_sigs[k]),
            faults::host_sigs_fault_from(p@, i as int) == faults::host_sigs_fault_from(p@, 0),
        decreases p.host_sigs.len() - i,
    {
        if !check_host_sig(p, &p.host_sigs[i]) {
            assert(!faults::host_sig_ok(p@, p@.host_sigs[i as int]));
            return Err(VerifyError::BadHostSig { host_sig: program::clamp_u32(i) });
        }
        i = i + 1;
    }
    let mut out: Vec<VerifiedFunction> = Vec::new();
    let mut i: usize = 0;
    while i < p.functions.len()
        invariant
            i <= p.functions@.len(),
            out@.len() == i,
            faults::host_sigs_fault_from(p@, 0) is None,
            faults::functions_fault_from(p@, *cfg, i as int) == faults::functions_fault_from(
                p@,
                *cfg,
                0,
            ),
            forall|k: int|
                0 <= k < p@.host_sigs.len() ==> faults::host_sig_ok(p@, #[trigger] p@.host_sigs[k]),
            forall|k: int| 0 <= k < i ==> accepts_function(p@, #[trigger] p@.functions[k], *cfg),
            forall|k: int|
                0 <= k < i ==> (#[trigger] out@[k]).wf() && function_ok(p@, p@.functions[k], out@[k]@),
        decreases p.functions.len() - i,
    {
        let func: u32 = program::clamp_u32(i);
        match verify_function(p, func, &p.functions[i], cfg) {
            Ok(v) => {
                out.push(v);
            },
            Err(e) => {
                assert(!accepts_function(p@, p@.functions[i as int], *cfg));
                return Err(e);
            },
        }
        i = i + 1;
    }
    Ok(out)
}

/// Verifies a program.
pub fn verify_program(p: &Program, cfg: &VerifyConfig) -> (res: Result<(), VerifyError>)
    ensures
        res is Ok <==> accepts(p@, *cfg),
        effects::fault_of(res) == faults::first_error(p@, *cfg),
{
    match verify_functions(p, cfg) {
        Ok(_) => Ok(()),
        Err(e) => Err(e),
    }
}

/// Verifies a program and keeps it with what was found out.
pub fn verify_program_owned(p: Program, cfg: &VerifyConfig) -> (res: Result<
    VerifiedProgram,
    VerifyError,
>)
    ensures
        res is Ok <==> accepts(p@, *cfg),
        res is Ok ==> res->Ok_0.wf() && res->Ok_0@.program == p@,
        effects::fault_of(res) == faults::first_error(p@, *cfg),
{
    match verify_functions(&p, cfg) {
        Ok(functions) => {
            let v = VerifiedProgram { program: p, functions };
            assert forall|i: int| 0 <= i < v@.functions.len() implies function_ok(
                v@.program,
                v@.program.functions[i],
                #[trigger] v@.functions[i],
            ) by {
                assert(v@.functions[i] == functions@[i]@);
            }
            Ok(v)
        },
        Err(e) => Err(e),
    }
}

} // verus!
