//! Computing what an instruction asks of and does to registers.

use vstd::prelude::*;

use crate::bytecode::{DecodedInstr, Operand};
use crate::faults;
use crate::faults::Place;
use crate::opcode::{Opcode, Shape};
use crate::program::{ConstEntry, ElemTypeId, Program, TypeId, ValueType};
use crate::typing;
use crate::typing::{fixed_signature, RegType, Writes};
use crate::verify::VerifyError;

verus! {

/// What is known of the registers of a function.
pub type RegState = Vec<Option<RegType>>;

/// What writes say.
pub open spec fn write_models(v: Seq<(u32, RegType)>) -> Writes {
    v.map_values(|w: (u32, RegType)| (w.0, w.1@))
}

impl RegType {
    /// The type of the value.
    pub fn ty(&self) -> (t: ValueType)
        ensures
            t == self@.ty(),
    {
        match self {
            RegType::Plain(t) => *t,
            _ => ValueType::Agg,
        }
    }

    /// A copy.
    pub fn duplicate(&self) -> (t: RegType)
        ensures
            t@ == self@,
    {
        match self {
            RegType::Plain(t) => RegType::Plain(*t),
            RegType::Tuple(v) => RegType::Tuple(copy_types(v.as_slice())),
            RegType::Struct(t) => RegType::Struct(*t),
            RegType::Array(t) => RegType::Array(*t),
        }
    }

    /// Whether two say the same.
    pub fn same(&self, other: &RegType) -> (b: bool)
        ensures
            b == (self@ == other@),
    {
        match (self, other) {
            (RegType::Plain(a), RegType::Plain(b)) => *a == *b,
            (RegType::Tuple(a), RegType::Tuple(b)) => same_types(a.as_slice(), b.as_slice()),
            (RegType::Struct(a), RegType::Struct(b)) => *a == *b,
            (RegType::Array(a), RegType::Array(b)) => *a == *b,
            _ => false,
        }
    }
}

/// A copy of value types.
pub fn copy_types(v: &[ValueType]) -> (r: Vec<ValueType>)
    ensures
        r@ == v@,
{
    let mut r: Vec<ValueType> = Vec::new();
    let mut i: usize = 0;
    while i < v.len()
        invariant
            i <= v.len(),
            r@ == v@.take(i as int),
        decreases v.len() - i,
    {
        r.push(v[i]);
        i = i + 1;
        assert(r@ =~= v@.take(i as int));
    }
    assert(v@.take(i as int) =~= v@);
    r
}

/// Whether value types are the same.
pub fn same_types(a: &[ValueType], b: &[ValueType]) -> (r: bool)
    ensures
        r == (a@ == b@),
{
    if a.len() != b.len() {
        return false;
    }
    let mut i: usize = 0;
    while i < a.len()
        invariant
            i <= a.len(),
            a@.len() == b@.len(),
            forall|k: int| 0 <= k < i ==> a@[k] == b@[k],
        decreases a.len() - i,
    {
        if a[i] != b[i] {
            return false;
        }
        i = i + 1;
    }
    assert(a@ =~= b@);
    true
}

/// A register operand or index of an instruction.
pub fn word_of(x: &DecodedInstr, k: usize) -> (v: u32)
    requires
        k < x@.operands.len(),
        x@.operands[k as int] is Word,
    ensures
        v == typing::word(x@, k as int),
{
    match &x.instr.operands[k] {
        Operand::Word(v) => *v,
        _ => 0,
    }
}

/// A list operand of an instruction.
pub fn list_of(x: &DecodedInstr, k: usize) -> (v: &Vec<u32>)
    requires
        k < x@.operands.len(),
        x@.operands[k as int] is List,
    ensures
        v@ == typing::list(x@, k as int),
{
    match &x.instr.operands[k] {
        Operand::List(v) => v,
        _ => {
            assert(x@.operands[k as int] == x.instr.operands@[k as int]@);
            assert(false);
            vstd::pervasive::unreached()
        },
    }
}

/// What is known of a register.
fn known_of(st: &RegState, r: u32) -> (t: Option<&RegType>)
    ensures
        match t {
            Some(t) => typing::reg_type(typing::known_all(st@), r) == Some(t@),
            None => typing::reg_type(typing::known_all(st@), r) is None,
        },
{
    let i: usize = r as usize;
    if i >= st.len() {
        return None;
    }
    assert(typing::known_all(st@)[i as int] == typing::known(st@[i as int]));
    match &st[i] {
        Some(t) => Some(t),
        None => None,
    }
}

/// What a check found wrong.
pub open spec fn fault_of<T>(res: Result<T, VerifyError>) -> Option<VerifyError> {
    match res {
        Ok(_) => None,
        Err(e) => Some(e),
    }
}

/// Checks that a register holds a value of a type.
fn check_reg(st: &RegState, func: u32, pc: u32, reg: u32, expected: ValueType) -> (res: Result<
    (),
    VerifyError,
>)
    ensures
        res is Ok <==> typing::has(typing::known_all(st@), reg, expected),
        fault_of(res) == faults::reg_fault(
            Place { func, pc },
            typing::known_all(st@),
            reg,
            expected,
        ),
{
    match known_of(st, reg) {
        None => Err(VerifyError::UninitializedRead { func, pc, reg }),
        Some(t) => {
            let actual: ValueType = t.ty();
            if actual == expected {
                Ok(())
            } else {
                Err(VerifyError::TypeMismatch { func, pc, reg, expected, actual })
            }
        },
    }
}

/// Checks that registers hold values of given types.
fn check_regs(st: &RegState, func: u32, pc: u32, regs: &[u32], tys: &[ValueType]) -> (res: Result<
    (),
    VerifyError,
>)
    ensures
        res is Ok <==> typing::has_all(typing::known_all(st@), regs@, tys@),
        fault_of(res) == faults::regs_fault(
            Place { func, pc },
            typing::known_all(st@),
            regs@,
            tys@,
        ),
{
    if regs.len() != tys.len() {
        return Err(VerifyError::BadOperand { func, pc });
    }
    let mut i: usize = 0;
    while i < regs.len()
        invariant
            i <= regs.len(),
            regs@.len() == tys@.len(),
            faults::regs_fault_from(
                Place { func, pc },
                typing::known_all(st@),
                regs@,
                tys@,
                i as int,
            ) == faults::regs_fault(Place { func, pc }, typing::known_all(st@), regs@, tys@),
            forall|k: int|
                0 <= k < i ==> typing::has(typing::known_all(st@), #[trigger] regs@[k], tys@[k]),
        decreases regs.len() - i,
    {
        match check_reg(st, func, pc, regs[i], tys[i]) {
            Ok(()) => {},
            Err(e) => {
                assert(!typing::has(typing::known_all(st@), regs@[i as int], tys@[i as int]));
                return Err(e);
            },
        }
        i = i + 1;
    }
    Ok(())
}

/// The effect of an instruction that takes and gives values of fixed types.
fn fixed_effect(
    st: &RegState,
    func: u32,
    pc: u32,
    x: &DecodedInstr,
    srcs: Vec<u32>,
) -> (res: Result<Vec<(u32, RegType)>, VerifyError>)
    requires
        x@.operands.len() > 0,
        x@.operands[0] is Word,
    ensures
        match typing::fixed_effect(x@, typing::known_all(st@), srcs@) {
            Some(w) => res is Ok && write_models(res->Ok_0@) == w,
            None => res is Err,
        },
        fault_of(res) == faults::fixed_fault(
            Place { func, pc },
            x@,
            typing::known_all(st@),
            srcs@,
        ),
{
    match fixed_signature(x.instr.op) {
        None => Err(VerifyError::BadOperand { func, pc }),
        Some((args, ret)) => {
            match check_regs(st, func, pc, srcs.as_slice(), args.as_slice()) {
                Ok(()) => Ok(one(word_of(x, 0), RegType::Plain(ret))),
                Err(e) => Err(e),
            }
        },
    }
}

/// One write.
fn one(dst: u32, t: RegType) -> (w: Vec<(u32, RegType)>)
    ensures
        write_models(w@) == seq![(dst, t@)],
{
    let mut w: Vec<(u32, RegType)> = Vec::new();
    w.push((dst, t));
    assert(write_models(w@) =~= seq![(dst, t@)]);
    w
}

/// No write.
fn nothing() -> (w: Vec<(u32, RegType)>)
    ensures
        write_models(w@) == Writes::empty(),
{
    let w: Vec<(u32, RegType)> = Vec::new();
    assert(write_models(w@) =~= Writes::empty());
    w
}

/// The effect of a call of something with the given signature.
fn call_effect(
    st: &RegState,
    func: u32,
    pc: u32,
    x: &DecodedInstr,
    args: &[ValueType],
    rets: &[ValueType],
) -> (res: Result<Vec<(u32, RegType)>, VerifyError>)
    requires
        x@.operands.len() == 5,
        x@.operands[0] is Word,
        x@.operands[2] is Word,
        x@.operands[3] is List,
        x@.operands[4] is List,
    ensures
        match typing::call_effect(Some((args@, rets@)), x@, typing::known_all(st@)) {
            Some(w) => res is Ok && write_models(res->Ok_0@) == w,
            None => res is Err,
        },
        fault_of(res) == faults::call_fault(
            Some((args@, rets@)),
            Place { func, pc },
            x@,
            typing::known_all(st@),
        ),
{
    match check_reg(st, func, pc, word_of(x, 2), ValueType::Unit) {
        Ok(()) => {},
        Err(e) => {
            return Err(e);
        },
    }
    match check_regs(st, func, pc, list_of(x, 3).as_slice(), args) {
        Ok(()) => {},
        Err(e) => {
            return Err(e);
        },
    }
    let dsts: &Vec<u32> = list_of(x, 4);
    if dsts.len() != rets.len() {
        return Err(VerifyError::BadOperand { func, pc });
    }
    let mut w: Vec<(u32, RegType)> = one(word_of(x, 0), RegType::Plain(ValueType::Unit));
    let ghost head = write_models(w@);
    let ghost all = typing::plain_writes(dsts@, rets@);
    let mut i: usize = 0;
    while i < dsts.len()
        invariant
            i <= dsts.len(),
            dsts@.len() == rets@.len(),
            all == typing::plain_writes(dsts@, rets@),
            write_models(w@) == head + all.take(i as int),
        decreases dsts.len() - i,
    {
        let ghost before = write_models(w@);
        w.push((dsts[i], RegType::Plain(rets[i])));
        assert(write_models(w@) =~= before.push(all[i as int]));
        assert(all.take(i + 1) =~= all.take(i as int).push(all[i as int]));
        i = i + 1;
        assert(write_models(w@) =~= head + all.take(i as int));
    }
    assert(all.take(i as int) =~= all);
    Ok(w)
}

/// The types of the values of registers.
fn types_of_regs(st: &RegState, func: u32, pc: u32, regs: &[u32]) -> (res: Result<
    Vec<ValueType>,
    VerifyError,
>)
    ensures
        match typing::types_in(typing::known_all(st@), regs@) {
            Some(ts) => res is Ok && res->Ok_0@ == ts,
            None => res is Err,
        },
        fault_of(res) == faults::unset_from(
            Place { func, pc },
            typing::known_all(st@),
            regs@,
            0,
        ),
{
    let ghost k = typing::known_all(st@);
    let mut ts: Vec<ValueType> = Vec::new();
    let mut i: usize = 0;
    while i < regs.len()
        invariant
            i <= regs.len(),
            k == typing::known_all(st@),
            ts@.len() == i,
            faults::unset_from(Place { func, pc }, k, regs@, i as int) == faults::unset_from(
                Place { func, pc },
                k,
                regs@,
                0,
            ),
            forall|q: int| 0 <= q < i ==> typing::reg_type(k, #[trigger] regs@[q]) is Some,
            forall|q: int| 0 <= q < i ==> ts@[q] == typing::reg_type(k, #[trigger] regs@[q])->0.ty(),
        decreases regs.len() - i,
    {
        match known_of(st, regs[i]) {
            Some(t) => {
                ts.push(t.ty());
            },
            None => {
                assert(typing::reg_type(k, regs@[i as int]) is None);
                return Err(VerifyError::UninitializedRead { func, pc, reg: regs[i] });
            },
        }
        i = i + 1;
    }
    assert(ts@ =~= typing::types_in(k, regs@)->0);
    Ok(ts)
}

/// The type of an element of an aggregate.
fn element_type(
    p: &Program,
    st: &RegState,
    func: u32,
    pc: u32,
    op: Opcode,
    reg: u32,
    index: u32,
) -> (res: Result<ValueType, VerifyError>)
    ensures
        match typing::element_type(
            p@,
            op,
            typing::reg_type(typing::known_all(st@), reg),
            index,
        ) {
            Some(t) => res == Ok::<ValueType, VerifyError>(t),
            None => res is Err,
        },
        fault_of(res) == faults::element_fault(
            p@,
            Place { func, pc },
            typing::known_all(st@),
            op,
            reg,
            index,
        ),
{
    let unknown: VerifyError = VerifyError::UnknownElement { func, pc, reg };
    match known_of(st, reg) {
        None => Err(VerifyError::UninitializedRead { func, pc, reg }),
        Some(t) => match (op, t) {
            (Opcode::TupleGet, RegType::Tuple(ts)) => if (index as usize) < ts.len() {
                Ok(ts[index as usize])
            } else {
                Err(unknown)
            },
            (Opcode::StructGet, RegType::Struct(id)) => match struct_types(p, id.0) {
                Some(fields) => if (index as usize) < fields.len() {
                    Ok(fields[index as usize])
                } else {
                    Err(unknown)
                },
                None => Err(unknown),
            },
            (Opcode::ArrayGet, RegType::Array(id)) => match elem_type(p, id.0) {
                Some(t) => Ok(t),
                None => Err(unknown),
            },
            (Opcode::ArrayGetImm, RegType::Array(id)) => match elem_type(p, id.0) {
                Some(t) => Ok(t),
                None => Err(unknown),
            },
            _ => Err(unknown),
        },
    }
}

/// The field types of a struct type.
fn struct_types(p: &Program, t: u32) -> (res: Option<&[ValueType]>)
    ensures
        match typing::struct_sig(p@, t) {
            Some(fields) => res is Some && res->0@ == fields,
            None => res is None,
        },
{
    let i: usize = t as usize;
    if i >= p.types.structs.len() {
        return None;
    }
    match p.types.struct_field_types(&p.types.structs[i]) {
        Ok(fields) => Some(fields),
        Err(_) => None,
    }
}

/// An array element type.
fn elem_type(p: &Program, t: u32) -> (res: Option<ValueType>)
    ensures
        res == typing::elem_sig(p@, t),
{
    let i: usize = t as usize;
    if i < p.types.array_elems.len() {
        Some(p.types.array_elems[i])
    } else {
        None
    }
}

/// The type of a constant of the pool.
fn pool_type(p: &Program, idx: u32) -> (res: Option<ValueType>)
    ensures
        res == typing::const_type(p@, idx),
{
    let i: usize = idx as usize;
    if i >= p.const_pool.len() {
        return None;
    }
    Some(
        match p.const_pool[i] {
            ConstEntry::Unit => ValueType::Unit,
            ConstEntry::Bool(_) => ValueType::Bool,
            ConstEntry::I64(_) => ValueType::I64,
            ConstEntry::U64(_) => ValueType::U64,
            ConstEntry::F64(_) => ValueType::F64,
            ConstEntry::Decimal { .. } => ValueType::Decimal,
            ConstEntry::Bytes(_) => ValueType::Bytes,
            ConstEntry::Str(_) => ValueType::Str,
        },
    )
}

/// The argument and return types of a function.
pub fn function_types(p: &Program, f: u32) -> (res: Option<(&[ValueType], &[ValueType])>)
    ensures
        match typing::function_sig(p@, f) {
            Some((args, rets)) => res is Some && (res->0).0@ == args && (res->0).1@ == rets,
            None => res is None,
        },
{
    let i: usize = f as usize;
    if i >= p.functions.len() {
        return None;
    }
    match (p.functions[i].arg_types(p), p.functions[i].ret_types(p)) {
        (Ok(args), Ok(rets)) => Some((args, rets)),
        _ => None,
    }
}

/// The argument and return types of a host signature.
pub fn host_types(p: &Program, h: u32) -> (res: Option<(&[ValueType], &[ValueType])>)
    ensures
        match typing::host_call_sig(p@, h) {
            Some((args, rets)) => res is Some && (res->0).0@ == args && (res->0).1@ == rets,
            None => res is None,
        },
{
    let i: usize = h as usize;
    if i >= p.host_sigs.len() {
        return None;
    }
    let entry = &p.host_sigs[i];
    match (p.host_sig_args(entry), p.host_sig_rets(entry)) {
        (Ok(args), Ok(rets)) => Some((args, rets)),
        _ => None,
    }
}

/// What an instruction writes, or why it is not allowed.
pub fn effect_of(p: &Program, rets: &[ValueType], func: u32, x: &DecodedInstr, st: &RegState) -> (res:
    Result<Vec<(u32, RegType)>, VerifyError>)
    requires
        x.instr.wf(),
    ensures
        match typing::effect(p@, rets@, x@, typing::known_all(st@)) {
            Some(w) => res is Ok && write_models(res->Ok_0@) == w,
            None => res is Err,
        },
        fault_of(res) == faults::effect_fault(p@, rets@, func, x@, typing::known_all(st@)),
{
    let pc: u32 = x.offset;
    let bad: VerifyError = VerifyError::BadOperand { func, pc };
    let op: Opcode = x.instr.op;
    match op.shape() {
        Shape::Nullary | Shape::Trap | Shape::Jmp => Ok(nothing()),
        Shape::ConstUnit => Ok(one(word_of(x, 0), RegType::Plain(ValueType::Unit))),
        Shape::ConstBool => Ok(one(word_of(x, 0), RegType::Plain(ValueType::Bool))),
        Shape::ConstI64 => Ok(one(word_of(x, 0), RegType::Plain(ValueType::I64))),
        Shape::ConstU64 => Ok(one(word_of(x, 0), RegType::Plain(ValueType::U64))),
        Shape::ConstF64 => Ok(one(word_of(x, 0), RegType::Plain(ValueType::F64))),
        Shape::ConstDecimal => Ok(one(word_of(x, 0), RegType::Plain(ValueType::Decimal))),
        Shape::ConstPool => match pool_type(p, word_of(x, 1)) {
            Some(t) => Ok(one(word_of(x, 0), RegType::Plain(t))),
            None => Err(bad),
        },
        Shape::Unary => match op {
            Opcode::Mov => match known_of(st, word_of(x, 1)) {
                Some(t) => Ok(one(word_of(x, 0), t.duplicate())),
                None => Err(VerifyError::UninitializedRead { func, pc, reg: word_of(x, 1) }),
            },
            _ => {
                let srcs: Vec<u32> = vec![word_of(x, 1)];
                assert(srcs@ =~= seq![typing::word(x@, 1)]);
                fixed_effect(st, func, pc, x, srcs)
            },
        },
        Shape::ToDec => {
            let srcs: Vec<u32> = vec![word_of(x, 1)];
            assert(srcs@ =~= seq![typing::word(x@, 1)]);
            fixed_effect(st, func, pc, x, srcs)
        },
        Shape::Binary => match op {
            Opcode::ArrayGet => match element_type(p, st, func, pc, op, word_of(x, 1), 0) {
                Ok(t) => match check_reg(st, func, pc, word_of(x, 2), ValueType::U64) {
                    Ok(()) => Ok(one(word_of(x, 0), RegType::Plain(t))),
                    Err(e) => Err(e),
                },
                Err(e) => Err(e),
            },
            _ => {
                let srcs: Vec<u32> = vec![word_of(x, 1), word_of(x, 2)];
                assert(srcs@ =~= seq![typing::word(x@, 1), typing::word(x@, 2)]);
                fixed_effect(st, func, pc, x, srcs)
            },
        },
        Shape::Slice => {
            let srcs: Vec<u32> = vec![word_of(x, 1), word_of(x, 2), word_of(x, 3)];
            assert(srcs@ =~= seq![typing::word(x@, 1), typing::word(x@, 2), typing::word(x@, 3)]);
            fixed_effect(st, func, pc, x, srcs)
        },
        Shape::Select => {
            match check_reg(st, func, pc, word_of(x, 1), ValueType::Bool) {
                Ok(()) => {},
                Err(e) => {
                    return Err(e);
                },
            }
            let ra: u32 = word_of(x, 2);
            let rb: u32 = word_of(x, 3);
            match (known_of(st, ra), known_of(st, rb)) {
                (Some(a), Some(b)) => {
                    let ta: ValueType = a.ty();
                    let tb: ValueType = b.ty();
                    if ta != tb {
                        Err(VerifyError::TypeMismatch { func, pc, reg: rb, expected: ta, actual: tb })
                    } else if a.same(b) {
                        Ok(one(word_of(x, 0), a.duplicate()))
                    } else {
                        Ok(one(word_of(x, 0), RegType::Plain(ValueType::Agg)))
                    }
                },
                (None, _) => Err(VerifyError::UninitializedRead { func, pc, reg: ra }),
                (_, None) => Err(VerifyError::UninitializedRead { func, pc, reg: rb }),
            }
        },
        Shape::IndexGet => match op {
            Opcode::BytesGetImm => {
                let srcs: Vec<u32> = vec![word_of(x, 1)];
                assert(srcs@ =~= seq![typing::word(x@, 1)]);
                fixed_effect(st, func, pc, x, srcs)
            },
            _ => match element_type(p, st, func, pc, op, word_of(x, 1), word_of(x, 2)) {
                Ok(t) => Ok(one(word_of(x, 0), RegType::Plain(t))),
                Err(e) => Err(e),
            },
        },
        Shape::FieldGet => match element_type(p, st, func, pc, op, word_of(x, 1), word_of(x, 2)) {
            Ok(t) => Ok(one(word_of(x, 0), RegType::Plain(t))),
            Err(e) => Err(e),
        },
        Shape::Br => match check_reg(st, func, pc, word_of(x, 0), ValueType::Bool) {
            Ok(()) => Ok(nothing()),
            Err(e) => Err(e),
        },
        Shape::Call => match function_types(p, word_of(x, 1)) {
            Some((args, results)) => call_effect(st, func, pc, x, args, results),
            None => Err(bad),
        },
        Shape::HostCall => match host_types(p, word_of(x, 1)) {
            Some((args, results)) => call_effect(st, func, pc, x, args, results),
            None => Err(bad),
        },
        Shape::Ret => match check_reg(st, func, pc, word_of(x, 0), ValueType::Unit) {
            Ok(()) => match check_regs(st, func, pc, list_of(x, 1).as_slice(), rets) {
                Ok(()) => Ok(nothing()),
                Err(e) => Err(e),
            },
            Err(e) => Err(e),
        },
        Shape::TupleNew => match types_of_regs(st, func, pc, list_of(x, 1).as_slice()) {
            Ok(ts) => Ok(one(word_of(x, 0), RegType::Tuple(ts))),
            Err(e) => Err(e),
        },
        Shape::StructNew => match struct_types(p, word_of(x, 1)) {
            Some(fields) => match check_regs(st, func, pc, list_of(x, 2).as_slice(), fields) {
                Ok(()) => Ok(one(word_of(x, 0), RegType::Struct(TypeId(word_of(x, 1))))),
                Err(e) => Err(e),
            },
            None => Err(bad),
        },
        Shape::ArrayNew => match elem_type(p, word_of(x, 1)) {
            Some(t) => {
                let values: &Vec<u32> = list_of(x, 2);
                let tys: Vec<ValueType> = repeated(t, values.len());
                match check_regs(st, func, pc, values.as_slice(), tys.as_slice()) {
                    Ok(()) => Ok(one(word_of(x, 0), RegType::Array(ElemTypeId(word_of(x, 1))))),
                    Err(e) => Err(e),
                }
            },
            None => Err(bad),
        },
    }
}

/// The same type `n` times.
fn repeated(t: ValueType, n: usize) -> (v: Vec<ValueType>)
    ensures
        v@ == Seq::new(n as nat, |k: int| t),
{
    let mut v: Vec<ValueType> = Vec::new();
    while v.len() < n
        invariant
            v@.len() <= n,
            forall|k: int| 0 <= k < v@.len() ==> v@[k] == t,
        decreases n - v@.len(),
    {
        v.push(t);
    }
    assert(v@ =~= Seq::new(n as nat, |k: int| t));
    v
}

} // verus!
