//! What the instructions on byte strings, strings and constants mean.

use vstd::prelude::*;
use vstd::utf8::*;

use crate::bytecode::OperandModel;
use crate::machine;
use crate::machine::{FrameModel, Limits, Next, Reply, State};
use crate::meaning::{
    at_one, at_three, at_two, exists_reg, holds, stands_at, trapped, wrote,
};
use crate::opcode::Opcode;
use crate::program::ConstEntry;
use crate::text;
use crate::trap::Trap;
use crate::value::{Decimal, ValueModel};
use crate::verify::VerifiedView;

verus! {

/// Two strings are equal exactly where they have the same characters, and two byte strings exactly
/// where they have the same bytes.
pub proof fn law_equality(
    vp: VerifiedView,
    lim: Limits,
    st: State,
    reply: Reply,
    dst: u32,
    a: u32,
    b: u32,
    s: Seq<char>,
    t: Seq<char>,
    x: Seq<u8>,
    y: Seq<u8>,
)
    requires
        exists_reg(st, dst),
    ensures
        ({
            let next = machine::step(vp, lim, st, reply);
            let strings = holds(st, a, ValueModel::Str(s)) && holds(st, b, ValueModel::Str(t));
            let bytes = holds(st, a, ValueModel::Bytes(x)) && holds(st, b, ValueModel::Bytes(y));
            &&& strings && at_two(vp, st, Opcode::StrEq, dst, a, b) && s == t ==> next == wrote(
                st,
                dst,
                ValueModel::Bool(true),
            )
            &&& strings && at_two(vp, st, Opcode::StrEq, dst, a, b) && s != t ==> next == wrote(
                st,
                dst,
                ValueModel::Bool(false),
            )
            &&& strings && at_two(vp, st, Opcode::StrEq, dst, a, b) && next == wrote(
                st,
                dst,
                ValueModel::Bool(true),
            ) ==> encode_utf8(s) == encode_utf8(t)
            &&& bytes && at_two(vp, st, Opcode::BytesEq, dst, a, b) && x == y ==> next == wrote(
                st,
                dst,
                ValueModel::Bool(true),
            )
            &&& bytes && at_two(vp, st, Opcode::BytesEq, dst, a, b) && x != y ==> next == wrote(
                st,
                dst,
                ValueModel::Bool(false),
            )
        }),
{
    let next = machine::step(vp, lim, st, reply);
    if holds(st, a, ValueModel::Str(s)) && holds(st, b, ValueModel::Str(t)) && at_two(
        vp,
        st,
        Opcode::StrEq,
        dst,
        a,
        b,
    ) && s != t {
        assert(next == wrote(st, dst, ValueModel::Bool(false)));
        let f = (next->Running_0).frames.last();
        assert(f.regs[dst as int] == ValueModel::Bool(false));
        let g = (wrote(st, dst, ValueModel::Bool(true))->Running_0).frames.last();
        assert(g.regs[dst as int] == ValueModel::Bool(true));
    }
}

/// Strings and byte strings are put together: first the first, and then the second.
pub proof fn law_concatenation(
    vp: VerifiedView,
    lim: Limits,
    st: State,
    reply: Reply,
    dst: u32,
    a: u32,
    b: u32,
    s: Seq<char>,
    t: Seq<char>,
    x: Seq<u8>,
    y: Seq<u8>,
)
    requires
        exists_reg(st, dst),
    ensures
        ({
            let next = machine::step(vp, lim, st, reply);
            &&& holds(st, a, ValueModel::Str(s)) && holds(st, b, ValueModel::Str(t)) && at_two(
                vp,
                st,
                Opcode::StrConcat,
                dst,
                a,
                b,
            ) ==> next == wrote(st, dst, ValueModel::Str(s + t))
            &&& holds(st, a, ValueModel::Bytes(x)) && holds(st, b, ValueModel::Bytes(y)) && at_two(
                vp,
                st,
                Opcode::BytesConcat,
                dst,
                a,
                b,
            ) ==> next == wrote(st, dst, ValueModel::Bytes(x + y))
        }),
{
}

/// The length of a byte string is the number of its bytes, and that of a string the number of
/// bytes of its UTF-8 encoding.
pub proof fn law_lengths(
    vp: VerifiedView,
    lim: Limits,
    st: State,
    reply: Reply,
    dst: u32,
    a: u32,
    s: Seq<char>,
    x: Seq<u8>,
)
    requires
        exists_reg(st, dst),
    ensures
        ({
            let next = machine::step(vp, lim, st, reply);
            &&& holds(st, a, ValueModel::Str(s)) && at_one(vp, st, Opcode::StrLen, dst, a)
                ==> next == wrote(st, dst, ValueModel::U64(encode_utf8(s).len() as u64))
            &&& holds(st, a, ValueModel::Bytes(x)) && at_one(vp, st, Opcode::BytesLen, dst, a)
                ==> next == wrote(st, dst, ValueModel::U64(x.len() as u64))
        }),
{
}

/// A string and its UTF-8 bytes are made of each other. Bytes of no string trap.
pub proof fn law_utf8(
    vp: VerifiedView,
    lim: Limits,
    st: State,
    reply: Reply,
    dst: u32,
    a: u32,
    s: Seq<char>,
    x: Seq<u8>,
)
    requires
        exists_reg(st, dst),
    ensures
        ({
            let next = machine::step(vp, lim, st, reply);
            &&& holds(st, a, ValueModel::Str(s)) && at_one(vp, st, Opcode::StrToBytes, dst, a)
                ==> next == wrote(st, dst, ValueModel::Bytes(encode_utf8(s)))
            &&& holds(st, a, ValueModel::Bytes(encode_utf8(s))) && at_one(
                vp,
                st,
                Opcode::BytesToStr,
                dst,
                a,
            ) ==> next == wrote(st, dst, ValueModel::Str(s))
            &&& holds(st, a, ValueModel::Bytes(x)) && !valid_utf8(x) && at_one(
                vp,
                st,
                Opcode::BytesToStr,
                dst,
                a,
            ) ==> next == trapped(vp, st, Trap::InvalidUtf8)
        }),
{
    encode_utf8_valid_utf8(s);
    encode_utf8_decode_utf8(s);
}

/// A byte is taken by its index, from a register or from the instruction. An index behind the last
/// byte traps.
pub proof fn law_byte(
    vp: VerifiedView,
    lim: Limits,
    st: State,
    reply: Reply,
    dst: u32,
    a: u32,
    b: u32,
    x: Seq<u8>,
    i: u64,
    k: u32,
)
    requires
        exists_reg(st, dst),
        holds(st, a, ValueModel::Bytes(x)),
    ensures
        ({
            let next = machine::step(vp, lim, st, reply);
            &&& holds(st, b, ValueModel::U64(i)) && at_two(vp, st, Opcode::BytesGet, dst, a, b)
                ==> next == if i < x.len() {
                wrote(st, dst, ValueModel::U64(x[i as int] as u64))
            } else {
                trapped(vp, st, Trap::IndexOutOfBounds)
            }
            &&& at_two(vp, st, Opcode::BytesGetImm, dst, a, k) ==> next == if k < x.len() {
                wrote(st, dst, ValueModel::U64(x[k as int] as u64))
            } else {
                trapped(vp, st, Trap::IndexOutOfBounds)
            }
        }),
{
}

/// A part of a byte string is what stands between two positions: behind the first part and before
/// the last of three. Positions that are not in order, or lie behind the end, trap.
pub proof fn law_bytes_slice(
    vp: VerifiedView,
    lim: Limits,
    st: State,
    reply: Reply,
    dst: u32,
    a: u32,
    b: u32,
    c: u32,
    x: Seq<u8>,
    y: Seq<u8>,
    z: Seq<u8>,
    start: u64,
    end: u64,
)
    requires
        exists_reg(st, dst),
        holds(st, a, ValueModel::Bytes(x + y + z)),
        holds(st, b, ValueModel::U64(start)),
        holds(st, c, ValueModel::U64(end)),
        at_three(vp, st, Opcode::BytesSlice, dst, a, b, c),
    ensures
        start == x.len() && end == x.len() + y.len() ==> machine::step(vp, lim, st, reply) == wrote(
            st,
            dst,
            ValueModel::Bytes(y),
        ),
        start > end || end > (x + y + z).len() ==> machine::step(vp, lim, st, reply) == trapped(
            vp,
            st,
            Trap::IndexOutOfBounds,
        ),
{
    if start == x.len() && end == x.len() + y.len() {
        assert((x + y + z).subrange(start as int, end as int) =~= y);
    }
}

/// Where two strings are put together, the second starts at a boundary of characters.
pub proof fn lemma_boundary(p: Seq<char>, q: Seq<char>)
    ensures
        is_char_boundary(encode_utf8(p + q), encode_utf8(p).len() as int),
    decreases p.len(),
{
    let b = encode_utf8(p + q);
    encode_utf8_valid_utf8(p + q);
    if p.len() > 0 {
        let r = p.drop_first();
        lemma_boundary(r, q);
        assert((p + q).drop_first() =~= r + q);
        encode_utf8_first_scalar(p + q);
        assert(pop_first_scalar(b) =~= encode_utf8(r + q));
        text::lemma_utf8_concat(p, q);
        encode_utf8_first_scalar(p);
    }
}

/// A part of a string is what stands between two positions in its UTF-8 bytes: the second of three
/// strings that it is put together of, where the positions are those of its first and its last
/// byte. Positions that are not in order or lie behind the end trap, and so does one inside a
/// character.
pub proof fn law_str_slice(
    vp: VerifiedView,
    lim: Limits,
    st: State,
    reply: Reply,
    dst: u32,
    a: u32,
    b: u32,
    c: u32,
    x: Seq<char>,
    y: Seq<char>,
    z: Seq<char>,
    start: u64,
    end: u64,
)
    requires
        exists_reg(st, dst),
        holds(st, a, ValueModel::Str(x + y + z)),
        holds(st, b, ValueModel::U64(start)),
        holds(st, c, ValueModel::U64(end)),
        at_three(vp, st, Opcode::StrSlice, dst, a, b, c),
    ensures
        ({
            let next = machine::step(vp, lim, st, reply);
            let bytes = encode_utf8(x + y + z);
            &&& start == encode_utf8(x).len() && end == encode_utf8(x).len() + encode_utf8(y).len()
                ==> next == wrote(st, dst, ValueModel::Str(y))
            &&& start > end || end > bytes.len() ==> next == trapped(
                vp,
                st,
                Trap::IndexOutOfBounds,
            )
            &&& start <= end <= bytes.len() && (!is_char_boundary(bytes, start as int)
                || !is_char_boundary(bytes, end as int)) ==> next == trapped(
                vp,
                st,
                Trap::StrNotCharBoundary,
            )
        }),
{
    if start == encode_utf8(x).len() && end == encode_utf8(x).len() + encode_utf8(y).len() {
        let bytes = encode_utf8(x + y + z);
        text::lemma_utf8_concat(x, y);
        text::lemma_utf8_concat(x + y, z);
        lemma_boundary(x, y + z);
        assert(x + (y + z) =~= x + y + z);
        lemma_boundary(x + y, z);
        assert(bytes.subrange(start as int, end as int) =~= encode_utf8(y));
        encode_utf8_decode_utf8(y);
    }
}

/// Constants of instructions are written as they stand there.
pub proof fn law_constants(
    vp: VerifiedView,
    lim: Limits,
    st: State,
    reply: Reply,
    dst: u32,
    b: bool,
    i: i64,
    u: u64,
    scale: u8,
)
    requires
        exists_reg(st, dst),
    ensures
        ({
            let next = machine::step(vp, lim, st, reply);
            let d = OperandModel::Word(dst);
            &&& stands_at(vp, st, Opcode::ConstUnit, seq![d]) ==> next == wrote(
                st,
                dst,
                ValueModel::Unit,
            )
            &&& stands_at(vp, st, Opcode::ConstBool, seq![d, OperandModel::Bool(b)]) ==> next == wrote(
                st,
                dst,
                ValueModel::Bool(b),
            )
            &&& stands_at(vp, st, Opcode::ConstI64, seq![d, OperandModel::I64(i)]) ==> next == wrote(
                st,
                dst,
                ValueModel::I64(i),
            )
            &&& stands_at(vp, st, Opcode::ConstU64, seq![d, OperandModel::U64(u)]) ==> next == wrote(
                st,
                dst,
                ValueModel::U64(u),
            )
            &&& stands_at(vp, st, Opcode::ConstF64, seq![d, OperandModel::Bits(u)]) ==> next == wrote(
                st,
                dst,
                ValueModel::F64(u),
            )
            &&& stands_at(
                vp,
                st,
                Opcode::ConstDecimal,
                seq![d, OperandModel::I64(i), OperandModel::Byte(scale)],
            ) ==> next == wrote(st, dst, ValueModel::Decimal(Decimal { mantissa: i, scale }))
        }),
{
}

/// A constant of the pool is written: of a byte string the bytes of its range, and of a string the
/// characters whose UTF-8 bytes stand in its range.
pub proof fn law_pool_constants(
    vp: VerifiedView,
    lim: Limits,
    st: State,
    reply: Reply,
    dst: u32,
    k: u32,
    before: Seq<char>,
    s: Seq<char>,
    behind: Seq<char>,
)
    requires
        exists_reg(st, dst),
        stands_at(
            vp,
            st,
            Opcode::ConstPool,
            seq![OperandModel::Word(dst), OperandModel::Word(k)],
        ),
        k < vp.program.const_pool.len(),
    ensures
        ({
            let next = machine::step(vp, lim, st, reply);
            let p = vp.program;
            match p.const_pool[k as int] {
                ConstEntry::Unit => next == wrote(st, dst, ValueModel::Unit),
                ConstEntry::Bool(b) => next == wrote(st, dst, ValueModel::Bool(b)),
                ConstEntry::I64(i) => next == wrote(st, dst, ValueModel::I64(i)),
                ConstEntry::U64(u) => next == wrote(st, dst, ValueModel::U64(u)),
                ConstEntry::F64(f) => next == wrote(st, dst, ValueModel::F64(f)),
                ConstEntry::Decimal { mantissa, scale } => next == wrote(
                    st,
                    dst,
                    ValueModel::Decimal(Decimal { mantissa, scale }),
                ),
                ConstEntry::Bytes(r) => r.offset + r.len <= p.const_bytes_data.len() && r.offset
                    + r.len <= u32::MAX ==> next == wrote(
                    st,
                    dst,
                    ValueModel::Bytes(
                        p.const_bytes_data.subrange(r.offset as int, r.offset + r.len),
                    ),
                ),
                ConstEntry::Str(r) => p.const_str_data == encode_utf8(before + s + behind)
                    && r.offset == encode_utf8(before).len() && r.len == encode_utf8(s).len()
                    && r.offset + r.len <= u32::MAX ==> next == wrote(st, dst, ValueModel::Str(s)),
            }
        }),
{
    text::lemma_utf8_concat(before, s);
    text::lemma_utf8_concat(before + s, behind);
    lemma_boundary(before, s + behind);
    assert(before + (s + behind) =~= before + s + behind);
    lemma_boundary(before + s, behind);
    encode_utf8_decode_utf8(s);
    let bytes = encode_utf8(before + s + behind);
    let i = encode_utf8(before).len() as int;
    assert(bytes.subrange(i, i + encode_utf8(s).len()) =~= encode_utf8(s));
}

/// `nop` does nothing but go on, and `trap` ends the run with its code.
pub proof fn law_nop_and_trap(
    vp: VerifiedView,
    lim: Limits,
    st: State,
    reply: Reply,
    code: u32,
)
    ensures
        stands_at(vp, st, Opcode::Nop, seq![]) ==> machine::step(vp, lim, st, reply)
            == Next::Running(
            State {
                frames: st.frames.drop_last().push(
                    FrameModel {
                        func: st.frames.last().func,
                        ix: st.frames.last().ix + 1,
                        regs: st.frames.last().regs,
                    },
                ),
                heap: st.heap,
                fuel: (st.fuel - 1) as u64,
                host_calls: st.host_calls,
            },
        ),
        stands_at(vp, st, Opcode::Trap, seq![OperandModel::Word(code)]) ==> machine::step(
            vp,
            lim,
            st,
            reply,
        ) == trapped(vp, st, Trap::TrapCode(code)),
{
}

} // verus!
